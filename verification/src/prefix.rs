//! The insertion-point heuristic: where in a declaration's verbatim source
//! text the thread-local keyword belongs.
//!
//! The front end exposes no range for a declaration's type specifier, and
//! its token stream is unreliable for at least one primitive type, so the
//! insertion point is found textually. Anchored at the start of the
//! declaration's text, the matcher greedily consumes ASCII whitespace and
//! whitespace-separated occurrences, in any order, of the storage and
//! qualifier tokens `const`, `static`, `extern`, and the project-specific
//! `NON_EXEC_STATIC` macro token. The match always succeeds, possibly
//! consuming zero bytes, and the keyword is inserted right after it.

use vstd::prelude::*;

verus! {

/// ASCII whitespace: space, tab, line feed, vertical tab, form feed,
/// carriage return.
pub open spec fn is_space(b: u8) -> bool {
    b == 32 || b == 9 || b == 10 || b == 11 || b == 12 || b == 13
}

/// The token `const` starts at `i`.
pub open spec fn has_const_at(s: Seq<u8>, i: int) -> bool {
    &&& i + 5 <= s.len()
    &&& s[i] == 99
    &&& s[i + 1] == 111
    &&& s[i + 2] == 110
    &&& s[i + 3] == 115
    &&& s[i + 4] == 116
}

/// The token `static` starts at `i`.
pub open spec fn has_static_at(s: Seq<u8>, i: int) -> bool {
    &&& i + 6 <= s.len()
    &&& s[i] == 115
    &&& s[i + 1] == 116
    &&& s[i + 2] == 97
    &&& s[i + 3] == 116
    &&& s[i + 4] == 105
    &&& s[i + 5] == 99
}

/// The token `extern` starts at `i`.
pub open spec fn has_extern_at(s: Seq<u8>, i: int) -> bool {
    &&& i + 6 <= s.len()
    &&& s[i] == 101
    &&& s[i + 1] == 120
    &&& s[i + 2] == 116
    &&& s[i + 3] == 101
    &&& s[i + 4] == 114
    &&& s[i + 5] == 110
}

/// The token `NON_EXEC_STATIC` starts at `i`.
pub open spec fn has_non_exec_static_at(s: Seq<u8>, i: int) -> bool {
    &&& i + 15 <= s.len()
    &&& s[i] == 78
    &&& s[i + 1] == 79
    &&& s[i + 2] == 78
    &&& s[i + 3] == 95
    &&& s[i + 4] == 69
    &&& s[i + 5] == 88
    &&& s[i + 6] == 69
    &&& s[i + 7] == 67
    &&& s[i + 8] == 95
    &&& s[i + 9] == 83
    &&& s[i + 10] == 84
    &&& s[i + 11] == 65
    &&& s[i + 12] == 84
    &&& s[i + 13] == 73
    &&& s[i + 14] == 67
}

/// The length of the prefix token starting at `i`, if any. The four tokens
/// start with pairwise distinct bytes, so at most one can match.
pub open spec fn keyword_at(s: Seq<u8>, i: int) -> Option<int> {
    if has_const_at(s, i) {
        Some(5int)
    } else if has_static_at(s, i) {
        Some(6int)
    } else if has_extern_at(s, i) {
        Some(6int)
    } else if has_non_exec_static_at(s, i) {
        Some(15int)
    } else {
        None
    }
}

/// Where the greedy prefix match starting at `i` ends: whitespace bytes and
/// prefix tokens are consumed until neither follows.
pub open spec fn match_end(s: Seq<u8>, i: int) -> int
    recommends
        0 <= i <= s.len(),
    decreases s.len() - i,
{
    if i < s.len() && is_space(s[i]) {
        match_end(s, i + 1)
    } else if 0 <= i && keyword_at(s, i) is Some {
        match_end(s, i + keyword_at(s, i)->0)
    } else {
        i
    }
}

/// The match never runs past the end of the text.
pub proof fn lemma_match_end_bounds(s: Seq<u8>, i: int)
    requires
        0 <= i <= s.len(),
    ensures
        i <= match_end(s, i) <= s.len(),
    decreases s.len() - i,
{
    if i < s.len() && is_space(s[i]) {
        lemma_match_end_bounds(s, i + 1);
    } else if keyword_at(s, i) is Some {
        lemma_match_end_bounds(s, i + keyword_at(s, i)->0);
    }
}

/// Tests whether the prefix token at `i` exists, returning its length.
fn keyword_len_at(code: &Vec<u8>, i: usize) -> (r: Option<usize>)
    requires
        i <= code@.len(),
    ensures
        match r {
            Some(k) => keyword_at(code@, i as int) == Some(k as int),
            None => keyword_at(code@, i as int) is None,
        },
{
    let n = code.len();
    if n >= 5 && i <= n - 5 && code[i] == 99 && code[i + 1] == 111 && code[i + 2] == 110 && code[i + 3]
        == 115 && code[i + 4] == 116 {
        Some(5)
    } else if n >= 6 && i <= n - 6 && code[i] == 115 && code[i + 1] == 116 && code[i + 2] == 97 && code[i + 3]
        == 116 && code[i + 4] == 105 && code[i + 5] == 99 {
        Some(6)
    } else if n >= 6 && i <= n - 6 && code[i] == 101 && code[i + 1] == 120 && code[i + 2] == 116 && code[i
        + 3] == 101 && code[i + 4] == 114 && code[i + 5] == 110 {
        Some(6)
    } else if n >= 15 && i <= n - 15 && code[i] == 78 && code[i + 1] == 79 && code[i + 2] == 78 && code[i + 3]
        == 95 && code[i + 4] == 69 && code[i + 5] == 88 && code[i + 6] == 69 && code[i + 7] == 67
        && code[i + 8] == 95 && code[i + 9] == 83 && code[i + 10] == 84 && code[i + 11] == 65
        && code[i + 12] == 84 && code[i + 13] == 73 && code[i + 14] == 67 {
        Some(15)
    } else {
        None
    }
}

/// Computes where the greedy prefix match of the declaration text ends; the
/// thread-local keyword is inserted at this offset within the declaration.
pub fn insertion_offset(code: &Vec<u8>) -> (r: usize)
    ensures
        r as int == match_end(code@, 0),
        r <= code@.len(),
{
    let n = code.len();
    let mut i: usize = 0;
    loop
        invariant
            n == code@.len(),
            i <= n,
            match_end(code@, 0) == match_end(code@, i as int),
        decreases n - i,
    {
        if i < n {
            let b = code[i];
            if b == 32 || b == 9 || b == 10 || b == 11 || b == 12 || b == 13 {
                i = i + 1;
                continue ;
            }
        }
        match keyword_len_at(code, i) {
            Some(k) => {
                proof {
                    lemma_match_end_bounds(code@, i as int + k as int);
                }
                i = i + k;
            },
            None => {
                return i;
            },
        }
    }
}

} // verus!
