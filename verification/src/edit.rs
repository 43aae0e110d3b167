//! Byte-range edits against a file and their single-pass application.
//!
//! An edit list is applicable to a file when every edit lies within the
//! file, the offsets are strictly ascending, and no two edits overlap. The
//! applier walks the original text once, left to right, copying unchanged
//! spans and splicing in each edit's replacement text.

use vstd::prelude::*;
use crate::paths::SourcePath;

verus! {

/// One byte-range replacement against one file: `length` bytes at `offset`
/// in the original text are replaced by `text`.
#[derive(Debug)]
pub struct Rewrite {
    pub offset: usize,
    pub length: usize,
    pub text: Vec<u8>,
}

/// The mathematical content of a `Rewrite`.
pub ghost struct RewriteModel {
    pub offset: int,
    pub length: int,
    pub text: Seq<u8>,
}

impl View for Rewrite {
    type V = RewriteModel;

    open spec fn view(&self) -> RewriteModel {
        RewriteModel { offset: self.offset as int, length: self.length as int, text: self.text@ }
    }
}

impl Clone for Rewrite {
    fn clone(&self) -> (r: Self)
        ensures
            r@ == self@,
    {
        Rewrite {
            offset: self.offset,
            length: self.length,
            text: crate::paths::clone_bytes(&self.text),
        }
    }
}

/// A raw edit record: one edit, tagged with the file it belongs to. Workers
/// emit these; distinct workers may emit duplicate or conflicting records
/// for the same file, because a shared header is reached from several
/// translation units.
#[derive(Debug)]
pub struct FileRewrite {
    pub path: SourcePath,
    pub rewrite: Rewrite,
}

/// The mathematical content of a `FileRewrite`.
pub ghost struct FileRewriteModel {
    pub path: Seq<u8>,
    pub rewrite: RewriteModel,
}

impl View for FileRewrite {
    type V = FileRewriteModel;

    open spec fn view(&self) -> FileRewriteModel {
        FileRewriteModel { path: self.path@, rewrite: self.rewrite@ }
    }
}

/// Every edit lies within a file of `source_len` bytes.
pub open spec fn edits_in_bounds(source_len: int, edits: Seq<RewriteModel>) -> bool {
    forall|i: int|
        0 <= i < edits.len() ==> {
            &&& 0 <= (#[trigger] edits[i]).offset
            &&& 0 <= edits[i].length
            &&& edits[i].offset + edits[i].length <= source_len
        }
}

/// Edits come in strictly ascending offset order and no two overlap.
pub open spec fn edits_ordered(edits: Seq<RewriteModel>) -> bool {
    forall|i: int, j: int|
        0 <= i < j < edits.len() ==> {
            &&& (#[trigger] edits[i]).offset < (#[trigger] edits[j]).offset
            &&& edits[i].offset + edits[i].length <= edits[j].offset
        }
}

/// An edit list is applicable to a file of `source_len` bytes.
pub open spec fn edits_ok(source_len: int, edits: Seq<RewriteModel>) -> bool {
    edits_in_bounds(source_len, edits) && edits_ordered(edits)
}

/// One file's finalized edit list, as the aggregator hands it to the
/// applier.
#[derive(Debug)]
pub struct FileEdits {
    pub path: SourcePath,
    pub rewrites: Vec<Rewrite>,
}

/// The mathematical content of a `FileEdits`.
pub ghost struct FileEditsModel {
    pub path: Seq<u8>,
    pub rewrites: Seq<RewriteModel>,
}

impl View for FileEdits {
    type V = FileEditsModel;

    open spec fn view(&self) -> FileEditsModel {
        FileEditsModel { path: self.path@, rewrites: rewrite_models(self.rewrites@) }
    }
}

/// The view of a finalized edit-list list.
pub open spec fn edits_models(out: Seq<FileEdits>) -> Seq<FileEditsModel> {
    out.map_values(|fe: FileEdits| fe@)
}

/// The view of a rewrite list.
pub open spec fn rewrite_models(rewrites: Seq<Rewrite>) -> Seq<RewriteModel> {
    rewrites.map_values(|r: Rewrite| r@)
}

/// The view of a record list.
pub open spec fn record_models(records: Seq<FileRewrite>) -> Seq<FileRewriteModel> {
    records.map_values(|fr: FileRewrite| fr@)
}

/// The text that results from applying `edits` to `source` starting at
/// `cursor`: each unchanged span is copied, each edit's replacement text is
/// spliced in, and the cursor jumps past the consumed bytes.
pub open spec fn apply_edits_spec(source: Seq<u8>, edits: Seq<RewriteModel>, cursor: int) -> Seq<u8>
    recommends
        edits_ok(source.len() as int, edits),
        0 <= cursor <= source.len(),
    decreases edits.len(),
{
    if edits.len() == 0 {
        source.subrange(cursor, source.len() as int)
    } else {
        source.subrange(cursor, edits[0].offset) + edits[0].text + apply_edits_spec(
            source,
            edits.skip(1),
            edits[0].offset + edits[0].length,
        )
    }
}

/// Appends `src[from..to]` to `out`.
pub fn push_range(out: &mut Vec<u8>, src: &Vec<u8>, from: usize, to: usize)
    requires
        from <= to <= src@.len(),
    ensures
        final(out)@ == old(out)@ + src@.subrange(from as int, to as int),
{
    let mut i: usize = from;
    while i < to
        invariant
            from <= i <= to <= src@.len(),
            out@ == old(out)@ + src@.subrange(from as int, i as int),
        decreases to - i,
    {
        out.push(src[i]);
        proof {
            assert(src@.subrange(from as int, i + 1 as int) =~= src@.subrange(
                from as int,
                i as int,
            ).push(src@[i as int]));
        }
        i = i + 1;
    }
}

/// Tests whether `rewrites` is applicable to `source`: in bounds, strictly
/// ascending, non-overlapping.
pub fn edits_applicable(source: &Vec<u8>, rewrites: &Vec<Rewrite>) -> (r: bool)
    ensures
        r == edits_ok(source@.len() as int, rewrite_models(rewrites@)),
{
    let ghost m = rewrite_models(rewrites@);
    let n = rewrites.len();
    let mut i: usize = 0;
    while i < n
        invariant
            n == rewrites@.len(),
            m == rewrite_models(rewrites@),
            i <= n,
            forall|k: int|
                0 <= k < i ==> (#[trigger] m[k]).offset + m[k].length <= source@.len(),
            forall|k: int|
                0 <= k < i && k + 1 < n ==> {
                    &&& (#[trigger] m[k]).offset < m[k + 1].offset
                    &&& m[k].offset + m[k].length <= m[k + 1].offset
                },
        decreases n - i,
    {
        let r = &rewrites[i];
        proof {
            assert(m[i as int] == rewrites@[i as int]@);
        }
        if r.length > source.len() || r.offset > source.len() - r.length {
            proof {
                assert(!(m[i as int].offset + m[i as int].length <= source@.len()));
                assert(!edits_in_bounds(source@.len() as int, m));
            }
            return false;
        }
        if i + 1 < n {
            let next = &rewrites[i + 1];
            proof {
                assert(m[i as int + 1] == rewrites@[i as int + 1]@);
            }
            if r.offset >= next.offset || r.offset + r.length > next.offset {
                proof {
                    assert(!(m[i as int].offset < m[i as int + 1].offset && m[i as int].offset
                        + m[i as int].length <= m[i as int + 1].offset));
                    assert(!edits_ordered(m));
                }
                return false;
            }
        }
        i = i + 1;
    }
    proof {
        // Adjacent ordering gives the pairwise ordering by transitivity.
        assert forall|a: int, b: int| 0 <= a < b < m.len() implies (#[trigger] m[a]).offset
            < (#[trigger] m[b]).offset && m[a].offset + m[a].length <= m[b].offset by {
            lemma_adjacent_ordered(m, a, b);
        }
    }
    true
}

/// Pairwise ordering follows from ordering of adjacent edits.
proof fn lemma_adjacent_ordered(m: Seq<RewriteModel>, a: int, b: int)
    requires
        0 <= a < b < m.len(),
        forall|k: int|
            0 <= k < m.len() - 1 ==> {
                &&& (#[trigger] m[k]).offset < m[k + 1].offset
                &&& m[k].offset + m[k].length <= m[k + 1].offset
            },
        forall|k: int| 0 <= k < m.len() ==> 0 <= (#[trigger] m[k]).length,
    ensures
        m[a].offset < m[b].offset,
        m[a].offset + m[a].length <= m[b].offset,
    decreases b - a,
{
    if a + 1 < b {
        lemma_adjacent_ordered(m, a + 1, b);
    }
}

/// Applies an applicable edit list to `source` in one left-to-right pass.
pub fn apply(source: &Vec<u8>, rewrites: &Vec<Rewrite>) -> (out: Vec<u8>)
    requires
        edits_ok(source@.len() as int, rewrite_models(rewrites@)),
    ensures
        out@ == apply_edits_spec(source@, rewrite_models(rewrites@), 0),
{
    let ghost m = rewrite_models(rewrites@);
    let slen: usize = source.len();
    let mut out: Vec<u8> = Vec::new();
    let mut cursor: usize = 0;
    let mut k: usize = 0;
    proof {
        assert(m.skip(0) =~= m);
        assert(Seq::<u8>::empty() + apply_edits_spec(source@, m, 0) =~= apply_edits_spec(
            source@,
            m,
            0,
        ));
    }
    while k < rewrites.len()
        invariant
            m == rewrite_models(rewrites@),
            slen == source@.len(),
            edits_ok(source@.len() as int, m),
            k <= rewrites@.len(),
            k == 0 ==> cursor == 0,
            k > 0 ==> cursor as int == m[k as int - 1].offset + m[k as int - 1].length,
            cursor <= source@.len(),
            k < rewrites@.len() ==> cursor as int <= m[k as int].offset,
            apply_edits_spec(source@, m, 0) == out@ + apply_edits_spec(
                source@,
                m.skip(k as int),
                cursor as int,
            ),
        decreases rewrites@.len() - k,
    {
        let r = &rewrites[k];
        proof {
            assert(m[k as int] == rewrites@[k as int]@);
        }
        let ghost prev_out = out@;
        push_range(&mut out, source, cursor, r.offset);
        push_range(&mut out, &r.text, 0, r.text.len());
        proof {
            let tail = m.skip(k as int);
            assert(tail[0] == m[k as int]);
            assert(tail.skip(1) =~= m.skip(k as int + 1));
            assert(r.text@.subrange(0, r.text@.len() as int) =~= r.text@);
            assert(out@ =~= prev_out + source@.subrange(cursor as int, m[k as int].offset)
                + m[k as int].text);
            assert(apply_edits_spec(source@, tail, cursor as int) == source@.subrange(
                cursor as int,
                m[k as int].offset,
            ) + m[k as int].text + apply_edits_spec(
                source@,
                m.skip(k as int + 1),
                m[k as int].offset + m[k as int].length,
            ));
            assert(prev_out + apply_edits_spec(source@, tail, cursor as int) =~= out@
                + apply_edits_spec(
                source@,
                m.skip(k as int + 1),
                m[k as int].offset + m[k as int].length,
            ));
        }
        cursor = r.offset + r.length;
        k = k + 1;
    }
    let ghost prev_out = out@;
    push_range(&mut out, source, cursor, source.len());
    proof {
        assert(m.skip(k as int) =~= Seq::<RewriteModel>::empty());
        assert(apply_edits_spec(source@, m.skip(k as int), cursor as int) == source@.subrange(
            cursor as int,
            source@.len() as int,
        ));
    }
    out
}

/// Applying an empty edit list leaves a file unchanged.
pub proof fn lemma_apply_no_edits(source: Seq<u8>)
    ensures
        apply_edits_spec(source, Seq::<RewriteModel>::empty(), 0) == source,
{
    assert(apply_edits_spec(source, Seq::<RewriteModel>::empty(), 0) =~= source);
}

} // verus!
