//! Canonical file identity for edits, and the path operations the engine
//! needs: equality, directory-prefix testing for the source-root filter, and
//! making a path relative to a base directory for reporting.
//!
//! Paths are held as their raw bytes. A directory prefix is recognized at a
//! component boundary: `base` is a prefix of `path` when `base`'s bytes open
//! `path` and the match ends at the end of `path`, at a `/`, or after a
//! trailing `/` in `base`.

use vstd::prelude::*;

verus! {

/// Canonical identity of a source file; the grouping key for all edits.
#[derive(Debug)]
pub struct SourcePath {
    pub bytes: Vec<u8>,
}

impl View for SourcePath {
    type V = Seq<u8>;

    open spec fn view(&self) -> Seq<u8> {
        self.bytes@
    }
}

impl Clone for SourcePath {
    fn clone(&self) -> (r: Self)
        ensures
            r@ == self@,
    {
        SourcePath { bytes: clone_bytes(&self.bytes) }
    }
}

/// Copies a byte vector.
pub fn clone_bytes(v: &Vec<u8>) -> (r: Vec<u8>)
    ensures
        r@ == v@,
{
    let mut r: Vec<u8> = Vec::new();
    let mut i: usize = 0;
    while i < v.len()
        invariant
            i <= v@.len(),
            r@ == v@.subrange(0, i as int),
        decreases v@.len() - i,
    {
        r.push(v[i]);
        proof {
            assert(v@.subrange(0, i + 1 as int) =~= v@.subrange(0, i as int).push(v@[i as int]));
        }
        i = i + 1;
    }
    proof {
        assert(v@.subrange(0, v@.len() as int) =~= v@);
    }
    r
}

/// Byte-for-byte equality of two byte vectors.
pub fn bytes_eq(a: &Vec<u8>, b: &Vec<u8>) -> (r: bool)
    ensures
        r <==> a@ == b@,
{
    if a.len() != b.len() {
        return false;
    }
    let mut i: usize = 0;
    while i < a.len()
        invariant
            a@.len() == b@.len(),
            i <= a@.len(),
            forall|k: int| 0 <= k < i ==> a@[k] == b@[k],
        decreases a@.len() - i,
    {
        if a[i] != b[i] {
            return false;
        }
        i = i + 1;
    }
    proof {
        assert(a@ =~= b@);
    }
    true
}

/// Equality of two source paths.
pub fn path_eq(a: &SourcePath, b: &SourcePath) -> (r: bool)
    ensures
        r <==> a@ == b@,
{
    bytes_eq(&a.bytes, &b.bytes)
}

/// The byte `/`, the component separator in source paths.
pub open spec fn separator() -> u8 {
    47u8
}

/// True when `base` names a directory prefix of `path`: `base`'s bytes open
/// `path`, and the match ends at the end of `path`, at a component boundary
/// `/`, or right after a trailing `/` in `base`. An empty `base` is a prefix
/// of every path.
pub open spec fn path_has_prefix(path: Seq<u8>, base: Seq<u8>) -> bool {
    &&& base.len() <= path.len()
    &&& path.subrange(0, base.len() as int) == base
    &&& {
        ||| base.len() == path.len()
        ||| base.len() == 0
        ||| path[base.len() as int] == separator()
        ||| base[base.len() - 1] == separator()
    }
}

/// Tests whether `base` is a directory prefix of `path`.
pub fn starts_with(path: &SourcePath, base: &SourcePath) -> (r: bool)
    ensures
        r == path_has_prefix(path@, base@),
{
    let plen = path.bytes.len();
    let blen = base.bytes.len();
    if blen > plen {
        return false;
    }
    let mut i: usize = 0;
    while i < blen
        invariant
            blen == base@.len(),
            plen == path@.len(),
            blen <= plen,
            i <= blen,
            forall|k: int| 0 <= k < i ==> path@[k] == base@[k],
        decreases blen - i,
    {
        if path.bytes[i] != base.bytes[i] {
            proof {
                assert(path@.subrange(0, blen as int)[i as int] != base@[i as int]);
            }
            return false;
        }
        i = i + 1;
    }
    proof {
        assert(path@.subrange(0, blen as int) =~= base@);
    }
    if blen == plen || blen == 0 {
        true
    } else if path.bytes[blen] == 47u8 {
        true
    } else {
        base.bytes[blen - 1] == 47u8
    }
}

/// The bytes of `path` made relative to the directory `base`: when `base` is
/// a directory prefix, the remainder after the base and one separator;
/// otherwise `path` unchanged.
pub open spec fn relative_spec(path: Seq<u8>, base: Seq<u8>) -> Seq<u8> {
    if !path_has_prefix(path, base) {
        path
    } else if base.len() < path.len() && path[base.len() as int] == separator() {
        path.skip(base.len() + 1 as int)
    } else {
        path.skip(base.len() as int)
    }
}

/// A path to be reported relative to a base directory.
#[derive(Debug)]
pub struct RelPath {
    pub path: SourcePath,
}

impl RelPath {
    /// Returns this path made relative to `base`, per `relative_spec`.
    pub fn relative_to(&self, base: &SourcePath) -> (r: SourcePath)
        ensures
            r@ == relative_spec(self.path@, base@),
    {
        if !starts_with(&self.path, base) {
            return self.path.clone();
        }
        let blen = base.bytes.len();
        let from = if blen < self.path.bytes.len() && self.path.bytes[blen] == 47u8 {
            blen + 1
        } else {
            blen
        };
        let mut r: Vec<u8> = Vec::new();
        let mut i: usize = from;
        while i < self.path.bytes.len()
            invariant
                from <= i <= self.path@.len(),
                r@ == self.path@.subrange(from as int, i as int),
            decreases self.path@.len() - i,
        {
            r.push(self.path.bytes[i]);
            proof {
                assert(self.path@.subrange(from as int, i + 1 as int) =~= self.path@.subrange(
                    from as int,
                    i as int,
                ).push(self.path@[i as int]));
            }
            i = i + 1;
        }
        proof {
            assert(self.path@.subrange(from as int, self.path@.len() as int) =~= self.path@.skip(
                from as int,
            ));
        }
        SourcePath { bytes: r }
    }
}

} // verus!
