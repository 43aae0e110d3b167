//! Merging of all workers' raw edit records into one finalized, ordered
//! edit list per file, with conflict detection.
//!
//! Records are grouped by file, then by offset. Proposals at one
//! `(file, offset)` must agree on `(length, text)`; a disagreement is a
//! conflict, and any conflict fails the whole run so that no file is
//! written. On success every file's list is strictly ascending by offset
//! and carries each proposed edit exactly once.

use vstd::prelude::*;
use crate::edit::{FileEdits, FileEditsModel, FileRewrite, FileRewriteModel, Rewrite, RewriteModel,
    edits_models, record_models, rewrite_models};
use crate::paths::{SourcePath, bytes_eq, path_eq};

verus! {

/// Two records aim at the same place: same file, same offset.
pub open spec fn same_target(a: FileRewriteModel, b: FileRewriteModel) -> bool {
    a.path == b.path && a.rewrite.offset == b.rewrite.offset
}

/// Two proposals substitute the same thing: same consumed length, same
/// replacement text.
pub open spec fn same_subst(a: RewriteModel, b: RewriteModel) -> bool {
    a.length == b.length && a.text == b.text
}

/// Two records conflict: same target, different substitution.
pub open spec fn conflicting(a: FileRewriteModel, b: FileRewriteModel) -> bool {
    same_target(a, b) && !same_subst(a.rewrite, b.rewrite)
}

/// Some pair of records conflicts.
pub open spec fn has_conflict(records: Seq<FileRewriteModel>) -> bool {
    exists|i: int, j: int|
        0 <= i < records.len() && 0 <= j < records.len() && conflicting(records[i], records[j])
}

/// One reported conflict: the file, and two proposals at the same offset
/// in it that substitute different things.
#[derive(Debug)]
pub struct Conflict {
    pub path: SourcePath,
    pub first: Rewrite,
    pub second: Rewrite,
}

/// The mathematical content of a `Conflict`.
pub ghost struct ConflictModel {
    pub path: Seq<u8>,
    pub first: RewriteModel,
    pub second: RewriteModel,
}

impl View for Conflict {
    type V = ConflictModel;

    open spec fn view(&self) -> ConflictModel {
        ConflictModel { path: self.path@, first: self.first@, second: self.second@ }
    }
}

/// A reported conflict is real: both proposals occur in the input, against
/// the same file and offset, and disagree.
pub open spec fn conflict_witnessed(records: Seq<FileRewriteModel>, c: ConflictModel) -> bool {
    &&& input_contains(records, c.path, c.first)
    &&& input_contains(records, c.path, c.second)
    &&& c.first.offset == c.second.offset
    &&& !same_subst(c.first, c.second)
}

/// The input holds a record for `(p, rw)`.
pub open spec fn input_contains(records: Seq<FileRewriteModel>, p: Seq<u8>, rw: RewriteModel) -> bool {
    exists|i: int| 0 <= i < records.len() && (#[trigger] records[i]).path == p && records[i].rewrite == rw
}

/// The finalized output holds an edit `rw` for file `p`.
pub open spec fn output_contains(out: Seq<FileEditsModel>, p: Seq<u8>, rw: RewriteModel) -> bool {
    exists|f: int, k: int|
        0 <= f < out.len() && 0 <= k < out[f].rewrites.len() && out[f].path == p
            && (#[trigger] out[f].rewrites[k]) == rw
}

/// No two output entries name the same file.
pub open spec fn paths_distinct(out: Seq<FileEditsModel>) -> bool {
    forall|f: int, g: int| 0 <= f < g < out.len() ==> (#[trigger] out[f]).path != (#[trigger] out[g]).path
}

/// One file's finalized list is strictly ascending by offset.
pub open spec fn offsets_ascending(rws: Seq<RewriteModel>) -> bool {
    forall|i: int, j: int|
        0 <= i < j < rws.len() ==> (#[trigger] rws[i]).offset < (#[trigger] rws[j]).offset
}

/// A rewrite list holds `x`.
pub open spec fn rws_contains(rws: Seq<RewriteModel>, x: RewriteModel) -> bool {
    exists|k: int| 0 <= k < rws.len() && rws[k] == x
}

/// The finalized output is exactly the conflict-free input, grouped by
/// file and ordered by offset: file entries are distinct and non-empty,
/// each entry is strictly ascending, and an edit stands in the output for a
/// file exactly when some input record proposed it for that file.
pub open spec fn condensed_ok(records: Seq<FileRewriteModel>, out: Seq<FileEditsModel>) -> bool {
    &&& paths_distinct(out)
    &&& forall|f: int| 0 <= f < out.len() ==> offsets_ascending((#[trigger] out[f]).rewrites)
    &&& forall|f: int| 0 <= f < out.len() ==> (#[trigger] out[f]).rewrites.len() >= 1
    &&& forall|p: Seq<u8>, rw: RewriteModel|
        #![trigger output_contains(out, p, rw)]
        #![trigger input_contains(records, p, rw)]
        output_contains(out, p, rw) <==> input_contains(records, p, rw)
}

/// Collects every conflicting pair among the records: for each later record
/// that disagrees with an earlier one about the same target, one `Conflict`
/// naming both proposals. The result is empty exactly when no two records
/// conflict.
fn find_conflicts(file_rewrites: &Vec<FileRewrite>) -> (conflicts: Vec<Conflict>)
    ensures
        conflicts@.len() == 0 <==> !has_conflict(record_models(file_rewrites@)),
        forall|c: int|
            0 <= c < conflicts@.len() ==> conflict_witnessed(
                record_models(file_rewrites@),
                (#[trigger] conflicts@[c])@,
            ),
{
    let ghost m = record_models(file_rewrites@);
    let n = file_rewrites.len();
    let mut conflicts: Vec<Conflict> = Vec::new();
    let mut i: usize = 0;
    while i < n
        invariant
            n == file_rewrites@.len(),
            m == record_models(file_rewrites@),
            i <= n,
            conflicts@.len() == 0 ==> forall|x: int, y: int|
                0 <= x < i && 0 <= y < x ==> !conflicting(m[x], m[y]),
            forall|c: int|
                0 <= c < conflicts@.len() ==> conflict_witnessed(m, (#[trigger] conflicts@[c])@),
        decreases n - i,
    {
        let a = &file_rewrites[i];
        proof {
            assert(m[i as int] == file_rewrites@[i as int]@);
        }
        let mut j: usize = 0;
        while j < i
            invariant
                n == file_rewrites@.len(),
                m == record_models(file_rewrites@),
                i < n,
                j <= i,
                m[i as int] == file_rewrites@[i as int]@,
                a@ == m[i as int],
                conflicts@.len() == 0 ==> forall|x: int, y: int|
                    0 <= x < i && 0 <= y < x ==> !conflicting(m[x], m[y]),
                conflicts@.len() == 0 ==> forall|y: int|
                    0 <= y < j ==> !conflicting(m[i as int], m[y]),
                forall|c: int|
                    0 <= c < conflicts@.len() ==> conflict_witnessed(
                        m,
                        (#[trigger] conflicts@[c])@,
                    ),
            decreases i - j,
        {
            let b = &file_rewrites[j];
            proof {
                assert(m[j as int] == file_rewrites@[j as int]@);
            }
            if path_eq(&a.path, &b.path) && a.rewrite.offset == b.rewrite.offset {
                let agree = a.rewrite.length == b.rewrite.length && bytes_eq(
                    &a.rewrite.text,
                    &b.rewrite.text,
                );
                if !agree {
                    let c = Conflict {
                        path: b.path.clone(),
                        first: b.rewrite.clone(),
                        second: a.rewrite.clone(),
                    };
                    proof {
                        assert(m[j as int].path == c@.path && m[j as int].rewrite == c@.first);
                        assert(m[i as int].path == c@.path && m[i as int].rewrite == c@.second);
                        assert(input_contains(m, c@.path, c@.first));
                        assert(input_contains(m, c@.path, c@.second));
                        assert(conflict_witnessed(m, c@));
                    }
                    conflicts.push(c);
                } else {
                    proof {
                        assert(same_subst(m[i as int].rewrite, m[j as int].rewrite));
                        assert(!conflicting(m[i as int], m[j as int]));
                    }
                }
            } else {
                proof {
                    assert(!same_target(m[i as int], m[j as int]));
                    assert(!conflicting(m[i as int], m[j as int]));
                }
            }
            j = j + 1;
        }
        i = i + 1;
    }
    proof {
        if conflicts@.len() == 0 && has_conflict(m) {
            let (x, y): (int, int) = choose|x: int, y: int|
                0 <= x < m.len() && 0 <= y < m.len() && conflicting(m[x], m[y]);
            if x > y {
                assert(!conflicting(m[x], m[y]));
            } else if y > x {
                assert(!conflicting(m[y], m[x]));
                assert(conflicting(m[y], m[x]));
            } else {
                assert(same_subst(m[x].rewrite, m[x].rewrite));
            }
        }
        if conflicts@.len() > 0 {
            let c0 = conflicts@[0]@;
            let i0 = choose|i: int|
                0 <= i < m.len() && (#[trigger] m[i]).path == c0.path && m[i].rewrite == c0.first;
            let j0 = choose|j: int|
                0 <= j < m.len() && (#[trigger] m[j]).path == c0.path && m[j].rewrite == c0.second;
            assert(conflicting(m[i0], m[j0]));
        }
    }
    conflicts
}

/// Inserts one proposal into a file's list, keeping offsets strictly
/// ascending. A proposal whose offset is already present must agree with
/// the present one and is dropped as a duplicate, so the list's contents
/// afterwards are the old contents plus the proposal.
fn insert_sorted(list: &mut Vec<Rewrite>, rw: Rewrite)
    requires
        offsets_ascending(rewrite_models(old(list)@)),
        forall|k: int|
            0 <= k < old(list)@.len() && (#[trigger] rewrite_models(old(list)@)[k]).offset
                == rw@.offset ==> same_subst(rewrite_models(old(list)@)[k], rw@),
    ensures
        offsets_ascending(rewrite_models(final(list)@)),
        final(list)@.len() >= 1,
        forall|x: RewriteModel|
            #![trigger rws_contains(rewrite_models(final(list)@), x)]
            #![trigger rws_contains(rewrite_models(old(list)@), x)]
            rws_contains(rewrite_models(final(list)@), x) <==> (rws_contains(
                rewrite_models(old(list)@),
                x,
            ) || x == rw@),
{
    let ghost oldm = rewrite_models(list@);
    let n = list.len();
    let mut idx: usize = 0;
    while idx < n && list[idx].offset < rw.offset
        invariant
            n == list@.len(),
            oldm == rewrite_models(list@),
            idx <= n,
            forall|k: int| 0 <= k < idx ==> (#[trigger] oldm[k]).offset < rw@.offset,
        decreases n - idx,
    {
        proof {
            assert(oldm[idx as int] == list@[idx as int]@);
        }
        idx = idx + 1;
    }
    proof {
        if idx < n {
            assert(oldm[idx as int] == list@[idx as int]@);
        }
    }
    if idx < n && list[idx].offset == rw.offset {
        proof {
            assert(oldm[idx as int].offset == rw@.offset);
            assert(same_subst(oldm[idx as int], rw@));
            assert(oldm[idx as int] == rw@);
            assert(rws_contains(oldm, rw@));
        }
    } else {
        let ghost rwm = rw@;
        list.insert(idx, rw);
        let ghost newm = rewrite_models(list@);
        proof {
            assert(newm =~= oldm.insert(idx as int, rwm)) by {
                assert forall|k: int| 0 <= k < newm.len() implies newm[k] == oldm.insert(
                    idx as int,
                    rwm,
                )[k] by {
                    assert(newm[k] == list@[k]@);
                }
            }
            // The element at idx, if any, lies beyond the new offset.
            assert(idx < oldm.len() ==> oldm[idx as int].offset > rwm.offset);
            assert forall|i2: int, j2: int| 0 <= i2 < j2 < newm.len() implies (
            #[trigger] newm[i2]).offset < (#[trigger] newm[j2]).offset by {
                if i2 < idx && j2 < idx {
                } else if i2 < idx && j2 == idx {
                } else if i2 == idx {
                    assert(newm[j2] == oldm[j2 - 1]);
                    assert(oldm[idx as int].offset <= oldm[j2 - 1].offset);
                } else if i2 < idx && j2 > idx {
                    assert(newm[j2] == oldm[j2 - 1]);
                } else {
                    assert(newm[i2] == oldm[i2 - 1]);
                    assert(newm[j2] == oldm[j2 - 1]);
                }
            }
            assert forall|x: RewriteModel| rws_contains(newm, x) implies (rws_contains(oldm, x)
                || x == rwm) by {
                let k = choose|k: int| 0 <= k < newm.len() && newm[k] == x;
                if k < idx {
                    assert(oldm[k] == x);
                } else if k > idx {
                    assert(oldm[k - 1] == x);
                }
            }
            assert forall|x: RewriteModel| rws_contains(oldm, x) || x == rwm implies rws_contains(
                newm,
                x,
            ) by {
                if x == rwm {
                    assert(newm[idx as int] == x);
                } else {
                    let k = choose|k: int| 0 <= k < oldm.len() && oldm[k] == x;
                    if k < idx {
                        assert(newm[k] == x);
                    } else {
                        assert(newm[k + 1] == x);
                    }
                }
            }
        }
    }
}

/// Some record among the first `t` names path `p`.
pub open spec fn path_seen(records: Seq<FileRewriteModel>, t: int, p: Seq<u8>) -> bool {
    exists|i: int| 0 <= i < t && i < records.len() && (#[trigger] records[i]).path == p
}

/// Groups conflict-free records by file, in order of each file's first
/// appearance, each file's list strictly ascending by offset.
fn build_condensed(file_rewrites: &Vec<FileRewrite>) -> (out: Vec<FileEdits>)
    requires
        !has_conflict(record_models(file_rewrites@)),
    ensures
        condensed_ok(record_models(file_rewrites@), edits_models(out@)),
{
    let ghost m = record_models(file_rewrites@);
    let n = file_rewrites.len();
    let mut out: Vec<FileEdits> = Vec::new();
    let mut t: usize = 0;
    proof {
        assert(edits_models(out@) =~= Seq::<FileEditsModel>::empty());
    }
    while t < n
        invariant
            n == file_rewrites@.len(),
            m == record_models(file_rewrites@),
            !has_conflict(m),
            t <= n,
            paths_distinct(edits_models(out@)),
            forall|f: int|
                0 <= f < out@.len() ==> offsets_ascending(
                    (#[trigger] edits_models(out@)[f]).rewrites,
                ),
            forall|f: int|
                0 <= f < out@.len() ==> (#[trigger] edits_models(out@)[f]).rewrites.len() >= 1,
            forall|f: int|
                0 <= f < out@.len() ==> path_seen(m, t as int, (#[trigger] edits_models(out@)[f]).path),
            forall|i: int|
                #![trigger m[i]]
                0 <= i < t ==> exists|f: int|
                    0 <= f < out@.len() && (#[trigger] edits_models(out@)[f]).path == m[i].path,
            forall|p: Seq<u8>, rw: RewriteModel|
                #![trigger output_contains(edits_models(out@), p, rw)]
                #![trigger input_contains(m, p, rw)]
                output_contains(edits_models(out@), p, rw) <==> (input_contains(m, p, rw)
                    && path_seen(m, t as int, p)),
        decreases n - t,
    {
        let rec = &file_rewrites[t];
        proof {
            assert(m[t as int] == file_rewrites@[t as int]@);
        }
        let mut found = false;
        let mut f: usize = 0;
        while f < out.len() && !found
            invariant
                f <= out@.len(),
                rec@ == m[t as int],
                !found ==> forall|g: int|
                    0 <= g < f ==> (#[trigger] edits_models(out@)[g]).path != m[t as int].path,
                found ==> exists|g: int|
                    0 <= g < out@.len() && (#[trigger] edits_models(out@)[g]).path
                        == m[t as int].path,
            decreases out@.len() - f,
        {
            if path_eq(&out[f].path, &rec.path) {
                found = true;
                proof {
                    assert(edits_models(out@)[f as int].path == m[t as int].path);
                }
            }
            f = f + 1;
        }
        if !found {
            let ghost p = m[t as int].path;
            let mut list: Vec<Rewrite> = Vec::new();
            let mut u: usize = t;
            proof {
                assert(rewrite_models(list@) =~= Seq::<RewriteModel>::empty());
            }
            while u < n
                invariant
                    n == file_rewrites@.len(),
                    m == record_models(file_rewrites@),
                    !has_conflict(m),
                    t <= u <= n,
                    t < n,
                    rec@ == m[t as int],
                    p == m[t as int].path,
                    offsets_ascending(rewrite_models(list@)),
                    forall|x: RewriteModel|
                        #![trigger rws_contains(rewrite_models(list@), x)]
                        rws_contains(rewrite_models(list@), x) <==> exists|i: int|
                            t <= i < u && (#[trigger] m[i]).path == p && m[i].rewrite == x,
                decreases n - u,
            {
                let r2 = &file_rewrites[u];
                proof {
                    assert(m[u as int] == file_rewrites@[u as int]@);
                }
                let ghost before = rewrite_models(list@);
                if path_eq(&r2.path, &rec.path) {
                    proof {
                        assert forall|k: int|
                            0 <= k < list@.len() && (#[trigger] rewrite_models(list@)[k]).offset
                                == r2.rewrite@.offset implies same_subst(
                            rewrite_models(list@)[k],
                            r2.rewrite@,
                        ) by {
                            let x = rewrite_models(list@)[k];
                            assert(rws_contains(rewrite_models(list@), x));
                            let i2 = choose|i: int|
                                t <= i < u && (#[trigger] m[i]).path == p && m[i].rewrite == x;
                            if !same_subst(m[i2].rewrite, m[u as int].rewrite) {
                                assert(conflicting(m[i2], m[u as int]));
                                assert(has_conflict(m));
                            }
                        }
                    }
                    insert_sorted(&mut list, r2.rewrite.clone());
                    proof {
                        assert forall|x: RewriteModel| rws_contains(
                            rewrite_models(list@),
                            x,
                        ) implies exists|i: int|
                            t <= i < u + 1 && (#[trigger] m[i]).path == p && m[i].rewrite == x by {
                            if x == r2.rewrite@ {
                                assert(m[u as int].path == p && m[u as int].rewrite == x);
                            } else {
                                assert(rws_contains(before, x));
                            }
                        }
                        assert forall|x: RewriteModel|
                            exists|i: int|
                                t <= i < u + 1 && (#[trigger] m[i]).path == p && m[i].rewrite
                                    == x implies rws_contains(rewrite_models(list@), x) by {
                            let i2 = choose|i: int|
                                t <= i < u + 1 && (#[trigger] m[i]).path == p && m[i].rewrite == x;
                            if i2 < u {
                                assert(rws_contains(before, x));
                            } else {
                                assert(x == r2.rewrite@);
                            }
                        }
                    }
                } else {
                    proof {
                        assert(m[u as int].path != p);
                        assert forall|x: RewriteModel|
                            exists|i: int|
                                t <= i < u + 1 && (#[trigger] m[i]).path == p && m[i].rewrite
                                    == x implies rws_contains(rewrite_models(list@), x) by {
                            let i2 = choose|i: int|
                                t <= i < u + 1 && (#[trigger] m[i]).path == p && m[i].rewrite == x;
                            assert(i2 < u);
                        }
                    }
                }
                u = u + 1;
            }
            proof {
                assert(m[t as int].path == p);
                assert(rws_contains(rewrite_models(list@), m[t as int].rewrite));
            }
            let ghost oldout = edits_models(out@);
            let entry = FileEdits { path: rec.path.clone(), rewrites: list };
            let ghost entrym = entry@;
            out.push(entry);
            proof {
                assert(edits_models(out@) =~= oldout.push(entrym));
                let newout = edits_models(out@);
                // Entry invariants carry over; the new entry has the fresh path.
                assert(entrym.path == p);
                assert forall|f2: int, g2: int| 0 <= f2 < g2 < newout.len() implies (
                #[trigger] newout[f2]).path != (#[trigger] newout[g2]).path by {
                    if g2 < oldout.len() {
                        assert(newout[f2] == oldout[f2] && newout[g2] == oldout[g2]);
                    } else {
                        assert(newout[f2] == oldout[f2] && newout[g2] == entrym);
                    }
                }
                assert(path_seen(m, t as int + 1, p));
                assert forall|i: int| #![trigger m[i]] 0 <= i < t + 1 implies exists|f3: int|
                    0 <= f3 < newout.len() && (#[trigger] newout[f3]).path == m[i].path by {
                    if i < t {
                        let f3 = choose|f3: int|
                            0 <= f3 < oldout.len() && (#[trigger] oldout[f3]).path == m[i].path;
                        assert(newout[f3].path == m[i].path);
                    } else {
                        assert(newout[oldout.len() as int].path == m[i].path);
                    }
                }
                assert forall|p2: Seq<u8>, rw: RewriteModel| output_contains(
                    newout,
                    p2,
                    rw,
                ) implies (input_contains(m, p2, rw) && path_seen(m, t as int + 1, p2)) by {
                    let (f2, k2): (int, int) = choose|f2: int, k2: int|
                        0 <= f2 < newout.len() && 0 <= k2 < newout[f2].rewrites.len()
                            && newout[f2].path == p2 && (#[trigger] newout[f2].rewrites[k2]) == rw;
                    if f2 < oldout.len() {
                        assert(newout[f2] == oldout[f2]);
                        assert(oldout[f2].rewrites[k2] == rw);
                        assert(output_contains(oldout, p2, rw));
                    } else {
                        assert(newout[f2] == entrym);
                        assert(rws_contains(entrym.rewrites, rw));
                        let i2 = choose|i: int|
                            t <= i < n && (#[trigger] m[i]).path == p && m[i].rewrite == rw;
                        assert(input_contains(m, p2, rw));
                    }
                }
                assert forall|p2: Seq<u8>, rw: RewriteModel| (input_contains(m, p2, rw)
                    && path_seen(m, t as int + 1, p2)) implies output_contains(
                    newout,
                    p2,
                    rw,
                ) by {
                    if p2 == p {
                        let i2 = choose|i: int|
                            0 <= i < m.len() && (#[trigger] m[i]).path == p2 && m[i].rewrite == rw;
                        if i2 < t {
                            // p would then already stand in out, against freshness
                            assert(exists|f3: int|
                                0 <= f3 < oldout.len() && (#[trigger] oldout[f3]).path == p);
                            assert(false);
                        }
                        assert(rws_contains(entrym.rewrites, rw));
                        let k2 = choose|k: int|
                            0 <= k < entrym.rewrites.len() && entrym.rewrites[k] == rw;
                        assert((#[trigger] newout[oldout.len() as int].rewrites[k2]) == rw);
                        assert(output_contains(newout, p2, rw));
                    } else {
                        assert(path_seen(m, t as int, p2));
                        assert(output_contains(oldout, p2, rw));
                        let (f2, k2): (int, int) = choose|f2: int, k2: int|
                            0 <= f2 < oldout.len() && 0 <= k2 < oldout[f2].rewrites.len()
                                && oldout[f2].path == p2 && (#[trigger] oldout[f2].rewrites[k2])
                                == rw;
                        assert((#[trigger] newout[f2].rewrites[k2]) == rw);
                        assert(output_contains(newout, p2, rw));
                    }
                }
            }
        } else {
            proof {
                let g = choose|g: int|
                    0 <= g < out@.len() && (#[trigger] edits_models(out@)[g]).path
                        == m[t as int].path;
                assert(path_seen(m, t as int, m[t as int].path));
                assert(path_seen(m, t as int + 1, m[t as int].path));
                assert forall|p2: Seq<u8>, rw: RewriteModel| (input_contains(m, p2, rw)
                    && path_seen(m, t as int + 1, p2)) implies output_contains(
                    edits_models(out@),
                    p2,
                    rw,
                ) by {
                    if p2 == m[t as int].path {
                        assert(path_seen(m, t as int, p2));
                    } else {
                        let i2 = choose|i: int|
                            0 <= i < t + 1 && i < m.len() && (#[trigger] m[i]).path == p2;
                        assert(i2 < t);
                        assert(path_seen(m, t as int, p2));
                    }
                }
            }
        }
        t = t + 1;
    }
    proof {
        assert forall|p2: Seq<u8>, rw: RewriteModel| input_contains(m, p2, rw) implies path_seen(
            m,
            n as int,
            p2,
        ) by {
            let i2 = choose|i: int|
                0 <= i < m.len() && (#[trigger] m[i]).path == p2 && m[i].rewrite == rw;
        }
    }
    out
}

/// Merges all raw edit records into one finalized, offset-ordered edit list
/// per file. Exactly when two records propose different substitutions at
/// the same `(file, offset)`, the whole run fails and every conflicting
/// pair is reported instead; no finalized list is produced, so no file is
/// written.
pub fn condense_rewrites(file_rewrites: &Vec<FileRewrite>) -> (r: Result<
    Vec<FileEdits>,
    Vec<Conflict>,
>)
    ensures
        match r {
            Result::Ok(out) => !has_conflict(record_models(file_rewrites@)) && condensed_ok(
                record_models(file_rewrites@),
                edits_models(out@),
            ),
            Result::Err(conflicts) => {
                &&& has_conflict(record_models(file_rewrites@))
                &&& conflicts@.len() >= 1
                &&& forall|c: int|
                    0 <= c < conflicts@.len() ==> conflict_witnessed(
                        record_models(file_rewrites@),
                        (#[trigger] conflicts@[c])@,
                    )
            },
        },
{
    let conflicts = find_conflicts(file_rewrites);
    if conflicts.len() > 0 {
        return Result::Err(conflicts);
    }
    Result::Ok(build_condensed(file_rewrites))
}

} // verus!
