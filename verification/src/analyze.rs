//! Candidate discovery: classifying one declaration node and computing its
//! zero-length insertion edit.
//!
//! The C front end is a capability interface: the caller walks the
//! declaration tree and hands each visited node over as a `NodeInfo` of
//! plain values. A node is a candidate when it is a variable declaration
//! directly at file scope, or a variable declaration anywhere with static
//! storage. Candidates named after the hard-coded sentinel, candidates of
//! const-qualified type (or arrays of const elements), and candidates that
//! already carry thread-local storage are skipped; each surviving candidate
//! yields one zero-length insertion of the thread-local keyword at the
//! offset the prefix matcher computes.

use vstd::prelude::*;
use crate::edit::{FileRewrite, FileRewriteModel, Rewrite, RewriteModel, record_models};
use crate::paths::{SourcePath, bytes_eq, path_has_prefix, starts_with};
use crate::prefix::match_end;

verus! {

/// What the front end reports about a declared type: whether the type is
/// const-qualified, whether it is a (possibly size-unknown) array type, and,
/// for array types, whether the element type is const-qualified.
#[derive(Clone, Copy)]
pub struct TypeInfo {
    pub is_const: bool,
    pub is_array: bool,
    pub element_const: bool,
}

/// A declaration's full syntactic range: the file it physically lies in,
/// the byte offset of its start in that file, and the verbatim source text
/// it spans.
pub struct RangeInfo {
    pub path: SourcePath,
    pub start: usize,
    pub fragment: Vec<u8>,
}

/// The mathematical content of a `RangeInfo`.
pub ghost struct RangeModel {
    pub path: Seq<u8>,
    pub start: int,
    pub fragment: Seq<u8>,
}

impl View for RangeInfo {
    type V = RangeModel;

    open spec fn view(&self) -> RangeModel {
        RangeModel { path: self.path@, start: self.start as int, fragment: self.fragment@ }
    }
}

/// One declaration node as the front end reports it: syntactic kind and
/// position, name, storage class, declared type, presence of an explicit
/// thread-local specifier, spelling location, and syntactic range. `None`
/// in an optional field means the front end could not provide it.
pub struct NodeInfo {
    pub is_var_decl: bool,
    pub at_file_scope: bool,
    pub is_static: bool,
    pub name: Option<Vec<u8>>,
    pub already_tls: bool,
    pub ty: Option<TypeInfo>,
    pub loc_path: Option<SourcePath>,
    pub range: Option<RangeInfo>,
}

/// The mathematical content of a `NodeInfo`.
pub ghost struct NodeModel {
    pub is_var_decl: bool,
    pub at_file_scope: bool,
    pub is_static: bool,
    pub name: Option<Seq<u8>>,
    pub already_tls: bool,
    pub ty: Option<TypeInfo>,
    pub loc_path: Option<Seq<u8>>,
    pub range: Option<RangeModel>,
}

impl View for NodeInfo {
    type V = NodeModel;

    open spec fn view(&self) -> NodeModel {
        NodeModel {
            is_var_decl: self.is_var_decl,
            at_file_scope: self.at_file_scope,
            is_static: self.is_static,
            name: match self.name {
                Option::Some(n) => Option::Some(n@),
                Option::None => Option::None,
            },
            already_tls: self.already_tls,
            ty: self.ty,
            loc_path: match self.loc_path {
                Option::Some(p) => Option::Some(p@),
                Option::None => Option::None,
            },
            range: match self.range {
                Option::Some(r) => Option::Some(r@),
                Option::None => Option::None,
            },
        }
    }
}

/// The sentinel name `no_such_variable`: a macro-hack placeholder
/// declaration, never a real variable, always excluded.
pub open spec fn sentinel_name() -> Seq<u8> {
    seq![
        110u8,
        111,
        95,
        115,
        117,
        99,
        104,
        95,
        118,
        97,
        114,
        105,
        97,
        98,
        108,
        101,
    ]
}

/// The bytes of the sentinel name.
pub fn sentinel_name_bytes() -> (r: Vec<u8>)
    ensures
        r@ == sentinel_name(),
{
    let mut v: Vec<u8> = Vec::new();
    v.push(110u8);
    v.push(111);
    v.push(95);
    v.push(115);
    v.push(117);
    v.push(99);
    v.push(104);
    v.push(95);
    v.push(118);
    v.push(97);
    v.push(114);
    v.push(105);
    v.push(97);
    v.push(98);
    v.push(108);
    v.push(101);
    proof {
        assert(v@ =~= sentinel_name());
    }
    v
}

/// The inserted text: the thread-local keyword `__thread` and one space.
pub open spec fn tls_text() -> Seq<u8> {
    seq![95u8, 95, 116, 104, 114, 101, 97, 100, 32]
}

/// The bytes of the inserted text.
pub fn tls_text_bytes() -> (r: Vec<u8>)
    ensures
        r@ == tls_text(),
{
    let mut v: Vec<u8> = Vec::new();
    v.push(95u8);
    v.push(95);
    v.push(116);
    v.push(104);
    v.push(114);
    v.push(101);
    v.push(97);
    v.push(100);
    v.push(32);
    proof {
        assert(v@ =~= tls_text());
    }
    v
}

/// A node's defining location lies under the source root; nodes without a
/// location pass the filter.
pub open spec fn in_source_root(n: NodeModel, root: Seq<u8>) -> bool {
    match n.loc_path {
        Option::Some(p) => path_has_prefix(p, root),
        Option::None => true,
    }
}

/// A node is a candidate: a variable declaration directly at file scope, or
/// a variable declaration anywhere with static storage class.
pub open spec fn is_candidate(n: NodeModel) -> bool {
    n.is_var_decl && (n.at_file_scope || n.is_static)
}

/// The node bears the sentinel name.
pub open spec fn has_sentinel_name(n: NodeModel) -> bool {
    n.name == Option::Some(sentinel_name())
}

/// The declared type needs no thread-local copy: it is const-qualified, or
/// it is an array type whose element type is const-qualified.
pub open spec fn type_is_constant(t: TypeInfo) -> bool {
    t.is_const || (t.is_array && t.element_const)
}

/// The insertion offset for a declaration range: its start plus the end of
/// the greedy prefix match over its verbatim text.
pub open spec fn insert_offset_of(r: RangeModel) -> int {
    r.start + match_end(r.fragment, 0)
}

/// The insertion offset fits in a machine word.
pub open spec fn offset_fits(r: RangeModel) -> bool {
    insert_offset_of(r) <= usize::MAX
}

/// The node survives every filter and yields an edit.
pub open spec fn emits(n: NodeModel, root: Seq<u8>) -> bool {
    &&& in_source_root(n, root)
    &&& is_candidate(n)
    &&& !has_sentinel_name(n)
    &&& n.ty is Some
    &&& !type_is_constant(n.ty->0)
    &&& !n.already_tls
    &&& n.range is Some
    &&& offset_fits(n.range->0)
}

/// The raw edit record an emitting node yields: a zero-length insertion of
/// the thread-local keyword at the computed offset, against the file the
/// declaration's range lies in.
pub open spec fn emitted_record(n: NodeModel) -> FileRewriteModel {
    FileRewriteModel {
        path: n.range->0.path,
        rewrite: RewriteModel {
            offset: insert_offset_of(n.range->0),
            length: 0,
            text: tls_text(),
        },
    }
}

/// The outcome of classifying one node. Exactly one case applies; only
/// `Emit` carries an edit.
pub enum NodeDecision {
    /// The node's defining location lies outside the source root; no edit,
    /// but traversal into its children continues.
    OutsideRoot,
    /// Not a variable declaration at file scope nor a static one.
    NotACandidate,
    /// The hard-coded sentinel placeholder; never rewritten.
    Sentinel,
    /// The front end reported no type; logged and skipped.
    NoType,
    /// Constant declaration; constants need no thread-local copy.
    Constant,
    /// Already carries an explicit thread-local specifier; an anomaly,
    /// logged and skipped, which makes a second pass a no-op.
    AlreadyTls,
    /// No usable range, or the insertion offset does not fit in a machine
    /// word; logged and skipped.
    NoInsertionPoint,
    /// The node yields this raw edit record.
    Emit(FileRewrite),
}

/// Classifies one declaration node against the source root, applying the
/// filters in order: root boundary, candidate rule, sentinel name, missing
/// type, constness, existing thread-local storage, insertion point.
pub fn decide_node(node: &NodeInfo, source_root: &SourcePath) -> (r: NodeDecision)
    ensures
        (r is OutsideRoot <==> !in_source_root(node@, source_root@)),
        (r is NotACandidate <==> in_source_root(node@, source_root@) && !is_candidate(node@)),
        (r is Sentinel <==> in_source_root(node@, source_root@) && is_candidate(node@)
            && has_sentinel_name(node@)),
        (r is NoType <==> in_source_root(node@, source_root@) && is_candidate(node@)
            && !has_sentinel_name(node@) && node@.ty is None),
        (r is Constant <==> in_source_root(node@, source_root@) && is_candidate(node@)
            && !has_sentinel_name(node@) && node@.ty is Some && type_is_constant(node@.ty->0)),
        (r is AlreadyTls <==> in_source_root(node@, source_root@) && is_candidate(node@)
            && !has_sentinel_name(node@) && node@.ty is Some && !type_is_constant(node@.ty->0)
            && node@.already_tls),
        (r is NoInsertionPoint <==> in_source_root(node@, source_root@) && is_candidate(node@)
            && !has_sentinel_name(node@) && node@.ty is Some && !type_is_constant(node@.ty->0)
            && !node@.already_tls && (node@.range is None || !offset_fits(node@.range->0))),
        (r is Emit <==> emits(node@, source_root@)),
        r is Emit ==> r->Emit_0@ == emitted_record(node@),
{
    match &node.loc_path {
        Option::Some(p) => {
            if !starts_with(p, source_root) {
                return NodeDecision::OutsideRoot;
            }
        },
        Option::None => {},
    }
    if !(node.is_var_decl && (node.at_file_scope || node.is_static)) {
        return NodeDecision::NotACandidate;
    }
    match &node.name {
        Option::Some(name) => {
            let sentinel = sentinel_name_bytes();
            if bytes_eq(name, &sentinel) {
                return NodeDecision::Sentinel;
            }
        },
        Option::None => {},
    }
    let ty = match &node.ty {
        Option::Some(t) => *t,
        Option::None => {
            return NodeDecision::NoType;
        },
    };
    if ty.is_const || (ty.is_array && ty.element_const) {
        return NodeDecision::Constant;
    }
    if node.already_tls {
        return NodeDecision::AlreadyTls;
    }
    let range = match &node.range {
        Option::Some(rg) => rg,
        Option::None => {
            return NodeDecision::NoInsertionPoint;
        },
    };
    let within = crate::prefix::insertion_offset(&range.fragment);
    if range.start > usize::MAX - within {
        return NodeDecision::NoInsertionPoint;
    }
    let offset = range.start + within;
    NodeDecision::Emit(
        FileRewrite {
            path: range.path.clone(),
            rewrite: Rewrite { offset, length: 0, text: tls_text_bytes() },
        },
    )
}

/// The views of a node list.
pub open spec fn node_models(nodes: Seq<NodeInfo>) -> Seq<NodeModel> {
    nodes.map_values(|n: NodeInfo| n@)
}

/// The raw edit records that classifying `nodes` in order emits.
pub open spec fn emitted_records(nodes: Seq<NodeModel>, root: Seq<u8>) -> Seq<FileRewriteModel>
    decreases nodes.len(),
{
    if nodes.len() == 0 {
        Seq::empty()
    } else {
        let rest = emitted_records(nodes.drop_last(), root);
        if emits(nodes.last(), root) {
            rest.push(emitted_record(nodes.last()))
        } else {
            rest
        }
    }
}

/// Classifies every visited node of one analysis pass and collects the raw
/// edit records of the nodes that survive all filters, in visit order.
pub fn analyze_nodes(nodes: &Vec<NodeInfo>, source_root: &SourcePath) -> (records: Vec<
    FileRewrite,
>)
    ensures
        record_models(records@) == emitted_records(node_models(nodes@), source_root@),
{
    let ghost models = node_models(nodes@);
    let mut records: Vec<FileRewrite> = Vec::new();
    let mut k: usize = 0;
    proof {
        assert(models.take(0) =~= Seq::<NodeModel>::empty());
        assert(record_models(records@) =~= Seq::<FileRewriteModel>::empty());
    }
    while k < nodes.len()
        invariant
            models == node_models(nodes@),
            k <= nodes@.len(),
            record_models(records@) == emitted_records(models.take(k as int), source_root@),
        decreases nodes@.len() - k,
    {
        let node = &nodes[k];
        proof {
            assert(models[k as int] == nodes@[k as int]@);
            assert(models.take(k as int + 1).drop_last() =~= models.take(k as int));
            assert(models.take(k as int + 1).last() == models[k as int]);
        }
        let ghost prev = record_models(records@);
        match decide_node(node, source_root) {
            NodeDecision::Emit(fr) => {
                records.push(fr);
                proof {
                    assert(record_models(records@) =~= prev.push(fr@));
                }
            },
            _ => {},
        }
        k = k + 1;
    }
    proof {
        assert(models.take(nodes@.len() as int) =~= models);
    }
    records
}

/// Law: classifying a tree whose declarations all carry thread-local
/// storage already emits no edit, so with `lemma_apply_no_edits` a second
/// run of the engine leaves every file unchanged.
pub proof fn lemma_rerun_emits_nothing(nodes: Seq<NodeModel>, root: Seq<u8>)
    requires
        forall|i: int| 0 <= i < nodes.len() ==> (#[trigger] nodes[i]).already_tls,
    ensures
        emitted_records(nodes, root) == Seq::<FileRewriteModel>::empty(),
    decreases nodes.len(),
{
    if nodes.len() > 0 {
        assert(forall|i: int|
            0 <= i < nodes.drop_last().len() ==> (#[trigger] nodes.drop_last()[i]).already_tls);
        lemma_rerun_emits_nothing(nodes.drop_last(), root);
        assert(!emits(nodes.last(), root));
    }
}

/// Law: the engine is idempotent. After a first run every rewritten
/// declaration carries thread-local storage, so a second run's analysis
/// emits no record and applying its (empty) edit list reproduces each
/// file's text unchanged.
pub proof fn lemma_second_run_is_identity(nodes: Seq<NodeModel>, root: Seq<u8>, source: Seq<u8>)
    requires
        forall|i: int| 0 <= i < nodes.len() ==> (#[trigger] nodes[i]).already_tls,
    ensures
        emitted_records(nodes, root) == Seq::<FileRewriteModel>::empty(),
        crate::edit::apply_edits_spec(source, Seq::<RewriteModel>::empty(), 0) == source,
{
    lemma_rerun_emits_nothing(nodes, root);
    crate::edit::lemma_apply_no_edits(source);
}

} // verus!
