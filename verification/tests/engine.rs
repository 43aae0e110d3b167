use pglite_buildtools::analyze::{
    analyze_nodes, decide_node, NodeDecision, NodeInfo, RangeInfo, TypeInfo,
};
use pglite_buildtools::condense::condense_rewrites;
use pglite_buildtools::edit::{apply, edits_applicable, FileRewrite, Rewrite};
use pglite_buildtools::options::{MainOpt, Opt, WorkerOpt};
use pglite_buildtools::paths::{bytes_eq, path_eq, starts_with, RelPath, SourcePath};
use pglite_buildtools::prefix::insertion_offset;
use pglite_buildtools::shard::{ceil_div, shard_bounds, shard_bounds_for_machine};

fn sp(bytes: &[u8]) -> SourcePath {
    SourcePath { bytes: bytes.to_vec() }
}

fn scalar(is_const: bool) -> TypeInfo {
    TypeInfo { is_const, is_array: false, element_const: false }
}

fn array(element_const: bool) -> TypeInfo {
    TypeInfo { is_const: false, is_array: true, element_const }
}

fn file_scope_node(name: &[u8], ty: TypeInfo, fragment: &[u8]) -> NodeInfo {
    NodeInfo {
        is_var_decl: true,
        at_file_scope: true,
        is_static: false,
        name: Some(name.to_vec()),
        already_tls: false,
        ty: Some(ty),
        loc_path: Some(sp(b"/src/a.c")),
        range: Some(RangeInfo { path: sp(b"/src/a.c"), start: 100, fragment: fragment.to_vec() }),
    }
}

fn root() -> SourcePath {
    sp(b"/src")
}

#[test]
fn insertion_after_static_prefix() {
    // For `static int x;` the matched prefix is exactly "static ".
    let node = file_scope_node(b"x", scalar(false), b"static int x;");
    match decide_node(&node, &root()) {
        NodeDecision::Emit(fr) => {
            assert_eq!(fr.rewrite.offset, 107);
            assert_eq!(fr.rewrite.length, 0);
            assert_eq!(fr.rewrite.text, b"__thread ".to_vec());
            assert_eq!(fr.path.bytes, b"/src/a.c".to_vec());
        }
        _ => panic!("expected an edit"),
    }
}

#[test]
fn constant_yields_no_edit() {
    let node = file_scope_node(b"x", scalar(true), b"static const int x = 1;");
    assert!(matches!(decide_node(&node, &root()), NodeDecision::Constant));
}

#[test]
fn const_array_yields_no_edit() {
    let node = file_scope_node(b"arr", array(true), b"static const int arr[10];");
    assert!(matches!(decide_node(&node, &root()), NodeDecision::Constant));
}

#[test]
fn pointer_array_yields_edit() {
    let node = file_scope_node(b"arr", array(false), b"static int *arr[10];");
    match decide_node(&node, &root()) {
        NodeDecision::Emit(fr) => {
            assert_eq!(fr.rewrite.offset, 107);
        }
        _ => panic!("expected an edit"),
    }
}

#[test]
fn sentinel_yields_no_edit() {
    let node = file_scope_node(b"no_such_variable", scalar(false), b"int no_such_variable;");
    assert!(matches!(decide_node(&node, &root()), NodeDecision::Sentinel));
}

#[test]
fn already_thread_local_is_skipped() {
    let mut node = file_scope_node(b"x", scalar(false), b"static __thread int x;");
    node.already_tls = true;
    assert!(matches!(decide_node(&node, &root()), NodeDecision::AlreadyTls));
}

#[test]
fn outside_root_is_skipped() {
    let mut node = file_scope_node(b"x", scalar(false), b"static int x;");
    node.loc_path = Some(sp(b"/usr/include/a.h"));
    assert!(matches!(decide_node(&node, &root()), NodeDecision::OutsideRoot));
}

#[test]
fn non_candidate_is_skipped() {
    let mut node = file_scope_node(b"f", scalar(false), b"int f(void);");
    node.is_var_decl = false;
    assert!(matches!(decide_node(&node, &root()), NodeDecision::NotACandidate));
}

#[test]
fn function_local_static_is_candidate() {
    let mut node = file_scope_node(b"x", scalar(false), b"static int x;");
    node.at_file_scope = false;
    node.is_static = true;
    assert!(matches!(decide_node(&node, &root()), NodeDecision::Emit(_)));
}

#[test]
fn missing_type_is_skipped() {
    let mut node = file_scope_node(b"x", scalar(false), b"static int x;");
    node.ty = None;
    assert!(matches!(decide_node(&node, &root()), NodeDecision::NoType));
}

#[test]
fn missing_range_is_skipped() {
    let mut node = file_scope_node(b"x", scalar(false), b"static int x;");
    node.range = None;
    assert!(matches!(decide_node(&node, &root()), NodeDecision::NoInsertionPoint));
}

#[test]
fn prefix_match_lengths() {
    assert_eq!(insertion_offset(&b"static int x;".to_vec()), 7);
    assert_eq!(insertion_offset(&b"int x;".to_vec()), 0);
    assert_eq!(insertion_offset(&b"  static  const int x;".to_vec()), 16);
    assert_eq!(insertion_offset(&b"extern int x;".to_vec()), 7);
    assert_eq!(insertion_offset(&b"NON_EXEC_STATIC int x;".to_vec()), 16);
    assert_eq!(insertion_offset(&b"staticconst int x;".to_vec()), 12);
    assert_eq!(insertion_offset(&b"const static bool b;".to_vec()), 13);
    // A token is consumed even when an identifier continues it.
    assert_eq!(insertion_offset(&b"constantine x;".to_vec()), 5);
    assert_eq!(insertion_offset(&b"".to_vec()), 0);
    assert_eq!(insertion_offset(&b"   ".to_vec()), 3);
}

#[test]
fn second_pass_is_identity() {
    // First pass: one eligible declaration yields one edit.
    let nodes = vec![file_scope_node(b"x", scalar(false), b"static int x;")];
    let first = analyze_nodes(&nodes, &root());
    assert_eq!(first.len(), 1);

    // Second pass: the same declaration now carries thread-local storage.
    let mut rewritten = file_scope_node(b"x", scalar(false), b"static __thread int x;");
    rewritten.already_tls = true;
    let second = analyze_nodes(&vec![rewritten], &root());
    assert_eq!(second.len(), 0);

    // No records means no edits, and applying no edits changes nothing.
    let condensed = condense_rewrites(&second).expect("no conflicts");
    assert_eq!(condensed.len(), 0);
    let source = b"static __thread int x;".to_vec();
    assert_eq!(apply(&source, &Vec::new()), source);
}

fn record(path: &[u8], offset: usize, length: usize, text: &[u8]) -> FileRewrite {
    FileRewrite {
        path: sp(path),
        rewrite: Rewrite { offset, length, text: text.to_vec() },
    }
}

#[test]
fn conflicting_proposals_fail_the_batch() {
    let records = vec![
        record(b"/src/a.c", 7, 0, b"__thread "),
        record(b"/src/b.c", 3, 0, b"__thread "),
        record(b"/src/a.c", 7, 1, b"other "),
    ];
    let conflicts = match condense_rewrites(&records) {
        Err(cs) => cs,
        Ok(_) => panic!("expected a conflict"),
    };
    // The failed run carries no edit list at all, for any file: the clean
    // /src/b.c proposal is withheld along with the conflicting ones.
    assert!(conflicts.len() >= 1);
    assert_eq!(conflicts[0].path.bytes, b"/src/a.c".to_vec());
    assert_eq!(conflicts[0].first.offset, 7);
    assert_eq!(conflicts[0].second.offset, 7);
    assert_ne!(
        (conflicts[0].first.length, conflicts[0].first.text.clone()),
        (conflicts[0].second.length, conflicts[0].second.text.clone())
    );
}

#[test]
fn duplicate_proposals_collapse() {
    let records = vec![
        record(b"/src/a.c", 7, 0, b"__thread "),
        record(b"/src/a.c", 7, 0, b"__thread "),
        record(b"/src/a.c", 2, 0, b"__thread "),
    ];
    let out = condense_rewrites(&records).expect("no conflicts");
    assert_eq!(out.len(), 1);
    assert_eq!(out[0].path.bytes, b"/src/a.c".to_vec());
    let offsets: Vec<usize> = out[0].rewrites.iter().map(|r| r.offset).collect();
    assert_eq!(offsets, vec![2, 7]);
}

#[test]
fn condense_groups_by_file_and_sorts() {
    let records = vec![
        record(b"/src/b.c", 9, 0, b"__thread "),
        record(b"/src/a.c", 7, 0, b"__thread "),
        record(b"/src/b.c", 1, 0, b"__thread "),
    ];
    let out = condense_rewrites(&records).expect("no conflicts");
    assert_eq!(out.len(), 2);
    assert_eq!(out[0].path.bytes, b"/src/b.c".to_vec());
    let offsets: Vec<usize> = out[0].rewrites.iter().map(|r| r.offset).collect();
    assert_eq!(offsets, vec![1, 9]);
    assert_eq!(out[1].path.bytes, b"/src/a.c".to_vec());
    assert_eq!(out[1].rewrites.len(), 1);
}

#[test]
fn multi_edit_application() {
    // A 30-byte file with zero-length insertions at offsets 5 and 20.
    let source: Vec<u8> = (0u8..30).collect();
    let rewrites = vec![
        Rewrite { offset: 5, length: 0, text: b"A".to_vec() },
        Rewrite { offset: 20, length: 0, text: b"B".to_vec() },
    ];
    assert!(edits_applicable(&source, &rewrites));
    let out = apply(&source, &rewrites);
    assert_eq!(out.len(), 32);
    assert_eq!(out[5], b'A');
    assert_eq!(out[21], b'B');
    let rest: Vec<u8> = out
        .iter()
        .copied()
        .filter(|b| *b != b'A' && *b != b'B')
        .collect();
    assert_eq!(rest, source);
}

#[test]
fn apply_replaces_consumed_bytes() {
    let source = b"hello".to_vec();
    let rewrites = vec![Rewrite { offset: 1, length: 2, text: b"EY".to_vec() }];
    assert!(edits_applicable(&source, &rewrites));
    assert_eq!(apply(&source, &rewrites), b"hEYlo".to_vec());
}

#[test]
fn overlapping_edits_are_not_applicable() {
    let source = b"0123456789".to_vec();
    let overlapping = vec![
        Rewrite { offset: 2, length: 4, text: b"x".to_vec() },
        Rewrite { offset: 4, length: 1, text: b"y".to_vec() },
    ];
    assert!(!edits_applicable(&source, &overlapping));
    let unsorted = vec![
        Rewrite { offset: 5, length: 0, text: b"x".to_vec() },
        Rewrite { offset: 3, length: 0, text: b"y".to_vec() },
    ];
    assert!(!edits_applicable(&source, &unsorted));
    let past_end = vec![Rewrite { offset: 9, length: 2, text: b"x".to_vec() }];
    assert!(!edits_applicable(&source, &past_end));
}

#[test]
fn ceiling_division() {
    assert_eq!(ceil_div(10, 4), 3);
    assert_eq!(ceil_div(8, 4), 2);
    assert_eq!(ceil_div(0, 3), 0);
    assert_eq!(ceil_div(1, 5), 1);
    assert_eq!(ceil_div(5, 1), 5);
}

fn check_shards(file_count: usize, units: usize) -> Vec<(usize, usize)> {
    let shards = shard_bounds(file_count, units);
    assert!(shards.len() <= units);
    for w in shards.windows(2) {
        assert_eq!(w[0].1, w[1].0);
    }
    for s in &shards {
        assert!(s.0 < s.1);
    }
    if file_count == 0 {
        assert!(shards.is_empty());
    } else {
        assert_eq!(shards[0].0, 0);
        assert_eq!(shards[shards.len() - 1].1, file_count);
    }
    shards
}

#[test]
fn sharding_covers_every_file_once() {
    // Ten files over four units: shards of size ceil(10/4) = 3.
    let shards = check_shards(10, 4);
    assert_eq!(shards, vec![(0, 3), (3, 6), (6, 9), (9, 10)]);
    // Fewer files than units: one file per shard.
    let shards = check_shards(3, 8);
    assert_eq!(shards, vec![(0, 1), (1, 2), (2, 3)]);
    // Five files over four units: shards of size 2.
    let shards = check_shards(5, 4);
    assert_eq!(shards, vec![(0, 2), (2, 4), (4, 5)]);
    check_shards(0, 4);
    check_shards(1, 1);
    check_shards(7, 1);
}

#[test]
fn path_equality_and_prefixes() {
    assert!(path_eq(&sp(b"/src/a.c"), &sp(b"/src/a.c")));
    assert!(!path_eq(&sp(b"/src/a.c"), &sp(b"/src/b.c")));
    assert!(bytes_eq(&b"abc".to_vec(), &b"abc".to_vec()));
    assert!(!bytes_eq(&b"abc".to_vec(), &b"abd".to_vec()));

    assert!(starts_with(&sp(b"/src/a.c"), &sp(b"/src")));
    assert!(starts_with(&sp(b"/src"), &sp(b"/src")));
    assert!(starts_with(&sp(b"/src/a.c"), &sp(b"/src/")));
    assert!(!starts_with(&sp(b"/srcx/a.c"), &sp(b"/src")));
    assert!(!starts_with(&sp(b"/s"), &sp(b"/src")));
}

#[test]
fn relative_path_display() {
    let rel = RelPath { path: sp(b"/work/src/a.c") };
    assert_eq!(rel.relative_to(&sp(b"/work")).bytes, b"src/a.c".to_vec());
    let rel = RelPath { path: sp(b"/work") };
    assert_eq!(rel.relative_to(&sp(b"/work")).bytes, b"".to_vec());
    let rel = RelPath { path: sp(b"/elsewhere/a.c") };
    assert_eq!(rel.relative_to(&sp(b"/work")).bytes, b"/elsewhere/a.c".to_vec());
}

#[test]
fn analyze_collects_in_visit_order() {
    let mut second = file_scope_node(b"y", scalar(false), b"int y;");
    second.range = Some(RangeInfo { path: sp(b"/src/a.c"), start: 200, fragment: b"int y;".to_vec() });
    let nodes = vec![
        file_scope_node(b"x", scalar(false), b"static int x;"),
        file_scope_node(b"c", scalar(true), b"const int c = 1;"),
        second,
    ];
    let records = analyze_nodes(&nodes, &root());
    assert_eq!(records.len(), 2);
    assert_eq!(records[0].rewrite.offset, 107);
    assert_eq!(records[1].rewrite.offset, 200);
}

#[test]
fn engine_end_to_end() {
    let source = b"static int x;\nstatic const int y = 1;\n".to_vec();
    let mut x = file_scope_node(b"x", scalar(false), b"static int x;");
    x.range = Some(RangeInfo { path: sp(b"/src/a.c"), start: 0, fragment: b"static int x;".to_vec() });
    let mut y = file_scope_node(b"y", scalar(true), b"static const int y = 1;");
    y.range = Some(RangeInfo {
        path: sp(b"/src/a.c"),
        start: 14,
        fragment: b"static const int y = 1;".to_vec(),
    });
    let records = analyze_nodes(&vec![x, y], &root());
    let condensed = condense_rewrites(&records).expect("no conflicts");
    assert_eq!(condensed.len(), 1);
    assert!(edits_applicable(&source, &condensed[0].rewrites));
    let out = apply(&source, &condensed[0].rewrites);
    assert_eq!(out, b"static __thread int x;\nstatic const int y = 1;\n".to_vec());
}

#[test]
fn machine_sharding_covers_every_file_once() {
    for file_count in [0usize, 1, 2, 7, 100] {
        let shards = shard_bounds_for_machine(file_count);
        if file_count == 0 {
            assert!(shards.is_empty());
            continue;
        }
        assert_eq!(shards[0].0, 0);
        assert_eq!(shards[shards.len() - 1].1, file_count);
        for w in shards.windows(2) {
            assert_eq!(w[0].1, w[1].0);
        }
        for s in &shards {
            assert!(s.0 < s.1);
        }
    }
}

#[test]
fn run_configuration_records() {
    let main = MainOpt {
        include_dirs: vec![sp(b"/src/include")],
        source: vec![sp(b"/src/a.c"), sp(b"/src/b.c")],
        source_root: sp(b"/src"),
    };
    assert_eq!(main.source.len(), 2);
    let opt = Opt::Main(main);
    match opt {
        Opt::Main(m) => assert_eq!(m.source_root.bytes, b"/src".to_vec()),
        Opt::Worker(_) => panic!("expected the orchestrator role"),
    }
    let worker = Opt::Worker(WorkerOpt { opts: b"{}".to_vec() });
    assert!(matches!(worker, Opt::Worker(_)));
}
