use taskui::document::{Entry, Error, Node, Task};
use taskui::locate::find_supported_file;
use taskui::parser::{derive_import_path, extract_bool, extract_import_path, get_imports, get_tasks};
use taskui::resolve::{flag_internal_tasks, prefix_tasks, resolve, Vfs, VfsEntry};
use taskui::document::Stop;
use taskui::document::Import;

fn s(x: &str) -> String {
    x.to_string()
}

fn task_entry(name: &str, internal: Option<bool>, raw: &str) -> Entry {
    let value = match internal {
        Some(b) => Node::Mapping(vec![Entry { key: s("internal"), raw: None, value: Node::Bool(b) }]),
        None => Node::Other,
    };
    Entry { key: s(name), raw: Some(s(raw)), value }
}

fn import_entry(name: &str, value: Node) -> Entry {
    Entry { key: s(name), raw: None, value }
}

fn taskfile_import(path: &str, optional: Option<bool>, internal: Option<bool>) -> Node {
    let mut es = vec![Entry { key: s("taskfile"), raw: None, value: Node::Str(s(path)) }];
    if let Some(b) = optional {
        es.push(Entry { key: s("optional"), raw: None, value: Node::Bool(b) });
    }
    if let Some(b) = internal {
        es.push(Entry { key: s("internal"), raw: None, value: Node::Bool(b) });
    }
    Node::Mapping(es)
}

fn doc(tasks: Vec<Entry>, imports: Option<Vec<Entry>>) -> Node {
    let mut top = vec![Entry { key: s("tasks"), raw: None, value: Node::Mapping(tasks) }];
    if let Some(i) = imports {
        top.push(Entry { key: s("includes"), raw: None, value: Node::Mapping(i) });
    }
    Node::Mapping(top)
}

fn names(ts: &[Task]) -> Vec<String> {
    ts.iter().map(|t| t.name.clone()).collect()
}

#[test]
fn tasks_come_out_sorted_without_duplicates() {
    let d = doc(
        vec![
            task_entry("deploy", None, "d"),
            task_entry("build", None, "b"),
            task_entry("check", None, "c"),
        ],
        None,
    );
    let ts = get_tasks(&d).unwrap();
    assert_eq!(names(&ts), vec![s("build"), s("check"), s("deploy")]);
    for i in 0..ts.len() {
        for j in (i + 1)..ts.len() {
            assert!(ts[i].name < ts[j].name);
            assert_ne!(ts[i].name, ts[j].name);
        }
    }
}

#[test]
fn task_fields_follow_the_entry() {
    let d = doc(
        vec![task_entry("hidden", Some(true), "cmds: [x]"), task_entry("plain", None, "cmds: [y]")],
        None,
    );
    let ts = get_tasks(&d).unwrap();
    assert_eq!(ts[0].name, s("hidden"));
    assert!(ts[0].internal);
    assert_eq!(ts[0].body, s("cmds: [x]"));
    assert_eq!(ts[1].name, s("plain"));
    assert!(!ts[1].internal);
}

#[test]
fn missing_body_text_becomes_no_content() {
    let d = doc(vec![Entry { key: s("t"), raw: None, value: Node::Other }], None);
    let ts = get_tasks(&d).unwrap();
    assert_eq!(ts[0].body, s("no content"));
}

#[test]
fn document_without_tasks_mapping_is_malformed() {
    let d = Node::Mapping(vec![Entry { key: s("version"), raw: None, value: Node::Str(s("3")) }]);
    assert!(matches!(get_tasks(&d), Err(Error::MalformedDocument)));
}

#[test]
fn document_with_only_imports_is_still_malformed() {
    let d = Node::Mapping(vec![Entry {
        key: s("includes"),
        raw: None,
        value: Node::Mapping(vec![import_entry("lib", Node::Str(s("lib")))]),
    }]);
    let fs = Vfs { entries: vec![] };
    match resolve(&d, "/r", &fs) {
        Err(Stop::Fail(Error::MalformedDocument)) => {},
        other => panic!("expected a malformed-document failure, got {:?}", other.is_ok()),
    }
}

#[test]
fn bare_string_paths_derive_their_target() {
    assert_eq!(derive_import_path("lib/"), s("lib/Taskfile.yml"));
    assert_eq!(derive_import_path("lib"), s("lib/Taskfile.yml"));
    assert_eq!(derive_import_path("lib/custom.yaml"), s("lib/custom.yaml"));
    assert_eq!(derive_import_path("a.yml"), s("a.yml"));
}

#[test]
fn import_shapes_are_parsed_or_rejected() {
    assert_eq!(extract_import_path(&Node::Str(s("x"))).unwrap(), s("x/Taskfile.yml"));
    assert_eq!(
        extract_import_path(&taskfile_import("sub/file.yml", None, None)).unwrap(),
        s("sub/file.yml")
    );
    assert!(matches!(
        extract_import_path(&taskfile_import("sub/file", None, None)),
        Err(Error::MalformedDocument)
    ));
    assert!(matches!(extract_import_path(&Node::Bool(true)), Err(Error::MalformedDocument)));
    assert!(matches!(
        extract_import_path(&Node::Mapping(vec![Entry {
            key: s("taskfile"),
            raw: None,
            value: Node::Bool(false),
        }])),
        Err(Error::MalformedDocument)
    ));
    assert!(matches!(
        extract_import_path(&Node::Mapping(vec![])),
        Err(Error::MalformedDocument)
    ));
}

#[test]
fn imports_carry_their_flags() {
    let d = doc(
        vec![task_entry("t", None, "x")],
        Some(vec![import_entry("sub", taskfile_import("sub/Taskfile.yml", Some(true), Some(true)))]),
    );
    let is = get_imports(&d).unwrap().unwrap();
    assert_eq!(is.len(), 1);
    assert_eq!(is[0].name, s("sub"));
    assert_eq!(is[0].path, s("sub/Taskfile.yml"));
    assert!(is[0].optional);
    assert!(is[0].internal);
}

#[test]
fn absent_imports_mapping_means_none() {
    let d = doc(vec![task_entry("t", None, "x")], None);
    assert!(get_imports(&d).unwrap().is_none());
}

#[test]
fn non_mapping_values_read_as_false() {
    assert!(!extract_bool(&Node::Str(s("yes")), "internal", true));
    assert!(!extract_bool(&Node::Other, "internal", true));
    let m = Node::Mapping(vec![Entry { key: s("internal"), raw: None, value: Node::Str(s("x")) }]);
    assert!(extract_bool(&m, "internal", true));
    assert!(!extract_bool(&m, "optional", false));
}

#[test]
fn resolution_merges_an_internal_import() {
    let root = doc(
        vec![task_entry("build", None, "b"), task_entry("test", None, "t")],
        Some(vec![import_entry("sub", taskfile_import("sub/Taskfile.yml", None, Some(true)))]),
    );
    let sub = doc(vec![task_entry("deploy", None, "d")], None);
    let fs = Vfs {
        entries: vec![VfsEntry { path: s("/r/sub/Taskfile.yml"), doc: Some(sub) }],
    };
    let ts = resolve(&root, "/r", &fs).unwrap();
    assert_eq!(names(&ts), vec![s("build"), s("test"), s("sub:deploy")]);
    assert!(!ts[0].internal);
    assert!(!ts[1].internal);
    assert!(ts[2].internal);
}

#[test]
fn nested_imports_stack_their_namespaces_and_flags() {
    let root = doc(
        vec![task_entry("top", None, "t")],
        Some(vec![import_entry("a", taskfile_import("a/Taskfile.yml", None, None))]),
    );
    let a = doc(
        vec![task_entry("mid", None, "m")],
        Some(vec![import_entry("b", taskfile_import("b/Taskfile.yml", None, Some(true)))]),
    );
    let b = doc(vec![task_entry("x", None, "x")], None);
    let fs = Vfs {
        entries: vec![
            VfsEntry { path: s("/r/a/Taskfile.yml"), doc: Some(a) },
            VfsEntry { path: s("/r/a/b/Taskfile.yml"), doc: Some(b) },
        ],
    };
    let ts = resolve(&root, "/r", &fs).unwrap();
    assert_eq!(names(&ts), vec![s("top"), s("a:b:x"), s("a:mid")]);
    // the deep task inherits the internal flag of the import it crossed
    assert!(!ts[0].internal);
    assert!(ts[1].internal);
    assert!(!ts[2].internal);
}

#[test]
fn optional_missing_import_contributes_nothing() {
    let root = doc(
        vec![task_entry("build", None, "b")],
        Some(vec![import_entry("m", taskfile_import("miss/Taskfile.yml", Some(true), None))]),
    );
    let fs = Vfs {
        entries: vec![VfsEntry { path: s("/r/miss/Taskfile.yml"), doc: None }],
    };
    let ts = resolve(&root, "/r", &fs).unwrap();
    assert_eq!(names(&ts), vec![s("build")]);
}

#[test]
fn required_missing_import_fails_with_its_path() {
    let root = doc(
        vec![task_entry("build", None, "b")],
        Some(vec![import_entry("m", taskfile_import("miss/Taskfile.yml", None, None))]),
    );
    let fs = Vfs {
        entries: vec![VfsEntry { path: s("/r/miss/Taskfile.yml"), doc: None }],
    };
    match resolve(&root, "/r", &fs) {
        Err(Stop::Fail(Error::MissingRequiredImport(p))) => {
            assert_eq!(p, s("/r/miss/Taskfile.yml"));
        },
        _ => panic!("expected a missing-import failure"),
    }
}

#[test]
fn unknown_path_asks_for_the_file() {
    let root = doc(
        vec![task_entry("build", None, "b")],
        Some(vec![import_entry("m", taskfile_import("new/Taskfile.yml", None, None))]),
    );
    let fs = Vfs { entries: vec![] };
    match resolve(&root, "/r", &fs) {
        Err(Stop::Need(p)) => assert_eq!(p, s("/r/new/Taskfile.yml")),
        _ => panic!("expected the resolver to ask for the file"),
    }
}

#[test]
fn an_import_cycle_is_detected() {
    let root = doc(
        vec![task_entry("top", None, "t")],
        Some(vec![import_entry("a", taskfile_import("a/Taskfile.yml", None, None))]),
    );
    let a = doc(
        vec![task_entry("mid", None, "m")],
        Some(vec![import_entry("c", taskfile_import("c/Taskfile.yml", None, None))]),
    );
    let c = doc(
        vec![task_entry("deep", None, "d")],
        Some(vec![import_entry("back", taskfile_import("/r/a/Taskfile.yml", None, None))]),
    );
    let fs = Vfs {
        entries: vec![
            VfsEntry { path: s("/r/a/Taskfile.yml"), doc: Some(a) },
            VfsEntry { path: s("/r/a/c/Taskfile.yml"), doc: Some(c) },
        ],
    };
    match resolve(&root, "/r", &fs) {
        Err(Stop::Fail(Error::CyclicImport(p))) => assert_eq!(p, s("/r/a/Taskfile.yml")),
        _ => panic!("expected a cyclic-import failure"),
    }
}

#[test]
fn malformed_import_entry_fails_the_resolution() {
    let root = doc(
        vec![task_entry("build", None, "b")],
        Some(vec![import_entry("bad", Node::Bool(true))]),
    );
    let fs = Vfs { entries: vec![] };
    assert!(matches!(resolve(&root, "/r", &fs), Err(Stop::Fail(Error::MalformedDocument))));
}

#[test]
fn prefixing_and_flagging_apply_per_task() {
    let tasks = vec![
        Task { name: s("one"), body: s("1"), internal: false },
        Task { name: s("two"), body: s("2"), internal: true },
    ];
    let prefixed = prefix_tasks(tasks, s("ns"));
    assert_eq!(names(&prefixed), vec![s("ns:one"), s("ns:two")]);
    let imp = Import { name: s("ns"), path: s("p"), optional: false, internal: true };
    let flagged = flag_internal_tasks(&imp, prefixed);
    assert!(flagged[0].internal);
    assert!(flagged[1].internal);
    let calm = Import { name: s("ns"), path: s("p"), optional: false, internal: false };
    let kept = flag_internal_tasks(
        &calm,
        vec![Task { name: s("n"), body: s("b"), internal: false }],
    );
    assert!(!kept[0].internal);
}

#[test]
fn the_first_existing_candidate_wins() {
    let mut present = vec![false; 8];
    present[1] = true;
    present[3] = true;
    assert_eq!(find_supported_file(&present).unwrap(), s("taskfile.yml"));
    let mut only_dist = vec![false; 8];
    only_dist[7] = true;
    assert_eq!(find_supported_file(&only_dist).unwrap(), s("taskfile.dist.yaml"));
    let first = vec![true; 8];
    assert_eq!(find_supported_file(&first).unwrap(), s("Taskfile.yml"));
}

#[test]
fn an_empty_tasks_mapping_yields_no_tasks() {
    let d = doc(vec![], None);
    let ts = get_tasks(&d).unwrap();
    assert!(ts.is_empty());
}

#[test]
fn directory_imports_derive_and_ask_for_the_root_file() {
    let root = doc(
        vec![task_entry("build", None, "b")],
        Some(vec![import_entry("lib", Node::Str(s("lib/")))]),
    );
    let fs = Vfs { entries: vec![] };
    match resolve(&root, "/r", &fs) {
        Err(Stop::Need(p)) => assert_eq!(p, s("/r/lib/Taskfile.yml")),
        _ => panic!("expected the resolver to ask for the derived file"),
    }
}

#[test]
fn no_candidate_means_not_found() {
    let present = vec![false; 8];
    assert!(matches!(find_supported_file(&present), Err(Error::NotFound)));
}
