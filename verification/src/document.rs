//! The data model of a taskfile document: a small tagged value tree as it
//! comes out of the parse boundary, and the strongly typed task and import
//! records that the resolver produces from it.

use vstd::prelude::*;
use crate::text::ends_with_v;

verus! {

/// One value of a parsed document: a string, a boolean, a mapping in
/// declaration order, or anything else (kept only for its serialized text).
pub enum Node {
    Str(String),
    Bool(bool),
    Mapping(Vec<Entry>),
    Other,
}

/// One entry of a mapping node. `raw` carries the entry's value serialized
/// back to text, when serialization succeeded; it becomes a task's body.
pub struct Entry {
    pub key: String,
    pub raw: Option<String>,
    pub value: Node,
}

/// A resolved, user-selectable task.
#[derive(Clone, Debug)]
pub struct Task {
    pub name: String,
    pub body: String,
    pub internal: bool,
}

/// The mathematical view of a task.
pub struct TaskV {
    pub name: Seq<char>,
    pub body: Seq<char>,
    pub internal: bool,
}

impl View for Task {
    type V = TaskV;

    open spec fn view(&self) -> TaskV {
        TaskV { name: self.name@, body: self.body@, internal: self.internal }
    }
}

/// The views of a sequence of tasks.
pub open spec fn task_views(s: Seq<Task>) -> Seq<TaskV> {
    s.map_values(|t: Task| t@)
}

/// A reference from one document to another, under a namespace.
#[derive(Clone, Debug)]
pub struct Import {
    pub name: String,
    pub path: String,
    pub optional: bool,
    pub internal: bool,
}

/// The mathematical view of an import.
pub struct ImportV {
    pub name: Seq<char>,
    pub path: Seq<char>,
    pub optional: bool,
    pub internal: bool,
}

impl View for Import {
    type V = ImportV;

    open spec fn view(&self) -> ImportV {
        ImportV {
            name: self.name@,
            path: self.path@,
            optional: self.optional,
            internal: self.internal,
        }
    }
}

/// The views of a sequence of imports.
pub open spec fn import_views(s: Seq<Import>) -> Seq<ImportV> {
    s.map_values(|i: Import| i@)
}

/// The terminal errors of a resolution.
#[derive(Clone, Debug)]
pub enum Error {
    /// No supported root file exists in the working directory.
    NotFound,
    /// A document lacks a `tasks` mapping, or an import entry has an
    /// unrecognized shape.
    MalformedDocument,
    /// A non-optional import points at a file that does not exist; carries
    /// the attempted path.
    MissingRequiredImport(String),
    /// A file takes part in its own import chain; carries the repeated path.
    CyclicImport(String),
}

/// The mathematical view of an error.
pub enum ErrorV {
    NotFound,
    MalformedDocument,
    MissingRequiredImport(Seq<char>),
    CyclicImport(Seq<char>),
}

impl View for Error {
    type V = ErrorV;

    open spec fn view(&self) -> ErrorV {
        match self {
            Error::NotFound => ErrorV::NotFound,
            Error::MalformedDocument => ErrorV::MalformedDocument,
            Error::MissingRequiredImport(p) => ErrorV::MissingRequiredImport(p@),
            Error::CyclicImport(p) => ErrorV::CyclicImport(p@),
        }
    }
}

/// Why a resolution run stopped short of a task list: it needs the document
/// at a path that the snapshot does not hold yet, or it failed for good.
#[derive(Clone, Debug)]
pub enum Stop {
    Need(String),
    Fail(Error),
}

/// The mathematical view of a stop.
pub enum StopV {
    Need(Seq<char>),
    Fail(ErrorV),
}

impl View for Stop {
    type V = StopV;

    open spec fn view(&self) -> StopV {
        match self {
            Stop::Need(p) => StopV::Need(p@),
            Stop::Fail(e) => StopV::Fail(e@),
        }
    }
}

/// The first entry of `es` whose key reads `key`, if any.
pub open spec fn map_get(es: Seq<Entry>, key: Seq<char>) -> Option<Entry>
    decreases es.len(),
{
    if es.len() == 0 {
        None
    } else if es[0].key@ == key {
        Some(es[0])
    } else {
        map_get(es.drop_first(), key)
    }
}

/// The boolean under `field` of a mapping node, with `default` when the
/// field is absent or not a boolean; a non-mapping node reads as `false`.
pub open spec fn node_bool(v: Node, field: Seq<char>, default: bool) -> bool {
    match v {
        Node::Mapping(es) => match map_get(es@, field) {
            Some(e) => match e.value {
                Node::Bool(b) => b,
                _ => default,
            },
            None => default,
        },
        _ => false,
    }
}

/// The task declared by one entry of a `tasks` mapping: the key names it,
/// the serialized value is its body (with a fixed fallback text), and an
/// `internal` boolean inside the value marks it hidden.
pub open spec fn task_of_entry(e: Entry) -> TaskV {
    TaskV {
        name: e.key@,
        body: match e.raw {
            Some(s) => s@,
            None => "no content"@,
        },
        internal: node_bool(e.value, "internal"@, false),
    }
}

/// The entries of the document's `tasks` mapping, or `None` when the key is
/// absent or its value is not a mapping.
pub open spec fn tasks_entries(doc: Node) -> Option<Seq<Entry>> {
    match doc {
        Node::Mapping(es) => match map_get(es@, "tasks"@) {
            Some(e) => match e.value {
                Node::Mapping(ts) => Some(ts@),
                _ => None,
            },
            None => None,
        },
        _ => None,
    }
}

/// Whether `s` carries a recognized YAML file extension.
pub open spec fn yml_suffix(s: Seq<char>) -> bool {
    ends_with_v(s, ".yml"@) || ends_with_v(s, ".yaml"@)
}

/// The target file derived from a bare string path: an explicit YAML file
/// stands as it is; a directory (with or without its trailing `/`) gets the
/// canonical root filename appended.
pub open spec fn derived_path_v(s: Seq<char>) -> Seq<char> {
    if yml_suffix(s) {
        s
    } else if ends_with_v(s, "/"@) {
        s + "Taskfile.yml"@
    } else {
        s + "/Taskfile.yml"@
    }
}

/// The target path declared by an import entry's value, or `None` when the
/// value has an unrecognized shape: a bare string derives a path; a mapping
/// must hold a `taskfile` string ending in a YAML extension.
pub open spec fn import_path_of(v: Node) -> Option<Seq<char>> {
    match v {
        Node::Str(s) => Some(derived_path_v(s@)),
        Node::Mapping(es) => match map_get(es@, "taskfile"@) {
            Some(e) => match e.value {
                Node::Str(s) => if yml_suffix(s@) {
                    Some(s@)
                } else {
                    None
                },
                _ => None,
            },
            None => None,
        },
        _ => None,
    }
}

/// The import declared by one entry of an `includes` mapping, or `None`
/// when its value has an unrecognized shape.
pub open spec fn import_of_entry(e: Entry) -> Option<ImportV> {
    match import_path_of(e.value) {
        Some(p) => Some(
            ImportV {
                name: e.key@,
                path: p,
                optional: node_bool(e.value, "optional"@, false),
                internal: node_bool(e.value, "internal"@, false),
            },
        ),
        None => None,
    }
}

/// The entries of the document's `includes` mapping, or `None` when the key
/// is absent or its value is not a mapping.
pub open spec fn imports_entries(doc: Node) -> Option<Seq<Entry>> {
    match doc {
        Node::Mapping(es) => match map_get(es@, "includes"@) {
            Some(e) => match e.value {
                Node::Mapping(is) => Some(is@),
                _ => None,
            },
            None => None,
        },
        _ => None,
    }
}

/// All imports declared by a sequence of entries, or `None` as soon as one
/// entry is malformed.
pub open spec fn imports_of_entries(es: Seq<Entry>) -> Option<Seq<ImportV>>
    decreases es.len(),
{
    if es.len() == 0 {
        Some(Seq::empty())
    } else {
        match import_of_entry(es[0]) {
            Some(h) => match imports_of_entries(es.drop_first()) {
                Some(t) => Some(seq![h] + t),
                None => None,
            },
            None => None,
        }
    }
}

/// The imports of a whole document: a missing or non-mapping `includes` key
/// means no imports at all, while a malformed entry means `None`.
pub open spec fn doc_imports(doc: Node) -> Option<Seq<ImportV>> {
    match imports_entries(doc) {
        None => Some(Seq::empty()),
        Some(es) => imports_of_entries(es),
    }
}

/// The tasks declared by a sequence of entries, in declaration order.
pub open spec fn tasks_of_entries_v(es: Seq<Entry>) -> Seq<TaskV> {
    es.map_values(|e: Entry| task_of_entry(e))
}

/// No two entries share a key.
pub open spec fn distinct_keys(es: Seq<Entry>) -> bool {
    forall|i: int, j: int| 0 <= i < j < es.len() ==> es[i].key@ != es[j].key@
}

/// Extending the entries by one extends the declared imports by one, and a
/// malformed tail or entry poisons the whole.
pub proof fn lemma_imports_of_entries_push(es: Seq<Entry>, e: Entry)
    ensures
        imports_of_entries(es.push(e)) == (match (imports_of_entries(es), import_of_entry(e)) {
            (Some(t), Some(h)) => Some(t.push(h)),
            _ => None::<Seq<ImportV>>,
        }),
    decreases es.len(),
{
    if es.len() == 0 {
        assert(es =~= Seq::<Entry>::empty());
        assert(imports_of_entries(es) == Some(Seq::<ImportV>::empty()));
        assert(es.push(e)[0] == e);
        assert(es.push(e).drop_first() =~= Seq::<Entry>::empty());
        assert(imports_of_entries(es.push(e).drop_first()) == Some(Seq::<ImportV>::empty()));
        match import_of_entry(e) {
            Some(h) => {
                assert(seq![h] + Seq::<ImportV>::empty() =~= Seq::<ImportV>::empty().push(h));
                assert(imports_of_entries(es.push(e)) == Some(Seq::<ImportV>::empty().push(h)));
            },
            None => {
                assert(imports_of_entries(es.push(e)) is None);
            },
        }
    } else {
        assert(es.push(e)[0] == es[0]);
        assert(es.push(e).drop_first() =~= es.drop_first().push(e));
        lemma_imports_of_entries_push(es.drop_first(), e);
        match (import_of_entry(es[0]), imports_of_entries(es.drop_first()), import_of_entry(e)) {
            (Some(h0), Some(t), Some(h)) => {
                assert(seq![h0] + t.push(h) =~= (seq![h0] + t).push(h));
            },
            _ => {},
        }
    }
}

/// One malformed entry anywhere makes the whole import list malformed.
pub proof fn lemma_imports_of_entries_invalid(es: Seq<Entry>, j: int)
    requires
        0 <= j < es.len(),
        import_of_entry(es[j]) is None,
    ensures
        imports_of_entries(es) is None,
    decreases j,
{
    if j > 0 {
        match import_of_entry(es[0]) {
            Some(_) => {
                assert(es.drop_first()[j - 1] == es[j]);
                lemma_imports_of_entries_invalid(es.drop_first(), j - 1);
            },
            None => {},
        }
    }
}

} // verus!
