use loona::testgen::{
    text_lines_of, CatalogError, Document, Function, Item, ItemId, ItemInner, Module, Struct,
};

fn id(s: &str) -> ItemId {
    ItemId(s.to_string())
}

fn item(i: &str, name: Option<&str>, docs: Option<&str>, inner: ItemInner) -> Item {
    Item {
        id: id(i),
        name: name.map(|n| n.to_string()),
        docs: docs.map(|d| d.to_string()),
        inner,
    }
}

fn module(ids: &[&str]) -> ItemInner {
    ItemInner::Module(Module { items: ids.iter().map(|i| id(i)).collect() })
}

fn sample(version: i64) -> Document {
    let mut doc = Document::new(version, id("0"));
    doc.insert(id("0"), item("0", Some("httpwg"), None, module(&["1", "2", "3"])));
    doc.insert(id("1"), item("1", Some("rfc9113"), Some("RFC 9113\nHTTP/2"), module(&["4", "5", "6"])));
    doc.insert(id("2"), item("2", Some("util"), None, module(&[])));
    doc.insert(id("3"), item("3", Some("helper"), None, ItemInner::Function(Function {})));
    doc.insert(id("4"), item("4", Some("_3_starting"), None, module(&["7", "8"])));
    doc.insert(id("5"), item("5", Some("other"), None, module(&[])));
    doc.insert(id("6"), item("6", Some("Conf"), None, ItemInner::Struct(Struct {})));
    doc.insert(id("7"), item("7", Some("sends_preface"), Some("Line one\r\nline two\n"), ItemInner::Function(Function {})));
    doc.insert(id("8"), item("8", Some("Conn"), None, ItemInner::Struct(Struct {})));
    doc
}

#[test]
fn catalog_of_a_document() {
    let doc = sample(30);
    let suites = doc.suites().ok().unwrap();
    assert_eq!(suites.len(), 1);
    assert_eq!(suites[0].name, "rfc9113");
    assert_eq!(suites[0].docs.as_deref(), Some("RFC 9113\nHTTP/2"));
    assert_eq!(suites[0].groups.len(), 1);
    let g = &suites[0].groups[0];
    assert_eq!(g.name, "_3_starting");
    assert_eq!(g.tests.len(), 1);
    assert_eq!(g.tests[0].name, "sends_preface");
}

#[test]
fn catalog_errors() {
    assert_eq!(sample(27).suites().err(), Some(CatalogError::FormatTooOld));

    let doc = Document::new(30, id("missing"));
    assert_eq!(doc.suites().err(), Some(CatalogError::MissingRoot));

    let mut doc = Document::new(30, id("0"));
    doc.insert(id("0"), item("0", Some("f"), None, ItemInner::Function(Function {})));
    assert_eq!(doc.suites().err(), Some(CatalogError::RootNotModule));

    let mut doc = Document::new(30, id("0"));
    doc.insert(id("0"), item("0", None, None, module(&["1"])));
    assert_eq!(doc.suites().err(), Some(CatalogError::MissingNode));

    let mut doc = sample(30);
    doc.insert(id("7"), item("7", None, None, ItemInner::Function(Function {})));
    assert_eq!(doc.suites().err(), Some(CatalogError::UnnamedItem));
}

#[test]
fn lines_of_docs() {
    let l = |s: &str| text_lines_of(s);
    assert_eq!(l("a\r\nb\n"), vec![b"a".to_vec(), b"b".to_vec()]);
    assert!(l("").is_empty());
    assert_eq!(l("\n"), vec![Vec::<u8>::new()]);
    assert_eq!(l("a\r"), vec![b"a\r".to_vec()]);
    assert_eq!(l("a\n\nb"), vec![b"a".to_vec(), Vec::new(), b"b".to_vec()]);
    for s in ["x\ny\r\n\r\nz", "\r\n", "one", "\n\n"] {
        let want: Vec<Vec<u8>> = s.lines().map(|x| x.as_bytes().to_vec()).collect();
        assert_eq!(l(s), want);
    }
}

#[test]
fn macro_source_of_a_catalog() {
    let suites = sample(30).suites().ok().unwrap();
    let text = String::from_utf8(loona::testgen::macro_source(&suites)).unwrap();
    let want = "\
//! Macros to help generate code for all suites/groups/tests of the httpwg crate

// This file is automatically @generated by httpwg-gen
// It is not intended for manual editing

/// This generates a module tree with some #[test] functions.
/// The `$body` argument is pasted inside those unit test, and
/// in that scope, `test` is the `httpwg` function you can use
/// to run the test (that takes a `mut conn: Conn<IO>`)
#[macro_export]
macro_rules! tests {
  ($body: tt) => {

/// RFC 9113
/// HTTP/2
#[cfg(test)]
mod rfc9113 {
use ::httpwg::rfc9113 as __suite;

mod _3_starting {
use super::__suite::_3_starting as __group;

/// Line one
/// line two
#[test]
fn sends_preface() {
use __group::sends_preface as test;
$body
}
}
}
}
}
";
    assert_eq!(text, want);
}
