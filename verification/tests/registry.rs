//! Dispatching files to the producer of their language.

use absolem::producer::registry::{extension, Registry};
use absolem::producer::syntax::{Grammar, ProducerError, SourceParser};

#[test]
fn dispatches_by_extension() {
    let registry = Registry::with_defaults().unwrap();
    assert!(registry.supports("a/b/main.go"));
    assert!(registry.supports("src/lib.rs"));
    assert!(!registry.supports("README.md"));
    assert!(!registry.supports("Makefile"));

    assert!(registry.for_path("x.go").is_some());
    assert!(registry.for_path("x.rs").is_some());
    assert!(registry.for_path("x.py").is_none());
}

#[test]
fn each_producer_extracts_its_own_language() {
    let mut registry = Registry::with_defaults().unwrap();
    let go = registry
        .extract("f.go", "package p\nfunc F() {}\n")
        .unwrap()
        .unwrap();
    assert_eq!(go.iter().iter().count(), 1);

    let rust = registry.extract("f.rs", "pub fn f() {}\n").unwrap().unwrap();
    assert_eq!(rust.iter().iter().count(), 1);
}

#[test]
fn languages_are_told_apart() {
    let registry = Registry::with_defaults().unwrap();
    assert_eq!(registry.for_path("x.go"), Some(Grammar::Go));
    assert_eq!(registry.for_path("x.rs"), Some(Grammar::Rust));
}

#[test]
fn unclaimed_files_are_not_extracted() {
    let mut registry = Registry::with_defaults().unwrap();
    assert!(registry.extract("notes.md", "pub fn f() {}\n").is_none());
    assert!(registry.extract("go", "package p\n").is_none());
}

#[test]
fn extensions_are_what_follows_the_last_dot_of_the_file_name() {
    assert_eq!(extension("a.b/c"), None);
    assert_eq!(extension("a/b.tar.gz").as_deref(), Some("gz"));
    assert_eq!(extension(".rs"), None);
    assert_eq!(extension("dir/.rs"), None);
    assert_eq!(extension("x."), Some(String::new()));
    assert_eq!(extension("a/.."), None);
    assert_eq!(extension("a.rs/").as_deref(), Some("rs"));
    assert_eq!(extension(""), None);
    assert_eq!(extension("Main.GO").as_deref(), Some("GO"));
}

#[test]
fn extensions_are_case_sensitive() {
    let registry = Registry::with_defaults().unwrap();
    assert!(!registry.supports("Main.GO"));
}

#[test]
fn trees_keep_fields_kinds_and_places() {
    let mut parser = SourceParser::new(Grammar::Rust).unwrap();
    let source = "\npub fn f(x: u8) {}\n";
    let root = parser.parse(source).unwrap();
    assert!(root.is("source_file"));
    assert!(root.is_readable(source));
    let named = root.named_children();
    assert_eq!(named.len(), 1);
    let function = named[0];
    assert!(function.is("function_item"));
    assert_eq!((function.start, function.end, function.row), (1, 19, 1));
    let name = function.child_by_field("name").unwrap();
    assert!(name.is("identifier"));
    assert_eq!((name.start, name.end), (8, 9));
    assert!(function.child_by_field("nothing").is_none());
    assert!(name.children.is_empty());
}

#[test]
fn nodes_outside_the_source_are_not_readable() {
    let mut parser = SourceParser::new(Grammar::Go).unwrap();
    let source = "package p\nfunc F() {}\n";
    let root = parser.parse(source).unwrap();
    assert!(root.is_readable(source));
    assert!(!root.is_readable("package p\n"));
    assert!(!root.is_readable(""));
}

#[test]
fn producer_errors_say_what_went_wrong() {
    assert_eq!(
        ProducerError::LanguageLoad.message(),
        "tree-sitter language load failed"
    );
    assert_eq!(
        ProducerError::NoTree.message(),
        "tree-sitter returned no tree"
    );
    assert_eq!(
        ProducerError::Unreadable.message(),
        "tree-sitter tree does not fit its source"
    );
}

#[test]
fn odd_sources_are_read_all_the_same() {
    let mut registry = Registry::with_defaults().unwrap();
    let go = [
        "",
        " ",
        "\u{feff}package p\r\n\r\nfunc F() {}\r\n",
        "// only a comment",
        "/* open",
        "package p\nfunc (c *Client",
        "package p\ntype T struct {\n\tA, B int `a:\"b\"`\n\t*Base\n",
        "package p\nfunc F[T any, U interface{ ~int | ~string }](x T) (r U, err error) {",
        "package p\nvar x = `raw \u{1f600}\nstring`\n",
        "package p\nconst (\n",
        "}}}}((((",
        "package p\n\0\0func F() {}\n",
        "package p\nfunc {}\ntype\nfunc F(",
        "package p; type A = B; type (C int; D struct{ E }); func (D) m() { func() {}() }",
    ];
    for source in go {
        assert!(registry.extract("f.go", source).unwrap().is_ok(), "{source:?}");
    }
    let rust = [
        "",
        " ",
        "\u{feff}pub fn f() {}\r\n",
        "#!/usr/bin/env run\nfn main() {}\n",
        "/* open",
        "impl<'a, T: ?Sized> Trait<'a> for &'a mut [T; 4] where T: Fn(u8) -> u8 {\n    type X = T;\n",
        "pub struct S<const N: usize>([u8; N]) where [u8; N]: Sized;",
        "pub enum E { A = 1, B(pub u8, #[x] u16), C { d: [u8; 2] } ",
        "pub trait T { fn f(&self) { } const C: u8; type A<'a>: Iterator<Item = &'a str>; ",
        "macro_rules! m { ($x:expr) => { $x } }\nm!(1);\n",
        "pub const fn f(ß: &'static str) -> impl Fn() -> ! + '_ { loop {} }",
        "union U { a: u8, b: u16 }\nextern \"C\" { fn c(); }\nstatic X: &str = \"\\\"\u{1f600}\";",
        "}}}}((((",
        "fn\nstruct\nenum\nimpl\ntrait\nconst\nstatic\ntype\n",
        "pub fn f(x: u8) -> u8 {\n\0\0}\n",
    ];
    for source in rust {
        assert!(registry.extract("f.rs", source).unwrap().is_ok(), "{source:?}");
    }
}
