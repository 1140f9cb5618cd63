//! The shape of Rust sources.

use absolem::item::{Item, Kind};
use absolem::producer::rust::RustProducer;

fn extract(source: &str) -> Vec<Item> {
    let mut p = RustProducer::new().unwrap();
    let s = p.extract("f.rs", source).unwrap();
    s.iter().to_vec()
}

fn only(source: &str) -> Item {
    let items = extract(source);
    assert_eq!(items.len(), 1, "expected exactly one item: {items:?}");
    items.into_iter().next().unwrap()
}

#[test]
fn function_strips_body_keeps_pub_and_generics() {
    let item = only("pub fn connect(addr: &str) -> Client<String> {\n    todo!()\n}\n");
    assert_eq!(item.id.kind, Kind::Function);
    assert_eq!(item.id.name, "connect");
    assert_eq!(
        item.signature,
        "pub fn connect(addr: &str) -> Client<String>"
    );
}

#[test]
fn private_function_has_no_pub() {
    let item = only("fn helper() {}\n");
    assert_eq!(item.signature, "fn helper()");
}

#[test]
fn multiline_signature_is_collapsed() {
    let item = only("pub fn f(\n    a: i32,\n    b: i32,\n) -> i32 {\n    a\n}\n");
    assert_eq!(item.signature, "pub fn f( a: i32, b: i32, ) -> i32");
}

#[test]
fn braced_struct_emits_header_then_fields() {
    let items = extract("pub struct Client<T> {\n    timeout: u64,\n    pub retries: u8,\n}\n");
    assert_eq!(items.len(), 3);
    assert_eq!(items[0].id.kind, Kind::Struct);
    assert_eq!(items[0].id.name, "Client");
    assert_eq!(items[0].signature, "pub struct Client<T>");
    assert_eq!(items[1].id.kind, Kind::Field);
    assert_eq!(items[1].id.name, "Client::timeout");
    assert_eq!(items[1].signature, "Client::timeout: u64");
    assert_eq!(items[2].id.name, "Client::retries");
    assert_eq!(items[2].signature, "pub Client::retries: u8");
    assert_eq!(items[2].line.0, 3);
}

#[test]
fn tuple_struct_fields_key_positionally() {
    let items = extract("pub struct Pair(pub u32, String);\n");
    assert_eq!(items.len(), 3);
    assert_eq!(items[0].signature, "pub struct Pair");
    assert_eq!(items[1].id.kind, Kind::Field);
    assert_eq!(items[1].id.name, "Pair::0");
    assert_eq!(items[1].signature, "pub Pair::0: u32");
    assert_eq!(items[2].id.name, "Pair::1");
    assert_eq!(items[2].signature, "Pair::1: String");
}

#[test]
fn unit_struct_strips_semicolon() {
    let item = only("struct Unit;\n");
    assert_eq!(item.signature, "struct Unit");
}

#[test]
fn enum_emits_header_then_variants() {
    let items = extract(
        "pub enum State {\n    Idle,\n    Running(u32),\n    Failed { code: i32 },\n}\n",
    );
    assert_eq!(items.len(), 4);
    assert_eq!(items[0].id.kind, Kind::Enum);
    assert_eq!(items[0].signature, "pub enum State");
    assert_eq!(items[1].id.kind, Kind::Variant);
    assert_eq!(items[1].id.name, "State::Idle");
    assert_eq!(items[1].signature, "State::Idle");
    assert_eq!(items[2].signature, "State::Running(u32)");
    assert_eq!(items[3].signature, "State::Failed { code: i32 }");
}

#[test]
fn trait_emits_header_then_members() {
    let items = extract(&[
        "pub trait Reader {\n",
        "    const CHUNK: usize = 8;\n",
        "    type Item;\n",
        "    fn read(&self) -> usize;\n",
        "    fn ready(&self) -> bool { true }\n",
        "}\n",
    ].concat());
    assert_eq!(items.len(), 5);
    assert_eq!(items[0].id.kind, Kind::Trait);
    assert_eq!(items[0].signature, "pub trait Reader");
    assert_eq!(items[1].id.kind, Kind::Const);
    assert_eq!(items[1].id.name, "Reader::CHUNK");
    assert_eq!(items[1].signature, "const Reader::CHUNK: usize");
    assert_eq!(items[2].id.kind, Kind::AssocType);
    assert_eq!(items[2].signature, "type Reader::Item");
    assert_eq!(items[3].id.kind, Kind::TraitMethod);
    assert_eq!(items[3].id.name, "Reader::read");
    assert_eq!(items[3].signature, "fn Reader::read(&self) -> usize");
    // A default method is still a trait method; only its body is cut.
    assert_eq!(items[4].id.kind, Kind::TraitMethod);
    assert_eq!(items[4].signature, "fn Reader::ready(&self) -> bool");
}

#[test]
fn type_alias_keeps_rhs() {
    let item = only("pub type Name = String;\n");
    assert_eq!(item.id.kind, Kind::TypeAlias);
    assert_eq!(item.signature, "pub type Name = String");
}

#[test]
fn const_drops_value_keeps_type() {
    let item = only("pub const MAX: u32 = 100;\n");
    assert_eq!(item.id.kind, Kind::Const);
    assert_eq!(item.id.name, "MAX");
    assert_eq!(item.signature, "pub const MAX: u32");
}

#[test]
fn static_keeps_mut_and_type() {
    let item = only("pub static mut COUNT: i64 = 0;\n");
    assert_eq!(item.id.kind, Kind::Static);
    assert_eq!(item.id.name, "COUNT");
    assert_eq!(item.signature, "pub static mut COUNT: i64");
}

#[test]
fn inherent_method_keyed_by_type() {
    let items = extract(
        "impl Client<String> {\n    pub fn close(&mut self) -> Result<(), Error> { Ok(()) }\n}\n",
    );
    assert_eq!(items.len(), 1);
    assert_eq!(items[0].id.kind, Kind::Method);
    assert_eq!(items[0].id.name, "Client::close");
    assert_eq!(
        items[0].signature,
        "pub fn Client::close(&mut self) -> Result<(), Error>"
    );
}

#[test]
fn trait_impl_method_is_qualified_by_trait() {
    let items = extract("impl Reader for Client {\n    fn read(&self) -> usize { 0 }\n}\n");
    assert_eq!(items.len(), 1);
    assert_eq!(items[0].id.name, "<Client as Reader>::read");
    assert_eq!(
        items[0].signature,
        "fn <Client as Reader>::read(&self) -> usize"
    );
}

#[test]
fn impl_assoc_const_and_type_are_members() {
    let items = extract(&[
        "impl Iterator for Counter {\n",
        "    type Item = u32;\n",
        "    const LIMIT: u32 = 5;\n",
        "    fn next(&mut self) -> Option<u32> { None }\n",
        "}\n",
    ].concat());
    assert_eq!(items.len(), 3);
    assert_eq!(items[0].id.kind, Kind::AssocType);
    assert_eq!(items[0].id.name, "<Counter as Iterator>::Item");
    assert_eq!(items[0].signature, "type <Counter as Iterator>::Item = u32");
    assert_eq!(items[1].id.kind, Kind::Const);
    assert_eq!(
        items[1].signature,
        "const <Counter as Iterator>::LIMIT: u32"
    );
    assert_eq!(items[2].id.kind, Kind::Method);
}

#[test]
fn inherent_and_trait_methods_have_distinct_ids() {
    let items = extract(&[
        "impl Client {\n    pub fn read(&self) -> usize { 0 }\n}\n",
        "impl Reader for Client {\n    fn read(&self) -> usize { 0 }\n}\n",
    ].concat());
    assert_eq!(items.len(), 2);
    assert_ne!(items[0].id, items[1].id);
    assert_eq!(items[0].id.name, "Client::read");
    assert_eq!(items[1].id.name, "<Client as Reader>::read");
}

#[test]
fn inline_module_contents_are_not_extracted() {
    let items = extract("pub fn outer() {}\nmod inner {\n    pub fn hidden() {}\n}\n");
    assert_eq!(items.len(), 1);
    assert_eq!(items[0].id.name, "outer");
}

#[test]
fn attributes_and_use_are_skipped() {
    let items = extract("use std::io;\n#[derive(Debug)]\npub struct Foo {\n    x: u8,\n}\n");
    assert_eq!(items.len(), 2);
    assert_eq!(items[0].id.kind, Kind::Struct);
    assert_eq!(items[0].signature, "pub struct Foo");
    assert_eq!(items[1].id.kind, Kind::Field);
}

#[test]
fn rust_mixed_file_preserves_source_order() {
    let items = extract(&[
        "pub struct Client;\n",
        "pub fn connect() -> Client { Client }\n",
        "impl Client {\n    pub fn close(self) {}\n}\n",
    ].concat());
    let kinds: Vec<_> = items.iter().map(|i| i.id.kind).collect();
    assert_eq!(kinds, vec![Kind::Struct, Kind::Function, Kind::Method]);
}

#[test]
fn rust_empty_file_yields_empty_surface() {
    assert!(extract("\n").is_empty());
}

#[test]
fn rust_items_carry_their_declaration_line() {
    let src = "pub struct S;\n\nimpl S {\n    pub fn m(&self) {}\n}\n";
    let items = extract(src);
    let lines: Vec<u32> = items.iter().map(|i| i.line.0).collect();
    // S on line 1; the method on line 4 inside the impl block.
    assert_eq!(lines, vec![1, 4]);
}

#[test]
fn comments_in_a_tuple_struct_are_no_fields() {
    let items = extract("pub struct P(\n // raw\n pub u32);\n");
    assert_eq!(items.len(), 2);
    assert_eq!(items[1].id.kind, Kind::Field);
    assert_eq!(items[1].id.name, "P::0");
    assert_eq!(items[1].signature, "pub P::0: u32");
    assert_eq!(items[1].line.0, 3);
}

#[test]
fn tuple_fields_keep_their_visibility_past_comments_and_attributes() {
    let items = extract(
        "pub struct P(\n    #[serde(skip)] pub /* wide */ u64,\n    /* raw */ String, // last\n    pub(crate) Vec<u8>,\n);\n",
    );
    let signatures: Vec<&str> = items[1..].iter().map(|i| i.signature.as_str()).collect();
    assert_eq!(
        signatures,
        vec!["pub P::0: u64", "P::1: String", "pub(crate) P::2: Vec<u8>"]
    );
    assert_eq!(extract("pub struct E(/* nothing */);\n").len(), 1);
}
