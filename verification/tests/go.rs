//! The shape of Go sources.

use absolem::item::{Item, Kind};
use absolem::producer::go::GoProducer;

fn extract(source: &str) -> Vec<Item> {
    let mut p = GoProducer::new().unwrap();
    let s = p.extract("f.go", source).unwrap();
    s.iter().to_vec()
}

#[test]
fn function_strips_body() {
    let src = "package foo\n\nfunc Connect(addr string) Client {\n    return Client{}\n}\n";
    let items = extract(src);
    assert_eq!(items.len(), 1);
    assert_eq!(items[0].id.kind, Kind::Function);
    assert_eq!(items[0].id.name, "Connect");
    assert_eq!(items[0].signature, "func Connect(addr string) Client");
}

#[test]
fn method_strips_body_keeps_receiver() {
    let src = "package foo\n\nfunc (c *Client) Close() error {\n    return nil\n}\n";
    let items = extract(src);
    assert_eq!(items.len(), 1);
    assert_eq!(items[0].id.kind, Kind::Method);
    assert_eq!(items[0].id.name, "Client.Close");
    assert_eq!(items[0].signature, "func (c *Client) Close() error");
}

#[test]
fn method_id_collapses_value_and_pointer_receiver() {
    let pointer = extract("package foo\nfunc (c *Client) Close() error { return nil }");
    let value = extract("package foo\nfunc (c Client) Close() error { return nil }");
    assert_eq!(pointer[0].id, value[0].id);
}

#[test]
fn methods_on_different_types_have_distinct_ids() {
    let src = "package foo\nfunc (c *Client) Close() error { return nil }\nfunc (s *Server) Close() error { return nil }\n";
    let items = extract(src);
    assert_eq!(items.len(), 2);
    assert_ne!(items[0].id, items[1].id);
    assert_eq!(items[0].id.name, "Client.Close");
    assert_eq!(items[1].id.name, "Server.Close");
}

#[test]
fn struct_emits_header_then_one_item_per_field() {
    let src = "package foo\n\ntype Client struct {\n    timeout int\n    retries int\n}\n";
    let items = extract(src);
    assert_eq!(items.len(), 3);
    assert_eq!(items[0].id.kind, Kind::Struct);
    assert_eq!(items[0].id.name, "Client");
    assert_eq!(items[0].signature, "type Client struct");
    assert_eq!(items[1].id.kind, Kind::Field);
    assert_eq!(items[1].id.name, "Client.timeout");
    assert_eq!(items[1].signature, "Client.timeout int");
    assert_eq!(items[2].id.name, "Client.retries");
    assert_eq!(items[2].line.0, 5);
}

#[test]
fn multi_name_field_collapses_to_first_name() {
    let src = "package foo\n\ntype P struct {\n    x, y float64\n}\n";
    let items = extract(src);
    assert_eq!(items.len(), 2);
    assert_eq!(items[1].id.name, "P.x");
    assert_eq!(items[1].signature, "P.x, y float64");
}

#[test]
fn field_tag_is_part_of_the_shape() {
    let src = "package foo\n\ntype U struct {\n    Name string `json:\"name\"`\n}\n";
    let items = extract(src);
    assert_eq!(items[1].signature, "U.Name string `json:\"name\"`");
}

#[test]
fn embedded_field_reads_embeds_and_strips_pointer() {
    let src = "package foo\n\ntype Client struct {\n    *Base\n    io.Reader\n}\n";
    let items = extract(src);
    assert_eq!(items.len(), 3);
    assert_eq!(items[1].id.kind, Kind::Field);
    assert_eq!(items[1].id.name, "Client.Base");
    assert_eq!(items[1].signature, "Client embeds Base");
    assert_eq!(items[2].id.name, "Client.io.Reader");
    assert_eq!(items[2].signature, "Client embeds io.Reader");
}

#[test]
fn interface_emits_header_then_one_item_per_method() {
    let src = "package foo\n\ntype Reader interface {\n    Read(p []byte) (int, error)\n    Close() error\n}\n";
    let items = extract(src);
    assert_eq!(items.len(), 3);
    assert_eq!(items[0].id.kind, Kind::Interface);
    assert_eq!(items[0].signature, "type Reader interface");
    assert_eq!(items[1].id.kind, Kind::InterfaceMethod);
    assert_eq!(items[1].id.name, "Reader.Read");
    assert_eq!(items[1].signature, "Reader.Read(p []byte) (int, error)");
    assert_eq!(items[2].id.name, "Reader.Close");
    assert_eq!(items[2].signature, "Reader.Close() error");
}

#[test]
fn embedded_interface_reads_embeds() {
    let src = "package foo\n\ntype ReadCloser interface {\n    Reader\n    io.Closer\n}\n";
    let items = extract(src);
    assert_eq!(items.len(), 3);
    assert_eq!(items[1].id.kind, Kind::InterfaceMethod);
    assert_eq!(items[1].id.name, "ReadCloser.Reader");
    assert_eq!(items[1].signature, "ReadCloser embeds Reader");
    assert_eq!(items[2].id.name, "ReadCloser.io.Closer");
    assert_eq!(items[2].signature, "ReadCloser embeds io.Closer");
}

#[test]
fn empty_struct_and_interface_emit_no_members() {
    let src = "package foo\n\ntype S struct{}\n\ntype I interface{}\n";
    let items = extract(src);
    assert_eq!(items.len(), 2);
    assert_eq!(items[0].id.kind, Kind::Struct);
    assert_eq!(items[1].id.kind, Kind::Interface);
}

#[test]
fn type_alias_uses_equals_kind_alias() {
    let src = "package foo\n\ntype Name = string\n";
    let items = extract(src);
    assert_eq!(items.len(), 1);
    assert_eq!(items[0].id.kind, Kind::TypeAlias);
    assert_eq!(items[0].signature, "type Name = string");
}

#[test]
fn named_type_uses_kind_type() {
    let src = "package foo\n\ntype UserId string\n";
    let items = extract(src);
    assert_eq!(items.len(), 1);
    assert_eq!(items[0].id.kind, Kind::Type);
    assert_eq!(items[0].signature, "type UserId string");
}

#[test]
fn grouped_type_block_yields_each_spec() {
    let src = "package foo\n\ntype (\n    Client struct{}\n    Reader interface{}\n)\n";
    let items = extract(src);
    assert_eq!(items.len(), 2);
    assert_eq!(items[0].id.kind, Kind::Struct);
    assert_eq!(items[1].id.kind, Kind::Interface);
}

#[test]
fn const_block_splits_per_spec() {
    let src = "package foo\n\nconst (\n    A = 1\n    B = 2\n)\n";
    let items = extract(src);
    assert_eq!(items.len(), 2);
    assert_eq!(items[0].id.kind, Kind::Const);
    assert_eq!(items[0].id.name, "A");
    assert_eq!(items[0].signature, "const A = 1");
    assert_eq!(items[1].id.name, "B");
}

#[test]
fn single_var_emits_one_item() {
    let src = "package foo\n\nvar Default Client = Client{timeout: 30}\n";
    let items = extract(src);
    assert_eq!(items.len(), 1);
    assert_eq!(items[0].id.kind, Kind::Var);
    assert_eq!(items[0].id.name, "Default");
}

#[test]
fn go_mixed_file_preserves_source_order() {
    let src = "package foo\n\ntype Client struct{}\n\nfunc Connect() Client {\n    return Client{}\n}\n\nfunc (c *Client) Close() error {\n    return nil\n}\n";
    let items = extract(src);
    assert_eq!(items.len(), 3);
    assert_eq!(items[0].id.kind, Kind::Struct);
    assert_eq!(items[1].id.kind, Kind::Function);
    assert_eq!(items[2].id.kind, Kind::Method);
}

#[test]
fn go_empty_file_yields_empty_surface() {
    let items = extract("package foo\n");
    assert!(items.is_empty());
}

#[test]
fn go_items_carry_their_declaration_line() {
    let src = "package foo\n\nfunc A() {}\n\nconst (\n    X = 1\n    Y = 2\n)\n";
    let items = extract(src);
    let lines: Vec<u32> = items.iter().map(|i| i.line.0).collect();
    // A on line 3; X and Y on their own spec lines inside the block.
    assert_eq!(lines, vec![3, 6, 7]);
}
#[test]
fn items_carry_type_refs() {
    let src = "package foo\n\nfunc Connect(addr string, cfg Config) (*Client, error) {\n    return nil, nil\n}\n";
    let items = extract(src);
    let refs: Vec<&str> = items[0].refs.iter().map(|r| r.0.as_str()).collect();
    // string and error are predeclared; Config and Client are refs.
    assert_eq!(refs, vec!["Config", "Client"]);
}

#[test]
fn members_and_methods_carry_parent_but_not_self_ref() {
    let src = [
        "package foo\n",
        "type Client struct {\n    conn net.Conn\n}\n",
        "func (c *Client) Send(m Message) error { return nil }\n",
    ].concat();
    let items = extract(&src);
    // items: struct header, field, method
    assert_eq!(items[0].parent, None);
    assert_eq!(items[1].parent.as_deref(), Some("Client"));
    let field_refs: Vec<&str> = items[1].refs.iter().map(|r| r.0.as_str()).collect();
    assert_eq!(field_refs, vec!["net.Conn"]);
    assert_eq!(items[2].parent.as_deref(), Some("Client"));
    let method_refs: Vec<&str> = items[2].refs.iter().map(|r| r.0.as_str()).collect();
    // The receiver type is the parent, not a reference.
    assert_eq!(method_refs, vec!["Message"]);
}

#[test]
fn var_block_splits_per_spec() {
    let items = extract("package foo\n\nvar (\n    A = 1\n    B = 2\n)\n");
    assert_eq!(items.len(), 2);
    assert_eq!(items[0].id.kind, Kind::Var);
    assert_eq!(items[0].id.name, "A");
    assert_eq!(items[0].signature, "var A = 1");
    assert_eq!(items[0].line.0, 4);
    assert_eq!(items[1].id.kind, Kind::Var);
    assert_eq!(items[1].id.name, "B");
    assert_eq!(items[1].signature, "var B = 2");
    assert_eq!(items[1].line.0, 5);
}

#[test]
fn a_var_reads_the_same_in_a_block_and_alone() {
    let alone = extract("package foo\n\nvar A, B Client\n");
    let listed = extract("package foo\nvar (\n    // note\n    A, B Client\n)\n");
    assert_eq!(alone.len(), 1);
    assert_eq!(listed.len(), 1);
    assert_eq!(alone[0].id, listed[0].id);
    assert_eq!(alone[0].signature, "var A, B Client");
    assert_eq!(listed[0].signature, "var A, B Client");
    assert_eq!(alone[0].refs, listed[0].refs);
    assert!(extract("package foo\nvar ()\n").is_empty());
}

#[test]
fn comments_are_neither_fields_nor_types() {
    let src = "package foo\n\ntype S struct /* body */ {\n    // a field\n    a int\n}\n\nfunc (s */* to */S) M() {}\n";
    let items = extract(src);
    let names: Vec<&str> = items.iter().map(|i| i.id.name.as_str()).collect();
    assert_eq!(names, vec!["S", "S.a", "S.M"]);
}

#[test]
fn pointer_and_value_receivers_share_an_id() {
    let pointer = extract("package foo\nfunc (c *Client) Send(m Message) error { return nil }\n");
    let value = extract("package foo\nfunc (c Client) Send(m Message) error { return nil }\n");
    for items in [&pointer, &value] {
        assert_eq!(items.len(), 1);
        assert_eq!(items[0].id.name, "Client.Send");
        assert_eq!(items[0].parent.as_deref(), Some("Client"));
        let refs: Vec<&str> = items[0].refs.iter().map(|r| r.0.as_str()).collect();
        assert_eq!(refs, vec!["Message"]);
    }
    assert_eq!(pointer[0].id, value[0].id);
}

#[test]
fn a_longer_body_moves_what_follows_and_nothing_else() {
    let before = extract("package foo\nfunc A() int { return 1 }\nfunc (c *C) B(x T) {}\n");
    let after = extract("package foo\nfunc A() int {\n    x := 1\n    return x\n}\nfunc (c *C) B(x T) {}\n");
    assert_eq!(before.len(), after.len());
    for (one, other) in before.iter().zip(&after) {
        assert_eq!(one.id, other.id);
        assert_eq!(one.signature, other.signature);
        assert_eq!(one.parent, other.parent);
        assert_eq!(one.refs, other.refs);
    }
    assert_eq!((before[1].line.0, after[1].line.0), (3, 6));
}
