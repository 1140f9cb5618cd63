//! The JSON frontend: serializes a review for machine consumers such as editor
//! plugins.
//!
//! The review types stay free of serialization; this frontend maps them to
//! `serde_json::Value` by hand. The document carries a `version` so consumers
//! can detect shape drift. Schema v2: files carry `items` — blocks with a
//! `status` (including `unchanged` context members), nested `members`, and the
//! `refs` a signature mentions.

use vstd::prelude::*;
use vstd::string::*;

use crate::changes::{
    self, FileChange, FileChangeKind, FileKindModel, FileModel, ItemStatus, ItemView, StatusModel,
    ViewModel,
};
use crate::item::{self, TypeRef};

verus! {

/// Bump when the emitted shape changes incompatibly.
pub const SCHEMA_VERSION: u32 = 2;

/// What a JSON value holds.
pub enum JsonModel {
    Text(Seq<char>),
    Number(nat),
    Array(Seq<JsonModel>),
    Object(Map<Seq<char>, JsonModel>),
}

/// A JSON value.
#[verifier::external_type_specification]
#[verifier::external_body]
pub struct ExValue(serde_json::Value);

/// The entries of a JSON object.
#[verifier::external_type_specification]
#[verifier::external_body]
#[verifier::reject_recursive_types(K)]
#[verifier::reject_recursive_types(V)]
pub struct ExObject<K, V>(serde_json::Map<K, V>);

/// What a JSON value holds.
pub uninterp spec fn json_content(value: serde_json::Value) -> JsonModel;

/// What the entries of a JSON object hold.
pub uninterp spec fn object_content(
    object: serde_json::Map<String, serde_json::Value>,
) -> Map<Seq<char>, JsonModel>;

/// The text of a JSON value.
pub uninterp spec fn json_text(content: JsonModel) -> Seq<char>;

/// No entries.
pub open spec fn no_entries() -> Map<Seq<char>, JsonModel> {
    Map::empty()
}

/// What a sequence of JSON values holds.
pub open spec fn json_contents(values: Seq<serde_json::Value>) -> Seq<JsonModel> {
    Seq::new(values.len(), |i: int| json_content(values[i]))
}

/// `Value::from` a string slice makes a JSON string of its characters.
#[verifier::external_body]
fn text_value(words: &str) -> (value: serde_json::Value)
    ensures
        json_content(value) == JsonModel::Text(words@),
{
    serde_json::Value::from(words)
}

/// `Value::from` an unsigned number makes that JSON number.
#[verifier::external_body]
fn number_value(n: u32) -> (value: serde_json::Value)
    ensures
        json_content(value) == JsonModel::Number(n as nat),
{
    serde_json::Value::from(n)
}

/// `Value::from` a vector makes a JSON array of its values, in order.
#[verifier::external_body]
fn array_value(values: Vec<serde_json::Value>) -> (value: serde_json::Value)
    ensures
        json_content(value) == JsonModel::Array(json_contents(values@)),
{
    serde_json::Value::from(values)
}

/// `Value::from` a map makes a JSON object of its entries.
#[verifier::external_body]
fn object_value(object: serde_json::Map<String, serde_json::Value>) -> (value: serde_json::Value)
    ensures
        json_content(value) == JsonModel::Object(object_content(object)),
{
    serde_json::Value::from(object)
}

/// `serde_json::Map::new` makes a map without entries.
#[verifier::external_body]
fn new_object() -> (object: serde_json::Map<String, serde_json::Value>)
    ensures
        object_content(object) == no_entries(),
{
    serde_json::Map::new()
}

/// `serde_json::Map::insert` sets the entry under a key.
#[verifier::external_body]
fn set_entry(
    object: &mut serde_json::Map<String, serde_json::Value>,
    key: &str,
    value: serde_json::Value,
)
    ensures
        object_content(*final(object)) == object_content(*old(object)).insert(
            key@,
            json_content(value),
        ),
{
    object.insert(key.to_owned(), value);
}

/// The `Display` rendering of a JSON value is its compact JSON text, which
/// depends on what the value holds alone: the entries of an object are kept in
/// the order of their keys, as long as serde_json's `preserve_order` feature is
/// off.
#[verifier::external_body]
fn write_value(value: &serde_json::Value) -> (words: String)
    ensures
        words@ == json_text(json_content(*value)),
{
    value.to_string()
}

/// The names of the types a signature mentions.
pub open spec fn refs_doc(refs: Seq<Seq<char>>) -> JsonModel {
    JsonModel::Array(Seq::new(refs.len(), |i: int| JsonModel::Text(refs[i])))
}

/// The base-side signature and line of a modified item.
pub open spec fn before_doc(before: item::ItemModel) -> JsonModel {
    JsonModel::Object(
        no_entries().insert(
            "signature"@,
            JsonModel::Text(before.signature),
        ).insert("line"@, JsonModel::Number(before.line.0 as nat)),
    )
}

/// The entries of one item, given those of its members. The item's path is
/// omitted: it always equals the enclosing file entry's.
pub open spec fn item_entries(
    view: ViewModel,
    members: Seq<JsonModel>,
) -> Map<Seq<char>, JsonModel> {
    no_entries().insert(
        "status"@,
        JsonModel::Text(changes::status_word(view.status)),
    ).insert("kind"@, JsonModel::Text(item::kind_word(view.item.id.kind))).insert(
        "name"@,
        JsonModel::Text(view.item.id.name),
    ).insert("signature"@, JsonModel::Text(view.item.signature)).insert(
        "line"@,
        JsonModel::Number(view.item.line.0 as nat),
    ).insert("refs"@, refs_doc(view.item.refs)).insert("members"@, JsonModel::Array(members))
}

/// The documents of the first `n` members of an item.
pub open spec fn members_doc(view: ViewModel, n: nat) -> Seq<JsonModel>
    decreases view, n,
{
    if n == 0 || n > view.members.len() {
        seq![]
    } else {
        members_doc(view, (n - 1) as nat).push(view_doc(view.members[n - 1]))
    }
}

/// The document of one item and its members. A modified item carries its
/// base-side signature and line under `before`.
pub open spec fn view_doc(view: ViewModel) -> JsonModel
    decreases view, view.members.len() + 1,
{
    let entries = item_entries(view, members_doc(view, view.members.len()));
    JsonModel::Object(
        match view.status {
            StatusModel::Modified { before } => entries.insert("before"@, before_doc(before)),
            _ => entries,
        },
    )
}

/// The documents of a sequence of items.
pub open spec fn views_doc(views: Seq<ViewModel>) -> Seq<JsonModel> {
    Seq::new(views.len(), |i: int| view_doc(views[i]))
}

/// The document of one file.
pub open spec fn file_doc(file: FileModel) -> JsonModel {
    JsonModel::Object(
        no_entries().insert("path"@, JsonModel::Text(file.path)).insert(
            "status"@,
            JsonModel::Text(
                match file.kind {
                    FileKindModel::Deleted => "deleted"@,
                    FileKindModel::Changed(_) => "changed"@,
                },
            ),
        ).insert(
            "items"@,
            JsonModel::Array(
                match file.kind {
                    FileKindModel::Deleted => seq![],
                    FileKindModel::Changed(blocks) => views_doc(blocks),
                },
            ),
        ),
    )
}

/// The document of a review.
pub open spec fn review_doc(review: Seq<FileModel>) -> JsonModel {
    JsonModel::Object(
        no_entries().insert(
            "version"@,
            JsonModel::Number(SCHEMA_VERSION as nat),
        ).insert(
            "files"@,
            JsonModel::Array(Seq::new(review.len(), |i: int| file_doc(review[i]))),
        ),
    )
}

/// The names of the types a signature mentions.
fn refs_json(refs: &Vec<TypeRef>) -> (value: serde_json::Value)
    ensures
        json_content(value) == refs_doc(item::views(refs@)),
{
    let ghost names = item::views(refs@);
    let ghost all = Seq::new(names.len(), |i: int| JsonModel::Text(names[i]));
    let mut values: Vec<serde_json::Value> = Vec::new();
    let mut i: usize = 0;
    assert(json_contents(values@) =~= all.take(0));
    while i < refs.len()
        invariant
            i <= refs@.len(),
            names == item::views(refs@),
            all == Seq::new(names.len(), |i: int| JsonModel::Text(names[i])),
            json_contents(values@) == all.take(i as int),
        decreases refs.len() - i,
    {
        let ghost before = values@;
        let value = text_value(refs[i].0.as_str());
        values.push(value);
        proof {
            assert(names[i as int] == refs@[i as int]@);
            assert(json_contents(values@) =~= json_contents(before).push(json_content(value)));
            assert(json_contents(values@) =~= all.take(i + 1));
        }
        i = i + 1;
    }
    assert(all.take(i as int) =~= all);
    array_value(values)
}

/// The document of one item. The item's path is omitted: it always equals the
/// enclosing file entry's. A modified item carries its base-side signature and
/// line under `before`.
pub fn view_json(view: &ItemView) -> (value: serde_json::Value)
    ensures
        json_content(value) == view_doc(view@),
    decreases view,
{
    proof {
        changes::lemma_model(*view);
    }
    let item = &view.item;
    let mut members: Vec<serde_json::Value> = Vec::new();
    let mut i: usize = 0;
    assert(json_contents(members@) =~= members_doc(view@, 0));
    while i < view.members.len()
        invariant
            i <= view.members@.len(),
            view@.members == item::views(view.members@),
            json_contents(members@) == members_doc(view@, i as nat),
        decreases view.members.len() - i,
    {
        let ghost before = members@;
        assert(view@.members[i as int] == view.members@[i as int]@);
        let value = view_json(&view.members[i]);
        members.push(value);
        proof {
            assert(json_contents(members@) =~= json_contents(before).push(json_content(value)));
        }
        i = i + 1;
    }
    let ghost docs = members_doc(view@, view@.members.len());
    let mut object = new_object();
    set_entry(&mut object, "status", text_value(view.status.as_str()));
    set_entry(&mut object, "kind", text_value(item.id.kind.as_str()));
    set_entry(&mut object, "name", text_value(item.id.name.as_str()));
    set_entry(&mut object, "signature", text_value(item.signature.as_str()));
    set_entry(&mut object, "line", number_value(item.line.0));
    set_entry(&mut object, "refs", refs_json(&item.refs));
    set_entry(&mut object, "members", array_value(members));
    assert(object_content(object) == item_entries(view@, docs));
    if let ItemStatus::Modified { before } = &view.status {
        let mut old_side = new_object();
        set_entry(&mut old_side, "signature", text_value(before.signature.as_str()));
        set_entry(&mut old_side, "line", number_value(before.line.0));
        set_entry(&mut object, "before", object_value(old_side));
    }
    object_value(object)
}

/// The document of one file.
pub fn file_json(file: &FileChange) -> (value: serde_json::Value)
    ensures
        json_content(value) == file_doc(file@),
{
    let mut items: Vec<serde_json::Value> = Vec::new();
    assert(json_contents(items@) =~= seq![]);
    let status = match &file.kind {
        FileChangeKind::Deleted => "deleted",
        FileChangeKind::Changed(changeset) => {
            let ghost docs = views_doc(changeset@);
            let mut i: usize = 0;
            while i < changeset.blocks.len()
                invariant
                    i <= changeset.blocks@.len(),
                    changeset@ == item::views(changeset.blocks@),
                    docs == views_doc(changeset@),
                    json_contents(items@) == docs.take(i as int),
                decreases changeset.blocks.len() - i,
            {
                let ghost before = items@;
                assert(changeset@[i as int] == changeset.blocks@[i as int]@);
                let value = view_json(&changeset.blocks[i]);
                items.push(value);
                proof {
                    assert(json_contents(items@) =~= json_contents(before).push(
                        json_content(value),
                    ));
                    assert(json_contents(items@) =~= docs.take(i + 1));
                }
                i = i + 1;
            }
            assert(docs.take(i as int) =~= docs);
            "changed"
        },
    };
    let mut object = new_object();
    set_entry(&mut object, "path", text_value(file.path.as_str()));
    set_entry(&mut object, "status", text_value(status));
    set_entry(&mut object, "items", array_value(items));
    object_value(object)
}

/// Renders a review: its document as compact JSON, and a line end.
pub fn render_json(out: &mut String, review: &[FileChange])
    ensures
        final(out)@ == old(out)@ + json_text(review_doc(item::views(review@))) + "\n"@,
{
    let ghost all = item::views(review@);
    let ghost docs = Seq::new(all.len(), |i: int| file_doc(all[i]));
    let mut files: Vec<serde_json::Value> = Vec::new();
    let mut i: usize = 0;
    assert(json_contents(files@) =~= docs.take(0));
    while i < review.len()
        invariant
            i <= review@.len(),
            all == item::views(review@),
            docs == Seq::new(all.len(), |i: int| file_doc(all[i])),
            json_contents(files@) == docs.take(i as int),
        decreases review.len() - i,
    {
        let ghost before = files@;
        assert(all[i as int] == review@[i as int]@);
        let value = file_json(&review[i]);
        files.push(value);
        proof {
            assert(json_contents(files@) =~= json_contents(before).push(json_content(value)));
            assert(json_contents(files@) =~= docs.take(i + 1));
        }
        i = i + 1;
    }
    assert(docs.take(i as int) =~= docs);
    let mut object = new_object();
    set_entry(&mut object, "version", number_value(SCHEMA_VERSION));
    set_entry(&mut object, "files", array_value(files));
    let doc = object_value(object);
    out.append(write_value(&doc).as_str());
    out.append("\n");
}

} // verus!
