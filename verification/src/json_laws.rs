//! What the JSON document of a review holds: an entry per file, in order, an
//! entry per item in it, and of each what the item is.

use vstd::prelude::*;

use crate::changes::{FileKindModel, FileModel, StatusModel, ViewModel};
use crate::item::{ItemModel, Kind};
use crate::json::{self, JsonModel};

verus! {

/// Whether a document is an object with an entry.
pub open spec fn has(doc: JsonModel, key: Seq<char>, value: JsonModel) -> bool {
    doc matches JsonModel::Object(entries) && entries.contains_key(key) && entries[key] == value
}

/// Whether a document is an object with an array under a key.
pub open spec fn lists(doc: JsonModel, key: Seq<char>, values: Seq<JsonModel>) -> bool {
    has(doc, key, JsonModel::Array(values))
}

/// Whether a document is an object with no entries but those under `keys`.
pub open spec fn only(doc: JsonModel, keys: Set<Seq<char>>) -> bool {
    doc matches JsonModel::Object(entries) && entries.dom() == keys
}

/// The keys of the documents differ.
proof fn lemma_keys()
    ensures
        "version"@ != "files"@,
        "path"@ != "status"@,
        "path"@ != "items"@,
        "status"@ != "items"@,
        "signature"@ != "line"@,
        "status"@ != "kind"@,
        "status"@ != "name"@,
        "status"@ != "signature"@,
        "status"@ != "line"@,
        "status"@ != "refs"@,
        "status"@ != "members"@,
        "status"@ != "before"@,
        "kind"@ != "name"@,
        "kind"@ != "signature"@,
        "kind"@ != "line"@,
        "kind"@ != "refs"@,
        "kind"@ != "members"@,
        "kind"@ != "before"@,
        "name"@ != "signature"@,
        "name"@ != "line"@,
        "name"@ != "refs"@,
        "name"@ != "members"@,
        "name"@ != "before"@,
        "signature"@ != "refs"@,
        "signature"@ != "members"@,
        "signature"@ != "before"@,
        "line"@ != "refs"@,
        "line"@ != "members"@,
        "line"@ != "before"@,
        "refs"@ != "members"@,
        "refs"@ != "before"@,
        "members"@ != "before"@,
{
    reveal_strlit("version");
    reveal_strlit("files");
    reveal_strlit("path");
    reveal_strlit("status");
    reveal_strlit("items");
    reveal_strlit("signature");
    reveal_strlit("line");
    reveal_strlit("kind");
    reveal_strlit("name");
    reveal_strlit("refs");
    reveal_strlit("members");
    reveal_strlit("before");
    assert("status"@[1] == 't');
    assert("signature"@[1] == 'i');
    assert("version"@[0] == 'v' && "files"@[0] == 'f' && "path"@[0] == 'p' && "items"@[0] == 'i');
    assert("status"@[0] == 's' && "signature"@[0] == 's' && "line"@[0] == 'l' && "kind"@[0] == 'k');
    assert("name"@[0] == 'n' && "refs"@[0] == 'r' && "members"@[0] == 'm' && "before"@[0] == 'b');
}

/// The document of a review is of schema version two, and holds one entry per
/// file, in order: entry `i` is that of file `i`, and carries its path. It holds
/// nothing else.
pub proof fn law_json_lists_every_file(review: Seq<FileModel>, docs: Seq<JsonModel>)
    requires
        lists(json::review_doc(review), "files"@, docs),
    ensures
        only(json::review_doc(review), set!["version"@, "files"@]),
        has(json::review_doc(review), "version"@, JsonModel::Number(2)),
        docs.len() == review.len(),
        forall|i: int|
            0 <= i < review.len() ==> (#[trigger] docs[i]) == json::file_doc(review[i]) && has(
                docs[i],
                "path"@,
                JsonModel::Text(review[i].path),
            ),
{
    lemma_keys();
    let doc = json::review_doc(review);
    assert(doc->Object_0.dom() =~= set!["version"@, "files"@]);
    assert forall|i: int| 0 <= i < review.len() implies (#[trigger] docs[i]) == json::file_doc(
        review[i],
    ) && has(docs[i], "path"@, JsonModel::Text(review[i].path)) by {
        lemma_file_path(review[i]);
    }
}

/// The document of a review lists files.
pub proof fn law_json_has_files(review: Seq<FileModel>) -> (docs: Seq<JsonModel>)
    ensures
        lists(json::review_doc(review), "files"@, docs),
{
    lemma_keys();
    match json::review_doc(review)->Object_0["files"@] {
        JsonModel::Array(docs) => docs,
        _ => seq![],
    }
}

/// The document of a file carries its path.
proof fn lemma_file_path(file: FileModel)
    ensures
        has(json::file_doc(file), "path"@, JsonModel::Text(file.path)),
{
    lemma_keys();
}

/// The document of a file says where it is and whether it was deleted, and
/// lists the file's blocks, all of them and in order; a deleted file has none.
pub proof fn law_json_files_list_their_blocks(file: FileModel) -> (docs: Seq<JsonModel>)
    ensures
        only(json::file_doc(file), set!["path"@, "status"@, "items"@]),
        has(json::file_doc(file), "path"@, JsonModel::Text(file.path)),
        lists(json::file_doc(file), "items"@, docs),
        match file.kind {
            FileKindModel::Deleted => has(
                json::file_doc(file),
                "status"@,
                JsonModel::Text("deleted"@),
            ) && docs.len() == 0,
            FileKindModel::Changed(blocks) => has(
                json::file_doc(file),
                "status"@,
                JsonModel::Text("changed"@),
            ) && docs.len() == blocks.len() && forall|i: int|
                0 <= i < blocks.len() ==> #[trigger] docs[i] == json::view_doc(blocks[i]),
        },
{
    lemma_keys();
    let doc = json::file_doc(file);
    assert(doc->Object_0.dom() =~= set!["path"@, "status"@, "items"@]);
    match doc->Object_0["items"@] {
        JsonModel::Array(docs) => docs,
        _ => seq![],
    }
}

/// The words a status is written as.
pub open spec fn word_of_status(status: StatusModel, word: Seq<char>) -> bool {
    match status {
        StatusModel::Added => word == "added"@,
        StatusModel::Removed => word == "removed"@,
        StatusModel::Modified { .. } => word == "modified"@,
        StatusModel::Unchanged => word == "unchanged"@,
    }
}

/// The words a kind is written as.
pub open spec fn word_of_kind(kind: Kind, word: Seq<char>) -> bool {
    match kind {
        Kind::Function => word == "function"@,
        Kind::Method => word == "method"@,
        Kind::Struct => word == "struct"@,
        Kind::Interface => word == "interface"@,
        Kind::Type => word == "type"@,
        Kind::TypeAlias => word == "type_alias"@,
        Kind::Const => word == "const"@,
        Kind::Var => word == "var"@,
        Kind::Enum => word == "enum"@,
        Kind::Trait => word == "trait"@,
        Kind::Static => word == "static"@,
        Kind::Field => word == "field"@,
        Kind::InterfaceMethod => word == "interface_method"@,
        Kind::Variant => word == "variant"@,
        Kind::TraitMethod => word == "trait_method"@,
        Kind::AssocType => word == "assoc_type"@,
    }
}

/// What the document of an item says of it, its members aside.
pub open spec fn describes(doc: JsonModel, view: ViewModel) -> bool {
    &&& exists|word: Seq<char>|
        #[trigger] word_of_status(view.status, word) && has(
            doc,
            "status"@,
            JsonModel::Text(word),
        )
    &&& exists|word: Seq<char>|
        #[trigger] word_of_kind(view.item.id.kind, word) && has(doc, "kind"@, JsonModel::Text(word))
    &&& has(doc, "name"@, JsonModel::Text(view.item.id.name))
    &&& has(doc, "signature"@, JsonModel::Text(view.item.signature))
    &&& has(doc, "line"@, JsonModel::Number(view.item.line.0 as nat))
}

/// The document of an item says what became of it, what it is, what it is
/// called, its signature and its line; it lists its references and the documents
/// of its members, all of them and in order. Only a modified item has an entry
/// `before`, with the old signature and line.
pub proof fn law_json_items_are_described(view: ViewModel) -> (lists_of: (
    Seq<JsonModel>,
    Seq<JsonModel>,
))
    ensures
        ({
            let doc = json::view_doc(view);
            let refs = lists_of.0;
            let members = lists_of.1;
            let keys = set![
                "status"@,
                "kind"@,
                "name"@,
                "signature"@,
                "line"@,
                "refs"@,
                "members"@,
            ];
            &&& describes(doc, view)
            &&& lists(doc, "refs"@, refs)
            &&& refs.len() == view.item.refs.len()
            &&& forall|r: int|
                0 <= r < refs.len() ==> #[trigger] refs[r] == JsonModel::Text(view.item.refs[r])
            &&& lists(doc, "members"@, members)
            &&& members.len() == view.members.len()
            &&& forall|m: int|
                0 <= m < members.len() ==> #[trigger] members[m] == json::view_doc(view.members[m])
            &&& match view.status {
                StatusModel::Modified { before } => only(doc, keys.insert("before"@))
                    && exists|old_side: JsonModel|
                    has(doc, "before"@, old_side) && #[trigger] is_old_side(old_side, before),
                _ => only(doc, keys),
            }
        }),
{
    lemma_keys();
    let doc = json::view_doc(view);
    let entries = doc->Object_0;
    let members = json::members_doc(view, view.members.len());
    let refs = Seq::new(view.item.refs.len(), |i: int| JsonModel::Text(view.item.refs[i]));
    let keys = set!["status"@, "kind"@, "name"@, "signature"@, "line"@, "refs"@, "members"@];
    lemma_members(view, view.members.len());
    let status = crate::changes::status_word(view.status);
    assert(word_of_status(view.status, status));
    assert(has(doc, "status"@, JsonModel::Text(status)));
    let kind = crate::item::kind_word(view.item.id.kind);
    assert(word_of_kind(view.item.id.kind, kind));
    assert(has(doc, "kind"@, JsonModel::Text(kind)));
    match view.status {
        StatusModel::Modified { before } => {
            let old_side = json::before_doc(before);
            assert(entries.dom() =~= keys.insert("before"@));
            assert(has(doc, "before"@, old_side));
            assert(old_side->Object_0.dom() =~= set!["signature"@, "line"@]);
            assert(is_old_side(old_side, before));
        },
        _ => {
            assert(entries.dom() =~= keys);
        },
    }
    assert(lists(doc, "refs"@, refs));
    (refs, members)
}

/// Whether a document is what a modified item says of its base side: the
/// signature and the line there, and nothing else.
pub open spec fn is_old_side(doc: JsonModel, before: ItemModel) -> bool {
    &&& only(doc, set!["signature"@, "line"@])
    &&& has(doc, "signature"@, JsonModel::Text(before.signature))
    &&& has(doc, "line"@, JsonModel::Number(before.line.0 as nat))
}

/// The documents of the first `n` members.
proof fn lemma_members(view: ViewModel, n: nat)
    requires
        n <= view.members.len(),
    ensures
        json::members_doc(view, n).len() == n,
        forall|m: int|
            0 <= m < n ==> #[trigger] json::members_doc(view, n)[m] == json::view_doc(
                view.members[m],
            ),
    decreases n,
{
    if n > 0 {
        lemma_members(view, (n - 1) as nat);
        let before = json::members_doc(view, (n - 1) as nat);
        assert forall|m: int| 0 <= m < n implies #[trigger] json::members_doc(view, n)[m]
            == json::view_doc(view.members[m]) by {
            if m < n - 1 {
                assert(json::members_doc(view, n)[m] == before[m]);
            }
        }
    }
}

} // verus!
