//! A review turned into rows: styled lines, some of which the cursor may land
//! on, with whatever the reader has unfolded beneath them.

use vstd::prelude::*;

use crate::changes::{self, ItemStatus, ItemView, ViewModel};
use crate::index::{self, Resolved, TypeIndex};
use crate::item::{self, ItemId, Line};
use crate::text;
use crate::tui::style::{self, Color, LineModel, Span, SpanModel, Style, StyledLine};
use crate::tui::tokens;

verus! {

/// Where a cursor stop leads when opened: the file and line of the item at
/// the ref under review. Removed items have nowhere to go — they no longer
/// exist on the head side.
#[derive(Debug, PartialEq, Eq)]
pub struct JumpTarget {
    pub path: String,
    pub line: Line,
}

/// The stable identity of an item row: the chain of `ItemId`s from the review
/// row down through each expansion that produced it. Expansion state is keyed
/// by this rather than by stop position — positions shift whenever rows
/// unfold, identities don't. Doubles as the cycle guard: a definition already
/// on the path is not expanded again.
#[derive(Debug, PartialEq, Eq)]
pub struct RowPath(pub Vec<ItemId>);

/// A set of rows, by identity.
pub struct PathSet {
    paths: Vec<RowPath>,
}

/// What the row builders consult: which rows are unfolded in each direction,
/// and the index that resolves both.
pub struct RenderCtx<'a> {
    pub expanded: &'a PathSet,
    pub usages_open: &'a PathSet,
    pub index: &'a TypeIndex,
}

/// What is known of a row the cursor may land on.
#[derive(Debug, PartialEq, Eq)]
pub struct Stop {
    /// Where the stop jumps when opened.
    pub jump: Option<JumpTarget>,
    /// Whether the row references a type the index can resolve, i.e. whether
    /// `Tab` will do anything.
    pub expandable: bool,
    /// Whether anything references the row's item, i.e. whether `gr` will do
    /// anything.
    pub referenced: bool,
    /// The row's identity, `None` for file headers.
    pub path: Option<RowPath>,
    /// Whether this is a file row — a `{` / `}` waypoint.
    pub header: bool,
}

/// A display line, and what makes it a stop if it is one. Blank separators
/// and `was:` continuation rows are rendered but are not stops.
#[derive(Debug, PartialEq, Eq)]
pub struct Row {
    pub line: StyledLine,
    pub stop: Option<Stop>,
}

/// The mathematical model of a `JumpTarget`.
#[verifier::ext_equal]
pub struct JumpModel {
    pub path: Seq<char>,
    pub line: Line,
}

/// The mathematical model of a `Stop`.
#[verifier::ext_equal]
pub struct StopModel {
    pub jump: Option<JumpModel>,
    pub expandable: bool,
    pub referenced: bool,
    pub path: Option<Seq<item::IdModel>>,
    pub header: bool,
}

/// The mathematical model of a `Row`.
#[verifier::ext_equal]
pub struct RowModel {
    pub line: LineModel,
    pub stop: Option<StopModel>,
}

/// The mathematical model of a `RenderCtx`.
#[verifier::ext_equal]
pub struct CtxModel {
    pub expanded: Set<Seq<item::IdModel>>,
    pub usages_open: Set<Seq<item::IdModel>>,
    pub index: index::IndexModel,
}

impl View for JumpTarget {
    type V = JumpModel;

    open spec fn view(&self) -> JumpModel {
        JumpModel { path: self.path@, line: self.line }
    }
}

impl View for RowPath {
    type V = Seq<item::IdModel>;

    open spec fn view(&self) -> Seq<item::IdModel> {
        item::views(self.0@)
    }
}

impl View for PathSet {
    type V = Set<Seq<item::IdModel>>;

    closed spec fn view(&self) -> Set<Seq<item::IdModel>> {
        item::views(self.paths@).to_set()
    }
}

impl<'a> View for RenderCtx<'a> {
    type V = CtxModel;

    open spec fn view(&self) -> CtxModel {
        CtxModel {
            expanded: self.expanded@,
            usages_open: self.usages_open@,
            index: self.index@,
        }
    }
}

/// The model of an optional jump.
pub open spec fn jump_model(jump: Option<JumpTarget>) -> Option<JumpModel> {
    match jump {
        Some(target) => Some(target@),
        None => None,
    }
}

/// The model of an optional row path.
pub open spec fn path_model(path: Option<RowPath>) -> Option<Seq<item::IdModel>> {
    match path {
        Some(ids) => Some(ids@),
        None => None,
    }
}

impl View for Stop {
    type V = StopModel;

    open spec fn view(&self) -> StopModel {
        StopModel {
            jump: jump_model(self.jump),
            expandable: self.expandable,
            referenced: self.referenced,
            path: path_model(self.path),
            header: self.header,
        }
    }
}

impl View for Row {
    type V = RowModel;

    open spec fn view(&self) -> RowModel {
        RowModel {
            line: self.line@,
            stop: match self.stop {
                Some(stop) => Some(stop@),
                None => None,
            },
        }
    }
}

impl Clone for JumpTarget {
    fn clone(&self) -> (copy: Self)
        ensures
            copy@ == self@,
    {
        JumpTarget { path: self.path.clone(), line: self.line }
    }
}

impl Clone for RowPath {
    fn clone(&self) -> (copy: Self)
        ensures
            copy@ == self@,
    {
        let mut ids: Vec<ItemId> = Vec::new();
        let mut i: usize = 0;
        while i < self.0.len()
            invariant
                i <= self.0@.len(),
                item::views(ids@) == self@.take(i as int),
            decreases self.0.len() - i,
        {
            let copied = self.0[i].clone();
            proof {
                item::lemma_views_push(ids@, copied);
            }
            ids.push(copied);
            i = i + 1;
            assert(item::views(ids@) =~= self@.take(i as int));
        }
        assert(self@.take(i as int) =~= self@);
        RowPath(ids)
    }
}

impl Default for RowPath {
    fn default() -> (path: Self)
        ensures
            path@ == Seq::<item::IdModel>::empty(),
    {
        let path = RowPath(Vec::new());
        assert(path@ =~= Seq::<item::IdModel>::empty());
        path
    }
}

impl RowPath {
    /// The path of a row one step below.
    pub fn child(&self, id: &ItemId) -> (path: Self)
        ensures
            path@ == self@.push(id@),
    {
        let mut path = self.clone();
        let copied = id.clone();
        proof {
            item::lemma_views_push(path.0@, copied);
        }
        path.0.push(copied);
        path
    }

    /// Whether `id` is on the path.
    pub fn contains(&self, id: &ItemId) -> (found: bool)
        ensures
            found == self@.contains(id@),
    {
        let mut i: usize = 0;
        while i < self.0.len()
            invariant
                i <= self.0@.len(),
                forall|j: int| 0 <= j < i ==> #[trigger] self@[j] != id@,
            decreases self.0.len() - i,
        {
            assert(self@[i as int] == self.0@[i as int]@);
            if self.0[i].same(id) {
                return true;
            }
            i = i + 1;
        }
        false
    }

    /// Whether two paths identify the same row.
    pub fn same(&self, other: &RowPath) -> (same: bool)
        ensures
            same == (self@ == other@),
    {
        if self.0.len() != other.0.len() {
            assert(self@.len() != other@.len());
            return false;
        }
        let mut i: usize = 0;
        while i < self.0.len()
            invariant
                i <= self.0@.len() == other.0@.len(),
                forall|j: int| 0 <= j < i ==> self@[j] == other@[j],
            decreases self.0.len() - i,
        {
            assert(self@[i as int] == self.0@[i as int]@);
            assert(other@[i as int] == other.0@[i as int]@);
            if !self.0[i].same(&other.0[i]) {
                return false;
            }
            i = i + 1;
        }
        assert(self@ =~= other@);
        true
    }
}

impl PathSet {
    /// No path is listed twice.
    #[verifier::type_invariant]
    spec fn wf(self) -> bool {
        item::views(self.paths@).no_duplicates()
    }

    /// The empty set.
    pub fn new() -> (set: Self)
        ensures
            set@ == Set::<Seq<item::IdModel>>::empty(),
    {
        let set = PathSet { paths: Vec::new() };
        assert(set@ =~= Set::<Seq<item::IdModel>>::empty());
        set
    }

    /// Where `path` is listed.
    fn position(&self, path: &RowPath) -> (at: Option<usize>)
        ensures
            match at {
                Some(i) => i < self.paths@.len() && item::views(self.paths@)[i as int] == path@,
                None => !self@.contains(path@),
            },
    {
        let mut i: usize = 0;
        while i < self.paths.len()
            invariant
                i <= self.paths@.len(),
                forall|j: int| 0 <= j < i ==> #[trigger] item::views(self.paths@)[j] != path@,
            decreases self.paths.len() - i,
        {
            assert(item::views(self.paths@)[i as int] == self.paths@[i as int]@);
            if self.paths[i].same(path) {
                return Some(i);
            }
            i = i + 1;
        }
        None
    }

    /// Whether the row is in the set.
    pub fn contains(&self, path: &RowPath) -> (found: bool)
        ensures
            found == self@.contains(path@),
    {
        match self.position(path) {
            Some(i) => {
                assert(item::views(self.paths@)[i as int] == path@);
                true
            },
            None => false,
        }
    }

    /// Takes the row out if it is in, and puts it in if it is not.
    pub fn toggle(&mut self, path: RowPath)
        ensures
            final(self)@ == toggled(old(self)@, path@),
    {
        proof {
            use_type_invariant(&*self);
        }
        let ghost before = item::views(self.paths@);
        let at = self.position(&path);
        let mut paths: Vec<RowPath> = Vec::new();
        std::mem::swap(&mut paths, &mut self.paths);
        match at {
            Some(i) => {
                paths.remove(i);
                proof {
                    assert(item::views(paths@) =~= before.remove(i as int));
                    lemma_remove(before, i as int);
                }
            },
            None => {
                proof {
                    item::lemma_views_push(paths@, path);
                    assert(!before.contains(path@));
                }
                paths.push(path);
                proof {
                    assert(before.push(path@).to_set() =~= before.to_set().insert(path@)) by {
                        assert forall|p: Seq<item::IdModel>| #[trigger]
                            before.push(path@).to_set().contains(p) == before.to_set().insert(
                                path@,
                            ).contains(p) by {
                            if before.contains(p) {
                                let j = choose|j: int| 0 <= j < before.len() && before[j] == p;
                                assert(before.push(path@)[j] == p);
                            }
                            assert(before.push(path@)[before.len() as int] == path@);
                        }
                    }
                }
            },
        }
        self.paths = paths;
    }
}

/// The paths of a sequence have a longest.
proof fn lemma_longest(listed: Seq<Seq<item::IdModel>>) -> (n: nat)
    ensures
        forall|i: int| 0 <= i < listed.len() ==> (#[trigger] listed[i]).len() <= n,
    decreases listed.len(),
{
    if listed.len() == 0 {
        0
    } else {
        let rest = lemma_longest(listed.drop_last());
        assert forall|i: int| 0 <= i < listed.len() implies (#[trigger] listed[i]).len() <= rest
            + listed.last().len() by {
            if i < listed.len() - 1 {
                assert(listed.drop_last()[i] == listed[i]);
            }
        }
        rest + listed.last().len()
    }
}

/// The open rows of a context have a deepest.
pub proof fn lemma_bounded(ctx: RenderCtx<'_>)
    ensures
        bounded(ctx@),
{
    let a = lemma_longest(item::views(ctx.expanded.paths@));
    let b = lemma_longest(item::views(ctx.usages_open.paths@));
    assert(limits(ctx@, a + b));
}

/// `set` with `path` taken out if it is in, and put in if it is not.
pub open spec fn toggled(
    set: Set<Seq<item::IdModel>>,
    path: Seq<item::IdModel>,
) -> Set<Seq<item::IdModel>> {
    if set.contains(path) {
        set.remove(path)
    } else {
        set.insert(path)
    }
}

/// Removing an element of a sequence without duplicates takes it out of the
/// set of its elements.
proof fn lemma_remove(listed: Seq<Seq<item::IdModel>>, at: int)
    requires
        0 <= at < listed.len(),
        listed.no_duplicates(),
    ensures
        listed.remove(at).no_duplicates(),
        listed.remove(at).to_set() == listed.to_set().remove(listed[at]),
        listed.to_set().contains(listed[at]),
{
    let rest = listed.remove(at);
    assert forall|i: int, j: int| 0 <= i < rest.len() && 0 <= j < rest.len() && i != j implies rest[i]
        != rest[j] by {
        let x = if i < at { i } else { i + 1 };
        let y = if j < at { j } else { j + 1 };
        assert(rest[i] == listed[x]);
        assert(rest[j] == listed[y]);
    }
    assert forall|p: Seq<item::IdModel>| #[trigger]
        rest.to_set().contains(p) == listed.to_set().remove(listed[at]).contains(p) by {
        if rest.contains(p) {
            let i = choose|i: int| 0 <= i < rest.len() && rest[i] == p;
            let x = if i < at { i } else { i + 1 };
            assert(listed[x] == p);
        }
        if listed.contains(p) && p != listed[at] {
            let x = choose|x: int| 0 <= x < listed.len() && listed[x] == p;
            let i = if x < at { x } else { x - 1 };
            assert(rest[i] == p);
        }
    }
    assert(rest.to_set() =~= listed.to_set().remove(listed[at]));
}

/// Whether no open row lies deeper than `n`.
pub open spec fn limits(ctx: CtxModel, n: nat) -> bool {
    &&& forall|p: Seq<item::IdModel>| #[trigger] ctx.expanded.contains(p) ==> p.len() <= n
    &&& forall|p: Seq<item::IdModel>| #[trigger] ctx.usages_open.contains(p) ==> p.len() <= n
}

/// Whether the open rows have a deepest.
pub open spec fn bounded(ctx: CtxModel) -> bool {
    exists|n: nat| limits(ctx, n)
}

/// How many levels below `path` may still be open.
pub open spec fn reach(ctx: CtxModel, path: Seq<item::IdModel>) -> nat {
    let n = choose|n: nat| limits(ctx, n);
    if path.len() > n {
        0
    } else {
        (n + 1 - path.len()) as nat
    }
}

/// `indent` moved right by `by` columns, as far as an indent can go.
pub open spec fn deeper(indent: nat, by: nat) -> nat {
    if indent + by > usize::MAX {
        usize::MAX as nat
    } else {
        indent + by
    }
}

/// Where an item's row jumps: its declaration site.
pub open spec fn jump_of(view: ViewModel) -> JumpModel {
    JumpModel { path: view.item.id.path, line: view.item.line }
}

/// Whether reference `r` of the item leads to a definition not already on the
/// path.
pub open spec fn leads_on(
    view: ViewModel,
    path: Seq<item::IdModel>,
    types: index::IndexModel,
    r: int,
) -> bool {
    match index::resolve(types, view.item.refs[r], view.item.id.path) {
        Some(resolved) => !path.contains(resolved.def.item.id),
        None => false,
    }
}

/// Whether the row has a reference that would unfold.
pub open spec fn expands(
    view: ViewModel,
    path: Seq<item::IdModel>,
    types: index::IndexModel,
) -> bool {
    exists|r: int| 0 <= r < view.item.refs.len() && #[trigger] leads_on(view, path, types, r)
}

/// Whether `user` is worth showing beneath the row: neither the item itself
/// nor already on the path.
pub open spec fn other_user(
    view: ViewModel,
    path: Seq<item::IdModel>,
    user: ViewModel,
) -> bool {
    user.item.id != view.item.id && !path.contains(user.item.id)
}

/// Whether something else references the item's name.
pub open spec fn used(
    view: ViewModel,
    path: Seq<item::IdModel>,
    types: index::IndexModel,
) -> bool {
    exists|u: int|
        0 <= u < index::grouped(types.users, view.item.id.name).len() && #[trigger] other_user(
            view,
            path,
            index::grouped(types.users, view.item.id.name)[u],
        )
}

/// The style with nothing but a color.
pub open spec fn colored(color: Color) -> Style {
    Style { fg: Some(color), ..style::plain() }
}

/// The style with nothing but dimming.
pub open spec fn dimmed() -> Style {
    Style { dim: true, ..style::plain() }
}

/// `  · path:line`.
pub open spec fn site(item: item::ItemModel) -> Seq<char> {
    "  · "@ + item.id.path + ":"@ + text::decimal(item.line.0 as nat)
}

/// `  · path:line`, and how many definitions contest the name if several do.
pub open spec fn contested_site(item: item::ItemModel, candidates: nat) -> Seq<char> {
    if candidates > 1 {
        site(item) + " (1 of "@ + text::decimal(candidates) + " definitions)"@
    } else {
        site(item)
    }
}

/// A line of two spans: what, and where in dim.
pub open spec fn located(what: Seq<char>, at: Seq<char>, color: Color) -> LineModel {
    LineModel {
        spans: seq![
            SpanModel { content: what, style: style::plain() },
            SpanModel { content: at, style: dimmed() },
        ],
        style: colored(color),
    }
}

/// The stop of an item row.
pub open spec fn item_stop(
    view: ViewModel,
    path: Seq<item::IdModel>,
    ctx: CtxModel,
) -> StopModel {
    StopModel {
        jump: if view.status == changes::StatusModel::Removed {
            None
        } else {
            Some(jump_of(view))
        },
        expandable: expands(view, path, ctx.index),
        referenced: used(view, path, ctx.index),
        path: Some(path),
        header: false,
    }
}

/// The row of an item itself, without what is unfolded beneath it: status
/// marker and color by status, unchanged context dimmed, a modified row's old
/// signature beneath.
pub open spec fn own_rows(
    view: ViewModel,
    indent: nat,
    path: Seq<item::IdModel>,
    ctx: CtxModel,
) -> Seq<RowModel> {
    let pad = text::spaces(indent);
    let signature = view.item.signature;
    let stop = Some(item_stop(view, path, ctx));
    match view.status {
        changes::StatusModel::Added => seq![
            RowModel {
                line: style::one_span(pad + "+ "@ + signature, colored(Color::Green)),
                stop,
            },
        ],
        changes::StatusModel::Removed => seq![
            RowModel { line: style::one_span(pad + "- "@ + signature, colored(Color::Red)), stop },
        ],
        changes::StatusModel::Modified { before } => seq![
            RowModel {
                line: LineModel {
                    spans: seq![SpanModel { content: pad + "~ "@, style: style::plain() }]
                        + tokens::new_side(before.signature, signature),
                    style: colored(Color::Yellow),
                },
                stop,
            },
            RowModel {
                line: LineModel {
                    spans: seq![SpanModel { content: pad + "    was: "@, style: style::plain() }]
                        + tokens::old_side(before.signature, signature),
                    style: dimmed(),
                },
                stop: None,
            },
        ],
        changes::StatusModel::Unchanged => seq![
            RowModel { line: style::one_span(pad + "  "@ + signature, dimmed()), stop },
        ],
    }
}

/// One review row and whatever is unfolded beneath it.
pub open spec fn item_rows(
    view: ViewModel,
    indent: nat,
    parent: Seq<item::IdModel>,
    ctx: CtxModel,
) -> Seq<RowModel> {
    let path = parent.push(view.item.id);
    own_rows(view, indent, path, ctx) + unfolded_rows(view, indent, path, ctx)
}

/// Whatever the row's toggles have unfolded beneath it: referenced
/// definitions and referencing items.
pub open spec fn unfolded_rows(
    view: ViewModel,
    indent: nat,
    path: Seq<item::IdModel>,
    ctx: CtxModel,
) -> Seq<RowModel>
    decreases reach(ctx, path), 3int, 0int,
    when bounded(ctx)
{
    expansion_rows(view, indent, path, ctx, view.item.refs.len() as int) + usage_rows(
        view,
        indent,
        path,
        ctx,
        index::grouped(ctx.index.users, view.item.id.name).len() as int,
    )
}

/// The definitions of the first `n` types the item references, if the row is
/// expanded. A reference back to a type already on the path renders as a
/// cycle note instead of looping.
pub open spec fn expansion_rows(
    view: ViewModel,
    indent: nat,
    path: Seq<item::IdModel>,
    ctx: CtxModel,
    n: int,
) -> Seq<RowModel>
    decreases reach(ctx, path), 2int, n,
    when bounded(ctx)
{
    if n <= 0 || !ctx.expanded.contains(path) {
        seq![]
    } else {
        let before = expansion_rows(view, indent, path, ctx, n - 1);
        let name = view.item.refs[n - 1];
        match index::resolve(ctx.index, name, view.item.id.path) {
            None => before,
            Some(resolved) => if path.contains(resolved.def.item.id) {
                before.push(cycle_row(name, deeper(indent, 4)))
            } else {
                before + definition_rows(resolved, deeper(indent, 4), path, ctx)
            },
        }
    }
}

/// The note in place of a definition that is already on the path.
pub open spec fn cycle_row(name: Seq<char>, indent: nat) -> RowModel {
    RowModel {
        line: style::one_span(
            text::spaces(indent) + "↺ "@ + name + " (cycle)"@,
            Style { dim: true, ..colored(Color::Cyan) },
        ),
        stop: None,
    }
}

/// A resolved definition: its header row (`▸ signature · where`, noting
/// contested names), collapsed by default. Expanding the header reveals its
/// members and then whatever the definition itself references.
pub open spec fn definition_rows(
    resolved: index::ResolvedModel,
    indent: nat,
    parent: Seq<item::IdModel>,
    ctx: CtxModel,
) -> Seq<RowModel>
    decreases reach(ctx, parent), 1int, 0int,
    when bounded(ctx)
{
    let path = parent.push(resolved.def.item.id);
    let own = seq![definition_row(resolved, indent, path, ctx)];
    let users = index::grouped(ctx.index.users, resolved.def.item.id.name).len() as int;
    if !ctx.expanded.contains(path) && !ctx.usages_open.contains(path) {
        own
    } else {
        own + member_rows(resolved.def, indent, path, ctx, resolved.def.members.len() as int)
            + expansion_rows(
            resolved.def,
            indent,
            path,
            ctx,
            resolved.def.item.refs.len() as int,
        ) + usage_rows(resolved.def, indent, path, ctx, users)
    }
}

/// The header row of a definition.
pub open spec fn definition_row(
    resolved: index::ResolvedModel,
    indent: nat,
    path: Seq<item::IdModel>,
    ctx: CtxModel,
) -> RowModel {
    let def = resolved.def;
    RowModel {
        line: located(
            text::spaces(indent) + "▸ "@ + def.item.signature,
            contested_site(def.item, resolved.candidates),
            Color::Cyan,
        ),
        stop: Some(
            StopModel {
                jump: Some(jump_of(def)),
                expandable: def.members.len() > 0 || expands(def, path, ctx.index),
                referenced: used(def, path, ctx.index),
                path: Some(path),
                header: false,
            },
        ),
    }
}

/// The first `n` members of an expanded definition, each with whatever is
/// unfolded beneath it.
pub open spec fn member_rows(
    def: ViewModel,
    indent: nat,
    path: Seq<item::IdModel>,
    ctx: CtxModel,
    n: int,
) -> Seq<RowModel>
    decreases reach(ctx, path), 2int, n,
    when bounded(ctx)
{
    if n <= 0 || !ctx.expanded.contains(path) {
        seq![]
    } else {
        let member = def.members[n - 1];
        let below = path.push(member.item.id);
        member_rows(def, indent, path, ctx, n - 1).push(member_row(member, indent, below, ctx))
            + unfolded_rows(member, deeper(indent, 2), below, ctx)
    }
}

/// The row of a member of a definition.
pub open spec fn member_row(
    member: ViewModel,
    indent: nat,
    path: Seq<item::IdModel>,
    ctx: CtxModel,
) -> RowModel {
    RowModel {
        line: style::one_span(
            text::spaces(indent) + "  "@ + member.item.signature,
            Style { dim: true, ..colored(Color::Cyan) },
        ),
        stop: Some(
            StopModel {
                jump: Some(jump_of(member)),
                expandable: expands(member, path, ctx.index),
                referenced: used(member, path, ctx.index),
                path: Some(path),
                header: false,
            },
        ),
    }
}

/// The items among the first `n` that reference this one, if the row's
/// used-by list is open, each with whatever is unfolded beneath it.
pub open spec fn usage_rows(
    view: ViewModel,
    indent: nat,
    path: Seq<item::IdModel>,
    ctx: CtxModel,
    n: int,
) -> Seq<RowModel>
    decreases reach(ctx, path), 2int, n,
    when bounded(ctx)
{
    if n <= 0 || !ctx.usages_open.contains(path) {
        seq![]
    } else {
        let user = index::grouped(ctx.index.users, view.item.id.name)[n - 1];
        let before = usage_rows(view, indent, path, ctx, n - 1);
        if other_user(view, path, user) {
            let below = path.push(user.item.id);
            before.push(usage_row(user, deeper(indent, 4), below, ctx)) + unfolded_rows(
                user,
                deeper(indent, 4),
                below,
                ctx,
            )
        } else {
            before
        }
    }
}

/// The row of an item that references another.
pub open spec fn usage_row(
    user: ViewModel,
    indent: nat,
    path: Seq<item::IdModel>,
    ctx: CtxModel,
) -> RowModel {
    RowModel {
        line: located(
            text::spaces(indent) + "◂ "@ + user.item.signature,
            site(user.item),
            Color::Magenta,
        ),
        stop: Some(
            StopModel {
                jump: Some(jump_of(user)),
                expandable: expands(user, path, ctx.index),
                referenced: used(user, path, ctx.index),
                path: Some(path),
                header: false,
            },
        ),
    }
}

/// Where an item's row jumps: its declaration site, straight off the item
/// itself.
pub fn jump(view: &ItemView) -> (target: JumpTarget)
    ensures
        target@ == jump_of(view@),
{
    proof {
        changes::lemma_model(*view);
    }
    JumpTarget { path: view.item.id.path.clone(), line: view.item.line }
}

/// Whether `Tab` on this row would unfold anything: at least one of its
/// references resolves to a definition not already on the row's path
/// (expanding a cycle would loop forever).
pub fn can_expand(view: &ItemView, path: &RowPath, types: &TypeIndex) -> (can: bool)
    ensures
        can == expands(view@, path@, types@),
{
    proof {
        changes::lemma_model(*view);
    }
    let mut r: usize = 0;
    while r < view.item.refs.len()
        invariant
            r <= view.item.refs@.len(),
            view@.item == view.item@,
            forall|q: int| 0 <= q < r ==> !#[trigger] leads_on(view@, path@, types@, q),
        decreases view.item.refs.len() - r,
    {
        assert(view@.item.refs[r as int] == view.item.refs@[r as int]@);
        if let Some(resolved) = types.lookup(
            view.item.refs[r].0.as_str(),
            view.item.id.path.as_str(),
        ) {
            proof {
                changes::lemma_model(*resolved.def);
            }
            if !path.contains(&resolved.def.item.id) {
                assert(leads_on(view@, path@, types@, r as int));
                return true;
            }
        }
        r = r + 1;
    }
    false
}

/// Whether `gr` on this row would unfold anything: something other than the
/// item itself (or a row already on the path) references its name.
pub fn has_users(view: &ItemView, path: &RowPath, types: &TypeIndex) -> (has: bool)
    ensures
        has == used(view@, path@, types@),
{
    proof {
        changes::lemma_model(*view);
    }
    let users = types.users_of(view.item.id.name.as_str());
    let ghost all = index::grouped(types@.users, view@.item.id.name);
    let mut u: usize = 0;
    while u < users.len()
        invariant
            u <= users@.len(),
            all == item::views(users@),
            all == index::grouped(types@.users, view@.item.id.name),
            view@.item == view.item@,
            forall|q: int| 0 <= q < u ==> !#[trigger] other_user(view@, path@, all[q]),
        decreases users.len() - u,
    {
        proof {
            assert(all[u as int] == users@[u as int]@);
            changes::lemma_model(users@[u as int]);
        }
        if !users[u].item.id.same(&view.item.id) && !path.contains(&users[u].item.id) {
            assert(other_user(view@, path@, all[u as int]));
            return true;
        }
        u = u + 1;
    }
    false
}

/// `  · path:line`.
fn site_text(item: &item::Item) -> (at: String)
    ensures
        at@ == site(item@),
{
    let line = text::decimal_text(item.line.0 as u64);
    text::join4("  · ", item.id.path.as_str(), ":", line.as_str())
}

/// A line of two spans: what, and where in dim.
fn located_line(what: String, at: String, color: Color) -> (line: StyledLine)
    ensures
        line@ == located(what@, at@, color),
{
    let mut spans: Vec<Span> = Vec::new();
    spans.push(Span { content: what, style: Style::plain() });
    spans.push(Span { content: at, style: Style::plain().dim() });
    let line = StyledLine { spans, style: Style::plain().color(color) };
    assert(line@.spans =~= located(what@, at@, color).spans);
    line
}

/// A line of a first span and the spans of a signature.
fn signature_line(first: String, rest: Vec<Span>, style: Style) -> (line: StyledLine)
    ensures
        line@.spans == seq![SpanModel { content: first@, style: style::plain() }] + item::views(
            rest@,
        ),
        line@.style == style,
{
    let ghost tail = item::views(rest@);
    let mut spans: Vec<Span> = Vec::new();
    spans.push(Span { content: first, style: Style::plain() });
    let mut more = rest;
    spans.append(&mut more);
    let line = StyledLine { spans, style };
    assert(line@.spans =~= seq![SpanModel { content: first@, style: style::plain() }] + tail);
    line
}

/// Accumulates the rendered rows.
pub struct LineBuilder {
    pub rows: Vec<Row>,
}

impl View for LineBuilder {
    type V = Seq<RowModel>;

    open spec fn view(&self) -> Seq<RowModel> {
        item::views(self.rows@)
    }
}

impl LineBuilder {
    /// Pushes a line the cursor cannot land on.
    pub fn line(&mut self, line: StyledLine)
        ensures
            final(self)@ == old(self)@.push(RowModel { line: line@, stop: None }),
    {
        let row = Row { line, stop: None };
        proof {
            item::lemma_views_push(self.rows@, row);
        }
        self.rows.push(row);
    }

    /// Pushes a line the cursor can land on.
    pub fn stop(&mut self, line: StyledLine, stop: Stop)
        ensures
            final(self)@ == old(self)@.push(RowModel { line: line@, stop: Some(stop@) }),
    {
        let row = Row { line, stop: Some(stop) };
        proof {
            item::lemma_views_push(self.rows@, row);
        }
        self.rows.push(row);
    }

    /// Whatever the row's toggles have unfolded, rendered beneath it:
    /// referenced definitions (`Tab`) and referencing items (`gr`).
    fn unfolded(&mut self, view: &ItemView, indent: usize, path: &RowPath, ctx: &RenderCtx)
        requires
            bounded(ctx@),
        ensures
            final(self)@ == old(self)@ + unfolded_rows(view@, indent as nat, path@, ctx@),
        decreases reach(ctx@, path@), 3int, 0int,
    {
        let ghost before = self@;
        let ghost shown = expansion_rows(
            view@,
            indent as nat,
            path@,
            ctx@,
            view@.item.refs.len() as int,
        );
        if ctx.expanded.contains(path) {
            self.expansion(view, indent, path, ctx);
        } else {
            assert(before + shown =~= before);
        }
        if ctx.usages_open.contains(path) {
            self.usage_rows(view, indent, path, ctx);
        }
        assert(self@ =~= before + unfolded_rows(view@, indent as nat, path@, ctx@));
    }

    /// The row of the item itself.
    fn own_rows(&mut self, view: &ItemView, indent: usize, path: &RowPath, ctx: &RenderCtx)
        ensures
            final(self)@ == old(self)@ + own_rows(view@, indent as nat, path@, ctx@),
    {
        proof {
            changes::lemma_model(*view);
        }
        let ghost before = self@;
        let pad = text::pad(indent);
        let signature = view.item.signature.as_str();
        let removed = match view.status {
            ItemStatus::Removed => true,
            _ => false,
        };
        let stop = Stop {
            // A removed item no longer exists on the head side: nowhere to
            // jump.
            jump: if removed {
                None
            } else {
                Some(jump(view))
            },
            expandable: can_expand(view, path, ctx.index),
            referenced: has_users(view, path, ctx.index),
            path: Some(path.clone()),
            header: false,
        };
        assert(stop@ == item_stop(view@, path@, ctx@));
        match &view.status {
            ItemStatus::Added => {
                let line = text::join3(pad.as_str(), "+ ", signature);
                self.stop(StyledLine::of(line, Style::plain().color(Color::Green)), stop);
            },
            ItemStatus::Removed => {
                let line = text::join3(pad.as_str(), "- ", signature);
                self.stop(StyledLine::of(line, Style::plain().color(Color::Red)), stop);
            },
            ItemStatus::Modified { before } => {
                // Word-level diff: what changed within the signature is
                // marked, so the eye needn't compare the two lines.
                let (old_spans, new_spans) = tokens::modified_spans(
                    before.signature.as_str(),
                    signature,
                );
                let marker = text::join2(pad.as_str(), "~ ");
                self.stop(
                    signature_line(marker, new_spans, Style::plain().color(Color::Yellow)),
                    stop,
                );
                let was = text::join2(pad.as_str(), "    was: ");
                self.line(signature_line(was, old_spans, Style::plain().dim()));
            },
            ItemStatus::Unchanged => {
                let line = text::join3(pad.as_str(), "  ", signature);
                self.stop(StyledLine::of(line, Style::plain().dim()), stop);
            },
        }
        assert(self@ =~= before + own_rows(view@, indent as nat, path@, ctx@));
    }

    /// One review row at `indent`: status marker and color by status,
    /// unchanged context dimmed, a modified row's old signature beneath, and
    /// whatever the row has unfolded below it.
    pub fn item_row(&mut self, view: &ItemView, indent: usize, parent: &RowPath, ctx: &RenderCtx)
        ensures
            final(self)@ == old(self)@ + item_rows(view@, indent as nat, parent@, ctx@),
    {
        proof {
            lemma_bounded(*ctx);
        }
        proof {
            changes::lemma_model(*view);
        }
        let ghost before = self@;
        let path = parent.child(&view.item.id);
        self.own_rows(view, indent, &path, ctx);
        self.unfolded(view, indent, &path, ctx);
        assert(self@ =~= before + item_rows(view@, indent as nat, parent@, ctx@));
    }

    /// The definitions of the types `view` references, unfolded beneath its
    /// row. Every unfolded row is a real stop — jumpable, searchable, and
    /// expandable in turn; a reference back to a type already on the path
    /// renders as a cycle note instead of looping.
    fn expansion(&mut self, view: &ItemView, indent: usize, path: &RowPath, ctx: &RenderCtx)
        requires
            bounded(ctx@),
            ctx@.expanded.contains(path@),
        ensures
            final(self)@ == old(self)@ + expansion_rows(
                view@,
                indent as nat,
                path@,
                ctx@,
                view@.item.refs.len() as int,
            ),
        decreases reach(ctx@, path@), 2int, 0int,
    {
        proof {
            changes::lemma_model(*view);
        }
        let ghost before = self@;
        let deep: usize = indent.saturating_add(4);
        let mut r: usize = 0;
        assert(before + expansion_rows(view@, indent as nat, path@, ctx@, 0) =~= before);
        while r < view.item.refs.len()
            invariant
                bounded(ctx@),
                ctx@.expanded.contains(path@),
                view@.item == view.item@,
                r <= view.item.refs@.len(),
                deep == deeper(indent as nat, 4),
                self@ == before + expansion_rows(view@, indent as nat, path@, ctx@, r as int),
            decreases view.item.refs.len() - r,
        {
            let name = view.item.refs[r].0.as_str();
            assert(view@.item.refs[r as int] == name@);
            if let Some(resolved) = ctx.index.lookup(name, view.item.id.path.as_str()) {
                proof {
                    changes::lemma_model(*resolved.def);
                }
                if path.contains(&resolved.def.item.id) {
                    let pad = text::pad(deep);
                    let note = text::join4(pad.as_str(), "↺ ", name, " (cycle)");
                    let style = Style::plain().color(Color::Cyan).dim();
                    self.line(StyledLine::of(note, style));
                } else {
                    self.definition_rows(&resolved, deep, path, ctx);
                }
            }
            r = r + 1;
            assert(self@ =~= before + expansion_rows(
                view@,
                indent as nat,
                path@,
                ctx@,
                r as int,
            ));
        }
    }

    /// A resolved definition: its header row (`▸ signature · where`, noting
    /// contested names), collapsed by default — one `Tab` per level.
    /// Expanding the header reveals its members and then whatever the
    /// definition itself references.
    fn definition_rows(
        &mut self,
        resolved: &Resolved<'_>,
        indent: usize,
        parent: &RowPath,
        ctx: &RenderCtx,
    )
        requires
            bounded(ctx@),
        ensures
            final(self)@ == old(self)@ + definition_rows(
                resolved@,
                indent as nat,
                parent@,
                ctx@,
            ),
        decreases reach(ctx@, parent@), 1int, 0int,
    {
        let def = resolved.def;
        proof {
            changes::lemma_model(*def);
        }
        let ghost before = self@;
        let path = parent.child(&def.item.id);
        let at = if resolved.candidates > 1 {
            let place = site_text(&def.item);
            let count = text::decimal_text(resolved.candidates as u64);
            text::join4(place.as_str(), " (1 of ", count.as_str(), " definitions)")
        } else {
            site_text(&def.item)
        };
        let pad = text::pad(indent);
        let what = text::join3(pad.as_str(), "▸ ", def.item.signature.as_str());
        // The header unfolds members as well as references, so it is
        // expandable whenever it has either.
        let stop = Stop {
            jump: Some(jump(def)),
            expandable: def.members.len() > 0 || can_expand(def, &path, ctx.index),
            referenced: has_users(def, &path, ctx.index),
            path: Some(path.clone()),
            header: false,
        };
        self.stop(located_line(what, at, Color::Cyan), stop);
        let ghost own = seq![definition_row(resolved@, indent as nat, path@, ctx@)];
        assert(self@ =~= before + own);
        let ghost members = member_rows(
            def@,
            indent as nat,
            path@,
            ctx@,
            def@.members.len() as int,
        );
        let ghost shown = expansion_rows(
            def@,
            indent as nat,
            path@,
            ctx@,
            def@.item.refs.len() as int,
        );
        let open = ctx.expanded.contains(&path);
        let open_usages = ctx.usages_open.contains(&path);
        if open {
            self.member_rows(def, indent, &path, ctx);
            self.expansion(def, indent, &path, ctx);
        } else {
            assert(before + own + members + shown =~= before + own);
        }
        assert(self@ =~= before + own + members + shown);
        if open_usages {
            self.usage_rows(def, indent, &path, ctx);
        }
        assert(self@ =~= before + definition_rows(resolved@, indent as nat, parent@, ctx@));
    }

    /// The members of an expanded definition.
    fn member_rows(&mut self, def: &ItemView, indent: usize, path: &RowPath, ctx: &RenderCtx)
        requires
            bounded(ctx@),
            ctx@.expanded.contains(path@),
        ensures
            final(self)@ == old(self)@ + member_rows(
                def@,
                indent as nat,
                path@,
                ctx@,
                def@.members.len() as int,
            ),
        decreases reach(ctx@, path@), 2int, 0int,
    {
        proof {
            changes::lemma_model(*def);
        }
        let ghost before = self@;
        let deep: usize = indent.saturating_add(2);
        let mut m: usize = 0;
        assert(before + member_rows(def@, indent as nat, path@, ctx@, 0) =~= before);
        while m < def.members.len()
            invariant
                bounded(ctx@),
                ctx@.expanded.contains(path@),
                def@.members == item::views(def.members@),
                m <= def.members@.len(),
                deep == deeper(indent as nat, 2),
                self@ == before + member_rows(def@, indent as nat, path@, ctx@, m as int),
            decreases def.members.len() - m,
        {
            let member = &def.members[m];
            proof {
                changes::lemma_model(*member);
                assert(def@.members[m as int] == member@);
            }
            let below = path.child(&member.item.id);
            let pad = text::pad(indent);
            let line = text::join3(pad.as_str(), "  ", member.item.signature.as_str());
            let stop = Stop {
                jump: Some(jump(member)),
                expandable: can_expand(member, &below, ctx.index),
                referenced: has_users(member, &below, ctx.index),
                path: Some(below.clone()),
                header: false,
            };
            let style = Style::plain().color(Color::Cyan).dim();
            self.stop(StyledLine::of(line, style), stop);
            self.unfolded(member, deep, &below, ctx);
            m = m + 1;
            assert(self@ =~= before + member_rows(def@, indent as nat, path@, ctx@, m as int));
        }
    }

    /// The items whose signatures reference `view`'s item — the reverse
    /// direction — unfolded beneath its row. Same contract as expansion rows:
    /// each is a stop, jumpable and unfoldable in turn, with the row path as
    /// the cycle guard.
    fn usage_rows(&mut self, view: &ItemView, indent: usize, path: &RowPath, ctx: &RenderCtx)
        requires
            bounded(ctx@),
            ctx@.usages_open.contains(path@),
        ensures
            final(self)@ == old(self)@ + usage_rows(
                view@,
                indent as nat,
                path@,
                ctx@,
                index::grouped(ctx@.index.users, view@.item.id.name).len() as int,
            ),
        decreases reach(ctx@, path@), 2int, 0int,
    {
        proof {
            changes::lemma_model(*view);
        }
        let ghost before = self@;
        let ghost all = index::grouped(ctx@.index.users, view@.item.id.name);
        let deep: usize = indent.saturating_add(4);
        let users = ctx.index.users_of(view.item.id.name.as_str());
        let mut u: usize = 0;
        assert(before + usage_rows(view@, indent as nat, path@, ctx@, 0) =~= before);
        while u < users.len()
            invariant
                bounded(ctx@),
                ctx@.usages_open.contains(path@),
                view@.item == view.item@,
                all == index::grouped(ctx@.index.users, view@.item.id.name),
                all == item::views(users@),
                u <= users@.len(),
                deep == deeper(indent as nat, 4),
                self@ == before + usage_rows(view@, indent as nat, path@, ctx@, u as int),
            decreases users.len() - u,
        {
            let user = &users[u];
            proof {
                changes::lemma_model(*user);
                assert(all[u as int] == user@);
            }
            if !user.item.id.same(&view.item.id) && !path.contains(&user.item.id) {
                let below = path.child(&user.item.id);
                let pad = text::pad(deep);
                let what = text::join3(pad.as_str(), "◂ ", user.item.signature.as_str());
                let stop = Stop {
                    jump: Some(jump(user)),
                    expandable: can_expand(user, &below, ctx.index),
                    referenced: has_users(user, &below, ctx.index),
                    path: Some(below.clone()),
                    header: false,
                };
                self.stop(located_line(what, site_text(&user.item), Color::Magenta), stop);
                self.unfolded(user, deep, &below, ctx);
            }
            u = u + 1;
            assert(self@ =~= before + usage_rows(view@, indent as nat, path@, ctx@, u as int));
        }
    }
}

} // verus!
