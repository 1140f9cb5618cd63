//! What splitting and joining promise of each other.

use vstd::prelude::*;

use crate::git::{self, ChangeStatus, EntryModel, Listing};
use crate::text::{self, Separator};

verus! {

/// Whether no character of `part` separates, and there is at least one.
pub open spec fn solid(part: Seq<char>, sep: Separator) -> bool {
    &&& part.len() > 0
    &&& forall|i: int| 0 <= i < part.len() ==> !text::separates(sep, #[trigger] part[i])
}

/// A solid text is its own only run.
proof fn lemma_solid_run(part: Seq<char>, sep: Separator)
    requires
        solid(part, sep),
    ensures
        text::runs(part, sep) == seq![part],
    decreases part.len(),
{
    let rest = part.drop_last();
    assert(part =~= rest.push(part.last()));
    assert(!text::separates(sep, part[part.len() - 1]));
    if rest.len() > 0 {
        assert forall|i: int| 0 <= i < rest.len() implies !text::separates(
            sep,
            #[trigger] rest[i],
        ) by {
            assert(rest[i] == part[i]);
        }
        lemma_solid_run(rest, sep);
        assert(!text::separates(sep, part[part.len() - 2]));
        assert(text::runs(part, sep) =~= seq![part]);
    } else {
        assert(text::runs(rest, sep) =~= seq![]);
        assert(seq![part.last()] =~= part);
        assert(text::runs(part, sep) =~= seq![part]);
    }
}

/// A separator at the end adds no run.
proof fn lemma_separator_adds_nothing(s: Seq<char>, c: char, sep: Separator)
    requires
        text::separates(sep, c),
    ensures
        text::runs(s.push(c), sep) == text::runs(s, sep),
{
    assert(s.push(c).drop_last() =~= s);
}

/// A solid text after a separator is the next run.
proof fn lemma_next_run(s: Seq<char>, c: char, part: Seq<char>, sep: Separator)
    requires
        text::separates(sep, c),
        solid(part, sep),
    ensures
        text::runs(s.push(c) + part, sep) == text::runs(s, sep).push(part),
    decreases part.len(),
{
    let head = s.push(c);
    let whole = head + part;
    let rest = part.drop_last();
    assert(whole.drop_last() =~= head + rest);
    assert(whole.last() == part.last());
    assert(!text::separates(sep, part[part.len() - 1]));
    lemma_separator_adds_nothing(s, c, sep);
    if rest.len() > 0 {
        assert forall|i: int| 0 <= i < rest.len() implies !text::separates(
            sep,
            #[trigger] rest[i],
        ) by {
            assert(rest[i] == part[i]);
        }
        lemma_next_run(s, c, rest, sep);
        assert(whole[whole.len() - 2] == part[part.len() - 2]);
        assert(!text::separates(sep, part[part.len() - 2]));
        let before = text::runs(s, sep).push(rest);
        assert(before.drop_last() =~= text::runs(s, sep));
        assert(rest.push(part.last()) =~= part);
    } else {
        assert(head + rest =~= head);
        assert(whole[whole.len() - 2] == c);
        assert(seq![part.last()] =~= part);
    }
}

/// Runs are solid.
pub proof fn lemma_runs_solid(s: Seq<char>, sep: Separator)
    ensures
        forall|i: int|
            0 <= i < text::runs(s, sep).len() ==> solid(#[trigger] text::runs(s, sep)[i], sep),
        s.len() > 0 && !text::separates(sep, s.last()) ==> text::runs(s, sep).len() > 0,
    decreases s.len(),
{
    if s.len() > 0 {
        lemma_runs_solid(s.drop_last(), sep);
        let rest = text::runs(s.drop_last(), sep);
        let all = text::runs(s, sep);
        let c = s.last();
        if !text::separates(sep, c) {
            if s.len() == 1 || text::separates(sep, s[s.len() - 2]) {
                assert(solid(seq![c], sep));
                assert forall|i: int| 0 <= i < all.len() implies solid(#[trigger] all[i], sep) by {
                    if i < rest.len() {
                        assert(all[i] == rest[i]);
                    }
                }
            } else {
                assert(s.drop_last().last() == s[s.len() - 2]);
                assert(rest.len() > 0);
                let last = rest.last();
                assert(solid(rest[rest.len() - 1], sep));
                assert(solid(last.push(c), sep)) by {
                    assert forall|i: int| 0 <= i < last.push(c).len() implies !text::separates(
                        sep,
                        #[trigger] last.push(c)[i],
                    ) by {
                        if i < last.len() {
                            assert(last.push(c)[i] == last[i]);
                        }
                    }
                }
                assert forall|i: int| 0 <= i < all.len() implies solid(#[trigger] all[i], sep) by {
                    if i < rest.len() - 1 {
                        assert(all[i] == rest[i]);
                    }
                }
            }
        }
    }
}

/// Solid parts joined by a separator split into themselves.
proof fn lemma_joined_runs(parts: Seq<Seq<char>>, c: char, sep: Separator)
    requires
        text::separates(sep, c),
        forall|i: int| 0 <= i < parts.len() ==> solid(#[trigger] parts[i], sep),
    ensures
        text::runs(text::joined(parts, seq![c]), sep) == parts,
    decreases parts.len(),
{
    if parts.len() == 0 {
        assert(text::runs(text::joined(parts, seq![c]), sep) =~= parts);
    } else if parts.len() == 1 {
        lemma_solid_run(parts[0], sep);
        assert(seq![parts[0]] =~= parts);
    } else {
        let rest = parts.drop_last();
        assert forall|i: int| 0 <= i < rest.len() implies solid(#[trigger] rest[i], sep) by {
            assert(rest[i] == parts[i]);
        }
        lemma_joined_runs(rest, c, sep);
        let before = text::joined(rest, seq![c]);
        assert(solid(parts[parts.len() - 1], sep));
        lemma_next_run(before, c, parts.last(), sep);
        assert(before + seq![c] + parts.last() =~= before.push(c) + parts.last());
        assert(rest.push(parts.last()) =~= parts);
    }
}

/// Collapsing whitespace twice is collapsing it once: the words stay the same
/// words.
pub proof fn law_collapsing_is_idempotent(s: Seq<char>)
    ensures
        text::collapsed(text::collapsed(s)) == text::collapsed(s),
        text::runs(text::collapsed(s), Separator::Whitespace) == text::runs(
            s,
            Separator::Whitespace,
        ),
{
    lemma_runs_solid(s, Separator::Whitespace);
    lemma_joined_runs(text::runs(s, Separator::Whitespace), ' ', Separator::Whitespace);
}

/// The text of fields each ended by a NUL.
pub open spec fn ended(fields: Seq<Seq<char>>) -> Seq<char>
    decreases fields.len(),
{
    if fields.len() == 0 {
        seq![]
    } else {
        ended(fields.drop_last()) + fields.last().push('\0')
    }
}

/// Solid fields each ended by a NUL split into themselves.
proof fn lemma_ended_fields(fields: Seq<Seq<char>>)
    requires
        forall|i: int|
            0 <= i < fields.len() ==> solid(#[trigger] fields[i], Separator::Char('\0')),
    ensures
        git::fields(ended(fields)) == fields,
    decreases fields.len(),
{
    let sep = Separator::Char('\0');
    if fields.len() == 0 {
        assert(git::fields(ended(fields)) =~= fields);
    } else {
        let rest = fields.drop_last();
        let last = fields.last();
        assert forall|i: int| 0 <= i < rest.len() implies solid(#[trigger] rest[i], sep) by {
            assert(rest[i] == fields[i]);
        }
        lemma_ended_fields(rest);
        assert(solid(fields[fields.len() - 1], sep));
        let before = ended(rest);
        if rest.len() == 0 {
            assert(before + last.push('\0') =~= last.push('\0'));
            lemma_solid_run(last, sep);
            lemma_separator_adds_nothing(last, '\0', sep);
            assert(seq![last] =~= fields);
        } else {
            // What comes before ends in a NUL of its own.
            let inner = ended(rest.drop_last()) + rest.last();
            assert(before =~= inner.push('\0'));
            lemma_separator_adds_nothing(inner, '\0', sep);
            lemma_next_run(inner, '\0', last, sep);
            lemma_separator_adds_nothing(before + last, '\0', sep);
            assert(before + last.push('\0') =~= (before + last).push('\0'));
            assert(rest.push(last) =~= fields);
        }
    }
}

/// The fields git writes for one changed file: its status, the path it had if
/// it moved, and its path.
pub open spec fn entry_fields(entry: EntryModel) -> Seq<Seq<char>> {
    match entry.from {
        Some(from) => seq![seq!['R'], from, entry.file.path],
        None => seq![
            seq![
                match entry.file.status {
                    ChangeStatus::Added => 'A',
                    ChangeStatus::Modified => 'M',
                    ChangeStatus::Deleted => 'D',
                },
            ],
            entry.file.path,
        ],
    }
}

/// The fields git writes for the entries from `i` on.
pub open spec fn listed_fields(entries: Seq<EntryModel>, i: int) -> Seq<Seq<char>>
    decreases entries.len() - i,
{
    if i >= entries.len() {
        seq![]
    } else {
        entry_fields(entries[i]) + listed_fields(entries, i + 1)
    }
}

/// Whether git can list the entry: paths are not empty and hold no NUL, and
/// only a modified file has a path it had before.
pub open spec fn listable(entry: EntryModel) -> bool {
    &&& solid(entry.file.path, Separator::Char('\0'))
    &&& entry.from matches Some(from) ==> solid(from, Separator::Char('\0'))
        && entry.file.status == ChangeStatus::Modified
}

/// The fields of listable entries are solid.
proof fn lemma_listed_solid(entries: Seq<EntryModel>, i: int)
    requires
        0 <= i,
        forall|k: int| 0 <= k < entries.len() ==> listable(#[trigger] entries[k]),
    ensures
        forall|f: int|
            0 <= f < listed_fields(entries, i).len() ==> solid(
                #[trigger] listed_fields(entries, i)[f],
                Separator::Char('\0'),
            ),
    decreases entries.len() - i,
{
    if i < entries.len() {
        lemma_listed_solid(entries, i + 1);
        assert(listable(entries[i]));
        let own = entry_fields(entries[i]);
        let rest = listed_fields(entries, i + 1);
        let all = listed_fields(entries, i);
        assert forall|f: int| 0 <= f < all.len() implies solid(
            #[trigger] all[f],
            Separator::Char('\0'),
        ) by {
            if f >= own.len() {
                assert(all[f] == rest[f - own.len()]);
            } else {
                assert(all[f] == own[f]);
            }
        }
    }
}

/// The fields of entries read as the entries, wherever they stand at the end
/// of a listing.
proof fn lemma_listing_reads(before: Seq<Seq<char>>, entries: Seq<EntryModel>, i: int)
    requires
        0 <= i <= entries.len(),
        forall|k: int| 0 <= k < entries.len() ==> listable(#[trigger] entries[k]),
    ensures
        git::listing(before + listed_fields(entries, i), before.len() as int) == Listing::Entries(
            entries.skip(i),
        ),
    decreases entries.len() - i,
{
    let all = before + listed_fields(entries, i);
    let at = before.len() as int;
    if i < entries.len() {
        let entry = entries[i];
        assert(listable(entry));
        let own = entry_fields(entry);
        let rest = listed_fields(entries, i + 1);
        lemma_listing_reads(before + own, entries, i + 1);
        assert(before + own + rest =~= all);
        assert(all[at] == own[0]);
        assert(all[at + 1] == own[1]);
        if entry.from is Some {
            assert(all[at + 2] == own[2]);
        }
        assert(entries.skip(i) =~= seq![entry] + entries.skip(i + 1));
    } else {
        assert(all =~= before);
        assert(entries.skip(i) =~= seq![]);
    }
}

/// What git lists of changed files reads back as those files, renames with
/// the path they had before.
pub proof fn law_listings_read_back(entries: Seq<EntryModel>)
    requires
        forall|k: int| 0 <= k < entries.len() ==> listable(#[trigger] entries[k]),
    ensures
        git::listing(git::fields(ended(listed_fields(entries, 0))), 0) == Listing::Entries(
            entries,
        ),
{
    let fields = listed_fields(entries, 0);
    lemma_listed_solid(entries, 0);
    lemma_ended_fields(fields);
    lemma_listing_reads(seq![], entries, 0);
    assert(Seq::<Seq<char>>::empty() + fields =~= fields);
    assert(entries.skip(0) =~= entries);
}

} // verus!
