//! A correction leaves the book what it was: only its package document changes,
//! so it is still recognized as the book it was before.
use super::{
    author_added, bounded, changed_book, changed_members, cleared, edited, escape, escaped_text,
    index_added, located, position_of, removed, series_added, title_added, took, wanted, without_from, EditView,
};
use crate::archive::{
    bytes_of, holds, member_at, members_of, opened, packed_all, packed_as, slashed, MemberView,
    PackedView,
};
use crate::epub;
use crate::inventory::{
    member_resource, names_of, package_name, passing, repacked_copies_are_recognized,
    resources_of, same_resources,
};
use crate::kepub::first_member;
use crate::text;
use vstd::prelude::*;

verus! {

broadcast use vstd::string::group_string_axioms;

/// Whether no name stands twice.
spec fn distinct(members: Seq<MemberView>) -> bool {
    forall|i: int, j: int|
        0 <= i < j < members.len() ==> (#[trigger] members[i]).name != (#[trigger] members[j]).name
}

proof fn sound_from(data: Seq<u8>, members: Seq<MemberView>, from: int, total: nat)
    requires
        0 <= from,
        epub::contents_problem(data, members, from, total) is None,
    ensures
        forall|i: int|
            from <= i < members.len() ==> (#[trigger] members[i]).problem is None && forall|j: int|
                0 <= j < i ==> (#[trigger] members[j]).name != members[i].name,
    decreases members.len() - from,
{
    if from < members.len() {
        sound_from(data, members, from + 1, total + members[from].size as nat);
        assert(epub::member_problem(members, from, total) is None);
        assert forall|i: int| from <= i < members.len() implies (
        #[trigger] members[i]).problem is None && forall|j: int|
            0 <= j < i ==> (#[trigger] members[j]).name != members[i].name by {
            if i == from {
                assert forall|j: int| 0 <= j < i implies (#[trigger] members[j]).name
                    != members[i].name by {
                    if members[j].name == members[i].name {
                        assert(exists|k: int|
                            0 <= k < from && (#[trigger] members[k]).name == members[from].name);
                    }
                }
            }
        }
    }
}

proof fn sound_archives(data: Seq<u8>, members: Seq<MemberView>)
    requires
        members_of(data) == Ok::<Seq<MemberView>, Seq<char>>(members),
        epub::inspected(data) is None,
    ensures
        distinct(members),
        members.len() <= 20000,
        forall|i: int| 0 <= i < members.len() ==> (#[trigger] members[i]).problem is None,
{
    sound_from(data, members, 0, 0);
    assert forall|i: int, j: int| 0 <= i < j < members.len() implies (#[trigger] members[i]).name
        != (#[trigger] members[j]).name by {
        assert(members[j].problem is None);
    }
}

proof fn found_at(members: Seq<MemberView>, name: Seq<char>, at: int, from: int)
    requires
        distinct(members),
        0 <= from <= at < members.len(),
        members[at].name == name,
    ensures
        member_at(members, name, from) == at,
    decreases at - from,
{
    if from < at {
        assert(members[from].name != members[at].name);
        found_at(members, name, at, from + 1);
    }
}

/// The members from `from` on but the one that says what kind the archive is.
spec fn others(members: Seq<MemberView>, from: int) -> Seq<int>
    decreases members.len() - from,
{
    if from < 0 || from >= members.len() {
        Seq::empty()
    } else if members[from].name == "mimetype"@ {
        others(members, from + 1)
    } else {
        seq![from] + others(members, from + 1)
    }
}

proof fn others_are_all(members: Seq<MemberView>, from: int, j: int)
    requires
        0 <= from <= j < members.len(),
        members[j].name != "mimetype"@,
    ensures
        others(members, from).contains(j),
    decreases j - from,
{
    let rest = others(members, from + 1);
    if from < j {
        others_are_all(members, from + 1, j);
        let k = choose|k: int| 0 <= k < rest.len() && rest[k] == j;
        if members[from].name != "mimetype"@ {
            assert((seq![from] + rest)[k + 1] == j);
        }
    } else {
        assert((seq![from] + rest)[0] == j);
    }
}

/// What a changed member is, by the member it was.
spec fn carried(
    data: Seq<u8>,
    members: Seq<MemberView>,
    package: Seq<char>,
    i: int,
    packed: PackedView,
) -> bool {
    &&& 0 <= i < members.len()
    &&& packed.name == members[i].name
    &&& members[i].name != "mimetype"@
    &&& packed.directory == members[i].folder()
    &&& !members[i].folder() && members[i].name != package ==> bytes_of(data, i as usize, u64::MAX)
        == Ok::<Seq<u8>, Seq<char>>(packed.bytes)
}

proof fn changed_members_are_carried(
    data: Seq<u8>,
    members: Seq<MemberView>,
    package: Seq<char>,
    edit: EditView,
    from: int,
)
    requires
        0 <= from,
        changed_members(data, members, package, edit, from) is Ok,
    ensures
        ({
            let rest = changed_members(data, members, package, edit, from)->Ok_0.0;
            &&& rest.len() == others(members, from).len()
            &&& forall|k: int|
                0 <= k < rest.len() ==> carried(
                    data,
                    members,
                    package,
                    others(members, from)[k],
                    #[trigger] rest[k],
                )
        }),
    decreases members.len() - from,
{
    if from < members.len() {
        changed_members_are_carried(data, members, package, edit, from + 1);
        if members[from].name != "mimetype"@ {
            let rest = changed_members(data, members, package, edit, from)->Ok_0.0;
            let further = changed_members(data, members, package, edit, from + 1)->Ok_0.0;
            assert forall|k: int| 0 <= k < rest.len() implies carried(
                data,
                members,
                package,
                others(members, from)[k],
                #[trigger] rest[k],
            ) by {
                if k > 0 {
                    assert(rest[k] == further[k - 1]);
                    assert(others(members, from)[k] == others(members, from + 1)[k - 1]);
                }
            }
        }
    }
}

proof fn pushed_front(x: Seq<char>, s: Seq<Seq<char>>)
    ensures
        (seq![x] + s).to_multiset() == s.to_multiset().insert(x),
{
    broadcast use vstd::seq_lib::group_to_multiset_ensures;
    broadcast use vstd::multiset::group_multiset_axioms;

    vstd::seq_lib::lemma_multiset_commutative(seq![x], s);
    assert(seq![x] =~= Seq::<Seq<char>>::empty().push(x));
    assert(seq![x].to_multiset() =~= Seq::<Seq<char>>::empty().to_multiset().insert(x));
    assert(Seq::<Seq<char>>::empty().to_multiset() =~= vstd::multiset::Multiset::empty());
    assert((seq![x] + s).to_multiset() =~= s.to_multiset().insert(x));
}

spec fn names_at(members: Seq<MemberView>, at: Seq<int>) -> Seq<Seq<char>> {
    Seq::new(at.len(), |k: int| members[at[k]].name)
}

/// The names from `from` on are those of the others, and the kind's where it
/// still lies ahead.
proof fn names_are_kept(members: Seq<MemberView>, kind: int, from: int)
    requires
        distinct(members),
        0 <= kind < members.len(),
        members[kind].name == "mimetype"@,
        0 <= from <= members.len(),
    ensures
        names_of(members).skip(from).to_multiset() == if from <= kind {
            names_at(members, others(members, from)).to_multiset().insert("mimetype"@)
        } else {
            names_at(members, others(members, from)).to_multiset()
        },
    decreases members.len() - from,
{
    let all = names_of(members);
    if from < members.len() {
        names_are_kept(members, kind, from + 1);
        assert(all.skip(from) =~= seq![all[from]] + all.skip(from + 1));
        pushed_front(all[from], all.skip(from + 1));
        if members[from].name == "mimetype"@ {
            if from < kind {
                assert(members[from].name != members[kind].name);
            } else if kind < from {
                assert(members[kind].name != members[from].name);
            }
        } else {
            let later = others(members, from + 1);
            assert(names_at(members, others(members, from)) =~= seq![all[from]] + names_at(
                members,
                later,
            ));
            pushed_front(all[from], names_at(members, later));
            if from <= kind {
                assert(from != kind);
                let m = names_at(members, later).to_multiset();
                assert(m.insert("mimetype"@).insert(all[from]) =~= m.insert(all[from]).insert(
                    "mimetype"@,
                ));
            }
        }
    } else {
        assert(all.skip(from) =~= Seq::<Seq<char>>::empty());
        assert(names_at(members, others(members, from)) =~= Seq::<Seq<char>>::empty());
    }
}

/// Whether an archive's members are as long as it lists them.
pub open spec fn well_listed(data: Seq<u8>, members: Seq<MemberView>) -> bool {
    forall|i: int|
        0 <= i < members.len() ==> (bytes_of(data, i as usize, u64::MAX) matches Ok(bytes)
            ==> bytes.len() == (#[trigger] members[i]).size)
}

/// A corrected book is still the same book: only its package document moved, so
/// it is recognized as it was before, and so is every copy of it already on a
/// device.
pub proof fn corrections_keep_the_book(data: Seq<u8>, edit: EditView, after: Seq<u8>)
    requires
        epub::validated(data) is None,
        well_listed(data, members_of(data)->Ok_0),
        changed_book(data, edit) is Ok,
        located(data, members_of(data)->Ok_0) != Ok::<Seq<char>, Seq<char>>(
            "META-INF/container.xml"@,
        ),
        holds(after, packed_all(changed_book(data, edit)->Ok_0)),
        epub::validated(after) is None,
    ensures
        resources_of(after) == resources_of(data),
{
    let members = members_of(data)->Ok_0;
    let made = members_of(after)->Ok_0;
    let package = located(data, members)->Ok_0;
    let rest = changed_members(data, members, package, edit, 0)->Ok_0.0;
    let packed = seq![first_member()] + rest;
    let at = others(members, 0);
    assert(changed_book(data, edit) == Ok::<Seq<PackedView>, Seq<char>>(packed));
    sound_archives(data, members);
    sound_archives(after, made);
    changed_members_are_carried(data, members, package, edit, 0);
    reveal_strlit("mimetype");
    reveal_strlit("META-INF/container.xml");
    assert(!slashed("mimetype"@));
    assert(!slashed("META-INF/container.xml"@));
    // The kind of the archive.
    let kind = opened(members, "mimetype"@)->Ok_0;
    member_is_named(members, "mimetype"@, 0);
    assert(bytes_of(data, kind as usize, u64::MAX) == Ok::<Seq<u8>, Seq<char>>(epub::mimetype()));
    // What the changed archive lists.
    assert(made.len() == packed.len());
    assert forall|k: int| 0 <= k < packed.len() implies (#[trigger] made[k]).name == packed[k].name
        && made[k].folder() == slashed(packed[k].name) && made[k].size == packed_as(
        packed[k],
    ).bytes.len() && bytes_of(after, k as usize, u64::MAX) == Ok::<Seq<u8>, Seq<char>>(
        packed_as(packed[k]).bytes,
    ) by {
        assert(packed_all(packed)[k] == packed_as(packed[k]));
        if k > 0 {
            assert(packed[k] == rest[k - 1]);
            assert(carried(data, members, package, at[k - 1], rest[k - 1]));
        }
    }
    // The names.
    names_are_kept(members, kind, 0);
    assert(names_of(members).skip(0) =~= names_of(members));
    assert(names_of(made) =~= seq!["mimetype"@] + names_at(members, at)) by {
        assert forall|k: int| 0 <= k < made.len() implies (#[trigger] names_of(made)[k]) == (
        seq!["mimetype"@] + names_at(members, at))[k] by {
            assert(made[k].name == packed[k].name);
            if k > 0 {
                assert(packed[k] == rest[k - 1]);
                assert(carried(data, members, package, at[k - 1], rest[k - 1]));
            }
        }
    }
    pushed_front("mimetype"@, names_at(members, at));
    // The container, and with it the package document's name.
    let c = opened(members, "META-INF/container.xml"@)->Ok_0;
    member_is_named(members, "META-INF/container.xml"@, 0);
    assert(members[c].name != "mimetype"@);
    others_are_all(members, 0, c);
    let n = choose|n: int| 0 <= n < at.len() && at[n] == c;
    assert(carried(data, members, package, at[n], rest[n]));
    assert(packed[n + 1] == rest[n]);
    assert(made[n + 1].name == packed[n + 1].name);
    found_at(made, "META-INF/container.xml"@, n + 1, 0);
    assert(opened(made, "META-INF/container.xml"@) == Ok::<int, Seq<char>>(n + 1));
    assert(located(after, made) == located(data, members));
    assert(made[0].name == packed[0].name);
    found_at(made, "mimetype"@, 0, 0);
    // What stands behind each name.
    assert forall|name: Seq<char>| #![trigger names_of(members).contains(name)]
        names_of(members).contains(name) implies member_resource(
        data,
        members,
        package_name(data, members),
        name,
    ) == member_resource(after, made, package_name(after, made), name) by {
        let j = choose|j: int| 0 <= j < names_of(members).len() && names_of(members)[j] == name;
        assert(members[j].name == name);
        found_at(members, name, j, 0);
        if !passing(name, Some(package)) {
            if name == "mimetype"@ {
                found_at(members, name, kind, 0);
                assert(made[0].size == epub::mimetype().len());
            } else {
                others_are_all(members, 0, j);
                let k = choose|k: int| 0 <= k < at.len() && at[k] == j;
                assert(carried(data, members, package, at[k], rest[k]));
                assert(packed[k + 1] == rest[k]);
                assert(made[k + 1].name == packed[k + 1].name);
                found_at(made, name, k + 1, 0);
            }
        }
    }
    assert(same_resources(data, members, after, made));
    repacked_copies_are_recognized(data, members, after, made);
}

proof fn member_is_named(members: Seq<MemberView>, name: Seq<char>, from: int)
    requires
        0 <= from <= members.len(),
    ensures
        from <= member_at(members, name, from) <= members.len(),
        member_at(members, name, from) < members.len() ==> members[member_at(
            members,
            name,
            from,
        )].name == name,
    decreases members.len() - from,
{
    if from < members.len() && members[from].name != name {
        member_is_named(members, name, from + 1);
    }
}

/// A stretch of a document that stays, or one that is cut out.
pub enum Part {
    Kept(Seq<char>),
    Cut(Seq<char>),
}

/// The stretches as the document had them.
pub open spec fn whole(parts: Seq<Part>) -> Seq<char>
    decreases parts.len(),
{
    if parts.len() == 0 {
        Seq::empty()
    } else {
        (match parts[0] {
            Part::Kept(words) => words,
            Part::Cut(words) => words,
        }) + whole(parts.drop_first())
    }
}

/// The stretches that stay.
pub open spec fn rest(parts: Seq<Part>) -> Seq<char>
    decreases parts.len(),
{
    if parts.len() == 0 {
        Seq::empty()
    } else {
        (match parts[0] {
            Part::Kept(words) => words,
            Part::Cut(words) => Seq::empty(),
        }) + rest(parts.drop_first())
    }
}

/// Whether a stretch is an element that opens one of several ways.
pub open spec fn opens(words: Seq<char>, openings: Seq<Seq<char>>) -> bool {
    exists|k: int|
        0 <= k < openings.len() && text::at(words, #[trigger] openings[k], 0) && bounded(
            words,
            openings[k].len() as int,
        )
}

/// Whether a document was divided so that only such elements are cut out.
pub open spec fn divides(
    parts: Seq<Part>,
    before: Seq<char>,
    after: Seq<char>,
    openings: Seq<Seq<char>>,
) -> bool {
    &&& whole(parts) == before
    &&& rest(parts) == after
    &&& forall|i: int|
        0 <= i < parts.len() ==> ((#[trigger] parts[i]) matches Part::Cut(words) ==> opens(
            words,
            openings,
        ))
}

/// Whether one document is another with nothing cut out but elements that open one
/// of several ways. What stays, stays as it is written.
#[verifier::opaque]
pub open spec fn cut_down(before: Seq<char>, after: Seq<char>, openings: Seq<Seq<char>>) -> bool {
    exists|parts: Seq<Part>| #[trigger] divides(parts, before, after, openings)
}

/// Whether no tag ends within one of several openings.
pub open spec fn plain(openings: Seq<Seq<char>>) -> bool {
    forall|k: int| 0 <= k < openings.len() ==> !(#[trigger] openings[k]).contains('>')
}

proof fn dividing(s: Seq<char>, from: int, openings: Seq<Seq<char>>, closing: Seq<char>) -> (parts:
    Seq<Part>)
    requires
        0 <= from <= s.len(),
        plain(openings),
    ensures
        divides(parts, s.skip(from), without_from(s, from, openings, closing), openings),
    decreases s.len() - from, 1int,
{
    reveal_with_fuel(whole, 3);
    reveal_with_fuel(rest, 3);
    let last = seq![Part::Kept(s.skip(from))];
    assert(last.drop_first() =~= Seq::<Part>::empty());
    assert(s.skip(from) + Seq::<char>::empty() =~= s.skip(from));
    assert(divides(last, s.skip(from), s.skip(from), openings));
    match super::first_opening(s, openings, from) {
        None => last,
        Some((at, which)) => {
            super::first_opening_range(s, openings, from);
            let opening = openings[which];
            let past = at + opening.len();
            text::index_from_range(s, '>', at);
            let end = text::index_from(s, '>', at);
            if end < past && end < s.len() {
                assert(s.subrange(at, past)[end - at] == s[end]);
                assert(opening[end - at] == '>');
            }
            text::seek_range(s, closing, end + 1);
            let close = text::seek(s, closing, end + 1);
            if from >= s.len() || opening.len() == 0 {
                last
            } else if !bounded(s, past) {
                let more = dividing(s, past, openings, closing);
                let parts = seq![Part::Kept(s.subrange(from, past))] + more;
                assert(parts.drop_first() =~= more);
                assert(s.subrange(from, past) + s.skip(past) =~= s.skip(from));
                assert forall|i: int| 0 <= i < parts.len() implies ((#[trigger] parts[i]) matches Part::Cut(
                    words,
                ) ==> opens(words, openings)) by {
                    if i > 0 {
                        assert(parts[i] == more[i - 1]);
                    }
                }
                parts
            } else if end >= s.len() {
                last
            } else if end > at && s[end - 1] == '/' {
                cutting(s, from, at, which, end + 1, openings, closing)
            } else if close < 0 {
                last
            } else {
                seek_finds(s, closing, end + 1);
                cutting(s, from, at, which, close + closing.len(), openings, closing)
            }
        },
    }
}

proof fn seek_finds(s: Seq<char>, part: Seq<char>, from: int)
    requires
        0 <= from,
    ensures
        text::seek(s, part, from) >= 0 ==> text::seek(s, part, from) + part.len() <= s.len(),
    decreases s.len() + 1 - from,
{
    if from + part.len() <= s.len() && !text::at(s, part, from) {
        seek_finds(s, part, from + 1);
    }
}

proof fn cutting(
    s: Seq<char>,
    from: int,
    at: int,
    which: int,
    next: int,
    openings: Seq<Seq<char>>,
    closing: Seq<char>,
) -> (parts: Seq<Part>)
    requires
        0 <= from <= at,
        plain(openings),
        0 <= which < openings.len(),
        text::at(s, openings[which], at),
        bounded(s, at + openings[which].len()),
        at + openings[which].len() < next <= s.len(),
    ensures
        divides(
            parts,
            s.skip(from),
            s.subrange(from, at) + without_from(s, next, openings, closing),
            openings,
        ),
    decreases s.len() - from, 0int,
{
    let opening = openings[which];
    let more = dividing(s, next, openings, closing);
    let cut = s.subrange(at, next);
    assert(cut.subrange(0, opening.len() as int) =~= s.subrange(at, at + opening.len()));
    assert(text::at(cut, opening, 0));
    assert(bounded(cut, opening.len() as int));
    assert(opens(cut, openings));
    let tail = seq![Part::Cut(cut)] + more;
    let parts = seq![Part::Kept(s.subrange(from, at))] + tail;
    assert(parts.drop_first() =~= tail);
    assert(tail.drop_first() =~= more);
    assert(whole(tail) == cut + s.skip(next));
    assert(rest(tail) =~= without_from(s, next, openings, closing));
    assert(s.subrange(from, at) + (cut + s.skip(next)) =~= s.skip(from));
    assert forall|i: int| 0 <= i < parts.len() implies ((#[trigger] parts[i]) matches Part::Cut(
        words,
    ) ==> opens(words, openings)) by {
        if i > 1 {
            assert(parts[i] == more[i - 2]);
        }
    }
    parts
}

/// Removing elements cuts out nothing else: every other character stands as it is
/// written.
pub proof fn removal_cuts_only_what_it_names(
    document: Seq<char>,
    openings: Seq<Seq<char>>,
    closing: Seq<char>,
)
    requires
        plain(openings),
    ensures
        cut_down(document, removed(document, openings, closing), openings),
{
    reveal(cut_down);
    let parts = dividing(document, 0, openings, closing);
    assert(document.skip(0) =~= document);
    assert(divides(parts, document, removed(document, openings, closing), openings));
}

/// How the elements open that an edit replaces: those of the fields it names, and
/// of no other.
pub open spec fn replaced(edit: EditView) -> Seq<Seq<char>> {
    (if edit.title is Some {
        seq!["<dc:title"@, "<title"@]
    } else {
        Seq::empty()
    }) + (if edit.author is Some {
        seq!["<dc:creator"@, "<creator"@]
    } else {
        Seq::empty()
    }) + (if edit.series is Some {
        seq!["<meta name=\"calibre:series\""@, "<meta property=\"belongs-to-collection\""@]
    } else {
        Seq::empty()
    }) + (if edit.series_index is Some {
        seq![
            "<meta name=\"calibre:series_index\""@,
            "<meta refines=\"#crossload-series\""@,
        ]
    } else {
        Seq::empty()
    })
}

proof fn pass(document: Seq<char>, openings: Seq<Seq<char>>, closing: Seq<char>, all: Seq<Seq<char>>)
    requires
        plain(openings),
        forall|k: int| 0 <= k < openings.len() ==> all.contains(#[trigger] openings[k]),
    ensures
        cut_down(document, removed(document, openings, closing), all),
{
    reveal(cut_down);
    removal_cuts_only_what_it_names(document, openings, closing);
    let after = removed(document, openings, closing);
    let parts = choose|parts: Seq<Part>| #[trigger] divides(parts, document, after, openings);
    assert forall|i: int| 0 <= i < parts.len() implies ((#[trigger] parts[i]) matches Part::Cut(
        words,
    ) ==> opens(words, all)) by {
        if let Part::Cut(words) = parts[i] {
            let k = choose|k: int|
                0 <= k < openings.len() && text::at(words, #[trigger] openings[k], 0) && bounded(
                    words,
                    openings[k].len() as int,
                );
            assert(all.contains(openings[k]));
            let j = choose|j: int| 0 <= j < all.len() && all[j] == openings[k];
            assert(text::at(words, all[j], 0));
        }
    }
    assert(divides(parts, document, after, all));
}

proof fn nothing_cut(document: Seq<char>, all: Seq<Seq<char>>)
    ensures
        cut_down(document, document, all),
{
    reveal(cut_down);
    reveal_with_fuel(whole, 2);
    reveal_with_fuel(rest, 2);
    let parts = seq![Part::Kept(document)];
    assert(parts.drop_first() =~= Seq::<Part>::empty());
    assert(document + Seq::<char>::empty() =~= document);
    assert(divides(parts, document, document, all));
}

/// Whether a document became another step by step, each step cutting out nothing
/// but elements that open one of several ways.
pub open spec fn worn_down(
    steps: Seq<Seq<char>>,
    before: Seq<char>,
    after: Seq<char>,
    openings: Seq<Seq<char>>,
) -> bool {
    &&& steps.len() > 0
    &&& steps[0] == before
    &&& steps.last() == after
    &&& forall|i: int|
        0 <= i < steps.len() - 1 ==> cut_down(#[trigger] steps[i], steps[i + 1], openings)
}

/// Two passes over a document, each cutting out elements that open one of several
/// ways.
spec fn twice(
    head: Seq<char>,
    first: Seq<Seq<char>>,
    closing: Seq<char>,
    second: Seq<Seq<char>>,
    other: Seq<char>,
) -> Seq<char> {
    removed(removed(head, first, closing), second, other)
}

spec fn titles() -> Seq<Seq<char>> {
    seq!["<dc:title"@, "<title"@]
}

spec fn creators() -> Seq<Seq<char>> {
    seq!["<dc:creator"@, "<creator"@]
}

spec fn collections() -> Seq<Seq<char>> {
    seq!["<meta name=\"calibre:series\""@, "<meta property=\"belongs-to-collection\""@]
}

spec fn places() -> Seq<Seq<char>> {
    seq!["<meta name=\"calibre:series_index\""@, "<meta refines=\"#crossload-series\""@]
}

proof fn openings_are_plain()
    ensures
        plain(titles()),
        plain(creators()),
        plain(collections()),
        plain(places()),
{
    reveal_strlit("<dc:title");
    reveal_strlit("<title");
    reveal_strlit("<dc:creator");
    reveal_strlit("<creator");
    reveal_strlit("<meta name=\"calibre:series\"");
    reveal_strlit("<meta property=\"belongs-to-collection\"");
    reveal_strlit("<meta name=\"calibre:series_index\"");
    reveal_strlit("<meta refines=\"#crossload-series\"");
}

proof fn titles_pass(head: Seq<char>, named: Seq<Seq<char>>, all: Seq<Seq<char>>, closing: Seq<char>, other: Seq<char>)
    requires
        named.len() == 2,
        plain(named),
        all.contains(named[0]),
        all.contains(named[1]),
    ensures
        cut_down(head, removed(head, named, closing), all),
        cut_down(
            removed(head, named, closing),
            twice(head, named, closing, seq![named[1]], other),
            all,
        ),
{
    pass(head, named, closing, all);
    pass(removed(head, named, closing), seq![named[1]], other, all);
}

proof fn metas_pass(head: Seq<char>, named: Seq<Seq<char>>, all: Seq<Seq<char>>, closing: Seq<char>)
    requires
        named.len() == 2,
        plain(named),
        all.contains(named[0]),
        all.contains(named[1]),
    ensures
        cut_down(head, removed(head, seq![named[0]], closing), all),
        cut_down(
            removed(head, seq![named[0]], closing),
            twice(head, seq![named[0]], closing, seq![named[1]], closing),
            all,
        ),
{
    pass(head, seq![named[0]], closing, all);
    pass(removed(head, seq![named[0]], closing), seq![named[1]], closing, all);
}

spec fn when(named: bool, openings: Seq<Seq<char>>) -> Seq<Seq<char>> {
    if named {
        openings
    } else {
        Seq::empty()
    }
}

proof fn replaced_holds(edit: EditView)
    ensures
        edit.title is Some ==> replaced(edit).contains(titles()[0]) && replaced(edit).contains(
            titles()[1],
        ),
        edit.author is Some ==> replaced(edit).contains(creators()[0]) && replaced(edit).contains(
            creators()[1],
        ),
        edit.series is Some ==> replaced(edit).contains(collections()[0]) && replaced(
            edit,
        ).contains(collections()[1]),
        edit.series_index is Some ==> replaced(edit).contains(places()[0]) && replaced(
            edit,
        ).contains(places()[1]),
{
    let all = replaced(edit);
    let a = when(edit.title is Some, titles());
    let b = when(edit.author is Some, creators());
    let c = when(edit.series is Some, collections());
    let d = when(edit.series_index is Some, places());
    assert(all == a + b + c + d);
    if edit.title is Some {
        assert(all[0] == titles()[0] && all[1] == titles()[1]);
    }
    if edit.author is Some {
        assert(all[a.len() as int] == creators()[0] && all[a.len() as int + 1] == creators()[1]);
    }
    if edit.series is Some {
        let n = a.len() + b.len();
        assert(all[n as int] == collections()[0] && all[n as int + 1] == collections()[1]);
    }
    if edit.series_index is Some {
        let n = a.len() + b.len() + c.len();
        assert(all[n as int] == places()[0] && all[n as int + 1] == places()[1]);
    }
}

/// What an edit does not name stays as it is written: the metadata loses nothing
/// but elements of the fields that are named, the new ones stand at its end, and
/// what follows it is as it was.
pub proof fn what_is_not_named_stays(package: Seq<char>, edit: EditView)
    requires
        edited(package, edit) is Ok,
    ensures
        ({
            let at = text::seek(package, "</metadata>"@, 0);
            &&& 0 <= at <= package.len()
            &&& exists|steps: Seq<Seq<char>>| #[trigger]
                worn_down(steps, package.take(at), cleared(package.take(at), edit), replaced(edit))
            &&& edited(package, edit)->Ok_0 == cleared(package.take(at), edit) + (title_added(
                edit.title,
            ) + author_added(edit.author) + (series_added(edit.series) + index_added(
                position_of(edit),
            ))) + package.skip(at)
        }),
{
    let at = text::seek(package, "</metadata>"@, 0);
    text::seek_range(package, "</metadata>"@, 0);
    seek_finds(package, "</metadata>"@, 0);
    clearing_wears_down(package.take(at), edit);
}

proof fn clearing_wears_down(a: Seq<char>, edit: EditView)
    ensures
        exists|steps: Seq<Seq<char>>| #[trigger]
            worn_down(steps, a, cleared(a, edit), replaced(edit)),
{
    let all = replaced(edit);
    replaced_holds(edit);
    openings_are_plain();
    let b = if edit.title is Some {
        removed(a, titles(), "</dc:title>"@)
    } else {
        a
    };
    let c = if edit.title is Some {
        twice(a, titles(), "</dc:title>"@, seq![titles()[1]], "</title>"@)
    } else {
        a
    };
    let d = if edit.author is Some {
        removed(c, creators(), "</dc:creator>"@)
    } else {
        c
    };
    let e = if edit.author is Some {
        twice(c, creators(), "</dc:creator>"@, seq![creators()[1]], "</creator>"@)
    } else {
        c
    };
    let f = if edit.series is Some {
        removed(e, seq![collections()[0]], "</meta>"@)
    } else {
        e
    };
    let g = if edit.series is Some {
        twice(e, seq![collections()[0]], "</meta>"@, seq![collections()[1]], "</meta>"@)
    } else {
        e
    };
    let h = if edit.series_index is Some {
        removed(g, seq![places()[0]], "</meta>"@)
    } else {
        g
    };
    let i = if edit.series_index is Some {
        twice(g, seq![places()[0]], "</meta>"@, seq![places()[1]], "</meta>"@)
    } else {
        g
    };
    assert(cut_down(a, b, all) && cut_down(b, c, all)) by {
        if edit.title is Some {
            titles_pass(a, titles(), all, "</dc:title>"@, "</title>"@);
        } else {
            nothing_cut(a, all);
        }
    }
    assert(cut_down(c, d, all) && cut_down(d, e, all)) by {
        if edit.author is Some {
            titles_pass(c, creators(), all, "</dc:creator>"@, "</creator>"@);
        } else {
            nothing_cut(c, all);
        }
    }
    assert(cut_down(e, f, all) && cut_down(f, g, all)) by {
        if edit.series is Some {
            metas_pass(e, collections(), all, "</meta>"@);
        } else {
            nothing_cut(e, all);
        }
    }
    assert(cut_down(g, h, all) && cut_down(h, i, all)) by {
        if edit.series_index is Some {
            metas_pass(g, places(), all, "</meta>"@);
        } else {
            nothing_cut(g, all);
        }
    }
    assert(i == cleared(a, edit));
    let steps = seq![a, b, c, d, e, f, g, h, i];
    assert forall|k: int| 0 <= k < steps.len() - 1 implies cut_down(
        #[trigger] steps[k],
        steps[k + 1],
        all,
    ) by {
        if k == 0 {
            assert(steps[k] == a && steps[k + 1] == b);
        } else if k == 1 {
            assert(steps[k] == b && steps[k + 1] == c);
        } else if k == 2 {
            assert(steps[k] == c && steps[k + 1] == d);
        } else if k == 3 {
            assert(steps[k] == d && steps[k + 1] == e);
        } else if k == 4 {
            assert(steps[k] == e && steps[k + 1] == f);
        } else if k == 5 {
            assert(steps[k] == f && steps[k + 1] == g);
        } else if k == 6 {
            assert(steps[k] == g && steps[k + 1] == h);
        } else {
            assert(steps[k] == h && steps[k + 1] == i);
        }
    }
    assert(worn_down(steps, a, i, all));
}

/// A title or a series that was asked for is what the book then says.
pub proof fn what_was_asked_for_reads_back(edit: EditView, says: epub::MetadataView)
    requires
        took(edit, says) is None,
    ensures
        wanted(edit.title) is Some ==> says.title == wanted(edit.title),
        wanted(edit.series) is Some ==> says.series == wanted(edit.series),
{
}

proof fn held_inside(a: Seq<char>, b: Seq<char>, c: Seq<char>)
    ensures
        text::within(a + b + c, b),
{
    let whole = a + b + c;
    assert(whole.subrange(a.len() as int, (a.len() + b.len()) as int) =~= b);
    assert(text::at(whole, b, a.len() as int));
}

/// Whether an edit asks for these words: they were given, and there is more to them than
/// whitespace around them.
pub open spec fn asks_for(field: Option<Seq<char>>, words: Seq<char>) -> bool {
    field matches Some(given) && words.len() > 0 && words == text::trimmed(given)
}

/// What was asked for is written: a title and an author each in an element of its own,
/// and a series as Calibre and as the standard write it.
pub proof fn what_was_asked_for_is_written(package: Seq<char>, edit: EditView, words: Seq<char>)
    requires
        edited(package, edit) is Ok,
    ensures
        ({
            let after = edited(package, edit)->Ok_0;
            &&& asks_for(edit.title, words) ==> text::within(
                after,
                "<dc:title>"@ + escaped_text(words) + "</dc:title>"@,
            )
            &&& asks_for(edit.author, words) ==> text::within(
                after,
                "<dc:creator>"@ + escaped_text(words) + "</dc:creator>"@,
            )
            &&& asks_for(edit.series, words) ==> text::within(
                after,
                "<meta name=\"calibre:series\" content=\""@ + escaped_text(words) + "\"/>"@,
            ) && text::within(
                after,
                "<meta property=\"belongs-to-collection\" id=\"crossload-series\">"@
                    + escaped_text(words) + "</meta>"@,
            )
        }),
{
    let at = text::seek(package, "</metadata>"@, 0);
    let after = edited(package, edit)->Ok_0;
    let head = cleared(package.take(at), edit);
    let tail = package.skip(at);
    let title = title_added(edit.title);
    let author = author_added(edit.author);
    let series = series_added(edit.series);
    let index = index_added(position_of(edit));
    held_inside(head, title, author + (series + index) + tail);
    assert(after =~= head + title + (author + (series + index) + tail));
    held_inside(head + title, author, (series + index) + tail);
    assert(after =~= (head + title) + author + ((series + index) + tail));
    if asks_for(edit.series, words) {
        let old = "<meta name=\"calibre:series\" content=\""@ + escaped_text(words) + "\"/>"@;
        let new = "<meta property=\"belongs-to-collection\" id=\"crossload-series\">"@
            + escaped_text(words) + "</meta>"@;
        assert(series == old + new);
        held_inside(head + title + author, old, new + index + tail);
        assert(after =~= (head + title + author) + old + (new + index + tail));
        held_inside(head + title + author + old, new, index + tail);
        assert(after =~= (head + title + author + old) + new + (index + tail));
    }
}

/// A position that was asked for is written both ways, and must be a number.
pub proof fn a_position_is_written(package: Seq<char>, edit: EditView, words: Seq<char>)
    requires
        asks_for(edit.series_index, words),
        edit.series is None || asks_for(edit.series, text::trimmed(edit.series->0)),
        text::seek(package, "</metadata>"@, 0) >= 0,
    ensures
        edited(package, edit) is Ok <==> text::numeral(words),
        edited(package, edit) matches Ok(after) ==> text::within(
            after,
            "<meta name=\"calibre:series_index\" content=\""@ + escaped_text(words) + "\"/>"@,
        ) && text::within(
            after,
            "<meta refines=\"#crossload-series\" property=\"group-position\">"@ + escaped_text(words)
                + "</meta>"@,
        ),
{
    if let Ok(after) = edited(package, edit) {
        let at = text::seek(package, "</metadata>"@, 0);
        let head = cleared(package.take(at), edit) + (title_added(edit.title) + author_added(
            edit.author,
        ) + series_added(edit.series));
        let tail = package.skip(at);
        let old = "<meta name=\"calibre:series_index\" content=\""@ + escaped_text(words)
            + "\"/>"@;
        let new = "<meta refines=\"#crossload-series\" property=\"group-position\">"@
            + escaped_text(words) + "</meta>"@;
        assert(index_added(position_of(edit)) == old + new);
        held_inside(head, old, new + tail);
        held_inside(head + old, new, tail);
        assert(after =~= head + old + (new + tail));
        assert(after =~= (head + old) + new + tail);
    }
}

/// What markup says: its entities read as the characters they stand for.
pub open spec fn read_out(e: Seq<char>) -> Seq<char>
    decreases e.len(),
{
    if e.len() == 0 {
        Seq::empty()
    } else if e.len() >= 5 && text::starts(e, "&amp;"@) {
        seq!['&'] + read_out(e.skip(5))
    } else if e.len() >= 4 && text::starts(e, "&lt;"@) {
        seq!['<'] + read_out(e.skip(4))
    } else if e.len() >= 4 && text::starts(e, "&gt;"@) {
        seq!['>'] + read_out(e.skip(4))
    } else if e.len() >= 6 && text::starts(e, "&quot;"@) {
        seq!['"'] + read_out(e.skip(6))
    } else {
        seq![e[0]] + read_out(e.skip(1))
    }
}

proof fn escaping_from_the_front(c: char, s: Seq<char>)
    ensures
        escaped_text(seq![c] + s) == escape(c) + escaped_text(s),
    decreases s.len(),
{
    let t = seq![c] + s;
    if s.len() == 0 {
        assert(t.drop_last() =~= Seq::<char>::empty());
        assert(escaped_text(t.drop_last()) =~= Seq::<char>::empty());
        assert(escaped_text(t) =~= escape(c) + escaped_text(s));
    } else {
        escaping_from_the_front(c, s.drop_last());
        assert(t.drop_last() =~= seq![c] + s.drop_last());
        assert(escaped_text(t) =~= escape(c) + escaped_text(s));
    }
}

proof fn not_started(e: Seq<char>, part: Seq<char>, k: int)
    requires
        0 <= k < part.len() <= e.len(),
        e[k] != part[k],
    ensures
        !text::starts(e, part),
{
    if text::starts(e, part) {
        assert(e.subrange(0, part.len() as int)[k] == part[k]);
    }
}

proof fn one_reads_out(c: char, rest: Seq<char>)
    requires
        !text::control(c),
    ensures
        read_out(escape(c) + rest) == seq![c] + read_out(rest),
{
    reveal_strlit("&amp;");
    reveal_strlit("&lt;");
    reveal_strlit("&gt;");
    reveal_strlit("&quot;");
    let e = escape(c) + rest;
    if c == '&' {
        assert(e.subrange(0, 5) =~= "&amp;"@);
        assert(e.skip(5) =~= rest);
    } else if c == '<' {
        assert(e.subrange(0, 4) =~= "&lt;"@);
        if e.len() >= 5 {
            not_started(e, "&amp;"@, 1);
        }
        assert(e.skip(4) =~= rest);
    } else if c == '>' {
        assert(e.subrange(0, 4) =~= "&gt;"@);
        if e.len() >= 5 {
            not_started(e, "&amp;"@, 1);
        }
        not_started(e, "&lt;"@, 1);
        assert(e.skip(4) =~= rest);
    } else if c == '"' {
        assert(e.subrange(0, 6) =~= "&quot;"@);
        not_started(e, "&amp;"@, 1);
        not_started(e, "&lt;"@, 1);
        not_started(e, "&gt;"@, 1);
        assert(e.skip(6) =~= rest);
    } else {
        if e.len() >= 5 {
            not_started(e, "&amp;"@, 0);
        }
        if e.len() >= 4 {
            not_started(e, "&lt;"@, 0);
            not_started(e, "&gt;"@, 0);
        }
        if e.len() >= 6 {
            not_started(e, "&quot;"@, 0);
        }
        assert(e.skip(1) =~= rest);
    }
}

/// What is written reads out as what was asked for.
pub proof fn what_is_written_reads_out_the_same(s: Seq<char>)
    requires
        forall|i: int| 0 <= i < s.len() ==> !text::control(#[trigger] s[i]),
    ensures
        read_out(escaped_text(s)) == s,
    decreases s.len(),
{
    if s.len() > 0 {
        let rest = s.drop_first();
        assert forall|i: int| 0 <= i < rest.len() implies !text::control(#[trigger] rest[i]) by {
            assert(rest[i] == s[i + 1]);
        }
        what_is_written_reads_out_the_same(rest);
        assert(s =~= seq![s[0]] + rest);
        escaping_from_the_front(s[0], rest);
        one_reads_out(s[0], escaped_text(rest));
    }
}

/// Nothing is written but a valid book that says what was asked for.
pub proof fn only_a_sound_book_is_written(after: Seq<u8>, edit: EditView)
    ensures
        epub::validated(after) is Some ==> super::flaw(after, edit) is Some,
        epub::metadata_of(after) is Err ==> super::flaw(after, edit) is Some,
        epub::metadata_of(after) matches Ok(None) ==> super::flaw(after, edit) is Some,
        epub::metadata_of(after) matches Ok(Some(says)) ==> (epub::validated(after) is None ==> (
        super::flaw(after, edit) is None <==> super::took(edit, says) is None)),
{
}

} // verus!
