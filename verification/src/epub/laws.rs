//! What a valid book is, and what a book says of itself.
use super::{
    base_of, chapter_of, contents_problem, described, fonts_only, package_of, resolved,
    spine_problem, unescaped, validated, value_of, values, DUBLIN_CORE,
};
use crate::archive::{bytes_of, members_of, named_bytes, MemberView};
use crate::paths;
use crate::text;
use crate::xml;
use crate::xml::NodeView;
use vstd::prelude::*;

verus! {

broadcast use vstd::string::group_string_axioms;

/// Whether a member of an archive is as it should be: it can be read and is as long as it
/// is listed, its name stays inside and is nobody else's.
pub open spec fn sound_member(data: Seq<u8>, members: Seq<MemberView>, i: int) -> bool {
    &&& members[i].problem is None
    &&& members[i].enclosed
    &&& !members[i].name.contains('\\')
    &&& forall|j: int| 0 <= j < i ==> (#[trigger] members[j]).name != members[i].name
    &&& bytes_of(data, i as usize, 268435457) matches Ok(bytes) && bytes.len() == members[i].size
}

proof fn contents_are_sound(data: Seq<u8>, members: Seq<MemberView>, from: int, total: nat, i: int)
    requires
        0 <= from <= i < members.len(),
        contents_problem(data, members, from, total) is None,
    ensures
        sound_member(data, members, i),
    decreases i - from,
{
    if from < i {
        contents_are_sound(data, members, from + 1, total + members[from].size as nat, i);
    }
}

/// What all members from one on weigh together, as they are listed.
pub open spec fn weight(members: Seq<MemberView>, from: int) -> nat
    decreases members.len() - from,
{
    if from < 0 || from >= members.len() {
        0
    } else {
        members[from].size as nat + weight(members, from + 1)
    }
}

proof fn contents_are_bounded(data: Seq<u8>, members: Seq<MemberView>, from: int, total: nat)
    requires
        0 <= from <= members.len(),
        total <= 268435456,
        contents_problem(data, members, from, total) is None,
    ensures
        total + weight(members, from) <= 268435456,
    decreases members.len() - from,
{
    if from < members.len() {
        contents_are_bounded(data, members, from + 1, total + members[from].size as nat);
    }
}

/// A valid book is a sound archive: every member can be read and is as long as it is
/// listed, no name stands twice or leads outside, all of it together is not too large,
/// and it says that it is an EPUB.
pub proof fn a_valid_book_is_sound(data: Seq<u8>, i: int)
    requires
        validated(data) is None,
    ensures
        members_of(data) is Ok,
        0 <= i < members_of(data)->Ok_0.len() ==> sound_member(data, members_of(data)->Ok_0, i),
        weight(members_of(data)->Ok_0, 0) <= 268435456,
        named_bytes(data, members_of(data)->Ok_0, "mimetype"@) == Ok::<Seq<u8>, Seq<char>>(
            seq![
                97u8, 112, 112, 108, 105, 99, 97, 116, 105, 111, 110, 47, 101, 112, 117, 98, 43,
                122, 105, 112,
            ],
        ),
        package_of(data, members_of(data)->Ok_0) is Ok,
{
    let members = members_of(data)->Ok_0;
    contents_are_bounded(data, members, 0, 0);
    if 0 <= i < members.len() {
        contents_are_sound(data, members, 0, 0, i);
    }
}

/// Whether an entry of the reading order leads to a chapter that can be read: through an
/// item of the manifest to a document that is there and, where it is XHTML, parses.
pub open spec fn readable_chapter(
    data: Seq<u8>,
    members: Seq<MemberView>,
    nodes: Seq<NodeView>,
    base: Seq<char>,
    i: int,
) -> bool {
    chapter_of(nodes, i, base) matches Ok((item, path)) && named_bytes(
        data,
        members,
        path,
    ) matches Ok(bytes) && (nodes[item].attribute("media-type"@) == Some("application/xhtml+xml"@)
        ==> (text::decoded(bytes) matches Ok(words) && xml::document(words, true) is Ok))
}

proof fn spine_is_readable(
    data: Seq<u8>,
    members: Seq<MemberView>,
    nodes: Seq<NodeView>,
    base: Seq<char>,
    from: int,
    count: nat,
    i: int,
)
    requires
        0 <= from <= i < nodes.len(),
        nodes[i].called("itemref"@),
        spine_problem(data, members, nodes, base, from, count) is None,
    ensures
        readable_chapter(data, members, nodes, base, i),
    decreases i - from,
{
    if from < i {
        spine_is_readable(
            data,
            members,
            nodes,
            base,
            from + 1,
            if nodes[from].called("itemref"@) {
                count + 1
            } else {
                count
            },
            i,
        );
    }
}

proof fn spine_is_not_empty(
    data: Seq<u8>,
    members: Seq<MemberView>,
    nodes: Seq<NodeView>,
    base: Seq<char>,
    from: int,
)
    requires
        0 <= from <= nodes.len(),
        spine_problem(data, members, nodes, base, from, 0) is None,
    ensures
        exists|i: int| from <= i < nodes.len() && (#[trigger] nodes[i]).called("itemref"@),
    decreases nodes.len() - from,
{
    if from < nodes.len() {
        if nodes[from].called("itemref"@) {
            assert(nodes[from].called("itemref"@));
        } else {
            spine_is_not_empty(data, members, nodes, base, from + 1);
        }
    }
}

/// A valid book can be read from its first chapter to its last: there is one, and every
/// entry of the reading order leads to a chapter that can be read.
pub proof fn a_valid_book_can_be_read(data: Seq<u8>, i: int)
    requires
        validated(data) is None,
    ensures
        ({
            let members = members_of(data)->Ok_0;
            let (root, nodes) = package_of(data, members)->Ok_0;
            &&& 0 <= i < nodes.len() && nodes[i].called("itemref"@) ==> readable_chapter(
                data,
                members,
                nodes,
                base_of(root),
                i,
            )
            &&& exists|k: int| 0 <= k < nodes.len() && (#[trigger] nodes[k]).called("itemref"@)
        }),
{
    let members = members_of(data)->Ok_0;
    let (root, nodes) = package_of(data, members)->Ok_0;
    spine_is_not_empty(data, members, nodes, base_of(root), 0);
    if 0 <= i < nodes.len() && nodes[i].called("itemref"@) {
        spine_is_readable(data, members, nodes, base_of(root), 0, 0, i);
    }
}

/// Whether an element of a package document gives a value for a tag: it is of the Dublin
/// Core and there is more in it than whitespace.
pub open spec fn gives(node: NodeView, tag: Seq<char>, words: Seq<char>) -> bool {
    node.tagged(DUBLIN_CORE@, tag) && (node.text matches Some(s) && text::trimmed(s) == words
        && words.len() > 0)
}

proof fn values_are_given(nodes: Seq<NodeView>, tag: Seq<char>, i: int, words: Seq<char>)
    requires
        0 <= i < nodes.len(),
        gives(nodes[i], tag, words),
    ensures
        values(nodes, tag).contains(words),
    decreases nodes.len(),
{
    let rest = nodes.drop_last();
    let before = values(rest, tag);
    let all = values(nodes, tag);
    if i == nodes.len() - 1 {
        assert(all.last() == words);
    } else {
        assert(rest[i] == nodes[i]);
        values_are_given(rest, tag, i, words);
        let k = choose|k: int| 0 <= k < before.len() && before[k] == words;
        assert(all[k] == words);
    }
}

proof fn first_value(nodes: Seq<NodeView>, tag: Seq<char>, i: int, words: Seq<char>)
    requires
        0 <= i < nodes.len(),
        gives(nodes[i], tag, words),
        forall|j: int, other: Seq<char>| 0 <= j < i ==> !#[trigger] gives(nodes[j], tag, other),
    ensures
        values(nodes, tag).len() > 0,
        values(nodes, tag)[0] == words,
    decreases nodes.len(),
{
    let rest = nodes.drop_last();
    if i == nodes.len() - 1 {
        assert forall|j: int| 0 <= j < rest.len() implies value_of(
            #[trigger] rest[j],
            tag,
        ) is None by {
            assert(rest[j] == nodes[j]);
            if value_of(nodes[j], tag) is Some {
                assert(gives(nodes[j], tag, value_of(nodes[j], tag)->0));
            }
        }
        no_values(rest, tag);
    } else {
        assert(rest[i] == nodes[i]);
        assert forall|j: int, other: Seq<char>| 0 <= j < i implies !#[trigger] gives(
            rest[j],
            tag,
            other,
        ) by {
            assert(rest[j] == nodes[j]);
            assert(!gives(nodes[j], tag, other));
        }
        first_value(rest, tag, i, words);
    }
}

proof fn no_values(nodes: Seq<NodeView>, tag: Seq<char>)
    requires
        forall|j: int| 0 <= j < nodes.len() ==> value_of(#[trigger] nodes[j], tag) is None,
    ensures
        values(nodes, tag).len() == 0,
    decreases nodes.len(),
{
    if nodes.len() > 0 {
        assert(value_of(nodes[nodes.len() - 1], tag) is None);
        assert forall|j: int| 0 <= j < nodes.drop_last().len() implies value_of(
            #[trigger] nodes.drop_last()[j],
            tag,
        ) is None by {
            assert(nodes.drop_last()[j] == nodes[j]);
        }
        no_values(nodes.drop_last(), tag);
    }
}

/// A book is called what the first title in its package document says.
pub proof fn a_book_is_called_by_its_first_title(nodes: Seq<NodeView>, i: int, words: Seq<char>)
    requires
        0 <= i < nodes.len(),
        gives(nodes[i], "title"@, words),
        forall|j: int, other: Seq<char>|
            0 <= j < i ==> !#[trigger] gives(nodes[j], "title"@, other),
    ensures
        described(nodes).title == Some(words),
{
    first_value(nodes, "title"@, i, words);
}

proof fn between_holds(parts: Seq<Seq<char>>, gap: Seq<char>, k: int)
    requires
        0 <= k < parts.len(),
    ensures
        text::within(paths::between(parts, gap), parts[k]),
    decreases parts.len(),
{
    let whole = paths::between(parts, gap);
    let part = parts[k];
    if parts.len() == 1 {
        assert(whole =~= part);
        assert(whole.subrange(0, part.len() as int) =~= part);
        assert(text::at(whole, part, 0));
    } else {
        let rest = parts.drop_last();
        let before = paths::between(rest, gap);
        if k == parts.len() - 1 {
            let n = (before.len() + gap.len()) as int;
            assert(whole.subrange(n, n + part.len()) =~= part);
            assert(text::at(whole, part, n));
        } else {
            assert(rest[k] == part);
            between_holds(rest, gap, k);
            let i = choose|i: int| text::at(before, part, i);
            assert(whole.subrange(i, i + part.len()) =~= before.subrange(i, i + part.len()));
            assert(text::at(whole, part, i));
        }
    }
}

/// Every author that a package document gives is named, and every identifier is known.
pub proof fn every_author_is_named(nodes: Seq<NodeView>, i: int, words: Seq<char>)
    requires
        0 <= i < nodes.len(),
    ensures
        gives(nodes[i], "creator"@, words) ==> text::within(described(nodes).author, words),
        gives(nodes[i], "identifier"@, words) ==> described(nodes).identifiers.contains(words),
{
    if gives(nodes[i], "creator"@, words) {
        values_are_given(nodes, "creator"@, i, words);
        let all = values(nodes, "creator"@);
        let k = choose|k: int| 0 <= k < all.len() && all[k] == words;
        between_holds(all, ", "@, k);
    }
    if gives(nodes[i], "identifier"@, words) {
        values_are_given(nodes, "identifier"@, i, words);
    }
}

proof fn meta_is_found(nodes: Seq<NodeView>, name: Seq<char>, value: Seq<char>, from: int, i: int)
    requires
        0 <= from <= i < nodes.len(),
        nodes[i].called("meta"@),
        nodes[i].attribute(name) == Some(value),
        forall|j: int|
            from <= j < i ==> !((#[trigger] nodes[j]).called("meta"@) && nodes[j].attribute(name)
                == Some(value)),
    ensures
        super::meta_with(nodes, name, value, from) == i,
    decreases i - from,
{
    if from < i {
        meta_is_found(nodes, name, value, from + 1, i);
    }
}

/// A series that Calibre wrote is the book's.
pub proof fn a_series_is_read_as_calibre_writes_it(
    nodes: Seq<NodeView>,
    i: int,
    content: Seq<char>,
)
    requires
        0 <= i < nodes.len(),
        nodes[i].called("meta"@),
        nodes[i].attribute("name"@) == Some("calibre:series"@),
        nodes[i].attribute("content"@) == Some(content),
        text::trimmed(content).len() > 0,
        forall|j: int|
            0 <= j < i ==> !((#[trigger] nodes[j]).called("meta"@) && nodes[j].attribute("name"@)
                == Some("calibre:series"@)),
    ensures
        described(nodes).series == Some(text::trimmed(content)),
{
    meta_is_found(nodes, "name"@, "calibre:series"@, 0, i);
}

/// Only fonts may be scrambled: every scrambled part of a book that is let through names
/// one of the two ways to scramble a font.
pub proof fn only_fonts_are_let_through(nodes: Seq<NodeView>, from: int, i: int)
    requires
        0 <= from <= i < nodes.len(),
        fonts_only(nodes, from),
        nodes[i].called("EncryptedData"@),
    ensures
        ({
            let method = super::first_inside(nodes, "EncryptionMethod"@, i, i);
            method < nodes.len() && (nodes[method].attribute("Algorithm"@) == Some(
                "http://www.idpf.org/2008/embedding"@,
            ) || nodes[method].attribute("Algorithm"@) == Some("http://ns.adobe.com/pdf/enc#RC"@))
        }),
    decreases i - from,
{
    if from < i {
        only_fonts_are_let_through(nodes, from + 1, i);
    }
}

/// A hexadecimal digit in capital letters.
pub open spec fn capital_digit(n: int) -> u8 {
    if n < 10 {
        (48 + n) as u8
    } else {
        (55 + n) as u8
    }
}

/// Bytes as a reference writes them: each as a percent sign and two digits.
pub open spec fn percented(bytes: Seq<u8>) -> Seq<u8>
    decreases bytes.len(),
{
    if bytes.len() == 0 {
        Seq::empty()
    } else {
        seq![
            37u8,
            capital_digit(bytes[0] as int / 16),
            capital_digit(bytes[0] as int % 16),
        ] + percented(bytes.drop_first())
    }
}

proof fn reading_on(s: Seq<u8>, front: Seq<u8>, from: int)
    requires
        from >= 0,
    ensures
        unescaped(front + s, front.len() + from) == unescaped(s, from),
    decreases s.len() - from,
{
    let whole = front + s;
    if from < s.len() {
        assert(whole[front.len() + from] == s[from]);
        reading_on(s, front, from + 1);
        if s[from] == 37 && from + 2 < s.len() {
            assert(whole[front.len() + from + 1] == s[from + 1]);
            assert(whole[front.len() + from + 2] == s[from + 2]);
            reading_on(s, front, from + 3);
        }
    }
}

proof fn digits_are_text(a: u8, b: u8)
    requires
        a < 128,
        b < 128,
    ensures
        vstd::utf8::valid_utf8(seq![a, b]),
{
    let two = seq![a, b];
    let one = seq![b];
    let none = Seq::<u8>::empty();
    assert(vstd::utf8::valid_utf8(none));
    assert(one.skip(1) =~= none);
    assert(one.subrange(1, 1) =~= none);
    assert(vstd::utf8::valid_utf8(one)) by {
        reveal_with_fuel(vstd::utf8::valid_utf8, 3);
    }
    assert(two.skip(1) =~= one);
    assert(two.subrange(1, 2) =~= one);
    reveal_with_fuel(vstd::utf8::valid_utf8, 3);
}

/// Whatever a reference writes with percent signs is read as what it was.
pub proof fn percent_signs_are_read(bytes: Seq<u8>)
    ensures
        unescaped(percented(bytes), 0) == Ok::<Seq<u8>, Seq<char>>(bytes),
    decreases bytes.len(),
{
    if bytes.len() > 0 {
        let b = bytes[0] as int;
        let rest = percented(bytes.drop_first());
        let front = seq![37u8, capital_digit(b / 16), capital_digit(b % 16)];
        percent_signs_are_read(bytes.drop_first());
        reading_on(rest, front, 0);
        digits_are_text(capital_digit(b / 16), capital_digit(b % 16));
        let whole = front + rest;
        assert(percented(bytes) == whole);
        assert(whole[0] == 37);
        assert(whole[1] == capital_digit(b / 16));
        assert(whole[2] == capital_digit(b % 16));
        assert(seq![bytes[0]] + bytes.drop_first() =~= bytes);
        assert(16 * (b / 16) + b % 16 == b);
        assert(super::escaped_byte(whole[1], whole[2]) == Some(bytes[0]));
    } else {
        assert(bytes =~= Seq::<u8>::empty());
    }
}

/// What has no percent sign is read as it stands.
pub proof fn other_bytes_are_read_as_they_are(s: Seq<u8>, from: int)
    requires
        0 <= from <= s.len(),
        forall|i: int| 0 <= i < s.len() ==> #[trigger] s[i] != 37,
    ensures
        unescaped(s, from) == Ok::<Seq<u8>, Seq<char>>(s.skip(from)),
    decreases s.len() - from,
{
    if from < s.len() {
        other_bytes_are_read_as_they_are(s, from + 1);
        assert(seq![s[from]] + s.skip(from + 1) =~= s.skip(from));
    } else {
        assert(s.skip(from) =~= Seq::<u8>::empty());
    }
}

proof fn first_mark(href: Seq<char>, rest: Seq<char>, from: int)
    requires
        0 <= from <= href.len(),
        forall|i: int| 0 <= i < href.len() ==> #[trigger] href[i] != '#',
    ensures
        text::index_from(href, '#', from) == href.len(),
        text::index_from(href.push('#') + rest, '#', from) == href.len(),
    decreases href.len() - from,
{
    let whole = href.push('#') + rest;
    if from < href.len() {
        assert(whole[from] == href[from]);
        first_mark(href, rest, from + 1);
    } else {
        assert(whole[from] == '#');
    }
}

/// A reference leads to a chapter whatever place in it is meant.
pub proof fn the_place_in_a_chapter_does_not_matter(
    base: Seq<char>,
    href: Seq<char>,
    place: Seq<char>,
)
    requires
        forall|i: int| 0 <= i < href.len() ==> #[trigger] href[i] != '#',
    ensures
        resolved(base, href.push('#') + place) == resolved(base, href),
{
    first_mark(href, place, 0);
    let whole = href.push('#') + place;
    assert(whole.take(href.len() as int) =~= href);
    assert(href.take(href.len() as int) =~= href);
}

/// References are taken from the folder that the package document stands in.
pub proof fn references_start_where_the_package_is(root: Seq<char>, i: int)
    ensures
        base_of(root).len() <= root.len(),
        root.take(base_of(root).len() as int) == base_of(root),
        base_of(root).len() > 0 ==> base_of(root).last() == '/',
        base_of(root).len() <= i < root.len() ==> root[i] != '/',
{
    text::last_index_range(root, '/');
    assert(root.take(base_of(root).len() as int) =~= base_of(root));
}

/// A reference that a book follows stays in the book: no step of the way goes up.
pub proof fn references_stay_in_the_book(base: Seq<char>, href: Seq<char>, path: Seq<char>)
    requires
        resolved(base, href) == Ok::<Seq<char>, Seq<char>>(path),
    ensures
        exists|parts: Seq<Seq<char>>| #[trigger]
            paths::between(parts, "/"@) == path && forall|i: int|
                0 <= i < parts.len() ==> (#[trigger] parts[i]).len() > 0 && parts[i] != "."@
                    && parts[i] != ".."@,
{
    let plain = href.take(text::index_from(href, '#', 0));
    let bytes = unescaped(vstd::utf8::encode_utf8(plain), 0)->Ok_0;
    let way = text::decoded(bytes)->Ok_0;
    let steps = paths::split(base + way, '/');
    paths::laws::what_was_walked_goes_down(steps, true);
    let parts = paths::walked(steps, true)->0;
    assert(paths::between(parts, "/"@) == path);
}

} // verus!
