//! How books are recognized, whatever way they were packed.
use super::{
    by_path, collides, identified, little_endian, member_resource, names_of, package_name,
    passed_over, path_key, read_problem, repacked_copies_are_recognized, resource, resources_of, same_resources,
    Destination, ExistingView, FileEntryView, FolderView, IdentityView, Kind, ListingView,
};
use crate::archive::{bytes_of, members_of, opened, MemberView};
use crate::epub;
use crate::text;
use vstd::prelude::*;
use vstd::utf8::encode_utf8;

verus! {

broadcast use vstd::string::group_string_axioms;

/// Two books are the same edition exactly when they are the same file, or when what is
/// inside both is known and the same.
pub proof fn editions_are_told_by_contents(a: IdentityView, b: IdentityView)
    ensures
        a.matches(b) <==> a.sha256 == b.sha256 || (a.resources is Some && b.resources is Some
            && a.resources->0 == b.resources->0),
{
}

proof fn ends_are_long(n: nat, k: nat)
    ensures
        little_endian(n, k).len() == k,
    decreases k,
{
    if k > 0 {
        ends_are_long(n / 256, (k - 1) as nat);
    }
}

spec fn room(k: nat) -> nat
    decreases k,
{
    if k == 0 {
        1
    } else {
        256 * room((k - 1) as nat)
    }
}

proof fn ends_are_different(a: nat, b: nat, k: nat)
    requires
        a < room(k),
        b < room(k),
        little_endian(a, k) == little_endian(b, k),
    ensures
        a == b,
    decreases k,
{
    if k > 0 {
        let m = (k - 1) as nat;
        let x = little_endian(a, k);
        let y = little_endian(b, k);
        assert(x[0] == (a % 256) as u8);
        assert(y[0] == (b % 256) as u8);
        assert(a % 256 == b % 256);
        assert(x.skip(1) =~= little_endian(a / 256, m));
        assert(y.skip(1) =~= little_endian(b / 256, m));
        ends_are_different(a / 256, b / 256, m);
    }
}

/// What one member adds to what a book is recognized by tells its name and its contents:
/// members that differ in either never add the same.
pub proof fn different_members_are_told_apart(
    name: Seq<char>,
    bytes: Seq<u8>,
    other: Seq<char>,
    more: Seq<u8>,
)
    requires
        bytes.len() <= u64::MAX,
        more.len() <= u64::MAX,
        encode_utf8(name).len() <= u64::MAX,
        encode_utf8(other).len() <= u64::MAX,
        resource(name, bytes.len() as u64, bytes) == resource(other, more.len() as u64, more),
    ensures
        name == other,
        bytes == more,
{
    let a = encode_utf8(name);
    let b = encode_utf8(other);
    let s = resource(name, bytes.len() as u64, bytes);
    let t = resource(other, more.len() as u64, more);
    ends_are_long(a.len(), 8);
    ends_are_long(b.len(), 8);
    ends_are_long(bytes.len(), 8);
    ends_are_long(more.len(), 8);
    reveal_with_fuel(room, 9);
    assert(room(8) == 0x1_0000_0000_0000_0000);
    assert(s.take(8) =~= little_endian(a.len(), 8));
    assert(t.take(8) =~= little_endian(b.len(), 8));
    ends_are_different(a.len(), b.len(), 8);
    let n = a.len() as int;
    assert(s.subrange(8, 8 + n) =~= a);
    assert(t.subrange(8, 8 + n) =~= b);
    vstd::utf8::encode_utf8_decode_utf8(name);
    vstd::utf8::encode_utf8_decode_utf8(other);
    assert(s.skip(16 + n) =~= bytes);
    assert(t.skip(16 + n) =~= more);
}

/// Whether a name leads to the same contents in two archives.
pub open spec fn same_behind(
    a: Seq<u8>,
    members_a: Seq<MemberView>,
    b: Seq<u8>,
    members_b: Seq<MemberView>,
    name: Seq<char>,
) -> bool {
    match (opened(members_a, name), opened(members_b, name)) {
        (Ok(i), Ok(j)) => members_a[i].size == members_b[j].size && bytes_of(
            a,
            i as usize,
            u64::MAX,
        ) == bytes_of(b, j as usize, u64::MAX),
        (Err(_), Err(_)) => true,
        _ => false,
    }
}

/// A book that was packed again is the same edition: where two EPUBs have the same names
/// and the same contents behind each, in whatever order and however compressed, they are
/// recognized alike.
pub proof fn a_book_packed_again_is_the_same(
    a: Seq<u8>,
    members_a: Seq<MemberView>,
    b: Seq<u8>,
    members_b: Seq<MemberView>,
)
    requires
        members_of(a) == Ok::<Seq<MemberView>, Seq<char>>(members_a),
        members_of(b) == Ok::<Seq<MemberView>, Seq<char>>(members_b),
        epub::inspected(a) is None,
        epub::inspected(b) is None,
        names_of(members_a).to_multiset() == names_of(members_b).to_multiset(),
        forall|name: Seq<char>| #[trigger] same_behind(a, members_a, b, members_b, name),
        resources_of(a) is Some,
    ensures
        identified(a).matches(identified(b)),
        resources_of(a) == resources_of(b),
{
    assert(same_behind(a, members_a, b, members_b, "mimetype"@));
    assert(same_behind(a, members_a, b, members_b, "META-INF/container.xml"@));
    assert(package_name(a, members_a) == package_name(b, members_b));
    assert forall|name: Seq<char>| #![trigger names_of(members_a).contains(name)]
        names_of(members_a).contains(name) implies member_resource(
        a,
        members_a,
        package_name(a, members_a),
        name,
    ) == member_resource(b, members_b, package_name(b, members_b), name) by {
        assert(same_behind(a, members_a, b, members_b, name));
        if let Ok(i) = opened(members_a, name) {
            if let Ok(j) = opened(members_b, name) {
                opened_is_named(members_a, name, 0);
                opened_is_named(members_b, name, 0);
            }
        }
    }
    assert(same_resources(a, members_a, b, members_b));
    repacked_copies_are_recognized(a, members_a, b, members_b);
}

proof fn opened_is_named(members: Seq<MemberView>, name: Seq<char>, from: int)
    requires
        0 <= from <= members.len(),
    ensures
        from <= crate::archive::member_at(members, name, from) <= members.len(),
        crate::archive::member_at(members, name, from) < members.len()
            ==> members[crate::archive::member_at(members, name, from)].name == name,
    decreases members.len() - from,
{
    if from < members.len() && members[from].name != name {
        opened_is_named(members, name, from + 1);
    }
}

/// Only a file on a mounted card is removed: never a folder, and never over the network.
pub proof fn only_a_file_on_a_card_is_removed(destination: Destination, file: FileEntryView)
    ensures
        destination.removal_problem(file) is None <==> !file.directory && destination is Card,
{
}

/// Only a file is read, and none that is larger than a book may be.
pub proof fn only_a_file_is_read(file: FileEntryView)
    ensures
        read_problem(file) is None <==> !file.directory && file.size <= 134217728,
{
}

/// What is in a folder is listed there, with its size; and a folder is looked into too.
pub proof fn everything_in_a_folder_is_listed(
    listing: ListingView,
    folder: FolderView,
    name: Seq<char>,
    kind: Kind,
    size: u64,
)
    requires
        folder.depth < u64::MAX,
    ensures
        ({
            let after = listing.with(folder, name, kind, size);
            let path = crate::paths::inside(folder.path, name);
            &&& after.files == listing.files.push(
                FileEntryView { path, size, directory: kind == Kind::Folder },
            )
            &&& kind == Kind::Folder ==> after.pending.len() == listing.pending.len() + 1
                && after.pending.last().path == path && after.pending.last().depth == folder.depth
                + 1
            &&& kind != Kind::Folder ==> after.pending == listing.pending
        }),
{
}

/// A listing is in the order of its paths, and every file is in it once.
pub proof fn a_listing_is_in_order(files: Seq<FileEntryView>, i: int, j: int)
    requires
        0 <= i < j < files.len(),
    ensures
        by_path(files).to_multiset() == files.to_multiset(),
        by_path(files).len() == files.len(),
        !crate::text::before(by_path(files)[j].path, by_path(files)[i].path),
{
    let key = |f: FileEntryView| path_key(f);
    crate::order::sorting_orders_and_keeps(files, key);
    let all = by_path(files);
    assert(!crate::order::by_key(key)(all[j], all[i]));
    crate::text::before_is_total(all[j].path, all[i].path);
}

/// A path is taken when something is there under it, in whatever case.
pub proof fn a_path_is_taken_whatever_its_case(
    entries: Seq<ExistingView>,
    path: Seq<char>,
    i: int,
)
    ensures
        0 <= i < entries.len() && text::lowercase(entries[i].file.path) == text::lowercase(path)
            ==> collides(entries, path),
        (forall|k: int|
            0 <= k < entries.len() ==> text::lowercase((#[trigger] entries[k]).file.path)
                != text::lowercase(path)) ==> !collides(entries, path),
{
}

/// What is hidden, and the folders that the reader and the card keep for themselves, are
/// passed over; other names that do not start with a dot are not.
pub proof fn hidden_names_are_passed_over(name: Seq<char>)
    ensures
        name.len() > 0 && name[0] == '.' ==> passed_over(name),
        text::lowercase(name) == "xtcache"@ ==> passed_over(name),
        text::lowercase(name) == "system volume information"@ ==> passed_over(name),
        name.len() > 0 && name[0] != '.' && text::lowercase(name) != "xtcache"@ && text::lowercase(
            name,
        ) != "system volume information"@ ==> !passed_over(name),
{
}

/// Whether one text of bytes stands in another at a place.
pub open spec fn stands(whole: Seq<u8>, part: Seq<u8>, at: int) -> bool {
    0 <= at && at + part.len() <= whole.len() && whole.subrange(at, at + part.len()) == part
}

proof fn resources_stand(
    data: Seq<u8>,
    members: Seq<MemberView>,
    package: Option<Seq<char>>,
    names: Seq<Seq<char>>,
    from: int,
    i: int,
) -> (at: int)
    requires
        0 <= from <= i < names.len(),
        super::resources_from(data, members, package, names, from) is Some,
    ensures
        member_resource(data, members, package, names[i]) is Some,
        stands(
            super::resources_from(data, members, package, names, from)->0,
            member_resource(data, members, package, names[i])->0,
            at,
        ),
    decreases i - from,
{
    let all = super::resources_from(data, members, package, names, from)->0;
    let first = member_resource(data, members, package, names[from])->0;
    let rest = super::resources_from(data, members, package, names, from + 1)->0;
    assert(all == first + rest);
    let part = member_resource(data, members, package, names[i])->0;
    if i == from {
        assert(all.subrange(0, first.len() as int) =~= first);
        0
    } else {
        let at = resources_stand(data, members, package, names, from + 1, i);
        let n = first.len() as int;
        assert(all.subrange(n + at, n + at + part.len()) =~= rest.subrange(at, at + part.len()));
        n + at
    }
}

/// A book is recognized by everything in it: what each member holds stands in what the
/// book is told by.
pub proof fn every_member_counts(
    data: Seq<u8>,
    members: Seq<MemberView>,
    package: Option<Seq<char>>,
    names: Seq<Seq<char>>,
    i: int,
)
    requires
        0 <= i < names.len(),
        super::resources_from(data, members, package, names, 0) is Some,
    ensures
        member_resource(data, members, package, names[i]) is Some,
        exists|at: int|
            stands(
                super::resources_from(data, members, package, names, 0)->0,
                member_resource(data, members, package, names[i])->0,
                at,
            ),
{
    let at = resources_stand(data, members, package, names, 0, i);
}

} // verus!
