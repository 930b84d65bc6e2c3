//! What a destination holds, and telling whether a book is already there.
use crate::archive;
use crate::archive::{bytes_of, members_of, Member, MemberView};
use crate::crosspoint;
use crate::crosspoint::Reader;
use crate::digest;
use crate::digest::{hex, sha256};
use crate::epub;
use crate::format::Format;
use crate::metadata::{locate, located};
use crate::order;
use crate::paths;
use crate::text;
use crate::values::{result_view, Duplicate};
use vstd::hash_set::StringHashSet;
use vstd::prelude::*;

pub mod laws;

verus! {

broadcast use vstd::string::group_string_axioms;

#[derive(Clone, Debug, PartialEq, Eq)]
pub struct FileEntry {
    pub path: String,
    pub size: u64,
    pub directory: bool,
}

#[verifier::ext_equal]
pub struct FileEntryView {
    pub path: Seq<char>,
    pub size: u64,
    pub directory: bool,
}

impl View for FileEntry {
    type V = FileEntryView;

    open spec fn view(&self) -> FileEntryView {
        FileEntryView { path: self.path@, size: self.size, directory: self.directory }
    }
}

impl DeepView for FileEntry {
    type V = FileEntryView;

    open spec fn deep_view(&self) -> FileEntryView {
        self@
    }
}

impl Duplicate for FileEntry {
    fn duplicate(&self) -> (r: FileEntry) {
        FileEntry { path: self.path.duplicate(), size: self.size, directory: self.directory }
    }
}

/// How a book is recognized: by its exact bytes, or by what is inside it.
#[derive(Clone, Debug, PartialEq, Eq)]
pub struct Identity {
    pub sha256: String,
    pub resources: Option<String>,
}

#[verifier::ext_equal]
pub struct IdentityView {
    pub sha256: Seq<char>,
    pub resources: Option<Seq<char>>,
}

impl View for Identity {
    type V = IdentityView;

    open spec fn view(&self) -> IdentityView {
        IdentityView { sha256: self.sha256@, resources: self.resources.deep_view() }
    }
}

impl DeepView for Identity {
    type V = IdentityView;

    open spec fn deep_view(&self) -> IdentityView {
        self@
    }
}

impl IdentityView {
    pub open spec fn matches(self, other: IdentityView) -> bool {
        self.sha256 == other.sha256 || (self.resources is Some && self.resources
            == other.resources)
    }
}

/// Every book matches itself, and if one matches another the other matches it.
pub proof fn matching_is_mutual(a: IdentityView, b: IdentityView)
    ensures
        a.matches(a),
        a.matches(b) == b.matches(a),
{
}

impl Identity {
    pub fn matches(&self, other: &Identity) -> (r: bool)
        ensures
            r == self@.matches(other@),
    {
        text::same(self.sha256.as_str(), other.sha256.as_str()) || (self.resources.is_some()
            && text::same_option(&self.resources, &other.resources))
    }
}

/// A number as eight bytes, the smallest first.
pub open spec fn little_endian(n: nat, bytes: nat) -> Seq<u8>
    decreases bytes,
{
    if bytes == 0 {
        Seq::empty()
    } else {
        seq![(n % 256) as u8] + little_endian(n / 256, (bytes - 1) as nat)
    }
}

fn push_number(out: &mut Vec<u8>, n: u64)
    ensures
        final(out)@ == old(out)@ + little_endian(n as nat, 8),
{
    let ghost start = out@;
    let mut rest: u64 = n;
    let mut left: u8 = 8;
    while left > 0
        invariant
            left <= 8,
            start + little_endian(n as nat, 8) == out@ + little_endian(rest as nat, left as nat),
        decreases left,
    {
        let ghost before = out@;
        let b: u8 = (rest % 256) as u8;
        out.push(b);
        proof {
            let more = little_endian((rest / 256) as nat, (left - 1) as nat);
            assert(before + (seq![b] + more) =~= before.push(b) + more);
        }
        rest = rest / 256;
        left -= 1;
    }
    proof {
        assert(out@ + Seq::<u8>::empty() =~= out@);
    }
}

fn push_bytes(out: &mut Vec<u8>, bytes: &[u8])
    ensures
        final(out)@ == old(out)@ + bytes@,
{
    let ghost start = out@;
    for i in 0..bytes.len()
        invariant
            out@ == start + bytes@.take(i as int),
    {
        out.push(bytes[i]);
        proof {
            assert(start + bytes@.take(i as int + 1) =~= (start + bytes@.take(i as int)).push(
                bytes@[i as int],
            ));
        }
    }
    proof {
        assert(bytes@.take(bytes@.len() as int) =~= bytes@);
    }
}

/// Where a copy made for a device says so.
pub const MARKER: &'static str = "META-INF/xteink-device-profile.txt";

/// What one member adds to what a book is recognized by.
pub open spec fn resource(name: Seq<char>, size: u64, bytes: Seq<u8>) -> Seq<u8> {
    little_endian(vstd::utf8::encode_utf8(name).len(), 8) + vstd::utf8::encode_utf8(name)
        + little_endian(size as nat, 8) + bytes
}

/// The names of some members.
pub open spec fn names_of(members: Seq<MemberView>) -> Seq<Seq<char>> {
    Seq::new(members.len(), |i: int| members[i].name)
}

pub open spec fn name_key(name: Seq<char>) -> order::SortKeyView {
    order::SortKeyView { late: false, major: name, minor: Seq::empty() }
}

/// The names of some members, in order.
pub open spec fn sorted_names(members: Seq<MemberView>) -> Seq<Seq<char>> {
    order::sorted(names_of(members), order::by_key(|n: Seq<char>| name_key(n)))
}

/// Whether a member is no part of what a book is recognized by: the note on a
/// device copy, and the package document. A correction touches that document
/// alone, so a corrected book and the copies of it already on a device are
/// still one book.
pub open spec fn passing(name: Seq<char>, package: Option<Seq<char>>) -> bool {
    name == MARKER@ || package == Some(name)
}

/// What a member of a name adds to what a book is recognized by; nothing at all
/// when it cannot be read.
pub open spec fn member_resource(
    data: Seq<u8>,
    members: Seq<MemberView>,
    package: Option<Seq<char>>,
    name: Seq<char>,
) -> Option<Seq<u8>> {
    if passing(name, package) {
        Some(Seq::empty())
    } else {
        match archive::opened(members, name) {
            Err(_) => None,
            Ok(i) => if members[i].folder() {
                Some(Seq::empty())
            } else {
                match bytes_of(data, i as usize, u64::MAX) {
                    Err(_) => None,
                    Ok(bytes) => Some(resource(name, members[i].size, bytes)),
                }
            },
        }
    }
}

/// What the names from `from` on add to what a book is recognized by; nothing
/// when one cannot be read.
pub open spec fn resources_from(
    data: Seq<u8>,
    members: Seq<MemberView>,
    package: Option<Seq<char>>,
    names: Seq<Seq<char>>,
    from: int,
) -> Option<Seq<u8>>
    decreases names.len() - from,
{
    if from < 0 || from >= names.len() {
        Some(Seq::empty())
    } else {
        match (
            member_resource(data, members, package, names[from]),
            resources_from(data, members, package, names, from + 1),
        ) {
            (Some(bytes), Some(rest)) => Some(bytes + rest),
            _ => None,
        }
    }
}

fn add_resource(
    out: &mut Vec<u8>,
    data: &[u8],
    members: &Vec<Member>,
    package: &Option<String>,
    name: &str,
) -> (r: bool)
    ensures
        match member_resource(data@, members.deep_view(), package.deep_view(), name@) {
            Some(bytes) => r && final(out)@ == old(out)@ + bytes,
            None => !r,
        },
{
    let is_package = match package {
        Some(package) => text::same(package.as_str(), name),
        None => false,
    };
    if text::same(name, MARKER) || is_package {
        proof {
            assert(out@ + Seq::<u8>::empty() =~= out@);
        }
        return true;
    }
    let i = match archive::open_member(members, name) {
        Ok(i) => i,
        Err(_) => return false,
    };
    assert(members.deep_view()[i as int] == members@[i as int]@);
    if members[i].is_folder() {
        proof {
            assert(out@ + Seq::<u8>::empty() =~= out@);
        }
        return true;
    }
    match archive::contents(data, i, u64::MAX) {
        Err(_) => false,
        Ok(bytes) => {
            let ghost start = out@;
            let encoded = name.as_bytes();
            push_number(out, encoded.len() as u64);
            push_bytes(out, encoded);
            push_number(out, members[i].size);
            push_bytes(out, bytes.as_slice());
            proof {
                assert(out@ =~= start + resource(name@, members@[i as int].size, bytes@));
            }
            true
        },
    }
}

/// Where a book's package document is, as far as that can be told.
pub open spec fn package_name(data: Seq<u8>, members: Seq<MemberView>) -> Option<Seq<char>> {
    match located(data, members) {
        Ok(path) => Some(path),
        Err(_) => None,
    }
}

/// What a book is recognized by beside its exact bytes: the names and contents
/// of everything in it but its package document, whatever way it was packed.
/// Nothing for what is no EPUB.
pub open spec fn resources_of(data: Seq<u8>) -> Option<Seq<char>> {
    match (epub::inspected(data), members_of(data)) {
        (None, Ok(members)) => if archive::opened(members, "mimetype"@) is Ok && archive::opened(
            members,
            "META-INF/container.xml"@,
        ) is Ok {
            match resources_from(
                data,
                members,
                package_name(data, members),
                sorted_names(members),
                0,
            ) {
                Some(bytes) => Some(hex(sha256(bytes))),
                None => None,
            }
        } else {
            None
        },
        _ => None,
    }
}

fn arrange_names(members: &Vec<Member>) -> (r: Vec<String>)
    ensures
        r.deep_view() == sorted_names(members.deep_view()),
{
    let ghost named = names_of(members.deep_view());
    let ghost key = |n: String| name_key(n@);
    let mut out: Vec<String> = Vec::new();
    let mut keys: Vec<order::SortKey> = Vec::new();
    assert(out.deep_view() =~= named.take(0));
    for i in 0..members.len()
        invariant
            named == names_of(members.deep_view()),
            key == (|n: String| name_key(n@)),
            out@.len() == i,
            keys@.len() == i,
            out.deep_view() == named.take(i as int),
            forall|j: int| 0 <= j < i ==> (#[trigger] keys@[j])@ == key(out@[j]),
    {
        let ghost before = out.deep_view();
        let ghost held = out@;
        assert(members.deep_view()[i as int] == members@[i as int]@);
        let name = members[i].name.duplicate();
        let k = order::SortKey {
            late: false,
            major: name.duplicate(),
            minor: String::new(),
        };
        proof {
            assert(k@ =~= name_key(name@));
        }
        let ghost shown = name@;
        out.push(name);
        keys.push(k);
        proof {
            assert(out.deep_view() =~= before.push(shown));
            assert(named.take(i as int + 1) =~= before.push(named[i as int]));
            assert forall|j: int| 0 <= j < i + 1 implies (#[trigger] keys@[j])@ == key(out@[j]) by {
                if j < i {
                    assert(out@[j] == held[j]);
                }
            }
        }
    }
    let ghost all = out@;
    proof {
        assert(named.take(members@.len() as int) =~= named);
        assert(out.deep_view() == named);
    }
    order::arrange(&mut out, keys, Ghost(key));
    proof {
        let view = |n: String| n.deep_view();
        let shown = |n: Seq<char>| name_key(n);
        order::sorted_mapped(all, order::by_key(key), view, order::by_key(shown));
        assert(out.deep_view() =~= order::mapped(out@, view));
        assert(named =~= order::mapped(all, view));
    }
    out
}

fn collect_resources(data: &[u8], members: &Vec<Member>, package: &Option<String>) -> (r: Option<
    Vec<u8>,
>)
    ensures
        match (
            r,
            resources_from(
                data@,
                members.deep_view(),
                package.deep_view(),
                sorted_names(members.deep_view()),
                0,
            ),
        ) {
            (Some(bytes), Some(wanted)) => bytes@ == wanted,
            (None, None) => true,
            _ => false,
        },
{
    let sorted = arrange_names(members);
    let ghost held = members.deep_view();
    let ghost p = package.deep_view();
    let ghost all = sorted.deep_view();
    let ghost goal = resources_from(data@, held, p, all, 0);
    let mut out: Vec<u8> = Vec::new();
    proof {
        if let Some(rest) = goal {
            assert(out@ + rest =~= rest);
        }
    }
    for i in 0..sorted.len()
        invariant
            held == members.deep_view(),
            p == package.deep_view(),
            all == sorted.deep_view(),
            all == sorted_names(held),
            goal == resources_from(data@, held, p, all, 0),
            goal == match resources_from(data@, held, p, all, i as int) {
                Some(rest) => Some(out@ + rest),
                None => None,
            },
    {
        let ghost before = out@;
        assert(all[i as int] == sorted@[i as int]@);
        if !add_resource(&mut out, data, members, package, sorted[i].as_str()) {
            return None;
        }
        proof {
            let bytes = member_resource(data@, held, p, all[i as int])->0;
            if let Some(rest) = resources_from(data@, held, p, all, i as int + 1) {
                assert(before + (bytes + rest) =~= before + bytes + rest);
            }
        }
    }
    proof {
        assert(out@ + Seq::<u8>::empty() =~= out@);
    }
    Some(out)
}

fn find_resources(data: &[u8]) -> (r: Option<String>)
    ensures
        r.deep_view() == resources_of(data@),
{
    if epub::inspect(data).is_err() {
        return None;
    }
    let members = match archive::members(data) {
        Ok(members) => members,
        Err(_) => return None,
    };
    if archive::open_member(&members, "mimetype").is_err() || archive::open_member(
        &members,
        "META-INF/container.xml",
    ).is_err() {
        return None;
    }
    let package = match locate(data, &members) {
        Ok(path) => Some(path),
        Err(_) => None,
    };
    match collect_resources(data, &members, &package) {
        Some(bytes) => Some(digest::fingerprint(bytes.as_slice())),
        None => None,
    }
}

proof fn names_are_ordered(a: Seq<char>, b: Seq<char>, c: Seq<char>)
    ensures
        ({
            let less = order::by_key(|n: Seq<char>| name_key(n));
            &&& !less(a, a)
            &&& !less(a, b) && !less(b, a) ==> a == b
            &&& !less(b, a) && !less(c, b) ==> !less(c, a)
            &&& less(a, b) ==> !less(b, a)
        }),
{
    text::before_is_total(a, a);
    text::before_is_total(a, b);
    text::before_is_total(b, c);
    text::before_is_total(a, c);
    if text::before(a, b) && text::before(b, c) {
        text::before_is_transitive(a, b, c);
    }
    let none = Seq::<char>::empty();
    text::before_is_total(none, none);
}

proof fn sorted_names_agree(a: Seq<MemberView>, b: Seq<MemberView>)
    requires
        names_of(a).to_multiset() == names_of(b).to_multiset(),
    ensures
        sorted_names(a) == sorted_names(b),
{
    let key = |n: Seq<char>| name_key(n);
    let less = order::by_key(key);
    let leq = |x: Seq<char>, y: Seq<char>| !less(y, x);
    order::sorting_orders_and_keeps(names_of(a), key);
    order::sorting_orders_and_keeps(names_of(b), key);
    assert forall|x: Seq<char>, y: Seq<char>, z: Seq<char>|
        #[trigger] leq(x, y) && #[trigger] leq(y, z) implies leq(x, z) by {
        names_are_ordered(x, y, z);
    }
    assert forall|x: Seq<char>, y: Seq<char>| #[trigger] leq(x, y) && #[trigger] leq(y, x) implies x == y by {
        names_are_ordered(x, y, x);
    }
    assert forall|x: Seq<char>| #[trigger] leq(x, x) by {
        names_are_ordered(x, x, x);
    }
    assert forall|x: Seq<char>, y: Seq<char>| #[trigger] leq(x, y) || #[trigger] leq(y, x) by {
        names_are_ordered(x, y, x);
    }
    assert(vstd::relations::total_ordering(leq));
    assert(vstd::relations::sorted_by(sorted_names(a), leq));
    assert(vstd::relations::sorted_by(sorted_names(b), leq));
    vstd::seq_lib::lemma_sorted_unique(sorted_names(a), sorted_names(b), leq);
}

/// Whether two archives hold the same book: the same names, in whatever order,
/// and behind each name the same contents.
pub open spec fn same_resources(
    a: Seq<u8>,
    members_a: Seq<MemberView>,
    b: Seq<u8>,
    members_b: Seq<MemberView>,
) -> bool {
    &&& names_of(members_a).to_multiset() == names_of(members_b).to_multiset()
    &&& forall|name: Seq<char>|
        #![trigger names_of(members_a).contains(name)]
        names_of(members_a).contains(name) ==> member_resource(
            a,
            members_a,
            package_name(a, members_a),
            name,
        ) == member_resource(b, members_b, package_name(b, members_b), name)
}

proof fn same_streams(
    a: Seq<u8>,
    members_a: Seq<MemberView>,
    b: Seq<u8>,
    members_b: Seq<MemberView>,
    names: Seq<Seq<char>>,
    from: int,
)
    requires
        same_resources(a, members_a, b, members_b),
        forall|i: int|
            0 <= i < names.len() ==> names_of(members_a).contains(#[trigger] names[i]),
        0 <= from,
    ensures
        resources_from(a, members_a, package_name(a, members_a), names, from) == resources_from(
            b,
            members_b,
            package_name(b, members_b),
            names,
            from,
        ),
    decreases names.len() - from,
{
    if from < names.len() {
        assert(names_of(members_a).contains(names[from]));
        same_streams(a, members_a, b, members_b, names, from + 1);
    }
}

/// A repacked copy is recognized as the same edition: two sound archives of the
/// same names and contents are recognized alike, whatever order they were
/// packed in and however they were compressed.
pub proof fn repacked_copies_are_recognized(
    a: Seq<u8>,
    members_a: Seq<MemberView>,
    b: Seq<u8>,
    members_b: Seq<MemberView>,
)
    requires
        members_of(a) == Ok::<Seq<MemberView>, Seq<char>>(members_a),
        members_of(b) == Ok::<Seq<MemberView>, Seq<char>>(members_b),
        epub::inspected(a) is None,
        epub::inspected(b) is None,
        archive::opened(members_a, "mimetype"@) is Ok == archive::opened(
            members_b,
            "mimetype"@,
        ) is Ok,
        archive::opened(members_a, "META-INF/container.xml"@) is Ok == archive::opened(
            members_b,
            "META-INF/container.xml"@,
        ) is Ok,
        same_resources(a, members_a, b, members_b),
    ensures
        resources_of(a) == resources_of(b),
        resources_of(a) is Some ==> identified(a).matches(identified(b)),
{
    sorted_names_agree(members_a, members_b);
    let names = sorted_names(members_a);
    order::sorting_orders_and_keeps(names_of(members_a), |n: Seq<char>| name_key(n));
    assert forall|i: int| 0 <= i < names.len() implies names_of(members_a).contains(
        #[trigger] names[i],
    ) by {
        broadcast use vstd::seq_lib::group_to_multiset_ensures;

        assert(names.contains(names[i]));
        assert(names.to_multiset().count(names[i]) > 0);
        assert(names_of(members_a).to_multiset().count(names[i]) > 0);
    }
    same_streams(a, members_a, b, members_b, names, 0);
}

/// How a book is recognized.
pub open spec fn identified(data: Seq<u8>) -> IdentityView {
    IdentityView { sha256: hex(sha256(data)), resources: resources_of(data) }
}

/// Exact bytes, or identical ZIP resource names/content despite repackaging.
/// Title and ISBN alone never prove that two books are the same edition.
pub fn identity(data: &[u8]) -> (r: Identity)
    ensures
        r@ == identified(data@),
{
    Identity { sha256: digest::fingerprint(data), resources: find_resources(data) }
}

/// Whether a listing passes a name over: hidden files, and the folders that the
/// reader and the card keep for themselves.
pub open spec fn passed_over(name: Seq<char>) -> bool {
    ||| name.len() > 0 && name[0] == '.'
    ||| text::lowercase(name) == "xtcache"@
    ||| text::lowercase(name) == "system volume information"@
}

pub fn is_passed_over(name: &str) -> (r: bool)
    ensures
        r == passed_over(name@),
{
    let c = text::chars(name);
    if c.len() > 0 && c[0] == '.' {
        return true;
    }
    let lower = text::to_lowercase(name);
    text::same(lower.as_str(), "xtcache") || text::same(
        lower.as_str(),
        "system volume information",
    )
}

pub open spec fn path_key(f: FileEntryView) -> order::SortKeyView {
    order::SortKeyView { late: false, major: f.path, minor: Seq::empty() }
}

/// A listing in the order of its paths.
pub open spec fn by_path(files: Seq<FileEntryView>) -> Seq<FileEntryView> {
    order::sorted(files, order::by_key(|f: FileEntryView| path_key(f)))
}

pub fn sort_files(files: &mut Vec<FileEntry>)
    ensures
        final(files).deep_view() == by_path(old(files).deep_view()),
{
    let ghost all = files@;
    let ghost key = |f: FileEntry| path_key(f@);
    let mut keys: Vec<order::SortKey> = Vec::new();
    for i in 0..files.len()
        invariant
            files@ == all,
            key == (|f: FileEntry| path_key(f@)),
            keys@.len() == i,
            forall|j: int| 0 <= j < i ==> (#[trigger] keys@[j])@ == key(all[j]),
    {
        let k = order::SortKey {
            late: false,
            major: files[i].path.duplicate(),
            minor: String::new(),
        };
        proof {
            assert(k@ =~= path_key(all[i as int]@));
        }
        keys.push(k);
    }
    order::arrange(files, keys, Ghost(key));
    proof {
        let view = |f: FileEntry| f.deep_view();
        let shown = |f: FileEntryView| path_key(f);
        order::sorted_mapped(all, order::by_key(key), view, order::by_key(shown));
        assert(files.deep_view() =~= order::mapped(files@, view));
        assert(old(files).deep_view() =~= order::mapped(all, view));
    }
}

/// Something a destination holds, and how it is recognized when it is a book.
#[derive(Clone, Debug)]
pub struct Existing {
    pub file: FileEntry,
    pub identity: Option<Identity>,
}

#[verifier::ext_equal]
pub struct ExistingView {
    pub file: FileEntryView,
    pub identity: Option<IdentityView>,
}

impl View for Existing {
    type V = ExistingView;

    open spec fn view(&self) -> ExistingView {
        ExistingView { file: self.file@, identity: self.identity.deep_view() }
    }
}

impl DeepView for Existing {
    type V = ExistingView;

    open spec fn deep_view(&self) -> ExistingView {
        self@
    }
}

#[derive(Clone, Debug)]
pub struct Inventory {
    pub entries: Vec<Existing>,
}

impl View for Inventory {
    type V = Seq<ExistingView>;

    open spec fn view(&self) -> Seq<ExistingView> {
        self.entries.deep_view()
    }
}

/// Whether a file's contents are read to recognize it.
pub open spec fn recognized(file: FileEntryView) -> bool {
    !file.directory && Format::claimed(file.path) is Some
}

/// Whether a path is taken already, in whatever case.
pub open spec fn collides(entries: Seq<ExistingView>, path: Seq<char>) -> bool {
    exists|i: int|
        0 <= i < entries.len() && text::lowercase(#[trigger] entries[i].file.path)
            == text::lowercase(path)
}

/// Whether an entry is one of the books looked for.
pub open spec fn one_of(entry: ExistingView, wanted: Seq<IdentityView>) -> bool {
    entry.identity matches Some(id) && exists|i: int|
        0 <= i < wanted.len() && id.matches(#[trigger] wanted[i])
}

/// The first entry from `from` on that is one of the books, or the length.
pub open spec fn matching_at(entries: Seq<ExistingView>, wanted: Seq<IdentityView>, from: int) -> int
    decreases entries.len() - from,
{
    if from < 0 || from >= entries.len() {
        entries.len() as int
    } else if one_of(entries[from], wanted) {
        from
    } else {
        matching_at(entries, wanted, from + 1)
    }
}

/// The first entry from `from` on at a path, in whatever case, or the length.
pub open spec fn path_at(entries: Seq<ExistingView>, path: Seq<char>, from: int) -> int
    decreases entries.len() - from,
{
    if from < 0 || from >= entries.len() {
        entries.len() as int
    } else if text::lowercase(entries[from].file.path) == text::lowercase(path) {
        from
    } else {
        path_at(entries, path, from + 1)
    }
}

impl Inventory {
    pub fn empty() -> (r: Inventory)
        ensures
            r@ == Seq::<ExistingView>::empty(),
    {
        let r = Inventory { entries: Vec::new() };
        proof {
            assert(r@ =~= Seq::<ExistingView>::empty());
        }
        r
    }

    /// Whether a listed file has to be read to recognize it.
    pub fn wants(file: &FileEntry) -> (r: bool)
        ensures
            r == recognized(file@),
    {
        !file.directory && Format::of(file.path.as_str()).is_some()
    }

    pub fn matching(&self, identities: &[&Identity]) -> (r: Option<&Existing>)
        ensures
            ({
                let at = matching_at(self@, identities.deep_view(), 0);
                match r {
                    Some(existing) => at < self@.len() && existing@ == self@[at],
                    None => at == self@.len(),
                }
            }),
    {
        let ghost wanted = identities.deep_view();
        let mut i: usize = 0;
        while i < self.entries.len()
            invariant
                i <= self.entries@.len(),
                wanted == identities.deep_view(),
                matching_at(self@, wanted, 0) == matching_at(self@, wanted, i as int),
            decreases self.entries@.len() - i,
        {
            assert(self@[i as int] == self.entries@[i as int]@);
            if let Some(id) = &self.entries[i].identity {
                let mut j: usize = 0;
                while j < identities.len()
                    invariant
                        i < self.entries@.len(),
                        j <= identities@.len(),
                        wanted == identities.deep_view(),
                        self@[i as int].identity == Some(id@),
                        self@[i as int] == self.entries@[i as int]@,
                        matching_at(self@, wanted, 0) == matching_at(self@, wanted, i as int),
                        forall|k: int| 0 <= k < j ==> !id@.matches(#[trigger] wanted[k]),
                    decreases identities@.len() - j,
                {
                    assert(wanted[j as int] == identities@[j as int]@);
                    if id.matches(identities[j]) {
                        assert(one_of(self@[i as int], wanted));
                        return Some(&self.entries[i]);
                    }
                    j += 1;
                }
            }
            i += 1;
        }
        None
    }

    pub fn at(&self, path: &str) -> (r: Option<&Existing>)
        ensures
            ({
                let at = path_at(self@, path@, 0);
                match r {
                    Some(existing) => at < self@.len() && existing@ == self@[at],
                    None => at == self@.len(),
                }
            }),
            r is Some == collides(self@, path@),
    {
        let wanted = text::to_lowercase(path);
        let mut i: usize = 0;
        while i < self.entries.len()
            invariant
                i <= self.entries@.len(),
                wanted@ == text::lowercase(path@),
                path_at(self@, path@, 0) == path_at(self@, path@, i as int),
                forall|j: int|
                    0 <= j < i ==> text::lowercase(#[trigger] self@[j].file.path)
                        != text::lowercase(path@),
            decreases self.entries@.len() - i,
        {
            assert(self@[i as int] == self.entries@[i as int]@);
            let here = text::to_lowercase(self.entries[i].file.path.as_str());
            if text::same(here.as_str(), wanted.as_str()) {
                assert(text::lowercase(self@[i as int].file.path) == text::lowercase(path@));
                return Some(&self.entries[i]);
            }
            i += 1;
        }
        None
    }
}

/// A destination being recognized, entry by entry, with the paths that are
/// taken already.
pub struct Gathering {
    pub taken: StringHashSet,
    pub entries: Vec<Existing>,
}

#[verifier::ext_equal]
pub struct GatheringView {
    pub taken: Set<Seq<char>>,
    pub entries: Seq<ExistingView>,
}

impl View for Gathering {
    type V = GatheringView;

    open spec fn view(&self) -> GatheringView {
        GatheringView { taken: self.taken@, entries: self.entries.deep_view() }
    }
}

impl Gathering {
    /// The paths that are taken are those of the entries, in small letters.
    pub open spec fn wf(&self) -> bool {
        forall|s: Seq<char>| #[trigger] self@.taken.contains(s) <==> lowers_to(self@.entries, s)
    }

    pub fn new() -> (r: Gathering)
        ensures
            r@.entries == Seq::<ExistingView>::empty(),
            r.wf(),
    {
        let r = Gathering { taken: StringHashSet::new(), entries: Vec::new() };
        proof {
            assert(r@.entries =~= Seq::<ExistingView>::empty());
        }
        r
    }

    /// Take one listed file in, with how it is recognized. Two paths that
    /// differ only in case cannot both be kept on a card.
    pub fn scan(&mut self, file: FileEntry, identity: Option<Identity>) -> (r: Result<(), String>)
        requires
            old(self).wf(),
        ensures
            final(self).wf(),
            collides(old(self)@.entries, file@.path) ==> final(self)@ == old(self)@ && r is Err
                && r->Err_0@ == "Case-colliding entries in destination: "@ + file@.path,
            !collides(old(self)@.entries, file@.path) ==> r is Ok && final(self)@.entries == old(self)@.entries.push(
                (ExistingView { file: file@, identity: identity.deep_view() }),
            ),
    {
        let lower = text::to_lowercase(file.path.as_str());
        let ghost key = lower@;
        proof {
            assert(self@.taken.contains(key) <==> lowers_to(self@.entries, key));
            if collides(self@.entries, file@.path) {
                let i = choose|i: int|
                    0 <= i < self@.entries.len() && text::lowercase(#[trigger] self@.entries[i].file.path)
                        == text::lowercase(file@.path);
                assert(lowers_to(self@.entries, key));
            }
        }
        if self.taken.contains(lower.as_str()) {
            return Err(
                text::concat("Case-colliding entries in destination: ", file.path.as_str()),
            );
        }
        let ghost before = self@.entries;
        let ghost start = self@;
        let ghost put = ExistingView { file: file@, identity: identity.deep_view() };
        self.taken.insert(lower);
        self.entries.push(Existing { file, identity });
        proof {
            assert(self@.entries =~= before.push(put));
            assert forall|s: Seq<char>| #[trigger] self@.taken.contains(s) <==> lowers_to(self@.entries, s) by {
                assert(start.taken.contains(s) <==> lowers_to(before, s));
                if lowers_to(before, s) {
                    let i = choose|i: int|
                        0 <= i < before.len() && text::lowercase(#[trigger] before[i].file.path)
                            == s;
                    assert(self@.entries[i].file.path == before[i].file.path);
                }
                if lowers_to(self@.entries, s) {
                    let i = choose|i: int|
                        0 <= i < self@.entries.len() && text::lowercase(#[trigger] self@.entries[i].file.path) == s;
                    if i < before.len() {
                        assert(before[i].file.path == self@.entries[i].file.path);
                    }
                }
                assert(self@.entries[before.len() as int].file.path == file@.path);
            }
        }
        Ok(())
    }

    pub fn finish(self) -> (r: Inventory)
        ensures
            r@ == self@.entries,
    {
        Inventory { entries: self.entries }
    }
}

/// Whether the path of some entry is this one in small letters.
pub open spec fn lowers_to(entries: Seq<ExistingView>, s: Seq<char>) -> bool {
    exists|i: int| 0 <= i < entries.len() && text::lowercase(#[trigger] entries[i].file.path) == s
}

/// What stands at a name in a folder.
#[derive(Clone, Copy, Debug, PartialEq, Eq, Structural)]
pub enum Kind {
    File,
    Folder,
    Link,
    Other,
}

/// How deep a listing goes.
pub const MAX_DEPTH: u64 = 32;

/// How many entries a listing holds.
pub const MAX_ENTRIES: usize = 20000;

/// A folder still to be listed, and how deep it lies.
#[derive(Clone, Debug)]
pub struct Folder {
    pub path: String,
    pub depth: u64,
}

#[verifier::ext_equal]
pub struct FolderView {
    pub path: Seq<char>,
    pub depth: u64,
}

impl View for Folder {
    type V = FolderView;

    open spec fn view(&self) -> FolderView {
        FolderView { path: self.path@, depth: self.depth }
    }
}

impl DeepView for Folder {
    type V = FolderView;

    open spec fn deep_view(&self) -> FolderView {
        self@
    }
}

/// A destination being listed, folder by folder. Whoever lists it asks for the
/// `next` folder, and hands in what stands there with `enter`.
#[derive(Clone, Debug)]
pub struct Listing {
    pub card: bool,
    pub pending: Vec<Folder>,
    pub files: Vec<FileEntry>,
}

#[verifier::ext_equal]
pub struct ListingView {
    pub card: bool,
    pub pending: Seq<FolderView>,
    pub files: Seq<FileEntryView>,
}

impl View for Listing {
    type V = ListingView;

    open spec fn view(&self) -> ListingView {
        ListingView {
            card: self.card,
            pending: self.pending.deep_view(),
            files: self.files.deep_view(),
        }
    }
}

impl ListingView {
    /// A listing that has nothing in it and a base still to be listed.
    pub open spec fn begun(card: bool, base: Seq<char>) -> ListingView {
        ListingView { card, pending: seq![FolderView { path: base, depth: 0 }], files: Seq::empty() }
    }

    /// Whether a name is refused, and with which words. `shown` is where it
    /// stands in the words of the one who reads the listing.
    pub open spec fn problem(self, name: Seq<char>, kind: Kind, shown: Seq<char>) -> Option<
        Seq<char>,
    > {
        if self.card {
            match kind {
                Kind::Link => Some("Inventory refuses symlink: "@ + shown),
                Kind::Other => Some("Inventory refuses special filesystem entries"@),
                _ => None,
            }
        } else if crosspoint::takes(name) {
            None
        } else {
            Some(crosspoint::refused_name(name))
        }
    }

    /// The listing with one more entry in it, and its folder to be listed later.
    pub open spec fn with(self, folder: FolderView, name: Seq<char>, kind: Kind, size: u64) -> ListingView {
        let path = paths::inside(folder.path, name);
        ListingView {
            pending: if kind == Kind::Folder {
                self.pending.push(FolderView { path, depth: (folder.depth + 1) as u64 })
            } else {
                self.pending
            },
            files: self.files.push(
                FileEntryView { path, size, directory: kind == Kind::Folder },
            ),
            ..self
        }
    }

    /// What a listing keeps while it is made: its bounds, and that everything
    /// in it lies below its base and is a name that is not passed over.
    pub open spec fn sound(self, base: Seq<char>) -> bool {
        &&& self.files.len() <= MAX_ENTRIES
        &&& forall|i: int|
            0 <= i < self.files.len() ==> below(base, #[trigger] self.files[i].path)
        &&& forall|i: int|
            0 <= i < self.pending.len() ==> ((#[trigger] self.pending[i]).path == base || below(
                base,
                self.pending[i].path,
            )) && self.pending[i].depth <= MAX_DEPTH + 1
    }
}

/// Whether a path leads further down from a folder.
pub open spec fn below(base: Seq<char>, path: Seq<char>) -> bool {
    &&& path.len() > paths::bare(base).len()
    &&& path.take(paths::bare(base).len() as int) == paths::bare(base)
}

proof fn bare_is_start(s: Seq<char>)
    ensures
        paths::bare(s).len() <= s.len(),
        paths::bare(s) == s.take(paths::bare(s).len() as int),
    decreases s.len(),
{
    if s.len() > 0 && s.last() == '/' {
        bare_is_start(s.drop_last());
        assert(s.drop_last().take(paths::bare(s).len() as int) =~= s.take(
            paths::bare(s).len() as int,
        ));
    } else {
        assert(s.take(s.len() as int) =~= s);
    }
}

proof fn bare_keeps_start(s: Seq<char>, n: int)
    requires
        0 <= n < s.len(),
        n == 0 || s[n - 1] != '/',
    ensures
        n <= paths::bare(s).len(),
    decreases s.len(),
{
    reveal_with_fuel(paths::bare, 2);
    if s.last() == '/' && n < s.len() - 1 {
        bare_keeps_start(s.drop_last(), n);
    }
}

proof fn bare_ends_bare(s: Seq<char>)
    ensures
        paths::bare(s).len() > 0 ==> paths::bare(s).last() != '/',
    decreases s.len(),
{
    if s.len() > 0 && s.last() == '/' {
        bare_ends_bare(s.drop_last());
    }
}

/// A name in a folder that is the base, or below it, is below the base.
pub proof fn names_lead_down(base: Seq<char>, folder: Seq<char>, name: Seq<char>)
    requires
        folder == base || below(base, folder),
    ensures
        below(base, paths::inside(folder, name)),
{
    let b = paths::bare(base);
    let f = paths::bare(folder);
    bare_is_start(base);
    bare_is_start(folder);
    bare_ends_bare(base);
    if folder != base {
        if b.len() > 0 {
            assert(folder.take(b.len() as int)[b.len() - 1] == folder[b.len() - 1]);
        }
        bare_keeps_start(folder, b.len() as int);
        assert(f.take(b.len() as int) =~= folder.take(b.len() as int));
    }
    reveal_strlit("/");
    assert(paths::inside(folder, name).take(b.len() as int) =~= f.take(b.len() as int));
    assert(f.take(f.len() as int) =~= f);
}

/// Whatever is entered, a listing keeps to its bounds and to its base.
pub proof fn listings_stay_sound(
    listing: ListingView,
    base: Seq<char>,
    folder: FolderView,
    name: Seq<char>,
    kind: Kind,
    size: u64,
)
    requires
        listing.sound(base),
        listing.files.len() < MAX_ENTRIES,
        folder.path == base || below(base, folder.path),
        folder.depth <= MAX_DEPTH,
    ensures
        ListingView::begun(listing.card, base).sound(base),
        listing.with(folder, name, kind, size).sound(base),
{
    names_lead_down(base, folder.path, name);
    let after = listing.with(folder, name, kind, size);
    assert forall|i: int| 0 <= i < after.files.len() implies below(
        base,
        #[trigger] after.files[i].path,
    ) by {
        if i < listing.files.len() {
            assert(after.files[i] == listing.files[i]);
        }
    }
    assert forall|i: int| 0 <= i < after.pending.len() implies ((
    #[trigger] after.pending[i]).path == base || below(base, after.pending[i].path))
        && after.pending[i].depth <= MAX_DEPTH + 1 by {
        if i < listing.pending.len() {
            assert(after.pending[i] == listing.pending[i]);
        }
    }
}

impl Listing {
    pub fn new(card: bool, base: &str) -> (r: Listing)
        ensures
            r@ == ListingView::begun(card, base@),
    {
        let mut pending: Vec<Folder> = Vec::new();
        pending.push(Folder { path: base.to_owned(), depth: 0 });
        let r = Listing { card, pending, files: Vec::new() };
        proof {
            assert(r@ =~= ListingView::begun(card, base@));
        }
        r
    }

    /// The folder to list next, the last one found first; nothing at the end.
    pub fn next(&mut self) -> (r: Result<Option<Folder>, String>)
        ensures
            old(self)@.pending.len() == 0 ==> final(self)@ == old(self)@ && r is Ok && r->Ok_0
                is None,
            old(self)@.pending.len() > 0 ==> final(self)@ == (ListingView {
                pending: old(self)@.pending.drop_last(),
                ..old(self)@
            }) && if old(self)@.pending.last().depth <= MAX_DEPTH {
                result_view(r) == Ok::<Option<FolderView>, Seq<char>>(
                    Some(old(self)@.pending.last()),
                )
            } else {
                r is Err && r->Err_0@ == (if old(self)@.card {
                    "Card directory tree is too deep"@
                } else {
                    "Reader directory tree is too deep"@
                })
            },
    {
        let ghost before = self@;
        match self.pending.pop() {
            None => Ok(None),
            Some(folder) => {
                proof {
                    assert(self@.pending =~= before.pending.drop_last());
                    assert(before.pending.last() == folder@);
                }
                if folder.depth <= MAX_DEPTH {
                    Ok(Some(folder))
                } else if self.card {
                    Err("Card directory tree is too deep".to_owned())
                } else {
                    Err("Reader directory tree is too deep".to_owned())
                }
            },
        }
    }

    /// Enter what stands at a name in a folder. `shown` is how that place is
    /// called in a refusal.
    pub fn enter(&mut self, folder: &Folder, name: &str, kind: Kind, size: u64, shown: &str) -> (r:
        Result<(), String>)
        requires
            folder.depth <= MAX_DEPTH,
        ensures
            passed_over(name@) ==> r is Ok && final(self)@ == old(self)@,
            !passed_over(name@) ==> match old(self)@.problem(name@, kind, shown@) {
                Some(words) => final(self)@ == old(self)@ && r is Err && r->Err_0@ == words,
                None => final(self)@ == old(self)@.with(folder@, name@, kind, size)
                    && if old(self)@.files.len() < MAX_ENTRIES {
                    r is Ok
                } else {
                    r is Err && r->Err_0@ == (if old(self)@.card {
                        "Card inventory exceeds 20000 entries"@
                    } else {
                        "Reader inventory exceeds 20000 entries"@
                    })
                },
            },
    {
        if is_passed_over(name) {
            return Ok(());
        }
        let ghost before = self@;
        if self.card {
            match kind {
                Kind::Link => return Err(text::concat("Inventory refuses symlink: ", shown)),
                Kind::Other => return Err(
                    "Inventory refuses special filesystem entries".to_owned(),
                ),
                _ => {},
            }
        } else {
            match crosspoint::valid_component(name) {
                Ok(()) => {},
                Err(words) => return Err(words),
            }
        }
        let path = paths::join(folder.path.as_str(), name);
        let ghost shown_path = path@;
        if kind == Kind::Folder {
            let further = Folder { path: path.duplicate(), depth: folder.depth + 1 };
            let ghost further_view = further@;
            self.pending.push(further);
            proof {
                assert(self@.pending =~= before.pending.push(further_view));
            }
        }
        self.files.push(FileEntry { path, size, directory: kind == Kind::Folder });
        proof {
            assert(self@.files =~= before.files.push(
                FileEntryView { path: shown_path, size, directory: kind == Kind::Folder },
            ));
            assert(self@ =~= before.with(folder@, name@, kind, size));
        }
        if self.files.len() <= MAX_ENTRIES {
            Ok(())
        } else if self.card {
            Err("Card inventory exceeds 20000 entries".to_owned())
        } else {
            Err("Reader inventory exceeds 20000 entries".to_owned())
        }
    }

    /// What was listed, in the order of the paths.
    pub fn finish(self) -> (r: Vec<FileEntry>)
        ensures
            r.deep_view() == by_path(self@.files),
    {
        let mut files = self.files;
        sort_files(&mut files);
        files
    }
}

/// Where books go: a reader over the network, or its card in this computer.
#[derive(Clone, Debug)]
pub enum Destination {
    Reader(Reader),
    Card(String),
}

/// Why a file is not read at all.
pub open spec fn read_problem(file: FileEntryView) -> Option<Seq<char>> {
    if !file.directory && file.size <= epub::MAX_BOOK_BYTES {
        None
    } else {
        Some("Cannot read oversized/directory inventory entry: "@ + file.path)
    }
}

impl Destination {
    pub open spec fn root(self) -> Seq<char> {
        match self {
            Destination::Reader(reader) => reader@.folder,
            Destination::Card(_) => "/"@,
        }
    }

    /// Why a file is not removed from here. A reader reached over Wi-Fi cannot:
    /// this protocol uploads, downloads, renames and lists, and has no delete.
    pub open spec fn removal_problem(self, file: FileEntryView) -> Option<Seq<char>> {
        if file.directory {
            Some("Refusing to remove a directory"@)
        } else if self is Reader {
            Some(
                "Deleting over Wi-Fi is not supported by the reader's protocol; mount its card and use --copy-to, or delete on the device"@,
            )
        } else {
            None
        }
    }

    pub fn base(&self) -> (r: &str)
        ensures
            r@ == self.root(),
    {
        match self {
            Destination::Reader(reader) => reader.folder(),
            Destination::Card(_) => "/",
        }
    }

    /// A listing of this destination, not yet begun.
    pub fn files(&self) -> (r: Listing)
        ensures
            r@ == ListingView::begun(*self is Card, self.root()),
    {
        Listing::new(matches!(self, Destination::Card(_)), self.base())
    }

    /// Whether one file may be deleted here.
    pub fn remove(&self, file: &FileEntry) -> (r: Result<(), String>)
        ensures
            result_view(r) == epub::refused(self.removal_problem(file@)),
    {
        if file.directory {
            return Err("Refusing to remove a directory".to_owned());
        }
        match self {
            Destination::Reader(_) => Err(
                "Deleting over Wi-Fi is not supported by the reader's protocol; mount its card and use --copy-to, or delete on the device".to_owned(),
            ),
            Destination::Card(_) => Ok(()),
        }
    }

    /// Whether one file may be read.
    pub fn read(&self, file: &FileEntry) -> (r: Result<(), String>)
        ensures
            result_view(r) == epub::refused(read_problem(file@)),
    {
        if !file.directory && file.size <= epub::MAX_BOOK_BYTES {
            Ok(())
        } else {
            Err(
                text::concat(
                    "Cannot read oversized/directory inventory entry: ",
                    file.path.as_str(),
                ),
            )
        }
    }

    /// What was read of a file of the card, when it is as long as was listed.
    pub fn on_disk(file: &FileEntry, bytes: Vec<u8>) -> (r: Result<Vec<u8>, String>)
        ensures
            archive::bytes_view(r) == if bytes@.len() == file.size {
                Ok(bytes@)
            } else {
                Err("Card file changed during inventory: "@ + file@.path)
            },
    {
        if bytes.len() as u64 == file.size {
            Ok(bytes)
        } else {
            Err(text::concat("Card file changed during inventory: ", file.path.as_str()))
        }
    }

    /// The steps from the root of the card down to an entry, refusing anything
    /// that escapes the card.
    pub fn on_card(path: &str) -> (r: Result<Vec<String>, String>)
        ensures
            result_view(r) == match card_steps(path@) {
                Some(steps) => Ok(steps),
                None => Err("Invalid card path"@),
            },
    {
        let c = text::chars(path);
        if c.len() == 0 || c[0] != '/' {
            return Err("Invalid card path".to_owned());
        }
        let rest = text::slice(c.as_slice(), 1, c.len());
        proof {
            assert(rest@ =~= path@.skip(1));
        }
        let parts = paths::pieces(rest.as_str(), '/');
        let ghost all = parts.deep_view();
        let mut steps: Vec<String> = Vec::new();
        proof {
            assert(all.take(0) =~= Seq::<Seq<char>>::empty());
            assert(steps.deep_view() =~= Seq::<Seq<char>>::empty());
        }
        for i in 0..parts.len()
            invariant
                all == parts.deep_view(),
                path@.len() > 0,
                path@[0] == '/',
                rest@ == path@.skip(1),
                all == paths::split(path@.skip(1), '/'),
                steps.deep_view() == named_parts(all.take(i as int)),
                forall|j: int| 0 <= j < i ==> (#[trigger] all[j]) != ".."@,
                i > 0 ==> !(leads_off(all, rest@.len() > 0)),
        {
            let ghost so_far = steps.deep_view();
            let part = parts[i].as_str();
            proof {
                assert(all.take(i as int + 1).drop_last() =~= all.take(i as int));
                assert(all[i as int] == part@);
            }
            if i == 0 && (text::same(part, ".") || (part.is_empty() && !rest.as_str().is_empty())) {
                return Err("Invalid card path".to_owned());
            }
            if text::same(part, "..") {
                assert(all.contains(".."@));
                return Err("Invalid card path".to_owned());
            }
            if !part.is_empty() && !text::same(part, ".") {
                steps.push(part.to_owned());
                proof {
                    assert(steps.deep_view() =~= so_far.push(part@));
                }
            }
        }
        proof {
            assert(all.take(all.len() as int) =~= all);
            paths::split_has_a_piece(path@.skip(1), '/');
        }
        Ok(steps)
    }
}

/// The parts that name something.
pub open spec fn named_parts(parts: Seq<Seq<char>>) -> Seq<Seq<char>>
    decreases parts.len(),
{
    if parts.len() == 0 {
        Seq::empty()
    } else if paths::counts(parts.last()) {
        named_parts(parts.drop_last()).push(parts.last())
    } else {
        named_parts(parts.drop_last())
    }
}

/// Whether the first part of a path starts somewhere else.
pub open spec fn leads_off(parts: Seq<Seq<char>>, some: bool) -> bool {
    parts.len() > 0 && (parts[0] == "."@ || (parts[0].len() == 0 && some))
}

/// The steps down to an entry of the card, or nothing for a path that does not
/// simply lead down.
pub open spec fn card_steps(path: Seq<char>) -> Option<Seq<Seq<char>>> {
    let parts = paths::split(path.skip(1), '/');
    if path.len() == 0 || path[0] != '/' || leads_off(parts, path.len() > 1) || parts.contains(
        ".."@,
    ) {
        None
    } else {
        Some(named_parts(parts))
    }
}

/// Every step down to an entry of the card names something in the folder it is
/// taken in: no step stays, and none goes up.
pub proof fn card_steps_lead_down(path: Seq<char>)
    ensures
        card_steps(path) matches Some(steps) ==> forall|i: int|
            0 <= i < steps.len() ==> paths::counts(#[trigger] steps[i]) && steps[i] != ".."@,
{
    if let Some(steps) = card_steps(path) {
        let parts = paths::split(path.skip(1), '/');
        named_parts_are_parts(parts);
        assert forall|i: int| 0 <= i < steps.len() implies paths::counts(#[trigger] steps[i])
            && steps[i] != ".."@ by {
            assert(parts.contains(steps[i]));
        }
    }
}

proof fn named_parts_are_parts(parts: Seq<Seq<char>>)
    ensures
        forall|i: int|
            0 <= i < named_parts(parts).len() ==> parts.contains(#[trigger] named_parts(parts)[i])
                && paths::counts(named_parts(parts)[i]),
    decreases parts.len(),
{
    if parts.len() > 0 {
        named_parts_are_parts(parts.drop_last());
        let inner = named_parts(parts.drop_last());
        assert forall|i: int| 0 <= i < named_parts(parts).len() implies parts.contains(
            #[trigger] named_parts(parts)[i],
        ) && paths::counts(named_parts(parts)[i]) by {
            if i < inner.len() {
                assert(named_parts(parts)[i] == inner[i]);
                let j = choose|j: int|
                    0 <= j < parts.drop_last().len() && parts.drop_last()[j] == inner[i];
                assert(parts[j] == inner[i]);
            } else {
                assert(parts[parts.len() - 1] == named_parts(parts)[i]);
            }
        }
    }
}

} // verus!
