//! An activation is taken as a whole, and a request is put away once.
use super::{
    activation_member, activation_of, archive_name, installable, named_count, named_last, published,
    state_dir, tail, token_problem,
};
use crate::archive::{bytes_of, members_of, MemberView};
use crate::digest::{hex, sha256};
use crate::epub;
use crate::names;
use crate::paths;
use crate::text;
use crate::xml::NodeView;
use vstd::prelude::*;

verus! {

broadcast use vstd::string::group_string_axioms;

/// Whether a member of an export is a file of that name, in whatever folder.
pub open spec fn is_file(member: MemberView, file: Seq<char>) -> bool {
    member.name == file || (member.name.len() > file.len() && text::ends(member.name, file)
        && member.name[member.name.len() - file.len() - 1] == '/')
}

proof fn tails_are_files(name: Seq<char>, file: Seq<char>)
    requires
        forall|i: int| 0 <= i < file.len() ==> #[trigger] file[i] != '/',
    ensures
        tail(name) == file <==> name == file || (name.len() > file.len() && text::ends(name, file)
            && name[name.len() - file.len() - 1] == '/'),
{
    text::last_index_range(name, '/');
    let at = text::last_index(name, '/');
    let n = name.len() - file.len();
    if tail(name) == file {
        if at < 0 {
            assert(name.skip(0) =~= name);
        } else {
            assert(n == at + 1);
            assert(name.subrange(n, name.len() as int) =~= name.skip(n));
        }
    }
    if name == file {
        if at >= 0 {
            assert(file[at] == '/');
        }
        assert(name.skip(0) =~= name);
    } else if name.len() > file.len() && text::ends(name, file) && name[n - 1] == '/' {
        assert(name.subrange(n, name.len() as int) == file);
        if at > n - 1 {
            assert(name.subrange(n, name.len() as int)[at - n] == name[at]);
        }
        assert(at == n - 1);
        assert(name.skip(n) =~= name.subrange(n, name.len() as int));
    }
}

proof fn counted(members: Seq<MemberView>, file: Seq<char>, n: int)
    requires
        0 <= n <= members.len(),
        forall|i: int| 0 <= i < file.len() ==> #[trigger] file[i] != '/',
    ensures
        named_count(members, file, n) == 0 ==> forall|i: int|
            0 <= i < n ==> !is_file(#[trigger] members[i], file),
        named_count(members, file, n) == 1 ==> {
            let at = named_last(members, file, n);
            &&& 0 <= at < n
            &&& is_file(members[at], file)
            &&& forall|i: int| 0 <= i < n && i != at ==> !is_file(#[trigger] members[i], file)
        },
    decreases n,
{
    if n > 0 {
        counted(members, file, n - 1);
        tails_are_files(members[n - 1].name, file);
    }
}

/// A file of an activation is the only one of its name in the export, whole and no link.
pub proof fn a_file_is_taken_as_it_is(data: Seq<u8>, file: Seq<char>)
    requires
        installable(data, file) is Ok,
        forall|i: int| 0 <= i < file.len() ==> #[trigger] file[i] != '/',
    ensures
        ({
            let members = members_of(data)->Ok_0;
            let bytes = installable(data, file)->Ok_0;
            exists|at: int|
                0 <= at < members.len() && is_file(#[trigger] members[at], file) && (forall|i: int|
                    0 <= i < members.len() && i != at ==> !is_file(#[trigger] members[i], file))
                    && bytes_of(data, at as usize, 8388609) == Ok::<Seq<u8>, Seq<char>>(bytes)
                    && bytes.len() <= 8388608 && (members[at].mode matches Some(mode) ==> (mode
                    / 4096) % 16 != 10) && (file == "devicesalt"@ ==> bytes.len() == 16)
        }),
{
    let members = members_of(data)->Ok_0;
    counted(members, file, members.len() as int);
    let at = activation_member(members, file)->0;
    assert(is_file(members[at], file));
}

/// An activation is taken as a whole: its device, its activation and its salt.
pub proof fn an_activation_is_three_files(data: Seq<u8>)
    ensures
        activation_of(data) is Ok <==> installable(data, "device.xml"@) is Ok && installable(
            data,
            "activation.xml"@,
        ) is Ok && installable(data, "devicesalt"@) is Ok,
        activation_of(data) matches Ok(files) ==> files == seq![
            installable(data, "device.xml"@)->Ok_0,
            installable(data, "activation.xml"@)->Ok_0,
            installable(data, "devicesalt"@)->Ok_0,
        ],
{
}

/// A request that was put away keeps its name where that is free, and how it ends
/// wherever it is put.
pub proof fn requests_are_put_away_under_a_free_name(stem: Seq<char>, ending: Seq<char>, attempt: nat)
    requires
        stem.len() > 0,
        forall|i: int| 0 <= i < ending.len() ==> #[trigger] ending[i] != '.',
    ensures
        archive_name(stem + "."@ + ending, 0) == stem + "."@ + ending,
        attempt > 0 ==> archive_name(stem + "."@ + ending, attempt) == stem + "-"@ + text::decimal(
            attempt,
        ) + "."@ + ending,
{
    reveal_strlit(".");
    let name = stem + "."@ + ending;
    text::last_index_range(name, '.');
    let at = text::last_index(name, '.');
    let n = stem.len() as int;
    assert(name[n] == '.');
    if at > n {
        assert(name[at] == ending[at - n - 1]);
    }
    assert(name.take(n) =~= stem);
    assert(name.skip(n) =~= "."@ + ending);
    if attempt > 0 {
        assert(archive_name(name, attempt) =~= stem + "-"@ + text::decimal(attempt) + "."@
            + ending);
    }
}

/// A request is taken when it asks for a book, and for no PDF.
pub proof fn requests_for_books_are_taken(nodes: Seq<NodeView>)
    ensures
        token_problem(nodes) is None <==> (exists|i: int|
            0 <= i < nodes.len() && (#[trigger] nodes[i]).called("fulfillmentToken"@)) && forall|
            i: int,
        |
            0 <= i < nodes.len() && (#[trigger] nodes[i]).called("format"@) ==> (
            nodes[i].text matches Some(s) ==> !text::within(s, "application/pdf"@)),
{
    if forall|i: int|
        0 <= i < nodes.len() && (#[trigger] nodes[i]).called("format"@) ==> (
        nodes[i].text matches Some(s) ==> !text::within(s, "application/pdf"@)) {
    } else {
        let i = choose|i: int|
            0 <= i < nodes.len() && (#[trigger] nodes[i]).called("format"@) && (
            nodes[i].text matches Some(s) && text::within(s, "application/pdf"@));
        assert(super::asks_for_pdf(nodes[i]));
    }
}

/// Only a book that can be read and is locked no more is published, and every such book
/// that says something of itself is, under its own title.
pub proof fn only_readable_books_are_published(data: Seq<u8>, request: Seq<u8>)
    ensures
        published(data, request) is Ok <==> epub::font_document(data) is Ok && epub::validated(
            data,
        ) is None && epub::metadata_of(data) is Ok && epub::metadata_of(data)->Ok_0 is Some,
        (published(data, request) is Ok && epub::metadata_of(data)->Ok_0->0.title is Some) ==> (
        published(data, request)->Ok_0) == names::titled(
            epub::metadata_of(data)->Ok_0->0.title->0,
        ) + " ["@ + hex(sha256(request)).take(12) + "]."@ + "epub"@,
{
}

/// Private state is kept in a folder of its own: below the folder for data that was
/// chosen in full, and below home when none was.
pub proof fn private_state_has_its_own_folder(data: Seq<char>, home: Seq<char>)
    ensures
        data.len() > 0 && data[0] == '/' ==> state_dir(Some(data), Some(home)) == Ok::<
            Seq<char>,
            Seq<char>,
        >(paths::below(data, "xteink"@)),
        !(data.len() > 0 && data[0] == '/') ==> state_dir(Some(data), Some(home)) == state_dir(
            None,
            Some(home),
        ),
        state_dir(None, Some(home)) == Ok::<Seq<char>, Seq<char>>(
            paths::below(paths::below(home, ".local/share"@), "xteink"@),
        ),
        state_dir(Some(data), None) is Err,
{
}

} // verus!
