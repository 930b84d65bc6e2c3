//! Which book of a Kobo is meant.
use super::{
    book_at, chosen, download_problem, imported, key_problem, listed, listing_key, missing_member,
    passed_over, plain_id, serial_in, sideloaded_book, volume_of, BookView, Source,
};
use crate::archive::{has_member, MemberView};
use crate::epub;
use crate::epub::MetadataView;
use crate::order;
use crate::text;
use crate::xml::{first_called, NodeView};
use vstd::prelude::*;

verus! {

broadcast use vstd::string::group_string_axioms;

proof fn book_is_found(books: Seq<BookView>, id: Seq<char>, from: int, i: int)
    requires
        0 <= from <= i < books.len(),
        books[i].id == id,
        forall|j: int| from <= j < i ==> (#[trigger] books[j]).id != id,
    ensures
        book_at(books, id, from) == i,
    decreases i - from,
{
    if from < i {
        book_is_found(books, id, from + 1, i);
    }
}

proof fn book_is_missing(books: Seq<BookView>, id: Seq<char>, from: int)
    requires
        0 <= from <= books.len(),
        forall|j: int| from <= j < books.len() ==> (#[trigger] books[j]).id != id,
    ensures
        book_at(books, id, from) == books.len(),
    decreases books.len() - from,
{
    if from < books.len() {
        book_is_missing(books, id, from + 1);
    }
}

/// A book is chosen by its identifier, and only where it is the full book; one that is
/// not there is refused.
pub proof fn a_book_is_chosen_by_its_identifier(books: Seq<BookView>, id: Seq<char>, i: int)
    ensures
        0 <= i < books.len() && books[i].id == id && (forall|j: int|
            0 <= j < i ==> (#[trigger] books[j]).id != id) ==> (if books[i].preview {
            chosen(books, id) is Err
        } else {
            chosen(books, id) == Ok::<int, Seq<char>>(i)
        }),
        (forall|j: int| 0 <= j < books.len() ==> (#[trigger] books[j]).id != id) ==> chosen(
            books,
            id,
        ) is Err,
{
    if 0 <= i < books.len() && books[i].id == id && (forall|j: int|
        0 <= j < i ==> (#[trigger] books[j]).id != id) {
        book_is_found(books, id, 0, i);
    }
    if forall|j: int| 0 <= j < books.len() ==> (#[trigger] books[j]).id != id {
        book_is_missing(books, id, 0);
    }
}

/// The books of a Kobo are listed by title, whatever the case, and each is listed once.
pub proof fn books_are_listed_by_title(books: Seq<BookView>, i: int, j: int)
    requires
        0 <= i < j < books.len(),
    ensures
        listed(books).to_multiset() == books.to_multiset(),
        listed(books).len() == books.len(),
        !text::before(
            text::lowercase(listed(books)[j].title),
            text::lowercase(listed(books)[i].title),
        ),
{
    let key = |b: BookView| listing_key(b);
    order::sorting_orders_and_keeps(books, key);
    let all = listed(books);
    assert(!order::by_key(key)(all[j], all[i]));
    text::before_is_total(text::lowercase(all[j].title), text::lowercase(all[i].title));
}

/// A sideloaded book is what its file says, in the folder it was found in; it is scrambled
/// only where it belongs to a volume of the store.
pub proof fn a_sideloaded_book_is_its_file(
    relative: Seq<char>,
    name: Seq<char>,
    metadata: MetadataView,
    volume: Option<Seq<char>>,
)
    ensures
        ({
            let book = sideloaded_book(relative, name, metadata, volume);
            &&& metadata.title matches Some(title) ==> book.title == title
            &&& metadata.title is None ==> book.title == name
            &&& book.author == metadata.author
            &&& book.path == Some(relative)
            &&& book.encrypted <==> volume is Some
            &&& book.kobo_volume_id == volume
            &&& !book.preview
            &&& book.source == Source::Sideloaded
        }),
{
}

/// A volume is told by its identifier, with or without what announces one.
pub proof fn volumes_are_told_by_their_identifiers(id: Seq<char>)
    ensures
        volume_of("urn:uuid:"@ + id) == id,
        !text::starts(id, "urn:uuid:"@) ==> volume_of(id) == id,
{
    let long = "urn:uuid:"@ + id;
    let n = "urn:uuid:"@.len() as int;
    assert(long.subrange(0, n) =~= "urn:uuid:"@);
    assert(long.skip(n) =~= id);
}

/// A book that was opened is imported as it is, where it is valid; only fonts that were
/// scrambled are told about again.
pub proof fn a_valid_book_is_imported_as_it_is(opened: Seq<u8>, fonts: Option<Seq<u8>>)
    ensures
        epub::validated(opened) is None ==> imported(opened, false, fonts) == Ok::<
            Seq<u8>,
            Seq<char>,
        >(opened) && imported(opened, true, None) == Ok::<Seq<u8>, Seq<char>>(opened),
        epub::validated(opened) is Some ==> imported(opened, false, fonts) is Err,
        imported(opened, true, fonts) matches Ok(after) ==> epub::validated(after) is None,
{
}

/// A book that a Kobo names leads nowhere else: its name is one name, and not the way up.
pub proof fn identifiers_lead_nowhere_else(id: Seq<char>, i: int)
    ensures
        plain_id(id) && 0 <= i < id.len() ==> id[i] != '/' && id[i] != '\\',
        !plain_id(".."@),
{
}

proof fn members_are_there(members: Seq<MemberView>, names: Seq<Seq<char>>, from: int)
    requires
        0 <= from <= names.len(),
    ensures
        missing_member(members, names, from) is None <==> forall|i: int|
            from <= i < names.len() ==> has_member(members, #[trigger] names[i]),
        missing_member(members, names, from) matches Some(name) ==> names.contains(name)
            && !has_member(members, name),
    decreases names.len() - from,
{
    if from < names.len() {
        members_are_there(members, names, from + 1);
        assert(names.contains(names[from]));
    }
}

/// A download is whole when everything that its keys open is in it; otherwise something
/// that is missing is named.
pub proof fn a_download_is_whole(members: Seq<MemberView>, names: Seq<Seq<char>>)
    ensures
        missing_member(members, names, 0) is None <==> forall|i: int|
            0 <= i < names.len() ==> has_member(members, #[trigger] names[i]),
        missing_member(members, names, 0) matches Some(name) ==> names.contains(name)
            && !has_member(members, name),
{
    members_are_there(members, names, 0);
}

/// Only a sound download of a fair size is opened, and one whose contents are locked in
/// some other way is not.
pub proof fn only_sound_downloads_are_opened(data: Seq<u8>)
    ensures
        download_problem(data) is None <==> data.len() <= 134_217_728 && epub::inspected(
            data,
        ) is None && epub::font_document(data) is Ok,
{
}

/// Keys are made of a serial number and an account, so there have to be both.
pub proof fn keys_need_a_serial_and_an_account(serial: Seq<char>, users: Seq<Seq<char>>)
    ensures
        key_problem(serial, users) is None <==> serial.len() > 0 && users.len() > 0,
{
}

/// A search for books passes over what is hidden, and over the fonts at the top.
pub proof fn fonts_are_no_books(name: Seq<char>)
    ensures
        name.len() > 0 && name[0] == '.' ==> passed_over(name, true) && passed_over(name, false),
        passed_over("fonts"@, true),
        name.len() > 0 && name[0] != '.' ==> !passed_over(name, false),
        name.len() > 0 && name[0] != '.' && name != "fonts"@ ==> !passed_over(name, true),
{
}

proof fn first_of_a_name(nodes: Seq<NodeView>, name: Seq<char>, from: int, i: int)
    requires
        0 <= from <= i < nodes.len(),
        nodes[i].called(name),
        forall|k: int| from <= k < i ==> !(#[trigger] nodes[k]).called(name),
    ensures
        first_called(nodes, name, from) == i,
    decreases i - from,
{
    if from < i {
        first_of_a_name(nodes, name, from + 1, i);
    }
}

/// A device's serial number is what its description says it is, without the blanks
/// around it.
pub proof fn the_serial_is_what_the_device_says(nodes: Seq<NodeView>, i: int, words: Seq<char>)
    requires
        0 <= i < nodes.len(),
        nodes[i].called("deviceSerial"@),
        nodes[i].text == Some(words),
        forall|k: int| 0 <= k < i ==> !(#[trigger] nodes[k]).called("deviceSerial"@),
    ensures
        text::trimmed(words).len() > 0 ==> serial_in(nodes) == Ok::<Seq<char>, Seq<char>>(
            text::trimmed(words),
        ),
        text::trimmed(words).len() == 0 ==> serial_in(nodes) is Err,
{
    first_of_a_name(nodes, "deviceSerial"@, 0, i);
}

} // verus!
