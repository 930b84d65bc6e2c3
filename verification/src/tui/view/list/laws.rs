//! What a row says of where a book is.
use super::{
    book_lines, cell_of, copy_at, detailed, held_at, pill_of, presence_of, reason_of,
    request_lines, status_of, status_of_model, unread_count,
};
use crate::books::{BookView, CopyView, Place};
use crate::text;
use crate::tui::model::ModelView;
use crate::tui::view::cleaned;
use crate::tui::{EntryView, SourceView};
use vstd::prelude::*;

verus! {

broadcast use vstd::string::group_string_axioms;

proof fn first_copy(copies: Seq<CopyView>, place: Place, from: int)
    requires
        0 <= from <= copies.len(),
    ensures
        ({
            let at = copy_at(copies, place, from);
            &&& from <= at <= copies.len()
            &&& at < copies.len() ==> copies[at].place == place
            &&& forall|i: int| from <= i < at ==> (#[trigger] copies[i]).place != place
        }),
    decreases copies.len() - from,
{
    if from < copies.len() && copies[from].place != place {
        first_copy(copies, place, from + 1);
    }
}

/// The sign in a place's column: a dot where the book is not, a cross where its copy
/// could not be read, a half circle for a copy made for a device, and a full one for an
/// original.
pub proof fn signs_tell_what_is_there(book: BookView, place: Place, selected: bool, i: int)
    ensures
        (forall|k: int| 0 <= k < book.copies.len() ==> (#[trigger] book.copies[k]).place != place)
            ==> cell_of(book, place, selected).text == "·"@,
        0 <= i < book.copies.len() && book.copies[i].place == place && (forall|k: int|
            0 <= k < i ==> (#[trigger] book.copies[k]).place != place) ==> cell_of(
            book,
            place,
            selected,
        ).text == (if book.copies[i].sha.len() == 0 {
            "✗"@
        } else if book.copies[i].optimized {
            "◐"@
        } else {
            "●"@
        }),
{
    first_copy(book.copies, place, 0);
    let at = copy_at(book.copies, place, 0);
    if 0 <= i < book.copies.len() && book.copies[i].place == place && (forall|k: int|
        0 <= k < i ==> (#[trigger] book.copies[k]).place != place) {
        if at < i {
            assert(book.copies[at].place != place);
        }
        assert(at == i);
    }
}

/// The columns stand for what is at hand, the Kobo and the reader, in that order.
pub proof fn columns_stand_in_order(book: BookView, selected: bool)
    ensures
        presence_of(book, selected).len() == 5,
        presence_of(book, selected)[0] == cell_of(book, Place::Local, selected),
        presence_of(book, selected)[2] == cell_of(book, Place::Kobo, selected),
        presence_of(book, selected)[4] == cell_of(book, Place::CrossPoint, selected),
{
}

/// A place counts each book that has a copy there, once.
pub proof fn a_place_counts_its_books(books: Seq<BookView>, book: BookView, place: Place)
    ensures
        held_at(Seq::empty(), place) == 0,
        held_at(books.push(book), place) == held_at(books, place) + (if exists|i: int|
            0 <= i < book.copies.len() && (#[trigger] book.copies[i]).place == place {
            1nat
        } else {
            0
        }),
{
    assert(books.push(book).drop_last() =~= books);
}

/// A place is said to be what was first said of it, and is being checked until then.
pub proof fn a_place_is_what_was_said_of_it(
    status: Seq<(Place, Seq<char>)>,
    place: Place,
    from: int,
    i: int,
)
    requires
        0 <= from <= status.len(),
        forall|k: int| from <= k < i && k < status.len() ==> (#[trigger] status[k]).0 != place,
    ensures
        from <= i < status.len() && status[i].0 == place ==> status_of(status, place, from)
            == status[i].1,
        i >= status.len() ==> status_of(status, place, from) == "Checking"@,
    decreases status.len() - from,
{
    if from < status.len() && from < i {
        a_place_is_what_was_said_of_it(status, place, from + 1, i);
    }
}

/// A book is unread at a place when a copy there could not be read, and each such book is
/// counted once.
pub proof fn unread_books_are_counted(books: Seq<BookView>, book: BookView, place: Place, i: int)
    ensures
        0 <= i < book.copies.len() && book.copies[i].place == place && book.copies[i].sha.len() == 0
            ==> unread_count(books.push(book), place) == unread_count(books, place) + 1,
        (forall|k: int|
            0 <= k < book.copies.len() && (#[trigger] book.copies[k]).place == place
                ==> book.copies[k].sha.len() > 0) ==> unread_count(books.push(book), place)
            == unread_count(books, place),
        unread_count(Seq::empty(), place) == 0,
{
    assert(books.push(book).drop_last() =~= books);
}

/// A place that is ready shows how many books it has, and one that cannot be reached shows
/// why.
pub proof fn a_place_shows_how_it_is(m: ModelView, place: Place, rest: Seq<char>)
    ensures
        status_of(m.catalog.status, place, 0) == "Ready"@ + rest ==> pill_of(m, place).len() >= 3
            && pill_of(m, place)[1].text == place.name() && pill_of(m, place)[2].text == " "@
            + text::decimal(held_at(m.catalog.books, place)),
        (status_of(m.catalog.status, place, 0) == "Ready"@ + rest && unread_count(
            m.catalog.books,
            place,
        ) > 0) ==> pill_of(m, place).len() == 4 && pill_of(m, place)[3].paint is Warn,
        reason_of("Unavailable: "@ + rest) == rest,
{
    reveal(pill_of);
    let ready = "Ready"@ + rest;
    assert(ready.subrange(0, "Ready"@.len() as int) =~= "Ready"@);
    let words = "Unavailable: "@ + rest;
    assert(words.subrange(0, "Unavailable: "@.len() as int) =~= "Unavailable: "@);
    assert(words.skip("Unavailable: "@.len() as int) =~= rest);
}

/// What is shown below the list is of what is being copied, and otherwise of the selected
/// row.
pub proof fn details_are_of_the_selected_row(
    action: Seq<EntryView>,
    entries: Seq<EntryView>,
    selected: int,
    width: int,
)
    ensures
        match detailed(action, entries, selected, width) {
            None => action.len() == 0 && !(0 <= selected < entries.len()),
            Some((_, lines)) => {
                let entry = if action.len() > 0 {
                    action[0]
                } else {
                    entries[selected]
                };
                &&& action.len() > 0 || 0 <= selected < entries.len()
                &&& match entry.source {
                    SourceView::Book(book) => lines == book_lines(book, width),
                    SourceView::Local(path) => lines == request_lines(path, width),
                }
            },
        },
{
}

/// Errors are marked as such, and what was verified is; while work goes on, neither is
/// claimed.
pub proof fn the_status_line_claims_nothing_early(m: ModelView, width: u16)
    requires
        m.step is None,
    ensures
        status_of_model(m, width).len() == 1,
        status_of_model(m, width)[0][1].text == cleaned(m.status),
        m.busy is Some || m.loading is Some ==> status_of_model(m, width)[0][0].paint is Busy,
        m.busy is None && m.loading is None && text::starts(cleaned(m.status), "Error:"@)
            ==> status_of_model(m, width)[0][0].paint is Bad,
        m.busy is None && m.loading is None && text::within(cleaned(m.status), "verified"@)
            && !text::starts(cleaned(m.status), "Error:"@) && !text::within(
            cleaned(m.status),
            "error"@,
        ) ==> status_of_model(m, width)[0][0].paint is Good,
{
}

} // verus!
