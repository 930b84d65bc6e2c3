//! The library on the screen: the places above it, the list itself, what is
//! known of the selected book, and the line that says what is going on.
use super::{
    clean, cleaned, ink, ink_owned, line1, line2, line3, line4, line_width, measure, no_lines,
    no_spans, pad, padded, painted, put_line, put_span, put_spans, repeat, repeated, shorten,
    shortened, tail, tail_of, Paint, Span, SpanView,
};
use crate::books;
use crate::books::transfer::{size, size_of};
use crate::books::{Book, BookView, CopyView, Place};
use crate::text;
use crate::tui::model::{Model, ModelView};
use crate::tui::{Entry, EntryView, Source, SourceView};
use crate::values::Duplicate;
use vstd::prelude::*;

pub mod laws;

verus! {

broadcast use vstd::string::group_string_axioms;

/// The first thing said of a place, if anything was.
pub open spec fn status_of(status: Seq<(Place, Seq<char>)>, place: Place, from: int) -> Seq<char>
    decreases status.len() - from,
{
    if from < 0 || from >= status.len() {
        "Checking"@
    } else if status[from].0 == place {
        status[from].1
    } else {
        status_of(status, place, from + 1)
    }
}

fn find_status(status: &Vec<(Place, String)>, place: Place) -> (r: String)
    ensures
        r@ == status_of(status.deep_view(), place, 0),
{
    for i in 0..status.len()
        invariant
            status_of(status.deep_view(), place, 0) == status_of(
                status.deep_view(),
                place,
                i as int,
            ),
    {
        assert(status.deep_view()[i as int] == (status@[i as int].0, status@[i as int].1@));
        if status[i].0 == place {
            return status[i].1.duplicate();
        }
    }
    "Checking".to_owned()
}

/// How many books have a copy at a place.
pub open spec fn held_at(books: Seq<BookView>, place: Place) -> nat
    decreases books.len(),
{
    if books.len() == 0 {
        0
    } else {
        held_at(books.drop_last(), place) + if books.last().has(place) {
            1nat
        } else {
            0
        }
    }
}

/// Whether a book has a copy at a place that could not be read.
pub open spec fn unread_at(book: BookView, place: Place) -> bool {
    exists|i: int|
        0 <= i < book.copies.len() && (#[trigger] book.copies[i]).place == place
            && book.copies[i].sha.len() == 0
}

pub open spec fn unread_count(books: Seq<BookView>, place: Place) -> nat
    decreases books.len(),
{
    if books.len() == 0 {
        0
    } else {
        unread_count(books.drop_last(), place) + if unread_at(books.last(), place) {
            1nat
        } else {
            0
        }
    }
}

fn is_unread_at(book: &Book, place: Place) -> (r: bool)
    ensures
        r == unread_at(book@, place),
{
    for i in 0..book.copies.len()
        invariant
            forall|j: int|
                0 <= j < i ==> !((#[trigger] book@.copies[j]).place == place
                    && book@.copies[j].sha.len() == 0),
    {
        assert(book@.copies[i as int] == book.copies@[i as int]@);
        if book.copies[i].place == place && book.copies[i].sha.as_str().is_empty() {
            return true;
        }
    }
    false
}

fn count_at(books: &Vec<Book>, place: Place) -> (r: (usize, usize))
    ensures
        r.0 == held_at(books.deep_view(), place),
        r.1 == unread_count(books.deep_view(), place),
{
    let ghost all = books.deep_view();
    let mut held: usize = 0;
    let mut unread: usize = 0;
    proof {
        assert(all.take(0) =~= Seq::<BookView>::empty());
    }
    for i in 0..books.len()
        invariant
            all == books.deep_view(),
            held <= i,
            unread <= i,
            held == held_at(all.take(i as int), place),
            unread == unread_count(all.take(i as int), place),
    {
        proof {
            assert(all.take(i as int + 1).drop_last() =~= all.take(i as int));
            assert(all[i as int] == books@[i as int]@);
        }
        if books[i].has(place) {
            held += 1;
        }
        if is_unread_at(&books[i], place) {
            unread += 1;
        }
    }
    proof {
        assert(all.take(all.len() as int) =~= all);
    }
    (held, unread)
}

/// The reason why a place is unavailable.
pub open spec fn reason_of(status: Seq<char>) -> Seq<char> {
    if text::starts(status, "Unavailable: "@) {
        status.skip("Unavailable: "@.len() as int)
    } else {
        status
    }
}

fn reason(status: &str) -> (r: String)
    ensures
        r@ == reason_of(status@),
{
    let prefix = text::chars("Unavailable: ");
    let c = text::chars(status);
    if text::starts_with(status, "Unavailable: ") {
        let rest = text::slice(c.as_slice(), prefix.len(), c.len());
        proof {
            assert(rest@ =~= status@.skip(prefix@.len() as int));
        }
        rest
    } else {
        status.to_owned()
    }
}

/// What a place shows above the list: a state, its name and the shortest useful
/// detail. Setup holds discovery back, so nothing is being checked then: a
/// spinner that cannot finish is worse than saying so.
#[verifier::opaque]
pub open spec fn pill_of(m: ModelView, place: Place) -> Seq<SpanView> {
    let status = status_of(m.catalog.status, place, 0);
    let name = place.name();
    if text::starts(status, "Ready"@) {
        let head = seq![
            painted("● "@, Paint::Good),
            painted(name, Paint::Bold),
            painted(" "@ + text::decimal(held_at(m.catalog.books, place)), Paint::Plain),
        ];
        if unread_count(m.catalog.books, place) > 0 {
            head.push(
                painted(
                    " ⚠"@ + text::decimal(unread_count(m.catalog.books, place)),
                    Paint::Warn,
                ),
            )
        } else {
            head
        }
    } else if text::starts(status, "Checking"@) {
        if m.options.first_run {
            seq![
                painted("· "@, Paint::Plain),
                painted(name, Paint::Plain),
                painted(" not scanned"@, Paint::Plain),
            ]
        } else {
            seq![
                painted("◌ "@, Paint::Busy),
                painted(name, Paint::Bold),
                painted(" checking"@, Paint::Plain),
            ]
        }
    } else if reason_of(status) == "Not configured"@ {
        seq![
            painted("· "@, Paint::Plain),
            painted(name, Paint::Plain),
            painted(" not configured"@, Paint::Plain),
        ]
    } else {
        seq![
            painted("⚠ "@, Paint::Warn),
            painted(name, Paint::Bold),
            painted(" "@ + shortened(reason_of(status), 28), Paint::Warn),
        ]
    }
}

pub fn pill(model: &Model, place: Place) -> (r: Vec<Span>)
    ensures
        r.deep_view() == pill_of(model@, place),
{
    proof {
        reveal(Model::seen);
        reveal(pill_of);
    }
    let status = find_status(&model.catalog.status, place);
    let name = place.label();
    if text::starts_with(status.as_str(), "Ready") {
        let (held, unread) = count_at(&model.catalog.books, place);
        let mut spans = line3(
            ink("● ", Paint::Good),
            ink(name, Paint::Bold),
            ink_owned(text::concat(" ", text::number(held as u64).as_str()), Paint::Plain),
        );
        if unread > 0 {
            put_span(
                &mut spans,
                ink_owned(
                    text::concat(" ⚠", text::number(unread as u64).as_str()),
                    Paint::Warn,
                ),
            );
        }
        return spans;
    }
    if text::starts_with(status.as_str(), "Checking") {
        if model.options.first_run {
            return line3(
                ink("· ", Paint::Plain),
                ink(name, Paint::Plain),
                ink(" not scanned", Paint::Plain),
            );
        }
        return line3(
            ink("◌ ", Paint::Busy),
            ink(name, Paint::Bold),
            ink(" checking", Paint::Plain),
        );
    }
    let why = reason(status.as_str());
    if text::same(why.as_str(), "Not configured") {
        return line3(
            ink("· ", Paint::Plain),
            ink(name, Paint::Plain),
            ink(" not configured", Paint::Plain),
        );
    }
    line3(
        ink("⚠ ", Paint::Warn),
        ink(name, Paint::Bold),
        ink_owned(text::concat(" ", shorten(why.as_str(), 28).as_str()), Paint::Warn),
    )
}

pub open spec fn gap() -> SpanView {
    painted("   "@, Paint::Plain)
}

pub open spec fn screen_title() -> Seq<SpanView> {
    seq![painted("Crossload"@, Paint::Bold), painted(" · Books"@, Paint::Plain)]
}

/// Two stretches of a line with a gap between them.
pub open spec fn beside(a: Seq<SpanView>, b: Seq<SpanView>) -> Seq<SpanView> {
    if a.len() == 0 {
        b
    } else {
        a.push(gap()) + b
    }
}

/// Places put on lines that fit, as many to a line as there is room for: the
/// full lines, and the one that is still being filled.
pub open spec fn flowed(
    lines: Seq<Seq<SpanView>>,
    current: Seq<SpanView>,
    next: Seq<SpanView>,
    width: int,
) -> (Seq<Seq<SpanView>>, Seq<SpanView>) {
    if current.len() > 0 && line_width(beside(current, next)) > width {
        (lines.push(current), next)
    } else {
        (lines, beside(current, next))
    }
}

/// The lines above the list: the title and the places on one row where they
/// fit, wrapped when they do not.
pub open spec fn header_of(
    a: Seq<SpanView>,
    b: Seq<SpanView>,
    c: Seq<SpanView>,
    width: int,
) -> Seq<Seq<SpanView>> {
    let joined = (a.push(gap()) + b).push(gap()) + c;
    let used = line_width(screen_title()) + line_width(joined);
    if used + 3 <= width {
        seq![screen_title().push(painted(repeated(' ', width - used), Paint::Plain)) + joined]
    } else {
        let first = flowed(seq![screen_title()], Seq::empty(), a, width);
        let second = flowed(first.0, first.1, b, width);
        let third = flowed(second.0, second.1, c, width);
        if third.1.len() > 0 {
            third.0.push(third.1)
        } else {
            third.0
        }
    }
}

fn copied(line: &Vec<Span>) -> (r: Vec<Span>)
    ensures
        r.deep_view() == line.deep_view(),
{
    line.duplicate()
}

fn flow(lines: &mut Vec<Vec<Span>>, current: Vec<Span>, next: &Vec<Span>, width: u128) -> (r: Vec<
    Span,
>)
    ensures
        (final(lines).deep_view(), r.deep_view()) == flowed(
            old(lines).deep_view(),
            current.deep_view(),
            next.deep_view(),
            width as int,
        ),
{
    let ghost now = current.deep_view();
    assert(now.len() == current@.len());
    let mut both = copied(&current);
    if current.len() > 0 {
        put_span(&mut both, ink("   ", Paint::Plain));
    } else {
        proof {
            assert(now + next.deep_view() =~= next.deep_view());
        }
    }
    put_spans(&mut both, next);
    if current.len() > 0 && measure(&both) > width {
        put_line(lines, current);
        copied(next)
    } else {
        both
    }
}

/// Title and location pills on one row where they fit, wrapped when they do not.
pub fn header(model: &Model, width: u16) -> (r: Vec<Vec<Span>>)
    ensures
        r.deep_view() == header_of(
            pill_of(model@, Place::Local),
            pill_of(model@, Place::Kobo),
            pill_of(model@, Place::CrossPoint),
            width as int,
        ),
{
    let a = pill(model, Place::Local);
    let b = pill(model, Place::Kobo);
    let c = pill(model, Place::CrossPoint);
    let mut joined = copied(&a);
    put_span(&mut joined, ink("   ", Paint::Plain));
    put_spans(&mut joined, &b);
    put_span(&mut joined, ink("   ", Paint::Plain));
    put_spans(&mut joined, &c);
    let mut title = line2(ink("Crossload", Paint::Bold), ink(" · Books", Paint::Plain));
    let one = measure(&title);
    let two = measure(&joined);
    if one < 65536 && two < 65536 && one + two + 3 <= width as u128 {
        let used: usize = (one + two) as usize;
        let room: usize = width as usize - used;
        put_span(&mut title, ink_owned(repeat(' ', room), Paint::Plain));
        put_spans(&mut title, &joined);
        let mut lines = no_lines();
        put_line(&mut lines, title);
        proof {
            let wanted = header_of(
                a.deep_view(),
                b.deep_view(),
                c.deep_view(),
                width as int,
            );
            assert(lines.deep_view() =~= wanted);
        }
        return lines;
    }
    let mut lines = no_lines();
    put_line(&mut lines, title);
    proof {
        assert(lines.deep_view() =~= seq![screen_title()]);
    }
    let none = no_spans();
    let first = flow(&mut lines, none, &a, width as u128);
    let second = flow(&mut lines, first, &b, width as u128);
    let third = flow(&mut lines, second, &c, width as u128);
    assert(third.deep_view().len() == third@.len());
    if third.len() > 0 {
        put_line(&mut lines, third);
    }
    lines
}

/// The first copy at a place from `from` on, or the length.
pub open spec fn copy_at(copies: Seq<CopyView>, place: Place, from: int) -> int
    decreases copies.len() - from,
{
    if from < 0 || from >= copies.len() {
        copies.len() as int
    } else if copies[from].place == place {
        from
    } else {
        copy_at(copies, place, from + 1)
    }
}

/// One cell of a book's row: an original, a device copy, nothing, or a copy that
/// could not be read. On the selected row the shapes alone carry the state.
pub open spec fn cell_of(book: BookView, place: Place, selected: bool) -> SpanView {
    let at = copy_at(book.copies, place, 0);
    if !(0 <= at < book.copies.len()) {
        painted("·"@, Paint::Plain)
    } else if book.copies[at].sha.len() == 0 {
        painted("✗"@, unless(selected, Paint::Bad))
    } else if book.copies[at].optimized {
        painted("◐"@, unless(selected, Paint::Warn))
    } else {
        painted("●"@, unless(selected, Paint::Good))
    }
}

pub open spec fn unless(selected: bool, paint: Paint) -> Paint {
    if selected {
        Paint::Plain
    } else {
        paint
    }
}

fn paint_unless(selected: bool, paint: Paint) -> (r: Paint)
    ensures
        r == unless(selected, paint),
{
    if selected {
        Paint::Plain
    } else {
        paint
    }
}

fn cell(book: &Book, place: Place, selected: bool) -> (r: Span)
    ensures
        r@ == cell_of(book@, place, selected),
{
    for i in 0..book.copies.len()
        invariant
            copy_at(book@.copies, place, 0) == copy_at(book@.copies, place, i as int),
    {
        let copy = &book.copies[i];
        assert(book@.copies[i as int] == copy@);
        if copy.place == place {
            if copy.sha.as_str().is_empty() {
                return ink("✗", paint_unless(selected, Paint::Bad));
            }
            if copy.optimized {
                return ink("◐", paint_unless(selected, Paint::Warn));
            }
            return ink("●", paint_unless(selected, Paint::Good));
        }
    }
    ink("·", Paint::Plain)
}

/// One cell per location, so presence reads as a fixed column, not a sentence.
pub open spec fn presence_of(book: BookView, selected: bool) -> Seq<SpanView> {
    seq![
        cell_of(book, Place::Local, selected),
        painted(" "@, Paint::Plain),
        cell_of(book, Place::Kobo, selected),
        painted(" "@, Paint::Plain),
        cell_of(book, Place::CrossPoint, selected),
    ]
}

pub fn presence(book: &Book, selected: bool) -> (r: Vec<Span>)
    ensures
        r.deep_view() == presence_of(book@, selected),
{
    super::line5(
        cell(book, Place::Local, selected),
        ink(" ", Paint::Plain),
        cell(book, Place::Kobo, selected),
        ink(" ", Paint::Plain),
        cell(book, Place::CrossPoint, selected),
    )
}

pub open spec fn label_of(s: Seq<char>) -> SpanView {
    painted(padded(s, 8), Paint::Bold)
}

fn label(s: &str) -> (r: Span)
    ensures
        r@ == label_of(s@),
{
    ink_owned(pad(s, 8), Paint::Bold)
}

/// Where a book would be read from, and how large that copy is.
pub open spec fn source_line(book: BookView) -> Seq<SpanView> {
    match book.preferred() {
        None => seq![
            label_of("Source"@),
            painted("No usable copy"@, Paint::Bad),
            painted(""@, Paint::Plain),
        ],
        Some(copy) => seq![
            label_of("Source"@),
            if copy.optimized {
                painted(
                    copy.place.name() + " · "@ + copy.format.name()
                        + " · device copy, images may be optimized"@,
                    Paint::Warn,
                )
            } else {
                painted(copy.place.name() + " · "@ + copy.format.name() + " · original"@, Paint::Good)
            },
            painted(" · "@ + size_of(copy.size), Paint::Plain),
        ],
    }
}

pub open spec fn path_line(path: Seq<char>, width: int) -> Seq<SpanView> {
    seq![label_of("Path"@), painted(tail_of(path, super::less(width, 10)), Paint::Plain)]
}

/// A book's place in a series. A whole number reads as one.
pub open spec fn series_line(book: BookView) -> Seq<SpanView> {
    seq![
        label_of("Series"@),
        painted(
            match book.series_index {
                Some(index) => book.series->0 + ", book "@ + index.written(),
                None => book.series->0,
            },
            Paint::Plain,
        ),
    ]
}

/// What is shown of a book below the list. A book in no series says nothing of
/// one, rather than leaving a gap.
pub open spec fn book_lines(book: BookView, width: int) -> Seq<Seq<SpanView>> {
    let head = seq![
        source_line(book),
        match book.preferred() {
            Some(copy) => path_line(copy.path, width),
            None => seq![label_of("Path"@), painted(""@, Paint::Plain)],
        },
    ];
    if book.series is Some {
        head.push(series_line(book))
    } else {
        head
    }
}

/// What is shown of a request below the list.
pub open spec fn request_lines(path: Seq<char>, width: int) -> Seq<Seq<SpanView>> {
    seq![
        seq![
            label_of("Source"@),
            painted("ACSM import request"@, Paint::Warn),
            painted(" · choose Local to fulfil it"@, Paint::Plain),
        ],
        path_line(path, width),
    ]
}

pub open spec fn detail_title(entry: EntryView, chosen: nat) -> Seq<char> {
    if chosen > 1 {
        " "@ + books::counted(chosen) + " selected "@
    } else if entry.author.len() == 0 {
        " "@ + cleaned(entry.title) + " "@
    } else {
        " "@ + cleaned(entry.title) + " · "@ + cleaned(entry.author) + " "@
    }
}

/// What is shown below the list of the first chosen entry, or of the selected
/// one.
pub open spec fn detailed(
    action: Seq<EntryView>,
    entries: Seq<EntryView>,
    selected: int,
    width: int,
) -> Option<(Seq<char>, Seq<Seq<SpanView>>)> {
    let entry = if action.len() > 0 {
        Some(action[0])
    } else if 0 <= selected < entries.len() {
        Some(entries[selected])
    } else {
        None
    };
    match entry {
        None => None,
        Some(entry) => Some(
            (
                detail_title(entry, action.len()),
                match entry.source {
                    SourceView::Book(book) => book_lines(book, width),
                    SourceView::Local(path) => request_lines(path, width),
                },
            ),
        ),
    }
}

fn lines_of_book(book: &Book, width: usize) -> (r: Vec<Vec<Span>>)
    ensures
        r.deep_view() == book_lines(book@, width as int),
{
    let room: usize = if width > 10 {
        width - 10
    } else {
        0
    };
    let mut lines = no_lines();
    match book.preferred() {
        None => {
            put_line(
                &mut lines,
                line3(
                    label("Source"),
                    ink("No usable copy", Paint::Bad),
                    ink("", Paint::Plain),
                ),
            );
            put_line(&mut lines, line2(label("Path"), ink("", Paint::Plain)));
            assert(lines.deep_view()[0] == source_line(book@));
        },
        Some(copy) => {
            let kind = if copy.optimized {
                ink_owned(
                    text::concat4(
                        copy.place.label(),
                        " · ",
                        copy.format.label(),
                        " · device copy, images may be optimized",
                    ),
                    Paint::Warn,
                )
            } else {
                ink_owned(
                    text::concat4(copy.place.label(), " · ", copy.format.label(), " · original"),
                    Paint::Good,
                )
            };
            let much = ink_owned(text::concat(" · ", size(copy.size).as_str()), Paint::Plain);
            put_line(&mut lines, line3(label("Source"), kind, much));
            put_line(
                &mut lines,
                line2(label("Path"), ink_owned(tail(copy.path.as_str(), room), Paint::Plain)),
            );
            assert(lines.deep_view()[0] == source_line(book@));
            assert(lines.deep_view()[1] == path_line(copy@.path, width as int));
        },
    }
    if let Some(series) = &book.series {
        let words = match &book.series_index {
            Some(index) => text::concat3(series.as_str(), ", book ", index.label().as_str()),
            None => series.duplicate(),
        };
        put_line(&mut lines, line2(label("Series"), ink_owned(words, Paint::Plain)));
        assert(lines.deep_view()[2] == series_line(book@));
    }
    assert(lines.deep_view() =~= book_lines(book@, width as int));
    lines
}

fn lines_of(entry: &Entry, width: usize) -> (r: Vec<Vec<Span>>)
    ensures
        r.deep_view() == match entry@.source {
            SourceView::Book(book) => book_lines(book, width as int),
            SourceView::Local(path) => request_lines(path, width as int),
        },
{
    match &entry.source {
        Source::Book(book) => lines_of_book(book, width),
        Source::Local(path) => {
            let room: usize = if width > 10 {
                width - 10
            } else {
                0
            };
            let mut lines = no_lines();
            put_line(
                &mut lines,
                line3(
                    label("Source"),
                    ink("ACSM import request", Paint::Warn),
                    ink(" · choose Local to fulfil it", Paint::Plain),
                ),
            );
            put_line(
                &mut lines,
                line2(label("Path"), ink_owned(tail(path.as_str(), room), Paint::Plain)),
            );
            proof {
                assert(lines.deep_view() =~= request_lines(path@, width as int));
            }
            lines
        },
    }
}

/// What is shown below the list, with its title.
pub fn details(model: &Model, entries: &Vec<&Entry>, width: usize) -> (r: Option<
    (String, Vec<Vec<Span>>),
>)
    ensures
        r.deep_view() == detailed(
            model@.action,
            entries.deep_view(),
            model@.selected as int,
            width as int,
        ),
{
    proof {
        reveal(Model::seen);
    }
    assert(model@.action.len() == model.action@.len());
    let entry: &Entry = if model.action.len() > 0 {
        assert(model@.action[0] == model.action@[0]@);
        &model.action[0]
    } else if model.selected < entries.len() {
        assert(entries.deep_view()[model.selected as int] == entries@[model.selected as int]@);
        entries[model.selected]
    } else {
        return None;
    };
    let lines = lines_of(entry, width);
    let title = if model.action.len() > 1 {
        text::concat3(" ", books::books(model.action.len()).as_str(), " selected ")
    } else if entry.author.as_str().is_empty() {
        text::concat3(" ", clean(entry.title.as_str()).as_str(), " ")
    } else {
        text::concat5(
            " ",
            clean(entry.title.as_str()).as_str(),
            " · ",
            clean(entry.author.as_str()).as_str(),
            " ",
        )
    };
    Some((title, lines))
}

/// The line above the list: what is being searched for, or what is shown of how
/// many, in which order, and how many are marked.
pub open spec fn summary_of(m: ModelView, shown: nat) -> Seq<SpanView> {
    if m.search {
        seq![
            painted("/"@, Paint::Accent),
            painted(cleaned(m.query), Paint::Plain),
            painted("▏"@, Paint::Accent),
        ]
    } else {
        let head = seq![painted(m.filter.words(), Paint::Bold)];
        let matching = if m.query.len() > 0 {
            head.push(painted(" · matching "@ + cleaned(m.query), Paint::Plain))
        } else {
            head
        };
        let counted = matching.push(
            painted(
                "  "@ + text::decimal(shown) + " of "@ + text::decimal(m.entries.len()),
                Paint::Plain,
            ),
        ).push(painted(sort_words(m), Paint::Plain));
        if m.marked.len() > 0 {
            counted.push(
                painted("  ✓ "@ + text::decimal(m.marked.len()) + " marked"@, Paint::Good),
            )
        } else {
            counted
        }
    }
}

pub open spec fn sort_words(m: ModelView) -> Seq<char> {
    match m.sort {
        crate::tui::model::Sort::Title => " · title ↑"@,
        crate::tui::model::Sort::Author => " · author ↑"@,
        crate::tui::model::Sort::Series => " · series ↑"@,
    }
}

pub fn summary(model: &Model, shown: usize) -> (r: Vec<Span>)
    ensures
        r.deep_view() == summary_of(model@, shown as nat),
{
    proof {
        reveal(Model::seen);
    }
    if model.search {
        return line3(
            ink("/", Paint::Accent),
            ink_owned(clean(model.query.as_str()), Paint::Plain),
            ink("▏", Paint::Accent),
        );
    }
    let mut spans = line1(ink_owned(model.filter.label(), Paint::Bold));
    if !model.query.as_str().is_empty() {
        put_span(
            &mut spans,
            ink_owned(
                text::concat(" · matching ", clean(model.query.as_str()).as_str()),
                Paint::Plain,
            ),
        );
    }
    let counted = text::concat4(
        "  ",
        text::number(shown as u64).as_str(),
        " of ",
        text::number(model.entries.len() as u64).as_str(),
    );
    put_span(&mut spans, ink_owned(counted, Paint::Plain));
    put_span(&mut spans, ink(model.sort.label(), Paint::Plain));
    if model.marked.len() > 0 {
        let marked = text::concat3(
            "  ✓ ",
            text::number(model.marked.len() as u64).as_str(),
            " marked",
        );
        put_span(&mut spans, ink_owned(marked, Paint::Good));
    }
    spans
}

/// The keys that do something now, and what each does.
#[verifier::opaque]
pub open spec fn keys_of(m: ModelView) -> Seq<(Seq<char>, Seq<char>)> {
    if m.history is Some {
        seq![("esc"@, "close"@)]
    } else if m.ask is Some {
        seq![("y"@, "convert and copy"@), ("esc"@, "cancel"@)]
    } else if m.confirm is Some {
        seq![("y"@, "delete"@), ("esc"@, "keep"@)]
    } else if m.copies is Some {
        seq![("1-9"@, "delete a copy"@), ("esc"@, "close"@)]
    } else if m.action.len() > 0 {
        seq![("1 2 3"@, "destination"@), ("esc"@, "cancel"@)]
    } else if m.busy is Some {
        seq![("esc"@, "stop after this book"@), ("q"@, "quit when finished"@)]
    } else {
        seq![
            ("?"@, "help"@),
            ("enter"@, "copy"@),
            ("space"@, "mark"@),
            ("f"@, "filter"@),
            ("s"@, "sort"@),
            (","@, "settings"@),
            ("d"@, "copies"@),
            ("/"@, "search"@),
            ("r"@, "refresh"@),
            ("q"@, "quit"@),
        ]
    }
}

fn key_list(model: &Model) -> (r: Vec<(&'static str, &'static str)>)
    ensures
        r.deep_view() == keys_of(model@),
{
    proof {
        reveal(Model::seen);
        reveal(keys_of);
        crate::tui::model::plain(*model);
    }
    let mut out: Vec<(&'static str, &'static str)> = Vec::new();
    if model.history.is_some() {
        out.push(("esc", "close"));
    } else if model.ask.is_some() {
        out.push(("y", "convert and copy"));
        out.push(("esc", "cancel"));
    } else if model.confirm.is_some() {
        out.push(("y", "delete"));
        out.push(("esc", "keep"));
    } else if model.copies.is_some() {
        out.push(("1-9", "delete a copy"));
        out.push(("esc", "close"));
    } else if model.action.len() > 0 {
        out.push(("1 2 3", "destination"));
        out.push(("esc", "cancel"));
    } else if model.busy.is_some() {
        out.push(("esc", "stop after this book"));
        out.push(("q", "quit when finished"));
    } else {
        out.push(("?", "help"));
        out.push(("enter", "copy"));
        out.push(("space", "mark"));
        out.push(("f", "filter"));
        out.push(("s", "sort"));
        out.push((",", "settings"));
        out.push(("d", "copies"));
        out.push(("/", "search"));
        out.push(("r", "refresh"));
        out.push(("q", "quit"));
    }
    assert(model@.action.len() == model.action@.len());
    assert(out.deep_view() =~= keys_of(model@));
    out
}

/// The hints that fit on a line, of the first `n` keys. A hint that would run
/// off the edge is dropped, not truncated.
pub open spec fn hinted(keys: Seq<(Seq<char>, Seq<char>)>, n: int, width: int) -> Seq<SpanView>
    decreases n,
{
    if n <= 0 || n > keys.len() {
        Seq::empty()
    } else {
        let before = hinted(keys, n - 1, width);
        let candidate = before + seq![
            painted(
                if before.len() == 0 {
                    ""@
                } else {
                    "   "@
                },
                Paint::Plain,
            ),
            painted(keys[n - 1].0, Paint::Accent),
            painted(" "@, Paint::Plain),
            painted(keys[n - 1].1, Paint::Plain),
        ];
        if line_width(candidate) > width {
            before
        } else {
            candidate
        }
    }
}

/// The hints below the list.
pub fn hints(model: &Model, width: u16) -> (r: Vec<Span>)
    ensures
        r.deep_view() == hinted(
            keys_of(model@),
            keys_of(model@).len() as int,
            width as int,
        ),
{
    let keys = key_list(model);
    let ghost all = keys.deep_view();
    let mut hints = no_spans();
    for i in 0..keys.len()
        invariant
            all == keys.deep_view(),
            hints.deep_view() == hinted(all, i as int, width as int),
    {
        let ghost before = hints.deep_view();
        assert(all[i as int] == (keys@[i as int].0@, keys@[i as int].1@));
        assert(before.len() == hints@.len());
        let group = line4(
            ink(
                if hints.len() == 0 {
                    ""
                } else {
                    "   "
                },
                Paint::Plain,
            ),
            ink(keys[i].0, Paint::Accent),
            ink(" ", Paint::Plain),
            ink(keys[i].1, Paint::Plain),
        );
        let mut candidate = copied(&hints);
        put_spans(&mut candidate, &group);
        if measure(&candidate) <= width as u128 {
            hints = candidate;
        }
    }
    hints
}

/// A mark for work that goes on, one of ten in turn.
pub open spec fn spinner_of(tick: int) -> Seq<char> {
    let i = tick % 10;
    if i == 0 {
        "⠋"@
    } else if i == 1 {
        "⠙"@
    } else if i == 2 {
        "⠹"@
    } else if i == 3 {
        "⠸"@
    } else if i == 4 {
        "⠼"@
    } else if i == 5 {
        "⠴"@
    } else if i == 6 {
        "⠦"@
    } else if i == 7 {
        "⠧"@
    } else if i == 8 {
        "⠇"@
    } else {
        "⠏"@
    }
}

fn spinner(tick: usize) -> (r: &'static str)
    ensures
        r@ == spinner_of(tick as int),
{
    let i: usize = tick % 10;
    if i == 0 {
        "⠋"
    } else if i == 1 {
        "⠙"
    } else if i == 2 {
        "⠹"
    } else if i == 3 {
        "⠸"
    } else if i == 4 {
        "⠼"
    } else if i == 5 {
        "⠴"
    } else if i == 6 {
        "⠦"
    } else if i == 7 {
        "⠧"
    } else if i == 8 {
        "⠇"
    } else {
        "⠏"
    }
}

/// How many cells a bar has, and how many of them are filled.
pub open spec fn bar_of(done: usize, total: usize, width: u16) -> (int, int) {
    let words = (text::decimal(done as nat).len() + text::decimal(total as nat).len() + 21) as int;
    let cells = super::at_most(super::less(width as int, words), 32);
    (
        cells,
        if total == 0 {
            0
        } else if cells * done > usize::MAX {
            usize::MAX as int / total as int
        } else {
            (cells * done) / total as int
        },
    )
}

/// A bar that says how far a set has come, because each book's own progress
/// replaces the text beneath it many times over.
pub open spec fn progress_of(done: usize, total: usize, width: u16) -> Seq<SpanView> {
    let (cells, filled) = bar_of(done, total, width);
    seq![
        painted("Copying "@, Paint::Bold),
        painted(repeated('█', filled), Paint::Good),
        painted(repeated('░', cells - filled), Paint::Plain),
        painted(
            " "@ + text::decimal(done as nat) + " of "@ + text::decimal(total as nat) + " books"@,
            Paint::Bold,
        ),
    ]
}

proof fn digits_are_few(n: nat)
    requires
        n <= u64::MAX,
    ensures
        1 <= text::decimal(n).len() <= 20,
{
    reveal_with_fuel(text::decimal, 21);
}

pub fn progress_line(done: usize, total: usize, width: u16) -> (r: Vec<Span>)
    requires
        done <= total,
    ensures
        r.deep_view() == progress_of(done, total, width),
{
    let a = text::number(done as u64);
    let b = text::number(total as u64);
    proof {
        digits_are_few(done as nat);
        digits_are_few(total as nat);
    }
    let counted = text::concat5(" ", a.as_str(), " of ", b.as_str(), " books");
    let words: usize = 8 + (text::chars(a.as_str()).len() + text::chars(b.as_str()).len() + 11) + 2;
    let room: usize = if width as usize > words {
        width as usize - words
    } else {
        0
    };
    let cells: usize = if room < 32 {
        room
    } else {
        32
    };
    let filled: usize = if total == 0 {
        0
    } else {
        assert(0 <= cells * done <= 32 * 18446744073709551615) by (nonlinear_arith)
            requires
                0 <= cells <= 32,
                0 <= done <= 18446744073709551615,
        ;
        let product: u128 = cells as u128 * done as u128;
        if product > usize::MAX as u128 {
            usize::MAX / total
        } else {
            product as usize / total
        }
    };
    proof {
        if total > 0 {
            let most = cells * done;
            assert(most <= cells * total) by (nonlinear_arith)
                requires
                    most == cells * done,
                    0 <= done <= total,
                    0 <= cells,
            ;
            assert(most / total as int <= cells) by (nonlinear_arith)
                requires
                    most <= cells * total,
                    total > 0,
            ;
            if most > usize::MAX {
                assert(usize::MAX as int / total as int <= most / total as int) by (nonlinear_arith)
                    requires
                        most > usize::MAX as int,
                        total > 0,
                ;
            }
        }
    }
    line4(
        ink("Copying ", Paint::Bold),
        ink_owned(repeat('█', filled), Paint::Good),
        ink_owned(repeat('░', cells - filled), Paint::Plain),
        ink_owned(counted, Paint::Bold),
    )
}

/// What is going on, in a line, and above it how far a set has come.
pub open spec fn status_of_model(m: ModelView, width: u16) -> Seq<Seq<SpanView>> {
    let words = cleaned(m.status);
    let busy = m.busy is Some || m.loading is Some;
    let (mark, paint) = if busy {
        (spinner_of(m.tick as int), Paint::Busy)
    } else if text::starts(words, "Error:"@) || text::within(words, "error"@) {
        ("✗"@, Paint::Bad)
    } else if text::within(words, "verified"@) {
        ("✓"@, Paint::Good)
    } else {
        ("·"@, Paint::Plain)
    };
    let status = seq![
        painted(mark + " "@, paint),
        painted(
            words,
            if busy {
                Paint::Plain
            } else {
                paint
            },
        ),
    ];
    match m.step {
        Some((done, total)) => seq![progress_of(done, total, width), status],
        None => seq![status],
    }
}

pub fn status_lines(model: &Model, width: u16) -> (r: Vec<Vec<Span>>)
    requires
        model.step matches Some((done, total)) ==> done <= total,
    ensures
        r.deep_view() == status_of_model(model@, width),
{
    proof {
        reveal(Model::seen);
    }
    let words = clean(model.status.as_str());
    let busy = model.busy.is_some() || model.loading.is_some();
    let (mark, paint) = if busy {
        (spinner(model.tick), Paint::Busy)
    } else if text::starts_with(words.as_str(), "Error:") || text::contains(words.as_str(), "error") {
        ("✗", Paint::Bad)
    } else if text::contains(words.as_str(), "verified") {
        ("✓", Paint::Good)
    } else {
        ("·", Paint::Plain)
    };
    let status = line2(
        ink_owned(text::concat(mark, " "), paint),
        ink_owned(
            words,
            if busy {
                Paint::Plain
            } else {
                paint
            },
        ),
    );
    let mut lines = no_lines();
    if let Some((done, total)) = model.step {
        put_line(&mut lines, progress_line(done, total, width));
    }
    put_line(&mut lines, status);
    assert(lines.deep_view() =~= status_of_model(model@, width));
    lines
}

/// What the list is called, by how much of the library it shows.
pub fn list_title(shown: usize, total: usize) -> (r: String)
    ensures
        r@ == if shown == total {
            " Library · "@ + text::decimal(total as nat) + " "@
        } else {
            " Library · "@ + text::decimal(shown as nat) + " of "@ + text::decimal(total as nat)
                + " "@
        },
{
    let all = text::number(total as u64);
    if shown == total {
        text::concat3(" Library · ", all.as_str(), " ")
    } else {
        text::concat5(
            " Library · ",
            text::number(shown as u64).as_str(),
            " of ",
            all.as_str(),
            " ",
        )
    }
}

/// Which row of how many is selected.
pub fn list_position(selected: usize, shown: usize) -> (r: String)
    requires
        selected < usize::MAX,
    ensures
        r@ == " "@ + text::decimal(
            if shown == 0 {
                0
            } else {
                selected as nat + 1
            },
        ) + "/"@ + text::decimal(shown as nat) + " "@,
{
    let at: u64 = if shown == 0 {
        0
    } else {
        selected as u64 + 1
    };
    text::concat5(
        " ",
        text::number(at).as_str(),
        "/",
        text::number(shown as u64).as_str(),
        " ",
    )
}

/// What the glyphs of the list mean, where there is room to say so.
pub open spec fn legend_of(width: u16) -> Seq<SpanView> {
    if width < 72 {
        Seq::empty()
    } else if width < 100 {
        seq![
            painted("●"@, Paint::Good),
            painted(" original  "@, Paint::Plain),
            painted("◐"@, Paint::Warn),
            painted(" device copy  "@, Paint::Plain),
            painted("· none "@, Paint::Plain),
        ]
    } else {
        seq![
            painted("●"@, Paint::Good),
            painted(" original  "@, Paint::Plain),
            painted("◐"@, Paint::Warn),
            painted(" device copy  "@, Paint::Plain),
            painted("✗"@, Paint::Bad),
            painted(" unreadable  "@, Paint::Plain),
            painted("· none "@, Paint::Plain),
        ]
    }
}

pub fn legend(width: u16) -> (r: Vec<Span>)
    ensures
        r.deep_view() == legend_of(width),
{
    let mut out = no_spans();
    if width >= 72 {
        put_span(&mut out, ink("●", Paint::Good));
        put_span(&mut out, ink(" original  ", Paint::Plain));
        put_span(&mut out, ink("◐", Paint::Warn));
        put_span(&mut out, ink(" device copy  ", Paint::Plain));
        if width >= 100 {
            put_span(&mut out, ink("✗", Paint::Bad));
            put_span(&mut out, ink(" unreadable  ", Paint::Plain));
        }
        put_span(&mut out, ink("· none ", Paint::Plain));
    }
    assert(out.deep_view() =~= legend_of(width));
    out
}

/// What an empty list says.
pub open spec fn empty_words(m: ModelView) -> Seq<char> {
    if m.loading is Some {
        "Discovering books; available locations appear as they finish…"@
    } else if m.options.first_run {
        "Setup is open. Choose your folders, or press Esc to browse without saving."@
    } else if m.skipped {
        "No books found. Press , to tell Crossload where your books live."@
    } else {
        "No books found. Check location status above or edit the search."@
    }
}

pub fn empty_list(model: &Model) -> (r: &'static str)
    ensures
        r@ == empty_words(model@),
{
    proof {
        reveal(Model::seen);
    }
    if model.loading.is_some() {
        "Discovering books; available locations appear as they finish…"
    } else if model.options.first_run {
        "Setup is open. Choose your folders, or press Esc to browse without saving."
    } else if model.skipped {
        "No books found. Press , to tell Crossload where your books live."
    } else {
        "No books found. Check location status above or edit the search."
    }
}

/// Which columns a list of a width has beside presence and title. Columns are
/// earned by width: the author, then the size of the copy a transfer would read
/// from.
pub fn columns(width: u16) -> (r: (bool, bool))
    ensures
        r == (width >= 56, width >= 92),
{
    (width >= 56, width >= 92)
}

/// One row of the list.
#[derive(Clone, Debug, PartialEq, Eq)]
pub struct Row {
    pub mark: Span,
    pub marker: Vec<Span>,
    pub title: Span,
    pub author: Span,
    pub detail: String,
    pub selected: bool,
}

#[verifier::ext_equal]
pub struct RowView {
    pub mark: SpanView,
    pub marker: Seq<SpanView>,
    pub title: SpanView,
    pub author: SpanView,
    pub detail: Seq<char>,
    pub selected: bool,
}

impl View for Row {
    type V = RowView;

    open spec fn view(&self) -> RowView {
        RowView {
            mark: self.mark@,
            marker: self.marker.deep_view(),
            title: self.title@,
            author: self.author@,
            detail: self.detail@,
            selected: self.selected,
        }
    }
}

impl DeepView for Row {
    type V = RowView;

    open spec fn deep_view(&self) -> RowView {
        self@
    }
}

/// What an entry's row shows. The selected row inverts as a whole, so its own
/// colours would read as patches: on that row the glyph shapes carry the state.
pub open spec fn row_of(
    entry: EntryView,
    marked: bool,
    selected: bool,
    title_width: int,
    author_width: int,
) -> RowView {
    RowView {
        mark: if marked {
            painted("✓"@, unless(selected, Paint::Good))
        } else {
            painted(" "@, Paint::Plain)
        },
        marker: match entry.source {
            SourceView::Book(book) => presence_of(book, selected),
            SourceView::Local(_) => seq![painted("  ⇩  "@, unless(selected, Paint::Warn))],
        },
        title: painted(
            shortened(entry.title, title_width),
            match entry.source {
                SourceView::Book(book) => if books::read::is_warning(book) {
                    unless(selected, Paint::Bad)
                } else {
                    Paint::Plain
                },
                SourceView::Local(_) => unless(selected, Paint::Warn),
            },
        ),
        author: painted(shortened(entry.author, author_width), Paint::Plain),
        detail: match entry.source {
            SourceView::Book(book) => match book.preferred() {
                Some(copy) => size_of(copy.size),
                None => ""@,
            },
            SourceView::Local(_) => entry.kind,
        },
        selected,
    }
}

fn row(entry: &Entry, marked: bool, selected: bool, title_width: usize, author_width: usize) -> (r: Row)
    ensures
        r@ == row_of(entry@, marked, selected, title_width as int, author_width as int),
{
    let mark = if marked {
        ink("✓", paint_unless(selected, Paint::Good))
    } else {
        ink(" ", Paint::Plain)
    };
    let title = shorten(entry.title.as_str(), title_width);
    let author = ink_owned(shorten(entry.author.as_str(), author_width), Paint::Plain);
    match &entry.source {
        Source::Book(book) => {
            let paint = if books::read::never_hashed(book) {
                paint_unless(selected, Paint::Bad)
            } else {
                Paint::Plain
            };
            let detail = match book.preferred() {
                Some(copy) => size(copy.size),
                None => "".to_owned(),
            };
            Row {
                mark,
                marker: presence(book, selected),
                title: ink_owned(title, paint),
                author,
                detail,
                selected,
            }
        },
        Source::Local(_) => Row {
            mark,
            marker: line1(ink("  ⇩  ", paint_unless(selected, Paint::Warn))),
            title: ink_owned(title, paint_unless(selected, Paint::Warn)),
            author,
            detail: entry.kind.to_owned(),
            selected,
        },
    }
}

/// The rows in view: those from `start` on, as many as fit.
pub open spec fn rows_of(
    m: ModelView,
    entries: Seq<EntryView>,
    start: int,
    visible: int,
    title_width: int,
    author_width: int,
) -> Seq<RowView> {
    let count = if start + visible <= entries.len() {
        visible
    } else if start <= entries.len() {
        entries.len() - start
    } else {
        0
    };
    Seq::new(
        count as nat,
        |i: int|
            row_of(
                entries[start + i],
                m.is_marked(entries[start + i]),
                start + i == m.selected,
                title_width,
                author_width,
            ),
    )
}

pub fn rows(
    model: &Model,
    entries: &Vec<&Entry>,
    start: usize,
    visible: usize,
    title_width: usize,
    author_width: usize,
) -> (r: Vec<Row>)
    ensures
        r.deep_view() == rows_of(
            model@,
            entries.deep_view(),
            start as int,
            visible as int,
            title_width as int,
            author_width as int,
        ),
{
    proof {
        crate::tui::model::plain(*model);
    }
    let length: usize = entries.len();
    let count: usize = if start <= length && visible <= length - start {
        visible
    } else if start <= length {
        length - start
    } else {
        0
    };
    let ghost wanted = rows_of(
        model@,
        entries.deep_view(),
        start as int,
        visible as int,
        title_width as int,
        author_width as int,
    );
    let mut out: Vec<Row> = Vec::new();
    assert(out.deep_view() =~= wanted.take(0));
    for i in 0..count
        invariant
            length == entries@.len(),
            start + count <= length || count == 0,
            count == wanted.len(),
            model@.selected == model.selected,
            wanted == rows_of(
                model@,
                entries.deep_view(),
                start as int,
                visible as int,
                title_width as int,
                author_width as int,
            ),
            out.deep_view() == wanted.take(i as int),
    {
        let ghost before = out.deep_view();
        let entry: &Entry = entries[start + i];
        assert(entries.deep_view()[start + i] == entry@);
        let made = row(
            entry,
            model.is_marked(entry),
            start + i == model.selected,
            title_width,
            author_width,
        );
        let ghost shown = made@;
        out.push(made);
        proof {
            assert(out.deep_view() =~= before.push(shown));
            assert(wanted.take(i as int + 1) =~= before.push(wanted[i as int]));
        }
    }
    assert(wanted.take(count as int) =~= wanted);
    out
}

} // verus!
