//! The dialogs that open over the library.
use super::{
    align, aligned, at_most, clean, cleaned, ink, ink_owned, less, line1, line2, line3, line4,
    line5, no_lines, pad, padded, painted, put_line, put_span, shorten,
    shortened, tail, tail_of, text_width, width, Paint, Span, SpanView,
};
use crate::books;
use crate::books::transfer::{size, size_of};
use crate::books::{Book, BookView, Place};
use crate::history;
use crate::pdf::layout::{fields, split_fields};
use crate::text;
use crate::tui::model::{
    filter_listed, Destination, DestinationView, Filter, Model, ModelView, Removal, RemovalView,
    FILTERS,
};
use crate::tui::settings::{row_label, row_name, Mark, MarkView, Panel, PanelView};
use crate::tui::{Entry, EntryView, Source, SourceView};
use crate::values::Duplicate;
use vstd::prelude::*;

pub mod laws;

verus! {

broadcast use vstd::string::group_string_axioms;

/// Where a dialog stands on the screen: in the middle, and never larger than
/// what it covers.
#[derive(Clone, Copy, Debug, PartialEq, Eq, Structural)]
pub struct Area {
    pub x: u16,
    pub y: u16,
    pub width: u16,
    pub height: u16,
}

/// Whether an area lies on a screen.
pub open spec fn on_screen(area: Area) -> bool {
    area.x + area.width <= u16::MAX && area.y + area.height <= u16::MAX
}

pub fn overlay(bounds: Area, width: u16, height: u16) -> (r: Area)
    requires
        on_screen(bounds),
    ensures
        r.width == at_most(width as int, bounds.width as int),
        r.height == at_most(height as int, bounds.height as int),
        r.x == bounds.x + (bounds.width - r.width) / 2,
        r.y == bounds.y + (bounds.height - r.height) / 2,
        on_screen(r),
        bounds.x <= r.x,
        r.x + r.width <= bounds.x + bounds.width,
        bounds.y <= r.y,
        r.y + r.height <= bounds.y + bounds.height,
{
    let width: u16 = if width < bounds.width {
        width
    } else {
        bounds.width
    };
    let height: u16 = if height < bounds.height {
        height
    } else {
        bounds.height
    };
    Area {
        x: bounds.x + (bounds.width - width) / 2,
        y: bounds.y + (bounds.height - height) / 2,
        width,
        height,
    }
}

/// How tall a dialog of so many lines is, with its frame.
pub fn dialog_height(lines: usize) -> (r: u16)
    ensures
        r == at_most(lines as int + 2, u16::MAX as int),
{
    if lines < 65533 {
        lines as u16 + 2
    } else {
        u16::MAX
    }
}

/// Words put on lines that fit: the full lines, and the one that is being
/// filled, after the first `n` words.
pub open spec fn filled(words: Seq<Seq<char>>, n: int, limit: int) -> (Seq<Seq<char>>, Seq<char>)
    decreases n,
{
    if n <= 0 || n > words.len() {
        (Seq::empty(), Seq::empty())
    } else {
        let (lines, line) = filled(words, n - 1, limit);
        let candidate = if line.len() == 0 {
            words[n - 1]
        } else {
            line + " "@ + words[n - 1]
        };
        if text_width(candidate) > limit && line.len() > 0 {
            (lines.push(line), words[n - 1])
        } else {
            (lines, candidate)
        }
    }
}

/// A text on lines that fit, broken on word boundaries.
pub open spec fn wrapped_of(s: Seq<char>, limit: int) -> Seq<Seq<char>> {
    let most = if limit < 8 {
        8
    } else {
        limit
    };
    let words = fields(s);
    let (lines, line) = filled(words, words.len() as int, most);
    if line.len() > 0 {
        lines.push(line)
    } else {
        lines
    }
}

/// Break text into lines that fit, on word boundaries where it can.
pub fn wrapped(s: &str, limit: usize) -> (r: Vec<String>)
    ensures
        r.deep_view() == wrapped_of(s@, limit as int),
{
    let most: usize = if limit < 8 {
        8
    } else {
        limit
    };
    let words = split_fields(s);
    let ghost all = words.deep_view();
    let mut lines: Vec<String> = Vec::new();
    let mut line = String::new();
    proof {
        assert(lines.deep_view() =~= Seq::<Seq<char>>::empty());
        assert(line@ =~= Seq::<char>::empty());
    }
    for i in 0..words.len()
        invariant
            all == words.deep_view(),
            (lines.deep_view(), line@) == filled(all, i as int, most as int),
    {
        assert(all[i as int] == words@[i as int]@);
        let word = words[i].as_str();
        let empty = line.as_str().is_empty();
        let candidate = if empty {
            word.to_owned()
        } else {
            text::concat3(line.as_str(), " ", word)
        };
        if width(candidate.as_str()) > most && !empty {
            let ghost before = lines.deep_view();
            let ghost done = line@;
            lines.push(line);
            proof {
                assert(lines.deep_view() =~= before.push(done));
            }
            line = word.to_owned();
        } else {
            line = candidate;
        }
    }
    if !line.as_str().is_empty() {
        let ghost before = lines.deep_view();
        let ghost done = line@;
        lines.push(line);
        proof {
            assert(lines.deep_view() =~= before.push(done));
        }
    }
    lines
}

/// The most a set of books could take at its destination: what its sources
/// weigh. Optimizing and converting only ever make a book smaller.
pub open spec fn weight(entries: Seq<EntryView>) -> int
    decreases entries.len(),
{
    if entries.len() == 0 {
        0
    } else {
        weight(entries.drop_last()) + match entries.last().source {
            SourceView::Book(book) => match book.preferred() {
                Some(copy) => copy.size as int,
                None => 0,
            },
            SourceView::Local(_) => 0,
        }
    }
}

/// What a set of books weighs, where that can be said in a number of its kind.
pub fn wanted(entries: &Vec<Entry>) -> (r: Option<u64>)
    ensures
        match r {
            Some(sum) => sum == weight(entries.deep_view()),
            None => weight(entries.deep_view()) > u64::MAX,
        },
{
    let ghost all = entries.deep_view();
    let mut sum: u64 = 0;
    proof {
        assert(all.take(0) =~= Seq::<EntryView>::empty());
    }
    for i in 0..entries.len()
        invariant
            all == entries.deep_view(),
            sum == weight(all.take(i as int)),
    {
        proof {
            assert(all.take(i as int + 1).drop_last() =~= all.take(i as int));
            assert(all[i as int] == entries@[i as int]@);
        }
        let more: u64 = match &entries[i].source {
            Source::Book(book) => match book.preferred() {
                Some(copy) => copy.size,
                None => 0,
            },
            Source::Local(_) => 0,
        };
        if more > u64::MAX - sum {
            proof {
                weight_grows(all, i as int + 1);
            }
            return None;
        }
        sum += more;
    }
    proof {
        assert(all.take(all.len() as int) =~= all);
    }
    Some(sum)
}

proof fn weight_grows(entries: Seq<EntryView>, n: int)
    requires
        0 <= n <= entries.len(),
    ensures
        weight(entries.take(n)) <= weight(entries),
    decreases entries.len(),
{
    if n < entries.len() {
        assert(entries.take(n) =~= entries.drop_last().take(n));
        weight_grows(entries.drop_last(), n);
    } else {
        assert(entries.take(n) =~= entries);
    }
}

pub open spec fn cancel_line() -> Seq<SpanView> {
    seq![painted("esc"@, Paint::Accent), painted(" cancel"@, Paint::Plain)]
}

/// Texts as lines of one paint.
pub open spec fn plain_lines(texts: Seq<Seq<char>>, paint: Paint) -> Seq<Seq<SpanView>> {
    Seq::new(texts.len(), |i: int| seq![painted(texts[i], paint)])
}

/// What is asked before a conversion that will come out poorly.
pub open spec fn ask_of(place: Place, reason: Seq<char>, width: int) -> Seq<Seq<SpanView>> {
    plain_lines(wrapped_of(cleaned(reason), less(width, 2)), Paint::Warn).push(
        Seq::empty(),
    ).push(
        seq![
            painted("y"@, Paint::Accent),
            painted(" convert and copy to "@ + place.name(), Paint::Plain),
        ],
    ).push(cancel_line())
}

fn put_plain(lines: &mut Vec<Vec<Span>>, texts: &Vec<String>, paint: Paint)
    ensures
        final(lines).deep_view() == old(lines).deep_view() + plain_lines(texts.deep_view(), paint),
{
    let ghost start = lines.deep_view();
    let ghost all = plain_lines(texts.deep_view(), paint);
    proof {
        assert(start + all.take(0) =~= start);
    }
    for i in 0..texts.len()
        invariant
            all == plain_lines(texts.deep_view(), paint),
            lines.deep_view() == start + all.take(i as int),
    {
        assert(texts.deep_view()[i as int] == texts@[i as int]@);
        put_line(lines, line1(ink(texts[i].as_str(), paint)));
        proof {
            assert(start + all.take(i as int + 1) =~= (start + all.take(i as int)).push(
                all[i as int],
            ));
        }
    }
    proof {
        assert(all.take(all.len() as int) =~= all);
    }
}

fn put_blank(lines: &mut Vec<Vec<Span>>)
    ensures
        final(lines).deep_view() == old(lines).deep_view().push(Seq::<SpanView>::empty()),
{
    put_line(lines, super::no_spans());
}

pub fn ask_lines(place: Place, reason: &str, width: u16) -> (r: Vec<Vec<Span>>)
    ensures
        r.deep_view() == ask_of(place, reason@, width as int),
{
    let room: usize = if width > 2 {
        width as usize - 2
    } else {
        0
    };
    let texts = wrapped(clean(reason).as_str(), room);
    let mut lines = no_lines();
    put_plain(&mut lines, &texts, Paint::Warn);
    proof {
        assert(lines.deep_view() =~= plain_lines(texts.deep_view(), Paint::Warn));
    }
    put_blank(&mut lines);
    put_line(
        &mut lines,
        line2(
            ink("y", Paint::Accent),
            ink_owned(text::concat(" convert and copy to ", place.label()), Paint::Plain),
        ),
    );
    put_line(&mut lines, line2(ink("esc", Paint::Accent), ink(" cancel", Paint::Plain)));
    lines
}

/// What is said of copying a set to one place: how many could go, whether one
/// would ask first, and the first reasons for and against.
#[verifier::ext_equal]
pub struct TallyView {
    pub ready: nat,
    pub asking: bool,
    pub hint: Seq<char>,
    pub blocked: Seq<char>,
}

pub struct Tally {
    pub ready: usize,
    pub asking: bool,
    pub hint: String,
    pub blocked: String,
}

impl View for Tally {
    type V = TallyView;

    open spec fn view(&self) -> TallyView {
        TallyView {
            ready: self.ready as nat,
            asking: self.asking,
            hint: self.hint@,
            blocked: self.blocked@,
        }
    }
}

pub open spec fn first_of(old: Seq<char>, new: Seq<char>) -> Seq<char> {
    if old.len() == 0 {
        new
    } else {
        old
    }
}

pub open spec fn tallied(m: ModelView, entries: Seq<EntryView>, place: Place) -> TallyView
    decreases entries.len(),
{
    if entries.len() == 0 {
        TallyView { ready: 0, asking: false, hint: Seq::empty(), blocked: Seq::empty() }
    } else {
        let before = tallied(m, entries.drop_last(), place);
        match m.destination(entries.last(), place) {
            DestinationView::Ready(reason) => TallyView {
                ready: before.ready + 1,
                hint: first_of(before.hint, reason),
                ..before
            },
            DestinationView::Ask(reason, _) => TallyView {
                ready: before.ready + 1,
                asking: true,
                hint: first_of(before.hint, reason),
                ..before
            },
            DestinationView::Blocked(reason, _) => TallyView {
                blocked: first_of(before.blocked, reason),
                ..before
            },
        }
    }
}

fn tally(model: &Model, entries: &Vec<Entry>, place: Place) -> (r: Tally)
    ensures
        r@ == tallied(model@, entries.deep_view(), place),
        r.ready <= entries@.len(),
{
    let ghost all = entries.deep_view();
    let mut ready: usize = 0;
    let mut asking = false;
    let mut hint = String::new();
    let mut blocked = String::new();
    proof {
        assert(all.take(0) =~= Seq::<EntryView>::empty());
        assert(hint@ =~= Seq::<char>::empty());
    }
    for i in 0..entries.len()
        invariant
            all == entries.deep_view(),
            ready <= i,
            (TallyView {
                ready: ready as nat,
                asking,
                hint: hint@,
                blocked: blocked@,
            }) == tallied(model@, all.take(i as int), place),
    {
        proof {
            assert(all.take(i as int + 1).drop_last() =~= all.take(i as int));
            assert(all[i as int] == entries@[i as int]@);
        }
        match model.destination(&entries[i], place) {
            Destination::Ready(reason) => {
                ready += 1;
                if hint.as_str().is_empty() {
                    hint = reason.to_owned();
                }
            },
            Destination::Ask(reason, _) => {
                ready += 1;
                asking = true;
                if hint.as_str().is_empty() {
                    hint = reason.to_owned();
                }
            },
            Destination::Blocked(reason, _) => {
                if blocked.as_str().is_empty() {
                    blocked = reason.to_owned();
                }
            },
        }
    }
    proof {
        assert(all.take(all.len() as int) =~= all);
    }
    Tally { ready, asking, hint, blocked }
}

/// What the dialog says of one place.
pub open spec fn offer_words(t: TallyView, count: nat) -> Seq<char> {
    if t.ready == 0 {
        t.blocked
    } else if count == 1 {
        t.hint
    } else if t.ready == count {
        "copy all "@ + text::decimal(t.ready)
    } else {
        "copy "@ + text::decimal(t.ready) + " of "@ + text::decimal(count) + ", rest "@ + t.blocked
    }
}

/// The first thing known of the room at a place from `from` on.
pub open spec fn room_of(room: Seq<(Place, Option<u64>)>, place: Place, from: int) -> Option<
    Option<u64>,
>
    decreases room.len() - from,
{
    if from < 0 || from >= room.len() {
        None
    } else if room[from].0 == place {
        Some(room[from].1)
    } else {
        room_of(room, place, from + 1)
    }
}

fn find_room(room: &Vec<(Place, Option<u64>)>, place: Place) -> (r: Option<Option<u64>>)
    ensures
        r == room_of(room.deep_view(), place, 0),
{
    for i in 0..room.len()
        invariant
            room_of(room.deep_view(), place, 0) == room_of(room.deep_view(), place, i as int),
    {
        assert(room.deep_view()[i as int] == room@[i as int]);
        if room[i].0 == place {
            return Some(room[i].1);
        }
    }
    None
}

/// What the destination has left, and whether the set would fit in it. A
/// conversion shrinks a PDF a long way, so the source size is the most that
/// could be needed rather than what will be. Only a mounted card can be
/// measured.
pub open spec fn space_of(ready: nat, room: Option<Option<u64>>, wanted: u64) -> SpanView {
    if ready == 0 {
        painted(""@, Paint::Plain)
    } else {
        match room {
            Some(Some(free)) => if free < wanted {
                painted("  ✗ "@ + size_of(free) + " free"@, Paint::Bad)
            } else {
                painted("  "@ + size_of(free) + " free"@, Paint::Plain)
            },
            Some(None) => painted("  free unknown"@, Paint::Plain),
            None => painted(""@, Paint::Plain),
        }
    }
}

fn space(ready: usize, room: Option<Option<u64>>, wanted: u64) -> (r: Span)
    ensures
        r@ == space_of(ready as nat, room, wanted),
{
    if ready == 0 {
        return ink("", Paint::Plain);
    }
    match room {
        Some(Some(free)) => if free < wanted {
            ink_owned(text::concat3("  ✗ ", size(free).as_str(), " free"), Paint::Bad)
        } else {
            ink_owned(text::concat3("  ", size(free).as_str(), " free"), Paint::Plain)
        },
        Some(None) => ink("  free unknown", Paint::Plain),
        None => ink("", Paint::Plain),
    }
}

/// The line of one place in the copy dialog. Availability is decided before the
/// keypress, by the same rules that are enforced afterwards.
pub open spec fn place_of(m: ModelView, key: Seq<char>, place: Place, wanted: u64) -> Seq<SpanView> {
    let t = tallied(m, m.action, place);
    seq![
        painted(
            key,
            if t.ready > 0 {
                Paint::Accent
            } else {
                Paint::Plain
            },
        ),
        painted("  "@, Paint::Plain),
        painted(
            padded(place.name(), 11),
            if t.ready > 0 {
                Paint::Bold
            } else {
                Paint::Plain
            },
        ),
        painted(
            offer_words(t, m.action.len()),
            if t.ready == 0 {
                Paint::Bad
            } else if t.asking {
                Paint::Warn
            } else {
                Paint::Good
            },
        ),
        space_of(t.ready, room_of(m.room, place, 0), wanted),
    ]
}

fn place_line(model: &Model, key: &str, place: Place, wanted: u64) -> (r: Vec<Span>)
    ensures
        r.deep_view() == place_of(model@, key@, place, wanted),
{
    proof {
        reveal(Model::seen);
    }
    let t = tally(model, &model.action, place);
    let count: usize = model.action.len();
    assert(model@.action.len() == count);
    let words = if t.ready == 0 {
        t.blocked.duplicate()
    } else if count == 1 {
        t.hint.duplicate()
    } else if t.ready == count {
        text::concat("copy all ", text::number(t.ready as u64).as_str())
    } else {
        let head = text::concat5(
            "copy ",
            text::number(t.ready as u64).as_str(),
            " of ",
            text::number(count as u64).as_str(),
            ", rest ",
        );
        text::concat(head.as_str(), t.blocked.as_str())
    };
    let free = space(t.ready, find_room(&model.room, place), wanted);
    line5(
        ink(
            key,
            if t.ready > 0 {
                Paint::Accent
            } else {
                Paint::Plain
            },
        ),
        ink("  ", Paint::Plain),
        ink_owned(
            pad(place.label(), 11),
            if t.ready > 0 {
                Paint::Bold
            } else {
                Paint::Plain
            },
        ),
        ink_owned(
            words,
            if t.ready == 0 {
                Paint::Bad
            } else if t.asking {
                Paint::Warn
            } else {
                Paint::Good
            },
        ),
        free,
    )
}

/// What the copy dialog says is being copied.
pub open spec fn subject_of(entries: Seq<EntryView>, wanted: u64) -> SpanView {
    if entries.len() == 1 {
        match entries[0].source {
            SourceView::Book(book) => match book.preferred() {
                Some(copy) => painted(
                    "from "@ + copy.place.name() + " · "@ + size_of(copy.size),
                    Paint::Plain,
                ),
                None => painted("no usable copy"@, Paint::Bad),
            },
            SourceView::Local(_) => painted("from a local ACSM request"@, Paint::Plain),
        }
    } else {
        painted(
            books::counted(entries.len()) + " marked · "@ + size_of(wanted),
            Paint::Plain,
        )
    }
}

fn subject(entries: &Vec<Entry>, wanted: u64) -> (r: Span)
    ensures
        r@ == subject_of(entries.deep_view(), wanted),
{
    assert(entries.deep_view().len() == entries@.len());
    if entries.len() == 1 {
        assert(entries.deep_view()[0] == entries@[0]@);
        match &entries[0].source {
            Source::Book(book) => match book.preferred() {
                Some(copy) => ink_owned(
                    text::concat4(
                        "from ",
                        copy.place.label(),
                        " · ",
                        size(copy.size).as_str(),
                    ),
                    Paint::Plain,
                ),
                None => ink("no usable copy", Paint::Bad),
            },
            Source::Local(_) => ink("from a local ACSM request", Paint::Plain),
        }
    } else {
        ink_owned(
            text::concat3(
                books::books(entries.len()).as_str(),
                " marked · ",
                size(wanted).as_str(),
            ),
            Paint::Plain,
        )
    }
}

/// The copy dialog.
pub open spec fn action_of(m: ModelView, wanted: u64) -> Seq<Seq<SpanView>> {
    seq![
        seq![subject_of(m.action, wanted)],
        Seq::<SpanView>::empty(),
        place_of(m, "1"@, Place::Local, wanted),
        place_of(m, "2"@, Place::Kobo, wanted),
        place_of(m, "3"@, Place::CrossPoint, wanted),
        Seq::<SpanView>::empty(),
        cancel_line(),
    ]
}

/// Copy destinations as a dialog over the list.
pub fn action_lines(model: &Model, wanted: u64) -> (r: Vec<Vec<Span>>)
    ensures
        r.deep_view() == action_of(model@, wanted),
{
    proof {
        crate::tui::model::plain(*model);
    }
    let mut lines = no_lines();
    put_line(&mut lines, line1(subject(&model.action, wanted)));
    put_blank(&mut lines);
    put_line(&mut lines, place_line(model, "1", Place::Local, wanted));
    put_line(&mut lines, place_line(model, "2", Place::Kobo, wanted));
    put_line(&mut lines, place_line(model, "3", Place::CrossPoint, wanted));
    put_blank(&mut lines);
    put_line(&mut lines, line2(ink("esc", Paint::Accent), ink(" cancel", Paint::Plain)));
    assert(lines.deep_view() =~= action_of(model@, wanted));
    lines
}

pub fn action_title(entries: &Vec<Entry>) -> (r: String)
    ensures
        r@ == action_title_of(entries.deep_view()),
{
    if entries.len() == 1 {
        assert(entries.deep_view()[0] == entries@[0]@);
        text::concat3(" Copy to · ", shorten(entries[0].title.as_str(), 24).as_str(), " ")
    } else {
        text::concat3(" Copy ", books::books(entries.len()).as_str(), " to ")
    }
}

/// The two lines of one copy. The key that would delete it stands out only where
/// it may be deleted.
pub open spec fn copy_of(m: ModelView, book: BookView, i: int, width: int) -> Seq<Seq<SpanView>> {
    let copy = book.copies[i];
    let removal = m.removal(book, copy);
    seq![
        seq![
            painted(
                text::decimal((i + 1) as nat),
                if removal is Ready {
                    Paint::Accent
                } else {
                    Paint::Plain
                },
            ),
            painted("  "@, Paint::Plain),
            painted(padded(copy.place.name(), 7), Paint::Bold),
            painted(aligned(size_of(copy.size), 9) + "  "@, Paint::Plain),
            painted(
                padded(
                    if copy.sha.len() == 0 {
                        "unreadable"@
                    } else if copy.optimized {
                        "device copy"@
                    } else {
                        "original"@
                    },
                    12,
                ),
                if copy.optimized {
                    Paint::Warn
                } else {
                    Paint::Good
                },
            ),
            painted(
                match removal {
                    RemovalView::Ready => ""@,
                    RemovalView::Blocked(reason, _) => reason,
                },
                Paint::Plain,
            ),
        ],
        seq![painted("     "@ + tail_of(copy.path, less(width, 8)), Paint::Plain)],
    ]
}

/// The lines of the first `n` copies.
pub open spec fn copies_to(m: ModelView, book: BookView, n: int, width: int) -> Seq<Seq<SpanView>>
    decreases n,
{
    if n <= 0 {
        Seq::empty()
    } else {
        copies_to(m, book, n - 1, width) + copy_of(m, book, n - 1, width)
    }
}

/// What the dialog of copies asks, or offers, below them.
pub open spec fn copies_end(confirm: Option<(Place, Seq<char>)>, width: int) -> Seq<Seq<SpanView>> {
    match confirm {
        Some((place, path)) => seq![
            seq![
                painted("Delete this "@, Paint::Bad),
                painted(place.name(), Paint::Bold),
                painted(" copy? It cannot be undone."@, Paint::Bad),
            ],
            seq![painted("  "@ + tail_of(path, less(width, 5)), Paint::Plain)],
            seq![
                painted("  y"@, Paint::Accent),
                painted(" deletes it · "@, Paint::Plain),
                painted("esc"@, Paint::Accent),
                painted(" keeps it"@, Paint::Plain),
            ],
        ],
        None => seq![
            seq![
                painted("1-9"@, Paint::Accent),
                painted(" delete that copy · "@, Paint::Plain),
                painted("esc"@, Paint::Accent),
                painted(" close"@, Paint::Plain),
            ],
        ],
    }
}

/// Every copy of one book, nine at most, which is also the only place a
/// duplicate becomes visible: two files of the same book share a single row in
/// the library.
pub open spec fn copies_of(m: ModelView, book: BookView, width: int) -> Seq<Seq<SpanView>> {
    copies_to(m, book, at_most(book.copies.len() as int, 9), width).push(Seq::empty())
        + copies_end(m.confirm, width)
}

fn put_copy(lines: &mut Vec<Vec<Span>>, model: &Model, book: &Book, i: usize, width: u16)
    requires
        i < book.copies@.len(),
        i < 9,
    ensures
        final(lines).deep_view() == old(lines).deep_view() + copy_of(
            model@,
            book@,
            i as int,
            width as int,
        ),
{
    let ghost start = lines.deep_view();
    let copy = &book.copies[i];
    assert(book@.copies[i as int] == copy@);
    let (ready, why): (bool, &'static str) = match model.removal(book, copy) {
        Removal::Ready => (true, ""),
        Removal::Blocked(reason, _) => (false, reason),
    };
    let mut line = line5(
        ink_owned(
            text::number(i as u64 + 1),
            if ready {
                Paint::Accent
            } else {
                Paint::Plain
            },
        ),
        ink("  ", Paint::Plain),
        ink_owned(pad(copy.place.label(), 7), Paint::Bold),
        ink_owned(
            text::concat(align(size(copy.size).as_str(), 9).as_str(), "  "),
            Paint::Plain,
        ),
        ink_owned(
            pad(
                if copy.sha.as_str().is_empty() {
                    "unreadable"
                } else if copy.optimized {
                    "device copy"
                } else {
                    "original"
                },
                12,
            ),
            if copy.optimized {
                Paint::Warn
            } else {
                Paint::Good
            },
        ),
    );
    put_span(&mut line, ink(why, Paint::Plain));
    let room: usize = if width > 8 {
        width as usize - 8
    } else {
        0
    };
    let path = text::concat("     ", tail(copy.path.as_str(), room).as_str());
    proof {
        assert(line.deep_view() =~= copy_of(model@, book@, i as int, width as int)[0]);
    }
    put_line(lines, line);
    put_line(lines, line1(ink_owned(path, Paint::Plain)));
    proof {
        assert(lines.deep_view() =~= start + copy_of(model@, book@, i as int, width as int));
    }
}

fn put_end(lines: &mut Vec<Vec<Span>>, confirm: &Option<(Place, String)>, width: u16)
    ensures
        final(lines).deep_view() == old(lines).deep_view() + copies_end(
            confirm.deep_view(),
            width as int,
        ),
{
    let ghost start = lines.deep_view();
    match confirm {
        Some((place, path)) => {
            let room: usize = if width > 5 {
                width as usize - 5
            } else {
                0
            };
            put_line(
                lines,
                line3(
                    ink("Delete this ", Paint::Bad),
                    ink(place.label(), Paint::Bold),
                    ink(" copy? It cannot be undone.", Paint::Bad),
                ),
            );
            put_line(
                lines,
                line1(
                    ink_owned(
                        text::concat("  ", tail(path.as_str(), room).as_str()),
                        Paint::Plain,
                    ),
                ),
            );
            put_line(
                lines,
                line4(
                    ink("  y", Paint::Accent),
                    ink(" deletes it · ", Paint::Plain),
                    ink("esc", Paint::Accent),
                    ink(" keeps it", Paint::Plain),
                ),
            );
            assert(lines.deep_view() =~= start + copies_end(confirm.deep_view(), width as int));
        },
        None => {
            put_line(
                lines,
                line4(
                    ink("1-9", Paint::Accent),
                    ink(" delete that copy · ", Paint::Plain),
                    ink("esc", Paint::Accent),
                    ink(" close", Paint::Plain),
                ),
            );
            assert(lines.deep_view() =~= start + copies_end(confirm.deep_view(), width as int));
        },
    }
}

pub fn copies_lines(model: &Model, book: &Book, width: u16) -> (r: Vec<Vec<Span>>)
    ensures
        r.deep_view() == copies_of(model@, book@, width as int),
{
    proof {
        crate::tui::model::plain(*model);
    }
    let count: usize = if book.copies.len() < 9 {
        book.copies.len()
    } else {
        9
    };
    assert(book@.copies.len() == book.copies@.len());
    let mut lines = no_lines();
    for i in 0..count
        invariant
            count <= 9,
            count <= book.copies@.len(),
            lines.deep_view() == copies_to(model@, book@, i as int, width as int),
    {
        put_copy(&mut lines, model, book, i, width);
    }
    put_blank(&mut lines);
    put_end(&mut lines, &model.confirm, width);
    lines
}

/// One line of the record of copies.
pub open spec fn record_of(entry: history::EntryView) -> Seq<SpanView> {
    seq![
        painted(history::stamped(entry.at) + "  "@, Paint::Plain),
        painted(padded(shortened(entry.title, 33), 34), Paint::Bold),
        painted(padded(entry.to.name(), 11), Paint::Plain),
        if entry.ok {
            painted("copied"@, Paint::Good)
        } else {
            painted(shortened("failed: "@ + entry.detail, 24), Paint::Bad)
        },
    ]
}

/// The record of copies, newest first, as much of it as fits.
pub open spec fn history_of(entries: Seq<history::EntryView>, height: int) -> Seq<Seq<SpanView>> {
    if entries.len() == 0 {
        seq![
            seq![
                painted("Nothing copied yet, or the record has not been kept."@, Paint::Plain),
            ],
        ]
    } else {
        Seq::new(
            at_most(entries.len() as int, height) as nat,
            |i: int| record_of(entries[entries.len() - 1 - i]),
        )
    }
}

pub fn history_lines(entries: &Vec<history::Entry>, height: u16) -> (r: Vec<Vec<Span>>)
    ensures
        r.deep_view() == history_of(entries.deep_view(), height as int),
{
    let ghost all = entries.deep_view();
    let length: usize = entries.len();
    let mut lines = no_lines();
    if length == 0 {
        put_line(
            &mut lines,
            line1(ink("Nothing copied yet, or the record has not been kept.", Paint::Plain)),
        );
        assert(lines.deep_view() =~= history_of(all, height as int));
        return lines;
    }
    let count: usize = if length < height as usize {
        length
    } else {
        height as usize
    };
    let ghost goal = history_of(all, height as int);
    assert(lines.deep_view() =~= goal.take(0));
    for i in 0..count
        invariant
            length == entries@.len(),
            length > 0,
            all == entries.deep_view(),
            count <= length,
            count == goal.len(),
            goal == history_of(all, height as int),
            lines.deep_view() == goal.take(i as int),
    {
        let entry = &entries[length - 1 - i];
        assert(all[length - 1 - i] == entry@);
        let end = if entry.ok {
            ink("copied", Paint::Good)
        } else {
            ink_owned(
                shorten(text::concat("failed: ", entry.detail.as_str()).as_str(), 24),
                Paint::Bad,
            )
        };
        put_line(
            &mut lines,
            line4(
                ink_owned(
                    text::concat(history::stamp(entry.at).as_str(), "  "),
                    Paint::Plain,
                ),
                ink_owned(pad(shorten(entry.title.as_str(), 33).as_str(), 34), Paint::Bold),
                ink_owned(pad(entry.to.label(), 11), Paint::Plain),
                end,
            ),
        );
        assert(goal.take(i as int + 1) =~= goal.take(i as int).push(goal[i as int]));
    }
    assert(goal.take(count as int) =~= goal);
    lines
}

/// One line of the filter menu.
pub open spec fn filter_of(i: int, current: Filter, selected: int) -> Seq<SpanView> {
    seq![
        painted(
            text::decimal((i + 1) as nat) + "  "@ + filter_listed(i).words() + (if filter_listed(i)
                == current {
                " ✓"@
            } else {
                ""@
            }),
            if selected == i {
                Paint::Reverse
            } else {
                Paint::Plain
            },
        ),
    ]
}

pub fn filter_lines(current: Filter, selected: usize) -> (r: Vec<Vec<Span>>)
    ensures
        r.deep_view() == Seq::new(FILTERS as nat, |i: int| filter_of(i, current, selected as int)),
{
    let ghost goal = Seq::new(FILTERS as nat, |i: int| filter_of(i, current, selected as int));
    let mut lines = no_lines();
    assert(lines.deep_view() =~= goal.take(0));
    for i in 0..FILTERS
        invariant
            goal == Seq::new(FILTERS as nat, |i: int| filter_of(i, current, selected as int)),
            lines.deep_view() == goal.take(i as int),
    {
        let filter = Filter::at(i);
        let words = text::concat4(
            text::number(i as u64 + 1).as_str(),
            "  ",
            filter.label().as_str(),
            if filter == current {
                " ✓"
            } else {
                ""
            },
        );
        put_line(
            &mut lines,
            line1(
                ink_owned(
                    words,
                    if selected == i {
                        Paint::Reverse
                    } else {
                        Paint::Plain
                    },
                ),
            ),
        );
        assert(goal.take(i as int + 1) =~= goal.take(i as int).push(goal[i as int]));
    }
    assert(goal.take(FILTERS as int) =~= goal);
    lines
}

/// What the settings dialog says of its keys.
pub open spec fn settings_keys_of(panel: PanelView, working: bool) -> Seq<char> {
    if working {
        "Working… Ctrl+C quits after completion"@
    } else if panel.device_selected is Some {
        "↑/↓ choose · Enter select · Esc cancel"@
    } else if panel.edit is Some {
        "←/→ Home/End move · Ctrl+U clear · Enter accept · Ctrl+S save · Esc undo"@
    } else if panel.first_run {
        "↑/↓ Tab select · Enter edit/run · Ctrl+S save · Esc skip setup for now"@
    } else {
        "↑/↓ Tab select · Enter edit/run · Ctrl+S save · Esc discard and close"@
    }
}

pub fn settings_keys(panel: &Panel, working: bool) -> (r: &'static str)
    ensures
        r@ == settings_keys_of(panel@, working),
{
    if working {
        "Working… Ctrl+C quits after completion"
    } else if panel.device_selected.is_some() {
        "↑/↓ choose · Enter select · Esc cancel"
    } else if panel.edit.is_some() {
        "←/→ Home/End move · Ctrl+U clear · Enter accept · Ctrl+S save · Esc undo"
    } else if panel.first_run {
        "↑/↓ Tab select · Enter edit/run · Ctrl+S save · Esc skip setup for now"
    } else {
        "↑/↓ Tab select · Enter edit/run · Ctrl+S save · Esc discard and close"
    }
}

/// How far the settings dialog is scrolled, so that the selected row's last line
/// is in view: the six values take two lines each, the two actions one.
pub open spec fn settings_scroll_of(panel: PanelView, height: int) -> int {
    let line = match panel.device_selected {
        Some(i) => i as int,
        None => panel.selected + at_most(panel.selected as int, 6) + (if panel.selected < 6 {
            1int
        } else {
            0
        }),
    };
    less(line, less(height, 1))
}

pub fn settings_scroll(panel: &Panel, height: u16) -> (r: usize)
    requires
        panel.selected < 8,
    ensures
        r == settings_scroll_of(panel@, height as int),
{
    let line: usize = match panel.device_selected {
        Some(i) => i,
        None => if panel.selected < 6 {
            2 * panel.selected + 1
        } else {
            panel.selected + 6
        },
    };
    let above: usize = if height > 1 {
        height as usize - 1
    } else {
        0
    };
    if line > above {
        line - above
    } else {
        0
    }
}

pub open spec fn mark_parts(mark: MarkView) -> (Seq<char>, Seq<char>) {
    match mark {
        MarkView::Silent => (""@, ""@),
        MarkView::Good(word) => ("✓"@, word),
        MarkView::Note(word) => ("·"@, word),
        MarkView::Warn(word) => ("⚠"@, word),
        MarkView::Bad(word) => ("✗"@, word),
    }
}

pub open spec fn mark_paint(mark: MarkView) -> Paint {
    match mark {
        MarkView::Good(_) => Paint::Good,
        MarkView::Warn(_) => Paint::Warn,
        MarkView::Bad(_) => Paint::Bad,
        _ => Paint::Plain,
    }
}

/// How much room a mark takes beside a value.
pub open spec fn mark_room(mark: MarkView) -> int {
    let (glyph, word) = mark_parts(mark);
    if word.len() == 0 {
        0
    } else {
        text_width(word) + text_width(glyph) + 3
    }
}

/// A value as its row shows it. Paths differ at their end, so that is the end to
/// keep; while it is edited the cursor stays visible even when a path is wider
/// than the dialog.
pub open spec fn value_of(panel: PanelView, row: int, room: int) -> Seq<char> {
    let value = panel.values[row];
    if value.len() == 0 {
        "(not configured)"@
    } else if row == panel.selected && panel.edit is Some {
        let cursor = (panel.edit->0).1 as int;
        tail_of(value.take(cursor), less(room, 1)) + "▏"@ + value.skip(cursor)
    } else if row == 3 || row == 5 {
        shortened(value, room)
    } else {
        tail_of(value, room)
    }
}

/// The line of a value. A value being typed owns the whole row: its mark is
/// about to change anyway.
pub open spec fn value_line(panel: PanelView, row: int, width: int) -> Seq<SpanView> {
    let selected = row == panel.selected;
    let mark = if selected && panel.edit is Some {
        MarkView::Silent
    } else {
        panel.marks[row]
    };
    let (glyph, word) = mark_parts(mark);
    let room = less(width, 4 + mark_room(mark));
    let value = painted(
        "    "@ + value_of(panel, row, room),
        if selected {
            Paint::Reverse
        } else {
            Paint::Plain
        },
    );
    if word.len() == 0 {
        seq![value]
    } else {
        seq![value, painted("  "@ + glyph + " "@ + word, mark_paint(mark))]
    }
}

/// The line that names a row. A row is a heading and the thing it names, so the
/// name keeps the weight and the value keeps the indent: which is which stays
/// visible when the selection is somewhere else.
pub open spec fn name_line(panel: PanelView, row: int) -> Seq<SpanView> {
    let selected = row == panel.selected;
    seq![
        painted(
            (if selected {
                "›"@
            } else {
                " "@
            }) + " "@ + row_name(row),
            if selected {
                Paint::Accent
            } else {
                Paint::Bold
            },
        ),
    ]
}

/// The lines of the first `n` rows.
pub open spec fn settings_to(panel: PanelView, n: int, width: int) -> Seq<Seq<SpanView>>
    decreases n,
{
    if n <= 0 {
        Seq::empty()
    } else {
        let named = settings_to(panel, n - 1, width).push(name_line(panel, n - 1));
        if n <= 6 {
            named.push(value_line(panel, n - 1, width))
        } else {
            named
        }
    }
}

/// The lines of the devices that were found, to choose from.
pub open spec fn device_lines(panel: PanelView, width: int) -> Seq<Seq<SpanView>> {
    Seq::new(
        panel.devices.len(),
        |i: int|
            seq![
                painted(
                    shortened(panel.devices[i], width),
                    if panel.device_selected == Some(i as usize) {
                        Paint::Reverse
                    } else {
                        Paint::Plain
                    },
                ),
            ],
    )
}

pub open spec fn settings_of(panel: PanelView, width: int) -> Seq<Seq<SpanView>> {
    if panel.device_selected is Some {
        device_lines(panel, width)
    } else {
        settings_to(panel, 8, width)
    }
}

/// Whether the cursor stands in the value that is edited.
pub open spec fn cursor_in(panel: PanelView) -> bool {
    panel.edit is Some && panel.selected < 6 ==> (panel.edit->0).1
        <= panel.values[panel.selected as int].len()
}

fn show_value(panel: &Panel, row: usize, room: usize) -> (r: String)
    requires
        row < 6,
        cursor_in(panel@),
    ensures
        r@ == value_of(panel@, row as int, room as int),
{
    let value = &panel.values[row];
    assert(panel@.values[row as int] == value@);
    if value.as_str().is_empty() {
        return "(not configured)".to_owned();
    }
    if row == panel.selected {
        if let Some((_, cursor)) = &panel.edit {
            let c = text::chars(value.as_str());
            let before = text::slice(c.as_slice(), 0, *cursor);
            let after = text::slice(c.as_slice(), *cursor, c.len());
            proof {
                assert(before@ =~= value@.take(*cursor as int));
                assert(after@ =~= value@.skip(*cursor as int));
            }
            let most: usize = if room > 1 {
                room - 1
            } else {
                0
            };
            return text::concat3(
                tail(before.as_str(), most).as_str(),
                "▏",
                after.as_str(),
            );
        }
    }
    if row == 3 || row == 5 {
        shorten(value.as_str(), room)
    } else {
        tail(value.as_str(), room)
    }
}

fn show_row(panel: &Panel, row: usize, wide: u16) -> (r: Vec<Span>)
    requires
        row < 6,
        cursor_in(panel@),
    ensures
        r.deep_view() == value_line(panel@, row as int, wide as int),
{
    let selected = row == panel.selected;
    let editing = selected && panel.edit.is_some();
    let mark = if editing {
        Mark::Silent
    } else {
        panel.marks[row]
    };
    assert(panel@.marks[row as int] == panel.marks[row as int]@);
    let (glyph, word) = mark.parts();
    let reserved: u128 = if word.is_empty() {
        0
    } else {
        width(word) as u128 + width(glyph) as u128 + 3
    };
    let room: usize = if wide as u128 > 4 + reserved {
        (wide as u128 - 4 - reserved) as usize
    } else {
        0
    };
    let value = ink_owned(
        text::concat("    ", show_value(panel, row, room).as_str()),
        if selected {
            Paint::Reverse
        } else {
            Paint::Plain
        },
    );
    if word.is_empty() {
        return line1(value);
    }
    let paint = match mark {
        Mark::Good(_) => Paint::Good,
        Mark::Warn(_) => Paint::Warn,
        Mark::Bad(_) => Paint::Bad,
        _ => Paint::Plain,
    };
    line2(value, ink_owned(text::concat4("  ", glyph, " ", word), paint))
}

pub fn settings_lines(panel: &Panel, width: u16) -> (r: Vec<Vec<Span>>)
    requires
        cursor_in(panel@),
    ensures
        r.deep_view() == settings_of(panel@, width as int),
{
    let mut lines = no_lines();
    if let Some(selected) = panel.device_selected {
        let ghost goal = device_lines(panel@, width as int);
        assert(lines.deep_view() =~= goal.take(0));
        for i in 0..panel.devices.len()
            invariant
                goal == device_lines(panel@, width as int),
                panel@.device_selected == Some(selected),
                lines.deep_view() == goal.take(i as int),
        {
            assert(panel@.devices[i as int] == panel.devices@[i as int]@);
            put_line(
                &mut lines,
                line1(
                    ink_owned(
                        shorten(panel.devices[i].as_str(), width as usize),
                        if selected == i {
                            Paint::Reverse
                        } else {
                            Paint::Plain
                        },
                    ),
                ),
            );
            assert(goal.take(i as int + 1) =~= goal.take(i as int).push(goal[i as int]));
        }
        assert(goal.take(panel.devices@.len() as int) =~= goal);
        return lines;
    }
    for row in 0..8usize
        invariant
            cursor_in(panel@),
            lines.deep_view() == settings_to(panel@, row as int, width as int),
    {
        let selected = row == panel.selected;
        let name = text::concat3(
            if selected {
                "›"
            } else {
                " "
            },
            " ",
            row_label(row),
        );
        put_line(
            &mut lines,
            line1(
                ink_owned(
                    name,
                    if selected {
                        Paint::Accent
                    } else {
                        Paint::Bold
                    },
                ),
            ),
        );
        if row < 6 {
            put_line(&mut lines, show_row(panel, row, width));
        }
    }
    lines
}

/// How many lines the help has.
pub const HELP_LINES: usize = 21;

/// What the keys do, line by line.
pub fn help() -> (r: Vec<&'static str>)
    ensures
        r@.len() == HELP_LINES,
        r.deep_view() == help_of(),
{
    let mut out: Vec<&'static str> = Vec::new();
    out.push("Navigate: arrows or j/k; Home/End; Page Up/Down");
    out.push("Enter       Choose where to copy the selected or marked books");
    out.push("Space       Mark or unmark the highlighted book");
    out.push("a           Mark or clear all books shown by the current filter");
    out.push("/           Search titles and authors; arrows still navigate");
    out.push("            author: title: series: search one field on its own");
    out.push("Esc/Enter   Leave search, keeping the query; Ctrl+U clears it");
    out.push("f           Open filters; arrows + Enter or 1–6 select");
    out.push("s           Sort by title, then author, then series (ascending)");
    out.push("d           Inspect copies; 1–9 asks to delete one; y confirms");
    out.push("h           What was copied lately, and whether it arrived");
    out.push("e           Correct a book's title, author or series");
    out.push("r           Refresh connected locations");
    out.push(",           Settings: folders, Kobo detection and reader test");
    out.push("Esc         Stop copying after this book; close a dialog; otherwise quit");
    out.push("q / Ctrl+C  Quit after active work finishes");
    out.push("");
    out.push("L / K / C   Local / Kobo / CrossPoint");
    out.push("● original   ◐ optimized device copy   · absent   ✗ unreadable");
    out.push("⇩ ACSM request: choose Local to fulfill it (activation required)");
    out.push("Marked books stay marked when hidden by a filter or search.");
    assert(out.deep_view() =~= help_of());
    out
}

pub open spec fn help_of() -> Seq<Seq<char>> {
    seq![
        "Navigate: arrows or j/k; Home/End; Page Up/Down"@,
        "Enter       Choose where to copy the selected or marked books"@,
        "Space       Mark or unmark the highlighted book"@,
        "a           Mark or clear all books shown by the current filter"@,
        "/           Search titles and authors; arrows still navigate"@,
        "            author: title: series: search one field on its own"@,
        "Esc/Enter   Leave search, keeping the query; Ctrl+U clears it"@,
        "f           Open filters; arrows + Enter or 1–6 select"@,
        "s           Sort by title, then author, then series (ascending)"@,
        "d           Inspect copies; 1–9 asks to delete one; y confirms"@,
        "h           What was copied lately, and whether it arrived"@,
        "e           Correct a book's title, author or series"@,
        "r           Refresh connected locations"@,
        ",           Settings: folders, Kobo detection and reader test"@,
        "Esc         Stop copying after this book; close a dialog; otherwise quit"@,
        "q / Ctrl+C  Quit after active work finishes"@,
        ""@,
        "L / K / C   Local / Kobo / CrossPoint"@,
        "● original   ◐ optimized device copy   · absent   ✗ unreadable"@,
        "⇩ ACSM request: choose Local to fulfill it (activation required)"@,
        "Marked books stay marked when hidden by a filter or search."@,
    ]
}

/// A dialog over the list: what it is called, how its border is painted, how
/// wide it is, and its lines.
#[derive(Clone, Debug, PartialEq, Eq)]
pub struct Dialog {
    pub title: String,
    pub border: Paint,
    pub width: u16,
    pub lines: Vec<Vec<Span>>,
}

#[verifier::ext_equal]
pub struct DialogView {
    pub title: Seq<char>,
    pub border: Paint,
    pub width: int,
    pub lines: Seq<Seq<SpanView>>,
}

impl View for Dialog {
    type V = DialogView;

    open spec fn view(&self) -> DialogView {
        DialogView {
            title: self.title@,
            border: self.border,
            width: self.width as int,
            lines: self.lines.deep_view(),
        }
    }
}

impl DeepView for Dialog {
    type V = DialogView;

    open spec fn deep_view(&self) -> DialogView {
        self@
    }
}

fn narrower(width: u16, most: u16) -> (r: u16)
    ensures
        r == at_most(width as int, most as int),
{
    if width < most {
        width
    } else {
        most
    }
}

pub open spec fn action_title_of(entries: Seq<EntryView>) -> Seq<char> {
    if entries.len() == 1 {
        " Copy to · "@ + shortened(entries[0].title, 24) + " "@
    } else {
        " Copy "@ + books::counted(entries.len()) + " to "@
    }
}

/// A destination that wants a yes first is asked about; otherwise the
/// destinations are offered. Never wider than the list it covers.
pub open spec fn action_dialog(m: ModelView, wanted: u64, width: int) -> DialogView {
    match m.ask {
        Some((place, reason)) => DialogView {
            title: " Convert? "@,
            border: Paint::Warn,
            width: at_most(width, 52),
            lines: ask_of(place, reason, at_most(width, 52)),
        },
        None => DialogView {
            title: action_title_of(m.action),
            border: Paint::Accent,
            width: at_most(width, 56),
            lines: action_of(m, wanted),
        },
    }
}

pub fn draw_action(model: &Model, wanted: u64, width: u16) -> (r: Dialog)
    ensures
        r@ == action_dialog(model@, wanted, width as int),
{
    proof {
        crate::tui::model::plain(*model);
    }
    match &model.ask {
        Some((place, reason)) => {
            let width = narrower(width, 52);
            Dialog {
                title: " Convert? ".to_owned(),
                border: Paint::Warn,
                width,
                lines: ask_lines(*place, reason.as_str(), width),
            }
        },
        None => {
            Dialog {
                title: action_title(&model.action),
                border: Paint::Accent,
                width: narrower(width, 56),
                lines: action_lines(model, wanted),
            }
        },
    }
}

/// Every copy of one book. A deletion that awaits its confirmation paints the
/// border as a warning.
pub open spec fn copies_dialog(m: ModelView, entry: EntryView, width: int) -> Option<DialogView> {
    match entry.source {
        SourceView::Book(book) => Some(
            DialogView {
                title: " Copies · "@ + shortened(entry.title, 30) + " "@,
                border: if m.confirm is Some {
                    Paint::Bad
                } else {
                    Paint::Accent
                },
                width: at_most(width, 72),
                lines: copies_of(m, book, at_most(width, 72)),
            },
        ),
        SourceView::Local(_) => None,
    }
}

pub fn draw_copies(model: &Model, entry: &Entry, width: u16) -> (r: Option<Dialog>)
    ensures
        r.deep_view() == copies_dialog(model@, entry@, width as int),
{
    proof {
        crate::tui::model::plain(*model);
    }
    match &entry.source {
        Source::Book(book) => {
            let width = narrower(width, 72);
            Some(
                Dialog {
                    title: text::concat3(
                        " Copies · ",
                        shorten(entry.title.as_str(), 30).as_str(),
                        " ",
                    ),
                    border: if model.confirm.is_some() {
                        Paint::Bad
                    } else {
                        Paint::Accent
                    },
                    width,
                    lines: copies_lines(model, book, width),
                },
            )
        },
        Source::Local(_) => None,
    }
}

/// The frame of the settings: what it is called, how tall it is, and what is
/// said above its rows.
#[derive(Clone, Copy, Debug, PartialEq, Eq)]
pub struct Sheet {
    pub title: &'static str,
    pub height: u16,
    pub introduction: &'static str,
}

/// Nobody arrives at setup knowing what an import folder is, so it says what the
/// program does before asking where its things are.
pub fn draw_settings(panel: &Panel) -> (r: Sheet)
    ensures
        r.height == if panel.first_run {
            25u16
        } else {
            22u16
        },
        r.title@ == if panel.first_run {
            " Welcome to Crossload · Setup "@
        } else {
            " Settings "@
        },
        r.introduction@ == if panel.first_run {
            "Crossload copies books between this computer, a Kobo and your reader. Tell it where they live. Nothing is saved until you choose Save and rescan, and you can change all of it later with , in the library."@
        } else {
            ""@
        },
{
    if panel.first_run {
        Sheet {
            title: " Welcome to Crossload · Setup ",
            height: 25,
            introduction: "Crossload copies books between this computer, a Kobo and your reader. Tell it where they live. Nothing is saved until you choose Save and rescan, and you can change all of it later with , in the library.",
        }
    } else {
        Sheet { title: " Settings ", height: 22, introduction: "" }
    }
}

} // verus!
