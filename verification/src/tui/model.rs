//! The state of the interface, and what can be asked of it.
use super::edit;
use super::settings;
use super::{Entry, EntryView, Options, OptionsView, Source, SourceView};
use crate::books;
use crate::books::{Book, BookView, CopyView, Place, Snapshot, SnapshotView};
use crate::format::Format;
use crate::history;
use crate::order;
use crate::order::kept;
use crate::pdf::{Verdict, VerdictView};
use crate::text;
use crate::values::Duplicate;
use vstd::prelude::*;

pub mod laws;

verus! {

broadcast use vstd::string::group_string_axioms;

/// What the list is ordered by, cycled with one key.
#[derive(Clone, Copy, Debug, PartialEq, Eq, Structural)]
pub enum Sort {
    Title,
    Author,
    Series,
}

impl Sort {
    pub open spec fn following(self) -> Sort {
        match self {
            Sort::Title => Sort::Author,
            Sort::Author => Sort::Series,
            Sort::Series => Sort::Title,
        }
    }

    pub fn label(self) -> (r: &'static str)
        ensures
            r@ == match self {
                Sort::Title => " · title ↑"@,
                Sort::Author => " · author ↑"@,
                Sort::Series => " · series ↑"@,
            },
    {
        match self {
            Sort::Title => " · title ↑",
            Sort::Author => " · author ↑",
            Sort::Series => " · series ↑",
        }
    }

    pub fn next(self) -> (r: Sort)
        ensures
            r == self.following(),
    {
        match self {
            Sort::Title => Sort::Author,
            Sort::Author => Sort::Series,
            Sort::Series => Sort::Title,
        }
    }
}

/// Every order is reached, and three strokes lead back to the first.
pub proof fn sorting_goes_round(sort: Sort)
    ensures
        sort.following() != sort,
        sort.following().following() != sort,
        sort.following().following().following() == sort,
{
}

/// The questions worth asking of a library.
#[derive(Clone, Copy, Debug, PartialEq, Eq, Structural)]
pub enum Filter {
    All,
    Missing(Place),
    Only(Place),
    Unreadable,
}

/// The filters in the order the menu lists them. Every location can be the one
/// a book is missing from: books come back from a device as readily as they go
/// to one.
pub open spec fn filter_listed(index: int) -> Filter {
    if index == 0 {
        Filter::All
    } else if index == 1 {
        Filter::Missing(Place::Local)
    } else if index == 2 {
        Filter::Missing(Place::Kobo)
    } else if index == 3 {
        Filter::Missing(Place::CrossPoint)
    } else if index == 4 {
        Filter::Only(Place::CrossPoint)
    } else {
        Filter::Unreadable
    }
}

/// How many filters the menu lists.
pub const FILTERS: usize = 6;

pub open spec fn filter_place(filter: Filter) -> int {
    match filter {
        Filter::Missing(Place::Local) => 1,
        Filter::Missing(Place::Kobo) => 2,
        Filter::Missing(Place::CrossPoint) => 3,
        Filter::Only(Place::CrossPoint) => 4,
        Filter::Unreadable => 5,
        _ => 0,
    }
}

/// A listed filter is found where it is listed.
pub proof fn filters_are_found_where_listed(index: int)
    requires
        0 <= index < FILTERS,
    ensures
        filter_place(filter_listed(index)) == index,
{
}

impl Filter {
    pub open spec fn words(self) -> Seq<char> {
        match self {
            Filter::All => "All books"@,
            Filter::Missing(place) => "Missing from "@ + place.name(),
            Filter::Only(place) => "Only on "@ + place.name(),
            Filter::Unreadable => "Unreadable"@,
        }
    }

    pub open spec fn kept(self, entry: EntryView) -> bool {
        match entry.source {
            // A request is a pending import, not a book that is somewhere.
            SourceView::Local(_) => self == Filter::All,
            SourceView::Book(book) => match self {
                Filter::All => true,
                Filter::Missing(place) => !book.has(place),
                Filter::Only(place) => forall|i: int|
                    0 <= i < book.copies.len() ==> (#[trigger] book.copies[i]).place == place,
                Filter::Unreadable => exists|i: int|
                    0 <= i < book.copies.len() && (#[trigger] book.copies[i]).sha.len() == 0,
            },
        }
    }

    pub fn label(self) -> (r: String)
        ensures
            r@ == self.words(),
    {
        match self {
            Filter::All => "All books".to_owned(),
            Filter::Missing(place) => text::concat("Missing from ", place.label()),
            Filter::Only(place) => text::concat("Only on ", place.label()),
            Filter::Unreadable => "Unreadable".to_owned(),
        }
    }

    /// The filter the menu lists at a position.
    pub fn at(index: usize) -> (r: Filter)
        ensures
            r == filter_listed(index as int),
    {
        if index == 0 {
            Filter::All
        } else if index == 1 {
            Filter::Missing(Place::Local)
        } else if index == 2 {
            Filter::Missing(Place::Kobo)
        } else if index == 3 {
            Filter::Missing(Place::CrossPoint)
        } else if index == 4 {
            Filter::Only(Place::CrossPoint)
        } else {
            Filter::Unreadable
        }
    }

    /// Where the menu lists this filter.
    pub fn position(self) -> (r: usize)
        ensures
            r == filter_place(self),
    {
        match self {
            Filter::Missing(Place::Local) => 1,
            Filter::Missing(Place::Kobo) => 2,
            Filter::Missing(Place::CrossPoint) => 3,
            Filter::Only(Place::CrossPoint) => 4,
            Filter::Unreadable => 5,
            _ => 0,
        }
    }

    pub fn keeps(self, entry: &Entry) -> (r: bool)
        ensures
            r == self.kept(entry@),
    {
        match &entry.source {
            Source::Local(_) => self == Filter::All,
            Source::Book(book) => match self {
                Filter::All => true,
                Filter::Missing(place) => !book.has(place),
                Filter::Only(place) => only_at(&**book, place),
                Filter::Unreadable => any_unreadable(&**book),
            },
        }
    }
}

fn only_at(book: &Book, place: Place) -> (r: bool)
    ensures
        r == forall|i: int|
            0 <= i < book@.copies.len() ==> (#[trigger] book@.copies[i]).place == place,
{
    for i in 0..book.copies.len()
        invariant
            forall|j: int| 0 <= j < i ==> (#[trigger] book@.copies[j]).place == place,
    {
        if book.copies[i].place != place {
            assert(book@.copies[i as int].place != place);
            return false;
        }
    }
    true
}

fn any_unreadable(book: &Book) -> (r: bool)
    ensures
        r == exists|i: int|
            0 <= i < book@.copies.len() && (#[trigger] book@.copies[i]).sha.len() == 0,
{
    for i in 0..book.copies.len()
        invariant
            forall|j: int| 0 <= j < i ==> (#[trigger] book@.copies[j]).sha.len() > 0,
    {
        if book.copies[i].sha.as_str().is_empty() {
            assert(book@.copies[i as int].sha.len() == 0);
            return true;
        }
    }
    false
}

/// Whether one copy may be deleted. The dialog shows these and the key handler
/// enforces them, and `books::remove` checks every one of them again.
#[derive(Clone, Debug, PartialEq, Eq)]
pub enum Removal {
    Ready,
    Blocked(&'static str, String),
}

#[verifier::ext_equal]
pub enum RemovalView {
    Ready,
    Blocked(Seq<char>, Seq<char>),
}

impl View for Removal {
    type V = RemovalView;

    open spec fn view(&self) -> RemovalView {
        match self {
            Removal::Ready => RemovalView::Ready,
            Removal::Blocked(label, reason) => RemovalView::Blocked(label@, reason@),
        }
    }
}

/// Whether a copy to one destination may start. The dialog renders these and
/// the key handler enforces them, so a shown option and an accepted key agree.
#[derive(Clone, Debug, PartialEq, Eq)]
pub enum Destination {
    /// Short hint for an allowed copy.
    Ready(&'static str),
    /// Possible, but the result will be poor. Say so and wait for a yes.
    Ask(&'static str, String),
    /// Short dialog label and the full explanation for the status line.
    Blocked(&'static str, String),
}

#[verifier::ext_equal]
pub enum DestinationView {
    Ready(Seq<char>),
    Ask(Seq<char>, Seq<char>),
    Blocked(Seq<char>, Seq<char>),
}

impl View for Destination {
    type V = DestinationView;

    open spec fn view(&self) -> DestinationView {
        match self {
            Destination::Ready(hint) => DestinationView::Ready(hint@),
            Destination::Ask(label, reason) => DestinationView::Ask(label@, reason@),
            Destination::Blocked(label, reason) => DestinationView::Blocked(label@, reason@),
        }
    }
}

#[derive(Clone, Debug)]
pub struct Model {
    /// A refresh asked for while something was already running, to be done
    /// when it finishes rather than refused.
    pub pending_refresh: bool,
    /// A book's metadata being corrected, kept apart from the book until saved.
    pub correcting: Option<edit::Panel>,
    /// Room left at each place, read once when the copy dialog opens. A place
    /// that cannot say has none, which the dialog shows as unknown.
    pub room: Vec<(Place, Option<u64>)>,
    /// A destination that wants a yes first, and why.
    pub ask: Option<(Place, String)>,
    pub settings: Option<settings::Panel>,
    /// Setup was dismissed without saving, so an empty library is a question
    /// about folders rather than a fact about books.
    pub skipped: bool,
    pub configuring: Option<u64>,
    pub help: bool,
    pub help_scroll: u16,
    /// Recent copies, read when the record is opened rather than kept live.
    pub history: Option<Vec<history::Entry>>,
    pub filter_menu: Option<usize>,
    pub sort: Sort,
    pub options: Options,
    pub entries: Vec<Entry>,
    pub query: String,
    pub selected: usize,
    pub search: bool,
    pub busy: Option<u64>,
    pub loading: Option<u64>,
    pub pending_quit: bool,
    pub status: String,
    pub tick: usize,
    /// How far a running job has come, once it has more than one book.
    pub step: Option<(usize, usize)>,
    pub catalog: Snapshot,
    /// The books a copy dialog is open for: the highlighted one, or the marked
    /// set. Empty means no dialog.
    pub action: Vec<Entry>,
    pub filter: Filter,
    /// The book whose copies are listed, and the copy awaiting confirmation.
    pub copies: Option<Entry>,
    pub confirm: Option<(Place, String)>,
    /// Whether the selection is the reader's own. Until it is, arriving books
    /// must not drag it along: discovery reorders the list as it streams.
    pub touched: bool,
    /// One copy of each marked book, so a refresh can find it again.
    pub marked: Vec<(Place, String)>,
    /// Whether the running job can be stopped after the book in progress.
    pub cancel: bool,
    /// Layout-only: the list offset the last frame settled on.
    pub scroll: usize,
    /// Layout-only: the width the last frame had, for sizing the progress bar.
    pub width: u16,
    /// Whether the books of the previous scan are still listed.
    pub retaining: bool,
    pub pending_catalog: Option<Snapshot>,
    pub next_id: u64,
}

pub struct ModelView {
    pub pending_refresh: bool,
    pub correcting: Option<edit::PanelView>,
    pub room: Seq<(Place, Option<u64>)>,
    pub ask: Option<(Place, Seq<char>)>,
    pub settings: Option<settings::PanelView>,
    pub skipped: bool,
    pub configuring: Option<u64>,
    pub help: bool,
    pub help_scroll: u16,
    pub history: Option<Seq<history::EntryView>>,
    pub filter_menu: Option<usize>,
    pub sort: Sort,
    pub options: OptionsView,
    pub entries: Seq<EntryView>,
    pub query: Seq<char>,
    pub selected: usize,
    pub search: bool,
    pub busy: Option<u64>,
    pub loading: Option<u64>,
    pub pending_quit: bool,
    pub status: Seq<char>,
    pub tick: usize,
    pub step: Option<(usize, usize)>,
    pub catalog: SnapshotView,
    pub action: Seq<EntryView>,
    pub filter: Filter,
    pub copies: Option<EntryView>,
    pub confirm: Option<(Place, Seq<char>)>,
    pub touched: bool,
    pub marked: Seq<(Place, Seq<char>)>,
    pub cancel: bool,
    pub scroll: usize,
    pub width: u16,
    pub retaining: bool,
    pub pending_catalog: Option<SnapshotView>,
    pub next_id: u64,
}

impl View for Model {
    type V = ModelView;

    open spec fn view(&self) -> ModelView {
        self.seen()
    }
}

impl Model {
    /// The model field by field, each read as what it means.
    #[verifier::opaque]
    pub open spec fn seen(&self) -> ModelView {
        ModelView {
            pending_refresh: self.pending_refresh,
            correcting: self.correcting.deep_view(),
            room: self.room.deep_view(),
            ask: self.ask.deep_view(),
            settings: self.settings.deep_view(),
            skipped: self.skipped,
            configuring: self.configuring,
            help: self.help,
            help_scroll: self.help_scroll,
            history: self.history.deep_view(),
            filter_menu: self.filter_menu,
            sort: self.sort,
            options: self.options@,
            entries: self.entries.deep_view(),
            query: self.query@,
            selected: self.selected,
            search: self.search,
            busy: self.busy,
            loading: self.loading,
            pending_quit: self.pending_quit,
            status: self.status@,
            tick: self.tick,
            step: self.step,
            catalog: self.catalog@,
            action: self.action.deep_view(),
            filter: self.filter,
            copies: self.copies.deep_view(),
            confirm: self.confirm.deep_view(),
            touched: self.touched,
            marked: self.marked.deep_view(),
            cancel: self.cancel,
            scroll: self.scroll,
            width: self.width,
            retaining: self.retaining,
            pending_catalog: self.pending_catalog.deep_view(),
            next_id: self.next_id,
        }
    }
}

/// A model that has seen nothing yet. Discovery waits for setup on a first run;
/// the status line must not claim work that is not happening.
pub open spec fn model_for(options: OptionsView) -> ModelView {
    ModelView {
        pending_refresh: false,
        correcting: None,
        room: Seq::empty(),
        ask: None,
        settings: None,
        skipped: false,
        configuring: None,
        help: false,
        help_scroll: 0,
        history: None,
        filter_menu: None,
        sort: Sort::Title,
        options,
        entries: Seq::empty(),
        query: Seq::empty(),
        selected: 0,
        search: false,
        busy: None,
        loading: None,
        pending_quit: false,
        status: if options.first_run {
            "Finish setup to scan your library, or press Esc to skip it."@
        } else {
            "Discovering books…"@
        },
        tick: 0,
        step: None,
        catalog: SnapshotView::empty(),
        action: Seq::empty(),
        filter: Filter::All,
        copies: None,
        confirm: None,
        touched: false,
        marked: Seq::empty(),
        cancel: false,
        scroll: 0,
        width: 80,
        retaining: false,
        pending_catalog: None,
        next_id: 0,
    }
}

/// Whether an entry is found by a query. A field named before the colon
/// searches only that field, so `author:herron` does not also match a book
/// about Herron.
pub open spec fn matched(query: Seq<char>, entry: EntryView) -> bool {
    let colon = text::index_from(query, ':', 0);
    let field = query.take(colon);
    let term = text::trimmed_start(query.skip(colon + 1));
    if colon < query.len() && field == "author"@ {
        text::within(entry.author_key, term)
    } else if colon < query.len() && field == "title"@ {
        text::within(entry.title_key, term)
    } else if colon < query.len() && field == "series"@ {
        text::within(entry.series_key, term)
    } else {
        text::within(entry.search, query)
    }
}

fn is_matched(query: &str, entry: &Entry) -> (r: bool)
    ensures
        r == matched(query@, entry@),
{
    let q = text::chars(query);
    let colon = text::find_char(q.as_slice(), ':', 0);
    if colon < q.len() {
        let field = text::slice(q.as_slice(), 0, colon);
        let rest = text::slice(q.as_slice(), colon + 1, q.len());
        proof {
            assert(field@ =~= query@.take(colon as int));
            assert(rest@ =~= query@.skip(colon as int + 1));
        }
        let term = text::trim_start(rest.as_str());
        if text::same(field.as_str(), "author") {
            return text::contains(entry.author_key.as_str(), term.as_str());
        }
        if text::same(field.as_str(), "title") {
            return text::contains(entry.title_key.as_str(), term.as_str());
        }
        if text::same(field.as_str(), "series") {
            return text::contains(entry.series_key.as_str(), term.as_str());
        }
    }
    text::contains(entry.search.as_str(), query)
}

/// What an entry is listed by, in each order: requests last, then by the chosen
/// text, then by title.
pub open spec fn sort_key(sort: Sort, entry: EntryView) -> order::SortKeyView {
    order::SortKeyView {
        late: entry.kind == "ACSM"@,
        major: match sort {
            Sort::Title => entry.title_key,
            Sort::Author => entry.author_key,
            Sort::Series => entry.series_key,
        },
        minor: entry.title_key,
    }
}

pub open spec fn arranged(sort: Sort, entries: Seq<EntryView>) -> Seq<EntryView> {
    order::sorted(entries, order::by_key(|e: EntryView| sort_key(sort, e)))
}

/// However the library is sorted, nothing is lost, and the requests that wait to
/// be fulfilled stand at the end.
pub proof fn requests_stand_last(sort: Sort, entries: Seq<EntryView>)
    ensures
        arranged(sort, entries).to_multiset() == entries.to_multiset(),
        arranged(sort, entries).len() == entries.len(),
        forall|i: int, j: int|
            0 <= i < j < entries.len() && (#[trigger] arranged(sort, entries)[i]).kind == "ACSM"@
                ==> (#[trigger] arranged(sort, entries)[j]).kind == "ACSM"@,
{
    order::sorting_orders_and_keeps(entries, |e: EntryView| sort_key(sort, e));
}

/// Whether two books have a copy in the same spot.
pub open spec fn shares(a: BookView, b: BookView) -> bool {
    exists|i: int, j: int|
        0 <= i < a.copies.len() && 0 <= j < b.copies.len() && (#[trigger] a.copies[i]).same_spot(
            #[trigger] b.copies[j],
        )
}

fn is_sharing(a: &Book, b: &Book) -> (r: bool)
    ensures
        r == shares(a@, b@),
{
    for i in 0..a.copies.len()
        invariant
            forall|x: int, y: int|
                0 <= x < i && 0 <= y < b.copies@.len() ==> !(#[trigger] a@.copies[x]).same_spot(
                    #[trigger] b@.copies[y],
                ),
    {
        for j in 0..b.copies.len()
            invariant
                i < a.copies@.len(),
                forall|x: int, y: int|
                    0 <= x < i && 0 <= y < b.copies@.len() ==> !(#[trigger] a@.copies[x]).same_spot(
                        #[trigger] b@.copies[y],
                    ),
                forall|y: int|
                    0 <= y < j ==> !a@.copies[i as int].same_spot(#[trigger] b@.copies[y]),
        {
            assert(a@.copies[i as int] == a.copies@[i as int]@);
            assert(b@.copies[j as int] == b.copies@[j as int]@);
            if a.copies[i].same_spot(&b.copies[j]) {
                return true;
            }
        }
    }
    false
}

/// Whether two rows stand for the same thing: books that have a copy in the
/// same spot, or the same request.
pub open spec fn same_row(a: SourceView, b: SourceView) -> bool {
    match (a, b) {
        (SourceView::Book(x), SourceView::Book(y)) => shares(x, y),
        (SourceView::Local(x), SourceView::Local(y)) => x == y,
        _ => false,
    }
}

pub(super) fn is_same_row(a: &Source, b: &Source) -> (r: bool)
    ensures
        r == same_row(a@, b@),
{
    match (a, b) {
        (Source::Book(x), Source::Book(y)) => is_sharing(&**x, &**y),
        (Source::Local(x), Source::Local(y)) => text::same(x.as_str(), y.as_str()),
        _ => false,
    }
}

/// The first book from `from` on that shares a spot with another, or the
/// length.
pub open spec fn sharing_index(books: Seq<BookView>, book: BookView, from: int) -> int
    decreases books.len() - from,
{
    if from < 0 || from >= books.len() {
        books.len() as int
    } else if shares(books[from], book) {
        from
    } else {
        sharing_index(books, book, from + 1)
    }
}

/// What a mark keeps of an entry: the spot of the copy it is best known by.
pub open spec fn mark_of(source: SourceView) -> Option<(Place, Seq<char>)> {
    match source {
        SourceView::Book(book) => match book.preferred() {
            Some(copy) => Some((copy.place, copy.path)),
            None => None,
        },
        SourceView::Local(path) => Some((Place::Local, path)),
    }
}

/// Every spot an entry stands in.
pub open spec fn spots(source: SourceView) -> Seq<(Place, Seq<char>)> {
    match source {
        SourceView::Book(book) => Seq::new(
            book.copies.len(),
            |i: int| (book.copies[i].place, book.copies[i].path),
        ),
        SourceView::Local(path) => seq![(Place::Local, path)],
    }
}

/// Whether an entry is marked: it still stands in a spot that was marked
/// earlier, so a refresh that adds or removes copies does not lose the set.
pub open spec fn marked_entry(marked: Seq<(Place, Seq<char>)>, source: SourceView) -> bool {
    exists|i: int| 0 <= i < spots(source).len() && marked.contains(#[trigger] spots(source)[i])
}

/// The marks after one entry was marked or unmarked.
pub open spec fn toggled(marked: Seq<(Place, Seq<char>)>, source: SourceView) -> Seq<
    (Place, Seq<char>),
> {
    if marked_entry(marked, source) {
        kept(marked, |m: (Place, Seq<char>)| !spots(source).contains(m))
    } else {
        match mark_of(source) {
            Some(spot) => marked.push(spot),
            None => marked,
        }
    }
}

/// The marks after everything shown was marked, or all of it cleared.
pub open spec fn toggled_each(
    marked: Seq<(Place, Seq<char>)>,
    shown: Seq<EntryView>,
    all: bool,
) -> Seq<(Place, Seq<char>)>
    decreases shown.len(),
{
    if shown.len() == 0 {
        marked
    } else {
        let so_far = toggled_each(marked, shown.drop_last(), all);
        if all == marked_entry(so_far, shown.last().source) {
            toggled(so_far, shown.last().source)
        } else {
            so_far
        }
    }
}

pub(super) fn spots_of(source: &Source) -> (r: Vec<(Place, String)>)
    ensures
        r.deep_view() == spots(source@),
{
    let mut out: Vec<(Place, String)> = Vec::new();
    match source {
        Source::Book(book) => {
            let ghost all = spots(source@);
            for i in 0..book.copies.len()
                invariant
                    all.len() == book.copies@.len(),
                    forall|j: int|
                        0 <= j < all.len() ==> #[trigger] all[j] == (
                            book.copies@[j]@.place,
                            book.copies@[j]@.path,
                        ),
                    out.deep_view() == all.take(i as int),
            {
                let ghost so_far = out.deep_view();
                let spot = (book.copies[i].place, book.copies[i].path.duplicate());
                proof {
                    assert(all.take(i as int + 1) =~= all.take(i as int).push(all[i as int]));
                }
                out.push(spot);
                proof {
                    assert(out.deep_view() =~= so_far.push(spot.deep_view()));
                }
            }
            proof {
                assert(all.take(all.len() as int) =~= all);
            }
        },
        Source::Local(path) => {
            out.push((Place::Local, path.duplicate()));
            proof {
                assert(out.deep_view() =~= spots(source@));
            }
        },
    }
    out
}

/// The marks that are none of some spots.
fn left_over(marked: &Vec<(Place, String)>, spots: &Vec<(Place, String)>) -> (r: Vec<
    (Place, String),
>)
    ensures
        r.deep_view() == kept(
            marked.deep_view(),
            |m: (Place, Seq<char>)| !spots.deep_view().contains(m),
        ),
{
    let ghost all = marked.deep_view();
    let ghost test = |m: (Place, Seq<char>)| !spots.deep_view().contains(m);
    let mut left: Vec<(Place, String)> = Vec::new();
    for i in 0..marked.len()
        invariant
            all == marked.deep_view(),
            test == (|m: (Place, Seq<char>)| !spots.deep_view().contains(m)),
            left.deep_view() == kept(all.take(i as int), test),
    {
        let ghost so_far = left.deep_view();
        proof {
            assert(all.take(i as int + 1).drop_last() =~= all.take(i as int));
            assert(all[i as int] == marked@[i as int].deep_view());
        }
        if !crate::values::holds(spots, &marked[i]) {
            let m = marked[i].duplicate();
            left.push(m);
            proof {
                assert(left.deep_view() =~= so_far.push(m.deep_view()));
            }
        }
    }
    proof {
        assert(all.take(all.len() as int) =~= all);
    }
    left
}

/// Whether any of some spots is marked.
fn any_marked(marked: &Vec<(Place, String)>, spots: &Vec<(Place, String)>) -> (r: bool)
    ensures
        r == exists|i: int|
            0 <= i < spots.deep_view().len() && marked.deep_view().contains(
                #[trigger] spots.deep_view()[i],
            ),
{
    for i in 0..spots.len()
        invariant
            forall|j: int|
                0 <= j < i ==> !marked.deep_view().contains(#[trigger] spots.deep_view()[j]),
    {
        assert(spots.deep_view()[i as int] == spots@[i as int].deep_view());
        if crate::values::holds(marked, &spots[i]) {
            return true;
        }
    }
    false
}

impl ModelView {
    /// The rows the filter and the query leave.
    #[verifier::opaque]
    pub open spec fn filtered(self) -> Seq<EntryView> {
        let query = text::lowercase(self.query);
        kept(self.entries, |e: EntryView| self.filter.kept(e) && matched(query, e))
    }

    #[verifier::opaque]
    pub open spec fn selected_entry(self) -> Option<EntryView> {
        if self.selected < self.filtered().len() {
            Some(self.filtered()[self.selected as int])
        } else {
            None
        }
    }

    pub open spec fn is_marked(self, entry: EntryView) -> bool {
        marked_entry(self.marked, entry.source)
    }

    /// The marked books, or the highlighted one when nothing is marked.
    #[verifier::opaque]
    pub open spec fn chosen(self) -> Seq<EntryView> {
        let marked = kept(self.entries, |e: EntryView| self.is_marked(e));
        if marked.len() > 0 {
            marked
        } else {
            match self.selected_entry() {
                Some(entry) => seq![entry],
                None => Seq::empty(),
            }
        }
    }

    /// The catalog's version of a book, so a stale entry cannot hide a copy
    /// that another location has since reported.
    #[verifier::opaque]
    pub open spec fn current(self, book: BookView) -> BookView {
        let i = sharing_index(self.catalog.books, book, 0);
        if 0 <= i < self.catalog.books.len() {
            self.catalog.books[i]
        } else {
            book
        }
    }

    /// What a copy the reader does not list can come to there. The reader
    /// stores anything but lists only EPUB, so copying a PDF there would leave
    /// a file nobody can open.
    pub open spec fn conversion(
        self,
        title: Seq<char>,
        format: Format,
        verdict: Option<VerdictView>,
    ) -> DestinationView {
        match (format, verdict) {
            (Format::Pdf, Some(VerdictView::Good)) => DestinationView::Ready(
                "convert to EPUB, copy"@,
            ),
            (Format::Pdf, Some(VerdictView::Poor(concerns))) => DestinationView::Ask(
                "converts poorly"@,
                title + " can become an EPUB, but "@ + VerdictView::Poor(concerns).because()
                    + ". The PDF is kept either way."@,
            ),
            (Format::Pdf, Some(verdict)) => DestinationView::Blocked(
                "cannot be converted"@,
                "This PDF cannot become an EPUB: "@ + verdict.because() + "."@,
            ),
            (Format::Pdf, None) => DestinationView::Blocked(
                "not read yet"@,
                "This PDF has not been read yet; refresh and try again."@,
            ),
            (format, _) => DestinationView::Blocked(
                "reader shows only EPUB"@,
                "The reader stores a "@ + format.name() + " but never lists one, and a "@
                    + format.name() + " cannot become an EPUB."@,
            ),
        }
    }

    /// Whether a book can be copied to a place.
    pub open spec fn book_destination(
        self,
        title: Seq<char>,
        book: BookView,
        target: Place,
    ) -> DestinationView {
        let preferred = book.preferred();
        if book.has(target) {
            DestinationView::Blocked(
                "already here"@,
                "A copy is already in "@ + target.name() + "."@,
            )
        } else if self.loading is Some && preferred is Some && (preferred->0.optimized
            || preferred->0.place == Place::CrossPoint) {
            DestinationView::Blocked(
                "wait for discovery"@,
                "Wait for discovery to finish so an available original can be preferred."@,
            )
        } else if target == Place::CrossPoint && preferred is Some && preferred->0.format
            != Format::Epub {
            self.conversion(title, preferred->0.format, preferred->0.verdict)
        } else if target == Place::CrossPoint {
            DestinationView::Ready("copy, optimized"@)
        } else {
            DestinationView::Ready("copy"@)
        }
    }

    /// Whether an entry can be copied to a place.
    #[verifier::opaque]
    pub open spec fn destination(self, entry: EntryView, target: Place) -> DestinationView {
        if self.busy is Some {
            DestinationView::Blocked("busy"@, "Wait for the current copy to finish."@)
        } else if self.retaining {
            DestinationView::Blocked(
                "refreshing"@,
                "Refreshing locations; wait before copying from the previous inventory."@,
            )
        } else if target != Place::Local && !self.catalog.ready(target) {
            DestinationView::Blocked(
                "unavailable"@,
                target.name() + " is unavailable or still being checked."@,
            )
        } else {
            match entry.source {
                SourceView::Local(_) => if target != Place::Local {
                    DestinationView::Blocked(
                        "local first"@,
                        "Import the ACSM locally first, then refresh to copy its EPUB."@,
                    )
                } else {
                    DestinationView::Ready("fulfil ACSM"@)
                },
                SourceView::Book(book) => self.book_destination(
                    entry.title,
                    self.current(book),
                    target,
                ),
            }
        }
    }

    /// Whether one copy of a book may be deleted.
    #[verifier::opaque]
    pub open spec fn removal(self, book: BookView, copy: CopyView) -> RemovalView {
        if self.busy is Some {
            RemovalView::Blocked("busy"@, "Wait for the current work to finish."@)
        } else if self.loading is Some {
            RemovalView::Blocked(
                "scanning"@,
                "Wait for discovery to finish before deleting anything."@,
            )
        } else if book.copies.len() < 2 {
            RemovalView::Blocked(
                "only copy"@,
                "This is the only copy of "@ + book.title + "; copy it somewhere else first."@,
            )
        } else if copy.locked {
            RemovalView::Blocked(
                "Kobo library"@,
                "The Kobo database lists this book; remove it on the Kobo itself."@,
            )
        } else if copy.sha.len() == 0 {
            RemovalView::Blocked(
                "unreadable"@,
                "This copy could not be read, so it cannot be identified."@,
            )
        } else if copy.place == Place::CrossPoint && self.options.copy_to is None {
            RemovalView::Blocked(
                "needs the card"@,
                "Deleting over Wi-Fi is not supported; mount the reader's card."@,
            )
        } else {
            RemovalView::Ready
        }
    }
}

/// Deleting is never offered for the last copy of a book, a copy the Kobo owns,
/// one that could not be read, one on a reader without its card mounted, or
/// while anything is running.
pub proof fn removal_is_offered_only_when_safe(model: ModelView, book: BookView, copy: CopyView)
    ensures
        model.removal(book, copy) is Ready <==> {
            &&& model.busy is None
            &&& model.loading is None
            &&& book.copies.len() >= 2
            &&& !copy.locked
            &&& copy.sha.len() > 0
            &&& (copy.place == Place::CrossPoint ==> model.options.copy_to is Some)
        },
{
    reveal(ModelView::removal);
}

/// No copy is offered to a place that already has one, or to a device that has
/// not been read to the end, or while a job runs.
pub proof fn copying_is_offered_only_where_it_is_missing(
    model: ModelView,
    entry: EntryView,
    target: Place,
)
    requires
        !(model.destination(entry, target) is Blocked),
    ensures
        model.busy is None,
        !model.retaining,
        target == Place::Local || model.catalog.ready(target),
        entry.source matches SourceView::Book(book) ==> !model.current(book).has(target),
        entry.source is Local ==> target == Place::Local,
{
    reveal(ModelView::destination);
}

/// Only an EPUB is offered the reader as it is. A PDF is offered it by being
/// converted, and only when there is something to convert; it is asked about when
/// it converts poorly. Anything else is refused.
pub proof fn the_reader_gets_only_what_it_lists(model: ModelView, entry: EntryView)
    requires
        !(model.destination(entry, Place::CrossPoint) is Blocked),
        entry.source is Book,
        model.current(entry.source->Book_0).preferred() is Some,
    ensures
        ({
            let copy = model.current(entry.source->Book_0).preferred()->0;
            match copy.format {
                Format::Epub => model.destination(entry, Place::CrossPoint) is Ready,
                Format::Pdf => match copy.verdict {
                    Some(VerdictView::Good) => model.destination(entry, Place::CrossPoint) is Ready,
                    Some(VerdictView::Poor(_)) => model.destination(
                        entry,
                        Place::CrossPoint,
                    ) is Ask,
                    _ => false,
                },
                Format::Cbz => false,
            }
        }),
{
    reveal(ModelView::destination);
}

/// The plain fields read as they are.
pub(super) proof fn plain(m: Model)
    ensures
        m@.pending_refresh == m.pending_refresh,
        m@.configuring == m.configuring,
        m@.help == m.help,
        m@.filter_menu == m.filter_menu,
        m@.sort == m.sort,
        m@.selected == m.selected,
        m@.search == m.search,
        m@.busy == m.busy,
        m@.loading == m.loading,
        m@.pending_quit == m.pending_quit,
        m@.tick == m.tick,
        m@.filter == m.filter,
        m@.touched == m.touched,
        m@.cancel == m.cancel,
        m@.retaining == m.retaining,
        m@.next_id == m.next_id,
        m@.options == m.options@,
        m@.query == m.query@,
        m@.entries == m.entries.deep_view(),
        m@.action == m.action.deep_view(),
        m@.copies == m.copies.deep_view(),
        m@.confirm == m.confirm.deep_view(),
        m@.ask == m.ask.deep_view(),
        m@.history is Some == m.history is Some,
        m@.settings is Some == m.settings is Some,
        m@.correcting is Some == m.correcting is Some,
{
    reveal(Model::seen);
}

impl Model {
    pub fn new(options: Options) -> (r: Model)
        ensures
            r@ == model_for(options@),
    {
        proof {
            reveal(Model::seen);
        }
        let status = if options.first_run {
            "Finish setup to scan your library, or press Esc to skip it."
        } else {
            "Discovering books…"
        };
        let model = Model {
            pending_refresh: false,
            correcting: None,
            room: Vec::new(),
            ask: None,
            settings: None,
            skipped: false,
            configuring: None,
            help: false,
            help_scroll: 0,
            history: None,
            filter_menu: None,
            sort: Sort::Title,
            options,
            entries: Vec::new(),
            query: String::new(),
            selected: 0,
            search: false,
            busy: None,
            loading: None,
            pending_quit: false,
            status: status.to_owned(),
            tick: 0,
            step: None,
            catalog: Snapshot::empty(),
            action: Vec::new(),
            filter: Filter::All,
            copies: None,
            confirm: None,
            touched: false,
            marked: Vec::new(),
            cancel: false,
            scroll: 0,
            width: 80,
            retaining: false,
            pending_catalog: None,
            next_id: 0,
        };
        proof {
            let wanted = model_for(options@);
            assert(model@.room =~= wanted.room);
            assert(model@.entries =~= wanted.entries);
            assert(model@.action =~= wanted.action);
            assert(model@.marked =~= wanted.marked);
        }
        model
    }

    /// The rows the filter and the query leave.
    pub fn filtered(&self) -> (r: Vec<&Entry>)
        ensures
            r.deep_view() == self@.filtered(),
    {
        proof {
            reveal(Model::seen);
            reveal(ModelView::filtered);
        }
        let query = text::to_lowercase(self.query.as_str());
        let mut out: Vec<&Entry> = Vec::new();
        let ghost test = |e: EntryView| self@.filter.kept(e) && matched(query@, e);
        for i in 0..self.entries.len()
            invariant
                self@.entries == self.entries.deep_view(),
                self@.filter == self.filter,
                query@ == text::lowercase(self@.query),
                test == (|e: EntryView| self@.filter.kept(e) && matched(query@, e)),
                out.deep_view() == kept(self@.entries.take(i as int), test),
        {
            let ghost so_far = out.deep_view();
            let entry = &self.entries[i];
            proof {
                let more = self@.entries.take(i as int + 1);
                assert(more.drop_last() =~= self@.entries.take(i as int));
                assert(more.last() == entry@);
            }
            if self.filter.keeps(entry) && is_matched(query.as_str(), entry) {
                out.push(entry);
                proof {
                    assert(out.deep_view() =~= so_far.push(entry@));
                }
            }
        }
        proof {
            assert(self@.entries.take(self@.entries.len() as int) =~= self@.entries);
            assert(test =~= (|e: EntryView|
                self@.filter.kept(e) && matched(text::lowercase(self@.query), e)));
        }
        out
    }

    pub(super) fn sort_entries(&mut self)
        ensures
            final(self)@ == (ModelView {
                entries: arranged(old(self)@.sort, old(self)@.entries),
                ..old(self)@
            }),
    {
        proof {
            reveal(Model::seen);
        }
        let ghost all = self.entries@;
        let sort = self.sort;
        let ghost key = |e: Entry| sort_key(sort, e@);
        let mut keys: Vec<order::SortKey> = Vec::new();
        for i in 0..self.entries.len()
            invariant
                self.entries@ == all,
                key == (|e: Entry| sort_key(sort, e@)),
                keys@.len() == i,
                forall|j: int| 0 <= j < i ==> (#[trigger] keys@[j])@ == key(all[j]),
        {
            let entry = &self.entries[i];
            let major = match sort {
                Sort::Title => entry.title_key.duplicate(),
                Sort::Author => entry.author_key.duplicate(),
                Sort::Series => entry.series_key.duplicate(),
            };
            let k = order::SortKey {
                late: text::same(entry.kind, "ACSM"),
                major,
                minor: entry.title_key.duplicate(),
            };
            proof {
                assert(k@ =~= sort_key(sort, all[i as int]@));
            }
            keys.push(k);
        }
        order::arrange(&mut self.entries, keys, Ghost(key));
        proof {
            let view = |e: Entry| e.deep_view();
            let shown = |e: EntryView| sort_key(sort, e);
            order::sorted_mapped(all, order::by_key(key), view, order::by_key(shown));
            assert(self.entries.deep_view() =~= order::mapped(self.entries@, view));
            assert(old(self).entries.deep_view() =~= order::mapped(all, view));
        }
    }

    /// A book is marked when it still holds a copy that was marked earlier, so
    /// a refresh that adds or removes copies does not lose the set.
    pub fn is_marked(&self, entry: &Entry) -> (r: bool)
        ensures
            r == self@.is_marked(entry@),
    {
        proof {
            reveal(Model::seen);
        }
        let spots = spots_of(&entry.source);
        any_marked(&self.marked, &spots)
    }

    pub(super) fn mark(&mut self, entry: &Entry)
        ensures
            final(self)@ == (ModelView {
                marked: toggled(old(self)@.marked, entry@.source),
                ..old(self)@
            }),
    {
        proof {
            reveal(Model::seen);
        }
        if self.is_marked(entry) {
            let spots = spots_of(&entry.source);
            let left = left_over(&self.marked, &spots);
            self.marked = left;
            return;
        }
        let ghost before = self.marked.deep_view();
        match &entry.source {
            Source::Book(book) => {
                if let Some(copy) = book.preferred() {
                    let spot = (copy.place, copy.path.duplicate());
                    self.marked.push(spot);
                    proof {
                        assert(self.marked.deep_view() =~= before.push(spot.deep_view()));
                    }
                }
            },
            Source::Local(path) => {
                let spot = (Place::Local, path.duplicate());
                self.marked.push(spot);
                proof {
                    assert(self.marked.deep_view() =~= before.push(spot.deep_view()));
                }
            },
        }
    }

    pub(super) fn selected_entry(&self) -> (r: Option<Entry>)
        ensures
            r.deep_view() == self@.selected_entry(),
    {
        proof {
            reveal(Model::seen);
            reveal(ModelView::selected_entry);
        }
        let shown = self.filtered();
        if self.selected < shown.len() {
            assert(shown.deep_view()[self.selected as int] == shown@[self.selected as int]@);
            Some(shown[self.selected].duplicate())
        } else {
            None
        }
    }

    /// The marked books, or the highlighted one when nothing is marked.
    pub(super) fn chosen(&self) -> (r: Vec<Entry>)
        ensures
            r.deep_view() == self@.chosen(),
    {
        proof {
            reveal(Model::seen);
            reveal(ModelView::chosen);
        }
        let mut out: Vec<Entry> = Vec::new();
        let ghost test = |e: EntryView| self@.is_marked(e);
        for i in 0..self.entries.len()
            invariant
                self@.entries == self.entries.deep_view(),
                test == (|e: EntryView| self@.is_marked(e)),
                out.deep_view() == kept(self@.entries.take(i as int), test),
        {
            let ghost so_far = out.deep_view();
            proof {
                let more = self@.entries.take(i as int + 1);
                assert(more.drop_last() =~= self@.entries.take(i as int));
                assert(more.last() == self.entries@[i as int]@);
            }
            if self.is_marked(&self.entries[i]) {
                let entry = self.entries[i].duplicate();
                out.push(entry);
                proof {
                    assert(out.deep_view() =~= so_far.push(entry@));
                }
            }
        }
        proof {
            assert(self@.entries.take(self@.entries.len() as int) =~= self@.entries);
        }
        if out.len() == 0 {
            if let Some(entry) = self.selected_entry() {
                let ghost seen = entry@;
                out.push(entry);
                proof {
                    assert(out.deep_view() =~= seq![seen]);
                }
            }
        }
        out
    }

    /// The catalog's version of a book, so a stale entry cannot hide a copy
    /// that another location has since reported.
    pub(super) fn current<'a>(&'a self, book: &'a Book) -> (r: &'a Book)
        ensures
            r@ == self@.current(book@),
    {
        proof {
            reveal(Model::seen);
            reveal(ModelView::current);
        }
        let ghost all = self@.catalog.books;
        let mut i: usize = 0;
        while i < self.catalog.books.len()
            invariant
                i <= self.catalog.books@.len(),
                all == self@.catalog.books,
                all == self.catalog.books.deep_view(),
                sharing_index(all, book@, 0) == sharing_index(all, book@, i as int),
                self@.current(book@) == {
                    let at = sharing_index(all, book@, 0);
                    if 0 <= at < all.len() {
                        all[at]
                    } else {
                        book@
                    }
                },
            decreases self.catalog.books@.len() - i,
        {
            assert(all[i as int] == self.catalog.books@[i as int]@);
            if is_sharing(&self.catalog.books[i], book) {
                return &self.catalog.books[i];
            }
            i += 1;
        }
        book
    }

    fn conversion(&self, title: &str, copy: &books::Copy) -> (r: Destination)
        requires
            copy.format != Format::Epub,
        ensures
            r@ == self@.conversion(title@, copy.format, copy@.verdict),
    {
        match copy.format {
            Format::Pdf => match &copy.verdict {
                Some(Verdict::Good) => Destination::Ready("convert to EPUB, copy"),
                Some(verdict) => {
                    let because = verdict.because();
                    match verdict {
                        Verdict::Poor(_) => Destination::Ask(
                            "converts poorly",
                            text::concat4(
                                title,
                                " can become an EPUB, but ",
                                because.as_str(),
                                ". The PDF is kept either way.",
                            ),
                        ),
                        _ => Destination::Blocked(
                            "cannot be converted",
                            text::concat3(
                                "This PDF cannot become an EPUB: ",
                                because.as_str(),
                                ".",
                            ),
                        ),
                    }
                },
                None => Destination::Blocked(
                    "not read yet",
                    "This PDF has not been read yet; refresh and try again.".to_owned(),
                ),
            },
            format => Destination::Blocked(
                "reader shows only EPUB",
                text::concat5(
                    "The reader stores a ",
                    format.label(),
                    " but never lists one, and a ",
                    format.label(),
                    " cannot become an EPUB.",
                ),
            ),
        }
    }

    /// Whether a copy to a place may start.
    pub fn destination(&self, entry: &Entry, target: Place) -> (r: Destination)
        ensures
            r@ == self@.destination(entry@, target),
    {
        proof {
            reveal(Model::seen);
            reveal(ModelView::destination);
        }
        if self.busy.is_some() {
            return Destination::Blocked("busy", "Wait for the current copy to finish.".to_owned());
        }
        if self.retaining {
            return Destination::Blocked(
                "refreshing",
                "Refreshing locations; wait before copying from the previous inventory.".to_owned(),
            );
        }
        if target != Place::Local && !self.catalog.ready(target) {
            return Destination::Blocked(
                "unavailable",
                text::concat(target.label(), " is unavailable or still being checked."),
            );
        }
        match &entry.source {
            Source::Local(_) => if target != Place::Local {
                Destination::Blocked(
                    "local first",
                    "Import the ACSM locally first, then refresh to copy its EPUB.".to_owned(),
                )
            } else {
                Destination::Ready("fulfil ACSM")
            },
            Source::Book(book) => {
                let book = self.current(&**book);
                if book.has(target) {
                    return Destination::Blocked(
                        "already here",
                        text::concat3("A copy is already in ", target.label(), "."),
                    );
                }
                if let Some(copy) = book.preferred() {
                    if self.loading.is_some() && (copy.optimized || copy.place
                        == Place::CrossPoint) {
                        return Destination::Blocked(
                            "wait for discovery",
                            "Wait for discovery to finish so an available original can be preferred.".to_owned(),
                        );
                    }
                    if target == Place::CrossPoint && !copy.format.shown_on_reader() {
                        return self.conversion(entry.title.as_str(), copy);
                    }
                }
                Destination::Ready(
                    if target == Place::CrossPoint {
                        "copy, optimized"
                    } else {
                        "copy"
                    },
                )
            },
        }
    }

    /// Whether one copy of a book may be deleted.
    pub fn removal(&self, book: &Book, copy: &books::Copy) -> (r: Removal)
        ensures
            r@ == self@.removal(book@, copy@),
    {
        proof {
            reveal(Model::seen);
            reveal(ModelView::removal);
        }
        if self.busy.is_some() {
            return Removal::Blocked("busy", "Wait for the current work to finish.".to_owned());
        }
        if self.loading.is_some() {
            return Removal::Blocked(
                "scanning",
                "Wait for discovery to finish before deleting anything.".to_owned(),
            );
        }
        if book.copies.len() < 2 {
            return Removal::Blocked(
                "only copy",
                text::concat3(
                    "This is the only copy of ",
                    book.title.as_str(),
                    "; copy it somewhere else first.",
                ),
            );
        }
        if copy.locked {
            return Removal::Blocked(
                "Kobo library",
                "The Kobo database lists this book; remove it on the Kobo itself.".to_owned(),
            );
        }
        if copy.sha.as_str().is_empty() {
            return Removal::Blocked(
                "unreadable",
                "This copy could not be read, so it cannot be identified.".to_owned(),
            );
        }
        if copy.place == Place::CrossPoint && self.options.copy_to.is_none() {
            return Removal::Blocked(
                "needs the card",
                "Deleting over Wi-Fi is not supported; mount the reader's card.".to_owned(),
            );
        }
        Removal::Ready
    }
}

} // verus!
