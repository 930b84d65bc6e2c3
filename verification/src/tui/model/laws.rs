//! What the list shows and marks, whatever the library holds.
use super::{
    arranged, mark_of, marked_entry, matched, sort_key, spots, toggled, toggled_each,
    Filter, ModelView, Sort,
};
use crate::books::Place;
use crate::format::Format;
use crate::order;
use crate::order::kept;
use crate::text;
use crate::tui::{entry_of, series_order, EntryView, SourceView};
use vstd::prelude::*;

verus! {

broadcast use vstd::string::group_string_axioms;

/// Whether a row is a book that has no copy at a place.
pub open spec fn absent(e: EntryView, place: Place) -> bool {
    e.source matches SourceView::Book(book) && forall|i: int|
        0 <= i < book.copies.len() ==> (#[trigger] book.copies[i]).place != place
}

/// Whether a row is a book all copies of which are at a place.
pub open spec fn nowhere_else(e: EntryView, place: Place) -> bool {
    e.source matches SourceView::Book(book) && forall|i: int|
        0 <= i < book.copies.len() ==> (#[trigger] book.copies[i]).place == place
}

/// Whether a row is a book with a copy that could not be read.
pub open spec fn damaged(e: EntryView) -> bool {
    e.source matches SourceView::Book(book) && exists|i: int|
        0 <= i < book.copies.len() && (#[trigger] book.copies[i]).sha.len() == 0
}

proof fn shown_or_not(m: ModelView, e: EntryView)
    ensures
        m.filtered().contains(e) <==> m.entries.contains(e) && m.filter.kept(e) && matched(
            text::lowercase(m.query),
            e,
        ),
{
    reveal(ModelView::filtered);
    let query = text::lowercase(m.query);
    let test = |e: EntryView| m.filter.kept(e) && matched(query, e);
    order::kept_is_part(m.entries, test);
    if m.filtered().contains(e) {
        let i = choose|i: int| 0 <= i < m.filtered().len() && m.filtered()[i] == e;
        assert(test(kept(m.entries, test)[i]));
    }
    if m.entries.contains(e) && test(e) {
        let i = choose|i: int| 0 <= i < m.entries.len() && m.entries[i] == e;
        assert(test(m.entries[i]));
    }
}

/// Under the filter for what is missing from a place, no book with a copy there is shown,
/// and every book without one that the query finds is.
pub proof fn missing_books_are_shown(m: ModelView, place: Place, e: EntryView)
    requires
        m.filter == Filter::Missing(place),
    ensures
        m.filtered().contains(e) <==> m.entries.contains(e) && absent(e, place) && matched(
            text::lowercase(m.query),
            e,
        ),
{
    shown_or_not(m, e);
    if let SourceView::Book(book) = e.source {
        if absent(e, place) {
            assert(!book.has(place));
        }
        if !book.has(place) {
            assert forall|i: int| 0 <= i < book.copies.len() implies (
            #[trigger] book.copies[i]).place != place by {}
        }
    }
}

/// Under the filter for what is only at a place, a book is shown exactly when all its
/// copies are there and the query finds it.
pub proof fn books_of_one_place_are_shown(m: ModelView, place: Place, e: EntryView)
    requires
        m.filter == Filter::Only(place),
    ensures
        m.filtered().contains(e) <==> m.entries.contains(e) && nowhere_else(e, place) && matched(
            text::lowercase(m.query),
            e,
        ),
{
    shown_or_not(m, e);
}

/// Under the filter for what could not be read, a book is shown exactly when it has such
/// a copy and the query finds it.
pub proof fn unreadable_books_are_shown(m: ModelView, e: EntryView)
    requires
        m.filter == Filter::Unreadable,
    ensures
        m.filtered().contains(e) <==> m.entries.contains(e) && damaged(e) && matched(
            text::lowercase(m.query),
            e,
        ),
{
    shown_or_not(m, e);
}

/// Without a filter, everything that the query finds is shown; without a query too,
/// everything.
pub proof fn everything_is_shown(m: ModelView, e: EntryView)
    requires
        m.filter == Filter::All,
    ensures
        m.filtered().contains(e) <==> m.entries.contains(e) && matched(text::lowercase(m.query), e),
        m.query.len() == 0 ==> (m.filtered().contains(e) <==> m.entries.contains(e)),
{
    shown_or_not(m, e);
    if m.query.len() == 0 {
        reveal(text::lowercase);
        assert(m.query =~= Seq::<char>::empty());
        assert(text::lowercase(m.query) =~= Seq::<char>::empty());
        nothing_asked(e);
    }
}

proof fn nothing_asked(e: EntryView)
    ensures
        matched(Seq::empty(), e),
{
    let none = Seq::<char>::empty();
    assert(text::index_from(none, ':', 0) == 0);
    assert(e.search.subrange(0, 0) =~= none);
    assert(text::at(e.search, none, 0));
}

/// What is shown keeps the order of the list: rows stand in the same order and none is
/// shown twice for one place in the list.
pub proof fn rows_keep_their_order(m: ModelView) -> (places: Seq<int>)
    ensures
        places.len() == m.filtered().len(),
        forall|k: int|
            0 <= k < places.len() ==> 0 <= #[trigger] places[k] < m.entries.len()
                && m.entries[places[k]] == m.filtered()[k],
        forall|j: int, k: int|
            0 <= j < k < places.len() ==> (#[trigger] places[j]) < (#[trigger] places[k]),
{
    reveal(ModelView::filtered);
    let query = text::lowercase(m.query);
    places_kept(m.entries, |e: EntryView| m.filter.kept(e) && matched(query, e))
}

proof fn places_kept(s: Seq<EntryView>, test: spec_fn(EntryView) -> bool) -> (places: Seq<int>)
    ensures
        places.len() == kept(s, test).len(),
        forall|k: int|
            0 <= k < places.len() ==> 0 <= #[trigger] places[k] < s.len() && s[places[k]] == kept(
                s,
                test,
            )[k],
        forall|j: int, k: int|
            0 <= j < k < places.len() ==> (#[trigger] places[j]) < (#[trigger] places[k]),
    decreases s.len(),
{
    if s.len() == 0 {
        Seq::empty()
    } else {
        let rest = s.drop_last();
        let before = places_kept(rest, test);
        assert forall|k: int| 0 <= k < before.len() implies s[#[trigger] before[k]] == kept(
            rest,
            test,
        )[k] by {
            assert(rest[before[k]] == s[before[k]]);
        }
        if test(s.last()) {
            before.push(s.len() - 1)
        } else {
            before
        }
    }
}

/// A query without a field finds a book by its title and its author together, whatever
/// the case.
pub proof fn titles_and_authors_are_searched(
    query: Seq<char>,
    title: Seq<char>,
    author: Seq<char>,
    kind: Seq<char>,
    source: SourceView,
)
    requires
        forall|i: int| 0 <= i < query.len() ==> #[trigger] query[i] != ':',
    ensures
        matched(query, entry_of(title, author, kind, source)) <==> text::within(
            text::lowercase(title + " "@ + author),
            query,
        ),
{
    text::index_from_range(query, ':', 0);
}

proof fn colon_at(query: Seq<char>, field: Seq<char>, term: Seq<char>)
    requires
        query == field + ":"@ + term,
        forall|i: int| 0 <= i < field.len() ==> #[trigger] field[i] != ':',
    ensures
        text::index_from(query, ':', 0) == field.len(),
        query.take(field.len() as int) == field,
        query.skip(field.len() as int + 1) == term,
{
    reveal_strlit(":");
    text::index_from_range(query, ':', 0);
    let n = field.len() as int;
    assert(query[n] == ':');
    let at = text::index_from(query, ':', 0);
    if at < n {
        assert(query[at] == field[at]);
    }
    assert(query.take(n) =~= field);
    assert(query.skip(n + 1) =~= term);
}

/// A query that names a field finds a book by that field alone.
pub proof fn one_field_is_searched_alone(
    term: Seq<char>,
    title: Seq<char>,
    author: Seq<char>,
    kind: Seq<char>,
    source: SourceView,
)
    ensures
        ({
            let e = entry_of(title, author, kind, source);
            let wanted = text::trimmed_start(term);
            &&& matched("author"@ + ":"@ + term, e) <==> text::within(
                text::lowercase(author),
                wanted,
            )
            &&& matched("title"@ + ":"@ + term, e) <==> text::within(text::lowercase(title), wanted)
            &&& matched("series"@ + ":"@ + term, e) <==> text::within(
                match source {
                    SourceView::Book(book) => series_order(book.series, book.series_index),
                    SourceView::Local(_) => series_order(None, None),
                },
                wanted,
            )
        }),
{
    reveal_strlit("author");
    reveal_strlit("title");
    reveal_strlit("series");
    reveal_strlit(":");
    assert("series"@[0] == 's' && "author"@[0] == 'a');
    assert("title"@.len() == 5 && "author"@.len() == 6);
    colon_at("author"@ + ":"@ + term, "author"@, term);
    colon_at("title"@ + ":"@ + term, "title"@, term);
    colon_at("series"@ + ":"@ + term, "series"@, term);
}

/// What a list is put in order by, under each order.
pub open spec fn leading(sort: Sort, e: EntryView) -> Seq<char> {
    match sort {
        Sort::Title => e.title_key,
        Sort::Author => e.author_key,
        Sort::Series => e.series_key,
    }
}

/// The list is in the order that was chosen, and by title where that does not decide.
pub proof fn the_list_is_in_order(sort: Sort, entries: Seq<EntryView>, i: int, j: int)
    requires
        0 <= i < j < entries.len(),
        (arranged(sort, entries)[i].kind == "ACSM"@) == (arranged(sort, entries)[j].kind
            == "ACSM"@),
    ensures
        ({
            let a = arranged(sort, entries)[i];
            let b = arranged(sort, entries)[j];
            &&& !text::before(leading(sort, b), leading(sort, a))
            &&& leading(sort, a) == leading(sort, b) ==> !text::before(b.title_key, a.title_key)
        }),
{
    let key = |e: EntryView| sort_key(sort, e);
    order::sorting_orders_and_keeps(entries, key);
    let all = arranged(sort, entries);
    assert(!order::by_key(key)(all[j], all[i]));
    text::before_is_total(leading(sort, all[j]), leading(sort, all[i]));
}

/// Whether a row stands in a spot.
pub open spec fn stands_in(source: SourceView, spot: (Place, Seq<char>)) -> bool {
    match source {
        SourceView::Book(book) => exists|i: int|
            0 <= i < book.copies.len() && (#[trigger] book.copies[i]).place == spot.0
                && book.copies[i].path == spot.1,
        SourceView::Local(path) => spot.0 == Place::Local && spot.1 == path,
    }
}

proof fn spots_are_where_it_stands(source: SourceView, spot: (Place, Seq<char>))
    ensures
        spots(source).contains(spot) <==> stands_in(source, spot),
{
    match source {
        SourceView::Book(book) => {
            if spots(source).contains(spot) {
                let i = choose|i: int| 0 <= i < spots(source).len() && spots(source)[i] == spot;
                assert(book.copies[i].place == spot.0);
            }
            if stands_in(source, spot) {
                let i = choose|i: int|
                    0 <= i < book.copies.len() && (#[trigger] book.copies[i]).place == spot.0
                        && book.copies[i].path == spot.1;
                assert(spots(source)[i] == spot);
            }
        },
        SourceView::Local(path) => {
            assert(spots(source)[0] == (Place::Local, path));
        },
    }
}

/// A row is marked exactly when it stands in a spot that was marked, so that a book that
/// gains or loses copies keeps its mark.
pub proof fn marks_are_kept_by_spot(marked: Seq<(Place, Seq<char>)>, source: SourceView)
    ensures
        marked_entry(marked, source) <==> exists|k: int|
            0 <= k < marked.len() && stands_in(source, #[trigger] marked[k]),
{
    if marked_entry(marked, source) {
        let i = choose|i: int|
            0 <= i < spots(source).len() && marked.contains(#[trigger] spots(source)[i]);
        let k = choose|k: int| 0 <= k < marked.len() && marked[k] == spots(source)[i];
        spots_are_where_it_stands(source, marked[k]);
        assert(spots(source).contains(marked[k]));
        assert(stands_in(source, marked[k]));
    }
    if exists|k: int| 0 <= k < marked.len() && stands_in(source, #[trigger] marked[k]) {
        let k = choose|k: int| 0 <= k < marked.len() && stands_in(source, #[trigger] marked[k]);
        spots_are_where_it_stands(source, marked[k]);
        let i = choose|i: int| 0 <= i < spots(source).len() && spots(source)[i] == marked[k];
        assert(marked.contains(spots(source)[i]));
    }
}

/// Marking a row marks it where it was not, and takes the mark off where it was; no mark
/// of another spot comes or goes.
pub proof fn marking_goes_to_and_fro(
    marked: Seq<(Place, Seq<char>)>,
    source: SourceView,
    spot: (Place, Seq<char>),
)
    requires
        source matches SourceView::Book(book) ==> book.copies.len() > 0,
    ensures
        marked_entry(toggled(marked, source), source) == !marked_entry(marked, source),
        !stands_in(source, spot) ==> (toggled(marked, source).contains(spot) <==> marked.contains(
            spot,
        )),
{
    let after = toggled(marked, source);
    spots_are_where_it_stands(source, spot);
    if marked_entry(marked, source) {
        let test = |m: (Place, Seq<char>)| !spots(source).contains(m);
        order::kept_is_part(marked, test);
        if marked_entry(after, source) {
            let i = choose|i: int|
                0 <= i < spots(source).len() && after.contains(#[trigger] spots(source)[i]);
            let k = choose|k: int| 0 <= k < after.len() && after[k] == spots(source)[i];
            assert(test(kept(marked, test)[k]));
            assert(spots(source).contains(after[k]));
        }
        if after.contains(spot) {
            let k = choose|k: int| 0 <= k < after.len() && after[k] == spot;
            assert(marked.contains(kept(marked, test)[k]));
        }
        if marked.contains(spot) && !stands_in(source, spot) {
            let k = choose|k: int| 0 <= k < marked.len() && marked[k] == spot;
            assert(test(marked[k]));
        }
    } else {
        marking_names_a_spot(source);
        let new = mark_of(source)->0;
        assert(after == marked.push(new));
        let i = choose|i: int| 0 <= i < spots(source).len() && spots(source)[i] == new;
        assert(after[marked.len() as int] == new);
        assert(after.contains(spots(source)[i]));
        if marked.contains(spot) {
            let k = choose|k: int| 0 <= k < marked.len() && marked[k] == spot;
            assert(after[k] == spot);
        }
        if after.contains(spot) && !stands_in(source, spot) {
            let k = choose|k: int| 0 <= k < after.len() && after[k] == spot;
            if k == marked.len() {
                assert(spots(source).contains(spot));
            } else {
                assert(marked[k] == spot);
            }
        }
    }
}

proof fn marking_names_a_spot(source: SourceView)
    requires
        source matches SourceView::Book(book) ==> book.copies.len() > 0,
    ensures
        mark_of(source) is Some,
        spots(source).contains(mark_of(source)->0),
{
    match source {
        SourceView::Book(book) => {
            crate::books::preferred_is_nearest(book.copies);
            let at = crate::books::preferred_index(book.copies);
            assert(spots(source)[at] == mark_of(source)->0);
        },
        SourceView::Local(path) => {
            assert(spots(source)[0] == mark_of(source)->0);
        },
    }
}

proof fn marks_only_grow(marked: Seq<(Place, Seq<char>)>, other: SourceView, source: SourceView)
    requires
        !marked_entry(marked, other),
        marked_entry(marked, source),
    ensures
        marked_entry(toggled(marked, other), source),
{
    let i = choose|i: int|
        0 <= i < spots(source).len() && marked.contains(#[trigger] spots(source)[i]);
    let k = choose|k: int| 0 <= k < marked.len() && marked[k] == spots(source)[i];
    assert(toggled(marked, other)[k] == marked[k]);
    assert(toggled(marked, other).contains(spots(source)[i]));
}

proof fn marks_only_shrink(marked: Seq<(Place, Seq<char>)>, other: SourceView, source: SourceView)
    requires
        marked_entry(marked, other),
        !marked_entry(marked, source),
    ensures
        !marked_entry(toggled(marked, other), source),
{
    let test = |m: (Place, Seq<char>)| !spots(other).contains(m);
    order::kept_is_part(marked, test);
    let after = toggled(marked, other);
    if marked_entry(after, source) {
        let i = choose|i: int|
            0 <= i < spots(source).len() && after.contains(#[trigger] spots(source)[i]);
        let k = choose|k: int| 0 <= k < after.len() && after[k] == spots(source)[i];
        assert(marked.contains(kept(marked, test)[k]));
        assert(marked.contains(spots(source)[i]));
    }
}

proof fn each_is_toggled(
    marked: Seq<(Place, Seq<char>)>,
    shown: Seq<EntryView>,
    all: bool,
    i: int,
)
    requires
        0 <= i < shown.len(),
        forall|k: int|
            0 <= k < shown.len() ==> ((#[trigger] shown[k]).source matches SourceView::Book(book)
                ==> book.copies.len() > 0),
    ensures
        marked_entry(toggled_each(marked, shown, all), shown[i].source) == !all,
    decreases shown.len(),
{
    let rest = shown.drop_last();
    let so_far = toggled_each(marked, rest, all);
    let last = shown.last().source;
    assert(shown[shown.len() - 1].source == last);
    assert forall|k: int| 0 <= k < rest.len() implies ((
    #[trigger] rest[k]).source matches SourceView::Book(book) ==> book.copies.len() > 0) by {
        assert(rest[k] == shown[k]);
    }
    if i < rest.len() {
        assert(rest[i] == shown[i]);
        each_is_toggled(marked, rest, all, i);
        if all == marked_entry(so_far, last) {
            if all {
                marks_only_shrink(so_far, last, shown[i].source);
            } else {
                marks_only_grow(so_far, last, shown[i].source);
            }
        }
    } else {
        marking_goes_to_and_fro(so_far, last, (Place::Local, Seq::empty()));
    }
}

/// One key marks everything that is shown; where all of it was marked already, it takes
/// all those marks off.
pub proof fn everything_shown_is_marked_or_cleared(m: ModelView, i: int)
    requires
        0 <= i < m.filtered().len(),
        forall|k: int|
            0 <= k < m.filtered().len() ==> ((
            #[trigger] m.filtered()[k]).source matches SourceView::Book(book) ==> book.copies.len()
                > 0),
    ensures
        ({
            let all = forall|k: int|
                0 <= k < m.filtered().len() ==> marked_entry(
                    m.marked,
                    (#[trigger] m.filtered()[k]).source,
                );
            marked_entry(m.all_toggled().marked, m.filtered()[i].source) == !all
        }),
{
    reveal(ModelView::all_toggled);
    let shown = m.filtered();
    let all = shown.len() > 0 && forall|i: int|
        0 <= i < shown.len() ==> m.is_marked(#[trigger] shown[i]);
    each_is_toggled(m.marked, shown, all, i);
    if forall|k: int|
        0 <= k < m.filtered().len() ==> marked_entry(
            m.marked,
            (#[trigger] m.filtered()[k]).source,
        ) {
        assert forall|i: int| 0 <= i < shown.len() implies m.is_marked(#[trigger] shown[i]) by {
            assert(marked_entry(m.marked, m.filtered()[i].source));
        }
    } else if all {
        assert forall|k: int| 0 <= k < m.filtered().len() implies marked_entry(
            m.marked,
            (#[trigger] m.filtered()[k]).source,
        ) by {
            assert(m.is_marked(shown[k]));
        }
    }
}

/// A copy is of everything that is marked, whether it is shown or not, and of the
/// highlighted row where nothing is.
pub proof fn what_is_marked_is_copied(m: ModelView, e: EntryView)
    ensures
        (exists|k: int|
            0 <= k < m.entries.len() && marked_entry(m.marked, (#[trigger] m.entries[k]).source))
            ==> (m.chosen().contains(e) <==> m.entries.contains(e) && marked_entry(
            m.marked,
            e.source,
        )),
        (forall|k: int|
            0 <= k < m.entries.len() ==> !marked_entry(m.marked, (#[trigger] m.entries[k]).source))
            ==> m.chosen() == (if m.selected < m.filtered().len() {
            seq![m.filtered()[m.selected as int]]
        } else {
            Seq::empty()
        }),
{
    reveal(ModelView::chosen);
    reveal(ModelView::selected_entry);
    let test = |e: EntryView| m.is_marked(e);
    order::kept_is_part(m.entries, test);
    let marked = kept(m.entries, test);
    if exists|k: int|
        0 <= k < m.entries.len() && marked_entry(m.marked, (#[trigger] m.entries[k]).source) {
        let k = choose|k: int|
            0 <= k < m.entries.len() && marked_entry(m.marked, (#[trigger] m.entries[k]).source);
        assert(test(m.entries[k]));
        assert(marked.contains(m.entries[k]));
        if m.entries.contains(e) && marked_entry(m.marked, e.source) {
            let j = choose|j: int| 0 <= j < m.entries.len() && m.entries[j] == e;
            assert(test(m.entries[j]));
        }
        if marked.contains(e) {
            let j = choose|j: int| 0 <= j < marked.len() && marked[j] == e;
            assert(test(kept(m.entries, test)[j]));
        }
    } else if marked.len() > 0 {
        assert(test(kept(m.entries, test)[0]));
        let j = choose|j: int| 0 <= j < m.entries.len() && m.entries[j] == marked[0];
        assert(marked_entry(m.marked, m.entries[j].source));
    }
}

/// A copy is offered wherever nothing stands in its way: the place was read to the end
/// and has no copy, nothing runs, and the copy it is taken from is an original, or the
/// scan is over.
pub proof fn copying_is_offered_where_it_is_missing(m: ModelView, e: EntryView, target: Place)
    requires
        m.busy is None,
        !m.retaining,
        m.loading is None,
        target == Place::Local || m.catalog.ready(target),
        e.source is Book,
        forall|i: int|
            0 <= i < m.current(e.source->Book_0).copies.len() ==> (#[trigger] m.current(
                e.source->Book_0,
            ).copies[i]).place != target,
        target == Place::CrossPoint ==> (m.current(e.source->Book_0).preferred() matches Some(copy)
            ==> copy.format == Format::Epub),
    ensures
        m.destination(e, target) is Ready,
{
    reveal(ModelView::destination);
}

/// A place that has a copy of a book, or that could not be read to the end, is never
/// offered one; and nothing is offered while a copy runs.
pub proof fn copying_is_refused_where_it_cannot_be(m: ModelView, e: EntryView, target: Place)
    ensures
        m.busy is Some ==> m.destination(e, target) is Blocked,
        target != Place::Local && !m.catalog.ready(target) ==> m.destination(e, target) is Blocked,
        (e.source matches SourceView::Book(book) && exists|i: int|
            0 <= i < m.current(book).copies.len() && (#[trigger] m.current(book).copies[i]).place
                == target) ==> m.destination(e, target) is Blocked,
{
    reveal(ModelView::destination);
}

proof fn exact_row_is_found(shown: Seq<EntryView>, source: SourceView, from: int, k: int)
    requires
        0 <= from <= k < shown.len(),
        shown[k].source == source,
    ensures
        ({
            let at = crate::tui::update::exact_row(shown, source, from);
            from <= at < shown.len() && shown[at].source == source
        }),
    decreases k - from,
{
    if shown[from].source != source {
        exact_row_is_found(shown, source, from + 1, k);
    }
}

/// Changing the order keeps the highlight on the book it was on.
pub proof fn the_highlight_stays_on_its_book(m: ModelView)
    requires
        m.selected < m.filtered().len(),
        m.filtered().len() <= usize::MAX,
        m.resorted().filtered().len() <= usize::MAX,
    ensures
        ({
            let after = m.resorted();
            &&& after.sort == m.sort.following()
            &&& after.selected < after.filtered().len()
            &&& after.filtered()[after.selected as int].source
                == m.filtered()[m.selected as int].source
            &&& after.entries.to_multiset() == m.entries.to_multiset()
        }),
{
    reveal(ModelView::resorted);
    reveal(ModelView::selected_entry);
    reveal(ModelView::filtered);
    let sort = m.sort.following();
    let n = ModelView { sort, entries: arranged(sort, m.entries), ..m };
    let old = m.filtered()[m.selected as int];
    assert(m.filtered().contains(old));
    shown_or_not(m, old);
    order::sorting_orders_and_keeps(m.entries, |e: EntryView| sort_key(sort, e));
    vstd::seq_lib::to_multiset_len(m.entries);
    assert(m.entries.to_multiset().contains(old)) by {
        broadcast use vstd::seq_lib::group_to_multiset_ensures;
    }
    assert(n.entries.contains(old)) by {
        broadcast use vstd::seq_lib::group_to_multiset_ensures;
    }
    shown_or_not(n, old);
    let k = choose|k: int| 0 <= k < n.filtered().len() && n.filtered()[k] == old;
    let after = m.resorted();
    assert(after.filtered() == n.filtered());
    exact_row_is_found(n.filtered(), old.source, 0, k);
}

/// While the list is kept from before a refresh nothing is copied from it, and a request
/// goes nowhere but home.
pub proof fn an_old_list_is_not_copied_from(m: ModelView, e: EntryView, target: Place)
    ensures
        m.retaining ==> m.destination(e, target) is Blocked,
        e.source is Local && target != Place::Local ==> m.destination(e, target) is Blocked,
        e.source is Local && target == Place::Local && m.busy is None && !m.retaining
            ==> m.destination(e, target) is Ready,
{
    reveal(ModelView::destination);
}

/// Two rows stand for the same thing when they share a spot, or are the same request; a
/// book and a request never do.
pub proof fn rows_are_told_by_their_spots(
    a: SourceView,
    b: SourceView,
    x: Seq<char>,
    y: Seq<char>,
    i: int,
    j: int,
)
    ensures
        super::same_row(SourceView::Local(x), SourceView::Local(y)) <==> x == y,
        a is Book && b is Local ==> !super::same_row(a, b) && !super::same_row(b, a),
        (a matches SourceView::Book(p) && (b matches SourceView::Book(q) && (0 <= i
            < p.copies.len() && 0 <= j < q.copies.len() && p.copies[i].place == q.copies[j].place
            && p.copies[i].path == q.copies[j].path))) ==> super::same_row(a, b),
        (a matches SourceView::Book(p) && (b matches SourceView::Book(q) && forall|k: int, l: int|
            0 <= k < p.copies.len() && 0 <= l < q.copies.len() ==> (#[trigger] p.copies[k]).place
                != (#[trigger] q.copies[l]).place || p.copies[k].path != q.copies[l].path))
            ==> !super::same_row(a, b),
{
    if let SourceView::Book(p) = a {
        if let SourceView::Book(q) = b {
            if 0 <= i < p.copies.len() && 0 <= j < q.copies.len() && p.copies[i].place
                == q.copies[j].place && p.copies[i].path == q.copies[j].path {
                assert(p.copies[i].same_spot(q.copies[j]));
            }
        }
    }
}

} // verus!
