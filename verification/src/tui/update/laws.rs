//! What each key brings about.
use super::{
    configured_options, copyable, first_question, moved, renewed, EffectView, MessageView,
};
use crate::books::{Place, SnapshotView};
use crate::config::DefaultsView;
use crate::order;
use crate::order::kept;
use crate::text;
use crate::tui::model::{same_row, Filter, ModelView};
use crate::tui::settings::Found;
use crate::tui::{EntryView, Key, KeyCode, OptionsView, SourceView};
use vstd::prelude::*;

verus! {

broadcast use vstd::string::group_string_axioms;

/// Whether the list has the keys: nothing stands before it, and nothing waits to end.
pub open spec fn in_the_list(m: ModelView, key: Key) -> bool {
    &&& !key.release
    &&& !key.control
    &&& !m.pending_quit
    &&& m.correcting is None
    &&& m.settings is None
    &&& m.history is None
    &&& !m.help
    &&& m.filter_menu is None
    &&& m.copies is None
    &&& m.action.len() == 0
    &&& !m.search
}

/// The arrows move the highlight by one row, a page by ten, and the ends to the first and
/// the last row, never out of the list.
pub proof fn the_highlight_moves_by_rows(selected: usize, len: nat)
    requires
        selected < len,
        len <= usize::MAX,
    ensures
        selected + 1 < len ==> moved(selected, KeyCode::Down, len) == selected + 1,
        selected + 1 == len ==> moved(selected, KeyCode::Down, len) == selected,
        selected > 0 ==> moved(selected, KeyCode::Up, len) == selected - 1,
        moved(0, KeyCode::Up, len) == 0,
        selected + 10 < len ==> moved(selected, KeyCode::PageDown, len) == selected + 10,
        selected + 10 >= len ==> moved(selected, KeyCode::PageDown, len) == len - 1,
        selected >= 10 ==> moved(selected, KeyCode::PageUp, len) == selected - 10,
        selected < 10 ==> moved(selected, KeyCode::PageUp, len) == 0,
        moved(selected, KeyCode::Home, len) == 0,
        moved(selected, KeyCode::End, len) == len - 1,
{
}

/// Striking an arrow in the list moves the highlight there, and nothing else changes but
/// that the highlight is now the reader's own.
pub proof fn arrows_move_the_highlight(m: ModelView, key: Key, found: Seq<Found>)
    requires
        in_the_list(m, key),
        key.code == KeyCode::Down || key.code == KeyCode::Up || key.code == KeyCode::Home
            || key.code == KeyCode::End || key.code == KeyCode::PageDown || key.code
            == KeyCode::PageUp,
    ensures
        m.keyed(key, found).0 == (ModelView {
            selected: moved(m.selected, key.code, m.filtered().len()),
            touched: true,
            ..m
        }),
        m.keyed(key, found).1.len() == 0,
{
    reveal(ModelView::keyed);
    reveal(ModelView::list_key);
    assert(ModelView { touched: true, ..m }.filtered() == m.filtered()) by {
        reveal(ModelView::filtered);
    }
}

/// Each number in the filter menu sets its filter, and the list starts at its top.
pub proof fn numbers_choose_filters(m: ModelView, key: Key, found: Seq<Found>, at: usize)
    requires
        !key.release,
        !key.control,
        !m.pending_quit,
        m.correcting is None,
        m.settings is None,
        m.history is None,
        !m.help,
        m.filter_menu == Some(at),
    ensures
        ({
            let after = m.keyed(key, found).0;
            &&& key.code == KeyCode::Char('1') ==> after.filter == Filter::All
            &&& key.code == KeyCode::Char('2') ==> after.filter == Filter::Missing(Place::Local)
            &&& key.code == KeyCode::Char('3') ==> after.filter == Filter::Missing(Place::Kobo)
            &&& key.code == KeyCode::Char('4') ==> after.filter == Filter::Missing(
                Place::CrossPoint,
            )
            &&& key.code == KeyCode::Char('5') ==> after.filter == Filter::Only(Place::CrossPoint)
            &&& key.code == KeyCode::Char('6') ==> after.filter == Filter::Unreadable
            &&& (key.code matches KeyCode::Char(c) && '1' <= c <= '6') ==> after.filter_menu is None
                && after.selected == 0
            &&& key.code == KeyCode::Esc ==> after.filter == m.filter && after.filter_menu is None
        }),
{
    reveal(ModelView::keyed);
    reveal(ModelView::menu_key);
}

/// What is typed in a search is added to the query, one character at a time, and taken
/// off again; the list starts at its top.
pub proof fn typing_searches(m: ModelView, key: Key, found: Seq<Found>)
    requires
        !key.release,
        !m.pending_quit,
        m.correcting is None,
        m.settings is None,
        m.history is None,
        !m.help,
        m.filter_menu is None,
        m.copies is None,
        m.action.len() == 0,
        m.search,
        !key.control,
        !key.alt,
    ensures
        ({
            let after = m.keyed(key, found).0;
            &&& key.code matches KeyCode::Char(c) ==> !text::control(c) ==> after.query
                == m.query.push(c) && after.selected == 0 && after.search
            &&& key.code == KeyCode::Backspace && m.query.len() > 0 ==> after.query
                == m.query.drop_last()
            &&& key.code == KeyCode::Enter || key.code == KeyCode::Esc ==> after.query == m.query
                && !after.search
        }),
{
    reveal(ModelView::keyed);
    reveal(ModelView::search_key);
}

/// What a job copies: everything chosen that is not refused there, as the library now has
/// it, and nothing else.
pub proof fn a_job_copies_what_can_go(
    m: ModelView,
    entries: Seq<EntryView>,
    target: Place,
    e: EntryView,
)
    ensures
        entries.contains(e) && !(m.destination(e, target) is Blocked) ==> copyable(
            m,
            entries,
            target,
        ).contains(renewed(m, e)),
        copyable(m, entries, target).contains(e) ==> exists|i: int|
            0 <= i < entries.len() && e == renewed(m, #[trigger] entries[i]) && !(m.destination(
                entries[i],
                target,
            ) is Blocked),
{
    let test = |e: EntryView| !(m.destination(e, target) is Blocked);
    let all = kept(entries, test);
    order::kept_is_part(entries, test);
    let made = copyable(m, entries, target);
    assert(made == order::mapped(all, |e: EntryView| renewed(m, e)));
    if entries.contains(e) && test(e) {
        let i = choose|i: int| 0 <= i < entries.len() && entries[i] == e;
        assert(test(entries[i]));
        let k = choose|k: int| 0 <= k < all.len() && all[k] == e;
        assert(made[k] == renewed(m, e));
    }
    if made.contains(e) {
        let k = choose|k: int| 0 <= k < made.len() && made[k] == e;
        assert(test(kept(entries, test)[k]));
        assert(entries.contains(all[k]));
        let i = choose|i: int| 0 <= i < entries.len() && entries[i] == all[k];
        assert(e == renewed(m, entries[i]));
    }
}

/// In the copy dialog the numbers stand for what is at hand, the Kobo and the reader. What
/// was chosen is copied there, unless a book of it has to be asked about first.
pub proof fn numbers_choose_where_to_copy(m: ModelView, key: Key, found: Seq<Found>, target: Place)
    requires
        !key.release,
        !key.control,
        !m.pending_quit,
        m.correcting is None,
        m.settings is None,
        m.history is None,
        !m.help,
        m.filter_menu is None,
        m.copies is None,
        m.action.len() > 0,
        m.ask is None,
        key.code == KeyCode::Char(
            match target {
                Place::Local => '1',
                Place::Kobo => '2',
                Place::CrossPoint => '3',
            },
        ),
        m.next_id < u64::MAX,
    ensures
        ({
            let (after, effects) = m.keyed(key, found);
            let wanted = copyable(m, m.action, target);
            &&& first_question(m, m.action, target, 0) is Some ==> effects.len() == 0 && (
            after.ask matches Some((place, _)) && place == target)
            &&& first_question(m, m.action, target, 0) is None && wanted.len() > 0 ==> {
                &&& effects.len() == 1
                &&& effects[0] matches EffectView::Work { id, entries, target: place, .. } && entries
                    == wanted && place == target && after.busy == Some(id)
            }
            &&& first_question(m, m.action, target, 0) is None && wanted.len() == 0
                ==> effects.len() == 0
        }),
{
    reveal(ModelView::keyed);
    reveal(ModelView::action_key);
    reveal(ModelView::target_chosen);
    reveal(ModelView::copy_started);
    let n = ModelView { ask: None, ..m };
    assert(n == m);
}

/// A question is asked exactly when some chosen book has to be asked about.
pub proof fn poor_conversions_are_asked_about(
    m: ModelView,
    entries: Seq<EntryView>,
    target: Place,
    from: int,
)
    requires
        0 <= from <= entries.len(),
    ensures
        first_question(m, entries, target, from) is Some <==> exists|i: int|
            from <= i < entries.len() && m.destination(#[trigger] entries[i], target) is Ask,
    decreases entries.len() - from,
{
    if from < entries.len() {
        poor_conversions_are_asked_about(m, entries, target, from + 1);
        if m.destination(entries[from], target) is Ask {
            assert(m.destination(entries[from], target) is Ask);
        } else if exists|i: int|
            from <= i < entries.len() && m.destination(#[trigger] entries[i], target) is Ask {
            let i = choose|i: int|
                from <= i < entries.len() && m.destination(#[trigger] entries[i], target) is Ask;
            assert(i >= from + 1);
        }
    }
}

/// Saved settings are the ones that are used from then on; a folder that is left empty
/// stays what it was.
pub proof fn saved_settings_are_used(options: OptionsView, defaults: DefaultsView)
    ensures
        ({
            let after = configured_options(options, defaults);
            &&& after.device == defaults.device
            &&& after.send_to == defaults.reader
            &&& after.copy_to == defaults.copy_to
            &&& defaults.browse matches Some(path) ==> after.browse == path
            &&& defaults.browse is None ==> after.browse == options.browse
            &&& defaults.output matches Some(path) ==> after.output == path
            &&& defaults.output is None ==> after.output == options.output
            &&& defaults.folder matches Some(folder) ==> after.folder == folder
            &&& !after.first_run
        }),
{
}

/// Every book and every request of a library has a row of its own, with what it is called
/// and who wrote it.
pub proof fn everything_has_a_row(snapshot: SnapshotView, i: int)
    ensures
        super::rows(snapshot).len() == snapshot.books.len() + snapshot.acsm.len(),
        0 <= i < snapshot.books.len() ==> {
            let row = super::rows(snapshot)[i];
            &&& row.source == SourceView::Book(snapshot.books[i])
            &&& row.title == snapshot.books[i].title
            &&& row.author == snapshot.books[i].author
        },
        0 <= i < snapshot.acsm.len() ==> {
            let row = super::rows(snapshot)[snapshot.books.len() + i];
            &&& row.source == SourceView::Local(snapshot.acsm[i])
            &&& row.kind == "ACSM"@
        },
{
}

/// A finished job says what came of it, and another may start.
pub proof fn a_finished_job_makes_room(m: ModelView, id: u64, result: Result<Seq<char>, Seq<char>>)
    requires
        m.busy == Some(id),
        !m.pending_refresh,
        m.loading is None,
        m.configuring is None,
        !m.pending_quit,
    ensures
        ({
            let after = m.after(MessageView::Finished(id, result)).0;
            &&& after.busy is None
            &&& after.step is None
            &&& result matches Ok(words) ==> after.status == words
            &&& result matches Err(words) ==> after.status == "Error: "@ + words
            &&& after.entries == m.entries
        }),
{
    reveal(ModelView::finished);
    reveal(ModelView::caught_up);
}

/// The letters of the list do what the help says: search, help, filters, settings, order,
/// marks, copies, recent copies, another scan.
pub proof fn letters_do_what_the_help_says(m: ModelView, key: Key, found: Seq<Found>)
    requires
        in_the_list(m, key),
        m.next_id < u64::MAX,
    ensures
        ({
            let (after, effects) = m.keyed(key, found);
            &&& key.code == KeyCode::Char('/') ==> after.search && after.query == m.query
            &&& key.code == KeyCode::Char('?') ==> after.help
            &&& key.code == KeyCode::Char('f') ==> after.filter_menu is Some && after.filter
                == m.filter
            &&& key.code == KeyCode::Char(',') ==> after.settings is Some
            &&& key.code == KeyCode::Char('s') ==> after.sort == m.sort.following()
            &&& key.code == KeyCode::Char('h') ==> effects.len() == 1 && effects[0] is ReadHistory
            &&& key.code == KeyCode::Char('r') && m.loading is None && m.busy is None
                ==> effects.len() == 1 && (effects[0] matches EffectView::Load { id, options }
                && options == m.options && after.loading == Some(id))
            &&& key.code == KeyCode::Char(' ') && m.selected < m.filtered().len() ==> after.marked
                == crate::tui::model::toggled(
                m.marked,
                m.filtered()[m.selected as int].source,
            )
            &&& key.code == KeyCode::Char('a') ==> after.marked == m.all_toggled().marked
            &&& key.code == KeyCode::Char('d') && m.busy is None && m.selected < m.filtered().len()
                && m.filtered()[m.selected as int].source is Book ==> after.copies == Some(
                m.filtered()[m.selected as int],
            )
            &&& key.code == KeyCode::Enter && m.busy is None ==> after.action == m.chosen()
            &&& key.code == KeyCode::Char('q') && m.idle() ==> effects == seq![EffectView::Quit]
            &&& key.code == KeyCode::Esc && m.busy is Some && m.cancel ==> effects == seq![
                EffectView::Stop { id: m.busy->0 },
            ]
        }),
{
    reveal(ModelView::keyed);
    reveal(ModelView::list_key);
    reveal(ModelView::letter);
    reveal(ModelView::resorted);
    reveal(ModelView::refreshed);
    reveal(ModelView::quit);
    reveal(ModelView::copies_opened);
    reveal(ModelView::selected_entry);
    reveal(ModelView::all_toggled);
    reveal(ModelView::chosen);
    let n = ModelView { touched: m.touched || false, ..m };
    assert(n == m);
}

/// What a scan found is what is shown: every book and every request has its row, in the
/// order that was chosen.
pub proof fn a_scan_is_shown(m: ModelView, id: u64, snapshot: SnapshotView)
    requires
        m.loading == Some(id),
        !m.retaining,
    ensures
        ({
            let after = m.after(MessageView::Catalog(id, snapshot)).0;
            &&& after.catalog == snapshot
            &&& after.entries.to_multiset() == super::rows(snapshot).to_multiset()
            &&& after.entries == crate::tui::model::arranged(m.sort, super::rows(snapshot))
        }),
{
    reveal(ModelView::taken_in);
    order::sorting_orders_and_keeps(
        super::rows(snapshot),
        |e: EntryView| crate::tui::model::sort_key(m.sort, e),
    );
}

/// A scan that failed keeps what was shown, and no place counts as read any more.
pub proof fn a_failed_scan_keeps_the_list(m: ModelView, id: u64, words: Seq<char>, place: Place)
    requires
        m.loading == Some(id),
        m.busy is None,
        !m.pending_refresh,
        m.next_id < u64::MAX,
    ensures
        ({
            let after = m.after(MessageView::CatalogFinished(id, Err(words))).0;
            &&& after.entries == m.entries
            &&& after.catalog.books == m.catalog.books
            &&& !after.catalog.ready(place)
            &&& after.loading is None
            &&& after.status == "Discovery error: "@ + words
        }),
{
    reveal(ModelView::rejected);
    reveal(ModelView::loaded);
    reveal(ModelView::caught_up);
    reveal_strlit("Ready");
    reveal_strlit("Unavailable: refresh failed; showing previous inventory");
    let after = m.after(MessageView::CatalogFinished(id, Err(words))).0;
    let status = after.catalog.status;
    assert forall|i: int| 0 <= i < status.len() implies !((#[trigger] status[i]).0 == place
        && text::starts(status[i].1, "Ready"@)) by {
        let said = "Unavailable: refresh failed; showing previous inventory"@;
        assert(status[i].1 == said);
        if text::starts(said, "Ready"@) {
            assert(said.subrange(0, 5)[0] == 'R');
        }
    }
}

proof fn sharing_is_found(
    books: Seq<crate::books::BookView>,
    book: crate::books::BookView,
    from: int,
)
    requires
        0 <= from <= books.len(),
    ensures
        ({
            let at = crate::tui::model::sharing_index(books, book, from);
            &&& from <= at <= books.len()
            &&& at < books.len() ==> crate::tui::model::shares(books[at], book)
            &&& forall|i: int|
                from <= i < at ==> !crate::tui::model::shares(#[trigger] books[i], book)
        }),
    decreases books.len() - from,
{
    if from < books.len() && !crate::tui::model::shares(books[from], book) {
        sharing_is_found(books, book, from + 1);
    }
}

/// A row is taken as the library now has it: the book that stands in one of its spots, or
/// itself where none does.
pub proof fn a_row_is_taken_as_it_now_is(m: ModelView, book: crate::books::BookView)
    ensures
        (forall|k: int|
            0 <= k < m.catalog.books.len() ==> !crate::tui::model::shares(
                #[trigger] m.catalog.books[k],
                book,
            )) ==> m.current(book) == book,
        (exists|k: int|
            0 <= k < m.catalog.books.len() && crate::tui::model::shares(
                #[trigger] m.catalog.books[k],
                book,
            )) ==> m.catalog.books.contains(m.current(book)) && crate::tui::model::shares(
            m.current(book),
            book,
        ),
{
    reveal(ModelView::current);
    sharing_is_found(m.catalog.books, book, 0);
    let at = crate::tui::model::sharing_index(m.catalog.books, book, 0);
    if at < m.catalog.books.len() {
        assert(m.catalog.books[at] == m.current(book));
    }
}

/// A job of nothing but requests ends at home; one with a book in it goes where the
/// settings say.
pub proof fn requests_alone_end_at_home(options: OptionsView, entries: Seq<EntryView>, i: int)
    ensures
        (forall|k: int| 0 <= k < entries.len() ==> (#[trigger] entries[k]).source is Local)
            ==> super::job_options(options, entries).send_to is None && super::job_options(
            options,
            entries,
        ).copy_to is None,
        0 <= i < entries.len() && !(entries[i].source is Local) ==> super::job_options(
            options,
            entries,
        ) == options,
{
}

proof fn the_same_row_is_found(shown: Seq<EntryView>, source: SourceView, from: int, i: int)
    requires
        0 <= from <= i < shown.len(),
        same_row(source, shown[i].source),
        forall|k: int| from <= k < i ==> !same_row(source, (#[trigger] shown[k]).source),
    ensures
        super::row_of(shown, source, from) == i,
    decreases i - from,
{
    if from < i {
        the_same_row_is_found(shown, source, from + 1, i);
    }
}

/// When a library is taken in, a highlight that was moved stays on the book it was on, and
/// one that never was stays at the top.
pub proof fn a_moved_highlight_stays_on_its_book(m: ModelView, snapshot: SnapshotView, i: int)
    requires
        m.selected < m.filtered().len(),
        m.filtered().len() <= usize::MAX,
        m.taken_in(snapshot).filtered().len() <= usize::MAX,
        0 <= i < m.taken_in(snapshot).filtered().len(),
        same_row(
            m.filtered()[m.selected as int].source,
            m.taken_in(snapshot).filtered()[i].source,
        ),
        forall|k: int|
            0 <= k < i ==> !same_row(
                m.filtered()[m.selected as int].source,
                (#[trigger] m.taken_in(snapshot).filtered()[k]).source,
            ),
    ensures
        m.touched ==> m.taken_in(snapshot).selected == i,
        !m.touched ==> m.taken_in(snapshot).selected == 0,
        m.taken_in(snapshot).catalog == snapshot,
{
    reveal(ModelView::taken_in);
    reveal(ModelView::filtered);
    reveal(ModelView::selected_entry);
    let after = m.taken_in(snapshot);
    let source = m.filtered()[m.selected as int].source;
    the_same_row_is_found(after.filtered(), source, 0, i);
    let n = ModelView {
        entries: crate::tui::model::arranged(m.sort, super::rows(snapshot)),
        catalog: snapshot,
        ..m
    };
    assert(n.filtered() == after.filtered());
}

/// A refresh looks at everything again and keeps the list until it is done; while
/// something runs it is remembered.
pub proof fn a_refresh_looks_at_everything_again(m: ModelView)
    requires
        !m.pending_quit,
        m.next_id < u64::MAX,
    ensures
        m.loading is None && m.busy is None ==> m.refreshed().0.loading == Some(
            (m.next_id + 1) as u64,
        ) && m.refreshed().0.entries == m.entries && (m.entries.len() > 0
            ==> m.refreshed().0.retaining) && m.refreshed().1 == seq![
            EffectView::Load { id: (m.next_id + 1) as u64, options: m.options },
        ],
        m.loading is Some || m.busy is Some ==> m.refreshed().0.pending_refresh
            && m.refreshed().1.len() == 0 && m.refreshed().0.loading == m.loading,
{
    reveal(ModelView::refreshed);
}

/// A correction that was written closes its dialog and has the library read again.
pub proof fn a_correction_is_read_again(m: ModelView, words: Seq<char>)
    requires
        !m.pending_quit,
        m.next_id < u64::MAX,
        m.loading is None,
        m.busy is None,
    ensures
        m.corrected(Ok(words)).0.correcting is None,
        m.corrected(Ok(words)).1 == seq![
            EffectView::Load { id: (m.next_id + 1) as u64, options: m.options },
        ],
{
    reveal(ModelView::corrected);
    reveal(ModelView::refreshed);
}

} // verus!
