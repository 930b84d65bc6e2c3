//! What holds of every step the interface takes.
use super::edit;
use super::model::{
    copying_is_offered_only_where_it_is_missing, removal_is_offered_only_when_safe, ModelView,
};
use super::settings;
use super::settings::Found;
use super::update::{copy_at, copyable, first_question, EffectView, MessageView};
use super::{series_order, EntryView, Key, KeyCode};
use crate::books::{BookView, Place};
use crate::order;
use crate::position::laws::{behind, positions_are_in_order};
use crate::position::PositionView;
use crate::text;
use vstd::prelude::*;

verus! {

/// Whether outside work may start as it does: only ever one thing at a time,
/// each job under a number of its own, and nothing that could harm a book
/// without the question having been asked.
pub open spec fn steady(m: ModelView, r: (ModelView, Seq<EffectView>)) -> bool {
    &&& r.1.len() <= 1
    &&& m.next_id <= r.0.next_id <= m.next_id + 1
    &&& r.1.len() == 1 ==> match r.1[0] {
        // The program ends only when nothing is running.
        EffectView::Quit => r.0.idle(),
        // A scan starts only when neither a scan nor a job is running.
        EffectView::Load { id, options } => {
            &&& m.busy is None
            &&& m.loading is None
            &&& id == m.next_id + 1
            &&& r.0.loading == Some(id)
            &&& options == r.0.options
        },
        // A copy starts only when no job is running, and holds something.
        EffectView::Work { id, options, entries, target } => {
            &&& m.busy is None
            &&& id == m.next_id + 1
            &&& r.0.busy == Some(id)
            &&& 0 < entries.len() <= m.action.len()
        },
        // A copy is deleted only after it was asked about, with nothing else
        // running, and never the last one.
        EffectView::Remove { id, options, book, place, path } => {
            &&& m.confirm == Some((place, path))
            &&& m.busy is None
            &&& m.loading is None
            &&& id == m.next_id + 1
            &&& r.0.busy == Some(id)
            &&& book.copies.len() >= 2
            &&& exists|i: int|
                0 <= i < book.copies.len() && (#[trigger] book.copies[i]).place == place
                    && book.copies[i].path == path && !book.copies[i].locked
        },
        EffectView::Correct { id, task } => {
            &&& m.configuring is None
            &&& id == m.next_id + 1
            &&& r.0.configuring == Some(id)
        },
        EffectView::Configure { id, task } => {
            &&& m.configuring is None
            &&& id == m.next_id + 1
            &&& r.0.configuring == Some(id)
        },
        EffectView::Stop { id } => m.busy == Some(id),
        EffectView::ReadHistory { limit } => true,
        EffectView::Measure => m.busy is None,
    }
}

proof fn refreshed_is_steady(m: ModelView)
    requires
        m.next_id < u64::MAX,
    ensures
        steady(m, m.refreshed()),
        m.refreshed().1.len() == 1 ==> m.refreshed().1[0] is Load || m.refreshed().1[0] is Quit,
{
    reveal(ModelView::refreshed);
}

proof fn corrected_is_steady(m: ModelView, result: Result<Seq<char>, Seq<char>>)
    requires
        m.next_id < u64::MAX,
    ensures
        steady(m, m.corrected(result)),
{
    reveal(ModelView::corrected);
    let n = ModelView { configuring: None, ..m };
    match result {
        Ok(words) => {
            let after = ModelView { correcting: None, status: words, ..n };
            refreshed_is_steady(after);
            assert(m.corrected(result) == after.refreshed());
        },
        Err(words) => {
            match n.correcting {
                Some(panel) => {
                    let after = ModelView {
                        correcting: Some(edit::PanelView { message: words, ..panel }),
                        ..n
                    };
                    assert(m.corrected(result) == after.settled());
                },
                None => {
                    let after = ModelView { status: words, ..n };
                    assert(m.corrected(result) == after.settled());
                },
            }
        },
    }
}

proof fn configured_is_steady(m: ModelView, result: Result<settings::OutcomeView, Seq<char>>)
    requires
        m.next_id < u64::MAX,
    ensures
        steady(m, m.configured(result)),
{
    reveal(ModelView::configured);
    reveal(ModelView::told);
    let n = ModelView { configuring: None, ..m };
    match result {
        Ok(settings::OutcomeView::Saved(defaults)) => {
            let after = ModelView {
                options: super::update::configured_options(n.options, defaults),
                skipped: false,
                settings: None,
                entries: Seq::empty(),
                catalog: crate::books::SnapshotView::empty(),
                marked: Seq::empty(),
                selected: 0,
                scroll: 0,
                ..n
            };
            refreshed_is_steady(after);
            assert(m.configured(result) == after.refreshed());
        },
        Ok(settings::OutcomeView::Detected(devices)) => {
            let after = ModelView {
                settings: match n.settings {
                    Some(panel) => Some(panel.detected(devices)),
                    None => None,
                },
                ..n
            };
            assert(m.configured(result) == after.settled());
        },
        Ok(settings::OutcomeView::Tested(words)) => {
            assert(m.configured(result) == n.told(words));
        },
        Err(words) => {
            assert(m.configured(result) == n.told(words));
        },
    }
}

proof fn loaded_is_steady(m: ModelView, words: Seq<char>)
    requires
        m.next_id < u64::MAX,
    ensures
        m.loaded(words).1.len() <= 1,
        m.next_id <= m.loaded(words).0.next_id <= m.next_id + 1,
        m.loaded(words).1.len() == 1 ==> match m.loaded(words).1[0] {
            EffectView::Quit => m.loaded(words).0.idle(),
            EffectView::Load { id, options } => m.busy is None && m.loaded(words).0.busy is None
                && id == m.next_id + 1 && m.loaded(words).0.loading == Some(id) && options
                == m.loaded(words).0.options,
            _ => false,
        },
{
    reveal(ModelView::loaded);
    let n = ModelView {
        loading: None,
        status: if m.busy is None {
            words
        } else {
            m.status
        },
        ..m
    };
    reveal(ModelView::caught_up);
    reveal(ModelView::refreshed);
}

proof fn confirmed_is_steady(m: ModelView, book: BookView, place: Place, path: Seq<char>, key: Key)
    requires
        m.next_id < u64::MAX,
        m.confirm == Some((place, path)),
    ensures
        steady(m, m.confirm_key(book, place, path, key)),
{
    reveal(ModelView::confirm_key);
    let at = copy_at(book.copies, place, path, 0);
    copy_is_found(book.copies, place, path, 0);
    if at < book.copies.len() {
        removal_is_offered_only_when_safe(m, book, book.copies[at]);
    }
}

proof fn copy_is_found(
    copies: Seq<crate::books::CopyView>,
    place: Place,
    path: Seq<char>,
    from: int,
)
    requires
        0 <= from <= copies.len(),
    ensures
        from <= copy_at(copies, place, path, from) <= copies.len(),
        copy_at(copies, place, path, from) < copies.len() ==> copies[copy_at(
            copies,
            place,
            path,
            from,
        )].place == place && copies[copy_at(copies, place, path, from)].path == path,
    decreases copies.len() - from,
{
    if from < copies.len() && !(copies[from].place == place && copies[from].path == path) {
        copy_is_found(copies, place, path, from + 1);
    }
}

proof fn copies_is_steady(m: ModelView, entry: EntryView, key: Key)
    requires
        m.next_id < u64::MAX,
    ensures
        steady(m, m.copies_key(entry, key)),
{
    reveal(ModelView::copies_key);
    if let super::SourceView::Book(book) = entry.source {
        if let Some((place, path)) = m.confirm {
            confirmed_is_steady(m, m.current(book), place, path, key);
        }
    }
}

proof fn copy_is_steady(m: ModelView, target: Place)
    requires
        m.next_id < u64::MAX,
    ensures
        steady(m, m.copy_started(target)),
{
    reveal(ModelView::copy_started);
    let n = ModelView { ask: None, ..m };
    let test = |e: EntryView| !(n.destination(e, target) is Blocked);
    let free = order::kept(n.action, test);
    order::kept_is_part(n.action, test);
    let entries = copyable(n, n.action, target);
    assert(entries.len() == free.len());
    if entries.len() > 0 {
        assert(test(free[0]));
        copying_is_offered_only_where_it_is_missing(n, free[0], target);
    }
}

proof fn action_is_steady(m: ModelView, key: Key)
    requires
        m.next_id < u64::MAX,
    ensures
        steady(m, m.action_key(key)),
{
    reveal(ModelView::action_key);
    reveal(ModelView::target_chosen);
    copy_is_steady(m, Place::Local);
    copy_is_steady(m, Place::Kobo);
    copy_is_steady(m, Place::CrossPoint);
}

proof fn letter_is_steady(m: ModelView, c: char)
    requires
        m.next_id < u64::MAX,
    ensures
        steady(m, m.letter(c)),
{
    reveal(ModelView::letter);
    refreshed_is_steady(m);
    assert(m.quit().1.len() <= 1 && m.quit().0.next_id == m.next_id && steady(m, m.quit())) by {
        reveal(ModelView::quit);
    }
    assert(m.resorted().next_id == m.next_id) by {
        reveal(ModelView::resorted);
    }
    assert(m.correction_opened().next_id == m.next_id) by {
        reveal(ModelView::correction_opened);
    }
    assert(m.copies_opened().next_id == m.next_id) by {
        reveal(ModelView::copies_opened);
    }
    assert(m.all_toggled().next_id == m.next_id) by {
        reveal(ModelView::all_toggled);
    }
}

proof fn list_is_steady(m: ModelView, key: Key)
    requires
        m.next_id < u64::MAX,
    ensures
        steady(m, m.list_key(key)),
{
    reveal(ModelView::list_key);
    let code = match key.code {
        KeyCode::Char('j') => KeyCode::Down,
        KeyCode::Char('k') => KeyCode::Up,
        code => code,
    };
    let n = ModelView { touched: m.touched || super::update::moves(code), ..m };
    if let KeyCode::Char(c) = code {
        letter_is_steady(n, c);
    }
    assert(steady(n, n.quit())) by {
        reveal(ModelView::quit);
    }
}

proof fn panels_are_steady(m: ModelView, key: Key, found: Seq<Found>)
    requires
        m.next_id < u64::MAX,
    ensures
        m.correcting matches Some(panel) ==> steady(m, m.correcting_key(panel, key)),
        m.settings matches Some(panel) ==> steady(m, m.settings_key(panel, key, found)),
{
    reveal(ModelView::correcting_key);
    reveal(ModelView::settings_key);
    reveal(ModelView::settings_closed);
    reveal(ModelView::settings_started);
    refreshed_is_steady(
        ModelView {
            settings: None,
            options: super::OptionsView { first_run: false, ..m.options },
            skipped: true,
            ..m
        },
    );
}

/// Whether nothing follows the end of some work but what had to wait for it: the
/// end of the program, or another scan.
pub open spec fn moves_on(m: ModelView, r: (ModelView, Seq<EffectView>)) -> bool {
    r.1.len() == 1 ==> match r.1[0] {
        EffectView::Quit => r.0.idle(),
        EffectView::Load { id, options } => {
            &&& r.0.busy is None
            &&& id == m.next_id + 1
            &&& r.0.loading == Some(id)
            &&& options == r.0.options
        },
        _ => false,
    }
}

/// Whatever reaches the interface, outside work starts only as it may: one
/// thing at a time, under a number of its own, and nothing is deleted without
/// having been asked about.
pub proof fn every_step_is_steady(m: ModelView, message: MessageView)
    requires
        m.next_id < u64::MAX,
    ensures
        m.after(message).1.len() <= 1,
        m.next_id <= m.after(message).0.next_id <= m.next_id + 1,
        !(message is CatalogFinished || message is Finished) ==> steady(m, m.after(message)),
        message is CatalogFinished || message is Finished ==> moves_on(m, m.after(message)),
{
    match message {
        MessageView::Input(key, found) => {
            reveal(ModelView::keyed);
            reveal(ModelView::quit);
            panels_are_steady(m, key, found);
            reveal(ModelView::help_key);
            reveal(ModelView::menu_key);
            reveal(ModelView::search_key);
            if let Some(entry) = m.copies {
                copies_is_steady(m, entry, key);
            }
            action_is_steady(m, key);
            list_is_steady(m, key);
        },
        MessageView::InputError(words) => {
            reveal(ModelView::quit);
        },
        MessageView::Refresh => {
            refreshed_is_steady(m);
        },
        MessageView::Catalog(id, snapshot) => {
            reveal(ModelView::taken_in);
        },
        MessageView::CatalogFinished(id, result) => {
            reveal(ModelView::accepted);
            reveal(ModelView::rejected);
            reveal(ModelView::taken_in);
            loaded_is_steady(
                m.accepted(),
                "Library ready. Enter chooses a copy destination; r refreshes locations."@,
            );
            if let Err(words) = result {
                loaded_is_steady(m.rejected(), "Discovery error: "@ + words);
            }
        },
        MessageView::Finished(id, result) => {
            reveal(ModelView::finished);
            reveal(ModelView::caught_up);
            reveal(ModelView::refreshed);
        },
        MessageView::Configured(id, result) => {
            configured_is_steady(m, result);
        },
        MessageView::Corrected(id, result) => {
            corrected_is_steady(m, result);
        },
        _ => {},
    }
}

/// Whether a message reports on a job that is not the one of its kind that runs.
pub open spec fn stale_report(m: ModelView, message: MessageView) -> bool {
    match message {
        MessageView::Catalog(id, _) => m.loading != Some(id),
        MessageView::CatalogFinished(id, _) => m.loading != Some(id),
        MessageView::Progress(id, _) => m.busy != Some(id),
        MessageView::Step(id, _, _) => m.busy != Some(id),
        MessageView::Finished(id, _) => m.busy != Some(id),
        MessageView::Configured(id, _) => m.configuring != Some(id),
        MessageView::Corrected(id, _) => m.configuring != Some(id),
        _ => false,
    }
}

/// A report that belongs to no running job changes nothing, and nothing follows it
/// but the end of the program where that was asked for and nothing runs.
pub proof fn stale_reports_change_nothing(m: ModelView, message: MessageView)
    requires
        stale_report(m, message),
    ensures
        m.after(message).0 == m,
        m.after(message).1 == if m.pending_quit && m.idle() {
            seq![EffectView::Quit]
        } else {
            Seq::<EffectView>::empty()
        },
{
}

/// While the library of the previous scan is still shown, a scan in progress
/// changes nothing of it.
pub proof fn a_scan_does_not_disturb_the_list(m: ModelView, id: u64, snapshot: crate::books::SnapshotView)
    requires
        m.retaining,
    ensures
        m.after(MessageView::Catalog(id, snapshot)).0.entries == m.entries,
        m.after(MessageView::Catalog(id, snapshot)).0.catalog == m.catalog,
        m.after(MessageView::Catalog(id, snapshot)).0.selected == m.selected,
{
}

/// Until the selection is the reader's own, arriving books leave it at the top.
pub proof fn an_untouched_selection_stays_at_the_top(
    m: ModelView,
    id: u64,
    snapshot: crate::books::SnapshotView,
)
    requires
        !m.touched,
        !m.retaining,
        m.loading == Some(id),
    ensures
        m.after(MessageView::Catalog(id, snapshot)).0.selected == 0,
{
    reveal(ModelView::taken_in);
}

/// An open panel, menu or dialog has the keys to itself: the list, its order and
/// its query stay as they are, and so does the selection but where a filter is
/// chosen.
pub proof fn menus_isolate_keys(m: ModelView, key: Key, found: Seq<Found>)
    requires
        !key.release,
        !(key.code == KeyCode::Char('c') && key.control),
        m.correcting is Some || m.settings is Some || m.history is Some || m.help || m.filter_menu
            is Some || m.copies is Some || m.action.len() > 0,
    ensures
        m.keyed(key, found).0.entries == m.entries,
        m.keyed(key, found).0.sort == m.sort,
        m.keyed(key, found).0.query == m.query,
        m.filter_menu is None ==> m.keyed(key, found).0.selected == m.selected,
{
    reveal(ModelView::keyed);
    if m.correcting is Some || m.settings is Some {
        reveal(ModelView::correcting_key);
        reveal(ModelView::settings_key);
        reveal(ModelView::settings_closed);
        reveal(ModelView::settings_started);
        reveal(ModelView::refreshed);
        reveal(ModelView::quit);
    } else if m.copies is Some && m.filter_menu is None {
        reveal(ModelView::copies_key);
        reveal(ModelView::confirm_key);
    } else {
        reveal(ModelView::help_key);
        reveal(ModelView::menu_key);
        reveal(ModelView::filter_chosen);
    }
    reveal(ModelView::help_key);
    reveal(ModelView::action_key);
    reveal(ModelView::target_chosen);
    reveal(ModelView::copy_started);
}

/// Whether nothing is deleted or copied.
spec fn harmless(effects: Seq<EffectView>) -> bool {
    forall|i: int|
        0 <= i < effects.len() ==> !(#[trigger] effects[i] is Remove) && !(effects[i] is Work)
}

proof fn refreshing_is_harmless(m: ModelView)
    ensures
        harmless(m.refreshed().1),
        harmless(m.quit().1),
        harmless(m.settled().1),
        harmless(m.still().1),
{
    reveal(ModelView::quit);
    reveal(ModelView::refreshed);
}

proof fn letters_are_harmless(m: ModelView, c: char)
    ensures
        harmless(m.letter(c).1),
{
    reveal(ModelView::letter);
    refreshing_is_harmless(m);
}

proof fn the_list_is_harmless(m: ModelView, key: Key)
    ensures
        harmless(m.list_key(key).1),
{
    reveal(ModelView::list_key);
    let code = match key.code {
        KeyCode::Char('j') => KeyCode::Down,
        KeyCode::Char('k') => KeyCode::Up,
        code => code,
    };
    let n = ModelView { touched: m.touched || super::update::moves(code), ..m };
    if let KeyCode::Char(c) = code {
        letters_are_harmless(n, c);
    }
    refreshing_is_harmless(n);
}

proof fn panels_are_harmless(m: ModelView, key: Key, found: Seq<Found>)
    ensures
        m.correcting matches Some(panel) ==> harmless(m.correcting_key(panel, key).1),
        m.settings matches Some(panel) ==> harmless(m.settings_key(panel, key, found).1),
{
    reveal(ModelView::correcting_key);
    reveal(ModelView::settings_key);
    reveal(ModelView::settings_closed);
    reveal(ModelView::settings_started);
    reveal(ModelView::refreshed);
    reveal(ModelView::quit);
}

proof fn reports_are_harmless(m: ModelView, message: MessageView)
    requires
        !(message is Input),
    ensures
        harmless(m.after(message).1),
{
    reveal(ModelView::quit);
    reveal(ModelView::refreshed);
    reveal(ModelView::caught_up);
    match message {
        MessageView::Catalog(id, snapshot) => {
            reveal(ModelView::taken_in);
        },
        MessageView::CatalogFinished(id, result) => {
            reveal(ModelView::loaded);
        },
        MessageView::Finished(id, result) => {
            reveal(ModelView::finished);
        },
        MessageView::Configured(id, result) => {
            reveal(ModelView::configured);
            reveal(ModelView::told);
        },
        MessageView::Corrected(id, result) => {
            reveal(ModelView::corrected);
        },
        _ => {},
    }
}

/// Only a struck y deletes, and only the copy whose deletion was asked about.
pub proof fn only_y_deletes(m: ModelView, message: MessageView, i: int)
    requires
        0 <= i < m.after(message).1.len(),
        m.after(message).1[i] is Remove,
    ensures
        message is Input,
        message->Input_0.code == KeyCode::Char('y'),
        !message->Input_0.release,
        m.copies is Some,
        m.confirm == Some(
            (m.after(message).1[i]->Remove_place, m.after(message).1[i]->Remove_path),
        ),
{
    match message {
        MessageView::Input(key, found) => {
            reveal(ModelView::keyed);
            reveal(ModelView::quit);
            panels_are_harmless(m, key, found);
            the_list_is_harmless(m, key);
            reveal(ModelView::action_key);
            reveal(ModelView::target_chosen);
            reveal(ModelView::copy_started);
            reveal(ModelView::copies_key);
            reveal(ModelView::confirm_key);
        },
        _ => {
            reports_are_harmless(m, message);
        },
    }
}

/// A copy that will turn out badly waits for a yes: books start on their way only
/// to a destination that asks nothing, or after its question was answered.
pub proof fn poor_copies_wait_for_a_yes(m: ModelView, message: MessageView, i: int)
    requires
        0 <= i < m.after(message).1.len(),
        m.after(message).1[i] is Work,
    ensures
        message is Input,
        ({
            let target = m.after(message).1[i]->Work_target;
            ||| first_question(m, m.action, target, 0) is None && m.ask is None
            ||| m.ask is Some && (m.ask->0).0 == target && message->Input_0.code == KeyCode::Char(
                'y',
            )
        }),
{
    match message {
        MessageView::Input(key, found) => {
            reveal(ModelView::keyed);
            reveal(ModelView::quit);
            panels_are_harmless(m, key, found);
            the_list_is_harmless(m, key);
            reveal(ModelView::action_key);
            reveal(ModelView::target_chosen);
            reveal(ModelView::copy_started);
            reveal(ModelView::copies_key);
            reveal(ModelView::confirm_key);
        },
        _ => {
            reports_are_harmless(m, message);
        },
    }
}

/// The books of a series come in its own order: two before ten rather than beside it,
/// a half number in between, and one that gives no position in front.
pub proof fn a_series_is_in_its_own_order(series: Seq<char>, a: PositionView, b: PositionView)
    requires
        a.wf(),
        b.wf(),
        a.below(b),
    ensures
        text::before(series_order(Some(series), Some(a)), series_order(Some(series), Some(b))),
        text::before(series_order(Some(series), None), series_order(Some(series), Some(a))),
{
    let front = text::lowercase(series) + "\u{1}"@;
    positions_are_in_order(a, b);
    behind(front, a.ranked(), b.ranked());
    reveal_strlit("\u{2}");
    reveal_strlit("\u{3}");
    reveal_strlit("\u{4}");
    reveal_strlit("\u{5}");
    reveal_strlit("\u{6}");
    behind(front, Seq::empty(), a.ranked());
}

proof fn last_character(c: char)
    ensures
        c <= '\u{10ffff}',
{
}

/// A book of no series comes behind every book of one whose name does not begin with
/// the last character there is.
pub proof fn books_of_no_series_come_last(series: Seq<char>, index: Option<PositionView>)
    requires
        text::lowercase(series).len() > 0 ==> text::lowercase(series)[0] != '\u{10ffff}',
    ensures
        text::before(series_order(Some(series), index), series_order(None, None)),
{
    reveal_strlit("\u{10ffff}");
    reveal_strlit("\u{1}");
    let key = series_order(Some(series), index);
    let name = text::lowercase(series);
    if name.len() > 0 {
        assert(key[0] == name[0]);
        last_character(name[0]);
    } else {
        assert(key[0] == '\u{1}');
    }
}

} // verus!
