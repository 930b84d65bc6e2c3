//! Settings are saved as they were typed, and only where they can be used.
use super::{expanded, judged, ActionView, Found, PanelView, TaskView};
use crate::paths;
use crate::text;
use vstd::prelude::*;

verus! {

broadcast use vstd::string::group_string_axioms;

/// What was typed, where anything was.
pub open spec fn entered(value: Seq<char>) -> Option<Seq<char>> {
    if value.len() == 0 {
        None
    } else {
        Some(text::trimmed(value))
    }
}

/// Each row is saved as the setting it stands for.
pub proof fn every_row_is_its_setting(panel: PanelView)
    requires
        panel.values.len() == 6,
    ensures
        panel.draft().browse == entered(panel.values[0]),
        panel.draft().output == entered(panel.values[1]),
        panel.draft().device == entered(panel.values[2]),
        panel.draft().reader == entered(panel.values[3]),
        panel.draft().copy_to == entered(panel.values[4]),
        panel.draft().folder == Some(panel.values[5]),
{
}

/// Nothing is saved that a row stands in the way of: then the row is pointed at, and it
/// is said why.
pub proof fn a_save_goes_through_or_says_why(panel: PanelView, found: Seq<Found>)
    ensures
        panel.saved(found).1 is Run <==> panel.defaults(found) is Ok,
        panel.saved(found).1 matches ActionView::Run(task) ==> (task matches TaskView::Save {
            path,
            defaults,
        } && path == panel.path && panel.defaults(found) == Ok::<
            crate::config::DefaultsView,
            (int, Seq<char>),
        >(defaults)),
        panel.defaults(found) matches Err((row, words)) ==> panel.saved(found).0.message == words,
        panel.saved(found).0.values == panel.values,
{
}

/// The folders that are needed are marked where they are missing, and any path that is no
/// folder is marked; a Kobo is told by its database.
pub proof fn paths_are_marked_by_what_is_there(value: Seq<char>, home: Option<Seq<char>>)
    requires
        text::trimmed(value).len() > 0,
        text::trimmed(value)[0] == '/',
    ensures
        judged(0, value, home, Found::Folder) is Good,
        judged(0, value, home, Found::Missing) is Bad,
        judged(0, value, home, Found::File) is Bad,
        judged(1, value, home, Found::Missing) is Note,
        judged(1, value, home, Found::File) is Bad,
        judged(2, value, home, Found::Kobo) is Good,
        judged(2, value, home, Found::Folder) is Warn,
        judged(2, value, home, Found::Missing) is Bad,
        judged(4, value, home, Found::Folder) is Good,
        judged(4, value, home, Found::Missing) is Bad,
{
}

/// A folder that is needed may not be left empty; any other row may.
pub proof fn only_two_rows_are_needed(row: int, home: Option<Seq<char>>, found: Found)
    requires
        0 <= row < 6,
    ensures
        judged(row, Seq::empty(), home, found) is Bad <==> row == 0 || row == 1,
{
}

/// Every path is marked by what was found there, in its own row.
pub proof fn every_row_is_marked_by_what_was_found(panel: PanelView, found: Seq<Found>, row: int)
    requires
        0 <= row < 6,
    ensures
        panel.checked(found).marks.len() == 6,
        panel.checked(found).marks[row] == judged(row, panel.values[row], panel.home, found[row]),
        panel.checked(found).values == panel.values,
{
}

/// A path from home leads from there, as it does once it is saved; any other is taken as
/// it is.
pub proof fn a_tilde_leads_home(value: Seq<char>, home: Seq<char>, rest: Seq<char>)
    requires
        rest.len() == 0 || rest[0] != '/',
        home.len() > 0,
        home.last() != '/',
    ensures
        expanded(seq!['~', '/'] + rest, Some(home)) == home + "/"@ + rest,
        value.len() > 0 && value[0] != '~' ==> expanded(value, Some(home)) == value,
        expanded(value, None) == value,
{
    let whole = seq!['~', '/'] + rest;
    assert(whole[0] == '~' && whole[1] == '/');
    assert(whole.skip(1) =~= seq!['/'] + rest);
    assert((seq!['/'] + rest).drop_first() =~= rest);
    assert(paths::rootless(seq!['/'] + rest) == paths::rootless(rest));
    assert(paths::rootless(rest) == rest);
}

} // verus!
