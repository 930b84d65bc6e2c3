//! Only what was changed is corrected.
use super::{ActionView, PanelView};
use crate::text;
use vstd::prelude::*;

verus! {

broadcast use vstd::string::group_string_axioms;

/// Whether a field reads as it did before, but for whitespace around it.
pub open spec fn untouched(panel: PanelView, row: int) -> bool {
    text::trimmed(panel.values[row]) == text::trimmed(panel.before[row])
}

/// A field that was left as it was is not written; one that was changed is written as it
/// now reads. A series that was changed brings its position along.
pub proof fn only_what_was_changed_is_written(panel: PanelView)
    ensures
        ({
            let edit = panel.wanted();
            &&& untouched(panel, 0) ==> edit.title is None
            &&& !untouched(panel, 0) ==> edit.title == Some(text::trimmed(panel.values[0]))
            &&& untouched(panel, 1) ==> edit.author is None
            &&& !untouched(panel, 1) ==> edit.author == Some(text::trimmed(panel.values[1]))
            &&& untouched(panel, 2) ==> edit.series is None
            &&& !untouched(panel, 2) ==> edit.series == Some(text::trimmed(panel.values[2]))
            &&& untouched(panel, 2) && untouched(panel, 3) ==> edit.series_index is None
            &&& !untouched(panel, 2) || !untouched(panel, 3) ==> edit.series_index == Some(
                text::trimmed(panel.values[3]),
            )
        }),
{
}

/// A correction is made exactly when something was changed, there is a title, and the
/// position is a number or empty; otherwise nothing is done, and the row that is wrong is
/// pointed at.
pub proof fn a_sound_change_is_saved(panel: PanelView)
    ensures
        ({
            let (after, action) = panel.saved();
            let changed = !untouched(panel, 0) || !untouched(panel, 1) || !untouched(panel, 2)
                || !untouched(panel, 3);
            let named = text::trimmed(panel.values[0]).len() > 0;
            let place = text::trimmed(panel.values[3]);
            let numbered = place.len() == 0 || text::numeral(place);
            &&& action is Run <==> changed && named && numbered
            &&& action matches ActionView::Run(task) ==> task.path == panel.path && task.edit
                == panel.wanted()
            &&& changed && !named ==> after.selected == 0
            &&& changed && named && !numbered ==> after.selected == 3
            &&& !(action is Run) ==> after.message.len() > 0
        }),
{
    reveal_strlit("Nothing was changed.");
    reveal_strlit("A book needs a title.");
    reveal_strlit("A position in a series has to be a number.");
}

} // verus!
