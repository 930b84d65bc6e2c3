//! What breaking a text into lines keeps.
use super::{filled, room_of, settings_scroll_of, space_of, tallied, text_width, wrapped_of};
use crate::books::Place;
use crate::paths::between;
use crate::pdf::layout::fields;
use crate::pdf::layout::laws::words_hold_every_letter;
use crate::tui::model::{DestinationView, ModelView};
use crate::tui::settings::PanelView;
use crate::tui::EntryView;
use vstd::prelude::*;

verus! {

broadcast use vstd::string::group_string_axioms;

/// Whether a line is no wider than the limit, or a single word.
pub open spec fn fits(line: Seq<char>, words: Seq<Seq<char>>, limit: int) -> bool {
    text_width(line) <= limit || words.contains(line)
}

proof fn filling_keeps_the_words(words: Seq<Seq<char>>, n: int, limit: int)
    requires
        0 <= n <= words.len(),
        forall|k: int| 0 <= k < words.len() ==> (#[trigger] words[k]).len() > 0,
    ensures
        ({
            let (lines, line) = filled(words, n, limit);
            &&& n == 0 ==> lines.len() == 0 && line.len() == 0
            &&& n > 0 ==> line.len() > 0 && between(lines.push(line), " "@) == between(
                words.take(n),
                " "@,
            ) && fits(line, words, limit)
            &&& forall|k: int|
                0 <= k < lines.len() ==> fits(#[trigger] lines[k], words, limit)
        }),
    decreases n,
{
    if n > 0 {
        filling_keeps_the_words(words, n - 1, limit);
        let (before, line) = filled(words, n - 1, limit);
        let (after, next) = filled(words, n, limit);
        assert(words.take(n).drop_last() =~= words.take(n - 1));
        assert(words.contains(words[n - 1]));
        if n == 1 {
            assert(before =~= Seq::<Seq<char>>::empty());
            assert(after.push(next)[0] == words[0]);
            assert(words.take(1)[0] == words[0]);
        } else if after.len() > before.len() {
            assert(after.push(next).drop_last() =~= before.push(line));
        } else {
            assert(before.push(next).drop_last() =~= before);
            assert(before.push(line).drop_last() =~= before);
            if before.len() == 0 {
                assert(before.push(next)[0] == next);
                assert(before.push(line)[0] == line);
            } else {
                let start = between(before, " "@) + " "@;
                assert(start + (line + " "@ + words[n - 1]) =~= (start + line) + " "@
                    + words[n - 1]);
            }
        }
    }
}

/// A text that is broken into lines has the same words in the same order, each whole, and
/// every line that is more than one word fits.
pub proof fn breaking_lines_keeps_the_words(s: Seq<char>, limit: int, k: int)
    requires
        limit >= 8,
    ensures
        between(wrapped_of(s, limit), " "@) == between(fields(s), " "@),
        0 <= k < wrapped_of(s, limit).len() ==> fits(wrapped_of(s, limit)[k], fields(s), limit),
{
    let words = fields(s);
    words_hold_every_letter(s);
    filling_keeps_the_words(words, words.len() as int, limit);
    assert(words.take(words.len() as int) =~= words);
    let (lines, line) = filled(words, words.len() as int, limit);
    if words.len() == 0 {
        assert(wrapped_of(s, limit) =~= Seq::<Seq<char>>::empty());
    }
}

/// A set that does not fit is marked before it is copied; one that fits is not, nor one
/// whose destination cannot be measured.
pub proof fn what_does_not_fit_is_marked(ready: nat, free: u64, wanted: u64)
    requires
        ready > 0,
    ensures
        free < wanted ==> space_of(ready, Some(Some(free)), wanted).paint is Bad,
        free >= wanted ==> !(space_of(ready, Some(Some(free)), wanted).paint is Bad),
        !(space_of(ready, Some(None), wanted).paint is Bad),
        !(space_of(ready, None, wanted).paint is Bad),
{
}

/// The room at a place is what was first found of it.
pub proof fn room_is_what_was_found(
    room: Seq<(Place, Option<u64>)>,
    place: Place,
    from: int,
    i: int,
)
    requires
        0 <= from <= room.len(),
        forall|k: int| from <= k < i && k < room.len() ==> (#[trigger] room[k]).0 != place,
    ensures
        from <= i < room.len() && room[i].0 == place ==> room_of(room, place, from) == Some(
            room[i].1,
        ),
        i >= room.len() ==> room_of(room, place, from) is None,
    decreases room.len() - from,
{
    if from < room.len() && from < i {
        room_is_what_was_found(room, place, from + 1, i);
    }
}

/// A set is said to go as far as its entries can: each that can be copied counts, and one
/// that would ask first is told about.
pub proof fn a_set_goes_as_far_as_it_can(
    m: ModelView,
    entries: Seq<EntryView>,
    entry: EntryView,
    place: Place,
)
    ensures
        ({
            let before = tallied(m, entries, place);
            let after = tallied(m, entries.push(entry), place);
            match m.destination(entry, place) {
                DestinationView::Ready(_) => after.ready == before.ready + 1 && after.asking
                    == before.asking && after.blocked == before.blocked,
                DestinationView::Ask(_, _) => after.ready == before.ready + 1 && after.asking
                    && after.blocked == before.blocked,
                DestinationView::Blocked(reason, _) => after.ready == before.ready && after.asking
                    == before.asking && (before.blocked.len() > 0 ==> after.blocked
                    == before.blocked) && (before.blocked.len() == 0 ==> after.blocked == reason),
            }
        }),
        tallied(m, Seq::empty(), place).ready == 0 && !tallied(m, Seq::empty(), place).asking,
{
    assert(entries.push(entry).drop_last() =~= entries);
}

/// However small the dialog, the line of the selected setting is in view.
pub proof fn the_selected_setting_is_in_view(panel: PanelView, height: int)
    requires
        height > 0,
        panel.device_selected is None,
    ensures
        ({
            let line = if panel.selected < 6 {
                2 * panel.selected + 1
            } else {
                panel.selected + 6
            };
            let scroll = settings_scroll_of(panel, height);
            0 <= scroll <= line < scroll + height
        }),
{
}

} // verus!
