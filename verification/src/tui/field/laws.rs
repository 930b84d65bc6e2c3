//! What typing does to a line, and what undoes it.
use super::LineView;
use crate::text;
use crate::tui::{Key, KeyCode};
use vstd::prelude::*;

verus! {

/// A key without a modifier.
pub open spec fn plain(key: Key, code: KeyCode) -> bool {
    key.code == code && !key.control && !key.alt
}

/// What is typed stands at the cursor, which goes behind it, and taking it back leaves
/// the line as it was.
pub proof fn what_is_typed_can_be_taken_back(line: LineView, key: Key, c: char, back: Key)
    requires
        line.cursor <= line.value.len() < usize::MAX,
        plain(key, KeyCode::Char(c)),
        !text::control(c),
        back.code is Backspace,
    ensures
        line.after(key).value == line.value.take(line.cursor as int) + seq![c] + line.value.skip(
            line.cursor as int,
        ),
        line.after(key).cursor == line.cursor + 1,
        line.after(key).after(back) == line,
{
    let typed = line.after(key);
    assert(typed.value =~= line.value.take(line.cursor as int) + seq![c] + line.value.skip(
        line.cursor as int,
    ));
    assert(typed.value.remove(line.cursor as int) =~= line.value);
}

/// Keys that move the cursor leave the text alone and stay in it.
pub proof fn moving_changes_no_text(line: LineView, key: Key)
    requires
        line.cursor <= line.value.len(),
    ensures
        key.code is Left || key.code is Right || key.code is Home || key.code is End ==> line.after(
            key,
        ).value == line.value,
        key.code is Left && line.cursor > 0 ==> line.after(key).cursor == line.cursor - 1,
        key.code is Right && line.cursor < line.value.len() ==> line.after(key).cursor
            == line.cursor + 1,
        key.code is Home ==> line.after(key).cursor == 0,
        key.code is End ==> line.after(key).cursor == line.value.len(),
        line.after(key).cursor <= line.after(key).value.len(),
{
}

/// The key that deletes takes the character behind the cursor, and the one that goes back
/// takes the one before it.
pub proof fn deleting_takes_one_character(line: LineView, key: Key)
    requires
        line.cursor <= line.value.len(),
    ensures
        key.code is Delete && line.cursor < line.value.len() ==> line.after(key).value
            == line.value.take(line.cursor as int) + line.value.skip(line.cursor as int + 1)
            && line.after(key).cursor == line.cursor,
        key.code is Backspace && line.cursor > 0 ==> line.after(key).value == line.value.take(
            line.cursor - 1,
        ) + line.value.skip(line.cursor as int) && line.after(key).cursor == line.cursor - 1,
        key.code is Delete && line.cursor == line.value.len() ==> line.after(key) == line,
        key.code is Backspace && line.cursor == 0 ==> line.after(key) == line,
{
    let v = line.value;
    let at = line.cursor as int;
    if at < v.len() {
        assert(v.remove(at) =~= v.take(at) + v.skip(at + 1));
    }
    if at > 0 {
        assert(v.remove(at - 1) =~= v.take(at - 1) + v.skip(at));
    }
}

/// Control and U empty the line; no other letter with a modifier is typed.
pub proof fn a_line_is_emptied_at_once(line: LineView, key: Key)
    ensures
        key.code == KeyCode::Char('u') && key.control ==> line.after(key).value.len() == 0
            && line.after(key).cursor == 0,
        key.code is Char && key.code != KeyCode::Char('u') && (key.control || key.alt)
            ==> line.after(key) == line,
{
}

} // verus!
