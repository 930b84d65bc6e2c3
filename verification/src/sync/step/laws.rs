//! How one book is brought to the reader, from its export to its arrival.
use super::{stepped, ActionView, EventView, HeldView, StageView, StateView};
use crate::inventory::identified;
use crate::paths;
use crate::sync::laws::{alike, is_planned, is_there, what_is_there_is_not_sent_again};
use crate::sync::{candidate_of, decided, DecisionView, OptionsView, Status};
use vstd::prelude::*;

verus! {

broadcast use vstd::string::group_string_axioms;

/// A book that the destination has: a dry run says so, and otherwise the file is read
/// again first. It counts as present only where that still is the book.
pub proof fn a_book_that_is_there_is_looked_at_again(
    s: StateView,
    o: OptionsView,
    original: Seq<u8>,
    file: Seq<char>,
    name: Seq<char>,
    data: Seq<u8>,
    author: Seq<char>,
    i: int,
    bytes: Seq<u8>,
)
    requires
        s.stage is Exporting,
        s.inventory.len() <= usize::MAX,
        0 <= i < s.inventory.len(),
        is_there(s.inventory[i], candidate_of(original, data, author, name)),
    ensures
        ({
            let (next, action) = stepped(
                s,
                EventView::Exported { original, file, name, data, author },
                o,
            );
            &&& !o.apply ==> (action matches ActionView::Finish(Ok((status, _, _))) && status
                == Status::Present)
            &&& o.apply ==> action is Read && {
                let at = action->Read_0;
                let last = stepped(next, EventView::Read(bytes), o).1;
                let same = alike(identified(bytes), identified(original)) || alike(
                    identified(bytes),
                    identified(data),
                );
                &&& at < s.inventory.len()
                &&& is_there(s.inventory[at as int], candidate_of(original, data, author, name))
                &&& same ==> (last matches ActionView::Finish(Ok((status, path, _))) && status
                    == Status::Present && path == s.inventory[at as int].file.path)
                &&& !same ==> last matches ActionView::Finish(Err(_))
            }
        }),
{
    let book = candidate_of(original, data, author, name);
    what_is_there_is_not_sent_again(
        s.inventory,
        s.planned,
        s.base,
        book,
        o.organized,
        o.repair,
    );
    assert(is_there(s.inventory[i], book));
}

/// A book that is to go somewhere goes there: it is imported first, then sent to the
/// reader or copied to the card, under its author where books are put in order, and when
/// that is done it is said to have been sent.
pub proof fn a_book_that_is_missing_is_sent(
    s: StateView,
    o: OptionsView,
    original: Seq<u8>,
    file: Seq<char>,
    name: Seq<char>,
    data: Seq<u8>,
    author: Seq<char>,
    target: Seq<char>,
    local: Seq<char>,
)
    requires
        s.stage is Exporting,
        o.apply,
        s.card is None,
        decided(
            s.inventory,
            s.planned,
            s.base,
            candidate_of(original, data, author, name),
            o.organized,
            o.repair,
        ) == Ok::<DecisionView, Seq<char>>(DecisionView::Transfer(target)),
    ensures
        ({
            let one = stepped(s, EventView::Exported { original, file, name, data, author }, o);
            let two = stepped(one.0, EventView::Imported(local, original), o);
            let three = stepped(two.0, EventView::Sent(target, None), o);
            &&& one.1 is Import
            &&& two.1 == ActionView::Send(
                if o.organized {
                    Some(author)
                } else {
                    None
                },
            )
            &&& three.1 matches ActionView::Finish(Ok((status, path, _))) && status == Status::Sent
                && path == target
            &&& three.0.planned.len() == s.planned.len() + 1
            &&& three.0.planned.last().path == target
            &&& is_planned(three.0.planned.last(), candidate_of(original, data, author, name))
        }),
{
}

/// A file is repaired only where what stands there is the beginning of the book.
pub proof fn only_a_beginning_is_repaired(
    s: StateView,
    o: OptionsView,
    held: HeldView,
    path: Seq<char>,
    bytes: Seq<u8>,
)
    requires
        s.stage == StageView::Comparing(held, path),
    ensures
        ({
            let action = stepped(s, EventView::Read(bytes), o).1;
            let start = bytes.len() <= held.data.len() && held.data.take(bytes.len() as int)
                == bytes;
            &&& start && o.apply ==> action is Import
            &&& start && !o.apply ==> action is Look
            &&& !start ==> action matches ActionView::Finish(Err(_))
        }),
{
}

/// A book that was planned or sent is known to the books behind it, as it was and as it
/// was sent, and where it is.
pub proof fn later_books_know_of_earlier_ones(
    s: StateView,
    held: HeldView,
    apply: bool,
    repair: bool,
    path: Seq<char>,
    backup: Option<Seq<char>>,
    local: Option<Seq<char>>,
)
    ensures
        ({
            let after = s.planned_for(held, apply, repair, path, backup, local).0;
            &&& after.planned.len() == s.planned.len() + 1
            &&& after.planned.drop_last() == s.planned
            &&& after.planned.last().original == held.candidate.original
            &&& after.planned.last().prepared == held.candidate.prepared
            &&& after.planned.last().path == path
        }),
{
    let after = s.planned_for(held, apply, repair, path, backup, local).0;
    assert(after.planned.drop_last() =~= s.planned);
}

/// A file on a card is called by its path from the top of the card.
pub proof fn a_card_starts_at_its_root(root: Seq<char>, name: Seq<char>)
    ensures
        super::card_path(root, paths::inside(root, name)) == Some("/"@ + name),
{
    let head = paths::bare(root) + "/"@;
    let path = paths::inside(root, name);
    assert(path.subrange(0, head.len() as int) =~= head);
    assert(path.skip(head.len() as int) =~= name);
}

} // verus!
