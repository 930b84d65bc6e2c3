//! What outside work comes to.
use super::{detected, errand, once, onward_of, path_key, BatchView, Errand, OnwardView};
use crate::books::Place;
use crate::order;
use crate::text;
use crate::tui::{EntryView, OptionsView};
use vstd::prelude::*;

verus! {

broadcast use vstd::string::group_string_axioms;

proof fn each_stands_once(paths: Seq<Seq<char>>)
    ensures
        forall|p: Seq<char>| #[trigger] once(paths).contains(p) <==> paths.contains(p),
        forall|i: int, j: int|
            0 <= i < j < once(paths).len() ==> (#[trigger] once(paths)[i]) != (
            #[trigger] once(paths)[j]),
    decreases paths.len(),
{
    if paths.len() > 0 {
        let rest = paths.drop_last();
        let last = paths.last();
        each_stands_once(rest);
        let before = once(rest);
        let after = once(paths);
        assert forall|p: Seq<char>| #[trigger] after.contains(p) <==> paths.contains(p) by {
            assert(before.contains(p) <==> rest.contains(p));
            if paths.contains(p) {
                let i = choose|i: int| 0 <= i < paths.len() && paths[i] == p;
                if i < rest.len() {
                    assert(rest[i] == p);
                    let k = choose|k: int| 0 <= k < before.len() && before[k] == p;
                    assert(after[k] == p);
                } else if !before.contains(last) {
                    assert(after[before.len() as int] == p);
                }
            }
            if after.contains(p) {
                let k = choose|k: int| 0 <= k < after.len() && after[k] == p;
                if k < before.len() {
                    assert(before[k] == p);
                    let i = choose|i: int| 0 <= i < rest.len() && rest[i] == p;
                    assert(paths[i] == p);
                } else {
                    assert(paths[paths.len() - 1] == p);
                }
            }
        }
        assert forall|i: int, j: int| 0 <= i < j < after.len() implies (#[trigger] after[i]) != (
        #[trigger] after[j]) by {
            if j == before.len() {
                assert(before[i] == after[i]);
                assert(before.contains(before[i]));
            }
        }
    }
}

/// Every device that was found is offered, and each only once.
pub proof fn every_device_is_offered_once(paths: Seq<Seq<char>>, p: Seq<char>)
    ensures
        detected(paths).contains(p) <==> paths.contains(p),
        detected(paths).to_multiset().count(p) <= 1,
{
    broadcast use vstd::seq_lib::group_to_multiset_ensures;

    each_stands_once(paths);
    let all = once(paths);
    order::sorting_orders_and_keeps(all, |p: Seq<char>| path_key(p));
    assert(all.no_duplicates());
    all.lemma_multiset_has_no_duplicates();
    let shown = detected(paths);
    assert(shown.to_multiset() == all.to_multiset());
    assert(shown.contains(p) <==> shown.to_multiset().count(p) > 0);
    assert(all.contains(p) <==> all.to_multiset().count(p) > 0);
}

/// A mounted card is used before the network, and without either a book stays where it
/// is.
pub proof fn a_card_comes_before_the_network(options: OptionsView, path: Seq<char>)
    ensures
        options.copy_to matches Some(folder) ==> onward_of(options, path) == OnwardView::Copy(
            folder,
        ),
        options.copy_to is None && options.send_to is Some ==> onward_of(options, path)
            == OnwardView::Send(options.send_to->0),
        options.copy_to is None && options.send_to is None ==> onward_of(options, path) is Stay,
{
}

/// A book is transferred, and a request is fulfilled.
pub proof fn requests_are_fulfilled(entry: EntryView, options: OptionsView)
    ensures
        entry.source is Book ==> errand(entry, options) == Errand::Transfer,
        entry.source is Local && entry.kind == "ACSM"@ ==> errand(entry, options)
            == Errand::Fulfill,
{
}

/// A set says how many of it were copied, and counts every book once: as copied, or among
/// the failures, which it names.
pub proof fn a_set_counts_its_books(
    batch: BatchView,
    title: Seq<char>,
    result: Result<Seq<char>, Seq<char>>,
)
    ensures
        ({
            let after = batch.with(title, result);
            &&& result is Ok ==> after.done == batch.done + 1 && after.failures == batch.failures
            &&& result matches Err(words) ==> after.done == batch.done && after.failures
                == batch.failures.push(title + ": "@ + words)
            &&& after.done + after.failures.len() == batch.done + batch.failures.len() + 1
            &&& after.total == batch.total
        }),
{
}

/// One book alone succeeds or fails as its copy did; a set never fails as a whole.
pub proof fn one_book_alone_may_fail(batch: BatchView, target: Place)
    ensures
        batch.total == 1 ==> (batch.summary(target) is Ok <==> batch.failures.len() == 0),
        batch.total != 1 ==> batch.summary(target) is Ok,
{
}

/// What failed is named: the first two, how many there are, and that there are more.
pub proof fn failures_are_named(made: BatchView)
    ensures
        made.failures.len() == 0 ==> made.failed() == Seq::<char>::empty(),
        made.failures.len() == 1 ==> made.failed() == " "@ + text::decimal(1) + " failed: "@
            + made.failures[0],
        made.failures.len() == 2 ==> text::within(made.failed(), made.failures[0] + "; "@
            + made.failures[1]),
        made.failures.len() > 2 ==> text::within(
            made.failed(),
            made.failures[0] + "; "@ + made.failures[1] + "; …"@,
        ),
{
    reveal_strlit("");
    let head = " "@ + text::decimal(made.failures.len()) + " failed: "@;
    if made.failures.len() == 1 {
        assert(made.failed() =~= head + made.failures[0]);
    }
    if made.failures.len() >= 2 {
        let two = made.failures[0] + "; "@ + made.failures[1];
        let all = made.failed();
        assert(all.subrange(head.len() as int, (head.len() + two.len()) as int) =~= two);
        assert(text::at(all, two, head.len() as int));
        if made.failures.len() > 2 {
            let more = two + "; …"@;
            assert(all.subrange(head.len() as int, (head.len() + more.len()) as int) =~= more);
            assert(text::at(all, more, head.len() as int));
        }
    }
}

} // verus!
