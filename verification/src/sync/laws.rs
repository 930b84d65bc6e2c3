//! What bringing a device up to date decides, whatever it holds.
use super::{
    decided, planned_at, takes_part, taking_part, BookView, CandidateView, DecisionView,
    PlannedView, RowView, Status,
};
use crate::format::Format;
use crate::inventory::{matching_at, one_of, path_at, ExistingView, IdentityView};
use crate::text;
use vstd::prelude::*;

verus! {

broadcast use vstd::string::group_string_axioms;

/// Whether two books are the same edition: the same file, or the same contents.
pub open spec fn alike(a: IdentityView, b: IdentityView) -> bool {
    a.sha256 == b.sha256 || (a.resources is Some && a.resources == b.resources)
}

/// Whether a file of the destination is the book, as it is or as it was made ready,
/// under whatever name it stands there.
pub open spec fn is_there(entry: ExistingView, book: CandidateView) -> bool {
    entry.identity matches Some(id) && (alike(id, book.original) || alike(id, book.prepared))
}

/// Whether a copy that this run makes is the book.
pub open spec fn is_planned(planned: PlannedView, book: CandidateView) -> bool {
    alike(planned.original, book.original) || alike(planned.original, book.prepared) || alike(
        planned.prepared,
        book.original,
    ) || alike(planned.prepared, book.prepared)
}

proof fn told_apart(entry: ExistingView, book: CandidateView)
    ensures
        one_of(entry, seq![book.original, book.prepared]) == is_there(entry, book),
{
    let wanted = seq![book.original, book.prepared];
    assert(wanted[0] == book.original && wanted[1] == book.prepared);
    if is_there(entry, book) {
        let id = entry.identity->0;
        if alike(id, book.original) {
            assert(id.matches(wanted[0]));
        } else {
            assert(id.matches(wanted[1]));
        }
    }
}

proof fn found(entries: Seq<ExistingView>, book: CandidateView, from: int)
    requires
        0 <= from <= entries.len(),
    ensures
        ({
            let at = matching_at(entries, seq![book.original, book.prepared], from);
            &&& from <= at <= entries.len()
            &&& at < entries.len() ==> is_there(entries[at], book)
            &&& forall|i: int| from <= i < at ==> !is_there(#[trigger] entries[i], book)
        }),
    decreases entries.len() - from,
{
    if from < entries.len() {
        told_apart(entries[from], book);
        if !is_there(entries[from], book) {
            found(entries, book, from + 1);
        }
    }
}

proof fn found_planned(planned: Seq<PlannedView>, book: CandidateView, from: int)
    requires
        0 <= from <= planned.len(),
    ensures
        ({
            let at = planned_at(planned, book.original, book.prepared, from);
            &&& from <= at <= planned.len()
            &&& at < planned.len() ==> is_planned(planned[at], book)
            &&& forall|i: int| from <= i < at ==> !is_planned(#[trigger] planned[i], book)
        }),
    decreases planned.len() - from,
{
    if from < planned.len() && !is_planned(planned[from], book) {
        found_planned(planned, book, from + 1);
    }
}

proof fn found_path(entries: Seq<ExistingView>, path: Seq<char>, from: int)
    requires
        0 <= from <= entries.len(),
    ensures
        ({
            let at = path_at(entries, path, from);
            &&& from <= at <= entries.len()
            &&& at < entries.len() ==> text::lowercase(entries[at].file.path) == text::lowercase(
                path,
            )
            &&& forall|i: int|
                from <= i < at ==> text::lowercase((#[trigger] entries[i]).file.path)
                    != text::lowercase(path)
        }),
    decreases entries.len() - from,
{
    if from < entries.len() && text::lowercase(entries[from].file.path) != text::lowercase(path) {
        found_path(entries, path, from + 1);
    }
}

/// A book that the destination has is not sent again, whatever it is called there; and
/// one that is called present is there. Nothing is sent or repaired unless no file of
/// the destination is the book.
pub proof fn what_is_there_is_not_sent_again(
    entries: Seq<ExistingView>,
    planned: Seq<PlannedView>,
    base: Seq<char>,
    book: CandidateView,
    organized: bool,
    repair: bool,
)
    requires
        entries.len() <= usize::MAX,
    ensures
        ({
            let decision = decided(entries, planned, base, book, organized, repair);
            &&& (exists|i: int| 0 <= i < entries.len() && is_there(#[trigger] entries[i], book))
                <==> (decision matches Ok(DecisionView::Present(_)))
            &&& decision matches Ok(DecisionView::Present(i)) ==> i < entries.len() && is_there(
                entries[i as int],
                book,
            )
        }),
{
    found(entries, book, 0);
    let at = matching_at(entries, seq![book.original, book.prepared], 0);
    if at < entries.len() {
        assert(is_there(entries[at], book));
    }
}

/// A book that this run sends already is not sent twice, and one that is called a
/// duplicate is sent by this run, to the path that is given.
pub proof fn one_book_is_sent_once(
    entries: Seq<ExistingView>,
    planned: Seq<PlannedView>,
    base: Seq<char>,
    book: CandidateView,
    organized: bool,
    repair: bool,
)
    requires
        entries.len() <= usize::MAX,
        forall|i: int| 0 <= i < entries.len() ==> !is_there(#[trigger] entries[i], book),
    ensures
        ({
            let decision = decided(entries, planned, base, book, organized, repair);
            &&& (exists|i: int| 0 <= i < planned.len() && is_planned(#[trigger] planned[i], book))
                <==> (decision matches Ok(DecisionView::Duplicate(_)))
            &&& decision matches Ok(DecisionView::Duplicate(path)) ==> exists|i: int|
                0 <= i < planned.len() && is_planned(#[trigger] planned[i], book) && planned[i].path
                    == path
        }),
{
    found(entries, book, 0);
    found_planned(planned, book, 0);
    let at = planned_at(planned, book.original, book.prepared, 0);
    if at < planned.len() {
        assert(is_planned(planned[at], book));
    }
}

/// Whether a file or folder stands at a path, in whatever case.
pub open spec fn occupied(entries: Seq<ExistingView>, path: Seq<char>) -> bool {
    exists|i: int|
        0 <= i < entries.len() && text::lowercase((#[trigger] entries[i]).file.path)
            == text::lowercase(path)
}

/// A path without the slashes at its end, and a name behind another slash.
pub open spec fn beneath(path: Seq<char>, folder: Seq<char>, name: Seq<char>) -> bool {
    exists|n: int|
        0 <= n <= folder.len() && (n == 0 || folder[n - 1] != '/') && (forall|i: int|
            n <= i < folder.len() ==> #[trigger] folder[i] == '/') && path == (#[trigger] folder.take(n)).push(
            '/',
        ) + name
}

proof fn inside_is_beneath(folder: Seq<char>, name: Seq<char>)
    ensures
        beneath(crate::paths::inside(folder, name), folder, name),
{
    let n = bare_is_a_start(folder);
    reveal_strlit("/");
    assert(crate::paths::inside(folder, name) =~= folder.take(n).push('/') + name);
}

proof fn bare_is_a_start(s: Seq<char>) -> (n: int)
    ensures
        0 <= n <= s.len(),
        n == 0 || s[n - 1] != '/',
        forall|i: int| n <= i < s.len() ==> #[trigger] s[i] == '/',
        crate::paths::bare(s) == s.take(n),
    decreases s.len(),
{
    if s.len() > 0 && s.last() == '/' {
        let n = bare_is_a_start(s.drop_last());
        assert(s.drop_last().take(n) =~= s.take(n));
        assert forall|i: int| n <= i < s.len() implies #[trigger] s[i] == '/' by {
            if i < s.len() - 1 {
                assert(s[i] == s.drop_last()[i]);
            }
        }
        n
    } else {
        assert(s.take(s.len() as int) =~= s);
        s.len() as int
    }
}

/// A book that is missing is sent: beneath the base, in a folder of its author where
/// books are put in order, under its own name. It is refused only where another file or
/// another book of this run is in the way.
pub proof fn what_is_missing_is_sent(
    entries: Seq<ExistingView>,
    planned: Seq<PlannedView>,
    base: Seq<char>,
    book: CandidateView,
    organized: bool,
    repair: bool,
) -> (r: (Seq<char>, Seq<char>))
    requires
        entries.len() <= usize::MAX,
        forall|i: int| 0 <= i < entries.len() ==> !is_there(#[trigger] entries[i], book),
        forall|i: int| 0 <= i < planned.len() ==> !is_planned(#[trigger] planned[i], book),
    ensures
        ({
            let (folder, target) = r;
            let decision = decided(entries, planned, base, book, organized, repair);
            &&& organized ==> beneath(folder, base, book.author)
            &&& !organized ==> folder == base
            &&& beneath(target, folder, book.name)
            &&& decision == Ok::<DecisionView, Seq<char>>(DecisionView::Transfer(target)) || occupied(
                entries,
                folder,
            ) || occupied(entries, target) || exists|i: int|
                0 <= i < planned.len() && text::lowercase((#[trigger] planned[i]).path)
                    == text::lowercase(target)
            &&& occupied(entries, target) ==> !(decision matches Ok(DecisionView::Transfer(_)))
            &&& decision matches Ok(DecisionView::Transfer(path)) ==> path == target
            &&& decision matches Ok(DecisionView::Repair(path, i)) ==> path == target && repair && i
                < entries.len() && text::lowercase(entries[i as int].file.path) == text::lowercase(
                target,
            ) && entries[i as int].file.size < book.bytes
        }),
{
    found(entries, book, 0);
    found_planned(planned, book, 0);
    let folder = super::folder_of(base, book.author, organized);
    let target = super::target_of(base, book, organized);
    inside_is_beneath(base, book.author);
    inside_is_beneath(folder, book.name);
    found_path(entries, folder, 0);
    found_path(entries, target, 0);
    let parent = path_at(entries, folder, 0);
    let there = path_at(entries, target, 0);
    if parent < entries.len() {
        assert(occupied(entries, folder));
    }
    if there < entries.len() {
        assert(occupied(entries, target));
    }
    (folder, target)
}

/// The books that take part are the full EPUBs that were not left out, and all of them,
/// in their order.
pub proof fn whole_books_take_part(books: Seq<BookView>, exclude: Seq<Seq<char>>)
    requires
        books.len() <= usize::MAX,
    ensures
        forall|k: int|
            0 <= k < taking_part(books, exclude).len() ==> {
                let at = #[trigger] taking_part(books, exclude)[k];
                &&& at < books.len()
                &&& !books[at as int].preview
                &&& books[at as int].format == Format::Epub
                &&& !exclude.contains(books[at as int].id)
            },
        forall|i: int|
            0 <= i < books.len() && !(#[trigger] books[i]).preview && books[i].format
                == Format::Epub && !exclude.contains(books[i].id) ==> taking_part(
                books,
                exclude,
            ).contains(i as usize),
        forall|j: int, k: int|
            0 <= j < k < taking_part(books, exclude).len() ==> (#[trigger] taking_part(
                books,
                exclude,
            )[j]) < (#[trigger] taking_part(books, exclude)[k]),
    decreases books.len(),
{
    if books.len() > 0 {
        let rest = books.drop_last();
        whole_books_take_part(rest, exclude);
        let before = taking_part(rest, exclude);
        let after = taking_part(books, exclude);
        let last = (books.len() - 1) as usize;
        assert forall|k: int| 0 <= k < after.len() implies ({
            let at = #[trigger] after[k];
            &&& at < books.len()
            &&& !books[at as int].preview
            &&& books[at as int].format == Format::Epub
            &&& !exclude.contains(books[at as int].id)
        }) by {
            if k < before.len() {
                assert(after[k] == before[k]);
                assert(rest[before[k] as int] == books[before[k] as int]);
            }
        }
        assert forall|i: int|
            0 <= i < books.len() && !(#[trigger] books[i]).preview && books[i].format
                == Format::Epub && !exclude.contains(books[i].id) implies after.contains(
            i as usize,
        ) by {
            if i < rest.len() {
                assert(rest[i] == books[i]);
                let k = choose|k: int| 0 <= k < before.len() && before[k] == i as usize;
                assert(after[k] == i as usize);
            } else {
                assert(takes_part(books.last(), exclude));
                assert(after[before.len() as int] == last);
            }
        }
    }
}

/// What became of a book is called by what was done: planned in a dry run, done
/// otherwise; and a repair is called one.
pub proof fn outcomes_are_called_what_they_are(repair: bool)
    ensures
        super::outcome(false, false) == Status::Transfer,
        super::outcome(false, true) == Status::Repair,
        super::outcome(true, false) == Status::Sent,
        super::outcome(true, true) == Status::Repaired,
{
}

/// A book is left out when its identifier was named; a preview takes no part either way.
pub proof fn books_are_left_out_by_name(book: BookView, exclude: Seq<Seq<char>>)
    ensures
        !book.preview && exclude.contains(book.id) ==> super::left_out(book, exclude),
        !exclude.contains(book.id) ==> !super::left_out(book, exclude),
        book.preview ==> !super::left_out(book, exclude),
{
}

/// Every book that failed is counted, and no other.
pub proof fn failures_are_counted(rows: Seq<RowView>, row: RowView)
    ensures
        row.status is Failed ==> super::failed(rows.push(row)) == super::failed(rows) + 1,
        !(row.status is Failed) ==> super::failed(rows.push(row)) == super::failed(rows),
        super::failed(Seq::empty()) == 0,
{
    assert(rows.push(row).drop_last() =~= rows);
}

/// No two books of a run are put in one place: a path that another book goes to, in
/// whatever case, is given to no other.
pub proof fn no_two_books_share_a_place(
    entries: Seq<ExistingView>,
    planned: Seq<PlannedView>,
    base: Seq<char>,
    book: CandidateView,
    organized: bool,
    repair: bool,
    k: int,
)
    requires
        0 <= k < planned.len(),
    ensures
        decided(entries, planned, base, book, organized, repair) matches Ok(
            DecisionView::Transfer(path),
        ) ==> text::lowercase(planned[k].path) != text::lowercase(path),
        decided(entries, planned, base, book, organized, repair) matches Ok(
            DecisionView::Repair(path, _),
        ) ==> text::lowercase(planned[k].path) != text::lowercase(path),
{
    if text::lowercase(planned[k].path) == text::lowercase(
        super::target_of(base, book, organized),
    ) {
        assert(super::promised(planned, super::target_of(base, book, organized)));
    }
}

} // verus!
