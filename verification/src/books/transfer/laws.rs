//! What is copied, what is removed, and how it is said.
use super::{
    copy_at, held, nearest, planned, removable, size_of, transfer_problem, unit_of,
};
use crate::books::{BookView, CopyView, Place};
use crate::format::Format;
use crate::pdf::VerdictView;
use crate::text;
use vstd::prelude::*;

verus! {

broadcast use vstd::string::group_string_axioms;

/// Whether a copy is the one that was asked about: it stands there under that path, or
/// is the same file.
pub open spec fn asked_about(
    book: BookView,
    place: Place,
    path: Seq<char>,
    same_files: Seq<bool>,
    i: int,
) -> bool {
    &&& 0 <= i < book.copies.len()
    &&& book.copies[i].place == place
    &&& book.copies[i].path == path || (place == Place::Local && same_files[i])
}

proof fn found(book: BookView, place: Place, path: Seq<char>, same_files: Seq<bool>, from: int)
    requires
        0 <= from <= book.copies.len(),
    ensures
        ({
            let at = copy_at(book.copies, place, path, same_files, from);
            &&& from <= at <= book.copies.len()
            &&& at < book.copies.len() ==> asked_about(book, place, path, same_files, at)
            &&& forall|i: int|
                from <= i < at ==> !#[trigger] asked_about(book, place, path, same_files, i)
        }),
    decreases book.copies.len() - from,
{
    if from < book.copies.len() && !asked_about(book, place, path, same_files, from) {
        found(book, place, path, same_files, from + 1);
    }
}

/// Only the copy that was asked about is removed, and only where it is not the last, is
/// not the Kobo's own and was read. Where all that holds, it is.
pub proof fn only_what_was_asked_about_goes(
    book: BookView,
    place: Place,
    path: Seq<char>,
    same_files: Seq<bool>,
    i: int,
)
    requires
        forall|j: int| 0 <= j < i ==> !#[trigger] asked_about(book, place, path, same_files, j),
    ensures
        removable(book, place, path, same_files) matches Ok(at) ==> asked_about(
            book,
            place,
            path,
            same_files,
            at,
        ) && book.copies.len() >= 2 && !book.copies[at].locked && book.copies[at].sha.len() > 0,
        asked_about(book, place, path, same_files, i) && book.copies.len() >= 2
            && !book.copies[i].locked && book.copies[i].sha.len() > 0 ==> removable(
            book,
            place,
            path,
            same_files,
        ) == Ok::<int, Seq<char>>(i),
{
    found(book, place, path, same_files, 0);
    let at = copy_at(book.copies, place, path, same_files, 0);
    if asked_about(book, place, path, same_files, i) && at != i {
        if at < i {
            assert(!asked_about(book, place, path, same_files, at));
        }
    }
}

/// What may be copied to a place: what was read and is not there already. To the reader
/// goes an EPUB as it is, and a PDF that can be converted; nothing else.
pub proof fn what_may_be_copied(book: BookView, target: Place, copy: CopyView)
    requires
        book.preferred() == Some(copy),
    ensures
        transfer_problem(book, target) is None <==> {
            &&& copy.sha.len() > 0
            &&& copy.place != target
            &&& target != Place::CrossPoint || copy.format == Format::Epub || (copy.format
                == Format::Pdf && !(copy.verdict matches Some(VerdictView::Impossible(_))))
        },
{
}

/// How a copy travels: a PDF or a comic as it is, but to the reader as an EPUB; pictures
/// are made anew for the reader alone, and only where that is wanted.
pub proof fn only_the_reader_changes_a_book(
    copy: CopyView,
    target: Place,
    optimize: bool,
    organized: bool,
)
    ensures
        ({
            let plan = planned(copy, target, optimize, organized);
            &&& target != Place::CrossPoint ==> plan.format == copy.format && !plan.optimize
            &&& target == Place::CrossPoint ==> plan.format == Format::Epub && plan.optimize
                == optimize && plan.by_author == organized
            &&& plan.rewrite <==> plan.format == Format::Epub
            &&& target == Place::Local ==> !plan.by_author
            &&& target == Place::Kobo ==> plan.by_author == (copy.format == Format::Epub)
        }),
{
}

proof fn near(n: int, d: int)
    requires
        0 <= n,
        d > 0,
    ensures
        2 * (nearest(n, d) * d - n) <= d,
        2 * (n - nearest(n, d) * d) <= d,
{
    let q = n / d;
    let r = n % d;
    vstd::arithmetic::div_mod::lemma_fundamental_div_mod(n, d);
    vstd::arithmetic::div_mod::lemma_mod_bound(n, d);
    assert(d * q == q * d) by (nonlinear_arith);
    assert((q + 1) * d == q * d + d) by (nonlinear_arith);
}

/// A size is shown in the largest unit that it reaches, rounded to the nearest tenth.
pub proof fn sizes_are_rounded_to_tenths(bytes: u64, unit: Seq<char>, many: int)
    requires
        1024 <= bytes < 9007199254740992,
        (unit == "KiB"@ && many == 1024 && bytes < 1048576) || (unit == "MiB"@ && many == 1048576
            && 1048576 <= bytes < 1073741824) || (unit == "GiB"@ && many == 1073741824 && bytes
            >= 1073741824),
    ensures
        exists|tenths: int|
            0 <= tenths && 2 * (tenths * many - 10 * bytes) <= many && 2 * (10 * bytes - tenths
                * many) <= many && size_of(bytes) == (#[trigger] text::decimal(
                (tenths / 10) as nat,
            )) + "."@ + text::decimal((tenths % 10) as nat) + " "@ + unit,
{
    let n = bytes as int;
    assert(super::grain(n, 1) == 1);
    assert(n / 1 == n && n % 1 == 0);
    assert(nearest(n, 1) == n);
    assert(held(n) == n) by (nonlinear_arith)
        requires
            held(n) == nearest(n, super::grain(n, 1)) * super::grain(n, 1),
            super::grain(n, 1) == 1,
            nearest(n, 1) == n,
    ;
    assert(unit_of(n) == (unit, many));
    let tenths = nearest(10 * n, many);
    near(10 * n, many);
    assert(tenths >= 0) by {
        vstd::arithmetic::div_mod::lemma_div_pos_is_pos(10 * n, many);
    }
    assert(size_of(bytes) == text::decimal((tenths / 10) as nat) + "."@ + text::decimal(
        (tenths % 10) as nat,
    ) + " "@ + unit);
}

/// A few bytes are shown as they are.
pub proof fn small_sizes_are_exact(bytes: u64)
    requires
        bytes < 1024,
    ensures
        size_of(bytes) == text::decimal(bytes as nat) + " B"@,
{
}

/// A number of parts is rounded to one that is no further off than half a part.
pub proof fn sizes_are_rounded_to_the_nearest(n: int, d: int)
    requires
        d > 0,
        n >= 0,
    ensures
        2 * (d * nearest(n, d) - n) <= d,
        2 * (n - d * nearest(n, d)) <= d,
        2 * (d * nearest(n, d) - n) == d || 2 * (n - d * nearest(n, d)) == d
            ==> nearest(n, d) % 2 == 0,
{
    let q = n / d;
    let r = n % d;
    assert(n == d * q + r && 0 <= r < d) by (nonlinear_arith)
        requires
            d > 0,
            q == n / d,
            r == n % d,
    ;
    assert(d * (q + 1) == d * q + d) by (nonlinear_arith);
}

} // verus!
