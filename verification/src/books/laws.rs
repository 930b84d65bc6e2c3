//! What holds of a library, however it was put together.
use super::{
    first_related, first_related_range, joined, joining_keeps_spots, listed, listing_key, merged,
    preferred_index, preferred_is_nearest, related, same_variant, taken, BookView, CopyView, Place,
};
use crate::order;
use crate::text;
use vstd::prelude::*;

verus! {

/// Whether two copies hold the same edition: some digest of the file is the same, or
/// some known digest of what is inside it.
pub open spec fn same_edition(a: CopyView, b: CopyView) -> bool {
    exists|i: int, j: int|
        0 <= i < a.variants.len() && 0 <= j < b.variants.len() && ((#[trigger] a.variants[i]).0 == (
        #[trigger] b.variants[j]).0 || (a.variants[i].1 is Some && a.variants[i].1
            == b.variants[j].1))
}

/// A copy is recognized by its contents alone: by the digest of the file or, where it
/// was repacked, by the digest of what is inside. Nothing else makes two copies the
/// same book.
pub proof fn copies_are_told_by_contents(a: CopyView, b: CopyView)
    ensures
        a.matches(b) <==> same_edition(a, b),
{
    if same_edition(a, b) {
        let (i, j) = choose|i: int, j: int|
            0 <= i < a.variants.len() && 0 <= j < b.variants.len() && ((#[trigger] a.variants[i]).0
                == (#[trigger] b.variants[j]).0 || (a.variants[i].1 is Some && a.variants[i].1
                == b.variants[j].1));
        assert(same_variant(a.variants[i], b.variants[j]));
    }
    if a.matches(b) {
        let (i, j) = choose|i: int, j: int|
            0 <= i < a.variants.len() && 0 <= j < b.variants.len() && same_variant(
                #[trigger] a.variants[i],
                #[trigger] b.variants[j],
            );
        assert(a.variants[i].0 == b.variants[j].0 || (a.variants[i].1 is Some && a.variants[i].1
            == b.variants[j].1));
    }
}

proof fn joining_keeps_the_first(copies: Seq<CopyView>, more: Seq<CopyView>)
    ensures
        joined(copies, more).len() >= copies.len(),
        forall|i: int| 0 <= i < copies.len() ==> #[trigger] joined(copies, more)[i] == copies[i],
        forall|i: int|
            0 <= i < joined(copies, more).len() ==> copies.contains(
                #[trigger] joined(copies, more)[i],
            ) || more.contains(joined(copies, more)[i]),
    decreases more.len(),
{
    if more.len() > 0 {
        joining_keeps_the_first(copies, more.drop_last());
        let so_far = joined(copies, more.drop_last());
        let all = joined(copies, more);
        assert forall|i: int| 0 <= i < all.len() implies copies.contains(#[trigger] all[i])
            || more.contains(all[i]) by {
            if i < so_far.len() {
                assert(all[i] == so_far[i]);
                if !copies.contains(all[i]) {
                    let j = choose|j: int|
                        0 <= j < more.drop_last().len() && more.drop_last()[j] == all[i];
                    assert(more[j] == all[i]);
                }
            } else {
                assert(more[more.len() - 1] == all[i]);
            }
        }
    } else {
        assert forall|i: int| 0 <= i < copies.len() implies copies.contains(
            #[trigger] joined(copies, more)[i],
        ) by {
            assert(copies[i] == joined(copies, more)[i]);
        }
    }
}

proof fn what_comes_in_comes_last(books: Seq<BookView>, book: BookView, copy: CopyView)
    requires
        taken(book.copies, copy),
    ensures
        merged(books, book).len() > 0,
        taken(merged(books, book).last().copies, copy),
    decreases books.len(),
{
    let i = first_related(books, book, 0);
    first_related_range(books, book, 0);
    if 0 <= i < books.len() {
        joining_keeps_spots(book.copies, books[i].copies, copy);
        what_comes_in_comes_last(
            books.remove(i),
            BookView { copies: joined(book.copies, books[i].copies), ..book },
            copy,
        );
    }
}

proof fn relation_survives_joining(a: BookView, b: BookView, more: Seq<CopyView>)
    requires
        related(a, b),
    ensures
        related(a, BookView { copies: joined(b.copies, more), ..b }),
{
    let c = BookView { copies: joined(b.copies, more), ..b };
    joining_keeps_the_first(b.copies, more);
    let (i, j) = choose|i: int, j: int|
        0 <= i < a.copies.len() && 0 <= j < b.copies.len() && (#[trigger] a.copies[i]).matches(
            #[trigger] b.copies[j],
        );
    assert(c.copies[j] == b.copies[j]);
    assert(a.copies[i].matches(c.copies[j]));
}

proof fn relatives_come_together(books: Seq<BookView>, book: BookView, k: int, copy: CopyView)
    requires
        0 <= k < books.len(),
        related(books[k], book),
        taken(books[k].copies, copy),
    ensures
        taken(merged(books, book).last().copies, copy),
        merged(books, book).len() > 0,
    decreases books.len(),
{
    let i = first_related(books, book, 0);
    first_related_range(books, book, 0);
    assert(i <= k);
    let combined = BookView { copies: joined(book.copies, books[i].copies), ..book };
    let rest = books.remove(i);
    if i == k {
        joining_keeps_spots(book.copies, books[i].copies, copy);
        what_comes_in_comes_last(rest, combined, copy);
    } else {
        assert(rest[k - 1] == books[k]);
        relation_survives_joining(books[k], book, books[i].copies);
        relatives_come_together(rest, combined, k - 1, copy);
    }
}

/// Whether an entry of a library has a copy in the spot of each of these.
pub open spec fn shared_entry(books: Seq<BookView>, a: CopyView, b: CopyView) -> bool {
    exists|e: int|
        0 <= e < books.len() && taken((#[trigger] books[e]).copies, a) && taken(
            books[e].copies,
            b,
        )
}

/// Copies of one edition share an entry: a book that comes into a library is put
/// together with every book there that has a copy with the same contents, whatever
/// either is called and wherever it stands.
pub proof fn one_edition_has_one_entry(
    books: Seq<BookView>,
    book: BookView,
    k: int,
    x: int,
    y: int,
)
    requires
        0 <= k < books.len(),
        0 <= x < books[k].copies.len(),
        0 <= y < book.copies.len(),
        same_edition(books[k].copies[x], book.copies[y]),
    ensures
        shared_entry(merged(books, book), books[k].copies[x], book.copies[y]),
{
    let old = books[k].copies[x];
    let new = book.copies[y];
    copies_are_told_by_contents(old, new);
    assert(related(books[k], book));
    assert(books[k].copies[x].same_spot(old));
    assert(book.copies[y].same_spot(new));
    relatives_come_together(books, book, k, old);
    what_comes_in_comes_last(books, book, new);
    let after = merged(books, book);
    assert(taken(after[after.len() - 1].copies, old));
}

/// Whether no copy of one book holds the edition of a copy of another.
pub open spec fn strangers(a: BookView, b: BookView) -> bool {
    forall|i: int, j: int|
        0 <= i < a.copies.len() && 0 <= j < b.copies.len() ==> !same_edition(
            #[trigger] a.copies[i],
            #[trigger] b.copies[j],
        )
}

proof fn strangers_are_unrelated(a: BookView, b: BookView)
    requires
        strangers(a, b),
    ensures
        !related(a, b),
{
    if related(a, b) {
        let (i, j) = choose|i: int, j: int|
            0 <= i < a.copies.len() && 0 <= j < b.copies.len() && (#[trigger] a.copies[i]).matches(
                #[trigger] b.copies[j],
            );
        copies_are_told_by_contents(a.copies[i], b.copies[j]);
    }
}

/// A book that shares its contents with no other keeps its entry, unchanged.
pub proof fn a_stranger_keeps_its_entry(books: Seq<BookView>, book: BookView, k: int)
    requires
        0 <= k < books.len(),
        strangers(books[k], book),
        forall|j: int|
            0 <= j < books.len() && j != k ==> strangers(books[k], #[trigger] books[j]),
    ensures
        merged(books, book).contains(books[k]),
    decreases books.len(),
{
    let i = first_related(books, book, 0);
    first_related_range(books, book, 0);
    strangers_are_unrelated(books[k], book);
    if 0 <= i < books.len() {
        assert(i != k);
        let combined = BookView { copies: joined(book.copies, books[i].copies), ..book };
        let rest = books.remove(i);
        let at = if k < i {
            k
        } else {
            k - 1
        };
        assert(rest[at] == books[k]);
        joining_keeps_the_first(book.copies, books[i].copies);
        assert(strangers(books[k], books[i]));
        assert forall|m: int, n: int|
            0 <= m < books[k].copies.len() && 0 <= n < combined.copies.len() implies !same_edition(
            #[trigger] books[k].copies[m],
            #[trigger] combined.copies[n],
        ) by {
            let c = combined.copies[n];
            if book.copies.contains(c) {
                let j = choose|j: int| 0 <= j < book.copies.len() && book.copies[j] == c;
                assert(!same_edition(books[k].copies[m], book.copies[j]));
            } else {
                let j = choose|j: int| 0 <= j < books[i].copies.len() && books[i].copies[j] == c;
                assert(!same_edition(books[k].copies[m], books[i].copies[j]));
            }
        }
        assert forall|j: int| 0 <= j < rest.len() && j != at implies strangers(
            rest[at],
            #[trigger] rest[j],
        ) by {
            if j < i {
                assert(rest[j] == books[j]);
            } else {
                assert(rest[j] == books[j + 1]);
            }
        }
        a_stranger_keeps_its_entry(rest, combined, at);
    } else {
        assert(merged(books, book)[k] == books[k]);
    }
}

/// Whether a copy is one of a library or of one book.
pub open spec fn given(books: Seq<BookView>, book: BookView, copy: CopyView) -> bool {
    book.copies.contains(copy) || exists|k: int|
        0 <= k < books.len() && (#[trigger] books[k]).copies.contains(copy)
}

/// Nothing is invented: every copy of a library is one that was put into it, as it was.
pub proof fn no_copy_is_invented(books: Seq<BookView>, book: BookView, e: int, copy: CopyView)
    requires
        0 <= e < merged(books, book).len(),
        merged(books, book)[e].copies.contains(copy),
    ensures
        given(books, book, copy),
    decreases books.len(),
{
    let i = first_related(books, book, 0);
    first_related_range(books, book, 0);
    if 0 <= i < books.len() {
        let combined = BookView { copies: joined(book.copies, books[i].copies), ..book };
        let rest = books.remove(i);
        no_copy_is_invented(rest, combined, e, copy);
        joining_keeps_the_first(book.copies, books[i].copies);
        if combined.copies.contains(copy) {
            let j = choose|j: int| 0 <= j < combined.copies.len() && combined.copies[j] == copy;
            assert(book.copies.contains(copy) || books[i].copies.contains(copy));
        } else {
            let k = choose|k: int| 0 <= k < rest.len() && (#[trigger] rest[k]).copies.contains(copy);
            if k < i {
                assert(books[k].copies.contains(copy));
            } else {
                assert(rest[k] == books[k + 1]);
                assert(books[k + 1].copies.contains(copy));
            }
        }
    } else if e < books.len() {
        assert(merged(books, book)[e] == books[e]);
    }
}

/// An entry is called what the book that came last is called.
pub proof fn the_last_to_come_names_the_entry(books: Seq<BookView>, book: BookView)
    ensures
        merged(books, book).len() > 0,
        merged(books, book).last().title == book.title,
        merged(books, book).last().author == book.author,
        merged(books, book).last().series == book.series,
        merged(books, book).last().series_index == book.series_index,
        merged(books, book).len() <= books.len() + 1,
    decreases books.len(),
{
    let i = first_related(books, book, 0);
    if 0 <= i < books.len() {
        the_last_to_come_names_the_entry(
            books.remove(i),
            BookView { copies: joined(book.copies, books[i].copies), ..book },
        );
    }
}

/// Whether one place comes before another when a book is taken from somewhere: what is
/// at hand, then the Kobo, then the reader.
pub open spec fn nearer(a: Place, b: Place) -> bool {
    match a {
        Place::Local => b != Place::Local,
        Place::Kobo => b == Place::CrossPoint,
        Place::CrossPoint => false,
    }
}

/// The copy a book is taken from: an original before a copy made for a device, and of
/// several such the one that is nearest.
pub proof fn originals_are_preferred(copies: Seq<CopyView>, i: int)
    requires
        0 <= i < copies.len(),
    ensures
        ({
            let best = copies[preferred_index(copies)];
            &&& 0 <= preferred_index(copies) < copies.len()
            &&& best.optimized ==> copies[i].optimized
            &&& best.optimized == copies[i].optimized ==> !nearer(copies[i].place, best.place)
        }),
{
    preferred_is_nearest(copies);
}

/// A library is listed by title, whatever the case, and by author where titles agree;
/// every book is listed once.
pub proof fn books_are_listed_by_title(books: Seq<BookView>)
    ensures
        listed(books).len() == books.len(),
        listed(books).to_multiset() == books.to_multiset(),
        forall|i: int, j: int|
            0 <= i < j < books.len() ==> !text::before(
                text::lowercase((#[trigger] listed(books)[j]).title),
                text::lowercase((#[trigger] listed(books)[i]).title),
            ),
        forall|i: int, j: int|
            0 <= i < j < books.len() && text::lowercase((#[trigger] listed(books)[j]).title)
                == text::lowercase((#[trigger] listed(books)[i]).title) ==> !text::before(
                listed(books)[j].author,
                listed(books)[i].author,
            ),
{
    let key = |b: BookView| listing_key(b);
    order::sorting_orders_and_keeps(books, key);
    let all = listed(books);
    assert forall|i: int, j: int| 0 <= i < j < books.len() implies !text::before(
        text::lowercase((#[trigger] all[j]).title),
        text::lowercase((#[trigger] all[i]).title),
    ) by {
        assert(!order::by_key(key)(all[j], all[i]));
        text::before_is_total(text::lowercase(all[j].title), text::lowercase(all[i].title));
    }
    assert forall|i: int, j: int|
        0 <= i < j < books.len() && text::lowercase((#[trigger] all[j]).title) == text::lowercase(
            (#[trigger] all[i]).title,
        ) implies !text::before(all[j].author, all[i].author) by {
        assert(!order::by_key(key)(all[j], all[i]));
    }
}

/// Whether no two copies of a book stand in the same spot.
pub open spec fn spread(copies: Seq<CopyView>) -> bool {
    forall|i: int, j: int|
        0 <= i < j < copies.len() ==> !(#[trigger] copies[i]).same_spot(#[trigger] copies[j])
}

proof fn joining_spreads(copies: Seq<CopyView>, more: Seq<CopyView>)
    requires
        spread(copies),
    ensures
        spread(joined(copies, more)),
    decreases more.len(),
{
    if more.len() > 0 {
        joining_spreads(copies, more.drop_last());
    }
}

/// A spot is listed once: putting a book into a library never gives an entry two copies
/// in the same spot.
pub proof fn a_spot_is_listed_once(books: Seq<BookView>, book: BookView, e: int)
    requires
        spread(book.copies),
        forall|i: int| 0 <= i < books.len() ==> spread((#[trigger] books[i]).copies),
        0 <= e < merged(books, book).len(),
    ensures
        spread(merged(books, book)[e].copies),
    decreases books.len(),
{
    let i = first_related(books, book, 0);
    first_related_range(books, book, 0);
    if 0 <= i < books.len() {
        let combined = BookView { copies: joined(book.copies, books[i].copies), ..book };
        let rest = books.remove(i);
        joining_spreads(book.copies, books[i].copies);
        assert forall|k: int| 0 <= k < rest.len() implies spread((#[trigger] rest[k]).copies) by {
            if k < i {
                assert(rest[k] == books[k]);
            } else {
                assert(rest[k] == books[k + 1]);
            }
        }
        a_spot_is_listed_once(rest, combined, e);
    } else if e < books.len() {
        assert(merged(books, book)[e] == books[e]);
    }
}

/// A book is worked from one of its copies, if it has any: an original before a device
/// copy, and of several the one that is nearest.
pub proof fn a_book_is_worked_from_its_best_copy(book: BookView, i: int)
    ensures
        book.preferred() is None <==> book.copies.len() == 0,
        0 <= i < book.copies.len() ==> book.copies.contains(book.preferred()->0) && (
        book.preferred()->0.optimized ==> book.copies[i].optimized) && (
        book.preferred()->0.optimized == book.copies[i].optimized ==> !nearer(
            book.copies[i].place,
            book.preferred()->0.place,
        )),
{
    if 0 <= i < book.copies.len() {
        originals_are_preferred(book.copies, i);
    }
}

} // verus!
