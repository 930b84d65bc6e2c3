//! A content-based library across local storage, Kobo and CrossPoint.
use crate::format::Format;
use crate::order;
use crate::pdf::{Verdict, VerdictView};
use crate::position::{Position, PositionView};
use crate::text;
use crate::values::{Duplicate, Same};
use vstd::prelude::*;

pub mod laws;
pub mod read;
pub mod scan;
pub mod transfer;

verus! {

broadcast use vstd::string::group_string_axioms;

#[derive(Clone, Copy, Debug, PartialEq, Eq, Structural)]
pub enum Place {
    Local,
    Kobo,
    CrossPoint,
}

impl DeepView for Place {
    type V = Place;

    open spec fn deep_view(&self) -> Place {
        *self
    }
}

impl Duplicate for Place {
    fn duplicate(&self) -> (r: Place) {
        *self
    }
}

impl Same for Place {
    fn same(&self, other: &Place) -> (r: bool) {
        *self == *other
    }
}

impl Place {
    pub open spec fn name(self) -> Seq<char> {
        match self {
            Place::Local => "Local"@,
            Place::Kobo => "Kobo"@,
            Place::CrossPoint => "CrossPoint"@,
        }
    }

    pub fn label(self) -> (r: &'static str)
        ensures
            r@ == self.name(),
    {
        match self {
            Place::Local => "Local",
            Place::Kobo => "Kobo",
            Place::CrossPoint => "CrossPoint",
        }
    }
}

/// One copy of a book, somewhere.
#[derive(Clone, Debug, PartialEq, Eq)]
pub struct Copy {
    pub place: Place,
    pub format: Format,
    /// For a PDF, what converting it to EPUB would be worth.
    pub verdict: Option<Verdict>,
    pub path: String,
    pub size: u64,
    /// The digest of its contents; empty when it could not be read.
    pub sha: String,
    pub resources: Option<String>,
    pub optimized: bool,
    /// A Kobo store book: the device database lists it, so its file is not ours
    /// to remove. Sideloaded books and everything elsewhere are.
    pub locked: bool,
    /// How this copy is recognized again.
    pub variants: Vec<(String, Option<String>)>,
}

#[verifier::ext_equal]
pub struct CopyView {
    pub place: Place,
    pub format: Format,
    pub verdict: Option<VerdictView>,
    pub path: Seq<char>,
    pub size: u64,
    pub sha: Seq<char>,
    pub resources: Option<Seq<char>>,
    pub optimized: bool,
    pub locked: bool,
    pub variants: Seq<(Seq<char>, Option<Seq<char>>)>,
}

impl View for Copy {
    type V = CopyView;

    open spec fn view(&self) -> CopyView {
        CopyView {
            place: self.place,
            format: self.format,
            verdict: self.verdict.deep_view(),
            path: self.path@,
            size: self.size,
            sha: self.sha@,
            resources: self.resources.deep_view(),
            optimized: self.optimized,
            locked: self.locked,
            variants: self.variants.deep_view(),
        }
    }
}

impl DeepView for Copy {
    type V = CopyView;

    open spec fn deep_view(&self) -> CopyView {
        self@
    }
}

impl Duplicate for Copy {
    fn duplicate(&self) -> (r: Copy) {
        Copy {
            place: self.place,
            format: self.format,
            verdict: self.verdict.duplicate(),
            path: self.path.duplicate(),
            size: self.size,
            sha: self.sha.duplicate(),
            resources: self.resources.duplicate(),
            optimized: self.optimized,
            locked: self.locked,
            variants: self.variants.duplicate(),
        }
    }
}

impl Same for Copy {
    fn same(&self, other: &Copy) -> (r: bool) {
        self.place == other.place && self.format == other.format && self.verdict.same(
            &other.verdict,
        ) && self.path.same(&other.path) && self.size == other.size && self.sha.same(&other.sha)
            && self.resources.same(&other.resources) && self.optimized == other.optimized
            && self.locked == other.locked && self.variants.same(&other.variants)
    }
}

/// A copy to try things out on: nothing was read for it, and what stands in for its
/// digest is made of its path, so that two copies are the same when their paths are.
pub fn copy(place: Place, path: &str, size: u64, locked: bool) -> (r: Copy)
    ensures
        r@ == (CopyView {
            place,
            format: match Format::claimed(path@) {
                Some(format) => format,
                None => Format::Epub,
            },
            verdict: None,
            path: path@,
            size,
            sha: "sha-of-"@ + path@,
            resources: None,
            optimized: false,
            locked,
            variants: Seq::empty(),
        }),
{
    let format = match Format::of(path) {
        Some(format) => format,
        None => Format::Epub,
    };
    let r = Copy {
        place,
        format,
        verdict: None,
        path: path.to_owned(),
        size,
        sha: text::concat("sha-of-", path),
        resources: None,
        optimized: false,
        locked,
        variants: Vec::new(),
    };
    proof {
        assert(r@.variants =~= Seq::<(Seq<char>, Option<Seq<char>>)>::empty());
    }
    r
}

#[derive(Clone, Debug, PartialEq)]
pub struct Book {
    pub title: String,
    pub author: String,
    /// The series this book belongs to, and its place in it, when it says.
    pub series: Option<String>,
    pub series_index: Option<Position>,
    pub copies: Vec<Copy>,
}

#[verifier::ext_equal]
pub struct BookView {
    pub title: Seq<char>,
    pub author: Seq<char>,
    pub series: Option<Seq<char>>,
    pub series_index: Option<PositionView>,
    pub copies: Seq<CopyView>,
}

impl View for Book {
    type V = BookView;

    open spec fn view(&self) -> BookView {
        BookView {
            title: self.title@,
            author: self.author@,
            series: self.series.deep_view(),
            series_index: self.series_index.deep_view(),
            copies: self.copies.deep_view(),
        }
    }
}

impl DeepView for Book {
    type V = BookView;

    open spec fn deep_view(&self) -> BookView {
        self@
    }
}

impl Duplicate for Book {
    fn duplicate(&self) -> (r: Book) {
        Book {
            title: self.title.duplicate(),
            author: self.author.duplicate(),
            series: self.series.duplicate(),
            series_index: self.series_index.duplicate(),
            copies: self.copies.duplicate(),
        }
    }
}

impl Same for Book {
    fn same(&self, other: &Book) -> (r: bool) {
        self.title.same(&other.title) && self.author.same(&other.author) && self.series.same(
            &other.series,
        ) && self.series_index.same(&other.series_index) && self.copies.same(&other.copies)
    }
}

impl CopyView {
    /// How far a copy is from being the one to work from: an original before a
    /// copy made for a device, and nearer places first.
    pub open spec fn distance(self) -> int {
        (if self.optimized {
            3int
        } else {
            0int
        }) + match self.place {
            Place::Local => 0int,
            Place::Kobo => 1int,
            Place::CrossPoint => 2int,
        }
    }

    /// Whether two copies stand in the same spot.
    pub open spec fn same_spot(self, other: CopyView) -> bool {
        self.place == other.place && self.path == other.path
    }

    /// Whether two copies are known to hold the same book.
    pub open spec fn matches(self, other: CopyView) -> bool {
        exists|i: int, j: int|
            0 <= i < self.variants.len() && 0 <= j < other.variants.len() && same_variant(
                #[trigger] self.variants[i],
                #[trigger] other.variants[j],
            )
    }
}

/// Whether two recognitions agree: by the whole file, or by what is inside it.
pub open spec fn same_variant(
    a: (Seq<char>, Option<Seq<char>>),
    b: (Seq<char>, Option<Seq<char>>),
) -> bool {
    a.0 == b.0 || (a.1 is Some && a.1 == b.1)
}

/// The position of the copy to work from: the nearest, and of several as near
/// the first.
pub open spec fn preferred_index(copies: Seq<CopyView>) -> int
    decreases copies.len(),
{
    if copies.len() <= 1 {
        copies.len() - 1
    } else {
        let so_far = preferred_index(copies.drop_last());
        if copies.last().distance() < copies[so_far].distance() {
            copies.len() - 1
        } else {
            so_far
        }
    }
}

pub open spec fn preferred_copy(copies: Seq<CopyView>) -> Option<CopyView> {
    if copies.len() == 0 {
        None
    } else {
        Some(copies[preferred_index(copies)])
    }
}

/// The preferred copy is one of the book's, none is nearer, and an original is
/// always preferred to a copy made for a device.
pub proof fn preferred_is_nearest(copies: Seq<CopyView>)
    requires
        copies.len() > 0,
    ensures
        0 <= preferred_index(copies) < copies.len(),
        forall|i: int|
            0 <= i < copies.len() ==> copies[preferred_index(copies)].distance()
                <= (#[trigger] copies[i]).distance(),
        forall|i: int|
            0 <= i < preferred_index(copies) ==> copies[preferred_index(copies)].distance()
                < (#[trigger] copies[i]).distance(),
        (exists|i: int| 0 <= i < copies.len() && !(#[trigger] copies[i]).optimized)
            ==> !copies[preferred_index(copies)].optimized,
    decreases copies.len(),
{
    if copies.len() > 1 {
        let rest = copies.drop_last();
        preferred_is_nearest(rest);
        let at = preferred_index(copies);
        assert forall|i: int| 0 <= i < copies.len() implies copies[at].distance() <= (
        #[trigger] copies[i]).distance() by {
            if i < rest.len() {
                assert(rest[i] == copies[i]);
            }
        }
        assert forall|i: int| 0 <= i < at implies copies[at].distance() < (
        #[trigger] copies[i]).distance() by {
            assert(rest[i] == copies[i]);
        }
    }
}

impl BookView {
    pub open spec fn has(self, place: Place) -> bool {
        exists|i: int| 0 <= i < self.copies.len() && (#[trigger] self.copies[i]).place == place
    }

    pub open spec fn preferred(self) -> Option<CopyView> {
        preferred_copy(self.copies)
    }
}

impl Copy {
    pub(crate) fn distance(&self) -> (r: u8)
        ensures
            r == self@.distance(),
    {
        let near: u8 = match self.place {
            Place::Local => 0,
            Place::Kobo => 1,
            Place::CrossPoint => 2,
        };
        if self.optimized {
            near + 3
        } else {
            near
        }
    }

    pub(crate) fn same_spot(&self, other: &Copy) -> (r: bool)
        ensures
            r == self@.same_spot(other@),
    {
        self.place == other.place && text::same(self.path.as_str(), other.path.as_str())
    }
}

impl Book {
    pub fn has(&self, place: Place) -> (r: bool)
        ensures
            r == self@.has(place),
    {
        for i in 0..self.copies.len()
            invariant
                forall|j: int| 0 <= j < i ==> (#[trigger] self@.copies[j]).place != place,
        {
            if self.copies[i].place == place {
                assert(self@.copies[i as int].place == place);
                return true;
            }
        }
        false
    }

    /// The copy to work from.
    pub fn preferred(&self) -> (r: Option<&Copy>)
        ensures
            match r {
                Some(copy) => self@.preferred() == Some(copy@),
                None => self@.preferred() is None,
            },
    {
        if self.copies.len() == 0 {
            return None;
        }
        let ghost all = self@.copies;
        let mut best: usize = 0;
        let mut i: usize = 1;
        proof {
            assert(preferred_index(all.take(1)) == 0);
        }
        while i < self.copies.len()
            invariant
                1 <= i <= self.copies@.len(),
                all == self@.copies,
                best < i,
                best == preferred_index(all.take(i as int)),
            decreases self.copies@.len() - i,
        {
            let ghost more = all.take(i as int + 1);
            proof {
                assert(more.drop_last() =~= all.take(i as int));
                assert(more.last() == all[i as int]);
                assert(more[best as int] == all[best as int]);
            }
            if self.copies[i].distance() < self.copies[best].distance() {
                best = i;
            }
            i += 1;
        }
        proof {
            assert(all.take(all.len() as int) =~= all);
        }
        Some(&self.copies[best])
    }
}

pub fn matches(a: &Copy, b: &Copy) -> (r: bool)
    ensures
        r == a@.matches(b@),
{
    for i in 0..a.variants.len()
        invariant
            forall|x: int, y: int|
                0 <= x < i && 0 <= y < b.variants@.len() ==> !same_variant(
                    #[trigger] a@.variants[x],
                    #[trigger] b@.variants[y],
                ),
    {
        for j in 0..b.variants.len()
            invariant
                i < a.variants@.len(),
                forall|x: int, y: int|
                    0 <= x < i && 0 <= y < b.variants@.len() ==> !same_variant(
                        #[trigger] a@.variants[x],
                        #[trigger] b@.variants[y],
                    ),
                forall|y: int|
                    0 <= y < j ==> !same_variant(
                        a@.variants[i as int],
                        #[trigger] b@.variants[y],
                    ),
        {
            let p = &a.variants[i];
            let q = &b.variants[j];
            let agree = p.1.is_some() && text::same_option(&p.1, &q.1);
            assert(a@.variants[i as int] == (p.0@, p.1.deep_view()));
            assert(b@.variants[j as int] == (q.0@, q.1.deep_view()));
            if text::same(p.0.as_str(), q.0.as_str()) || agree {
                assert(same_variant(a@.variants[i as int], b@.variants[j as int]));
                return true;
            }
        }
    }
    false
}

/// Whether two books are known to be the same one.
pub open spec fn related(a: BookView, b: BookView) -> bool {
    exists|i: int, j: int|
        0 <= i < a.copies.len() && 0 <= j < b.copies.len() && (#[trigger] a.copies[i]).matches(
            #[trigger] b.copies[j],
        )
}

/// Whether some copy stands in the same spot as this one.
pub open spec fn taken(copies: Seq<CopyView>, copy: CopyView) -> bool {
    exists|i: int| 0 <= i < copies.len() && (#[trigger] copies[i]).same_spot(copy)
}

/// A list of copies with more added behind it, leaving out each that stands
/// where one already does.
pub open spec fn joined(copies: Seq<CopyView>, more: Seq<CopyView>) -> Seq<CopyView>
    decreases more.len(),
{
    if more.len() == 0 {
        copies
    } else {
        let so_far = joined(copies, more.drop_last());
        if taken(so_far, more.last()) {
            so_far
        } else {
            so_far.push(more.last())
        }
    }
}

/// The first book from `from` on that is the same one, or the length.
pub open spec fn first_related(books: Seq<BookView>, book: BookView, from: int) -> int
    decreases books.len() - from,
{
    if from < 0 || from >= books.len() {
        books.len() as int
    } else if related(books[from], book) {
        from
    } else {
        first_related(books, book, from + 1)
    }
}

proof fn first_related_range(books: Seq<BookView>, book: BookView, from: int)
    requires
        0 <= from <= books.len(),
    ensures
        from <= first_related(books, book, from) <= books.len(),
        first_related(books, book, from) < books.len() ==> related(
            books[first_related(books, book, from)],
            book,
        ),
        forall|i: int|
            from <= i < first_related(books, book, from) ==> !related(#[trigger] books[i], book),
    decreases books.len() - from,
{
    if from < books.len() && !related(books[from], book) {
        first_related_range(books, book, from + 1);
    }
}

/// A library with one more book in it. Every book that is the same one is
/// taken out and its copies put behind the new book's, which comes last.
pub open spec fn merged(books: Seq<BookView>, book: BookView) -> Seq<BookView>
    decreases books.len(),
{
    let i = first_related(books, book, 0);
    if 0 <= i < books.len() {
        merged(
            books.remove(i),
            BookView { copies: joined(book.copies, books[i].copies), ..book },
        )
    } else {
        books.push(book)
    }
}

/// Whether a library holds a copy in this spot.
pub open spec fn holds_spot(books: Seq<BookView>, copy: CopyView) -> bool {
    exists|i: int| 0 <= i < books.len() && taken((#[trigger] books[i]).copies, copy)
}

proof fn joining_keeps_spots(copies: Seq<CopyView>, more: Seq<CopyView>, copy: CopyView)
    requires
        taken(copies, copy) || taken(more, copy),
    ensures
        taken(joined(copies, more), copy),
    decreases more.len(),
{
    if more.len() > 0 {
        let so_far = joined(copies, more.drop_last());
        if taken(copies, copy) || taken(more.drop_last(), copy) {
            joining_keeps_spots(copies, more.drop_last(), copy);
            let i = choose|i: int| 0 <= i < so_far.len() && (#[trigger] so_far[i]).same_spot(copy);
            assert(joined(copies, more)[i] == so_far[i]);
        } else {
            let i = choose|i: int| 0 <= i < more.len() && (#[trigger] more[i]).same_spot(copy);
            if i < more.len() - 1 {
                assert(more.drop_last()[i].same_spot(copy));
            }
            assert(more.last().same_spot(copy));
            if taken(so_far, more.last()) {
                let j = choose|j: int|
                    0 <= j < so_far.len() && (#[trigger] so_far[j]).same_spot(more.last());
                assert(joined(copies, more)[j].same_spot(copy));
            } else {
                assert(joined(copies, more)[so_far.len() as int].same_spot(copy));
            }
        }
    }
}

/// No copy is lost: whatever spot held a copy before a book is put into a
/// library, or holds one of that book, is still there afterwards.
pub proof fn merging_loses_no_copy(books: Seq<BookView>, book: BookView, copy: CopyView)
    requires
        holds_spot(books, copy) || taken(book.copies, copy),
    ensures
        holds_spot(merged(books, book), copy),
    decreases books.len(),
{
    let i = first_related(books, book, 0);
    first_related_range(books, book, 0);
    if 0 <= i < books.len() {
        let combined = BookView { copies: joined(book.copies, books[i].copies), ..book };
        let rest = books.remove(i);
        if taken(book.copies, copy) || taken(books[i].copies, copy) {
            joining_keeps_spots(book.copies, books[i].copies, copy);
        } else {
            let j = choose|j: int| 0 <= j < books.len() && taken((#[trigger] books[j]).copies, copy);
            if j < i {
                assert(rest[j] == books[j]);
            } else {
                assert(rest[j - 1] == books[j]);
            }
        }
        merging_loses_no_copy(rest, combined, copy);
    } else {
        let after = merged(books, book);
        if taken(book.copies, copy) {
            assert(after[books.len() as int] == book);
        } else {
            let j = choose|j: int| 0 <= j < books.len() && taken((#[trigger] books[j]).copies, copy);
            assert(after[j] == books[j]);
        }
    }
}

/// Whether no two books of a library are known to be the same one.
pub open spec fn apart(books: Seq<BookView>) -> bool {
    forall|i: int, j: int|
        0 <= i < books.len() && 0 <= j < books.len() && i != j ==> !related(
            #[trigger] books[i],
            #[trigger] books[j],
        )
}

proof fn relation_is_mutual(a: BookView, b: BookView)
    requires
        related(a, b),
    ensures
        related(b, a),
{
    let (i, j) = choose|i: int, j: int|
        0 <= i < a.copies.len() && 0 <= j < b.copies.len() && (#[trigger] a.copies[i]).matches(
            #[trigger] b.copies[j],
        );
    let x = a.copies[i];
    let y = b.copies[j];
    let (m, n) = choose|m: int, n: int|
        0 <= m < x.variants.len() && 0 <= n < y.variants.len() && same_variant(
            #[trigger] x.variants[m],
            #[trigger] y.variants[n],
        );
    assert(same_variant(y.variants[n], x.variants[m]));
    assert(y.matches(x));
}

/// Putting a book into a library keeps it one book to an entry: where no two
/// books were the same one, no two are afterwards.
pub proof fn merging_keeps_books_apart(books: Seq<BookView>, book: BookView)
    requires
        apart(books),
    ensures
        apart(merged(books, book)),
    decreases books.len(),
{
    let i = first_related(books, book, 0);
    first_related_range(books, book, 0);
    if 0 <= i < books.len() {
        let combined = BookView { copies: joined(book.copies, books[i].copies), ..book };
        let rest = books.remove(i);
        assert forall|x: int, y: int|
            0 <= x < rest.len() && 0 <= y < rest.len() && x != y implies !related(
            #[trigger] rest[x],
            #[trigger] rest[y],
        ) by {
            let u = if x < i {
                x
            } else {
                x + 1
            };
            let v = if y < i {
                y
            } else {
                y + 1
            };
            assert(rest[x] == books[u]);
            assert(rest[y] == books[v]);
        }
        merging_keeps_books_apart(rest, combined);
    } else {
        let after = merged(books, book);
        assert forall|x: int, y: int|
            0 <= x < after.len() && 0 <= y < after.len() && x != y implies !related(
            #[trigger] after[x],
            #[trigger] after[y],
        ) by {
            if x == books.len() {
                assert(after[y] == books[y]);
                if related(after[x], after[y]) {
                    relation_is_mutual(after[x], after[y]);
                }
            } else if y == books.len() {
                assert(after[x] == books[x]);
            } else {
                assert(after[x] == books[x]);
                assert(after[y] == books[y]);
            }
        }
    }
}

fn is_related(a: &Book, b: &Book) -> (r: bool)
    ensures
        r == related(a@, b@),
{
    for i in 0..a.copies.len()
        invariant
            forall|x: int, y: int|
                0 <= x < i && 0 <= y < b.copies@.len() ==> !(#[trigger] a@.copies[x]).matches(
                    #[trigger] b@.copies[y],
                ),
    {
        for j in 0..b.copies.len()
            invariant
                i < a.copies@.len(),
                forall|x: int, y: int|
                    0 <= x < i && 0 <= y < b.copies@.len() ==> !(#[trigger] a@.copies[x]).matches(
                        #[trigger] b@.copies[y],
                    ),
                forall|y: int|
                    0 <= y < j ==> !a@.copies[i as int].matches(#[trigger] b@.copies[y]),
        {
            assert(a@.copies[i as int] == a.copies@[i as int]@);
            assert(b@.copies[j as int] == b.copies@[j as int]@);
            if matches(&a.copies[i], &b.copies[j]) {
                return true;
            }
        }
    }
    false
}

fn is_taken(copies: &Vec<Copy>, copy: &Copy) -> (r: bool)
    ensures
        r == taken(copies.deep_view(), copy@),
{
    for i in 0..copies.len()
        invariant
            forall|j: int| 0 <= j < i ==> !(#[trigger] copies.deep_view()[j]).same_spot(copy@),
    {
        assert(copies.deep_view()[i as int] == copies@[i as int]@);
        if copies[i].same_spot(copy) {
            return true;
        }
    }
    false
}

fn join(copies: &mut Vec<Copy>, more: &Vec<Copy>)
    ensures
        final(copies).deep_view() == joined(old(copies).deep_view(), more.deep_view()),
{
    let ghost first = copies.deep_view();
    for i in 0..more.len()
        invariant
            copies.deep_view() == joined(first, more.deep_view().take(i as int)),
    {
        let ghost so_far = copies.deep_view();
        proof {
            assert(more.deep_view().take(i as int + 1).drop_last() =~= more.deep_view().take(
                i as int,
            ));
            assert(more.deep_view()[i as int] == more@[i as int]@);
        }
        if !is_taken(&*copies, &more[i]) {
            copies.push(more[i].duplicate());
            proof {
                assert(copies.deep_view() =~= so_far.push(more@[i as int]@));
            }
        }
    }
    proof {
        assert(more.deep_view().take(more@.len() as int) =~= more.deep_view());
    }
}

/// Put a book into a library: with every book already there that is the same
/// one, or by itself.
pub fn merge(books: &mut Vec<Book>, book: Book)
    ensures
        final(books).deep_view() == merged(old(books).deep_view(), book@),
{
    let ghost goal = merged(books.deep_view(), book@);
    let mut combined = book;
    let mut i: usize = 0;
    while i < books.len()
        invariant
            i <= books@.len(),
            merged(books.deep_view(), combined@) == goal,
            first_related(books.deep_view(), combined@, 0) == first_related(
                books.deep_view(),
                combined@,
                i as int,
            ),
        decreases books@.len(), books@.len() - i,
    {
        let ghost before = books.deep_view();
        assert(before[i as int] == books@[i as int]@);
        if is_related(&books[i], &combined) {
            let ghost was = combined@;
            let old = books.remove(i);
            join(&mut combined.copies, &old.copies);
            proof {
                assert(books.deep_view() =~= before.remove(i as int));
                assert(combined@ =~= (BookView {
                    copies: joined(was.copies, before[i as int].copies),
                    ..was
                }));
            }
            i = 0;
        } else {
            i += 1;
        }
    }
    let ghost before = books.deep_view();
    let ghost last = combined@;
    books.push(combined);
    proof {
        assert(books.deep_view() =~= before.push(last));
    }
}

/// "1 book", "4 books": counts that read as English wherever they are shown.
pub open spec fn counted(count: nat) -> Seq<char> {
    text::decimal(count) + " book"@ + (if count == 1 {
        Seq::empty()
    } else {
        "s"@
    })
}

pub fn books(count: usize) -> (r: String)
    ensures
        r@ == counted(count as nat),
{
    let n = text::number(count as u64);
    let one = text::concat(n.as_str(), " book");
    if count == 1 {
        proof {
            assert(one@ + Seq::<char>::empty() =~= one@);
        }
        one
    } else {
        text::concat(one.as_str(), "s")
    }
}

/// What a library is listed by.
pub open spec fn listing_key(book: BookView) -> order::SortKeyView {
    order::SortKeyView {
        late: false,
        major: text::lowercase(book.title),
        minor: book.author,
    }
}

pub open spec fn listed(books: Seq<BookView>) -> Seq<BookView> {
    order::sorted(books, order::by_key(|b: BookView| listing_key(b)))
}

/// Snapshots are ordered when they are emitted, not on every insertion.
pub fn sort(books: &mut Vec<Book>)
    ensures
        final(books).deep_view() == listed(old(books).deep_view()),
{
    let ghost all = books@;
    let mut keys: Vec<order::SortKey> = Vec::new();
    for i in 0..books.len()
        invariant
            books@ == all,
            keys@.len() == i,
            forall|j: int| 0 <= j < i ==> (#[trigger] keys@[j])@ == listing_key(all[j]@),
    {
        let key = order::SortKey {
            late: false,
            major: text::to_lowercase(books[i].title.as_str()),
            minor: books[i].author.duplicate(),
        };
        proof {
            assert(key@ =~= listing_key(all[i as int]@));
        }
        keys.push(key);
    }
    let ghost view = |b: Book| b.deep_view();
    let ghost key = |b: Book| listing_key(b@);
    let ghost shown = |b: BookView| listing_key(b);
    order::arrange(books, keys, Ghost(key));
    proof {
        order::sorted_mapped(all, order::by_key(key), view, order::by_key(shown));
        assert(books.deep_view() =~= order::mapped(books@, view));
        assert(old(books).deep_view() =~= order::mapped(all, view));
    }
}

#[derive(Clone, Debug, Default)]
pub struct Snapshot {
    pub books: Vec<Book>,
    pub status: Vec<(Place, String)>,
    pub acsm: Vec<String>,
}

#[verifier::ext_equal]
pub struct SnapshotView {
    pub books: Seq<BookView>,
    pub status: Seq<(Place, Seq<char>)>,
    pub acsm: Seq<Seq<char>>,
}

impl View for Snapshot {
    type V = SnapshotView;

    open spec fn view(&self) -> SnapshotView {
        SnapshotView {
            books: self.books.deep_view(),
            status: self.status.deep_view(),
            acsm: self.acsm.deep_view(),
        }
    }
}

impl DeepView for Snapshot {
    type V = SnapshotView;

    open spec fn deep_view(&self) -> SnapshotView {
        self@
    }
}

impl Duplicate for Snapshot {
    fn duplicate(&self) -> (r: Snapshot) {
        Snapshot {
            books: self.books.duplicate(),
            status: self.status.duplicate(),
            acsm: self.acsm.duplicate(),
        }
    }
}

impl SnapshotView {
    pub open spec fn empty() -> SnapshotView {
        SnapshotView { books: Seq::empty(), status: Seq::empty(), acsm: Seq::empty() }
    }

    /// Whether a place has been read to the end.
    pub open spec fn ready(self, place: Place) -> bool {
        exists|i: int|
            0 <= i < self.status.len() && (#[trigger] self.status[i]).0 == place && text::starts(
                self.status[i].1,
                "Ready"@,
            )
    }
}

impl Snapshot {
    pub fn empty() -> (r: Snapshot)
        ensures
            r@ == SnapshotView::empty(),
    {
        let r = Snapshot { books: Vec::new(), status: Vec::new(), acsm: Vec::new() };
        proof {
            assert(r@ =~= SnapshotView::empty());
        }
        r
    }

    pub fn ready(&self, place: Place) -> (r: bool)
        ensures
            r == self@.ready(place),
    {
        for i in 0..self.status.len()
            invariant
                forall|j: int|
                    0 <= j < i ==> !((#[trigger] self@.status[j]).0 == place && text::starts(
                        self@.status[j].1,
                        "Ready"@,
                    )),
        {
            assert(self@.status[i as int] == (self.status@[i as int].0, self.status@[i as int].1@));
            if self.status[i].0 == place && text::starts_with(self.status[i].1.as_str(), "Ready") {
                return true;
            }
        }
        false
    }
}

} // verus!
