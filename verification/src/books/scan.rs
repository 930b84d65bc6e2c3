//! Putting together what the locations report, and deciding what in a local
//! folder is a book.
//!
//! Independent locations complete separately; an unavailable device never
//! erases books found elsewhere. No discovery step writes to a library or
//! device.
use super::{counted, listed, merge, merged, read, sort, Book, BookView, Place, Snapshot, SnapshotView};
use crate::books;
use crate::format::Format;
use crate::inventory::{FileEntry, Folder, FolderView, Kind};
use crate::paths;
use crate::text;
use crate::values::{result_view, Duplicate};
use vstd::hash_set::StringHashSet;
use vstd::prelude::*;

pub mod laws;

verus! {

broadcast use vstd::string::group_string_axioms;

/// What a location reports while it works, rather than only when it finishes.
#[derive(Clone, Debug)]
pub enum Update {
    /// A book, and whether it only stands for one that could not be read.
    Book(Place, Box<Book>, bool),
    Acsm(String),
    Unreadable(Place),
    /// The end, and what went wrong if anything did.
    Finished(Place, Option<String>),
}

pub enum UpdateView {
    Book(Place, BookView, bool),
    Acsm(Seq<char>),
    Unreadable(Place),
    Finished(Place, Option<Seq<char>>),
}

impl View for Update {
    type V = UpdateView;

    open spec fn view(&self) -> UpdateView {
        match self {
            Update::Book(place, book, unreadable) => UpdateView::Book(*place, (**book)@, *unreadable),
            Update::Acsm(path) => UpdateView::Acsm(path@),
            Update::Unreadable(place) => UpdateView::Unreadable(*place),
            Update::Finished(place, problem) => UpdateView::Finished(*place, problem.deep_view()),
        }
    }
}

/// The report of a book.
pub fn book_update(place: Place, book: Book) -> (r: Update)
    ensures
        r@ == UpdateView::Book(place, book@, read::is_warning(book@)),
{
    let unreadable = read::never_hashed(&book);
    Update::Book(place, Box::new(book), unreadable)
}

/// How many books a place has reported, and how many could not be read.
#[derive(Clone, Copy, Debug, PartialEq, Eq, Structural)]
pub struct Count {
    pub books: usize,
    pub unreadable: usize,
}

/// A scan under way.
#[derive(Clone, Debug)]
pub struct Scan {
    pub books: Vec<Book>,
    pub acsm: Vec<String>,
    pub local: String,
    pub kobo: String,
    pub crosspoint: String,
    pub local_count: Count,
    pub kobo_count: Count,
    pub crosspoint_count: Count,
    /// How many books the last published catalogue held.
    pub shown: usize,
}

impl Scan {
    pub open spec fn words(self, place: Place) -> Seq<char> {
        match place {
            Place::Local => self.local@,
            Place::Kobo => self.kobo@,
            Place::CrossPoint => self.crosspoint@,
        }
    }

    pub open spec fn count(self, place: Place) -> Count {
        match place {
            Place::Local => self.local_count,
            Place::Kobo => self.kobo_count,
            Place::CrossPoint => self.crosspoint_count,
        }
    }

    pub open spec fn found(self) -> Seq<BookView> {
        self.books.deep_view()
    }

    /// The catalogue as it stands, in order.
    pub open spec fn catalogue(self) -> SnapshotView {
        SnapshotView {
            books: listed(self.found()),
            status: seq![
                (Place::Local, self.local@),
                (Place::Kobo, self.kobo@),
                (Place::CrossPoint, self.crosspoint@),
            ],
            acsm: self.acsm.deep_view(),
        }
    }

    /// What a report changes: the books, the requests waiting, and what is said
    /// and counted of the place it is from. Nothing else.
    pub open spec fn took(self, update: UpdateView, after: Scan) -> bool {
        &&& after.found() == match update {
            UpdateView::Book(_, book, _) => merged(self.found(), book),
            _ => self.found(),
        }
        &&& after.acsm.deep_view() == match update {
            UpdateView::Acsm(path) => self.acsm.deep_view().push(path),
            _ => self.acsm.deep_view(),
        }
        &&& after.shown == self.shown
        &&& forall|place: Place| #[trigger] after.count(place) == self.counted(update, place)
        &&& forall|place: Place| #[trigger] after.words(place) == self.said(update, place)
    }

    pub open spec fn counted(self, update: UpdateView, place: Place) -> Count {
        let count = self.count(place);
        match update {
            UpdateView::Book(from, _, unreadable) if from == place => Count {
                books: (count.books + 1) as usize,
                unreadable: (count.unreadable + if unreadable {
                    1int
                } else {
                    0
                }) as usize,
            },
            UpdateView::Unreadable(from) if from == place => Count {
                unreadable: (count.unreadable + 1) as usize,
                ..count
            },
            _ => count,
        }
    }

    pub open spec fn said(self, update: UpdateView, place: Place) -> Seq<char> {
        match update {
            UpdateView::Book(from, _, _) if from == place => "Checking ("@ + counted(
                (self.count(place).books + 1) as nat,
            ) + ")"@,
            UpdateView::Finished(from, problem) if from == place => match problem {
                Some(words) => "Unavailable: "@ + words,
                None => "Ready ("@ + counted(self.count(place).books as nat) + ", "@
                    + text::decimal(self.count(place).unreadable as nat) + " unreadable)"@,
            },
            _ => self.words(place),
        }
    }

    /// Whether there is room to count one more of everything.
    pub open spec fn countable(self) -> bool {
        forall|place: Place|
            (#[trigger] self.count(place)).books < usize::MAX && self.count(place).unreadable
                < usize::MAX
    }

    /// A scan that has only just begun.
    pub fn new() -> (r: Scan)
        ensures
            r.found() == Seq::<BookView>::empty(),
            r.acsm.deep_view() == Seq::<Seq<char>>::empty(),
            r.shown == 0,
            forall|place: Place|
                #[trigger] r.count(place) == (Count { books: 0, unreadable: 0 }),
            forall|place: Place| #[trigger] r.words(place) == "Checking"@,
            r.countable(),
    {
        let nothing = Count { books: 0, unreadable: 0 };
        let r = Scan {
            books: Vec::new(),
            acsm: Vec::new(),
            local: "Checking".to_owned(),
            kobo: "Checking".to_owned(),
            crosspoint: "Checking".to_owned(),
            local_count: nothing,
            kobo_count: nothing,
            crosspoint_count: nothing,
            shown: 0,
        };
        proof {
            assert(r.found() =~= Seq::<BookView>::empty());
            assert(r.acsm.deep_view() =~= Seq::<Seq<char>>::empty());
        }
        r
    }

    fn get(&self, place: Place) -> (r: Count)
        ensures
            r == self.count(place),
    {
        match place {
            Place::Local => self.local_count,
            Place::Kobo => self.kobo_count,
            Place::CrossPoint => self.crosspoint_count,
        }
    }

    fn put(&mut self, place: Place, count: Count)
        ensures
            final(self).found() == old(self).found(),
            final(self).acsm == old(self).acsm,
            final(self).shown == old(self).shown,
            forall|p: Place| #[trigger]
                final(self).count(p) == if p == place {
                    count
                } else {
                    old(self).count(p)
                },
            forall|p: Place| #[trigger] final(self).words(p) == old(self).words(p),
    {
        match place {
            Place::Local => {
                self.local_count = count;
            },
            Place::Kobo => {
                self.kobo_count = count;
            },
            Place::CrossPoint => {
                self.crosspoint_count = count;
            },
        }
    }

    fn say(&mut self, place: Place, words: String)
        ensures
            final(self).found() == old(self).found(),
            final(self).acsm == old(self).acsm,
            final(self).shown == old(self).shown,
            forall|p: Place| #[trigger] final(self).count(p) == old(self).count(p),
            forall|p: Place| #[trigger]
                final(self).words(p) == if p == place {
                    words@
                } else {
                    old(self).words(p)
                },
    {
        match place {
            Place::Local => {
                self.local = words;
            },
            Place::Kobo => {
                self.kobo = words;
            },
            Place::CrossPoint => {
                self.crosspoint = words;
            },
        }
    }

    /// Take in what a location reports. Says whether the location is finished.
    pub fn take(&mut self, update: Update) -> (r: bool)
        requires
            old(self).countable(),
        ensures
            old(self).took(update@, *final(self)),
            r == (update@ is Finished),
    {
        let ghost before = *self;
        let ghost told = update@;
        match update {
            Update::Book(place, book, unreadable) => {
                let count = self.get(place);
                assert(before.count(place).books < usize::MAX);
                let more = Count {
                    books: count.books + 1,
                    unreadable: if unreadable {
                        count.unreadable + 1
                    } else {
                        count.unreadable
                    },
                };
                self.put(place, more);
                let words = text::concat3("Checking (", books::books(more.books).as_str(), ")");
                self.say(place, words);
                let ghost last = *self;
                merge(&mut self.books, *book);
                proof {
                    assert forall|p: Place| #[trigger] self.count(p) == before.counted(told, p) by {
                        assert(last.count(p) == self.count(p));
                    }
                    assert forall|p: Place| #[trigger] self.words(p) == before.said(told, p) by {
                        assert(last.words(p) == self.words(p));
                    }
                }
                false
            },
            Update::Acsm(path) => {
                let ghost held = self.acsm.deep_view();
                let ghost shown = path@;
                self.acsm.push(path);
                proof {
                    assert(self.acsm.deep_view() =~= held.push(shown));
                    assert forall|p: Place| #[trigger] self.count(p) == before.counted(told, p) by {
                        assert(before.count(p) == self.count(p));
                    }
                    assert forall|p: Place| #[trigger] self.words(p) == before.said(told, p) by {
                        assert(before.words(p) == self.words(p));
                    }
                }
                false
            },
            Update::Unreadable(place) => {
                let count = self.get(place);
                assert(before.count(place).unreadable < usize::MAX);
                self.put(place, Count { unreadable: count.unreadable + 1, ..count });
                false
            },
            Update::Finished(place, problem) => {
                let count = self.get(place);
                let words = match problem {
                    Some(words) => text::concat("Unavailable: ", words.as_str()),
                    None => text::concat5(
                        "Ready (",
                        books::books(count.books).as_str(),
                        ", ",
                        text::number(count.unreadable as u64).as_str(),
                        " unreadable)",
                    ),
                };
                self.say(place, words);
                true
            },
        }
    }

    /// Whether the catalogue is to be published now. A location's own result is
    /// always published. Between those, the first books appear at once and the
    /// rest at a readable rate.
    pub open spec fn publishes(self, finished: bool, due: bool) -> bool {
        finished || due || (self.shown == 0 && self.found().len() > 0)
    }

    /// The catalogue, when it is to be published now.
    pub fn publish(&mut self, finished: bool, due: bool) -> (r: Option<Snapshot>)
        ensures
            final(self).found() == if old(self).publishes(finished, due) {
                listed(old(self).found())
            } else {
                old(self).found()
            },
            final(self).shown == if old(self).publishes(finished, due) {
                final(self).found().len() as usize
            } else {
                old(self).shown
            },
            final(self).acsm == old(self).acsm,
            forall|p: Place| #[trigger] final(self).count(p) == old(self).count(p),
            forall|p: Place| #[trigger] final(self).words(p) == old(self).words(p),
            match r {
                Some(snapshot) => old(self).publishes(finished, due) && snapshot@
                    == old(self).catalogue(),
                None => !old(self).publishes(finished, due),
            },
    {
        if finished || due || (self.shown == 0 && self.books.len() > 0) {
            sort(&mut self.books);
            self.shown = self.books.len();
            Some(self.snapshot())
        } else {
            None
        }
    }

    fn snapshot(&self) -> (r: Snapshot)
        ensures
            r@.books == self.found(),
            r@.status == seq![
                (Place::Local, self.local@),
                (Place::Kobo, self.kobo@),
                (Place::CrossPoint, self.crosspoint@),
            ],
            r@.acsm == self.acsm.deep_view(),
    {
        let mut status: Vec<(Place, String)> = Vec::new();
        status.push((Place::Local, self.local.duplicate()));
        status.push((Place::Kobo, self.kobo.duplicate()));
        status.push((Place::CrossPoint, self.crosspoint.duplicate()));
        proof {
            assert(status.deep_view() =~= seq![
                (Place::Local, self.local@),
                (Place::Kobo, self.kobo@),
                (Place::CrossPoint, self.crosspoint@),
            ]);
        }
        Snapshot { books: self.books.duplicate(), status, acsm: self.acsm.duplicate() }
    }

    /// The catalogue once every location is done.
    pub fn finish(self) -> (r: Snapshot)
        ensures
            r@ == self.catalogue(),
    {
        let mut scan = self;
        sort(&mut scan.books);
        let r = scan.snapshot();
        proof {
            assert(r@ =~= self.catalogue());
        }
        r
    }
}

/// An unavailable device erases nothing: when a location ends, well or badly,
/// the books and requests found so far stay, and so does everything known of
/// the other locations.
pub proof fn a_failing_place_erases_nothing(
    scan: Scan,
    place: Place,
    problem: Option<Seq<char>>,
    after: Scan,
    other: Place,
)
    requires
        scan.took(UpdateView::Finished(place, problem), after),
    ensures
        after.found() == scan.found(),
        after.acsm.deep_view() == scan.acsm.deep_view(),
        other != place ==> after.words(other) == scan.words(other) && after.count(other)
            == scan.count(other),
{
    assert(after.words(other) == scan.said(UpdateView::Finished(place, problem), other));
    assert(after.count(other) == scan.counted(UpdateView::Finished(place, problem), other));
}

/// How many entries a walk of the local folders looks at.
pub const MAX_VISITED: u64 = 20000;

/// How deep a walk of the local folders goes.
pub const MAX_DEPTH: u64 = 32;

/// What is to be done about an entry of a folder.
#[derive(Clone, Copy, Debug, PartialEq, Eq, Structural)]
pub enum Visit {
    /// Pass it over.
    Skip,
    /// It is a file: find its one true path, and say what it is.
    File,
}

impl DeepView for Visit {
    type V = Visit;

    open spec fn deep_view(&self) -> Visit {
        *self
    }
}

/// What a file turned out to be.
#[derive(Clone, Copy, Debug, PartialEq, Eq, Structural)]
pub enum Find {
    Nothing,
    /// A request still waiting to be fulfilled.
    Acsm,
    Book,
}

/// A walk of the local folders. Walking a tree is cheap; reading and hashing
/// books is not. The walk finishes first, then the books are read.
pub struct Walk {
    pub pending: Vec<Folder>,
    pub visited: u64,
    pub seen: StringHashSet,
    pub books: Vec<String>,
}

/// Whether a path's last extension is that of a request.
pub open spec fn is_request(path: Seq<char>) -> bool {
    extension(path) == "acsm"@ || extension(path) == "ascm"@
}

/// What stands behind the last dot of a file's name, in small letters; nothing
/// for a name without one, or with one only at its start.
pub open spec fn extension(path: Seq<char>) -> Seq<char> {
    match paths::name_of(path) {
        None => Seq::empty(),
        Some(name) => if text::last_index(name, '.') > 0 {
            text::ascii_lowered(name.skip(text::last_index(name, '.') + 1))
        } else {
            Seq::empty()
        },
    }
}

fn extension_of(path: &str) -> (r: String)
    ensures
        r@ == extension(path@),
{
    if let Some(name) = paths::file_name(path) {
        let c = text::chars(name.as_str());
        let length: usize = c.len();
        if let Some(i) = text::find_last(c.as_slice(), '.') {
            if i > 0 {
                let rest = text::slice(c.as_slice(), i + 1, length);
                proof {
                    assert(rest@ =~= name@.skip(i + 1));
                }
                return text::to_ascii_lowercase(rest.as_str());
            }
        }
    }
    let none = String::new();
    assert(none@ =~= Seq::<char>::empty());
    none
}

/// Whether a request has been fulfilled: it is then moved into a folder of its
/// own beside where it was, and is spent, not pending.
pub open spec fn archived(path: Seq<char>) -> bool {
    paths::name_of(paths::parent_of(path)) == Some("archive"@)
}

/// What a file is, seen for the first time.
pub open spec fn found_as(path: Seq<char>) -> Find {
    if is_request(path) {
        if archived(path) {
            Find::Nothing
        } else {
            Find::Acsm
        }
    } else if extension(path) == Format::Epub.suffix() || extension(path) == Format::Pdf.suffix()
        || extension(path) == Format::Cbz.suffix() {
        Find::Book
    } else {
        Find::Nothing
    }
}

/// Whether an entry is passed over: a link, and what is hidden.
pub open spec fn ignored(name: Seq<char>, kind: Kind) -> bool {
    kind == Kind::Link || kind == Kind::Other || (name.len() > 0 && name[0] == '.')
}

impl Walk {
    pub fn new() -> (r: Walk)
        ensures
            r.pending.deep_view() == Seq::<FolderView>::empty(),
            r.visited == 0,
            r.seen@ == Set::<Seq<char>>::empty(),
            r.books.deep_view() == Seq::<Seq<char>>::empty(),
    {
        let r = Walk {
            pending: Vec::new(),
            visited: 0,
            seen: StringHashSet::new(),
            books: Vec::new(),
        };
        proof {
            assert(r.pending.deep_view() =~= Seq::<FolderView>::empty());
            assert(r.books.deep_view() =~= Seq::<Seq<char>>::empty());
        }
        r
    }

    /// Begin with a folder.
    pub fn enter(&mut self, root: &str)
        ensures
            final(self).pending.deep_view() == old(self).pending.deep_view().push(
                (FolderView { path: root@, depth: 0 }),
            ),
            final(self).visited == old(self).visited,
            final(self).seen == old(self).seen,
            final(self).books == old(self).books,
    {
        let ghost before = self.pending.deep_view();
        let folder = Folder { path: root.to_owned(), depth: 0 };
        let ghost shown = folder@;
        self.pending.push(folder);
        proof {
            assert(self.pending.deep_view() =~= before.push(shown));
        }
    }

    /// The folder to read next, the last one found first.
    pub fn next(&mut self) -> (r: Result<Option<Folder>, String>)
        ensures
            final(self).visited == old(self).visited,
            final(self).seen == old(self).seen,
            final(self).books == old(self).books,
            ({
                let pending = old(self).pending.deep_view();
                if pending.len() == 0 {
                    final(self).pending.deep_view() == pending && r == Ok::<
                        Option<Folder>,
                        String,
                    >(None)
                } else {
                    &&& final(self).pending.deep_view() == pending.drop_last()
                    &&& result_view(r) == if pending.last().depth <= MAX_DEPTH {
                        Ok(Some(pending.last()))
                    } else {
                        Err("Local tree exceeds 32 levels"@)
                    }
                }
            }),
    {
        let ghost before = self.pending.deep_view();
        match self.pending.pop() {
            None => Ok(None),
            Some(folder) => {
                proof {
                    assert(self.pending.deep_view() =~= before.drop_last());
                    assert(before.last() == folder@);
                }
                if folder.depth <= MAX_DEPTH {
                    Ok(Some(folder))
                } else {
                    Err("Local tree exceeds 32 levels".to_owned())
                }
            },
        }
    }

    /// Look at an entry of a folder.
    pub fn visit(&mut self, folder: &Folder, name: &str, kind: Kind) -> (r: Result<Visit, String>)
        requires
            folder.depth <= MAX_DEPTH,
            old(self).visited <= MAX_VISITED,
        ensures
            final(self).visited == old(self).visited + 1,
            final(self).seen == old(self).seen,
            final(self).books == old(self).books,
            final(self).pending.deep_view() == if old(self).visited < MAX_VISITED && !ignored(
                name@,
                kind,
            ) && kind == Kind::Folder {
                old(self).pending.deep_view().push(
                    (FolderView {
                        path: paths::below(folder@.path, name@),
                        depth: (folder.depth + 1) as u64,
                    }),
                )
            } else {
                old(self).pending.deep_view()
            },
            result_view(r) == if old(self).visited >= MAX_VISITED {
                Err("Local tree exceeds 20000 entries; choose a narrower --browse folder"@)
            } else if ignored(name@, kind) || kind == Kind::Folder {
                Ok(Visit::Skip)
            } else {
                Ok(Visit::File)
            },
    {
        self.visited += 1;
        if self.visited > MAX_VISITED {
            return Err(
                "Local tree exceeds 20000 entries; choose a narrower --browse folder".to_owned(),
            );
        }
        let c = text::chars(name);
        if kind == Kind::Link || kind == Kind::Other || (c.len() > 0 && c[0] == '.') {
            return Ok(Visit::Skip);
        }
        if kind == Kind::Folder {
            let ghost before = self.pending.deep_view();
            let further = Folder {
                path: paths::resolve(folder.path.as_str(), name),
                depth: folder.depth + 1,
            };
            let ghost shown = further@;
            self.pending.push(further);
            proof {
                assert(self.pending.deep_view() =~= before.push(shown));
            }
            return Ok(Visit::Skip);
        }
        Ok(Visit::File)
    }

    /// Say what the file at a path is. The same file reached twice is one file.
    pub fn file(&mut self, path: String) -> (r: Find)
        ensures
            final(self).visited == old(self).visited,
            final(self).pending == old(self).pending,
            final(self).seen@ == old(self).seen@.insert(path@),
            r == if old(self).seen@.contains(path@) {
                Find::Nothing
            } else {
                found_as(path@)
            },
            final(self).books.deep_view() == if r == Find::Book {
                old(self).books.deep_view().push(path@)
            } else {
                old(self).books.deep_view()
            },
    {
        if !self.seen.insert(path.duplicate()) {
            return Find::Nothing;
        }
        let ext = extension_of(path.as_str());
        let ext = ext.as_str();
        if text::same(ext, "acsm") || text::same(ext, "ascm") {
            let parent = paths::parent(path.as_str());
            let spent = match paths::file_name(parent.as_str()) {
                Some(name) => text::same(name.as_str(), "archive"),
                None => false,
            };
            return if spent {
                Find::Nothing
            } else {
                Find::Acsm
            };
        }
        if text::same(ext, "epub") || text::same(ext, "pdf") || text::same(ext, "cbz") {
            let ghost before = self.books.deep_view();
            let ghost shown = path@;
            self.books.push(path);
            proof {
                assert(self.books.deep_view() =~= before.push(shown));
            }
            return Find::Book;
        }
        Find::Nothing
    }
}

/// The most that reading books may hold at once: enough for several ordinary
/// books, and a ceiling a single very large one cannot exceed.
pub const BUDGET: u64 = 402653184;

/// How much reading a book holds: its bytes, its prepared copy and that copy's
/// output at once. A book larger than the whole budget waits for exclusive use
/// of it rather than waiting for ever.
pub open spec fn claimed(size: u64) -> u64 {
    if size == 0 {
        1
    } else if 3 * size > BUDGET {
        BUDGET
    } else {
        (3 * size) as u64
    }
}

pub fn claim(size: u64) -> (r: u64)
    ensures
        r == claimed(size),
        1 <= r <= BUDGET,
{
    if size == 0 {
        1
    } else if size > BUDGET / 3 {
        BUDGET
    } else {
        size * 3
    }
}

pub open spec fn least(a: int, b: int) -> int {
    if a < b {
        a
    } else {
        b
    }
}

/// How many books are read at once.
pub fn workers(parallel: usize, books: usize) -> (r: usize)
    requires
        parallel >= 1,
    ensures
        r == least(
            least(parallel as int, 8),
            if books == 0 {
                1
            } else {
                books as int
            },
        ),
{
    let most: usize = if parallel < 8 {
        parallel
    } else {
        8
    };
    let wanted: usize = if books == 0 {
        1
    } else {
        books
    };
    if most < wanted {
        most
    } else {
        wanted
    }
}

/// Where the local folders are: the one that is browsed, and the one that
/// imports go to when it is another and is there.
pub open spec fn local_roots(local: Seq<char>, output: Seq<char>, there: bool) -> Seq<Seq<char>> {
    if output != local && there {
        seq![local, output]
    } else {
        seq![local]
    }
}

pub fn roots(local: &str, output: &str, there: bool) -> (r: Vec<String>)
    ensures
        r.deep_view() == local_roots(local@, output@, there),
{
    let mut out: Vec<String> = Vec::new();
    out.push(local.to_owned());
    proof {
        assert(out.deep_view() =~= seq![local@]);
    }
    if !text::same(output, local) && there {
        out.push(output.to_owned());
        proof {
            assert(out.deep_view() =~= seq![local@, output@]);
        }
    }
    out
}

/// What tells one device apart from another: paths and sizes alone could
/// otherwise be shared by two.
pub open spec fn scope_of(place: Place, device: Seq<char>, detail: Seq<char>) -> Seq<char> {
    place.name() + "\u{1}"@ + device + "\u{1}"@ + detail
}

pub fn scope(place: Place, device: &str, detail: &str) -> (r: String)
    ensures
        r@ == scope_of(place, device@, detail@),
{
    text::concat5(place.label(), "\u{1}", device, "\u{1}", detail)
}

/// What stands for a preview: a known state, not a failed read.
pub fn preview(id: String, title: &str) -> (r: Book)
    ensures
        r@ == read::unreadable_book(
            Place::Kobo,
            Format::Epub,
            id@,
            "[Preview] "@ + title@,
            "Download the full book on Kobo first"@,
        ),
{
    read::unreadable(
        Place::Kobo,
        Format::Epub,
        id,
        text::concat("[Preview] ", title),
        "Download the full book on Kobo first",
    )
}

/// What is made of an entry of the Kobo.
#[derive(Clone, Copy, Debug, PartialEq, Eq, Structural)]
pub enum Entry {
    /// A preview that is not asked for.
    Hidden,
    /// A preview, shown as one.
    Preview,
    /// A book to read.
    Book,
}

pub fn on_kobo(preview: bool, show_previews: bool) -> (r: Entry)
    ensures
        r == match (preview, show_previews) {
            (false, _) => Entry::Book,
            (true, true) => Entry::Preview,
            (true, false) => Entry::Hidden,
        },
{
    if !preview {
        Entry::Book
    } else if show_previews {
        Entry::Preview
    } else {
        Entry::Hidden
    }
}

/// The format of a file that counts as a book on the reader: its library lists
/// only EPUB, so anything else left there is a file, not a book.
pub fn on_reader(file: &FileEntry) -> (r: Option<Format>)
    ensures
        r == if !file.directory && Format::claimed(file.path@) == Some(Format::Epub) {
            Some(Format::Epub)
        } else {
            None
        },
{
    if file.directory {
        return None;
    }
    match Format::of(file.path.as_str()) {
        Some(format) => if format.shown_on_reader() {
            Some(format)
        } else {
            None
        },
        None => None,
    }
}

/// What a file of the reader is called that could not be read.
pub fn reader_title(path: &str) -> (r: String)
    ensures
        r@ == paths::split(path@, '/').last(),
{
    let pieces = paths::pieces(path, '/');
    proof {
        paths::split_has_a_piece(path@, '/');
        assert(pieces.deep_view().last() == pieces@.last()@);
    }
    pieces[pieces.len() - 1].duplicate()
}

} // verus!
