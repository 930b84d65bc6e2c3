//! Additive Kobo sync: inspect first, then explicitly apply missing books.
use crate::crosspoint::send::begins;
use crate::epub;
use crate::format::Format;
use crate::inventory::{
    identified, matching_at, path_at, Destination, ExistingView, Identity, IdentityView,
    Inventory,
};
use crate::kobo;
use crate::kobo::BookView;
use crate::order;
use crate::paths;
use crate::text;
use crate::values::{holds, result_view, Duplicate};
use vstd::prelude::*;

pub mod laws;
pub mod step;

verus! {

broadcast use vstd::string::group_string_axioms;

#[derive(Clone, Debug, PartialEq, Eq)]
pub struct Options {
    pub output: String,
    pub serial: Option<String>,
    pub apply: bool,
    pub optimize: bool,
    pub organized: bool,
    pub repair: bool,
    /// Books to leave out, by their identifiers.
    pub exclude: Vec<String>,
}

#[verifier::ext_equal]
pub struct OptionsView {
    pub output: Seq<char>,
    pub serial: Option<Seq<char>>,
    pub apply: bool,
    pub optimize: bool,
    pub organized: bool,
    pub repair: bool,
    pub exclude: Seq<Seq<char>>,
}

impl View for Options {
    type V = OptionsView;

    open spec fn view(&self) -> OptionsView {
        OptionsView {
            output: self.output@,
            serial: self.serial.deep_view(),
            apply: self.apply,
            optimize: self.optimize,
            organized: self.organized,
            repair: self.repair,
            exclude: self.exclude.deep_view(),
        }
    }
}

#[derive(Clone, Copy, Debug, PartialEq, Eq, Structural)]
pub enum Status {
    Present,
    Duplicate,
    Transfer,
    Repair,
    Sent,
    Repaired,
    Failed,
}

#[derive(Clone, Debug, PartialEq, Eq)]
pub struct Row {
    pub id: String,
    pub title: String,
    pub status: Status,
    pub path: Option<String>,
    pub detail: String,
}

#[verifier::ext_equal]
pub struct RowView {
    pub id: Seq<char>,
    pub title: Seq<char>,
    pub status: Status,
    pub path: Option<Seq<char>>,
    pub detail: Seq<char>,
}

impl View for Row {
    type V = RowView;

    open spec fn view(&self) -> RowView {
        RowView {
            id: self.id@,
            title: self.title@,
            status: self.status,
            path: self.path.deep_view(),
            detail: self.detail@,
        }
    }
}

impl DeepView for Row {
    type V = RowView;

    open spec fn deep_view(&self) -> RowView {
        self@
    }
}

#[derive(Clone, Debug, PartialEq, Eq)]
pub struct Report {
    pub apply: bool,
    pub previews_skipped: usize,
    pub excluded: usize,
    pub books: Vec<Row>,
}

/// How many rows say that a book failed.
pub open spec fn failed(rows: Seq<RowView>) -> nat
    decreases rows.len(),
{
    if rows.len() == 0 {
        0
    } else {
        failed(rows.drop_last()) + if rows.last().status == Status::Failed {
            1nat
        } else {
            0
        }
    }
}

impl Report {
    pub fn failures(&self) -> (r: usize)
        ensures
            r == failed(self.books.deep_view()),
    {
        let ghost all = self.books.deep_view();
        let mut n: usize = 0;
        proof {
            assert(all.take(0) =~= Seq::<RowView>::empty());
        }
        for i in 0..self.books.len()
            invariant
                all == self.books.deep_view(),
                n <= i,
                n == failed(all.take(i as int)),
        {
            proof {
                assert(all.take(i as int + 1).drop_last() =~= all.take(i as int));
                assert(all[i as int] == self.books@[i as int]@);
            }
            if self.books[i].status == Status::Failed {
                n += 1;
            }
        }
        proof {
            assert(all.take(all.len() as int) =~= all);
        }
        n
    }
}

/// A copy that is planned or was transferred in this run: how the book is
/// recognized before and after it is made ready, and where it goes. A failed
/// job is never one.
#[derive(Clone, Debug, PartialEq, Eq)]
pub struct Planned {
    pub original: Identity,
    pub prepared: Identity,
    pub path: String,
}

#[verifier::ext_equal]
pub struct PlannedView {
    pub original: IdentityView,
    pub prepared: IdentityView,
    pub path: Seq<char>,
}

impl View for Planned {
    type V = PlannedView;

    open spec fn view(&self) -> PlannedView {
        PlannedView { original: self.original@, prepared: self.prepared@, path: self.path@ }
    }
}

impl DeepView for Planned {
    type V = PlannedView;

    open spec fn deep_view(&self) -> PlannedView {
        self@
    }
}

impl PlannedView {
    /// Whether a planned copy is of this book.
    pub open spec fn is(self, original: IdentityView, prepared: IdentityView) -> bool {
        self.original.matches(original) || self.original.matches(prepared) || self.prepared.matches(
            original,
        ) || self.prepared.matches(prepared)
    }
}

/// The first planned copy of a book from `from` on, or the length.
pub open spec fn planned_at(
    planned: Seq<PlannedView>,
    original: IdentityView,
    prepared: IdentityView,
    from: int,
) -> int
    decreases planned.len() - from,
{
    if from < 0 || from >= planned.len() {
        planned.len() as int
    } else if planned[from].is(original, prepared) {
        from
    } else {
        planned_at(planned, original, prepared, from + 1)
    }
}

/// Whether a planned copy goes to this path already, in whatever case.
pub open spec fn promised(planned: Seq<PlannedView>, path: Seq<char>) -> bool {
    exists|i: int|
        0 <= i < planned.len() && text::lowercase(#[trigger] planned[i].path) == text::lowercase(
            path,
        )
}

/// What is to be done about one book.
#[derive(Clone, Debug, PartialEq, Eq)]
pub enum Decision {
    /// The destination has it, at this position of the inventory.
    Present(usize),
    /// An earlier book of this run is the same, and goes to this path.
    Duplicate(String),
    /// A shorter file stands where it goes, at this position of the inventory.
    Repair(String, usize),
    /// It goes to this path.
    Transfer(String),
}

#[verifier::ext_equal]
pub enum DecisionView {
    Present(usize),
    Duplicate(Seq<char>),
    Repair(Seq<char>, usize),
    Transfer(Seq<char>),
}

impl View for Decision {
    type V = DecisionView;

    open spec fn view(&self) -> DecisionView {
        match self {
            Decision::Present(i) => DecisionView::Present(*i),
            Decision::Duplicate(path) => DecisionView::Duplicate(path@),
            Decision::Repair(path, i) => DecisionView::Repair(path@, *i),
            Decision::Transfer(path) => DecisionView::Transfer(path@),
        }
    }
}

impl DeepView for Decision {
    type V = DecisionView;

    open spec fn deep_view(&self) -> DecisionView {
        self@
    }
}

/// A book as it is before and after it is made ready.
#[derive(Clone, Debug, PartialEq, Eq)]
pub struct Candidate {
    pub original: Identity,
    pub prepared: Identity,
    pub author: String,
    pub name: String,
    pub bytes: u64,
}

#[verifier::ext_equal]
pub struct CandidateView {
    pub original: IdentityView,
    pub prepared: IdentityView,
    pub author: Seq<char>,
    pub name: Seq<char>,
    pub bytes: u64,
}

impl View for Candidate {
    type V = CandidateView;

    open spec fn view(&self) -> CandidateView {
        CandidateView {
            original: self.original@,
            prepared: self.prepared@,
            author: self.author@,
            name: self.name@,
            bytes: self.bytes,
        }
    }
}

/// The folder a book goes to.
pub open spec fn folder_of(base: Seq<char>, author: Seq<char>, organized: bool) -> Seq<char> {
    if organized {
        paths::inside(base, author)
    } else {
        base
    }
}

/// The path a book goes to.
pub open spec fn target_of(base: Seq<char>, book: CandidateView, organized: bool) -> Seq<char> {
    paths::inside(folder_of(base, book.author, organized), book.name)
}

pub open spec fn differs(target: Seq<char>) -> Seq<char> {
    "A different file exists at "@ + target
        + "; nothing will be overwritten. For an incomplete Wi-Fi upload use --apply --repair"@
}

/// What is to be done about one book, by what the destination holds and what
/// this run has planned.
pub open spec fn decided(
    entries: Seq<ExistingView>,
    planned: Seq<PlannedView>,
    base: Seq<char>,
    book: CandidateView,
    organized: bool,
    repair: bool,
) -> Result<DecisionView, Seq<char>> {
    let present = matching_at(entries, seq![book.original, book.prepared], 0);
    let earlier = planned_at(planned, book.original, book.prepared, 0);
    let folder = folder_of(base, book.author, organized);
    let target = target_of(base, book, organized);
    let parent = path_at(entries, folder, 0);
    let there = path_at(entries, target, 0);
    if 0 <= present < entries.len() {
        Ok(DecisionView::Present(present as usize))
    } else if 0 <= earlier < planned.len() {
        Ok(DecisionView::Duplicate(planned[earlier].path))
    } else if 0 <= parent < entries.len() && !entries[parent].file.directory {
        Err("Author folder is occupied by a file: "@ + folder)
    } else if promised(planned, target) {
        Err("Different books map to the same destination: "@ + target)
    } else if 0 <= there < entries.len() {
        if repair && !entries[there].file.directory && entries[there].file.size < book.bytes {
            Ok(DecisionView::Repair(target, there as usize))
        } else {
            Err(differs(target))
        }
    } else {
        Ok(DecisionView::Transfer(target))
    }
}

proof fn path_at_is_there(entries: Seq<ExistingView>, path: Seq<char>, from: int)
    requires
        0 <= from <= entries.len(),
    ensures
        from <= path_at(entries, path, from) <= entries.len(),
        forall|i: int|
            from <= i < path_at(entries, path, from) ==> text::lowercase(
                #[trigger] entries[i].file.path,
            ) != text::lowercase(path),
    decreases entries.len() - from,
{
    if from < entries.len() && text::lowercase(entries[from].file.path) != text::lowercase(path) {
        path_at_is_there(entries, path, from + 1);
    }
}

/// Nothing is overwritten: a book goes only where the destination holds nothing
/// and no other book of this run goes. A file is written to only when repairs
/// were asked for and it is shorter than the book.
pub proof fn nothing_is_overwritten(
    entries: Seq<ExistingView>,
    planned: Seq<PlannedView>,
    base: Seq<char>,
    book: CandidateView,
    organized: bool,
    repair: bool,
)
    requires
        entries.len() <= usize::MAX,
    ensures
        decided(entries, planned, base, book, organized, repair) matches Ok(
            DecisionView::Transfer(target),
        ) ==> !promised(planned, target) && forall|i: int|
            0 <= i < entries.len() ==> text::lowercase(#[trigger] entries[i].file.path)
                != text::lowercase(target),
        decided(entries, planned, base, book, organized, repair) matches Ok(
            DecisionView::Repair(target, i),
        ) ==> repair && !promised(planned, target) && entries[i as int].file.size < book.bytes
            && !entries[i as int].file.directory,
{
    path_at_is_there(entries, target_of(base, book, organized), 0);
}

/// Whether a book takes part: it is no preview, it was not left out, and the
/// reader's library would list it.
pub open spec fn takes_part(book: BookView, exclude: Seq<Seq<char>>) -> bool {
    !book.preview && !exclude.contains(book.id) && book.format == Format::Epub
}

/// Whether a book was left out by its identifier.
pub open spec fn left_out(book: BookView, exclude: Seq<Seq<char>>) -> bool {
    !book.preview && exclude.contains(book.id)
}

/// Where the books that take part stand among others, in order.
pub open spec fn taking_part(books: Seq<BookView>, exclude: Seq<Seq<char>>) -> Seq<usize>
    decreases books.len(),
{
    if books.len() == 0 {
        Seq::empty()
    } else {
        let rest = taking_part(books.drop_last(), exclude);
        if takes_part(books.last(), exclude) {
            rest.push((books.len() - 1) as usize)
        } else {
            rest
        }
    }
}

/// Begin a sync: a report that counts what does not take part, and where the
/// books stand that do.
pub fn begin(books: &Vec<kobo::Book>, options: &Options) -> (r: (Report, Vec<usize>))
    ensures
        r.0.apply == options.apply,
        r.0.previews_skipped == order::kept(
            books.deep_view(),
            |book: BookView| book.preview,
        ).len(),
        r.0.excluded == order::kept(
            books.deep_view(),
            |book: BookView| left_out(book, options.exclude.deep_view()),
        ).len(),
        r.0.books@.len() == 0,
        r.1@ == taking_part(books.deep_view(), options.exclude.deep_view()),
{
    let ghost all = books.deep_view();
    let ghost out = options.exclude.deep_view();
    let ghost first = |book: BookView| book.preview;
    let ghost second = |book: BookView| left_out(book, out);
    let mut previews: usize = 0;
    let mut excluded: usize = 0;
    let mut chosen: Vec<usize> = Vec::new();
    proof {
        assert(all.take(0) =~= Seq::<BookView>::empty());
    }
    for i in 0..books.len()
        invariant
            all == books.deep_view(),
            out == options.exclude.deep_view(),
            first == (|book: BookView| book.preview),
            second == (|book: BookView| left_out(book, out)),
            previews <= i,
            excluded <= i,
            previews == order::kept(all.take(i as int), first).len(),
            excluded == order::kept(all.take(i as int), second).len(),
            chosen@ == taking_part(all.take(i as int), out),
    {
        proof {
            assert(all.take(i as int + 1).drop_last() =~= all.take(i as int));
            assert(all[i as int] == books@[i as int]@);
        }
        if books[i].preview {
            previews += 1;
        } else if holds(&options.exclude, &books[i].id) {
            excluded += 1;
        } else if books[i].format.shown_on_reader() {
            chosen.push(i);
        }
    }
    proof {
        assert(all.take(all.len() as int) =~= all);
    }
    let report = Report {
        apply: options.apply,
        previews_skipped: previews,
        excluded,
        books: Vec::new(),
    };
    (report, chosen)
}

/// Check what was asked for against where it goes.
pub fn check_options(options: &Options, destination: &Destination) -> (r: Result<(), String>)
    ensures
        result_view(r) == if options.repair && !(destination is Reader) {
            Err("--repair is supported for Wi-Fi sync only"@)
        } else {
            Ok(())
        },
{
    if options.repair && !matches!(destination, Destination::Reader(_)) {
        Err("--repair is supported for Wi-Fi sync only".to_owned())
    } else {
        Ok(())
    }
}

fn find_planned(planned: &Vec<Planned>, original: &Identity, prepared: &Identity) -> (r: Option<
    usize,
>)
    ensures
        match r {
            Some(i) => i < planned@.len() && i == planned_at(
                planned.deep_view(),
                original@,
                prepared@,
                0,
            ),
            None => planned@.len() == planned_at(planned.deep_view(), original@, prepared@, 0),
        },
{
    for i in 0..planned.len()
        invariant
            planned_at(planned.deep_view(), original@, prepared@, 0) == planned_at(
                planned.deep_view(),
                original@,
                prepared@,
                i as int,
            ),
    {
        let p = &planned[i];
        assert(planned.deep_view()[i as int] == p@);
        if p.original.matches(original) || p.original.matches(prepared) || p.prepared.matches(
            original,
        ) || p.prepared.matches(prepared) {
            return Some(i);
        }
    }
    None
}

fn is_promised(planned: &Vec<Planned>, path: &str) -> (r: bool)
    ensures
        r == promised(planned.deep_view(), path@),
{
    let wanted = text::to_lowercase(path);
    for i in 0..planned.len()
        invariant
            wanted@ == text::lowercase(path@),
            forall|j: int|
                0 <= j < i ==> text::lowercase(#[trigger] planned.deep_view()[j].path)
                    != text::lowercase(path@),
    {
        assert(planned.deep_view()[i as int] == planned@[i as int]@);
        let here = text::to_lowercase(planned[i].path.as_str());
        if text::same(here.as_str(), wanted.as_str()) {
            assert(text::lowercase(planned.deep_view()[i as int].path) == text::lowercase(path@));
            return true;
        }
    }
    false
}

fn find_path(inventory: &Inventory, path: &str) -> (r: Option<usize>)
    ensures
        match r {
            Some(i) => i < inventory@.len() && i == path_at(inventory@, path@, 0),
            None => inventory@.len() == path_at(inventory@, path@, 0),
        },
{
    let wanted = text::to_lowercase(path);
    for i in 0..inventory.entries.len()
        invariant
            wanted@ == text::lowercase(path@),
            path_at(inventory@, path@, 0) == path_at(inventory@, path@, i as int),
    {
        assert(inventory@[i as int] == inventory.entries@[i as int]@);
        let here = text::to_lowercase(inventory.entries[i].file.path.as_str());
        if text::same(here.as_str(), wanted.as_str()) {
            return Some(i);
        }
    }
    None
}

fn find_match(inventory: &Inventory, original: &Identity, prepared: &Identity) -> (r: Option<usize>)
    ensures
        match r {
            Some(i) => i < inventory@.len() && i == matching_at(
                inventory@,
                seq![original@, prepared@],
                0,
            ),
            None => inventory@.len() == matching_at(inventory@, seq![original@, prepared@], 0),
        },
{
    let ghost wanted = seq![original@, prepared@];
    for i in 0..inventory.entries.len()
        invariant
            wanted == seq![original@, prepared@],
            matching_at(inventory@, wanted, 0) == matching_at(inventory@, wanted, i as int),
    {
        assert(inventory@[i as int] == inventory.entries@[i as int]@);
        proof {
            assert(wanted[0] == original@);
            assert(wanted[1] == prepared@);
        }
        if let Some(id) = &inventory.entries[i].identity {
            if id.matches(original) || id.matches(prepared) {
                return Some(i);
            }
        }
    }
    None
}

/// Decide on one book. A failed inventory means an unknown state and never
/// comes this far.
pub fn run(
    inventory: &Inventory,
    planned: &Vec<Planned>,
    base: &str,
    book: &Candidate,
    organized: bool,
    repair: bool,
) -> (r: Result<Decision, String>)
    ensures
        result_view(r) == decided(
            inventory@,
            planned.deep_view(),
            base@,
            book@,
            organized,
            repair,
        ),
{
    if let Some(i) = find_match(inventory, &book.original, &book.prepared) {
        return Ok(Decision::Present(i));
    }
    if let Some(i) = find_planned(planned, &book.original, &book.prepared) {
        assert(planned.deep_view()[i as int] == planned@[i as int]@);
        return Ok(Decision::Duplicate(planned[i].path.duplicate()));
    }
    let folder = if organized {
        paths::join(base, book.author.as_str())
    } else {
        base.to_owned()
    };
    let target = paths::join(folder.as_str(), book.name.as_str());
    if let Some(i) = find_path(inventory, folder.as_str()) {
        assert(inventory@[i as int] == inventory.entries@[i as int]@);
        if !inventory.entries[i].file.directory {
            return Err(
                text::concat("Author folder is occupied by a file: ", folder.as_str()),
            );
        }
    }
    if is_promised(planned, target.as_str()) {
        return Err(
            text::concat("Different books map to the same destination: ", target.as_str()),
        );
    }
    match find_path(inventory, target.as_str()) {
        None => Ok(Decision::Transfer(target)),
        Some(i) => {
            assert(inventory@[i as int] == inventory.entries@[i as int]@);
            if repair && !inventory.entries[i].file.directory && inventory.entries[i].file.size
                < book.bytes {
                Ok(Decision::Repair(target, i))
            } else {
                Err(
                    text::concat3(
                        "A different file exists at ",
                        target.as_str(),
                        "; nothing will be overwritten. For an incomplete Wi-Fi upload use --apply --repair",
                    ),
                )
            }
        },
    }
}

/// What is looked for of a book that was made ready.
pub open spec fn candidate_of(
    original: Seq<u8>,
    data: Seq<u8>,
    author: Seq<char>,
    name: Seq<char>,
) -> CandidateView {
    CandidateView {
        original: identified(original),
        prepared: identified(data),
        author,
        name,
        bytes: data.len() as u64,
    }
}

/// Check a book that the destination has against what it has now. Names and
/// sizes alone cannot prove that a file has remained unchanged since the
/// initial scan.
pub fn check_present(current: &Identity, book: &Candidate) -> (r: Result<(), String>)
    ensures
        result_view(r) == if current@.matches(book@.original) || current@.matches(book@.prepared) {
            Ok(())
        } else {
            Err("Destination changed since inventory; rerun sync"@)
        },
{
    if current.matches(&book.original) || current.matches(&book.prepared) {
        Ok(())
    } else {
        Err("Destination changed since inventory; rerun sync".to_owned())
    }
}

/// Check a shorter file against the book it is to be repaired to.
pub fn check_partial(partial: &[u8], data: &[u8], target: &str) -> (r: Result<(), String>)
    ensures
        result_view(r) == if begins(partial@, data@) {
            Ok(())
        } else {
            Err("Existing file is not a matching incomplete prefix: "@ + target@)
        },
{
    if crate::crosspoint::send::is_start(partial, data) {
        Ok(())
    } else {
        Err(text::concat("Existing file is not a matching incomplete prefix: ", target))
    }
}

/// Check that the book imported locally is the one that was looked at.
pub fn check_import(local: &Identity, book: &Candidate) -> (r: Result<(), String>)
    ensures
        result_view(r) == if local@.sha256 == book@.original.sha256 {
            Ok(())
        } else {
            Err("Kobo book changed during sync; local import retained, rerun sync"@)
        },
{
    if text::same(local.sha256.as_str(), book.original.sha256.as_str()) {
        Ok(())
    } else {
        Err("Kobo book changed during sync; local import retained, rerun sync".to_owned())
    }
}

/// What a transfer is called, planned or done.
pub open spec fn outcome(apply: bool, repair: bool) -> Status {
    match (apply, repair) {
        (false, false) => Status::Transfer,
        (false, true) => Status::Repair,
        (true, false) => Status::Sent,
        (true, true) => Status::Repaired,
    }
}

pub fn transferred(apply: bool, repair: bool) -> (r: Status)
    ensures
        r == outcome(apply, repair),
{
    if apply {
        if repair {
            Status::Repaired
        } else {
            Status::Sent
        }
    } else if repair {
        Status::Repair
    } else {
        Status::Transfer
    }
}

/// What is said of a transfer: what became of the bytes, where a shorter file
/// was put, and where the import is.
pub open spec fn detail_of(
    before: u64,
    after: u64,
    backup: Option<Seq<char>>,
    local: Option<Seq<char>>,
) -> Seq<char> {
    text::decimal(before as nat) + " → "@ + text::decimal(after as nat) + " bytes"@ + (match backup {
        Some(path) => "; incomplete file preserved at "@ + path,
        None => Seq::empty(),
    }) + (match local {
        Some(path) => "; local: "@ + path,
        None => Seq::empty(),
    })
}

pub fn detail(before: u64, after: u64, backup: &Option<String>, local: &Option<String>) -> (r: String)
    ensures
        r@ == detail_of(before, after, backup.deep_view(), local.deep_view()),
{
    let mut out = text::concat4(
        text::number(before).as_str(),
        " → ",
        text::number(after).as_str(),
        " bytes",
    );
    proof {
        assert(out@ + Seq::<char>::empty() =~= out@);
    }
    let ghost head = out@;
    if let Some(path) = backup {
        let more = text::concat("; incomplete file preserved at ", path.as_str());
        out.push_str(more.as_str());
    }
    proof {
        assert(out@ + Seq::<char>::empty() =~= out@);
    }
    if let Some(path) = local {
        let more = text::concat("; local: ", path.as_str());
        out.push_str(more.as_str());
    }
    out
}

/// The row that a book gets.
pub fn row(id: String, title: String, result: Result<(Status, String, String), String>) -> (r: Row)
    ensures
        r@ == match result {
            Ok((status, path, detail)) => RowView {
                id: id@,
                title: title@,
                status,
                path: Some(path@),
                detail: detail@,
            },
            Err(words) => RowView {
                id: id@,
                title: title@,
                status: Status::Failed,
                path: None,
                detail: words@,
            },
        },
{
    match result {
        Ok((status, path, detail)) => Row { id, title, status, path: Some(path), detail },
        Err(words) => Row { id, title, status: Status::Failed, path: None, detail: words },
    }
}

/// Decide on a card by whether it is there.
pub fn card(path: String, there: bool) -> (r: Result<Destination, String>)
    ensures
        match r {
            Ok(destination) => there && destination == Destination::Card(path),
            Err(words) => !there && words@ == "Select an existing mounted-card directory"@,
        },
{
    if there {
        Ok(Destination::Card(path))
    } else {
        Err("Select an existing mounted-card directory".to_owned())
    }
}

/// Check a file that stands where a book would be imported: only the same bytes
/// are taken for the book.
pub fn check_local(file: bool, found: &[u8], original: &[u8], path: &str) -> (r: Result<
    (),
    String,
>)
    ensures
        result_view(r) == if file && found@ == original@ {
            Ok(())
        } else {
            Err("Existing local import differs: "@ + path@)
        },
{
    if file && epub::same_bytes(found, original) {
        Ok(())
    } else {
        Err(text::concat("Existing local import differs: ", path))
    }
}

} // verus!
