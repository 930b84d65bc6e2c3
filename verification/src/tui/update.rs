//! What happens to the interface: every key and every report from outside
//! leads from one state to the next, and says what outside work to start.
use super::edit;
use super::field::types;
use super::model::{
    arranged, filter_listed, filter_place, is_same_row, plain, same_row, toggled, toggled_each,
    DestinationView, Model, ModelView, RemovalView, FILTERS,
};
use super::settings;
use super::settings::{Found, Outcome, OutcomeView};
use super::{entry_of, Entry, EntryView, Key, KeyCode, Options, OptionsView, Source, SourceView};
use crate::books;
use crate::books::{Book, BookView, CopyView, Place, Snapshot, SnapshotView};
use crate::config::{Defaults, DefaultsView};
use crate::history;
use crate::order;
use crate::order::kept;
use crate::paths;
use crate::text;
use crate::values::{result_view, Duplicate, Same};
use vstd::prelude::*;

pub mod laws;

verus! {

broadcast use vstd::string::group_string_axioms;

/// What reaches the interface. Reports of outside work carry the number of the
/// job they belong to, so a late one can be told from the current.
#[derive(Debug)]
pub enum Message {
    /// A key, and what the paths of the settings panel lead to as it is struck.
    Input(Key, [Found; 6]),
    InputError(String),
    Refresh,
    Tick,
    Catalog(u64, Snapshot),
    CatalogFinished(u64, Result<(), String>),
    Progress(u64, String),
    /// Books finished and books in the running job.
    Step(u64, usize, usize),
    Finished(u64, Result<String, String>),
    Configured(u64, Result<Outcome, String>),
    Corrected(u64, Result<String, String>),
    /// The recent copies, as the record has them.
    History(Vec<history::Entry>),
    /// The room left at each place.
    Room(Vec<(Place, Option<u64>)>),
}

pub enum MessageView {
    Input(Key, Seq<Found>),
    InputError(Seq<char>),
    Refresh,
    Tick,
    Catalog(u64, SnapshotView),
    CatalogFinished(u64, Result<(), Seq<char>>),
    Progress(u64, Seq<char>),
    Step(u64, usize, usize),
    Finished(u64, Result<Seq<char>, Seq<char>>),
    Configured(u64, Result<OutcomeView, Seq<char>>),
    Corrected(u64, Result<Seq<char>, Seq<char>>),
    History(Seq<history::EntryView>),
    Room(Seq<(Place, Option<u64>)>),
}

impl View for Message {
    type V = MessageView;

    open spec fn view(&self) -> MessageView {
        match *self {
            Message::Input(key, found) => MessageView::Input(key, found@),
            Message::InputError(words) => MessageView::InputError(words@),
            Message::Refresh => MessageView::Refresh,
            Message::Tick => MessageView::Tick,
            Message::Catalog(id, snapshot) => MessageView::Catalog(id, snapshot@),
            Message::CatalogFinished(id, result) => MessageView::CatalogFinished(
                id,
                result_view(result),
            ),
            Message::Progress(id, words) => MessageView::Progress(id, words@),
            Message::Step(id, done, total) => MessageView::Step(id, done, total),
            Message::Finished(id, result) => MessageView::Finished(id, result_view(result)),
            Message::Configured(id, result) => MessageView::Configured(id, result_view(result)),
            Message::Corrected(id, result) => MessageView::Corrected(id, result_view(result)),
            Message::History(entries) => MessageView::History(entries.deep_view()),
            Message::Room(room) => MessageView::Room(room.deep_view()),
        }
    }
}

/// Outside work to start.
#[derive(Clone, Debug)]
pub enum Effect {
    Correct { id: u64, task: edit::Task },
    Configure { id: u64, task: settings::Task },
    Load { id: u64, options: Options },
    Work { id: u64, options: Options, entries: Vec<Entry>, target: Place },
    Remove { id: u64, options: Options, book: Book, place: Place, path: String },
    /// Stop a multi-book copy after the book in progress.
    Stop { id: u64 },
    /// Read the most recent entries of the record.
    ReadHistory { limit: usize },
    /// Ask each place how much room is left.
    Measure,
    Quit,
}

pub enum EffectView {
    Correct { id: u64, task: edit::TaskView },
    Configure { id: u64, task: settings::TaskView },
    Load { id: u64, options: OptionsView },
    Work { id: u64, options: OptionsView, entries: Seq<EntryView>, target: Place },
    Remove { id: u64, options: OptionsView, book: BookView, place: Place, path: Seq<char> },
    Stop { id: u64 },
    ReadHistory { limit: usize },
    Measure,
    Quit,
}

impl View for Effect {
    type V = EffectView;

    open spec fn view(&self) -> EffectView {
        match *self {
            Effect::Correct { id, task } => EffectView::Correct { id, task: task@ },
            Effect::Configure { id, task } => EffectView::Configure { id, task: task@ },
            Effect::Load { id, options } => EffectView::Load { id, options: options@ },
            Effect::Work { id, options, entries, target } => EffectView::Work {
                id,
                options: options@,
                entries: entries.deep_view(),
                target,
            },
            Effect::Remove { id, options, book, place, path } => EffectView::Remove {
                id,
                options: options@,
                book: book@,
                place,
                path: path@,
            },
            Effect::Stop { id } => EffectView::Stop { id },
            Effect::ReadHistory { limit } => EffectView::ReadHistory { limit },
            Effect::Measure => EffectView::Measure,
            Effect::Quit => EffectView::Quit,
        }
    }
}

impl DeepView for Effect {
    type V = EffectView;

    open spec fn deep_view(&self) -> EffectView {
        self@
    }
}

pub(super) fn nothing() -> (r: Vec<Effect>)
    ensures
        r.deep_view() == Seq::<EffectView>::empty(),
{
    let r: Vec<Effect> = Vec::new();
    proof {
        assert(r.deep_view() =~= Seq::<EffectView>::empty());
    }
    r
}

pub(super) fn just(effect: Effect) -> (r: Vec<Effect>)
    ensures
        r.deep_view() == seq![effect@],
{
    let mut r: Vec<Effect> = Vec::new();
    r.push(effect);
    proof {
        assert(r.deep_view() =~= seq![effect@]);
    }
    r
}

/// A book's row in the list.
pub open spec fn book_row(book: BookView) -> EntryView {
    entry_of(
        book.title,
        book.author,
        match book.preferred() {
            Some(copy) => copy.format.name(),
            None => "EPUB"@,
        },
        SourceView::Book(book),
    )
}

/// A request's row in the list: what its file is called.
pub open spec fn request_row(path: Seq<char>) -> EntryView {
    entry_of(
        match paths::name_of(path) {
            Some(name) => name,
            None => Seq::empty(),
        },
        Seq::empty(),
        "ACSM"@,
        SourceView::Local(path),
    )
}

/// The rows of a snapshot: its books, and then its pending requests.
pub open spec fn rows(snapshot: SnapshotView) -> Seq<EntryView> {
    order::mapped(snapshot.books, |b: BookView| book_row(b)) + order::mapped(
        snapshot.acsm,
        |p: Seq<char>| request_row(p),
    )
}

fn make_rows(snapshot: &Snapshot) -> (r: Vec<Entry>)
    ensures
        r.deep_view() == rows(snapshot@),
{
    let mut out: Vec<Entry> = Vec::new();
    let ghost first = order::mapped(snapshot@.books, |b: BookView| book_row(b));
    let ghost second = order::mapped(snapshot@.acsm, |p: Seq<char>| request_row(p));
    for i in 0..snapshot.books.len()
        invariant
            first == order::mapped(snapshot@.books, |b: BookView| book_row(b)),
            out.deep_view() == first.take(i as int),
    {
        let ghost so_far = out.deep_view();
        let book = &snapshot.books[i];
        let kind = match book.preferred() {
            Some(copy) => copy.format.label(),
            None => "EPUB",
        };
        let row = Entry::new(
            book.title.duplicate(),
            book.author.duplicate(),
            kind,
            Source::Book(Box::new(book.duplicate())),
        );
        proof {
            assert(snapshot@.books[i as int] == book@);
            assert(row@ == book_row(book@));
            assert(first.take(i as int + 1) =~= first.take(i as int).push(row@));
        }
        out.push(row);
        proof {
            assert(out.deep_view() =~= so_far.push(row@));
        }
    }
    proof {
        assert(first.take(first.len() as int) =~= first);
        assert(second.take(0) =~= Seq::<EntryView>::empty());
        assert(first + Seq::<EntryView>::empty() =~= first);
    }
    for i in 0..snapshot.acsm.len()
        invariant
            second == order::mapped(snapshot@.acsm, |p: Seq<char>| request_row(p)),
            out.deep_view() == first + second.take(i as int),
    {
        let ghost so_far = out.deep_view();
        let path = &snapshot.acsm[i];
        let name = match paths::file_name(path.as_str()) {
            Some(name) => name,
            None => String::new(),
        };
        let row = Entry::new(name, String::new(), "ACSM", Source::Local(path.duplicate()));
        proof {
            assert(snapshot@.acsm[i as int] == path@);
            assert(row@ == request_row(path@));
            assert(second.take(i as int + 1) =~= second.take(i as int).push(row@));
        }
        out.push(row);
        proof {
            assert(out.deep_view() =~= so_far.push(row@));
            assert(so_far.push(row@) =~= first + second.take(i as int + 1));
        }
    }
    proof {
        assert(second.take(second.len() as int) =~= second);
    }
    out
}

/// The first row from `from` on that stands for the same thing, or the length.
pub open spec fn row_of(shown: Seq<EntryView>, source: SourceView, from: int) -> int
    decreases shown.len() - from,
{
    if from < 0 || from >= shown.len() {
        shown.len() as int
    } else if same_row(source, shown[from].source) {
        from
    } else {
        row_of(shown, source, from + 1)
    }
}

/// The first row from `from` on with exactly that source, or the length.
pub open spec fn exact_row(shown: Seq<EntryView>, source: SourceView, from: int) -> int
    decreases shown.len() - from,
{
    if from < 0 || from >= shown.len() {
        shown.len() as int
    } else if shown[from].source == source {
        from
    } else {
        exact_row(shown, source, from + 1)
    }
}

/// A row that was found, or the first.
pub open spec fn found_row(at: int, shown: Seq<EntryView>) -> usize {
    if 0 <= at < shown.len() {
        at as usize
    } else {
        0
    }
}

fn find_row(shown: &Vec<&Entry>, source: &Source) -> (r: usize)
    ensures
        r == found_row(row_of(shown.deep_view(), source@, 0), shown.deep_view()),
{
    let mut i: usize = 0;
    while i < shown.len()
        invariant
            i <= shown@.len(),
            row_of(shown.deep_view(), source@, 0) == row_of(shown.deep_view(), source@, i as int),
        decreases shown@.len() - i,
    {
        assert(shown.deep_view()[i as int] == shown@[i as int]@);
        if is_same_row(source, &shown[i].source) {
            return i;
        }
        i += 1;
    }
    0
}

pub(super) fn find_exact(shown: &Vec<&Entry>, source: &Source) -> (r: usize)
    ensures
        r == found_row(exact_row(shown.deep_view(), source@, 0), shown.deep_view()),
{
    let mut i: usize = 0;
    while i < shown.len()
        invariant
            i <= shown@.len(),
            exact_row(shown.deep_view(), source@, 0) == exact_row(
                shown.deep_view(),
                source@,
                i as int,
            ),
        decreases shown@.len() - i,
    {
        assert(shown.deep_view()[i as int] == shown@[i as int]@);
        if shown[i].source.same(source) {
            return i;
        }
        i += 1;
    }
    0
}

/// What a failed refresh leaves every location saying.
pub open spec fn stale(status: Seq<(Place, Seq<char>)>) -> Seq<(Place, Seq<char>)> {
    Seq::new(
        status.len(),
        |i: int|
            (
                status[i].0,
                "Unavailable: refresh failed; showing previous inventory"@,
            ),
    )
}

/// The last row a list of some length has.
pub open spec fn last_row(len: nat) -> int {
    if len == 0 {
        0
    } else {
        len - 1
    }
}

/// The row some rows further down, or the last.
pub open spec fn down_by(selected: usize, rows: int, len: nat) -> usize {
    if selected + rows < last_row(len) {
        (selected + rows) as usize
    } else {
        last_row(len) as usize
    }
}

/// The row some rows further up, or the first.
pub open spec fn up_by(selected: usize, rows: int) -> usize {
    if selected > rows {
        (selected - rows) as usize
    } else {
        0
    }
}

fn move_down(selected: usize, rows: usize, len: usize) -> (r: usize)
    ensures
        r == down_by(selected, rows as int, len as nat),
{
    let last: usize = if len == 0 {
        0
    } else {
        len - 1
    };
    if selected < last && rows < last - selected {
        selected + rows
    } else {
        last
    }
}

/// Keys that move the selection in any list.
pub open spec fn moves(code: KeyCode) -> bool {
    ||| code == KeyCode::Down
    ||| code == KeyCode::Up
    ||| code == KeyCode::Home
    ||| code == KeyCode::End
    ||| code == KeyCode::PageDown
    ||| code == KeyCode::PageUp
}

pub(super) fn is_move(code: KeyCode) -> (r: bool)
    ensures
        r == moves(code),
{
    code == KeyCode::Down || code == KeyCode::Up || code == KeyCode::Home || code == KeyCode::End
        || code == KeyCode::PageDown || code == KeyCode::PageUp
}

/// Where a key moves the selection of a list of some length.
pub open spec fn moved(selected: usize, code: KeyCode, len: nat) -> usize {
    match code {
        KeyCode::Down => down_by(selected, 1, len),
        KeyCode::Up => up_by(selected, 1),
        KeyCode::Home => 0,
        KeyCode::End => last_row(len) as usize,
        KeyCode::PageDown => down_by(selected, 10, len),
        KeyCode::PageUp => up_by(selected, 10),
        _ => selected,
    }
}

pub(super) fn moved_to(selected: usize, code: KeyCode, len: usize) -> (r: usize)
    ensures
        r == moved(selected, code, len as nat),
{
    match code {
        KeyCode::Down => move_down(selected, 1, len),
        KeyCode::Up => if selected > 1 {
            selected - 1
        } else {
            0
        },
        KeyCode::Home => 0,
        KeyCode::End => if len == 0 {
            0
        } else {
            len - 1
        },
        KeyCode::PageDown => move_down(selected, 10, len),
        KeyCode::PageUp => if selected > 10 {
            selected - 10
        } else {
            0
        },
        _ => selected,
    }
}

/// Moving never leaves a list that holds anything.
pub proof fn moving_stays_in_the_list(selected: usize, code: KeyCode, len: nat)
    requires
        len > 0,
        len <= usize::MAX,
        moves(code),
        selected < len,
    ensures
        moved(selected, code, len) < len,
{
}

/// The settings a save brings into use.
pub open spec fn configured_options(options: OptionsView, defaults: DefaultsView) -> OptionsView {
    OptionsView {
        browse: match defaults.browse {
            Some(path) => path,
            None => options.browse,
        },
        output: match defaults.output {
            Some(path) => path,
            None => options.output,
        },
        device: defaults.device,
        send_to: defaults.reader,
        copy_to: defaults.copy_to,
        folder: match defaults.folder {
            Some(folder) => folder,
            None => "/"@,
        },
        first_run: false,
        ..options
    }
}

/// The reason the first entry from `from` on wants a yes for, if any does.
pub open spec fn first_question(
    m: ModelView,
    entries: Seq<EntryView>,
    target: Place,
    from: int,
) -> Option<Seq<char>>
    decreases entries.len() - from,
{
    if from < 0 || from >= entries.len() {
        None
    } else {
        match m.destination(entries[from], target) {
            DestinationView::Ask(_, reason) => Some(reason),
            _ => first_question(m, entries, target, from + 1),
        }
    }
}

/// The reason the first blocked entry from `from` on is blocked for, if any is.
pub open spec fn first_refusal(
    m: ModelView,
    entries: Seq<EntryView>,
    target: Place,
    from: int,
) -> Option<Seq<char>>
    decreases entries.len() - from,
{
    if from < 0 || from >= entries.len() {
        None
    } else {
        match m.destination(entries[from], target) {
            DestinationView::Blocked(_, reason) => Some(reason),
            _ => first_refusal(m, entries, target, from + 1),
        }
    }
}

/// An entry with the catalog's copies, not those captured when the dialog
/// opened.
pub open spec fn renewed(m: ModelView, entry: EntryView) -> EntryView {
    match entry.source {
        SourceView::Book(book) => EntryView { source: SourceView::Book(m.current(book)), ..entry },
        SourceView::Local(_) => entry,
    }
}

/// The entries that can be copied. Books that cannot are left behind; a set is
/// never refused as a whole for one of them.
pub open spec fn copyable(m: ModelView, entries: Seq<EntryView>, target: Place) -> Seq<EntryView> {
    order::mapped(
        kept(entries, |e: EntryView| !(m.destination(e, target) is Blocked)),
        |e: EntryView| renewed(m, e),
    )
}

/// The options a job runs under: a job of nothing but requests ends at home.
pub open spec fn job_options(options: OptionsView, entries: Seq<EntryView>) -> OptionsView {
    if forall|i: int| 0 <= i < entries.len() ==> (#[trigger] entries[i]).source is Local {
        OptionsView { send_to: None, copy_to: None, ..options }
    } else {
        options
    }
}

pub open spec fn copying(count: nat, target: Place, skipped: int) -> Seq<char> {
    "Copying "@ + books::counted(count) + " to "@ + target.name() + "…"@ + (if skipped > 0 {
        " "@ + text::decimal(skipped as nat) + " skipped."@
    } else {
        Seq::empty()
    })
}

/// The first copy from `from` on in a spot, or the length.
pub open spec fn copy_at(copies: Seq<CopyView>, place: Place, path: Seq<char>, from: int) -> int
    decreases copies.len() - from,
{
    if from < 0 || from >= copies.len() {
        copies.len() as int
    } else if copies[from].place == place && copies[from].path == path {
        from
    } else {
        copy_at(copies, place, path, from + 1)
    }
}

pub(super) fn find_copy(book: &Book, place: Place, path: &str) -> (r: usize)
    ensures
        r == copy_at(book@.copies, place, path@, 0),
        r <= book.copies@.len(),
{
    let mut i: usize = 0;
    while i < book.copies.len()
        invariant
            i <= book.copies@.len(),
            copy_at(book@.copies, place, path@, 0) == copy_at(
                book@.copies,
                place,
                path@,
                i as int,
            ),
        decreases book.copies@.len() - i,
    {
        assert(book@.copies[i as int] == book.copies@[i as int]@);
        if book.copies[i].place == place && text::same(book.copies[i].path.as_str(), path) {
            return i;
        }
        i += 1;
    }
    i
}

/// The copy a digit from 1 to 9 chooses.
pub open spec fn digit_row(code: KeyCode) -> Option<int> {
    match code {
        KeyCode::Char(c) => if '1' <= c <= '9' {
            Some(c as int - '1' as int)
        } else {
            None
        },
        _ => None,
    }
}

pub(super) fn chosen_row(code: KeyCode) -> (r: Option<usize>)
    ensures
        match (r, digit_row(code)) {
            (Some(row), Some(wanted)) => row == wanted,
            (None, None) => true,
            _ => false,
        },
{
    match code {
        KeyCode::Char(c) => if '1' <= c && c <= '9' {
            Some((c as u32 - '1' as u32) as usize)
        } else {
            None
        },
        _ => None,
    }
}

impl ModelView {
    /// Whether nothing is running.
    pub open spec fn idle(self) -> bool {
        self.busy is None && self.loading is None && self.configuring is None
    }

    /// Quitting that was asked for earlier happens once nothing is running.
    pub open spec fn settled(self) -> (ModelView, Seq<EffectView>) {
        (
            self,
            if self.pending_quit && self.idle() {
                seq![EffectView::Quit]
            } else {
                Seq::empty()
            },
        )
    }

    pub open spec fn still(self) -> (ModelView, Seq<EffectView>) {
        (self, Seq::empty())
    }

    #[verifier::opaque]
    pub open spec fn quit(self) -> (ModelView, Seq<EffectView>) {
        if self.idle() {
            (self, seq![EffectView::Quit])
        } else {
            (
                ModelView {
                    pending_quit: true,
                    status: "Finishing current work before quitting…"@,
                    ..self
                },
                Seq::empty(),
            )
        }
    }

    /// A scan starts now, or is remembered until what is running has finished.
    #[verifier::opaque]
    pub open spec fn refreshed(self) -> (ModelView, Seq<EffectView>) {
        if self.pending_quit {
            self.settled()
        } else if self.loading is Some || self.busy is Some {
            (
                ModelView {
                    pending_refresh: true,
                    status: "Will refresh when the current work finishes."@,
                    ..self
                },
                Seq::empty(),
            )
        } else {
            let id = (self.next_id + 1) as u64;
            (
                ModelView {
                    pending_refresh: false,
                    action: Seq::empty(),
                    copies: None,
                    confirm: None,
                    retaining: self.entries.len() > 0,
                    pending_catalog: None,
                    next_id: id,
                    loading: Some(id),
                    status: "Discovering Local, Kobo and CrossPoint independently…"@,
                    ..self
                },
                seq![EffectView::Load { id, options: self.options }],
            )
        }
    }

    /// A refresh that was asked for while something was running, now that
    /// nothing is; or else a quit that was.
    #[verifier::opaque]
    pub open spec fn caught_up(self) -> (ModelView, Seq<EffectView>) {
        if self.pending_refresh && self.busy is None && self.loading is None
            && !self.pending_quit {
            self.refreshed()
        } else {
            self.settled()
        }
    }

    #[verifier::opaque]
    pub open spec fn corrected(self, result: Result<Seq<char>, Seq<char>>) -> (
        ModelView,
        Seq<EffectView>,
    ) {
        let m = ModelView { configuring: None, ..self };
        match result {
            // The library is read again, so the row shows what the book now
            // says rather than what it said.
            Ok(words) => (ModelView { correcting: None, status: words, ..m }).refreshed(),
            Err(words) => match m.correcting {
                Some(panel) => (ModelView {
                    correcting: Some(edit::PanelView { message: words, ..panel }),
                    ..m
                }).settled(),
                None => (ModelView { status: words, ..m }).settled(),
            },
        }
    }

    #[verifier::opaque]
    pub open spec fn configured(self, result: Result<OutcomeView, Seq<char>>) -> (
        ModelView,
        Seq<EffectView>,
    ) {
        let m = ModelView { configuring: None, ..self };
        match result {
            // A changed location must not retain old, actionable copies.
            Ok(OutcomeView::Saved(defaults)) => (ModelView {
                options: configured_options(m.options, defaults),
                skipped: false,
                settings: None,
                entries: Seq::empty(),
                catalog: SnapshotView::empty(),
                marked: Seq::empty(),
                selected: 0,
                scroll: 0,
                ..m
            }).refreshed(),
            Ok(OutcomeView::Detected(devices)) => (ModelView {
                settings: match m.settings {
                    Some(panel) => Some(panel.detected(devices)),
                    None => None,
                },
                ..m
            }).settled(),
            Ok(OutcomeView::Tested(words)) => m.told(words),
            Err(words) => m.told(words),
        }
    }

    /// Something for the settings panel to say, if it is still open.
    #[verifier::opaque]
    pub open spec fn told(self, words: Seq<char>) -> (ModelView, Seq<EffectView>) {
        (ModelView {
            settings: match self.settings {
                Some(panel) => Some(settings::PanelView { message: words, ..panel }),
                None => None,
            },
            ..self
        }).settled()
    }

    /// A snapshot taken in: the list is made anew, and a selection that is the
    /// reader's own stays on what it was on.
    #[verifier::opaque]
    pub open spec fn taken_in(self, snapshot: SnapshotView) -> ModelView {
        let m = ModelView {
            entries: arranged(self.sort, rows(snapshot)),
            catalog: snapshot,
            ..self
        };
        ModelView {
            selected: if self.touched {
                match self.selected_entry() {
                    Some(old) => found_row(row_of(m.filtered(), old.source, 0), m.filtered()),
                    None => 0,
                }
            } else {
                0
            },
            ..m
        }
    }

    pub open spec fn cataloged(self, snapshot: SnapshotView) -> (ModelView, Seq<EffectView>) {
        if self.retaining {
            (ModelView { pending_catalog: Some(snapshot), ..self }, Seq::empty())
        } else {
            self.taken_in(snapshot).settled()
        }
    }

    /// A scan is over, for better or worse; a running job keeps the status line.
    #[verifier::opaque]
    pub open spec fn loaded(self, words: Seq<char>) -> (ModelView, Seq<EffectView>) {
        (ModelView {
            loading: None,
            status: if self.busy is None {
                words
            } else {
                self.status
            },
            ..self
        }).caught_up()
    }

    /// What a finished scan held back is taken in.
    #[verifier::opaque]
    pub open spec fn accepted(self) -> ModelView {
        match self.pending_catalog {
            Some(snapshot) => (ModelView {
                retaining: false,
                pending_catalog: None,
                ..self
            }).taken_in(snapshot),
            None => ModelView { retaining: false, ..self },
        }
    }

    /// What a failed scan found is dropped; the previous books stay listed.
    #[verifier::opaque]
    pub open spec fn rejected(self) -> ModelView {
        ModelView {
            retaining: false,
            pending_catalog: None,
            catalog: SnapshotView { status: stale(self.catalog.status), ..self.catalog },
            ..self
        }
    }

    pub open spec fn catalog_finished(self, result: Result<(), Seq<char>>) -> (
        ModelView,
        Seq<EffectView>,
    ) {
        match result {
            Ok(()) => self.accepted().loaded(
                "Library ready. Enter chooses a copy destination; r refreshes locations."@,
            ),
            Err(words) => self.rejected().loaded("Discovery error: "@ + words),
        }
    }

    #[verifier::opaque]
    pub open spec fn finished(self, result: Result<Seq<char>, Seq<char>>) -> (
        ModelView,
        Seq<EffectView>,
    ) {
        (ModelView {
            busy: None,
            cancel: false,
            step: None,
            status: match result {
                Ok(words) => words,
                Err(words) => "Error: "@ + words,
            },
            ..self
        }).caught_up()
    }

    /// What a key does while a book is being corrected.
    #[verifier::opaque]
    pub open spec fn correcting_key(self, panel: edit::PanelView, key: Key) -> (
        ModelView,
        Seq<EffectView>,
    ) {
        if self.configuring is Some {
            self.still()
        } else {
            let (after, action) = panel.after(key);
            match action {
                edit::ActionView::Close => (ModelView { correcting: None, ..self }).still(),
                edit::ActionView::Run(task) => {
                    let id = (self.next_id + 1) as u64;
                    (
                        ModelView {
                            correcting: Some(
                                edit::PanelView { message: "Correcting…"@, ..after },
                            ),
                            next_id: id,
                            configuring: Some(id),
                            ..self
                        },
                        seq![EffectView::Correct { id, task }],
                    )
                },
                edit::ActionView::Nothing => (ModelView {
                    correcting: Some(after),
                    ..self
                }).still(),
            }
        }
    }

    /// The settings are left without saving.
    #[verifier::opaque]
    pub open spec fn settings_closed(self, first_run: bool) -> (ModelView, Seq<EffectView>) {
        let m = ModelView { settings: None, ..self };
        if first_run {
            let (m, effects) = (ModelView {
                options: OptionsView { first_run: false, ..m.options },
                skipped: true,
                ..m
            }).refreshed();
            (
                ModelView {
                    status: "Setup skipped; nothing was saved. Press , to set it up later."@,
                    ..m
                },
                effects,
            )
        } else {
            m.still()
        }
    }

    /// Outside work for the settings starts.
    #[verifier::opaque]
    pub open spec fn settings_started(
        self,
        panel: settings::PanelView,
        task: settings::TaskView,
    ) -> (ModelView, Seq<EffectView>) {
        let id = (self.next_id + 1) as u64;
        (
            ModelView {
                settings: Some(
                    settings::PanelView { message: working_words(task), ..panel },
                ),
                next_id: id,
                configuring: Some(id),
                ..self
            },
            seq![EffectView::Configure { id, task }],
        )
    }

    /// What a key does while the settings are open.
    #[verifier::opaque]
    pub open spec fn settings_key(
        self,
        panel: settings::PanelView,
        key: Key,
        found: Seq<Found>,
    ) -> (ModelView, Seq<EffectView>) {
        if self.configuring is Some {
            self.still()
        } else {
            let (after, action) = panel.after(key, found);
            match action {
                settings::ActionView::Close => self.settings_closed(after.first_run),
                settings::ActionView::Run(task) => self.settings_started(after, task),
                settings::ActionView::Nothing => (ModelView {
                    settings: Some(after),
                    ..self
                }).still(),
            }
        }
    }

    #[verifier::opaque]
    pub open spec fn help_key(self, key: Key) -> ModelView {
        match key.code {
            KeyCode::Esc | KeyCode::Char('?') | KeyCode::Char('q') => ModelView {
                help: false,
                ..self
            },
            KeyCode::Down | KeyCode::PageDown => ModelView {
                help_scroll: if self.help_scroll < 20 {
                    (self.help_scroll + 1) as u16
                } else {
                    20
                },
                ..self
            },
            KeyCode::Up | KeyCode::PageUp => ModelView {
                help_scroll: if self.help_scroll > 0 {
                    (self.help_scroll - 1) as u16
                } else {
                    0
                },
                ..self
            },
            _ => self,
        }
    }

    /// A filter chosen from the menu.
    pub open spec fn filter_chosen(self, index: int) -> ModelView {
        ModelView {
            filter: filter_listed(index),
            filter_menu: None,
            selected: 0,
            touched: false,
            scroll: 0,
            ..self
        }
    }

    #[verifier::opaque]
    pub open spec fn menu_key(self, at: usize, key: Key) -> ModelView {
        match key.code {
            KeyCode::Down | KeyCode::Char('j') => ModelView {
                filter_menu: Some(((at as int + 1) % FILTERS as int) as usize),
                ..self
            },
            KeyCode::Up | KeyCode::Char('k') => ModelView {
                filter_menu: Some(((at as int + FILTERS - 1) % FILTERS as int) as usize),
                ..self
            },
            KeyCode::Enter => self.filter_chosen(at as int),
            KeyCode::Esc | KeyCode::Char('q') | KeyCode::Char('f') => ModelView {
                filter_menu: None,
                ..self
            },
            _ => match digit_row(key.code) {
                Some(row) => if row < FILTERS {
                    self.filter_chosen(row)
                } else {
                    self
                },
                None => self,
            },
        }
    }

    /// What a key does while a copy waits for its deletion to be confirmed.
    /// Only one key deletes, and only while the question is on screen; anything
    /// else is a refusal.
    #[verifier::opaque]
    pub open spec fn confirm_key(
        self,
        book: BookView,
        place: Place,
        path: Seq<char>,
        key: Key,
    ) -> (ModelView, Seq<EffectView>) {
        let m = ModelView { confirm: None, ..self };
        let at = copy_at(book.copies, place, path, 0);
        if key.code != KeyCode::Char('y') {
            (ModelView { status: "Nothing was deleted."@, ..m }).still()
        } else if at >= book.copies.len() {
            (ModelView {
                status: "That copy is gone; refresh and look again."@,
                ..m
            }).still()
        } else {
            match self.removal(book, book.copies[at]) {
                RemovalView::Blocked(_, reason) => (ModelView { status: reason, ..m }).still(),
                RemovalView::Ready => {
                    let id = (self.next_id + 1) as u64;
                    (
                        ModelView {
                            next_id: id,
                            busy: Some(id),
                            copies: None,
                            status: "Deleting the "@ + place.name() + " copy…"@,
                            ..m
                        },
                        seq![
                            EffectView::Remove { id, options: self.options, book, place, path },
                        ],
                    )
                },
            }
        }
    }

    /// What a key does while the copies of a book are listed.
    #[verifier::opaque]
    pub open spec fn copies_key(self, entry: EntryView, key: Key) -> (
        ModelView,
        Seq<EffectView>,
    ) {
        match entry.source {
            SourceView::Local(_) => (ModelView { copies: None, ..self }).still(),
            SourceView::Book(book) => {
                let book = self.current(book);
                match self.confirm {
                    Some((place, path)) => self.confirm_key(book, place, path, key),
                    None => match key.code {
                        KeyCode::Esc | KeyCode::Char('q') | KeyCode::Char('d') => (ModelView {
                            copies: None,
                            ..self
                        }).still(),
                        _ => match digit_row(key.code) {
                            Some(row) => if row < book.copies.len() {
                                match self.removal(book, book.copies[row]) {
                                    RemovalView::Blocked(_, reason) => (ModelView {
                                        status: reason,
                                        ..self
                                    }).still(),
                                    RemovalView::Ready => (ModelView {
                                        confirm: Some(
                                            (book.copies[row].place, book.copies[row].path),
                                        ),
                                        ..self
                                    }).still(),
                                }
                            } else {
                                self.still()
                            },
                            None => self.still(),
                        },
                    },
                }
            },
        }
    }

    /// A copy of everything in the dialog that can go to a place.
    #[verifier::opaque]
    pub open spec fn copy_started(self, target: Place) -> (ModelView, Seq<EffectView>) {
        let m = ModelView { ask: None, ..self };
        let entries = copyable(m, m.action, target);
        if entries.len() == 0 {
            (ModelView {
                status: match first_refusal(m, m.action, target, 0) {
                    Some(reason) => reason,
                    None => "Nothing left to copy there."@,
                },
                ..m
            }).still()
        } else {
            let id = (m.next_id + 1) as u64;
            (
                ModelView {
                    action: Seq::empty(),
                    marked: Seq::empty(),
                    next_id: id,
                    busy: Some(id),
                    cancel: true,
                    status: copying(entries.len(), target, m.action.len() - entries.len()),
                    ..m
                },
                seq![
                    EffectView::Work {
                        id,
                        options: job_options(m.options, entries),
                        entries,
                        target,
                    },
                ],
            )
        }
    }

    /// What a key does while the copy dialog is open. While a destination waits
    /// for a yes, it is the only thing the dialog answers to; and one question
    /// covers the set, not one per book.
    #[verifier::opaque]
    pub open spec fn action_key(self, key: Key) -> (ModelView, Seq<EffectView>) {
        match self.ask {
            Some((target, _)) => match key.code {
                KeyCode::Char('y') => self.copy_started(target),
                KeyCode::Esc | KeyCode::Char('q') => (ModelView { ask: None, ..self }).still(),
                _ => self.still(),
            },
            None => match key.code {
                KeyCode::Char('1') => self.target_chosen(Place::Local),
                KeyCode::Char('2') => self.target_chosen(Place::Kobo),
                KeyCode::Char('3') => self.target_chosen(Place::CrossPoint),
                KeyCode::Esc | KeyCode::Char('q') => (ModelView {
                    action: Seq::empty(),
                    ..self
                }).still(),
                _ => self.still(),
            },
        }
    }

    #[verifier::opaque]
    pub open spec fn target_chosen(self, target: Place) -> (ModelView, Seq<EffectView>) {
        match first_question(self, self.action, target, 0) {
            Some(reason) => (ModelView { ask: Some((target, reason)), ..self }).still(),
            None => self.copy_started(target),
        }
    }

    /// What a key does while the query is being typed.
    #[verifier::opaque]
    pub open spec fn search_key(self, key: Key) -> ModelView {
        let m = ModelView { touched: self.touched || moves(key.code), ..self };
        match key.code {
            KeyCode::Esc | KeyCode::Enter => ModelView { search: false, ..m },
            KeyCode::Backspace => ModelView {
                query: if m.query.len() == 0 {
                    m.query
                } else {
                    m.query.drop_last()
                },
                selected: 0,
                touched: false,
                ..m
            },
            KeyCode::Char(c) => if c == 'u' && key.control {
                ModelView { query: Seq::empty(), selected: 0, touched: false, ..m }
            } else if types(key) {
                ModelView { query: m.query.push(c), selected: 0, touched: false, ..m }
            } else {
                m
            },
            _ => ModelView { selected: moved(m.selected, key.code, m.filtered().len()), ..m },
        }
    }

    /// The order changes, and the highlighted row keeps the highlight.
    #[verifier::opaque]
    pub open spec fn resorted(self) -> ModelView {
        let sort = self.sort.following();
        let m = ModelView { sort, entries: arranged(sort, self.entries), ..self };
        ModelView {
            selected: match self.selected_entry() {
                Some(old) => found_row(exact_row(m.filtered(), old.source, 0), m.filtered()),
                None => 0,
            },
            touched: true,
            scroll: 0,
            ..m
        }
    }

    /// The highlighted book's metadata opened for correction.
    #[verifier::opaque]
    pub open spec fn correction_opened(self) -> ModelView {
        match self.selected_entry() {
            Some(entry) => match entry.source {
                SourceView::Book(book) => if self.busy is None {
                    match edit::panel_for(self.current(book)) {
                        Ok(panel) => ModelView { correcting: Some(panel), ..self },
                        Err(words) => ModelView { status: words, ..self },
                    }
                } else {
                    ModelView {
                        status: "Only a book's own metadata can be corrected."@,
                        ..self
                    }
                },
                SourceView::Local(_) => ModelView {
                    status: "Only a book's own metadata can be corrected."@,
                    ..self
                },
            },
            None => self,
        }
    }

    /// The highlighted book's copies listed.
    #[verifier::opaque]
    pub open spec fn copies_opened(self) -> ModelView {
        match self.selected_entry() {
            Some(entry) => if entry.source is Book {
                ModelView { copies: Some(entry), ..self }
            } else {
                ModelView {
                    copies: None,
                    status: "An import request has no copies to delete."@,
                    ..self
                }
            },
            None => ModelView {
                copies: None,
                status: "An import request has no copies to delete."@,
                ..self
            },
        }
    }

    /// Everything shown marked, or all of it cleared if it all was.
    #[verifier::opaque]
    pub open spec fn all_toggled(self) -> ModelView {
        let shown = self.filtered();
        let all = shown.len() > 0 && forall|i: int|
            0 <= i < shown.len() ==> self.is_marked(#[trigger] shown[i]);
        ModelView { marked: toggled_each(self.marked, shown, all), ..self }
    }

    /// What a key does in the list itself.
    #[verifier::opaque]
    pub open spec fn list_key(self, key: Key) -> (ModelView, Seq<EffectView>) {
        let code = match key.code {
            KeyCode::Char('j') => KeyCode::Down,
            KeyCode::Char('k') => KeyCode::Up,
            code => code,
        };
        let m = ModelView { touched: self.touched || moves(code), ..self };
        if moves(code) {
            (ModelView { selected: moved(m.selected, code, m.filtered().len()), ..m }).still()
        } else {
            match code {
                KeyCode::Esc => match m.busy {
                    Some(id) => if m.cancel {
                        (
                            ModelView {
                                status: "Stopping after the book in progress…"@,
                                ..m
                            },
                            seq![EffectView::Stop { id }],
                        )
                    } else {
                        m.still()
                    },
                    None => m.quit(),
                },
                KeyCode::Enter => if m.busy is None {
                    (
                        ModelView { action: m.chosen(), room: Seq::empty(), ..m },
                        seq![EffectView::Measure],
                    )
                } else {
                    m.still()
                },
                KeyCode::Char(c) => m.letter(c),
                _ => m.still(),
            }
        }
    }

    /// What a letter does in the list.
    #[verifier::opaque]
    pub open spec fn letter(self, c: char) -> (ModelView, Seq<EffectView>) {
        if c == 'q' {
            self.quit()
        } else if c == '/' {
            (ModelView { search: true, ..self }).still()
        } else if c == '?' {
            (ModelView { help: true, help_scroll: 0, ..self }).still()
        } else if c == 'e' {
            self.correction_opened().still()
        } else if c == 'h' {
            (self, seq![EffectView::ReadHistory { limit: 200 }])
        } else if c == ',' || c == '.' {
            (ModelView {
                settings: Some(settings::panel_for(self.options, false)),
                ..self
            }).still()
        } else if c == 's' {
            self.resorted().still()
        } else if c == 'r' {
            self.refreshed()
        } else if c == ' ' {
            match self.selected_entry() {
                Some(entry) => (ModelView {
                    marked: toggled(self.marked, entry.source),
                    ..self
                }).still(),
                None => self.still(),
            }
        } else if c == 'a' {
            self.all_toggled().still()
        } else if c == 'd' && self.busy is None {
            self.copies_opened().still()
        } else if c == 'f' || c == 'F' {
            (ModelView { filter_menu: Some(filter_place(self.filter) as usize), ..self }).still()
        } else {
            self.still()
        }
    }

    /// What a key does. The innermost thing on screen has it to itself.
    #[verifier::opaque]
    pub open spec fn keyed(self, key: Key, found: Seq<Found>) -> (ModelView, Seq<EffectView>) {
        if key.release {
            self.settled()
        } else if key.code == KeyCode::Char('c') && key.control {
            self.quit()
        } else if self.pending_quit {
            self.still()
        } else if let Some(panel) = self.correcting {
            self.correcting_key(panel, key)
        } else if let Some(panel) = self.settings {
            self.settings_key(panel, key, found)
        } else if self.history is Some {
            match key.code {
                KeyCode::Esc | KeyCode::Char('h') | KeyCode::Char('q') => (ModelView {
                    history: None,
                    ..self
                }).still(),
                _ => self.still(),
            }
        } else if self.help {
            self.help_key(key).still()
        } else if let Some(at) = self.filter_menu {
            self.menu_key(at, key).still()
        } else if let Some(entry) = self.copies {
            self.copies_key(entry, key)
        } else if self.action.len() > 0 {
            self.action_key(key)
        } else if self.search {
            self.search_key(key).still()
        } else {
            self.list_key(key)
        }
    }

    /// The next state, and the outside work that leads out of this one.
    pub open spec fn after(self, message: MessageView) -> (ModelView, Seq<EffectView>) {
        match message {
            MessageView::Input(key, found) => self.keyed(key, found),
            MessageView::InputError(words) => (ModelView { status: words, ..self }).quit(),
            MessageView::Refresh => self.refreshed(),
            MessageView::Tick => (ModelView { tick: wrapped(self.tick), ..self }).settled(),
            MessageView::Catalog(id, snapshot) => if self.loading == Some(id) {
                self.cataloged(snapshot)
            } else {
                self.settled()
            },
            MessageView::CatalogFinished(id, result) => if self.loading == Some(id) {
                self.catalog_finished(result)
            } else {
                self.settled()
            },
            MessageView::Progress(id, words) => if self.busy == Some(id) {
                (ModelView { status: words, ..self }).settled()
            } else {
                self.settled()
            },
            MessageView::Step(id, done, total) => if self.busy == Some(id) {
                (ModelView {
                    step: if total > 1 {
                        Some((done, total))
                    } else {
                        None
                    },
                    ..self
                }).settled()
            } else {
                self.settled()
            },
            MessageView::Finished(id, result) => if self.busy == Some(id) {
                self.finished(result)
            } else {
                self.settled()
            },
            MessageView::Configured(id, result) => if self.configuring == Some(id) {
                self.configured(result)
            } else {
                self.settled()
            },
            MessageView::Corrected(id, result) => if self.configuring == Some(id) {
                self.corrected(result)
            } else {
                self.settled()
            },
            MessageView::History(entries) => (ModelView {
                history: Some(entries),
                ..self
            }).settled(),
            MessageView::Room(room) => (ModelView { room, ..self }).settled(),
        }
    }
}

/// One more, going round at the largest number.
pub open spec fn wrapped(n: usize) -> usize {
    if n == usize::MAX {
        0
    } else {
        (n + 1) as usize
    }
}

impl Options {
    /// Bring saved settings into use.
    pub(super) fn take(&mut self, defaults: Defaults)
        ensures
            final(self)@ == configured_options(old(self)@, defaults@),
    {
        if let Some(path) = defaults.browse {
            self.browse = path;
        }
        if let Some(path) = defaults.output {
            self.output = path;
        }
        self.device = defaults.device;
        self.send_to = defaults.reader;
        self.copy_to = defaults.copy_to;
        self.folder = match defaults.folder {
            Some(folder) => folder,
            None => "/".to_owned(),
        };
        self.first_run = false;
    }
}

fn make_stale(status: &Vec<(Place, String)>) -> (r: Vec<(Place, String)>)
    ensures
        r.deep_view() == stale(status.deep_view()),
{
    let mut out: Vec<(Place, String)> = Vec::new();
    let ghost before = status.deep_view();
    for i in 0..status.len()
        invariant
            before == status.deep_view(),
            out.deep_view() == stale(before).take(i as int),
    {
        let ghost so_far = out.deep_view();
        let place = status[i].0;
        let words = "Unavailable: refresh failed; showing previous inventory".to_owned();
        proof {
            assert(before[i as int] == status@[i as int].deep_view());
            assert(stale(before).take(i as int + 1) =~= so_far.push((place, words@)));
        }
        out.push((place, words));
        proof {
            assert(out.deep_view() =~= so_far.push((place, words@)));
        }
    }
    proof {
        assert(stale(before).take(before.len() as int) =~= stale(before));
    }
    out
}

pub(super) fn copy_status(count: usize, target: Place, skipped: usize) -> (r: String)
    ensures
        r@ == copying(count as nat, target, skipped as int),
{
    let count = books::books(count);
    let mut status = text::concat5("Copying ", count.as_str(), " to ", target.label(), "…");
    if skipped > 0 {
        let left = text::concat3(" ", text::number(skipped as u64).as_str(), " skipped.");
        status.push_str(left.as_str());
    } else {
        proof {
            assert(status@ + Seq::<char>::empty() =~= status@);
        }
    }
    status
}

pub(super) fn options_for(options: &Options, entries: &Vec<Entry>) -> (r: Options)
    ensures
        r@ == job_options(options@, entries.deep_view()),
{
    let mut only_requests = true;
    for i in 0..entries.len()
        invariant
            only_requests == forall|j: int|
                0 <= j < i ==> (#[trigger] entries.deep_view()[j]).source is Local,
    {
        assert(entries.deep_view()[i as int] == entries@[i as int]@);
        if let Source::Book(_) = &entries[i].source {
            only_requests = false;
        }
    }
    let mut out = options.duplicate();
    if only_requests {
        out.send_to = None;
        out.copy_to = None;
    }
    out
}

/// Nothing is copied that was not in the dialog.
pub proof fn copyable_is_part(m: ModelView, entries: Seq<EntryView>, target: Place)
    ensures
        copyable(m, entries, target).len() <= entries.len(),
{
    order::kept_is_part(
        entries,
        |e: EntryView| !(m.destination(e, target) is Blocked),
    );
}

/// What the settings panel says while outside work for it runs.
pub open spec fn working_words(task: settings::TaskView) -> Seq<char> {
    match task {
        settings::TaskView::Save { .. } => "Saving settings…"@,
        settings::TaskView::Detect => "Looking for mounted Kobos…"@,
        settings::TaskView::Test { .. } => "Testing reader connection…"@,
    }
}

pub(super) fn working(task: &settings::Task) -> (r: String)
    ensures
        r@ == working_words(task@),
{
    match task {
        settings::Task::Save { .. } => "Saving settings…".to_owned(),
        settings::Task::Detect => "Looking for mounted Kobos…".to_owned(),
        settings::Task::Test { .. } => "Testing reader connection…".to_owned(),
    }
}

/// A panel with something else to say.
pub(super) fn told(panel: settings::Panel, words: String) -> (r: settings::Panel)
    ensures
        r@ == (settings::PanelView { message: words@, ..panel@ }),
{
    let mut panel = panel;
    panel.message = words;
    panel
}

pub(super) fn without_last(s: &str) -> (r: String)
    ensures
        r@ == if s@.len() == 0 {
            s@
        } else {
            s@.drop_last()
        },
{
    let c = text::chars(s);
    if c.len() == 0 {
        return s.to_owned();
    }
    let shorter = text::slice(c.as_slice(), 0, c.len() - 1);
    proof {
        assert(shorter@ =~= s@.drop_last());
    }
    shorter
}

impl Model {
    pub(super) fn settle(&self) -> (r: Vec<Effect>)
        ensures
            (self@, r.deep_view()) == self@.settled(),
    {
        proof {
            plain(*self);
        }
        if self.pending_quit && self.busy.is_none() && self.loading.is_none()
            && self.configuring.is_none() {
            just(Effect::Quit)
        } else {
            nothing()
        }
    }

    pub(super) fn id(&mut self) -> (r: u64)
        requires
            old(self).next_id < u64::MAX,
        ensures
            r == old(self).next_id + 1,
            final(self)@ == (ModelView { next_id: r, ..old(self)@ }),
    {
        proof {
            reveal(Model::seen);
        }
        self.next_id = self.next_id + 1;
        self.next_id
    }

    pub fn open_settings(&mut self, first_run: bool)
        ensures
            final(self)@ == (ModelView {
                settings: Some(settings::panel_for(old(self)@.options, first_run)),
                ..old(self)@
            }),
    {
        proof {
            reveal(Model::seen);
        }
        self.settings = Some(settings::Panel::new(&self.options, first_run));
    }

    pub(super) fn quit(&mut self) -> (r: Vec<Effect>)
        ensures
            (final(self)@, r.deep_view()) == old(self)@.quit(),
    {
        proof {
            reveal(Model::seen);
            reveal(ModelView::quit);
        }
        if self.busy.is_some() || self.loading.is_some() || self.configuring.is_some() {
            self.pending_quit = true;
            self.status = "Finishing current work before quitting…".to_owned();
            nothing()
        } else {
            just(Effect::Quit)
        }
    }

    #[verifier::spinoff_prover]
    pub(super) fn refresh(&mut self) -> (r: Vec<Effect>)
        requires
            old(self).next_id < u64::MAX,
        ensures
            (final(self)@, r.deep_view()) == old(self)@.refreshed(),
    {
        proof {
            reveal(Model::seen);
            reveal(ModelView::refreshed);
        }
        if self.pending_quit {
            return self.settle();
        }
        if self.loading.is_some() || self.busy.is_some() {
            // Remembered rather than refused, so asking during a scan means
            // "when you can" instead of "no".
            self.pending_refresh = true;
            self.status = "Will refresh when the current work finishes.".to_owned();
            return nothing();
        }
        self.pending_refresh = false;
        self.action = Vec::new();
        self.copies = None;
        self.confirm = None;
        self.retaining = self.entries.len() > 0;
        self.pending_catalog = None;
        let id = self.id();
        self.loading = Some(id);
        self.status = "Discovering Local, Kobo and CrossPoint independently…".to_owned();
        proof {
            assert(self@.action =~= Seq::<EntryView>::empty());
        }
        just(Effect::Load { id, options: self.options.duplicate() })
    }

    fn catch_up(&mut self) -> (r: Vec<Effect>)
        requires
            old(self).next_id < u64::MAX,
        ensures
            (final(self)@, r.deep_view()) == old(self)@.caught_up(),
    {
        proof {
            plain(*self);
            reveal(ModelView::caught_up);
        }
        if self.pending_refresh && self.busy.is_none() && self.loading.is_none()
            && !self.pending_quit {
            self.refresh()
        } else {
            self.settle()
        }
    }

    #[verifier::spinoff_prover]
    fn correct(&mut self, result: Result<String, String>) -> (r: Vec<Effect>)
        requires
            old(self).next_id < u64::MAX,
        ensures
            (final(self)@, r.deep_view()) == old(self)@.corrected(result_view(result)),
    {
        proof {
            reveal(Model::seen);
            reveal(ModelView::corrected);
        }
        self.configuring = None;
        match result {
            Ok(words) => {
                self.correcting = None;
                self.status = words;
                self.refresh()
            },
            Err(words) => {
                match self.correcting.take() {
                    Some(panel) => {
                        let mut panel = panel;
                        panel.message = words;
                        self.correcting = Some(panel);
                    },
                    None => self.status = words,
                }
                self.settle()
            },
        }
    }

    fn tell(&mut self, words: String) -> (r: Vec<Effect>)
        ensures
            (final(self)@, r.deep_view()) == old(self)@.told(words@),
    {
        proof {
            reveal(Model::seen);
            reveal(ModelView::told);
        }
        match self.settings.take() {
            Some(panel) => {
                let mut panel = panel;
                panel.message = words;
                self.settings = Some(panel);
            },
            None => {},
        }
        self.settle()
    }

    fn detect(&mut self, devices: Vec<String>)
        ensures
            final(self)@ == (ModelView {
                settings: match old(self)@.settings {
                    Some(panel) => Some(panel.detected(devices.deep_view())),
                    None => None,
                },
                ..old(self)@
            }),
    {
        proof {
            reveal(Model::seen);
        }
        if let Some(panel) = self.settings.take() {
            let mut panel = panel;
            panel.detected(devices);
            self.settings = Some(panel);
        }
    }

    fn forget(&mut self)
        ensures
            final(self)@ == (ModelView {
                skipped: false,
                settings: None,
                entries: Seq::empty(),
                catalog: SnapshotView::empty(),
                marked: Seq::empty(),
                selected: 0,
                scroll: 0,
                ..old(self)@
            }),
            final(self).next_id == old(self).next_id,
    {
        proof {
            reveal(Model::seen);
        }
        self.skipped = false;
        self.settings = None;
        self.entries = Vec::new();
        self.catalog = Snapshot::empty();
        self.marked = Vec::new();
        self.selected = 0;
        self.scroll = 0;
        proof {
            assert(self@.entries =~= Seq::<EntryView>::empty());
            assert(self@.marked =~= Seq::<(Place, Seq<char>)>::empty());
        }
    }

    #[verifier::spinoff_prover]
    fn configure(&mut self, result: Result<Outcome, String>) -> (r: Vec<Effect>)
        requires
            old(self).next_id < u64::MAX,
        ensures
            (final(self)@, r.deep_view()) == old(self)@.configured(result_view(result)),
    {
        proof {
            plain(*self);
            reveal(ModelView::configured);
        }
        self.end_configuring();
        match result {
            Ok(Outcome::Saved(defaults)) => {
                self.use_settings(defaults);
                self.forget();
                self.refresh()
            },
            Ok(Outcome::Detected(devices)) => {
                self.detect(devices);
                self.settle()
            },
            Ok(Outcome::Tested(words)) => self.tell(words),
            Err(words) => self.tell(words),
        }
    }

    #[verifier::spinoff_prover]
    fn take_in(&mut self, snapshot: Snapshot)
        ensures
            final(self)@ == old(self)@.taken_in(snapshot@),
            final(self).next_id == old(self).next_id,
    {
        proof {
            reveal(ModelView::taken_in);
            plain(*self);
        }
        let old = if self.touched {
            self.selected_entry()
        } else {
            None
        };
        self.set_rows(make_rows(&snapshot));
        self.sort_entries();
        self.set_catalog(snapshot);
        let row = match old {
            Some(old) => {
                let shown = self.filtered();
                find_row(&shown, &old.source)
            },
            None => 0,
        };
        self.select(row);
        proof {
            plain(*self);
        }
    }

    fn accept_catalog(&mut self)
        ensures
            final(self)@ == old(self)@.accepted(),
            final(self).next_id == old(self).next_id,
    {
        proof {
            reveal(ModelView::accepted);
            reveal(Model::seen);
        }
        self.retaining = false;
        if let Some(snapshot) = self.pending_catalog.take() {
            self.take_in(snapshot);
        }
    }

    fn reject_catalog(&mut self)
        ensures
            final(self)@ == old(self)@.rejected(),
            final(self).next_id == old(self).next_id,
    {
        proof {
            reveal(ModelView::rejected);
            reveal(Model::seen);
        }
        self.retaining = false;
        self.pending_catalog = None;
        let status = make_stale(&self.catalog.status);
        self.catalog.status = status;
    }

    fn end_loading(&mut self, words: String) -> (r: Vec<Effect>)
        requires
            old(self).next_id < u64::MAX,
        ensures
            (final(self)@, r.deep_view()) == old(self)@.loaded(words@),
    {
        proof {
            reveal(ModelView::loaded);
            reveal(Model::seen);
        }
        self.loading = None;
        if self.busy.is_none() {
            self.status = words;
        }
        self.catch_up()
    }

    #[verifier::spinoff_prover]
    fn finish_catalog(&mut self, result: Result<(), String>) -> (r: Vec<Effect>)
        requires
            old(self).next_id < u64::MAX,
        ensures
            (final(self)@, r.deep_view()) == old(self)@.catalog_finished(result_view(result)),
    {
        match result {
            Ok(()) => {
                self.accept_catalog();
                self.end_loading(
                    "Library ready. Enter chooses a copy destination; r refreshes locations.".to_owned(),
                )
            },
            Err(words) => {
                self.reject_catalog();
                self.end_loading(text::concat("Discovery error: ", words.as_str()))
            },
        }
    }

    #[verifier::spinoff_prover]
    fn finish(&mut self, result: Result<String, String>) -> (r: Vec<Effect>)
        requires
            old(self).next_id < u64::MAX,
        ensures
            (final(self)@, r.deep_view()) == old(self)@.finished(result_view(result)),
    {
        proof {
            reveal(Model::seen);
            reveal(ModelView::finished);
        }
        self.busy = None;
        self.cancel = false;
        self.step = None;
        self.status = match result {
            Ok(words) => words,
            Err(words) => text::concat("Error: ", words.as_str()),
        };
        self.catch_up()
    }

    /// Take in what happened, and say what outside work to start.
    #[verifier::spinoff_prover]
    pub fn update(&mut self, message: Message) -> (r: Vec<Effect>)
        requires
            old(self).next_id < u64::MAX,
        ensures
            (final(self)@, r.deep_view()) == old(self)@.after(message@),
    {
        proof {
            plain(*self);
        }
        match message {
            Message::Input(key, found) => return self.key(key, &found),
            Message::InputError(words) => {
                self.set_status(words);
                return self.quit();
            },
            Message::Refresh => return self.refresh(),
            Message::Tick => self.tick(),
            Message::Catalog(id, snapshot) => {
                if self.loading == Some(id) {
                    if self.retaining {
                        self.hold_catalog(snapshot);
                        return nothing();
                    }
                    self.take_in(snapshot);
                }
            },
            Message::CatalogFinished(id, result) => {
                if self.loading == Some(id) {
                    return self.finish_catalog(result);
                }
            },
            Message::Progress(id, words) => {
                if self.busy == Some(id) {
                    self.set_status(words);
                }
            },
            Message::Step(id, done, total) => {
                if self.busy == Some(id) {
                    self.set_step(
                        if total > 1 {
                            Some((done, total))
                        } else {
                            None
                        },
                    );
                }
            },
            Message::Finished(id, result) => {
                if self.busy == Some(id) {
                    return self.finish(result);
                }
            },
            Message::Configured(id, result) => {
                if self.configuring == Some(id) {
                    return self.configure(result);
                }
            },
            Message::Corrected(id, result) => {
                if self.configuring == Some(id) {
                    return self.correct(result);
                }
            },
            Message::History(entries) => self.set_history(Some(entries)),
            Message::Room(room) => self.set_room(room),
        }
        self.settle()
    }
}

} // verus!
