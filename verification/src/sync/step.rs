//! The sync of one book, step by step: what is to be done next, and what came of
//! it. Nothing here writes anywhere; a dry run never asks for anything to be
//! written.
use super::{
    candidate_of, check_import, check_local, check_partial, check_present, decided, detail,
    detail_of, outcome, run, transferred, Candidate, CandidateView, Decision, DecisionView,
    Options, OptionsView, Planned, PlannedView, Status,
};
use crate::crosspoint::send::begins;
use crate::inventory::{identified, identity, Destination, ExistingView, Inventory};
use crate::paths;
use crate::text;
use crate::values::Duplicate;
use vstd::prelude::*;

pub mod laws;

verus! {

broadcast use vstd::string::group_string_axioms;

/// A book that was exported and made ready.
#[derive(Clone, Debug, PartialEq, Eq)]
pub struct Held {
    pub candidate: Candidate,
    pub original: Vec<u8>,
    pub data: Vec<u8>,
    /// What its local import is called.
    pub file: String,
}

#[verifier::ext_equal]
pub struct HeldView {
    pub candidate: CandidateView,
    pub original: Seq<u8>,
    pub data: Seq<u8>,
    pub file: Seq<char>,
}

impl View for Held {
    type V = HeldView;

    open spec fn view(&self) -> HeldView {
        HeldView {
            candidate: self.candidate@,
            original: self.original@,
            data: self.data@,
            file: self.file@,
        }
    }
}

/// How far a book has come.
#[derive(Clone, Debug, PartialEq, Eq)]
pub enum Stage {
    /// Between two books.
    Idle,
    /// The book is being exported and made ready.
    Exporting,
    /// The destination has it at this path, and is being read again.
    Rereading(Held, String),
    /// A shorter file stands at this path, and is being read.
    Comparing(Held, String),
    /// What stands where the local import would go is being looked at. Says where
    /// the book would go, and whether that is a repair.
    Looking(Held, String, bool),
    /// The local import is being made. Says whether the transfer is a repair.
    Importing(Held, bool),
    /// The book is on its way, and its local import is at this path.
    Moving(Held, bool, String),
}

#[verifier::ext_equal]
pub enum StageView {
    Idle,
    Exporting,
    Rereading(HeldView, Seq<char>),
    Comparing(HeldView, Seq<char>),
    Looking(HeldView, Seq<char>, bool),
    Importing(HeldView, bool),
    Moving(HeldView, bool, Seq<char>),
}

impl View for Stage {
    type V = StageView;

    open spec fn view(&self) -> StageView {
        match self {
            Stage::Idle => StageView::Idle,
            Stage::Exporting => StageView::Exporting,
            Stage::Rereading(held, path) => StageView::Rereading(held@, path@),
            Stage::Comparing(held, path) => StageView::Comparing(held@, path@),
            Stage::Looking(held, path, repair) => StageView::Looking(held@, path@, *repair),
            Stage::Importing(held, repair) => StageView::Importing(held@, *repair),
            Stage::Moving(held, repair, local) => StageView::Moving(held@, *repair, local@),
        }
    }
}

/// A sync: what the destination holds, what this run has planned or done, where
/// books go, and how far the present one has come.
pub struct State {
    pub inventory: Inventory,
    pub planned: Vec<Planned>,
    pub base: String,
    /// The folder of the card, when books go to one.
    pub card: Option<String>,
    pub stage: Stage,
}

#[verifier::ext_equal]
pub struct StateView {
    pub inventory: Seq<ExistingView>,
    pub planned: Seq<PlannedView>,
    pub base: Seq<char>,
    pub card: Option<Seq<char>>,
    pub stage: StageView,
}

impl View for State {
    type V = StateView;

    open spec fn view(&self) -> StateView {
        StateView {
            inventory: self.inventory@,
            planned: self.planned.deep_view(),
            base: self.base@,
            card: self.card.deep_view(),
            stage: self.stage@,
        }
    }
}

/// What came of an action.
#[derive(Clone, Debug, PartialEq, Eq)]
pub enum Event {
    /// Another book is up.
    Begin,
    /// The bytes of a book, what its import is called, and what it is called, holds
    /// and whose it is once it is made ready.
    Exported { original: Vec<u8>, file: String, name: String, data: Vec<u8>, author: String },
    /// The bytes of a file of the destination.
    Read(Vec<u8>),
    /// What stands at a path: nothing, or whether it is a file and its bytes.
    Local(Option<(bool, Vec<u8>)>),
    /// Where the local import is, and its bytes.
    Imported(String, Vec<u8>),
    /// Where the reader has the book, and where a shorter file was put.
    Sent(String, Option<String>),
    /// Where the card has the book, in full.
    Copied(String),
    Failed(String),
}

#[verifier::ext_equal]
pub enum EventView {
    Begin,
    Exported {
        original: Seq<u8>,
        file: Seq<char>,
        name: Seq<char>,
        data: Seq<u8>,
        author: Seq<char>,
    },
    Read(Seq<u8>),
    Local(Option<(bool, Seq<u8>)>),
    Imported(Seq<char>, Seq<u8>),
    Sent(Seq<char>, Option<Seq<char>>),
    Copied(Seq<char>),
    Failed(Seq<char>),
}

impl View for Event {
    type V = EventView;

    open spec fn view(&self) -> EventView {
        match self {
            Event::Begin => EventView::Begin,
            Event::Exported { original, file, name, data, author } => EventView::Exported {
                original: original@,
                file: file@,
                name: name@,
                data: data@,
                author: author@,
            },
            Event::Read(bytes) => EventView::Read(bytes@),
            Event::Local(found) => EventView::Local(
                match found {
                    Some((file, bytes)) => Some((*file, bytes@)),
                    None => None,
                },
            ),
            Event::Imported(path, bytes) => EventView::Imported(path@, bytes@),
            Event::Sent(path, backup) => EventView::Sent(path@, backup.deep_view()),
            Event::Copied(path) => EventView::Copied(path@),
            Event::Failed(words) => EventView::Failed(words@),
        }
    }
}

/// What is to be done next.
#[derive(Debug, PartialEq, Eq)]
pub enum Action {
    /// Export the book and make it ready.
    Export,
    /// Read the file at this position of the inventory.
    Read(usize),
    /// Look at what stands at this path of the computer.
    Look(String),
    /// Write the local import.
    Import,
    /// Send the book to the reader, into its author's folder when one is named.
    Send(Option<String>),
    /// Copy the book to the card, likewise.
    Copy(Option<String>),
    /// The book is dealt with.
    Finish(Result<(Status, String, String), String>),
}

#[verifier::ext_equal]
pub enum ActionView {
    Export,
    Read(usize),
    Look(Seq<char>),
    Import,
    Send(Option<Seq<char>>),
    Copy(Option<Seq<char>>),
    Finish(Result<(Status, Seq<char>, Seq<char>), Seq<char>>),
}

impl View for Action {
    type V = ActionView;

    open spec fn view(&self) -> ActionView {
        match self {
            Action::Export => ActionView::Export,
            Action::Read(i) => ActionView::Read(*i),
            Action::Look(path) => ActionView::Look(path@),
            Action::Import => ActionView::Import,
            Action::Send(author) => ActionView::Send(author.deep_view()),
            Action::Copy(author) => ActionView::Copy(author.deep_view()),
            Action::Finish(result) => ActionView::Finish(
                match result {
                    Ok((status, path, words)) => Ok((*status, path@, words@)),
                    Err(words) => Err(words@),
                },
            ),
        }
    }
}

/// What is said of a transfer that failed once its local import was made.
pub open spec fn retained(local: Seq<char>, words: Seq<char>) -> Seq<char> {
    "Local import retained at "@ + local + "; rerun sync to recover: "@ + words
}

/// The path of a file below the root of a card, as the inventory has it.
pub open spec fn card_path(root: Seq<char>, path: Seq<char>) -> Option<Seq<char>> {
    let head = paths::bare(root) + "/"@;
    if text::starts(path, head) {
        Some("/"@ + path.skip(head.len() as int))
    } else {
        None
    }
}

fn on_card(root: &str, path: &str) -> (r: Option<String>)
    ensures
        r.deep_view() == card_path(root@, path@),
{
    let head = text::concat(paths::trim_slashes(root).as_str(), "/");
    if text::starts_with(path, head.as_str()) {
        let c = text::chars(path);
        let n: usize = text::chars(head.as_str()).len();
        let rest = text::slice(c.as_slice(), n, c.len());
        proof {
            assert(rest@ =~= path@.skip(n as int));
        }
        Some(text::concat("/", rest.as_str()))
    } else {
        None
    }
}

impl StateView {
    pub open spec fn at(self, stage: StageView, action: ActionView) -> (StateView, ActionView) {
        (StateView { stage, ..self }, action)
    }

    pub open spec fn failed(self, words: Seq<char>) -> (StateView, ActionView) {
        self.at(StageView::Idle, ActionView::Finish(Err(words)))
    }

    pub open spec fn finished(self, status: Status, path: Seq<char>, words: Seq<char>) -> (
        StateView,
        ActionView,
    ) {
        self.at(StageView::Idle, ActionView::Finish(Ok((status, path, words))))
    }

    /// A copy that was planned or made: later books of this run know of it.
    pub open spec fn planned_for(
        self,
        held: HeldView,
        apply: bool,
        repair: bool,
        path: Seq<char>,
        backup: Option<Seq<char>>,
        local: Option<Seq<char>>,
    ) -> (StateView, ActionView) {
        let s = StateView {
            planned: self.planned.push(
                PlannedView {
                    original: held.candidate.original,
                    prepared: held.candidate.prepared,
                    path,
                },
            ),
            ..self
        };
        s.finished(
            outcome(apply, repair),
            path,
            detail_of(held.original.len() as u64, held.data.len() as u64, backup, local),
        )
    }

    /// A book that has a place to go to: the import comes first, or a look at what
    /// would be in its way.
    pub open spec fn placed(self, held: HeldView, path: Seq<char>, repair: bool, o: OptionsView) -> (
        StateView,
        ActionView,
    ) {
        if o.apply {
            self.at(StageView::Importing(held, repair), ActionView::Import)
        } else {
            self.at(
                StageView::Looking(held, path, repair),
                ActionView::Look(paths::below(o.output, held.file)),
            )
        }
    }

    pub open spec fn weighed(self, held: HeldView, o: OptionsView) -> (StateView, ActionView) {
        match decided(
            self.inventory,
            self.planned,
            self.base,
            held.candidate,
            o.organized,
            o.repair,
        ) {
            Err(words) => self.failed(words),
            Ok(DecisionView::Present(i)) => {
                let path = self.inventory[i as int].file.path;
                if o.apply {
                    self.at(StageView::Rereading(held, path), ActionView::Read(i))
                } else {
                    self.finished(Status::Present, path, "Verified matching book contents"@)
                }
            },
            Ok(DecisionView::Duplicate(path)) => self.finished(
                Status::Duplicate,
                path,
                "Same content as an earlier book in this run"@,
            ),
            Ok(DecisionView::Repair(path, i)) => self.at(
                StageView::Comparing(held, path),
                ActionView::Read(i),
            ),
            Ok(DecisionView::Transfer(path)) => self.placed(held, path, false, o),
        }
    }
}

/// What follows an event.
pub open spec fn stepped(s: StateView, event: EventView, o: OptionsView) -> (
    StateView,
    ActionView,
) {
    match (s.stage, event) {
        (StageView::Moving(_, _, local), EventView::Failed(words)) => s.failed(
            retained(local, words),
        ),
        (_, EventView::Failed(words)) => s.failed(words),
        (StageView::Idle, EventView::Begin) => s.at(StageView::Exporting, ActionView::Export),
        (
            StageView::Exporting,
            EventView::Exported { original, file, name, data, author },
        ) => s.weighed(
            HeldView { candidate: candidate_of(original, data, author, name), original, data, file },
            o,
        ),
        (StageView::Rereading(held, path), EventView::Read(bytes)) => if identified(bytes).matches(
            held.candidate.original,
        ) || identified(bytes).matches(held.candidate.prepared) {
            s.finished(Status::Present, path, "Verified matching book contents"@)
        } else {
            s.failed("Destination changed since inventory; rerun sync"@)
        },
        (StageView::Comparing(held, path), EventView::Read(bytes)) => if begins(bytes, held.data) {
            s.placed(held, path, true, o)
        } else {
            s.failed("Existing file is not a matching incomplete prefix: "@ + path)
        },
        (StageView::Looking(held, path, repair), EventView::Local(found)) if !o.apply => match found {
            Some((file, bytes)) if !(file && bytes == held.original) => s.failed(
                "Existing local import differs: "@ + paths::below(o.output, held.file),
            ),
            _ => s.planned_for(held, false, repair, path, None, None),
        },
        (StageView::Importing(held, repair), EventView::Imported(local, bytes)) if o.apply =>
        if identified(bytes).sha256 == held.candidate.original.sha256 {
            let author = if o.organized {
                Some(held.candidate.author)
            } else {
                None
            };
            s.at(
                StageView::Moving(held, repair, local),
                if s.card is Some {
                    ActionView::Copy(author)
                } else {
                    ActionView::Send(author)
                },
            )
        } else {
            s.failed("Kobo book changed during sync; local import retained, rerun sync"@)
        },
        (StageView::Moving(held, repair, local), EventView::Sent(path, backup)) if o.apply
            && s.card is None => s.planned_for(held, true, repair, path, backup, Some(local)),
        (StageView::Moving(held, repair, local), EventView::Copied(path)) if o.apply && s.card
            is Some => match card_path(s.card->0, path) {
            Some(path) => s.planned_for(held, true, repair, path, None, Some(local)),
            None => s.failed(retained(local, "The copy is not on the card"@)),
        },
        _ => s.failed("Unexpected answer during sync"@),
    }
}

fn refuse(words: &str) -> (r: Action)
    ensures
        r@ == ActionView::Finish(Err(words@)),
{
    Action::Finish(Err(words.to_owned()))
}

fn conclude(status: Status, path: String, words: String) -> (r: Action)
    ensures
        r@ == ActionView::Finish(Ok((status, path@, words@))),
{
    Action::Finish(Ok((status, path, words)))
}

impl State {
    pub fn new(inventory: Inventory, destination: &Destination) -> (r: State)
        ensures
            r@.inventory == inventory@,
            r@.planned == Seq::<PlannedView>::empty(),
            r@.base == destination.root(),
            r@.card == match destination {
                Destination::Card(root) => Some(root@),
                Destination::Reader(_) => None,
            },
            r@.stage is Idle,
    {
        let planned: Vec<Planned> = Vec::new();
        assert(planned.deep_view() =~= Seq::<PlannedView>::empty());
        State {
            inventory,
            planned,
            base: destination.base().to_owned(),
            card: match destination {
                Destination::Card(root) => Some(root.duplicate()),
                Destination::Reader(_) => None,
            },
            stage: Stage::Idle,
        }
    }

    fn end(self, action: Action) -> (r: (State, Action))
        ensures
            (r.0@, r.1@) == self@.at(StageView::Idle, action@),
    {
        (State { stage: Stage::Idle, ..self }, action)
    }

    fn plan(
        self,
        held: Held,
        apply: bool,
        repair: bool,
        path: String,
        backup: Option<String>,
        local: Option<String>,
    ) -> (r: (State, Action))
        ensures
            (r.0@, r.1@) == self@.planned_for(
                held@,
                apply,
                repair,
                path@,
                backup.deep_view(),
                local.deep_view(),
            ),
    {
        let words = detail(held.original.len() as u64, held.data.len() as u64, &backup, &local);
        let State { inventory, planned, base, card, stage: _ } = self;
        let mut planned = planned;
        let ghost before = planned.deep_view();
        let put = Planned {
            original: held.candidate.original,
            prepared: held.candidate.prepared,
            path: path.duplicate(),
        };
        let ghost shown = put@;
        planned.push(put);
        proof {
            assert(planned.deep_view() =~= before.push(shown));
        }
        let state = State { inventory, planned, base, card, stage: Stage::Idle };
        (state, conclude(transferred(apply, repair), path, words))
    }

    fn place(self, held: Held, path: String, repair: bool, options: &Options) -> (r: (State, Action))
        ensures
            (r.0@, r.1@) == self@.placed(held@, path@, repair, options@),
    {
        if options.apply {
            (State { stage: Stage::Importing(held, repair), ..self }, Action::Import)
        } else {
            let look = paths::resolve(options.output.as_str(), held.file.as_str());
            (State { stage: Stage::Looking(held, path, repair), ..self }, Action::Look(look))
        }
    }

    fn weigh(self, held: Held, options: &Options) -> (r: (State, Action))
        ensures
            (r.0@, r.1@) == self@.weighed(held@, options@),
    {
        let decision = run(
            &self.inventory,
            &self.planned,
            self.base.as_str(),
            &held.candidate,
            options.organized,
            options.repair,
        );
        match decision {
            Err(words) => self.end(refuse(words.as_str())),
            Ok(Decision::Present(i)) => {
                assert(self.inventory@[i as int] == self.inventory.entries@[i as int]@);
                let path = self.inventory.entries[i].file.path.duplicate();
                if options.apply {
                    (State { stage: Stage::Rereading(held, path), ..self }, Action::Read(i))
                } else {
                    self.end(
                        conclude(
                            Status::Present,
                            path,
                            "Verified matching book contents".to_owned(),
                        ),
                    )
                }
            },
            Ok(Decision::Duplicate(path)) => self.end(
                conclude(
                    Status::Duplicate,
                    path,
                    "Same content as an earlier book in this run".to_owned(),
                ),
            ),
            Ok(Decision::Repair(path, i)) => (
                State { stage: Stage::Comparing(held, path), ..self },
                Action::Read(i),
            ),
            Ok(Decision::Transfer(path)) => self.place(held, path, false, options),
        }
    }
}

/// Take the sync of a book one step further.
pub fn step(state: State, event: Event, options: &Options) -> (r: (State, Action))
    ensures
        (r.0@, r.1@) == stepped(state@, event@, options@),
{
    let State { inventory, planned, base, card, stage } = state;
    let idle = State { inventory, planned, base, card, stage: Stage::Idle };
    match (stage, event) {
        (Stage::Moving(_, _, local), Event::Failed(words)) => {
            let said = text::concat4(
                "Local import retained at ",
                local.as_str(),
                "; rerun sync to recover: ",
                words.as_str(),
            );
            idle.end(refuse(said.as_str()))
        },
        (_, Event::Failed(words)) => idle.end(refuse(words.as_str())),
        (Stage::Idle, Event::Begin) => (State { stage: Stage::Exporting, ..idle }, Action::Export),
        (Stage::Exporting, Event::Exported { original, file, name, data, author }) => {
            let candidate = Candidate {
                original: identity(original.as_slice()),
                prepared: identity(data.as_slice()),
                author,
                name,
                bytes: data.len() as u64,
            };
            idle.weigh(Held { candidate, original, data, file }, options)
        },
        (Stage::Rereading(held, path), Event::Read(bytes)) => {
            let current = identity(bytes.as_slice());
            match check_present(&current, &held.candidate) {
                Ok(()) => idle.end(
                    conclude(Status::Present, path, "Verified matching book contents".to_owned()),
                ),
                Err(words) => idle.end(refuse(words.as_str())),
            }
        },
        (Stage::Comparing(held, path), Event::Read(bytes)) => {
            match check_partial(bytes.as_slice(), held.data.as_slice(), path.as_str()) {
                Ok(()) => idle.place(held, path, true, options),
                Err(words) => idle.end(refuse(words.as_str())),
            }
        },
        (Stage::Looking(held, path, repair), Event::Local(found)) if !options.apply => {
            if let Some((file, bytes)) = found {
                let shown = paths::resolve(options.output.as_str(), held.file.as_str());
                if let Err(words) = check_local(
                    file,
                    bytes.as_slice(),
                    held.original.as_slice(),
                    shown.as_str(),
                ) {
                    return idle.end(refuse(words.as_str()));
                }
            }
            idle.plan(held, false, repair, path, None, None)
        },
        (Stage::Importing(held, repair), Event::Imported(local, bytes)) if options.apply => {
            let made = identity(bytes.as_slice());
            if let Err(words) = check_import(&made, &held.candidate) {
                return idle.end(refuse(words.as_str()));
            }
            let author = if options.organized {
                Some(held.candidate.author.duplicate())
            } else {
                None
            };
            let action = if idle.card.is_some() {
                Action::Copy(author)
            } else {
                Action::Send(author)
            };
            (State { stage: Stage::Moving(held, repair, local), ..idle }, action)
        },
        (Stage::Moving(held, repair, local), Event::Sent(path, backup)) if options.apply
            && idle.card.is_none() => idle.plan(held, true, repair, path, backup, Some(local)),
        (Stage::Moving(held, repair, local), Event::Copied(path)) if options.apply
            && idle.card.is_some() => {
            let found = match &idle.card {
                Some(root) => on_card(root.as_str(), path.as_str()),
                None => None,
            };
            match found {
                Some(path) => idle.plan(held, true, repair, path, None, Some(local)),
                None => {
                    let said = text::concat4(
                        "Local import retained at ",
                        local.as_str(),
                        "; rerun sync to recover: ",
                        "The copy is not on the card",
                    );
                    idle.end(refuse(said.as_str()))
                },
            }
        },
        _ => idle.end(refuse("Unexpected answer during sync")),
    }
}

/// A dry run asks for nothing to be written: no import, no sending, no copying.
pub proof fn a_dry_run_writes_nothing(s: StateView, event: EventView, o: OptionsView)
    requires
        !o.apply,
    ensures
        ({
            let action = stepped(s, event, o).1;
            !(action is Import || action is Send || action is Copy)
        }),
{
}

/// Whether a book is dealt with and goes to a path, or went there.
pub open spec fn goes(action: ActionView, to: Seq<char>, apply: bool) -> bool {
    match action {
        ActionView::Finish(Ok((status, path, words))) => path == to && if apply {
            status == Status::Sent || status == Status::Repaired
        } else {
            status == Status::Transfer || status == Status::Repair
        },
        _ => false,
    }
}

/// What this run has planned grows only when a book is dealt with and goes, or went,
/// somewhere; a book that fails, is there already or is a duplicate adds nothing.
pub proof fn only_success_is_planned(s: StateView, event: EventView, o: OptionsView)
    ensures
        ({
            let (after, action) = stepped(s, event, o);
            &&& after.inventory == s.inventory
            &&& after.base == s.base
            &&& after.card == s.card
            &&& after.planned == s.planned || {
                &&& after.planned.len() == s.planned.len() + 1
                &&& after.planned.drop_last() == s.planned
                &&& goes(action, after.planned.last().path, o.apply)
            }
        }),
{
    let (after, action) = stepped(s, event, o);
    if after.planned != s.planned {
        assert(after.planned.drop_last() =~= s.planned);
    }
}

/// Whether a book is said to have arrived.
pub open spec fn arrived(action: ActionView) -> bool {
    match action {
        ActionView::Finish(Ok((status, path, words))) => status == Status::Sent || status
            == Status::Repaired,
        _ => false,
    }
}

/// A book is transferred only after its local import was found to be the book that
/// was looked at, and is called transferred only when the reader or the card has
/// it.
pub proof fn transfers_follow_the_import(s: StateView, event: EventView, o: OptionsView)
    ensures
        ({
            let action = stepped(s, event, o).1;
            &&& action is Send || action is Copy ==> {
                &&& o.apply
                &&& s.stage is Importing
                &&& event is Imported
                &&& identified(event->Imported_1).sha256
                    == s.stage->Importing_0.candidate.original.sha256
            }
            &&& arrived(action) ==> o.apply && s.stage is Moving && (event is Sent || event
                is Copied)
        }),
{
}

} // verus!
