//! What the interface has done for it: how its settings read to the library,
//! and what is said when a set of books has been copied.
use super::{Entry, EntryView, Options, OptionsView, Source};
use crate::books;
use crate::books::transfer;
use crate::books::Place;
use crate::crosspoint::Status;
use crate::order;
use crate::text;
use crate::values::{holds, result_view, Duplicate};
use vstd::prelude::*;

pub mod laws;

verus! {

broadcast use vstd::string::group_string_axioms;

/// The library's options, as the interface has them.
pub fn library_options(options: &Options) -> (r: transfer::Options)
    ensures
        r.show_previews == options.show_previews,
        r.local@ == options@.browse,
        r.output@ == options@.output,
        r.kobo.deep_view() == options@.device,
        r.reader.deep_view() == options@.send_to,
        r.card.deep_view() == options@.copy_to,
        r.folder@ == options@.folder,
        r.serial.deep_view() == options@.serial,
        r.optimize == options.optimize,
        r.organized == options.organized,
        r.cache is None,
{
    transfer::Options {
        show_previews: options.show_previews,
        local: options.browse.duplicate(),
        output: options.output.duplicate(),
        kobo: options.device.duplicate(),
        reader: options.send_to.duplicate(),
        card: options.copy_to.duplicate(),
        folder: options.folder.duplicate(),
        serial: options.serial.duplicate(),
        optimize: options.optimize,
        organized: options.organized,
        cache: None,
    }
}

/// What is said while one book of several is copied.
pub fn step(index: usize, total: usize, title: &str) -> (r: String)
    requires
        index < usize::MAX,
    ensures
        r@ == "Copying "@ + text::decimal(index as nat + 1) + " of "@ + text::decimal(total as nat)
            + ": "@ + title@ + "…"@,
{
    let head = text::concat4(
        "Copying ",
        text::number(index as u64 + 1).as_str(),
        " of ",
        text::number(total as u64).as_str(),
    );
    text::concat4(head.as_str(), ": ", title, "…")
}

/// A set of books that is being copied.
#[derive(Clone, Debug, PartialEq, Eq)]
pub struct Batch {
    pub total: usize,
    pub done: usize,
    pub failures: Vec<String>,
    pub last: String,
    pub stopped: bool,
}

#[verifier::ext_equal]
pub struct BatchView {
    pub total: nat,
    pub done: nat,
    pub failures: Seq<Seq<char>>,
    pub last: Seq<char>,
    pub stopped: bool,
}

impl View for Batch {
    type V = BatchView;

    open spec fn view(&self) -> BatchView {
        BatchView {
            total: self.total as nat,
            done: self.done as nat,
            failures: self.failures.deep_view(),
            last: self.last@,
            stopped: self.stopped,
        }
    }
}

impl BatchView {
    /// The set with what became of one more book.
    pub open spec fn with(self, title: Seq<char>, result: Result<Seq<char>, Seq<char>>) -> BatchView {
        match result {
            Ok(message) => BatchView { done: self.done + 1, last: message, ..self },
            Err(words) => BatchView {
                failures: self.failures.push(title + ": "@ + words),
                ..self
            },
        }
    }

    /// What the failures come to: the first two, and a mark for more.
    pub open spec fn failed(self) -> Seq<char> {
        if self.failures.len() == 0 {
            Seq::empty()
        } else {
            " "@ + text::decimal(self.failures.len()) + " failed: "@ + (
            if self.failures.len() == 1 {
                self.failures[0]
            } else {
                self.failures[0] + "; "@ + self.failures[1]
            }) + (if self.failures.len() > 2 {
                "; …"@
            } else {
                ""@
            })
        }
    }

    /// What is said of the set at the end.
    pub open spec fn summary(self, target: Place) -> Result<Seq<char>, Seq<char>> {
        if self.total == 1 && self.failures.len() == 0 {
            Ok(self.last + " Press r to refresh."@)
        } else if self.total == 1 {
            Err(self.failures[0])
        } else {
            Ok(
                "Copied "@ + text::decimal(self.done) + " of "@ + books::counted(self.total)
                    + " to "@ + target.name() + "."@ + (if self.stopped {
                    " Stopped on request."@
                } else {
                    Seq::empty()
                }) + self.failed() + " Press r to refresh."@,
            )
        }
    }

    /// Whether the books that were copied and those that failed are no more than
    /// there were.
    pub open spec fn counts(self) -> bool {
        self.done + self.failures.len() <= self.total
    }
}

/// One failure does not abandon the rest: whatever becomes of a book, the books
/// that were copied before it stay counted.
pub proof fn one_failure_abandons_nothing(
    batch: BatchView,
    title: Seq<char>,
    result: Result<Seq<char>, Seq<char>>,
)
    ensures
        batch.with(title, result).done >= batch.done,
        batch.with(title, result).done + batch.with(title, result).failures.len() == batch.done
            + batch.failures.len() + 1,
{
}

impl Batch {
    pub fn new(total: usize) -> (r: Batch)
        ensures
            r@ == (BatchView {
                total: total as nat,
                done: 0,
                failures: Seq::empty(),
                last: Seq::empty(),
                stopped: false,
            }),
    {
        let r = Batch {
            total,
            done: 0,
            failures: Vec::new(),
            last: String::new(),
            stopped: false,
        };
        proof {
            assert(r@.failures =~= Seq::<Seq<char>>::empty());
            assert(r@.last =~= Seq::<char>::empty());
        }
        r
    }

    /// Note that the rest was left alone on request.
    pub fn stop(&mut self)
        ensures
            final(self)@ == (BatchView { stopped: true, ..old(self)@ }),
    {
        self.stopped = true;
    }

    /// Note what became of one book.
    pub fn note(&mut self, title: &str, result: Result<String, String>)
        requires
            old(self)@.done < old(self)@.total,
        ensures
            final(self)@ == old(self)@.with(title@, result_view(result)),
    {
        match result {
            Ok(message) => {
                self.done += 1;
                self.last = message;
            },
            Err(words) => {
                let ghost before = self.failures.deep_view();
                let said = text::concat3(title, ": ", words.as_str());
                let ghost shown = said@;
                self.failures.push(said);
                proof {
                    assert(self.failures.deep_view() =~= before.push(shown));
                }
            },
        }
    }

    /// What is said at the end: each book is reported, and what went wrong is
    /// named.
    pub fn perform(&self, target: Place) -> (r: Result<String, String>)
        ensures
            result_view(r) == self@.summary(target),
    {
        let count: usize = self.failures.len();
        assert(self@.failures.len() == count);
        if self.total == 1 && count == 0 {
            return Ok(text::concat(self.last.as_str(), " Press r to refresh."));
        }
        if count > 0 {
            assert(self@.failures[0] == self.failures@[0]@);
        }
        if self.total == 1 {
            return Err(self.failures[0].duplicate());
        }
        let head = text::concat4(
            "Copied ",
            text::number(self.done as u64).as_str(),
            " of ",
            books::books(self.total).as_str(),
        );
        let mut out = text::concat4(head.as_str(), " to ", target.label(), ".");
        proof {
            assert(out@ + Seq::<char>::empty() =~= out@);
        }
        if self.stopped {
            out.push_str(" Stopped on request.");
        }
        proof {
            assert(out@ + Seq::<char>::empty() =~= out@);
        }
        if count > 0 {
            let named = if count == 1 {
                self.failures[0].duplicate()
            } else {
                assert(self@.failures[1] == self.failures@[1]@);
                text::concat3(self.failures[0].as_str(), "; ", self.failures[1].as_str())
            };
            let more = text::concat5(
                " ",
                text::number(count as u64).as_str(),
                " failed: ",
                named.as_str(),
                if count > 2 {
                    "; …"
                } else {
                    ""
                },
            );
            out.push_str(more.as_str());
        }
        out.push_str(" Press r to refresh.");
        Ok(out)
    }
}

/// The mounts that were found, each once, in order.
pub open spec fn once(paths: Seq<Seq<char>>) -> Seq<Seq<char>>
    decreases paths.len(),
{
    if paths.len() == 0 {
        Seq::empty()
    } else {
        let before = once(paths.drop_last());
        if before.contains(paths.last()) {
            before
        } else {
            before.push(paths.last())
        }
    }
}

/// A path as it is put in order: step by step, so that what ends a step comes
/// before every character of one.
pub open spec fn stepped(path: Seq<char>) -> Seq<char> {
    path.map_values(
        |c: char|
            if c == '/' {
                '\0'
            } else {
                c
            },
    )
}

fn step_by_step(path: &str) -> (r: String)
    ensures
        r@ == stepped(path@),
{
    let c = text::chars(path);
    let mut out: Vec<char> = Vec::new();
    for i in 0..c.len()
        invariant
            c@ == path@,
            out@ == stepped(path@).take(i as int),
    {
        let put = if c[i] == '/' {
            '\0'
        } else {
            c[i]
        };
        out.push(put);
        proof {
            assert(stepped(path@).take(i as int + 1) =~= stepped(path@).take(i as int).push(put));
        }
    }
    proof {
        assert(stepped(path@).take(c@.len() as int) =~= stepped(path@));
    }
    text::string(out.as_slice())
}

pub open spec fn path_key(path: Seq<char>) -> order::SortKeyView {
    order::SortKeyView { late: false, major: stepped(path), minor: Seq::empty() }
}

/// Mounted devices in order.
pub open spec fn detected(paths: Seq<Seq<char>>) -> Seq<Seq<char>> {
    order::sorted(once(paths), order::by_key(|p: Seq<char>| path_key(p)))
}

/// Put the mounts that hold a Kobo database in order, each once.
pub fn detect_in(paths: Vec<String>) -> (r: Vec<String>)
    ensures
        r.deep_view() == detected(paths.deep_view()),
{
    let ghost all = paths.deep_view();
    let mut out: Vec<String> = Vec::new();
    proof {
        assert(all.take(0) =~= Seq::<Seq<char>>::empty());
        assert(out.deep_view() =~= Seq::<Seq<char>>::empty());
    }
    for i in 0..paths.len()
        invariant
            all == paths.deep_view(),
            out.deep_view() == once(all.take(i as int)),
    {
        let ghost before = out.deep_view();
        proof {
            assert(all.take(i as int + 1).drop_last() =~= all.take(i as int));
            assert(all[i as int] == paths@[i as int]@);
        }
        if !holds(&out, &paths[i]) {
            out.push(paths[i].duplicate());
            proof {
                assert(out.deep_view() =~= before.push(all[i as int]));
            }
        }
    }
    proof {
        assert(all.take(all.len() as int) =~= all);
    }
    let ghost found = out@;
    let ghost key = |p: String| path_key(p@);
    let mut keys: Vec<order::SortKey> = Vec::new();
    for i in 0..out.len()
        invariant
            out@ == found,
            key == (|p: String| path_key(p@)),
            keys@.len() == i,
            forall|j: int| 0 <= j < i ==> (#[trigger] keys@[j])@ == key(found[j]),
    {
        let k = order::SortKey {
            late: false,
            major: step_by_step(out[i].as_str()),
            minor: String::new(),
        };
        proof {
            assert(k@ =~= path_key(found[i as int]@));
        }
        keys.push(k);
    }
    let ghost single = out.deep_view();
    order::arrange(&mut out, keys, Ghost(key));
    proof {
        let view = |p: String| p.deep_view();
        let shown = |p: Seq<char>| path_key(p);
        order::sorted_mapped(found, order::by_key(key), view, order::by_key(shown));
        assert(out.deep_view() =~= order::mapped(out@, view));
        assert(single =~= order::mapped(found, view));
    }
    out
}

/// What is said of a reader that answered.
pub fn tested(status: &Status, address: &str) -> (r: String)
    ensures
        r@ == "Connected to "@ + status@.device + " at "@ + address@ + " · CrossPoint "@
            + status@.version,
{
    let head = text::concat4("Connected to ", status.device.as_str(), " at ", address);
    text::concat3(head.as_str(), " · CrossPoint ", status.version.as_str())
}

/// Whether there is an address to test.
pub fn check_address(address: &str) -> (r: Result<(), String>)
    ensures
        result_view(r) == if address@.len() == 0 {
            Err("Enter a reader address first (for example crosspoint.local)"@)
        } else {
            Ok(())
        },
{
    if address.is_empty() {
        Err("Enter a reader address first (for example crosspoint.local)".to_owned())
    } else {
        Ok(())
    }
}

/// What is done for one entry of a job.
#[derive(Clone, Copy, Debug, PartialEq, Eq, Structural)]
pub enum Errand {
    /// Copy a book from the nearest place that has it.
    Transfer,
    /// Fulfil a request and import the book it stands for.
    Fulfill,
    /// Import a file, which goes nowhere else.
    Import,
    /// Use a file where it is.
    Use,
}

pub open spec fn errand(entry: EntryView, options: OptionsView) -> Errand {
    if entry.source is Book {
        Errand::Transfer
    } else if entry.kind == "ACSM"@ {
        Errand::Fulfill
    } else if options.send_to is None && options.copy_to is None {
        Errand::Import
    } else {
        Errand::Use
    }
}

pub fn one(entry: &Entry, options: &Options) -> (r: Errand)
    ensures
        r == errand(entry@, options@),
{
    match &entry.source {
        Source::Book(_) => Errand::Transfer,
        Source::Local(_) => if text::same(entry.kind, "ACSM") {
            Errand::Fulfill
        } else if options.send_to.is_none() && options.copy_to.is_none() {
            Errand::Import
        } else {
            Errand::Use
        },
    }
}

/// Where a local EPUB goes next: a mounted card comes before Wi-Fi.
#[derive(Clone, Debug, PartialEq, Eq)]
pub enum Onward {
    Stay(String),
    Send(String),
    Copy(String),
}

#[verifier::ext_equal]
pub enum OnwardView {
    Stay(Seq<char>),
    Send(Seq<char>),
    Copy(Seq<char>),
}

impl View for Onward {
    type V = OnwardView;

    open spec fn view(&self) -> OnwardView {
        match self {
            Onward::Stay(words) => OnwardView::Stay(words@),
            Onward::Send(address) => OnwardView::Send(address@),
            Onward::Copy(folder) => OnwardView::Copy(folder@),
        }
    }
}

/// How a book on this computer is spoken of.
pub open spec fn local_words(path: Seq<char>) -> Seq<char> {
    "Local EPUB: "@ + path
}

pub open spec fn onward_of(options: OptionsView, path: Seq<char>) -> OnwardView {
    match (options.send_to, options.copy_to) {
        (_, Some(folder)) => OnwardView::Copy(folder),
        (Some(address), None) => OnwardView::Send(address),
        (None, None) => OnwardView::Stay(
            local_words(path) + ". Use --send-to or --copy-to to transfer."@,
        ),
    }
}

/// Where the book at this path goes, or what is said of it where it stays.
pub fn onward(options: &Options, path: &str) -> (r: Onward)
    ensures
        r@ == onward_of(options@, path@),
{
    match (&options.send_to, &options.copy_to) {
        (_, Some(folder)) => Onward::Copy(folder.duplicate()),
        (Some(address), None) => Onward::Send(address.duplicate()),
        (None, None) => Onward::Stay(
            text::concat3("Local EPUB: ", path, ". Use --send-to or --copy-to to transfer."),
        ),
    }
}

/// What is said of a book that reached the reader or its card.
pub open spec fn arrived_of(
    card: bool,
    present: bool,
    path: Seq<char>,
    bytes: nat,
    local: Seq<char>,
) -> Seq<char> {
    (match (card, present) {
        (false, true) => "Already on reader:"@,
        (false, false) => "Sent"@,
        (true, true) => "Already on card:"@,
        (true, false) => "Copied"@,
    }) + " "@ + path + " ("@ + text::decimal(bytes) + (if card {
        " bytes; verified). Safely eject the card. "@
    } else {
        " bytes; verified). "@
    }) + local_words(local)
}

pub fn arrived(card: bool, present: bool, path: &str, bytes: usize, local: &str) -> (r: String)
    ensures
        r@ == arrived_of(card, present, path@, bytes as nat, local@),
{
    let head = match (card, present) {
        (false, true) => "Already on reader:",
        (false, false) => "Sent",
        (true, true) => "Already on card:",
        (true, false) => "Copied",
    };
    let end = if card {
        " bytes; verified). Safely eject the card. "
    } else {
        " bytes; verified). "
    };
    let count = text::number(bytes as u64);
    let place = text::concat4(head, " ", path, " (");
    let said = text::concat3(place.as_str(), count.as_str(), end);
    let r = text::concat3(said.as_str(), "Local EPUB: ", local);
    assert(r@ =~= arrived_of(card, present, path@, bytes as nat, local@));
    r
}

/// What is said of a book that did not get any further than this computer.
pub open spec fn retained_of(local: Seq<char>, reason: Seq<char>) -> Seq<char> {
    local_words(local) + " remains intact; retry from Local or use crossload send/copy: "@ + reason
}

pub fn retained(local: &str, reason: &str) -> (r: String)
    ensures
        r@ == retained_of(local@, reason@),
{
    text::concat4(
        "Local EPUB: ",
        local,
        " remains intact; retry from Local or use crossload send/copy: ",
        reason,
    )
}

} // verus!
