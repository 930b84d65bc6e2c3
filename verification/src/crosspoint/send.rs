//! Sending one book: what is asked of the reader in which order, and what each
//! answer means for the book.
use super::{
    entry_at, find_entry, verified, verify, Entry, EntryView, Reader, ReaderView,
};
use crate::digest::{hex, sha256};
use crate::digest;
use crate::epub;
use crate::paths;
use crate::text;
use crate::values::{result_view, Duplicate};
use vstd::prelude::*;

pub mod laws;

verus! {

broadcast use vstd::string::group_string_axioms;

/// What became of a book that was sent.
#[derive(Clone, Debug, PartialEq, Eq)]
pub struct Sent {
    pub path: String,
    pub bytes: usize,
    pub already_present: bool,
    pub backup: Option<String>,
}

#[verifier::ext_equal]
pub struct SentView {
    pub path: Seq<char>,
    pub bytes: usize,
    pub already_present: bool,
    pub backup: Option<Seq<char>>,
}

impl View for Sent {
    type V = SentView;

    open spec fn view(&self) -> SentView {
        SentView {
            path: self.path@,
            bytes: self.bytes,
            already_present: self.already_present,
            backup: self.backup.deep_view(),
        }
    }
}

impl DeepView for Sent {
    type V = SentView;

    open spec fn deep_view(&self) -> SentView {
        self@
    }
}

/// How far the sending of a book has come.
#[derive(Clone, Debug)]
pub enum Stage {
    /// The folder is being listed.
    Listing,
    /// A file of the same name and size is being read.
    Comparing(String),
    /// A shorter file of the same name is being read.
    Reading(String, u64),
    /// A shorter file is being put aside.
    Preserving,
    /// The book is going out under a name that is not its own.
    Uploading,
    /// What went out is being read back.
    Verifying,
    /// What went out is getting the book's name.
    Publishing,
    Finished,
}

#[verifier::ext_equal]
pub enum StageView {
    Listing,
    Comparing(Seq<char>),
    Reading(Seq<char>, u64),
    Preserving,
    Uploading,
    Verifying,
    Publishing,
    Finished,
}

impl View for Stage {
    type V = StageView;

    open spec fn view(&self) -> StageView {
        match self {
            Stage::Listing => StageView::Listing,
            Stage::Comparing(path) => StageView::Comparing(path@),
            Stage::Reading(path, size) => StageView::Reading(path@, *size),
            Stage::Preserving => StageView::Preserving,
            Stage::Uploading => StageView::Uploading,
            Stage::Verifying => StageView::Verifying,
            Stage::Publishing => StageView::Publishing,
            Stage::Finished => StageView::Finished,
        }
    }
}

/// What is asked of the reader next.
#[derive(Clone, Debug)]
pub enum Order {
    List(String),
    Download { path: String, limit: usize },
    Rename { path: String, name: String },
    Upload { name: String },
    Finish(Sent),
}

#[verifier::ext_equal]
pub enum OrderView {
    List(Seq<char>),
    Download { path: Seq<char>, limit: usize },
    Rename { path: Seq<char>, name: Seq<char> },
    Upload { name: Seq<char> },
    Finish(SentView),
}

impl View for Order {
    type V = OrderView;

    open spec fn view(&self) -> OrderView {
        match self {
            Order::List(folder) => OrderView::List(folder@),
            Order::Download { path, limit } => OrderView::Download { path: path@, limit: *limit },
            Order::Rename { path, name } => OrderView::Rename { path: path@, name: name@ },
            Order::Upload { name } => OrderView::Upload { name: name@ },
            Order::Finish(sent) => OrderView::Finish(sent@),
        }
    }
}

impl DeepView for Order {
    type V = OrderView;

    open spec fn deep_view(&self) -> OrderView {
        self@
    }
}

/// What came of what was asked.
#[derive(Clone, Debug)]
pub enum Reply {
    Entries(Vec<Entry>),
    Bytes(Vec<u8>),
    Uploaded,
    Failed(String),
}

#[verifier::ext_equal]
pub enum ReplyView {
    Entries(Seq<EntryView>),
    Bytes(Seq<u8>),
    Uploaded,
    Failed(Seq<char>),
}

impl View for Reply {
    type V = ReplyView;

    open spec fn view(&self) -> ReplyView {
        match self {
            Reply::Entries(entries) => ReplyView::Entries(entries.deep_view()),
            Reply::Bytes(bytes) => ReplyView::Bytes(bytes@),
            Reply::Uploaded => ReplyView::Uploaded,
            Reply::Failed(words) => ReplyView::Failed(words@),
        }
    }
}

/// A book being sent. `staging` is the name it goes out under; it avoids taking
/// over another client's upload and is deliberately not that of a book. The
/// final name only appears after a verified readback.
#[derive(Clone, Debug)]
pub struct Sending {
    pub reader: Reader,
    pub name: String,
    pub data: Vec<u8>,
    pub book: String,
    pub staging: String,
    pub backup: Option<String>,
    pub stage: Stage,
}

#[verifier::ext_equal]
pub struct SendingView {
    pub reader: ReaderView,
    pub name: Seq<char>,
    pub data: Seq<u8>,
    pub book: Seq<char>,
    pub staging: Seq<char>,
    pub backup: Option<Seq<char>>,
    pub stage: StageView,
}

impl View for Sending {
    type V = SendingView;

    open spec fn view(&self) -> SendingView {
        SendingView {
            reader: self.reader@,
            name: self.name@,
            data: self.data@,
            book: self.book@,
            staging: self.staging@,
            backup: self.backup.deep_view(),
            stage: self.stage@,
        }
    }
}

/// The name a shorter file is put aside under.
pub open spec fn backup_name(data: Seq<u8>, size: u64) -> Seq<char> {
    "xteink-"@ + hex(sha256(data)).take(24) + ".incomplete-"@ + text::decimal(size as nat)
}

/// What is said of a file of this name that is neither this book nor a part of
/// it that may be repaired.
pub open spec fn occupied(held: u64, wanted: nat, remote: Seq<char>) -> Seq<char> {
    "Reader has "@ + text::decimal(held as nat) + " of "@ + text::decimal(wanted) + " bytes at "@
        + remote
        + ". Nothing was overwritten. For a failed transfer, retry with crossload send --repair; it only repairs a verified incomplete prefix"@
}

/// A clause about the file that was put aside.
pub open spec fn preserved(backup: Option<Seq<char>>) -> Seq<char> {
    match backup {
        Some(path) => " Incomplete original preserved at "@ + path + "."@,
        None => Seq::empty(),
    }
}

/// Whether bytes are the beginning of others.
pub open spec fn begins(part: Seq<u8>, whole: Seq<u8>) -> bool {
    part.len() <= whole.len() && whole.take(part.len() as int) == part
}

/// The bytes with which the reader confirms a new name.
pub open spec fn confirmation() -> Seq<u8> {
    vstd::utf8::encode_utf8("Renamed successfully"@)
}

impl SendingView {
    pub open spec fn in_folder(self, name: Seq<char>) -> Seq<char> {
        paths::inside(self.reader.folder, name)
    }

    pub open spec fn remote(self) -> Seq<char> {
        self.in_folder(self.name)
    }

    pub open spec fn staged(self) -> Seq<char> {
        self.in_folder(self.staging)
    }

    pub open spec fn at(self, stage: StageView) -> SendingView {
        SendingView { stage, ..self }
    }

    pub open spec fn finished(self, path: Seq<char>, present: bool) -> (SendingView, Result<
        OrderView,
        Seq<char>,
    >) {
        (
            self.at(StageView::Finished),
            Ok(
                OrderView::Finish(
                    SentView {
                        path,
                        bytes: self.data.len() as usize,
                        already_present: present,
                        backup: if present {
                            None
                        } else {
                            self.backup
                        },
                    },
                ),
            ),
        )
    }

    pub open spec fn failed(self, words: Seq<char>) -> (SendingView, Result<OrderView, Seq<char>>) {
        (self.at(StageView::Finished), Err(words))
    }

    pub open spec fn uploading(self) -> (SendingView, Result<OrderView, Seq<char>>) {
        (self.at(StageView::Uploading), Ok(OrderView::Upload { name: self.staging }))
    }

    /// What a listing of the folder means for the book. Repairs require a
    /// strictly shorter, byte-for-byte prefix. Unrelated same-name books are
    /// never renamed or overwritten.
    pub open spec fn listed(self, entries: Seq<EntryView>) -> (SendingView, Result<
        OrderView,
        Seq<char>,
    >) {
        let i = entry_at(entries, self.name, 0);
        if i == entries.len() {
            self.uploading()
        } else if entries[i].directory {
            self.failed("A directory already exists at "@ + self.remote())
        } else {
            let path = self.in_folder(entries[i].name);
            if entries[i].size == self.data.len() {
                (
                    self.at(StageView::Comparing(path)),
                    Ok(OrderView::Download { path, limit: self.data.len() as usize }),
                )
            } else if self.reader.repair && entries[i].size < self.data.len() {
                (
                    self.at(StageView::Reading(path, entries[i].size)),
                    Ok(OrderView::Download { path, limit: entries[i].size as usize }),
                )
            } else {
                self.failed(occupied(entries[i].size, self.data.len(), self.remote()))
            }
        }
    }

    /// What a shorter file means for the book: it is put aside when it is the
    /// beginning of it.
    pub open spec fn read(self, path: Seq<char>, size: u64, bytes: Seq<u8>) -> (
        SendingView,
        Result<OrderView, Seq<char>>,
    ) {
        if bytes.len() == size && begins(bytes, self.data) {
            let name = backup_name(self.data, size);
            (
                SendingView {
                    stage: StageView::Preserving,
                    backup: Some(self.in_folder(name)),
                    ..self
                },
                Ok(OrderView::Rename { path, name }),
            )
        } else {
            self.failed("Existing file is not an incomplete prefix of this EPUB; repair refused"@)
        }
    }

    /// What a failure at this stage is called.
    pub open spec fn failure(self, words: Seq<char>) -> Seq<char> {
        match self.stage {
            StageView::Comparing(_) =>
                "A file with this name already exists; nothing was overwritten: "@ + words,
            StageView::Preserving =>
                "Could not preserve incomplete file; no replacement was attempted: "@ + words,
            StageView::Uploading =>
                "Upload failed. No completed EPUB was published. Temporary path: "@ + self.staged()
                    + ". Local EPUB retained at "@ + self.book + "."@ + preserved(self.backup)
                    + " Check SD-card free space and health if writes keep failing: "@ + words,
            StageView::Verifying =>
                "Upload verification failed; not published as an EPUB. Temporary path: "@
                    + self.staged() + "; local EPUB is unchanged: "@ + words,
            StageView::Publishing => "Verified upload remains at "@ + self.staged()
                + "; could not publish "@ + self.remote() + ". Nothing was overwritten: "@ + words,
            _ => words,
        }
    }

    /// How the sending goes on after a reply.
    pub open spec fn after(self, reply: ReplyView) -> (SendingView, Result<OrderView, Seq<char>>) {
        match (self.stage, reply) {
            (_, ReplyView::Failed(words)) => self.failed(self.failure(words)),
            (StageView::Listing, ReplyView::Entries(entries)) => self.listed(entries),
            (StageView::Comparing(path), ReplyView::Bytes(bytes)) => if verified(bytes, self.data) {
                self.finished(path, true)
            } else {
                self.failed(self.failure("Reader's copy differs from the local EPUB"@))
            },
            (StageView::Reading(path, size), ReplyView::Bytes(bytes)) => self.read(
                path,
                size,
                bytes,
            ),
            (StageView::Preserving, ReplyView::Bytes(bytes)) => if bytes == confirmation() {
                self.uploading()
            } else {
                self.failed(self.failure("Reader did not confirm rename"@))
            },
            (StageView::Uploading, ReplyView::Uploaded) => (
                self.at(StageView::Verifying),
                Ok(
                    OrderView::Download {
                        path: self.staged(),
                        limit: self.data.len() as usize,
                    },
                ),
            ),
            (StageView::Verifying, ReplyView::Bytes(bytes)) => if verified(bytes, self.data) {
                (
                    self.at(StageView::Publishing),
                    Ok(OrderView::Rename { path: self.staged(), name: self.name }),
                )
            } else {
                self.failed(self.failure("Reader's copy differs from the local EPUB"@))
            },
            (StageView::Publishing, ReplyView::Bytes(bytes)) => if bytes == confirmation() {
                self.finished(self.remote(), false)
            } else {
                self.failed(self.failure("Reader did not confirm rename"@))
            },
            _ => self.failed("Unexpected CrossPoint response"@),
        }
    }
}

/// A book gets its name on the reader only when what went out has just been read
/// back and found to be the book.
pub proof fn only_what_was_read_back_is_published(s: SendingView, reply: ReplyView)
    ensures
        s.after(reply).0.stage is Publishing ==> s.stage is Verifying && reply is Bytes && verified(
            reply->Bytes_0,
            s.data,
        ),
        s.after(reply).1 matches Ok(OrderView::Finish(sent)) ==> !sent.already_present ==> s.stage
            is Publishing && reply == ReplyView::Bytes(confirmation()),
{
}

/// Nothing that is on the reader is renamed but the book's own upload and, when
/// repairs were asked for, a file of the book's name that is a shorter
/// beginning of the book.
pub proof fn nothing_else_is_renamed(s: SendingView, reply: ReplyView)
    ensures
        s.after(reply).1 matches Ok(OrderView::Rename { path, name }) ==> (s.stage is Verifying
            && path == s.staged() && name == s.name) || (s.stage matches StageView::Reading(
            held,
            size,
        ) && path == held && reply is Bytes && reply->Bytes_0.len() == size && begins(
            reply->Bytes_0,
            s.data,
        )),
        s.after(reply).0.stage matches StageView::Reading(held, size) ==> s.reader.repair && size
            < s.data.len(),
{
}

/// A book that is on the reader already is left alone: nothing is uploaded, and
/// the file keeps its name.
pub proof fn what_is_there_is_left_alone(s: SendingView, entries: Seq<EntryView>, reply: ReplyView)
    requires
        s.stage is Listing,
        0 <= entry_at(entries, s.name, 0) < entries.len(),
        entries[entry_at(entries, s.name, 0)].size == s.data.len() || !s.reader.repair,
    ensures
        ({
            let (next, first) = s.after(ReplyView::Entries(entries));
            let second = next.after(reply).1;
            &&& !(first matches Ok(OrderView::Upload { .. }))
            &&& !(first matches Ok(OrderView::Rename { .. }))
            &&& !(second matches Ok(OrderView::Upload { .. }))
            &&& !(second matches Ok(OrderView::Rename { .. }))
        }),
{
}

fn confirmed(bytes: &Vec<u8>) -> (r: bool)
    ensures
        r == (bytes@ == confirmation()),
{
    epub::same_bytes(bytes.as_slice(), "Renamed successfully".as_bytes())
}

pub(crate) fn is_start(part: &[u8], whole: &[u8]) -> (r: bool)
    ensures
        r == begins(part@, whole@),
{
    if part.len() > whole.len() {
        return false;
    }
    for i in 0..part.len()
        invariant
            part@.len() <= whole@.len(),
            forall|j: int| 0 <= j < i ==> part@[j] == whole@[j],
    {
        if part[i] != whole[i] {
            assert(whole@.take(part@.len() as int)[i as int] != part@[i as int]);
            return false;
        }
    }
    assert(whole@.take(part@.len() as int) =~= part@);
    true
}

fn name_backup(data: &[u8], size: u64) -> (r: String)
    ensures
        r@ == backup_name(data@, size),
{
    let bytes = digest::digest(data);
    let all = text::chars(digest::to_hex(bytes.as_slice()).as_str());
    let head = text::slice(all.as_slice(), 0, 24);
    proof {
        assert(all@.subrange(0, 24) =~= all@.take(24));
    }
    text::concat4("xteink-", head.as_str(), ".incomplete-", text::number(size).as_str())
}

impl Sending {
    /// Begin to send a book whose name and contents have been checked.
    pub fn new(reader: Reader, name: String, data: Vec<u8>, book: String, staging: String) -> (r: (
        Sending,
        Order,
    ))
        ensures
            r.0@ == (SendingView {
                reader: reader@,
                name: name@,
                data: data@,
                book: book@,
                staging: staging@,
                backup: None,
                stage: StageView::Listing,
            }),
            r.1@ == OrderView::List(reader@.folder),
    {
        let folder = reader.folder.duplicate();
        (
            Sending { reader, name, data, book, staging, backup: None, stage: Stage::Listing },
            Order::List(folder),
        )
    }

    fn remote(&self) -> (r: String)
        ensures
            r@ == self@.remote(),
    {
        paths::join(self.reader.folder.as_str(), self.name.as_str())
    }

    fn staged(&self) -> (r: String)
        ensures
            r@ == self@.staged(),
    {
        paths::join(self.reader.folder.as_str(), self.staging.as_str())
    }

    fn failure(&self, words: &str) -> (r: String)
        ensures
            r@ == self@.failure(words@),
    {
        match &self.stage {
            Stage::Comparing(_) => text::concat(
                "A file with this name already exists; nothing was overwritten: ",
                words,
            ),
            Stage::Preserving => text::concat(
                "Could not preserve incomplete file; no replacement was attempted: ",
                words,
            ),
            Stage::Uploading => {
                let kept = match &self.backup {
                    Some(path) => text::concat3(
                        " Incomplete original preserved at ",
                        path.as_str(),
                        ".",
                    ),
                    None => String::new(),
                };
                let head = text::concat5(
                    "Upload failed. No completed EPUB was published. Temporary path: ",
                    self.staged().as_str(),
                    ". Local EPUB retained at ",
                    self.book.as_str(),
                    ".",
                );
                text::concat4(
                    head.as_str(),
                    kept.as_str(),
                    " Check SD-card free space and health if writes keep failing: ",
                    words,
                )
            },
            Stage::Verifying => text::concat4(
                "Upload verification failed; not published as an EPUB. Temporary path: ",
                self.staged().as_str(),
                "; local EPUB is unchanged: ",
                words,
            ),
            Stage::Publishing => {
                let head = text::concat4(
                    "Verified upload remains at ",
                    self.staged().as_str(),
                    "; could not publish ",
                    self.remote().as_str(),
                );
                text::concat3(head.as_str(), ". Nothing was overwritten: ", words)
            },
            _ => words.to_owned(),
        }
    }

    fn fail(&mut self, words: &str) -> (r: Result<Order, String>)
        ensures
            (final(self)@, result_view(r)) == old(self)@.failed(old(self)@.failure(words@)),
    {
        let said = self.failure(words);
        self.stage = Stage::Finished;
        Err(said)
    }

    fn upload(&mut self) -> (r: Result<Order, String>)
        ensures
            (final(self)@, result_view(r)) == old(self)@.uploading(),
    {
        self.stage = Stage::Uploading;
        Ok(Order::Upload { name: self.staging.duplicate() })
    }

    fn finish(&mut self, path: String, present: bool) -> (r: Result<Order, String>)
        ensures
            (final(self)@, result_view(r)) == old(self)@.finished(path@, present),
    {
        self.stage = Stage::Finished;
        let backup = if present {
            None
        } else {
            self.backup.duplicate()
        };
        Ok(Order::Finish(Sent { path, bytes: self.data.len(), already_present: present, backup }))
    }

    fn listed(&mut self, entries: &Vec<Entry>) -> (r: Result<Order, String>)
        ensures
            (final(self)@, result_view(r)) == old(self)@.listed(entries.deep_view()),
    {
        let i = match find_entry(entries, self.name.as_str()) {
            None => return self.upload(),
            Some(i) => i,
        };
        assert(entries.deep_view()[i as int] == entries@[i as int]@);
        if entries[i].directory {
            let said = text::concat("A directory already exists at ", self.remote().as_str());
            self.stage = Stage::Finished;
            return Err(said);
        }
        let path = paths::join(self.reader.folder.as_str(), entries[i].name.as_str());
        let held: u64 = entries[i].size;
        let size: usize = self.data.len();
        if held == size as u64 {
            self.stage = Stage::Comparing(path.duplicate());
            return Ok(Order::Download { path, limit: size });
        }
        if self.reader.repair && held < size as u64 {
            self.stage = Stage::Reading(path.duplicate(), held);
            return Ok(Order::Download { path, limit: held as usize });
        }
        let head = text::concat4(
            "Reader has ",
            text::number(held).as_str(),
            " of ",
            text::number(size as u64).as_str(),
        );
        let said = text::concat4(
            head.as_str(),
            " bytes at ",
            self.remote().as_str(),
            ". Nothing was overwritten. For a failed transfer, retry with crossload send --repair; it only repairs a verified incomplete prefix",
        );
        self.stage = Stage::Finished;
        Err(said)
    }

    fn read(&mut self, path: String, size: u64, bytes: &Vec<u8>) -> (r: Result<Order, String>)
        ensures
            (final(self)@, result_view(r)) == old(self)@.read(path@, size, bytes@),
    {
        if bytes.len() as u64 == size && is_start(bytes.as_slice(), self.data.as_slice()) {
            let name = name_backup(self.data.as_slice(), size);
            self.backup = Some(paths::join(self.reader.folder.as_str(), name.as_str()));
            self.stage = Stage::Preserving;
            Ok(Order::Rename { path, name })
        } else {
            self.stage = Stage::Finished;
            Err(
                "Existing file is not an incomplete prefix of this EPUB; repair refused".to_owned(),
            )
        }
    }

    /// Take a reply, and say what is asked next, or why the book was not sent.
    pub fn next(&mut self, reply: Reply) -> (r: Result<Order, String>)
        ensures
            (final(self)@, result_view(r)) == old(self)@.after(reply@),
    {
        match reply {
            Reply::Failed(words) => self.fail(words.as_str()),
            Reply::Entries(entries) => {
                if let Stage::Listing = &self.stage {
                    return self.listed(&entries);
                }
                self.stage = Stage::Finished;
                Err("Unexpected CrossPoint response".to_owned())
            },
            Reply::Uploaded => {
                if let Stage::Uploading = &self.stage {
                    self.stage = Stage::Verifying;
                    return Ok(Order::Download { path: self.staged(), limit: self.data.len() });
                }
                self.stage = Stage::Finished;
                Err("Unexpected CrossPoint response".to_owned())
            },
            Reply::Bytes(bytes) => {
                match &self.stage {
                    Stage::Comparing(path) => {
                        let path = path.duplicate();
                        match verify(bytes.as_slice(), self.data.as_slice()) {
                            Ok(()) => self.finish(path, true),
                            Err(words) => self.fail(words.as_str()),
                        }
                    },
                    Stage::Reading(path, size) => {
                        let path = path.duplicate();
                        let size: u64 = *size;
                        self.read(path, size, &bytes)
                    },
                    Stage::Preserving => if confirmed(&bytes) {
                        self.upload()
                    } else {
                        self.fail("Reader did not confirm rename")
                    },
                    Stage::Verifying => match verify(bytes.as_slice(), self.data.as_slice()) {
                        Ok(()) => {
                            self.stage = Stage::Publishing;
                            Ok(Order::Rename { path: self.staged(), name: self.name.duplicate() })
                        },
                        Err(words) => self.fail(words.as_str()),
                    },
                    Stage::Publishing => if confirmed(&bytes) {
                        let path = self.remote();
                        self.finish(path, false)
                    } else {
                        self.fail("Reader did not confirm rename")
                    },
                    _ => {
                        self.stage = Stage::Finished;
                        Err("Unexpected CrossPoint response".to_owned())
                    },
                }
            },
        }
    }
}

} // verus!
