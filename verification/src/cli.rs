//! What the command line makes of its arguments, and what it says.
use crate::config::{required, Defaults, DefaultsView};
use crate::crosspoint::{reader_for, Reader};
use crate::format::Format;
use crate::kobo;
use crate::kobo::{BookView, Source};
use crate::sync::{failed, Report, Row, RowView, Status};
use crate::text;
use crate::tui::view::{clean, cleaned};
use crate::values::{result_view, Duplicate};
use vstd::prelude::*;

pub mod laws;

verus! {

broadcast use vstd::string::group_string_axioms;

/// What stands for the saved destination where one was asked for without being
/// named.
pub const SAVED_COPY: &'static str = "__crossload_saved_copy_destination__";

/// Where an imported book goes next.
#[derive(Clone, Debug, PartialEq, Eq)]
pub struct Transfer {
    pub send_to: Option<String>,
    pub copy_to: Option<String>,
    pub folder: Option<String>,
}

#[verifier::ext_equal]
pub struct TransferView {
    pub send_to: Option<Seq<char>>,
    pub copy_to: Option<Seq<char>>,
    pub folder: Option<Seq<char>>,
}

impl View for Transfer {
    type V = TransferView;

    open spec fn view(&self) -> TransferView {
        TransferView {
            send_to: self.send_to.deep_view(),
            copy_to: self.copy_to.deep_view(),
            folder: self.folder.deep_view(),
        }
    }
}

impl DeepView for Transfer {
    type V = TransferView;

    open spec fn deep_view(&self) -> TransferView {
        self@
    }
}

pub open spec fn missing(flag: Seq<char>) -> Seq<char> {
    "Missing "@ + flag + "; supply it or save a default with crossload config set"@
}

impl TransferView {
    /// The transfer with what was saved put where it was asked for.
    pub open spec fn resolved(self, defaults: DefaultsView) -> Result<TransferView, Seq<char>> {
        let sends = self.send_to == Some(""@);
        let copies = self.copy_to == Some(SAVED_COPY@);
        if sends && defaults.reader is None {
            Err(missing("--send-to/--reader"@))
        } else if copies && defaults.copy_to is None {
            Err(missing("--copy-to"@))
        } else {
            Ok(
                TransferView {
                    send_to: if sends {
                        defaults.reader
                    } else {
                        self.send_to
                    },
                    copy_to: if copies {
                        defaults.copy_to
                    } else {
                        self.copy_to
                    },
                    folder: if self.folder is Some {
                        self.folder
                    } else {
                        defaults.folder
                    },
                },
            )
        }
    }
}

fn is(value: &Option<String>, wanted: &str) -> (r: bool)
    ensures
        r == (value.deep_view() == Some(wanted@)),
{
    match value {
        Some(value) => text::same(value.as_str(), wanted),
        None => false,
    }
}

impl Transfer {
    pub fn resolve(self, defaults: &Defaults) -> (r: Result<Transfer, String>)
        ensures
            result_view(r) == self@.resolved(defaults@),
    {
        let send_to = if is(&self.send_to, "") {
            match required(None, defaults.reader.duplicate(), "--send-to/--reader") {
                Ok(value) => Some(value),
                Err(words) => return Err(words),
            }
        } else {
            self.send_to
        };
        let copy_to = if is(&self.copy_to, SAVED_COPY) {
            match required(None, defaults.copy_to.duplicate(), "--copy-to") {
                Ok(value) => Some(value),
                Err(words) => return Err(words),
            }
        } else {
            self.copy_to
        };
        let folder = match self.folder {
            Some(folder) => Some(folder),
            None => defaults.folder.duplicate(),
        };
        Ok(Transfer { send_to, copy_to, folder })
    }

    /// The reader to send to, if any; `mounted` says whether the folder to copy
    /// to is there.
    pub fn reader(&self, mounted: bool) -> (r: Result<Option<Reader>, String>)
        ensures
            result_view(r) == if self@.copy_to is Some && !mounted {
                Err("--copy-to requires an existing directory on the mounted card"@)
            } else {
                match self@.send_to {
                    None => Ok(None),
                    Some(address) => match reader_for(
                        address,
                        match self@.folder {
                            Some(folder) => folder,
                            None => "/"@,
                        },
                    ) {
                        Ok(reader) => Ok(Some(reader)),
                        Err(words) => Err(words),
                    },
                }
            },
    {
        if self.copy_to.is_some() && !mounted {
            return Err(
                "--copy-to requires an existing directory on the mounted card".to_owned(),
            );
        }
        match &self.send_to {
            None => Ok(None),
            Some(address) => {
                let folder = match &self.folder {
                    Some(folder) => folder.duplicate(),
                    None => "/".to_owned(),
                };
                match Reader::new(address.as_str(), folder.as_str()) {
                    Ok(reader) => Ok(Some(reader)),
                    Err(words) => Err(words),
                }
            },
        }
    }
}

/// A text that a terminal shows as it is: no control characters.
pub fn printable(value: &str) -> (r: String)
    ensures
        r@ == cleaned(value@),
{
    clean(value)
}

/// What is shown is never a control character.
pub proof fn nothing_printed_is_control(value: Seq<char>, i: int)
    requires
        0 <= i < value.len(),
    ensures
        !text::control(cleaned(value)[i]),
{
}

pub open spec fn status_word(status: Status) -> Seq<char> {
    match status {
        Status::Present => "present"@,
        Status::Duplicate => "duplicate"@,
        Status::Transfer => "transfer"@,
        Status::Repair => "repair"@,
        Status::Sent => "sent"@,
        Status::Repaired => "repaired"@,
        Status::Failed => "failed"@,
    }
}

pub fn status_name(status: Status) -> (r: &'static str)
    ensures
        r@ == status_word(status),
{
    match status {
        Status::Present => "present",
        Status::Duplicate => "duplicate",
        Status::Transfer => "transfer",
        Status::Repair => "repair",
        Status::Sent => "sent",
        Status::Repaired => "repaired",
        Status::Failed => "failed",
    }
}

/// A row of a sync report, in columns.
pub open spec fn sync_row_of(row: RowView) -> Seq<char> {
    status_word(row.status) + "\t"@ + cleaned(row.title) + "\t"@ + cleaned(row.id) + "\t"@ + cleaned(
        match row.path {
            Some(path) => path,
            None => ""@,
        },
    ) + "\t"@ + cleaned(row.detail)
}

pub fn sync_row(row: &Row) -> (r: String)
    ensures
        r@ == sync_row_of(row@),
{
    let path = match &row.path {
        Some(path) => path.duplicate(),
        None => "".to_owned(),
    };
    let head = text::concat5(
        status_name(row.status),
        "\t",
        clean(row.title.as_str()).as_str(),
        "\t",
        clean(row.id.as_str()).as_str(),
    );
    text::concat5(
        head.as_str(),
        "\t",
        clean(path.as_str()).as_str(),
        "\t",
        clean(row.detail.as_str()).as_str(),
    )
}

/// What a sync report adds up to.
pub open spec fn sync_summary_of(report: Report) -> Seq<char> {
    (if report.apply {
        "Sync"@
    } else {
        "Dry run"@
    }) + ": "@ + text::decimal(report.books@.len()) + " books; "@ + text::decimal(
        report.previews_skipped as nat,
    ) + " previews skipped; "@ + text::decimal(report.excluded as nat) + " excluded; "@
        + text::decimal(failed(report.books.deep_view())) + " failures."@ + (if report.apply {
        ""@
    } else {
        " Use --apply to transfer missing books."@
    })
}

pub fn sync_summary(report: &Report) -> (r: String)
    ensures
        r@ == sync_summary_of(*report),
{
    let head = text::concat5(
        if report.apply {
            "Sync"
        } else {
            "Dry run"
        },
        ": ",
        text::number(report.books.len() as u64).as_str(),
        " books; ",
        text::number(report.previews_skipped as u64).as_str(),
    );
    let middle = text::concat5(
        head.as_str(),
        " previews skipped; ",
        text::number(report.excluded as u64).as_str(),
        " excluded; ",
        text::number(report.failures() as u64).as_str(),
    );
    text::concat3(
        middle.as_str(),
        " failures.",
        if report.apply {
            ""
        } else {
            " Use --apply to transfer missing books."
        },
    )
}

/// Whether a sync ended well.
pub fn sync_result(report: &Report) -> (r: Result<(), String>)
    ensures
        result_view(r) == if failed(report.books.deep_view()) == 0 {
            Ok(())
        } else {
            Err(
                (if report.apply {
                    "Sync has failures; successful copies are retained."@
                } else {
                    "Dry run has conflicts or failures; no books were transferred."@
                }) + " Resolve the reported issues and rerun."@,
            )
        },
{
    if report.failures() == 0 {
        Ok(())
    } else {
        Err(
            text::concat(
                if report.apply {
                    "Sync has failures; successful copies are retained."
                } else {
                    "Dry run has conflicts or failures; no books were transferred."
                },
                " Resolve the reported issues and rerun.",
            ),
        )
    }
}

/// The columns that a Kobo book is listed in.
pub open spec fn listed_row(book: BookView) -> Seq<Seq<char>> {
    seq![
        cleaned(book.title),
        cleaned(book.author),
        match book.source {
            Source::KoboStore => "Kobo store"@,
            Source::Sideloaded => "Sideloaded"@,
        },
        if book.preview {
            "Preview"@
        } else {
            "Book"@
        },
        if book.encrypted {
            "Kobo"@
        } else {
            "—"@
        },
        cleaned(book.id),
    ]
}

pub fn print_books(book: &kobo::Book) -> (r: Vec<String>)
    ensures
        r.deep_view() == listed_row(book@),
{
    let mut out: Vec<String> = Vec::new();
    out.push(clean(book.title.as_str()));
    out.push(clean(book.author.as_str()));
    out.push(
        match book.source {
            Source::KoboStore => "Kobo store".to_owned(),
            Source::Sideloaded => "Sideloaded".to_owned(),
        },
    );
    out.push(
        if book.preview {
            "Preview".to_owned()
        } else {
            "Book".to_owned()
        },
    );
    out.push(
        if book.encrypted {
            "Kobo".to_owned()
        } else {
            "—".to_owned()
        },
    );
    out.push(clean(book.id.as_str()));
    assert(out.deep_view() =~= listed_row(book@));
    out
}

/// Whether a listing of a Kobo shows a book: an EPUB, and a preview only when
/// it is asked for.
pub fn lists(book: &kobo::Book, show_previews: bool) -> (r: bool)
    ensures
        r == (book@.format == Format::Epub && (show_previews || !book@.preview)),
{
    book.format.rewritten() && (show_previews || !book.preview)
}

/// How many of some Kobo books are previews.
pub open spec fn preview_count(books: Seq<BookView>) -> nat
    decreases books.len(),
{
    if books.len() == 0 {
        0
    } else {
        preview_count(books.drop_last()) + if books.last().preview {
            1nat
        } else {
            0
        }
    }
}

pub fn previews(books: &Vec<kobo::Book>) -> (r: usize)
    ensures
        r == preview_count(books.deep_view()),
        r <= books@.len(),
{
    let ghost all = books.deep_view();
    let mut n: usize = 0;
    proof {
        assert(all.take(0) =~= Seq::<BookView>::empty());
    }
    for i in 0..books.len()
        invariant
            all == books.deep_view(),
            n <= i,
            n == preview_count(all.take(i as int)),
    {
        proof {
            assert(all.take(i as int + 1).drop_last() =~= all.take(i as int));
            assert(all[i as int] == books@[i as int]@);
        }
        if books[i].preview {
            n += 1;
        }
    }
    proof {
        assert(all.take(all.len() as int) =~= all);
    }
    n
}

/// What a listing of Kobo books adds up to.
pub fn totals(books: &Vec<kobo::Book>) -> (r: String)
    ensures
        r@ == text::decimal(books@.len()) + " entries · "@ + text::decimal(
            (books@.len() - preview_count(books.deep_view())) as nat,
        ) + " books · "@ + text::decimal(preview_count(books.deep_view())) + " previews"@,
{
    let n = previews(books);
    let head = text::concat4(
        text::number(books.len() as u64).as_str(),
        " entries · ",
        text::number((books.len() - n) as u64).as_str(),
        " books · ",
    );
    text::concat3(head.as_str(), text::number(n as u64).as_str(), " previews")
}

/// What is said of a device copy that was made.
pub fn prepared_note(before: usize, after: usize, images: usize) -> (r: String)
    ensures
        r@ == "Device copy: "@ + text::decimal(before as nat) + " → "@ + text::decimal(after as nat)
            + " bytes; "@ + text::decimal(images as nat)
            + " images optimized for X4 (480×800)."@,
{
    let head = text::concat4(
        "Device copy: ",
        text::number(before as u64).as_str(),
        " → ",
        text::number(after as u64).as_str(),
    );
    text::concat4(
        head.as_str(),
        " bytes; ",
        text::number(images as u64).as_str(),
        " images optimized for X4 (480×800).",
    )
}

/// What is said of a book that arrived, or was there already.
pub open spec fn arrived_of(
    verb: Seq<char>,
    path: Seq<char>,
    bytes: usize,
    how: Seq<char>,
) -> Seq<char> {
    verb + " "@ + cleaned(path) + " ("@ + text::decimal(bytes as nat) + " bytes; "@ + how + ")"@
}

fn arrived(verb: &str, path: &str, bytes: usize, how: &str) -> (r: String)
    ensures
        r@ == arrived_of(verb@, path@, bytes, how@),
{
    let head = text::concat4(verb, " ", clean(path).as_str(), " (");
    text::concat5(head.as_str(), text::number(bytes as u64).as_str(), " bytes; ", how, ")")
}

/// What is said of a book that was copied.
pub fn copy(path: &str, bytes: usize, present: bool) -> (r: String)
    ensures
        r@ == arrived_of(
            if present {
                "Already on destination:"@
            } else {
                "Copied"@
            },
            path@,
            bytes,
            "verified"@,
        ),
{
    arrived(
        if present {
            "Already on destination:"
        } else {
            "Copied"
        },
        path,
        bytes,
        "verified",
    )
}

/// What is said of a book that was sent.
pub fn send(path: &str, bytes: usize, present: bool) -> (r: String)
    ensures
        r@ == arrived_of(
            if present {
                "Already on reader:"@
            } else {
                "Sent"@
            },
            path@,
            bytes,
            "SHA-256 verified"@,
        ),
{
    arrived(
        if present {
            "Already on reader:"
        } else {
            "Sent"
        },
        path,
        bytes,
        "SHA-256 verified",
    )
}

} // verus!
