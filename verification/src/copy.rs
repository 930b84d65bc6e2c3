//! Validated, atomic EPUB copies to an existing mounted-card directory: what is
//! copied under which name, and what is never overwritten.
use crate::crosspoint::verified;
use crate::digest::digest;
use crate::epub;
use crate::format::{format_problem, Format};
use crate::names::bad;
use crate::crosspoint::is_reserved;
use crate::text;
use crate::values::result_view;
use vstd::prelude::*;

pub mod laws;

verus! {

broadcast use vstd::string::group_string_axioms;

/// What became of a copy.
#[derive(Clone, Debug, PartialEq, Eq)]
pub struct Copied {
    pub path: String,
    pub bytes: usize,
    pub already_present: bool,
}

#[verifier::ext_equal]
pub struct CopiedView {
    pub path: Seq<char>,
    pub bytes: usize,
    pub already_present: bool,
}

impl View for Copied {
    type V = CopiedView;

    open spec fn view(&self) -> CopiedView {
        CopiedView {
            path: self.path@,
            bytes: self.bytes,
            already_present: self.already_present,
        }
    }
}

impl DeepView for Copied {
    type V = CopiedView;

    open spec fn deep_view(&self) -> CopiedView {
        self@
    }
}

/// What stands at a name in the destination.
#[derive(Clone, Debug, PartialEq, Eq)]
pub struct Occupant {
    pub name: String,
    pub file: bool,
}

#[verifier::ext_equal]
pub struct OccupantView {
    pub name: Seq<char>,
    pub file: bool,
}

impl DeepView for Occupant {
    type V = OccupantView;

    open spec fn deep_view(&self) -> OccupantView {
        OccupantView { name: self.name@, file: self.file }
    }
}

/// What is to be done about a copy.
#[derive(Clone, Copy, Debug, PartialEq, Eq, Structural)]
pub enum Plan {
    /// The name is taken by the file at this position: compare with it.
    Compare(usize),
    /// The name is free.
    Write,
}

/// Whether a name is an ordinary one for an EPUB on a card.
pub open spec fn ordinary(name: Seq<char>) -> bool {
    ordinary_as(name, ".epub"@)
}

/// Whether a name is an ordinary one on a card that ends as its kind does.
pub open spec fn ordinary_as(name: Seq<char>, ending: Seq<char>) -> bool {
    &&& text::ends(text::ascii_lowered(name), ending)
    &&& name.len() > 0 ==> name[0] != '.'
    &&& forall|i: int| 0 <= i < name.len() ==> !bad(#[trigger] name[i])
}

fn is_ordinary(name: &str, ending: &str) -> (r: bool)
    ensures
        r == ordinary_as(name@, ending@),
{
    let lower = text::to_ascii_lowercase(name);
    if !text::ends_with(lower.as_str(), ending) {
        return false;
    }
    let c = text::chars(name);
    if c.len() > 0 && c[0] == '.' {
        return false;
    }
    for i in 0..c.len()
        invariant
            c@ == name@,
            forall|j: int| 0 <= j < i ==> !bad(#[trigger] name@[j]),
    {
        if text::is_control(c[i]) || is_reserved(c[i]) {
            return false;
        }
    }
    true
}

/// Why a book is not copied under a name.
pub open spec fn problem(name: Seq<char>, data: Seq<u8>) -> Option<Seq<char>> {
    if !ordinary(name) {
        Some("Choose an ordinary .epub filename suitable for the SD card"@)
    } else if data.len() > epub::MAX_BOOK_BYTES {
        Some("EPUB exceeds 128 MiB"@)
    } else {
        match (epub::validated(data), epub::font_document(data)) {
            (Some(words), _) => Some(
                "Book failed EPUB validation; nothing was copied: "@ + words,
            ),
            (_, Err(words)) => Some(
                "Book still has unsupported encryption; nothing was copied: "@ + words,
            ),
            _ => None,
        }
    }
}

/// Check a book before it is copied.
pub fn check(name: &str, data: &[u8]) -> (r: Result<(), String>)
    ensures
        result_view(r) == epub::refused(problem(name@, data@)),
{
    if !is_ordinary(name, ".epub") {
        return Err("Choose an ordinary .epub filename suitable for the SD card".to_owned());
    }
    if data.len() as u64 > epub::MAX_BOOK_BYTES {
        return Err("EPUB exceeds 128 MiB".to_owned());
    }
    if let Err(words) = epub::validate(data) {
        return Err(
            text::concat("Book failed EPUB validation; nothing was copied: ", words.as_str()),
        );
    }
    match epub::font_metadata(data) {
        Ok(_) => Ok(()),
        Err(words) => Err(
            text::concat(
                "Book still has unsupported encryption; nothing was copied: ",
                words.as_str(),
            ),
        ),
    }
}

/// Why a book of any format is not copied under a name. Only an EPUB has to be
/// sound inside; the others have to be whole.
pub open spec fn problem_as(format: Format, name: Seq<char>, data: Seq<u8>) -> Option<Seq<char>> {
    if format == Format::Epub {
        problem(name, data)
    } else if !ordinary_as(name, "."@ + format.suffix()) {
        Some("Choose an ordinary ."@ + format.suffix() + " filename suitable for the SD card"@)
    } else if data.len() > epub::MAX_BOOK_BYTES {
        Some(format.name() + " exceeds 128 MiB"@)
    } else {
        match format_problem(format, data) {
            Some(words) => Some(
                "Book failed "@ + format.name() + " validation; nothing was copied: "@ + words,
            ),
            None => None,
        }
    }
}

/// Check a book of any format before it is copied.
pub fn check_as(format: Format, name: &str, data: &[u8]) -> (r: Result<(), String>)
    ensures
        result_view(r) == epub::refused(problem_as(format, name@, data@)),
{
    if let Format::Epub = format {
        return check(name, data);
    }
    let ending = text::concat(".", format.extension());
    if !is_ordinary(name, ending.as_str()) {
        return Err(
            text::concat3(
                "Choose an ordinary .",
                format.extension(),
                " filename suitable for the SD card",
            ),
        );
    }
    if data.len() as u64 > epub::MAX_BOOK_BYTES {
        return Err(text::concat(format.label(), " exceeds 128 MiB"));
    }
    match crate::format::validate(format, data) {
        Ok(()) => Ok(()),
        Err(words) => Err(
            text::concat4(
                "Book failed ",
                format.label(),
                " validation; nothing was copied: ",
                words.as_str(),
            ),
        ),
    }
}

/// The first occupant from `from` on with this name, in whatever case, or the
/// length.
pub open spec fn occupant_at(held: Seq<OccupantView>, name: Seq<char>, from: int) -> int
    decreases held.len() - from,
{
    if from < 0 || from >= held.len() {
        held.len() as int
    } else if text::lowercase(held[from].name) == text::lowercase(name) {
        from
    } else {
        occupant_at(held, name, from + 1)
    }
}

/// A name that a book is written under is free, in whatever case: nothing is
/// overwritten.
pub proof fn nothing_is_overwritten(held: Seq<OccupantView>, name: Seq<char>, from: int)
    requires
        0 <= from <= held.len(),
        occupant_at(held, name, from) == held.len(),
    ensures
        forall|i: int|
            from <= i < held.len() ==> text::lowercase((#[trigger] held[i]).name)
                != text::lowercase(name),
    decreases held.len() - from,
{
    if from < held.len() {
        nothing_is_overwritten(held, name, from + 1);
    }
}

/// Decide on a copy, given what is in the destination. FAT does not tell the
/// case of letters apart, so neither does this.
pub fn copy(name: &str, held: &Vec<Occupant>) -> (r: Result<Plan, String>)
    ensures
        ({
            let at = occupant_at(held.deep_view(), name@, 0);
            match r {
                Ok(Plan::Write) => at == held@.len(),
                Ok(Plan::Compare(i)) => i == at && i < held@.len() && held.deep_view()[at].file,
                Err(words) => 0 <= at < held@.len() && !held.deep_view()[at].file && words@
                    == "Destination name is already occupied; nothing was overwritten"@,
            }
        }),
{
    let wanted = text::to_lowercase(name);
    for i in 0..held.len()
        invariant
            wanted@ == text::lowercase(name@),
            occupant_at(held.deep_view(), name@, 0) == occupant_at(
                held.deep_view(),
                name@,
                i as int,
            ),
    {
        assert(held.deep_view()[i as int] == held@[i as int].deep_view());
        let here = text::to_lowercase(held[i].name.as_str());
        if text::same(here.as_str(), wanted.as_str()) {
            if !held[i].file {
                return Err(
                    "Destination name is already occupied; nothing was overwritten".to_owned(),
                );
            }
            return Ok(Plan::Compare(i));
        }
    }
    Ok(Plan::Write)
}

/// What a file that has the name already means: it is the book, or it stays as
/// it is.
pub open spec fn compared(path: Seq<char>, found: Seq<u8>, data: Seq<u8>) -> Result<
    CopiedView,
    Seq<char>,
> {
    if found == data {
        Ok(CopiedView { path, bytes: data.len() as usize, already_present: true })
    } else {
        Err("A different file already exists at "@ + path + "; nothing was overwritten"@)
    }
}

pub fn compare(path: &str, found: &[u8], data: &[u8]) -> (r: Result<Copied, String>)
    ensures
        result_view(r) == compared(path@, found@, data@),
{
    if epub::same_bytes(found, data) {
        Ok(Copied { path: path.to_owned(), bytes: data.len(), already_present: true })
    } else {
        Err(
            text::concat3(
                "A different file already exists at ",
                path,
                "; nothing was overwritten",
            ),
        )
    }
}

/// Check that there is room for a copy.
pub fn check_room(free: u64, needed: usize) -> (r: Result<(), String>)
    ensures
        result_view(r) == if free >= needed {
            Ok(())
        } else {
            Err(
                "Not enough free space on destination: need "@ + text::decimal(needed as nat)
                    + " bytes, available "@ + text::decimal(free as nat),
            )
        },
{
    if free >= needed as u64 {
        Ok(())
    } else {
        Err(
            text::concat4(
                "Not enough free space on destination: need ",
                text::number(needed as u64).as_str(),
                " bytes, available ",
                text::number(free).as_str(),
            ),
        )
    }
}

/// What a copy that was read back means: it is the book, or nothing is published.
pub open spec fn read_back(path: Seq<char>, written: Seq<u8>, data: Seq<u8>) -> Result<
    CopiedView,
    Seq<char>,
> {
    if verified(written, data) {
        Ok(CopiedView { path, bytes: data.len() as usize, already_present: false })
    } else {
        Err("Copied bytes failed verification; no EPUB was published"@)
    }
}

/// What a copy is once its bytes have been read back: published only when they
/// are those of the book.
pub fn check_written(path: &str, written: &[u8], data: &[u8]) -> (r: Result<Copied, String>)
    ensures
        result_view(r) == read_back(path@, written@, data@),
{
    if written.len() == data.len() && epub::same_bytes(
        digest(written).as_slice(),
        digest(data).as_slice(),
    ) {
        Ok(Copied { path: path.to_owned(), bytes: data.len(), already_present: false })
    } else {
        Err("Copied bytes failed verification; no EPUB was published".to_owned())
    }
}

} // verus!
