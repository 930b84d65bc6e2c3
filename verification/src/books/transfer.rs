//! Moving books between places: what may be removed, what may be copied where,
//! and what is said about it.
use super::{Book, BookView, CopyView, Place};
use crate::books;
use crate::crosspoint::{reader_for, Reader};
use crate::digest;
use crate::digest::{hex, sha256};
use crate::epub;
use crate::format::Format;
use crate::kobo;
use crate::pdf::{Verdict, VerdictView};
use crate::prepare;
use crate::text;
use crate::values::result_view;
use vstd::prelude::*;

pub mod laws;

verus! {

broadcast use vstd::string::group_string_axioms;

/// Where books are looked for and where they go.
#[derive(Clone, Debug, PartialEq, Eq)]
pub struct Options {
    pub show_previews: bool,
    pub local: String,
    pub output: String,
    pub kobo: Option<String>,
    pub reader: Option<String>,
    pub card: Option<String>,
    pub folder: String,
    pub serial: Option<String>,
    pub optimize: bool,
    pub organized: bool,
    /// Identity cache file; without it, the default cache location.
    pub cache: Option<String>,
}

/// Where each place writes, for asking it how much room is left.
pub fn destination_path(options: &Options, place: Place) -> (r: Option<&String>)
    ensures
        match (r, place) {
            (Some(path), Place::Local) => path@ == options.output@,
            (Some(path), Place::Kobo) => options.kobo matches Some(kobo) && path@ == kobo@,
            (Some(path), Place::CrossPoint) => options.card matches Some(card) && path@ == card@,
            (None, Place::Local) => false,
            (None, Place::Kobo) => options.kobo is None,
            (None, Place::CrossPoint) => options.card is None,
        },
{
    match place {
        Place::Local => Some(&options.output),
        Place::Kobo => match &options.kobo {
            Some(path) => Some(path),
            None => None,
        },
        Place::CrossPoint => match &options.card {
            Some(path) => Some(path),
            None => None,
        },
    }
}

/// The reader that books are found on over the network.
pub fn network_reader(options: &Options) -> (r: Result<Reader, String>)
    ensures
        result_view(r) == match options.reader {
            None => Err("Not configured"@),
            Some(address) => reader_for(address@, options.folder@),
        },
{
    match &options.reader {
        None => Err("Not configured".to_owned()),
        Some(address) => Reader::new(address.as_str(), options.folder.as_str()),
    }
}

/// A whole number of parts, rounded to the nearest, and to the even one of two
/// that are as near.
pub open spec fn nearest(n: int, d: int) -> int {
    if 2 * (n % d) < d || (2 * (n % d) == d && (n / d) % 2 == 0) {
        n / d
    } else {
        n / d + 1
    }
}

/// How coarse a binary fraction of 53 digits is at a size.
pub open spec fn grain(n: int, g: int) -> int
    decreases 4096 - g,
{
    if g <= 0 || n / g < 9007199254740992 || g >= 2048 {
        g
    } else {
        grain(n, 2 * g)
    }
}

/// A size as a binary fraction of 53 digits holds it.
pub open spec fn held(n: int) -> int {
    nearest(n, grain(n, 1)) * grain(n, 1)
}

/// The unit a size is shown in, and how many bytes it has.
pub open spec fn unit_of(n: int) -> (Seq<char>, int) {
    if held(n) < 1048576 {
        ("KiB"@, 1024)
    } else if held(n) < 1073741824 {
        ("MiB"@, 1048576)
    } else {
        ("GiB"@, 1073741824)
    }
}

/// A size as the interface shows it.
pub open spec fn size_of(bytes: u64) -> Seq<char> {
    if bytes < 1024 {
        text::decimal(bytes as nat) + " B"@
    } else {
        let (unit, many) = unit_of(bytes as int);
        let tenths = nearest(10 * held(bytes as int), many);
        text::decimal((tenths / 10) as nat) + "."@ + text::decimal((tenths % 10) as nat) + " "@
            + unit
    }
}

fn round(n: u128, d: u128) -> (r: u128)
    requires
        0 < d <= 1073741824,
        n <= 368934881474191032320,
    ensures
        r == nearest(n as int, d as int),
        r <= n / d + 1,
{
    let q: u128 = n / d;
    let rest: u128 = n % d;
    if 2 * rest < d || (2 * rest == d && q % 2 == 0) {
        q
    } else {
        q + 1
    }
}

fn hold(bytes: u64) -> (r: u128)
    ensures
        r == held(bytes as int),
        r <= 36893488147419103232,
{
    let n: u128 = bytes as u128;
    let mut g: u128 = 1;
    while n / g >= 9007199254740992 && g < 2048
        invariant
            n == bytes as int,
            1 <= g < 4096,
            grain(n as int, 1) == grain(n as int, g as int),
        decreases 4096 - g,
    {
        g = 2 * g;
    }
    let q = round(n, g);
    proof {
        assert(grain(n as int, g as int) == g);
        assert(q * g <= n + g) by (nonlinear_arith)
            requires
                q <= n / g + 1,
                g > 0,
                n >= 0,
                q >= 0,
        ;
    }
    q * g
}

/// Human-readable bytes, matching what the interface shows.
pub fn size(bytes: u64) -> (r: String)
    ensures
        r@ == size_of(bytes),
{
    if bytes < 1024 {
        return text::concat(text::number(bytes).as_str(), " B");
    }
    let value = hold(bytes);
    let (unit, many): (&'static str, u128) = if value < 1048576 {
        ("KiB", 1024)
    } else if value < 1073741824 {
        ("MiB", 1048576)
    } else {
        ("GiB", 1073741824)
    };
    let tenths = round(10 * value, many);
    let ghost whole = tenths as int;
    assert(tenths <= 18446744073709551615) by {
        if value < 1073741824 {
            assert(10 * value / many as int <= 10737418240) by (nonlinear_arith)
                requires
                    0 <= value < 1073741824,
                    many >= 1,
            ;
        }
    }
    text::concat5(
        text::number((tenths / 10) as u64).as_str(),
        ".",
        text::number((tenths % 10) as u64).as_str(),
        " ",
        unit,
    )
}

/// Whether a copy is the one that was pointed at. Local paths are compared as
/// files, since the same file can be reached by more than one path. Devices are
/// not filesystem paths at all and must match exactly.
pub open spec fn pointed_at(
    copy: CopyView,
    place: Place,
    path: Seq<char>,
    same_file: bool,
) -> bool {
    copy.place == place && (copy.path == path || (place == Place::Local && same_file))
}

/// The first copy from `from` on that was pointed at, or the length.
pub open spec fn copy_at(
    copies: Seq<CopyView>,
    place: Place,
    path: Seq<char>,
    same_files: Seq<bool>,
    from: int,
) -> int
    decreases copies.len() - from,
{
    if from < 0 || from >= copies.len() {
        copies.len() as int
    } else if pointed_at(copies[from], place, path, same_files[from]) {
        from
    } else {
        copy_at(copies, place, path, same_files, from + 1)
    }
}

/// The copy that may be removed, or why none may: never the last copy anywhere,
/// never a book the Kobo database owns, and never one that was not read.
pub open spec fn removable(
    book: BookView,
    place: Place,
    path: Seq<char>,
    same_files: Seq<bool>,
) -> Result<int, Seq<char>> {
    let at = copy_at(book.copies, place, path, same_files, 0);
    if book.copies.len() <= 1 {
        Err(
            "This is the only copy of "@ + book.title
                + "; copy it somewhere else before removing this one"@,
        )
    } else if !(0 <= at < book.copies.len()) {
        Err("That copy is no longer in the library; refresh and try again"@)
    } else if book.copies[at].locked {
        Err(
            "The Kobo database lists this book, so its file is not ours to delete; remove it on the Kobo itself"@,
        )
    } else if book.copies[at].sha.len() == 0 {
        Err(
            "This copy could not be read during discovery, so it cannot be identified; resolve that first"@,
        )
    } else {
        Ok(at)
    }
}

/// The last copy of a book is never removed, and neither is one that belongs to
/// the Kobo's database or could not be read.
pub proof fn the_last_copy_stays(
    book: BookView,
    place: Place,
    path: Seq<char>,
    same_files: Seq<bool>,
)
    ensures
        removable(book, place, path, same_files) matches Ok(at) ==> 0 <= at < book.copies.len()
            && book.copies.len() > 1 && !book.copies[at].locked && book.copies[at].sha.len() > 0
            && book.copies[at].place == place,
{
    copy_at_is_there(book.copies, place, path, same_files, 0);
}

proof fn copy_at_is_there(
    copies: Seq<CopyView>,
    place: Place,
    path: Seq<char>,
    same_files: Seq<bool>,
    from: int,
)
    requires
        0 <= from <= copies.len(),
    ensures
        ({
            let at = copy_at(copies, place, path, same_files, from);
            from <= at <= copies.len() && (at < copies.len() ==> copies[at].place == place)
        }),
    decreases copies.len() - from,
{
    if from < copies.len() && !pointed_at(copies[from], place, path, same_files[from]) {
        copy_at_is_there(copies, place, path, same_files, from + 1);
    }
}

/// Choose the copy to remove, and only when every rule holds. `same_files` says
/// of each copy whether its path and the given one lead to the same file.
pub fn remove(book: &Book, place: Place, path: &str, same_files: &Vec<bool>) -> (r: Result<
    usize,
    String,
>)
    requires
        same_files@.len() == book.copies@.len(),
    ensures
        match (r, removable(book@, place, path@, same_files@)) {
            (Ok(i), Ok(at)) => i == at && i < book.copies@.len(),
            (Err(words), Err(wanted)) => words@ == wanted,
            _ => false,
        },
{
    if book.copies.len() <= 1 {
        return Err(
            text::concat3(
                "This is the only copy of ",
                book.title.as_str(),
                "; copy it somewhere else before removing this one",
            ),
        );
    }
    for i in 0..book.copies.len()
        invariant
            book.copies@.len() > 1,
            same_files@.len() == book.copies@.len(),
            copy_at(book@.copies, place, path@, same_files@, 0) == copy_at(
                book@.copies,
                place,
                path@,
                same_files@,
                i as int,
            ),
    {
        let copy = &book.copies[i];
        assert(book@.copies[i as int] == copy@);
        if copy.place == place && (text::same(copy.path.as_str(), path) || (place == Place::Local
            && same_files[i])) {
            if copy.locked {
                return Err(
                    "The Kobo database lists this book, so its file is not ours to delete; remove it on the Kobo itself".to_owned(),
                );
            }
            if copy.sha.as_str().is_empty() {
                return Err(
                    "This copy could not be read during discovery, so it cannot be identified; resolve that first".to_owned(),
                );
            }
            return Ok(i);
        }
    }
    Err("That copy is no longer in the library; refresh and try again".to_owned())
}

/// Check that a file still is what discovery recorded.
pub fn check_unchanged(data: &[u8], sha: &str) -> (r: Result<(), String>)
    ensures
        result_view(r) == if data@.len() > epub::MAX_BOOK_BYTES {
            Err("Book exceeds 128 MiB"@)
        } else if hex(sha256(data@)) == sha@ {
            Ok(())
        } else {
            Err(
                "Contents changed since discovery; nothing was deleted. Refresh and look again"@,
            )
        },
{
    if data.len() as u64 > epub::MAX_BOOK_BYTES {
        return Err("Book exceeds 128 MiB".to_owned());
    }
    if text::same(digest::fingerprint(data).as_str(), sha) {
        Ok(())
    } else {
        Err(
            "Contents changed since discovery; nothing was deleted. Refresh and look again".to_owned(),
        )
    }
}

/// What is said of a copy that was removed.
pub open spec fn removed_of(place: Place, path: Seq<char>, bytes: u64) -> Seq<char> {
    match place {
        Place::Local => "Deleted "@ + path + " ("@ + size_of(bytes) + ")"@,
        Place::Kobo => "Deleted "@ + path + " from the Kobo ("@ + size_of(bytes)
            + "). Eject it so the library updates"@,
        Place::CrossPoint => "Deleted "@ + path + " from the reader's card ("@ + size_of(bytes)
            + ")"@,
    }
}

pub fn removed(place: Place, path: &str, bytes: u64) -> (r: String)
    ensures
        r@ == removed_of(place, path@, bytes),
{
    let much = size(bytes);
    match place {
        Place::Local => text::concat5("Deleted ", path, " (", much.as_str(), ")"),
        Place::Kobo => text::concat5(
            "Deleted ",
            path,
            " from the Kobo (",
            much.as_str(),
            "). Eject it so the library updates",
        ),
        Place::CrossPoint => text::concat5(
            "Deleted ",
            path,
            " from the reader's card (",
            much.as_str(),
            ")",
        ),
    }
}

/// Whether a copy has to become an EPUB on its way. The reader lists only EPUB.
/// A PDF can earn its way there by being converted, and the conversion is kept
/// beside the original rather than standing in for it.
pub open spec fn converts(copy: CopyView, target: Place) -> bool {
    target == Place::CrossPoint && copy.format != Format::Epub
}

/// Why a book is not copied to a place.
pub open spec fn transfer_problem(book: BookView, target: Place) -> Option<Seq<char>> {
    match book.preferred() {
        None => Some("No available copy"@),
        Some(copy) => if copy.sha.len() == 0 {
            Some(
                "Source could not be verified during discovery; refresh or resolve its read error before copying"@,
            )
        } else if copy.place == target {
            Some("Preferred copy is already at this location"@)
        } else if converts(copy, target) && copy.format != Format::Pdf {
            Some(
                "The reader's library only lists EPUB, and a "@ + copy.format.name()
                    + " cannot be converted into one"@,
            )
        } else if converts(copy, target) && copy.verdict matches Some(VerdictView::Impossible(_)) {
            Some("This PDF cannot be converted: "@ + copy.verdict->0.because())
        } else {
            None
        },
    }
}

/// Choose the copy to transfer. Says whether it is converted on the way.
pub fn transfer(book: &Book, target: Place) -> (r: Result<(&books::Copy, bool), String>)
    ensures
        match (r, transfer_problem(book@, target)) {
            (Ok((copy, converting)), None) => book@.preferred() == Some(copy@) && converting
                == converts(copy@, target),
            (Err(words), Some(wanted)) => words@ == wanted,
            _ => false,
        },
{
    let copy = match book.preferred() {
        None => return Err("No available copy".to_owned()),
        Some(copy) => copy,
    };
    if copy.sha.as_str().is_empty() {
        return Err(
            "Source could not be verified during discovery; refresh or resolve its read error before copying".to_owned(),
        );
    }
    if copy.place == target {
        return Err("Preferred copy is already at this location".to_owned());
    }
    let converting = target == Place::CrossPoint && !copy.format.shown_on_reader();
    if converting {
        if copy.format != Format::Pdf {
            return Err(
                text::concat3(
                    "The reader's library only lists EPUB, and a ",
                    copy.format.label(),
                    " cannot be converted into one",
                ),
            );
        }
        if let Some(verdict) = &copy.verdict {
            if let Verdict::Impossible(_) = verdict {
                return Err(
                    text::concat("This PDF cannot be converted: ", verdict.because().as_str()),
                );
            }
        }
    }
    Ok((copy, converting))
}

/// How a copy is made ready for a place, and where it is put there.
#[derive(Clone, Copy, Debug, PartialEq, Eq, Structural)]
pub struct Plan {
    /// What the copy is when it arrives.
    pub format: Format,
    /// Whether it is made anew; what is not keeps its name and its bytes.
    pub rewrite: bool,
    /// Whether its pictures are made to fit the screen.
    pub optimize: bool,
    /// Whether it is put into a folder of its author.
    pub by_author: bool,
}

/// What is done with a copy on its way to a place. Only for the reader are pictures
/// made anew, and only where that is wanted. An author's folder is made on the reader
/// where books are put in order there, and on the Kobo for what is made anew.
pub open spec fn planned(copy: CopyView, target: Place, optimize: bool, organized: bool) -> Plan {
    let format = if converts(copy, target) {
        Format::Epub
    } else {
        copy.format
    };
    Plan {
        format,
        rewrite: format == Format::Epub,
        optimize: target == Place::CrossPoint && optimize,
        by_author: match target {
            Place::Local => false,
            Place::Kobo => format == Format::Epub,
            Place::CrossPoint => organized,
        },
    }
}

/// Plan what is done with a copy on its way to a place.
pub fn plan(copy: &books::Copy, target: Place, optimize: bool, organized: bool) -> (r: Plan)
    ensures
        r == planned(copy@, target, optimize, organized),
{
    let format = if target == Place::CrossPoint && !copy.format.shown_on_reader() {
        Format::Epub
    } else {
        copy.format
    };
    Plan {
        format,
        rewrite: format.rewritten(),
        optimize: target == Place::CrossPoint && optimize,
        by_author: match target {
            Place::Local => false,
            Place::Kobo => format.rewritten(),
            Place::CrossPoint => organized,
        },
    }
}

/// Check that the copy read is the one that discovery recorded.
pub fn check_source(data: &[u8], sha: &str) -> (r: Result<(), String>)
    ensures
        result_view(r) == if data@.len() > epub::MAX_BOOK_BYTES {
            Err("Book exceeds 128 MiB"@)
        } else if hex(sha256(data@)) == sha@ {
            Ok(())
        } else {
            Err("Source changed since discovery; refresh before copying"@)
        },
{
    if data.len() as u64 > epub::MAX_BOOK_BYTES {
        return Err("Book exceeds 128 MiB".to_owned());
    }
    if text::same(digest::fingerprint(data).as_str(), sha) {
        Ok(())
    } else {
        Err("Source changed since discovery; refresh before copying".to_owned())
    }
}

/// What a conversion is called: after the book, not after whatever the PDF's
/// file happened to be called.
pub fn conversion_name(title: &str) -> (r: String)
    ensures
        r@ == prepare::component_of(title@, "Untitled"@) + ".epub"@,
{
    text::concat(prepare::component(title, "Untitled").as_str(), ".epub")
}

/// What is said of a book that was copied.
pub open spec fn copied_of(output: Seq<char>, converted: Option<Seq<char>>, optimized: bool) -> Seq<
    char,
> {
    match converted {
        Some(path) => "Converted to "@ + path + " and copied to "@ + output
            + " (verified). The PDF is untouched."@,
        None => "Copied to "@ + output + " (verified)."@ + (if optimized {
            " Source is a device copy; any image optimization in it cannot be undone."@
        } else {
            ""@
        }),
    }
}

pub fn copied(output: &str, converted: &Option<String>, optimized: bool) -> (r: String)
    ensures
        r@ == copied_of(output@, converted.deep_view(), optimized),
{
    match converted {
        Some(path) => text::concat5(
            "Converted to ",
            path.as_str(),
            " and copied to ",
            output,
            " (verified). The PDF is untouched.",
        ),
        None => text::concat4(
            "Copied to ",
            output,
            " (verified).",
            if optimized {
                " Source is a device copy; any image optimization in it cannot be undone."
            } else {
                ""
            },
        ),
    }
}

/// Check that a book of the Kobo may be deleted: only one that its database
/// does not list.
pub fn check_sideloaded(source: kobo::Source) -> (r: Result<(), String>)
    ensures
        result_view(r) == match source {
            kobo::Source::Sideloaded => Ok(()),
            kobo::Source::KoboStore => Err(
                "The Kobo database lists this book; remove it on the Kobo itself"@,
            ),
        },
{
    match source {
        kobo::Source::Sideloaded => Ok(()),
        kobo::Source::KoboStore => Err(
            "The Kobo database lists this book; remove it on the Kobo itself".to_owned(),
        ),
    }
}

} // verus!
