//! A book is known by what is read of it, wherever it goes.
use super::{book_of, device_variant_of, known_variant, recognized, source_of, variant_of};
use crate::books::laws::same_edition;
use crate::books::Place;
use crate::cache;
use crate::cache::{SourceView, VariantView};
use crate::digest::{hex, sha256};
use crate::epub;
use crate::format::{format_problem, titled, Format};
use crate::inventory::{identified, resources_of};
use crate::pdf::VerdictView;
use crate::prepare;
use vstd::prelude::*;

verus! {

broadcast use vstd::string::group_string_axioms;

/// What is known of a file is read from it: how large it is, its digest and that of what
/// is inside, and that it is recognized by both. An EPUB is called what it says, and
/// counts as a copy made for a device where it stands on the reader; any other file is
/// called by its name and never counts as one.
pub proof fn a_file_is_known_by_its_contents(
    data: Seq<u8>,
    place: Place,
    format: Format,
    source: Seq<char>,
    locked: bool,
    verdict: Option<VerdictView>,
)
    ensures
        source_of(data, place, format, source, locked, verdict) is Ok ==> format_problem(
            format,
            data,
        ) is None && data.len() <= 134217728,
        source_of(data, place, format, source, locked, verdict) matches Ok(known) ==> {
            &&& known.format == format
            &&& known.size == data.len()
            &&& known.sha == hex(sha256(data))
            &&& known.resources == resources_of(data)
            &&& known.variants == seq![(hex(sha256(data)), resources_of(data))]
            &&& known.locked == locked
            &&& format == Format::Epub ==> {
                let says = epub::metadata_of(data)->Ok_0->0;
                &&& says.title matches Some(title) ==> known.title == title
                &&& known.author == says.author
                &&& known.series == says.series
                &&& known.series_index == says.series_index
                &&& place == Place::CrossPoint ==> known.optimized
                &&& known.verdict is None
            }
            &&& format != Format::Epub ==> known.title == titled(source) && known.author.len() == 0
                && known.series is None && !known.optimized
            &&& format == Format::Pdf ==> known.verdict == verdict
        },
{
}

/// A file is one copy of one book, in the spot where it was found.
pub proof fn a_file_is_one_copy(known: SourceView, place: Place, path: Seq<char>)
    ensures
        ({
            let book = book_of(known, place, path);
            &&& book.copies.len() == 1
            &&& book.copies[0].place == place && book.copies[0].path == path
            &&& book.copies[0].sha == known.sha && book.copies[0].size == known.size
            &&& book.copies[0].variants == known.variants
            &&& book.copies[0].optimized == known.optimized && book.copies[0].locked == known.locked
            &&& book.copies[0].format == known.format
            &&& book.title == known.title && book.author == known.author
        }),
{
}

/// A book is known again on the reader: the copy that was made of it for the reader is
/// the same edition as the book it was made of, wherever that stands.
pub proof fn a_device_copy_is_known_again(
    index: cache::IndexView,
    data: Seq<u8>,
    place: Place,
    plain: SourceView,
    organized: bool,
    full: SourceView,
    after: Seq<u8>,
    images: nat,
    path: Seq<char>,
    there: Seq<char>,
)
    requires
        plain.format == Format::Epub,
        place != Place::CrossPoint,
        recognized(index, data, place, plain, true, organized, full),
        known_variant(index, plain, true, organized) is None,
        prepare::optimized(data, after, images),
        full.variants == plain.variants.push((hex(sha256(after)), resources_of(after))),
        source_of(after, Place::CrossPoint, Format::Epub, there, false, None) is Ok,
    ensures
        ({
            let copy = source_of(after, Place::CrossPoint, Format::Epub, there, false, None)->Ok_0;
            same_edition(
                book_of(full, place, path).copies[0],
                book_of(copy, Place::CrossPoint, there).copies[0],
            )
        }),
{
    let copy = source_of(after, Place::CrossPoint, Format::Epub, there, false, None)->Ok_0;
    let a = book_of(full, place, path).copies[0];
    let b = book_of(copy, Place::CrossPoint, there).copies[0];
    let i = plain.variants.len() as int;
    assert(a.variants[i].0 == b.variants[0].0);
}

/// Whatever a book becomes for the reader is what it is recognized by there: a book that
/// is not known yet is given the mark of its copy, and one that is known keeps it.
pub proof fn a_book_carries_the_mark_of_its_copy(
    index: cache::IndexView,
    data: Seq<u8>,
    place: Place,
    plain: SourceView,
    optimize: bool,
    organized: bool,
    full: SourceView,
)
    requires
        recognized(index, data, place, plain, optimize, organized, full),
    ensures
        plain.format == Format::Epub && place != Place::CrossPoint ==> {
            &&& full.variants.len() == plain.variants.len() + 1
            &&& full.variants.drop_last() == plain.variants
            &&& known_variant(index, plain, optimize, organized) matches Some(v)
                ==> full.variants.last() == (v.sha, v.resources)
            &&& known_variant(index, plain, optimize, organized) is None && !optimize
                ==> full.variants.last() == (hex(sha256(data)), resources_of(data))
            &&& known_variant(index, plain, optimize, organized) is None && optimize
                ==> exists|after: Seq<u8>, images: nat| #[trigger]
                prepare::optimized(data, after, images) && full.variants.last() == (
                    hex(sha256(after)),
                    resources_of(after),
                )
        },
        !(plain.format == Format::Epub && place != Place::CrossPoint) ==> full == plain,
        full.title == plain.title && full.sha == plain.sha && full.size == plain.size,
{
    if plain.format == Format::Epub && place != Place::CrossPoint {
        match known_variant(index, plain, optimize, organized) {
            Some(v) => {
                assert(full.variants.drop_last() =~= plain.variants);
            },
            None => {
                let v = choose|v: VariantView| #[trigger]
                    device_variant_of(data, optimize, v) && full == super::with_variant(plain, v);
                assert(full.variants.drop_last() =~= plain.variants);
                if optimize {
                    let (after, images) = choose|after: Seq<u8>, images: nat| #[trigger]
                        prepare::optimized(data, after, images) && v == variant_of(
                            identified(after),
                        );
                    assert(prepare::optimized(data, after, images));
                }
            },
        }
    }
}

/// A file that could not be read is no book to work with: it has no digest, and it is
/// said why.
pub proof fn what_could_not_be_read_is_marked(
    place: Place,
    format: Format,
    path: Seq<char>,
    title: Seq<char>,
    reason: Seq<char>,
)
    ensures
        ({
            let book = super::unreadable_book(place, format, path, title, reason);
            &&& super::is_warning(book)
            &&& book.title == title
            &&& book.author == "Unreadable: "@ + reason
            &&& book.copies.len() == 1 && book.copies[0].place == place && book.copies[0].path
                == path && book.copies[0].sha.len() == 0 && book.copies[0].variants.len() == 0
        }),
{
}

} // verus!
