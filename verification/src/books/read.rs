//! Recognizing one book, wherever it was found.
use super::{Book, BookView, CopyView, Place};
use crate::archive;
use crate::archive::{members_of, opened};
use crate::books;
use crate::cache;
use crate::cache::{Index, Source, SourceView, Variant, VariantView};
use crate::epub;
use crate::format::{format_problem, name_title, titled, Format};
use crate::inventory::{identified, identity, IdentityView, MARKER};
use crate::pdf::{Verdict, VerdictView};
use crate::position::PositionView;
use crate::prepare;
use crate::text;
use crate::values::{result_view, Duplicate};
use vstd::prelude::*;

pub mod laws;

verus! {

broadcast use vstd::string::group_string_axioms;

/// A book with one copy, as it is known from having been read.
pub open spec fn book_of(source: SourceView, place: Place, path: Seq<char>) -> BookView {
    BookView {
        title: source.title,
        author: source.author,
        series: source.series,
        series_index: source.series_index,
        copies: seq![
            CopyView {
                place,
                format: source.format,
                verdict: source.verdict,
                path,
                size: source.size,
                sha: source.sha,
                resources: source.resources,
                optimized: source.optimized,
                locked: source.locked,
                variants: source.variants,
            },
        ],
    }
}

pub fn book(source: Source, place: Place, path: String) -> (r: Book)
    ensures
        r@ == book_of(source@, place, path@),
{
    let ghost shown = book_of(source@, place, path@);
    let mut copies: Vec<books::Copy> = Vec::new();
    copies.push(
        books::Copy {
            place,
            format: source.format,
            verdict: source.verdict,
            path,
            size: source.size,
            sha: source.sha,
            resources: source.resources,
            optimized: source.optimized,
            locked: source.locked,
            variants: source.variants,
        },
    );
    let r = Book {
        title: source.title,
        author: source.author,
        series: source.series,
        series_index: source.series_index,
        copies,
    };
    proof {
        assert(r@.copies =~= shown.copies);
    }
    r
}

/// A location's stored identity for a source it has just enumerated and found
/// unchanged. Nothing here invents a book: the caller has already seen it.
pub fn stored(index: &mut Index, key: &Option<String>, place: Place, source: &str, now: u64) -> (r:
    Option<Book>)
    requires
        old(index)@.wf(),
    ensures
        final(index)@.wf(),
        match key {
            None => r is None && final(index)@ == old(index)@,
            Some(key) => {
                &&& final(index)@ == (cache::IndexView {
                    sources: cache::touched(old(index)@.sources, key@, now),
                    ..old(index)@
                })
                &&& match (r, cache::stored(old(index)@.sources, key@)) {
                    (Some(book), Some(found)) => book@ == book_of(found, place, source@),
                    (None, None) => true,
                    _ => false,
                }
            },
        },
{
    match key {
        None => None,
        Some(key) => match index.source(key.as_str(), now) {
            Some(found) => Some(book(found, place, source.to_owned())),
            None => None,
        },
    }
}

/// What stands for a book that could not be read.
pub open spec fn unreadable_book(
    place: Place,
    format: Format,
    path: Seq<char>,
    title: Seq<char>,
    reason: Seq<char>,
) -> BookView {
    BookView {
        title,
        author: "Unreadable: "@ + reason,
        series: None,
        series_index: None,
        copies: seq![
            CopyView {
                place,
                format,
                verdict: None,
                path,
                size: 0,
                sha: Seq::empty(),
                resources: None,
                optimized: format == Format::Epub && place == Place::CrossPoint,
                locked: false,
                variants: Seq::empty(),
            },
        ],
    }
}

pub fn unreadable(place: Place, format: Format, path: String, title: String, reason: &str) -> (r: Book)
    ensures
        r@ == unreadable_book(place, format, path@, title@, reason@),
{
    let ghost shown = unreadable_book(place, format, path@, title@, reason@);
    let mut copies: Vec<books::Copy> = Vec::new();
    copies.push(
        books::Copy {
            place,
            format,
            verdict: None,
            path,
            size: 0,
            sha: String::new(),
            resources: None,
            optimized: format.rewritten() && place == Place::CrossPoint,
            locked: false,
            variants: Vec::new(),
        },
    );
    let r = Book {
        title,
        author: text::concat("Unreadable: ", reason),
        series: None,
        series_index: None,
        copies,
    };
    proof {
        assert(copies@[0]@.sha =~= Seq::<char>::empty());
        assert(copies@[0]@.variants =~= Seq::<(Seq<char>, Option<Seq<char>>)>::empty());
        assert(r@.copies =~= shown.copies);
    }
    r
}

/// What a book says of itself.
#[verifier::ext_equal]
pub struct LabelView {
    pub title: Seq<char>,
    pub author: Seq<char>,
    pub series: Option<Seq<char>>,
    pub series_index: Option<PositionView>,
}

/// What is said of a book. An EPUB is read for it. Any other format is never taken
/// apart, so such a book is titled by what its file is called and has no author.
pub open spec fn label_of(data: Seq<u8>, format: Format, source: Seq<char>) -> Result<
    LabelView,
    Seq<char>,
> {
    if format == Format::Epub {
        match epub::metadata_of(data) {
            Err(words) => Err(words),
            Ok(None) => Err("Missing EPUB metadata"@),
            Ok(Some(metadata)) => Ok(
                LabelView {
                    title: match metadata.title {
                        Some(title) => title,
                        None => "Untitled"@,
                    },
                    author: metadata.author,
                    series: metadata.series,
                    series_index: metadata.series_index,
                },
            ),
        }
    } else {
        Ok(
            LabelView {
                title: titled(source),
                author: Seq::empty(),
                series: None,
                series_index: None,
            },
        )
    }
}

/// Whether a file is a device copy. Only an EPUB is ever rebuilt, so only an
/// EPUB can be one: a PDF on the reader is the same bytes that left here.
pub open spec fn is_optimized(data: Seq<u8>, format: Format, place: Place) -> Result<
    bool,
    Seq<char>,
> {
    if format != Format::Epub {
        Ok(false)
    } else if place == Place::CrossPoint {
        Ok(true)
    } else {
        match members_of(data) {
            Ok(members) => Ok(opened(members, MARKER@) is Ok),
            Err(words) => Err(words),
        }
    }
}

/// What is known of a file from having read it, before its copy for a device is
/// considered.
pub open spec fn source_of(
    data: Seq<u8>,
    place: Place,
    format: Format,
    source: Seq<char>,
    locked: bool,
    verdict: Option<VerdictView>,
) -> Result<SourceView, Seq<char>> {
    if data.len() > epub::MAX_BOOK_BYTES {
        Err("Book exceeds 128 MiB"@)
    } else {
        match (
            format_problem(format, data),
            label_of(data, format, source),
            is_optimized(data, format, place),
        ) {
            (Some(words), _, _) => Err(words),
            (_, Err(words), _) => Err(words),
            (_, _, Err(words)) => Err(words),
            (_, Ok(label), Ok(optimized)) => Ok(
                SourceView {
                    title: label.title,
                    author: label.author,
                    series: label.series,
                    series_index: label.series_index,
                    format,
                    verdict: if format == Format::Pdf {
                        verdict
                    } else {
                        None
                    },
                    size: data.len() as u64,
                    sha: identified(data).sha256,
                    resources: identified(data).resources,
                    optimized,
                    locked,
                    variants: seq![(identified(data).sha256, identified(data).resources)],
                },
            ),
        }
    }
}

/// Read what a file says of itself.
pub fn describe(
    data: &[u8],
    place: Place,
    format: Format,
    source: &str,
    locked: bool,
    verdict: Option<Verdict>,
) -> (r: Result<Source, String>)
    ensures
        result_view(r) == source_of(data@, place, format, source@, locked, verdict.deep_view()),
{
    if data.len() as u64 > epub::MAX_BOOK_BYTES {
        return Err("Book exceeds 128 MiB".to_owned());
    }
    if let Err(words) = crate::format::validate(format, data) {
        return Err(words);
    }
    let (title, author, series, series_index) = if format.rewritten() {
        match epub::metadata(data) {
            Err(words) => return Err(words),
            Ok(None) => return Err("Missing EPUB metadata".to_owned()),
            Ok(Some(metadata)) => (
                match metadata.title {
                    Some(title) => title,
                    None => "Untitled".to_owned(),
                },
                metadata.author,
                metadata.series,
                metadata.series_index,
            ),
        }
    } else {
        let none = String::new();
        assert(none@ =~= Seq::<char>::empty());
        (name_title(source), none, None, None)
    };
    let optimized = if !format.rewritten() {
        false
    } else if place == Place::CrossPoint {
        true
    } else {
        match archive::members(data) {
            Ok(members) => archive::open_member(&members, MARKER).is_ok(),
            Err(words) => return Err(words),
        }
    };
    let id = identity(data);
    let mut variants: Vec<(String, Option<String>)> = Vec::new();
    variants.push((id.sha256.duplicate(), id.resources.duplicate()));
    proof {
        assert(variants.deep_view() =~= seq![
            (identified(data@).sha256, identified(data@).resources),
        ]);
    }
    let verdict = if format == Format::Pdf {
        verdict
    } else {
        None
    };
    Ok(
        Source {
            title,
            author,
            series,
            series_index,
            format,
            verdict,
            size: data.len() as u64,
            sha: id.sha256,
            resources: id.resources,
            optimized,
            locked,
            variants,
        },
    )
}

/// Whether a file's copy for a device is part of how it is recognized.
pub open spec fn travels(format: Format, place: Place) -> bool {
    format == Format::Epub && place != Place::CrossPoint
}

/// Whether this is how the copy of some bytes for a device is recognized.
pub open spec fn device_variant_of(data: Seq<u8>, optimize: bool, v: VariantView) -> bool {
    if optimize {
        exists|after: Seq<u8>, images: nat| #[trigger]
            prepare::optimized(data, after, images) && v == variant_of(identified(after))
    } else {
        v == variant_of(identified(data))
    }
}

pub open spec fn variant_of(id: IdentityView) -> VariantView {
    VariantView { sha: id.sha256, resources: id.resources }
}

/// How the copy of a file for a device is recognized.
pub fn device_variant(data: Vec<u8>, path: &str, optimize: bool, organized: bool) -> (r: Result<
    Variant,
    String,
>)
    ensures
        match (r, prepare::ready(path@, data@, organized)) {
            (Ok(v), Ok(_)) => device_variant_of(data@, optimize, v@),
            (Ok(_), Err(_)) => false,
            (Err(words), Err(wanted)) => words@ == wanted,
            (Err(words), Ok(_)) => optimize && prepare::unoptimized(data@, words@),
        },
{
    let ghost before = data@;
    match prepare::prepare(path, data, optimize, organized) {
        Err(words) => Err(words),
        Ok(prepared) => {
            proof {
                if optimize {
                    assert(prepare::optimized(
                        before,
                        prepared.data@,
                        prepared.images as nat,
                    ));
                }
            }
            let id = identity(prepared.data.as_slice());
            Ok(Variant { sha: id.sha256, resources: id.resources })
        },
    }
}

/// What is known of a file once its copy for a device is recognized too.
pub open spec fn with_variant(source: SourceView, v: VariantView) -> SourceView {
    SourceView { variants: source.variants.push((v.sha, v.resources)), ..source }
}

/// The variant that is stored for a file, if its copy for a device matters and
/// is known.
pub open spec fn known_variant(
    index: cache::IndexView,
    source: SourceView,
    optimize: bool,
    organized: bool,
) -> Option<VariantView> {
    cache::stored(index.variants, cache::variant_name(source.sha, optimize, organized))
}

/// Whether a file was recognized in full: as what it says of itself and, where
/// its copy for a device matters, as that copy, which is looked up where it is
/// known and made where it is not.
pub open spec fn recognized(
    index: cache::IndexView,
    data: Seq<u8>,
    place: Place,
    plain: SourceView,
    optimize: bool,
    organized: bool,
    full: SourceView,
) -> bool {
    if !travels(plain.format, place) {
        full == plain
    } else {
        match known_variant(index, plain, optimize, organized) {
            Some(v) => full == with_variant(plain, v),
            None => exists|v: VariantView| #[trigger]
                device_variant_of(data, optimize, v) && full == with_variant(plain, v),
        }
    }
}

/// What the index holds once a file was recognized in full. The copy for a device
/// counts as used where it was known, and is stored where it was not; the file is
/// stored under its key, if it has one.
pub open spec fn indexed(
    index: cache::IndexView,
    place: Place,
    optimize: bool,
    organized: bool,
    full: SourceView,
    key: Option<Seq<char>>,
    now: u64,
) -> cache::IndexView {
    let name = cache::variant_name(full.sha, optimize, organized);
    let made = travels(full.format, place) && cache::stored(index.variants, name) is None;
    cache::IndexView {
        variants: if made {
            let (sha, resources) = full.variants.last();
            cache::put(index.variants, name, VariantView { sha, resources }, now)
        } else if travels(full.format, place) {
            cache::touched(index.variants, name, now)
        } else {
            index.variants
        },
        sources: match key {
            Some(key) => cache::put(index.sources, key, full, now),
            None => index.sources,
        },
        dirty: index.dirty || made || key is Some,
    }
}

/// Whether a book came of reading a file: it is what the file was recognized as,
/// and the index holds that and nothing else besides what it held.
pub open spec fn came_of(
    index: cache::IndexView,
    data: Seq<u8>,
    place: Place,
    plain: SourceView,
    optimize: bool,
    organized: bool,
    source: Seq<char>,
    key: Option<Seq<char>>,
    now: u64,
    book: BookView,
    after: cache::IndexView,
) -> bool {
    exists|full: SourceView| #[trigger]
        recognized(index, data, place, plain, optimize, organized, full) && book == book_of(
            full,
            place,
            source,
        ) && after == indexed(index, place, optimize, organized, full, key, now)
}

/// Read and recognize a book. `key` is the caller's evidence that this source is
/// unchanged; without it this location cannot prove it, and the result is not
/// stored. Identical bytes always optimize to the same copy, wherever they came
/// from, so a hit also spares Kobo books the image re-encoding.
pub fn candidate(
    data: Vec<u8>,
    path: &str,
    place: Place,
    format: Format,
    source: &str,
    optimize: bool,
    organized: bool,
    index: &mut Index,
    key: Option<String>,
    locked: bool,
    verdict: Option<Verdict>,
    now: u64,
) -> (r: Result<Book, String>)
    requires
        old(index)@.wf(),
    ensures
        final(index)@.wf(),
        match (r, source_of(data@, place, format, source@, locked, verdict.deep_view())) {
            (Ok(book), Ok(plain)) => came_of(
                old(index)@,
                data@,
                place,
                plain,
                optimize,
                organized,
                source@,
                key.deep_view(),
                now,
                book@,
                final(index)@,
            ),
            (Ok(_), Err(_)) => false,
            (Err(words), Err(wanted)) => words@ == wanted && final(index)@ == old(index)@,
            (Err(words), Ok(plain)) => final(index)@ == old(index)@ && travels(
                format,
                place,
            ) && known_variant(
                old(index)@,
                plain,
                optimize,
                organized,
            ) is None && match prepare::ready(path@, data@, organized) {
                Err(wanted) => words@ == wanted,
                Ok(_) => optimize && prepare::unoptimized(data@, words@),
            },
        },
{
    let mut entry = match describe(data.as_slice(), place, format, source, locked, verdict) {
        Ok(entry) => entry,
        Err(words) => return Err(words),
    };
    let ghost plain = entry@;
    let ghost start = index@;
    let ghost bytes = data@;
    if format.rewritten() && place != Place::CrossPoint {
        let name = cache::variant_key(entry.sha.as_str(), optimize, organized);
        let variant = match index.variant(name.as_str(), now) {
            Some(variant) => variant,
            None => match device_variant(data, path, optimize, organized) {
                Err(words) => return Err(words),
                Ok(variant) => {
                    index.put_variant(name.as_str(), variant.duplicate(), now);
                    variant
                },
            },
        };
        let ghost v = variant@;
        let ghost before = entry.variants.deep_view();
        entry.variants.push((variant.sha, variant.resources));
        proof {
            assert(entry.variants.deep_view() =~= before.push((v.sha, v.resources)));
            assert(entry@ =~= with_variant(plain, v));
            assert(known_variant(start, plain, optimize, organized) is None ==> device_variant_of(
                bytes,
                optimize,
                v,
            ));
        }
    }
    let ghost full = entry@;
    assert(recognized(start, bytes, place, plain, optimize, organized, full));
    if let Some(key) = &key {
        index.put_source(key.as_str(), entry.duplicate(), now);
    }
    assert(index@ =~= indexed(start, place, optimize, organized, full, key.deep_view(), now));
    Ok(book(entry, place, source.to_owned()))
}

/// An entry whose copies never hashed is a warning, not a usable book.
pub open spec fn is_warning(book: BookView) -> bool {
    book.copies.len() > 0 && forall|i: int|
        0 <= i < book.copies.len() ==> (#[trigger] book.copies[i]).sha.len() == 0
}

pub fn never_hashed(book: &Book) -> (r: bool)
    ensures
        r == is_warning(book@),
{
    if book.copies.len() == 0 {
        return false;
    }
    for i in 0..book.copies.len()
        invariant
            forall|j: int| 0 <= j < i ==> (#[trigger] book@.copies[j]).sha.len() == 0,
    {
        assert(book@.copies[i as int] == book.copies@[i as int]@);
        if !book.copies[i].sha.as_str().is_empty() {
            return false;
        }
    }
    true
}

/// Only an EPUB is ever a copy made for a device: every other format travels byte
/// for byte, so no copy of one is the lesser one. Such a book is titled by its
/// file and has no author.
pub proof fn only_an_epub_is_a_device_copy(
    data: Seq<u8>,
    place: Place,
    format: Format,
    source: Seq<char>,
    locked: bool,
    verdict: Option<VerdictView>,
)
    requires
        format != Format::Epub,
    ensures
        source_of(data, place, format, source, locked, verdict) matches Ok(entry)
            ==> !entry.optimized && entry.title == titled(source) && entry.author.len() == 0,
        !unreadable_book(place, format, source, source, source).copies[0].optimized,
{
}

} // verus!
