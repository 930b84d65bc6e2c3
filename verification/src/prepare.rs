//! Device copies: bounded image decoding, stable EPUB resources and safe names.
use crate::archive;
use crate::archive::{bytes_of, members_of, opened, Member, MemberView, Packed, PackedView};
use crate::epub;
use crate::format::{format_problem, Format};
use crate::inventory::MARKER;
use crate::kepub::{copied, file, file_member, first_member, folder, folder_member, mimetype_member};
use crate::names::{
    bad, bytes_grow, bytes_of_end, edge, mask, masked, peel, peeled, peeled_end_is_start,
    peeled_start, peeled_start_is_end, shrink, shrunk, shrunk_is_start,
};
use crate::paths;
use crate::text;
use crate::text::bytes_utf8;
use crate::values::result_view;
use vstd::prelude::*;

pub mod laws;

verus! {

broadcast use vstd::string::group_string_axioms;

/// Whether a name is one that the reader or the card keeps for itself.
pub open spec fn kept_back(name: Seq<char>) -> bool {
    text::lowercase(name) == "system volume information"@ || text::lowercase(name) == "xtcache"@
}

/// What is left of a text in the name of a file or a folder: 120 bytes at most,
/// nothing that a FAT card refuses, and no dots or blanks around it.
pub open spec fn part(value: Seq<char>) -> Seq<char> {
    peeled(shrunk(masked(value), 120), true)
}

/// A text made into a single, bounded FAT-compatible component, or something
/// else where nothing of it can be kept.
pub open spec fn component_of(value: Seq<char>, fallback: Seq<char>) -> Seq<char> {
    if part(value).len() == 0 || kept_back(part(value)) {
        fallback
    } else {
        part(value)
    }
}

/// Keep Unicode while making a single, bounded FAT-compatible component.
pub fn component(value: &str, fallback: &str) -> (r: String)
    ensures
        r@ == component_of(value@, fallback@),
{
    let c = mask(value);
    proof {
        assert(c@.take(c@.len() as int) =~= c@);
    }
    let kept = shrink(c.as_slice(), c.len(), 120);
    let name = peel(c.as_slice(), kept, true);
    if name.as_str().is_empty() {
        return fallback.to_owned();
    }
    let lower = text::to_lowercase(name.as_str());
    if text::same(lower.as_str(), "system volume information") || text::same(
        lower.as_str(),
        "xtcache",
    ) {
        fallback.to_owned()
    } else {
        name
    }
}

/// Whether a name can stand as it is: it is not empty, it fits, it holds
/// nothing that a FAT card refuses, and it starts and ends with something to be
/// seen.
pub open spec fn stands(name: Seq<char>) -> bool {
    &&& name.len() > 0
    &&& bytes_utf8(name) <= 120
    &&& forall|i: int| 0 <= i < name.len() ==> !bad(#[trigger] name[i])
    &&& !edge(name[0], true)
    &&& !edge(name.last(), true)
    &&& !kept_back(name)
}

/// What is made of a text stands as it is, unless it is the name to fall back
/// to.
pub proof fn components_stand(value: Seq<char>, fallback: Seq<char>)
    ensures
        component_of(value, fallback) == fallback || stands(component_of(value, fallback)),
{
    let m = masked(value);
    let t = shrunk(m, 120);
    let u = peeled_start(t, true);
    let p = part(value);
    shrunk_is_start(m, 120);
    peeled_start_is_end(t, true);
    peeled_end_is_start(u, true);
    if p.len() > 0 {
        bytes_of_end(t, t.len() - u.len());
        bytes_grow(u, p.len() as int);
        assert forall|i: int| 0 <= i < p.len() implies !bad(#[trigger] p[i]) by {
            assert(p[i] == u[i]);
            assert(u[i] == t[i + t.len() - u.len()]);
            assert(t[i + t.len() - u.len()] == m[i + t.len() - u.len()]);
        }
        assert(p[0] == u[0]);
    }
}

/// A name that stands as it is, is kept as it is.
pub proof fn standing_names_are_kept(name: Seq<char>, fallback: Seq<char>)
    requires
        stands(name),
    ensures
        component_of(name, fallback) == name,
{
    assert(masked(name) =~= name);
}

/// Making a component twice is making it once, when the name to fall back to
/// stands as it is.
pub proof fn components_are_settled(value: Seq<char>, fallback: Seq<char>)
    requires
        stands(fallback),
    ensures
        component_of(component_of(value, fallback), fallback) == component_of(value, fallback),
{
    components_stand(value, fallback);
    standing_names_are_kept(component_of(value, fallback), fallback);
}

proof fn fallbacks_stand()
    ensures
        stands("Untitled"@),
        stands("Unknown author"@),
{
    reveal(text::lowercase);
    reveal_strlit("Untitled");
    reveal_strlit("Unknown author");
    reveal_strlit("system volume information");
    reveal_strlit("xtcache");
    assert(text::ascii_lowered("Untitled"@).len() == 8);
    assert(text::ascii_lowered("Unknown author"@).len() == 14);
    text::bytes_are_encoded("Untitled"@);
    text::bytes_are_encoded("Unknown author"@);
    assert(vstd::utf8::is_ascii_chars("Untitled"@));
    assert(vstd::utf8::is_ascii_chars("Unknown author"@));
    vstd::utf8::is_ascii_chars_encode_utf8("Untitled"@);
    vstd::utf8::is_ascii_chars_encode_utf8("Unknown author"@);
}

/// A name that stands as it is, is one that the reader takes.
pub proof fn standing_names_are_taken(name: Seq<char>)
    requires
        stands(name),
    ensures
        crate::crosspoint::takes(name),
{
    text::bytes_are_encoded(name);
    assert forall|i: int| 0 <= i < name.len() implies !text::control(#[trigger] name[i])
        && !crate::crosspoint::reserved(name[i]) by {
        assert(!bad(name[i]));
    }
}

/// Titles and authors become components that fit, that making them anew leaves
/// alone, and that the reader takes.
pub proof fn titles_and_authors_become_components(value: Seq<char>)
    ensures
        ({
            let title = component_of(value, "Untitled"@);
            let author = component_of(value, "Unknown author"@);
            &&& stands(title)
            &&& stands(author)
            &&& component_of(title, "Untitled"@) == title
            &&& component_of(author, "Unknown author"@) == author
            &&& crate::crosspoint::takes(title)
            &&& crate::crosspoint::takes(author)
        }),
{
    fallbacks_stand();
    components_stand(value, "Untitled"@);
    components_stand(value, "Unknown author"@);
    components_are_settled(value, "Untitled"@);
    components_are_settled(value, "Unknown author"@);
    standing_names_are_taken(component_of(value, "Untitled"@));
    standing_names_are_taken(component_of(value, "Unknown author"@));
}

/// The screen a device copy is made for.
pub const WIDTH: u32 = 480;

pub const HEIGHT: u32 = 800;

/// How well a device copy of a photograph is kept.
pub const QUALITY: u8 = 85;

/// The most a picture may measure either way, and take while it is read.
pub const MAX_SIDE: u32 = 16384;

pub const MAX_ALLOC: u64 = 268435456;

/// What a device copy says of how it was made.
pub const PROFILE: &'static str = "xteink-x4-images-v1:480x800:gray:jpeg85";

/// A decoded picture, `image::DynamicImage`.
#[verifier::external_type_specification]
#[verifier::external_body]
pub struct ExPicture(image::DynamicImage);

/// The two kinds of picture that are made anew.
#[derive(Clone, Copy, Debug, PartialEq, Eq, Structural)]
pub enum Picture {
    Jpeg,
    Png,
}

/// Whether bytes start with others.
pub open spec fn opens_with(bytes: Seq<u8>, start: Seq<u8>) -> bool {
    bytes.len() >= start.len() && bytes.take(start.len() as int) == start
}

/// What bytes look like, by how they start.
pub open spec fn looks_like(bytes: Seq<u8>) -> Option<Picture> {
    if opens_with(bytes, seq![137u8, 80u8, 78u8, 71u8, 13u8, 10u8, 26u8, 10u8]) {
        Some(Picture::Png)
    } else if opens_with(bytes, seq![255u8, 216u8, 255u8]) {
        Some(Picture::Jpeg)
    } else {
        None
    }
}

/// `image::guess_format`, which goes by the first bytes alone: the eight bytes of
/// a PNG, or the three of a JPEG. Its other formats are left out.
#[verifier::external_body]
pub(crate) fn guess(bytes: &[u8]) -> (r: Option<Picture>)
    ensures
        r == looks_like(bytes@),
{
    match image::guess_format(bytes) {
        Ok(image::ImageFormat::Png) => Some(Picture::Png),
        Ok(image::ImageFormat::Jpeg) => Some(Picture::Jpeg),
        _ => None,
    }
}

/// How many pixels wide and high a decoded picture is.
pub uninterp spec fn extent(picture: image::DynamicImage) -> (u32, u32);

/// How many pixels wide and high the picture is that bytes of a kind hold, as
/// their header gives it.
pub uninterp spec fn picture_size(bytes: Seq<u8>, kind: Picture) -> (u32, u32);

/// Whether a picture is what a decoder makes of bytes of a kind within limits: no
/// side longer than one, no more memory than the other. Which picture that is
/// depends on how the machine's decoder rounds.
pub uninterp spec fn decodes_to(
    bytes: Seq<u8>,
    kind: Picture,
    side: u32,
    alloc: u64,
    picture: image::DynamicImage,
) -> bool;

/// Why a decoder refuses bytes of a kind within limits, if it does.
pub uninterp spec fn refusal(bytes: Seq<u8>, kind: Picture, side: u32, alloc: u64) -> Option<
    Seq<char>,
>;

/// `image::ImageReader::decode` within limits. Which bytes are refused, and with
/// which words, rests on the arguments and is named. A picture that is decoded has
/// the size that its header gives, which keeps to the limits. Nothing more is
/// stated of its pixels.
#[verifier::external_body]
pub(crate) fn decode_picture(bytes: &[u8], kind: Picture, side: u32, alloc: u64) -> (r: Result<
    image::DynamicImage,
    String,
>)
    ensures
        match r {
            Ok(picture) => {
                &&& refusal(bytes@, kind, side, alloc) is None
                &&& decodes_to(bytes@, kind, side, alloc, picture)
                &&& extent(picture) == picture_size(bytes@, kind)
                &&& extent(picture).0 <= side
                &&& extent(picture).1 <= side
            },
            Err(words) => refusal(bytes@, kind, side, alloc) == Some(words@),
        },
{
    let format = match kind {
        Picture::Jpeg => image::ImageFormat::Jpeg,
        Picture::Png => image::ImageFormat::Png,
    };
    let mut reader = image::ImageReader::with_format(std::io::Cursor::new(bytes), format);
    let mut limits = image::Limits::default();
    limits.max_image_width = Some(side);
    limits.max_image_height = Some(side);
    limits.max_alloc = Some(alloc);
    reader.limits(limits);
    reader.decode().map_err(|e| e.to_string())
}

/// `image::DynamicImage::width` and `height`.
#[verifier::external_body]
pub(crate) fn measure(picture: &image::DynamicImage) -> (r: (u32, u32))
    ensures
        r == extent(*picture),
{
    (picture.width(), picture.height())
}

/// Whether a size is another one brought to bounds: neither side leaves them, one
/// of them is filled, and the sides keep their ratio to within a pixel.
pub open spec fn scaled(from: (u32, u32), bounds: (u32, u32), to: (u32, u32)) -> bool {
    &&& 1 <= to.0 <= bounds.0
    &&& 1 <= to.1 <= bounds.1
    &&& from.0 > 0 && from.1 > 0 ==> if bounds.0 * from.1 <= bounds.1 * from.0 {
        to.0 == bounds.0 && near(to.1 * from.0, from.1 * bounds.0, from.0 as int)
    } else {
        to.1 == bounds.1 && near(to.0 * from.1, from.0 * bounds.1, from.1 as int)
    }
}

/// Whether two numbers are no further apart than a third.
pub open spec fn near(a: int, b: int, most: int) -> bool {
    a <= b + most && b <= a + most
}

/// Whether a picture is what resizing another one to bounds gives. Which picture
/// that is depends on how the machine rounds.
pub uninterp spec fn resizes_to(
    from: image::DynamicImage,
    width: u32,
    height: u32,
    to: image::DynamicImage,
) -> bool;

/// `image::DynamicImage::resize` with a Lanczos filter: the largest size within
/// the bounds that keeps the ratio of the sides. Nothing more is stated of the
/// pixels, which are computed in floating point.
#[verifier::external_body]
pub(crate) fn resize(picture: image::DynamicImage, width: u32, height: u32) -> (r: image::DynamicImage)
    requires
        0 < width <= MAX_SIDE,
        0 < height <= MAX_SIDE,
        extent(picture).0 <= MAX_SIDE,
        extent(picture).1 <= MAX_SIDE,
    ensures
        resizes_to(picture, width, height, r),
        scaled(extent(picture), (width, height), extent(r)),
{
    picture.resize(width, height, image::imageops::FilterType::Lanczos3)
}

/// A picture in shades of grey.
pub uninterp spec fn shaded(picture: image::DynamicImage) -> image::DynamicImage;

/// `image::DynamicImage::grayscale`, which computes in whole numbers and keeps the
/// size; its result is named.
#[verifier::external_body]
pub(crate) fn grayscale(picture: image::DynamicImage) -> (r: image::DynamicImage)
    ensures
        r == shaded(picture),
        extent(r) == extent(picture),
{
    picture.grayscale()
}

/// A picture written out as a JPEG of some quality, or why it cannot be.
pub uninterp spec fn jpeg_of(picture: image::DynamicImage, quality: u8) -> Result<
    Seq<u8>,
    Seq<char>,
>;

/// `image::codecs::jpeg::JpegEncoder::encode_image` into memory; its result is
/// named. The header opens a JPEG and gives the size of the picture.
#[verifier::external_body]
pub(crate) fn encode_jpeg(picture: &image::DynamicImage, quality: u8) -> (r: Result<Vec<u8>, String>)
    requires
        1 <= quality <= 100,
    ensures
        match r {
            Ok(bytes) => {
                &&& jpeg_of(*picture, quality) == Ok::<Seq<u8>, Seq<char>>(bytes@)
                &&& looks_like(bytes@) == Some(Picture::Jpeg)
                &&& picture_size(bytes@, Picture::Jpeg) == extent(*picture)
            },
            Err(words) => jpeg_of(*picture, quality) == Err::<Seq<u8>, Seq<char>>(words@),
        },
{
    let mut out = Vec::new();
    let mut encoder = image::codecs::jpeg::JpegEncoder::new_with_quality(&mut out, quality);
    encoder.encode_image(picture).map_err(|e| e.to_string())?;
    Ok(out)
}

/// A picture written out as a PNG, or why it cannot be.
pub uninterp spec fn png_of(picture: image::DynamicImage) -> Result<Seq<u8>, Seq<char>>;

/// `image::DynamicImage::write_to` into memory, as a PNG; its result is named. The
/// header opens a PNG and gives the size of the picture.
#[verifier::external_body]
pub(crate) fn encode_png(picture: &image::DynamicImage) -> (r: Result<Vec<u8>, String>)
    ensures
        match r {
            Ok(bytes) => {
                &&& png_of(*picture) == Ok::<Seq<u8>, Seq<char>>(bytes@)
                &&& looks_like(bytes@) == Some(Picture::Png)
                &&& picture_size(bytes@, Picture::Png) == extent(*picture)
            },
            Err(words) => png_of(*picture) == Err::<Seq<u8>, Seq<char>>(words@),
        },
{
    let mut out = std::io::Cursor::new(Vec::new());
    picture.write_to(&mut out, image::ImageFormat::Png).map_err(|e| e.to_string())?;
    Ok(out.into_inner())
}

/// A picture of a kind, written out in shades of grey.
pub open spec fn shades_of(picture: image::DynamicImage, kind: Picture) -> Result<
    Seq<u8>,
    Seq<char>,
> {
    match kind {
        Picture::Jpeg => jpeg_of(shaded(picture), QUALITY),
        Picture::Png => png_of(shaded(picture)),
    }
}

/// Whether a picture is what some bytes show on the screen: what is decoded of
/// them, resized where it is larger.
pub open spec fn shown_as(bytes: Seq<u8>, kind: Picture, picture: image::DynamicImage) -> bool {
    exists|read: image::DynamicImage| #[trigger]
        decodes_to(bytes, kind, MAX_SIDE, MAX_ALLOC, read) && if extent(read).0 > WIDTH || extent(
            read,
        ).1 > HEIGHT {
            resizes_to(read, WIDTH, HEIGHT, picture)
        } else {
            picture == read
        }
}

/// What is said of a picture that the decoder refuses.
pub open spec fn complaint(name: Seq<char>, reason: Seq<char>) -> Seq<char> {
    "Cannot optimize image "@ + name + "; use --no-optimize to preserve its original bytes: "@
        + reason
}

/// Whether a picture is refused with these words: by the decoder, or by the
/// encoder of its kind.
pub open spec fn unshown(name: Seq<char>, bytes: Seq<u8>, kind: Picture, words: Seq<char>) -> bool {
    ||| refusal(bytes, kind, MAX_SIDE, MAX_ALLOC) matches Some(reason) && words == complaint(
        name,
        reason,
    )
    ||| exists|picture: image::DynamicImage| #[trigger]
        shown_as(bytes, kind, picture) && shades_of(picture, kind) == Err::<Seq<u8>, Seq<char>>(
            words,
        )
}

/// Whether a picture is larger than the screen.
pub fn exceeds_screen(width: u32, height: u32) -> (r: bool)
    ensures
        r == (width > WIDTH || height > HEIGHT),
{
    width > WIDTH || height > HEIGHT
}

/// Whether four bytes that tell an animation stand somewhere.
pub open spec fn animated(bytes: Seq<u8>) -> bool {
    exists|i: int|
        0 <= i && i + 4 <= bytes.len() && #[trigger] bytes[i] == 97 && bytes[i + 1] == 99 && bytes[i
            + 2] == 84 && bytes[i + 3] == 76
}

fn is_animated(bytes: &[u8]) -> (r: bool)
    ensures
        r == animated(bytes@),
{
    let length: usize = bytes.len();
    if length < 4 {
        return false;
    }
    for i in 0..length - 3
        invariant
            length == bytes@.len(),
            length >= 4,
            forall|j: int|
                0 <= j < i ==> !(#[trigger] bytes@[j] == 97 && bytes@[j + 1] == 99 && bytes@[j + 2]
                    == 84 && bytes@[j + 3] == 76),
    {
        if bytes[i] == 97 && bytes[i + 1] == 99 && bytes[i + 2] == 84 && bytes[i + 3] == 76 {
            return true;
        }
    }
    false
}

/// Which kind of picture is made anew of some bytes, if any. An animation is
/// left intact rather than losing its frames.
pub open spec fn redrawable(bytes: Seq<u8>) -> Option<Picture> {
    match looks_like(bytes) {
        Some(Picture::Png) if animated(bytes) => None,
        other => other,
    }
}

/// Which kind of picture is made anew of some bytes, if any.
pub fn picture_of(bytes: &[u8]) -> (r: Option<Picture>)
    ensures
        r == redrawable(bytes@),
{
    match guess(bytes) {
        Some(Picture::Png) => if is_animated(bytes) {
            None
        } else {
            Some(Picture::Png)
        },
        other => other,
    }
}

/// Whether a member is passed over when a device copy is made: it is written
/// anew.
pub open spec fn rewritten(name: Seq<char>) -> bool {
    name == "mimetype"@ || name == MARKER@
}

/// Why a member cannot be read.
pub open spec fn unread(data: Seq<u8>, members: Seq<MemberView>, i: int) -> Option<Seq<char>> {
    if members[i].problem is Some {
        members[i].problem
    } else if rewritten(members[i].name) {
        None
    } else {
        match bytes_of(data, i as usize, u64::MAX) {
            Ok(_) => None,
            Err(words) => Some(words),
        }
    }
}

/// Whether a member is a picture that is made anew.
pub open spec fn pictured(data: Seq<u8>, members: Seq<MemberView>, i: int) -> bool {
    &&& !rewritten(members[i].name)
    &&& !members[i].folder()
    &&& bytes_of(data, i as usize, u64::MAX) is Ok
    &&& redrawable(bytes_of(data, i as usize, u64::MAX)->Ok_0) is Some
}

/// Whether a member stops a device copy from being made, for the reason given: it
/// cannot be read, or it is a picture that is refused.
pub open spec fn stops(data: Seq<u8>, members: Seq<MemberView>, i: int, words: Seq<char>) -> bool {
    ||| unread(data, members, i) == Some(words)
    ||| pictured(data, members, i) && {
        let bytes = bytes_of(data, i as usize, u64::MAX)->Ok_0;
        unshown(members[i].name, bytes, redrawable(bytes)->0, words)
    }
}

/// Whether some member stops a device copy from being made.
pub open spec fn stopped(data: Seq<u8>, members: Seq<MemberView>, words: Seq<char>) -> bool {
    exists|i: int| 0 <= i < members.len() && #[trigger] stops(data, members, i, words)
}

/// The pictures that were made anew, each where it stands among the members.
pub open spec fn drawn(pictures: Seq<Option<Vec<u8>>>) -> Seq<Option<Seq<u8>>> {
    Seq::new(
        pictures.len(),
        |i: int|
            match pictures[i] {
                Some(bytes) => Some(bytes@),
                None => None,
            },
    )
}

/// Whether a picture was made anew for the screen: it is what the old one shows
/// there in shades of grey, of the same kind; one that is too large is brought to
/// the screen, and any other keeps its size.
pub open spec fn remade(before: Seq<u8>, after: Seq<u8>) -> bool {
    match redrawable(before) {
        None => false,
        Some(kind) => {
            let from = picture_size(before, kind);
            let to = picture_size(after, kind);
            &&& looks_like(after) == Some(kind)
            &&& exists|picture: image::DynamicImage| #[trigger]
                shown_as(before, kind, picture) && shades_of(picture, kind) == Ok::<
                    Seq<u8>,
                    Seq<char>,
                >(after)
            &&& if from.0 > WIDTH || from.1 > HEIGHT {
                scaled(from, (WIDTH, HEIGHT), to)
            } else {
                to == from
            }
        },
    }
}

/// No picture of a device copy is larger than the screen, and each is of the
/// kind that it was.
pub proof fn pictures_fit_the_screen(
    data: Seq<u8>,
    members: Seq<MemberView>,
    pictures: Seq<Option<Seq<u8>>>,
    i: int,
)
    requires
        all_drawn(data, members, pictures),
        0 <= i < members.len(),
        pictures[i] is Some,
    ensures
        ({
            let before = bytes_of(data, i as usize, u64::MAX)->Ok_0;
            let kind = looks_like(pictures[i]->0);
            &&& kind is Some
            &&& kind == looks_like(before)
            &&& picture_size(pictures[i]->0, kind->0).0 <= WIDTH
            &&& picture_size(pictures[i]->0, kind->0).1 <= HEIGHT
        }),
{
}

/// Whether exactly the pictures among the members were made anew.
pub open spec fn all_drawn(
    data: Seq<u8>,
    members: Seq<MemberView>,
    pictures: Seq<Option<Seq<u8>>>,
) -> bool {
    &&& pictures.len() == members.len()
    &&& forall|i: int|
        0 <= i < members.len() ==> (#[trigger] pictures[i] is Some) == pictured(data, members, i)
    &&& forall|i: int|
        0 <= i < members.len() && #[trigger] pictures[i] is Some ==> remade(
            bytes_of(data, i as usize, u64::MAX)->Ok_0,
            pictures[i]->0,
        )
}

/// What the members from `from` on become, with the pictures made anew.
pub open spec fn rebuilt(
    data: Seq<u8>,
    members: Seq<MemberView>,
    pictures: Seq<Option<Seq<u8>>>,
    from: int,
) -> Result<Seq<PackedView>, Seq<char>>
    decreases members.len() - from,
{
    if from < 0 || from >= members.len() {
        Ok(Seq::empty())
    } else {
        match unread(data, members, from) {
            Some(words) => Err(words),
            None => {
                let rest = rebuilt(data, members, pictures, from + 1);
                if rewritten(members[from].name) {
                    rest
                } else {
                    match rest {
                        Err(words) => Err(words),
                        Ok(rest) => Ok(
                            seq![
                                if members[from].folder() {
                                    folder(members[from].name)
                                } else {
                                    file(
                                        members[from].name,
                                        match pictures[from] {
                                            Some(bytes) => bytes,
                                            None => bytes_of(data, from as usize, u64::MAX)->Ok_0,
                                        },
                                    )
                                },
                            ] + rest,
                        ),
                    }
                }
            },
        }
    }
}

/// The member that says how a device copy was made.
pub open spec fn marker() -> PackedView {
    PackedView {
        name: MARKER@,
        stored: true,
        directory: false,
        bytes: vstd::utf8::encode_utf8(PROFILE@),
    }
}

/// How many pictures were made anew.
pub open spec fn drawn_count(pictures: Seq<Option<Seq<u8>>>) -> nat
    decreases pictures.len(),
{
    if pictures.len() == 0 {
        0
    } else {
        drawn_count(pictures.drop_last()) + if pictures.last() is Some {
            1nat
        } else {
            0nat
        }
    }
}

fn count_drawn(pictures: &Vec<Option<Vec<u8>>>) -> (r: usize)
    ensures
        r == drawn_count(drawn(pictures@)),
{
    let ghost all = drawn(pictures@);
    let mut count: usize = 0;
    proof {
        assert(all.take(0) =~= Seq::<Option<Seq<u8>>>::empty());
    }
    for i in 0..pictures.len()
        invariant
            all == drawn(pictures@),
            count <= i,
            count == drawn_count(all.take(i as int)),
    {
        proof {
            assert(all.take(i as int + 1).drop_last() =~= all.take(i as int));
        }
        if pictures[i].is_some() {
            count += 1;
        }
    }
    proof {
        assert(all.take(all.len() as int) =~= all);
    }
    count
}

fn rebuild(data: &[u8], members: &Vec<Member>, pictures: &Vec<Option<Vec<u8>>>) -> (r: Result<
    Vec<Packed>,
    String,
>)
    requires
        pictures@.len() == members@.len(),
    ensures
        match (r, rebuilt(data@, members.deep_view(), drawn(pictures@), 0)) {
            (Ok(packed), Ok(wanted)) => packed.deep_view() == seq![first_member()] + wanted,
            (Err(words), Err(wanted)) => words@ == wanted,
            _ => false,
        },
{
    let ghost all = members.deep_view();
    let ghost shown = drawn(pictures@);
    let ghost goal = rebuilt(data@, all, shown, 0);
    let mut out: Vec<Packed> = Vec::new();
    out.push(mimetype_member());
    let ghost mut done: Seq<PackedView> = Seq::empty();
    proof {
        assert(out.deep_view() =~= seq![first_member()] + done);
        if let Ok(rest) = goal {
            assert(done + rest =~= rest);
        }
    }
    let mut i: usize = 0;
    while i < members.len()
        invariant
            i <= members@.len(),
            pictures@.len() == members@.len(),
            all == members.deep_view(),
            shown == drawn(pictures@),
            goal == rebuilt(data@, all, shown, 0),
            goal == match rebuilt(data@, all, shown, i as int) {
                Ok(rest) => Ok(done + rest),
                Err(words) => Err(words),
            },
            out.deep_view() == seq![first_member()] + done,
        decreases members@.len() - i,
    {
        let member = &members[i];
        assert(all[i as int] == member@);
        if let Some(words) = &member.problem {
            return Err(words.as_str().to_owned());
        }
        if text::same(member.name.as_str(), "mimetype") || text::same(member.name.as_str(), MARKER) {
            i += 1;
        } else {
            let bytes = match archive::contents(data, i, u64::MAX) {
                Ok(bytes) => bytes,
                Err(words) => return Err(words),
            };
            let made = if member.is_folder() {
                folder_member(member.name.as_str())
            } else {
                match &pictures[i] {
                    Some(picture) => file_member(
                        member.name.as_str(),
                        copied(picture.as_slice()),
                    ),
                    None => file_member(member.name.as_str(), bytes),
                }
            };
            let ghost before = done;
            proof {
                done = done.push(made@);
                if let Ok(rest) = rebuilt(data@, all, shown, i as int + 1) {
                    assert(before + (seq![made@] + rest) =~= done + rest);
                }
            }
            let ghost packed = out.deep_view();
            out.push(made);
            proof {
                assert(out.deep_view() =~= packed.push(made@));
                assert(out.deep_view() =~= seq![first_member()] + done);
            }
            i += 1;
        }
    }
    proof {
        assert(done + Seq::<PackedView>::empty() =~= done);
    }
    Ok(out)
}

/// Whether a book is a device copy of this kind already, or why that cannot be
/// told.
pub open spec fn is_device_copy(data: Seq<u8>, members: Seq<MemberView>) -> Result<bool, Seq<char>> {
    match opened(members, MARKER@) {
        Err(_) => Ok(false),
        Ok(i) => match bytes_of(data, i as usize, 256) {
            Ok(bytes) => Ok(bytes == vstd::utf8::encode_utf8(PROFILE@)),
            Err(words) => Err(words),
        },
    }
}

fn check_device_copy(data: &[u8], members: &Vec<Member>) -> (r: Result<bool, String>)
    ensures
        result_view(r) == is_device_copy(data@, members.deep_view()),
{
    match archive::open_member(members, MARKER) {
        Err(_) => Ok(false),
        Ok(i) => match archive::contents(data, i, 256) {
            Ok(bytes) => Ok(epub::same_bytes(bytes.as_slice(), PROFILE.as_bytes())),
            Err(words) => Err(words),
        },
    }
}

/// Whether `after` is the device copy of a book: the book itself where no
/// picture was made anew, and otherwise an archive with the same members in the
/// same order, the pictures in place of the old ones, and a note of how it was
/// made at the end.
pub open spec fn device_copy(
    data: Seq<u8>,
    members: Seq<MemberView>,
    pictures: Seq<Option<Seq<u8>>>,
    after: Seq<u8>,
) -> bool {
    match rebuilt(data, members, pictures, 0) {
        Err(_) => false,
        Ok(packed) => if drawn_count(pictures) == 0 {
            after == data
        } else {
            &&& archive::holds(
                after,
                archive::packed_all((seq![first_member()] + packed).push(marker())),
            )
            &&& epub::validated(after) is None
            &&& after.len() <= epub::MAX_BOOK_BYTES
        },
    }
}

/// What is wrong with a device copy.
pub open spec fn flaw(after: Seq<u8>) -> Option<Seq<char>> {
    match epub::validated(after) {
        Some(words) => Some("Optimized EPUB failed validation: "@ + words),
        None => if after.len() > epub::MAX_BOOK_BYTES {
            Some("Optimized EPUB exceeds 128 MiB"@)
        } else {
            None
        },
    }
}

/// Whether a device copy of these members ends with these words: they do not fit
/// into one archive, or there is something wrong with what they make.
pub open spec fn unfinished(packed: Seq<PackedView>, words: Seq<char>) -> bool {
    let members = archive::packed_all((seq![first_member()] + packed).push(marker()));
    ||| !archive::packable(members)
    ||| exists|after: Seq<u8>|
        #[trigger] archive::holds(after, members) && flaw(after) == Some(words)
}

/// Put the pictures that were made anew into a book. Resource names and media
/// types are kept so all references remain intact; nothing is cropped or
/// removed.
pub fn assemble(data: &[u8], members: &Vec<Member>, pictures: &Vec<Option<Vec<u8>>>) -> (r: Result<
    (Vec<u8>, usize),
    String,
>)
    requires
        pictures@.len() == members@.len(),
    ensures
        match r {
            Ok((after, images)) => device_copy(
                data@,
                members.deep_view(),
                drawn(pictures@),
                after@,
            ) && images == drawn_count(drawn(pictures@)),
            Err(words) => match rebuilt(data@, members.deep_view(), drawn(pictures@), 0) {
                Err(wanted) => words@ == wanted,
                Ok(packed) => drawn_count(drawn(pictures@)) > 0 && unfinished(packed, words@),
            },
        },
{
    let mut packed = match rebuild(data, members, pictures) {
        Ok(packed) => packed,
        Err(words) => return Err(words),
    };
    let images = count_drawn(pictures);
    if images == 0 {
        return Ok((copied(data), 0));
    }
    let ghost before = packed.deep_view();
    packed.push(
        Packed {
            name: MARKER.to_owned(),
            stored: true,
            directory: false,
            bytes: copied(PROFILE.as_bytes()),
        },
    );
    proof {
        assert(packed.deep_view() =~= before.push(marker()));
    }
    let after = match archive::pack(&packed) {
        Ok(after) => after,
        Err(words) => return Err(words),
    };
    if let Err(words) = epub::validate(after.as_slice()) {
        return Err(text::concat("Optimized EPUB failed validation: ", words.as_str()));
    }
    if after.len() as u64 > epub::MAX_BOOK_BYTES {
        return Err("Optimized EPUB exceeds 128 MiB".to_owned());
    }
    Ok((after, images))
}

fn redraw(name: &str, bytes: &[u8], kind: Picture) -> (r: Result<Vec<u8>, String>)
    requires
        redrawable(bytes@) == Some(kind),
    ensures
        match r {
            Ok(after) => remade(bytes@, after@),
            Err(words) => unshown(name@, bytes@, kind, words@),
        },
{
    let picture = match decode_picture(bytes, kind, MAX_SIDE, MAX_ALLOC) {
        Ok(picture) => picture,
        Err(words) => {
            let said = text::concat4(
                "Cannot optimize image ",
                name,
                "; use --no-optimize to preserve its original bytes: ",
                words.as_str(),
            );
            proof {
                assert(said@ == complaint(name@, words@));
            }
            return Err(said);
        },
    };
    let ghost read = picture;
    let size = measure(&picture);
    let picture = if exceeds_screen(size.0, size.1) {
        resize(picture, WIDTH, HEIGHT)
    } else {
        picture
    };
    proof {
        assert(decodes_to(bytes@, kind, MAX_SIDE, MAX_ALLOC, read));
        assert(shown_as(bytes@, kind, picture));
    }
    let gray = grayscale(picture);
    match kind {
        Picture::Jpeg => encode_jpeg(&gray, QUALITY),
        Picture::Png => encode_png(&gray),
    }
}

/// The pictures of a book made anew for the screen. What they look like is left
/// to the decoder and the encoder; which members they are is not.
fn redraw_all(data: &[u8], members: &Vec<Member>) -> (r: Result<Vec<Option<Vec<u8>>>, String>)
    ensures
        match r {
            Ok(pictures) => all_drawn(data@, members.deep_view(), drawn(pictures@)) && rebuilt(
                data@,
                members.deep_view(),
                drawn(pictures@),
                0,
            ) is Ok,
            Err(words) => stopped(data@, members.deep_view(), words@),
        },
{
    let ghost all = members.deep_view();
    let mut out: Vec<Option<Vec<u8>>> = Vec::new();
    let mut i: usize = 0;
    while i < members.len()
        invariant
            i <= members@.len(),
            all == members.deep_view(),
            out@.len() == i,
            forall|j: int|
                0 <= j < i ==> (#[trigger] drawn(out@)[j] is Some) == pictured(data@, all, j),
            forall|j: int|
                0 <= j < i && #[trigger] drawn(out@)[j] is Some ==> remade(
                    bytes_of(data@, j as usize, u64::MAX)->Ok_0,
                    drawn(out@)[j]->0,
                ),
            forall|j: int| 0 <= j < i ==> #[trigger] unread(data@, all, j) is None,
        decreases members@.len() - i,
    {
        let member = &members[i];
        let ghost before = drawn(out@);
        assert(all[i as int] == member@);
        if let Some(words) = &member.problem {
            let said = words.as_str().to_owned();
            proof {
                assert(stops(data@, all, i as int, said@));
            }
            return Err(said);
        }
        let mut picture: Option<Vec<u8>> = None;
        if !(text::same(member.name.as_str(), "mimetype") || text::same(
            member.name.as_str(),
            MARKER,
        )) {
            let bytes = match archive::contents(data, i, u64::MAX) {
                Ok(bytes) => bytes,
                Err(words) => {
                    proof {
                        assert(stops(data@, all, i as int, words@));
                    }
                    return Err(words);
                },
            };
            if !member.is_folder() {
                if let Some(kind) = picture_of(bytes.as_slice()) {
                    match redraw(member.name.as_str(), bytes.as_slice(), kind) {
                        Ok(made) => {
                            picture = Some(made);
                        },
                        Err(words) => {
                            assert(stops(data@, all, i as int, words@));
                            return Err(words);
                        },
                    }
                }
            }
        }
        out.push(picture);
        proof {
            assert forall|j: int| 0 <= j < i + 1 implies (#[trigger] drawn(out@)[j] is Some)
                == pictured(data@, all, j) by {
                if j < i {
                    assert(drawn(out@)[j] == before[j]);
                }
            }
            assert forall|j: int|
                0 <= j < i + 1 && #[trigger] drawn(out@)[j] is Some implies remade(
                bytes_of(data@, j as usize, u64::MAX)->Ok_0,
                drawn(out@)[j]->0,
            ) by {
                if j < i {
                    assert(drawn(out@)[j] == before[j]);
                }
            }
        }
        i += 1;
    }
    proof {
        rebuilds(data@, all, drawn(out@), 0);
    }
    Ok(out)
}

proof fn rebuilds(
    data: Seq<u8>,
    members: Seq<MemberView>,
    pictures: Seq<Option<Seq<u8>>>,
    from: int,
)
    requires
        0 <= from <= members.len(),
        forall|j: int| 0 <= j < members.len() ==> #[trigger] unread(data, members, j) is None,
    ensures
        rebuilt(data, members, pictures, from) is Ok,
    decreases members.len() - from,
{
    if from < members.len() {
        assert(unread(data, members, from) is None);
        rebuilds(data, members, pictures, from + 1);
    }
}

/// Whether a device copy is refused with these words because the pictures that
/// were made anew do not make a book with the rest.
pub open spec fn unwritten(data: Seq<u8>, members: Seq<MemberView>, words: Seq<char>) -> bool {
    exists|pictures: Seq<Option<Seq<u8>>>| #[trigger]
        all_drawn(data, members, pictures) && drawn_count(pictures) > 0 && unfinished(
            rebuilt(data, members, pictures, 0)->Ok_0,
            words,
        )
}

/// Whether a device copy is refused with these words: the book cannot be read,
/// something in it stops the copy from being made, or it cannot be written.
pub open spec fn unoptimized(data: Seq<u8>, words: Seq<char>) -> bool {
    match members_of(data) {
        Err(wanted) => words == wanted,
        Ok(members) => match is_device_copy(data, members) {
            Err(wanted) => words == wanted,
            Ok(already) => !already && (stopped(data, members, words) || unwritten(
                data,
                members,
                words,
            )),
        },
    }
}

/// Match the X4 screen dimensions. Says how many pictures were made anew.
pub fn optimize_images(data: &[u8]) -> (r: Result<(Vec<u8>, usize), String>)
    ensures
        match r {
            Ok((after, images)) => optimized(data@, after@, images as nat),
            Err(words) => unoptimized(data@, words@),
        },
{
    let members = match archive::members(data) {
        Ok(members) => members,
        Err(words) => return Err(words),
    };
    match check_device_copy(data, &members) {
        Err(words) => return Err(words),
        Ok(true) => return Ok((copied(data), 0)),
        Ok(false) => {},
    }
    let pictures = match redraw_all(data, &members) {
        Ok(pictures) => pictures,
        Err(words) => return Err(words),
    };
    let ghost all = members.deep_view();
    proof {
        assert(all_drawn(data@, all, drawn(pictures@)));
    }
    assemble(data, &members, &pictures)
}

/// Whether `after` is what a book becomes on the reader: itself when it is a
/// device copy already, and otherwise a device copy with exactly its pictures
/// made anew.
pub open spec fn optimized(data: Seq<u8>, after: Seq<u8>, images: nat) -> bool {
    &&& members_of(data) is Ok
    &&& match is_device_copy(data, members_of(data)->Ok_0) {
        Err(_) => false,
        Ok(true) => after == data && images == 0,
        Ok(false) => exists|pictures: Seq<Option<Seq<u8>>>|
            all_drawn(data, members_of(data)->Ok_0, pictures) && #[trigger] device_copy(
                data,
                members_of(data)->Ok_0,
                pictures,
                after,
            ) && images == drawn_count(pictures),
    }
}

proof fn rebuilding_leaves_no_marker(
    data: Seq<u8>,
    members: Seq<MemberView>,
    pictures: Seq<Option<Seq<u8>>>,
    from: int,
)
    requires
        0 <= from <= members.len(),
    ensures
        rebuilt(data, members, pictures, from) matches Ok(packed) ==> forall|i: int|
            0 <= i < packed.len() ==> archive::packed_as(#[trigger] packed[i]).name != MARKER@,
    decreases members.len() - from,
{
    reveal_strlit("META-INF/xteink-device-profile.txt");
    if from < members.len() {
        rebuilding_leaves_no_marker(data, members, pictures, from + 1);
        if let Ok(packed) = rebuilt(data, members, pictures, from) {
            assert forall|i: int| 0 <= i < packed.len() implies archive::packed_as(
                #[trigger] packed[i],
            ).name != MARKER@ by {
                let rest = rebuilt(data, members, pictures, from + 1)->Ok_0;
                if rewritten(members[from].name) {
                    assert(packed[i] == rest[i]);
                } else if i > 0 {
                    assert(packed[i] == rest[i - 1]);
                } else {
                    let name = packed[0].name;
                    assert(name == members[from].name);
                    if packed[0].directory {
                        assert(archive::folder_name(name).last() == '/' || archive::folder_name(
                            name,
                        ).last() == '\\');
                        assert(MARKER@.last() == 't');
                    }
                }
            }
        }
    }
}

proof fn found_at(members: Seq<MemberView>, name: Seq<char>, at: int, from: int)
    requires
        0 <= from <= at < members.len(),
        members[at].name == name,
        forall|i: int| from <= i < at ==> (#[trigger] members[i]).name != name,
    ensures
        archive::member_at(members, name, from) == at,
    decreases at - from,
{
    if from < at {
        found_at(members, name, at, from + 1);
    }
}

proof fn none_counted(pictures: Seq<Option<Seq<u8>>>)
    ensures
        drawn_count(pictures) == 0 <==> forall|i: int|
            0 <= i < pictures.len() ==> #[trigger] pictures[i] is None,
    decreases pictures.len(),
{
    if pictures.len() > 0 {
        let rest = pictures.drop_last();
        none_counted(rest);
        if drawn_count(pictures) == 0 {
            assert forall|i: int| 0 <= i < pictures.len() implies #[trigger] pictures[i] is None by {
                if i < rest.len() {
                    assert(rest[i] is None);
                }
            }
        }
        if forall|i: int| 0 <= i < pictures.len() ==> #[trigger] pictures[i] is None {
            assert forall|i: int| 0 <= i < rest.len() implies #[trigger] rest[i] is None by {
                assert(pictures[i] is None);
            }
            assert(pictures[pictures.len() - 1] is None);
        }
    }
}

proof fn rebuilt_was_read(
    data: Seq<u8>,
    members: Seq<MemberView>,
    pictures: Seq<Option<Seq<u8>>>,
    from: int,
)
    requires
        0 <= from <= members.len(),
        rebuilt(data, members, pictures, from) is Ok,
    ensures
        forall|i: int| from <= i < members.len() ==> #[trigger] unread(data, members, i) is None,
    decreases members.len() - from,
{
    if from < members.len() {
        assert(unread(data, members, from) is None);
        rebuilt_was_read(data, members, pictures, from + 1);
    }
}

/// A book without pictures is left as it is, however often it is looked at.
proof fn plain_books_are_settled(data: Seq<u8>, pictures: Seq<Option<Seq<u8>>>)
    requires
        members_of(data) is Ok,
        is_device_copy(data, members_of(data)->Ok_0) == Ok::<bool, Seq<char>>(false),
        all_drawn(data, members_of(data)->Ok_0, pictures),
        rebuilt(data, members_of(data)->Ok_0, pictures, 0) is Ok,
        drawn_count(pictures) == 0,
    ensures
        forall|words: Seq<char>| !#[trigger] unoptimized(data, words),
        forall|again: Seq<u8>, more: nat| #[trigger]
            optimized(data, again, more) ==> again == data && more == 0,
{
    let members = members_of(data)->Ok_0;
    none_counted(pictures);
    rebuilt_was_read(data, members, pictures, 0);
    assert forall|i: int| 0 <= i < members.len() implies !#[trigger] pictured(
        data,
        members,
        i,
    ) by {
        assert(pictures[i] is None);
    }
    assert forall|other: Seq<Option<Seq<u8>>>| #[trigger] all_drawn(data, members, other) implies
        drawn_count(other) == 0 by {
        assert forall|i: int| 0 <= i < other.len() implies #[trigger] other[i] is None by {
            assert(!pictured(data, members, i));
        }
        none_counted(other);
    }
    assert forall|words: Seq<char>| !#[trigger] unoptimized(data, words) by {
        assert forall|i: int| 0 <= i < members.len() implies !#[trigger] stops(
            data,
            members,
            i,
            words,
        ) by {
            assert(unread(data, members, i) is None);
            assert(!pictured(data, members, i));
        }
        assert(!stopped(data, members, words));
        assert(!unwritten(data, members, words));
    }
}

/// A device copy is never made anew. Whatever came of a book, looking at it again
/// succeeds and gives it back as it is: one whose pictures were made anew is
/// recognized by its mark, and one without pictures was not changed.
pub proof fn device_copies_are_settled(data: Seq<u8>, after: Seq<u8>, images: nat)
    requires
        optimized(data, after, images),
    ensures
        images == 0 ==> after == data,
        images > 0 ==> members_of(after) is Ok && is_device_copy(after, members_of(after)->Ok_0)
            == Ok::<bool, Seq<char>>(true),
        forall|words: Seq<char>| !#[trigger] unoptimized(after, words),
        forall|again: Seq<u8>, more: nat| #[trigger]
            optimized(after, again, more) ==> again == after && more == 0,
{
    let members = members_of(data)->Ok_0;
    if images > 0 {
        let pictures = choose|pictures: Seq<Option<Seq<u8>>>|
            all_drawn(data, members, pictures) && #[trigger] device_copy(
                data,
                members,
                pictures,
                after,
            ) && images == drawn_count(pictures);
        rebuilding_leaves_no_marker(data, members, pictures, 0);
        let rest = rebuilt(data, members, pictures, 0)->Ok_0;
        let packed = (seq![first_member()] + rest).push(marker());
        let made = members_of(after)->Ok_0;
        let last = packed.len() - 1;
        assert(archive::holds(after, archive::packed_all(packed)));
        reveal_strlit("META-INF/xteink-device-profile.txt");
        reveal_strlit("mimetype");
        reveal_strlit("xteink-x4-images-v1:480x800:gray:jpeg85");
        assert("mimetype"@.len() != MARKER@.len());
        assert forall|i: int| 0 <= i < packed.len() implies (#[trigger] made[i]).name
            == archive::packed_as(packed[i]).name && made[i].problem is None by {
            assert(archive::packed_all(packed)[i] == archive::packed_as(packed[i]));
        }
        assert forall|i: int| 0 <= i < last implies (#[trigger] made[i]).name != MARKER@ by {
            if i > 0 {
                assert(packed[i] == rest[i - 1]);
            }
        }
        assert(made[last].name == MARKER@);
        found_at(made, MARKER@, last, 0);
        assert(vstd::utf8::is_ascii_chars(PROFILE@));
        vstd::utf8::is_ascii_chars_encode_utf8(PROFILE@);
        assert(archive::packed_all(packed)[last] == marker());
        assert(bytes_of(after, last as usize, 256) == Ok::<Seq<u8>, Seq<char>>(
            archive::start_of(marker().bytes, 256),
        ));
    } else if is_device_copy(data, members) == Ok::<bool, Seq<char>>(false) {
        let pictures = choose|pictures: Seq<Option<Seq<u8>>>|
            all_drawn(data, members, pictures) && #[trigger] device_copy(
                data,
                members,
                pictures,
                after,
            ) && images == drawn_count(pictures);
        plain_books_are_settled(data, pictures);
    }
}

/// The members of a device copy that stand for the others, the pictures made anew,
/// from the one at `from` on.
proof fn rebuilding_keeps_a_member(
    data: Seq<u8>,
    members: Seq<MemberView>,
    pictures: Seq<Option<Seq<u8>>>,
    from: int,
    i: int,
) -> (k: int)
    requires
        0 <= from <= i < members.len(),
        !rewritten(members[i].name),
        rebuilt(data, members, pictures, from) is Ok,
    ensures
        0 <= k < rebuilt(data, members, pictures, from)->Ok_0.len(),
        archive::packed_as(rebuilt(data, members, pictures, from)->Ok_0[k]).name == members[i].name,
        !members[i].folder() ==> archive::packed_as(
            rebuilt(data, members, pictures, from)->Ok_0[k],
        ).bytes == match pictures[i] {
            Some(bytes) => bytes,
            None => bytes_of(data, i as usize, u64::MAX)->Ok_0,
        },
        bytes_of(data, i as usize, u64::MAX) is Ok,
    decreases i - from,
{
    let packed = rebuilt(data, members, pictures, from)->Ok_0;
    assert(unread(data, members, from) is None);
    if from == i {
        assert(packed[0].name == members[i].name);
        0
    } else {
        let rest = rebuilt(data, members, pictures, from + 1)->Ok_0;
        let k = rebuilding_keeps_a_member(data, members, pictures, from + 1, i);
        if rewritten(members[from].name) {
            k
        } else {
            assert(packed[k + 1] == rest[k]);
            k + 1
        }
    }
}

/// Whether an archive holds what a member of a book holds, under the same name: a
/// picture may be one made anew of it.
pub open spec fn survives(
    data: Seq<u8>,
    members: Seq<MemberView>,
    i: int,
    after: Seq<u8>,
    made: Seq<MemberView>,
    k: int,
) -> bool {
    &&& 0 <= k < made.len()
    &&& made[k].name == members[i].name
    &&& !members[i].folder() && !rewritten(members[i].name) ==> match (
        bytes_of(data, i as usize, u64::MAX),
        bytes_of(after, k as usize, u64::MAX),
    ) {
        (Ok(before), Ok(now)) => if pictured(data, members, i) {
            remade(before, now)
        } else {
            now == before
        },
        _ => false,
    }
}

/// Nothing is lost in a device copy: every member of a book is in it under its name,
/// and one that is no picture holds what it held.
pub proof fn device_copies_keep_every_member(data: Seq<u8>, after: Seq<u8>, images: nat, i: int)
    requires
        optimized(data, after, images),
        images > 0,
        0 <= i < members_of(data)->Ok_0.len(),
    ensures
        members_of(after) is Ok,
        exists|k: int| #[trigger]
            survives(data, members_of(data)->Ok_0, i, after, members_of(after)->Ok_0, k),
{
    let members = members_of(data)->Ok_0;
    let pictures = choose|pictures: Seq<Option<Seq<u8>>>|
        all_drawn(data, members, pictures) && #[trigger] device_copy(
            data,
            members,
            pictures,
            after,
        ) && images == drawn_count(pictures);
    let rest = rebuilt(data, members, pictures, 0)->Ok_0;
    let packed = (seq![first_member()] + rest).push(marker());
    let all = archive::packed_all(packed);
    let made = members_of(after)->Ok_0;
    let last = packed.len() - 1;
    assert(archive::holds(after, all));
    if members[i].name == MARKER@ {
        assert(all[last] == marker());
        assert(survives(data, members, i, after, made, last));
    } else if members[i].name == "mimetype"@ {
        assert(all[0] == archive::packed_as(first_member()));
        assert(survives(data, members, i, after, made, 0));
    } else {
        let k = rebuilding_keeps_a_member(data, members, pictures, 0, i);
        assert(packed[k + 1] == rest[k]);
        assert(all[k + 1] == archive::packed_as(rest[k]));
        assert(bytes_of(after, (k + 1) as usize, u64::MAX) == Ok::<Seq<u8>, Seq<char>>(
            archive::start_of(all[k + 1].bytes, u64::MAX),
        ));
        assert((pictures[i] is Some) == pictured(data, members, i));
        assert(survives(data, members, i, after, made, k + 1));
    }
}

/// A book made ready for a device.
#[derive(Clone, Debug, PartialEq, Eq)]
pub struct Prepared {
    /// What the file is called.
    pub name: String,
    pub data: Vec<u8>,
    pub author: String,
    pub original_bytes: usize,
    pub bytes: usize,
    pub images: usize,
}

/// The name of a file without its extension.
pub open spec fn stem_of(name: Seq<char>) -> Seq<char> {
    if text::last_index(name, '.') > 0 {
        name.take(text::last_index(name, '.'))
    } else {
        name
    }
}

fn stem(name: &str) -> (r: String)
    ensures
        r@ == stem_of(name@),
{
    let c = text::chars(name);
    match text::find_last(c.as_slice(), '.') {
        Some(i) if i > 0 => {
            let s = text::slice(c.as_slice(), 0, i);
            assert(s@ =~= name@.take(i as int));
            s
        },
        _ => name.to_owned(),
    }
}

/// What a book is called on a device: by its title where books are put in
/// order, and as its file was called otherwise.
pub open spec fn device_name(book: Seq<char>, title: Option<Seq<char>>, organized: bool) -> Result<
    Seq<char>,
    Seq<char>,
> {
    if organized {
        let known = match title {
            Some(title) => title,
            None => match paths::name_of(book) {
                Some(name) => stem_of(name),
                None => "Untitled"@,
            },
        };
        Ok(component_of(known, "Untitled"@) + ".epub"@)
    } else {
        match paths::name_of(book) {
            Some(name) => Ok(name),
            None => Err("Invalid EPUB filename"@),
        }
    }
}

fn name_on_device(book: &str, title: &Option<String>, organized: bool) -> (r: Result<
    String,
    String,
>)
    ensures
        result_view(r) == device_name(book@, title.deep_view(), organized),
{
    let name = paths::file_name(book);
    if organized {
        let known = match title {
            Some(title) => title.as_str().to_owned(),
            None => match name {
                Some(name) => stem(name.as_str()),
                None => "Untitled".to_owned(),
            },
        };
        Ok(text::concat(component(known.as_str(), "Untitled").as_str(), ".epub"))
    } else {
        match name {
            Some(name) => Ok(name),
            None => Err("Invalid EPUB filename".to_owned()),
        }
    }
}

/// Who wrote a book and what it is called on a device, or why it is not made
/// ready.
pub open spec fn ready(book: Seq<char>, data: Seq<u8>, organized: bool) -> Result<
    (Seq<char>, Seq<char>),
    Seq<char>,
> {
    if data.len() > epub::MAX_BOOK_BYTES {
        Err("EPUB exceeds 128 MiB"@)
    } else if epub::validated(data) is Some {
        Err(epub::validated(data)->0)
    } else {
        match (epub::font_document(data), epub::metadata_of(data)) {
            (Err(words), _) => Err(words),
            (_, Err(words)) => Err(words),
            (_, Ok(None)) => Err("Missing EPUB metadata"@),
            (_, Ok(Some(metadata))) => match device_name(book, metadata.title, organized) {
                Err(words) => Err(words),
                Ok(name) => Ok((component_of(metadata.author, "Unknown author"@), name)),
            },
        }
    }
}

/// Make a book ready for a device. `book` is the path it was read from.
pub fn prepare(book: &str, data: Vec<u8>, optimize: bool, organized: bool) -> (r: Result<
    Prepared,
    String,
>)
    ensures
        match (r, ready(book@, data@, organized)) {
            (Ok(prepared), Ok((author, name))) => {
                &&& prepared.author@ == author
                &&& prepared.name@ == name
                &&& prepared.original_bytes == data@.len()
                &&& prepared.bytes == prepared.data@.len()
                &&& if optimize {
                    optimized(data@, prepared.data@, prepared.images as nat)
                } else {
                    prepared.data@ == data@ && prepared.images == 0
                }
            },
            (Ok(_), Err(_)) => false,
            (Err(words), Err(wanted)) => words@ == wanted,
            (Err(words), Ok(_)) => optimize && unoptimized(data@, words@),
        },
{
    if data.len() as u64 > epub::MAX_BOOK_BYTES {
        return Err("EPUB exceeds 128 MiB".to_owned());
    }
    if let Err(words) = epub::validate(data.as_slice()) {
        return Err(words);
    }
    if let Err(words) = epub::font_metadata(data.as_slice()) {
        return Err(words);
    }
    let metadata = match epub::metadata(data.as_slice()) {
        Ok(Some(metadata)) => metadata,
        Ok(None) => return Err("Missing EPUB metadata".to_owned()),
        Err(words) => return Err(words),
    };
    let author = component(metadata.author.as_str(), "Unknown author");
    let name = match name_on_device(book, &metadata.title, organized) {
        Ok(name) => name,
        Err(words) => return Err(words),
    };
    let original_bytes: usize = data.len();
    let (data, images) = if optimize {
        match optimize_images(data.as_slice()) {
            Ok(made) => made,
            Err(words) => return Err(words),
        }
    } else {
        (data, 0)
    };
    let bytes: usize = data.len();
    Ok(Prepared { name, data, author, original_bytes, bytes, images })
}

/// What stands at a name in the destination.
#[derive(Clone, Debug, PartialEq, Eq)]
pub struct Neighbour {
    pub name: String,
    pub directory: bool,
}

#[verifier::ext_equal]
pub struct NeighbourView {
    pub name: Seq<char>,
    pub directory: bool,
}

impl DeepView for Neighbour {
    type V = NeighbourView;

    open spec fn deep_view(&self) -> NeighbourView {
        NeighbourView { name: self.name@, directory: self.directory }
    }
}

/// The first name from `from` on that is this one, in whatever case.
pub open spec fn neighbour_at(names: Seq<NeighbourView>, name: Seq<char>, from: int) -> int
    decreases names.len() - from,
{
    if from < 0 || from >= names.len() {
        names.len() as int
    } else if text::lowercase(names[from].name) == text::lowercase(name) {
        from
    } else {
        neighbour_at(names, name, from + 1)
    }
}

/// Where the author's books go beneath an already-mounted destination: the
/// directory that is there, or one to be created.
pub open spec fn author_folder(names: Seq<NeighbourView>, author: Seq<char>) -> Result<
    (Seq<char>, bool),
    Seq<char>,
> {
    let at = neighbour_at(names, author, 0);
    if component_of(author, "Unknown author"@) != author {
        Err("Invalid author directory"@)
    } else if 0 <= at < names.len() {
        if names[at].directory {
            Ok((names[at].name, false))
        } else {
            Err("Author directory is occupied by a file or symlink"@)
        }
    } else {
        Ok((author, true))
    }
}

/// Decide on the author directory, given what is in the destination. The answer
/// says whether it has to be created.
pub fn author_directory(names: &Vec<Neighbour>, author: &str) -> (r: Result<(String, bool), String>)
    ensures
        result_view(r) == author_folder(names.deep_view(), author@),
{
    if !text::same(component(author, "Unknown author").as_str(), author) {
        return Err("Invalid author directory".to_owned());
    }
    let wanted = text::to_lowercase(author);
    for i in 0..names.len()
        invariant
            component_of(author@, "Unknown author"@) == author@,
            wanted@ == text::lowercase(author@),
            neighbour_at(names.deep_view(), author@, 0) == neighbour_at(
                names.deep_view(),
                author@,
                i as int,
            ),
    {
        assert(names.deep_view()[i as int] == names@[i as int].deep_view());
        let here = text::to_lowercase(names[i].name.as_str());
        if text::same(here.as_str(), wanted.as_str()) {
            if !names[i].directory {
                return Err("Author directory is occupied by a file or symlink".to_owned());
            }
            return Ok((names[i].name.as_str().to_owned(), false));
        }
    }
    Ok((author.to_owned(), true))
}

/// What a book is called that is never rewritten, or why it does not travel: it
/// keeps the name of its file.
pub open spec fn carried(book: Seq<char>, data: Seq<u8>, format: Format) -> Result<
    Seq<char>,
    Seq<char>,
> {
    if data.len() > epub::MAX_BOOK_BYTES {
        Err(format.name() + " exceeds 128 MiB"@)
    } else {
        match (format_problem(format, data), paths::name_of(book)) {
            (Some(words), _) => Err(words),
            (None, None) => Err("Invalid book filename"@),
            (None, Some(name)) => Ok(name),
        }
    }
}

/// Make a book ready that is never rewritten: it travels byte for byte under its
/// own name, and belongs in no author's folder. `book` is the path it was read
/// from.
pub fn carry(book: &str, data: Vec<u8>, format: Format) -> (r: Result<Prepared, String>)
    ensures
        match (r, carried(book@, data@, format)) {
            (Ok(prepared), Ok(name)) => {
                &&& prepared.name@ == name
                &&& prepared.data@ == data@
                &&& prepared.author@.len() == 0
                &&& prepared.original_bytes == data@.len()
                &&& prepared.bytes == data@.len()
                &&& prepared.images == 0
            },
            (Err(words), Err(wanted)) => words@ == wanted,
            _ => false,
        },
{
    if data.len() as u64 > epub::MAX_BOOK_BYTES {
        return Err(text::concat(format.label(), " exceeds 128 MiB"));
    }
    if let Err(words) = crate::format::validate(format, data.as_slice()) {
        return Err(words);
    }
    match paths::file_name(book) {
        None => Err("Invalid book filename".to_owned()),
        Some(name) => {
            let bytes: usize = data.len();
            Ok(
                Prepared {
                    name,
                    data,
                    author: String::new(),
                    original_bytes: bytes,
                    bytes,
                    images: 0,
                },
            )
        },
    }
}

} // verus!
