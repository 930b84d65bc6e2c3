//! What is on a Kobo: which of its records and files are books, what they are
//! called, and what is checked before one is imported.
use crate::archive;
use crate::archive::{has_member, members_of};
use crate::digest;
use crate::digest::{hex, sha256};
use crate::epub;
use crate::epub::{Metadata, MetadataView};
use crate::format::{format_problem, name_title, titled, Format};
use crate::names;
use crate::order;
use crate::paths;
use crate::text;
use crate::values::{result_view, Duplicate};
use crate::xml;
use crate::xml::{document, first_called, Node, NodeView};
use vstd::prelude::*;
use vstd::utf8::encode_utf8;

pub mod laws;

verus! {

broadcast use vstd::string::group_string_axioms;

#[derive(Clone, Copy, Debug, PartialEq, Eq, Structural)]
pub enum Source {
    KoboStore,
    Sideloaded,
}

#[derive(Clone, Debug, PartialEq, Eq)]
pub struct Book {
    pub id: String,
    pub title: String,
    pub author: String,
    pub encrypted: bool,
    pub preview: bool,
    pub source: Source,
    pub format: Format,
    /// Device-relative path for sideloaded entries; also distinguishes copies.
    pub path: Option<String>,
    /// The store's name for a sideloaded copy of one of its books.
    pub kobo_volume_id: Option<String>,
}

#[verifier::ext_equal]
pub struct BookView {
    pub id: Seq<char>,
    pub title: Seq<char>,
    pub author: Seq<char>,
    pub encrypted: bool,
    pub preview: bool,
    pub source: Source,
    pub format: Format,
    pub path: Option<Seq<char>>,
    pub kobo_volume_id: Option<Seq<char>>,
}

impl View for Book {
    type V = BookView;

    open spec fn view(&self) -> BookView {
        BookView {
            id: self.id@,
            title: self.title@,
            author: self.author@,
            encrypted: self.encrypted,
            preview: self.preview,
            source: self.source,
            format: self.format,
            path: self.path.deep_view(),
            kobo_volume_id: self.kobo_volume_id.deep_view(),
        }
    }
}

impl DeepView for Book {
    type V = BookView;

    open spec fn deep_view(&self) -> BookView {
        self@
    }
}

/// What is asked of the device's database. A preview is told by how accessible
/// a book is: a local file that is said to be downloaded does not imply that
/// the full edition is present. Older databases do not say, and stay readable.
pub open spec fn query_of(accessibility: bool) -> Seq<char> {
    QUERY_HEAD@ + (if accessibility {
        "COALESCE(CAST(Accessibility AS INTEGER) = 6, 0)"@
    } else {
        "0"@
    }) + QUERY_TAIL@
}

pub const QUERY_HEAD: &'static str = "SELECT ContentID, COALESCE(Title, ContentID), COALESCE(Attribution, ''), EXISTS(SELECT 1 FROM content_keys WHERE volumeid = content.ContentID), ";

pub const QUERY_TAIL: &'static str = " FROM content ORDER BY Title COLLATE NOCASE, ContentID";

pub fn query(accessibility: bool) -> (r: String)
    ensures
        r@ == query_of(accessibility),
{
    text::concat3(
        QUERY_HEAD,
        if accessibility {
            "COALESCE(CAST(Accessibility AS INTEGER) = 6, 0)"
        } else {
            "0"
        },
        QUERY_TAIL,
    )
}

pub open spec fn listing_key(book: BookView) -> order::SortKeyView {
    order::SortKeyView { late: false, major: text::lowercase(book.title), minor: book.id }
}

/// Books by title, in whatever case, and then by identifier.
pub open spec fn listed(books: Seq<BookView>) -> Seq<BookView> {
    order::sorted(books, order::by_key(|b: BookView| listing_key(b)))
}

/// Put the books of a device in order.
pub fn books(books: &mut Vec<Book>)
    ensures
        final(books).deep_view() == listed(old(books).deep_view()),
{
    let ghost all = books@;
    let ghost key = |b: Book| listing_key(b@);
    let mut keys: Vec<order::SortKey> = Vec::new();
    for i in 0..books.len()
        invariant
            books@ == all,
            key == (|b: Book| listing_key(b@)),
            keys@.len() == i,
            forall|j: int| 0 <= j < i ==> (#[trigger] keys@[j])@ == key(all[j]),
    {
        let k = order::SortKey {
            late: false,
            major: text::to_lowercase(books[i].title.as_str()),
            minor: books[i].id.duplicate(),
        };
        proof {
            assert(k@ =~= listing_key(all[i as int]@));
        }
        keys.push(k);
    }
    order::arrange(books, keys, Ghost(key));
    proof {
        let view = |b: Book| b.deep_view();
        let shown = |b: BookView| listing_key(b);
        order::sorted_mapped(all, order::by_key(key), view, order::by_key(shown));
        assert(books.deep_view() =~= order::mapped(books@, view));
        assert(old(books).deep_view() =~= order::mapped(all, view));
    }
}

/// Whether an identifier can name a file in the store's folder: it is one plain
/// name.
pub open spec fn plain_id(id: Seq<char>) -> bool {
    &&& paths::counts(id)
    &&& id != ".."@
    &&& forall|i: int| 0 <= i < id.len() ==> #[trigger] id[i] != '/' && id[i] != '\\'
}

/// Check an identifier before it is taken for the name of a file. Chapter
/// records, sideloaded books, and cloud-only entries have none.
pub fn book_path(id: &str) -> (r: Result<(), String>)
    ensures
        result_view(r) == if plain_id(id@) {
            Ok(())
        } else {
            Err("Invalid Kobo book ID"@)
        },
{
    let c = text::chars(id);
    let mut good = c.len() > 0 && !text::same(id, ".") && !text::same(id, "..");
    for i in 0..c.len()
        invariant
            c@ == id@,
            good == (paths::counts(id@) && id@ != ".."@ && forall|j: int|
                0 <= j < i ==> #[trigger] id@[j] != '/' && id@[j] != '\\'),
    {
        if c[i] == '/' || c[i] == '\\' {
            good = false;
        }
    }
    if good {
        Ok(())
    } else {
        Err("Invalid Kobo book ID".to_owned())
    }
}

/// Whether a search for sideloaded books passes a name over.
pub open spec fn passed_over(name: Seq<char>, at_root: bool) -> bool {
    (name.len() > 0 && name[0] == '.') || (at_root && name == "fonts"@)
}

pub fn is_passed_over(name: &str, at_root: bool) -> (r: bool)
    ensures
        r == passed_over(name@, at_root),
{
    let c = text::chars(name);
    (c.len() > 0 && c[0] == '.') || (at_root && text::same(name, "fonts"))
}

/// What a sideloaded file is known by: it follows from where it is, so it stays
/// the same from one run to the next.
pub open spec fn sideloaded_id(relative: Seq<char>) -> Seq<char> {
    "file:"@ + hex(sha256(encode_utf8(relative))).take(24)
}

fn id_of(relative: &str) -> (r: String)
    ensures
        r@ == sideloaded_id(relative@),
{
    let bytes = digest::digest(relative.as_bytes());
    let all = text::chars(digest::to_hex(bytes.as_slice()).as_str());
    let head = text::slice(all.as_slice(), 0, 24);
    proof {
        assert(all@.subrange(0, 24) =~= all@.take(24));
    }
    text::concat("file:", head.as_str())
}

/// The book a sideloaded EPUB is.
pub open spec fn sideloaded_book(
    relative: Seq<char>,
    name: Seq<char>,
    metadata: MetadataView,
    volume: Option<Seq<char>>,
) -> BookView {
    BookView {
        id: sideloaded_id(relative),
        title: match metadata.title {
            Some(title) => title,
            None => name,
        },
        author: metadata.author,
        encrypted: volume is Some,
        preview: false,
        source: Source::Sideloaded,
        format: Format::Epub,
        path: Some(relative),
        kobo_volume_id: volume,
    }
}

/// Make a book of a sideloaded EPUB.
pub fn sideloaded_books(relative: String, name: &str, metadata: Metadata, volume: Option<String>) -> (r: Book)
    ensures
        r@ == sideloaded_book(relative@, name@, metadata@, volume.deep_view()),
{
    let encrypted = volume.is_some();
    Book {
        id: id_of(relative.as_str()),
        title: match metadata.title {
            Some(title) => title,
            None => name.to_owned(),
        },
        author: metadata.author,
        encrypted,
        preview: false,
        source: Source::Sideloaded,
        format: Format::Epub,
        path: Some(relative),
        kobo_volume_id: volume,
    }
}

/// Make a book of a sideloaded file of a format that says nothing of itself: it
/// is titled by its name and has no author.
pub fn sideloaded_plain(relative: String, name: &str, format: Format) -> (r: Book)
    ensures
        r@ == (BookView {
            id: sideloaded_id(relative@),
            title: titled(name@),
            author: Seq::empty(),
            encrypted: false,
            preview: false,
            source: Source::Sideloaded,
            format,
            path: Some(relative@),
            kobo_volume_id: None,
        }),
{
    Book {
        id: id_of(relative.as_str()),
        title: name_title(name),
        author: String::new(),
        encrypted: false,
        preview: false,
        source: Source::Sideloaded,
        format,
        path: Some(relative),
        kobo_volume_id: None,
    }
}

/// Check a file of a format that is never rewritten.
pub fn check_plain(format: Format, data: &[u8]) -> (r: Result<(), String>)
    ensures
        result_view(r) == if data@.len() > epub::MAX_BOOK_BYTES {
            Err("Book exceeds 128 MiB"@)
        } else {
            epub::refused(format_problem(format, data@))
        },
{
    if data.len() as u64 > epub::MAX_BOOK_BYTES {
        Err("Book exceeds 128 MiB".to_owned())
    } else {
        crate::format::validate(format, data)
    }
}

/// The store's name for a book that gives this identifier.
pub open spec fn volume_of(identifier: Seq<char>) -> Seq<char> {
    if text::starts(identifier, "urn:uuid:"@) {
        identifier.skip("urn:uuid:"@.len() as int)
    } else {
        identifier
    }
}

pub fn match_encrypted_store_copy(identifier: &str) -> (r: String)
    ensures
        r@ == volume_of(identifier@),
{
    let c = text::chars(identifier);
    let prefix = text::chars("urn:uuid:");
    if text::starts_with(identifier, "urn:uuid:") {
        let rest = text::slice(c.as_slice(), prefix.len(), c.len());
        proof {
            assert(rest@ =~= identifier@.skip(prefix@.len() as int));
        }
        rest
    } else {
        identifier.to_owned()
    }
}

/// The first book from `from` on with an identifier, or the length.
pub open spec fn book_at(books: Seq<BookView>, id: Seq<char>, from: int) -> int
    decreases books.len() - from,
{
    if from < 0 || from >= books.len() {
        books.len() as int
    } else if books[from].id == id {
        from
    } else {
        book_at(books, id, from + 1)
    }
}

/// The book to import, or why there is none.
pub open spec fn chosen(books: Seq<BookView>, id: Seq<char>) -> Result<int, Seq<char>> {
    let at = book_at(books, id, 0);
    if !(0 <= at < books.len()) {
        Err("Book ID is not downloaded on this Kobo; use `crossload kobo list`"@)
    } else if books[at].preview {
        Err(
            "This Kobo entry is a preview, not the full book. Download the full edition on your Kobo, then reconnect and retry"@,
        )
    } else {
        Ok(at)
    }
}

/// Choose the book to import.
pub fn choose_book(books: &Vec<Book>, id: &str) -> (r: Result<usize, String>)
    ensures
        match (r, chosen(books.deep_view(), id@)) {
            (Ok(i), Ok(at)) => i == at && i < books@.len(),
            (Err(words), Err(wanted)) => words@ == wanted,
            _ => false,
        },
{
    for i in 0..books.len()
        invariant
            book_at(books.deep_view(), id@, 0) == book_at(books.deep_view(), id@, i as int),
    {
        assert(books.deep_view()[i as int] == books@[i as int]@);
        if text::same(books[i].id.as_str(), id) {
            if books[i].preview {
                return Err(
                    "This Kobo entry is a preview, not the full book. Download the full edition on your Kobo, then reconnect and retry".to_owned(),
                );
            }
            return Ok(i);
        }
    }
    Err("Book ID is not downloaded on this Kobo; use `crossload kobo list`".to_owned())
}

/// The serial number that the nodes of a device's description give.
pub open spec fn serial_in(nodes: Seq<NodeView>) -> Result<Seq<char>, Seq<char>> {
    let at = first_called(nodes, "deviceSerial"@, 0);
    if 0 <= at < nodes.len() && nodes[at].text is Some && epub::said(nodes[at].text->0) is Some {
        Ok(epub::said(nodes[at].text->0)->0)
    } else {
        Err("No serial in device.xml; supply --serial"@)
    }
}

/// Find the serial number among the nodes of a device's description.
pub fn find_serial(nodes: &Vec<Node>) -> (r: Result<String, String>)
    ensures
        result_view(r) == serial_in(nodes.deep_view()),
{
    let at = xml::find_called(nodes, "deviceSerial", 0);
    if at < nodes.len() {
        assert(nodes.deep_view()[at as int] == nodes@[at as int]@);
        if let Some(s) = &nodes[at].text {
            if let Some(serial) = epub::say(s.as_str()) {
                return Ok(serial);
            }
        }
    }
    Err("No serial in device.xml; supply --serial".to_owned())
}

/// The serial number that a device's description gives.
pub fn device_serial(description: &str) -> (r: Result<String, String>)
    ensures
        result_view(r) == match document(description@, false) {
            Ok(nodes) => serial_in(nodes),
            Err(words) => Err("Invalid Kobo device.xml; supply --serial: "@ + words),
        },
{
    match xml::parse(description, false) {
        Ok(nodes) => find_serial(&nodes),
        Err(words) => Err(
            text::concat("Invalid Kobo device.xml; supply --serial: ", words.as_str()),
        ),
    }
}

/// The first encrypted member that a download lacks.
pub open spec fn missing_member(
    members: Seq<archive::MemberView>,
    names: Seq<Seq<char>>,
    from: int,
) -> Option<Seq<char>>
    decreases names.len() - from,
{
    if from < 0 || from >= names.len() {
        None
    } else if !has_member(members, names[from]) {
        Some(names[from])
    } else {
        missing_member(members, names, from + 1)
    }
}

/// Check that a download has every member that the database has a key for.
pub fn check_encrypted_members(data: &[u8], names: &Vec<String>) -> (r: Result<(), String>)
    ensures
        result_view(r) == match members_of(data@) {
            Err(words) => Err(words),
            Ok(members) => match missing_member(members, names.deep_view(), 0) {
                Some(name) => Err("Downloaded book is missing encrypted member "@ + name),
                None => Ok(()),
            },
        },
{
    let members = match archive::members(data) {
        Ok(members) => members,
        Err(words) => return Err(words),
    };
    let ghost held = members.deep_view();
    for i in 0..names.len()
        invariant
            held == members.deep_view(),
            members_of(data@) == Ok::<Seq<archive::MemberView>, Seq<char>>(held),
            missing_member(held, names.deep_view(), 0) == missing_member(
                held,
                names.deep_view(),
                i as int,
            ),
    {
        assert(names.deep_view()[i as int] == names@[i as int]@);
        if archive::find_member(&members, names[i].as_str()).is_none() {
            return Err(
                text::concat(
                    "Downloaded book is missing encrypted member ",
                    names[i].as_str(),
                ),
            );
        }
    }
    Ok(())
}

/// The keys that a device of a serial number holds for some accounts.
pub uninterp spec fn derived_keys(serial: Seq<char>, users: Seq<Seq<char>>) -> Seq<Seq<u8>>;

/// Keys read as what they are.
pub open spec fn key_bytes(keys: Seq<[u8; 16]>) -> Seq<Seq<u8>> {
    Seq::new(keys.len(), |i: int| keys[i]@)
}

/// `flamberge_keys::kobo::derive_userkeys` on one serial number and some
/// accounts. How keys are derived is named rather than stated.
#[verifier::external_body]
pub(crate) fn derive_keys(serial: &str, users: &Vec<String>) -> (r: Vec<[u8; 16]>)
    ensures
        key_bytes(r@) == derived_keys(serial@, users.deep_view()),
{
    flamberge_keys::kobo::derive_userkeys(&[serial.to_owned()], users)
}

/// What stands in the way of deriving keys.
pub open spec fn key_problem(serial: Seq<char>, users: Seq<Seq<char>>) -> Option<Seq<char>> {
    if serial.len() == 0 {
        Some("Kobo serial must not be empty"@)
    } else if users.len() == 0 {
        Some("Kobo database has no account IDs"@)
    } else {
        None
    }
}

/// The keys to open a book of this device with. The serial number may be given
/// in place of the device's own.
pub fn user_keys(serial: &str, users: &Vec<String>) -> (r: Result<Vec<[u8; 16]>, String>)
    ensures
        match (r, key_problem(serial@, users.deep_view())) {
            (Ok(keys), None) => key_bytes(keys@) == derived_keys(serial@, users.deep_view()),
            (Err(words), Some(wanted)) => words@ == wanted,
            _ => false,
        },
{
    if serial.is_empty() {
        Err("Kobo serial must not be empty".to_owned())
    } else if users.len() == 0 {
        Err("Kobo database has no account IDs".to_owned())
    } else {
        Ok(derive_keys(serial, users))
    }
}

/// What is wrong with a download, before it is opened.
pub open spec fn download_problem(data: Seq<u8>) -> Option<Seq<char>> {
    if data.len() > epub::MAX_BOOK_BYTES {
        Some("Book exceeds 128 MiB"@)
    } else {
        match (epub::inspected(data), epub::font_document(data)) {
            (Some(words), _) => Some(words),
            (_, Err(words)) => Some(words),
            _ => None,
        }
    }
}

/// Check a download before it is opened, and keep what it says of its fonts.
pub fn check_download(data: &[u8]) -> (r: Result<Option<Vec<u8>>, String>)
    ensures
        match (r, download_problem(data@)) {
            (Ok(fonts), None) => match (fonts, epub::font_document(data@)) {
                (Some(fonts), Ok(Some(wanted))) => fonts@ == wanted,
                (None, Ok(None)) => true,
                _ => false,
            },
            (Err(words), Some(wanted)) => words@ == wanted,
            _ => false,
        },
{
    if data.len() as u64 > epub::MAX_BOOK_BYTES {
        return Err("Book exceeds 128 MiB".to_owned());
    }
    if let Err(words) = epub::inspect(data) {
        return Err(words);
    }
    epub::font_metadata(data)
}

/// What an opened book becomes: one that was locked gets what the download said of
/// its fonts put back, and any book has to be valid.
pub open spec fn imported(opened: Seq<u8>, encrypted: bool, fonts: Option<Seq<u8>>) -> Result<
    Seq<u8>,
    Seq<char>,
> {
    let restored = match fonts {
        Some(fonts) if encrypted => archive::appended_to(
            opened,
            "META-INF/encryption.xml"@,
            fonts,
        ),
        _ => Ok(opened),
    };
    match restored {
        Err(words) => Err(words),
        Ok(after) => match epub::validated(after) {
            None => Ok(after),
            Some(words) => Err(
                "Imported book failed EPUB validation; no output was written: "@ + words,
            ),
        },
    }
}

/// Make a book of what was opened, before it is written anywhere. A book that
/// was never locked is checked as it is.
pub fn import(opened: Vec<u8>, encrypted: bool, fonts: Option<Vec<u8>>) -> (r: Result<
    Vec<u8>,
    String,
>)
    ensures
        archive::bytes_view(r) == imported(
            opened@,
            encrypted,
            match fonts {
                Some(fonts) => Some(fonts@),
                None => None,
            },
        ),
{
    let data = if encrypted {
        match epub::restore_font_metadata(opened, fonts) {
            Ok(data) => data,
            Err(words) => return Err(words),
        }
    } else {
        opened
    };
    match epub::validate(data.as_slice()) {
        Ok(()) => Ok(data),
        Err(words) => Err(
            text::concat(
                "Imported book failed EPUB validation; no output was written: ",
                words.as_str(),
            ),
        ),
    }
}

/// The name a book is imported under.
pub open spec fn output_of(book: BookView) -> Seq<char> {
    names::file_named(book.title, hex(sha256(encode_utf8(book.id))), book.format.suffix())
}

pub fn output_name(book: &Book) -> (r: String)
    ensures
        r@ == output_of(book@),
{
    names::digest_name(book.title.as_str(), book.id.as_str().as_bytes(), book.format.extension())
}

/// Whether a path leads up anywhere.
pub open spec fn goes_up(path: Seq<char>) -> bool {
    paths::split(path, '/').contains(".."@)
}

/// Check where imports go. The nearest folder that exists has been followed to
/// its true place already; a path that leads up is refused to keep this check
/// unambiguous.
pub fn output_directory(output: &str, nearest: &str, device: &str) -> (r: Result<(), String>)
    ensures
        result_view(r) == if goes_up(output@) {
            Err("Output path must not contain .."@)
        } else if paths::lies_in(nearest@, device@) {
            Err("Choose a local output directory outside the Kobo"@)
        } else {
            Ok(())
        },
{
    let parts = paths::pieces(output, '/');
    for i in 0..parts.len()
        invariant
            parts.deep_view() == paths::split(output@, '/'),
            forall|j: int| 0 <= j < i ==> parts.deep_view()[j] != ".."@,
    {
        assert(parts.deep_view()[i as int] == parts@[i as int]@);
        if text::same(parts[i].as_str(), "..") {
            return Err("Output path must not contain ..".to_owned());
        }
    }
    assert(!goes_up(output@));
    if paths::is_in(nearest, device) {
        Err("Choose a local output directory outside the Kobo".to_owned())
    } else {
        Ok(())
    }
}

/// Check that the database and the book folder are the device's own; all three
/// have been followed to their true places already.
pub fn open(database: &str, folder: &str, root: &str) -> (r: Result<(), String>)
    ensures
        result_view(r) == if !paths::lies_in(database@, root@) {
            Err("Kobo database points outside the device"@)
        } else if !paths::lies_in(folder@, root@) {
            Err("Kobo book directory points outside the device"@)
        } else {
            Ok(())
        },
{
    if !paths::is_in(database, root) {
        Err("Kobo database points outside the device".to_owned())
    } else if !paths::is_in(folder, root) {
        Err("Kobo book directory points outside the device".to_owned())
    } else {
        Ok(())
    }
}

/// Check where the file of a book truly is: one of the store below the book
/// folder, a sideloaded one anywhere on the device.
pub fn source_path(path: &str, source: Source, folder: &str, root: &str) -> (r: Result<(), String>)
    ensures
        result_view(r) == match source {
            Source::KoboStore => if paths::lies_in(path@, folder@) {
                Ok(())
            } else {
                Err("Book path points outside Kobo book directory"@)
            },
            Source::Sideloaded => if paths::lies_in(path@, root@) {
                Ok(())
            } else {
                Err("Book path points outside the device"@)
            },
        },
{
    match source {
        Source::KoboStore => if paths::is_in(path, folder) {
            Ok(())
        } else {
            Err("Book path points outside Kobo book directory".to_owned())
        },
        Source::Sideloaded => if paths::is_in(path, root) {
            Ok(())
        } else {
            Err("Book path points outside the device".to_owned())
        },
    }
}

} // verus!
