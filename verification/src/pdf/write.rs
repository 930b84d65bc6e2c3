//! Writing rebuilt prose out as an EPUB.
//!
//! A heading starts a new file, so a reader can turn to a chapter and load only
//! that chapter. Because a PDF's headings are a guess, headings that arrive in
//! a run — a title page, a heading with its subtitle — stay together rather
//! than becoming a file each, and text before the first heading opens the book
//! in a file of its own.
use super::layout::{Block, BlockView};
use crate::archive;
use crate::archive::{Packed, PackedView};
use crate::digest;
use crate::digest::{hex, sha256};
use crate::kepub::{copied, file, file_member, first_member, mimetype_member};
use crate::text;
use vstd::prelude::*;
use vstd::utf8::encode_utf8;

pub mod laws;

verus! {

broadcast use vstd::string::group_string_axioms;

/// A character as it stands in markup. A control character is not text; a tab
/// and a newline are spaces in a paragraph anyway.
pub open spec fn escaped_char(c: char) -> Seq<char> {
    if c == '&' {
        "&amp;"@
    } else if c == '<' {
        "&lt;"@
    } else if c == '>' {
        "&gt;"@
    } else if text::control(c) {
        seq![' ']
    } else {
        seq![c]
    }
}

/// A text as it stands in markup.
pub open spec fn escape_of(s: Seq<char>) -> Seq<char>
    decreases s.len(),
{
    if s.len() == 0 {
        Seq::empty()
    } else {
        escape_of(s.drop_last()) + escaped_char(s.last())
    }
}

pub fn escaped(s: &str) -> (r: String)
    ensures
        r@ == escape_of(s@),
{
    let c = text::chars(s);
    let mut out = String::new();
    proof {
        assert(c@.take(0) =~= Seq::<char>::empty());
        assert(out@ =~= Seq::<char>::empty());
    }
    for i in 0..c.len()
        invariant
            c@ == s@,
            out@ == escape_of(c@.take(i as int)),
    {
        let ghost before = out@;
        proof {
            assert(c@.take(i as int + 1).drop_last() =~= c@.take(i as int));
        }
        if c[i] == '&' {
            out.push_str("&amp;");
        } else if c[i] == '<' {
            out.push_str("&lt;");
        } else if c[i] == '>' {
            out.push_str("&gt;");
        } else if text::is_control(c[i]) {
            out.push(' ');
            assert(out@ =~= before + seq![' ']);
        } else {
            out.push(c[i]);
            assert(out@ =~= before + seq![c@[i as int]]);
        }
    }
    proof {
        assert(c@.take(c@.len() as int) =~= c@);
    }
    out
}

/// The first heading from `from` on that says anything.
pub open spec fn first_heading(blocks: Seq<BlockView>, from: int) -> Option<Seq<char>>
    decreases blocks.len() - from,
{
    if from < 0 || from >= blocks.len() {
        None
    } else {
        match blocks[from] {
            BlockView::Heading(s) if text::trimmed(s).len() > 0 => Some(text::trimmed(s)),
            _ => first_heading(blocks, from + 1),
        }
    }
}

/// The book's title: what the PDF calls itself, or its first heading.
pub open spec fn title_of(named: Option<Seq<char>>, blocks: Seq<BlockView>) -> Seq<char> {
    match named {
        Some(s) if text::trimmed(s).len() > 0 => text::trimmed(s),
        _ => match first_heading(blocks, 0) {
            Some(s) => s,
            None => "Untitled"@,
        },
    }
}

pub fn title(named: &Option<String>, blocks: &Vec<Block>) -> (r: String)
    ensures
        r@ == title_of(named.deep_view(), blocks.deep_view()),
{
    if let Some(s) = named {
        let s = text::trim(s.as_str());
        if !s.as_str().is_empty() {
            return s;
        }
    }
    for i in 0..blocks.len()
        invariant
            !(named.deep_view() matches Some(s) && text::trimmed(s).len() > 0),
            first_heading(blocks.deep_view(), 0) == first_heading(blocks.deep_view(), i as int),
    {
        assert(blocks.deep_view()[i as int] == blocks@[i as int]@);
        if let Block::Heading(s) = &blocks[i] {
            let s = text::trim(s.as_str());
            if !s.as_str().is_empty() {
                return s;
            }
        }
    }
    "Untitled".to_owned()
}

/// One file of the book: what it is called in the table of contents, and the
/// markup inside it.
#[derive(Clone, Debug, PartialEq, Eq)]
pub struct Chapter {
    pub title: String,
    pub body: String,
}

#[verifier::ext_equal]
pub struct ChapterView {
    pub title: Seq<char>,
    pub body: Seq<char>,
}

impl View for Chapter {
    type V = ChapterView;

    open spec fn view(&self) -> ChapterView {
        ChapterView { title: self.title@, body: self.body@ }
    }
}

impl DeepView for Chapter {
    type V = ChapterView;

    open spec fn deep_view(&self) -> ChapterView {
        self@
    }
}

/// The markup of a part of a book; nothing for what holds no text.
pub open spec fn markup(block: BlockView) -> Seq<char> {
    match block {
        BlockView::Heading(s) => if text::trimmed(s).len() > 0 {
            "<h2>"@ + escape_of(text::trimmed(s)) + "</h2>\n"@
        } else {
            Seq::empty()
        },
        BlockView::Paragraph(s) => if text::trimmed(s).len() > 0 {
            "<p>"@ + escape_of(text::trimmed(s)) + "</p>\n"@
        } else {
            Seq::empty()
        },
        BlockView::Figure(_) => Seq::empty(),
    }
}

/// Whether a part of a book says anything.
pub open spec fn speaks(block: BlockView) -> bool {
    match block {
        BlockView::Heading(s) => text::trimmed(s).len() > 0,
        BlockView::Paragraph(s) => text::trimmed(s).len() > 0,
        BlockView::Figure(_) => false,
    }
}

/// Chapters with something put at the end of the last.
pub open spec fn extended(chapters: Seq<ChapterView>, more: Seq<char>) -> Seq<ChapterView> {
    chapters.drop_last().push(
        ChapterView { body: chapters.last().body + more, ..chapters.last() },
    )
}

/// The chapters that some blocks make, and whether the last has any prose yet.
/// A heading that follows another heading belongs with it, not to a file of its
/// own.
pub open spec fn cut_at(blocks: Seq<BlockView>) -> (Seq<ChapterView>, bool)
    decreases blocks.len(),
{
    if blocks.len() == 0 {
        (Seq::empty(), false)
    } else {
        let (chapters, prose) = cut_at(blocks.drop_last());
        let block = blocks.last();
        if !speaks(block) {
            (chapters, prose)
        } else {
            match block {
                BlockView::Heading(s) => if prose || chapters.len() == 0 {
                    (
                        chapters.push(
                            ChapterView { title: text::trimmed(s), body: markup(block) },
                        ),
                        false,
                    )
                } else {
                    (extended(chapters, markup(block)), prose)
                },
                _ => if chapters.len() == 0 {
                    (seq![ChapterView { title: "Beginning"@, body: markup(block) }], true)
                } else {
                    (extended(chapters, markup(block)), true)
                },
            }
        }
    }
}

/// The markup of some blocks, one after the other.
pub open spec fn markup_all(blocks: Seq<BlockView>) -> Seq<char>
    decreases blocks.len(),
{
    if blocks.len() == 0 {
        Seq::empty()
    } else {
        markup_all(blocks.drop_last()) + markup(blocks.last())
    }
}

/// The markup of some chapters, one after the other.
pub open spec fn bodies(chapters: Seq<ChapterView>) -> Seq<char>
    decreases chapters.len(),
{
    if chapters.len() == 0 {
        Seq::empty()
    } else {
        bodies(chapters.drop_last()) + chapters.last().body
    }
}

/// Cutting a book into chapters neither loses, repeats nor moves any of its
/// text.
pub proof fn chapters_are_the_book(blocks: Seq<BlockView>)
    ensures
        bodies(cut_at(blocks).0) == markup_all(blocks),
    decreases blocks.len(),
{
    if blocks.len() > 0 {
        chapters_are_the_book(blocks.drop_last());
        let chapters = cut_at(blocks.drop_last()).0;
        let after = cut_at(blocks).0;
        let block = blocks.last();
        if !speaks(block) {
            assert(markup_all(blocks.drop_last()) + Seq::<char>::empty() =~= markup_all(
                blocks.drop_last(),
            ));
        } else if after.len() > chapters.len() {
            assert(after.drop_last() =~= chapters);
        } else {
            assert(after.drop_last() =~= chapters.drop_last());
            assert(bodies(chapters.drop_last()) + (chapters.last().body + markup(block))
                =~= bodies(chapters.drop_last()) + chapters.last().body + markup(block));
        }
    }
}

fn extend(chapters: &mut Vec<Chapter>, more: &str)
    requires
        old(chapters)@.len() > 0,
    ensures
        final(chapters).deep_view() == extended(old(chapters).deep_view(), more@),
{
    let ghost before = chapters.deep_view();
    if let Some(last) = chapters.pop() {
        assert(before.last() == last@);
        let mut body = last.body;
        body.push_str(more);
        let longer = Chapter { title: last.title, body };
        let ghost shown = longer@;
        chapters.push(longer);
        proof {
            assert(chapters.deep_view() =~= before.drop_last().push(shown));
        }
    }
}

/// Cut the blocks into chapters at their headings.
pub fn chapters(blocks: &Vec<Block>) -> (r: Vec<Chapter>)
    ensures
        r.deep_view() == cut_at(blocks.deep_view()).0,
{
    let ghost all = blocks.deep_view();
    let mut out: Vec<Chapter> = Vec::new();
    let mut prose = false;
    proof {
        assert(all.take(0) =~= Seq::<BlockView>::empty());
        assert(out.deep_view() =~= Seq::<ChapterView>::empty());
    }
    for i in 0..blocks.len()
        invariant
            all == blocks.deep_view(),
            (out.deep_view(), prose) == cut_at(all.take(i as int)),
    {
        let ghost before = out.deep_view();
        proof {
            assert(all.take(i as int + 1).drop_last() =~= all.take(i as int));
            assert(all[i as int] == blocks@[i as int]@);
        }
        match &blocks[i] {
            Block::Heading(s) => {
                let s = text::trim(s.as_str());
                if !s.as_str().is_empty() {
                    let made = text::concat3("<h2>", escaped(s.as_str()).as_str(), "</h2>\n");
                    if prose || out.len() == 0 {
                        let chapter = Chapter { title: s, body: made };
                        let ghost shown = chapter@;
                        out.push(chapter);
                        prose = false;
                        proof {
                            assert(out.deep_view() =~= before.push(shown));
                        }
                    } else {
                        extend(&mut out, made.as_str());
                    }
                }
            },
            Block::Paragraph(s) => {
                let s = text::trim(s.as_str());
                if !s.as_str().is_empty() {
                    let made = text::concat3("<p>", escaped(s.as_str()).as_str(), "</p>\n");
                    if out.len() == 0 {
                        // Text before any heading still has to live somewhere.
                        let chapter = Chapter { title: "Beginning".to_owned(), body: made };
                        let ghost shown = chapter@;
                        out.push(chapter);
                        proof {
                            assert(out.deep_view() =~= seq![shown]);
                        }
                    } else {
                        extend(&mut out, made.as_str());
                    }
                    prose = true;
                }
            },
            Block::Figure(_) => {},
        }
    }
    proof {
        assert(all.take(all.len() as int) =~= all);
    }
    out
}

/// What a chapter's file is called.
pub open spec fn chapter_name(i: int) -> Seq<char> {
    "chapter"@ + text::decimal((i + 1) as nat) + ".xhtml"@
}

fn name(i: usize) -> (r: String)
    requires
        i < usize::MAX,
    ensures
        r@ == chapter_name(i as int),
{
    text::concat3("chapter", text::number(i as u64 + 1).as_str(), ".xhtml")
}

/// The table of contents, chapter by chapter.
pub open spec fn contents_of(chapters: Seq<ChapterView>) -> Seq<char>
    decreases chapters.len(),
{
    if chapters.len() == 0 {
        Seq::empty()
    } else {
        contents_of(chapters.drop_last()) + ("<li><a href=\""@ + chapter_name(chapters.len() - 1)
            + "\">"@ + escape_of(chapters.last().title) + "</a></li>\n"@)
    }
}

/// What the package declares of its files, chapter by chapter.
pub open spec fn manifest_of(n: nat) -> Seq<char>
    decreases n,
{
    if n == 0 {
        Seq::empty()
    } else {
        manifest_of((n - 1) as nat) + ("<item id=\"c"@ + text::decimal(n) + "\" href=\""@
            + chapter_name(n - 1) + "\" media-type=\"application/xhtml+xml\"/>\n"@)
    }
}

/// The order in which the chapters are read.
pub open spec fn spine_of(n: nat) -> Seq<char>
    decreases n,
{
    if n == 0 {
        Seq::empty()
    } else {
        spine_of((n - 1) as nat) + ("<itemref idref=\"c"@ + text::decimal(n) + "\"/>\n"@)
    }
}

pub const PAGE_HEAD: &'static str = "<?xml version=\"1.0\" encoding=\"utf-8\"?>\n<html xmlns=\"http://www.w3.org/1999/xhtml\" xmlns:epub=\"http://www.idpf.org/2007/ops\" lang=\"en\" xml:lang=\"en\">\n<head><title>";

pub const PAGE_BODY: &'static str = "</title><meta charset=\"utf-8\"/></head>\n<body>\n";

pub const PAGE_END: &'static str = "</body>\n</html>\n";

pub const CONTAINER: &'static str = "<?xml version=\"1.0\" encoding=\"utf-8\"?>\n<container version=\"1.0\" xmlns=\"urn:oasis:names:tc:opendocument:xmlns:container\">\n<rootfiles><rootfile full-path=\"OEBPS/content.opf\" media-type=\"application/oebps-package+xml\"/></rootfiles>\n</container>\n";

pub const PACKAGE_HEAD: &'static str = "<?xml version=\"1.0\" encoding=\"utf-8\"?>\n<package xmlns=\"http://www.idpf.org/2007/opf\" version=\"3.0\" unique-identifier=\"id\">\n<metadata xmlns:dc=\"http://purl.org/dc/elements/1.1/\">\n<dc:identifier id=\"id\">urn:sha256:";

pub const PACKAGE_TITLE: &'static str = "</dc:identifier>\n<dc:title>";

pub const PACKAGE_LANGUAGE: &'static str = "<dc:language>en</dc:language>\n<meta property=\"dcterms:modified\">1970-01-01T00:00:00Z</meta>\n<meta name=\"crossload:source\" content=\"converted from PDF\"/>\n</metadata>\n<manifest>\n<item id=\"nav\" href=\"nav.xhtml\" media-type=\"application/xhtml+xml\" properties=\"nav\"/>\n";

pub const PACKAGE_SPINE: &'static str = "</manifest>\n<spine>\n";

pub const PACKAGE_END: &'static str = "</spine>\n</package>\n";

pub const NAVIGATION_HEAD: &'static str = "<nav epub:type=\"toc\" id=\"toc\"><h1>Contents</h1>\n<ol>\n";

pub const NAVIGATION_END: &'static str = "</ol>\n</nav>\n";

/// A page of the book.
pub open spec fn page_of(title: Seq<char>, inner: Seq<char>) -> Seq<char> {
    PAGE_HEAD@ + escape_of(title) + PAGE_BODY@ + inner + PAGE_END@
}

/// Who the book says wrote it. A PDF that names nobody gets no creator at all,
/// rather than one invented for it.
pub open spec fn creator_of(author: Seq<char>) -> Seq<char> {
    if text::trimmed(author).len() == 0 {
        Seq::empty()
    } else {
        "<dc:creator>"@ + escape_of(text::trimmed(author)) + "</dc:creator>\n"@
    }
}

/// The package document. Its identifier is stable: the same PDF converted twice
/// is the same book, and nothing here depends on the clock.
pub open spec fn package_of(title: Seq<char>, author: Seq<char>, chapters: Seq<ChapterView>) -> Seq<
    char,
> {
    PACKAGE_HEAD@ + hex(sha256(encode_utf8(bodies(chapters)))) + PACKAGE_TITLE@ + escape_of(title)
        + "</dc:title>\n"@ + creator_of(author) + PACKAGE_LANGUAGE@ + manifest_of(chapters.len())
        + PACKAGE_SPINE@ + spine_of(chapters.len()) + PACKAGE_END@
}

pub open spec fn navigation_of(title: Seq<char>, chapters: Seq<ChapterView>) -> Seq<char> {
    page_of(title, NAVIGATION_HEAD@ + contents_of(chapters) + NAVIGATION_END@)
}

/// A compressed member that holds a text.
pub open spec fn text_file(name: Seq<char>, s: Seq<char>) -> PackedView {
    file(name, encode_utf8(s))
}

/// The chapters as members of the book.
pub open spec fn chapter_files(title: Seq<char>, chapters: Seq<ChapterView>) -> Seq<PackedView> {
    Seq::new(
        chapters.len(),
        |i: int|
            text_file("OEBPS/"@ + chapter_name(i), page_of(title, chapters[i].body)),
    )
}

/// The members of the book. The mimetype is first and stored, or a reader may
/// not recognize it.
pub open spec fn book_of(title: Seq<char>, author: Seq<char>, blocks: Seq<BlockView>) -> Seq<
    PackedView,
> {
    let chapters = cut_at(blocks).0;
    seq![
        first_member(),
        text_file("META-INF/container.xml"@, CONTAINER@),
        text_file("OEBPS/content.opf"@, package_of(title, author, chapters)),
        text_file("OEBPS/nav.xhtml"@, navigation_of(title, chapters)),
    ] + chapter_files(title, chapters)
}

fn text_member(name: &str, s: &str) -> (r: Packed)
    ensures
        r@ == text_file(name@, s@),
{
    file_member(name, copied(s.as_bytes()))
}

fn page(title: &str, inner: &str) -> (r: String)
    ensures
        r@ == page_of(title@, inner@),
{
    text::concat5(PAGE_HEAD, escaped(title).as_str(), PAGE_BODY, inner, PAGE_END)
}

fn package(title: &str, author: &str, chapters: &Vec<Chapter>) -> (r: String)
    ensures
        r@ == package_of(title@, author@, chapters.deep_view()),
{
    let ghost all = chapters.deep_view();
    let mut manifest = String::new();
    let mut spine = String::new();
    let mut body = String::new();
    proof {
        assert(all.take(0) =~= Seq::<ChapterView>::empty());
        assert(manifest@ =~= Seq::<char>::empty());
    }
    for i in 0..chapters.len()
        invariant
            all == chapters.deep_view(),
            manifest@ == manifest_of(i as nat),
            spine@ == spine_of(i as nat),
            body@ == bodies(all.take(i as int)),
    {
        proof {
            assert(all.take(i as int + 1).drop_last() =~= all.take(i as int));
            assert(all[i as int] == chapters@[i as int]@);
        }
        let number = text::number(i as u64 + 1);
        let item = text::concat5(
            "<item id=\"c",
            number.as_str(),
            "\" href=\"",
            name(i).as_str(),
            "\" media-type=\"application/xhtml+xml\"/>\n",
        );
        manifest.push_str(item.as_str());
        let place = text::concat3("<itemref idref=\"c", number.as_str(), "\"/>\n");
        spine.push_str(place.as_str());
        body.push_str(chapters[i].body.as_str());
    }
    proof {
        assert(all.take(all.len() as int) =~= all);
    }
    let identifier = digest::fingerprint(body.as_str().as_bytes());
    let author = text::trim(author);
    let creator = if author.as_str().is_empty() {
        let none = String::new();
        assert(none@ =~= Seq::<char>::empty());
        none
    } else {
        text::concat3("<dc:creator>", escaped(author.as_str()).as_str(), "</dc:creator>\n")
    };
    let head = text::concat5(
        PACKAGE_HEAD,
        identifier.as_str(),
        PACKAGE_TITLE,
        escaped(title).as_str(),
        "</dc:title>\n",
    );
    let middle = text::concat5(
        head.as_str(),
        creator.as_str(),
        PACKAGE_LANGUAGE,
        manifest.as_str(),
        PACKAGE_SPINE,
    );
    text::concat3(middle.as_str(), spine.as_str(), PACKAGE_END)
}

fn navigation(title: &str, chapters: &Vec<Chapter>) -> (r: String)
    ensures
        r@ == navigation_of(title@, chapters.deep_view()),
{
    let ghost all = chapters.deep_view();
    let mut contents = String::new();
    proof {
        assert(all.take(0) =~= Seq::<ChapterView>::empty());
        assert(contents@ =~= Seq::<char>::empty());
    }
    for i in 0..chapters.len()
        invariant
            all == chapters.deep_view(),
            contents@ == contents_of(all.take(i as int)),
    {
        proof {
            assert(all.take(i as int + 1).drop_last() =~= all.take(i as int));
            assert(all[i as int] == chapters@[i as int]@);
        }
        let entry = text::concat5(
            "<li><a href=\"",
            name(i).as_str(),
            "\">",
            escaped(chapters[i].title.as_str()).as_str(),
            "</a></li>\n",
        );
        contents.push_str(entry.as_str());
    }
    proof {
        assert(all.take(all.len() as int) =~= all);
    }
    page(title, text::concat3(NAVIGATION_HEAD, contents.as_str(), NAVIGATION_END).as_str())
}

/// Write a book out as an EPUB.
pub fn epub(title: &str, author: &str, blocks: &Vec<Block>) -> (r: Result<Vec<u8>, String>)
    ensures
        match r {
            Ok(data) => archive::holds(
                data@,
                archive::packed_all(book_of(title@, author@, blocks.deep_view())),
            ),
            Err(_) => !archive::packable(
                archive::packed_all(book_of(title@, author@, blocks.deep_view())),
            ),
        },
{
    let chapters = chapters(blocks);
    let ghost all = chapters.deep_view();
    let mut packed: Vec<Packed> = Vec::new();
    packed.push(mimetype_member());
    packed.push(text_member("META-INF/container.xml", CONTAINER));
    packed.push(text_member("OEBPS/content.opf", package(title, author, &chapters).as_str()));
    packed.push(text_member("OEBPS/nav.xhtml", navigation(title, &chapters).as_str()));
    let ghost head = packed.deep_view();
    proof {
        assert(head =~= seq![
            first_member(),
            text_file("META-INF/container.xml"@, CONTAINER@),
            text_file("OEBPS/content.opf"@, package_of(title@, author@, all)),
            text_file("OEBPS/nav.xhtml"@, navigation_of(title@, all)),
        ]);
        assert(head + chapter_files(title@, all).take(0) =~= head);
    }
    for i in 0..chapters.len()
        invariant
            all == chapters.deep_view(),
            packed.deep_view() == head + chapter_files(title@, all).take(i as int),
    {
        let ghost before = packed.deep_view();
        assert(all[i as int] == chapters@[i as int]@);
        let member = text_member(
            text::concat("OEBPS/", name(i).as_str()).as_str(),
            page(title, chapters[i].body.as_str()).as_str(),
        );
        let ghost shown = member@;
        packed.push(member);
        proof {
            assert(packed.deep_view() =~= before.push(shown));
            assert(packed.deep_view() =~= head + chapter_files(title@, all).take(i as int + 1));
        }
    }
    proof {
        assert(chapter_files(title@, all).take(all.len() as int) =~= chapter_files(title@, all));
        assert(packed.deep_view() =~= book_of(title@, author@, blocks.deep_view()));
    }
    archive::pack(&packed)
}

} // verus!
