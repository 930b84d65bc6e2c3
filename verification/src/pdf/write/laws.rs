//! What a book that was written out holds.
use super::super::layout::BlockView;
use super::{
    bodies, book_of, chapter_name, contents_of, cut_at, escape_of, escaped_char, manifest_of,
    markup, navigation_of, package_of, page_of, spine_of, title_of, ChapterView,
};
use crate::text;
use vstd::prelude::*;
use vstd::utf8::encode_utf8;

verus! {

broadcast use vstd::string::group_string_axioms;

/// What markup says: its entities read as the characters they stand for.
pub open spec fn read_out(e: Seq<char>) -> Seq<char>
    decreases e.len(),
{
    if e.len() == 0 {
        Seq::empty()
    } else if e.len() >= 5 && text::starts(e, "&amp;"@) {
        seq!['&'] + read_out(e.skip(5))
    } else if e.len() >= 4 && text::starts(e, "&lt;"@) {
        seq!['<'] + read_out(e.skip(4))
    } else if e.len() >= 4 && text::starts(e, "&gt;"@) {
        seq!['>'] + read_out(e.skip(4))
    } else {
        seq![e[0]] + read_out(e.skip(1))
    }
}

/// A text with a space for each of its control characters.
pub open spec fn uncontrolled(s: Seq<char>) -> Seq<char> {
    Seq::new(
        s.len(),
        |i: int|
            if text::control(s[i]) {
                ' '
            } else {
                s[i]
            },
    )
}

proof fn escaping_from_the_front(c: char, s: Seq<char>)
    ensures
        escape_of(seq![c] + s) == escaped_char(c) + escape_of(s),
    decreases s.len(),
{
    let t = seq![c] + s;
    if s.len() == 0 {
        assert(t.drop_last() =~= Seq::<char>::empty());
        assert(escape_of(t.drop_last()) =~= Seq::<char>::empty());
        assert(escape_of(t) =~= escaped_char(c) + escape_of(s));
    } else {
        escaping_from_the_front(c, s.drop_last());
        assert(t.drop_last() =~= seq![c] + s.drop_last());
        assert(escape_of(t) =~= escaped_char(c) + escape_of(s));
    }
}

proof fn one_reads_out(c: char, rest: Seq<char>)
    ensures
        read_out(escaped_char(c) + rest) == seq![
            if text::control(c) {
                ' '
            } else {
                c
            },
        ] + read_out(rest),
{
    reveal_strlit("&amp;");
    reveal_strlit("&lt;");
    reveal_strlit("&gt;");
    let e = escaped_char(c) + rest;
    if c == '&' {
        assert(e.subrange(0, 5) =~= "&amp;"@);
        assert(e.skip(5) =~= rest);
    } else if c == '<' {
        assert(e.subrange(0, 4) =~= "&lt;"@);
        assert(e[1] == 'l');
        if e.len() >= 5 && text::starts(e, "&amp;"@) {
            assert(e.subrange(0, 5)[1] == 'a');
        }
        assert(e.skip(4) =~= rest);
    } else if c == '>' {
        assert(e.subrange(0, 4) =~= "&gt;"@);
        assert(e[1] == 'g');
        if e.len() >= 5 && text::starts(e, "&amp;"@) {
            assert(e.subrange(0, 5)[1] == 'a');
        }
        if text::starts(e, "&lt;"@) {
            assert(e.subrange(0, 4)[1] == 'l');
        }
        assert(e.skip(4) =~= rest);
    } else {
        assert(e[0] != '&');
        if e.len() >= 5 && text::starts(e, "&amp;"@) {
            assert(e.subrange(0, 5)[0] == '&');
        }
        if e.len() >= 4 && text::starts(e, "&lt;"@) {
            assert(e.subrange(0, 4)[0] == '&');
        }
        if e.len() >= 4 && text::starts(e, "&gt;"@) {
            assert(e.subrange(0, 4)[0] == '&');
        }
        assert(e.skip(1) =~= rest);
    }
}

/// What is written reads out as the text it was made of, and none of it is taken for
/// markup.
pub proof fn what_is_written_reads_out_the_same(s: Seq<char>)
    ensures
        read_out(escape_of(s)) == uncontrolled(s),
        forall|i: int|
            0 <= i < escape_of(s).len() ==> #[trigger] escape_of(s)[i] != '<' && escape_of(s)[i]
                != '>',
    decreases s.len(),
{
    if s.len() > 0 {
        let rest = s.drop_first();
        what_is_written_reads_out_the_same(rest);
        assert(s =~= seq![s[0]] + rest);
        escaping_from_the_front(s[0], rest);
        one_reads_out(s[0], escape_of(rest));
        assert(uncontrolled(s) =~= seq![
            if text::control(s[0]) {
                ' '
            } else {
                s[0]
            },
        ] + uncontrolled(rest));
        reveal_strlit("&amp;");
        reveal_strlit("&lt;");
        reveal_strlit("&gt;");
        let first = escaped_char(s[0]);
        assert forall|i: int| 0 <= i < escape_of(s).len() implies #[trigger] escape_of(s)[i] != '<'
            && escape_of(s)[i] != '>' by {
            if i >= first.len() {
                assert(escape_of(s)[i] == escape_of(rest)[i - first.len()]);
            } else {
                assert(escape_of(s)[i] == first[i]);
            }
        }
    } else {
        assert(uncontrolled(s) =~= Seq::<char>::empty());
    }
}

/// Whether a block says something.
pub open spec fn says(block: BlockView) -> bool {
    match block {
        BlockView::Heading(s) => text::trimmed(s).len() > 0,
        BlockView::Paragraph(s) => text::trimmed(s).len() > 0,
        BlockView::Figure(_) => false,
    }
}

/// A heading behind prose, or at the start, opens a chapter that is called after it. One
/// that follows another heading stays with it.
pub proof fn a_heading_opens_a_chapter(blocks: Seq<BlockView>, heading: Seq<char>)
    requires
        text::trimmed(heading).len() > 0,
    ensures
        ({
            let before = cut_at(blocks).0;
            let after = cut_at(blocks.push(BlockView::Heading(heading))).0;
            let shown = "<h2>"@ + escape_of(text::trimmed(heading)) + "</h2>\n"@;
            &&& blocks.len() == 0 || (blocks.last() is Paragraph && says(blocks.last())) ==> after
                == before.push(ChapterView { title: text::trimmed(heading), body: shown })
            &&& blocks.len() > 0 && blocks.last() is Heading && says(blocks.last()) ==> before.len()
                > 0 && after == before.drop_last().push(
                ChapterView { title: before.last().title, body: before.last().body + shown },
            )
        }),
{
    assert(blocks.push(BlockView::Heading(heading)).drop_last() =~= blocks);
    spoken_chapters(blocks);
}

proof fn spoken_chapters(blocks: Seq<BlockView>)
    ensures
        blocks.len() > 0 && says(blocks.last()) ==> cut_at(blocks).0.len() > 0,
{
    if blocks.len() > 0 {
        let rest = cut_at(blocks.drop_last()).0;
    }
}

/// A paragraph goes to the end of the chapter that is open, or opens the book in a
/// chapter of its own. What says nothing changes nothing.
pub proof fn a_paragraph_goes_into_its_chapter(blocks: Seq<BlockView>, block: BlockView)
    ensures
        ({
            let before = cut_at(blocks).0;
            let after = cut_at(blocks.push(block)).0;
            &&& !says(block) ==> after == before
            &&& block matches BlockView::Paragraph(s) ==> says(block) ==> {
                let shown = "<p>"@ + escape_of(text::trimmed(s)) + "</p>\n"@;
                &&& before.len() == 0 ==> after == seq![
                    ChapterView { title: "Beginning"@, body: shown },
                ]
                &&& before.len() > 0 ==> after == before.drop_last().push(
                    ChapterView { title: before.last().title, body: before.last().body + shown },
                )
            }
        }),
{
    assert(blocks.push(block).drop_last() =~= blocks);
}

proof fn held_inside(a: Seq<char>, b: Seq<char>, c: Seq<char>)
    ensures
        text::within(a + b + c, b),
{
    let whole = a + b + c;
    assert(whole.subrange(a.len() as int, (a.len() + b.len()) as int) =~= b);
    assert(text::at(whole, b, a.len() as int));
}

proof fn held_deeper(a: Seq<char>, b: Seq<char>, c: Seq<char>, part: Seq<char>)
    requires
        text::within(b, part),
    ensures
        text::within(a + b + c, part),
{
    let i = choose|i: int| text::at(b, part, i);
    let whole = a + b + c;
    assert(whole.subrange(a.len() + i, a.len() + i + part.len()) =~= b.subrange(
        i,
        i + part.len(),
    ));
    assert(text::at(whole, part, a.len() + i));
}

/// Each chapter is a file of its own, in order, and the file holds all of it.
pub proof fn every_chapter_is_in_the_book(
    title: Seq<char>,
    author: Seq<char>,
    blocks: Seq<BlockView>,
    i: int,
)
    requires
        0 <= i < cut_at(blocks).0.len(),
    ensures
        ({
            let chapter = cut_at(blocks).0[i];
            let book = book_of(title, author, blocks);
            &&& book.len() == 4 + cut_at(blocks).0.len()
            &&& book[4 + i].name == "OEBPS/chapter"@ + text::decimal((i + 1) as nat) + ".xhtml"@
            &&& exists|page: Seq<char>|
                book[4 + i].bytes == #[trigger] encode_utf8(page) && text::within(
                    page,
                    chapter.body,
                ) && text::within(page, escape_of(title))
        }),
{
    let chapters = cut_at(blocks).0;
    let book = book_of(title, author, blocks);
    let page = page_of(title, chapters[i].body);
    reveal_strlit("OEBPS/");
    reveal_strlit("chapter");
    reveal_strlit("OEBPS/chapter");
    assert("OEBPS/"@ + "chapter"@ =~= "OEBPS/chapter"@);
    assert("OEBPS/"@ + chapter_name(i) =~= "OEBPS/chapter"@ + text::decimal((i + 1) as nat)
        + ".xhtml"@);
    assert(book[4 + i].bytes == encode_utf8(page));
    held_inside(
        super::PAGE_HEAD@ + escape_of(title) + super::PAGE_BODY@,
        chapters[i].body,
        super::PAGE_END@,
    );
    held_inside(
        super::PAGE_HEAD@,
        escape_of(title),
        super::PAGE_BODY@ + chapters[i].body + super::PAGE_END@,
    );
    assert(super::PAGE_HEAD@ + escape_of(title) + (super::PAGE_BODY@ + chapters[i].body
        + super::PAGE_END@) =~= page);
}

proof fn contents_hold(chapters: Seq<ChapterView>, i: int)
    requires
        0 <= i < chapters.len(),
    ensures
        text::within(
            contents_of(chapters),
            "<a href=\""@ + chapter_name(i) + "\">"@ + escape_of(chapters[i].title) + "</a>"@,
        ),
    decreases chapters.len(),
{
    let rest = chapters.drop_last();
    let part = "<a href=\""@ + chapter_name(i) + "\">"@ + escape_of(chapters[i].title) + "</a>"@;
    let last = "<li><a href=\""@ + chapter_name(chapters.len() - 1) + "\">"@ + escape_of(
        chapters.last().title,
    ) + "</a></li>\n"@;
    if i == chapters.len() - 1 {
        reveal_strlit("<li><a href=\"");
        reveal_strlit("<li>");
        reveal_strlit("<a href=\"");
        reveal_strlit("</a></li>\n");
        reveal_strlit("</a>");
        reveal_strlit("</li>\n");
        assert("<li>"@ + "<a href=\""@ =~= "<li><a href=\""@);
        assert("</a>"@ + "</li>\n"@ =~= "</a></li>\n"@);
        assert(last =~= "<li>"@ + part + "</li>\n"@);
        held_inside("<li>"@, part, "</li>\n"@);
        held_deeper(contents_of(rest), last, Seq::empty(), part);
        assert(contents_of(rest) + last + Seq::<char>::empty() =~= contents_of(chapters));
    } else {
        assert(rest[i] == chapters[i]);
        contents_hold(rest, i);
        held_deeper(Seq::empty(), contents_of(rest), last, part);
        assert(Seq::<char>::empty() + contents_of(rest) + last =~= contents_of(chapters));
    }
}

proof fn manifest_holds(n: nat, i: nat)
    requires
        0 < i <= n,
    ensures
        text::within(
            manifest_of(n),
            "<item id=\"c"@ + text::decimal(i) + "\" href=\""@ + chapter_name(i - 1)
                + "\" media-type=\"application/xhtml+xml\"/>\n"@,
        ),
        text::within(spine_of(n), "<itemref idref=\"c"@ + text::decimal(i) + "\"/>\n"@),
    decreases n,
{
    let m = (n - 1) as nat;
    let item = "<item id=\"c"@ + text::decimal(n) + "\" href=\""@ + chapter_name(n - 1)
        + "\" media-type=\"application/xhtml+xml\"/>\n"@;
    let turn = "<itemref idref=\"c"@ + text::decimal(n) + "\"/>\n"@;
    if i == n {
        held_inside(manifest_of(m), item, Seq::empty());
        held_inside(spine_of(m), turn, Seq::empty());
        assert(manifest_of(m) + item + Seq::<char>::empty() =~= manifest_of(n));
        assert(spine_of(m) + turn + Seq::<char>::empty() =~= spine_of(n));
    } else {
        manifest_holds(m, i);
        let part = "<item id=\"c"@ + text::decimal(i) + "\" href=\""@ + chapter_name(i - 1)
            + "\" media-type=\"application/xhtml+xml\"/>\n"@;
        let step = "<itemref idref=\"c"@ + text::decimal(i) + "\"/>\n"@;
        held_deeper(Seq::empty(), manifest_of(m), item, part);
        held_deeper(Seq::empty(), spine_of(m), turn, step);
        assert(Seq::<char>::empty() + manifest_of(m) + item =~= manifest_of(n));
        assert(Seq::<char>::empty() + spine_of(m) + turn =~= spine_of(n));
    }
}

/// The table of contents leads to every chapter by its title.
pub proof fn the_contents_lead_to_every_chapter(
    title: Seq<char>,
    chapters: Seq<ChapterView>,
    i: int,
)
    requires
        0 <= i < chapters.len(),
    ensures
        text::within(
            navigation_of(title, chapters),
            "<a href=\""@ + chapter_name(i) + "\">"@ + escape_of(chapters[i].title) + "</a>"@,
        ),
{
    contents_hold(chapters, i);
    let link = "<a href=\""@ + chapter_name(i) + "\">"@ + escape_of(chapters[i].title) + "</a>"@;
    held_deeper(super::NAVIGATION_HEAD@, contents_of(chapters), super::NAVIGATION_END@, link);
    let inner = super::NAVIGATION_HEAD@ + contents_of(chapters) + super::NAVIGATION_END@;
    held_deeper(
        super::PAGE_HEAD@ + escape_of(title) + super::PAGE_BODY@,
        inner,
        super::PAGE_END@,
        link,
    );
}

/// What a package document holds in front of its manifest.
spec fn front(title: Seq<char>, author: Seq<char>, chapters: Seq<ChapterView>) -> Seq<char> {
    super::PACKAGE_HEAD@ + identifier(chapters) + super::PACKAGE_TITLE@ + escape_of(title)
        + "</dc:title>\n"@ + super::creator_of(author) + super::PACKAGE_LANGUAGE@
}

spec fn identifier(chapters: Seq<ChapterView>) -> Seq<char> {
    crate::digest::hex(crate::digest::sha256(encode_utf8(bodies(chapters))))
}

/// The package document lists every chapter as a document, and has each read in its
/// turn.
pub proof fn the_package_lists_every_chapter(
    title: Seq<char>,
    author: Seq<char>,
    chapters: Seq<ChapterView>,
    i: int,
)
    requires
        0 <= i < chapters.len(),
    ensures
        text::within(
            package_of(title, author, chapters),
            "<item id=\"c"@ + text::decimal((i + 1) as nat) + "\" href=\""@ + chapter_name(i)
                + "\" media-type=\"application/xhtml+xml\"/>\n"@,
        ),
        text::within(
            package_of(title, author, chapters),
            "<itemref idref=\"c"@ + text::decimal((i + 1) as nat) + "\"/>\n"@,
        ),
{
    let n = chapters.len();
    manifest_holds(n, (i + 1) as nat);
    let whole = package_of(title, author, chapters);
    let head = front(title, author, chapters);
    let item = "<item id=\"c"@ + text::decimal((i + 1) as nat) + "\" href=\""@ + chapter_name(i)
        + "\" media-type=\"application/xhtml+xml\"/>\n"@;
    let turn = "<itemref idref=\"c"@ + text::decimal((i + 1) as nat) + "\"/>\n"@;
    package_parts(title, author, chapters);
    held_deeper(
        head,
        manifest_of(n),
        super::PACKAGE_SPINE@ + spine_of(n) + super::PACKAGE_END@,
        item,
    );
    held_deeper(
        head + manifest_of(n) + super::PACKAGE_SPINE@,
        spine_of(n),
        super::PACKAGE_END@,
        turn,
    );
}

proof fn package_parts(title: Seq<char>, author: Seq<char>, chapters: Seq<ChapterView>)
    ensures
        ({
            let n = chapters.len();
            let head = front(title, author, chapters);
            let whole = package_of(title, author, chapters);
            &&& whole == head + manifest_of(n) + (super::PACKAGE_SPINE@ + spine_of(n)
                + super::PACKAGE_END@)
            &&& whole == head + manifest_of(n) + super::PACKAGE_SPINE@ + spine_of(n)
                + super::PACKAGE_END@
        }),
{
    let n = chapters.len();
    let head = front(title, author, chapters);
    let whole = package_of(title, author, chapters);
    assert(whole == head + manifest_of(n) + super::PACKAGE_SPINE@ + spine_of(n)
        + super::PACKAGE_END@);
    assert(whole =~= head + manifest_of(n) + (super::PACKAGE_SPINE@ + spine_of(n)
        + super::PACKAGE_END@));
}

/// The package document says what the book is called, and who wrote it where that is
/// known.
pub proof fn the_package_names_the_book(
    title: Seq<char>,
    author: Seq<char>,
    chapters: Seq<ChapterView>,
)
    ensures
        text::within(
            package_of(title, author, chapters),
            "<dc:title>"@ + escape_of(title) + "</dc:title>\n"@,
        ),
        text::trimmed(author).len() > 0 ==> text::within(
            package_of(title, author, chapters),
            "<dc:creator>"@ + escape_of(text::trimmed(author)) + "</dc:creator>\n"@,
        ),
{
    let n = chapters.len();
    let creator = super::creator_of(author);
    let id = identifier(chapters);
    let rest = super::PACKAGE_LANGUAGE@ + manifest_of(n) + super::PACKAGE_SPINE@ + spine_of(n)
        + super::PACKAGE_END@;
    let whole = package_of(title, author, chapters);
    reveal_strlit("</dc:identifier>\n<dc:title>");
    reveal_strlit("</dc:identifier>\n");
    reveal_strlit("<dc:title>");
    assert(super::PACKAGE_TITLE@ =~= "</dc:identifier>\n"@ + "<dc:title>"@);
    let named = "<dc:title>"@ + escape_of(title) + "</dc:title>\n"@;
    let before = super::PACKAGE_HEAD@ + id + "</dc:identifier>\n"@;
    package_named(before, escape_of(title), creator, rest, whole, super::PACKAGE_HEAD@ + id);
    held_inside(before, named, creator + rest);
    let so_far = super::PACKAGE_HEAD@ + id + super::PACKAGE_TITLE@ + escape_of(title)
        + "</dc:title>\n"@;
    held_inside(so_far, creator, rest);
    assert(whole =~= so_far + creator + rest);
}

proof fn package_named(
    before: Seq<char>,
    title: Seq<char>,
    creator: Seq<char>,
    rest: Seq<char>,
    whole: Seq<char>,
    start: Seq<char>,
)
    requires
        before == start + "</dc:identifier>\n"@,
        super::PACKAGE_TITLE@ == "</dc:identifier>\n"@ + "<dc:title>"@,
        whole =~= start + super::PACKAGE_TITLE@ + title + "</dc:title>\n"@ + creator + rest,
    ensures
        whole == before + ("<dc:title>"@ + title + "</dc:title>\n"@) + (creator + rest),
{
    assert(whole =~= before + ("<dc:title>"@ + title + "</dc:title>\n"@) + (creator + rest));
}

/// What a converted book is called: what the PDF says, if it says anything, and else its
/// first heading. It is never called nothing.
pub proof fn a_book_has_a_title(named: Option<Seq<char>>, blocks: Seq<BlockView>, i: int)
    ensures
        title_of(named, blocks).len() > 0,
        named matches Some(s) ==> text::trimmed(s).len() > 0 ==> title_of(named, blocks)
            == text::trimmed(s),
        (named matches Some(s) ==> text::trimmed(s).len() == 0) && 0 <= i < blocks.len() && (forall|
            j: int,
        |
            0 <= j < i ==> !(#[trigger] blocks[j] is Heading && says(blocks[j]))) ==> (
        blocks[i] matches BlockView::Heading(s) ==> text::trimmed(s).len() > 0 ==> title_of(
            named,
            blocks,
        ) == text::trimmed(s)),
{
    reveal_strlit("Untitled");
    headings_are_found(blocks, 0);
    if 0 <= i < blocks.len() && (forall|j: int|
        0 <= j < i ==> !(#[trigger] blocks[j] is Heading && says(blocks[j]))) {
        if let BlockView::Heading(s) = blocks[i] {
            if text::trimmed(s).len() > 0 {
                heading_is_first(blocks, 0, i);
            }
        }
    }
}

proof fn headings_are_found(blocks: Seq<BlockView>, from: int)
    ensures
        super::first_heading(blocks, from) matches Some(s) ==> s.len() > 0,
    decreases blocks.len() - from,
{
    if 0 <= from < blocks.len() {
        headings_are_found(blocks, from + 1);
    }
}

proof fn heading_is_first(blocks: Seq<BlockView>, from: int, i: int)
    requires
        0 <= from <= i < blocks.len(),
        blocks[i] is Heading,
        says(blocks[i]),
        forall|j: int| from <= j < i ==> !(#[trigger] blocks[j] is Heading && says(blocks[j])),
    ensures
        super::first_heading(blocks, from) == Some(text::trimmed(blocks[i]->Heading_0)),
    decreases i - from,
{
    if from < i {
        assert(!(blocks[from] is Heading && says(blocks[from])));
        heading_is_first(blocks, from + 1, i);
    }
}

} // verus!
