//! Whether a PDF could become an EPUB worth reading, decided before anything
//! is rewritten.
//!
//! A conversion that quietly produces scrambled text costs more than a refusal
//! does, because nobody finds out until they are away from their computer with
//! it. So every PDF is judged first, and the judgement is what the interface
//! acts on.
use crate::archive;
use crate::epub::{said, say};
use crate::text;
use crate::values::{Duplicate, Same};
use layout::{Block, BlockView};
use vstd::prelude::*;

pub mod figure;
pub mod laws;
pub mod layout;
pub mod write;

verus! {

broadcast use vstd::string::group_string_axioms;

/// Why a PDF would convert badly, or not at all.
#[derive(Clone, Copy, Debug, PartialEq, Eq, Structural)]
pub enum Concern {
    Protected,
    NoText,
    NothingFound,
    MostlyScanned,
    MixedColumns,
    NoChapters,
}

impl DeepView for Concern {
    type V = Concern;

    open spec fn deep_view(&self) -> Concern {
        *self
    }
}

impl Duplicate for Concern {
    fn duplicate(&self) -> (r: Concern) {
        *self
    }
}

impl Same for Concern {
    fn same(&self, other: &Concern) -> (r: bool) {
        *self == *other
    }
}

impl Concern {
    pub open spec fn words(self) -> Seq<char> {
        match self {
            Concern::Protected => "the PDF is password protected, so its pages cannot be read"@,
            Concern::NoText => "the pages are images with no text in them, which would need OCR"@,
            Concern::NothingFound => "no text could be found anywhere in this PDF"@,
            Concern::MostlyScanned => "most pages are scanned images rather than text"@,
            Concern::MixedColumns =>
                "some pages are in columns and some are not, so the order of those is a guess"@,
            Concern::NoChapters =>
                "the PDF has no outline, so the EPUB would have no chapters"@,
        }
    }

    pub fn describe(self) -> (r: &'static str)
        ensures
            r@ == self.words(),
    {
        match self {
            Concern::Protected => "the PDF is password protected, so its pages cannot be read",
            Concern::NoText => "the pages are images with no text in them, which would need OCR",
            Concern::NothingFound => "no text could be found anywhere in this PDF",
            Concern::MostlyScanned => "most pages are scanned images rather than text",
            Concern::MixedColumns =>
                "some pages are in columns and some are not, so the order of those is a guess",
            Concern::NoChapters => "the PDF has no outline, so the EPUB would have no chapters",
        }
    }
}

/// What converting this PDF would be worth.
#[derive(Clone, Debug, PartialEq, Eq)]
pub enum Verdict {
    /// One column of real text. An EPUB made from this reads like a book.
    Good,
    /// Worth offering, but something will come out wrong. Ask before doing it.
    Poor(Vec<Concern>),
    /// There is nothing here to convert.
    Impossible(Concern),
}

/// What a verdict says: its variants over sequences.
#[verifier::ext_equal]
pub enum VerdictView {
    Good,
    Poor(Seq<Concern>),
    Impossible(Concern),
}

impl View for Verdict {
    type V = VerdictView;

    open spec fn view(&self) -> VerdictView {
        match self {
            Verdict::Good => VerdictView::Good,
            Verdict::Poor(concerns) => VerdictView::Poor(concerns@),
            Verdict::Impossible(concern) => VerdictView::Impossible(*concern),
        }
    }
}

impl DeepView for Verdict {
    type V = VerdictView;

    open spec fn deep_view(&self) -> VerdictView {
        self@
    }
}

impl Duplicate for Verdict {
    fn duplicate(&self) -> (r: Verdict) {
        match self {
            Verdict::Good => Verdict::Good,
            Verdict::Poor(concerns) => Verdict::Poor(listed(concerns)),
            Verdict::Impossible(concern) => Verdict::Impossible(*concern),
        }
    }
}

impl Same for Verdict {
    fn same(&self, other: &Verdict) -> (r: bool) {
        proof {
            plain(self);
            plain(other);
        }
        match (self, other) {
            (Verdict::Good, Verdict::Good) => true,
            (Verdict::Poor(a), Verdict::Poor(b)) => a.same(b),
            (Verdict::Impossible(a), Verdict::Impossible(b)) => *a == *b,
            _ => false,
        }
    }
}

proof fn plain(verdict: &Verdict)
    ensures
        verdict matches Verdict::Poor(concerns) ==> concerns.deep_view() == concerns@,
{
    if let Verdict::Poor(concerns) = verdict {
        assert(concerns.deep_view() =~= concerns@);
    }
}

fn listed(concerns: &Vec<Concern>) -> (r: Vec<Concern>)
    ensures
        r@ == concerns@,
{
    let r = concerns.duplicate();
    proof {
        assert(concerns.deep_view() =~= concerns@);
        assert(r.deep_view() =~= r@);
    }
    r
}

/// Several concerns as one sentence.
pub open spec fn sentence(concerns: Seq<Concern>) -> Seq<char>
    decreases concerns.len(),
{
    if concerns.len() == 0 {
        Seq::empty()
    } else if concerns.len() == 1 {
        concerns[0].words()
    } else {
        sentence(concerns.drop_last()) + ", and "@ + concerns.last().words()
    }
}

impl VerdictView {
    pub open spec fn concerns(self) -> Seq<Concern> {
        match self {
            VerdictView::Good => Seq::empty(),
            VerdictView::Poor(concerns) => concerns,
            VerdictView::Impossible(concern) => seq![concern],
        }
    }

    pub open spec fn because(self) -> Seq<char> {
        sentence(self.concerns())
    }
}

impl Verdict {
    /// Everything standing in the way, for saying so in one line.
    pub fn concerns(&self) -> (r: Vec<Concern>)
        ensures
            r@ == self@.concerns(),
    {
        match self {
            Verdict::Good => Vec::new(),
            Verdict::Poor(concerns) => listed(concerns),
            Verdict::Impossible(concern) => vec![*concern],
        }
    }

    /// What the concerns add up to, as a sentence.
    pub fn because(&self) -> (r: String)
        ensures
            r@ == self@.because(),
    {
        let concerns = self.concerns();
        if concerns.len() == 0 {
            return String::new();
        }
        let mut out = concerns[0].describe().to_owned();
        let mut i: usize = 1;
        while i < concerns.len()
            invariant
                1 <= i <= concerns@.len(),
                out@ == sentence(concerns@.take(i as int)),
            decreases concerns@.len() - i,
        {
            out.push_str(", and ");
            out.push_str(concerns[i].describe());
            proof {
                assert(concerns@.take(i as int + 1).drop_last() =~= concerns@.take(i as int));
            }
            i += 1;
        }
        proof {
            assert(concerns@.take(concerns@.len() as int) =~= concerns@);
        }
        out
    }

    pub fn label(&self) -> (r: &'static str)
        ensures
            r@ == match self@ {
                VerdictView::Good => "convertible"@,
                VerdictView::Poor(_) => "converts poorly"@,
                VerdictView::Impossible(_) => "cannot be converted"@,
            },
    {
        match self {
            Verdict::Good => "convertible",
            Verdict::Poor(_) => "converts poorly",
            Verdict::Impossible(_) => "cannot be converted",
        }
    }
}

/// A page of a book has text on it; a running head and a page number do not
/// make a page. Below this a page counts as empty or scanned.
pub const TEXT_ON_A_PAGE: usize = 120;

/// Reading every page of a long document to guess its shape is waste; an even
/// sample across it says the same thing.
pub const SAMPLED_PAGES: usize = 40;

#[derive(Clone, Debug)]
pub struct Report {
    pub verdict: Verdict,
    pub pages: usize,
    /// Pages carrying enough text to be a page of a book.
    pub text_pages: usize,
    /// Pages showing something but holding no text of their own.
    pub image_pages: usize,
    /// Pages whose text starts in two separated bands across the width.
    pub column_pages: usize,
    pub outline: bool,
}

#[verifier::ext_equal]
pub struct ReportView {
    pub verdict: VerdictView,
    pub pages: nat,
    pub text_pages: nat,
    pub image_pages: nat,
    pub column_pages: nat,
    pub outline: bool,
}

impl View for Report {
    type V = ReportView;

    open spec fn view(&self) -> ReportView {
        ReportView {
            verdict: self.verdict@,
            pages: self.pages as nat,
            text_pages: self.text_pages as nat,
            image_pages: self.image_pages as nat,
            column_pages: self.column_pages as nat,
            outline: self.outline,
        }
    }
}

/// What one page shows: how many bytes of text, whether they stand in two
/// columns, and whether there is a picture.
#[derive(Clone, Copy, Debug, PartialEq, Eq, Structural)]
pub struct Page {
    pub bytes: usize,
    pub columns: bool,
    pub pictures: bool,
}

/// How many pages there are from one that is looked at to the next.
pub open spec fn stride(pages: nat) -> nat {
    if pages == 0 {
        1
    } else {
        (pages + SAMPLED_PAGES as nat - 1) as nat / SAMPLED_PAGES as nat
    }
}

/// How many pages there are from one that is looked at to the next.
pub fn sample_step(pages: usize) -> (r: usize)
    ensures
        r == stride(pages as nat),
        r >= 1,
{
    let whole: usize = pages / SAMPLED_PAGES;
    let step: usize = if pages % SAMPLED_PAGES == 0 {
        whole
    } else {
        whole + 1
    };
    if step == 0 {
        1
    } else {
        step
    }
}

/// Whether a page carries enough text to be a page of a book.
pub open spec fn is_text(page: Page) -> bool {
    page.bytes >= TEXT_ON_A_PAGE
}

pub open spec fn text_pages(pages: Seq<Page>) -> nat
    decreases pages.len(),
{
    if pages.len() == 0 {
        0
    } else {
        text_pages(pages.drop_last()) + if is_text(pages.last()) {
            1nat
        } else {
            0
        }
    }
}

pub open spec fn column_pages(pages: Seq<Page>) -> nat
    decreases pages.len(),
{
    if pages.len() == 0 {
        0
    } else {
        column_pages(pages.drop_last()) + if is_text(pages.last()) && pages.last().columns {
            1nat
        } else {
            0
        }
    }
}

pub open spec fn image_pages(pages: Seq<Page>) -> nat
    decreases pages.len(),
{
    if pages.len() == 0 {
        0
    } else {
        image_pages(pages.drop_last()) + if !is_text(pages.last()) && pages.last().pictures {
            1nat
        } else {
            0
        }
    }
}

/// Everything that would come out wrong. Columns are read one at a time, so a
/// document that is in columns throughout converts as well as one that is not.
/// A document that changes its mind page to page is where the split is least
/// certain.
pub open spec fn doubts(sampled: nat, texts: nat, columns: nat, outline: bool) -> Seq<Concern> {
    let scanned: Seq<Concern> = if 5 * texts < 3 * sampled {
        seq![Concern::MostlyScanned]
    } else {
        Seq::empty()
    };
    let mixed: Seq<Concern> = if 20 * columns >= 3 * texts && 20 * columns < 17 * texts {
        seq![Concern::MixedColumns]
    } else {
        Seq::empty()
    };
    let bare: Seq<Concern> = if !outline {
        seq![Concern::NoChapters]
    } else {
        Seq::empty()
    };
    scanned + mixed + bare
}

/// What converting a PDF would be worth, by what its pages show.
pub open spec fn judged(sampled: nat, texts: nat, images: nat, columns: nat, outline: bool) -> VerdictView {
    if texts == 0 {
        VerdictView::Impossible(
            if images > 0 {
                Concern::NoText
            } else {
                Concern::NothingFound
            },
        )
    } else if doubts(sampled, texts, columns, outline).len() == 0 {
        VerdictView::Good
    } else {
        VerdictView::Poor(doubts(sampled, texts, columns, outline))
    }
}

/// The report on a PDF of so many pages, some of which were looked at.
pub open spec fn reported(pages: nat, protected: bool, outline: bool, sampled: Seq<Page>) -> ReportView {
    if protected {
        ReportView {
            verdict: VerdictView::Impossible(Concern::Protected),
            pages,
            text_pages: 0,
            image_pages: 0,
            column_pages: 0,
            outline,
        }
    } else {
        ReportView {
            verdict: judged(
                sampled.len(),
                text_pages(sampled),
                image_pages(sampled),
                column_pages(sampled),
                outline,
            ),
            pages,
            text_pages: text_pages(sampled),
            image_pages: image_pages(sampled),
            column_pages: column_pages(sampled),
            outline,
        }
    }
}

fn judge(sampled: usize, texts: usize, images: usize, columns: usize, outline: bool) -> (r: Verdict)
    ensures
        r@ == judged(sampled as nat, texts as nat, images as nat, columns as nat, outline),
{
    if texts == 0 {
        return Verdict::Impossible(
            if images > 0 {
                Concern::NoText
            } else {
                Concern::NothingFound
            },
        );
    }
    let mut concerns: Vec<Concern> = Vec::new();
    if 5 * (texts as u128) < 3 * (sampled as u128) {
        concerns.push(Concern::MostlyScanned);
    }
    if 20 * (columns as u128) >= 3 * (texts as u128) && 20 * (columns as u128) < 17 * (
    texts as u128) {
        concerns.push(Concern::MixedColumns);
    }
    if !outline {
        concerns.push(Concern::NoChapters);
    }
    proof {
        assert(concerns@ =~= doubts(sampled as nat, texts as nat, columns as nat, outline));
    }
    if concerns.len() == 0 {
        Verdict::Good
    } else {
        Verdict::Poor(concerns)
    }
}

/// What a PDF is made of: how many pages, whether they are protected, and whether
/// there is an outline.
#[derive(Clone, Copy, Debug, PartialEq, Eq, Structural)]
pub struct Structure {
    pub pages: usize,
    pub protected: bool,
    pub outline: bool,
}

/// What is found of a PDF of some structure, from what the pages that were looked
/// at show.
pub open spec fn report_of(structure: Structure, sampled: Seq<Page>) -> ReportView {
    reported(structure.pages as nat, structure.protected, structure.outline, sampled)
}

/// Judge a PDF by its structure and by what the pages that were looked at show.
pub fn report(structure: Structure, sampled: &Vec<Page>) -> (r: Report)
    ensures
        r@ == report_of(structure, sampled@),
{
    let Structure { pages, protected, outline } = structure;
    let mut texts: usize = 0;
    let mut images: usize = 0;
    let mut columns: usize = 0;
    if protected {
        return Report {
            verdict: Verdict::Impossible(Concern::Protected),
            pages,
            text_pages: 0,
            image_pages: 0,
            column_pages: 0,
            outline,
        };
    }
    proof {
        assert(sampled@.take(0) =~= Seq::<Page>::empty());
    }
    for i in 0..sampled.len()
        invariant
            texts <= i,
            images <= i,
            columns <= i,
            texts == text_pages(sampled@.take(i as int)),
            images == image_pages(sampled@.take(i as int)),
            columns == column_pages(sampled@.take(i as int)),
    {
        proof {
            assert(sampled@.take(i as int + 1).drop_last() =~= sampled@.take(i as int));
        }
        if sampled[i].bytes >= TEXT_ON_A_PAGE {
            texts += 1;
            if sampled[i].columns {
                columns += 1;
            }
        } else if sampled[i].pictures {
            images += 1;
        }
    }
    proof {
        assert(sampled@.take(sampled@.len() as int) =~= sampled@);
    }
    Report {
        verdict: judge(sampled.len(), texts, images, columns, outline),
        pages,
        text_pages: texts,
        image_pages: images,
        column_pages: columns,
        outline,
    }
}

/// A PDF is called convertible exactly when nothing stands in the way, and what
/// stands in the way is always said.
pub proof fn verdicts_say_why(sampled: nat, texts: nat, images: nat, columns: nat, outline: bool)
    ensures
        ({
            let verdict = judged(sampled, texts, images, columns, outline);
            &&& verdict is Good <==> verdict.concerns().len() == 0
            &&& verdict is Impossible <==> texts == 0
        }),
{
}

/// A PDF that was read, `lopdf::Document`.
#[verifier::external_type_specification]
#[verifier::external_body]
pub struct ExDocument(lopdf::Document);

/// A dictionary of a PDF, `lopdf::Dictionary`.
#[verifier::external_type_specification]
#[verifier::external_body]
pub struct ExDictionary(lopdf::Dictionary);

/// An object of a PDF, `lopdf::Object`.
#[verifier::external_type_specification]
#[verifier::external_body]
pub struct ExObject(lopdf::Object);

/// Whether `lopdf::Document::load_mem` may read these bytes as this document. For a
/// protected file it goes through a hash map, whose order differs from run to run,
/// so that there may be more than one.
pub uninterp spec fn reads_as(data: Seq<u8>, document: lopdf::Document) -> bool;

/// Whether `lopdf::Document::load_mem` may refuse these bytes in these words.
pub uninterp spec fn refused_as(data: Seq<u8>, words: Seq<char>) -> bool;

/// `lopdf::Document::load_mem`. What it reads, and what it says where it cannot, is
/// related to the bytes it is given; which of the documents they may be read as is
/// left open.
#[verifier::external_body]
pub(crate) fn load(data: &[u8]) -> (r: Result<lopdf::Document, String>)
    ensures
        match r {
            Ok(document) => reads_as(data@, document),
            Err(words) => refused_as(data@, words@),
        },
{
    lopdf::Document::load_mem(data).map_err(|e| e.to_string())
}

/// How many pages `lopdf::Document::get_pages` finds.
pub uninterp spec fn page_count(document: lopdf::Document) -> usize;

/// `lopdf::Document::get_pages`, counted; the number is named.
#[verifier::external_body]
pub(crate) fn count_pages(document: &lopdf::Document) -> (r: usize)
    ensures
        r == page_count(*document),
{
    document.get_pages().len()
}

/// The trailer of a PDF.
pub uninterp spec fn trailer_of(document: lopdf::Document) -> lopdf::Dictionary;

/// The `trailer` of a `lopdf::Document`, named.
#[verifier::external_body]
pub(crate) fn trailer(document: &lopdf::Document) -> (r: &lopdf::Dictionary)
    ensures
        *r == trailer_of(*document),
{
    &document.trailer
}

/// The catalog of a PDF, where it has one.
pub uninterp spec fn catalog_of(document: lopdf::Document) -> Option<lopdf::Dictionary>;

/// `lopdf::Document::catalog`; its result is named.
#[verifier::external_body]
pub(crate) fn catalog(document: &lopdf::Document) -> (r: Option<&lopdf::Dictionary>)
    ensures
        match r {
            Some(found) => catalog_of(*document) == Some(*found),
            None => catalog_of(*document) is None,
        },
{
    document.catalog().ok()
}

/// What a dictionary holds under a key.
pub uninterp spec fn entry_of(dictionary: lopdf::Dictionary, key: Seq<char>) -> Option<lopdf::Object>;

/// `lopdf::Dictionary::get`; its result is named.
#[verifier::external_body]
pub(crate) fn entry<'a>(dictionary: &'a lopdf::Dictionary, key: &str) -> (r: Option<
    &'a lopdf::Object,
>)
    ensures
        match r {
            Some(found) => entry_of(*dictionary, key@) == Some(*found),
            None => entry_of(*dictionary, key@) is None,
        },
{
    dictionary.get(key.as_bytes()).ok()
}

/// What an object leads to, when it is a reference, and itself otherwise.
pub uninterp spec fn target_of(document: lopdf::Document, object: lopdf::Object) -> Option<
    lopdf::Object,
>;

/// `lopdf::Document::dereference`; the object it gives is named.
#[verifier::external_body]
pub(crate) fn target<'a>(document: &'a lopdf::Document, object: &'a lopdf::Object) -> (r: Option<
    &'a lopdf::Object,
>)
    ensures
        match r {
            Some(found) => target_of(*document, *object) == Some(*found),
            None => target_of(*document, *object) is None,
        },
{
    document.dereference(object).ok().map(|(_, found)| found)
}

/// The dictionary an object is, if it is one.
pub uninterp spec fn dictionary_of(object: lopdf::Object) -> Option<lopdf::Dictionary>;

/// `lopdf::Object::as_dict`; its result is named.
#[verifier::external_body]
pub(crate) fn dictionary(object: &lopdf::Object) -> (r: Option<&lopdf::Dictionary>)
    ensures
        match r {
            Some(found) => dictionary_of(*object) == Some(*found),
            None => dictionary_of(*object) is None,
        },
{
    object.as_dict().ok()
}

/// The bytes of the string an object is, if it is one.
pub uninterp spec fn string_of(object: lopdf::Object) -> Option<Seq<u8>>;

/// `lopdf::Object::as_str`; its result is named.
#[verifier::external_body]
pub(crate) fn string(object: &lopdf::Object) -> (r: Option<Vec<u8>>)
    ensures
        bytes_option(r) == string_of(*object),
{
    object.as_str().ok().map(Vec::from)
}

/// Bytes that may be missing, read as what they are.
pub open spec fn bytes_option(bytes: Option<Vec<u8>>) -> Option<Seq<u8>> {
    match bytes {
        Some(bytes) => Some(bytes@),
        None => None,
    }
}

/// The dictionary that an entry of another leads to.
pub open spec fn below(
    document: lopdf::Document,
    dictionary: lopdf::Dictionary,
    key: Seq<char>,
) -> Option<lopdf::Dictionary> {
    match entry_of(dictionary, key) {
        None => None,
        Some(object) => match target_of(document, object) {
            None => None,
            Some(object) => dictionary_of(object),
        },
    }
}

fn find_below<'a>(
    document: &'a lopdf::Document,
    from: &'a lopdf::Dictionary,
    key: &str,
) -> (r: Option<&'a lopdf::Dictionary>)
    ensures
        match r {
            Some(found) => below(*document, *from, key@) == Some(*found),
            None => below(*document, *from, key@) is None,
        },
{
    match entry(from, key) {
        None => None,
        Some(object) => match target(document, object) {
            None => None,
            Some(object) => dictionary(object),
        },
    }
}

/// The structure of a PDF that was read. One with an `Encrypt` entry in its trailer
/// is protected; one whose catalog leads to outlines that have a first one has an
/// outline.
pub open spec fn structure_of(document: lopdf::Document) -> Structure {
    Structure {
        pages: page_count(document),
        protected: entry_of(trailer_of(document), "Encrypt"@) is Some,
        outline: match catalog_of(document) {
            None => false,
            Some(catalog) => match below(
                document,
                catalog,
                "Outlines"@,
            ) {
                None => false,
                Some(outlines) => entry_of(outlines, "First"@) is Some,
            },
        },
    }
}

fn read_structure(document: &lopdf::Document) -> (r: Structure)
    ensures
        r == structure_of(*document),
{
    let protected = entry(trailer(document), "Encrypt").is_some();
    let outline = match catalog(document) {
        None => false,
        Some(root) => match find_below(document, root, "Outlines") {
            None => false,
            Some(outlines) => entry(outlines, "First").is_some(),
        },
    };
    Structure { pages: count_pages(document), protected, outline }
}

/// What is said of a file that cannot be read.
pub open spec fn unread(reason: Seq<char>) -> Seq<char> {
    "This file could not be read as a PDF: "@ + reason
}

/// Whether these bytes were judged by the structure of a document that they read as,
/// or refused in the words they are refused in.
pub open spec fn inspected(
    data: Seq<u8>,
    sampled: Seq<Page>,
    result: Result<ReportView, Seq<char>>,
) -> bool {
    match result {
        Ok(report) => exists|document: lopdf::Document| #[trigger]
            reads_as(data, document) && report == report_of(structure_of(document), sampled),
        Err(words) => exists|reason: Seq<char>| #[trigger]
            refused_as(data, reason) && words == unread(reason),
    }
}

/// Judge a PDF by what the pages that were looked at show. How it is read is left
/// to its parser.
pub fn inspect(data: &[u8], sampled: &Vec<Page>) -> (r: Result<Report, String>)
    ensures
        inspected(
            data@,
            sampled@,
            match r {
                Ok(report) => Ok(report@),
                Err(words) => Err(words@),
            },
        ),
{
    match load(data) {
        Err(words) => {
            let said = text::concat("This file could not be read as a PDF: ", words.as_str());
            proof {
                assert(refused_as(data@, words@));
            }
            Err(said)
        },
        Ok(document) => {
            let structure = read_structure(&document);
            let r = report(structure, sampled);
            proof {
                assert(reads_as(data@, document));
            }
            Ok(r)
        },
    }
}

/// Who wrote a PDF and what it is called, when it has been filled in at all.
#[derive(Clone, Debug, PartialEq, Eq)]
pub struct Info {
    pub title: Option<String>,
    pub author: Option<String>,
}

#[verifier::ext_equal]
pub struct InfoView {
    pub title: Option<Seq<char>>,
    pub author: Option<Seq<char>>,
}

impl View for Info {
    type V = InfoView;

    open spec fn view(&self) -> InfoView {
        InfoView { title: self.title.deep_view(), author: self.author.deep_view() }
    }
}

/// What some bytes say: nothing where they are no text, or a blank one.
pub open spec fn filled_in(bytes: Option<Seq<u8>>) -> Option<Seq<char>> {
    match bytes {
        Some(bytes) => match text::decoded(bytes) {
            Ok(s) => said(s),
            Err(_) => None,
        },
        None => None,
    }
}

fn fill_in(bytes: &Option<Vec<u8>>) -> (r: Option<String>)
    ensures
        r.deep_view() == filled_in(bytes_option(*bytes)),
{
    match bytes {
        Some(bytes) => match text::decode(bytes.as_slice()) {
            Ok(s) => say(s.as_str()),
            Err(_) => None,
        },
        None => None,
    }
}

/// What a PDF says of itself, from the bytes of its title and its author; an empty
/// field says nothing.
pub open spec fn info_from(title: Option<Seq<u8>>, author: Option<Seq<u8>>) -> InfoView {
    InfoView { title: filled_in(title), author: filled_in(author) }
}

pub fn read_info(title: &Option<Vec<u8>>, author: &Option<Vec<u8>>) -> (r: Info)
    ensures
        r@ == info_from(bytes_option(*title), bytes_option(*author)),
{
    Info { title: fill_in(title), author: fill_in(author) }
}

/// The bytes of a string in the dictionary that the trailer's `Info` leads to.
pub open spec fn information(document: lopdf::Document, key: Seq<char>) -> Option<Seq<u8>> {
    match below(document, trailer_of(document), "Info"@) {
        None => None,
        Some(found) => match entry_of(found, key) {
            None => None,
            Some(object) => string_of(object),
        },
    }
}

fn find_information(document: &lopdf::Document, key: &str) -> (r: Option<Vec<u8>>)
    ensures
        bytes_option(r) == information(*document, key@),
{
    match find_below(document, trailer(document), "Info") {
        None => None,
        Some(found) => match entry(found, key) {
            None => None,
            Some(object) => string(object),
        },
    }
}

/// What a PDF that was read says of itself.
pub open spec fn info_of(document: lopdf::Document) -> InfoView {
    info_from(information(document, "Title"@), information(document, "Author"@))
}

/// Whether this is what these bytes say of themselves: what a document that they read
/// as says, or nothing where they are refused.
pub open spec fn told(data: Seq<u8>, info: InfoView) -> bool {
    ||| exists|document: lopdf::Document| #[trigger]
        reads_as(data, document) && info == info_of(document)
    ||| exists|reason: Seq<char>| #[trigger]
        refused_as(data, reason) && info == info_from(None, None)
}

/// What a PDF says of itself. How it is read is left to its parser.
pub fn info(data: &[u8]) -> (r: Info)
    ensures
        told(data@, r@),
{
    match load(data) {
        Ok(document) => {
            let title = find_information(&document, "Title");
            let author = find_information(&document, "Author");
            let r = read_info(&title, &author);
            proof {
                assert(reads_as(data@, document) && r@ == info_of(document));
            }
            r
        },
        Err(words) => {
            let r = read_info(&None, &None);
            proof {
                assert(refused_as(data@, words@));
            }
            r
        },
    }
}

/// Whether anything readable came out of a PDF: a paragraph of some length.
pub open spec fn is_readable(blocks: Seq<BlockView>) -> bool {
    exists|i: int|
        0 <= i < blocks.len() && #[trigger] blocks[i] is Paragraph && vstd::utf8::encode_utf8(
            blocks[i]->Paragraph_0,
        ).len() > 40
}

fn has_prose(blocks: &Vec<Block>) -> (r: bool)
    ensures
        r == is_readable(blocks.deep_view()),
{
    let ghost all = blocks.deep_view();
    for i in 0..blocks.len()
        invariant
            all == blocks.deep_view(),
            forall|j: int|
                0 <= j < i ==> !(#[trigger] all[j] is Paragraph && vstd::utf8::encode_utf8(
                    all[j]->Paragraph_0,
                ).len() > 40),
    {
        assert(all[i as int] == blocks@[i as int]@);
        if let Block::Paragraph(s) = &blocks[i] {
            if s.as_str().as_bytes().len() > 40 {
                assert(all[i as int] is Paragraph);
                return true;
            }
        }
    }
    false
}

/// Why a PDF is not converted.
pub open spec fn conversion_problem(verdict: VerdictView, blocks: Seq<BlockView>) -> Option<
    Seq<char>,
> {
    match verdict {
        VerdictView::Impossible(concern) => Some("Cannot convert this PDF: "@ + concern.words()),
        _ => if is_readable(blocks) {
            None
        } else {
            Some("Nothing readable came out of this PDF; it was not converted"@)
        },
    }
}

/// The members of the EPUB that a PDF is converted to.
pub open spec fn converted(info: InfoView, blocks: Seq<BlockView>) -> Seq<archive::PackedView> {
    archive::packed_all(
        write::book_of(
            write::title_of(info.title, blocks),
            match info.author {
                Some(author) => author,
                None => Seq::empty(),
            },
            blocks,
        ),
    )
}

/// Make an EPUB of what was read of a PDF, refusing one there is nothing to convert
/// from. The blocks are what its pages read as.
pub fn make(verdict: &Verdict, info: &Info, blocks: &Vec<Block>) -> (r: Result<Vec<u8>, String>)
    ensures
        match (r, conversion_problem(verdict@, blocks.deep_view())) {
            (Ok(data), None) => archive::holds(data@, converted(info@, blocks.deep_view())),
            (Ok(_), Some(_)) => false,
            (Err(words), Some(wanted)) => words@ == wanted,
            (Err(_), None) => !archive::packable(converted(info@, blocks.deep_view())),
        },
{
    if let Verdict::Impossible(concern) = verdict {
        return Err(text::concat("Cannot convert this PDF: ", concern.describe()));
    }
    if !has_prose(blocks) {
        return Err("Nothing readable came out of this PDF; it was not converted".to_owned());
    }
    let title = write::title(&info.title, blocks);
    let author = match &info.author {
        Some(author) => author.duplicate(),
        None => {
            let none = String::new();
            assert(none@ =~= Seq::<char>::empty());
            none
        },
    };
    write::epub(title.as_str(), author.as_str(), blocks)
}

/// Whether these bytes were converted by what was read of them, or refused for a
/// reason that they give.
pub open spec fn converted_from(
    data: Seq<u8>,
    sampled: Seq<Page>,
    blocks: Seq<BlockView>,
    result: Result<(Seq<u8>, VerdictView), Seq<char>>,
) -> bool {
    match result {
        Ok((made, verdict)) => {
            &&& conversion_problem(verdict, blocks) is None
            &&& exists|document: lopdf::Document| #[trigger]
                reads_as(data, document) && verdict == report_of(
                    structure_of(document),
                    sampled,
                ).verdict
            &&& exists|info: InfoView| #[trigger]
                told(data, info) && archive::holds(made, converted(info, blocks))
        },
        Err(words) => {
            ||| exists|reason: Seq<char>| #[trigger]
                refused_as(data, reason) && words == unread(reason)
            ||| exists|document: lopdf::Document| #[trigger]
                reads_as(data, document) && match conversion_problem(
                    report_of(structure_of(document), sampled).verdict,
                    blocks,
                ) {
                    Some(wanted) => words == wanted,
                    None => exists|info: InfoView| #[trigger]
                        told(data, info) && !archive::packable(converted(info, blocks)),
                }
        },
    }
}

/// Convert a PDF into an EPUB, refusing one there is nothing to convert from. The
/// verdict is given with the book, so that it can be said what it is worth before
/// anyone reads it. Nothing here touches the PDF: the EPUB is a new file that
/// stands beside it.
pub fn convert(data: &[u8], sampled: &Vec<Page>, blocks: &Vec<Block>) -> (r: Result<
    (Vec<u8>, Verdict),
    String,
>)
    ensures
        converted_from(
            data@,
            sampled@,
            blocks.deep_view(),
            match r {
                Ok((bytes, verdict)) => Ok((bytes@, verdict@)),
                Err(words) => Err(words@),
            },
        ),
{
    let report = match inspect(data, sampled) {
        Ok(report) => report,
        Err(words) => return Err(words),
    };
    let ghost document = choose|document: lopdf::Document| #[trigger]
        reads_as(data@, document) && report@ == report_of(structure_of(document), sampled@);
    let told = info(data);
    assert(reads_as(data@, document));
    match make(&report.verdict, &told, blocks) {
        Ok(bytes) => Ok((bytes, report.verdict)),
        Err(words) => Err(words),
    }
}

} // verus!
