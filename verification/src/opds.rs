//! OPDS 1.2 catalogues: what a feed offers, and what becomes of it.
//!
//! Only reading is done. What a feed offers is reported exactly as the feed
//! states it, including the parts that cannot be opened.
use crate::format::Format;
use crate::paths;
use crate::text;
use vstd::prelude::*;

pub mod feed;
pub mod laws;

verus! {

broadcast use vstd::string::group_string_axioms;

/// The Digital Public Library of America's open collection, served through the
/// Palace Project. It needs no library card, and every book in it is open
/// access, which makes it the one catalogue that can be used as it is found.
pub const BOOKSHELF: &'static str = "https://dpla.thepalaceproject.org/bookshelf/";

pub const ACQUISITION: &'static str = "http://opds-spec.org/acquisition";

/// Feeds are text and stay small; a book does not go through this path.
pub const MAX_FEED: usize = 8388608;

/// What a catalogue is willing to do with an entry. OPDS spells these as
/// `rel` suffixes of the acquisition relation.
#[derive(Clone, Copy, Debug, PartialEq, Eq, Structural)]
pub enum Kind {
    /// Free to take, with no loan and no DRM.
    OpenAccess,
    /// A loan. Needs a card, and delivers through whatever DRM follows.
    Borrow,
    Buy,
    Sample,
    Subscribe,
    /// The acquisition relation with no suffix: a plain download.
    Direct,
}

impl Kind {
    /// What stands for a kind behind the acquisition relation.
    pub open spec fn suffix(self) -> Seq<char> {
        match self {
            Kind::Direct => ""@,
            Kind::OpenAccess => "/open-access"@,
            Kind::Borrow => "/borrow"@,
            Kind::Buy => "/buy"@,
            Kind::Sample => "/sample"@,
            Kind::Subscribe => "/subscribe"@,
        }
    }

    /// The relation of a kind.
    pub open spec fn relation(self) -> Seq<char> {
        ACQUISITION@ + self.suffix()
    }

    pub open spec fn name(self) -> Seq<char> {
        match self {
            Kind::OpenAccess => "free"@,
            Kind::Borrow => "borrow"@,
            Kind::Buy => "buy"@,
            Kind::Sample => "sample"@,
            Kind::Subscribe => "subscribe"@,
            Kind::Direct => "download"@,
        }
    }

    /// The kind of a relation, if it is one of acquisition.
    pub fn of(rel: &str) -> (r: Option<Kind>)
        ensures
            match r {
                Some(kind) => rel@ == kind.relation(),
                None => forall|kind: Kind| rel@ != #[trigger] kind.relation(),
            },
    {
        let c = text::chars(rel);
        let prefix = text::chars(ACQUISITION);
        if !text::is_at(c.as_slice(), prefix.as_slice(), 0) {
            proof {
                assert forall|kind: Kind| rel@ != #[trigger] kind.relation() by {
                    if rel@ == kind.relation() {
                        assert(rel@.subrange(0, prefix@.len() as int) =~= prefix@);
                    }
                }
            }
            return None;
        }
        let rest = text::slice(c.as_slice(), prefix.len(), c.len());
        proof {
            assert(rel@ =~= ACQUISITION@ + rest@);
            assert forall|kind: Kind| rel@ == #[trigger] kind.relation() implies rest@
                == kind.suffix() by {
                assert(rest@ =~= kind.relation().skip(prefix@.len() as int));
                assert(kind.relation().skip(prefix@.len() as int) =~= kind.suffix());
            }
        }
        let rest = rest.as_str();
        if text::same(rest, "") {
            Some(Kind::Direct)
        } else if text::same(rest, "/open-access") {
            Some(Kind::OpenAccess)
        } else if text::same(rest, "/borrow") {
            Some(Kind::Borrow)
        } else if text::same(rest, "/buy") {
            Some(Kind::Buy)
        } else if text::same(rest, "/sample") {
            Some(Kind::Sample)
        } else if text::same(rest, "/subscribe") {
            Some(Kind::Subscribe)
        } else {
            None
        }
    }

    pub fn label(self) -> (r: &'static str)
        ensures
            r@ == self.name(),
    {
        match self {
            Kind::OpenAccess => "free",
            Kind::Borrow => "borrow",
            Kind::Buy => "buy",
            Kind::Sample => "sample",
            Kind::Subscribe => "subscribe",
            Kind::Direct => "download",
        }
    }
}

/// What actually arrives if an offer is followed to its end.
#[derive(Clone, Debug, PartialEq, Eq)]
pub enum Delivery {
    /// A file this program reads, straight from the link.
    Book(Format),
    /// An Adobe fulfillment token wrapping a book, which an existing activation
    /// turns into one.
    Acsm(Format),
    /// Understood, and refused with the reason rather than attempted.
    Unsupported(&'static str),
}

#[verifier::ext_equal]
pub enum DeliveryView {
    Book(Format),
    Acsm(Format),
    Unsupported(Seq<char>),
}

impl View for Delivery {
    type V = DeliveryView;

    open spec fn view(&self) -> DeliveryView {
        match self {
            Delivery::Book(format) => DeliveryView::Book(*format),
            Delivery::Acsm(format) => DeliveryView::Acsm(*format),
            Delivery::Unsupported(why) => DeliveryView::Unsupported(why@),
        }
    }
}

impl DeepView for Delivery {
    type V = DeliveryView;

    open spec fn deep_view(&self) -> DeliveryView {
        self@
    }
}

impl Delivery {
    pub fn available(&self) -> (r: bool)
        ensures
            r == !(self@ is Unsupported),
    {
        !matches!(self, Delivery::Unsupported(_))
    }

    pub fn label(&self) -> (r: String)
        ensures
            r@ == match self@ {
                DeliveryView::Book(format) => format.name(),
                DeliveryView::Acsm(format) => format.name() + " via Adobe DRM"@,
                DeliveryView::Unsupported(why) => why,
            },
    {
        match self {
            Delivery::Book(format) => format.label().to_owned(),
            Delivery::Acsm(format) => text::concat(format.label(), " via Adobe DRM"),
            Delivery::Unsupported(why) => (*why).to_owned(),
        }
    }
}

/// A media type without its parameters, which matter only for telling streaming
/// HTML apart from HTML.
pub open spec fn base_of(media_type: Seq<char>) -> Seq<char> {
    paths::bare(text::trimmed(media_type.take(text::index_from(media_type, ';', 0))))
}

pub fn base_type(media_type: &str) -> (r: String)
    ensures
        r@ == base_of(media_type@),
{
    let c = text::chars(media_type);
    let end = text::find_char(c.as_slice(), ';', 0);
    let head = text::slice(c.as_slice(), 0, end);
    proof {
        assert(c@.subrange(0, end as int) =~= c@.take(end as int));
    }
    paths::trim_slashes(text::trim(head.as_str()).as_str())
}

/// The format of a media type that this program reads.
pub open spec fn format_of(media_type: Seq<char>) -> Option<Format> {
    let base = base_of(media_type);
    if base == "application/epub+zip"@ {
        Some(Format::Epub)
    } else if base == "application/pdf"@ {
        Some(Format::Pdf)
    } else if base == "application/vnd.comicbook+zip"@ || base == "application/x-cbz"@ {
        Some(Format::Cbz)
    } else {
        None
    }
}

/// Media types named in a feed, mapped to what this program can do with them.
/// Anything not listed is reported by its own media type rather than guessed
/// at.
pub fn readable(media_type: &str) -> (r: Option<Format>)
    ensures
        r == format_of(media_type@),
{
    let base = base_type(media_type);
    let base = base.as_str();
    if text::same(base, "application/epub+zip") {
        Some(Format::Epub)
    } else if text::same(base, "application/pdf") {
        Some(Format::Pdf)
    } else if text::same(base, "application/vnd.comicbook+zip") || text::same(
        base,
        "application/x-cbz",
    ) {
        Some(Format::Cbz)
    } else {
        None
    }
}

/// Why a media type is not taken.
pub open spec fn refusal_of(media_type: Seq<char>) -> Seq<char> {
    let base = base_of(media_type);
    if base == "application/vnd.readium.lcp.license.v1.0+json"@ || base
        == "application/audiobook+lcp"@ {
        "Readium LCP, which this program cannot open"@
    } else if base == "application/vnd.overdrive.circulation.api+json"@ || base
        == "application/audiobook+json"@ {
        "an audiobook"@
    } else if base == "text/html"@ {
        "a reader in a browser, not a file"@
    } else if base == "application/vnd.librarysimplified.bearer-token+json"@ {
        "a bearer-token handover"@
    } else {
        "a format this program does not read"@
    }
}

pub fn refusal(media_type: &str) -> (r: &'static str)
    ensures
        r@ == refusal_of(media_type@),
{
    let base = base_type(media_type);
    let base = base.as_str();
    if text::same(base, "application/vnd.readium.lcp.license.v1.0+json") || text::same(
        base,
        "application/audiobook+lcp",
    ) {
        "Readium LCP, which this program cannot open"
    } else if text::same(base, "application/vnd.overdrive.circulation.api+json") || text::same(
        base,
        "application/audiobook+json",
    ) {
        "an audiobook"
    } else if text::same(base, "text/html") {
        "a reader in a browser, not a file"
    } else if text::same(base, "application/vnd.librarysimplified.bearer-token+json") {
        "a bearer-token handover"
    } else {
        "a format this program does not read"
    }
}

/// One step of a DRM chain, as `opds:indirectAcquisition` nests them. A
/// borrow link says nothing about its own media type; the chain underneath it
/// is where a library declares that borrowing yields an ACSM yielding an EPUB.
#[derive(Debug)]
pub struct Indirect {
    pub media_type: String,
    pub inner: Vec<Indirect>,
}

pub struct IndirectView {
    pub media_type: Seq<char>,
    pub inner: Seq<IndirectView>,
}

/// A step of a chain read as what it means.
pub open spec fn step_view(step: Indirect) -> IndirectView
    decreases step,
{
    IndirectView {
        media_type: step.media_type@,
        inner: Seq::new(
            step.inner@.len(),
            |i: int|
                if 0 <= i < step.inner@.len() {
                    step_view(step.inner[i])
                } else {
                    arbitrary()
                },
        ),
    }
}

impl DeepView for Indirect {
    type V = IndirectView;

    open spec fn deep_view(&self) -> IndirectView {
        step_view(*self)
    }
}

proof fn step_view_is(step: Indirect)
    ensures
        step.deep_view().media_type == step.media_type@,
        step.deep_view().inner == step.inner.deep_view(),
{
    assert(step.deep_view().inner =~= step.inner.deep_view());
}

/// The first format read among some steps.
pub open spec fn first_format(steps: Seq<IndirectView>, from: int) -> Option<Format>
    decreases steps.len() - from,
{
    if from < 0 || from >= steps.len() {
        None
    } else {
        match format_of(steps[from].media_type) {
            Some(format) => Some(format),
            None => first_format(steps, from + 1),
        }
    }
}

fn find_format(steps: &Vec<Indirect>) -> (r: Option<Format>)
    ensures
        r == first_format(steps.deep_view(), 0),
{
    for i in 0..steps.len()
        invariant
            first_format(steps.deep_view(), 0) == first_format(steps.deep_view(), i as int),
    {
        proof {
            step_view_is(steps@[i as int]);
            assert(steps.deep_view()[i as int] == steps@[i as int].deep_view());
        }
        if let Some(format) = readable(steps[i].media_type.as_str()) {
            return Some(format);
        }
    }
    None
}

pub open spec fn or_epub(format: Option<Format>) -> Format {
    match format {
        Some(format) => format,
        None => Format::Epub,
    }
}

/// Whether a media type is that of an Adobe fulfillment token.
pub open spec fn is_token(media_type: Seq<char>) -> bool {
    base_of(media_type) == "application/vnd.adobe.adept+xml"@
}

/// Whether a media type is that of an entry document, which only carries a
/// chain onwards.
pub open spec fn is_entry(media_type: Seq<char>) -> bool {
    base_of(media_type) == "application/atom+xml"@
}

/// The best ending that the steps from `from` on reach, when a token wrapping
/// `token` was met before them. A token is preferred over nothing but never
/// over a file that can be taken directly.
pub open spec fn best_from(steps: Seq<IndirectView>, from: int, token: Option<Format>) -> Option<
    DeliveryView,
>
    decreases steps, steps.len() - from,
{
    if from < 0 || from >= steps.len() {
        match token {
            Some(format) => Some(DeliveryView::Acsm(format)),
            None => None,
        }
    } else {
        let step = steps[from];
        match format_of(step.media_type) {
            Some(format) => Some(DeliveryView::Book(format)),
            None => if is_token(step.media_type) {
                best_from(
                    steps,
                    from + 1,
                    if token is Some {
                        token
                    } else {
                        Some(or_epub(first_format(step.inner, 0)))
                    },
                )
            } else if is_entry(step.media_type) {
                match best_from(step.inner, 0, None) {
                    Some(DeliveryView::Book(format)) => Some(DeliveryView::Book(format)),
                    Some(DeliveryView::Acsm(format)) => best_from(
                        steps,
                        from + 1,
                        if token is Some {
                            token
                        } else {
                            Some(format)
                        },
                    ),
                    _ => best_from(steps, from + 1, token),
                }
            } else {
                best_from(steps, from + 1, token)
            },
        }
    }
}

/// Walk the declared chain and take the best ending it reaches.
fn best(steps: &Vec<Indirect>) -> (r: Option<Delivery>)
    ensures
        r.deep_view() == best_from(steps.deep_view(), 0, None),
    decreases steps.deep_view(),
{
    let ghost all = steps.deep_view();
    let mut token: Option<Format> = None;
    for i in 0..steps.len()
        invariant
            all == steps.deep_view(),
            best_from(all, 0, None) == best_from(all, i as int, token),
    {
        let step = &steps[i];
        proof {
            step_view_is(*step);
            assert(all[i as int] == step.deep_view());
        }
        if let Some(format) = readable(step.media_type.as_str()) {
            return Some(Delivery::Book(format));
        }
        let base = base_type(step.media_type.as_str());
        if text::same(base.as_str(), "application/vnd.adobe.adept+xml") {
            if token.is_none() {
                token = Some(
                    match find_format(&step.inner) {
                        Some(format) => format,
                        None => Format::Epub,
                    },
                );
            }
        } else if text::same(base.as_str(), "application/atom+xml") {
            match best(&step.inner) {
                Some(Delivery::Book(format)) => return Some(Delivery::Book(format)),
                Some(Delivery::Acsm(format)) => {
                    if token.is_none() {
                        token = Some(format);
                    }
                },
                _ => {},
            }
        }
    }
    match token {
        Some(format) => Some(Delivery::Acsm(format)),
        None => None,
    }
}

/// The first type at the end of the chain from `from` on, skipping the entry
/// documents that only carry the chain onwards.
pub open spec fn leaf_from(steps: Seq<IndirectView>, from: int) -> Option<Seq<char>>
    decreases steps, steps.len() - from,
{
    if from < 0 || from >= steps.len() {
        None
    } else if is_entry(steps[from].media_type) {
        match leaf_from(steps[from].inner, 0) {
            Some(found) => Some(found),
            None => leaf_from(steps, from + 1),
        }
    } else {
        Some(steps[from].media_type)
    }
}

fn leaf(steps: &Vec<Indirect>) -> (r: Option<String>)
    ensures
        r.deep_view() == leaf_from(steps.deep_view(), 0),
    decreases steps.deep_view(),
{
    let ghost all = steps.deep_view();
    for i in 0..steps.len()
        invariant
            all == steps.deep_view(),
            leaf_from(all, 0) == leaf_from(all, i as int),
    {
        let step = &steps[i];
        proof {
            step_view_is(*step);
            assert(all[i as int] == step.deep_view());
        }
        let base = base_type(step.media_type.as_str());
        if text::same(base.as_str(), "application/atom+xml") {
            if let Some(found) = leaf(&step.inner) {
                return Some(found);
            }
        } else {
            return Some(step.media_type.as_str().to_owned());
        }
    }
    None
}

#[derive(Debug)]
pub struct Offer {
    pub kind: Kind,
    pub href: String,
    pub media_type: String,
    /// Free text distinguishing several links of one media type. Catalogues
    /// word it their own way, so it is shown and never matched on.
    pub title: Option<String>,
    /// Only some catalogues give it, so a size can never be required before
    /// downloading.
    pub length: Option<u64>,
    pub indirect: Vec<Indirect>,
    pub availability: Option<String>,
}

#[verifier::ext_equal]
pub struct OfferView {
    pub kind: Kind,
    pub href: Seq<char>,
    pub media_type: Seq<char>,
    pub title: Option<Seq<char>>,
    pub length: Option<u64>,
    pub indirect: Seq<IndirectView>,
    pub availability: Option<Seq<char>>,
}

impl View for Offer {
    type V = OfferView;

    open spec fn view(&self) -> OfferView {
        OfferView {
            kind: self.kind,
            href: self.href@,
            media_type: self.media_type@,
            title: self.title.deep_view(),
            length: self.length,
            indirect: self.indirect.deep_view(),
            availability: self.availability.deep_view(),
        }
    }
}

impl DeepView for Offer {
    type V = OfferView;

    open spec fn deep_view(&self) -> OfferView {
        self@
    }
}

impl OfferView {
    /// A direct link is followed as it stands. Otherwise the chain decides,
    /// and only a chain that can be walked to the end counts as deliverable.
    pub open spec fn delivery(self) -> DeliveryView {
        match format_of(self.media_type) {
            Some(format) => DeliveryView::Book(format),
            None => if is_token(self.media_type) {
                DeliveryView::Acsm(or_epub(first_format(self.indirect, 0)))
            } else {
                match best_from(self.indirect, 0, None) {
                    Some(found) => found,
                    None => DeliveryView::Unsupported(
                        refusal_of(
                            match leaf_from(self.indirect, 0) {
                                Some(found) => found,
                                None => self.media_type,
                            },
                        ),
                    ),
                }
            },
        }
    }

    /// How far an offer is from being taken for nothing; the least is best.
    pub open spec fn rank(self) -> (int, int) {
        (
            match self.delivery() {
                DeliveryView::Book(_) => 0,
                DeliveryView::Acsm(_) => 1,
                DeliveryView::Unsupported(_) => 2,
            },
            match self.kind {
                Kind::OpenAccess => 0,
                Kind::Direct => 0,
                Kind::Borrow => 1,
                Kind::Sample => 2,
                Kind::Buy => 3,
                Kind::Subscribe => 3,
            },
        )
    }
}

pub open spec fn rank_less(a: (int, int), b: (int, int)) -> bool {
    a.0 < b.0 || (a.0 == b.0 && a.1 < b.1)
}

impl Offer {
    pub fn delivery(&self) -> (r: Delivery)
        ensures
            r@ == self@.delivery(),
    {
        if let Some(format) = readable(self.media_type.as_str()) {
            return Delivery::Book(format);
        }
        let base = base_type(self.media_type.as_str());
        if text::same(base.as_str(), "application/vnd.adobe.adept+xml") {
            return Delivery::Acsm(
                match self.inner_format() {
                    Some(format) => format,
                    None => Format::Epub,
                },
            );
        }
        if let Some(found) = best(&self.indirect) {
            return found;
        }
        // Name what is actually on offer at the end of the chain. A borrow
        // link is typed as the entry document that answers it, so reporting
        // its own type would describe every refusal as OPDS.
        match leaf(&self.indirect) {
            Some(found) => Delivery::Unsupported(refusal(found.as_str())),
            None => Delivery::Unsupported(refusal(self.media_type.as_str())),
        }
    }

    pub fn inner_format(&self) -> (r: Option<Format>)
        ensures
            r == first_format(self@.indirect, 0),
    {
        find_format(&self.indirect)
    }

    pub fn borrowable(&self) -> (r: bool)
        ensures
            r == (self@.kind == Kind::Borrow),
    {
        self.kind == Kind::Borrow
    }

    fn rank(&self) -> (r: (u8, u8))
        ensures
            (r.0 as int, r.1 as int) == self@.rank(),
    {
        let delivery: u8 = match self.delivery() {
            Delivery::Book(_) => 0,
            Delivery::Acsm(_) => 1,
            Delivery::Unsupported(_) => 2,
        };
        let kind: u8 = match self.kind {
            Kind::OpenAccess | Kind::Direct => 0,
            Kind::Borrow => 1,
            Kind::Sample => 2,
            Kind::Buy | Kind::Subscribe => 3,
        };
        (delivery, kind)
    }
}

#[derive(Debug)]
pub struct Entry {
    pub id: String,
    pub title: String,
    pub authors: Vec<String>,
    pub summary: Option<String>,
    pub publisher: Option<String>,
    pub language: Option<String>,
    pub offers: Vec<Offer>,
    /// A navigation entry points at a feed rather than carrying offers.
    pub subsection: Option<String>,
}

#[verifier::ext_equal]
pub struct EntryView {
    pub id: Seq<char>,
    pub title: Seq<char>,
    pub authors: Seq<Seq<char>>,
    pub summary: Option<Seq<char>>,
    pub publisher: Option<Seq<char>>,
    pub language: Option<Seq<char>>,
    pub offers: Seq<OfferView>,
    pub subsection: Option<Seq<char>>,
}

impl View for Entry {
    type V = EntryView;

    open spec fn view(&self) -> EntryView {
        EntryView {
            id: self.id@,
            title: self.title@,
            authors: self.authors.deep_view(),
            summary: self.summary.deep_view(),
            publisher: self.publisher.deep_view(),
            language: self.language.deep_view(),
            offers: self.offers.deep_view(),
            subsection: self.subsection.deep_view(),
        }
    }
}

impl DeepView for Entry {
    type V = EntryView;

    open spec fn deep_view(&self) -> EntryView {
        self@
    }
}

/// Whether an offer is the one to act on: none is better, and none before it
/// is as good.
pub open spec fn is_best(offers: Seq<OfferView>, at: int) -> bool {
    &&& 0 <= at < offers.len()
    &&& forall|i: int|
        0 <= i < offers.len() ==> !rank_less((#[trigger] offers[i]).rank(), offers[at].rank())
    &&& forall|i: int|
        0 <= i < at ==> rank_less(offers[at].rank(), (#[trigger] offers[i]).rank())
}

impl EntryView {
    pub open spec fn author(self) -> Seq<char> {
        if self.authors.len() == 0 {
            "Unknown author"@
        } else if self.authors.len() == 1 {
            self.authors[0]
        } else {
            self.authors[0] + " and others"@
        }
    }

    /// Whether something that is offered can be had.
    pub open spec fn deliverable(self) -> bool {
        exists|i: int|
            0 <= i < self.offers.len() && !((#[trigger] self.offers[i]).delivery() is Unsupported)
    }
}

impl Entry {
    /// One line, in the spelling the library uses. An absent author is left
    /// to the importer, which has its own answer for that.
    pub fn author(&self) -> (r: String)
        ensures
            r@ == self@.author(),
    {
        if self.authors.len() == 0 {
            return "Unknown author".to_owned();
        }
        assert(self@.authors[0] == self.authors@[0]@);
        if self.authors.len() == 1 {
            self.authors[0].as_str().to_owned()
        } else {
            text::concat(self.authors[0].as_str(), " and others")
        }
    }

    fn best_at(&self) -> (r: Option<usize>)
        ensures
            match r {
                Some(i) => is_best(self@.offers, i as int),
                None => self@.offers.len() == 0,
            },
    {
        if self.offers.len() == 0 {
            return None;
        }
        let mut best: usize = 0;
        let mut least = self.offers[0].rank();
        let ghost all = self@.offers;
        assert(all[0] == self.offers@[0]@);
        for i in 1..self.offers.len()
            invariant
                all == self@.offers,
                best < i,
                best < all.len(),
                (least.0 as int, least.1 as int) == all[best as int].rank(),
                forall|j: int|
                    0 <= j < i ==> !rank_less((#[trigger] all[j]).rank(), all[best as int].rank()),
                forall|j: int|
                    0 <= j < best ==> rank_less(all[best as int].rank(), (#[trigger] all[j]).rank()),
        {
            assert(all[i as int] == self.offers@[i as int]@);
            let here = self.offers[i].rank();
            if here.0 < least.0 || (here.0 == least.0 && here.1 < least.1) {
                best = i;
                least = here;
            }
        }
        Some(best)
    }

    /// The offer to act on. Free beats borrowed, and anything deliverable
    /// beats an offer that would only have to be refused afterwards.
    pub fn best(&self) -> (r: Option<&Offer>)
        ensures
            match r {
                Some(offer) => exists|i: int|
                    is_best(self@.offers, i) && offer@ == #[trigger] self@.offers[i],
                None => self@.offers.len() == 0,
            },
    {
        match self.best_at() {
            Some(i) => {
                assert(self@.offers[i as int] == self.offers@[i as int]@);
                Some(&self.offers[i])
            },
            None => None,
        }
    }

    pub fn deliverable(&self) -> (r: bool)
        ensures
            r == self@.deliverable(),
    {
        match self.best_at() {
            Some(i) => {
                proof {
                    assert(self@.offers[i as int] == self.offers@[i as int]@);
                    if self@.deliverable() {
                        let j = choose|j: int|
                            0 <= j < self@.offers.len() && !((
                            #[trigger] self@.offers[j]).delivery() is Unsupported);
                        assert(!rank_less(self@.offers[j].rank(), self@.offers[i as int].rank()));
                    }
                }
                self.offers[i].delivery().available()
            },
            None => false,
        }
    }
}

/// The offer to act on is one alone.
pub proof fn best_is_one(offers: Seq<OfferView>, a: int, b: int)
    requires
        is_best(offers, a),
        is_best(offers, b),
    ensures
        a == b,
{
    if a < b {
        assert(rank_less(offers[b].rank(), offers[a].rank()));
    } else if b < a {
        assert(rank_less(offers[a].rank(), offers[b].rank()));
    }
}

/// A chain leads to a book, to a token or to nothing, and never to a refusal.
pub proof fn chains_end_in_something(steps: Seq<IndirectView>, from: int, token: Option<Format>)
    ensures
        !(best_from(steps, from, token) matches Some(DeliveryView::Unsupported(_))),
    decreases steps, steps.len() - from,
{
    if 0 <= from < steps.len() {
        let step = steps[from];
        if is_token(step.media_type) {
            chains_end_in_something(
                steps,
                from + 1,
                if token is Some {
                    token
                } else {
                    Some(or_epub(first_format(step.inner, 0)))
                },
            );
        } else if is_entry(step.media_type) {
            chains_end_in_something(step.inner, 0, None);
            if let Some(DeliveryView::Acsm(format)) = best_from(step.inner, 0, None) {
                chains_end_in_something(
                    steps,
                    from + 1,
                    if token is Some {
                        token
                    } else {
                        Some(format)
                    },
                );
            }
            chains_end_in_something(steps, from + 1, token);
        } else {
            chains_end_in_something(steps, from + 1, token);
        }
    }
}

#[derive(Debug)]
pub struct Feed {
    pub title: String,
    pub entries: Vec<Entry>,
    /// Paging.
    pub next: Option<String>,
    /// An OpenSearch description document, not a query.
    pub search: Option<String>,
    /// Present when the catalogue expects a card. Its absence is what makes
    /// Palace Bookshelf usable without one.
    pub authentication: Option<String>,
}

#[verifier::ext_equal]
pub struct FeedView {
    pub title: Seq<char>,
    pub entries: Seq<EntryView>,
    pub next: Option<Seq<char>>,
    pub search: Option<Seq<char>>,
    pub authentication: Option<Seq<char>>,
}

impl View for Feed {
    type V = FeedView;

    open spec fn view(&self) -> FeedView {
        FeedView {
            title: self.title@,
            entries: self.entries.deep_view(),
            next: self.next.deep_view(),
            search: self.search.deep_view(),
            authentication: self.authentication.deep_view(),
        }
    }
}

impl DeepView for Feed {
    type V = FeedView;

    open spec fn deep_view(&self) -> FeedView {
        self@
    }
}

/// Whether an entry carries offers.
pub open spec fn is_book(e: EntryView) -> bool {
    e.offers.len() > 0
}

/// Whether an entry only points at another feed.
pub open spec fn is_navigation(e: EntryView) -> bool {
    e.offers.len() == 0 && e.subsection is Some
}

impl Feed {
    pub fn books(&self) -> (r: Vec<&Entry>)
        ensures
            r.deep_view() == crate::order::kept(self@.entries, |e: EntryView| is_book(e)),
    {
        let ghost all = self@.entries;
        let ghost test = |e: EntryView| is_book(e);
        let mut out: Vec<&Entry> = Vec::new();
        proof {
            assert(all.take(0) =~= Seq::<EntryView>::empty());
            assert(out.deep_view() =~= Seq::<EntryView>::empty());
        }
        for i in 0..self.entries.len()
            invariant
                all == self@.entries,
                test == (|e: EntryView| is_book(e)),
                out.deep_view() == crate::order::kept(all.take(i as int), test),
        {
            let ghost so_far = out.deep_view();
            proof {
                assert(all.take(i as int + 1).drop_last() =~= all.take(i as int));
                assert(all[i as int] == self.entries@[i as int]@);
            }
            if self.entries[i].offers.len() > 0 {
                out.push(&self.entries[i]);
                proof {
                    assert(out.deep_view() =~= so_far.push(all[i as int]));
                }
            }
        }
        proof {
            assert(all.take(all.len() as int) =~= all);
        }
        out
    }

    pub fn navigation(&self) -> (r: Vec<&Entry>)
        ensures
            r.deep_view() == crate::order::kept(self@.entries, |e: EntryView| is_navigation(e)),
    {
        let ghost all = self@.entries;
        let ghost test = |e: EntryView| is_navigation(e);
        let mut out: Vec<&Entry> = Vec::new();
        proof {
            assert(all.take(0) =~= Seq::<EntryView>::empty());
            assert(out.deep_view() =~= Seq::<EntryView>::empty());
        }
        for i in 0..self.entries.len()
            invariant
                all == self@.entries,
                test == (|e: EntryView| is_navigation(e)),
                out.deep_view() == crate::order::kept(all.take(i as int), test),
        {
            let ghost so_far = out.deep_view();
            proof {
                assert(all.take(i as int + 1).drop_last() =~= all.take(i as int));
                assert(all[i as int] == self.entries@[i as int]@);
            }
            if self.entries[i].offers.len() == 0 && self.entries[i].subsection.is_some() {
                out.push(&self.entries[i]);
                proof {
                    assert(out.deep_view() =~= so_far.push(all[i as int]));
                }
            }
        }
        proof {
            assert(all.take(all.len() as int) =~= all);
        }
        out
    }
}

} // verus!
