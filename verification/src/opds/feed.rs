//! Reading a feed, and the addresses that lead to one.
use super::{Entry, EntryView, Feed, FeedView, Indirect, IndirectView, Kind, Offer, OfferView};
use crate::archive;
use crate::crosspoint::{address_parts, endpoint_address, endpoint_of, parse_address};
use crate::digest::{hex, sha256};
use crate::epub;
use crate::format::{format_problem, Format};
use crate::names;
use crate::pdf;
use crate::text;
use crate::values::result_view;
use crate::xml;
use crate::xml::{document, Node, NodeView};
use vstd::prelude::*;

verus! {

broadcast use vstd::string::group_string_axioms;

pub const ATOM: &'static str = "http://www.w3.org/2005/Atom";

pub const OPDS: &'static str = "http://opds-spec.org/2010/catalog";

pub const DCTERMS: &'static str = "http://purl.org/dc/terms/";

pub const OPENSEARCH: &'static str = "http://a9.com/-/spec/opensearch/1.1/";

/// A text without the byte order marks it starts with.
pub open spec fn unmarked(s: Seq<char>) -> Seq<char>
    decreases s.len(),
{
    if s.len() > 0 && s[0] == '\u{feff}' {
        unmarked(s.drop_first())
    } else {
        s
    }
}

/// What a document starts with, in small letters.
pub open spec fn opening(s: Seq<char>) -> Seq<char> {
    let start = text::trimmed_start(unmarked(text::trimmed_start(s)));
    text::lowercase(
        if start.len() < 200 {
            start
        } else {
            start.take(200)
        },
    )
}

/// Whether a document is a page for a browser.
pub open spec fn web_page(s: Seq<char>) -> bool {
    text::starts(opening(s), "<!doctype html"@) || text::starts(opening(s), "<html"@)
}

pub fn looks_like_a_web_page(s: &str) -> (r: bool)
    ensures
        r == web_page(s@),
{
    let c = text::chars(text::trim_start(s).as_str());
    let mut from: usize = 0;
    proof {
        assert(c@.skip(0) =~= c@);
    }
    while from < c.len() && c[from] == '\u{feff}'
        invariant
            from <= c@.len(),
            unmarked(c@) == unmarked(c@.skip(from as int)),
        decreases c@.len() - from,
    {
        proof {
            assert(c@.skip(from as int).drop_first() =~= c@.skip(from as int + 1));
        }
        from += 1;
    }
    let rest = text::slice(c.as_slice(), from, c.len());
    proof {
        assert(rest@ =~= c@.skip(from as int));
    }
    let start = text::chars(text::trim_start(rest.as_str()).as_str());
    let count: usize = if start.len() < 200 {
        start.len()
    } else {
        200
    };
    let head = text::slice(start.as_slice(), 0, count);
    proof {
        if start@.len() < 200 {
            assert(head@ =~= start@);
        } else {
            assert(head@ =~= start@.take(200));
        }
    }
    let head = text::to_lowercase(head.as_str());
    text::starts_with(head.as_str(), "<!doctype html") || text::starts_with(head.as_str(), "<html")
}

/// Whether a node stands directly in another.
pub open spec fn child(nodes: Seq<NodeView>, parent: int, i: int) -> bool {
    0 <= parent < i < nodes.len() && nodes[i].parent == Some(parent as usize)
}

fn is_child(nodes: &Vec<Node>, parent: usize, i: usize) -> (r: bool)
    requires
        i < nodes@.len(),
    ensures
        r == child(nodes.deep_view(), parent as int, i as int),
{
    assert(nodes.deep_view()[i as int] == nodes@[i as int]@);
    parent < i && match nodes[i].parent {
        Some(found) => found == parent,
        None => false,
    }
}

/// The first child of a tag from `from` on, or the length.
pub open spec fn child_at(
    nodes: Seq<NodeView>,
    parent: int,
    space: Seq<char>,
    tag: Seq<char>,
    from: int,
) -> int
    decreases nodes.len() - from,
{
    if from < 0 || from >= nodes.len() {
        nodes.len() as int
    } else if child(nodes, parent, from) && nodes[from].tagged(space, tag) {
        from
    } else {
        child_at(nodes, parent, space, tag, from + 1)
    }
}

fn find_child(nodes: &Vec<Node>, parent: usize, space: &str, tag: &str) -> (r: Option<usize>)
    ensures
        match r {
            Some(i) => i < nodes@.len() && i == child_at(
                nodes.deep_view(),
                parent as int,
                space@,
                tag@,
                0,
            ),
            None => nodes@.len() == child_at(nodes.deep_view(), parent as int, space@, tag@, 0),
        },
{
    for i in 0..nodes.len()
        invariant
            child_at(nodes.deep_view(), parent as int, space@, tag@, 0) == child_at(
                nodes.deep_view(),
                parent as int,
                space@,
                tag@,
                i as int,
            ),
    {
        assert(nodes.deep_view()[i as int] == nodes@[i as int]@);
        if is_child(nodes, parent, i) && nodes[i].is_tagged(space, tag) {
            return Some(i);
        }
    }
    None
}

/// What the first child of a tag says, if there is one and it says anything.
pub open spec fn child_text(
    nodes: Seq<NodeView>,
    parent: int,
    space: Seq<char>,
    tag: Seq<char>,
) -> Option<Seq<char>> {
    let i = child_at(nodes, parent, space, tag, 0);
    if 0 <= i < nodes.len() && nodes[i].text is Some {
        epub::said(nodes[i].text->0)
    } else {
        None
    }
}

fn text_of(nodes: &Vec<Node>, parent: usize, space: &str, tag: &str) -> (r: Option<String>)
    ensures
        r.deep_view() == child_text(nodes.deep_view(), parent as int, space@, tag@),
{
    match find_child(nodes, parent, space, tag) {
        None => None,
        Some(i) => {
            assert(nodes.deep_view()[i as int] == nodes@[i as int]@);
            match &nodes[i].text {
                Some(s) => epub::say(s.as_str()),
                None => None,
            }
        },
    }
}

/// What a reference leads to from an address; nothing where it leads nowhere.
pub open spec fn leads(base: Seq<char>, href: Seq<char>) -> Option<Seq<char>> {
    match endpoint_of(base, href, None) {
        Ok(url) => Some(url),
        Err(_) => None,
    }
}

fn lead(base: &str, href: &str) -> (r: Option<String>)
    ensures
        r.deep_view() == leads(base@, href@),
{
    match endpoint_address(base, href, &None) {
        Ok(url) => Some(url),
        Err(_) => None,
    }
}

/// Whether a node is a link of another that says what it is for and where it
/// leads.
pub open spec fn link(nodes: Seq<NodeView>, parent: int, i: int) -> bool {
    child(nodes, parent, i) && nodes[i].tagged(ATOM@, "link"@) && nodes[i].attribute("rel"@) is Some
        && nodes[i].attribute("href"@) is Some
}

/// Where the last link of a relation among the first `n` nodes leads.
pub open spec fn linked(
    nodes: Seq<NodeView>,
    parent: int,
    base: Seq<char>,
    rel: Seq<char>,
    n: int,
) -> Option<Seq<char>>
    decreases n,
{
    if n <= 0 {
        None
    } else if link(nodes, parent, n - 1) && nodes[n - 1].attribute("rel"@) == Some(rel) {
        leads(base, nodes[n - 1].attribute("href"@)->0)
    } else {
        linked(nodes, parent, base, rel, n - 1)
    }
}

/// The steps of the chain that a node declares, among the first `n` nodes.
pub open spec fn steps_in(nodes: Seq<NodeView>, parent: int, n: int) -> Seq<IndirectView>
    decreases nodes.len() - parent, n,
{
    if n <= 0 || n > nodes.len() {
        Seq::empty()
    } else if child(nodes, parent, n - 1) && nodes[n - 1].tagged(OPDS@, "indirectAcquisition"@) {
        steps_in(nodes, parent, n - 1).push(
            IndirectView {
                media_type: or_empty(nodes[n - 1].attribute("type"@)),
                inner: steps_in(nodes, n - 1, nodes.len() as int),
            },
        )
    } else {
        steps_in(nodes, parent, n - 1)
    }
}

pub open spec fn or_empty(s: Option<Seq<char>>) -> Seq<char> {
    match s {
        Some(s) => s,
        None => Seq::empty(),
    }
}

fn unwrap_text(s: Option<String>) -> (r: String)
    ensures
        r@ == or_empty(s.deep_view()),
{
    match s {
        Some(s) => s,
        None => {
            let r = String::new();
            assert(r@ =~= Seq::<char>::empty());
            r
        },
    }
}

fn indirect(nodes: &Vec<Node>, parent: usize) -> (r: Vec<Indirect>)
    requires
        parent < nodes@.len(),
    ensures
        r.deep_view() == steps_in(nodes.deep_view(), parent as int, nodes@.len() as int),
    decreases nodes@.len() - parent,
{
    let ghost all = nodes.deep_view();
    let mut out: Vec<Indirect> = Vec::new();
    proof {
        assert(out.deep_view() =~= Seq::<IndirectView>::empty());
    }
    for i in 0..nodes.len()
        invariant
            all == nodes.deep_view(),
            parent < nodes@.len(),
            out.deep_view() == steps_in(all, parent as int, i as int),
    {
        let ghost so_far = out.deep_view();
        assert(all[i as int] == nodes@[i as int]@);
        if is_child(nodes, parent, i) && nodes[i].is_tagged(OPDS, "indirectAcquisition") {
            let step = Indirect {
                media_type: unwrap_text(nodes[i].attribute("type")),
                inner: indirect(nodes, i),
            };
            let ghost shown = step.deep_view();
            proof {
                super::step_view_is(step);
            }
            out.push(step);
            proof {
                assert(out.deep_view() =~= so_far.push(shown));
            }
        }
    }
    out
}

/// A length as a link gives it: a number, whatever else is written there being
/// passed over.
pub open spec fn length_of(s: Seq<char>) -> Option<u64> {
    let digits = if s.len() > 0 && s[0] == '+' {
        s.skip(1)
    } else {
        s
    };
    if digits.len() > 0 && text::all_digits(digits) && text::digits_value(digits) <= u64::MAX {
        Some(text::digits_value(digits) as u64)
    } else {
        None
    }
}

fn parse_length(s: &str) -> (r: Option<u64>)
    ensures
        r == length_of(s@),
{
    let c = text::chars(s);
    let from: usize = if c.len() > 0 && c[0] == '+' {
        1
    } else {
        0
    };
    proof {
        assert(c@.subrange(0, c@.len() as int) =~= c@);
        if from == 1 {
            assert(c@.subrange(1, c@.len() as int) =~= c@.skip(1));
        }
    }
    if from == c.len() {
        return None;
    }
    text::parse_digits(c.as_slice(), from, c.len())
}

/// The offer a link makes.
pub open spec fn offered(nodes: Seq<NodeView>, i: int, kind: Kind, href: Seq<char>) -> OfferView {
    let a = child_at(nodes, i, OPDS@, "availability"@, 0);
    OfferView {
        kind,
        href,
        media_type: or_empty(nodes[i].attribute("type"@)),
        title: nodes[i].attribute("title"@),
        length: match nodes[i].attribute("length"@) {
            Some(s) => length_of(s),
            None => None,
        },
        indirect: steps_in(nodes, i, nodes.len() as int),
        availability: if 0 <= a < nodes.len() {
            nodes[a].attribute("status"@)
        } else {
            None
        },
    }
}

fn offer(nodes: &Vec<Node>, i: usize, kind: Kind, href: String) -> (r: Offer)
    requires
        i < nodes@.len(),
    ensures
        r@ == offered(nodes.deep_view(), i as int, kind, href@),
{
    assert(nodes.deep_view()[i as int] == nodes@[i as int]@);
    let length = match nodes[i].attribute("length") {
        Some(s) => parse_length(s.as_str()),
        None => None,
    };
    let availability = match find_child(nodes, i, OPDS, "availability") {
        Some(a) => {
            assert(nodes.deep_view()[a as int] == nodes@[a as int]@);
            nodes[a].attribute("status")
        },
        None => None,
    };
    Offer {
        kind,
        href,
        media_type: unwrap_text(nodes[i].attribute("type")),
        title: nodes[i].attribute("title"),
        length,
        indirect: indirect(nodes, i),
        availability,
    }
}

/// Whether a link of an entry leads anywhere.
pub open spec fn live(nodes: Seq<NodeView>, parent: int, base: Seq<char>, i: int) -> bool {
    link(nodes, parent, i) && leads(base, nodes[i].attribute("href"@)->0) is Some
}

pub open spec fn kind_of(rel: Seq<char>) -> Option<Kind> {
    if exists|kind: Kind| rel == #[trigger] kind.relation() {
        Some(choose|kind: Kind| rel == #[trigger] kind.relation())
    } else {
        None
    }
}

/// No two kinds share a relation.
pub proof fn kinds_differ(a: Kind, b: Kind)
    requires
        a.relation() == b.relation(),
    ensures
        a == b,
{
    let n = super::ACQUISITION@.len() as int;
    assert(a.relation().skip(n) =~= a.suffix());
    assert(b.relation().skip(n) =~= b.suffix());
    reveal_strlit("");
    reveal_strlit("/open-access");
    reveal_strlit("/borrow");
    reveal_strlit("/buy");
    reveal_strlit("/sample");
    reveal_strlit("/subscribe");
    if a.suffix().len() > 1 && b.suffix().len() > 1 {
        assert(a.suffix()[1] == b.suffix()[1]);
        assert(a.suffix()[2] == b.suffix()[2]);
    }
}

/// What the links among the first `n` nodes offer.
pub open spec fn offers_in(nodes: Seq<NodeView>, parent: int, base: Seq<char>, n: int) -> Seq<
    OfferView,
>
    decreases n,
{
    if n <= 0 {
        Seq::empty()
    } else {
        let rest = offers_in(nodes, parent, base, n - 1);
        if live(nodes, parent, base, n - 1) {
            match kind_of(nodes[n - 1].attribute("rel"@)->0) {
                Some(kind) => rest.push(
                    offered(
                        nodes,
                        n - 1,
                        kind,
                        leads(base, nodes[n - 1].attribute("href"@)->0)->0,
                    ),
                ),
                None => rest,
            }
        } else {
            rest
        }
    }
}

/// Whether a link's type is that of another feed.
pub open spec fn leads_to_feed(node: NodeView) -> bool {
    node.attribute("type"@) is Some && text::within(node.attribute("type"@)->0, "opds-catalog"@)
}

/// The feed that the links among the first `n` nodes lead to. Some catalogues
/// link a search result to a feed of its own; a client that assumed books were
/// one level down would find nothing to download.
pub open spec fn subsection_in(nodes: Seq<NodeView>, parent: int, base: Seq<char>, n: int) -> Option<
    Seq<char>,
>
    decreases n,
{
    if n <= 0 {
        None
    } else {
        let before = subsection_in(nodes, parent, base, n - 1);
        let rel = nodes[n - 1].attribute("rel"@)->0;
        if live(nodes, parent, base, n - 1) && kind_of(rel) is None && (rel == "subsection"@ || (rel
            == "alternate"@ && before is None)) && leads_to_feed(nodes[n - 1]) {
            leads(base, nodes[n - 1].attribute("href"@)->0)
        } else {
            before
        }
    }
}

/// The authors named among the first `n` nodes.
pub open spec fn authors_in(nodes: Seq<NodeView>, parent: int, n: int) -> Seq<Seq<char>>
    decreases n,
{
    if n <= 0 {
        Seq::empty()
    } else if child(nodes, parent, n - 1) && nodes[n - 1].tagged(ATOM@, "author"@) {
        match child_text(nodes, n - 1, ATOM@, "name"@) {
            Some(name) => authors_in(nodes, parent, n - 1).push(name),
            None => authors_in(nodes, parent, n - 1),
        }
    } else {
        authors_in(nodes, parent, n - 1)
    }
}

fn find_authors(nodes: &Vec<Node>, parent: usize) -> (r: Vec<String>)
    ensures
        r.deep_view() == authors_in(nodes.deep_view(), parent as int, nodes@.len() as int),
{
    let ghost all = nodes.deep_view();
    let mut out: Vec<String> = Vec::new();
    proof {
        assert(out.deep_view() =~= Seq::<Seq<char>>::empty());
    }
    for i in 0..nodes.len()
        invariant
            all == nodes.deep_view(),
            out.deep_view() == authors_in(all, parent as int, i as int),
    {
        let ghost so_far = out.deep_view();
        assert(all[i as int] == nodes@[i as int]@);
        if is_child(nodes, parent, i) && nodes[i].is_tagged(ATOM, "author") {
            if let Some(name) = text_of(nodes, i, ATOM, "name") {
                let ghost shown = name@;
                out.push(name);
                proof {
                    assert(out.deep_view() =~= so_far.push(shown));
                }
            }
        }
    }
    out
}

/// What an entry of a feed says.
pub open spec fn entry_of(nodes: Seq<NodeView>, i: int, base: Seq<char>) -> EntryView {
    EntryView {
        id: or_empty(child_text(nodes, i, ATOM@, "id"@)),
        title: match child_text(nodes, i, ATOM@, "title"@) {
            Some(title) => title,
            None => "Untitled"@,
        },
        authors: authors_in(nodes, i, nodes.len() as int),
        summary: child_text(nodes, i, ATOM@, "summary"@),
        publisher: child_text(nodes, i, DCTERMS@, "publisher"@),
        language: child_text(nodes, i, DCTERMS@, "language"@),
        offers: offers_in(nodes, i, base, nodes.len() as int),
        subsection: subsection_in(nodes, i, base, nodes.len() as int),
    }
}

fn entry(nodes: &Vec<Node>, at: usize, base: &str) -> (r: Entry)
    requires
        at < nodes@.len(),
    ensures
        r@ == entry_of(nodes.deep_view(), at as int, base@),
{
    let ghost all = nodes.deep_view();
    let mut offers: Vec<Offer> = Vec::new();
    let mut subsection: Option<String> = None;
    proof {
        assert(offers.deep_view() =~= Seq::<OfferView>::empty());
    }
    for i in 0..nodes.len()
        invariant
            all == nodes.deep_view(),
            offers.deep_view() == offers_in(all, at as int, base@, i as int),
            subsection.deep_view() == subsection_in(all, at as int, base@, i as int),
    {
        let ghost so_far = offers.deep_view();
        assert(all[i as int] == nodes@[i as int]@);
        if is_child(nodes, at, i) && nodes[i].is_tagged(ATOM, "link") {
            match (nodes[i].attribute("rel"), nodes[i].attribute("href")) {
                (Some(rel), Some(href)) => {
                    if let Some(href) = lead(base, href.as_str()) {
                        assert(live(all, at as int, base@, i as int));
                        match Kind::of(rel.as_str()) {
                            Some(kind) => {
                                proof {
                                    kinds_differ(kind, kind_of(rel@)->0);
                                }
                                let found = offer(nodes, i, kind, href);
                                let ghost shown = found@;
                                offers.push(found);
                                proof {
                                    assert(offers.deep_view() =~= so_far.push(shown));
                                }
                            },
                            None => {
                                assert(kind_of(rel@) is None);
                                if text::same(rel.as_str(), "subsection") || (text::same(
                                    rel.as_str(),
                                    "alternate",
                                ) && subsection.is_none()) {
                                    if let Some(media) = nodes[i].attribute("type") {
                                        if text::contains(media.as_str(), "opds-catalog") {
                                            subsection = Some(href);
                                        }
                                    }
                                }
                            },
                        }
                    }
                },
                _ => {},
            }
        }
    }
    Entry {
        id: unwrap_text(text_of(nodes, at, ATOM, "id")),
        title: match text_of(nodes, at, ATOM, "title") {
            Some(title) => title,
            None => "Untitled".to_owned(),
        },
        authors: find_authors(nodes, at),
        summary: text_of(nodes, at, ATOM, "summary"),
        publisher: text_of(nodes, at, DCTERMS, "publisher"),
        language: text_of(nodes, at, DCTERMS, "language"),
        offers,
        subsection,
    }
}

/// The entries among the first `n` nodes.
pub open spec fn entries_in(nodes: Seq<NodeView>, parent: int, base: Seq<char>, n: int) -> Seq<
    EntryView,
>
    decreases n,
{
    if n <= 0 {
        Seq::empty()
    } else if child(nodes, parent, n - 1) && nodes[n - 1].tagged(ATOM@, "entry"@) {
        entries_in(nodes, parent, base, n - 1).push(entry_of(nodes, n - 1, base))
    } else {
        entries_in(nodes, parent, base, n - 1)
    }
}

/// The outermost element from `from` on, or the length.
pub open spec fn root_from(nodes: Seq<NodeView>, from: int) -> int
    decreases nodes.len() - from,
{
    if from < 0 || from >= nodes.len() {
        nodes.len() as int
    } else if child(nodes, 0, from) && nodes[from].element {
        from
    } else {
        root_from(nodes, from + 1)
    }
}

fn find_root(nodes: &Vec<Node>) -> (r: Option<usize>)
    ensures
        match r {
            Some(i) => i < nodes@.len() && i == root_from(nodes.deep_view(), 0),
            None => nodes@.len() == root_from(nodes.deep_view(), 0),
        },
{
    for i in 0..nodes.len()
        invariant
            root_from(nodes.deep_view(), 0) == root_from(nodes.deep_view(), i as int),
    {
        assert(nodes.deep_view()[i as int] == nodes@[i as int]@);
        if is_child(nodes, 0, i) && nodes[i].element {
            return Some(i);
        }
    }
    None
}

/// The feed that the nodes of a document make.
pub open spec fn feed_in(nodes: Seq<NodeView>, base: Seq<char>) -> Result<FeedView, Seq<char>> {
    let root = root_from(nodes, 0);
    if !(0 <= root < nodes.len() && nodes[root].tagged(ATOM@, "feed"@)) {
        Err(
            "Not an OPDS feed: the document is <"@ + (if 0 <= root < nodes.len() {
                nodes[root].name
            } else {
                Seq::empty()
            }) + ">, not an Atom <feed>"@,
        )
    } else {
        let n = nodes.len() as int;
        Ok(
            FeedView {
                title: or_empty(child_text(nodes, root, ATOM@, "title"@)),
                entries: entries_in(nodes, root, base, n),
                next: linked(nodes, root, base, "next"@, n),
                search: linked(nodes, root, base, "search"@, n),
                authentication: linked(
                    nodes,
                    root,
                    base,
                    "http://opds-spec.org/auth/document"@,
                    n,
                ),
            },
        )
    }
}

fn find_link(nodes: &Vec<Node>, parent: usize, base: &str, rel: &str) -> (r: Option<String>)
    ensures
        r.deep_view() == linked(
            nodes.deep_view(),
            parent as int,
            base@,
            rel@,
            nodes@.len() as int,
        ),
{
    let ghost all = nodes.deep_view();
    let mut found: Option<String> = None;
    for i in 0..nodes.len()
        invariant
            all == nodes.deep_view(),
            found.deep_view() == linked(all, parent as int, base@, rel@, i as int),
    {
        assert(all[i as int] == nodes@[i as int]@);
        if is_child(nodes, parent, i) && nodes[i].is_tagged(ATOM, "link") {
            match (nodes[i].attribute("rel"), nodes[i].attribute("href")) {
                (Some(said), Some(href)) => {
                    if text::same(said.as_str(), rel) {
                        found = lead(base, href.as_str());
                    }
                },
                _ => {},
            }
        }
    }
    found
}

/// Make a feed of the nodes of a document.
pub fn assemble(nodes: &Vec<Node>, base: &str) -> (r: Result<Feed, String>)
    ensures
        result_view(r) == feed_in(nodes.deep_view(), base@),
{
    let ghost all = nodes.deep_view();
    let root = match find_root(nodes) {
        Some(root) => root,
        None => {
            proof {
                assert("Not an OPDS feed: the document is <"@ + Seq::<char>::empty()
                    =~= "Not an OPDS feed: the document is <"@);
            }
            return Err(
                text::concat(
                    "Not an OPDS feed: the document is <",
                    ">, not an Atom <feed>",
                ),
            );
        },
    };
    assert(all[root as int] == nodes@[root as int]@);
    if !nodes[root].is_tagged(ATOM, "feed") {
        return Err(
            text::concat3(
                "Not an OPDS feed: the document is <",
                nodes[root].name.as_str(),
                ">, not an Atom <feed>",
            ),
        );
    }
    let mut entries: Vec<Entry> = Vec::new();
    proof {
        assert(entries.deep_view() =~= Seq::<EntryView>::empty());
    }
    for i in 0..nodes.len()
        invariant
            all == nodes.deep_view(),
            root < nodes@.len(),
            entries.deep_view() == entries_in(all, root as int, base@, i as int),
    {
        let ghost so_far = entries.deep_view();
        assert(all[i as int] == nodes@[i as int]@);
        if is_child(nodes, root, i) && nodes[i].is_tagged(ATOM, "entry") {
            let found = entry(nodes, i, base);
            let ghost shown = found@;
            entries.push(found);
            proof {
                assert(entries.deep_view() =~= so_far.push(shown));
            }
        }
    }
    Ok(
        Feed {
            title: unwrap_text(text_of(nodes, root, ATOM, "title")),
            entries,
            next: find_link(nodes, root, base, "next"),
            search: find_link(nodes, root, base, "search"),
            authentication: find_link(nodes, root, base, "http://opds-spec.org/auth/document"),
        },
    )
}

/// What is said of a page that is no feed.
pub open spec fn no_feed(base: Seq<char>) -> Seq<char> {
    base
        + " is a web page, not an OPDS feed. Catalogues usually serve the feed at a different address; Gutenberg, for one, uses /ebooks/search.opds/ where its site uses /ebooks/search/"@
}

/// The feed a text from an address is.
pub open spec fn parsed(s: Seq<char>, base: Seq<char>) -> Result<FeedView, Seq<char>> {
    if web_page(s) {
        Err(no_feed(base))
    } else {
        match document(s, true) {
            Ok(nodes) => feed_in(nodes, base),
            Err(words) => Err("Catalogue did not return a parsable Atom feed: "@ + words),
        }
    }
}

/// Parse a feed whose text is already in hand, resolving relative links
/// against the address it came from.
///
/// A catalogue's web address and its feed address are usually different, and
/// asking for the wrong one returns a page rather than an error. Saying so is
/// more use than repeating a parser's complaint about a page.
pub fn parse(s: &str, base: &str) -> (r: Result<Feed, String>)
    ensures
        result_view(r) == parsed(s@, base@),
{
    if looks_like_a_web_page(s) {
        return Err(
            text::concat(
                base,
                " is a web page, not an OPDS feed. Catalogues usually serve the feed at a different address; Gutenberg, for one, uses /ebooks/search.opds/ where its site uses /ebooks/search/",
            ),
        );
    }
    match xml::parse(s, true) {
        Ok(nodes) => assemble(&nodes, base),
        Err(words) => Err(
            text::concat(
                "Catalogue did not return a parsable Atom feed: ",
                words.as_str(),
            ),
        ),
    }
}

/// A page is never read as a feed, whatever it holds.
pub proof fn pages_are_refused(s: Seq<char>, base: Seq<char>)
    requires
        web_page(s),
    ensures
        parsed(s, base) == Err::<FeedView, Seq<char>>(no_feed(base)),
{
}

/// The address to fetch a feed from.
pub open spec fn feed_address(url: Seq<char>) -> Result<Seq<char>, Seq<char>> {
    match address_parts(url) {
        Err(words) => Err("Invalid catalogue address "@ + url + ": "@ + words),
        Ok(base) => if base.scheme == "http"@ || base.scheme == "https"@ {
            Ok(base.whole)
        } else {
            Err("A catalogue address must be http or https"@)
        },
    }
}

/// Check the address of a feed before it is fetched, and say what to ask for.
pub fn fetch(url: &str) -> (r: Result<String, String>)
    ensures
        result_view(r) == feed_address(url@),
{
    match parse_address(url) {
        Err(words) => Err(text::concat4("Invalid catalogue address ", url, ": ", words.as_str())),
        Ok(base) => if text::same(base.scheme.as_str(), "http") || text::same(
            base.scheme.as_str(),
            "https",
        ) {
            Ok(base.whole)
        } else {
            Err("A catalogue address must be http or https".to_owned())
        },
    }
}

/// The feed that some bytes from an address are.
pub fn received(body: &[u8], base: &str) -> (r: Result<Feed, String>)
    ensures
        result_view(r) == match text::decoded(body@) {
            Ok(s) => parsed(s, base@),
            Err(words) => Err("Catalogue did not return text: "@ + words),
        },
{
    match text::decode(body) {
        Ok(s) => parse(s.as_str(), base),
        Err(words) => Err(text::concat("Catalogue did not return text: ", words.as_str())),
    }
}

/// The answer to a question to a catalogue.
pub open spec fn answered(
    url: Seq<char>,
    limit: usize,
    too_large: bool,
    failure: Option<Seq<char>>,
    status: u32,
    body: Seq<u8>,
) -> Result<Seq<u8>, Seq<char>> {
    if too_large {
        Err(
            "Catalogue response is larger than the "@ + text::decimal(limit as nat / 1048576)
                + " MiB this accepts"@,
        )
    } else if failure is Some {
        Err("Catalogue request failed: "@ + url + ": "@ + failure->0)
    } else if status == 200 {
        Ok(body)
    } else {
        Err(
            "Catalogue returned HTTP "@ + text::decimal(status as nat) + " for "@ + url + (
            if status == 401 || status == 403 {
                "; this catalogue wants a library card"@
            } else if status == 404 {
                "; the address may be wrong"@
            } else {
                ""@
            }),
        )
    }
}

/// What is made of the answer of a catalogue.
pub fn answer(
    url: &str,
    limit: usize,
    too_large: bool,
    failure: Option<String>,
    status: u32,
    body: Vec<u8>,
) -> (r: Result<Vec<u8>, String>)
    ensures
        archive::bytes_view(r) == answered(
            url@,
            limit,
            too_large,
            failure.deep_view(),
            status,
            body@,
        ),
{
    if too_large {
        return Err(
            text::concat3(
                "Catalogue response is larger than the ",
                text::number(limit as u64 / 1048576).as_str(),
                " MiB this accepts",
            ),
        );
    }
    if let Some(words) = failure {
        return Err(text::concat4("Catalogue request failed: ", url, ": ", words.as_str()));
    }
    if status == 200 {
        return Ok(body);
    }
    Err(
        text::concat5(
            "Catalogue returned HTTP ",
            text::number(status as u64).as_str(),
            " for ",
            url,
            if status == 401 || status == 403 {
                "; this catalogue wants a library card"
            } else if status == 404 {
                "; the address may be wrong"
            } else {
                ""
            },
        ),
    )
}

/// A text with something put for every occurrence of a part, from `from` on.
pub open spec fn replaced(s: Seq<char>, part: Seq<char>, with: Seq<char>, from: int) -> Seq<char>
    decreases s.len() - from,
{
    let i = text::seek(s, part, from);
    if from < 0 || i < from || part.len() == 0 || i + part.len() > s.len() {
        s.skip(from)
    } else {
        s.subrange(from, i) + with + replaced(s, part, with, i + part.len())
    }
}

fn replace(s: &str, part: &str, with: &str) -> (r: String)
    requires
        part@.len() > 0,
    ensures
        r@ == replaced(s@, part@, with@, 0),
{
    let c = text::chars(s);
    let p = text::chars(part);
    let length: usize = c.len();
    let mut out = String::new();
    let mut from: usize = 0;
    let ghost goal = replaced(s@, part@, with@, 0);
    proof {
        assert(out@ + goal =~= goal);
    }
    loop
        invariant
            c@ == s@,
            p@ == part@,
            length == c@.len(),
            part@.len() > 0,
            from <= c@.len(),
            goal == replaced(s@, part@, with@, 0),
            goal == out@ + replaced(s@, part@, with@, from as int),
        decreases c@.len() - from,
    {
        match text::find(c.as_slice(), p.as_slice(), from) {
            None => {
                let rest = text::slice(c.as_slice(), from, c.len());
                proof {
                    assert(rest@ =~= s@.skip(from as int));
                }
                out.push_str(rest.as_str());
                return out;
            },
            Some(i) => {
                let ghost before = out@;
                let piece = text::slice(c.as_slice(), from, i);
                out.push_str(piece.as_str());
                out.push_str(with);
                proof {
                    let rest = replaced(s@, part@, with@, i as int + part@.len());
                    assert(before + (s@.subrange(from as int, i as int) + with@ + rest) =~= before
                        + s@.subrange(from as int, i as int) + with@ + rest);
                }
                from = i + p.len();
            },
        }
    }
}

/// A text as it stands in the query of an address:
/// `url::form_urlencoded::byte_serialize`.
pub uninterp spec fn encoded(s: Seq<char>) -> Seq<char>;

/// `url::form_urlencoded::byte_serialize` over the bytes of a text; how it
/// encodes them is named rather than stated.
#[verifier::external_body]
pub(crate) fn encode(s: &str) -> (r: String)
    ensures
        r@ == encoded(s@),
{
    url::form_urlencoded::byte_serialize(s.as_bytes()).collect()
}

/// Whether a node is a template for a search that returns a feed rather than a
/// web page.
pub open spec fn is_template(node: NodeView) -> bool {
    node.tagged(OPENSEARCH@, "Url"@) && node.attribute("template"@) is Some && leads_to_feed(node)
}

/// The first template from `from` on.
pub open spec fn template_from(nodes: Seq<NodeView>, from: int) -> Option<Seq<char>>
    decreases nodes.len() - from,
{
    if from < 0 || from >= nodes.len() {
        None
    } else if is_template(nodes[from]) {
        nodes[from].attribute("template"@)
    } else {
        template_from(nodes, from + 1)
    }
}

fn find_template(nodes: &Vec<Node>) -> (r: Option<String>)
    ensures
        r.deep_view() == template_from(nodes.deep_view(), 0),
{
    for i in 0..nodes.len()
        invariant
            template_from(nodes.deep_view(), 0) == template_from(nodes.deep_view(), i as int),
    {
        assert(nodes.deep_view()[i as int] == nodes@[i as int]@);
        if nodes[i].is_tagged(OPENSEARCH, "Url") {
            match (nodes[i].attribute("type"), nodes[i].attribute("template")) {
                (Some(media), Some(template)) => {
                    if text::contains(media.as_str(), "opds-catalog") {
                        return Some(template);
                    }
                },
                _ => {},
            }
        }
    }
    None
}

/// The address that a template makes of a query.
pub open spec fn query_address(
    description: Seq<char>,
    nodes: Seq<NodeView>,
    query: Seq<char>,
) -> Result<Seq<char>, Seq<char>> {
    match template_from(nodes, 0) {
        None => Err("Catalogue offers no OPDS search template"@),
        Some(template) => endpoint_of(
            description,
            replaced(template, "{searchTerms}"@, encoded(query), 0),
            None,
        ),
    }
}

/// Fill a query into the template that a description of a search gives.
pub fn fill_template(description: &str, nodes: &Vec<Node>, query: &str) -> (r: Result<
    String,
    String,
>)
    ensures
        result_view(r) == query_address(description@, nodes.deep_view(), query@),
{
    proof {
        reveal_strlit("{searchTerms}");
    }
    match find_template(nodes) {
        None => Err("Catalogue offers no OPDS search template".to_owned()),
        Some(template) => {
            let filled = replace(template.as_str(), "{searchTerms}", encode(query).as_str());
            endpoint_address(description, filled.as_str(), &None)
        },
    }
}

/// Turn a feed's OpenSearch description, once it has been fetched, into a query
/// address.
pub fn search(description: &str, body: &[u8], query: &str) -> (r: Result<String, String>)
    ensures
        result_view(r) == match text::decoded(body@) {
            Err(words) => Err("Search description is not text: "@ + words),
            Ok(s) => match document(s, false) {
                Err(words) => Err("Invalid OpenSearch description: "@ + words),
                Ok(nodes) => query_address(description@, nodes, query@),
            },
        },
{
    let s = match text::decode(body) {
        Ok(s) => s,
        Err(words) => return Err(
            text::concat("Search description is not text: ", words.as_str()),
        ),
    };
    match xml::parse(s.as_str(), false) {
        Ok(nodes) => fill_template(description, &nodes, query),
        Err(words) => Err(text::concat("Invalid OpenSearch description: ", words.as_str())),
    }
}

/// What a book says it is called; `told` is what a PDF does.
pub open spec fn own_title(data: Seq<u8>, format: Format, told: Option<Seq<char>>) -> Result<
    Option<Seq<char>>,
    Seq<char>,
> {
    match format {
        Format::Epub => match epub::metadata_of(data) {
            Ok(Some(metadata)) => Ok(metadata.title),
            Ok(None) => Ok(None),
            Err(words) => Err(words),
        },
        Format::Pdf => Ok(told),
        Format::Cbz => Ok(None),
    }
}

/// The name a downloaded book is saved under. The catalogue's own title is not
/// trusted for this: what the file says about itself is what the rest of the
/// program will read, so the name comes from the same place. It carries the
/// digest, so an existing file with it is the same bytes.
pub open spec fn published_name(data: Seq<u8>, format: Format, told: Option<Seq<char>>) -> Result<
    Seq<char>,
    Seq<char>,
> {
    match format_problem(format, data) {
        Some(words) => Err(
            "The catalogue did not deliver a readable "@ + format.name() + ": "@ + words,
        ),
        None => match own_title(data, format, told) {
            Err(words) => Err(words),
            Ok(title) => Ok(
                names::file_named(
                    match title {
                        Some(title) => title,
                        None => "Book"@,
                    },
                    hex(sha256(data)),
                    format.suffix(),
                ),
            ),
        },
    }
}

/// Check a downloaded book, and name the file it is saved as in the import
/// folder; `told` is what a PDF says it is called.
pub fn publish_as(data: &[u8], format: Format, told: Option<String>) -> (r: Result<String, String>)
    ensures
        result_view(r) == published_name(data@, format, told.deep_view()),
{
    if let Err(words) = crate::format::validate(format, data) {
        return Err(
            text::concat4(
                "The catalogue did not deliver a readable ",
                format.label(),
                ": ",
                words.as_str(),
            ),
        );
    }
    let title = match format {
        Format::Epub => match epub::metadata(data) {
            Ok(Some(metadata)) => metadata.title,
            Ok(None) => None,
            Err(words) => return Err(words),
        },
        Format::Pdf => told,
        Format::Cbz => None,
    };
    let title = match title {
        Some(title) => title,
        None => "Book".to_owned(),
    };
    Ok(names::digest_name(title.as_str(), data, format.extension()))
}

/// Whether a name, or a refusal to give one, is what a book gets for what it says it
/// is called.
pub open spec fn published_for(
    data: Seq<u8>,
    format: Format,
    result: Result<Seq<char>, Seq<char>>,
) -> bool {
    if format == Format::Pdf {
        exists|info: pdf::InfoView| #[trigger]
            pdf::told(data, info) && result == published_name(data, format, info.title)
    } else {
        result == published_name(data, format, None)
    }
}

/// Check a downloaded book, and name the file it is saved as in the import
/// folder. How a PDF is read is left to its parser.
pub fn publish(data: &[u8], format: Format) -> (r: Result<String, String>)
    ensures
        published_for(data@, format, result_view(r)),
{
    match format {
        Format::Pdf => {
            let info = pdf::info(data);
            let ghost said = info@;
            let r = publish_as(data, format, info.title);
            proof {
                assert(pdf::told(data@, said));
            }
            r
        },
        _ => publish_as(data, format, None),
    }
}

} // verus!
