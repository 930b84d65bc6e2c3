//! What is made of a catalogue's offers.
use super::feed::{
    authors_in, child, child_text, encoded, entries_in, entry_of, feed_address, feed_in, is_template,
    kind_of, kinds_differ, leads, length_of, link, linked, live, offered, offers_in, published_name, query_address, replaced,
    root_from, template_from,
};
use super::{
    base_of, best_from, format_of, is_best, is_book, is_entry, is_navigation, is_token, rank_less, DeliveryView,
    EntryView, FeedView, IndirectView, Kind, OfferView,
};
use crate::crosspoint::{address_parts, endpoint_of, AddressView};
use crate::digest::{hex, sha256};
use crate::epub;
use crate::format::{format_problem, Format};
use crate::names;
use crate::text;
use crate::xml::NodeView;
use vstd::prelude::*;

verus! {

broadcast use vstd::string::group_string_axioms;

/// Whether an offer asks for nothing in return.
pub open spec fn free(kind: Kind) -> bool {
    kind == Kind::OpenAccess || kind == Kind::Direct
}

/// The offer that is taken: a book before a request for one, either before what cannot be
/// read; and of offers alike in that, a free one before a loan, and a loan before a
/// sample or a sale.
pub proof fn the_best_offer_is_taken(offers: Seq<OfferView>, at: int, i: int)
    requires
        is_best(offers, at),
        0 <= i < offers.len(),
    ensures
        offers[i].delivery() is Book ==> offers[at].delivery() is Book,
        offers[at].delivery() is Unsupported ==> offers[i].delivery() is Unsupported,
        (offers[i].delivery() is Book == offers[at].delivery() is Book) && (offers[i].delivery()
            is Acsm == offers[at].delivery() is Acsm) ==> (free(offers[i].kind) ==> free(
            offers[at].kind,
        )) && (offers[i].kind == Kind::Borrow ==> free(offers[at].kind) || offers[at].kind
            == Kind::Borrow),
{
    assert(!rank_less(offers[i].rank(), offers[at].rank()));
}

/// An offer of a file that can be read is a book, whatever is said behind its type.
pub proof fn readable_types_are_read(rest: Seq<char>)
    ensures
        format_of("application/epub+zip"@) == Some(Format::Epub),
        format_of("application/epub+zip"@ + ";"@ + rest) == Some(Format::Epub),
        format_of("application/pdf"@ + ";"@ + rest) == Some(Format::Pdf),
        format_of("application/x-cbz"@ + ";"@ + rest) == Some(Format::Cbz),
        format_of("application/vnd.comicbook+zip"@ + ";"@ + rest) == Some(Format::Cbz),
{
    reveal_strlit("application/epub+zip");
    reveal_strlit("application/pdf");
    reveal_strlit("application/x-cbz");
    reveal_strlit("application/vnd.comicbook+zip");
    plain_type("application/epub+zip"@, rest);
    plain_type("application/pdf"@, rest);
    plain_type("application/x-cbz"@, rest);
    plain_type("application/vnd.comicbook+zip"@, rest);
    assert("application/pdf"@.len() != "application/epub+zip"@.len());
    assert("application/x-cbz"@.len() == 17);
    assert("application/vnd.comicbook+zip"@.len() == 29);
}

proof fn plain_type(t: Seq<char>, rest: Seq<char>)
    requires
        t.len() > 1,
        forall|i: int| 0 <= i < t.len() ==> #[trigger] t[i] != ';' && !text::white(t[i]),
        t.last() != '/',
    ensures
        base_of(t) == t,
        base_of(t + ";"@ + rest) == t,
{
    reveal_strlit(";");
    let n = t.len() as int;
    text::index_from_range(t, ';', 0);
    assert(t.take(n) =~= t);
    assert(!text::white(t[0]) && !text::white(t[n - 1]));
    assert(text::trimmed(t) == t);
    let long = t + ";"@ + rest;
    text::index_from_range(long, ';', 0);
    assert(long[n] == ';');
    let at = text::index_from(long, ';', 0);
    if at < n {
        assert(long[at] == t[at]);
    }
    assert(long.take(n) =~= t);
}

/// A chain that holds a readable book anywhere along it leads to a book.
pub proof fn a_book_in_a_chain_is_found(
    steps: Seq<IndirectView>,
    from: int,
    token: Option<Format>,
    i: int,
)
    requires
        0 <= from <= i < steps.len(),
        format_of(steps[i].media_type) is Some,
    ensures
        best_from(steps, from, token) matches Some(DeliveryView::Book(_)),
    decreases i - from,
{
    if from < i && format_of(steps[from].media_type) is None {
        let step = steps[from];
        let next = if is_token(step.media_type) && token is None {
            Some(super::or_epub(super::first_format(step.inner, 0)))
        } else if is_entry(step.media_type) && token is None {
            match best_from(step.inner, 0, None) {
                Some(DeliveryView::Acsm(format)) => Some(format),
                _ => token,
            }
        } else {
            token
        };
        a_book_in_a_chain_is_found(steps, from + 1, next, i);
        a_book_in_a_chain_is_found(steps, from + 1, token, i);
    }
}

/// A chain that holds a request for a book leads to something: to a book, or to that
/// request.
pub proof fn a_request_in_a_chain_is_found(
    steps: Seq<IndirectView>,
    from: int,
    token: Option<Format>,
    i: int,
)
    requires
        0 <= from <= steps.len(),
        token is Some || (from <= i < steps.len() && is_token(steps[i].media_type)),
    ensures
        best_from(steps, from, token) is Some,
    decreases steps.len() - from,
{
    if from < steps.len() && format_of(steps[from].media_type) is None {
        let step = steps[from];
        if is_token(step.media_type) {
            a_request_in_a_chain_is_found(
                steps,
                from + 1,
                if token is Some {
                    token
                } else {
                    Some(super::or_epub(super::first_format(step.inner, 0)))
                },
                i,
            );
        } else if is_entry(step.media_type) {
            if let Some(DeliveryView::Acsm(format)) = best_from(step.inner, 0, None) {
                a_request_in_a_chain_is_found(
                    steps,
                    from + 1,
                    if token is Some {
                        token
                    } else {
                        Some(format)
                    },
                    i,
                );
            }
            a_request_in_a_chain_is_found(steps, from + 1, token, i);
        } else {
            a_request_in_a_chain_is_found(steps, from + 1, token, i);
        }
    }
}

proof fn offers_hold(nodes: Seq<NodeView>, parent: int, base: Seq<char>, n: int, i: int)
    requires
        0 <= i < n,
        live(nodes, parent, base, i),
        kind_of(nodes[i].attribute("rel"@)->0) is Some,
    ensures
        offers_in(nodes, parent, base, n).contains(
            offered(
                nodes,
                i,
                kind_of(nodes[i].attribute("rel"@)->0)->0,
                leads(base, nodes[i].attribute("href"@)->0)->0,
            ),
        ),
    decreases n,
{
    let all = offers_in(nodes, parent, base, n);
    let rest = offers_in(nodes, parent, base, n - 1);
    let offer = offered(
        nodes,
        i,
        kind_of(nodes[i].attribute("rel"@)->0)->0,
        leads(base, nodes[i].attribute("href"@)->0)->0,
    );
    if i == n - 1 {
        assert(all.last() == offer);
    } else {
        offers_hold(nodes, parent, base, n - 1, i);
        let k = choose|k: int| 0 <= k < rest.len() && rest[k] == offer;
        assert(all[k] == offer);
    }
}

/// Every link of an entry by which a book can be had is one of its offers: of the kind
/// that the link's relation says, at the address that it leads to, of the type that it
/// gives.
pub proof fn every_acquisition_is_offered(
    nodes: Seq<NodeView>,
    entry: int,
    base: Seq<char>,
    i: int,
    kind: Kind,
    address: Seq<char>,
)
    requires
        child(nodes, entry, i),
        nodes[i].tagged(super::feed::ATOM@, "link"@),
        nodes[i].attribute("rel"@) == Some(kind.relation()),
        nodes[i].attribute("href"@) is Some,
        leads(base, nodes[i].attribute("href"@)->0) == Some(address),
    ensures
        exists|k: int|
            0 <= k < entry_of(nodes, entry, base).offers.len() && ({
                let offer = #[trigger] entry_of(nodes, entry, base).offers[k];
                offer.kind == kind && offer.href == address && (nodes[i].attribute(
                    "type"@,
                ) matches Some(t) ==> offer.media_type == t)
            }),
{
    assert(link(nodes, entry, i));
    let rel = kind.relation();
    let found = kind_of(rel)->0;
    assert(rel == kind.relation());
    assert(kind_of(rel) is Some);
    kinds_differ(found, kind);
    offers_hold(nodes, entry, base, nodes.len() as int, i);
    let offers = entry_of(nodes, entry, base).offers;
    let offer = offered(nodes, i, kind, address);
    let k = choose|k: int| 0 <= k < offers.len() && offers[k] == offer;
    assert(offers[k].kind == kind);
}

/// Every entry of a feed is in what is read of it.
pub proof fn every_entry_is_read(nodes: Seq<NodeView>, parent: int, base: Seq<char>, n: int, i: int)
    requires
        0 <= i < n,
        child(nodes, parent, i),
        nodes[i].tagged(super::feed::ATOM@, "entry"@),
    ensures
        entries_in(nodes, parent, base, n).contains(entry_of(nodes, i, base)),
    decreases n,
{
    let all = entries_in(nodes, parent, base, n);
    let rest = entries_in(nodes, parent, base, n - 1);
    if i == n - 1 {
        assert(all.last() == entry_of(nodes, i, base));
    } else {
        every_entry_is_read(nodes, parent, base, n - 1, i);
        let k = choose|k: int| 0 <= k < rest.len() && rest[k] == entry_of(nodes, i, base);
        assert(all[k] == entry_of(nodes, i, base));
    }
}

/// What was asked for stands in a search address where the template has its place, and
/// nothing else of the template changes.
pub proof fn the_query_takes_its_place(
    before: Seq<char>,
    part: Seq<char>,
    after: Seq<char>,
    with: Seq<char>,
)
    requires
        part.len() > 0,
        text::first_at(before + part + after, part, 0, before.len() as int),
        !text::within(after, part),
    ensures
        replaced(before + part + after, part, with, 0) == before + with + after,
{
    let whole = before + part + after;
    let n = before.len() as int;
    text::seek_range(whole, part, 0);
    let i = text::seek(whole, part, 0);
    if i == -1 {
        assert(!text::at(whole, part, n));
    } else if i < n {
        assert(!text::at(whole, part, i));
    } else if i > n {
        assert(!text::at(whole, part, n));
    }
    let end = (n + part.len()) as int;
    text::seek_range(whole, part, end);
    let j = text::seek(whole, part, end);
    if j >= 0 {
        assert(after.subrange(j - end, j - end + part.len()) =~= whole.subrange(
            j,
            j + part.len(),
        ));
        assert(text::at(after, part, j - end));
    }
    assert(whole.skip(end) =~= after);
    assert(whole.subrange(0, n) =~= before);
    assert(replaced(whole, part, with, end) == after);
}

proof fn link_is_followed(
    nodes: Seq<NodeView>,
    parent: int,
    base: Seq<char>,
    rel: Seq<char>,
    n: int,
    i: int,
)
    requires
        0 <= i < n,
        link(nodes, parent, i),
        nodes[i].attribute("rel"@) == Some(rel),
        forall|j: int|
            i < j < n ==> !(link(nodes, parent, j) && (#[trigger] nodes[j]).attribute("rel"@)
                == Some(rel)),
    ensures
        linked(nodes, parent, base, rel, n) == leads(base, nodes[i].attribute("href"@)->0),
    decreases n,
{
    if i < n - 1 {
        assert(!(link(nodes, parent, n - 1) && nodes[n - 1].attribute("rel"@) == Some(rel)));
        link_is_followed(nodes, parent, base, rel, n - 1, i);
    }
}

/// A feed leads on to its next page where it says so.
pub proof fn a_feed_leads_to_its_next_page(
    nodes: Seq<NodeView>,
    base: Seq<char>,
    feed: FeedView,
    i: int,
)
    requires
        feed_in(nodes, base) == Ok::<FeedView, Seq<char>>(feed),
        link(nodes, root_from(nodes, 0), i),
        nodes[i].attribute("rel"@) == Some("next"@),
        forall|j: int|
            i < j < nodes.len() ==> !(link(nodes, root_from(nodes, 0), j) && (
            #[trigger] nodes[j]).attribute("rel"@) == Some("next"@)),
    ensures
        feed.next == leads(base, nodes[i].attribute("href"@)->0),
{
    link_is_followed(nodes, root_from(nodes, 0), base, "next"@, nodes.len() as int, i);
}

proof fn author_is_read(nodes: Seq<NodeView>, parent: int, n: int, i: int, name: Seq<char>)
    requires
        0 <= i < n,
        child(nodes, parent, i),
        nodes[i].tagged(super::feed::ATOM@, "author"@),
        child_text(nodes, i, super::feed::ATOM@, "name"@) == Some(name),
    ensures
        authors_in(nodes, parent, n).contains(name),
    decreases n,
{
    let all = authors_in(nodes, parent, n);
    let rest = authors_in(nodes, parent, n - 1);
    if i == n - 1 {
        assert(all.last() == name);
    } else {
        author_is_read(nodes, parent, n - 1, i, name);
        let k = choose|k: int| 0 <= k < rest.len() && rest[k] == name;
        assert(all[k] == name);
    }
}

/// Every author that an entry gives is one of its authors, and its title and summary are
/// what it says.
pub proof fn an_entry_says_who_wrote_it(
    nodes: Seq<NodeView>,
    entry: int,
    base: Seq<char>,
    i: int,
    name: Seq<char>,
)
    ensures
        child(nodes, entry, i) && nodes[i].tagged(super::feed::ATOM@, "author"@) && child_text(
            nodes,
            i,
            super::feed::ATOM@,
            "name"@,
        ) == Some(name) ==> entry_of(nodes, entry, base).authors.contains(name),
        child_text(nodes, entry, super::feed::ATOM@, "title"@) matches Some(title) ==> entry_of(
            nodes,
            entry,
            base,
        ).title == title,
        entry_of(nodes, entry, base).summary == child_text(
            nodes,
            entry,
            super::feed::ATOM@,
            "summary"@,
        ),
{
    if child(nodes, entry, i) && nodes[i].tagged(super::feed::ATOM@, "author"@) && child_text(
        nodes,
        i,
        super::feed::ATOM@,
        "name"@,
    ) == Some(name) {
        author_is_read(nodes, entry, nodes.len() as int, i, name);
    }
}

/// A book can be had when some offer of it can be acted on.
pub proof fn a_book_can_be_had_by_any_offer(entry: EntryView, i: int)
    ensures
        0 <= i < entry.offers.len() && (entry.offers[i].delivery() is Book
            || entry.offers[i].delivery() is Acsm) ==> entry.deliverable(),
        (forall|k: int|
            0 <= k < entry.offers.len() ==> (#[trigger] entry.offers[k]).delivery() is Unsupported)
            ==> !entry.deliverable(),
{
}

/// An offer of a file that can be read is that book, and a request for one leads to it by
/// way of the request.
pub proof fn an_offer_is_what_it_delivers(offer: OfferView)
    ensures
        format_of(offer.media_type) matches Some(format) ==> offer.delivery()
            == DeliveryView::Book(format),
        format_of(offer.media_type) is None && is_token(offer.media_type) ==> offer.delivery()
            is Acsm,
        format_of(offer.media_type) is None && !is_token(offer.media_type) && best_from(
            offer.indirect,
            0,
            None,
        ) is None ==> offer.delivery() is Unsupported,
{
}

/// An entry with offers is a book, and one that only leads on is none.
pub proof fn a_book_is_what_is_offered(entry: EntryView)
    ensures
        entry.offers.len() > 0 ==> is_book(entry) && !is_navigation(entry),
        entry.offers.len() == 0 ==> !is_book(entry),
        entry.offers.len() == 0 && entry.subsection is Some ==> is_navigation(entry),
        entry.subsection is None ==> !is_navigation(entry),
{
}

/// A catalogue is fetched over the web, from the address that was given.
pub proof fn a_catalogue_is_on_the_web(url: Seq<char>, base: AddressView)
    ensures
        address_parts(url) == Ok::<AddressView, Seq<char>>(base) ==> (feed_address(url) is Ok <==> (
        base.scheme == "http"@ || base.scheme == "https"@)),
        address_parts(url) is Err ==> feed_address(url) is Err,
        address_parts(url) == Ok::<AddressView, Seq<char>>(base) && feed_address(url) is Ok
            ==> feed_address(url)->Ok_0 == base.whole,
{
}

/// Only what can be read is saved, and its name has the digest of its bytes in it.
pub proof fn only_what_can_be_read_is_saved(data: Seq<u8>, format: Format, told: Option<Seq<char>>)
    ensures
        published_name(data, format, told) is Ok ==> format_problem(format, data) is None,
        format_problem(format, data) is None && format != Format::Epub ==> published_name(
            data,
            format,
            told,
        ) is Ok,
        published_name(data, Format::Pdf, told) matches Ok(name) ==> (told matches Some(title) ==> (
        name == names::titled(title) + " ["@ + hex(sha256(data)).take(12) + "]."@ + "pdf"@)),
        published_name(data, Format::Cbz, told) matches Ok(name) ==> name == names::titled(
            "Book"@,
        ) + " ["@ + hex(sha256(data)).take(12) + "]."@ + "cbz"@,
        published_name(data, Format::Epub, told) matches Ok(name) ==> (epub::metadata_of(
            data,
        ) matches Ok(Some(metadata)) ==> (metadata.title matches Some(title) ==> name
            == names::titled(title) + " ["@ + hex(sha256(data)).take(12) + "]."@ + "epub"@)),
{
}

/// The first author stands for a book; that there are others is said.
pub proof fn the_first_author_stands_for_a_book(entry: EntryView)
    ensures
        entry.authors.len() == 1 ==> entry.author() == entry.authors[0],
        entry.authors.len() > 1 ==> entry.author() == entry.authors[0] + " and others"@,
        entry.authors.len() == 0 ==> entry.author() == "Unknown author"@,
{
}

proof fn first_template(nodes: Seq<NodeView>, from: int, i: int)
    requires
        0 <= from <= i < nodes.len(),
        is_template(nodes[i]),
        forall|k: int| from <= k < i ==> !is_template(#[trigger] nodes[k]),
    ensures
        template_from(nodes, from) == nodes[i].attribute("template"@),
    decreases i - from,
{
    if from < i {
        first_template(nodes, from + 1, i);
    }
}

/// A catalogue is searched by the first template that leads to a feed rather than to a
/// web page, with the query in its place.
pub proof fn a_catalogue_is_searched_by_its_template(
    description: Seq<char>,
    nodes: Seq<NodeView>,
    query: Seq<char>,
    i: int,
    template: Seq<char>,
    kind: Seq<char>,
)
    requires
        0 <= i < nodes.len(),
        nodes[i].tagged(super::feed::OPENSEARCH@, "Url"@),
        nodes[i].attribute("template"@) == Some(template),
        nodes[i].attribute("type"@) == Some(kind),
        text::within(kind, "opds-catalog"@),
        forall|k: int|
            0 <= k < i ==> !((#[trigger] nodes[k]).attribute("type"@) is Some && text::within(
                nodes[k].attribute("type"@)->0,
                "opds-catalog"@,
            )),
    ensures
        query_address(description, nodes, query) == endpoint_of(
            description,
            replaced(template, "{searchTerms}"@, encoded(query), 0),
            None,
        ),
{
    first_template(nodes, 0, i);
}

/// A request that stands inside another entry is found there.
pub proof fn a_request_inside_an_entry_is_found(
    steps: Seq<IndirectView>,
    from: int,
    token: Option<Format>,
    i: int,
)
    requires
        0 <= from <= i < steps.len(),
        is_entry(steps[i].media_type),
        !is_token(steps[i].media_type),
        best_from(steps[i].inner, 0, None) is Some,
        best_from(steps[i].inner, 0, None)->0 is Acsm,
    ensures
        best_from(steps, from, token) is Some,
    decreases steps.len() - from,
{
    let step = steps[from];
    if format_of(step.media_type) is None {
        let after = if is_token(step.media_type) {
            if token is Some {
                token
            } else {
                Some(super::or_epub(super::first_format(step.inner, 0)))
            }
        } else if is_entry(step.media_type) {
            match best_from(step.inner, 0, None) {
                Some(DeliveryView::Acsm(format)) => if token is Some {
                    token
                } else {
                    Some(format)
                },
                _ => token,
            }
        } else {
            token
        };
        if after is Some {
            a_request_in_a_chain_is_found(steps, from + 1, after, from);
        } else {
            a_request_inside_an_entry_is_found(steps, from + 1, token, i);
        }
    }
}

/// A link that gives a length gives the number that it writes.
pub proof fn a_length_is_the_number_written(n: u64)
    ensures
        length_of(text::decimal(n as nat)) == Some(n),
        length_of(seq!['+'] + text::decimal(n as nat)) == Some(n),
        length_of(Seq::empty()) is None,
{
    let s = text::decimal(n as nat);
    text::laws::numbers_read_as_they_are_written(n as nat);
    assert(text::digit(s[0]));
    assert(text::all_digits(s));
    assert((seq!['+'] + s).skip(1) =~= s);
}

} // verus!
