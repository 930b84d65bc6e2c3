//! Kobo's own flavour of EPUB.
//!
//! A sideloaded EPUB is read by the Kobo's generic engine, which tracks
//! progress poorly and keeps no statistics. A book named `.kepub.epub` whose
//! text is divided into `koboSpan` elements is read by the engine the store's
//! own books get.
//!
//! The danger here is quiet corruption: a book that still opens but reads
//! wrongly. So the rewrite is deliberately shallow: it never parses and
//! re-serializes a document, only splices spans around text it has already
//! found, and every document it touches must still parse afterwards, or the
//! whole conversion is refused rather than a broken book written.
use crate::archive;
use crate::archive::{
    bytes_of, members_of, named_bytes, read_named, Member, MemberView, Packed, PackedView,
};
use crate::epub;
use crate::epub::{escaped_byte, find_package, package_path, unescape};
use crate::paths;
use crate::text;
use crate::text::decoded;
use crate::values::Duplicate;
use crate::xml;
use crate::xml::{Node, NodeView};
use vstd::prelude::*;

pub mod laws;

verus! {

broadcast use vstd::string::group_string_axioms;

/// The whitespace of ASCII: space, tab, line feed, form feed, carriage return.
pub open spec fn ascii_white(c: char) -> bool {
    ||| c == ' '
    ||| c == '\t'
    ||| c == '\n'
    ||| c == '\u{c}'
    ||| c == '\r'
}

fn is_ascii_white(c: char) -> (r: bool)
    ensures
        r == ascii_white(c),
{
    c == ' ' || c == '\t' || c == '\n' || c == '\u{c}' || c == '\r'
}

/// Where a sentence may end: at a full stop, an exclamation or a question mark
/// before whitespace or the end.
pub open spec fn ends_at(s: Seq<char>, i: int) -> bool {
    &&& 0 <= i < s.len()
    &&& s[i] == '.' || s[i] == '!' || s[i] == '?'
    &&& i + 1 == s.len() || ascii_white(s[i + 1])
}

pub fn sentence_end(s: &[char], i: usize) -> (r: bool)
    ensures
        r == ends_at(s@, i as int),
{
    i < s.len() && (s[i] == '.' || s[i] == '!' || s[i] == '?') && (i == s.len() - 1
        || is_ascii_white(s[i + 1]))
}

/// The first position from `from` on that is no whitespace, or the length.
pub open spec fn past_white(s: Seq<char>, from: int) -> int
    decreases s.len() - from,
{
    if from < 0 || from >= s.len() {
        s.len() as int
    } else if ascii_white(s[from]) {
        past_white(s, from + 1)
    } else {
        from
    }
}

proof fn past_white_range(s: Seq<char>, from: int)
    requires
        0 <= from <= s.len(),
    ensures
        from <= past_white(s, from) <= s.len(),
    decreases s.len() - from,
{
    if from < s.len() && ascii_white(s[from]) {
        past_white_range(s, from + 1);
    }
}

/// A text from `start` on cut where sentences end, looking from `at` on. The
/// punctuation and the space after it stay with the sentence.
pub open spec fn cut(s: Seq<char>, start: int, at: int) -> Seq<Seq<char>>
    decreases s.len() - at,
    via cut_decreases
{
    if at < 0 || at >= s.len() {
        if 0 <= start < s.len() {
            seq![s.skip(start)]
        } else {
            Seq::empty()
        }
    } else if ends_at(s, at) {
        let end = past_white(s, at + 1);
        seq![s.subrange(start, end)] + cut(s, end, end)
    } else {
        cut(s, start, at + 1)
    }
}

#[via_fn]
proof fn cut_decreases(s: Seq<char>, start: int, at: int) {
    if 0 <= at < s.len() {
        past_white_range(s, at + 1);
    }
}

/// The sentences of a text.
pub open spec fn sentences_of(s: Seq<char>) -> Seq<Seq<char>> {
    cut(s, 0, 0)
}

/// Texts put one behind the other.
pub open spec fn run(parts: Seq<Seq<char>>) -> Seq<char>
    decreases parts.len(),
{
    if parts.len() == 0 {
        Seq::empty()
    } else {
        parts[0] + run(parts.drop_first())
    }
}

proof fn cut_keeps_all(s: Seq<char>, start: int, at: int)
    requires
        0 <= start <= at <= s.len(),
    ensures
        run(cut(s, start, at)) == s.skip(start),
    decreases s.len() - at,
{
    if at >= s.len() {
        if start < s.len() {
            let parts = cut(s, start, at);
            reveal_with_fuel(run, 2);
            assert(run(parts) =~= s.skip(start));
        } else {
            assert(s.skip(start) =~= Seq::<char>::empty());
        }
    } else if ends_at(s, at) {
        let end = past_white(s, at + 1);
        past_white_range(s, at + 1);
        cut_keeps_all(s, end, end);
        let parts = cut(s, start, at);
        assert(parts.drop_first() =~= cut(s, end, end));
        assert(s.subrange(start, end) + s.skip(end) =~= s.skip(start));
    } else {
        cut_keeps_all(s, start, at + 1);
    }
}

/// Cutting a text into sentences keeps every character of it, in order.
pub proof fn sentences_keep_every_character(s: Seq<char>)
    ensures
        run(sentences_of(s)) == s,
{
    cut_keeps_all(s, 0, 0);
    assert(s.skip(0) =~= s);
}

/// Split a run of text where sentences end, keeping every character.
pub fn sentences(words: &str) -> (r: Vec<String>)
    ensures
        r.deep_view() == sentences_of(words@),
        run(r.deep_view()) == words@,
{
    let s = text::chars(words);
    let ghost all = sentences_of(words@);
    let mut out: Vec<String> = Vec::new();
    let mut start: usize = 0;
    let mut at: usize = 0;
    proof {
        assert(out.deep_view() + cut(s@, 0, 0) =~= all);
    }
    while at < s.len()
        invariant
            start <= at <= s@.len(),
            out.deep_view() + cut(s@, start as int, at as int) == all,
        decreases s@.len() - at,
    {
        if sentence_end(s.as_slice(), at) {
            let ghost so_far = out.deep_view();
            let mut end: usize = at + 1;
            while end < s.len() && is_ascii_white(s[end])
                invariant
                    at < end <= s@.len(),
                    past_white(s@, at as int + 1) == past_white(s@, end as int),
                decreases s@.len() - end,
            {
                end += 1;
            }
            let part = text::slice(s.as_slice(), start, end);
            out.push(part);
            proof {
                assert(out.deep_view() =~= so_far.push(part@));
                assert(so_far + (seq![part@] + cut(s@, end as int, end as int)) =~= so_far.push(
                    part@,
                ) + cut(s@, end as int, end as int));
            }
            start = end;
            at = end;
        } else {
            at += 1;
        }
    }
    if start < s.len() {
        let ghost so_far = out.deep_view();
        let part = text::slice(s.as_slice(), start, s.len());
        out.push(part);
        proof {
            assert(part@ =~= s@.skip(start as int));
            assert(out.deep_view() =~= so_far.push(part@));
            assert(so_far + seq![part@] =~= so_far.push(part@));
        }
    } else {
        proof {
            assert(out.deep_view() + Seq::<Seq<char>>::empty() =~= out.deep_view());
        }
    }
    proof {
        sentences_keep_every_character(words@);
    }
    out
}

/// A part of a divided document: something carried across as it was, or a
/// sentence with a span around it.
pub enum Piece {
    Kept(Seq<char>),
    Span { paragraph: nat, segment: nat, words: Seq<char> },
}

impl Piece {
    pub open spec fn written(self) -> Seq<char> {
        match self {
            Piece::Kept(words) => words,
            Piece::Span { paragraph, segment, words } => "<span class=\"koboSpan\" id=\"kobo."@
                + text::decimal(paragraph) + "."@ + text::decimal(segment) + "\">"@ + words
                + "</span>"@,
        }
    }

    /// What the piece was before it was divided.
    pub open spec fn plain(self) -> Seq<char> {
        match self {
            Piece::Kept(words) => words,
            Piece::Span { paragraph, segment, words } => words,
        }
    }
}

pub open spec fn written(pieces: Seq<Piece>) -> Seq<char>
    decreases pieces.len(),
{
    if pieces.len() == 0 {
        Seq::empty()
    } else {
        pieces[0].written() + written(pieces.drop_first())
    }
}

pub open spec fn plain(pieces: Seq<Piece>) -> Seq<char>
    decreases pieces.len(),
{
    if pieces.len() == 0 {
        Seq::empty()
    } else {
        pieces[0].plain() + plain(pieces.drop_first())
    }
}

proof fn one_kept(words: Seq<char>)
    ensures
        written(seq![Piece::Kept(words)]) == words,
        plain(seq![Piece::Kept(words)]) == words,
{
    reveal_with_fuel(written, 2);
    reveal_with_fuel(plain, 2);
    assert(words + Seq::<char>::empty() =~= words);
}

proof fn written_joins(a: Seq<Piece>, b: Seq<Piece>)
    ensures
        written(a + b) == written(a) + written(b),
        plain(a + b) == plain(a) + plain(b),
    decreases a.len(),
{
    if a.len() == 0 {
        assert(a + b =~= b);
        assert(written(a) + written(b) =~= written(b));
        assert(plain(a) + plain(b) =~= plain(b));
    } else {
        written_joins(a.drop_first(), b);
        assert((a + b).drop_first() =~= a.drop_first() + b);
        assert(a[0].written() + (written(a.drop_first()) + written(b)) =~= (a[0].written()
            + written(a.drop_first())) + written(b));
        assert(a[0].plain() + (plain(a.drop_first()) + plain(b)) =~= (a[0].plain() + plain(
            a.drop_first(),
        )) + plain(b));
    }
}

/// The sentences of one run of text as spans. A sentence of nothing but
/// whitespace gets none.
pub open spec fn divided(sentences: Seq<Seq<char>>, paragraph: nat, segment: nat) -> Seq<Piece>
    decreases sentences.len(),
{
    if sentences.len() == 0 {
        Seq::empty()
    } else if text::trimmed(sentences[0]).len() == 0 {
        seq![Piece::Kept(sentences[0])] + divided(sentences.drop_first(), paragraph, segment)
    } else {
        seq![Piece::Span { paragraph, segment, words: sentences[0] }] + divided(
            sentences.drop_first(),
            paragraph,
            segment + 1,
        )
    }
}

proof fn dividing_keeps_the_words(sentences: Seq<Seq<char>>, paragraph: nat, segment: nat)
    ensures
        plain(divided(sentences, paragraph, segment)) == run(sentences),
    decreases sentences.len(),
{
    if sentences.len() > 0 {
        let rest = sentences.drop_first();
        let d = divided(sentences, paragraph, segment);
        if text::trimmed(sentences[0]).len() == 0 {
            dividing_keeps_the_words(rest, paragraph, segment);
            assert(d.drop_first() =~= divided(rest, paragraph, segment));
        } else {
            dividing_keeps_the_words(rest, paragraph, segment + 1);
            assert(d.drop_first() =~= divided(rest, paragraph, segment + 1));
        }
    }
}

/// Where a tag that opens at a position ends, whatever it is: a comment, CDATA
/// or an element. -1 when it does not.
pub open spec fn tag_end(s: Seq<char>, open: int) -> int {
    if text::at(s, "<!--"@, open) {
        let close = text::seek(s, "-->"@, open);
        if close < 0 {
            -1
        } else {
            close + 3
        }
    } else if text::at(s, "<![CDATA["@, open) {
        let close = text::seek(s, "]]>"@, open);
        if close < 0 {
            -1
        } else {
            close + 3
        }
    } else {
        let close = text::index_from(s, '>', open);
        if close >= s.len() {
            -1
        } else {
            close + 1
        }
    }
}

proof fn tag_end_range(s: Seq<char>, open: int)
    requires
        0 <= open < s.len(),
    ensures
        tag_end(s, open) == -1 || open < tag_end(s, open) <= s.len(),
{
    reveal_strlit("-->");
    reveal_strlit("]]>");
    text::seek_range(s, "-->"@, open);
    text::seek_range(s, "]]>"@, open);
    text::index_from_range(s, '>', open);
}

/// A text without any of the characters it starts with that are `c`.
pub open spec fn without_leading(s: Seq<char>, c: char) -> Seq<char>
    decreases s.len(),
{
    if s.len() > 0 && s[0] == c {
        without_leading(s.drop_first(), c)
    } else {
        s
    }
}

pub open spec fn ascii_word(c: char) -> bool {
    ('0' <= c <= '9') || ('a' <= c <= 'z') || ('A' <= c <= 'Z')
}

/// The letters and digits of ASCII that a text starts with.
pub open spec fn leading_word(s: Seq<char>) -> Seq<char>
    decreases s.len(),
{
    if s.len() > 0 && ascii_word(s[0]) {
        seq![s[0]] + leading_word(s.drop_first())
    } else {
        Seq::empty()
    }
}

/// The name of the element a tag opens or closes, in small letters.
pub open spec fn tag_name(tag: Seq<char>) -> Seq<char> {
    text::ascii_lowered(leading_word(without_leading(without_leading(tag, '<'), '/')))
}

/// Elements whose text is markup or machinery, not prose.
pub open spec fn machinery(name: Seq<char>) -> bool {
    name == "script"@ || name == "style"@ || name == "pre"@
}

/// The element whose text is being left alone behind a tag, given the one
/// before it.
pub open spec fn skipping_after(skipping: Option<Seq<char>>, tag: Seq<char>) -> Option<Seq<char>> {
    match skipping {
        Some(open) => if text::starts(tag, "</"@) && tag_name(tag) == open {
            None
        } else {
            skipping
        },
        None => if machinery(tag_name(tag)) && !text::ends(tag, "/>"@) {
            Some(tag_name(tag))
        } else {
            None
        },
    }
}

/// The pieces of a body from `index` on.
pub open spec fn pieces_from(
    s: Seq<char>,
    index: int,
    paragraph: nat,
    skipping: Option<Seq<char>>,
) -> Seq<Piece>
    decreases s.len() - index,
    via pieces_decreases
{
    let open = text::index_from(s, '<', index);
    if index < 0 || index >= s.len() || open >= s.len() {
        seq![Piece::Kept(s.skip(index))]
    } else {
        let words = s.subrange(index, open);
        let prose = skipping is None && text::trimmed(words).len() > 0;
        let shown = if prose {
            divided(sentences_of(words), paragraph, 1)
        } else {
            seq![Piece::Kept(words)]
        };
        let end = tag_end(s, open);
        if end < 0 {
            shown + seq![Piece::Kept(s.skip(open))]
        } else {
            let tag = s.subrange(open, end);
            shown + seq![Piece::Kept(tag)] + pieces_from(
                s,
                end,
                if prose {
                    paragraph + 1
                } else {
                    paragraph
                },
                skipping_after(skipping, tag),
            )
        }
    }
}

#[via_fn]
proof fn pieces_decreases(
    s: Seq<char>,
    index: int,
    paragraph: nat,
    skipping: Option<Seq<char>>,
) {
    if 0 <= index < s.len() {
        text::index_from_range(s, '<', index);
        let open = text::index_from(s, '<', index);
        if open < s.len() {
            tag_end_range(s, open);
        }
    }
}

proof fn pieces_keep_the_text(
    s: Seq<char>,
    index: int,
    paragraph: nat,
    skipping: Option<Seq<char>>,
)
    requires
        0 <= index <= s.len(),
    ensures
        plain(pieces_from(s, index, paragraph, skipping)) == s.skip(index),
    decreases s.len() - index,
{
    let open = text::index_from(s, '<', index);
    text::index_from_range(s, '<', index);
    if index >= s.len() || open >= s.len() {
        one_kept(s.skip(index));
    } else {
        let words = s.subrange(index, open);
        let prose = skipping is None && text::trimmed(words).len() > 0;
        let shown = if prose {
            divided(sentences_of(words), paragraph, 1)
        } else {
            seq![Piece::Kept(words)]
        };
        assert(plain(shown) == words) by {
            if prose {
                dividing_keeps_the_words(sentences_of(words), paragraph, 1);
                sentences_keep_every_character(words);
            } else {
                one_kept(words);
            }
        }
        tag_end_range(s, open);
        let end = tag_end(s, open);
        if end < 0 {
            let last = seq![Piece::Kept(s.skip(open))];
            one_kept(s.skip(open));
            written_joins(shown, last);
            assert(words + s.skip(open) =~= s.skip(index));
        } else {
            let tag = s.subrange(open, end);
            let next = if prose {
                paragraph + 1
            } else {
                paragraph
            };
            let rest = pieces_from(s, end, next, skipping_after(skipping, tag));
            pieces_keep_the_text(s, end, next, skipping_after(skipping, tag));
            let middle = seq![Piece::Kept(tag)];
            one_kept(tag);
            written_joins(shown, middle);
            written_joins(shown + middle, rest);
            assert(words + tag + s.skip(end) =~= s.skip(index));
        }
    }
}

/// Where the body of a document starts, behind its opening tag: everything
/// before is prologue. The length when there is none.
pub open spec fn body_start(s: Seq<char>) -> int {
    let small = text::seek(s, "<body"@, 0);
    let found = if small >= 0 {
        small
    } else {
        text::seek(s, "<BODY"@, 0)
    };
    if found < 0 {
        s.len() as int
    } else {
        let close = text::index_from(s, '>', found);
        if close >= s.len() {
            s.len() as int
        } else {
            close + 1
        }
    }
}

/// The pieces of a document.
pub open spec fn pieces_of(s: Seq<char>) -> Seq<Piece> {
    let start = body_start(s);
    seq![Piece::Kept(s.take(start))] + pieces_from(s.skip(start), 0, 1, None)
}

/// Dividing a document adds spans and nothing else: without the spans, every
/// character stands where it stood.
pub proof fn dividing_only_adds_spans(s: Seq<char>)
    ensures
        plain(pieces_of(s)) == s,
{
    body_start_range(s);
    let start = body_start(s);
    pieces_keep_the_text(s.skip(start), 0, 1, None);
    let head = seq![Piece::Kept(s.take(start))];
    let rest = pieces_from(s.skip(start), 0, 1, None);
    assert(pieces_of(s).drop_first() =~= rest);
    assert(s.skip(start).skip(0) =~= s.skip(start));
    assert(s.take(start) + s.skip(start) =~= s);
}

proof fn body_start_range(s: Seq<char>)
    ensures
        0 <= body_start(s) <= s.len(),
{
    text::seek_range(s, "<body"@, 0);
    text::seek_range(s, "<BODY"@, 0);
    let small = text::seek(s, "<body"@, 0);
    let found = if small >= 0 {
        small
    } else {
        text::seek(s, "<BODY"@, 0)
    };
    if found >= 0 {
        text::index_from_range(s, '>', found);
    }
}

fn write_span(out: &mut String, paragraph: u64, segment: u64, words: &str)
    ensures
        final(out)@ == old(out)@ + (Piece::Span {
            paragraph: paragraph as nat,
            segment: segment as nat,
            words: words@,
        }).written(),
{
    let ghost before = out@;
    let p = text::number(paragraph);
    let n = text::number(segment);
    let head = text::concat5(
        "<span class=\"koboSpan\" id=\"kobo.",
        p.as_str(),
        ".",
        n.as_str(),
        "\">",
    );
    let whole = text::concat3(head.as_str(), words, "</span>");
    out.push_str(whole.as_str());
}

fn write_sentences(out: &mut String, words: &str, paragraph: u64)
    requires
        words@.len() < u64::MAX,
    ensures
        final(out)@ == old(out)@ + written(divided(sentences_of(words@), paragraph as nat, 1)),
{
    let parts = sentences(words);
    let ghost all = parts.deep_view();
    let ghost start = out@;
    let mut segment: u64 = 1;
    proof {
        assert(all.skip(0) =~= all);
        sentences_are_not_empty(words@, 0, 0);
        assert(start + written(divided(all, paragraph as nat, 1)) =~= out@ + written(
            divided(all.skip(0), paragraph as nat, 1),
        ));
    }
    for i in 0..parts.len()
        invariant
            all == parts.deep_view(),
            1 <= segment <= i + 1,
            all.len() < u64::MAX,
            start + written(divided(all, paragraph as nat, 1)) == out@ + written(
                divided(all.skip(i as int), paragraph as nat, segment as nat),
            ),
    {
        let ghost rest = all.skip(i as int);
        let ghost so_far = out@;
        proof {
            assert(rest[0] == parts@[i as int]@);
            assert(rest.drop_first() =~= all.skip(i as int + 1));
        }
        let ghost d = divided(rest, paragraph as nat, segment as nat);
        let blank = text::trim(parts[i].as_str()).as_str().is_empty();
        if blank {
            out.push_str(parts[i].as_str());
            proof {
                assert(d.drop_first() =~= divided(
                    rest.drop_first(),
                    paragraph as nat,
                    segment as nat,
                ));
                assert(so_far + (rest[0] + written(d.drop_first())) =~= (so_far + rest[0])
                    + written(d.drop_first()));
            }
        } else {
            write_span(out, paragraph, segment, parts[i].as_str());
            proof {
                assert(d.drop_first() =~= divided(
                    rest.drop_first(),
                    paragraph as nat,
                    (segment + 1) as nat,
                ));
                assert(so_far + (d[0].written() + written(d.drop_first())) =~= (so_far
                    + d[0].written()) + written(d.drop_first()));
            }
            segment += 1;
        }
    }
    proof {
        assert(all.skip(all.len() as int) =~= Seq::<Seq<char>>::empty());
        assert(out@ + Seq::<char>::empty() =~= out@);
    }
}

proof fn sentences_are_not_empty(s: Seq<char>, start: int, at: int)
    requires
        0 <= start <= at <= s.len(),
    ensures
        cut(s, start, at).len() <= s.len() - start,
    decreases s.len() - at,
{
    if at < s.len() {
        if ends_at(s, at) {
            past_white_range(s, at + 1);
            let end = past_white(s, at + 1);
            sentences_are_not_empty(s, end, end);
        } else {
            sentences_are_not_empty(s, start, at + 1);
        }
    }
}

fn trim_leading(s: &[char], from: usize, c: char) -> (r: usize)
    requires
        from <= s@.len(),
    ensures
        from <= r <= s@.len(),
        without_leading(s@.skip(from as int), c) == s@.skip(r as int),
{
    let mut i: usize = from;
    while i < s.len() && s[i] == c
        invariant
            from <= i <= s@.len(),
            without_leading(s@.skip(from as int), c) == without_leading(s@.skip(i as int), c),
        decreases s@.len() - i,
    {
        proof {
            assert(s@.skip(i as int).drop_first() =~= s@.skip(i as int + 1));
        }
        i += 1;
    }
    i
}

fn is_ascii_word(c: char) -> (r: bool)
    ensures
        r == ascii_word(c),
{
    ('0' <= c && c <= '9') || ('a' <= c && c <= 'z') || ('A' <= c && c <= 'Z')
}

fn name_of(tag: &[char]) -> (r: String)
    ensures
        r@ == tag_name(tag@),
{
    proof {
        assert(tag@.skip(0) =~= tag@);
    }
    let first = trim_leading(tag, 0, '<');
    let from = trim_leading(tag, first, '/');
    let mut to: usize = from;
    let ghost rest = tag@.skip(from as int);
    proof {
        assert(rest =~= Seq::<char>::empty() + tag@.skip(to as int));
        assert(leading_word(rest) =~= tag@.subrange(from as int, to as int) + leading_word(
            tag@.skip(to as int),
        ));
    }
    while to < tag.len() && is_ascii_word(tag[to])
        invariant
            from <= to <= tag@.len(),
            rest == tag@.skip(from as int),
            leading_word(rest) == tag@.subrange(from as int, to as int) + leading_word(
                tag@.skip(to as int),
            ),
        decreases tag@.len() - to,
    {
        proof {
            let left = tag@.skip(to as int);
            assert(left.drop_first() =~= tag@.skip(to as int + 1));
            assert(tag@.subrange(from as int, to as int) + (seq![left[0]] + leading_word(
                left.drop_first(),
            )) =~= tag@.subrange(from as int, to as int + 1) + leading_word(
                tag@.skip(to as int + 1),
            ));
        }
        to += 1;
    }
    proof {
        assert(tag@.subrange(from as int, to as int) + Seq::<char>::empty() =~= tag@.subrange(
            from as int,
            to as int,
        ));
    }
    let word = text::slice(tag, from, to);
    text::to_ascii_lowercase(word.as_str())
}

fn next_skipping(skipping: Option<String>, tag: &[char]) -> (r: Option<String>)
    ensures
        r.deep_view() == skipping_after(skipping.deep_view(), tag@),
{
    let name = name_of(tag);
    let whole = text::string(tag);
    match skipping {
        Some(open) => if text::starts_with(whole.as_str(), "</") && text::same(
            name.as_str(),
            open.as_str(),
        ) {
            None
        } else {
            Some(open)
        },
        None => if (text::same(name.as_str(), "script") || text::same(name.as_str(), "style")
            || text::same(name.as_str(), "pre")) && !text::ends_with(whole.as_str(), "/>") {
            Some(name)
        } else {
            None
        },
    }
}

fn find_tag_end(s: &[char], open: usize) -> (r: Option<usize>)
    requires
        open < s@.len(),
    ensures
        match r {
            Some(end) => end == tag_end(s@, open as int) && open < end <= s@.len(),
            None => tag_end(s@, open as int) == -1,
        },
{
    let length: usize = s.len();
    proof {
        tag_end_range(s@, open as int);
        reveal_strlit("-->");
        reveal_strlit("]]>");
    }
    if text::is_at(s, text::chars("<!--").as_slice(), open) {
        match text::find(s, text::chars("-->").as_slice(), open) {
            Some(close) => Some(close + 3),
            None => None,
        }
    } else if text::is_at(s, text::chars("<![CDATA[").as_slice(), open) {
        match text::find(s, text::chars("]]>").as_slice(), open) {
            Some(close) => Some(close + 3),
            None => None,
        }
    } else {
        let close = text::find_char(s, '>', open);
        if close < s.len() {
            Some(close + 1)
        } else {
            None
        }
    }
}

fn find_body(s: &[char]) -> (r: usize)
    ensures
        r == body_start(s@),
        r <= s@.len(),
{
    proof {
        body_start_range(s@);
    }
    let found = match text::find(s, text::chars("<body").as_slice(), 0) {
        Some(found) => Some(found),
        None => text::find(s, text::chars("<BODY").as_slice(), 0),
    };
    match found {
        Some(found) => {
            let close = text::find_char(s, '>', found);
            if close < s.len() {
                close + 1
            } else {
                s.len()
            }
        },
        None => s.len(),
    }
}

/// Divide a document's prose into spans the Kobo can count.
///
/// This walks the markup rather than parsing it: anything between `<` and `>`
/// is copied untouched, and only the text between tags is wrapped. Nothing is
/// re-escaped, so entities arrive exactly as they left.
pub fn spans(document: &str) -> (r: String)
    ensures
        r@ == written(pieces_of(document@)),
{
    let all = text::chars(document);
    let start = find_body(all.as_slice());
    let mut out = text::slice(all.as_slice(), 0, start);
    let body = text::slice(all.as_slice(), start, all.len());
    let s = text::chars(body.as_str());
    let ghost rest = document@.skip(start as int);
    let ghost goal = written(pieces_of(document@));
    proof {
        assert(s@ =~= rest);
        let head = seq![Piece::Kept(document@.take(start as int))];
        one_kept(document@.take(start as int));
        written_joins(head, pieces_from(rest, 0, 1, None));
        assert(out@ =~= document@.take(start as int));
    }
    let mut paragraph: u64 = 1;
    let mut skipping: Option<String> = None;
    let mut index: usize = 0;
    let length: usize = s.len();
    loop
        invariant_except_break
            index <= s@.len() == length,
            1 <= paragraph <= index + 1,
            goal == out@ + written(
                pieces_from(s@, index as int, paragraph as nat, skipping.deep_view()),
            ),
        ensures
            index <= s@.len(),
            goal == out@ + s@.skip(index as int),
        decreases s@.len() - index,
    {
        if index == s.len() {
            proof {
                one_kept(s@.skip(index as int));
            }
            break;
        }
        let ghost before = out@;
        let ghost was = skipping.deep_view();
        let open = text::find_char(s.as_slice(), '<', index);
        if open == s.len() {
            proof {
                one_kept(s@.skip(index as int));
            }
            break;
        }
        let words = text::slice(s.as_slice(), index, open);
        let prose = skipping.is_none() && !text::trim(words.as_str()).as_str().is_empty();
        let ghost shown = if prose {
            divided(sentences_of(words@), paragraph as nat, 1)
        } else {
            seq![Piece::Kept(words@)]
        };
        if prose {
            write_sentences(&mut out, words.as_str(), paragraph);
        } else {
            out.push_str(words.as_str());
            proof {
                one_kept(words@);
            }
        }
        proof {
            assert(out@ == before + written(shown));
            tag_end_range(s@, open as int);
        }
        match find_tag_end(s.as_slice(), open) {
            None => {
                proof {
                    let last = seq![Piece::Kept(s@.skip(open as int))];
                    one_kept(s@.skip(open as int));
                    written_joins(shown, last);
                    assert(before + (written(shown) + s@.skip(open as int)) =~= before + written(
                        shown,
                    ) + s@.skip(open as int));
                }
                index = open;
                break;
            },
            Some(end) => {
                let tag = text::slice(s.as_slice(), open, end);
                out.push_str(tag.as_str());
                let t = text::chars(tag.as_str());
                skipping = next_skipping(skipping, t.as_slice());
                proof {
                    let middle = seq![Piece::Kept(tag@)];
                    let next = if prose {
                        (paragraph + 1) as nat
                    } else {
                        paragraph as nat
                    };
                    let after = pieces_from(s@, end as int, next, skipping_after(was, tag@));
                    one_kept(tag@);
                    written_joins(shown, middle);
                    written_joins(shown + middle, after);
                    assert(before + (written(shown) + tag@ + written(after)) =~= (before + written(
                        shown,
                    ) + tag@) + written(after));
                }
                if prose {
                    paragraph += 1;
                }
                index = end;
            },
        }
    }
    let tail = text::slice(s.as_slice(), index, s.len());
    proof {
        assert(tail@ =~= s@.skip(index as int));
    }
    out.push_str(tail.as_str());
    out
}

/// The name a Kobo reads as its own: the reading engine is chosen by this.
pub fn name(stem: &str) -> (r: String)
    ensures
        r@ == stem@ + ".kepub.epub"@,
{
    text::concat(stem, ".kepub.epub")
}

/// The character an escape at a position stands for, if there is one.
pub open spec fn escape_at(s: Seq<char>, i: int) -> Option<char> {
    if 0 <= i && i + 2 < s.len() && s[i] == '%' && s[i + 1] <= '\u{7f}' && s[i + 2] <= '\u{7f}' {
        match escaped_byte(s[i + 1] as u8, s[i + 2] as u8) {
            Some(b) => Some(b as char),
            None => None,
        }
    } else {
        None
    }
}

/// A reference from `from` on with its escapes written out; what is no escape
/// stays as it is.
pub open spec fn plain_href(s: Seq<char>, from: int) -> Seq<char>
    decreases s.len() - from,
{
    if from < 0 || from >= s.len() {
        Seq::empty()
    } else {
        match escape_at(s, from) {
            Some(c) => seq![c] + plain_href(s, from + 3),
            None => seq![s[from]] + plain_href(s, from + 1),
        }
    }
}

/// The bytes of a reference from `from` on with its escapes written out; what is
/// no escape stays as it is.
pub open spec fn href_bytes(s: Seq<u8>, from: int) -> Seq<u8>
    decreases s.len() - from,
{
    if from < 0 || from >= s.len() {
        Seq::empty()
    } else if s[from] == 37 && from + 2 < s.len() && escaped_byte(s[from + 1], s[from + 2])
        is Some {
        seq![escaped_byte(s[from + 1], s[from + 2])->0] + href_bytes(s, from + 3)
    } else {
        seq![s[from]] + href_bytes(s, from + 1)
    }
}

/// A reference with its escapes written out: they are bytes of UTF-8, or else
/// characters of their own.
pub open spec fn href_text(s: Seq<char>) -> Seq<char> {
    let bytes = href_bytes(vstd::utf8::encode_utf8(s), 0);
    if vstd::utf8::valid_utf8(bytes) {
        vstd::utf8::decode_utf8(bytes)
    } else {
        plain_href(s, 0)
    }
}

fn write_bytes(s: &[u8]) -> (r: Vec<u8>)
    ensures
        r@ == href_bytes(s@, 0),
{
    let mut out: Vec<u8> = Vec::new();
    let mut i: usize = 0;
    proof {
        assert(out@ + href_bytes(s@, 0) =~= href_bytes(s@, 0));
    }
    while i < s.len()
        invariant
            i <= s@.len(),
            out@ + href_bytes(s@, i as int) == href_bytes(s@, 0),
        decreases s@.len() - i,
    {
        let ghost before = out@;
        let found: Option<u8> = if s[i] == 37 && s.len() - i > 2 {
            unescape(s[i + 1], s[i + 2])
        } else {
            None
        };
        match found {
            Some(b) => {
                out.push(b);
                proof {
                    let rest = href_bytes(s@, i as int + 3);
                    assert(before + (seq![b] + rest) =~= before.push(b) + rest);
                }
                i += 3;
            },
            None => {
                out.push(s[i]);
                proof {
                    let rest = href_bytes(s@, i as int + 1);
                    assert(before + (seq![s@[i as int]] + rest) =~= before.push(s@[i as int])
                        + rest);
                }
                i += 1;
            },
        }
    }
    proof {
        assert(out@ + Seq::<u8>::empty() =~= out@);
    }
    out
}

fn read_href(href: &str) -> (r: String)
    ensures
        r@ == href_text(href@),
{
    let bytes = write_bytes(href.as_bytes());
    match text::decode(bytes.as_slice()) {
        Ok(words) => words,
        Err(_) => write_out(href),
    }
}

/// Where a manifest reference leads, from the package document's own folder.
pub open spec fn resolved(opf: Seq<char>, href: Seq<char>) -> Seq<char> {
    let parts = paths::split(paths::parent_of(opf), '/') + paths::split(href_text(href), '/');
    match paths::walked(parts, false) {
        Some(parts) => paths::between(parts, "/"@),
        None => Seq::empty(),
    }
}

fn find_escape(s: &[char], i: usize) -> (r: Option<char>)
    ensures
        r == escape_at(s@, i as int),
{
    if i < s.len() && s.len() - i > 2 && s[i] == '%' && s[i + 1] <= '\u{7f}' && s[i + 2]
        <= '\u{7f}' {
        match unescape(s[i + 1] as u8, s[i + 2] as u8) {
            Some(b) => Some(b as char),
            None => None,
        }
    } else {
        None
    }
}

fn write_out(href: &str) -> (r: String)
    ensures
        r@ == plain_href(href@, 0),
{
    let s = text::chars(href);
    let mut out = String::new();
    let mut i: usize = 0;
    proof {
        assert(out@ + plain_href(s@, 0) =~= plain_href(s@, 0));
    }
    while i < s.len()
        invariant
            i <= s@.len(),
            out@ + plain_href(s@, i as int) == plain_href(s@, 0),
        decreases s@.len() - i,
    {
        let ghost before = out@;
        match find_escape(s.as_slice(), i) {
            Some(c) => {
                out.push(c);
                proof {
                    let rest = plain_href(s@, i as int + 3);
                    assert(before + (seq![c] + rest) =~= before.push(c) + rest);
                }
                i += 3;
            },
            None => {
                out.push(s[i]);
                proof {
                    let rest = plain_href(s@, i as int + 1);
                    assert(before + (seq![s@[i as int]] + rest) =~= before.push(s@[i as int])
                        + rest);
                }
                i += 1;
            },
        }
    }
    proof {
        assert(out@ + Seq::<char>::empty() =~= out@);
    }
    out
}

/// Resolve a manifest href against the package document's own folder, the way
/// a reading system does.
pub fn resolve(opf: &str, href: &str) -> (r: String)
    ensures
        r@ == resolved(opf@, href@),
{
    let base = paths::parent(opf);
    let mut parts = paths::pieces(base.as_str(), '/');
    let more = paths::pieces(read_href(href).as_str(), '/');
    let ghost first = parts.deep_view();
    let ghost second = more.deep_view();
    for i in 0..more.len()
        invariant
            second == more.deep_view(),
            parts.deep_view() == first + second.take(i as int),
    {
        let ghost so_far = parts.deep_view();
        proof {
            assert(second[i as int] == more@[i as int]@);
            assert(second.take(i as int + 1) =~= second.take(i as int).push(second[i as int]));
        }
        parts.push(more[i].duplicate());
        proof {
            assert(parts.deep_view() =~= so_far.push(second[i as int]));
            assert(so_far.push(second[i as int]) =~= first + second.take(i as int + 1));
        }
    }
    proof {
        assert(second.take(second.len() as int) =~= second);
    }
    match paths::walk(&parts, false) {
        Some(parts) => paths::join_with(&parts, "/"),
        None => String::new(),
    }
}

/// Where a manifest item's document is, if it is prose.
pub open spec fn prose_at(node: NodeView, opf: Seq<char>) -> Option<Seq<char>> {
    if node.called("item"@) && node.attribute("media-type"@) == Some("application/xhtml+xml"@) {
        match node.attribute("href"@) {
            Some(href) => Some(resolved(opf, href)),
            None => None,
        }
    } else {
        None
    }
}

/// The documents a manifest calls prose, in its order.
pub open spec fn prose_documents(nodes: Seq<NodeView>, opf: Seq<char>) -> Seq<Seq<char>>
    decreases nodes.len(),
{
    if nodes.len() == 0 {
        Seq::empty()
    } else {
        match prose_at(nodes.last(), opf) {
            Some(path) => prose_documents(nodes.drop_last(), opf).push(path),
            None => prose_documents(nodes.drop_last(), opf),
        }
    }
}

/// The documents a package document calls prose.
pub fn find_prose(nodes: &Vec<Node>, opf: &str) -> (r: Vec<String>)
    ensures
        r.deep_view() == prose_documents(nodes.deep_view(), opf@),
{
    let ghost all = nodes.deep_view();
    let mut out: Vec<String> = Vec::new();
    proof {
        assert(all.take(0) =~= Seq::<NodeView>::empty());
        assert(out.deep_view() =~= Seq::<Seq<char>>::empty());
    }
    for i in 0..nodes.len()
        invariant
            all == nodes.deep_view(),
            out.deep_view() == prose_documents(all.take(i as int), opf@),
    {
        let ghost so_far = out.deep_view();
        proof {
            assert(all.take(i as int + 1).drop_last() =~= all.take(i as int));
            assert(all[i as int] == nodes@[i as int]@);
        }
        if nodes[i].is_called("item") && nodes[i].says("media-type", "application/xhtml+xml") {
            if let Some(href) = nodes[i].attribute("href") {
                let path = resolve(opf, href.as_str());
                out.push(path);
                proof {
                    assert(out.deep_view() =~= so_far.push(path@));
                }
            }
        }
    }
    proof {
        assert(all.take(all.len() as int) =~= all);
    }
    out
}

/// A member's text, if it is there and is text.
pub open spec fn member_text(data: Seq<u8>, members: Seq<MemberView>, name: Seq<char>) -> Option<
    Seq<char>,
> {
    match named_bytes(data, members, name) {
        Err(_) => None,
        Ok(bytes) => match decoded(bytes) {
            Err(_) => None,
            Ok(text) => Some(text),
        },
    }
}

fn read_text(data: &[u8], members: &Vec<Member>, name: &str) -> (r: Option<String>)
    ensures
        r.deep_view() == member_text(data@, members.deep_view(), name@),
{
    match read_named(data, members, name) {
        Err(_) => None,
        Ok(bytes) => match text::decode(bytes.as_slice()) {
            Err(_) => None,
            Ok(text) => Some(text),
        },
    }
}

/// The documents a book's own manifest calls prose, when it can be read.
pub open spec fn documents_of(data: Seq<u8>, members: Seq<MemberView>) -> Option<Seq<Seq<char>>> {
    match member_text(data, members, "META-INF/container.xml"@) {
        None => None,
        Some(container) => match xml::document(container, true) {
            Err(_) => None,
            Ok(nodes) => match package_path(nodes) {
                None => None,
                Some(opf) => match member_text(data, members, opf) {
                    None => None,
                    Some(package) => match xml::document(package, true) {
                        Err(_) => None,
                        Ok(nodes) => Some(prose_documents(nodes, opf)),
                    },
                },
            },
        },
    }
}

/// The documents a book's own manifest calls prose.
///
/// Asking the manifest rather than guessing from a file's name matters: an
/// EPUB may name its chapters `.htm`, or anything else, and a book whose
/// chapters were skipped would be written out looking converted while none of
/// it had been.
fn content_documents(data: &[u8], members: &Vec<Member>) -> (r: Option<Vec<String>>)
    ensures
        r.deep_view() == documents_of(data@, members.deep_view()),
{
    let container = match read_text(data, members, "META-INF/container.xml") {
        Some(text) => text,
        None => return None,
    };
    let nodes = match xml::parse(container.as_str(), true) {
        Ok(nodes) => nodes,
        Err(_) => return None,
    };
    let opf = match find_package(&nodes) {
        Some(opf) => opf,
        None => return None,
    };
    let package = match read_text(data, members, opf.as_str()) {
        Some(text) => text,
        None => return None,
    };
    match xml::parse(package.as_str(), true) {
        Ok(nodes) => Some(find_prose(&nodes, opf.as_str())),
        Err(_) => None,
    }
}

/// Whether a member is prose. The manifest is the authority; its absence leaves
/// only the names.
pub open spec fn markup(name: Seq<char>, documents: Option<Seq<Seq<char>>>) -> bool {
    match documents {
        Some(documents) => documents.contains(name),
        None => {
            let name = text::ascii_lowered(name);
            text::ends(name, ".xhtml"@) || text::ends(name, ".html"@) || text::ends(name, ".htm"@)
        },
    }
}

fn is_markup(name: &String, documents: &Option<Vec<String>>) -> (r: bool)
    ensures
        r == markup(name@, documents.deep_view()),
{
    match documents {
        Some(documents) => crate::values::holds(documents, name),
        None => {
            let name = text::to_ascii_lowercase(name.as_str());
            text::ends_with(name.as_str(), ".xhtml") || text::ends_with(name.as_str(), ".html")
                || text::ends_with(name.as_str(), ".htm")
        },
    }
}

/// What came of one document.
#[derive(Clone, Copy, Debug, PartialEq, Eq, Structural)]
pub enum Outcome {
    /// Carried across as it was.
    Same,
    /// Divided by an earlier conversion, and left alone.
    Already,
    Rewritten,
}

/// What becomes of a document's bytes. A document that does not parse to begin
/// with is left exactly as it is. A document that parses before and not after
/// refuses the whole conversion rather than writing a book that opens wrongly.
pub open spec fn converted(name: Seq<char>, bytes: Seq<u8>, prose: bool) -> Result<
    (Seq<u8>, Outcome),
    Seq<char>,
> {
    if !prose || !vstd::utf8::valid_utf8(bytes) {
        Ok((bytes, Outcome::Same))
    } else {
        let text = vstd::utf8::decode_utf8(bytes);
        if text::within(text, "class=\"koboSpan\""@) {
            Ok((bytes, Outcome::Already))
        } else if xml::document(text, true) is Err {
            Ok((bytes, Outcome::Same))
        } else {
            let divided = written(pieces_of(text));
            match xml::document(divided, true) {
                Err(words) => Err(
                    "Dividing "@ + name + " into spans broke it ("@ + words
                        + "); nothing was written"@,
                ),
                Ok(_) => Ok((vstd::utf8::encode_utf8(divided), Outcome::Rewritten)),
            }
        }
    }
}

proof fn part_of_more(a: Seq<char>, b: Seq<char>, c: Seq<char>, part: Seq<char>)
    requires
        text::within(b, part),
    ensures
        text::within(a + b + c, part),
{
    let i = choose|i: int| text::at(b, part, i);
    let whole = a + b + c;
    assert(whole.subrange(a.len() + i, a.len() + i + part.len()) =~= b.subrange(
        i,
        i + part.len(),
    ));
    assert(text::at(whole, part, a.len() + i));
}

proof fn spans_are_marked(pieces: Seq<Piece>)
    ensures
        text::within(written(pieces), "class=\"koboSpan\""@) || written(pieces) == plain(pieces),
    decreases pieces.len(),
{
    let mark = "class=\"koboSpan\""@;
    if pieces.len() > 0 {
        let rest = pieces.drop_first();
        spans_are_marked(rest);
        let head = pieces[0].written();
        match pieces[0] {
            Piece::Span { paragraph, segment, words } => {
                let open = "<span class=\"koboSpan\" id=\"kobo."@;
                reveal_strlit("<span class=\"koboSpan\" id=\"kobo.");
                reveal_strlit("class=\"koboSpan\"");
                assert(open.subrange(6, 6 + mark.len() as int) =~= mark);
                assert(text::at(open, mark, 6));
                let end = text::decimal(paragraph) + "."@ + text::decimal(segment) + "\">"@ + words
                    + "</span>"@ + written(rest);
                part_of_more(Seq::empty(), open, end, mark);
                assert(Seq::<char>::empty() + open + end =~= written(pieces));
            },
            Piece::Kept(words) => {
                if text::within(written(rest), mark) {
                    part_of_more(words, written(rest), Seq::empty(), mark);
                    assert(words + written(rest) + Seq::<char>::empty() =~= written(pieces));
                }
            },
        }
    }
}

/// A document is divided once: converting what came of it changes nothing more.
pub proof fn documents_are_divided_once(name: Seq<char>, bytes: Seq<u8>, prose: bool)
    requires
        converted(name, bytes, prose) is Ok,
    ensures
        converted(name, (converted(name, bytes, prose)->Ok_0).0, prose) is Ok,
        (converted(name, (converted(name, bytes, prose)->Ok_0).0, prose)->Ok_0).0 == (converted(
            name,
            bytes,
            prose,
        )->Ok_0).0,
{
    if (converted(name, bytes, prose)->Ok_0).1 == Outcome::Rewritten {
        let s = vstd::utf8::decode_utf8(bytes);
        let divided = written(pieces_of(s));
        vstd::utf8::encode_utf8_valid_utf8(divided);
        vstd::utf8::encode_utf8_decode_utf8(divided);
        vstd::utf8::decode_utf8_encode_utf8(bytes);
        spans_are_marked(pieces_of(s));
        dividing_only_adds_spans(s);
    }
}

pub(crate) fn copied(bytes: &[u8]) -> (r: Vec<u8>)
    ensures
        r@ == bytes@,
{
    let mut out: Vec<u8> = Vec::new();
    for i in 0..bytes.len()
        invariant
            out@ == bytes@.take(i as int),
    {
        out.push(bytes[i]);
        proof {
            assert(bytes@.take(i as int + 1) =~= bytes@.take(i as int).push(bytes@[i as int]));
        }
    }
    proof {
        assert(bytes@.take(bytes@.len() as int) =~= bytes@);
    }
    out
}

fn convert(name: &str, bytes: Vec<u8>, prose: bool) -> (r: Result<(Vec<u8>, Outcome), String>)
    ensures
        match (r, converted(name@, bytes@, prose)) {
            (Ok((after, outcome)), Ok(wanted)) => (after@, outcome) == wanted,
            (Err(words), Err(wanted)) => words@ == wanted,
            _ => false,
        },
{
    if !prose {
        return Ok((bytes, Outcome::Same));
    }
    let words = match text::decode(bytes.as_slice()) {
        Ok(words) => words,
        Err(_) => return Ok((bytes, Outcome::Same)),
    };
    if text::contains(words.as_str(), "class=\"koboSpan\"") {
        return Ok((bytes, Outcome::Already));
    }
    if xml::parse(words.as_str(), true).is_err() {
        return Ok((bytes, Outcome::Same));
    }
    let divided = spans(words.as_str());
    match xml::parse(divided.as_str(), true) {
        Err(words) => Err(
            text::concat5(
                "Dividing ",
                name,
                " into spans broke it (",
                words.as_str(),
                "); nothing was written",
            ),
        ),
        Ok(_) => Ok((copied(divided.as_str().as_bytes()), Outcome::Rewritten)),
    }
}

/// The members of a converted book from `from` on, and how many of them hold
/// divided text.
pub open spec fn converted_members(
    data: Seq<u8>,
    members: Seq<MemberView>,
    documents: Option<Seq<Seq<char>>>,
    from: int,
) -> Result<(Seq<PackedView>, nat), Seq<char>>
    decreases members.len() - from,
{
    if from < 0 || from >= members.len() {
        Ok((Seq::empty(), 0))
    } else if let Some(words) = members[from].problem {
        Err(words)
    } else if members[from].name == "mimetype"@ {
        converted_members(data, members, documents, from + 1)
    } else if members[from].folder() {
        match converted_members(data, members, documents, from + 1) {
            Err(words) => Err(words),
            Ok((rest, count)) => Ok((seq![folder(members[from].name)] + rest, count)),
        }
    } else {
        match bytes_of(data, from as usize, u64::MAX) {
            Err(words) => Err(words),
            Ok(bytes) => match converted(
                members[from].name,
                bytes,
                markup(members[from].name, documents),
            ) {
                Err(words) => Err(words),
                Ok((after, outcome)) => match converted_members(
                    data,
                    members,
                    documents,
                    from + 1,
                ) {
                    Err(words) => Err(words),
                    Ok((rest, count)) => Ok(
                        (
                            seq![file(members[from].name, after)] + rest,
                            if outcome == Outcome::Same {
                                count
                            } else {
                                count + 1
                            },
                        ),
                    ),
                },
            },
        }
    }
}

pub open spec fn folder(name: Seq<char>) -> PackedView {
    PackedView { name, stored: true, directory: true, bytes: Seq::empty() }
}

pub open spec fn file(name: Seq<char>, bytes: Seq<u8>) -> PackedView {
    PackedView { name, stored: false, directory: false, bytes }
}

/// What every EPUB starts with: its kind, kept as it is.
pub open spec fn first_member() -> PackedView {
    PackedView {
        name: "mimetype"@,
        stored: true,
        directory: false,
        bytes: epub::mimetype(),
    }
}

pub(crate) fn mimetype_member() -> (r: Packed)
    ensures
        r@ == first_member(),
{
    Packed {
        name: "mimetype".to_owned(),
        stored: true,
        directory: false,
        bytes: epub::mimetype_bytes(),
    }
}

pub(crate) fn folder_member(name: &str) -> (r: Packed)
    ensures
        r@ == folder(name@),
{
    let r = Packed { name: name.to_owned(), stored: true, directory: true, bytes: Vec::new() };
    proof {
        assert(r@.bytes =~= Seq::<u8>::empty());
    }
    r
}

pub(crate) fn file_member(name: &str, bytes: Vec<u8>) -> (r: Packed)
    ensures
        r@ == file(name@, bytes@),
{
    Packed { name: name.to_owned(), stored: false, directory: false, bytes }
}

/// The rest of a list put behind what has been made of it so far.
pub open spec fn joined(
    done: Seq<PackedView>,
    count: nat,
    rest: Result<(Seq<PackedView>, nat), Seq<char>>,
) -> Result<(Seq<PackedView>, nat), Seq<char>> {
    match rest {
        Ok((members, more)) => Ok((done + members, count + more)),
        Err(words) => Err(words),
    }
}

fn convert_members(data: &[u8], members: &Vec<Member>, documents: &Option<Vec<String>>) -> (r:
    Result<(Vec<Packed>, bool), String>)
    ensures
        match (
            r,
            converted_members(data@, members.deep_view(), documents.deep_view(), 0),
        ) {
            (Ok((packed, any)), Ok((wanted, count))) => packed.deep_view() == seq![first_member()]
                + wanted && any == (count > 0),
            (Err(words), Err(wanted)) => words@ == wanted,
            _ => false,
        },
{
    let ghost all = members.deep_view();
    let ghost docs = documents.deep_view();
    let ghost goal = converted_members(data@, all, docs, 0);
    let ghost mut count: nat = 0;
    let mut out: Vec<Packed> = Vec::new();
    out.push(mimetype_member());
    let mut any = false;
    let ghost mut done: Seq<PackedView> = Seq::empty();
    proof {
        assert(out.deep_view() =~= seq![first_member()] + done);
        match goal {
            Ok((rest, n)) => {
                assert(done + rest =~= rest);
            },
            Err(_) => {},
        }
    }
    let mut i: usize = 0;
    while i < members.len()
        invariant
            i <= members@.len(),
            all == members.deep_view(),
            docs == documents.deep_view(),
            goal == converted_members(data@, all, docs, 0),
            goal == joined(done, count, converted_members(data@, all, docs, i as int)),
            out.deep_view() == seq![first_member()] + done,
            any == (count > 0),
        decreases members@.len() - i,
    {
        let member = &members[i];
        let ghost before = out.deep_view();
        let ghost rest = converted_members(data@, all, docs, i as int + 1);
        assert(all[i as int] == member@);
        if let Some(words) = &member.problem {
            return Err(words.duplicate());
        }
        if text::same(member.name.as_str(), "mimetype") {
            i += 1;
            continue;
        }
        let mut counted = false;
        let packed = if member.is_folder() {
            folder_member(member.name.as_str())
        } else {
            match archive::contents(data, i, u64::MAX) {
                Err(words) => return Err(words),
                Ok(bytes) => {
                    let prose = is_markup(&member.name, documents);
                    match convert(member.name.as_str(), bytes, prose) {
                        Err(words) => return Err(words),
                        Ok((after, outcome)) => {
                            counted = outcome != Outcome::Same;
                            file_member(member.name.as_str(), after)
                        },
                    }
                },
            }
        };
        let ghost piece = packed@;
        out.push(packed);
        if counted {
            any = true;
        }
        proof {
            if let Ok((members, n)) = rest {
                assert(done + (seq![piece] + members) =~= done.push(piece) + members);
            }
            done = done.push(piece);
            if counted {
                count = count + 1;
            }
            assert(out.deep_view() =~= before.push(piece));
            assert(out.deep_view() =~= seq![first_member()] + done);
        }
        i += 1;
    }
    proof {
        assert(done + Seq::<PackedView>::empty() =~= done);
    }
    Ok((out, any))
}

/// What a book is converted to: the members of the new archive, or why there is
/// none.
pub open spec fn kepub_of(data: Seq<u8>) -> Result<Seq<PackedView>, Seq<char>> {
    match members_of(data) {
        Err(words) => Err("Book is not a readable EPUB: "@ + words),
        Ok(members) => match epub::font_document(data) {
            Err(words) => Err(
                "This book is still encrypted; it was not converted for the Kobo: "@ + words,
            ),
            Ok(_) => match converted_members(data, members, documents_of(data, members), 0) {
                Err(words) => Err(words),
                Ok((rest, count)) => if count > 0 {
                    Ok(seq![first_member()] + rest)
                } else {
                    Err(
                        "No readable text documents in this book; it was not converted for the Kobo"@,
                    )
                },
            },
        },
    }
}

/// Whether making a book of some members ends with these words: they do not fit
/// into one archive, or what they make is no valid book.
pub open spec fn unmade(members: Seq<PackedView>, intro: Seq<char>, words: Seq<char>) -> bool {
    ||| !archive::packable(archive::packed_all(members))
    ||| exists|after: Seq<u8>|
        #[trigger] archive::holds(after, archive::packed_all(members)) && epub::validated(
            after,
        ) is Some && words == intro + epub::validated(after)->0
}

/// Rewrite an EPUB as a kepub: the same book, with its prose divided into
/// spans the Kobo's own reading engine counts.
///
/// A book still under its own encryption is not ours to take apart. A book that
/// has been through this before is already divided, and dividing it again would
/// leave the Kobo counting the same words twice.
pub fn kepubify(data: &[u8]) -> (r: Result<Vec<u8>, String>)
    ensures
        match (r, kepub_of(data@)) {
            (Ok(after), Ok(members)) => archive::holds(after@, archive::packed_all(members))
                && epub::validated(after@) is None,
            (Ok(_), Err(_)) => false,
            (Err(words), Err(wanted)) => words@ == wanted,
            (Err(words), Ok(members)) => unmade(
                members,
                "The Kobo conversion failed validation; nothing was written: "@,
                words@,
            ),
        },
{
    let members = match archive::members(data) {
        Ok(members) => members,
        Err(words) => return Err(text::concat("Book is not a readable EPUB: ", words.as_str())),
    };
    if let Err(words) = epub::font_metadata(data) {
        return Err(
            text::concat(
                "This book is still encrypted; it was not converted for the Kobo: ",
                words.as_str(),
            ),
        );
    }
    let documents = content_documents(data, &members);
    let (packed, any) = match convert_members(data, &members, &documents) {
        Ok(made) => made,
        Err(words) => return Err(words),
    };
    if !any {
        return Err(
            "No readable text documents in this book; it was not converted for the Kobo".to_owned(),
        );
    }
    let after = match archive::pack(&packed) {
        Ok(after) => after,
        Err(words) => return Err(words),
    };
    match epub::validate(after.as_slice()) {
        Ok(()) => Ok(after),
        Err(words) => Err(
            text::concat(
                "The Kobo conversion failed validation; nothing was written: ",
                words.as_str(),
            ),
        ),
    }
}

} // verus!
