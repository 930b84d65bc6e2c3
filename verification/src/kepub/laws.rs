//! What a book is divided into, and what stays of it.
use super::{
    ascii_white, body_start, body_start_range, converted, converted_members, cut, divided,
    dividing_only_adds_spans, documents_of, ends_at, escape_at, first_member, kepub_of, markup,
    past_white, past_white_range, pieces_from, pieces_of, plain, plain_href, sentences_of, skipping_after,
    tag_end, tag_end_range, tag_name, written, written_joins, Piece,
};
use crate::archive::{bytes_of, holds, members_of, packed_all, packed_as, MemberView};
use crate::text;
use crate::xml;
use crate::epub::escaped_byte;
use crate::epub::laws::capital_digit;
use vstd::prelude::*;

verus! {

broadcast use vstd::string::group_string_axioms;

/// Whether a piece of markup is one tag, a comment or a section of character data.
pub open spec fn one_tag(w: Seq<char>) -> bool {
    &&& w.len() > 0
    &&& w[0] == '<'
    &&& text::starts(w, "<!--"@) || text::starts(w, "<![CDATA["@) || (w.last() == '>' && forall|
        i: int,
    |
        0 <= i < w.len() - 1 ==> #[trigger] w[i] != '>')
}

/// Whether there is nothing but whitespace.
pub open spec fn blank(w: Seq<char>) -> bool {
    forall|i: int| 0 <= i < w.len() ==> text::white(#[trigger] w[i])
}

/// Whether there is no markup.
pub open spec fn no_markup(w: Seq<char>) -> bool {
    forall|i: int| 0 <= i < w.len() ==> #[trigger] w[i] != '<'
}

/// Whether this is what may be left behind the last tag: text without another, or a tag
/// that does not end.
pub open spec fn left_over(w: Seq<char>) -> bool {
    ||| no_markup(w)
    ||| w[0] == '<' && (text::starts(w, "<!--"@) || text::starts(w, "<![CDATA["@) || forall|i: int|
        0 <= i < w.len() ==> #[trigger] w[i] != '>')
}

/// The element whose text is not prose that is open behind some pieces: a script, a
/// style sheet, or text that is set as it stands.
pub open spec fn shelter(pieces: Seq<Piece>) -> Option<Seq<char>>
    decreases pieces.len(),
{
    if pieces.len() == 0 {
        None
    } else {
        let before = shelter(pieces.drop_last());
        match pieces.last() {
            Piece::Kept(w) => if w.len() == 0 || w[0] != '<' {
                before
            } else {
                match before {
                    Some(open) => if text::starts(w, "</"@) && tag_name(w) == open {
                        None
                    } else {
                        before
                    },
                    None => if (tag_name(w) == "script"@ || tag_name(w) == "style"@ || tag_name(w)
                        == "pre"@) && !text::ends(w, "/>"@) {
                        Some(tag_name(w))
                    } else {
                        None
                    },
                }
            },
            Piece::Span { .. } => before,
        }
    }
}

/// Whether a character can end a sentence.
pub open spec fn stop(c: char) -> bool {
    c == '.' || c == '!' || c == '?'
}

/// Whether there is no more than one sentence: behind a stop that whitespace follows
/// there is nothing else.
pub open spec fn one_sentence(w: Seq<char>) -> bool {
    forall|i: int, j: int|
        0 <= i && i + 1 < w.len() && stop(#[trigger] w[i]) && ascii_white(w[i + 1]) && i < j
            < w.len() ==> ascii_white(#[trigger] w[j])
}

/// Whether a text ends as a sentence does: in a stop, and whitespace at most.
pub open spec fn whole_sentence(w: Seq<char>) -> bool {
    exists|i: int|
        0 <= i < w.len() && stop(#[trigger] w[i]) && forall|j: int|
            i < j < w.len() ==> ascii_white(#[trigger] w[j])
}

/// Whether the piece at a place is as it should be. A span holds one sentence of prose.
/// What is carried across as it was is a tag, is blank, is sheltered, or is what is left
/// behind the last tag.
pub open spec fn fitting(body: Seq<Piece>, k: int) -> bool {
    match body[k] {
        Piece::Span { paragraph, segment, words } => {
            &&& !blank(words)
            &&& no_markup(words)
            &&& one_sentence(words)
            &&& shelter(body.take(k)) is None
            &&& paragraph >= 1
            &&& segment >= 1
        },
        Piece::Kept(w) => {
            ||| one_tag(w)
            ||| blank(w)
            ||| no_markup(w) && shelter(body.take(k)) is Some
            ||| k == body.len() - 1 && left_over(w)
        },
    }
}

/// Whether two pieces are numbered one behind the other, where both are spans, and
/// parted at the end of a sentence, where they stand side by side.
pub open spec fn following(body: Seq<Piece>, j: int, k: int) -> bool {
    match (body[j], body[k]) {
        (
            Piece::Span { paragraph: p, segment: s, words },
            Piece::Span { paragraph: q, segment: t, .. },
        ) => (p < q || (p == q && s < t)) && (k == j + 1 ==> whole_sentence(words)),
        _ => true,
    }
}

/// Whether a document was divided as it should be: nothing of it is changed but that
/// the sentences of its body's prose have spans around them, each under a number of its
/// own.
pub open spec fn well_divided(
    before: Seq<char>,
    after: Seq<char>,
    head: Seq<char>,
    body: Seq<Piece>,
) -> bool {
    &&& before == head + plain(body)
    &&& after == head + written(body)
    &&& forall|k: int| 0 <= k < body.len() ==> #[trigger] fitting(body, k)
    &&& forall|j: int, k: int| 0 <= j < k < body.len() ==> #[trigger] following(body, j, k)
    &&& (exists|k: int| 0 <= k < body.len() && #[trigger] body[k] is Span) ==> text::within(
        after,
        "class=\"koboSpan\""@,
    )
}

proof fn white_behind(s: Seq<char>, from: int)
    requires
        0 <= from <= s.len(),
    ensures
        forall|j: int| from <= j < past_white(s, from) ==> ascii_white(#[trigger] s[j]),
        past_white(s, from) <= s.len(),
    decreases s.len() - from,
{
    if from < s.len() && ascii_white(s[from]) {
        white_behind(s, from + 1);
    }
}

/// What the parts of a text are: sentences of it.
spec fn parts_of(s: Seq<char>, parts: Seq<Seq<char>>) -> bool {
    &&& forall|k: int| 0 <= k < parts.len() ==> one_sentence(#[trigger] parts[k])
    &&& forall|k: int| 0 <= k < parts.len() - 1 ==> whole_sentence(#[trigger] parts[k])
    &&& no_markup(s) ==> forall|k: int| 0 <= k < parts.len() ==> no_markup(#[trigger] parts[k])
}

proof fn cutting_parts(s: Seq<char>, start: int, at: int)
    requires
        0 <= start <= at <= s.len(),
        forall|i: int| start <= i < at ==> !ends_at(s, i),
    ensures
        parts_of(s, cut(s, start, at)),
    decreases s.len() - at,
{
    if at >= s.len() {
        if start < s.len() {
            let w = s.skip(start);
            assert forall|i: int, j: int|
                0 <= i && i + 1 < w.len() && stop(#[trigger] w[i]) && ascii_white(w[i + 1]) && i < j
                    < w.len() implies ascii_white(#[trigger] w[j]) by {
                assert(!ends_at(s, start + i));
            }
            assert(cut(s, start, at) =~= seq![w]);
        }
    } else if ends_at(s, at) {
        let end = past_white(s, at + 1);
        past_white_range(s, at + 1);
        white_behind(s, at + 1);
        cutting_parts(s, end, end);
        let w = s.subrange(start, end);
        let rest = cut(s, end, end);
        let parts = cut(s, start, at);
        assert forall|i: int, j: int|
            0 <= i && i + 1 < w.len() && stop(#[trigger] w[i]) && ascii_white(w[i + 1]) && i < j
                < w.len() implies ascii_white(#[trigger] w[j]) by {
            if start + i < at {
                assert(!ends_at(s, start + i));
            } else if start + i > at {
                assert(ascii_white(s[start + i]));
            } else {
                assert(ascii_white(s[start + j]));
            }
        }
        assert(whole_sentence(w)) by {
            assert(stop(w[at - start]));
            assert forall|j: int| at - start < j < w.len() implies ascii_white(#[trigger] w[j]) by {
                assert(ascii_white(s[start + j]));
            }
        }
        assert(parts =~= seq![w] + rest);
        assert forall|k: int| 0 <= k < parts.len() implies one_sentence(#[trigger] parts[k]) by {
            if k > 0 {
                assert(parts[k] == rest[k - 1]);
            }
        }
        assert forall|k: int| 0 <= k < parts.len() - 1 implies whole_sentence(
            #[trigger] parts[k],
        ) by {
            if k > 0 {
                assert(parts[k] == rest[k - 1]);
            }
        }
        if no_markup(s) {
            assert forall|k: int| 0 <= k < parts.len() implies no_markup(#[trigger] parts[k]) by {
                if k > 0 {
                    assert(parts[k] == rest[k - 1]);
                } else {
                    assert forall|i: int| 0 <= i < w.len() implies #[trigger] w[i] != '<' by {
                        assert(s[start + i] != '<');
                    }
                }
            }
        }
    } else {
        cutting_parts(s, start, at + 1);
    }
}

proof fn blank_if_trimmed(s: Seq<char>)
    ensures
        text::trimmed(s).len() == 0 <==> blank(s),
{
    nothing_at_the_start(s);
    let t = text::trimmed_start(s);
    if t.len() > 0 {
        something_is_left(t);
    } else {
        assert(text::trimmed_end(t).len() == 0);
    }
}

proof fn nothing_at_the_start(s: Seq<char>)
    ensures
        text::trimmed_start(s).len() == 0 <==> blank(s),
        text::trimmed_start(s).len() > 0 ==> !text::white(text::trimmed_start(s)[0]),
    decreases s.len(),
{
    if s.len() > 0 && text::white(s[0]) {
        let rest = s.drop_first();
        nothing_at_the_start(rest);
        if blank(rest) {
            assert forall|i: int| 0 <= i < s.len() implies text::white(#[trigger] s[i]) by {
                if i > 0 {
                    assert(rest[i - 1] == s[i]);
                }
            }
        }
        if blank(s) {
            assert forall|i: int| 0 <= i < rest.len() implies text::white(#[trigger] rest[i]) by {
                assert(s[i + 1] == rest[i]);
            }
        }
    } else if s.len() > 0 {
        assert(!text::white(s[0]));
    }
}

proof fn something_is_left(s: Seq<char>)
    requires
        s.len() > 0,
        !text::white(s[0]),
    ensures
        text::trimmed_end(s).len() > 0,
    decreases s.len(),
{
    if text::white(s.last()) {
        something_is_left(s.drop_last());
    }
}

/// What the pieces of one run of prose are.
spec fn run_of(
    pieces: Seq<Piece>,
    sentences: Seq<Seq<char>>,
    paragraph: nat,
    segment: nat,
) -> bool {
    &&& pieces.len() == sentences.len()
    &&& forall|k: int|
        0 <= k < pieces.len() ==> match #[trigger] pieces[k] {
            Piece::Kept(w) => blank(w) && w == sentences[k],
            Piece::Span { paragraph: p, segment: s, words } => p == paragraph && s >= segment
                && words == sentences[k] && !blank(words),
        }
    &&& forall|j: int, k: int|
        0 <= j < k < pieces.len() ==> match (#[trigger] pieces[j], #[trigger] pieces[k]) {
            (Piece::Span { segment: s, .. }, Piece::Span { segment: t, .. }) => s < t,
            _ => true,
        }
}

proof fn running(sentences: Seq<Seq<char>>, paragraph: nat, segment: nat)
    ensures
        run_of(divided(sentences, paragraph, segment), sentences, paragraph, segment),
    decreases sentences.len(),
{
    if sentences.len() > 0 {
        let first = sentences[0];
        let rest = sentences.drop_first();
        blank_if_trimmed(first);
        let next = if blank(first) {
            segment
        } else {
            segment + 1
        };
        running(rest, paragraph, next);
        let more = divided(rest, paragraph, next);
        let all = divided(sentences, paragraph, segment);
        let head = if blank(first) {
            Piece::Kept(first)
        } else {
            Piece::Span { paragraph, segment, words: first }
        };
        assert(all =~= seq![head] + more);
        assert forall|k: int| 0 <= k < all.len() implies match #[trigger] all[k] {
            Piece::Kept(w) => blank(w) && w == sentences[k],
            Piece::Span { paragraph: p, segment: s, words } => p == paragraph && s >= segment
                && words == sentences[k] && !blank(words),
        } by {
            if k > 0 {
                assert(all[k] == more[k - 1]);
                assert(sentences[k] == rest[k - 1]);
            }
        }
        assert forall|j: int, k: int| 0 <= j < k < all.len() implies match (
            #[trigger] all[j],
            #[trigger] all[k],
        ) {
            (Piece::Span { segment: s, .. }, Piece::Span { segment: t, .. }) => s < t,
            _ => true,
        } by {
            assert(all[k] == more[k - 1]);
            if j > 0 {
                assert(all[j] == more[j - 1]);
            }
        }
    }
}

/// Whether all pieces behind a place are as they should be, with spans of later
/// paragraphs than those before it.
spec fn fine(done: Seq<Piece>, more: Seq<Piece>, paragraph: nat) -> bool {
    let all = done + more;
    &&& forall|k: int| done.len() <= k < all.len() ==> #[trigger] fitting(all, k)
    &&& forall|j: int, k: int|
        done.len() <= j < k < all.len() ==> #[trigger] following(all, j, k)
    &&& forall|k: int|
        done.len() <= k < all.len() ==> (#[trigger] all[k] matches Piece::Span {
            paragraph: p,
            ..
        } ==> p >= paragraph)
}

proof fn shelter_stays(done: Seq<Piece>, more: Seq<Piece>)
    requires
        forall|k: int|
            0 <= k < more.len() ==> (#[trigger] more[k] matches Piece::Kept(w) ==> no_markup(w)),
    ensures
        shelter(done + more) == shelter(done),
    decreases more.len(),
{
    if more.len() == 0 {
        assert(done + more =~= done);
    } else {
        let rest = more.drop_last();
        assert forall|k: int| 0 <= k < rest.len() implies (#[trigger] rest[k] matches Piece::Kept(
            w,
        ) ==> no_markup(w)) by {
            assert(rest[k] == more[k]);
        }
        shelter_stays(done, rest);
        assert((done + more).drop_last() =~= done + rest);
        assert((done + more).last() == more[more.len() - 1]);
    }
}

/// What becomes of one run of text between two tags.
spec fn shown(words: Seq<char>, paragraph: nat, open: Option<Seq<char>>) -> Seq<Piece> {
    if open is None && text::trimmed(words).len() > 0 {
        divided(sentences_of(words), paragraph, 1)
    } else {
        seq![Piece::Kept(words)]
    }
}

proof fn run_is_fine(
    done: Seq<Piece>,
    words: Seq<char>,
    paragraph: nat,
    open: Option<Seq<char>>,
    after: Seq<Piece>,
)
    requires
        no_markup(words),
        shelter(done) == open,
        paragraph >= 1,
    ensures
        ({
            let part = shown(words, paragraph, open);
            let all = done + part + after;
            &&& shelter(done + part) == open
            &&& forall|k: int|
                done.len() <= k < done.len() + part.len() ==> #[trigger] fitting(all, k)
            &&& forall|j: int, k: int|
                done.len() <= j < k < done.len() + part.len() ==> #[trigger] following(all, j, k)
            &&& forall|k: int|
                done.len() <= k < done.len() + part.len() ==> (
                #[trigger] all[k] matches Piece::Span { paragraph: p, .. } ==> open is None
                    && text::trimmed(words).len() > 0 && p == paragraph)
        }),
{
    let prose = open is None && text::trimmed(words).len() > 0;
    let sentences = sentences_of(words);
    blank_if_trimmed(words);
    if prose {
        running(sentences, paragraph, 1);
        cutting_parts(words, 0, 0);
    }
    let part = shown(words, paragraph, open);
    let all = done + part + after;
    assert forall|k: int| 0 <= k < part.len() implies (#[trigger] part[k] matches Piece::Kept(
        w,
    ) ==> no_markup(w)) by {
        if prose {
            assert(no_markup(sentences[k]));
        }
    }
    shelter_stays(done, part);
    assert forall|k: int| done.len() <= k < done.len() + part.len() implies #[trigger] fitting(
        all,
        k,
    ) by {
        let n = k - done.len();
        assert(all[k] == part[n]);
        let front = part.take(n);
        assert forall|i: int| 0 <= i < front.len() implies (#[trigger] front[i] matches Piece::Kept(
            w,
        ) ==> no_markup(w)) by {
            assert(front[i] == part[i]);
        }
        shelter_stays(done, front);
        assert(all.take(k) =~= done + front);
        if prose {
            assert(one_sentence(sentences[n]));
            assert(no_markup(sentences[n]));
        }
    }
    assert forall|j: int, k: int|
        done.len() <= j < k < done.len() + part.len() implies #[trigger] following(all, j, k) by {
        let x = j - done.len();
        let y = k - done.len();
        assert(all[j] == part[x]);
        assert(all[k] == part[y]);
        if prose && k == j + 1 {
            assert(whole_sentence(sentences[x]));
        }
    }
    assert forall|k: int| done.len() <= k < done.len() + part.len() implies (
    #[trigger] all[k] matches Piece::Span { paragraph: p, .. } ==> prose && p == paragraph) by {
        assert(all[k] == part[k - done.len()]);
    }
}

proof fn tag_is_one(s: Seq<char>, open: int)
    requires
        0 <= open < s.len(),
        s[open] == '<',
        tag_end(s, open) >= 0,
    ensures
        open < tag_end(s, open) <= s.len(),
        one_tag(s.subrange(open, tag_end(s, open))),
{
    tag_end_range(s, open);
    let end = tag_end(s, open);
    let w = s.subrange(open, end);
    reveal_strlit("<!--");
    reveal_strlit("<![CDATA[");
    reveal_strlit("-->");
    reveal_strlit("]]>");
    if text::at(s, "<!--"@, open) {
        let close = text::seek(s, "-->"@, open);
        text::seek_range(s, "-->"@, open);
        let head = s.subrange(open, open + 4);
        let tail = s.subrange(close, close + 3);
        assert(head[0] == '<' && head[1] == '!');
        assert(tail[0] == '-');
        assert(s[close] == '-' && s[open + 1] == '!');
        assert(close >= open + 2);
        assert(w.subrange(0, 4) =~= head);
    } else if text::at(s, "<![CDATA["@, open) {
        let close = text::seek(s, "]]>"@, open);
        text::seek_range(s, "]]>"@, open);
        let head = s.subrange(open, open + 9);
        let tail = s.subrange(close, close + 3);
        assert(tail[0] == ']');
        assert forall|i: int| 0 <= i < 9 implies #[trigger] head[i] != ']' by {
            assert(head[i] == "<![CDATA["@[i]);
        }
        assert(s[close] == ']');
        if close < open + 9 {
            assert(head[close - open] == s[close]);
        }
        assert(w.subrange(0, 9) =~= head);
    } else {
        text::index_from_range(s, '>', open);
        assert(w.last() == s[end - 1]);
        assert forall|i: int| 0 <= i < w.len() - 1 implies #[trigger] w[i] != '>' by {
            assert(w[i] == s[open + i]);
        }
    }
}

proof fn rest_is_left_over(s: Seq<char>, open: int)
    requires
        0 <= open < s.len(),
        s[open] == '<',
        tag_end(s, open) < 0,
    ensures
        left_over(s.skip(open)),
{
    let w = s.skip(open);
    reveal_strlit("<!--");
    reveal_strlit("<![CDATA[");
    if text::at(s, "<!--"@, open) {
        text::seek_range(s, "-->"@, open);
        assert(w.subrange(0, 4) =~= s.subrange(open, open + 4));
    } else if text::at(s, "<![CDATA["@, open) {
        text::seek_range(s, "]]>"@, open);
        assert(w.subrange(0, 9) =~= s.subrange(open, open + 9));
    } else {
        text::index_from_range(s, '>', open);
        assert forall|i: int| 0 <= i < w.len() implies #[trigger] w[i] != '>' by {
            assert(w[i] == s[open + i]);
        }
    }
}

proof fn pieces_are_fine(
    done: Seq<Piece>,
    s: Seq<char>,
    index: int,
    paragraph: nat,
    skipping: Option<Seq<char>>,
)
    requires
        0 <= index <= s.len(),
        paragraph >= 1,
        shelter(done) == skipping,
    ensures
        fine(done, pieces_from(s, index, paragraph, skipping), paragraph),
    decreases s.len() - index,
{
    let more = pieces_from(s, index, paragraph, skipping);
    let all = done + more;
    let open = text::index_from(s, '<', index);
    text::index_from_range(s, '<', index);
    if index >= s.len() || open >= s.len() {
        let w = s.skip(index);
        assert forall|i: int| 0 <= i < w.len() implies #[trigger] w[i] != '<' by {
            assert(w[i] == s[index + i]);
        }
        assert(all =~= done.push(Piece::Kept(w)));
    } else {
        let words = s.subrange(index, open);
        assert forall|i: int| 0 <= i < words.len() implies #[trigger] words[i] != '<' by {
            assert(words[i] == s[index + i]);
        }
        let part = shown(words, paragraph, skipping);
        let prose = skipping is None && text::trimmed(words).len() > 0;
        let end = tag_end(s, open);
        if end < 0 {
            let last = seq![Piece::Kept(s.skip(open))];
            assert(more =~= part + last);
            assert(all =~= done + part + last);
            run_is_fine(done, words, paragraph, skipping, last);
            rest_is_left_over(s, open);
        } else {
            tag_is_one(s, open);
            let tag = s.subrange(open, end);
            assert(tag[0] == s[open]);
            let middle = seq![Piece::Kept(tag)];
            let next = if prose {
                paragraph + 1
            } else {
                paragraph
            };
            let then = skipping_after(skipping, tag);
            let rest = pieces_from(s, end, next, then);
            assert(more =~= part + middle + rest);
            run_is_fine(done, words, paragraph, skipping, middle + rest);
            assert(all =~= done + part + (middle + rest));
            let so_far = done + part + middle;
            assert(so_far.drop_last() =~= done + part);
            assert(shelter(so_far) == then);
            pieces_are_fine(so_far, s, end, next, then);
            assert(so_far + rest =~= all);
            let n = (done + part).len() as int;
            assert(all[n] == Piece::Kept(tag));
            assert forall|k: int| done.len() <= k < all.len() implies #[trigger] fitting(
                all,
                k,
            ) by {
                if k > n {
                    assert(fitting(so_far + rest, k));
                }
            }
            assert forall|k: int| done.len() <= k < all.len() implies (
            #[trigger] all[k] matches Piece::Span { paragraph: p, .. } ==> p >= paragraph) by {
                if k > n {
                    assert((so_far + rest)[k] == all[k]);
                }
            }
            assert forall|j: int, k: int|
                done.len() <= j < k < all.len() implies #[trigger] following(all, j, k) by {
                if j > n {
                    assert(following(so_far + rest, j, k));
                } else if j < n && k > n {
                    assert((so_far + rest)[k] == all[k]);
                    assert(all[j] is Span ==> prose && all[j]->paragraph == paragraph);
                    assert(all[k] is Span ==> all[k]->paragraph >= next);
                }
            }
        }
    }
}

/// How a document is divided: its head, and the pieces of its body.
pub open spec fn division(s: Seq<char>) -> (Seq<char>, Seq<Piece>) {
    (s.take(body_start(s)), pieces_from(s.skip(body_start(s)), 0, 1, None))
}

proof fn marked_when_divided(pieces: Seq<Piece>, k: int)
    requires
        0 <= k < pieces.len(),
        pieces[k] is Span,
    ensures
        text::within(written(pieces), "class=\"koboSpan\""@),
    decreases pieces.len(),
{
    let mark = "class=\"koboSpan\""@;
    let rest = pieces.drop_first();
    let head = pieces[0].written();
    assert(written(pieces) == head + written(rest));
    if k > 0 {
        assert(rest[k - 1] == pieces[k]);
        marked_when_divided(rest, k - 1);
        super::part_of_more(head, written(rest), Seq::empty(), mark);
        assert(head + written(rest) + Seq::<char>::empty() =~= written(pieces));
    } else if let Piece::Span { paragraph, segment, words } = pieces[0] {
        let open = "<span class=\"koboSpan\" id=\"kobo."@;
        reveal_strlit("<span class=\"koboSpan\" id=\"kobo.");
        reveal_strlit("class=\"koboSpan\"");
        assert(open.subrange(6, 6 + mark.len() as int) =~= mark);
        assert(text::at(open, mark, 6));
        let end = text::decimal(paragraph) + "."@ + text::decimal(segment) + "\">"@ + words
            + "</span>"@ + written(rest);
        super::part_of_more(Seq::empty(), open, end, mark);
        assert(Seq::<char>::empty() + open + end =~= written(pieces));
    }
}

/// Every sentence of a document's prose gets a span, and nothing else changes.
pub proof fn prose_is_divided(s: Seq<char>)
    ensures
        well_divided(s, written(pieces_of(s)), division(s).0, division(s).1),
{
    let (head, body) = division(s);
    body_start_range(s);
    dividing_only_adds_spans(s);
    super::one_kept(head);
    written_joins(seq![Piece::Kept(head)], body);
    let none = Seq::<Piece>::empty();
    pieces_are_fine(none, s.skip(body_start(s)), 0, 1, None);
    assert(none + body =~= body);
    let after = written(pieces_of(s));
    assert forall|k: int| 0 <= k < body.len() implies #[trigger] fitting(body, k) by {
        assert(fitting(none + body, k));
    }
    assert forall|j: int, k: int| 0 <= j < k < body.len() implies #[trigger] following(
        body,
        j,
        k,
    ) by {
        assert(following(none + body, j, k));
    }
    if exists|k: int| 0 <= k < body.len() && #[trigger] body[k] is Span {
        let k = choose|k: int| 0 <= k < body.len() && #[trigger] body[k] is Span;
        marked_when_divided(body, k);
        super::part_of_more(head, written(body), Seq::empty(), "class=\"koboSpan\""@);
        assert(head + written(body) + Seq::<char>::empty() =~= after);
    }
}

/// The head of a document ends with the tag that opens its body.
pub proof fn the_body_starts_behind_its_tag(s: Seq<char>, open: int, close: int)
    requires
        text::first_at(s, "<body"@, 0, open),
        open <= close < s.len(),
        s[close] == '>',
        forall|i: int| open <= i < close ==> #[trigger] s[i] != '>',
    ensures
        division(s).0 == s.take(close + 1),
{
    text::seek_range(s, "<body"@, 0);
    let found = text::seek(s, "<body"@, 0);
    if found < 0 {
        assert(!text::at(s, "<body"@, open));
    } else if found < open {
        assert(!text::at(s, "<body"@, found));
    } else if open < found {
        assert(!text::at(s, "<body"@, open));
    }
    text::index_from_range(s, '>', open);
}

/// Whether bytes are a text that has not been divided and that parses.
pub open spec fn to_divide(bytes: Seq<u8>) -> bool {
    &&& vstd::utf8::valid_utf8(bytes)
    &&& !text::within(vstd::utf8::decode_utf8(bytes), "class=\"koboSpan\""@)
    &&& xml::document(vstd::utf8::decode_utf8(bytes), true) is Ok
}

/// Whether bytes were divided into others.
pub open spec fn divided_into(before: Seq<u8>, after: Seq<u8>) -> bool {
    &&& vstd::utf8::valid_utf8(after)
    &&& exists|head: Seq<char>, body: Seq<Piece>| #[trigger]
        well_divided(
            vstd::utf8::decode_utf8(before),
            vstd::utf8::decode_utf8(after),
            head,
            body,
        )
}

/// Whatever is converted comes back divided where it is prose that was not divided yet,
/// and as it was everywhere else.
pub proof fn documents_come_back_divided(name: Seq<char>, bytes: Seq<u8>, prose: bool)
    requires
        converted(name, bytes, prose) is Ok,
    ensures
        prose && to_divide(bytes) ==> divided_into(bytes, converted(name, bytes, prose)->Ok_0.0),
        !(prose && to_divide(bytes)) ==> converted(name, bytes, prose)->Ok_0.0 == bytes,
{
    if prose && to_divide(bytes) {
        let s = vstd::utf8::decode_utf8(bytes);
        let made = written(pieces_of(s));
        vstd::utf8::encode_utf8_valid_utf8(made);
        vstd::utf8::encode_utf8_decode_utf8(made);
        prose_is_divided(s);
        let (head, body) = division(s);
        assert(well_divided(s, made, head, body));
    }
}

proof fn converting_keeps_a_member(
    data: Seq<u8>,
    members: Seq<MemberView>,
    documents: Option<Seq<Seq<char>>>,
    from: int,
    i: int,
) -> (k: int)
    requires
        0 <= from <= i < members.len(),
        members[i].name != "mimetype"@,
        converted_members(data, members, documents, from) is Ok,
    ensures
        ({
            let made = converted_members(data, members, documents, from)->Ok_0.0;
            &&& 0 <= k < made.len()
            &&& made[k].name == members[i].name
            &&& made[k].directory == members[i].folder()
            &&& !members[i].folder() ==> bytes_of(data, i as usize, u64::MAX) is Ok && {
                let bytes = bytes_of(data, i as usize, u64::MAX)->Ok_0;
                let became = converted(members[i].name, bytes, markup(members[i].name, documents));
                became is Ok && made[k].bytes == became->Ok_0.0
            }
        }),
    decreases i - from,
{
    let made = converted_members(data, members, documents, from)->Ok_0.0;
    if from == i {
        0
    } else {
        let rest = converted_members(data, members, documents, from + 1)->Ok_0.0;
        let k = converting_keeps_a_member(data, members, documents, from + 1, i);
        if members[from].name == "mimetype"@ {
            k
        } else {
            assert(made[k + 1] == rest[k]);
            k + 1
        }
    }
}

/// Whether a member of a book is in an archive as it should be after a conversion: under
/// its name, divided where the book calls it prose and it was not divided yet, and with
/// the bytes it had otherwise.
pub open spec fn carried_over(
    data: Seq<u8>,
    members: Seq<MemberView>,
    i: int,
    after: Seq<u8>,
    k: int,
) -> bool {
    let made = members_of(after)->Ok_0;
    &&& 0 <= k < made.len()
    &&& made[k].name == members[i].name
    &&& !members[i].folder() ==> match (
        bytes_of(data, i as usize, u64::MAX),
        bytes_of(after, k as usize, u64::MAX),
    ) {
        (Ok(before), Ok(now)) => if markup(members[i].name, documents_of(data, members))
            && to_divide(before) {
            divided_into(before, now)
        } else {
            now == before
        },
        _ => false,
    }
}

/// A kepub is the book divided: every member is in it, every document that the book
/// calls prose has a span around each of its sentences, and nothing else is changed.
pub proof fn a_kepub_is_the_book_divided(data: Seq<u8>, after: Seq<u8>, i: int)
    requires
        kepub_of(data) is Ok,
        holds(after, packed_all(kepub_of(data)->Ok_0)),
        0 <= i < members_of(data)->Ok_0.len(),
        members_of(data)->Ok_0[i].name != "mimetype"@,
    ensures
        members_of(after) is Ok,
        exists|k: int| #[trigger] carried_over(data, members_of(data)->Ok_0, i, after, k),
{
    let members = members_of(data)->Ok_0;
    let documents = documents_of(data, members);
    let rest = converted_members(data, members, documents, 0)->Ok_0.0;
    let packed = kepub_of(data)->Ok_0;
    assert(packed =~= seq![first_member()] + rest);
    let k = converting_keeps_a_member(data, members, documents, 0, i);
    assert(packed[k + 1] == rest[k]);
    let all = packed_all(packed);
    assert(all[k + 1] == packed_as(rest[k]));
    if !members[i].folder() {
        let bytes = bytes_of(data, i as usize, u64::MAX)->Ok_0;
        documents_come_back_divided(members[i].name, bytes, markup(members[i].name, documents));
        assert(bytes_of(after, (k + 1) as usize, u64::MAX) == Ok::<Seq<u8>, Seq<char>>(
            crate::archive::start_of(all[k + 1].bytes, u64::MAX),
        ));
    }
    assert(carried_over(data, members, i, after, k + 1));
}

/// A span is written as the Kobo's own books write it: with its class, and with the
/// numbers of its paragraph and of its sentence as its name.
pub proof fn a_span_is_written_as_the_kobo_reads_it(
    paragraph: nat,
    segment: nat,
    words: Seq<char>,
)
    ensures
        (Piece::Span { paragraph, segment, words }).written() == "<span class=\"koboSpan\" id=\"kobo."@
            + text::decimal(paragraph) + "."@ + text::decimal(segment) + "\">"@ + words + "</span>"@,
{
}

/// Every document that a manifest lists as XHTML is prose of the book.
pub proof fn what_the_manifest_lists_is_prose(
    nodes: Seq<xml::NodeView>,
    opf: Seq<char>,
    i: int,
    href: Seq<char>,
)
    requires
        0 <= i < nodes.len(),
        nodes[i].called("item"@),
        nodes[i].attribute("media-type"@) == Some("application/xhtml+xml"@),
        nodes[i].attribute("href"@) == Some(href),
    ensures
        markup(super::resolved(opf, href), Some(super::prose_documents(nodes, opf))),
    decreases nodes.len(),
{
    let rest = nodes.drop_last();
    let before = super::prose_documents(rest, opf);
    let all = super::prose_documents(nodes, opf);
    let path = super::resolved(opf, href);
    if i == nodes.len() - 1 {
        assert(all.last() == path);
    } else {
        assert(rest[i] == nodes[i]);
        what_the_manifest_lists_is_prose(rest, opf, i, href);
        let k = choose|k: int| 0 <= k < before.len() && before[k] == path;
        assert(all[k] == path);
    }
}

/// Without a manifest, a document is told by how its name ends.
pub proof fn without_a_manifest_names_decide(stem: Seq<char>)
    requires
        vstd::utf8::is_ascii_chars(stem),
    ensures
        markup(stem + ".xhtml"@, None),
        markup(stem + ".html"@, None),
        markup(stem + ".htm"@, None),
        markup(stem + ".XHTML"@, None),
        !markup(stem + ".css"@, None),
{
    reveal_strlit(".xhtml");
    reveal_strlit(".html");
    reveal_strlit(".htm");
    reveal_strlit(".XHTML");
    reveal_strlit(".css");
    ends_lowered(stem, ".xhtml"@, ".xhtml"@);
    ends_lowered(stem, ".html"@, ".html"@);
    ends_lowered(stem, ".htm"@, ".htm"@);
    ends_lowered(stem, ".XHTML"@, ".xhtml"@);
    let s = text::ascii_lowered(stem + ".css"@);
    let n = s.len() as int;
    assert(s[n - 1] == 's');
    if text::ends(s, ".xhtml"@) {
        assert(s.subrange(n - 6, n)[5] == 'l');
    }
    if text::ends(s, ".html"@) {
        assert(s.subrange(n - 5, n)[4] == 'l');
    }
    if text::ends(s, ".htm"@) {
        assert(s.subrange(n - 4, n)[3] == 'm');
    }
}

proof fn ends_lowered(stem: Seq<char>, ending: Seq<char>, small: Seq<char>)
    requires
        text::ascii_lowered(ending) =~= small,
    ensures
        text::ends(text::ascii_lowered(stem + ending), small),
{
    let s = text::ascii_lowered(stem + ending);
    let n = s.len() as int;
    assert forall|i: int| 0 <= i < small.len() implies #[trigger] s.subrange(
        n - small.len(),
        n,
    )[i] == small[i] by {
        assert(text::ascii_lowered(ending)[i] == small[i]);
    }
    assert(s.subrange(n - small.len(), n) =~= small);
}

proof fn reading_on(s: Seq<char>, front: Seq<char>, from: int)
    requires
        from >= 0,
    ensures
        plain_href(front + s, front.len() + from) == plain_href(s, from),
    decreases s.len() - from,
{
    let whole = front + s;
    if from < s.len() {
        assert(whole[front.len() + from] == s[from]);
        if from + 2 < s.len() {
            assert(whole[front.len() + from + 1] == s[from + 1]);
            assert(whole[front.len() + from + 2] == s[from + 2]);
            reading_on(s, front, from + 3);
        }
        assert(escape_at(whole, front.len() + from) == escape_at(s, from));
        reading_on(s, front, from + 1);
    }
}

/// A character that a reference writes with a percent sign is read as what it is, and one
/// that is written as it is stays.
pub proof fn references_are_read(c: u8, d: char, rest: Seq<char>)
    requires
        d != '%',
    ensures
        plain_href(
            seq![
                '%',
                capital_digit(c as int / 16) as char,
                capital_digit(c as int % 16) as char,
            ] + rest,
            0,
        ) == seq![c as char] + plain_href(rest, 0),
        plain_href(seq![d] + rest, 0) == seq![d] + plain_href(rest, 0),
        plain_href(Seq::empty(), 0) == Seq::<char>::empty(),
{
    let high = capital_digit(c as int / 16);
    let low = capital_digit(c as int % 16);
    let front = seq!['%', high as char, low as char];
    let whole = front + rest;
    reading_on(rest, front, 0);
    reading_on(rest, seq![d], 0);
    assert(whole[0] == '%' && whole[1] == high as char && whole[2] == low as char);
    assert(high < 128 && low < 128);
    assert((high as char) as u8 == high && (low as char) as u8 == low);
    assert(16 * (c as int / 16) + c as int % 16 == c);
    assert(escaped_byte(high, low) == Some(c));
    assert((seq![d] + rest)[0] == d);
}

} // verus!
