//! Turning lines back into prose.
//!
//! A PDF has no paragraphs, only lines that happen to sit under one another.
//! Rebuilding them is guesswork with rules: a line that ends short ends a
//! paragraph, an indent starts one, a larger face is a heading, and a word
//! broken across a line break was never two words. Where the lines sit is
//! measured elsewhere; what is made of that is decided here.
use crate::text;
use crate::text::lowercase;
use crate::values::{holds, Duplicate};
use vstd::prelude::*;

pub mod laws;

verus! {

broadcast use vstd::string::group_string_axioms;

/// A part of a book.
#[derive(Clone, Debug, PartialEq, Eq)]
pub enum Block {
    Heading(String),
    Paragraph(String),
    /// A picture, by its place in the book's own list of them.
    Figure(usize),
}

#[verifier::ext_equal]
pub enum BlockView {
    Heading(Seq<char>),
    Paragraph(Seq<char>),
    Figure(usize),
}

impl View for Block {
    type V = BlockView;

    open spec fn view(&self) -> BlockView {
        match self {
            Block::Heading(s) => BlockView::Heading(s@),
            Block::Paragraph(s) => BlockView::Paragraph(s@),
            Block::Figure(i) => BlockView::Figure(*i),
        }
    }
}

impl DeepView for Block {
    type V = BlockView;

    open spec fn deep_view(&self) -> BlockView {
        self@
    }
}

/// One line of a page: its text, and what its place on the page says of it.
#[derive(Clone, Debug, PartialEq, Eq)]
pub struct Line {
    pub text: String,
    /// Set in a face larger than the body's.
    pub large: bool,
    /// Set in from the margin.
    pub indented: bool,
    /// Ending short of the right margin.
    pub short: bool,
    /// Further below the line before it than lines are.
    pub apart: bool,
}

#[verifier::ext_equal]
pub struct LineView {
    pub text: Seq<char>,
    pub large: bool,
    pub indented: bool,
    pub short: bool,
    pub apart: bool,
}

impl View for Line {
    type V = LineView;

    open spec fn view(&self) -> LineView {
        LineView {
            text: self.text@,
            large: self.large,
            indented: self.indented,
            short: self.short,
            apart: self.apart,
        }
    }
}

impl DeepView for Line {
    type V = LineView;

    open spec fn deep_view(&self) -> LineView {
        self@
    }
}

/// One thing a page puts in the flow, in reading order.
#[derive(Clone, Debug, PartialEq, Eq)]
pub enum Item {
    Line(Line),
    Figure(usize),
}

#[verifier::ext_equal]
pub enum ItemView {
    Line(LineView),
    Figure(usize),
}

impl View for Item {
    type V = ItemView;

    open spec fn view(&self) -> ItemView {
        match self {
            Item::Line(line) => ItemView::Line(line@),
            Item::Figure(i) => ItemView::Figure(*i),
        }
    }
}

impl DeepView for Item {
    type V = ItemView;

    open spec fn deep_view(&self) -> ItemView {
        self@
    }
}

/// Whether Unicode calls a character a small letter.
pub uninterp spec fn small(c: char) -> bool;

/// `char::is_lowercase`, which follows Unicode's tables; the answer is named.
#[verifier::external_body]
pub(crate) fn is_small(c: char) -> (r: bool)
    ensures
        r == small(c),
{
    c.is_lowercase()
}

/// Whether a character can stand in a word.
pub open spec fn in_word(c: char) -> bool {
    text::alphanumeric(c) || c == '-'
}

pub open spec fn from_word(s: Seq<char>) -> Seq<char>
    decreases s.len(),
{
    if s.len() > 0 && !in_word(s[0]) {
        from_word(s.drop_first())
    } else {
        s
    }
}

pub open spec fn to_word(s: Seq<char>) -> Seq<char>
    decreases s.len(),
{
    if s.len() > 0 && !in_word(s.last()) {
        to_word(s.drop_last())
    } else {
        s
    }
}

/// A word as it would be looked up: no case, no punctuation around it.
pub open spec fn word_of(s: Seq<char>) -> Seq<char> {
    lowercase(to_word(from_word(s)))
}

pub fn word(s: &str) -> (r: String)
    ensures
        r@ == word_of(s@),
{
    let c = text::chars(s);
    let mut from: usize = 0;
    let mut to: usize = c.len();
    proof {
        assert(c@.skip(0) =~= c@);
    }
    while from < to && !(text::is_alphanumeric(c[from]) || c[from] == '-')
        invariant
            from <= to,
            to == c@.len(),
            from_word(c@) == from_word(c@.skip(from as int)),
        decreases to - from,
    {
        proof {
            assert(c@.skip(from as int).drop_first() =~= c@.skip(from as int + 1));
        }
        from += 1;
    }
    let ghost rest = c@.skip(from as int);
    assert(rest =~= c@.subrange(from as int, to as int));
    while from < to && !(text::is_alphanumeric(c[to - 1]) || c[to - 1] == '-')
        invariant
            from <= to <= c@.len(),
            to_word(rest) == to_word(c@.subrange(from as int, to as int)),
        decreases to - from,
    {
        proof {
            assert(c@.subrange(from as int, to as int).drop_last() =~= c@.subrange(
                from as int,
                to as int - 1,
            ));
        }
        to -= 1;
    }
    text::to_lowercase(text::slice(c.as_slice(), from, to).as_str())
}

/// A text cut at its whitespace: the runs of everything else.
pub open spec fn fields(s: Seq<char>) -> Seq<Seq<char>>
    decreases s.len(),
{
    if s.len() == 0 {
        Seq::empty()
    } else if text::white(s.last()) {
        fields(s.drop_last())
    } else if s.len() >= 2 && !text::white(s[s.len() - 2]) {
        let before = fields(s.drop_last());
        before.drop_last().push(before.last().push(s.last()))
    } else {
        fields(s.drop_last()).push(seq![s.last()])
    }
}

proof fn fields_run_on(s: Seq<char>)
    ensures
        s.len() > 0 && !text::white(s.last()) ==> fields(s).len() > 0,
    decreases s.len(),
{
    if s.len() >= 2 && !text::white(s.last()) && !text::white(s[s.len() - 2]) {
        fields_run_on(s.drop_last());
    }
}

pub fn split_fields(s: &str) -> (r: Vec<String>)
    ensures
        r.deep_view() == fields(s@),
{
    let c = text::chars(s);
    let mut out: Vec<String> = Vec::new();
    proof {
        assert(c@.take(0) =~= Seq::<char>::empty());
        assert(out.deep_view() =~= Seq::<Seq<char>>::empty());
    }
    for i in 0..c.len()
        invariant
            c@ == s@,
            out.deep_view() == fields(c@.take(i as int)),
    {
        let ghost before = out.deep_view();
        let ghost part = c@.take(i as int + 1);
        proof {
            assert(part.drop_last() =~= c@.take(i as int));
            fields_run_on(c@.take(i as int));
        }
        if !text::is_white(c[i]) {
            if i > 0 && !text::is_white(c[i - 1]) {
                let mut last = match out.pop() {
                    Some(last) => last,
                    None => String::new(),
                };
                let ghost so_far = last@;
                assert(so_far == before.last());
                last.push(c[i]);
                out.push(last);
                proof {
                    assert(out.deep_view() =~= before.drop_last().push(so_far.push(c@[i as int])));
                }
            } else {
                let mut one = String::new();
                one.push(c[i]);
                proof {
                    assert(one@ =~= seq![c@[i as int]]);
                }
                out.push(one);
                proof {
                    assert(out.deep_view() =~= before.push(seq![c@[i as int]]));
                }
            }
        }
    }
    proof {
        assert(c@.take(c@.len() as int) =~= c@);
    }
    out
}

/// Whether a line uses a word. The fragment before a break is not a word.
pub open spec fn line_uses(line: Seq<char>, w: Seq<char>) -> bool {
    exists|j: int|
        0 <= j < fields(line).len() && w == word_of(#[trigger] fields(line)[j]) && w.len() > 0 && !(
        broken(line) && j == fields(line).len() - 1)
}

/// Whether a line ends in a hyphen.
pub open spec fn broken(line: Seq<char>) -> bool {
    line.len() > 0 && line.last() == '-'
}

/// Whether a document uses a word, as far as its first `n` lines show.
pub open spec fn uses(lines: Seq<Seq<char>>, w: Seq<char>, n: int) -> bool {
    exists|i: int| 0 <= i < n && line_uses(#[trigger] lines[i], w)
}

/// Every word the document uses, for deciding what a hyphen at a line break
/// meant. A document is its own dictionary: a compound it hyphenates will be
/// hyphenated somewhere it did not have to break, and a word it broke will
/// appear whole elsewhere.
pub fn vocabulary(lines: &Vec<String>) -> (r: Vec<String>)
    ensures
        forall|w: Seq<char>|
            #![trigger r.deep_view().contains(w)]
            r.deep_view().contains(w) <==> uses(lines.deep_view(), w, lines@.len() as int),
{
    let ghost all = lines.deep_view();
    let mut out: Vec<String> = Vec::new();
    for i in 0..lines.len()
        invariant
            all == lines.deep_view(),
            forall|w: Seq<char>|
                #![trigger out.deep_view().contains(w)]
                out.deep_view().contains(w) <==> uses(all, w, i as int),
    {
        let ghost start = out.deep_view();
        let ghost line = all[i as int];
        assert(line == lines@[i as int]@);
        let c = text::chars(lines[i].as_str());
        let cut = c.len() > 0 && c[c.len() - 1] == '-';
        let parts = split_fields(lines[i].as_str());
        for j in 0..parts.len()
            invariant
                all == lines.deep_view(),
                line == all[i as int],
                cut == broken(line),
                parts.deep_view() == fields(line),
                forall|w: Seq<char>|
                    #![trigger out.deep_view().contains(w)]
                    out.deep_view().contains(w) <==> (start.contains(w) || uses_to(
                        line,
                        w,
                        j as int,
                    )),
        {
            let ghost before = out.deep_view();
            assert(fields(line)[j as int] == parts@[j as int]@);
            let mut added = false;
            let ghost mut put: Seq<char> = Seq::empty();
            if !(cut && j + 1 == parts.len()) {
                let part = word(parts[j].as_str());
                if !part.as_str().is_empty() {
                    proof {
                        put = part@;
                    }
                    out.push(part);
                    added = true;
                    proof {
                        assert(out.deep_view() =~= before.push(put));
                    }
                }
            }
            proof {
                assert forall|w: Seq<char>| #![trigger out.deep_view().contains(w)]
                    out.deep_view().contains(w) <==> (start.contains(w) || uses_to(
                        line,
                        w,
                        j as int + 1,
                    )) by {
                    uses_to_next(line, w, j as int);
                    if added {
                        assert(before.push(put).contains(w) <==> (before.contains(w) || w == put))
                            by {
                            if before.push(put).contains(w) {
                                let k = choose|k: int|
                                    0 <= k < before.len() + 1 && before.push(put)[k] == w;
                                if k < before.len() {
                                    assert(before[k] == w);
                                }
                            }
                            if before.contains(w) {
                                let k = choose|k: int| 0 <= k < before.len() && before[k] == w;
                                assert(before.push(put)[k] == w);
                            }
                            assert(before.push(put)[before.len() as int] == put);
                        }
                    }
                    assert(before.contains(w) <==> (start.contains(w) || uses_to(
                        line,
                        w,
                        j as int,
                    )));
                }
            }
        }
        proof {
            assert forall|w: Seq<char>| #![trigger out.deep_view().contains(w)]
                out.deep_view().contains(w) <==> uses(all, w, i as int + 1) by {
                assert(start.contains(w) <==> uses(all, w, i as int));
                uses_all(line, w);
                if uses(all, w, i as int + 1) {
                    let k = choose|k: int| 0 <= k < i + 1 && line_uses(#[trigger] all[k], w);
                    if k < i {
                        assert(uses(all, w, i as int));
                    }
                }
                if uses(all, w, i as int) {
                    let k = choose|k: int| 0 <= k < i && line_uses(#[trigger] all[k], w);
                    assert(line_uses(all[k], w));
                }
                if line_uses(line, w) {
                    assert(line_uses(all[i as int], w));
                }
            }
        }
    }
    out
}

/// Whether one of the first `n` fields of a line is a word.
spec fn uses_to(line: Seq<char>, w: Seq<char>, n: int) -> bool {
    exists|j: int| 0 <= j < n && #[trigger] field_is(line, w, j)
}

spec fn field_is(line: Seq<char>, w: Seq<char>, j: int) -> bool {
    0 <= j < fields(line).len() && w == word_of(fields(line)[j]) && w.len() > 0 && !(broken(line)
        && j == fields(line).len() - 1)
}

proof fn uses_to_next(line: Seq<char>, w: Seq<char>, n: int)
    requires
        n >= 0,
    ensures
        uses_to(line, w, n + 1) == (uses_to(line, w, n) || field_is(line, w, n)),
{
    if uses_to(line, w, n + 1) {
        let j = choose|j: int| 0 <= j < n + 1 && #[trigger] field_is(line, w, j);
        if j < n {
            assert(uses_to(line, w, n));
        }
    }
    if uses_to(line, w, n) {
        let j = choose|j: int| 0 <= j < n && #[trigger] field_is(line, w, j);
        assert(0 <= j < n + 1 && field_is(line, w, j));
    }
}

proof fn uses_all(line: Seq<char>, w: Seq<char>)
    ensures
        uses_to(line, w, fields(line).len() as int) == line_uses(line, w),
{
    if line_uses(line, w) {
        let j = choose|j: int|
            0 <= j < fields(line).len() && w == word_of(#[trigger] fields(line)[j]) && w.len() > 0
                && !(broken(line) && j == fields(line).len() - 1);
        assert(field_is(line, w, j));
    }
    if uses_to(line, w, fields(line).len() as int) {
        let j = choose|j: int| 0 <= j < fields(line).len() && #[trigger] field_is(line, w, j);
        assert(word_of(fields(line)[j]) == w);
    }
}

/// Whether a hyphen that a line break left behind is kept: the document uses
/// the hyphenated form when it is not out of room. A break can only ever remove
/// a hyphen, never invent one; closing up is what it usually meant.
pub open spec fn hyphenated(stem: Seq<char>, rest: Seq<char>, words: Seq<Seq<char>>) -> bool {
    &&& fields(stem).len() > 0
    &&& fields(rest).len() > 0
    &&& word_of(fields(stem).last()).len() > 0
    &&& word_of(fields(rest)[0]).len() > 0
    &&& words.contains(word_of(fields(stem).last()) + "-"@ + word_of(fields(rest)[0]))
}

/// What to do with a hyphen a line break left behind: keep it, or close it up.
pub fn keeps_hyphen(stem: &str, rest: &str, words: &Vec<String>) -> (r: bool)
    ensures
        r == hyphenated(stem@, rest@, words.deep_view()),
{
    let before = split_fields(stem);
    let after = split_fields(rest);
    if before.len() == 0 || after.len() == 0 {
        return false;
    }
    assert(fields(stem@).last() == before@[before@.len() - 1]@);
    assert(fields(rest@)[0] == after@[0]@);
    let before = word(before[before.len() - 1].as_str());
    let after = word(after[0].as_str());
    if before.as_str().is_empty() || after.as_str().is_empty() {
        return false;
    }
    let compound = text::concat3(before.as_str(), "-", after.as_str());
    holds(words, &compound)
}

/// A printed table of contents leads to a page number an EPUB does not have.
/// It is not a heading, whatever size it is set in.
pub fn dot_leader(s: &str) -> (r: bool)
    ensures
        r == text::within(s@, "...."@),
{
    text::contains(s, "....")
}

/// So many dots.
pub open spec fn dots(n: nat) -> Seq<char> {
    Seq::new(n, |i: int| '.')
}

/// A text with its runs of more than three dots collapsed, and how many dots
/// stand at its end, which are left off.
pub open spec fn collapsed(s: Seq<char>) -> (Seq<char>, nat)
    decreases s.len(),
{
    if s.len() == 0 {
        (Seq::empty(), 0)
    } else {
        let (out, n) = collapsed(s.drop_last());
        if s.last() == '.' {
            (out, n + 1)
        } else {
            (
                (out + (if n > 3 {
                    " … "@
                } else {
                    dots(n)
                })).push(s.last()),
                0,
            )
        }
    }
}

/// A text without the leader dots that a table of contents is drawn with.
pub open spec fn tidied(s: Seq<char>) -> Seq<char> {
    if !text::within(s, "...."@) {
        s
    } else {
        let (out, n) = collapsed(s);
        text::trimmed(
            if n > 3 {
                out + " …"@
            } else {
                out
            },
        )
    }
}

/// Collapse the leader dots that a table of contents is drawn with.
pub fn tidy(s: &str) -> (r: String)
    ensures
        r@ == tidied(s@),
{
    if !dot_leader(s) {
        return s.to_owned();
    }
    let c = text::chars(s);
    let mut out = String::new();
    let mut n: usize = 0;
    proof {
        assert(c@.take(0) =~= Seq::<char>::empty());
        assert(out@ =~= Seq::<char>::empty());
    }
    for i in 0..c.len()
        invariant
            c@ == s@,
            n <= i,
            (out@, n as nat) == collapsed(c@.take(i as int)),
    {
        proof {
            assert(c@.take(i as int + 1).drop_last() =~= c@.take(i as int));
        }
        if c[i] == '.' {
            n += 1;
        } else {
            if n > 3 {
                out.push_str(" … ");
            } else {
                let ghost before = out@;
                let mut k: usize = 0;
                proof {
                    assert(before + dots(0) =~= before);
                }
                while k < n
                    invariant
                        k <= n,
                        out@ == before + dots(k as nat),
                    decreases n - k,
                {
                    out.push('.');
                    proof {
                        assert(before + dots(k as nat + 1) =~= (before + dots(k as nat)).push('.'));
                    }
                    k += 1;
                }
            }
            out.push(c[i]);
            n = 0;
        }
    }
    proof {
        assert(c@.take(c@.len() as int) =~= c@);
    }
    if n > 3 {
        out.push_str(" …");
    }
    text::trim(out.as_str())
}

/// A text without its ASCII digits.
pub open spec fn undigited(s: Seq<char>) -> Seq<char>
    decreases s.len(),
{
    if s.len() == 0 {
        Seq::empty()
    } else if text::digit(s.last()) {
        undigited(s.drop_last())
    } else {
        undigited(s.drop_last()).push(s.last())
    }
}

/// What of a line repeats from page to page, whatever number it carries.
pub open spec fn key_of(s: Seq<char>) -> Seq<char> {
    lowercase(text::trimmed(undigited(s)))
}

pub fn key(s: &str) -> (r: String)
    ensures
        r@ == key_of(s@),
{
    let c = text::chars(s);
    let mut out = String::new();
    proof {
        assert(c@.take(0) =~= Seq::<char>::empty());
        assert(out@ =~= Seq::<char>::empty());
    }
    for i in 0..c.len()
        invariant
            c@ == s@,
            out@ == undigited(c@.take(i as int)),
    {
        proof {
            assert(c@.take(i as int + 1).drop_last() =~= c@.take(i as int));
        }
        if !text::is_digit(c[i]) {
            out.push(c[i]);
        }
    }
    proof {
        assert(c@.take(c@.len() as int) =~= c@);
    }
    text::to_lowercase(text::trim(out.as_str()).as_str())
}

/// The outermost lines of a page, which alone can be furniture: body text
/// repeats too. A page of one line offers it once, not once at each end.
pub open spec fn page_ends(page: Seq<Seq<char>>) -> Seq<Seq<char>> {
    if page.len() == 0 {
        Seq::empty()
    } else if page.len() == 1 {
        seq![key_of(page[0])]
    } else {
        seq![key_of(page[0]), key_of(page.last())]
    }
}

pub open spec fn all_ends(pages: Seq<Seq<Seq<char>>>) -> Seq<Seq<char>>
    decreases pages.len(),
{
    if pages.len() == 0 {
        Seq::empty()
    } else {
        all_ends(pages.drop_last()) + page_ends(pages.last())
    }
}

pub open spec fn occurrences(s: Seq<Seq<char>>, k: Seq<char>) -> nat
    decreases s.len(),
{
    if s.len() == 0 {
        0
    } else {
        occurrences(s.drop_last(), k) + if s.last() == k {
            1nat
        } else {
            0
        }
    }
}

/// On how many pages a line has to stand to be furniture.
pub open spec fn enough(pages: nat) -> nat {
    if pages / 3 > 2 {
        pages / 3
    } else {
        2
    }
}

/// A running head, a footer or a page number: text that repeats in the same
/// place page after page and belongs to the paper, not to the book. Furniture
/// is repetition from page to page, so a single page cannot have any.
pub open spec fn is_furniture(pages: Seq<Seq<Seq<char>>>, k: Seq<char>) -> bool {
    pages.len() >= 2 && (k.len() == 0 || occurrences(all_ends(pages), k) >= enough(pages.len()))
}

fn count(s: &Vec<String>, k: &str) -> (r: usize)
    ensures
        r == occurrences(s.deep_view(), k@),
        r <= s@.len(),
{
    let ghost all = s.deep_view();
    let mut n: usize = 0;
    proof {
        assert(all.take(0) =~= Seq::<Seq<char>>::empty());
    }
    for i in 0..s.len()
        invariant
            all == s.deep_view(),
            n <= i,
            n == occurrences(all.take(i as int), k@),
    {
        proof {
            assert(all.take(i as int + 1).drop_last() =~= all.take(i as int));
            assert(all[i as int] == s@[i as int]@);
        }
        if text::same(s[i].as_str(), k) {
            n += 1;
        }
    }
    proof {
        assert(all.take(all.len() as int) =~= all);
    }
    n
}

fn collect_ends(pages: &Vec<Vec<String>>) -> (r: Vec<String>)
    ensures
        r.deep_view() == all_ends(pages.deep_view()),
{
    let ghost all = pages.deep_view();
    let mut out: Vec<String> = Vec::new();
    proof {
        assert(all.take(0) =~= Seq::<Seq<Seq<char>>>::empty());
        assert(out.deep_view() =~= Seq::<Seq<char>>::empty());
    }
    for i in 0..pages.len()
        invariant
            all == pages.deep_view(),
            out.deep_view() == all_ends(all.take(i as int)),
    {
        let ghost before = out.deep_view();
        let page = &pages[i];
        proof {
            assert(all.take(i as int + 1).drop_last() =~= all.take(i as int));
            assert(all[i as int] == page.deep_view());
            assert(before + Seq::<Seq<char>>::empty() =~= before);
        }
        if page.len() > 0 {
            let first = key(page[0].as_str());
            let ghost shown = first@;
            assert(page.deep_view()[0] == page@[0]@);
            out.push(first);
            proof {
                assert(out.deep_view() =~= before.push(shown));
                assert(before.push(shown) =~= before + seq![shown]);
            }
            if page.len() > 1 {
                let last = key(page[page.len() - 1].as_str());
                let ghost end = last@;
                assert(page.deep_view().last() == page@[page@.len() - 1]@);
                out.push(last);
                proof {
                    assert(out.deep_view() =~= before.push(shown).push(end));
                    assert(before.push(shown).push(end) =~= before + seq![shown, end]);
                }
            }
        }
    }
    proof {
        assert(all.take(all.len() as int) =~= all);
    }
    out
}

proof fn occurrences_are_found(s: Seq<Seq<char>>, k: Seq<char>)
    ensures
        occurrences(s, k) > 0 ==> s.contains(k),
    decreases s.len(),
{
    if s.len() > 0 {
        occurrences_are_found(s.drop_last(), k);
        if s.last() == k {
            assert(s[s.len() - 1] == k);
        } else if occurrences(s, k) > 0 {
            let i = choose|i: int| 0 <= i < s.drop_last().len() && s.drop_last()[i] == k;
            assert(s[i] == k);
        }
    }
}

/// The lines of the paper rather than of the book, by what repeats of them.
pub fn furniture(pages: &Vec<Vec<String>>) -> (r: Vec<String>)
    ensures
        forall|k: Seq<char>|
            #![trigger r.deep_view().contains(k)]
            r.deep_view().contains(k) <==> is_furniture(pages.deep_view(), k),
{
    let mut out: Vec<String> = Vec::new();
    if pages.len() < 2 {
        return out;
    }
    let ends = collect_ends(pages);
    let ghost all = ends.deep_view();
    let third: usize = pages.len() / 3;
    let wanted: usize = if third > 2 {
        third
    } else {
        2
    };
    out.push(String::new());
    proof {
        assert(out@[0]@ =~= Seq::<char>::empty());
        assert forall|k: Seq<char>| #![trigger out.deep_view().contains(k)]
            out.deep_view().contains(k) <==> (k.len() == 0 || found_in(all, k, wanted as nat, 0)) by {
            if k.len() == 0 {
                assert(out.deep_view()[0] =~= k);
            }
            if out.deep_view().contains(k) {
                let j = choose|j: int| 0 <= j < out.deep_view().len() && out.deep_view()[j] == k;
            }
        }
    }
    for i in 0..ends.len()
        invariant
            all == ends.deep_view(),
            wanted >= 2,
            forall|k: Seq<char>|
                #![trigger out.deep_view().contains(k)]
                out.deep_view().contains(k) <==> (k.len() == 0 || found_in(
                    all,
                    k,
                    wanted as nat,
                    i as int,
                )),
    {
        let ghost before = out.deep_view();
        let ghost here = all[i as int];
        assert(here == ends@[i as int]@);
        let seen = count(&ends, ends[i].as_str());
        if seen >= wanted {
            out.push(ends[i].duplicate());
            proof {
                assert(out.deep_view() =~= before.push(here));
            }
        }
        proof {
            assert forall|k: Seq<char>| #![trigger out.deep_view().contains(k)]
                out.deep_view().contains(k) <==> (k.len() == 0 || found_in(
                    all,
                    k,
                    wanted as nat,
                    i as int + 1,
                )) by {
                assert(before.contains(k) <==> (k.len() == 0 || found_in(
                    all,
                    k,
                    wanted as nat,
                    i as int,
                )));
                if out.deep_view().contains(k) {
                    let j = choose|j: int|
                        0 <= j < out.deep_view().len() && out.deep_view()[j] == k;
                    if j < before.len() {
                        assert(before[j] == k);
                    } else {
                        assert(all[i as int] == k);
                    }
                }
                if before.contains(k) {
                    let j = choose|j: int| 0 <= j < before.len() && before[j] == k;
                    assert(out.deep_view()[j] == k);
                }
                if found_in(all, k, wanted as nat, i as int + 1) {
                    let j = choose|j: int| 0 <= j < i + 1 && #[trigger] all[j] == k;
                    if j < i {
                        assert(found_in(all, k, wanted as nat, i as int));
                    } else {
                        assert(out.deep_view()[before.len() as int] == k);
                    }
                }
            }
        }
    }
    proof {
        assert forall|k: Seq<char>| #![trigger out.deep_view().contains(k)]
            out.deep_view().contains(k) <==> is_furniture(pages.deep_view(), k) by {
            occurrences_are_found(all, k);
            if occurrences(all, k) >= wanted {
                let j = choose|j: int| 0 <= j < all.len() && all[j] == k;
                assert(all[j] == k);
            }
        }
    }
    out
}

spec fn found_in(all: Seq<Seq<char>>, k: Seq<char>, wanted: nat, n: int) -> bool {
    occurrences(all, k) >= wanted && exists|j: int| 0 <= j < n && #[trigger] all[j] == k
}

/// A paragraph with a line put behind it. A word broken across lines was
/// usually never two words, but a compound that carries its own hyphen still is
/// one.
pub open spec fn run_on(so_far: Seq<char>, line: Seq<char>, words: Seq<Seq<char>>) -> Seq<char> {
    if so_far.len() > 0 && so_far.last() == '-' {
        let stem = so_far.drop_last();
        if !(stem.len() > 0 && text::white(stem.last())) && line.len() > 0 && small(line[0]) {
            if hyphenated(stem, line, words) {
                so_far + tidied(line)
            } else {
                stem + tidied(line)
            }
        } else {
            so_far + " "@ + tidied(line)
        }
    } else {
        so_far + " "@ + tidied(line)
    }
}

fn put_behind(so_far: &str, line: &str, words: &Vec<String>) -> (r: String)
    ensures
        r@ == run_on(so_far@, line@, words.deep_view()),
{
    let c = text::chars(so_far);
    let rest = text::chars(line);
    let tidy = tidy(line);
    if c.len() > 0 && c[c.len() - 1] == '-' {
        let stem = text::slice(c.as_slice(), 0, c.len() - 1);
        proof {
            assert(stem@ =~= so_far@.drop_last());
        }
        if !(c.len() > 1 && text::is_white(c[c.len() - 2])) && rest.len() > 0 && is_small(rest[0]) {
            if keeps_hyphen(stem.as_str(), line, words) {
                return text::concat(so_far, tidy.as_str());
            }
            return text::concat(stem.as_str(), tidy.as_str());
        }
    }
    text::concat3(so_far, " ", tidy.as_str())
}

/// Whether a line starts a paragraph, after the line before it.
pub open spec fn starts_paragraph(
    previous: Option<LineView>,
    line: LineView,
    justified: bool,
) -> bool {
    match previous {
        None => true,
        Some(last) => last.large || line.large || line.indented || (justified && last.short)
            || line.apart,
    }
}

pub open spec fn is_heading(line: LineView) -> bool {
    line.large && !text::within(line.text, "...."@)
}

/// What a flow amounts to, and the line it ends with. Whatever follows a
/// picture starts a paragraph of its own.
pub open spec fn flowed(flow: Seq<ItemView>, justified: bool, words: Seq<Seq<char>>) -> (
    Seq<BlockView>,
    Option<LineView>,
)
    decreases flow.len(),
{
    if flow.len() == 0 {
        (Seq::empty(), None)
    } else {
        let (blocks, previous) = flowed(flow.drop_last(), justified, words);
        match flow.last() {
            ItemView::Figure(i) => (blocks.push(BlockView::Figure(i)), None),
            ItemView::Line(line) => (
                if blocks.len() > 0 && blocks.last() is Paragraph && !starts_paragraph(
                    previous,
                    line,
                    justified,
                ) && !is_heading(line) {
                    blocks.drop_last().push(
                        BlockView::Paragraph(
                            run_on(blocks.last()->Paragraph_0, line.text, words),
                        ),
                    )
                } else if is_heading(line) {
                    blocks.push(BlockView::Heading(tidied(line.text)))
                } else {
                    blocks.push(BlockView::Paragraph(tidied(line.text)))
                },
                Some(line),
            ),
        }
    }
}

/// Make headings and paragraphs of the lines of a book.
pub fn blocks(flow: &Vec<Item>, justified: bool, words: &Vec<String>) -> (r: Vec<Block>)
    ensures
        r.deep_view() == flowed(flow.deep_view(), justified, words.deep_view()).0,
{
    let ghost all = flow.deep_view();
    let ghost known = words.deep_view();
    let mut out: Vec<Block> = Vec::new();
    let mut previous: Option<&Line> = None;
    let ghost mut shown: Option<LineView> = None;
    proof {
        assert(all.take(0) =~= Seq::<ItemView>::empty());
        assert(out.deep_view() =~= Seq::<BlockView>::empty());
    }
    for i in 0..flow.len()
        invariant
            all == flow.deep_view(),
            known == words.deep_view(),
            shown == match previous {
                Some(line) => Some(line@),
                None => None,
            },
            (out.deep_view(), shown) == flowed(all.take(i as int), justified, known),
    {
        let ghost before = out.deep_view();
        proof {
            assert(all.take(i as int + 1).drop_last() =~= all.take(i as int));
            assert(all[i as int] == flow@[i as int]@);
        }
        match &flow[i] {
            Item::Figure(index) => {
                out.push(Block::Figure(*index));
                previous = None;
                proof {
                    shown = None;
                    assert(out.deep_view() =~= before.push(BlockView::Figure(*index)));
                }
            },
            Item::Line(line) => {
                let starts = match previous {
                    None => true,
                    Some(last) => last.large || line.large || line.indented || (justified
                        && last.short) || line.apart,
                };
                let heading = line.large && !dot_leader(line.text.as_str());
                let open = if starts || heading {
                    None
                } else {
                    match out.last() {
                        Some(Block::Paragraph(so_far)) => Some(
                            put_behind(so_far.as_str(), line.text.as_str(), words),
                        ),
                        _ => None,
                    }
                };
                match open {
                    Some(longer) => {
                        let ghost view = longer@;
                        proof {
                            assert(before.last() == out@[out@.len() - 1]@);
                        }
                        out.pop();
                        out.push(Block::Paragraph(longer));
                        proof {
                            assert(out.deep_view() =~= before.drop_last().push(
                                BlockView::Paragraph(view),
                            ));
                        }
                    },
                    None => {
                        let tidy = tidy(line.text.as_str());
                        let ghost view = tidy@;
                        proof {
                            if before.len() > 0 {
                                assert(before.last() == out@[out@.len() - 1]@);
                            }
                        }
                        if heading {
                            out.push(Block::Heading(tidy));
                            proof {
                                assert(out.deep_view() =~= before.push(BlockView::Heading(view)));
                            }
                        } else {
                            out.push(Block::Paragraph(tidy));
                            proof {
                                assert(out.deep_view() =~= before.push(BlockView::Paragraph(view)));
                            }
                        }
                    },
                }
                previous = Some(line);
                proof {
                    shown = Some(line@);
                }
            },
        }
    }
    proof {
        assert(all.take(all.len() as int) =~= all);
    }
    out
}

/// Pictures keep their places: the pictures of a book are those of its flow, in
/// the same order.
pub proof fn pictures_are_kept(flow: Seq<ItemView>, justified: bool, words: Seq<Seq<char>>)
    ensures
        block_pictures(flowed(flow, justified, words).0) == item_pictures(flow),
    decreases flow.len(),
{
    if flow.len() > 0 {
        pictures_are_kept(flow.drop_last(), justified, words);
        let (blocks, previous) = flowed(flow.drop_last(), justified, words);
        let after = flowed(flow, justified, words).0;
        if after.len() == blocks.len() {
            assert(after.drop_last() =~= blocks.drop_last());
        } else {
            assert(after.drop_last() =~= blocks);
        }
    }
}

pub open spec fn item_pictures(flow: Seq<ItemView>) -> Seq<usize>
    decreases flow.len(),
{
    if flow.len() == 0 {
        Seq::empty()
    } else {
        match flow.last() {
            ItemView::Figure(i) => item_pictures(flow.drop_last()).push(i),
            _ => item_pictures(flow.drop_last()),
        }
    }
}

pub open spec fn block_pictures(blocks: Seq<BlockView>) -> Seq<usize>
    decreases blocks.len(),
{
    if blocks.len() == 0 {
        Seq::empty()
    } else {
        match blocks.last() {
            BlockView::Figure(i) => block_pictures(blocks.drop_last()).push(i),
            _ => block_pictures(blocks.drop_last()),
        }
    }
}

/// Whether lines end at one margin: most of them do. Only then does a short
/// line mean anything: in ragged text every line ends somewhere different and
/// none of it is a paragraph ending.
pub open spec fn mostly_full(full: nat, lines: nat) -> bool {
    lines > 0 && 5 * full > 3 * lines
}

pub fn justified(full: usize, lines: usize) -> (r: bool)
    ensures
        r == mostly_full(full as nat, lines as nat),
{
    lines > 0 && 5 * (full as u128) > 3 * (lines as u128)
}

/// Whether a page's text starts in two separated bands, which is what a second
/// column looks like: a left margin, a second margin past the middle, and a
/// gutter between them with nothing in it. The bands are told by how many bytes
/// of text start in each; one column with an indented quotation fails the last
/// test.
pub open spec fn in_columns(total: nat, left: nat, gutter: nat, right: nat) -> bool {
    total >= super::TEXT_ON_A_PAGE && 5 * left > total && 5 * right > total && 10 * gutter < total
}

pub fn two_columns(total: usize, left: usize, gutter: usize, right: usize) -> (r: bool)
    ensures
        r == in_columns(total as nat, left as nat, gutter as nat, right as nat),
{
    total >= super::TEXT_ON_A_PAGE && 5 * (left as u128) > total as u128 && 5 * (right as u128)
        > total as u128 && 10 * (gutter as u128) < total as u128
}

} // verus!
