//! What the screen shows: every line as text with a paint, for whatever draws
//! it. Colour carries no information on its own: every state also has a glyph
//! or word.
use crate::text;
use crate::values::Duplicate;
use vstd::prelude::*;

pub mod dialogs;
pub mod laws;
pub mod list;

verus! {

broadcast use vstd::string::group_string_axioms;

/// How a piece of text is drawn.
#[derive(Clone, Copy, Debug, PartialEq, Eq, Structural)]
pub enum Paint {
    Plain,
    Bold,
    Accent,
    Good,
    Warn,
    Bad,
    Busy,
    Reverse,
}

#[derive(Clone, Debug, PartialEq, Eq)]
pub struct Span {
    pub text: String,
    pub paint: Paint,
}

#[verifier::ext_equal]
pub struct SpanView {
    pub text: Seq<char>,
    pub paint: Paint,
}

impl View for Span {
    type V = SpanView;

    open spec fn view(&self) -> SpanView {
        SpanView { text: self.text@, paint: self.paint }
    }
}

impl DeepView for Span {
    type V = SpanView;

    open spec fn deep_view(&self) -> SpanView {
        self@
    }
}

impl Duplicate for Span {
    fn duplicate(&self) -> (r: Span) {
        Span { text: self.text.duplicate(), paint: self.paint }
    }
}

/// A piece of text with its paint.
pub open spec fn painted(text: Seq<char>, paint: Paint) -> SpanView {
    SpanView { text, paint }
}

pub(super) fn ink(text: &str, paint: Paint) -> (r: Span)
    ensures
        r@ == painted(text@, paint),
{
    Span { text: text.to_owned(), paint }
}

pub(super) fn ink_owned(text: String, paint: Paint) -> (r: Span)
    ensures
        r@ == painted(text@, paint),
{
    Span { text, paint }
}

pub(super) fn line1(a: Span) -> (r: Vec<Span>)
    ensures
        r.deep_view() == seq![a@],
{
    let mut out: Vec<Span> = Vec::new();
    out.push(a);
    assert(out.deep_view() =~= seq![a@]);
    out
}

pub(super) fn line2(a: Span, b: Span) -> (r: Vec<Span>)
    ensures
        r.deep_view() == seq![a@, b@],
{
    let mut out: Vec<Span> = Vec::new();
    out.push(a);
    out.push(b);
    assert(out.deep_view() =~= seq![a@, b@]);
    out
}

pub(super) fn line3(a: Span, b: Span, c: Span) -> (r: Vec<Span>)
    ensures
        r.deep_view() == seq![a@, b@, c@],
{
    let mut out: Vec<Span> = Vec::new();
    out.push(a);
    out.push(b);
    out.push(c);
    assert(out.deep_view() =~= seq![a@, b@, c@]);
    out
}

pub(super) fn line4(a: Span, b: Span, c: Span, d: Span) -> (r: Vec<Span>)
    ensures
        r.deep_view() == seq![a@, b@, c@, d@],
{
    let mut out: Vec<Span> = Vec::new();
    out.push(a);
    out.push(b);
    out.push(c);
    out.push(d);
    assert(out.deep_view() =~= seq![a@, b@, c@, d@]);
    out
}

pub(super) fn line5(a: Span, b: Span, c: Span, d: Span, e: Span) -> (r: Vec<Span>)
    ensures
        r.deep_view() == seq![a@, b@, c@, d@, e@],
{
    let mut out: Vec<Span> = Vec::new();
    out.push(a);
    out.push(b);
    out.push(c);
    out.push(d);
    out.push(e);
    assert(out.deep_view() =~= seq![a@, b@, c@, d@, e@]);
    out
}

pub(super) fn put_line(lines: &mut Vec<Vec<Span>>, line: Vec<Span>)
    ensures
        final(lines).deep_view() == old(lines).deep_view().push(line.deep_view()),
{
    let ghost before = lines.deep_view();
    let ghost shown = line.deep_view();
    lines.push(line);
    assert(lines.deep_view() =~= before.push(shown));
}

pub(super) fn put_span(line: &mut Vec<Span>, span: Span)
    ensures
        final(line).deep_view() == old(line).deep_view().push(span@),
{
    let ghost before = line.deep_view();
    line.push(span);
    assert(line.deep_view() =~= before.push(span@));
}

pub(super) fn put_spans(line: &mut Vec<Span>, more: &Vec<Span>)
    ensures
        final(line).deep_view() == old(line).deep_view() + more.deep_view(),
{
    let ghost start = line.deep_view();
    let ghost all = more.deep_view();
    proof {
        assert(start + all.take(0) =~= start);
    }
    for i in 0..more.len()
        invariant
            all == more.deep_view(),
            line.deep_view() == start + all.take(i as int),
    {
        put_span(line, more[i].duplicate());
        proof {
            assert(all[i as int] == more@[i as int]@);
            assert(start + all.take(i as int + 1) =~= (start + all.take(i as int)).push(
                all[i as int],
            ));
        }
    }
    proof {
        assert(all.take(all.len() as int) =~= all);
    }
}

pub(super) fn no_lines() -> (r: Vec<Vec<Span>>)
    ensures
        r.deep_view() == Seq::<Seq<SpanView>>::empty(),
{
    let r: Vec<Vec<Span>> = Vec::new();
    assert(r.deep_view() =~= Seq::<Seq<SpanView>>::empty());
    r
}

pub(super) fn no_spans() -> (r: Vec<Span>)
    ensures
        r.deep_view() == Seq::<SpanView>::empty(),
{
    let r: Vec<Span> = Vec::new();
    assert(r.deep_view() =~= Seq::<SpanView>::empty());
    r
}

/// How many cells a text takes on the screen.
pub uninterp spec fn text_width(s: Seq<char>) -> usize;

/// `unicode_width::UnicodeWidthStr::width`, which follows Unicode's tables; the
/// width is named.
#[verifier::external_body]
pub(crate) fn width(s: &str) -> (r: usize)
    ensures
        r == text_width(s@),
{
    unicode_width::UnicodeWidthStr::width(s)
}

/// How many cells a character takes on the screen, where it has a width.
pub uninterp spec fn char_width(c: char) -> Option<usize>;

/// `unicode_width::UnicodeWidthChar::width`, which follows Unicode's tables; the
/// width is named.
#[verifier::external_body]
pub(crate) fn cell_width(c: char) -> (r: Option<usize>)
    ensures
        r == char_width(c),
{
    unicode_width::UnicodeWidthChar::width(c)
}

/// How many cells a character takes on the screen; none for one that has no
/// width.
pub open spec fn cells(c: char) -> usize {
    match char_width(c) {
        Some(width) => width,
        None => 0,
    }
}

/// How many cells a line takes on the screen.
pub open spec fn line_width(line: Seq<SpanView>) -> int
    decreases line.len(),
{
    if line.len() == 0 {
        0
    } else {
        line_width(line.drop_last()) + text_width(line.last().text)
    }
}

pub(super) fn measure(line: &Vec<Span>) -> (r: u128)
    ensures
        r == line_width(line.deep_view()),
{
    let ghost all = line.deep_view();
    let mut sum: u128 = 0;
    proof {
        assert(all.take(0) =~= Seq::<SpanView>::empty());
    }
    let length: usize = line.len();
    for i in 0..length
        invariant
            length == line@.len(),
            all == line.deep_view(),
            sum == line_width(all.take(i as int)),
            sum <= i * 18446744073709551615,
    {
        proof {
            assert(all.take(i as int + 1).drop_last() =~= all.take(i as int));
            assert(all[i as int] == line@[i as int]@);
            assert(i * 18446744073709551615 <= 340282366920938463426481119284349108225) by (
                nonlinear_arith)
                requires
                    0 <= i <= 18446744073709551614,
            ;
        }
        sum = sum + width(line[i].text.as_str()) as u128;
    }
    proof {
        assert(all.take(all.len() as int) =~= all);
    }
    sum
}

/// A text without control characters.
pub open spec fn cleaned(s: Seq<char>) -> Seq<char> {
    s.map_values(
        |c: char|
            if text::control(c) {
                ' '
            } else {
                c
            },
    )
}

pub fn clean(s: &str) -> (r: String)
    ensures
        r@ == cleaned(s@),
{
    let c = text::chars(s);
    let mut out: Vec<char> = Vec::new();
    for i in 0..c.len()
        invariant
            c@ == s@,
            out@ == cleaned(s@).take(i as int),
    {
        let put = if text::is_control(c[i]) {
            ' '
        } else {
            c[i]
        };
        out.push(put);
        proof {
            assert(cleaned(s@).take(i as int + 1) =~= cleaned(s@).take(i as int).push(put));
        }
    }
    proof {
        assert(cleaned(s@).take(c@.len() as int) =~= cleaned(s@));
    }
    text::string(out.as_slice())
}

/// As many characters from `from` on as fit behind `used` cells.
pub open spec fn fitting(s: Seq<char>, from: int, used: int, limit: int) -> int
    decreases s.len() - from,
{
    if from < 0 || from >= s.len() || used + cells(s[from]) > limit {
        from
    } else {
        fitting(s, from + 1, used + cells(s[from]), limit)
    }
}

/// A limit less the cell that a mark takes.
pub open spec fn but_one(limit: int) -> int {
    if limit > 0 {
        limit - 1
    } else {
        0
    }
}

/// A text cut to so many cells, with a mark where something is missing.
pub open spec fn shortened(s: Seq<char>, limit: int) -> Seq<char> {
    let clean = cleaned(s);
    if text_width(clean) <= limit {
        clean
    } else {
        clean.take(fitting(clean, 0, 0, but_one(limit))).push('…')
    }
}

/// Truncate to a printed width, not a character count: one CJK glyph occupies
/// two cells, and a table column is measured in cells.
pub fn shorten(s: &str, limit: usize) -> (r: String)
    ensures
        r@ == shortened(s@, limit as int),
{
    let clean = clean(s);
    if width(clean.as_str()) <= limit {
        return clean;
    }
    let c = text::chars(clean.as_str());
    let most: usize = if limit > 0 {
        limit - 1
    } else {
        0
    };
    let mut used: usize = 0;
    let mut i: usize = 0;
    while i < c.len()
        invariant_except_break
            i <= c@.len(),
            used <= most,
            fitting(c@, 0, 0, most as int) == fitting(c@, i as int, used as int, most as int),
        ensures
            i <= c@.len(),
            i == fitting(c@, 0, 0, most as int),
        decreases c@.len() - i,
    {
        let wide: usize = match cell_width(c[i]) {
            Some(width) => width,
            None => 0,
        };
        if wide > most - used {
            break;
        }
        used += wide;
        i += 1;
    }
    let mut out = text::slice(c.as_slice(), 0, i);
    proof {
        assert(out@ =~= c@.take(i as int));
    }
    out.push('…');
    out
}

/// The last characters of a text, from the last on, that fit behind those kept
/// already.
pub open spec fn kept_end(s: Seq<char>, kept: Seq<char>, limit: int) -> Seq<char>
    decreases s.len(),
{
    if s.len() == 0 || text_width(kept) + text::width_utf8(s.last()) > limit {
        kept
    } else {
        kept_end(s.drop_last(), kept.push(s.last()), limit)
    }
}

/// The end of a path, with a mark where something is missing.
pub open spec fn tail_of(path: Seq<char>, limit: int) -> Seq<char> {
    let clean = cleaned(path);
    if text_width(clean) <= limit {
        clean
    } else {
        seq!['…'] + kept_end(clean, Seq::empty(), but_one(limit)).reverse()
    }
}

/// Keep the end of a path: a file is identified by its name, not by the
/// directories above it.
pub fn tail(path: &str, limit: usize) -> (r: String)
    ensures
        r@ == tail_of(path@, limit as int),
{
    let clean = clean(path);
    if width(clean.as_str()) <= limit {
        return clean;
    }
    let c = text::chars(clean.as_str());
    let most: usize = if limit > 0 {
        limit - 1
    } else {
        0
    };
    let mut kept = String::new();
    let mut end: usize = c.len();
    proof {
        assert(kept@ =~= Seq::<char>::empty());
        assert(c@.take(c@.len() as int) =~= c@);
    }
    let ghost goal = kept_end(c@, Seq::empty(), most as int);
    while end > 0
        invariant_except_break
            end <= c@.len(),
            goal == kept_end(c@.take(end as int), kept@, most as int),
        ensures
            goal == kept@,
        decreases end,
    {
        let used = width(kept.as_str());
        let more = text::len_utf8(c[end - 1]);
        proof {
            assert(c@.take(end as int).drop_last() =~= c@.take(end as int - 1));
        }
        if used > most || more > most - used {
            break;
        }
        kept.push(c[end - 1]);
        end -= 1;
    }
    let back = text::chars(kept.as_str());
    let length: usize = back.len();
    let mut out: Vec<char> = Vec::new();
    out.push('…');
    proof {
        assert(out@ =~= seq!['…'] + back@.reverse().take(0));
    }
    for i in 0..length
        invariant
            length == back@.len(),
            out@ == seq!['…'] + back@.reverse().take(i as int),
    {
        out.push(back[length - 1 - i]);
        proof {
            assert(out@ =~= seq!['…'] + back@.reverse().take(i as int + 1));
        }
    }
    proof {
        assert(back@.reverse().take(length as int) =~= back@.reverse());
    }
    text::string(out.as_slice())
}

/// So many times the same character.
pub open spec fn repeated(c: char, n: int) -> Seq<char> {
    Seq::new(
        if n > 0 {
            n as nat
        } else {
            0
        },
        |i: int| c,
    )
}

pub(super) fn repeat(c: char, n: usize) -> (r: String)
    ensures
        r@ == repeated(c, n as int),
{
    let mut out: Vec<char> = Vec::new();
    for i in 0..n
        invariant
            out@ == repeated(c, i as int),
    {
        out.push(c);
        proof {
            assert(out@ =~= repeated(c, i as int + 1));
        }
    }
    text::string(out.as_slice())
}

/// A text with blanks behind it up to a length.
pub open spec fn padded(s: Seq<char>, n: int) -> Seq<char> {
    s + repeated(' ', n - s.len())
}

pub(super) fn pad(s: &str, n: usize) -> (r: String)
    ensures
        r@ == padded(s@, n as int),
{
    let length: usize = text::chars(s).len();
    let more: usize = if n > length {
        n - length
    } else {
        0
    };
    let blanks = repeat(' ', more);
    proof {
        assert(repeated(' ', more as int) =~= repeated(' ', n - s@.len()));
    }
    text::concat(s, blanks.as_str())
}

/// A text with blanks before it up to a length.
pub open spec fn aligned(s: Seq<char>, n: int) -> Seq<char> {
    repeated(' ', n - s.len()) + s
}

pub(super) fn align(s: &str, n: usize) -> (r: String)
    ensures
        r@ == aligned(s@, n as int),
{
    let length: usize = text::chars(s).len();
    let more: usize = if n > length {
        n - length
    } else {
        0
    };
    let blanks = repeat(' ', more);
    proof {
        assert(repeated(' ', more as int) =~= repeated(' ', n - s@.len()));
    }
    text::concat(blanks.as_str(), s)
}

/// How far a list is held away from the edges where there is room.
pub open spec fn margin_of(visible: int) -> int {
    if (visible - 1) / 2 < 2 {
        (visible - 1) / 2
    } else {
        2
    }
}

/// Whether a list that starts at `at` shows the selected row with a margin,
/// as far as the ends of the list allow.
pub open spec fn shows(at: int, selected: int, len: int, visible: int) -> bool {
    &&& 0 <= at <= len - visible
    &&& at == 0 || at + margin_of(visible) <= selected
    &&& at == len - visible || selected + margin_of(visible) < at + visible
}

pub open spec fn at_most(a: int, b: int) -> int {
    if a < b {
        a
    } else {
        b
    }
}

pub open spec fn less(a: int, b: int) -> int {
    if a > b {
        a - b
    } else {
        0
    }
}

/// The offset a list moves to: down or up just as far as the selected row asks,
/// and never past the end.
pub open spec fn offset_of(current: int, selected: int, len: int, visible: int) -> int {
    if visible == 0 || len <= visible {
        0
    } else {
        let max = len - visible;
        let margin = margin_of(visible);
        let first = at_most(current, max);
        let second = if selected < first + margin {
            less(selected, margin)
        } else {
            first
        };
        let third = if selected + margin >= second + visible {
            less(selected + margin + 1, visible)
        } else {
            second
        };
        at_most(third, max)
    }
}

/// The selected row is always in view, with a margin where the ends of the list
/// allow, and the list moves no further than that asks: no offset that shows the
/// row lies between where the list was and where it is now. Where the row shows
/// already, the list stays.
pub proof fn the_list_follows_the_selection(
    current: int,
    selected: int,
    len: int,
    visible: int,
    other: int,
)
    requires
        0 <= current,
        0 <= selected < len,
        0 < visible < len,
    ensures
        ({
            let at = offset_of(current, selected, len, visible);
            &&& shows(at, selected, len, visible)
            &&& at <= selected < at + visible
            &&& shows(other, selected, len, visible) && current <= at ==> !(current <= other < at)
            &&& shows(other, selected, len, visible) && at <= current ==> !(at < other <= current)
            &&& shows(current, selected, len, visible) ==> at == current
            &&& offset_of(at, selected, len, visible) == at
        }),
{
}

/// The list offset that keeps `selected` visible, moving as little as possible
/// and holding a margin away from the edges where the viewport allows.
pub fn offset(current: usize, selected: usize, len: usize, visible: usize) -> (r: usize)
    ensures
        r == offset_of(current as int, selected as int, len as int, visible as int),
{
    if visible == 0 || len <= visible {
        return 0;
    }
    let max: usize = len - visible;
    let half: usize = (visible - 1) / 2;
    let margin: usize = if half < 2 {
        half
    } else {
        2
    };
    let mut offset: usize = if current < max {
        current
    } else {
        max
    };
    if selected < offset + margin {
        offset = if selected > margin {
            selected - margin
        } else {
            0
        };
    }
    let edge: u128 = selected as u128 + margin as u128;
    if edge >= offset as u128 + visible as u128 {
        let moved: u128 = edge + 1 - visible as u128;
        return if moved < max as u128 {
            moved as usize
        } else {
            max
        };
    }
    if offset < max {
        offset
    } else {
        max
    }
}

/// What a frame has room for beside its header, its list and its hints.
#[derive(Clone, Copy, Debug, PartialEq, Eq, Structural)]
pub struct Parts {
    /// Whether the details of the selected book are shown.
    pub details: bool,
    /// How many rows the status has.
    pub status: u16,
}

/// Divide a screen, unless it is too small to hold a list.
pub fn draw(width: u16, height: u16) -> (r: Option<Parts>)
    ensures
        r == if width < 25 || height < 10 {
            None
        } else {
            Some(
                Parts {
                    details: height >= 18,
                    status: if height >= 24 {
                        3
                    } else {
                        2
                    },
                },
            )
        },
{
    if width < 25 || height < 10 {
        None
    } else {
        Some(
            Parts {
                details: height >= 18,
                status: if height >= 24 {
                    3
                } else {
                    2
                },
            },
        )
    }
}

} // verus!
