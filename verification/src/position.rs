//! A book's place in its series: what is read as one, and how it is shown and put in
//! order.
use crate::text;
use crate::values::{Duplicate, Same};
use vstd::prelude::*;

pub mod laws;

verus! {

broadcast use vstd::string::group_string_axioms;

/// A number, or one of the words for what no decimal writes.
#[derive(Clone, Debug, PartialEq, Eq)]
pub enum Position {
    Number {
        negative: bool,
        whole: u128,
        /// The digits behind the point, without zeros at the end.
        fraction: String,
    },
    Infinite { negative: bool },
    Undefined,
}

#[verifier::ext_equal]
pub enum PositionView {
    Number { negative: bool, whole: u128, fraction: Seq<char> },
    Infinite { negative: bool },
    Undefined,
}

impl View for Position {
    type V = PositionView;

    open spec fn view(&self) -> PositionView {
        match self {
            Position::Number { negative, whole, fraction } => PositionView::Number {
                negative: *negative,
                whole: *whole,
                fraction: fraction@,
            },
            Position::Infinite { negative } => PositionView::Infinite { negative: *negative },
            Position::Undefined => PositionView::Undefined,
        }
    }
}

impl DeepView for Position {
    type V = PositionView;

    open spec fn deep_view(&self) -> PositionView {
        self@
    }
}

impl Duplicate for Position {
    fn duplicate(&self) -> (r: Position) {
        match self {
            Position::Number { negative, whole, fraction } => Position::Number {
                negative: *negative,
                whole: *whole,
                fraction: fraction.duplicate(),
            },
            Position::Infinite { negative } => Position::Infinite { negative: *negative },
            Position::Undefined => Position::Undefined,
        }
    }
}

impl Same for Position {
    fn same(&self, other: &Position) -> (r: bool) {
        match (self, other) {
            (
                Position::Number { negative, whole, fraction },
                Position::Number { negative: n, whole: w, fraction: f },
            ) => *negative == *n && *whole == *w && fraction.same(f),
            (Position::Infinite { negative }, Position::Infinite { negative: n }) => *negative
                == *n,
            (Position::Undefined, Position::Undefined) => true,
            _ => false,
        }
    }
}

/// The largest whole number that is shown as it is.
pub const LARGEST_SHOWN: u128 = 9223372036854775807;

/// A whole number as it is shown: one that is too large is shown as the largest.
pub open spec fn shown(negative: bool, whole: u128) -> u128 {
    if negative && whole > LARGEST_SHOWN {
        (LARGEST_SHOWN + 1) as u128
    } else if whole > LARGEST_SHOWN {
        LARGEST_SHOWN
    } else {
        whole
    }
}

/// The sign in front of a number.
pub open spec fn sign(negative: bool) -> Seq<char> {
    if negative {
        "-"@
    } else {
        ""@
    }
}

impl PositionView {
    /// The number as it is written. A whole number reads as one.
    pub open spec fn written(self) -> Seq<char> {
        match self {
            PositionView::Number { negative, whole, fraction } => if fraction.len() == 0 {
                sign(negative) + text::decimal(shown(negative, whole) as nat)
            } else {
                sign(negative) + text::decimal(whole as nat) + "."@ + fraction
            },
            PositionView::Infinite { negative } => sign(negative) + "inf"@,
            PositionView::Undefined => "NaN"@,
        }
    }

    /// What positions are put in order by, as text: the numbers below zero from the
    /// farthest up, then the others, and last what is no number.
    pub open spec fn ranked(self) -> Seq<char> {
        match self {
            PositionView::Infinite { negative: true } => "\u{2}"@,
            PositionView::Number { negative: true, whole, fraction } => "\u{3}"@ + mirrored(
                text::filled(text::decimal(whole as nat), 39),
            ) + "."@ + mirrored(fraction) + "\u{7f}"@,
            PositionView::Number { negative: false, whole, fraction } => "\u{4}"@ + text::filled(
                text::decimal(whole as nat),
                39,
            ) + "."@ + fraction,
            PositionView::Infinite { negative: false } => "\u{5}"@,
            PositionView::Undefined => "\u{6}"@,
        }
    }
}

/// The digit that is as far from nine as this one is from zero.
pub open spec fn mirror(c: char) -> char {
    if text::digit(c) {
        (105 - c as int) as char
    } else {
        c
    }
}

/// Digits that are the smaller, the larger these are.
pub open spec fn mirrored(s: Seq<char>) -> Seq<char> {
    Seq::new(s.len(), |i: int| mirror(s[i]))
}

fn mirror_all(s: &str) -> (r: String)
    ensures
        r@ == mirrored(s@),
{
    let c = text::chars(s);
    let mut out = String::new();
    for i in 0..c.len()
        invariant
            c@ == s@,
            out@ == mirrored(s@).take(i as int),
    {
        let d: char = if text::is_digit(c[i]) {
            (105u8 - c[i] as u8) as char
        } else {
            c[i]
        };
        out.push(d);
        proof {
            assert(out@ =~= mirrored(s@).take(i as int + 1));
        }
    }
    proof {
        assert(mirrored(s@).take(s@.len() as int) =~= mirrored(s@));
    }
    out
}

fn show_sign(negative: bool) -> (r: &'static str)
    ensures
        r@ == sign(negative),
{
    if negative {
        "-"
    } else {
        ""
    }
}

impl Position {
    pub fn label(&self) -> (r: String)
        ensures
            r@ == self@.written(),
    {
        match self {
            Position::Number { negative, whole, fraction } => if fraction.as_str().is_empty() {
                let limited: u128 = if *negative && *whole > LARGEST_SHOWN {
                    LARGEST_SHOWN + 1
                } else if *whole > LARGEST_SHOWN {
                    LARGEST_SHOWN
                } else {
                    *whole
                };
                text::concat(show_sign(*negative), text::long_number(limited).as_str())
            } else {
                text::concat4(
                    show_sign(*negative),
                    text::long_number(*whole).as_str(),
                    ".",
                    fraction.as_str(),
                )
            },
            Position::Infinite { negative } => text::concat(show_sign(*negative), "inf"),
            Position::Undefined => "NaN".to_owned(),
        }
    }

    /// What positions are put in order by, as text.
    pub fn rank(&self) -> (r: String)
        ensures
            r@ == self@.ranked(),
    {
        match self {
            Position::Infinite { negative: true } => "\u{2}".to_owned(),
            Position::Number { negative: true, whole, fraction } => {
                let digits = text::fill(text::long_number(*whole), 39);
                let front = text::concat4(
                    "\u{3}",
                    mirror_all(digits.as_str()).as_str(),
                    ".",
                    mirror_all(fraction.as_str()).as_str(),
                );
                text::concat(front.as_str(), "\u{7f}")
            },
            Position::Number { negative: false, whole, fraction } => {
                let digits = text::fill(text::long_number(*whole), 39);
                text::concat4("\u{4}", digits.as_str(), ".", fraction.as_str())
            },
            Position::Infinite { negative: false } => "\u{5}".to_owned(),
            Position::Undefined => "\u{6}".to_owned(),
        }
    }
}

/// Digits without the zeros they end with.
pub open spec fn short(s: Seq<char>) -> Seq<char>
    decreases s.len(),
{
    if s.len() > 0 && s.last() == '0' {
        short(s.drop_last())
    } else {
        s
    }
}

/// How many zeros some digits start with.
pub open spec fn zeros_ahead(s: Seq<char>) -> nat
    decreases s.len(),
{
    if s.len() > 0 && s[0] == '0' {
        1 + zeros_ahead(s.skip(1))
    } else {
        0
    }
}

pub open spec fn zeros(n: int) -> Seq<char> {
    Seq::new(
        if n > 0 {
            n as nat
        } else {
            0
        },
        |i: int| '0',
    )
}

/// A number from which on a position is infinite.
pub const TOO_LARGE: u128 = 340282356779733661637539395458142568448;

/// The most digits in front of the point of a number that is not infinite.
pub const MOST_DIGITS: i128 = 39;

/// The most zeros behind the point, in front of the first other digit, of a number
/// that is not nothing.
pub const MOST_ZEROS: i128 = 45;

/// The position that digits write when the point stands behind so many of them,
/// which may be fewer than none or more than there are.
pub open spec fn scaled(negative: bool, digits: Seq<char>, at: int) -> PositionView {
    let first = zeros_ahead(digits);
    let all = zeros(-at) + digits + zeros(at - digits.len());
    let point = if at > 0 {
        at
    } else {
        0
    };
    let whole = text::digits_value(all.take(point));
    if first == digits.len() || at - first < -MOST_ZEROS {
        PositionView::Number { negative: false, whole: 0, fraction: Seq::empty() }
    } else if at - first > MOST_DIGITS || whole >= TOO_LARGE {
        PositionView::Infinite { negative }
    } else {
        PositionView::Number { negative, whole: whole as u128, fraction: short(all.skip(point)) }
    }
}

/// The number behind the `e` of another.
pub open spec fn exponent(s: Seq<char>) -> int {
    let n = text::digits_value(text::unsigned(s)) as int;
    if s.len() > 0 && s[0] == '-' {
        -n
    } else {
        n
    }
}

/// The position that a number in small letters and without a sign writes.
pub open spec fn number_of(negative: bool, s: Seq<char>) -> PositionView {
    let e = text::index_from(s, 'e', 0);
    let plain = s.take(e);
    scaled(
        negative,
        digits_of(plain),
        text::index_from(plain, '.', 0) + if e < s.len() {
            exponent(s.skip(e + 1))
        } else {
            0
        },
    )
}

/// The position that a text writes: every text that reads as a number is one.
pub open spec fn position_of(s: Seq<char>) -> Option<PositionView> {
    let t = text::trimmed(s);
    let bare = text::ascii_lowered(text::unsigned(t));
    let negative = t.len() > 0 && t[0] == '-';
    if !text::numeral(t) {
        None
    } else if bare == "nan"@ {
        Some(PositionView::Undefined)
    } else if bare == "inf"@ || bare == "infinity"@ {
        Some(PositionView::Infinite { negative })
    } else {
        Some(number_of(negative, bare))
    }
}

fn count_zeros(c: &Vec<char>) -> (r: usize)
    ensures
        r == zeros_ahead(c@),
        r <= c@.len(),
{
    let mut i: usize = 0;
    proof {
        assert(c@.skip(0) =~= c@);
    }
    while i < c.len() && c[i] == '0'
        invariant
            i <= c@.len(),
            zeros_ahead(c@) == i + zeros_ahead(c@.skip(i as int)),
        decreases c@.len() - i,
    {
        proof {
            assert(c@.skip(i as int).skip(1) =~= c@.skip(i as int + 1));
            assert(c@.skip(i as int)[0] == c@[i as int]);
        }
        i += 1;
    }
    proof {
        if i < c@.len() {
            assert(c@.skip(i as int)[0] == c@[i as int]);
        }
    }
    i
}

fn push_zeros(c: &mut Vec<char>, n: i128)
    ensures
        final(c)@ == old(c)@ + zeros(n as int),
{
    let ghost before = c@;
    let mut i: i128 = 0;
    while i < n
        invariant
            0 <= i,
            i <= n || i == 0,
            c@ == before + zeros(i as int),
        decreases n - i,
    {
        c.push('0');
        i += 1;
        proof {
            assert(c@ =~= before + zeros(i as int));
        }
    }
    proof {
        assert(c@ =~= before + zeros(n as int));
    }
}

/// Read digits, up to a number beyond which they are not told apart.
fn read_digits(c: &[char], from: usize, to: usize, most: u128) -> (r: u128)
    requires
        from <= to <= c@.len(),
        text::all_digits(c@.subrange(from as int, to as int)),
        most <= TOO_LARGE,
    ensures
        ({
            let n = text::digits_value(c@.subrange(from as int, to as int));
            r == if n < most {
                n
            } else {
                most as nat
            }
        }),
{
    let ghost s = c@.subrange(from as int, to as int);
    let mut n: u128 = 0;
    let mut i: usize = from;
    while i < to
        invariant
            from <= i <= to <= c@.len(),
            s == c@.subrange(from as int, to as int),
            text::all_digits(s),
            most <= TOO_LARGE,
            n == if text::digits_value(s.take(i - from)) < most {
                text::digits_value(s.take(i - from))
            } else {
                most as nat
            },
        decreases to - i,
    {
        proof {
            assert(s.take(i - from + 1).drop_last() =~= s.take(i - from));
            assert(s[i - from] == c@[i as int]);
            assert(text::digit(s[i - from]));
        }
        let d: u128 = (c[i] as u32 - '0' as u32) as u128;
        if n > most / 10 {
            n = most;
        } else {
            n = n * 10 + d;
            if n > most {
                n = most;
            }
        }
        i += 1;
    }
    proof {
        assert(s.take(s.len() as int) =~= s);
    }
    n
}

fn shorten(c: &[char], from: usize) -> (r: String)
    requires
        from <= c@.len(),
    ensures
        r@ == short(c@.skip(from as int)),
{
    let mut end: usize = c.len();
    let ghost all = c@.skip(from as int);
    proof {
        assert(all =~= c@.subrange(from as int, end as int));
    }
    while end > from && c[end - 1] == '0'
        invariant
            from <= end <= c@.len(),
            all == c@.skip(from as int),
            short(all) == short(c@.subrange(from as int, end as int)),
        decreases end,
    {
        proof {
            assert(c@.subrange(from as int, end as int).drop_last() =~= c@.subrange(
                from as int,
                end as int - 1,
            ));
        }
        end -= 1;
    }
    text::slice(c, from, end)
}

fn scale(negative: bool, digits: &Vec<char>, at: i128) -> (r: Position)
    requires
        text::all_digits(digits@),
        -FAR - u64::MAX <= at <= FAR + u64::MAX,
    ensures
        r@ == scaled(negative, digits@, at as int),
{
    let first: i128 = count_zeros(digits) as i128;
    let length: i128 = digits.len() as i128;
    if first == length || at - first < -MOST_ZEROS {
        let fraction = String::new();
        proof {
            assert(fraction@ =~= Seq::<char>::empty());
        }
        return Position::Number { negative: false, whole: 0, fraction };
    }
    if at - first > MOST_DIGITS {
        return Position::Infinite { negative };
    }
    let mut all: Vec<char> = Vec::new();
    push_zeros(&mut all, -at);
    for i in 0..digits.len()
        invariant
            all@ == zeros(-at as int) + digits@.take(i as int),
    {
        all.push(digits[i]);
        proof {
            assert(all@ =~= zeros(-at as int) + digits@.take(i as int + 1));
        }
    }
    proof {
        assert(digits@.take(digits@.len() as int) =~= digits@);
    }
    push_zeros(&mut all, at - length);
    let point: usize = if at > 0 {
        at as usize
    } else {
        0
    };
    proof {
        assert(all@.subrange(0, point as int) =~= all@.take(point as int));
    }
    let whole = read_digits(all.as_slice(), 0, point, TOO_LARGE);
    if whole >= TOO_LARGE {
        Position::Infinite { negative }
    } else {
        Position::Number { negative, whole, fraction: shorten(all.as_slice(), point) }
    }
}

/// An exponent beyond which nothing is told apart.
const FAR: i128 = 1_000_000_000_000_000_000_000_000_000_000;

/// The digits of a number without its point.
pub open spec fn digits_of(plain: Seq<char>) -> Seq<char> {
    let point = text::index_from(plain, '.', 0);
    if point < plain.len() {
        plain.take(point) + plain.skip(point + 1)
    } else {
        plain
    }
}

fn read_mantissa(plain: &Vec<char>) -> (r: (Vec<char>, usize))
    requires
        text::mantissa(plain@),
    ensures
        r.0@ == digits_of(plain@),
        r.1 == text::index_from(plain@, '.', 0),
        text::all_digits(r.0@),
{
    let point = text::find_char(plain.as_slice(), '.', 0);
    let mut digits: Vec<char> = Vec::new();
    for i in 0..plain.len()
        invariant
            point <= plain@.len(),
            digits@ == if i <= point {
                plain@.take(i as int)
            } else {
                plain@.take(point as int) + plain@.subrange(point as int + 1, i as int)
            },
    {
        if i != point {
            digits.push(plain[i]);
        }
        proof {
            let next = i as int + 1;
            if next <= point {
                assert(digits@ =~= plain@.take(next));
            } else {
                assert(digits@ =~= plain@.take(point as int) + plain@.subrange(
                    point as int + 1,
                    next,
                ));
            }
        }
    }
    proof {
        assert(digits@ =~= digits_of(plain@));
        if point < plain@.len() {
            assert(text::all_digits(plain@.take(point as int)));
            assert(text::all_digits(plain@.skip(point as int + 1)));
        }
    }
    (digits, point)
}

/// Read an exponent, as far as it is told apart.
fn read_exponent(s: &Vec<char>) -> (r: i128)
    requires
        text::all_digits(text::unsigned(s@)),
    ensures
        -FAR < exponent(s@) < FAR ==> r == exponent(s@),
        exponent(s@) >= FAR ==> r == FAR,
        exponent(s@) <= -FAR ==> r == -FAR,
{
    let from: usize = if s.len() > 0 && (s[0] == '+' || s[0] == '-') {
        1
    } else {
        0
    };
    proof {
        assert(text::unsigned(s@) =~= s@.subrange(from as int, s@.len() as int));
    }
    let power = read_digits(s.as_slice(), from, s.len(), FAR as u128) as i128;
    if s.len() > 0 && s[0] == '-' {
        -power
    } else {
        power
    }
}

fn read_number(negative: bool, s: &Vec<char>) -> (r: Position)
    requires
        ({
            let e = text::index_from(s@, 'e', 0);
            text::mantissa(s@.take(e)) && (e < s@.len() ==> text::all_digits(
                text::unsigned(s@.skip(e + 1)),
            ))
        }),
    ensures
        r@ == number_of(negative, s@),
{
    let e = text::find_char(s.as_slice(), 'e', 0);
    let plain = text::chars(text::slice(s.as_slice(), 0, e).as_str());
    proof {
        assert(plain@ =~= s@.take(e as int));
    }
    let (digits, point) = read_mantissa(&plain);
    let mut power: i128 = 0;
    let ghost mut meant: int = 0;
    if e < s.len() {
        let rest = text::chars(text::slice(s.as_slice(), e + 1, s.len()).as_str());
        proof {
            assert(rest@ =~= s@.skip(e as int + 1));
            meant = exponent(rest@);
        }
        power = read_exponent(&rest);
    }
    let r = scale(negative, &digits, point as i128 + power);
    proof {
        far_numbers(negative, digits@, point as int, power as int, meant);
    }
    r
}

proof fn few_zeros_ahead(s: Seq<char>)
    ensures
        zeros_ahead(s) <= s.len(),
    decreases s.len(),
{
    if s.len() > 0 {
        few_zeros_ahead(s.skip(1));
    }
}

/// A point that is moved farther than any text is long stands nowhere in it.
proof fn far_numbers(negative: bool, digits: Seq<char>, point: int, power: int, meant: int)
    requires
        0 <= point <= u64::MAX,
        digits.len() <= u64::MAX,
        -FAR < meant < FAR ==> power == meant,
        meant >= FAR ==> power == FAR,
        meant <= -FAR ==> power == -FAR,
    ensures
        scaled(negative, digits, point + power) == scaled(negative, digits, point + meant),
{
    few_zeros_ahead(digits);
}

/// Read a position in a series.
pub fn read_position(s: &str) -> (r: Option<Position>)
    ensures
        r.deep_view() == position_of(s@),
{
    let t = text::trim(s);
    if !text::is_numeral(t.as_str()) {
        return None;
    }
    let c = text::chars(t.as_str());
    let negative = c.len() > 0 && c[0] == '-';
    let from: usize = if c.len() > 0 && (c[0] == '+' || c[0] == '-') {
        1
    } else {
        0
    };
    let bare = text::slice(c.as_slice(), from, c.len());
    proof {
        assert(bare@ =~= text::unsigned(t@));
    }
    let lower = text::to_ascii_lowercase(bare.as_str());
    if text::same(lower.as_str(), "nan") {
        Some(Position::Undefined)
    } else if text::same(lower.as_str(), "inf") || text::same(lower.as_str(), "infinity") {
        Some(Position::Infinite { negative })
    } else {
        Some(read_number(negative, &text::chars(lower.as_str())))
    }
}

/// What the edit form and the commands take for a number is read back as a position.
pub proof fn numbers_are_positions(s: Seq<char>)
    ensures
        position_of(s) is Some <==> text::numeral(text::trimmed(s)),
{
}

} // verus!
