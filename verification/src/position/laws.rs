//! Positions are put in order as numbers are.
use super::{digits_of, mirror, mirrored, number_of, position_of, scaled, short, zeros, PositionView};
use crate::text;
use crate::text::{all_digits, before, decimal, digit, digits_value, filled};
use vstd::prelude::*;

verus! {

broadcast use vstd::string::group_string_axioms;

/// Whether two texts part at a place: they agree up to there, and there the first one
/// ends or has the lower character.
spec fn parts_at(a: Seq<char>, b: Seq<char>, k: int) -> bool {
    &&& 0 <= k <= a.len()
    &&& k < b.len()
    &&& forall|i: int| 0 <= i < k ==> #[trigger] a[i] == b[i]
    &&& k == a.len() || a[k] < b[k]
}

proof fn parted(a: Seq<char>, b: Seq<char>, k: int)
    requires
        parts_at(a, b, k),
    ensures
        before(a, b),
    decreases k,
{
    if k > 0 {
        assert(a[0] == b[0]);
        let x = a.drop_first();
        let y = b.drop_first();
        assert forall|i: int| 0 <= i < k - 1 implies #[trigger] x[i] == y[i] by {
            assert(a[i + 1] == b[i + 1]);
        }
        assert(parts_at(x, y, k - 1));
        parted(x, y, k - 1);
    }
}

proof fn parting(a: Seq<char>, b: Seq<char>) -> (k: int)
    requires
        before(a, b),
    ensures
        parts_at(a, b, k),
    decreases a.len(),
{
    if a.len() == 0 || a[0] != b[0] {
        0
    } else {
        let x = a.drop_first();
        let y = b.drop_first();
        let k = parting(x, y);
        assert forall|i: int| 0 <= i < k + 1 implies #[trigger] a[i] == b[i] by {
            if i > 0 {
                assert(x[i - 1] == y[i - 1]);
            }
        }
        k + 1
    }
}

/// Texts of the same length that are in order stay so, whatever is put behind them.
proof fn longer(a: Seq<char>, b: Seq<char>, u: Seq<char>, v: Seq<char>)
    requires
        before(a, b),
        a.len() == b.len(),
    ensures
        before(a + u, b + v),
{
    let k = parting(a, b);
    assert forall|i: int| 0 <= i < k implies #[trigger] (a + u)[i] == (b + v)[i] by {
        assert(a[i] == b[i]);
    }
    assert(parts_at(a + u, b + v, k));
    parted(a + u, b + v, k);
}

/// Texts that are in order stay so behind the same text.
pub proof fn behind(p: Seq<char>, a: Seq<char>, b: Seq<char>)
    requires
        before(a, b),
    ensures
        before(p + a, p + b),
{
    let k = parting(a, b);
    assert forall|i: int| 0 <= i < p.len() + k implies #[trigger] (p + a)[i] == (p + b)[i] by {
        if i >= p.len() {
            assert(a[i - p.len()] == b[i - p.len()]);
        }
    }
    assert(parts_at(p + a, p + b, p.len() + k));
    parted(p + a, p + b, p.len() + k);
}

/// Digits of one length are in order as the numbers they write.
proof fn digits_in_order(a: Seq<char>, b: Seq<char>)
    requires
        all_digits(a),
        all_digits(b),
        a.len() == b.len(),
    ensures
        digits_value(a) < digits_value(b) ==> before(a, b),
        digits_value(a) == digits_value(b) ==> a == b,
    decreases a.len(),
{
    if a.len() > 0 {
        let x = a.drop_last();
        let y = b.drop_last();
        digits_in_order(x, y);
        assert(digit(a[a.len() - 1]) && digit(b[b.len() - 1]));
        assert(a =~= x + seq![a.last()]);
        assert(b =~= y + seq![b.last()]);
        if digits_value(a) < digits_value(b) {
            if digits_value(x) < digits_value(y) {
                longer(x, y, seq![a.last()], seq![b.last()]);
            } else {
                assert(x == y);
                assert(parts_at(a, b, x.len() as int)) by {
                    assert forall|i: int| 0 <= i < x.len() implies #[trigger] a[i] == b[i] by {
                        assert(x[i] == y[i]);
                    }
                }
                parted(a, b, x.len() as int);
            }
        }
    } else {
        assert(a =~= b);
    }
}

proof fn decimal_writes(n: nat)
    ensures
        all_digits(decimal(n)),
        digits_value(decimal(n)) == n,
        decimal(n).len() > 0,
    decreases n,
{
    if n < 10 {
        let s = decimal(n);
        assert(s.drop_last() =~= Seq::<char>::empty());
        assert(digits_value(s.drop_last()) == 0);
        assert(s.last() == (n + '0' as int) as char);
    } else {
        decimal_writes(n / 10);
        let s = decimal(n);
        assert(s.drop_last() =~= decimal(n / 10));
        assert(s.last() == (n % 10 + '0' as int) as char);
        assert forall|i: int| 0 <= i < s.len() implies digit(#[trigger] s[i]) by {
            if i < s.len() - 1 {
                assert(s[i] == decimal(n / 10)[i]);
            }
        }
    }
}

spec fn tens(k: nat) -> nat
    decreases k,
{
    if k == 0 {
        1
    } else {
        10 * tens((k - 1) as nat)
    }
}

proof fn decimal_is_short(n: nat, k: nat)
    requires
        n < tens(k),
        k > 0,
    ensures
        decimal(n).len() <= k,
    decreases k,
{
    if n >= 10 {
        assert(tens(k) == 10 * tens((k - 1) as nat));
        if k == 1 {
            assert(tens(0) == 1);
        }
        decimal_is_short(n / 10, (k - 1) as nat);
    }
}

proof fn leading_zero(s: Seq<char>)
    ensures
        digits_value(seq!['0'] + s) == digits_value(s),
    decreases s.len(),
{
    let t = seq!['0'] + s;
    if s.len() == 0 {
        assert(t.drop_last() =~= Seq::<char>::empty());
        assert(digits_value(t.drop_last()) == 0);
    } else {
        leading_zero(s.drop_last());
        assert(t.drop_last() =~= seq!['0'] + s.drop_last());
    }
}

proof fn filling_writes(s: Seq<char>, width: nat)
    requires
        all_digits(s),
        s.len() <= width,
    ensures
        all_digits(filled(s, width)),
        filled(s, width).len() == width,
        digits_value(filled(s, width)) == digits_value(s),
    decreases width - s.len(),
{
    if s.len() < width {
        let t = seq!['0'] + s;
        leading_zero(s);
        assert forall|i: int| 0 <= i < t.len() implies digit(#[trigger] t[i]) by {
            if i > 0 {
                assert(t[i] == s[i - 1]);
            }
        }
        filling_writes(t, width);
    }
}

proof fn wholes(n: u128)
    ensures
        all_digits(filled(decimal(n as nat), 39)),
        filled(decimal(n as nat), 39).len() == 39,
        digits_value(filled(decimal(n as nat), 39)) == n,
{
    reveal_with_fuel(tens, 40);
    assert(n < tens(39));
    decimal_writes(n as nat);
    decimal_is_short(n as nat, 39);
    filling_writes(decimal(n as nat), 39);
}

proof fn mirrors(a: char, b: char)
    requires
        digit(a),
        digit(b),
    ensures
        a < b ==> mirror(b) < mirror(a),
        digit(mirror(a)),
{
}

/// Mirrored digits are in order the other way round, with an end that comes behind
/// every digit.
proof fn mirrored_in_order(a: Seq<char>, b: Seq<char>)
    requires
        all_digits(a),
        all_digits(b),
        before(a, b),
    ensures
        before(mirrored(b) + "\u{7f}"@, mirrored(a) + "\u{7f}"@),
        a.len() == b.len() ==> before(mirrored(b), mirrored(a)),
{
    reveal_strlit("\u{7f}");
    let k = parting(a, b);
    let x = mirrored(b) + "\u{7f}"@;
    let y = mirrored(a) + "\u{7f}"@;
    assert forall|i: int| 0 <= i < k implies #[trigger] x[i] == y[i] by {
        assert(a[i] == b[i]);
    }
    assert(digit(b[k]));
    if k < a.len() {
        assert(digit(a[k]));
        mirrors(a[k], b[k]);
        assert forall|i: int| 0 <= i < k implies #[trigger] mirrored(b)[i] == mirrored(a)[i] by {
            assert(a[i] == b[i]);
        }
        assert(parts_at(mirrored(b), mirrored(a), k));
        parted(mirrored(b), mirrored(a), k);
    } else {
        mirrors(b[k], b[k]);
    }
    assert(parts_at(x, y, k));
    parted(x, y, k);
}

/// Whether one number without its sign is below another.
pub open spec fn lesser(
    whole: u128,
    fraction: Seq<char>,
    other_whole: u128,
    other_fraction: Seq<char>,
) -> bool {
    whole < other_whole || whole == other_whole && before(fraction, other_fraction)
}

impl PositionView {
    /// Whether there are only digits behind the point, as wherever one is read.
    pub open spec fn wf(self) -> bool {
        self matches PositionView::Number { fraction, .. } ==> all_digits(fraction)
    }

    /// Whether one position is below another, as numbers are.
    pub open spec fn below(self, other: PositionView) -> bool {
        match (self, other) {
            (
                PositionView::Number { negative: false, whole, fraction },
                PositionView::Number { negative: false, whole: w, fraction: f },
            ) => lesser(whole, fraction, w, f),
            (
                PositionView::Number { negative: true, whole, fraction },
                PositionView::Number { negative: true, whole: w, fraction: f },
            ) => lesser(w, f, whole, fraction),
            (
                PositionView::Number { negative, .. },
                PositionView::Number { negative: n, .. },
            ) => negative && !n,
            (PositionView::Infinite { negative: true }, PositionView::Number { .. }) => true,
            (PositionView::Number { .. }, PositionView::Infinite { negative: false }) => true,
            (
                PositionView::Infinite { negative: true },
                PositionView::Infinite { negative: false },
            ) => true,
            _ => false,
        }
    }
}

proof fn first_differs(a: Seq<char>, b: Seq<char>)
    requires
        a.len() > 0,
        b.len() > 0,
        a[0] < b[0],
    ensures
        before(a, b),
{
}

proof fn above_zero(w: u128, f: Seq<char>, v: u128, g: Seq<char>)
    requires
        lesser(w, f, v, g),
    ensures
        before(
            "\u{4}"@ + filled(decimal(w as nat), 39) + "."@ + f,
            "\u{4}"@ + filled(decimal(v as nat), 39) + "."@ + g,
        ),
{
    let a = filled(decimal(w as nat), 39);
    let b = filled(decimal(v as nat), 39);
    wholes(w);
    wholes(v);
    if w < v {
        digits_in_order(a, b);
        behind("\u{4}"@, a, b);
        longer("\u{4}"@ + a, "\u{4}"@ + b, "."@ + f, "."@ + g);
        assert("\u{4}"@ + a + "."@ + f =~= ("\u{4}"@ + a) + ("."@ + f));
        assert("\u{4}"@ + b + "."@ + g =~= ("\u{4}"@ + b) + ("."@ + g));
    } else {
        behind("\u{4}"@ + a + "."@, f, g);
    }
}

proof fn below_zero(w: u128, f: Seq<char>, v: u128, g: Seq<char>)
    requires
        all_digits(f),
        all_digits(g),
        lesser(w, f, v, g),
    ensures
        before(
            "\u{3}"@ + mirrored(filled(decimal(v as nat), 39)) + "."@ + mirrored(g) + "\u{7f}"@,
            "\u{3}"@ + mirrored(filled(decimal(w as nat), 39)) + "."@ + mirrored(f) + "\u{7f}"@,
        ),
{
    let a = filled(decimal(w as nat), 39);
    let b = filled(decimal(v as nat), 39);
    let x = "\u{3}"@ + mirrored(a);
    let y = "\u{3}"@ + mirrored(b);
    let s = mirrored(f) + "\u{7f}"@;
    let t = mirrored(g) + "\u{7f}"@;
    wholes(w);
    wholes(v);
    assert(x + "."@ + mirrored(f) + "\u{7f}"@ =~= x + ("."@ + s));
    assert(y + "."@ + mirrored(g) + "\u{7f}"@ =~= y + ("."@ + t));
    if w < v {
        digits_in_order(a, b);
        mirrored_in_order(a, b);
        behind("\u{3}"@, mirrored(b), mirrored(a));
        longer(y, x, "."@ + t, "."@ + s);
    } else {
        mirrored_in_order(f, g);
        behind(x + "."@, t, s);
        assert(x + ("."@ + s) =~= x + "."@ + s);
        assert(x + ("."@ + t) =~= x + "."@ + t);
    }
}

/// What positions are put in order by comes in the order of the numbers: two before
/// ten, and a half number in between.
pub proof fn positions_are_in_order(a: PositionView, b: PositionView)
    requires
        a.wf(),
        b.wf(),
        a.below(b),
    ensures
        before(a.ranked(), b.ranked()),
{
    reveal_strlit("\u{2}");
    reveal_strlit("\u{3}");
    reveal_strlit("\u{4}");
    reveal_strlit("\u{5}");
    match (a, b) {
        (
            PositionView::Number { negative: false, whole, fraction },
            PositionView::Number { negative: false, whole: w, fraction: f },
        ) => {
            above_zero(whole, fraction, w, f);
        },
        (
            PositionView::Number { negative: true, whole, fraction },
            PositionView::Number { negative: true, whole: w, fraction: f },
        ) => {
            below_zero(w, f, whole, fraction);
        },
        _ => {
            first_differs(a.ranked(), b.ranked());
        },
    }
}

proof fn shortened_digits(s: Seq<char>)
    requires
        all_digits(s),
    ensures
        all_digits(short(s)),
    decreases s.len(),
{
    if s.len() > 0 && s.last() == '0' {
        assert forall|i: int| 0 <= i < s.drop_last().len() implies digit(
            #[trigger] s.drop_last()[i],
        ) by {
            assert(digit(s[i]));
        }
        shortened_digits(s.drop_last());
    }
}

proof fn scaling_keeps_digits(negative: bool, digits: Seq<char>, at: int)
    requires
        all_digits(digits),
    ensures
        scaled(negative, digits, at).wf(),
{
    let all = zeros(-at) + digits + zeros(at - digits.len());
    let point = if at > 0 {
        at
    } else {
        0
    };
    assert(point <= all.len());
    let rest = all.skip(point);
    assert forall|i: int| 0 <= i < rest.len() implies digit(#[trigger] rest[i]) by {
        assert(rest[i] == all[point + i]);
    }
    shortened_digits(rest);
}

/// Whatever is read as a position has only digits behind its point.
pub proof fn positions_are_well_formed(s: Seq<char>)
    ensures
        position_of(s) matches Some(position) ==> position.wf(),
{
    let t = text::trimmed(s);
    let bare = text::ascii_lowered(text::unsigned(t));
    let e = text::index_from(bare, 'e', 0);
    let plain = bare.take(e);
    let point = text::index_from(plain, '.', 0);
    if text::numeral(t) && bare != "nan"@ && bare != "inf"@ && bare != "infinity"@ {
        assert(text::mantissa(plain));
        text::index_from_range(plain, '.', 0);
        let digits = digits_of(plain);
        assert forall|i: int| 0 <= i < digits.len() implies digit(#[trigger] digits[i]) by {
            if point < plain.len() {
                if i < point {
                    assert(digit(plain.take(point)[i]));
                } else {
                    assert(digit(plain.skip(point + 1)[i - point]));
                }
            } else {
                assert(digit(plain[i]));
            }
        }
        let negative = t.len() > 0 && t[0] == '-';
        scaling_keeps_digits(
            negative,
            digits,
            point + if e < bare.len() {
                super::exponent(bare.skip(e + 1))
            } else {
                0
            },
        );
        assert(position_of(s) == Some(number_of(negative, bare)));
    }
}

} // verus!
