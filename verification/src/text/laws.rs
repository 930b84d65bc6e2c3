//! What trimming a text and writing a number keep.
use super::{
    ascii_lower, before, decimal, digit, digit_value, digits_value, filled, trimmed, trimmed_end,
    trimmed_start, unsigned, white,
};
use vstd::prelude::*;

verus! {

proof fn start_trimmed(s: Seq<char>)
    ensures
        trimmed_start(s).len() <= s.len(),
        s.skip(s.len() - trimmed_start(s).len()) == trimmed_start(s),
        trimmed_start(s).len() > 0 ==> !white(trimmed_start(s)[0]),
        forall|i: int| 0 <= i < s.len() - trimmed_start(s).len() ==> white(#[trigger] s[i]),
    decreases s.len(),
{
    if s.len() > 0 && white(s[0]) {
        let less = s.drop_first();
        start_trimmed(less);
        let n = trimmed_start(s).len();
        assert(s.skip(s.len() - n) =~= less.skip(less.len() - n));
        assert forall|i: int| 0 <= i < s.len() - n implies white(#[trigger] s[i]) by {
            if i > 0 {
                assert(less[i - 1] == s[i]);
            }
        }
    } else {
        assert(s.skip(0) =~= s);
    }
}

proof fn end_trimmed(s: Seq<char>)
    ensures
        trimmed_end(s).len() <= s.len(),
        s.take(trimmed_end(s).len() as int) == trimmed_end(s),
        trimmed_end(s).len() > 0 ==> !white(trimmed_end(s).last()),
        forall|i: int| trimmed_end(s).len() <= i < s.len() ==> white(#[trigger] s[i]),
    decreases s.len(),
{
    if s.len() > 0 && white(s.last()) {
        let less = s.drop_last();
        end_trimmed(less);
        let n = trimmed_end(s).len() as int;
        assert(s.take(n) =~= less.take(n));
        assert forall|i: int| n <= i < s.len() implies white(#[trigger] s[i]) by {
            if i < less.len() {
                assert(less[i] == s[i]);
            }
        }
    } else {
        assert(s.take(s.len() as int) =~= s);
    }
}

/// A text loses the blanks around it and nothing else.
pub proof fn only_blanks_are_trimmed(s: Seq<char>)
    ensures
        trimmed(s).len() > 0 ==> !white(trimmed(s)[0]) && !white(trimmed(s).last()),
        exists|i: int| #[trigger]
            stands(s, trimmed(s), i) && (forall|k: int| 0 <= k < i ==> white(#[trigger] s[k])) && (
            forall|k: int| i + trimmed(s).len() <= k < s.len() ==> white(#[trigger] s[k])),
{
    let t = trimmed_start(s);
    start_trimmed(s);
    end_trimmed(t);
    let i = s.len() - t.len();
    let n = trimmed(s).len() as int;
    assert(s.subrange(i, i + n) =~= t.take(n));
    assert(stands(s, trimmed(s), i));
    assert forall|k: int| i + n <= k < s.len() implies white(#[trigger] s[k]) by {
        assert(t[k - i] == s[k]);
    }
    if n > 0 {
        assert(trimmed(s)[0] == t[0]);
    }
}

/// Whether a text stands in another at a place.
pub open spec fn stands(whole: Seq<char>, part: Seq<char>, i: int) -> bool {
    0 <= i && i + part.len() <= whole.len() && whole.subrange(i, i + part.len()) == part
}

/// A number that is written in digits reads as itself, and has no zero in front.
pub proof fn numbers_read_as_they_are_written(n: nat)
    ensures
        digits_value(decimal(n)) == n,
        decimal(n).len() > 0,
        forall|i: int| 0 <= i < decimal(n).len() ==> digit(#[trigger] decimal(n)[i]),
        n > 0 ==> decimal(n)[0] != '0',
    decreases n,
{
    if n >= 10 {
        numbers_read_as_they_are_written(n / 10);
        let front = decimal(n / 10);
        let last = (n % 10 + '0' as int) as char;
        assert(decimal(n) == front.push(last));
        assert(decimal(n).drop_last() =~= front);
        assert(digit_value(last) == n % 10);
        assert forall|i: int| 0 <= i < decimal(n).len() implies digit(
            #[trigger] decimal(n)[i],
        ) by {
            if i < front.len() {
                assert(digit(front[i]));
            }
        }
    } else {
        let only = (n + '0' as int) as char;
        assert(decimal(n) == seq![only]);
        assert(decimal(n).drop_last() =~= Seq::<char>::empty());
        assert(digit_value(only) == n);
        assert(digits_value(Seq::<char>::empty()) == 0);
    }
}

proof fn zero_in_front(s: Seq<char>)
    ensures
        digits_value(seq!['0'] + s) == digits_value(s),
    decreases s.len(),
{
    let t = seq!['0'] + s;
    if s.len() == 0 {
        assert(t.drop_last() =~= Seq::<char>::empty());
        assert(digits_value(Seq::<char>::empty()) == 0);
        assert(t.last() == '0');
    } else {
        assert(t.drop_last() =~= seq!['0'] + s.drop_last());
        zero_in_front(s.drop_last());
    }
}

/// A number that is filled up to a width is as wide as that, and the same number.
pub proof fn filling_up_keeps_the_number(s: Seq<char>, width: nat)
    ensures
        digits_value(filled(s, width)) == digits_value(s),
        s.len() <= width ==> filled(s, width).len() == width,
        s.len() >= width ==> filled(s, width) == s,
    decreases width - s.len(),
{
    if s.len() < width {
        zero_in_front(s);
        filling_up_keeps_the_number(seq!['0'] + s, width);
    }
}

/// A text comes before another by the first character in which they differ.
pub proof fn the_first_difference_decides(
    front: Seq<char>,
    a: char,
    b: char,
    c: Seq<char>,
    d: Seq<char>,
)
    ensures
        a < b ==> before(front.push(a) + c, front.push(b) + d),
        b < a ==> !before(front.push(a) + c, front.push(b) + d),
        before(front, front.push(a) + c),
    decreases front.len(),
{
    let x = front.push(a) + c;
    let y = front.push(b) + d;
    assert(x[front.len() as int] == a && y[front.len() as int] == b);
    if front.len() > 0 {
        let rest = front.drop_first();
        the_first_difference_decides(rest, a, b, c, d);
        assert(x.drop_first() =~= rest.push(a) + c);
        assert(y.drop_first() =~= rest.push(b) + d);
        assert(x[0] == front[0] && y[0] == front[0]);
    }
}

/// A capital is made small, and nothing else changes.
pub proof fn capitals_are_made_small(c: char)
    ensures
        'A' <= c <= 'Z' ==> ascii_lower(c) as int == c as int - 'A' as int + 'a' as int,
        !('A' <= c <= 'Z') ==> ascii_lower(c) == c,
{
}

/// One sign is taken off a number, and no more than one.
pub proof fn one_sign_is_taken_off(s: Seq<char>)
    ensures
        unsigned(seq!['+'] + s) == s,
        unsigned(seq!['-'] + s) == s,
        s.len() > 0 && s[0] != '+' && s[0] != '-' ==> unsigned(s) == s,
{
    assert((seq!['+'] + s).skip(1) =~= s);
    assert((seq!['-'] + s).skip(1) =~= s);
}

} // verus!
