//! Characters and strings: the few operations on text that everything else
//! here is written with, each stated over sequences of characters.
use vstd::prelude::*;
use vstd::utf8::*;

pub mod laws;

verus! {

broadcast use vstd::string::group_string_axioms;

/// `String::push` puts one character at the end.
pub assume_specification[ String::push ](s: &mut String, c: char)
    ensures
        final(s)@ == old(s)@.push(c),
;

/// `String::push_str` puts another string at the end.
pub assume_specification[ String::push_str ](s: &mut String, t: &str)
    ensures
        final(s)@ == old(s)@ + t@,
;

/// What `str::to_lowercase` makes of a text that is not ASCII throughout: Unicode's
/// lowercase mapping.
pub uninterp spec fn unicode_lowercase(s: Seq<char>) -> Seq<char>;

/// A text in small letters.
#[verifier::opaque]
pub open spec fn lowercase(s: Seq<char>) -> Seq<char> {
    if is_ascii_chars(s) {
        ascii_lowered(s)
    } else {
        unicode_lowercase(s)
    }
}

/// `str::to_lowercase`, which depends on the text alone. ASCII capitals become small
/// and the rest of ASCII stays; what else Unicode's tables say is named rather than
/// stated.
#[verifier::external_body]
pub(crate) fn to_lowercase(s: &str) -> (out: String)
    ensures
        out@ == lowercase(s@),
        !is_ascii_chars(s@) ==> out@ == unicode_lowercase(s@),
{
    s.to_lowercase()
}

/// Whether Unicode counts a character as a letter or a number.
pub uninterp spec fn alphanumeric(c: char) -> bool;

/// `char::is_alphanumeric`, whose answer is named: it follows Unicode's tables.
#[verifier::external_body]
pub(crate) fn is_alphanumeric(c: char) -> (b: bool)
    ensures
        b == alphanumeric(c),
{
    c.is_alphanumeric()
}

/// Unicode's control characters, the general category Cc.
pub open spec fn control(c: char) -> bool {
    c <= '\u{1f}' || '\u{7f}' <= c <= '\u{9f}'
}

pub fn is_control(c: char) -> (b: bool)
    ensures
        b == control(c),
{
    c <= '\u{1f}' || ('\u{7f}' <= c && c <= '\u{9f}')
}

/// Unicode's White_Space property.
pub open spec fn white(c: char) -> bool {
    ||| '\u{9}' <= c <= '\u{d}'
    ||| c == ' '
    ||| c == '\u{85}'
    ||| c == '\u{a0}'
    ||| c == '\u{1680}'
    ||| '\u{2000}' <= c <= '\u{200a}'
    ||| c == '\u{2028}'
    ||| c == '\u{2029}'
    ||| c == '\u{202f}'
    ||| c == '\u{205f}'
    ||| c == '\u{3000}'
}

pub fn is_white(c: char) -> (b: bool)
    ensures
        b == white(c),
{
    ('\u{9}' <= c && c <= '\u{d}') || c == ' ' || c == '\u{85}' || c == '\u{a0}' || c == '\u{1680}'
        || ('\u{2000}' <= c && c <= '\u{200a}') || c == '\u{2028}' || c == '\u{2029}'
        || c == '\u{202f}' || c == '\u{205f}' || c == '\u{3000}'
}

pub open spec fn digit(c: char) -> bool {
    '0' <= c <= '9'
}

pub fn is_digit(c: char) -> (b: bool)
    ensures
        b == digit(c),
{
    '0' <= c && c <= '9'
}

/// The number an ASCII digit stands for.
pub open spec fn digit_value(c: char) -> int {
    c as int - '0' as int
}

/// A character with ASCII capitals made small.
pub open spec fn ascii_lower(c: char) -> char {
    if 'A' <= c <= 'Z' {
        (c as u32 + 32) as char
    } else {
        c
    }
}

pub fn to_ascii_lower(c: char) -> (r: char)
    ensures
        r == ascii_lower(c),
{
    if 'A' <= c && c <= 'Z' {
        (c as u8 + 32) as char
    } else {
        c
    }
}

/// A text with ASCII capitals made small.
pub open spec fn ascii_lowered(s: Seq<char>) -> Seq<char> {
    Seq::new(s.len(), |i: int| ascii_lower(s[i]))
}

pub fn to_ascii_lowercase(s: &str) -> (out: String)
    ensures
        out@ == ascii_lowered(s@),
{
    let c = chars(s);
    let mut out = String::new();
    for i in 0..c.len()
        invariant
            c@ == s@,
            out@ == ascii_lowered(s@).take(i as int),
    {
        out.push(to_ascii_lower(c[i]));
        proof {
            assert(ascii_lowered(s@).take(i as int + 1) =~= ascii_lowered(s@).take(i as int).push(
                ascii_lower(s@[i as int]),
            ));
        }
    }
    proof {
        assert(ascii_lowered(s@).take(s@.len() as int) =~= ascii_lowered(s@));
    }
    out
}

/// The characters of a string, for walking it by index.
pub fn chars(s: &str) -> (out: Vec<char>)
    ensures
        out@ == s@,
{
    let mut out: Vec<char> = Vec::new();
    for c in it: s.chars()
        invariant
            out@ == s@.take(it.index()),
            it.seq() == s@,
    {
        proof {
            assert(s@.take(it.index() as int + 1) =~= s@.take(it.index() as int).push(c));
        }
        out.push(c);
    }
    proof {
        assert(s@.take(s@.len() as int) =~= s@);
    }
    out
}

/// A string of the given characters.
pub fn string(c: &[char]) -> (out: String)
    ensures
        out@ == c@,
{
    slice(c, 0, c.len())
}

/// The characters from `from` up to `to`, as a string.
pub fn slice(c: &[char], from: usize, to: usize) -> (out: String)
    requires
        from <= to <= c@.len(),
    ensures
        out@ == c@.subrange(from as int, to as int),
{
    let mut out = String::new();
    let mut i: usize = from;
    while i < to
        invariant
            from <= i <= to <= c@.len(),
            out@ == c@.subrange(from as int, i as int),
        decreases to - i,
    {
        out.push(c[i]);
        proof {
            assert(c@.subrange(from as int, i as int + 1) =~= c@.subrange(
                from as int,
                i as int,
            ).push(c@[i as int]));
        }
        i += 1;
    }
    out
}

/// Whether two strings hold the same characters.
pub fn same(a: &str, b: &str) -> (r: bool)
    ensures
        r == (a@ == b@),
{
    let x = a.as_bytes();
    let y = b.as_bytes();
    proof {
        encode_utf8_decode_utf8(a@);
        encode_utf8_decode_utf8(b@);
    }
    if x.len() != y.len() {
        return false;
    }
    let mut i: usize = 0;
    while i < x.len()
        invariant
            i <= x@.len(),
            x@.len() == y@.len(),
            x@ == encode_utf8(a@),
            y@ == encode_utf8(b@),
            forall|j: int| 0 <= j < i ==> x@[j] == y@[j],
        decreases x@.len() - i,
    {
        if x[i] != y[i] {
            return false;
        }
        i += 1;
    }
    proof {
        assert(x@ =~= y@);
    }
    true
}

/// Whether two optional strings are both absent or the same.
pub fn same_option(a: &Option<String>, b: &Option<String>) -> (r: bool)
    ensures
        r == (a.deep_view() == b.deep_view()),
{
    match (a, b) {
        (None, None) => true,
        (Some(x), Some(y)) => same(x.as_str(), y.as_str()),
        _ => false,
    }
}

pub fn concat(a: &str, b: &str) -> (out: String)
    ensures
        out@ == a@ + b@,
{
    let mut out = a.to_owned();
    out.push_str(b);
    out
}

pub fn concat3(a: &str, b: &str, c: &str) -> (out: String)
    ensures
        out@ == a@ + b@ + c@,
{
    let mut out = concat(a, b);
    out.push_str(c);
    out
}

pub fn concat4(a: &str, b: &str, c: &str, d: &str) -> (out: String)
    ensures
        out@ == a@ + b@ + c@ + d@,
{
    let mut out = concat3(a, b, c);
    out.push_str(d);
    out
}

pub fn concat5(a: &str, b: &str, c: &str, d: &str, e: &str) -> (out: String)
    ensures
        out@ == a@ + b@ + c@ + d@ + e@,
{
    let mut out = concat4(a, b, c, d);
    out.push_str(e);
    out
}

/// Whether `part` stands in `whole` at position `i`.
pub open spec fn at(whole: Seq<char>, part: Seq<char>, i: int) -> bool {
    0 <= i && i + part.len() <= whole.len() && whole.subrange(i, i + part.len()) == part
}

/// Whether `part` stands anywhere in `whole`.
pub open spec fn within(whole: Seq<char>, part: Seq<char>) -> bool {
    exists|i: int| at(whole, part, i)
}

/// The first position from `from` on at which `part` stands in `whole`.
pub open spec fn first_at(whole: Seq<char>, part: Seq<char>, from: int, i: int) -> bool {
    &&& from <= i
    &&& at(whole, part, i)
    &&& forall|j: int| from <= j < i ==> !at(whole, part, j)
}

pub fn is_at(whole: &[char], part: &[char], i: usize) -> (r: bool)
    ensures
        r == at(whole@, part@, i as int),
{
    if i > whole.len() || part.len() > whole.len() - i {
        return false;
    }
    let mut j: usize = 0;
    while j < part.len()
        invariant
            j <= part@.len(),
            i + part@.len() <= whole@.len() <= usize::MAX,
            forall|k: int| 0 <= k < j ==> whole@[i + k] == part@[k],
        decreases part@.len() - j,
    {
        if whole[i + j] != part[j] {
            proof {
                assert(whole@.subrange(i as int, i + part@.len())[j as int] != part@[j as int]);
            }
            return false;
        }
        j += 1;
    }
    proof {
        assert(whole@.subrange(i as int, i + part@.len()) =~= part@);
    }
    true
}

/// Where `part` first stands in `whole`, looking from `from` on.
pub fn find_from(whole: &[char], part: &[char], from: usize) -> (r: Option<usize>)
    ensures
        match r {
            Some(i) => first_at(whole@, part@, from as int, i as int),
            None => forall|i: int| from <= i ==> !at(whole@, part@, i),
        },
{
    if from > whole.len() {
        return None;
    }
    let mut i: usize = from;
    loop
        invariant
            from <= i <= whole@.len(),
            forall|j: int| from <= j < i ==> !at(whole@, part@, j),
        decreases whole@.len() - i,
    {
        if is_at(whole, part, i) {
            return Some(i);
        }
        if i == whole.len() {
            return None;
        }
        i += 1;
    }
}

pub fn contains(whole: &str, part: &str) -> (r: bool)
    ensures
        r == within(whole@, part@),
{
    let w = chars(whole);
    let p = chars(part);
    match find_from(w.as_slice(), p.as_slice(), 0) {
        Some(_) => true,
        None => {
            proof {
                assert forall|i: int| !at(whole@, part@, i) by {}
            }
            false
        },
    }
}

pub open spec fn starts(whole: Seq<char>, part: Seq<char>) -> bool {
    at(whole, part, 0)
}

pub fn starts_with(whole: &str, part: &str) -> (r: bool)
    ensures
        r == starts(whole@, part@),
{
    let w = chars(whole);
    let p = chars(part);
    is_at(w.as_slice(), p.as_slice(), 0)
}

pub open spec fn ends(whole: Seq<char>, part: Seq<char>) -> bool {
    at(whole, part, whole.len() - part.len())
}

pub fn ends_with(whole: &str, part: &str) -> (r: bool)
    ensures
        r == ends(whole@, part@),
{
    let w = chars(whole);
    let p = chars(part);
    if p.len() > w.len() {
        return false;
    }
    is_at(w.as_slice(), p.as_slice(), w.len() - p.len())
}

/// The position of the first `c` from `from` on, or the length without one.
pub open spec fn index_from(s: Seq<char>, c: char, from: int) -> int
    decreases s.len() - from,
{
    if from < 0 || from >= s.len() {
        s.len() as int
    } else if s[from] == c {
        from
    } else {
        index_from(s, c, from + 1)
    }
}

pub proof fn index_from_range(s: Seq<char>, c: char, from: int)
    requires
        0 <= from <= s.len(),
    ensures
        from <= index_from(s, c, from) <= s.len(),
        index_from(s, c, from) < s.len() ==> s[index_from(s, c, from)] == c,
        forall|j: int| from <= j < index_from(s, c, from) ==> s[j] != c,
    decreases s.len() - from,
{
    if from < s.len() && s[from] != c {
        index_from_range(s, c, from + 1);
    }
}

pub fn find_char(s: &[char], c: char, from: usize) -> (r: usize)
    requires
        from <= s@.len(),
    ensures
        r == index_from(s@, c, from as int),
        from <= r <= s@.len(),
        r < s@.len() ==> s@[r as int] == c,
        forall|j: int| from <= j < r ==> s@[j] != c,
{
    let mut i: usize = from;
    while i < s.len()
        invariant_except_break
            from <= i <= s@.len(),
            index_from(s@, c, from as int) == index_from(s@, c, i as int),
        ensures
            i == index_from(s@, c, from as int),
        decreases s@.len() - i,
    {
        if s[i] == c {
            break;
        }
        i += 1;
    }
    proof {
        index_from_range(s@, c, from as int);
    }
    i
}

/// A text without the whitespace it starts with.
pub open spec fn trimmed_start(s: Seq<char>) -> Seq<char>
    decreases s.len(),
{
    if s.len() > 0 && white(s[0]) {
        trimmed_start(s.drop_first())
    } else {
        s
    }
}

/// A text without the whitespace it ends with.
pub open spec fn trimmed_end(s: Seq<char>) -> Seq<char>
    decreases s.len(),
{
    if s.len() > 0 && white(s.last()) {
        trimmed_end(s.drop_last())
    } else {
        s
    }
}

/// A text without the whitespace around it.
pub open spec fn trimmed(s: Seq<char>) -> Seq<char> {
    trimmed_end(trimmed_start(s))
}

fn trim_start_index(c: &[char]) -> (r: usize)
    ensures
        r <= c@.len(),
        trimmed_start(c@) == c@.skip(r as int),
{
    let mut i: usize = 0;
    proof {
        assert(c@.skip(0) =~= c@);
    }
    while i < c.len() && is_white(c[i])
        invariant
            i <= c@.len(),
            trimmed_start(c@) == trimmed_start(c@.skip(i as int)),
        decreases c@.len() - i,
    {
        proof {
            assert(c@.skip(i as int).drop_first() =~= c@.skip(i as int + 1));
        }
        i += 1;
    }
    i
}

fn trim_end_index(c: &[char], from: usize) -> (r: usize)
    requires
        from <= c@.len(),
    ensures
        from <= r <= c@.len(),
        trimmed_end(c@.skip(from as int)) == c@.subrange(from as int, r as int),
{
    let mut i: usize = c.len();
    proof {
        assert(c@.skip(from as int) =~= c@.subrange(from as int, i as int));
    }
    while i > from && is_white(c[i - 1])
        invariant
            from <= i <= c@.len(),
            trimmed_end(c@.skip(from as int)) == trimmed_end(c@.subrange(from as int, i as int)),
        decreases i,
    {
        proof {
            assert(c@.subrange(from as int, i as int).drop_last() =~= c@.subrange(
                from as int,
                i as int - 1,
            ));
        }
        i -= 1;
    }
    i
}

pub fn trim(s: &str) -> (out: String)
    ensures
        out@ == trimmed(s@),
{
    let c = chars(s);
    let from = trim_start_index(c.as_slice());
    let to = trim_end_index(c.as_slice(), from);
    slice(c.as_slice(), from, to)
}

pub fn trim_start(s: &str) -> (out: String)
    ensures
        out@ == trimmed_start(s@),
{
    let c = chars(s);
    let from = trim_start_index(c.as_slice());
    proof {
        assert(c@.skip(from as int) =~= c@.subrange(from as int, c@.len() as int));
    }
    slice(c.as_slice(), from, c.len())
}

/// The decimal digits of a number.
pub open spec fn decimal(n: nat) -> Seq<char>
    decreases n,
{
    if n < 10 {
        seq![(n + '0' as int) as char]
    } else {
        decimal(n / 10).push((n % 10 + '0' as int) as char)
    }
}

pub fn number(n: u64) -> (out: String)
    ensures
        out@ == decimal(n as nat),
{
    long_number(n as u128)
}

pub fn long_number(n: u128) -> (out: String)
    ensures
        out@ == decimal(n as nat),
    decreases n,
{
    let last: char = (48u8 + (n % 10) as u8) as char;
    if n < 10 {
        let mut out = String::new();
        out.push(last);
        proof {
            assert(out@ =~= seq![last]);
        }
        out
    } else {
        let mut out = long_number(n / 10);
        out.push(last);
        out
    }
}

/// How many bytes a character takes in UTF-8.
pub open spec fn width_utf8(c: char) -> nat {
    if c <= '\u{7f}' {
        1
    } else if c <= '\u{7ff}' {
        2
    } else if c <= '\u{ffff}' {
        3
    } else {
        4
    }
}

pub fn len_utf8(c: char) -> (n: usize)
    ensures
        n == width_utf8(c),
{
    if c <= '\u{7f}' {
        1
    } else if c <= '\u{7ff}' {
        2
    } else if c <= '\u{ffff}' {
        3
    } else {
        4
    }
}

/// How many bytes a text takes in UTF-8.
pub open spec fn bytes_utf8(s: Seq<char>) -> nat
    decreases s.len(),
{
    if s.len() == 0 {
        0
    } else {
        bytes_utf8(s.drop_last()) + width_utf8(s.last())
    }
}

proof fn bytes_from_the_left(s: Seq<char>)
    requires
        s.len() > 0,
    ensures
        bytes_utf8(s) == width_utf8(s[0]) + bytes_utf8(s.drop_first()),
    decreases s.len(),
{
    reveal_with_fuel(bytes_utf8, 2);
    if s.len() > 1 {
        bytes_from_the_left(s.drop_last());
        assert(s.drop_last().drop_first() =~= s.drop_first().drop_last());
    } else {
        assert(s.drop_last() =~= Seq::<char>::empty());
        assert(s.drop_first() =~= Seq::<char>::empty());
    }
}

proof fn one_is_encoded(c: char)
    ensures
        encode_scalar(c as u32).len() == width_utf8(c),
{
    char_is_scalar(c);
}

/// A text takes as many bytes as its encoding has.
pub proof fn bytes_are_encoded(s: Seq<char>)
    ensures
        bytes_utf8(s) == encode_utf8(s).len(),
    decreases s.len(),
{
    if s.len() > 0 {
        bytes_from_the_left(s);
        bytes_are_encoded(s.drop_first());
        one_is_encoded(s[0]);
    }
}

/// Whether `a` comes before `b`, comparing characters from the left.
pub open spec fn before(a: Seq<char>, b: Seq<char>) -> bool
    decreases a.len(),
{
    if b.len() == 0 {
        false
    } else if a.len() == 0 {
        true
    } else if a[0] != b[0] {
        a[0] < b[0]
    } else {
        before(a.drop_first(), b.drop_first())
    }
}

pub fn is_before(a: &str, b: &str) -> (r: bool)
    ensures
        r == before(a@, b@),
{
    let x = chars(a);
    let y = chars(b);
    let mut i: usize = 0;
    proof {
        assert(x@.skip(0) =~= x@);
        assert(y@.skip(0) =~= y@);
    }
    while i < x.len() && i < y.len()
        invariant
            i <= x@.len(),
            i <= y@.len(),
            before(a@, b@) == before(x@.skip(i as int), y@.skip(i as int)),
        decreases x@.len() - i,
    {
        if x[i] != y[i] {
            return x[i] < y[i];
        }
        proof {
            assert(x@.skip(i as int).drop_first() =~= x@.skip(i as int + 1));
            assert(y@.skip(i as int).drop_first() =~= y@.skip(i as int + 1));
        }
        i += 1;
    }
    i < y.len()
}

/// No text comes before itself, and of two different texts one comes first.
pub proof fn before_is_total(a: Seq<char>, b: Seq<char>)
    ensures
        !before(a, a),
        !(before(a, b) && before(b, a)),
        a == b || before(a, b) || before(b, a),
    decreases a.len(),
{
    if a.len() > 0 && b.len() > 0 {
        before_is_total(a.drop_first(), b.drop_first());
        if a[0] == b[0] && a.drop_first() == b.drop_first() {
            assert(a =~= seq![a[0]] + a.drop_first());
            assert(b =~= seq![b[0]] + b.drop_first());
        }
    } else {
        if a.len() > 0 {
            before_is_total(a.drop_first(), a.drop_first());
        }
        if a.len() == 0 && b.len() == 0 {
            assert(a =~= b);
        }
    }
}

pub proof fn before_is_transitive(a: Seq<char>, b: Seq<char>, c: Seq<char>)
    requires
        before(a, b),
        before(b, c),
    ensures
        before(a, c),
    decreases a.len(),
{
    if a.len() > 0 && a[0] == b[0] && b[0] == c[0] {
        before_is_transitive(a.drop_first(), b.drop_first(), c.drop_first());
    }
}

/// The position of the last `c`, or -1 without one.
pub open spec fn last_index(s: Seq<char>, c: char) -> int
    decreases s.len(),
{
    if s.len() == 0 {
        -1
    } else if s.last() == c {
        s.len() - 1
    } else {
        last_index(s.drop_last(), c)
    }
}

pub proof fn last_index_range(s: Seq<char>, c: char)
    ensures
        -1 <= last_index(s, c) < s.len(),
        last_index(s, c) >= 0 ==> s[last_index(s, c)] == c,
        forall|j: int| last_index(s, c) < j < s.len() ==> s[j] != c,
    decreases s.len(),
{
    if s.len() > 0 && s.last() != c {
        last_index_range(s.drop_last(), c);
        assert forall|j: int| last_index(s, c) < j < s.len() implies s[j] != c by {
            if j < s.len() - 1 {
                assert(s.drop_last()[j] == s[j]);
            }
        }
    }
}

pub fn find_last(s: &[char], c: char) -> (r: Option<usize>)
    ensures
        match r {
            Some(i) => i == last_index(s@, c) && i < s@.len() && s@[i as int] == c,
            None => last_index(s@, c) == -1,
        },
{
    let mut i: usize = s.len();
    proof {
        assert(s@.take(i as int) =~= s@);
    }
    while i > 0
        invariant
            i <= s@.len(),
            last_index(s@, c) == last_index(s@.take(i as int), c),
        decreases i,
    {
        if s[i - 1] == c {
            return Some(i - 1);
        }
        proof {
            assert(s@.take(i as int).drop_last() =~= s@.take(i as int - 1));
        }
        i -= 1;
    }
    None
}

/// Whether two texts differ at most in the case of ASCII letters.
pub open spec fn same_ascii(a: Seq<char>, b: Seq<char>) -> bool {
    ascii_lowered(a) == ascii_lowered(b)
}

pub fn eq_ignore_ascii_case(a: &str, b: &str) -> (r: bool)
    ensures
        r == same_ascii(a@, b@),
{
    same(to_ascii_lowercase(a).as_str(), to_ascii_lowercase(b).as_str())
}

/// A text of digits alone.
pub open spec fn all_digits(s: Seq<char>) -> bool {
    forall|i: int| 0 <= i < s.len() ==> digit(#[trigger] s[i])
}

pub fn is_all_digits(c: &[char], from: usize, to: usize) -> (r: bool)
    requires
        from <= to <= c@.len(),
    ensures
        r == all_digits(c@.subrange(from as int, to as int)),
{
    let mut i: usize = from;
    while i < to
        invariant
            from <= i <= to <= c@.len(),
            forall|j: int| from <= j < i ==> digit(c@[j]),
        decreases to - i,
    {
        if !is_digit(c[i]) {
            assert(!digit(c@.subrange(from as int, to as int)[i - from]));
            return false;
        }
        i += 1;
    }
    true
}

/// Digits with at most one point among them, and at least one digit.
pub open spec fn mantissa(s: Seq<char>) -> bool {
    let point = index_from(s, '.', 0);
    if point < s.len() {
        s.len() > 1 && all_digits(s.take(point)) && all_digits(s.skip(point + 1))
    } else {
        s.len() > 0 && all_digits(s)
    }
}

/// A text without the one sign it may start with.
pub open spec fn unsigned(s: Seq<char>) -> Seq<char> {
    if s.len() > 0 && (s[0] == '+' || s[0] == '-') {
        s.skip(1)
    } else {
        s
    }
}

/// Whether a text reads as a number: a decimal with an optional sign and
/// exponent, or one of the words for the numbers no decimal writes.
pub open spec fn numeral(s: Seq<char>) -> bool {
    let t = ascii_lowered(unsigned(s));
    let e = index_from(t, 'e', 0);
    ||| t == "inf"@
    ||| t == "infinity"@
    ||| t == "nan"@
    ||| mantissa(t.take(e)) && (e < t.len() ==> unsigned(t.skip(e + 1)).len() > 0 && all_digits(
        unsigned(t.skip(e + 1)),
    ))
}

fn is_mantissa(c: &[char], to: usize) -> (r: bool)
    requires
        to <= c@.len(),
    ensures
        r == mantissa(c@.take(to as int)),
{
    let part = slice(c, 0, to);
    let p = chars(part.as_str());
    proof {
        assert(p@ =~= c@.take(to as int));
    }
    let point = find_char(p.as_slice(), '.', 0);
    if point < p.len() {
        proof {
            assert(p@.take(point as int) =~= p@.subrange(0, point as int));
            assert(p@.skip(point as int + 1) =~= p@.subrange(point as int + 1, p@.len() as int));
        }
        p.len() > 1 && is_all_digits(p.as_slice(), 0, point) && is_all_digits(
            p.as_slice(),
            point + 1,
            p.len(),
        )
    } else {
        proof {
            assert(p@ =~= p@.subrange(0, p@.len() as int));
        }
        p.len() > 0 && is_all_digits(p.as_slice(), 0, p.len())
    }
}

pub fn is_numeral(s: &str) -> (r: bool)
    ensures
        r == numeral(s@),
{
    let c = chars(s);
    let from: usize = if c.len() > 0 && (c[0] == '+' || c[0] == '-') {
        1
    } else {
        0
    };
    let bare = slice(c.as_slice(), from, c.len());
    proof {
        assert(bare@ =~= unsigned(s@));
    }
    let lower = to_ascii_lowercase(bare.as_str());
    if same(lower.as_str(), "inf") || same(lower.as_str(), "infinity") || same(
        lower.as_str(),
        "nan",
    ) {
        return true;
    }
    let t = chars(lower.as_str());
    let e = find_char(t.as_slice(), 'e', 0);
    if !is_mantissa(t.as_slice(), e) {
        return false;
    }
    if e == t.len() {
        return true;
    }
    let first: usize = if e + 1 < t.len() && (t[e + 1] == '+' || t[e + 1] == '-') {
        e + 2
    } else {
        e + 1
    };
    proof {
        assert(unsigned(t@.skip(e as int + 1)) =~= t@.subrange(first as int, t@.len() as int));
    }
    first < t.len() && is_all_digits(t.as_slice(), first, t.len())
}

/// A text with zeros in front of it, up to a width.
pub open spec fn filled(s: Seq<char>, width: nat) -> Seq<char>
    decreases width - s.len(),
{
    if s.len() >= width {
        s
    } else {
        filled(seq!['0'] + s, width)
    }
}

pub fn fill(s: String, width: usize) -> (r: String)
    ensures
        r@ == filled(s@, width as nat),
{
    let mut out = s;
    let mut len: usize = chars(out.as_str()).len();
    while len < width
        invariant
            len == out@.len(),
            filled(s@, width as nat) == filled(out@, width as nat),
        decreases width - len,
    {
        proof {
            reveal_strlit("0");
            assert("0"@ =~= seq!['0']);
        }
        out = concat("0", out.as_str());
        len += 1;
    }
    out
}

/// The number that some digits write.
pub open spec fn digits_value(s: Seq<char>) -> nat
    decreases s.len(),
{
    if s.len() == 0 {
        0
    } else {
        10 * digits_value(s.drop_last()) + digit_value(s.last()) as nat
    }
}

/// The number that the characters from `from` up to `to` write, when all of
/// them are digits and it is not too large.
pub fn parse_digits(c: &[char], from: usize, to: usize) -> (r: Option<u64>)
    requires
        from <= to <= c@.len(),
    ensures
        ({
            let s = c@.subrange(from as int, to as int);
            match r {
                Some(n) => all_digits(s) && n == digits_value(s),
                None => !(all_digits(s) && digits_value(s) <= u64::MAX),
            }
        }),
{
    let ghost s = c@.subrange(from as int, to as int);
    if !is_all_digits(c, from, to) {
        return None;
    }
    let mut n: u64 = 0;
    let mut i: usize = from;
    while i < to
        invariant
            from <= i <= to <= c@.len(),
            s == c@.subrange(from as int, to as int),
            all_digits(s),
            n == digits_value(s.take(i - from)),
        decreases to - i,
    {
        proof {
            assert(s.take(i - from + 1).drop_last() =~= s.take(i - from));
            assert(s[i - from] == c@[i as int]);
            digits_value_grows(s, i - from + 1);
        }
        let d: u64 = (c[i] as u32 - '0' as u32) as u64;
        if n > u64::MAX / 10 || n * 10 > u64::MAX - d {
            return None;
        }
        n = n * 10 + d;
        i += 1;
    }
    proof {
        assert(s.take(s.len() as int) =~= s);
    }
    Some(n)
}

proof fn digits_value_grows(s: Seq<char>, n: int)
    requires
        0 <= n <= s.len(),
        all_digits(s),
    ensures
        digits_value(s.take(n)) <= digits_value(s),
    decreases s.len() - n,
{
    if n < s.len() {
        digits_value_grows(s, n + 1);
        assert(s.take(n + 1).drop_last() =~= s.take(n));
        assert(digit(s[n]));
    } else {
        assert(s.take(n) =~= s);
    }
}

/// What is wrong with bytes that are no UTF-8, in words.
pub uninterp spec fn utf8_problem(bytes: Seq<u8>) -> Seq<char>;

/// `std::str::from_utf8`: the text that the bytes encode, exactly when they are
/// UTF-8. The words it otherwise complains with are named.
#[verifier::external_body]
pub(crate) fn decode(bytes: &[u8]) -> (r: Result<String, String>)
    ensures
        match r {
            Ok(s) => valid_utf8(bytes@) && s@ == decode_utf8(bytes@),
            Err(words) => !valid_utf8(bytes@) && words@ == utf8_problem(bytes@),
        },
{
    std::str::from_utf8(bytes).map(str::to_owned).map_err(|e| e.to_string())
}

/// Bytes read as text, or the words of a complaint.
pub open spec fn decoded(bytes: Seq<u8>) -> Result<Seq<char>, Seq<char>> {
    if valid_utf8(bytes) {
        Ok(decode_utf8(bytes))
    } else {
        Err(utf8_problem(bytes))
    }
}

/// The first position from `from` on at which `part` stands in `whole`, or -1.
pub open spec fn seek(whole: Seq<char>, part: Seq<char>, from: int) -> int
    decreases whole.len() + 1 - from,
{
    if from < 0 || from + part.len() > whole.len() {
        -1
    } else if at(whole, part, from) {
        from
    } else {
        seek(whole, part, from + 1)
    }
}

pub proof fn seek_range(whole: Seq<char>, part: Seq<char>, from: int)
    requires
        0 <= from,
    ensures
        seek(whole, part, from) == -1 || from <= seek(whole, part, from),
        seek(whole, part, from) >= 0 ==> at(whole, part, seek(whole, part, from)),
        forall|j: int|
            from <= j && (seek(whole, part, from) == -1 || j < seek(whole, part, from)) ==> !at(
                whole,
                part,
                j,
            ),
    decreases whole.len() + 1 - from,
{
    if from + part.len() <= whole.len() && !at(whole, part, from) {
        seek_range(whole, part, from + 1);
    }
}

/// Where `part` first stands from `from` on, if anywhere.
pub fn find(whole: &[char], part: &[char], from: usize) -> (r: Option<usize>)
    ensures
        match r {
            Some(i) => i == seek(whole@, part@, from as int) && from <= i && i + part@.len()
                <= whole@.len(),
            None => seek(whole@, part@, from as int) == -1,
        },
{
    let found = find_from(whole, part, from);
    proof {
        seek_range(whole@, part@, from as int);
        let s = seek(whole@, part@, from as int);
        match found {
            Some(i) => {
                assert(at(whole@, part@, i as int));
                if s == -1 {
                    assert(!at(whole@, part@, i as int));
                } else if s < i {
                    assert(!at(whole@, part@, s));
                } else if i < s {
                    assert(!at(whole@, part@, i as int));
                }
            },
            None => {
                if s >= 0 {
                    assert(!at(whole@, part@, s));
                }
            },
        }
    }
    found
}

} // verus!
