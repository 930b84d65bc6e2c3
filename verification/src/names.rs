//! File names that a FAT card takes, made of titles.
use crate::crosspoint::{is_reserved, reserved};
use crate::digest;
use crate::digest::{hex, sha256};
use crate::text;
use crate::text::bytes_utf8;
use vstd::prelude::*;

pub mod laws;

verus! {

broadcast use vstd::string::group_string_axioms;

/// Whether no FAT file name may hold a character.
pub open spec fn bad(c: char) -> bool {
    text::control(c) || reserved(c)
}

/// A text with an underscore for every character no FAT file name may hold.
pub open spec fn masked(s: Seq<char>) -> Seq<char> {
    s.map_values(
        |c: char|
            if bad(c) {
                '_'
            } else {
                c
            },
    )
}

/// As much of the start of a text as fits into so many bytes.
pub open spec fn shrunk(s: Seq<char>, limit: nat) -> Seq<char>
    decreases s.len(),
{
    if s.len() > 0 && bytes_utf8(s) > limit {
        shrunk(s.drop_last(), limit)
    } else {
        s
    }
}

/// Whether a character is taken away at either end of a name.
pub open spec fn edge(c: char, white: bool) -> bool {
    c == '.' || if white {
        text::white(c)
    } else {
        c == ' '
    }
}

pub open spec fn peeled_start(s: Seq<char>, white: bool) -> Seq<char>
    decreases s.len(),
{
    if s.len() > 0 && edge(s[0], white) {
        peeled_start(s.drop_first(), white)
    } else {
        s
    }
}

pub open spec fn peeled_end(s: Seq<char>, white: bool) -> Seq<char>
    decreases s.len(),
{
    if s.len() > 0 && edge(s.last(), white) {
        peeled_end(s.drop_last(), white)
    } else {
        s
    }
}

/// A name without the dots and spaces around it.
pub open spec fn peeled(s: Seq<char>, white: bool) -> Seq<char> {
    peeled_end(peeled_start(s, white), white)
}

pub(crate) fn mask(s: &str) -> (r: Vec<char>)
    ensures
        r@ == masked(s@),
{
    let c = text::chars(s);
    let mut out: Vec<char> = Vec::new();
    for i in 0..c.len()
        invariant
            c@ == s@,
            out@ == masked(s@).take(i as int),
    {
        let put = if text::is_control(c[i]) || is_reserved(c[i]) {
            '_'
        } else {
            c[i]
        };
        out.push(put);
        proof {
            assert(masked(s@).take(i as int + 1) =~= masked(s@).take(i as int).push(put));
        }
    }
    proof {
        assert(masked(s@).take(c@.len() as int) =~= masked(s@));
    }
    out
}

pub(crate) proof fn bytes_grow(s: Seq<char>, n: int)
    requires
        0 <= n <= s.len(),
    ensures
        bytes_utf8(s.take(n)) <= bytes_utf8(s),
    decreases s.len(),
{
    if n < s.len() {
        assert(s.take(n) =~= s.drop_last().take(n));
        bytes_grow(s.drop_last(), n);
    } else {
        assert(s.take(n) =~= s);
    }
}

proof fn shrunk_at(s: Seq<char>, limit: nat, n: int)
    requires
        0 <= n <= s.len(),
        bytes_utf8(s.take(n)) <= limit,
        n < s.len() ==> bytes_utf8(s.take(n + 1)) > limit,
    ensures
        shrunk(s, limit) == s.take(n),
    decreases s.len(),
{
    if n == s.len() {
        assert(s.take(n) =~= s);
    } else {
        bytes_grow(s, n + 1);
        assert(s.drop_last().take(n) =~= s.take(n));
        if n + 1 < s.len() {
            assert(s.drop_last().take(n + 1) =~= s.take(n + 1));
        }
        shrunk_at(s.drop_last(), limit, n);
    }
}

pub(crate) fn shrink(c: &[char], count: usize, limit: usize) -> (r: usize)
    requires
        count <= c@.len(),
        limit <= 1000,
    ensures
        r <= count,
        shrunk(c@.take(count as int), limit as nat) == c@.take(r as int),
{
    let ghost whole = c@.take(count as int);
    let mut used: usize = 0;
    let mut i: usize = 0;
    proof {
        assert(whole.take(0) =~= Seq::<char>::empty());
    }
    while i < count
        invariant
            i <= count <= c@.len(),
            whole == c@.take(count as int),
            used == bytes_utf8(whole.take(i as int)),
            used <= limit <= 1000,
        decreases count - i,
    {
        let wide: usize = text::len_utf8(c[i]);
        proof {
            assert(whole.take(i as int + 1).drop_last() =~= whole.take(i as int));
        }
        if used + wide > limit {
            proof {
                shrunk_at(whole, limit as nat, i as int);
                assert(whole.take(i as int) =~= c@.take(i as int));
            }
            return i;
        }
        used += wide;
        i += 1;
    }
    proof {
        shrunk_at(whole, limit as nat, i as int);
        assert(whole.take(i as int) =~= c@.take(i as int));
    }
    i
}

fn is_edge(c: char, white: bool) -> (r: bool)
    ensures
        r == edge(c, white),
{
    c == '.' || if white {
        text::is_white(c)
    } else {
        c == ' '
    }
}

pub(crate) fn peel(c: &[char], count: usize, white: bool) -> (r: String)
    requires
        count <= c@.len(),
    ensures
        r@ == peeled(c@.take(count as int), white),
{
    let ghost whole = c@.take(count as int);
    let mut from: usize = 0;
    proof {
        assert(c@.subrange(0, count as int) =~= whole);
    }
    while from < count && is_edge(c[from], white)
        invariant
            from <= count <= c@.len(),
            whole == c@.take(count as int),
            peeled_start(whole, white) == peeled_start(
                c@.subrange(from as int, count as int),
                white,
            ),
        decreases count - from,
    {
        proof {
            assert(c@.subrange(from as int, count as int).drop_first() =~= c@.subrange(
                from as int + 1,
                count as int,
            ));
        }
        from += 1;
    }
    let ghost rest = c@.subrange(from as int, count as int);
    assert(peeled_start(whole, white) == rest);
    let mut to: usize = count;
    while to > from && is_edge(c[to - 1], white)
        invariant
            from <= to <= count <= c@.len(),
            peeled_end(rest, white) == peeled_end(c@.subrange(from as int, to as int), white),
        decreases to,
    {
        proof {
            assert(c@.subrange(from as int, to as int).drop_last() =~= c@.subrange(
                from as int,
                to as int - 1,
            ));
        }
        to -= 1;
    }
    text::slice(c, from, to)
}

/// What is left of a title in the name of a file: 80 characters and 180 bytes
/// at most, and `Book` when nothing is.
pub open spec fn titled(title: Seq<char>) -> Seq<char> {
    let whole = masked(title);
    let start = if whole.len() < 80 {
        whole
    } else {
        whole.take(80)
    };
    let name = peeled(shrunk(start, 180), false);
    if name.len() == 0 {
        "Book"@
    } else {
        name
    }
}

/// The name of a file for a book: its title, and enough of a digest to tell it
/// from every other book of that title.
pub open spec fn file_named(title: Seq<char>, id: Seq<char>, extension: Seq<char>) -> Seq<char> {
    titled(title) + " ["@ + id.take(12) + "]."@ + extension
}

/// Name a file for a book by its title and a digest of it.
pub fn file_name(title: &str, id: &str, extension: &str) -> (r: String)
    requires
        id@.len() >= 12,
    ensures
        r@ == file_named(title@, id@, extension@),
{
    let c = mask(title);
    let count: usize = if c.len() < 80 {
        c.len()
    } else {
        80
    };
    proof {
        if c@.len() < 80 {
            assert(c@.take(count as int) =~= c@);
        }
    }
    let kept = shrink(c.as_slice(), count, 180);
    let name = peel(c.as_slice(), kept, false);
    let name = if name.as_str().is_empty() {
        "Book".to_owned()
    } else {
        name
    };
    let id = text::chars(id);
    let short = text::slice(id.as_slice(), 0, 12);
    proof {
        assert(id@.subrange(0, 12) =~= id@.take(12));
    }
    text::concat5(name.as_str(), " [", short.as_str(), "].", extension)
}

/// The digest of some bytes, written out; it is long enough to name a file by.
pub fn digest_name(title: &str, data: &[u8], extension: &str) -> (r: String)
    ensures
        r@ == file_named(title@, hex(sha256(data@)), extension@),
{
    let bytes = digest::digest(data);
    let id = digest::to_hex(bytes.as_slice());
    file_name(title, id.as_str(), extension)
}

pub(crate) proof fn shrunk_is_start(s: Seq<char>, limit: nat)
    ensures
        shrunk(s, limit).len() <= s.len(),
        shrunk(s, limit) == s.take(shrunk(s, limit).len() as int),
        bytes_utf8(shrunk(s, limit)) <= limit,
    decreases s.len(),
{
    if s.len() > 0 && bytes_utf8(s) > limit {
        shrunk_is_start(s.drop_last(), limit);
        let n = shrunk(s, limit).len() as int;
        assert(s.drop_last().take(n) =~= s.take(n));
    } else {
        assert(s.take(s.len() as int) =~= s);
    }
}

pub(crate) proof fn peeled_start_is_end(s: Seq<char>, white: bool)
    ensures
        peeled_start(s, white).len() <= s.len(),
        peeled_start(s, white) == s.skip(s.len() - peeled_start(s, white).len()),
        peeled_start(s, white).len() > 0 ==> !edge(peeled_start(s, white)[0], white),
    decreases s.len(),
{
    if s.len() > 0 && edge(s[0], white) {
        peeled_start_is_end(s.drop_first(), white);
        let n = peeled_start(s, white).len();
        assert(s.drop_first().skip(s.len() - 1 - n) =~= s.skip(s.len() - n));
    } else {
        assert(s.skip(0) =~= s);
    }
}

pub(crate) proof fn peeled_end_is_start(s: Seq<char>, white: bool)
    ensures
        peeled_end(s, white).len() <= s.len(),
        peeled_end(s, white) == s.take(peeled_end(s, white).len() as int),
        peeled_end(s, white).len() > 0 ==> !edge(peeled_end(s, white).last(), white),
    decreases s.len(),
{
    if s.len() > 0 && edge(s.last(), white) {
        peeled_end_is_start(s.drop_last(), white);
        let n = peeled_end(s, white).len() as int;
        assert(s.drop_last().take(n) =~= s.take(n));
    } else {
        assert(s.take(s.len() as int) =~= s);
    }
}

pub(crate) proof fn bytes_of_end(s: Seq<char>, n: int)
    requires
        0 <= n <= s.len(),
    ensures
        bytes_utf8(s.skip(n)) <= bytes_utf8(s),
    decreases s.len(),
{
    if n < s.len() {
        assert(s.skip(n).drop_last() =~= s.drop_last().skip(n));
        bytes_of_end(s.drop_last(), n);
    } else {
        assert(s.skip(n) =~= Seq::<char>::empty());
    }
}

} // verus!
