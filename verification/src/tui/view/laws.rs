//! What is shown of a text that is too long.
use super::{aligned, cells, cleaned, fitting, kept_end, padded, shortened, tail_of, text_width};
use crate::text;
use vstd::prelude::*;

verus! {

broadcast use vstd::string::group_string_axioms;

/// How many cells the characters of a text take, each by itself.
pub open spec fn taken(s: Seq<char>) -> int
    decreases s.len(),
{
    if s.len() == 0 {
        0
    } else {
        taken(s.drop_last()) + cells(s.last())
    }
}

proof fn what_fits(s: Seq<char>, from: int, used: int, limit: int)
    requires
        0 <= from <= s.len(),
        used == taken(s.take(from)),
        used <= limit,
    ensures
        ({
            let end = fitting(s, from, used, limit);
            &&& from <= end <= s.len()
            &&& taken(s.take(end)) <= limit
            &&& end < s.len() ==> taken(s.take(end + 1)) > limit
        }),
    decreases s.len() - from,
{
    if from < s.len() {
        assert(s.take(from + 1).drop_last() =~= s.take(from));
        if used + cells(s[from]) <= limit {
            what_fits(s, from + 1, used + cells(s[from]), limit);
        }
    }
}

/// A text that fits is shown whole. Of any other as much of the start is shown as fits
/// with the mark behind it, and not a character less.
pub proof fn the_start_is_shown(s: Seq<char>, limit: int)
    requires
        limit > 0,
    ensures
        text_width(cleaned(s)) <= limit ==> shortened(s, limit) == cleaned(s),
        text_width(cleaned(s)) > limit ==> ({
            let shown = shortened(s, limit);
            let kept = shown.drop_last();
            &&& shown.len() > 0
            &&& shown.last() == '…'
            &&& kept.len() <= s.len()
            &&& kept == cleaned(s).take(kept.len() as int)
            &&& taken(kept) <= limit - 1
            &&& kept.len() < s.len() ==> taken(cleaned(s).take(kept.len() as int + 1)) > limit - 1
        }),
{
    let clean = cleaned(s);
    if text_width(clean) > limit {
        assert(clean.take(0) =~= Seq::<char>::empty());
        what_fits(clean, 0, 0, limit - 1);
        let end = fitting(clean, 0, 0, limit - 1);
        assert(shortened(s, limit).drop_last() =~= clean.take(end));
    }
}

/// What is shown of a text breaks no line: a control character is shown as a blank, and
/// every other as it is.
pub proof fn control_characters_are_blanks(s: Seq<char>, i: int)
    requires
        0 <= i < s.len(),
    ensures
        cleaned(s).len() == s.len(),
        cleaned(s)[i] == if text::control(s[i]) {
            ' '
        } else {
            s[i]
        },
{
}

proof fn what_stays_of_the_end(s: Seq<char>, kept: Seq<char>, limit: int)
    ensures
        ({
            let all = kept_end(s, kept, limit);
            let more = all.len() - kept.len();
            &&& 0 <= more <= s.len()
            &&& all.take(kept.len() as int) == kept
            &&& all.skip(kept.len() as int).reverse() == s.skip(s.len() - more)
        }),
    decreases s.len(),
{
    let all = kept_end(s, kept, limit);
    if s.len() == 0 || text_width(kept) + text::width_utf8(s.last()) > limit {
        assert(all.take(kept.len() as int) =~= kept);
        assert(all.skip(kept.len() as int).reverse() =~= s.skip(s.len() as int));
    } else {
        let next = kept.push(s.last());
        what_stays_of_the_end(s.drop_last(), next, limit);
        let more = all.len() - kept.len();
        assert(all.take(next.len() as int)[kept.len() as int] == s.last());
        assert(all.take(kept.len() as int) =~= all.take(next.len() as int).take(kept.len() as int));
        assert(next.take(kept.len() as int) =~= kept);
        let short = all.skip(next.len() as int);
        let long = all.skip(kept.len() as int);
        assert(long =~= seq![s.last()] + short);
        assert(long.reverse() =~= short.reverse().push(s.last()));
        let rest = s.drop_last();
        assert(s.skip(s.len() - more) =~= rest.skip(rest.len() - (more - 1)).push(s.last()));
    }
}

/// Of a path that does not fit the end is shown, behind a mark.
pub proof fn the_end_of_a_path_is_shown(path: Seq<char>, limit: int)
    ensures
        text_width(cleaned(path)) <= limit ==> tail_of(path, limit) == cleaned(path),
        text_width(cleaned(path)) > limit ==> ({
            let shown = tail_of(path, limit);
            let kept = shown.drop_first();
            &&& shown.len() > 0
            &&& shown[0] == '…'
            &&& kept.len() <= path.len()
            &&& kept == cleaned(path).skip(path.len() - kept.len())
        }),
{
    let clean = cleaned(path);
    if text_width(clean) > limit {
        let none = Seq::<char>::empty();
        let most = super::but_one(limit);
        what_stays_of_the_end(clean, none, most);
        let all = kept_end(clean, none, most);
        assert(all.skip(0) =~= all);
        assert(tail_of(path, limit).drop_first() =~= all.reverse());
    }
}

/// A text that is filled up is followed by blanks, one that is aligned is led by them,
/// and neither is cut.
pub proof fn columns_are_filled_with_blanks(s: Seq<char>, n: int, i: int)
    ensures
        s.len() <= n ==> padded(s, n).len() == n && aligned(s, n).len() == n,
        s.len() > n ==> padded(s, n) == s && aligned(s, n) == s,
        padded(s, n).take(s.len() as int) == s,
        aligned(s, n).skip(aligned(s, n).len() - s.len()) == s,
        s.len() <= i < padded(s, n).len() ==> padded(s, n)[i] == ' ',
        0 <= i < aligned(s, n).len() - s.len() ==> aligned(s, n)[i] == ' ',
{
    assert(padded(s, n).take(s.len() as int) =~= s);
    assert(aligned(s, n).skip(aligned(s, n).len() - s.len()) =~= s);
    if s.len() > n {
        assert(padded(s, n) =~= s);
        assert(aligned(s, n) =~= s);
    }
}

} // verus!
