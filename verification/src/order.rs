//! Stable sorting by a key, used wherever a list is shown in order.
use crate::text;
use vstd::prelude::*;

verus! {

/// What a list is sorted by: entries that come late go last, and the rest by
/// two texts in turn.
pub struct SortKey {
    pub late: bool,
    pub major: String,
    pub minor: String,
}

#[verifier::ext_equal]
pub struct SortKeyView {
    pub late: bool,
    pub major: Seq<char>,
    pub minor: Seq<char>,
}

impl View for SortKey {
    type V = SortKeyView;

    open spec fn view(&self) -> SortKeyView {
        SortKeyView { late: self.late, major: self.major@, minor: self.minor@ }
    }
}

impl SortKeyView {
    pub open spec fn less(self, other: SortKeyView) -> bool {
        if self.late != other.late {
            other.late
        } else if self.major != other.major {
            text::before(self.major, other.major)
        } else {
            text::before(self.minor, other.minor)
        }
    }
}

impl SortKey {
    pub fn less(&self, other: &SortKey) -> (r: bool)
        ensures
            r == self@.less(other@),
    {
        if self.late != other.late {
            other.late
        } else if !text::same(self.major.as_str(), other.major.as_str()) {
            text::is_before(self.major.as_str(), other.major.as_str())
        } else {
            text::is_before(self.minor.as_str(), other.minor.as_str())
        }
    }
}

/// Comparing two things by their keys.
pub open spec fn by_key<T>(key: spec_fn(T) -> SortKeyView) -> spec_fn(T, T) -> bool {
    |a: T, b: T| key(a).less(key(b))
}

/// A sorted sequence with one more element, put behind everything it is not
/// less than.
pub open spec fn placed<T>(s: Seq<T>, x: T, less: spec_fn(T, T) -> bool) -> Seq<T>
    decreases s.len(),
{
    if s.len() == 0 || !less(x, s.last()) {
        s.push(x)
    } else {
        placed(s.drop_last(), x, less).push(s.last())
    }
}

/// A sequence in order; elements that compare equal stay as they were.
pub open spec fn sorted<T>(s: Seq<T>, less: spec_fn(T, T) -> bool) -> Seq<T>
    decreases s.len(),
{
    if s.len() == 0 {
        s
    } else {
        placed(sorted(s.drop_last(), less), s.last(), less)
    }
}

/// Nothing later is less than anything earlier.
pub open spec fn in_order<T>(s: Seq<T>, less: spec_fn(T, T) -> bool) -> bool {
    forall|i: int, j: int| 0 <= i < j < s.len() ==> !less(s[j], s[i])
}

proof fn key_less_laws(a: SortKeyView, b: SortKeyView, c: SortKeyView)
    ensures
        a.less(b) ==> !b.less(a),
        !b.less(a) && !c.less(b) ==> !c.less(a),
{
    text::before_is_total(a.major, b.major);
    text::before_is_total(b.major, c.major);
    text::before_is_total(a.major, c.major);
    text::before_is_total(a.minor, b.minor);
    text::before_is_total(b.minor, c.minor);
    text::before_is_total(a.minor, c.minor);
    if !b.less(a) && !c.less(b) && c.less(a) {
        if text::before(a.major, b.major) && text::before(b.major, c.major) {
            text::before_is_transitive(a.major, b.major, c.major);
        }
        if text::before(a.minor, b.minor) && text::before(b.minor, c.minor) {
            text::before_is_transitive(a.minor, b.minor, c.minor);
        }
        assert(a.late == b.late && b.late == c.late);
        if a.major == b.major && b.major == c.major {
            assert(false);
        }
    }
}

proof fn placed_keeps<T>(s: Seq<T>, x: T, less: spec_fn(T, T) -> bool)
    ensures
        placed(s, x, less).to_multiset() == s.to_multiset().insert(x),
        placed(s, x, less).len() == s.len() + 1,
    decreases s.len(),
{
    broadcast use vstd::seq_lib::group_to_multiset_ensures;

    if s.len() > 0 && less(x, s.last()) {
        placed_keeps(s.drop_last(), x, less);
        assert(s =~= s.drop_last().push(s.last()));
        assert(s.to_multiset() =~= s.drop_last().to_multiset().insert(s.last()));
        assert(placed(s, x, less).to_multiset() =~= s.to_multiset().insert(x));
    }
}

proof fn placed_in_order<T>(s: Seq<T>, x: T, key: spec_fn(T) -> SortKeyView)
    requires
        in_order(s, by_key(key)),
    ensures
        in_order(placed(s, x, by_key(key)), by_key(key)),
        forall|i: int|
            0 <= i < placed(s, x, by_key(key)).len() ==> #[trigger] placed(s, x, by_key(key))[i]
                == x || s.contains(placed(s, x, by_key(key))[i]),
    decreases s.len(),
{
    let less = by_key(key);
    let p = placed(s, x, less);
    placed_keeps(s, x, less);
    if s.len() == 0 || !less(x, s.last()) {
        assert forall|i: int, j: int| 0 <= i < j < p.len() implies !less(p[j], p[i]) by {
            if j == s.len() {
                key_less_laws(key(s[i]), key(s.last()), key(x));
                if i < s.len() - 1 {
                    assert(!less(s[s.len() - 1], s[i]));
                }
            }
        }
        assert forall|i: int| 0 <= i < p.len() implies #[trigger] p[i] == x || s.contains(p[i]) by {
            if i < s.len() {
                assert(s[i] == p[i]);
            }
        }
    } else {
        let q = placed(s.drop_last(), x, less);
        placed_in_order(s.drop_last(), x, key);
        placed_keeps(s.drop_last(), x, less);
        assert forall|i: int, j: int| 0 <= i < j < p.len() implies !less(p[j], p[i]) by {
            if j == q.len() {
                assert(p[i] == q[i]);
                if q[i] == x {
                    key_less_laws(key(x), key(s.last()), key(x));
                } else {
                    let k = choose|k: int| 0 <= k < s.drop_last().len() && s.drop_last()[k] == q[i];
                    assert(s[k] == q[i]);
                    assert(!less(s[s.len() - 1], s[k]));
                }
            } else {
                assert(!less(q[j], q[i]));
            }
        }
        assert forall|i: int| 0 <= i < p.len() implies #[trigger] p[i] == x || s.contains(p[i]) by {
            if i < q.len() {
                assert(p[i] == q[i]);
                if q[i] != x {
                    let k = choose|k: int| 0 <= k < s.drop_last().len() && s.drop_last()[k] == q[i];
                    assert(s[k] == q[i]);
                }
            } else {
                assert(s[s.len() - 1] == p[i]);
            }
        }
    }
}

/// Sorting by a key loses nothing, adds nothing, and leaves nothing out of
/// order.
pub proof fn sorting_orders_and_keeps<T>(s: Seq<T>, key: spec_fn(T) -> SortKeyView)
    ensures
        in_order(sorted(s, by_key(key)), by_key(key)),
        sorted(s, by_key(key)).to_multiset() == s.to_multiset(),
        sorted(s, by_key(key)).len() == s.len(),
    decreases s.len(),
{
    broadcast use vstd::seq_lib::group_to_multiset_ensures;

    if s.len() > 0 {
        sorting_orders_and_keeps(s.drop_last(), key);
        placed_in_order(sorted(s.drop_last(), by_key(key)), s.last(), key);
        placed_keeps(sorted(s.drop_last(), by_key(key)), s.last(), by_key(key));
        assert(s =~= s.drop_last().push(s.last()));
    }
}

/// What is already in order is left as it is.
pub proof fn sorting_leaves_order_alone<T>(s: Seq<T>, key: spec_fn(T) -> SortKeyView)
    requires
        in_order(s, by_key(key)),
    ensures
        sorted(s, by_key(key)) == s,
    decreases s.len(),
{
    if s.len() > 0 {
        let r = s.drop_last();
        assert forall|i: int, j: int| 0 <= i < j < r.len() implies !by_key(key)(r[j], r[i]) by {
            assert(!by_key(key)(s[j], s[i]));
        }
        sorting_leaves_order_alone(r, key);
        if r.len() > 0 {
            assert(!by_key(key)(s[s.len() - 1], s[s.len() - 2]));
        }
        assert(r.push(s.last()) =~= s);
    }
}

/// A sequence seen through a function.
pub open spec fn mapped<T, U>(s: Seq<T>, f: spec_fn(T) -> U) -> Seq<U> {
    Seq::new(s.len(), |i: int| f(s[i]))
}

pub proof fn placed_mapped<T, U>(
    s: Seq<T>,
    x: T,
    less: spec_fn(T, T) -> bool,
    f: spec_fn(T) -> U,
    below: spec_fn(U, U) -> bool,
)
    requires
        forall|a: T, b: T| #[trigger] less(a, b) == below(f(a), f(b)),
    ensures
        mapped(placed(s, x, less), f) == placed(mapped(s, f), f(x), below),
    decreases s.len(),
{
    if s.len() == 0 || !less(x, s.last()) {
        assert(mapped(s.push(x), f) =~= mapped(s, f).push(f(x)));
    } else {
        placed_mapped(s.drop_last(), x, less, f, below);
        assert(mapped(s.drop_last(), f) =~= mapped(s, f).drop_last());
        assert(mapped(placed(s, x, less), f) =~= mapped(
            placed(s.drop_last(), x, less),
            f,
        ).push(f(s.last())));
    }
}

pub proof fn sorted_mapped<T, U>(
    s: Seq<T>,
    less: spec_fn(T, T) -> bool,
    f: spec_fn(T) -> U,
    below: spec_fn(U, U) -> bool,
)
    requires
        forall|a: T, b: T| #[trigger] less(a, b) == below(f(a), f(b)),
    ensures
        mapped(sorted(s, less), f) == sorted(mapped(s, f), below),
    decreases s.len(),
{
    if s.len() == 0 {
        assert(mapped(s, f) =~= Seq::<U>::empty());
        assert(mapped(s, f).len() == 0);
    } else {
        sorted_mapped(s.drop_last(), less, f, below);
        placed_mapped(sorted(s.drop_last(), less), s.last(), less, f, below);
        assert(mapped(s.drop_last(), f) =~= mapped(s, f).drop_last());
    }
}

/// The elements of a sequence that a test keeps, in their order.
pub open spec fn kept<T>(s: Seq<T>, test: spec_fn(T) -> bool) -> Seq<T>
    decreases s.len(),
{
    if s.len() == 0 {
        s
    } else if test(s.last()) {
        kept(s.drop_last(), test).push(s.last())
    } else {
        kept(s.drop_last(), test)
    }
}

/// What is kept was there, in the order it was in, and passes the test.
pub proof fn kept_is_part<T>(s: Seq<T>, test: spec_fn(T) -> bool)
    ensures
        kept(s, test).len() <= s.len(),
        forall|i: int|
            0 <= i < kept(s, test).len() ==> test(#[trigger] kept(s, test)[i]) && s.contains(
                kept(s, test)[i],
            ),
        forall|i: int|
            0 <= i < s.len() && test(#[trigger] s[i]) ==> kept(s, test).contains(s[i]),
    decreases s.len(),
{
    if s.len() > 0 {
        let rest = s.drop_last();
        kept_is_part(rest, test);
        let k = kept(s, test);
        assert forall|i: int| 0 <= i < k.len() implies test(#[trigger] k[i]) && s.contains(
            k[i],
        ) by {
            if i < kept(rest, test).len() {
                assert(k[i] == kept(rest, test)[i]);
                let j = choose|j: int| 0 <= j < rest.len() && rest[j] == k[i];
                assert(s[j] == k[i]);
            } else {
                assert(s[s.len() - 1] == k[i]);
            }
        }
        assert forall|i: int| 0 <= i < s.len() && test(#[trigger] s[i]) implies k.contains(
            s[i],
        ) by {
            if i < rest.len() {
                assert(rest[i] == s[i]);
                let j = choose|j: int|
                    0 <= j < kept(rest, test).len() && kept(rest, test)[j] == s[i];
                assert(k[j] == s[i]);
            } else {
                assert(k[k.len() - 1] == s[i]);
            }
        }
    }
}

pub(crate) proof fn placed_at<T>(s: Seq<T>, x: T, less: spec_fn(T, T) -> bool, j: int)
    requires
        0 <= j <= s.len(),
        j > 0 ==> !less(x, s[j - 1]),
        forall|k: int| j <= k < s.len() ==> less(x, #[trigger] s[k]),
    ensures
        placed(s, x, less) == s.insert(j, x),
    decreases s.len(),
{
    if j < s.len() {
        placed_at(s.drop_last(), x, less, j);
        assert(placed(s, x, less) =~= s.insert(j, x));
    } else {
        assert(s.push(x) =~= s.insert(j, x));
    }
}

/// Sort a list by the keys given for its elements. A list that is nearly in
/// order, as one that has just grown is, costs little more than a look.
pub fn arrange<T>(items: &mut Vec<T>, keys: Vec<SortKey>, Ghost(key): Ghost<spec_fn(T) -> SortKeyView>)
    requires
        keys@.len() == old(items)@.len(),
        forall|i: int| 0 <= i < keys@.len() ==> (#[trigger] keys@[i])@ == key(old(items)@[i]),
    ensures
        final(items)@ == sorted(old(items)@, by_key(key)),
{
    let ghost all = items@;
    let mut keys = keys;
    let n: usize = items.len();
    let mut i: usize = 0;
    while i < n
        invariant
            i <= n,
            n == all.len(),
            items@.len() == n,
            keys@.len() == n,
            items@ == sorted(all.take(i as int), by_key(key)) + all.skip(i as int),
            sorted(all.take(i as int), by_key(key)).len() == i,
            forall|k: int| 0 <= k < n ==> (#[trigger] keys@[k])@ == key(items@[k]),
        decreases n - i,
    {
        let ghost done = sorted(all.take(i as int), by_key(key));
        let mut j: usize = i;
        while j > 0 && keys[i].less(&keys[j - 1])
            invariant
                j <= i < n,
                keys@.len() == n,
                items@.len() == n,
                forall|k: int| 0 <= k < n ==> (#[trigger] keys@[k])@ == key(items@[k]),
                forall|k: int| j <= k < i ==> by_key(key)(items@[i as int], #[trigger] items@[k]),
            decreases j,
        {
            j -= 1;
            assert(by_key(key)(items@[i as int], items@[j as int]));
        }
        proof {
            assert(items@[i as int] == all[i as int]);
            assert forall|k: int| j <= k < done.len() implies by_key(key)(
                all[i as int],
                #[trigger] done[k],
            ) by {
                assert(items@[k] == done[k]);
            }
            if j > 0 {
                assert(items@[j - 1] == done[j - 1]);
                assert(keys@[j - 1]@ == key(items@[j - 1]));
                assert(keys@[i as int]@ == key(items@[i as int]));
            }
            placed_at(done, all[i as int], by_key(key), j as int);
            assert(all.take(i as int + 1).drop_last() =~= all.take(i as int));
            assert(all.take(i as int + 1).last() == all[i as int]);
        }
        if j < i {
            let ghost before = items@;
            let ghost kept = keys@;
            let item = items.remove(i);
            items.insert(j, item);
            let k = keys.remove(i);
            keys.insert(j, k);
            proof {
                assert(items@ =~= done.insert(j as int, all[i as int]) + all.skip(i as int + 1));
                assert forall|k: int| 0 <= k < n implies (#[trigger] keys@[k])@ == key(items@[k]) by {
                    if k < j {
                        assert(keys@[k] == kept[k] && items@[k] == before[k]);
                    } else if k == j {
                        assert(keys@[k] == kept[i as int] && items@[k] == before[i as int]);
                    } else if k <= i {
                        assert(keys@[k] == kept[k - 1] && items@[k] == before[k - 1]);
                    } else {
                        assert(keys@[k] == kept[k] && items@[k] == before[k]);
                    }
                }
            }
        } else {
            proof {
                assert(items@ =~= done.insert(j as int, all[i as int]) + all.skip(i as int + 1));
            }
        }
        i += 1;
    }
    proof {
        assert(all.take(n as int) =~= all);
        assert(items@ =~= sorted(all, by_key(key)));
    }
}

} // verus!
