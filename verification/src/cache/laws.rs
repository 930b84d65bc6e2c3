//! What is remembered, and for how long.
use super::{
    collected, keyed, pruned, put, slot, slot_range, stored, storing_is_found_again, touched, AgedView,
    MAX_ENTRIES,
};
use crate::order;
use crate::order::kept;
use crate::text;
use vstd::prelude::*;

verus! {

/// As long as there is room, exactly what was asked for recently enough is remembered,
/// each as it was.
pub proof fn what_was_asked_for_is_remembered<V>(s: Seq<AgedView<V>>, oldest: u64, e: AgedView<V>)
    requires
        s.len() <= MAX_ENTRIES,
    ensures
        pruned(s, oldest).contains(e) <==> s.contains(e) && e.seen >= oldest,
{
    let test = |e: AgedView<V>| e.seen >= oldest;
    let live = kept(s, test);
    order::kept_is_part(s, test);
    assert(pruned(s, oldest) == live);
    if live.contains(e) {
        let i = choose|i: int| 0 <= i < live.len() && live[i] == e;
        assert(test(kept(s, test)[i]));
    }
    if s.contains(e) && e.seen >= oldest {
        let i = choose|i: int| 0 <= i < s.len() && s[i] == e;
        assert(test(s[i]));
    }
}

/// What is stored, and what is asked for, counts as seen now; nothing else does.
pub proof fn what_is_used_is_seen_now<V>(
    s: Seq<AgedView<V>>,
    key: Seq<char>,
    value: V,
    now: u64,
    i: int,
)
    requires
        keyed(s),
        0 <= i < s.len(),
    ensures
        put(s, key, value, now).contains(AgedView { key, value, seen: now }),
        s[i].key != key ==> put(s, key, value, now).contains(s[i]) && touched(
            s,
            key,
            now,
        )[i] == s[i],
        s[i].key == key ==> touched(s, key, now)[i] == (AgedView { seen: now, ..s[i] }),
{
    let at = slot(s, key, 0);
    let t = put(s, key, value, now);
    slot_range(s, key, 0);
    assert(t[at] == AgedView { key, value, seen: now });
    if s[i].key == key {
        text::before_is_total(key, key);
        if i < at {
            assert(text::before(s[i].key, key));
        } else if at < i {
            assert(text::before(s[at].key, s[i].key));
        }
    } else if at < s.len() && s[at].key == key {
        assert(t[i] == s[i]);
    } else if i < at {
        assert(t[i] == s[i]);
    } else {
        assert(t[i + 1] == s[i]);
    }
}

/// An index that is read again holds, under every key, what was written last.
pub proof fn what_was_written_last_is_read<V>(s: Seq<AgedView<V>>, i: int)
    requires
        0 <= i < s.len(),
        forall|j: int| i < j < s.len() ==> (#[trigger] s[j]).key != s[i].key,
    ensures
        keyed(collected(s)),
        stored(collected(s), s[i].key) == Some(s[i].value),
    decreases s.len(),
{
    reading_keeps_order(s.drop_last());
    reading_keeps_order(s);
    let last = s.last();
    storing_is_found_again(
        collected(s.drop_last()),
        last.key,
        last.value,
        last.seen,
        s[i].key,
    );
    if i < s.len() - 1 {
        assert(s.drop_last()[i] == s[i]);
        assert forall|j: int| i < j < s.drop_last().len() implies (
        #[trigger] s.drop_last()[j]).key != s.drop_last()[i].key by {
            assert(s.drop_last()[j] == s[j]);
        }
        what_was_written_last_is_read(s.drop_last(), i);
        assert(s[s.len() - 1].key != s[i].key);
    }
}

proof fn reading_keeps_order<V>(s: Seq<AgedView<V>>)
    ensures
        keyed(collected(s)),
    decreases s.len(),
{
    if s.len() > 0 {
        let last = s.last();
        reading_keeps_order(s.drop_last());
        storing_is_found_again(
            collected(s.drop_last()),
            last.key,
            last.value,
            last.seen,
            last.key,
        );
    }
}

} // verus!
