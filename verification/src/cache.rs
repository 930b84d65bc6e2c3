//! Best-effort identity cache for discovery.
//!
//! A hit only supplies identity for a file the current scan has already
//! enumerated, so the catalog stays a fresh inventory and never becomes an
//! offline history of disconnected devices. Every failure (missing, corrupt,
//! unreadable or unwritable) degrades to recomputing, never to an error.
use crate::position::{Position, PositionView};
use crate::format::Format;
use crate::order;
use crate::order::kept;
use crate::paths;
use crate::pdf::{Verdict, VerdictView};
use crate::text;
use crate::values::Duplicate;
use vstd::prelude::*;

pub mod laws;

verus! {

broadcast use vstd::string::group_string_axioms;

/// Bumped whenever a stored field changes meaning; older files are discarded.
pub const VERSION: u32 = 1;

/// How many entries each half of the index keeps.
pub const MAX_ENTRIES: usize = 20_000;

/// How long an entry that nothing asked for is kept, in seconds.
pub const MAX_AGE: u64 = 7_776_000;

/// What discovery would otherwise reread and rehash the whole book to learn.
#[derive(Clone, Debug, PartialEq, Eq)]
pub struct Source {
    pub title: String,
    pub author: String,
    pub series: Option<String>,
    pub series_index: Option<Position>,
    pub format: Format,
    pub verdict: Option<Verdict>,
    pub size: u64,
    pub sha: String,
    pub resources: Option<String>,
    pub optimized: bool,
    pub locked: bool,
    pub variants: Vec<(String, Option<String>)>,
}

#[verifier::ext_equal]
pub struct SourceView {
    pub title: Seq<char>,
    pub author: Seq<char>,
    pub series: Option<Seq<char>>,
    pub series_index: Option<PositionView>,
    pub format: Format,
    pub verdict: Option<VerdictView>,
    pub size: u64,
    pub sha: Seq<char>,
    pub resources: Option<Seq<char>>,
    pub optimized: bool,
    pub locked: bool,
    pub variants: Seq<(Seq<char>, Option<Seq<char>>)>,
}

impl View for Source {
    type V = SourceView;

    open spec fn view(&self) -> SourceView {
        SourceView {
            title: self.title@,
            author: self.author@,
            series: self.series.deep_view(),
            series_index: self.series_index.deep_view(),
            format: self.format,
            verdict: self.verdict.deep_view(),
            size: self.size,
            sha: self.sha@,
            resources: self.resources.deep_view(),
            optimized: self.optimized,
            locked: self.locked,
            variants: self.variants.deep_view(),
        }
    }
}

impl DeepView for Source {
    type V = SourceView;

    open spec fn deep_view(&self) -> SourceView {
        self@
    }
}

impl Duplicate for Source {
    fn duplicate(&self) -> (r: Source) {
        Source {
            title: self.title.duplicate(),
            author: self.author.duplicate(),
            series: self.series.duplicate(),
            series_index: self.series_index.duplicate(),
            format: self.format,
            verdict: self.verdict.duplicate(),
            size: self.size,
            sha: self.sha.duplicate(),
            resources: self.resources.duplicate(),
            optimized: self.optimized,
            locked: self.locked,
            variants: self.variants.duplicate(),
        }
    }
}

/// The identity of the optimized copy that these bytes would produce.
#[derive(Clone, Debug, PartialEq, Eq)]
pub struct Variant {
    pub sha: String,
    pub resources: Option<String>,
}

#[verifier::ext_equal]
pub struct VariantView {
    pub sha: Seq<char>,
    pub resources: Option<Seq<char>>,
}

impl View for Variant {
    type V = VariantView;

    open spec fn view(&self) -> VariantView {
        VariantView { sha: self.sha@, resources: self.resources.deep_view() }
    }
}

impl DeepView for Variant {
    type V = VariantView;

    open spec fn deep_view(&self) -> VariantView {
        self@
    }
}

impl Duplicate for Variant {
    fn duplicate(&self) -> (r: Variant) {
        Variant { sha: self.sha.duplicate(), resources: self.resources.duplicate() }
    }
}

/// Where the index is kept, given the two folders the environment may name.
pub open spec fn default_place(cache: Option<Seq<char>>, home: Option<Seq<char>>) -> Option<
    Seq<char>,
> {
    match home {
        None => None,
        Some(home) => Some(
            paths::below(
                match cache {
                    Some(base) if paths::absolute(base) => base,
                    _ => paths::below(home, ".cache"@),
                },
                "crossload/index.json"@,
            ),
        ),
    }
}

pub fn default_path(cache: &Option<String>, home: &Option<String>) -> (r: Option<String>)
    ensures
        r.deep_view() == default_place(cache.deep_view(), home.deep_view()),
{
    match home {
        None => None,
        Some(home) => {
            let own = paths::resolve(home.as_str(), ".cache");
            let base = match cache {
                Some(base) => if paths::is_absolute(base.as_str()) {
                    base.duplicate()
                } else {
                    own
                },
                None => own,
            };
            Some(paths::resolve(base.as_str(), "crossload/index.json"))
        },
    }
}

pub open spec fn truth(b: bool) -> Seq<char> {
    if b {
        "true"@
    } else {
        "false"@
    }
}

fn word(b: bool) -> (r: &'static str)
    ensures
        r@ == truth(b),
{
    if b {
        "true"
    } else {
        "false"
    }
}

/// What a file looked like: its size, and when it was last changed to the
/// nanosecond.
pub open spec fn looks(size: u64, seconds: u64, nanos: u32) -> Seq<char> {
    text::decimal(size as nat) + "\u{1}"@ + text::decimal(seconds as nat) + "."@ + text::filled(
        text::decimal(nanos as nat),
        9,
    )
}

pub fn file_fingerprint(size: u64, seconds: u64, nanos: u32) -> (r: String)
    ensures
        r@ == looks(size, seconds, nanos),
{
    let fine = text::fill(text::number(nanos as u64), 9);
    text::concat5(
        text::number(size).as_str(),
        "\u{1}",
        text::number(seconds).as_str(),
        ".",
        fine.as_str(),
    )
}

/// A file's identity key. Any change to what it looked like is a miss, as is a
/// change to the options that shaped the stored variants.
pub open spec fn source_name(
    scope: Seq<char>,
    path: Seq<char>,
    fingerprint: Seq<char>,
    optimize: bool,
    organized: bool,
) -> Seq<char> {
    scope + "\u{1}"@ + path + "\u{1}"@ + fingerprint + "\u{1}"@ + truth(optimize) + truth(organized)
}

pub fn source_key(
    scope: &str,
    path: &str,
    fingerprint: &str,
    optimize: bool,
    organized: bool,
) -> (r: String)
    ensures
        r@ == source_name(scope@, path@, fingerprint@, optimize, organized),
{
    let mut out = text::concat5(scope, "\u{1}", path, "\u{1}", fingerprint);
    out.push_str("\u{1}");
    out.push_str(word(optimize));
    out.push_str(word(organized));
    out
}

pub open spec fn variant_name(sha: Seq<char>, optimize: bool, organized: bool) -> Seq<char> {
    sha + "\u{1}"@ + truth(optimize) + truth(organized)
}

pub fn variant_key(sha: &str, optimize: bool, organized: bool) -> (r: String)
    ensures
        r@ == variant_name(sha@, optimize, organized),
{
    text::concat4(sha, "\u{1}", word(optimize), word(organized))
}

proof fn parts_before(a: Seq<char>, b: Seq<char>, c: Seq<char>, d: Seq<char>, x: char)
    requires
        a.push(x) + b == c.push(x) + d,
        !a.contains(x),
        !c.contains(x),
    ensures
        a == c,
        b == d,
{
    let whole = a.push(x) + b;
    assert(whole[a.len() as int] == x);
    assert(whole == c.push(x) + d);
    assert(whole[c.len() as int] == x);
    if a.len() < c.len() {
        assert(c[a.len() as int] == whole[a.len() as int]);
    } else if c.len() < a.len() {
        assert(a[c.len() as int] == whole[c.len() as int]);
    }
    assert(a =~= whole.take(a.len() as int));
    assert(c =~= whole.take(c.len() as int));
    assert(b =~= whole.skip(a.len() as int + 1));
    assert(d =~= whole.skip(c.len() as int + 1));
}

proof fn parts_behind(a: Seq<char>, b: Seq<char>, c: Seq<char>, d: Seq<char>, x: char)
    requires
        a.push(x) + b == c.push(x) + d,
        !b.contains(x),
        !d.contains(x),
    ensures
        a == c,
        b == d,
{
    let whole = a.push(x) + b;
    assert(whole.len() == a.len() + 1 + b.len());
    assert(whole.len() == c.len() + 1 + d.len());
    assert(whole[a.len() as int] == x);
    assert(whole[c.len() as int] == x);
    if a.len() < c.len() {
        assert(b[c.len() - a.len() - 1] == whole[c.len() as int]);
    } else if c.len() < a.len() {
        assert(whole[a.len() as int] == d[a.len() - c.len() - 1]);
    }
    assert(a =~= whole.take(a.len() as int));
    assert(c =~= whole.take(c.len() as int));
    assert(b =~= whole.skip(a.len() as int + 1));
    assert(d =~= whole.skip(c.len() as int + 1));
}

proof fn truths_differ(a: bool, b: bool, c: bool, d: bool)
    ensures
        !(truth(a) + truth(b)).contains('\u{1}'),
        truth(a) + truth(b) == truth(c) + truth(d) ==> a == c && b == d,
{
    reveal_strlit("true");
    reveal_strlit("false");
    let one = truth(a) + truth(b);
    let other = truth(c) + truth(d);
    if one == other {
        assert(one[0] == truth(a)[0]);
        assert(other[0] == truth(c)[0]);
        assert(a == c);
        assert(one[truth(a).len() as int] == truth(b)[0]);
        assert(other[truth(c).len() as int] == truth(d)[0]);
    }
}

/// Any change to a file, or to the options that shaped what is stored of it,
/// asks under another key.
pub proof fn changes_are_misses(
    scope: Seq<char>,
    path: Seq<char>,
    before: Seq<char>,
    after: Seq<char>,
    options: (bool, bool),
    others: (bool, bool),
)
    requires
        before != after || options != others,
    ensures
        source_name(scope, path, before, options.0, options.1) != source_name(
            scope,
            path,
            after,
            others.0,
            others.1,
        ),
        variant_name(before, options.0, options.1) != variant_name(after, others.0, others.1),
{
    reveal_strlit("\u{1}");
    let x = '\u{1}';
    assert("\u{1}"@ =~= seq![x]);
    truths_differ(options.0, options.1, others.0, others.1);
    truths_differ(others.0, others.1, options.0, options.1);
    let b = truth(options.0) + truth(options.1);
    let d = truth(others.0) + truth(others.1);
    let head = scope + "\u{1}"@ + path + "\u{1}"@;
    let one = source_name(scope, path, before, options.0, options.1);
    let other = source_name(scope, path, after, others.0, others.1);
    assert(one =~= (head + before).push(x) + b);
    assert(other =~= (head + after).push(x) + d);
    if one == other {
        parts_behind(head + before, b, head + after, d, x);
        assert(before =~= (head + before).skip(head.len() as int));
        assert(after =~= (head + after).skip(head.len() as int));
    }
    let one = variant_name(before, options.0, options.1);
    let other = variant_name(after, others.0, others.1);
    assert(one =~= before.push(x) + b);
    assert(other =~= after.push(x) + d);
    if one == other {
        parts_behind(before, b, after, d, x);
    }
}

proof fn digits_count(n: nat)
    ensures
        text::all_digits(text::decimal(n)),
        text::digits_value(text::decimal(n)) == n,
    decreases n,
{
    reveal_with_fuel(text::digits_value, 2);
    let s = text::decimal(n);
    if n < 10 {
        assert(s.drop_last() =~= Seq::<char>::empty());
        assert(s.last() == (n + '0' as int) as char);
    } else {
        digits_count(n / 10);
        assert(s.drop_last() =~= text::decimal(n / 10));
    }
}

proof fn zeros_count_nothing(s: Seq<char>)
    requires
        text::all_digits(s),
    ensures
        text::all_digits(seq!['0'] + s),
        text::digits_value(seq!['0'] + s) == text::digits_value(s),
    decreases s.len(),
{
    reveal_with_fuel(text::digits_value, 2);
    let t = seq!['0'] + s;
    if s.len() > 0 {
        assert(t.last() == s.last());
        zeros_count_nothing(s.drop_last());
        assert(t.drop_last() =~= seq!['0'] + s.drop_last());
    } else {
        assert(t.drop_last() =~= Seq::<char>::empty());
        assert(t.last() == '0');
    }
}

proof fn filling_counts_nothing(s: Seq<char>, width: nat)
    requires
        text::all_digits(s),
    ensures
        text::all_digits(text::filled(s, width)),
        text::digits_value(text::filled(s, width)) == text::digits_value(s),
    decreases width - s.len(),
{
    if s.len() < width {
        zeros_count_nothing(s);
        filling_counts_nothing(seq!['0'] + s, width);
    }
}

/// A file that is larger or smaller than it was, or was changed at another time,
/// looks different.
pub proof fn changed_files_look_different(
    before: (u64, u64, u32),
    after: (u64, u64, u32),
)
    requires
        before != after,
    ensures
        looks(before.0, before.1, before.2) != looks(after.0, after.1, after.2),
{
    reveal_strlit("\u{1}");
    reveal_strlit(".");
    let x = '\u{1}';
    let y = '.';
    let (a, c) = (text::decimal(before.0 as nat), text::decimal(after.0 as nat));
    let (e, g) = (text::decimal(before.1 as nat), text::decimal(after.1 as nat));
    let (n, o) = (text::decimal(before.2 as nat), text::decimal(after.2 as nat));
    let (f, h) = (text::filled(n, 9), text::filled(o, 9));
    digits_count(before.0 as nat);
    digits_count(after.0 as nat);
    digits_count(before.1 as nat);
    digits_count(after.1 as nat);
    digits_count(before.2 as nat);
    digits_count(after.2 as nat);
    filling_counts_nothing(n, 9);
    filling_counts_nothing(o, 9);
    let one = looks(before.0, before.1, before.2);
    let other = looks(after.0, after.1, after.2);
    assert(one =~= a.push(x) + (e.push(y) + f));
    assert(other =~= c.push(x) + (g.push(y) + h));
    if one == other {
        parts_before(a, e.push(y) + f, c, g.push(y) + h, x);
        parts_before(e, f, g, h, y);
    }
}

/// A stored value, under its key, and when it was last asked for.
#[derive(Clone, Debug)]
pub struct Aged<T> {
    pub key: String,
    pub value: T,
    pub seen: u64,
}

#[verifier::ext_equal]
pub struct AgedView<V> {
    pub key: Seq<char>,
    pub value: V,
    pub seen: u64,
}

impl<T: DeepView> DeepView for Aged<T> {
    type V = AgedView<T::V>;

    open spec fn deep_view(&self) -> AgedView<T::V> {
        AgedView { key: self.key@, value: self.value.deep_view(), seen: self.seen }
    }
}

/// Entries in the order of their keys, no key twice.
pub open spec fn keyed<V>(s: Seq<AgedView<V>>) -> bool {
    forall|i: int, j: int| 0 <= i < j < s.len() ==> text::before(s[i].key, s[j].key)
}

/// The first entry from `from` on whose key does not come before `key`, or the
/// length.
pub open spec fn slot<V>(s: Seq<AgedView<V>>, key: Seq<char>, from: int) -> int
    decreases s.len() - from,
{
    if from < 0 || from >= s.len() {
        s.len() as int
    } else if !text::before(s[from].key, key) {
        from
    } else {
        slot(s, key, from + 1)
    }
}

/// What is stored under a key.
pub open spec fn stored<V>(s: Seq<AgedView<V>>, key: Seq<char>) -> Option<V> {
    let at = slot(s, key, 0);
    if 0 <= at < s.len() && s[at].key == key {
        Some(s[at].value)
    } else {
        None
    }
}

/// The entries after one was asked for: it counts as seen now.
pub open spec fn touched<V>(s: Seq<AgedView<V>>, key: Seq<char>, now: u64) -> Seq<AgedView<V>> {
    let at = slot(s, key, 0);
    if 0 <= at < s.len() && s[at].key == key {
        s.update(at, AgedView { seen: now, ..s[at] })
    } else {
        s
    }
}

/// The entries with a value under a key, in place of what was there.
pub open spec fn put<V>(s: Seq<AgedView<V>>, key: Seq<char>, value: V, now: u64) -> Seq<
    AgedView<V>,
> {
    let at = slot(s, key, 0);
    let entry = AgedView { key, value, seen: now };
    if 0 <= at < s.len() && s[at].key == key {
        s.update(at, entry)
    } else {
        s.insert(at, entry)
    }
}

proof fn slot_range<V>(s: Seq<AgedView<V>>, key: Seq<char>, from: int)
    requires
        0 <= from <= s.len(),
    ensures
        from <= slot(s, key, from) <= s.len(),
        slot(s, key, from) < s.len() ==> !text::before(s[slot(s, key, from)].key, key),
        forall|i: int| from <= i < slot(s, key, from) ==> text::before(#[trigger] s[i].key, key),
    decreases s.len() - from,
{
    if from < s.len() && text::before(s[from].key, key) {
        slot_range(s, key, from + 1);
    }
}

proof fn slot_is<V>(s: Seq<AgedView<V>>, key: Seq<char>, from: int, at: int)
    requires
        0 <= from <= at <= s.len(),
        at < s.len() ==> !text::before(s[at].key, key),
        forall|i: int| from <= i < at ==> text::before(#[trigger] s[i].key, key),
    ensures
        slot(s, key, from) == at,
    decreases s.len() - from,
{
    if from < at {
        slot_is(s, key, from + 1, at);
    }
}

/// Storing keeps the entries in order, no key twice; what was stored is found
/// under its key, and everything else is found as before.
pub proof fn storing_is_found_again<V>(
    s: Seq<AgedView<V>>,
    key: Seq<char>,
    value: V,
    now: u64,
    other: Seq<char>,
)
    requires
        keyed(s),
    ensures
        keyed(put(s, key, value, now)),
        stored(put(s, key, value, now), key) == Some(value),
        other != key ==> stored(put(s, key, value, now), other) == stored(s, other),
{
    let at = slot(s, key, 0);
    let t = put(s, key, value, now);
    slot_range(s, key, 0);
    text::before_is_total(key, key);
    if at < s.len() && s[at].key == key {
        assert forall|i: int, j: int| 0 <= i < j < t.len() implies text::before(
            t[i].key,
            t[j].key,
        ) by {
            assert(text::before(s[i].key, s[j].key));
        }
        slot_is(t, key, 0, at);
        slot_range(s, other, 0);
        slot_is(t, other, 0, slot(s, other, 0));
    } else {
        if at < s.len() {
            text::before_is_total(s[at].key, key);
        }
        assert forall|i: int, j: int| 0 <= i < j < t.len() implies text::before(
            t[i].key,
            t[j].key,
        ) by {
            let x = if i < at {
                i
            } else {
                i - 1
            };
            let y = if j < at {
                j
            } else {
                j - 1
            };
            if i == at {
                assert(text::before(key, s[at].key));
                if y > at {
                    assert(text::before(s[at].key, s[y].key));
                    text::before_is_transitive(key, s[at].key, s[y].key);
                }
            } else if j == at {
                assert(text::before(s[i].key, key));
            } else {
                assert(text::before(s[x].key, s[y].key));
            }
        }
        slot_is(t, key, 0, at);
        if other != key {
            text::before_is_total(key, other);
            slot_range(s, other, 0);
            let b = slot(s, other, 0);
            if text::before(key, other) {
                assert forall|i: int| 0 <= i < at implies text::before(#[trigger] s[i].key, other) by {
                    text::before_is_transitive(s[i].key, key, other);
                }
                assert(at <= b) by {
                    if b < at {
                        assert(text::before(s[b].key, other));
                    }
                }
                assert forall|i: int| 0 <= i < b + 1 implies text::before(
                    #[trigger] t[i].key,
                    other,
                ) by {
                    if i < at {
                        assert(t[i] == s[i]);
                    } else if i > at {
                        assert(t[i] == s[i - 1]);
                    }
                }
                if b + 1 < t.len() {
                    assert(t[b + 1] == s[b]);
                }
                slot_is(t, other, 0, b + 1);
            } else {
                assert(b <= at) by {
                    if at < b {
                        if at < s.len() {
                            assert(text::before(s[at].key, other));
                            text::before_is_transitive(s[at].key, other, key);
                        }
                    }
                }
                assert forall|i: int| 0 <= i < b implies text::before(
                    #[trigger] t[i].key,
                    other,
                ) by {
                    assert(t[i] == s[i]);
                }
                if b < at {
                    assert(t[b] == s[b]);
                } else {
                    assert(t[b].key == key);
                }
                slot_is(t, other, 0, b);
                if b == at && b < s.len() && s[b].key == other {
                    assert(text::before(other, key));
                    assert(!text::before(s[at].key, key));
                }
            }
        }
    }
}

/// Asking for an entry changes nothing but when it was last asked for.
pub proof fn asking_keeps_what_is_stored<V>(
    s: Seq<AgedView<V>>,
    key: Seq<char>,
    now: u64,
    other: Seq<char>,
)
    requires
        keyed(s),
    ensures
        keyed(touched(s, key, now)),
        stored(touched(s, key, now), other) == stored(s, other),
{
    let t = touched(s, key, now);
    slot_range(s, key, 0);
    slot_range(s, other, 0);
    assert forall|i: int| 0 <= i < s.len() implies (#[trigger] t[i]).key == s[i].key && t[i].value
        == s[i].value by {}
    assert forall|i: int, j: int| 0 <= i < j < t.len() implies text::before(t[i].key, t[j].key) by {
        assert(text::before(s[i].key, s[j].key));
    }
    slot_is(t, other, 0, slot(s, other, 0));
}

/// When the oldest entry to keep was last asked for, if only so many are kept.
pub open spec fn cutoff(seen: Seq<u64>, keep: nat) -> u64 {
    order::sorted(seen, |a: u64, b: u64| a < b)[seen.len() - keep]
}

pub open spec fn seen_times<V>(s: Seq<AgedView<V>>) -> Seq<u64> {
    Seq::new(s.len(), |i: int| s[i].seen)
}

/// How many of some times are later than one.
pub open spec fn later(seen: Seq<u64>, line: u64) -> nat
    decreases seen.len(),
{
    if seen.len() == 0 {
        0
    } else {
        later(seen.drop_last(), line) + if seen.last() > line {
            1nat
        } else {
            0nat
        }
    }
}

/// How many of some times are just that one.
pub open spec fn level(seen: Seq<u64>, line: u64) -> nat
    decreases seen.len(),
{
    if seen.len() == 0 {
        0
    } else {
        level(seen.drop_last(), line) + if seen.last() == line {
            1nat
        } else {
            0nat
        }
    }
}

/// The entries that were asked for after a time, and the first of those that were
/// asked for just then, as many as there is room for.
pub open spec fn chosen<V>(s: Seq<AgedView<V>>, line: u64, spare: nat) -> Seq<AgedView<V>>
    decreases s.len(),
{
    if s.len() == 0 {
        s
    } else {
        let rest = chosen(s.drop_last(), line, spare);
        let last = s.last();
        if last.seen > line || last.seen == line && level(seen_times(s.drop_last()), line)
            < spare {
            rest.push(last)
        } else {
            rest
        }
    }
}

/// The entries that are kept when there are too many: in the order of their
/// keys, those that were asked for most recently. Where not all that were asked
/// for at the same time fit, the first of them stay.
pub open spec fn newest_of<V>(s: Seq<AgedView<V>>, keep: nat) -> Seq<AgedView<V>> {
    if s.len() <= keep {
        s
    } else {
        let line = cutoff(seen_times(s), keep);
        chosen(s, line, (keep - later(seen_times(s), line)) as nat)
    }
}

spec fn sooner() -> spec_fn(u64, u64) -> bool {
    |a: u64, b: u64| a < b
}

spec fn below(s: Seq<u64>, top: u64) -> bool {
    forall|i: int| 0 <= i < s.len() ==> #[trigger] s[i] <= top
}

proof fn placing_counts(s: Seq<u64>, x: u64, line: u64)
    ensures
        later(order::placed(s, x, sooner()), line) == later(s, line) + if x > line {
            1nat
        } else {
            0nat
        },
        level(order::placed(s, x, sooner()), line) == level(s, line) + if x == line {
            1nat
        } else {
            0nat
        },
        order::placed(s, x, sooner()).len() == s.len() + 1,
        order::in_order(s, sooner()) ==> order::in_order(order::placed(s, x, sooner()), sooner()),
        forall|top: u64| #[trigger]
            below(s, top) && x <= top ==> below(order::placed(s, x, sooner()), top),
    decreases s.len(),
{
    let p = order::placed(s, x, sooner());
    if s.len() == 0 || !(x < s.last()) {
        assert(p == s.push(x));
        assert(p.drop_last() =~= s);
        if order::in_order(s, sooner()) {
            assert forall|i: int, j: int| 0 <= i < j < p.len() implies !sooner()(p[j], p[i]) by {
                if j == s.len() && i < s.len() - 1 {
                    assert(!sooner()(s[s.len() - 1], s[i]));
                }
            }
        }
    } else {
        let rest = s.drop_last();
        placing_counts(rest, x, line);
        let q = order::placed(rest, x, sooner());
        assert(p == q.push(s.last()));
        assert(p.drop_last() =~= q);
        if order::in_order(s, sooner()) {
            assert forall|i: int, j: int| 0 <= i < j < rest.len() implies !sooner()(
                rest[j],
                rest[i],
            ) by {
                assert(!sooner()(s[j], s[i]));
            }
            assert forall|i: int| 0 <= i < rest.len() implies #[trigger] rest[i] <= s.last() by {
                assert(!sooner()(s[s.len() - 1], s[i]));
            }
            assert(below(rest, s.last()));
            assert(below(q, s.last()));
            assert forall|i: int, j: int| 0 <= i < j < p.len() implies !sooner()(p[j], p[i]) by {
                if j == q.len() {
                    assert(p[i] == q[i]);
                    assert(q[i] <= s.last());
                } else {
                    assert(!sooner()(q[j], q[i]));
                }
            }
        }
        assert forall|top: u64| #[trigger] below(s, top) && x <= top implies below(p, top) by {
            assert forall|i: int| 0 <= i < rest.len() implies #[trigger] rest[i] <= top by {
                assert(s[i] <= top);
            }
            assert(below(rest, top));
            assert(below(q, top));
            assert forall|i: int| 0 <= i < p.len() implies #[trigger] p[i] <= top by {
                if i < q.len() {
                    assert(p[i] == q[i]);
                } else {
                    assert(s[s.len() - 1] <= top);
                }
            }
        }
    }
}

proof fn sorting_counts(s: Seq<u64>, line: u64)
    ensures
        later(order::sorted(s, sooner()), line) == later(s, line),
        level(order::sorted(s, sooner()), line) == level(s, line),
        order::sorted(s, sooner()).len() == s.len(),
        order::in_order(order::sorted(s, sooner()), sooner()),
    decreases s.len(),
{
    if s.len() > 0 {
        sorting_counts(s.drop_last(), line);
        placing_counts(order::sorted(s.drop_last(), sooner()), s.last(), line);
    }
}

proof fn counts_are_bounded(t: Seq<u64>, line: u64, n: int)
    requires
        0 <= n <= t.len(),
    ensures
        later(t, line) + level(t, line) <= t.len(),
        (forall|i: int| 0 <= i < n ==> #[trigger] t[i] <= line) ==> later(t, line) <= t.len() - n,
        (forall|i: int| n <= i < t.len() ==> #[trigger] t[i] >= line) ==> later(t, line) + level(
            t,
            line,
        ) >= t.len() - n,
    decreases t.len(),
{
    if t.len() > 0 {
        let rest = t.drop_last();
        if n <= rest.len() {
            counts_are_bounded(rest, line, n);
        } else {
            counts_are_bounded(rest, line, n - 1);
        }
        assert(t[t.len() - 1] == t.last());
        assert(forall|i: int| 0 <= i < rest.len() ==> rest[i] == t[i]);
    }
}

proof fn cutoff_counts(seen: Seq<u64>, keep: nat)
    requires
        0 < keep < seen.len(),
    ensures
        later(seen, cutoff(seen, keep)) < keep,
        later(seen, cutoff(seen, keep)) + level(seen, cutoff(seen, keep)) >= keep,
{
    let line = cutoff(seen, keep);
    let t = order::sorted(seen, sooner());
    let at = seen.len() - keep;
    sorting_counts(seen, line);
    assert(line == t[at]);
    assert forall|i: int| 0 <= i < at + 1 implies #[trigger] t[i] <= line by {
        if i < at {
            assert(!sooner()(t[at], t[i]));
        }
    }
    assert forall|i: int| at <= i < t.len() implies #[trigger] t[i] >= line by {
        if i > at {
            assert(!sooner()(t[i], t[at]));
        }
    }
    counts_are_bounded(t, line, at + 1);
    counts_are_bounded(t, line, at);
}

proof fn choosing_counts<V>(s: Seq<AgedView<V>>, line: u64, spare: nat)
    ensures
        chosen(s, line, spare).len() == later(seen_times(s), line) + if level(
            seen_times(s),
            line,
        ) < spare {
            level(seen_times(s), line)
        } else {
            spare
        },
        forall|i: int|
            0 <= i < chosen(s, line, spare).len() ==> (#[trigger] chosen(s, line, spare)[i]).seen
                >= line && s.contains(chosen(s, line, spare)[i]),
        forall|i: int|
            0 <= i < s.len() && (#[trigger] s[i]).seen > line ==> chosen(s, line, spare).contains(
                s[i],
            ),
    decreases s.len(),
{
    if s.len() > 0 {
        let rest = s.drop_last();
        choosing_counts(rest, line, spare);
        assert(seen_times(s).drop_last() =~= seen_times(rest));
        let c = chosen(s, line, spare);
        let r = chosen(rest, line, spare);
        assert forall|i: int| 0 <= i < c.len() implies (#[trigger] c[i]).seen >= line && s.contains(
            c[i],
        ) by {
            if i < r.len() {
                assert(c[i] == r[i]);
                let k = choose|k: int| 0 <= k < rest.len() && rest[k] == r[i];
                assert(s[k] == c[i]);
            } else {
                assert(s[s.len() - 1] == c[i]);
            }
        }
        assert forall|i: int| 0 <= i < s.len() && (#[trigger] s[i]).seen > line implies c.contains(
            s[i],
        ) by {
            if i < rest.len() {
                assert(rest[i] == s[i]);
                let k = choose|k: int| 0 <= k < r.len() && r[k] == rest[i];
                assert(c[k] == s[i]);
            } else {
                assert(c[c.len() - 1] == s[i]);
            }
        }
    }
}

/// When the index outgrows its bound, as many entries stay as fit, each as it was,
/// and none that goes was asked for later than one that stays.
pub proof fn the_most_recent_stay<V>(s: Seq<AgedView<V>>, keep: nat)
    requires
        0 < keep < s.len(),
    ensures
        newest_of(s, keep).len() == keep,
        forall|i: int|
            0 <= i < keep ==> s.contains(#[trigger] newest_of(s, keep)[i]),
        forall|i: int, j: int|
            0 <= i < s.len() && 0 <= j < keep && !newest_of(s, keep).contains(#[trigger] s[i])
                ==> s[i].seen <= (#[trigger] newest_of(s, keep)[j]).seen,
{
    let line = cutoff(seen_times(s), keep);
    cutoff_counts(seen_times(s), keep);
    choosing_counts(s, line, (keep - later(seen_times(s), line)) as nat);
}

/// The entries that are not too old, and of those no more than fit.
pub open spec fn pruned<V>(s: Seq<AgedView<V>>, oldest: u64) -> Seq<AgedView<V>> {
    newest_of(kept(s, |e: AgedView<V>| e.seen >= oldest), MAX_ENTRIES as nat)
}

/// However much is stored, the index stays within its bound.
pub proof fn pruning_bounds_the_index<V>(s: Seq<AgedView<V>>, oldest: u64)
    ensures
        pruned(s, oldest).len() <= MAX_ENTRIES,
        forall|i: int|
            0 <= i < pruned(s, oldest).len() ==> (#[trigger] pruned(s, oldest)[i]).seen >= oldest,
{
    let live = kept(s, |e: AgedView<V>| e.seen >= oldest);
    order::kept_is_part(s, |e: AgedView<V>| e.seen >= oldest);
    if live.len() > MAX_ENTRIES {
        the_most_recent_stay(live, MAX_ENTRIES as nat);
        assert forall|i: int| 0 <= i < pruned(s, oldest).len() implies (#[trigger] pruned(
            s,
            oldest,
        )[i]).seen >= oldest by {
            let j = choose|j: int| 0 <= j < live.len() && live[j] == pruned(s, oldest)[i];
            assert(live[j].seen >= oldest);
        }
    }
}

/// One half of the index.
#[derive(Clone, Debug)]
pub struct Shelf<T> {
    pub entries: Vec<Aged<T>>,
}

impl<T: DeepView> View for Shelf<T> {
    type V = Seq<AgedView<T::V>>;

    open spec fn view(&self) -> Seq<AgedView<T::V>> {
        self.entries.deep_view()
    }
}

impl<T: Duplicate> Shelf<T> {
    pub fn empty() -> (r: Shelf<T>)
        ensures
            r@ == Seq::<AgedView<T::V>>::empty(),
    {
        let r = Shelf { entries: Vec::new() };
        proof {
            assert(r@ =~= Seq::<AgedView<T::V>>::empty());
        }
        r
    }

    fn find(&self, key: &str) -> (r: usize)
        requires
            keyed(self@),
        ensures
            r == slot(self@, key@, 0),
            r <= self.entries@.len(),
    {
        let mut low: usize = 0;
        let mut high: usize = self.entries.len();
        while low < high
            invariant
                low <= high <= self.entries@.len(),
                self@.len() == self.entries@.len(),
                keyed(self@),
                forall|i: int| 0 <= i < low ==> text::before(#[trigger] self@[i].key, key@),
                high < self@.len() ==> !text::before(self@[high as int].key, key@),
            decreases high - low,
        {
            let middle: usize = low + (high - low) / 2;
            assert(self@[middle as int].key == self.entries@[middle as int].key@);
            if text::is_before(self.entries[middle].key.as_str(), key) {
                proof {
                    assert forall|i: int| 0 <= i <= middle implies text::before(
                        #[trigger] self@[i].key,
                        key@,
                    ) by {
                        if i < middle {
                            assert(text::before(self@[i].key, self@[middle as int].key));
                            text::before_is_transitive(
                                self@[i].key,
                                self@[middle as int].key,
                                key@,
                            );
                        }
                    }
                }
                low = middle + 1;
            } else {
                high = middle;
            }
        }
        proof {
            slot_is(self@, key@, 0, low as int);
        }
        low
    }

    /// What is stored under a key, which counts as asked for now.
    pub fn get(&mut self, key: &str, now: u64) -> (r: Option<T>)
        requires
            keyed(old(self)@),
        ensures
            r.deep_view() == stored(old(self)@, key@),
            final(self)@ == touched(old(self)@, key@, now),
            keyed(final(self)@),
    {
        let at = self.find(key);
        proof {
            asking_keeps_what_is_stored(self@, key@, now, key@);
        }
        if at < self.entries.len() {
            assert(self@[at as int] == self.entries@[at as int].deep_view());
            if text::same(self.entries[at].key.as_str(), key) {
                let value = self.entries[at].value.duplicate();
                let again = self.entries[at].value.duplicate();
                let entry = Aged { key: key.to_owned(), value: again, seen: now };
                let ghost before = self@;
                self.entries.set(at, entry);
                proof {
                    assert(self@ =~= before.update(at as int, entry.deep_view()));
                }
                return Some(value);
            }
        }
        None
    }

    /// Store a value under a key, in place of what was there.
    pub fn put(&mut self, key: &str, value: T, now: u64)
        requires
            keyed(old(self)@),
        ensures
            final(self)@ == put(old(self)@, key@, value.deep_view(), now),
            keyed(final(self)@),
    {
        let at = self.find(key);
        proof {
            storing_is_found_again(self@, key@, value.deep_view(), now, key@);
        }
        let entry = Aged { key: key.to_owned(), value, seen: now };
        let ghost before = self@;
        if at < self.entries.len() {
            assert(self@[at as int] == self.entries@[at as int].deep_view());
            if text::same(self.entries[at].key.as_str(), key) {
                self.entries.set(at, entry);
                proof {
                    assert(self@ =~= before.update(at as int, entry.deep_view()));
                }
                return;
            }
        }
        self.entries.insert(at, entry);
        proof {
            assert(self@ =~= before.insert(at as int, entry.deep_view()));
        }
    }

    fn fresher(&self, line: u64) -> (r: Shelf<T>)
        ensures
            r@ == kept(self@, |e: AgedView<T::V>| e.seen >= line),
    {
        let ghost test = |e: AgedView<T::V>| e.seen >= line;
        let mut out: Vec<Aged<T>> = Vec::new();
        for i in 0..self.entries.len()
            invariant
                test == (|e: AgedView<T::V>| e.seen >= line),
                out.deep_view() == kept(self@.take(i as int), test),
        {
            let ghost so_far = out.deep_view();
            let entry = &self.entries[i];
            proof {
                assert(self@.take(i as int + 1).drop_last() =~= self@.take(i as int));
                assert(self@[i as int] == entry.deep_view());
            }
            if entry.seen >= line {
                let copy = Aged {
                    key: entry.key.duplicate(),
                    value: entry.value.duplicate(),
                    seen: entry.seen,
                };
                out.push(copy);
                proof {
                    assert(out.deep_view() =~= so_far.push(entry.deep_view()));
                }
            }
        }
        proof {
            assert(self@.take(self@.len() as int) =~= self@);
        }
        Shelf { entries: out }
    }

    /// Keep the most recently used entries when there are too many.
    pub fn newest(&mut self, keep: usize)
        requires
            keep > 0,
        ensures
            final(self)@ == newest_of(old(self)@, keep as nat),
    {
        if self.entries.len() <= keep {
            return;
        }
        let mut seen: Vec<u64> = Vec::new();
        for i in 0..self.entries.len()
            invariant
                seen@ == seen_times(self@).take(i as int),
        {
            seen.push(self.entries[i].seen);
            proof {
                assert(self@[i as int] == self.entries@[i as int].deep_view());
                assert(seen_times(self@).take(i as int + 1) =~= seen_times(self@).take(
                    i as int,
                ).push(self.entries@[i as int].seen));
            }
        }
        proof {
            assert(seen_times(self@).take(self@.len() as int) =~= seen_times(self@));
        }
        let ordered = in_sequence(&seen);
        proof {
            assert(ordered@.len() == seen@.len());
        }
        let line = ordered[ordered.len() - keep];
        let mut fresh: usize = 0;
        for i in 0..seen.len()
            invariant
                fresh == later(seen@.take(i as int), line),
                fresh <= i,
        {
            proof {
                assert(seen@.take(i as int + 1).drop_last() =~= seen@.take(i as int));
            }
            if seen[i] > line {
                fresh += 1;
            }
        }
        proof {
            assert(seen@.take(seen@.len() as int) =~= seen@);
            cutoff_counts(seen@, keep as nat);
        }
        let spare: usize = keep - fresh;
        let mut out: Vec<Aged<T>> = Vec::new();
        let mut ties: usize = 0;
        for i in 0..self.entries.len()
            invariant
                ties <= i,
                ties == level(seen_times(self@.take(i as int)), line),
                out.deep_view() == chosen(self@.take(i as int), line, spare as nat),
        {
            let ghost so_far = out.deep_view();
            let entry = &self.entries[i];
            proof {
                assert(self@.take(i as int + 1).drop_last() =~= self@.take(i as int));
                assert(seen_times(self@.take(i as int + 1)).drop_last() =~= seen_times(
                    self@.take(i as int),
                ));
                assert(self@[i as int] == entry.deep_view());
            }
            if entry.seen > line || (entry.seen == line && ties < spare) {
                let copy = Aged {
                    key: entry.key.duplicate(),
                    value: entry.value.duplicate(),
                    seen: entry.seen,
                };
                out.push(copy);
                proof {
                    assert(out.deep_view() =~= so_far.push(entry.deep_view()));
                }
            }
            if entry.seen == line {
                ties += 1;
            }
        }
        proof {
            assert(self@.take(self@.len() as int) =~= self@);
        }
        self.entries = out;
    }

    /// Drop what is too old, and what does not fit.
    pub fn prune(&mut self, oldest: u64)
        ensures
            final(self)@ == pruned(old(self)@, oldest),
    {
        let fresh = self.fresher(oldest);
        self.entries = fresh.entries;
        self.newest(MAX_ENTRIES);
    }
}

/// Numbers from the smallest to the largest.
fn in_sequence(numbers: &Vec<u64>) -> (r: Vec<u64>)
    ensures
        r@ == order::sorted(numbers@, |a: u64, b: u64| a < b),
        r@.len() == numbers@.len(),
{
    let ghost less = |a: u64, b: u64| a < b;
    let mut out: Vec<u64> = Vec::new();
    proof {
        assert(numbers@.take(0) =~= Seq::<u64>::empty());
        assert(out@ =~= order::sorted(numbers@.take(0), less));
    }
    for i in 0..numbers.len()
        invariant
            less == (|a: u64, b: u64| a < b),
            out@ == order::sorted(numbers@.take(i as int), less),
            out@.len() == i,
            forall|x: int, y: int| 0 <= x < y < out@.len() ==> out@[x] <= out@[y],
    {
        let n = numbers[i];
        let mut low: usize = 0;
        let mut high: usize = out.len();
        while low < high
            invariant
                low <= high <= out@.len(),
                forall|x: int, y: int| 0 <= x < y < out@.len() ==> out@[x] <= out@[y],
                forall|x: int| 0 <= x < low ==> out@[x] <= n,
                forall|x: int| high <= x < out@.len() ==> n < out@[x],
            decreases high - low,
        {
            let middle: usize = low + (high - low) / 2;
            if out[middle] <= n {
                low = middle + 1;
            } else {
                high = middle;
            }
        }
        proof {
            order::placed_at(out@, n, less, low as int);
            assert(numbers@.take(i as int + 1).drop_last() =~= numbers@.take(i as int));
            assert(numbers@.take(i as int + 1).last() == n);
        }
        out.insert(low, n);
    }
    proof {
        assert(numbers@.take(numbers@.len() as int) =~= numbers@);
    }
    out
}

/// What discovery remembers between scans.
#[derive(Clone, Debug)]
pub struct Index {
    pub sources: Shelf<Source>,
    pub variants: Shelf<Variant>,
    /// Whether anything was stored since the index was read.
    pub dirty: bool,
}

#[verifier::ext_equal]
pub struct IndexView {
    pub sources: Seq<AgedView<SourceView>>,
    pub variants: Seq<AgedView<VariantView>>,
    pub dirty: bool,
}

impl View for Index {
    type V = IndexView;

    open spec fn view(&self) -> IndexView {
        IndexView { sources: self.sources@, variants: self.variants@, dirty: self.dirty }
    }
}

impl IndexView {
    /// Both halves are in the order of their keys, no key twice.
    pub open spec fn wf(self) -> bool {
        keyed(self.sources) && keyed(self.variants)
    }
}

impl Index {
    pub fn empty() -> (r: Index)
        ensures
            r@ == (IndexView { sources: Seq::empty(), variants: Seq::empty(), dirty: false }),
            r@.wf(),
    {
        Index { sources: Shelf::empty(), variants: Shelf::empty(), dirty: false }
    }

    /// An index read back from its file. One of another version, like one that
    /// could not be read at all, starts empty.
    pub fn open(
        version: u32,
        sources: Vec<Aged<Source>>,
        variants: Vec<Aged<Variant>>,
    ) -> (r: Index)
        ensures
            r@.wf(),
            !r@.dirty,
            version != VERSION ==> r@.sources == Seq::<AgedView<SourceView>>::empty() && r@.variants
                == Seq::<AgedView<VariantView>>::empty(),
            version == VERSION ==> r@.sources == collected(sources.deep_view()) && r@.variants
                == collected(variants.deep_view()),
    {
        if version != VERSION {
            return Index::empty();
        }
        Index { sources: collect(sources), variants: collect(variants), dirty: false }
    }

    pub fn source(&mut self, key: &str, now: u64) -> (r: Option<Source>)
        requires
            old(self)@.wf(),
        ensures
            r.deep_view() == stored(old(self)@.sources, key@),
            final(self)@ == (IndexView {
                sources: touched(old(self)@.sources, key@, now),
                ..old(self)@
            }),
            final(self)@.wf(),
    {
        self.sources.get(key, now)
    }

    pub fn put_source(&mut self, key: &str, value: Source, now: u64)
        requires
            old(self)@.wf(),
        ensures
            final(self)@ == (IndexView {
                sources: put(old(self)@.sources, key@, value@, now),
                dirty: true,
                ..old(self)@
            }),
            final(self)@.wf(),
    {
        self.sources.put(key, value, now);
        self.dirty = true;
    }

    pub fn variant(&mut self, key: &str, now: u64) -> (r: Option<Variant>)
        requires
            old(self)@.wf(),
        ensures
            r.deep_view() == stored(old(self)@.variants, key@),
            final(self)@ == (IndexView {
                variants: touched(old(self)@.variants, key@, now),
                ..old(self)@
            }),
            final(self)@.wf(),
    {
        self.variants.get(key, now)
    }

    pub fn put_variant(&mut self, key: &str, value: Variant, now: u64)
        requires
            old(self)@.wf(),
        ensures
            final(self)@ == (IndexView {
                variants: put(old(self)@.variants, key@, value@, now),
                dirty: true,
                ..old(self)@
            }),
            final(self)@.wf(),
    {
        self.variants.put(key, value, now);
        self.dirty = true;
    }

    /// Make the index ready to be written back, if there is anything to write:
    /// what is too old or does not fit is dropped.
    pub fn save(&mut self, now: u64) -> (r: bool)
        ensures
            r == old(self)@.dirty,
            !r ==> final(self)@ == old(self)@,
            r ==> final(self)@ == (IndexView {
                sources: pruned(
                    old(self)@.sources,
                    if now >= MAX_AGE {
                        (now - MAX_AGE) as u64
                    } else {
                        0
                    },
                ),
                variants: pruned(
                    old(self)@.variants,
                    if now >= MAX_AGE {
                        (now - MAX_AGE) as u64
                    } else {
                        0
                    },
                ),
                dirty: false,
            }),
    {
        if !self.dirty {
            return false;
        }
        let oldest: u64 = if now >= MAX_AGE {
            now - MAX_AGE
        } else {
            0
        };
        self.sources.prune(oldest);
        self.variants.prune(oldest);
        self.dirty = false;
        true
    }
}

/// Entries put in one after the other.
pub open spec fn collected<V>(s: Seq<AgedView<V>>) -> Seq<AgedView<V>>
    decreases s.len(),
{
    if s.len() == 0 {
        s
    } else {
        put(collected(s.drop_last()), s.last().key, s.last().value, s.last().seen)
    }
}

fn collect<T: Duplicate>(entries: Vec<Aged<T>>) -> (r: Shelf<T>)
    ensures
        r@ == collected(entries.deep_view()),
        keyed(r@),
{
    let mut out: Shelf<T> = Shelf::empty();
    proof {
        assert(entries.deep_view().take(0) =~= Seq::<AgedView<T::V>>::empty());
    }
    for i in 0..entries.len()
        invariant
            out@ == collected(entries.deep_view().take(i as int)),
            keyed(out@),
    {
        let entry = &entries[i];
        proof {
            assert(entries.deep_view().take(i as int + 1).drop_last()
                =~= entries.deep_view().take(i as int));
            assert(entries.deep_view()[i as int] == entry.deep_view());
        }
        out.put(entry.key.as_str(), entry.value.duplicate(), entry.seen);
    }
    proof {
        assert(entries.deep_view().take(entries@.len() as int) =~= entries.deep_view());
    }
    out
}

/// The time, in seconds since the epoch.
pub fn now() -> (r: u64) {
    crate::history::now()
}

} // verus!
