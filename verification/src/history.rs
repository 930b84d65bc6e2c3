//! What was copied, when, and whether it arrived.
//!
//! Every copy is verified and nothing is ever overwritten; this is the record
//! of it: append-only, one line per book, readable by eye and by machine.
//! Writing it is a courtesy, never a condition.
use crate::books::Place;
use crate::paths;
use crate::text;
use crate::values::Duplicate;
use vstd::arithmetic::div_mod::{lemma_fundamental_div_mod, lemma_fundamental_div_mod_converse};
use vstd::prelude::*;

pub mod laws;

verus! {

broadcast use vstd::string::group_string_axioms;

/// One copy, as it happened.
#[derive(Clone, Debug, PartialEq, Eq)]
pub struct Entry {
    /// Seconds since the epoch, so the file does not depend on a time zone.
    pub at: u64,
    pub title: String,
    pub author: String,
    pub from: Place,
    pub to: Place,
    pub bytes: u64,
    /// Whether the book arrived. A failure is kept: it is the half of the
    /// record you go looking for.
    pub ok: bool,
    /// What was reported, whether that was where it landed or what went wrong.
    pub detail: String,
}

#[verifier::ext_equal]
pub struct EntryView {
    pub at: u64,
    pub title: Seq<char>,
    pub author: Seq<char>,
    pub from: Place,
    pub to: Place,
    pub bytes: u64,
    pub ok: bool,
    pub detail: Seq<char>,
}

impl View for Entry {
    type V = EntryView;

    open spec fn view(&self) -> EntryView {
        EntryView {
            at: self.at,
            title: self.title@,
            author: self.author@,
            from: self.from,
            to: self.to,
            bytes: self.bytes,
            ok: self.ok,
            detail: self.detail@,
        }
    }
}

impl DeepView for Entry {
    type V = EntryView;

    open spec fn deep_view(&self) -> EntryView {
        self@
    }
}

impl Duplicate for Entry {
    fn duplicate(&self) -> (r: Entry) {
        Entry {
            at: self.at,
            title: self.title.duplicate(),
            author: self.author.duplicate(),
            from: self.from,
            to: self.to,
            bytes: self.bytes,
            ok: self.ok,
            detail: self.detail.duplicate(),
        }
    }
}

/// Keep a long tail, but not an unbounded one. Older lines are dropped from the
/// front when the record passes this.
pub const MAX_ENTRIES: usize = 5000;

/// `std::time::SystemTime::now` in seconds since the epoch, and nothing before
/// it. Nothing is stated of it: it is another each time.
#[verifier::external_body]
pub fn now() -> (r: u64) {
    std::time::SystemTime::now()
        .duration_since(std::time::UNIX_EPOCH)
        .map(|elapsed| elapsed.as_secs())
        .unwrap_or_default()
}

/// Where the record is kept: in the folder for state that was chosen, when that
/// is a full path, and otherwise in the usual one below home. A record is not a
/// cache: it is not disposable, so it does not live with the things that are.
pub open spec fn record_path(state: Option<Seq<char>>, home: Seq<char>) -> Seq<char> {
    let base = match state {
        Some(state) if paths::absolute(state) => state,
        _ => paths::below(home, ".local/state"@),
    };
    paths::below(paths::below(base, "crossload"@), "history.jsonl"@)
}

pub fn default_path(state: &Option<String>, home: &Option<String>) -> (r: Option<String>)
    ensures
        r.deep_view() == match home {
            Some(home) => Some(record_path(state.deep_view(), home@)),
            None => None,
        },
{
    let home = match home {
        Some(home) => home,
        None => return None,
    };
    let usual = paths::resolve(home.as_str(), ".local/state");
    let base = match state {
        Some(state) => if paths::is_absolute(state.as_str()) {
            state.duplicate()
        } else {
            usual
        },
        None => usual,
    };
    let folder = paths::resolve(base.as_str(), "crossload");
    Some(paths::resolve(folder.as_str(), "history.jsonl"))
}

/// Whether a year has a leap day.
pub open spec fn leap(y: int) -> bool {
    y % 4 == 0 && (y % 100 != 0 || y % 400 == 0)
}

pub open spec fn year_days(y: int) -> int {
    if leap(y) {
        366
    } else {
        365
    }
}

pub open spec fn month_days(y: int, m: int) -> int {
    if m == 2 {
        if leap(y) {
            29
        } else {
            28
        }
    } else if m == 4 || m == 6 || m == 9 || m == 11 {
        30
    } else {
        31
    }
}

/// The year so many days after the start of year `y`, and the days left in it.
pub open spec fn year_after(days: int, y: int) -> (int, int)
    decreases days,
{
    if days < year_days(y) {
        (y, days)
    } else {
        year_after(days - year_days(y), y + 1)
    }
}

/// The month and the day of it so many days after the start of month `m`.
pub open spec fn month_after(days: int, y: int, m: int) -> (int, int)
    decreases 12 - m,
{
    if m >= 12 || days < month_days(y, m) {
        (m, days + 1)
    } else {
        month_after(days - month_days(y, m), y, m + 1)
    }
}

/// A number in so many digits at least.
pub open spec fn digits(n: int, width: nat) -> Seq<char> {
    text::filled(text::decimal(n as nat), width)
}

/// The date and time so many seconds after the epoch, in UTC: years and months
/// are counted off one by one.
pub open spec fn stamped(at: u64) -> Seq<char> {
    let (year, rest) = year_after(at as int / 86400, 1970);
    let (month, day) = month_after(rest, year, 1);
    let seconds = at as int % 86400;
    digits(year, 4) + "-"@ + digits(month, 2) + "-"@ + digits(day, 2) + " "@ + digits(
        seconds / 3600,
        2,
    ) + ":"@ + digits((seconds % 3600) / 60, 2)
}

/// How many leap days there are before a year.
#[verifier::opaque]
spec fn leaps_before(y: int) -> int {
    (y - 1) / 4 - (y - 1) / 100 + (y - 1) / 400
}

/// The days of `n` years from year `y` on.
spec fn span(y: int, n: nat) -> int
    decreases n,
{
    if n == 0 {
        0
    } else {
        span(y, (n - 1) as nat) + year_days(y + n - 1)
    }
}

/// How often a number of years holds `d` years goes up by one at every year
/// that `d` divides.
proof fn steps(x: int, d: int)
    requires
        d > 1,
    ensures
        x / d - (x - 1) / d == if x % d == 0 {
            1int
        } else {
            0
        },
{
    lemma_fundamental_div_mod(x, d);
    let q = x / d;
    let r = x % d;
    assert(d * q == q * d) by (nonlinear_arith);
    if r == 0 {
        assert(x - 1 == (q - 1) * d + (d - 1)) by (nonlinear_arith)
            requires
                x == q * d,
        ;
        lemma_fundamental_div_mod_converse(x - 1, d, q - 1, d - 1);
    } else {
        lemma_fundamental_div_mod_converse(x - 1, d, q, r - 1);
    }
}

/// After 400 years, `d` years have gone by `n` times more.
proof fn shifts(x: int, d: int, n: int)
    requires
        d > 1,
        n * d == 400,
    ensures
        (x + 400) / d == x / d + n,
{
    lemma_fundamental_div_mod(x, d);
    let q = x / d;
    assert(x + 400 == (q + n) * d + x % d) by (nonlinear_arith)
        requires
            x == d * q + x % d,
            n * d == 400,
    ;
    lemma_fundamental_div_mod_converse(x + 400, d, q + n, x % d);
}

/// How the count of leap days goes on after a year, and after 400 years.
proof fn leaps_go_on(y: int)
    ensures
        leaps_before(y + 1) == leaps_before(y) + if leap(y) {
            1int
        } else {
            0
        },
        leaps_before(y + 400) == leaps_before(y) + 97,
{
    reveal(leaps_before);
    steps(y, 4);
    steps(y, 100);
    steps(y, 400);
    shifts(y - 1, 4, 100);
    shifts(y - 1, 100, 4);
    shifts(y - 1, 400, 1);
    assert(y % 100 == 0 ==> y % 4 == 0);
    assert(y % 400 == 0 ==> y % 100 == 0);
}

proof fn span_counts(y: int, n: nat)
    requires
        y >= 1,
    ensures
        span(y, n) == 365 * n + leaps_before(y + n) - leaps_before(y),
    decreases n,
{
    if n > 0 {
        span_counts(y, (n - 1) as nat);
        leaps_go_on(y + n - 1);
    }
}

proof fn years_pass(days: int, y: int, n: nat)
    requires
        span(y, n) <= days,
    ensures
        year_after(days, y) == year_after(days - span(y, n), y + n),
    decreases n,
{
    if n > 0 {
        years_pass(days, y, (n - 1) as nat);
    }
}

/// Every 400 years the calendar starts over.
proof fn cycles_pass(days: int, y: int, n: nat)
    requires
        y >= 1,
        146097 * n <= days,
    ensures
        year_after(days, y) == year_after(days - 146097 * n, y + 400 * n),
    decreases n,
{
    if n > 0 {
        cycles_pass(days, y, (n - 1) as nat);
        let z = y + 400 * (n - 1);
        span_counts(z, 400);
        leaps_go_on(z);
        years_pass(days - 146097 * (n - 1), z, 400);
    }
}

fn is_leap(y: u64) -> (r: bool)
    ensures
        r == leap(y as int),
{
    y % 4 == 0 && (y % 100 != 0 || y % 400 == 0)
}

fn digits_of(n: u64, width: usize) -> (r: String)
    ensures
        r@ == digits(n as int, width as nat),
{
    text::fill(text::number(n), width)
}

/// Civil date and time from a count of seconds, in UTC. This is the only date
/// arithmetic in the program.
pub fn stamp(at: u64) -> (r: String)
    ensures
        r@ == stamped(at),
{
    let days: u64 = at / 86400;
    let seconds: u64 = at % 86400;
    let cycles: u64 = days / 146097;
    let mut rest: u64 = days % 146097;
    let mut year: u64 = 1970 + 400 * cycles;
    proof {
        cycles_pass(days as int, 1970, cycles as nat);
    }
    let mut long: u64 = if is_leap(year) {
        366
    } else {
        365
    };
    while rest >= long
        invariant
            rest <= 146097,
            year + rest <= 1000000000000000,
            long == year_days(year as int),
            year_after(days as int, 1970) == year_after(rest as int, year as int),
        decreases rest,
    {
        rest -= long;
        year += 1;
        long = if is_leap(year) {
            366
        } else {
            365
        };
    }
    let mut month: u64 = 1;
    let ghost left = rest as int;
    let mut length: u64 = 31;
    while month < 12 && rest >= length
        invariant
            1 <= month <= 12,
            rest <= 366,
            length == month_days(year as int, month as int),
            month_after(left, year as int, 1) == month_after(
                rest as int,
                year as int,
                month as int,
            ),
        decreases 12 - month,
    {
        rest -= length;
        month += 1;
        length = if month == 2 {
            if is_leap(year) {
                29
            } else {
                28
            }
        } else if month == 4 || month == 6 || month == 9 || month == 11 {
            30
        } else {
            31
        };
    }
    let date = text::concat5(
        digits_of(year, 4).as_str(),
        "-",
        digits_of(month, 2).as_str(),
        "-",
        digits_of(rest + 1, 2).as_str(),
    );
    text::concat5(
        date.as_str(),
        " ",
        digits_of(seconds / 3600, 2).as_str(),
        ":",
        digits_of((seconds % 3600) / 60, 2).as_str(),
    )
}

proof fn months_are_months(days: int, y: int, m: int)
    requires
        1 <= m <= 12,
        0 <= days,
        days < days_from(y, m),
    ensures
        m <= month_after(days, y, m).0 <= 12,
        1 <= month_after(days, y, m).1 <= month_days(y, month_after(days, y, m).0),
    decreases 12 - m,
{
    reveal_with_fuel(days_from, 2);
    if m < 12 && days >= month_days(y, m) {
        months_are_months(days - month_days(y, m), y, m + 1);
    }
}

/// The days of a year from month `m` on.
spec fn days_from(y: int, m: int) -> int
    decreases 13 - m,
{
    if m > 12 {
        0
    } else {
        month_days(y, m) + days_from(y, m + 1)
    }
}

proof fn years_are_years(days: int, y: int)
    requires
        0 <= days,
    ensures
        y <= year_after(days, y).0,
        0 <= year_after(days, y).1 < year_days(year_after(days, y).0),
    decreases days,
{
    if days >= year_days(y) {
        years_are_years(days - year_days(y), y + 1);
    }
}

/// Whatever the time, it is stamped with a date that is in the calendar.
pub proof fn stamps_are_dates(at: u64)
    ensures
        ({
            let (year, rest) = year_after(at as int / 86400, 1970);
            let (month, day) = month_after(rest, year, 1);
            &&& year >= 1970
            &&& 1 <= month <= 12
            &&& 1 <= day <= month_days(year, month)
        }),
{
    let (year, rest) = year_after(at as int / 86400, 1970);
    years_are_years(at as int / 86400, 1970);
    reveal_with_fuel(days_from, 14);
    months_are_months(rest, year, 1);
}

/// The record with one line more: at the limit, the oldest lines make room.
pub open spec fn recorded(lines: Seq<Seq<char>>, line: Seq<char>) -> Seq<Seq<char>> {
    if lines.len() >= MAX_ENTRIES {
        lines.skip(lines.len() + 1 - MAX_ENTRIES).push(line)
    } else {
        lines.push(line)
    }
}

/// The record never grows past its limit, and the newest line is its last.
pub proof fn the_record_is_bounded(lines: Seq<Seq<char>>, line: Seq<char>)
    ensures
        recorded(lines, line).len() <= MAX_ENTRIES,
        recorded(lines, line).last() == line,
{
}

/// Lines written one below the other.
pub open spec fn written(lines: Seq<Seq<char>>) -> Seq<char>
    decreases lines.len(),
{
    if lines.len() == 0 {
        Seq::empty()
    } else {
        written(lines.drop_last()) + lines.last() + "\n"@
    }
}

/// Whether a line holds anything.
pub open spec fn kept_line(line: Seq<char>) -> bool {
    text::trimmed(line).len() > 0
}

/// The lines of the record that hold anything.
pub fn read_lines(lines: Vec<String>) -> (r: Vec<String>)
    ensures
        r.deep_view() == crate::order::kept(lines.deep_view(), |line: Seq<char>| kept_line(line)),
{
    let ghost all = lines.deep_view();
    let ghost test = |line: Seq<char>| kept_line(line);
    let mut out: Vec<String> = Vec::new();
    proof {
        assert(all.take(0) =~= Seq::<Seq<char>>::empty());
        assert(out.deep_view() =~= Seq::<Seq<char>>::empty());
    }
    for i in 0..lines.len()
        invariant
            all == lines.deep_view(),
            test == (|line: Seq<char>| kept_line(line)),
            out.deep_view() == crate::order::kept(all.take(i as int), test),
    {
        let ghost so_far = out.deep_view();
        proof {
            assert(all.take(i as int + 1).drop_last() =~= all.take(i as int));
            assert(all[i as int] == lines@[i as int]@);
        }
        if !text::trim(lines[i].as_str()).as_str().is_empty() {
            out.push(lines[i].duplicate());
            proof {
                assert(out.deep_view() =~= so_far.push(all[i as int]));
            }
        }
    }
    proof {
        assert(all.take(all.len() as int) =~= all);
    }
    out
}

/// What the record is rewritten to when a line is added that it has no room
/// for; nothing when the line can simply be added. Trimming rewrites the whole
/// record, so it is done only at the limit rather than on every copy.
pub fn record(lines: &Vec<String>, line: &str) -> (r: Option<String>)
    ensures
        r.deep_view() == if lines@.len() >= MAX_ENTRIES {
            Some(written(recorded(lines.deep_view(), line@)))
        } else {
            None
        },
{
    if lines.len() < MAX_ENTRIES {
        return None;
    }
    let ghost all = recorded(lines.deep_view(), line@);
    let from: usize = lines.len() - MAX_ENTRIES + 1;
    let mut out = String::new();
    proof {
        assert(all.take(0) =~= Seq::<Seq<char>>::empty());
        assert(out@ =~= Seq::<char>::empty());
    }
    for i in from..lines.len()
        invariant
            from == lines@.len() + 1 - MAX_ENTRIES,
            lines@.len() >= MAX_ENTRIES,
            all == recorded(lines.deep_view(), line@),
            out@ == written(all.take(i - from)),
    {
        proof {
            assert(all.take(i - from + 1).drop_last() =~= all.take(i - from));
            assert(all[i - from] == lines.deep_view()[i as int]);
        }
        out.push_str(lines[i].as_str());
        out.push_str("\n");
    }
    out.push_str(line);
    out.push_str("\n");
    proof {
        assert(all.drop_last() =~= all.take(all.len() - 1));
    }
    Some(out)
}

/// The most recent lines, newest last, as the record reads.
pub fn read(lines: Vec<String>, limit: usize) -> (r: Vec<String>)
    ensures
        r.deep_view() == if lines@.len() > limit {
            lines.deep_view().skip(lines@.len() - limit)
        } else {
            lines.deep_view()
        },
{
    let from: usize = if lines.len() > limit {
        lines.len() - limit
    } else {
        0
    };
    let ghost all = lines.deep_view();
    let mut out: Vec<String> = Vec::new();
    proof {
        assert(out.deep_view() =~= all.subrange(from as int, from as int));
    }
    for i in from..lines.len()
        invariant
            all == lines.deep_view(),
            from <= lines@.len(),
            out.deep_view() == all.subrange(from as int, i as int),
    {
        let ghost so_far = out.deep_view();
        out.push(lines[i].duplicate());
        proof {
            assert(all[i as int] == lines@[i as int]@);
            assert(out.deep_view() =~= so_far.push(all[i as int]));
            assert(all.subrange(from as int, i as int + 1) =~= so_far.push(all[i as int]));
        }
    }
    proof {
        assert(all.subrange(from as int, all.len() as int) =~= all.skip(from as int));
        assert(all.skip(0) =~= all);
    }
    out
}

} // verus!
