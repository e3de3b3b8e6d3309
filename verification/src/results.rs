//! The check-in log view: how many days it spans, where it starts, and which stored
//! records it shows, newest first.

use vstd::prelude::*;
use crate::text::chars_of;

verus! {

/// The number of days shown: 30 when none is asked for, and never less than 1 or more
/// than 90 (the log keeps 90 days).
pub open spec fn window_days(days: Option<i64>) -> int {
    let d = match days {
        Some(d) => d as int,
        None => 30,
    };
    if d < 1 {
        1
    } else if d > 90 {
        90
    } else {
        d
    }
}

/// The number of days the check-in log view spans.
pub fn results_window_days(days: Option<i64>) -> (r: i64)
    ensures
        r as int == window_days(days),
        1 <= r <= 90,
{
    let d = match days {
        Some(d) => d,
        None => 30,
    };
    if d < 1 {
        1
    } else if d > 90 {
        90
    } else {
        d
    }
}

/// What `chrono` gives for the calendar date `year-month-day` minus `days` days, written
/// `%Y-%m-%d`; `None` when the date does not exist or the result is out of range.
pub uninterp spec fn chrono_days_before(year: i32, month: u32, day: u32, days: i64) -> Option<Seq<char>>;

/// `chrono::NaiveDate::from_ymd_opt`, `NaiveDate::checked_sub_signed` with
/// `TimeDelta::days`, and `format("%Y-%m-%d")`. The result is named by
/// `chrono_days_before`; the calendar arithmetic is left unsaid here. `TimeDelta::days`
/// panics beyond ±106751991167 days, which `requires` leaves out.
#[verifier::external_body]
fn iso_date_days_before(year: i32, month: u32, day: u32, days: i64) -> (r: Option<String>)
    requires
        -106_751_991_167 <= days <= 106_751_991_167,
    ensures
        match r {
            Some(s) => chrono_days_before(year, month, day, days) == Some(s@),
            None => chrono_days_before(year, month, day, days) is None,
        },
{
    match chrono::NaiveDate::from_ymd_opt(year, month, day) {
        Some(date) => match date.checked_sub_signed(chrono::TimeDelta::days(days)) {
            Some(cut) => Some(cut.format("%Y-%m-%d").to_string()),
            None => None,
        },
        None => None,
    }
}

/// The first date shown (`%Y-%m-%d`): today minus the window; `None` when `chrono` cannot
/// represent it.
pub fn checkin_results_cutoff(year: i32, month: u32, day: u32, days: Option<i64>) -> (r: Option<String>)
    ensures
        match r {
            Some(s) => chrono_days_before(year, month, day, window_days(days) as i64) == Some(s@),
            None => chrono_days_before(year, month, day, window_days(days) as i64) is None,
        },
{
    let w = results_window_days(days);
    iso_date_days_before(year, month, day, w)
}

/// `a < b` on strings: lexicographic order of the characters (the byte order of UTF-8).
pub open spec fn text_less(a: Seq<char>, b: Seq<char>) -> bool
    decreases a.len(),
{
    if a.len() == 0 {
        b.len() > 0
    } else if b.len() == 0 {
        false
    } else if a[0] != b[0] {
        (a[0] as u32) < (b[0] as u32)
    } else {
        text_less(a.drop_first(), b.drop_first())
    }
}

/// `a` comes before `b` at position `i`: they agree before `i`, and there `a` ends while
/// `b` goes on, or `a` has the smaller character.
pub open spec fn less_at(a: Seq<char>, b: Seq<char>, i: int) -> bool {
    &&& 0 <= i <= a.len()
    &&& i <= b.len()
    &&& a.take(i) == b.take(i)
    &&& (i == a.len() && i < b.len()) || (i < a.len() && i < b.len() && (a[i] as u32) < (
    b[i] as u32))
}

/// The string order is the lexicographic order of the characters: `a < b` exactly when,
/// at the first position where they part, `a` has ended or has the smaller character.
pub proof fn law_text_less_lexicographic(a: Seq<char>, b: Seq<char>)
    ensures
        text_less(a, b) <==> exists|i: int| #[trigger] less_at(a, b, i),
    decreases a.len(),
{
    if a.len() == 0 {
        if b.len() > 0 {
            assert(a.take(0) =~= b.take(0));
            assert(less_at(a, b, 0));
        }
    } else if b.len() == 0 {
    } else if a[0] != b[0] {
        assert(a.take(0) =~= b.take(0));
        if (a[0] as u32) < (b[0] as u32) {
            assert(less_at(a, b, 0));
        }
        assert forall|i: int| !less_at(a, b, i) || i == 0 by {
            if less_at(a, b, i) && i > 0 {
                assert(a.take(i)[0] == b.take(i)[0]);
            }
        }
    } else {
        let a1 = a.drop_first();
        let b1 = b.drop_first();
        law_text_less_lexicographic(a1, b1);
        if text_less(a1, b1) {
            let i = choose|i: int| #[trigger] less_at(a1, b1, i);
            assert(a.take(i + 1) =~= seq![a[0]] + a1.take(i));
            assert(b.take(i + 1) =~= seq![b[0]] + b1.take(i));
            assert(less_at(a, b, i + 1));
        }
        assert forall|i: int| less_at(a, b, i) implies less_at(a1, b1, i - 1) by {
            if i == 0 {
                assert(a.len() > 0 && b.len() > 0);
                assert((a[0] as u32) < (b[0] as u32));
            }
            assert(a1.take(i - 1) =~= a.take(i).drop_first());
            assert(b1.take(i - 1) =~= b.take(i).drop_first());
            if i < a.len() {
                assert(a1[i - 1] == a[i]);
            }
            if i < b.len() {
                assert(b1[i - 1] == b[i]);
            }
        }
    }
}

/// Whether `a < b` as strings.
pub fn str_less(a: &str, b: &str) -> (r: bool)
    ensures
        r == text_less(a@, b@),
{
    let av = chars_of(a);
    let bv = chars_of(b);
    let mut i: usize = 0;
    assert(av@.skip(0) =~= av@);
    assert(bv@.skip(0) =~= bv@);
    loop
        invariant
            i <= av.len(),
            i <= bv.len(),
            av@ == a@,
            bv@ == b@,
            text_less(av@.skip(i as int), bv@.skip(i as int)) == text_less(a@, b@),
        decreases av.len() - i,
    {
        let ghost sa = av@.skip(i as int);
        let ghost sb = bv@.skip(i as int);
        if i == av.len() {
            return i < bv.len();
        }
        if i == bv.len() {
            return false;
        }
        if av[i] != bv[i] {
            assert(sa[0] == av@[i as int] && sb[0] == bv@[i as int]);
            return (av[i] as u32) < (bv[i] as u32);
        }
        assert(sa.drop_first() =~= av@.skip(i + 1));
        assert(sb.drop_first() =~= bv@.skip(i + 1));
        i += 1;
    }
}

/// The positions of the records dated on or after `cutoff`, among the first `n`, newest
/// (last stored) first.
pub open spec fn recent_positions(dates: Seq<Seq<char>>, cutoff: Seq<char>, n: int) -> Seq<usize>
    decreases n,
{
    if n <= 0 {
        Seq::empty()
    } else {
        let rest = recent_positions(dates, cutoff, n - 1);
        if !text_less(dates[n - 1], cutoff) {
            seq![(n - 1) as usize] + rest
        } else {
            rest
        }
    }
}

/// The stored records to show, given their dates in stored order: those dated on or after
/// `cutoff` (as strings compare), newest first. A record without a date has the empty
/// date and is never shown.
pub fn recent_record_positions(dates: &Vec<String>, cutoff: &str) -> (r: Vec<usize>)
    ensures
        r@ == recent_positions(dates.deep_view(), cutoff@, dates@.len() as int),
{
    let mut out: Vec<usize> = Vec::new();
    let mut k: usize = 0;
    while k < dates.len()
        invariant
            k <= dates.len(),
            out@ + recent_positions(dates.deep_view(), cutoff@, (dates.len() - k) as int)
                == recent_positions(dates.deep_view(), cutoff@, dates@.len() as int),
        decreases dates.len() - k,
    {
        let n = dates.len() - k;
        let ghost before = out@;
        assert(dates.deep_view()[n - 1] == dates@[n - 1]@);
        if !str_less(dates[n - 1].as_str(), cutoff) {
            out.push(n - 1);
            assert(out@ + recent_positions(dates.deep_view(), cutoff@, n - 1) =~= before
                + recent_positions(dates.deep_view(), cutoff@, n as int));
        }
        k += 1;
    }
    assert(out@ + recent_positions(dates.deep_view(), cutoff@, 0) =~= out@);
    out
}

proof fn lemma_recent_positions(dates: Seq<Seq<char>>, cutoff: Seq<char>, n: int)
    requires
        0 <= n <= dates.len(),
        dates.len() <= usize::MAX,
    ensures
        forall|i: int|
            0 <= i < recent_positions(dates, cutoff, n).len() ==> {
                let k = #[trigger] recent_positions(dates, cutoff, n)[i];
                k < n && !text_less(dates[k as int], cutoff)
            },
        forall|i: int, j: int|
            0 <= i < j < recent_positions(dates, cutoff, n).len() ==> recent_positions(
                dates,
                cutoff,
                n,
            )[i] > recent_positions(dates, cutoff, n)[j],
        forall|k: int|
            0 <= k < n && !text_less(dates[k], cutoff) ==> #[trigger] recent_positions(
                dates,
                cutoff,
                n,
            ).contains(k as usize),
    decreases n,
{
    if n > 0 {
        lemma_recent_positions(dates, cutoff, n - 1);
        let rest = recent_positions(dates, cutoff, n - 1);
        let r = recent_positions(dates, cutoff, n);
        let last = dates[n - 1];
        if !text_less(last, cutoff) {
            assert(r == seq![(n - 1) as usize] + rest);
            assert forall|i: int| 0 <= i < r.len() implies {
                let k = #[trigger] r[i];
                k < n && !text_less(dates[k as int], cutoff)
            } by {
                if i > 0 {
                    assert(r[i] == rest[i - 1]);
                }
            }
            assert forall|i: int, j: int| 0 <= i < j < r.len() implies r[i] > r[j] by {
                assert(r[j] == rest[j - 1]);
                if i > 0 {
                    assert(r[i] == rest[i - 1]);
                }
            }
            assert forall|k: int| 0 <= k < n && !text_less(dates[k], cutoff) implies #[trigger] r.contains(
                k as usize,
            ) by {
                if k == n - 1 {
                    assert(r[0] == k as usize);
                } else {
                    assert(rest.contains(k as usize));
                    let i = choose|i: int| 0 <= i < rest.len() && rest[i] == k as usize;
                    assert(r[i + 1] == rest[i]);
                }
            }
        } else {
            assert forall|k: int| 0 <= k < n && !text_less(dates[k], cutoff) implies #[trigger] r.contains(
                k as usize,
            ) by {
                assert(k != n - 1);
                assert(rest.contains(k as usize));
            }
        }
    }
}

/// The records shown are exactly the stored ones dated on or after the cutoff, each once,
/// newest (last stored) first: every position in the result holds such a record, the
/// positions strictly decrease, and every record dated on or after the cutoff is there,
/// two records of the same date included.
pub proof fn law_recent_records_exact(dates: Seq<Seq<char>>, cutoff: Seq<char>)
    requires
        dates.len() <= usize::MAX,
    ensures
        forall|i: int|
            0 <= i < recent_positions(dates, cutoff, dates.len() as int).len() ==> {
                let k = #[trigger] recent_positions(dates, cutoff, dates.len() as int)[i];
                k < dates.len() && !text_less(dates[k as int], cutoff)
            },
        forall|i: int, j: int|
            0 <= i < j < recent_positions(dates, cutoff, dates.len() as int).len()
                ==> recent_positions(dates, cutoff, dates.len() as int)[i] > recent_positions(
                dates,
                cutoff,
                dates.len() as int,
            )[j],
        forall|k: int|
            0 <= k < dates.len() && !text_less(dates[k], cutoff) ==> #[trigger] recent_positions(
                dates,
                cutoff,
                dates.len() as int,
            ).contains(k as usize),
{
    lemma_recent_positions(dates, cutoff, dates.len() as int);
}

} // verus!
