//! Retention policy: given a volume's date-labelled snapshot history, which
//! snapshots are redundant and may be deleted, and whether a snapshot must
//! be created today.

use vstd::prelude::*;

use crate::dates::{
    date_lt, date_lt_exec, date_wf, day_number, days_between, parse_date, spec_parse_date,
    spec_week_of_year, week_of_year, Date,
};
use crate::reconcile::{is_dated_snap_of, spec_snap_label};
use crate::text::{find_char, is_prefix, lemma_first_index_of, push_char, starts_with, str_eq};

verus! {

/// One date-labelled snapshot of the volume under evaluation.
pub struct RetentionEntry {
    pub date: Date,
    pub snapshot: String,
}

/// The mathematical image of an entry.
pub struct RetentionEntryView {
    pub date: Date,
    pub snapshot: Seq<char>,
}

impl View for RetentionEntry {
    type V = RetentionEntryView;

    open spec fn view(&self) -> RetentionEntryView {
        RetentionEntryView { date: self.date, snapshot: self.snapshot@ }
    }
}

/// The views of a list of entries.
pub open spec fn evs(s: Seq<RetentionEntry>) -> Seq<RetentionEntryView> {
    s.map_values(|x: RetentionEntry| x@)
}

/// Strictly ascending dates: each calendar day appears at most once.
pub open spec fn entries_sorted(s: Seq<RetentionEntryView>) -> bool {
    forall|i: int, j: int|
        0 <= i < j < s.len() ==> date_lt((#[trigger] s[i]).date, (#[trigger] s[j]).date)
}

pub open spec fn entries_wf(s: Seq<RetentionEntryView>) -> bool {
    forall|i: int|
        0 <= i < s.len() ==> date_wf((#[trigger] s[i]).date) && s[i].date.year <= 9999
}

/// The position a date has or would get in a date-sorted entry list: the
/// first index whose date is not below `d`.
pub open spec fn spec_date_pos(s: Seq<RetentionEntryView>, d: Date) -> int
    decreases s.len(),
{
    if s.len() == 0 {
        0
    } else if !date_lt(s[0].date, d) {
        0
    } else {
        1 + spec_date_pos(s.skip(1), d)
    }
}

pub proof fn lemma_date_pos_is(s: Seq<RetentionEntryView>, d: Date, p: int)
    requires
        0 <= p <= s.len(),
        forall|j: int| 0 <= j < p ==> date_lt((#[trigger] s[j]).date, d),
        p < s.len() ==> !date_lt(s[p].date, d),
    ensures
        spec_date_pos(s, d) == p,
    decreases s.len(),
{
    if p > 0 {
        assert forall|j: int| 0 <= j < p - 1 implies date_lt(
            (#[trigger] s.skip(1)[j]).date,
            d,
        ) by {
            assert(s.skip(1)[j] == s[j + 1]);
        }
        if p - 1 < s.skip(1).len() {
            assert(s.skip(1)[p - 1] == s[p]);
        }
        lemma_date_pos_is(s.skip(1), d, p - 1);
    }
}

/// Recording a snapshot for a date: a new date is inserted in order; a
/// date already present keeps the later-recorded snapshot name.
pub open spec fn spec_record_entry(
    s: Seq<RetentionEntryView>,
    e: RetentionEntryView,
) -> Seq<RetentionEntryView> {
    let p = spec_date_pos(s, e.date);
    if p < s.len() && s[p].date == e.date {
        s.update(p, e)
    } else {
        s.insert(p, e)
    }
}

/// The per-volume history: the date-labelled snapshots of `vol`, one entry
/// per calendar day, the later-listed snapshot winning a duplicate date.
pub open spec fn spec_retention_entries(snaps: Seq<Seq<char>>, vol: Seq<char>) -> Seq<
    RetentionEntryView,
>
    decreases snaps.len(),
{
    if snaps.len() == 0 {
        Seq::empty()
    } else {
        let rest = spec_retention_entries(snaps.drop_last(), vol);
        if is_dated_snap_of(snaps.last(), vol) {
            spec_record_entry(
                rest,
                RetentionEntryView {
                    date: spec_parse_date(spec_snap_label(snaps.last(), vol))->0,
                    snapshot: snaps.last(),
                },
            )
        } else {
            rest
        }
    }
}

/// The position `d` has or would get in a date-sorted entry list.
fn date_lower_bound(entries: &Vec<RetentionEntry>, d: &Date) -> (p: usize)
    ensures
        p <= entries@.len(),
        forall|j: int| 0 <= j < p ==> date_lt((#[trigger] evs(entries@)[j]).date, *d),
        p < entries@.len() ==> !date_lt(evs(entries@)[p as int].date, *d),
{
    let n = entries.len();
    let mut p: usize = 0;
    while p < n
        invariant
            n == entries@.len(),
            p <= n,
            forall|j: int| 0 <= j < p ==> date_lt((#[trigger] evs(entries@)[j]).date, *d),
        decreases n - p,
    {
        proof {
            assert(evs(entries@)[p as int] == entries@[p as int]@);
        }
        if !date_lt_exec(&entries[p].date, d) {
            return p;
        }
        p = p + 1;
    }
    p
}

/// Inserts one entry into a date-sorted list, the new entry winning an
/// equal date.
fn record_entry(entries: &mut Vec<RetentionEntry>, e: RetentionEntry)
    requires
        entries_sorted(evs(old(entries)@)),
    ensures
        evs(final(entries)@) == spec_record_entry(evs(old(entries)@), e@),
        entries_sorted(evs(final(entries)@)),
        forall|k: int|
            0 <= k < evs(final(entries)@).len() ==> (#[trigger] evs(final(entries)@)[k]) == e@
                || exists|j: int|
                0 <= j < evs(old(entries)@).len() && evs(old(entries)@)[j] == evs(
                    final(entries)@,
                )[k],
{
    let ghost s = evs(entries@);
    let n = entries.len();
    let p = date_lower_bound(entries, &e.date);
    proof {
        lemma_date_pos_is(s, e@.date, p as int);
    }
    if p < n && entries[p].date == e.date {
        let ghost ev = e@;
        entries[p] = e;
        proof {
            assert(evs(final(entries)@) =~= s.update(p as int, ev));
            let t = s.update(p as int, ev);
            assert forall|a: int, b: int| 0 <= a < b < t.len() implies date_lt(
                (#[trigger] t[a]).date,
                (#[trigger] t[b]).date,
            ) by {
                assert(t[a].date == s[a].date && t[b].date == s[b].date);
            }
            assert forall|k: int| 0 <= k < t.len() implies (#[trigger] t[k]) == ev || exists|j: int|
                0 <= j < s.len() && s[j] == t[k] by {
                if k != p {
                    assert(0 <= k < s.len() && s[k] == t[k]);
                }
            }
        }
    } else {
        let ghost ev = e@;
        entries.insert(p, e);
        proof {
            assert(evs(final(entries)@) =~= s.insert(p as int, ev));
            let t = s.insert(p as int, ev);
            assert forall|k: int| 0 <= k < t.len() implies (#[trigger] t[k]) == ev || exists|j: int|
                0 <= j < s.len() && s[j] == t[k] by {
                if k < p {
                    assert(0 <= k < s.len() && s[k] == t[k]);
                } else if k > p {
                    assert(0 <= k - 1 < s.len() && s[k - 1] == t[k]);
                }
            }
            if p < n {
                assert(!date_lt(s[p as int].date, ev.date));
                assert(s[p as int].date != ev.date);
                assert(date_lt(ev.date, s[p as int].date));
            }
            assert forall|a: int, b: int| 0 <= a < b < t.len() implies date_lt(
                (#[trigger] t[a]).date,
                (#[trigger] t[b]).date,
            ) by {
                if b < p {
                    assert(t[a] == s[a] && t[b] == s[b]);
                } else if a < p && b == p {
                    assert(t[a] == s[a]);
                } else if a < p && b > p {
                    assert(t[a] == s[a] && t[b] == s[b - 1]);
                } else if a == p {
                    assert(t[b] == s[b - 1]);
                } else {
                    assert(t[a] == s[a - 1] && t[b] == s[b - 1]);
                }
            }
        }
    }
}

/// The date-sorted history of `vol`: its snapshots with strict date labels,
/// one entry per day, later duplicates winning, ready for decimation.
pub fn retention_entries(snapshots: &Vec<String>, vol: &str) -> (r: Vec<RetentionEntry>)
    ensures
        evs(r@) == spec_retention_entries(snapshots.deep_view(), vol@),
        entries_sorted(evs(r@)),
        entries_wf(evs(r@)),
{
    let mut volat = vol.to_owned();
    push_char(&mut volat, '@');
    proof {
        assert(volat@ =~= vol@ + seq!['@']);
    }
    let n = snapshots.len();
    let mut out: Vec<RetentionEntry> = Vec::new();
    let mut i: usize = 0;
    proof {
        assert(evs(out@) =~= Seq::<RetentionEntryView>::empty());
        assert(snapshots.deep_view().take(0) =~= Seq::<Seq<char>>::empty());
    }
    while i < n
        invariant
            n == snapshots@.len(),
            i <= n,
            volat@ == vol@ + seq!['@'],
            evs(out@) == spec_retention_entries(snapshots.deep_view().take(i as int), vol@),
            entries_sorted(evs(out@)),
            entries_wf(evs(out@)),
        decreases n - i,
    {
        let ghost dv = snapshots.deep_view();
        proof {
            assert(dv[i as int] == snapshots@[i as int]@);
            assert(dv.take(i + 1).drop_last() =~= dv.take(i as int));
            assert(dv.take(i + 1).last() == dv[i as int]);
        }
        let snap = &snapshots[i];
        if starts_with(snap.as_str(), volat.as_str()) {
            let snlen = snap.as_str().unicode_len();
            let vlen = volat.as_str().unicode_len();
            let lab = snap.as_str().substring_char(vlen, snlen);
            proof {
                assert(lab@ =~= spec_snap_label(snap@, vol@));
            }
            match parse_date(lab) {
                Some(d) => {
                    let ghost before = evs(out@);
                    record_entry(&mut out, RetentionEntry { date: d, snapshot: snap.clone() });
                    proof {
                        let after = evs(out@);
                        assert(after == spec_record_entry(
                            before,
                            RetentionEntryView { date: d, snapshot: snap@ },
                        ));
                        assert(after == spec_retention_entries(dv.take(i + 1), vol@));
                        assert forall|k: int| 0 <= k < after.len() implies date_wf(
                            (#[trigger] after[k]).date,
                        ) && after[k].date.year <= 9999 by {
                            if after[k] != (RetentionEntryView { date: d, snapshot: snap@ }) {
                                let j = choose|j: int|
                                    0 <= j < before.len() && before[j] == after[k];
                            }
                        }
                    }
                },
                None => {},
            }
        }
        proof {
            assert(evs(out@) == spec_retention_entries(dv.take(i + 1), vol@));
        }
        i = i + 1;
    }
    proof {
        assert(snapshots.deep_view().take(n as int) =~= snapshots.deep_view());
    }
    out
}

pub open spec fn same_month(a: Date, b: Date) -> bool {
    a.year == b.year && a.month == b.month
}

pub open spec fn same_week(a: Date, b: Date) -> bool {
    spec_week_of_year(a) == spec_week_of_year(b)
}

/// The first index from `j` on whose entry shares entry `i`'s calendar
/// month, or `i` itself.
pub open spec fn spec_month_anchor_from(s: Seq<RetentionEntryView>, i: int, j: int) -> int
    decreases i - j,
{
    if j >= i {
        i
    } else if same_month(s[j].date, s[i].date) {
        j
    } else {
        spec_month_anchor_from(s, i, j + 1)
    }
}

/// The earliest entry in entry `i`'s calendar month.
pub open spec fn spec_month_anchor(s: Seq<RetentionEntryView>, i: int) -> int {
    spec_month_anchor_from(s, i, 0)
}

pub open spec fn spec_week_anchor_from(s: Seq<RetentionEntryView>, i: int, j: int) -> int
    decreases i - j,
{
    if j >= i {
        i
    } else if same_week(s[j].date, s[i].date) {
        j
    } else {
        spec_week_anchor_from(s, i, j + 1)
    }
}

/// The earliest entry in entry `i`'s week, weeks starting on Sunday.
pub open spec fn spec_week_anchor(s: Seq<RetentionEntryView>, i: int) -> int {
    spec_week_anchor_from(s, i, 0)
}

proof fn lemma_month_anchor_skip(s: Seq<RetentionEntryView>, i: int, j: int)
    requires
        0 <= j <= i,
        forall|k: int| 0 <= k < j ==> !same_month((#[trigger] s[k]).date, s[i].date),
    ensures
        spec_month_anchor_from(s, i, 0) == spec_month_anchor_from(s, i, j),
    decreases j,
{
    if j > 0 {
        lemma_month_anchor_skip(s, i, j - 1);
    }
}

proof fn lemma_week_anchor_skip(s: Seq<RetentionEntryView>, i: int, j: int)
    requires
        0 <= j <= i,
        forall|k: int| 0 <= k < j ==> !same_week((#[trigger] s[k]).date, s[i].date),
    ensures
        spec_week_anchor_from(s, i, 0) == spec_week_anchor_from(s, i, j),
    decreases j,
{
    if j > 0 {
        lemma_week_anchor_skip(s, i, j - 1);
    }
}

fn month_anchor(entries: &Vec<RetentionEntry>, i: usize) -> (a: usize)
    requires
        i < entries@.len(),
    ensures
        a == spec_month_anchor(evs(entries@), i as int),
        a <= i,
{
    let ghost s = evs(entries@);
    let mut j: usize = 0;
    while j < i
        invariant
            i < entries@.len(),
            s == evs(entries@),
            j <= i,
            forall|k: int| 0 <= k < j ==> !same_month((#[trigger] s[k]).date, s[i as int].date),
        decreases i - j,
    {
        proof {
            assert(s[j as int] == entries@[j as int]@);
            assert(s[i as int] == entries@[i as int]@);
        }
        if entries[j].date.year == entries[i].date.year && entries[j].date.month
            == entries[i].date.month {
            proof {
                lemma_month_anchor_skip(s, i as int, j as int);
            }
            return j;
        }
        j = j + 1;
    }
    proof {
        lemma_month_anchor_skip(s, i as int, i as int);
    }
    i
}

fn week_anchor(entries: &Vec<RetentionEntry>, i: usize) -> (a: usize)
    requires
        i < entries@.len(),
        entries_wf(evs(entries@)),
    ensures
        a == spec_week_anchor(evs(entries@), i as int),
        a <= i,
{
    let ghost s = evs(entries@);
    proof {
        assert(s[i as int] == entries@[i as int]@);
    }
    let wi = week_of_year(&entries[i].date);
    let mut j: usize = 0;
    while j < i
        invariant
            i < entries@.len(),
            s == evs(entries@),
            entries_wf(s),
            wi.0 == spec_week_of_year(s[i as int].date).0,
            wi.1 == spec_week_of_year(s[i as int].date).1,
            j <= i,
            forall|k: int| 0 <= k < j ==> !same_week((#[trigger] s[k]).date, s[i as int].date),
        decreases i - j,
    {
        proof {
            assert(s[j as int] == entries@[j as int]@);
        }
        let wj = week_of_year(&entries[j].date);
        if wj.0 == wi.0 && wj.1 == wi.1 {
            proof {
                assert(same_week(s[j as int].date, s[i as int].date));
                lemma_week_anchor_skip(s, i as int, j as int);
            }
            return j;
        }
        proof {
            assert(!same_week(s[j as int].date, s[i as int].date));
        }
        j = j + 1;
    }
    proof {
        lemma_week_anchor_skip(s, i as int, i as int);
    }
    i
}

/// What happens to one snapshot under the retention rule.
#[derive(Clone, Copy, PartialEq, Eq, Structural, Debug)]
pub enum RetentionAction {
    /// The snapshot is kept.
    Keep,
    /// Beyond rank 60 only the earliest snapshot of each calendar month is
    /// kept; the anchor names that snapshot's date.
    DeleteNotFirstOfMonth { month_anchor: Date },
    /// Between ranks 31 and 60 a snapshot is kept only as the earliest of
    /// its month or of its week; the anchors name both dates it failed.
    DeleteNotFirstOfPeriod { month_anchor: Date, week_anchor: Date },
}

/// The decision for one snapshot, newest first.
pub struct RetentionDecision {
    pub snapshot: String,
    pub date: Date,
    pub days_old: i64,
    pub rank: u64,
    pub action: RetentionAction,
}

pub struct RetentionDecisionView {
    pub snapshot: Seq<char>,
    pub date: Date,
    pub days_old: i64,
    pub rank: u64,
    pub action: RetentionAction,
}

impl View for RetentionDecision {
    type V = RetentionDecisionView;

    open spec fn view(&self) -> RetentionDecisionView {
        RetentionDecisionView {
            snapshot: self.snapshot@,
            date: self.date,
            days_old: self.days_old,
            rank: self.rank,
            action: self.action,
        }
    }
}

pub open spec fn dvs(s: Seq<RetentionDecision>) -> Seq<RetentionDecisionView> {
    s.map_values(|x: RetentionDecision| x@)
}

/// The whole plan for one volume: a decision per snapshot, newest first,
/// and whether a snapshot must be created today.
pub struct RetentionPlan {
    pub decisions: Vec<RetentionDecision>,
    pub create_today: bool,
}

/// The extra rank step taken when the newest snapshot is not from today:
/// it accounts for the snapshot that will exist once created.
pub open spec fn spec_rank_offset(es: Seq<RetentionEntryView>, today: Date) -> int {
    if es.len() > 0 && es[es.len() - 1].date != today {
        1
    } else {
        0
    }
}

/// The age rank of the `k`-th newest snapshot, capped at the largest
/// representable rank.
pub open spec fn spec_rank(k: int, off: int) -> int {
    if k + 1 + off > 0xffff_ffff_ffff_ffff {
        0xffff_ffff_ffff_ffff
    } else {
        k + 1 + off
    }
}

/// The retention rule for the `k`-th newest snapshot: ranks up to 30 are
/// always kept; ranks 31 to 60 are kept only as the earliest snapshot of
/// their month or week; beyond rank 60 only the earliest of the month
/// stays.
pub open spec fn decision_ok(
    es: Seq<RetentionEntryView>,
    today: Date,
    k: int,
    d: RetentionDecisionView,
) -> bool {
    let n = es.len();
    let i = n - 1 - k;
    let rank = spec_rank(k, spec_rank_offset(es, today));
    let ma = spec_month_anchor(es, i);
    let wa = spec_week_anchor(es, i);
    &&& d.snapshot == es[i].snapshot
    &&& d.date == es[i].date
    &&& d.days_old == day_number(today) - day_number(es[i].date)
    &&& d.rank == rank
    &&& (rank > 60 ==> (if ma == i {
        d.action is Keep
    } else {
        d.action matches RetentionAction::DeleteNotFirstOfMonth { month_anchor } && month_anchor
            == es[ma].date
    }))
    &&& (30 < rank <= 60 ==> (if ma == i || wa == i {
        d.action is Keep
    } else {
        d.action matches RetentionAction::DeleteNotFirstOfPeriod { month_anchor, week_anchor }
            && month_anchor == es[ma].date && week_anchor == es[wa].date
    }))
    &&& (rank <= 30 ==> d.action is Keep)
}

pub open spec fn plan_ok(
    ds: Seq<RetentionDecisionView>,
    create_today: bool,
    es: Seq<RetentionEntryView>,
    today: Date,
) -> bool {
    &&& ds.len() == es.len()
    &&& forall|k: int| 0 <= k < ds.len() ==> decision_ok(es, today, k, #[trigger] ds[k])
    &&& create_today == (es.len() > 0 && es[es.len() - 1].date != today)
}

/// Evaluates the retention rule over one volume's history, newest first.
/// Beside the per-snapshot decisions it reports whether a snapshot must be
/// created today.  A history whose every rank stays at or below 30 is
/// never thinned.
pub fn decimate(today: &Date, entries: &Vec<RetentionEntry>) -> (r: RetentionPlan)
    requires
        date_wf(*today),
        today.year <= 9999,
        entries_sorted(evs(entries@)),
        entries_wf(evs(entries@)),
    ensures
        plan_ok(dvs(r.decisions@), r.create_today, evs(entries@), *today),
        evs(entries@).len() + spec_rank_offset(evs(entries@), *today) <= 30 ==> forall|k: int|
            0 <= k < dvs(r.decisions@).len() ==> (#[trigger] dvs(r.decisions@)[k]).action
                is Keep,
{
    let ghost es = evs(entries@);
    let n = entries.len();
    let off: u64 = if n > 0 && entries[n - 1].date != *today {
        proof {
            assert(es[n - 1] == entries@[n - 1]@);
        }
        1
    } else {
        proof {
            if n > 0 {
                assert(es[n - 1] == entries@[n - 1]@);
            }
        }
        0
    };
    proof {
        assert(off == spec_rank_offset(es, *today));
    }
    let mut decisions: Vec<RetentionDecision> = Vec::new();
    let mut k: usize = 0;
    while k < n
        invariant
            n == entries@.len(),
            es == evs(entries@),
            date_wf(*today),
            today.year <= 9999,
            entries_sorted(es),
            entries_wf(es),
            off == spec_rank_offset(es, *today),
            k <= n,
            dvs(decisions@).len() == k,
            forall|kk: int|
                0 <= kk < k ==> decision_ok(es, *today, kk, #[trigger] dvs(decisions@)[kk]),
        decreases n - k,
    {
        let i = n - 1 - k;
        proof {
            assert(es[i as int] == entries@[i as int]@);
        }
        let kw = k as u64;
        let rank: u64 = if kw <= 0xffff_ffff_ffff_fffe - off {
            kw + 1 + off
        } else {
            0xffff_ffff_ffff_ffff
        };
        proof {
            assert(rank == spec_rank(k as int, off as int));
        }
        let days_old = days_between(today, &entries[i].date);
        let action: RetentionAction = if rank > 60 {
            let ma = month_anchor(entries, i);
            if ma == i {
                RetentionAction::Keep
            } else {
                proof {
                    assert(es[ma as int] == entries@[ma as int]@);
                }
                RetentionAction::DeleteNotFirstOfMonth { month_anchor: entries[ma].date }
            }
        } else if rank > 30 {
            let ma = month_anchor(entries, i);
            let wa = week_anchor(entries, i);
            if ma == i || wa == i {
                RetentionAction::Keep
            } else {
                proof {
                    assert(es[ma as int] == entries@[ma as int]@);
                    assert(es[wa as int] == entries@[wa as int]@);
                }
                RetentionAction::DeleteNotFirstOfPeriod {
                    month_anchor: entries[ma].date,
                    week_anchor: entries[wa].date,
                }
            }
        } else {
            RetentionAction::Keep
        };
        let d = RetentionDecision {
            snapshot: entries[i].snapshot.clone(),
            date: entries[i].date,
            days_old,
            rank,
            action,
        };
        let ghost dview = d@;
        let ghost before_ds = decisions@;
        decisions.push(d);
        proof {
            assert(decision_ok(es, *today, k as int, dview));
            assert forall|kk: int| 0 <= kk < k + 1 implies decision_ok(
                es,
                *today,
                kk,
                #[trigger] dvs(decisions@)[kk],
            ) by {
                if kk < k {
                    assert(decisions@[kk] == before_ds[kk]);
                    assert(dvs(decisions@)[kk] == before_ds[kk]@);
                    assert(dvs(before_ds)[kk] == before_ds[kk]@);
                } else {
                    assert(dvs(decisions@)[kk] == dview);
                }
            }
        }
        k = k + 1;
    }
    let r = RetentionPlan { decisions, create_today: off == 1 };
    proof {
        if es.len() + spec_rank_offset(es, *today) <= 30 {
            assert forall|kk: int| 0 <= kk < dvs(r.decisions@).len() implies (#[trigger] dvs(
                r.decisions@,
            )[kk]).action is Keep by {
                assert(decision_ok(es, *today, kk, dvs(r.decisions@)[kk]));
            }
        }
    }
    r
}

/// Some snapshot in `s` is date-labelled and belongs to volume `v`.
pub open spec fn has_dated_snap(s: Seq<Seq<char>>, v: Seq<char>) -> bool {
    exists|j: int|
        0 <= j < s.len() && is_dated_snap_of(#[trigger] s[j], crate::dates::spec_volume_of(s[j]))
            && crate::dates::spec_volume_of(s[j]) == v
}

/// The volume name `v` occurs in the list.
pub open spec fn volume_listed(out: Seq<String>, v: Seq<char>) -> bool {
    exists|a: int| 0 <= a < out.len() && (#[trigger] out[a])@ == v
}

/// Appends `vol` unless it is already listed.
fn note_volume(out: &mut Vec<String>, vol: &str)
    requires
        forall|a: int, b: int|
            0 <= a < b < old(out)@.len() ==> (#[trigger] old(out)@[a])@ != (
            #[trigger] old(out)@[b])@,
    ensures
        forall|a: int, b: int|
            0 <= a < b < final(out)@.len() ==> (#[trigger] final(out)@[a])@ != (
            #[trigger] final(out)@[b])@,
        forall|a: int| 0 <= a < old(out)@.len() ==> (#[trigger] final(out)@[a]) == old(out)@[a],
        old(out)@.len() <= final(out)@.len(),
        exists|b: int| 0 <= b < final(out)@.len() && (#[trigger] final(out)@[b])@ == vol@,
        forall|a: int|
            0 <= a < final(out)@.len() ==> (#[trigger] final(out)@[a])@ == vol@ || exists|b: int|
                0 <= b < old(out)@.len() && old(out)@[b] == final(out)@[a],
{
    let n = out.len();
    let mut a: usize = 0;
    while a < n
        invariant
            n == out@.len(),
            a <= n,
            out@ == old(out)@,
            forall|x: int, y: int|
                0 <= x < y < out@.len() ==> (#[trigger] out@[x])@ != (#[trigger] out@[y])@,
            forall|b: int| 0 <= b < a ==> (#[trigger] out@[b])@ != vol@,
        decreases n - a,
    {
        if str_eq(out[a].as_str(), vol) {
            proof {
                assert(out@[a as int]@ == vol@);
                assert forall|c: int| 0 <= c < out@.len() implies (#[trigger] out@[c])@ == vol@
                    || exists|b: int| 0 <= b < out@.len() && out@[b] == out@[c] by {
                    assert(0 <= c < out@.len() && out@[c] == out@[c]);
                }
            }
            return;
        }
        a = a + 1;
    }
    let ghost before = out@;
    out.push(vol.to_owned());
    proof {
        assert(out@[out@.len() - 1]@ == vol@);
        assert forall|c: int| 0 <= c < before.len() implies (#[trigger] out@[c])
            == before[c] by {}
        assert forall|x: int, y: int| 0 <= x < y < out@.len() implies (#[trigger] out@[x])@ != (
        #[trigger] out@[y])@ by {
            if y == out@.len() - 1 {
                assert(out@[x] == before[x]);
                assert(before[x]@ != vol@);
            } else {
                assert(out@[x] == before[x] && out@[y] == before[y]);
            }
        }
        assert forall|c: int| 0 <= c < out@.len() implies (#[trigger] out@[c])@ == vol@
            || exists|b: int| 0 <= b < before.len() && before[b] == out@[c] by {
            if c < before.len() {
                assert(0 <= c < before.len() && before[c] == out@[c]);
            }
        }
    }
}

/// The volumes that have at least one date-labelled snapshot, in order of
/// first appearance, each once.
pub fn volumes_with_dates(snapshots: &Vec<String>) -> (r: Vec<String>)
    ensures
        ({
            let s = snapshots.deep_view();
            &&& forall|a: int, b: int|
                0 <= a < b < r@.len() ==> (#[trigger] r@[a])@ != (#[trigger] r@[b])@
            &&& forall|a: int| 0 <= a < r@.len() ==> has_dated_snap(s, (#[trigger] r@[a])@)
            &&& forall|j: int|
                0 <= j < s.len() && is_dated_snap_of(
                    #[trigger] s[j],
                    crate::dates::spec_volume_of(s[j]),
                ) ==> volume_listed(r@, crate::dates::spec_volume_of(s[j]))
        }),
{
    let ghost s = snapshots.deep_view();
    let n = snapshots.len();
    let mut out: Vec<String> = Vec::new();
    let mut i: usize = 0;
    while i < n
        invariant
            n == snapshots@.len(),
            s == snapshots.deep_view(),
            i <= n,
            forall|a: int, b: int|
                0 <= a < b < out@.len() ==> (#[trigger] out@[a])@ != (#[trigger] out@[b])@,
            forall|a: int| 0 <= a < out@.len() ==> has_dated_snap(s, (#[trigger] out@[a])@),
            forall|j: int|
                0 <= j < i && is_dated_snap_of(
                    #[trigger] s[j],
                    crate::dates::spec_volume_of(s[j]),
                ) ==> volume_listed(out@, crate::dates::spec_volume_of(s[j])),
        decreases n - i,
    {
        proof {
            assert(s[i as int] == snapshots@[i as int]@);
        }
        let snap = &snapshots[i];
        let slen = snap.as_str().unicode_len();
        match find_char(snap.as_str(), '@') {
            None => {
                proof {
                    lemma_first_index_of(snap@, '@');
                    assert(crate::dates::spec_volume_of(s[i as int]) == s[i as int]);
                    assert(!is_dated_snap_of(s[i as int], s[i as int]));
                }
            },
            Some(a) => {
                proof {
                    lemma_first_index_of(snap@, '@');
                }
                let vol = snap.as_str().substring_char(0, a);
                let lab = snap.as_str().substring_char(a + 1, slen);
                proof {
                    assert(vol@ =~= snap@.take(a as int));
                    assert(lab@ =~= snap@.skip(a as int + 1));
                    assert(crate::dates::spec_volume_of(s[i as int]) == vol@);
                }
                match parse_date(lab) {
                    Some(_) => {
                        proof {
                            assert((vol@ + seq!['@']) =~= snap@.take(a as int + 1));
                            assert(is_prefix(vol@ + seq!['@'], snap@));
                            assert(spec_snap_label(snap@, vol@) == lab@);
                            assert(is_dated_snap_of(s[i as int], vol@));
                        }
                        let ghost before = out@;
                        note_volume(&mut out, vol);
                        proof {
                            assert(has_dated_snap(s, vol@)) by {
                                assert(0 <= (i as int) < s.len() && is_dated_snap_of(
                                    s[i as int],
                                    crate::dates::spec_volume_of(s[i as int]),
                                ) && crate::dates::spec_volume_of(s[i as int]) == vol@);
                            }
                            assert forall|a: int| 0 <= a < out@.len() implies has_dated_snap(
                                s,
                                (#[trigger] out@[a])@,
                            ) by {
                                if out@[a]@ != vol@ {
                                    let b = choose|b: int|
                                        0 <= b < before.len() && before[b] == out@[a];
                                    assert(has_dated_snap(s, before[b]@));
                                }
                            }
                            assert(volume_listed(out@, vol@));
                            assert forall|j: int|
                                0 <= j < i + 1 && is_dated_snap_of(
                                    #[trigger] s[j],
                                    crate::dates::spec_volume_of(s[j]),
                                ) implies volume_listed(
                                out@,
                                crate::dates::spec_volume_of(s[j]),
                            ) by {
                                if j < i {
                                    let a = choose|a: int|
                                        0 <= a < before.len() && (#[trigger] before[a])@
                                            == crate::dates::spec_volume_of(s[j]);
                                    assert(out@[a] == before[a]);
                                    assert(volume_listed(out@, before[a]@));
                                }
                            }
                        }
                    },
                    None => {
                        proof {
                            assert(spec_snap_label(snap@, vol@) == lab@);
                            assert(!is_dated_snap_of(s[i as int], vol@));
                        }
                    },
                }
            },
        }
        i = i + 1;
    }
    out
}

/// The whole automanage evaluation: one retention plan per volume that has
/// date-labelled snapshots, each volume once, in order of first appearance
/// in the snapshot list.
pub fn snapshot_automanage_plan(today: &Date, snapshots: &Vec<String>) -> (r: Vec<
    (String, RetentionPlan),
>)
    requires
        date_wf(*today),
        today.year <= 9999,
    ensures
        ({
            let s = snapshots.deep_view();
            &&& forall|a: int, b: int|
                0 <= a < b < r@.len() ==> (#[trigger] r@[a]).0@ != (#[trigger] r@[b]).0@
            &&& forall|j: int|
                0 <= j < s.len() && is_dated_snap_of(
                    #[trigger] s[j],
                    crate::dates::spec_volume_of(s[j]),
                ) ==> exists|a: int|
                    0 <= a < r@.len() && (#[trigger] r@[a]).0@ == crate::dates::spec_volume_of(
                        s[j],
                    )
            &&& forall|a: int|
                0 <= a < r@.len() ==> plan_ok(
                    dvs((#[trigger] r@[a]).1.decisions@),
                    r@[a].1.create_today,
                    spec_retention_entries(s, r@[a].0@),
                    *today,
                )
        }),
{
    let ghost s = snapshots.deep_view();
    let vols = volumes_with_dates(snapshots);
    let mut out: Vec<(String, RetentionPlan)> = Vec::new();
    let nv = vols.len();
    let mut v: usize = 0;
    while v < nv
        invariant
            nv == vols@.len(),
            s == snapshots.deep_view(),
            date_wf(*today),
            today.year <= 9999,
            v <= nv,
            out@.len() == v,
            forall|a: int| 0 <= a < v ==> (#[trigger] out@[a]).0@ == vols@[a]@,
            forall|a: int|
                0 <= a < v ==> plan_ok(
                    dvs((#[trigger] out@[a]).1.decisions@),
                    out@[a].1.create_today,
                    spec_retention_entries(s, out@[a].0@),
                    *today,
                ),
            forall|a: int, b: int|
                0 <= a < b < vols@.len() ==> (#[trigger] vols@[a])@ != (#[trigger] vols@[b])@,
            forall|j: int|
                0 <= j < s.len() && is_dated_snap_of(
                    #[trigger] s[j],
                    crate::dates::spec_volume_of(s[j]),
                ) ==> volume_listed(vols@, crate::dates::spec_volume_of(s[j])),
        decreases nv - v,
    {
        let vol = vols[v].clone();
        let entries = retention_entries(snapshots, vol.as_str());
        let plan = decimate(today, &entries);
        let ghost before = out@;
        out.push((vol, plan));
        proof {
            assert forall|a: int| 0 <= a < before.len() implies (#[trigger] out@[a])
                == before[a] by {}
            assert(out@[v as int].0@ == vols@[v as int]@);
        }
        v = v + 1;
    }
    proof {
        assert forall|j: int|
            0 <= j < s.len() && is_dated_snap_of(
                #[trigger] s[j],
                crate::dates::spec_volume_of(s[j]),
            ) implies exists|a: int|
            0 <= a < out@.len() && (#[trigger] out@[a]).0@ == crate::dates::spec_volume_of(
                s[j],
            ) by {
            assert(volume_listed(vols@, crate::dates::spec_volume_of(s[j])));
            let a = choose|a: int|
                0 <= a < vols@.len() && (#[trigger] vols@[a])@ == crate::dates::spec_volume_of(
                    s[j],
                );
            assert(out@[a].0@ == crate::dates::spec_volume_of(s[j]));
        }
    }
    out
}

} // verus!
