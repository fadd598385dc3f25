use vstd::prelude::*;

use crate::record::{keeps, matches_filter, views, FileInfo, Filter, OpType, Timestamp};

verus! {

/// The decoded records among `entries` that `filter` keeps, in order.
pub open spec fn select(entries: Seq<Option<FileInfo>>, filter: Filter) -> Seq<FileInfo>
    decreases entries.len(),
{
    if entries.len() == 0 {
        Seq::empty()
    } else {
        let prev = select(entries.drop_last(), filter);
        match entries.last() {
            Some(rec) => if keeps(rec, filter) {
                prev.push(rec)
            } else {
                prev
            },
            None => prev,
        }
    }
}

/// How many entries a scan reads: under `Before`, those ahead of the first
/// decoded record that does not match; otherwise all of them.
pub open spec fn scan_len(entries: Seq<Option<FileInfo>>, filter: Filter) -> int
    decreases entries.len(),
{
    if entries.len() == 0 {
        0
    } else {
        let p = scan_len(entries.drop_last(), filter);
        if p < entries.len() - 1 {
            p
        } else if filter is Before && entries.last() is Some && !keeps(
            entries.last()->Some_0,
            filter,
        ) {
            entries.len() - 1
        } else {
            entries.len() as int
        }
    }
}

/// What a scan of the log returns: the records that the filter keeps among
/// the entries it reads, in log order. Lines that did not decode are skipped.
pub open spec fn scan_spec(entries: Seq<Option<FileInfo>>, filter: Filter) -> Seq<FileInfo> {
    select(entries.take(scan_len(entries, filter)), filter)
}

proof fn lemma_scan_len_bounds(entries: Seq<Option<FileInfo>>, filter: Filter)
    ensures
        0 <= scan_len(entries, filter) <= entries.len(),
    decreases entries.len(),
{
    if entries.len() > 0 {
        lemma_scan_len_bounds(entries.drop_last(), filter);
    }
}

proof fn lemma_scan_len_settles(entries: Seq<Option<FileInfo>>, filter: Filter, j: int)
    requires
        0 <= j <= entries.len(),
        scan_len(entries.take(j), filter) < j,
    ensures
        scan_len(entries, filter) == scan_len(entries.take(j), filter),
    decreases entries.len() - j,
{
    if j < entries.len() {
        let t = entries.take(j + 1);
        assert(t.drop_last() =~= entries.take(j));
        lemma_scan_len_settles(entries, filter, j + 1);
    } else {
        assert(entries.take(j) =~= entries);
    }
}

/// Reads `entries`, the log's lines in order with `None` for each line that
/// did not decode, and returns the records that `filter` keeps. Under
/// `Before` the scan stops at the first record that is not before the cutoff.
pub fn scan(entries: Vec<Option<FileInfo>>, filter: &Filter) -> (r: Vec<FileInfo>)
    ensures
        r@ == scan_spec(entries@, *filter),
{
    let ghost es = entries@;
    let mut res: Vec<FileInfo> = Vec::new();
    let ghost mut i: int = 0;
    let mut stopped = false;
    for e in it: entries.into_iter()
        invariant_except_break
            i == it.index(),
            scan_len(es.take(i), *filter) == i,
            !stopped,
        invariant
            it.seq() == es,
            0 <= i <= es.len(),
            res@ == select(es.take(i), *filter),
        ensures
            stopped ==> scan_len(es, *filter) == i,
            !stopped ==> i == es.len() && scan_len(es.take(i), *filter) == i,
    {
        proof {
            assert(es.take(i + 1).drop_last() =~= es.take(i));
            assert(es.take(i + 1).last() == es[i]);
        }
        match e {
            Some(rec) => {
                if matches_filter(&rec, filter) {
                    res.push(rec);
                } else if let Filter::Before(_) = filter {
                    stopped = true;
                    proof {
                        lemma_scan_len_settles(es, *filter, i + 1);
                    }
                    break ;
                }
            },
            None => {},
        }
        proof {
            i = i + 1;
        }
    }
    proof {
        if !stopped {
            assert(es.take(i) =~= es);
        }
    }
    res
}

/// The decoded records among `entries` come in non-decreasing time order, as
/// appends keep them.
pub open spec fn time_ordered(entries: Seq<Option<FileInfo>>) -> bool {
    forall|i: int, j: int|
        0 <= i < j < entries.len() && #[trigger] entries[i] is Some && #[trigger] entries[j] is Some
            ==> !entries[j]->Some_0.moved_time.precedes(entries[i]->Some_0.moved_time)
}

proof fn lemma_scan_len_stop(entries: Seq<Option<FileInfo>>, filter: Filter)
    ensures
        scan_len(entries, filter) < entries.len() ==> {
            let s = scan_len(entries, filter);
            &&& 0 <= s
            &&& filter is Before
            &&& entries[s] is Some
            &&& !keeps(entries[s]->Some_0, filter)
        },
    decreases entries.len(),
{
    if entries.len() > 0 {
        lemma_scan_len_stop(entries.drop_last(), filter);
        lemma_scan_len_bounds(entries.drop_last(), filter);
    }
}

proof fn lemma_select_after_stop(
    entries: Seq<Option<FileInfo>>,
    cutoff: Timestamp,
    s: int,
    j: int,
)
    requires
        time_ordered(entries),
        0 <= s < j <= entries.len(),
        entries[s] is Some,
        !entries[s]->Some_0.moved_time.precedes(cutoff),
    ensures
        select(entries.take(j), Filter::Before(cutoff)) == select(
            entries.take(s),
            Filter::Before(cutoff),
        ),
    decreases j - s,
{
    let f = Filter::Before(cutoff);
    let t = entries.take(j);
    assert(t.drop_last() =~= entries.take(j - 1));
    assert(t.last() == entries[j - 1]);
    if j - 1 > s {
        lemma_select_after_stop(entries, cutoff, s, j - 1);
        if entries[j - 1] is Some {
            assert(!entries[j - 1]->Some_0.moved_time.precedes(entries[s]->Some_0.moved_time));
        }
    }
}

/// Stopping a `Before` scan at the first record that is not before the
/// cutoff loses nothing when the log is in time order: the scan returns every
/// record before the cutoff.
pub proof fn lemma_before_scan_complete(entries: Seq<Option<FileInfo>>, cutoff: Timestamp)
    requires
        time_ordered(entries),
    ensures
        scan_spec(entries, Filter::Before(cutoff)) == select(entries, Filter::Before(cutoff)),
{
    let f = Filter::Before(cutoff);
    let s = scan_len(entries, f);
    lemma_scan_len_bounds(entries, f);
    lemma_scan_len_stop(entries, f);
    if s == entries.len() {
        assert(entries.take(s) =~= entries);
    } else {
        lemma_select_after_stop(entries, cutoff, s, entries.len() as int);
        assert(entries.take(entries.len() as int) =~= entries);
    }
}

/// The destinations of the trash records moved before `cutoff`, in log
/// order: what a purge deletes, where it still exists.
pub open spec fn expired_paths(entries: Seq<Option<FileInfo>>, cutoff: Timestamp) -> Seq<
    Seq<char>,
>
    decreases entries.len(),
{
    if entries.len() == 0 {
        Seq::empty()
    } else {
        let prev = expired_paths(entries.drop_last(), cutoff);
        match entries.last() {
            Some(rec) => if rec.moved_time.precedes(cutoff) && rec.operation == OpType::TRASH {
                prev + rec.destinations()
            } else {
                prev
            },
            None => prev,
        }
    }
}

/// The records moved at or after `cutoff`, in log order: what the log holds
/// after a purge.
pub open spec fn retained(entries: Seq<Option<FileInfo>>, cutoff: Timestamp) -> Seq<FileInfo>
    decreases entries.len(),
{
    if entries.len() == 0 {
        Seq::empty()
    } else {
        let prev = retained(entries.drop_last(), cutoff);
        match entries.last() {
            Some(rec) => if rec.moved_time.precedes(cutoff) {
                prev
            } else {
                prev.push(rec)
            },
            None => prev,
        }
    }
}

/// What a purge does: the trash paths to delete and the records to keep.
#[derive(Debug)]
pub struct PurgePlan {
    /// Destinations of the trash records before the cutoff, in log order.
    pub expired: Vec<String>,
    /// The records at or after the cutoff, in log order.
    pub retained: Vec<FileInfo>,
}

proof fn lemma_views_add(a: Seq<String>, b: Seq<String>)
    ensures
        views(a + b) == views(a) + views(b),
{
    assert(views(a + b) =~= views(a) + views(b));
}

/// Splits the log's entries at `cutoff`. Restore records before the cutoff
/// are dropped and add nothing to delete; lines that did not decode are
/// dropped too.
pub fn plan_purge(entries: Vec<Option<FileInfo>>, cutoff: &Timestamp) -> (r: PurgePlan)
    ensures
        views(r.expired@) == expired_paths(entries@, *cutoff),
        r.retained@ == retained(entries@, *cutoff),
{
    let ghost es = entries@;
    let mut expired: Vec<String> = Vec::new();
    let mut kept: Vec<FileInfo> = Vec::new();
    let ghost mut i: int = 0;
    for e in it: entries.into_iter()
        invariant
            it.seq() == es,
            i == it.index(),
            0 <= i <= es.len(),
            views(expired@) == expired_paths(es.take(i), *cutoff),
            kept@ == retained(es.take(i), *cutoff),
    {
        proof {
            assert(es.take(i + 1).drop_last() =~= es.take(i));
            assert(es.take(i + 1).last() == es[i]);
        }
        match e {
            Some(rec) => {
                if rec.moved_time.is_before(cutoff) {
                    if let OpType::TRASH = rec.operation {
                        let mut dst = rec.dst;
                        proof {
                            lemma_views_add(expired@, dst@);
                        }
                        expired.append(&mut dst);
                    }
                } else {
                    kept.push(rec);
                }
            },
            None => {},
        }
        proof {
            i = i + 1;
        }
    }
    proof {
        assert(es.take(i) =~= es);
    }
    PurgePlan { expired, retained: kept }
}

} // verus!
