//! Putting schedules in order: a stable sort by start time, and the removal
//! of a programme that repeats the one before it.
use vstd::prelude::*;

use crate::channel::Programme;
use crate::time::{ts_le, ts_lt, Timestamp};

verus! {

/// Something that starts at an instant.
pub trait Timed: Sized {
    spec fn start_key(&self) -> (int, int);

    fn start_time(&self) -> (res: Timestamp)
        ensures
            res@ == self.start_key(),
    ;
}

impl Timed for Programme {
    open spec fn start_key(&self) -> (int, int) {
        self.start@
    }

    fn start_time(&self) -> (res: Timestamp) {
        self.start
    }
}

/// The items are in order of their start.
pub open spec fn sorted_by_start<T: Timed>(s: Seq<T>) -> bool {
    forall|i: int, j: int|
        0 <= i < j < s.len() ==> ts_le(#[trigger] s[i].start_key(), #[trigger] s[j].start_key())
}

/// Whether an item starts at `k`.
pub open spec fn starts_at<T: Timed>(k: (int, int)) -> spec_fn(T) -> bool {
    |x: T| x.start_key() == k
}

/// The items that start at `k`, in their order.
pub open spec fn starting_at<T: Timed>(s: Seq<T>, k: (int, int)) -> Seq<T> {
    s.filter(starts_at(k))
}

proof fn lemma_insert_groups<T: Timed>(out: Seq<T>, p: int, x: T, k: (int, int))
    requires
        0 <= p <= out.len(),
        forall|i: int| p <= i < out.len() ==> ts_lt(x.start_key(), #[trigger] out[i].start_key()),
    ensures
        starting_at(out.insert(p, x), k) == if x.start_key() == k {
            starting_at(out, k).push(x)
        } else {
            starting_at(out, k)
        },
{
    let pred = starts_at::<T>(k);
    let a = out.subrange(0, p);
    let b = out.subrange(p, out.len() as int);
    assert(out =~= a + b);
    assert(out.insert(p, x) =~= a.push(x) + b);
    Seq::filter_distributes_over_add(a, b, pred);
    Seq::filter_distributes_over_add(a.push(x), b, pred);
    a.lemma_filter_push(x, pred);
    if x.start_key() == k {
        assert forall|i: int| 0 <= i < b.len() implies !pred(#[trigger] b[i]) by {
            assert(b[i] == out[p + i]);
            assert(ts_lt(x.start_key(), out[p + i].start_key()));
        }
        b.lemma_all_neg_filter_empty(pred);
        assert(b.filter(pred) =~= Seq::<T>::empty());
        assert(a.filter(pred) + Seq::<T>::empty() =~= a.filter(pred));
        assert(a.filter(pred).push(x) + Seq::<T>::empty() =~= a.filter(pred).push(x));
    }
}

/// The items in order of their start; items that start together keep the
/// order they came in (a stable sort, as `sort_by_key` on the start).
pub fn sort_by_start<T: Timed>(items: Vec<T>) -> (res: Vec<T>)
    ensures
        sorted_by_start(res@),
        forall|k: (int, int)| #[trigger] starting_at(res@, k) == starting_at(items@, k),
        res@.len() == items@.len(),
{
    let ghost all = items@;
    let mut rest = items;
    let mut out: Vec<T> = Vec::new();
    let ghost mut n: int = 0;
    proof {
        assert(all.skip(0) =~= all);
        assert forall|k: (int, int)| #[trigger] starting_at(out@, k) == starting_at(all.take(0), k) by {
            assert(all.take(0) =~= out@);
        }
    }
    while rest.len() > 0
        invariant
            0 <= n <= all.len(),
            rest@ == all.skip(n),
            out@.len() == n,
            sorted_by_start(out@),
            forall|k: (int, int)| #[trigger] starting_at(out@, k) == starting_at(all.take(n), k),
        decreases rest.len(),
    {
        let ghost old_rest = rest@;
        let x = rest.remove(0);
        proof {
            assert(x == all[n]);
            assert(rest@ =~= all.skip(n + 1));
        }
        let key = x.start_time();
        let len = out.len();
        let mut p: usize = 0;
        while p < len
            invariant
                p <= len,
                len == out.len(),
                key@ == x.start_key(),
                forall|i: int| 0 <= i < p ==> ts_le(#[trigger] out@[i].start_key(), key@),
            ensures
                p <= len,
                forall|i: int| 0 <= i < p ==> ts_le(#[trigger] out@[i].start_key(), key@),
                p < len ==> ts_lt(key@, out@[p as int].start_key()),
            decreases len - p,
        {
            let t = out[p].start_time();
            if key.before(&t) {
                break;
            }
            p = p + 1;
        }
        let ghost before = out@;
        proof {
            assert forall|i: int| p <= i < before.len() implies ts_lt(
                x.start_key(),
                #[trigger] before[i].start_key(),
            ) by {
                if i > p {
                    assert(ts_le(before[p as int].start_key(), before[i].start_key()));
                }
            }
            assert forall|k: (int, int)| #[trigger]
                starting_at(before.insert(p as int, x), k) == starting_at(all.take(n + 1), k) by {
                lemma_insert_groups(before, p as int, x, k);
                assert(all.take(n + 1) =~= all.take(n).push(x));
                all.take(n).lemma_filter_push(x, starts_at::<T>(k));
            }
        }
        out.insert(p, x);
        proof {
            assert(out@ =~= before.insert(p as int, x));
            assert forall|i: int, j: int| 0 <= i < j < out@.len() implies ts_le(
                #[trigger] out@[i].start_key(),
                #[trigger] out@[j].start_key(),
            ) by {
                if i < p && j < p {
                    assert(out@[i] == before[i] && out@[j] == before[j]);
                } else if i < p && j == p {
                    assert(out@[i] == before[i]);
                } else if i < p && j > p {
                    assert(out@[i] == before[i] && out@[j] == before[j - 1]);
                    assert(ts_le(before[i].start_key(), x.start_key()));
                } else if i == p {
                    assert(out@[j] == before[j - 1]);
                } else {
                    assert(out@[i] == before[i - 1] && out@[j] == before[j - 1]);
                }
            }
            n = n + 1;
        }
    }
    proof {
        assert(all.take(n) =~= all);
    }
    out
}

/// Two programmes that show the same thing: same channel, start, stop and
/// title.
pub open spec fn same_showing(a: Programme, b: Programme) -> bool {
    a.channel_id@ == b.channel_id@ && a.start@ == b.start@ && a.stop@ == b.stop@ && a.title@
        == b.title@
}

/// The programmes with each one left out that shows the same thing as the
/// last one kept before it (`dedup_by` on a run of repeats).
pub open spec fn drop_repeats(s: Seq<Programme>) -> Seq<Programme>
    decreases s.len(),
{
    if s.len() == 0 {
        s
    } else {
        let d = drop_repeats(s.drop_last());
        if d.len() > 0 && same_showing(d.last(), s.last()) {
            d
        } else {
            d.push(s.last())
        }
    }
}

proof fn lemma_drop_repeats_from(s: Seq<Programme>)
    ensures
        forall|i: int|
            0 <= i < drop_repeats(s).len() ==> exists|j: int|
                0 <= j < s.len() && s[j] == #[trigger] drop_repeats(s)[i],
    decreases s.len(),
{
    if s.len() > 0 {
        let t = s.drop_last();
        lemma_drop_repeats_from(t);
        let d = drop_repeats(t);
        assert forall|i: int| 0 <= i < drop_repeats(s).len() implies exists|j: int|
            0 <= j < s.len() && s[j] == #[trigger] drop_repeats(s)[i] by {
            if i < d.len() {
                assert(drop_repeats(s)[i] == d[i]);
                let j = choose|j: int| 0 <= j < t.len() && t[j] == d[i];
                assert(s[j] == t[j]);
            } else {
                assert(drop_repeats(s)[i] == s.last());
                assert(s[s.len() - 1] == s.last());
            }
        }
    }
}

/// After repeats are dropped, no programme shows the same thing as the one
/// right before it.
pub proof fn law_no_adjacent_repeats(s: Seq<Programme>)
    ensures
        forall|i: int|
            0 <= i < drop_repeats(s).len() - 1 ==> !same_showing(
                #[trigger] drop_repeats(s)[i],
                drop_repeats(s)[i + 1],
            ),
    decreases s.len(),
{
    if s.len() > 0 {
        let t = s.drop_last();
        law_no_adjacent_repeats(t);
        let d = drop_repeats(t);
        assert forall|i: int| 0 <= i < drop_repeats(s).len() - 1 implies !same_showing(
            #[trigger] drop_repeats(s)[i],
            drop_repeats(s)[i + 1],
        ) by {
            if i + 1 < d.len() {
                assert(drop_repeats(s)[i] == d[i] && drop_repeats(s)[i + 1] == d[i + 1]);
            } else {
                assert(drop_repeats(s)[i] == d.last());
            }
        }
    }
}

/// Dropping repeats from a schedule in order of start keeps it in order.
pub proof fn law_drop_repeats_keeps_order(s: Seq<Programme>)
    requires
        sorted_by_start(s),
    ensures
        sorted_by_start(drop_repeats(s)),
    decreases s.len(),
{
    if s.len() > 0 {
        let t = s.drop_last();
        assert forall|i: int, j: int| 0 <= i < j < t.len() implies ts_le(
            #[trigger] t[i].start_key(),
            #[trigger] t[j].start_key(),
        ) by {
            assert(t[i] == s[i] && t[j] == s[j]);
        }
        law_drop_repeats_keeps_order(t);
        lemma_drop_repeats_from(t);
        let d = drop_repeats(t);
        let r = drop_repeats(s);
        assert forall|i: int, j: int| 0 <= i < j < r.len() implies ts_le(
            #[trigger] r[i].start_key(),
            #[trigger] r[j].start_key(),
        ) by {
            if j < d.len() {
                assert(r[i] == d[i] && r[j] == d[j]);
            } else {
                assert(r[j] == s.last());
                assert(r[i] == d[i]);
                let k = choose|k: int| 0 <= k < t.len() && t[k] == #[trigger] d[i];
                assert(s[k] == t[k]);
                assert(ts_le(s[k].start_key(), s[s.len() - 1].start_key()));
            }
        }
    }
}

fn same_showing_exec(a: &Programme, b: &Programme) -> (r: bool)
    ensures
        r == same_showing(*a, *b),
{
    a.channel_id == b.channel_id && a.start.same(&b.start) && a.stop.same(&b.stop) && a.title
        == b.title
}

/// The programmes without repeats of the one kept before.
pub fn remove_repeats(items: Vec<Programme>) -> (res: Vec<Programme>)
    ensures
        res@ == drop_repeats(items@),
{
    let ghost all = items@;
    let mut rest = items;
    let mut out: Vec<Programme> = Vec::new();
    let ghost mut n: int = 0;
    proof {
        assert(all.skip(0) =~= all);
        assert(all.take(0) =~= Seq::<Programme>::empty());
    }
    while rest.len() > 0
        invariant
            0 <= n <= all.len(),
            rest@ == all.skip(n),
            out@ == drop_repeats(all.take(n)),
        decreases rest.len(),
    {
        let x = rest.remove(0);
        proof {
            assert(x == all[n]);
            assert(rest@ =~= all.skip(n + 1));
            assert(all.take(n + 1).drop_last() =~= all.take(n));
            assert(all.take(n + 1).last() == x);
        }
        let len = out.len();
        let repeat = len > 0 && same_showing_exec(&out[len - 1], &x);
        if !repeat {
            out.push(x);
        }
        proof {
            n = n + 1;
        }
    }
    proof {
        assert(all.take(n) =~= all);
    }
    out
}

} // verus!
