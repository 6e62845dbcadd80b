//! The multi-track merge: every message of every track, ordered by absolute
//! tick, ties broken by track and then by position within the track.
use vstd::prelude::*;
use crate::raw::RawEvent;

verus! {

/// The tracks as sequences of events.
pub open spec fn tracks_view(tracks: Seq<Vec<RawEvent>>) -> Seq<Seq<RawEvent>> {
    tracks.map_values(|t: Vec<RawEvent>| t@)
}

/// The absolute tick of message `i` of a track: the sum of the deltas up to
/// and including its own.
pub open spec fn abs_tick(track: Seq<RawEvent>, i: int) -> int
    decreases i + 1,
{
    if i < 0 || i >= track.len() {
        0
    } else {
        abs_tick(track, i - 1) + track[i].delta
    }
}

/// The absolute ticks of a track fit in 64 bits.
pub open spec fn track_fits(track: Seq<RawEvent>) -> bool {
    abs_tick(track, track.len() - 1) <= u64::MAX
}

/// `e` names a message: a track index and a position within that track.
pub open spec fn is_entry(tracks: Seq<Seq<RawEvent>>, e: (usize, usize)) -> bool {
    e.0 < tracks.len() && e.1 < tracks[e.0 as int].len()
}

/// The absolute tick of the message that `e` names.
pub open spec fn entry_tick(tracks: Seq<Seq<RawEvent>>, e: (usize, usize)) -> int {
    abs_tick(tracks[e.0 as int], e.1 as int)
}

/// `a` comes before `b`: by tick, then by track, then by position.
pub open spec fn entry_before(tracks: Seq<Seq<RawEvent>>, a: (usize, usize), b: (usize, usize)) -> bool {
    let ta = entry_tick(tracks, a);
    let tb = entry_tick(tracks, b);
    ta < tb || (ta == tb && (a.0 < b.0 || (a.0 == b.0 && a.1 < b.1)))
}

/// `m` lists every message of `tracks` exactly once, in merge order.
pub open spec fn is_merge_order(tracks: Seq<Seq<RawEvent>>, m: Seq<(usize, usize)>) -> bool {
    &&& forall|i: int, j: int| 0 <= i < j < m.len() ==> entry_before(tracks, m[i], m[j])
    &&& forall|e: (usize, usize)| is_entry(tracks, e) <==> m.contains(e)
}

pub proof fn lemma_abs_tick_mono(track: Seq<RawEvent>, i: int, j: int)
    requires
        0 <= i <= j < track.len(),
    ensures
        abs_tick(track, i) <= abs_tick(track, j),
    decreases j - i,
{
    if i < j {
        lemma_abs_tick_mono(track, i, j - 1);
    }
}

/// The number of messages not yet taken, when track `t` is taken up to
/// `cur[t]`, summed over the first `k` tracks.
spec fn pending(tracks: Seq<Seq<RawEvent>>, cur: Seq<usize>, k: int) -> int
    decreases k,
{
    if k <= 0 {
        0
    } else {
        pending(tracks, cur, k - 1) + (tracks[k - 1].len() - cur[k - 1])
    }
}

proof fn lemma_pending_step(tracks: Seq<Seq<RawEvent>>, cur: Seq<usize>, b: int, k: int)
    requires
        0 <= b < cur.len(),
        k <= cur.len(),
        cur[b] < usize::MAX,
    ensures
        b < k ==> pending(tracks, cur.update(b, (cur[b] + 1) as usize), k) == pending(
            tracks,
            cur,
            k,
        ) - 1,
        b >= k ==> pending(tracks, cur.update(b, (cur[b] + 1) as usize), k) == pending(
            tracks,
            cur,
            k,
        ),
    decreases k,
{
    if k > 0 {
        lemma_pending_step(tracks, cur, b, k - 1);
    }
}

proof fn lemma_pending_nonneg(tracks: Seq<Seq<RawEvent>>, cur: Seq<usize>, k: int)
    requires
        k <= cur.len(),
        k <= tracks.len(),
        forall|t: int| 0 <= t < cur.len() ==> cur[t] <= tracks[t].len(),
    ensures
        pending(tracks, cur, k) >= 0,
    decreases k,
{
    if k > 0 {
        lemma_pending_nonneg(tracks, cur, k - 1);
    }
}

/// The merge order of `tracks`.
pub fn merge_order(tracks: &Vec<Vec<RawEvent>>) -> (m: Vec<(usize, usize)>)
    requires
        forall|t: int| 0 <= t < tracks@.len() ==> track_fits(#[trigger] tracks@[t]@),
    ensures
        is_merge_order(tracks_view(tracks@), m@),
{
    let ghost tv = tracks_view(tracks@);
    let n = tracks.len();
    let mut cur: Vec<usize> = Vec::new();
    let mut heads: Vec<u64> = Vec::new();
    let mut t: usize = 0;
    while t < n
        invariant
            n == tracks@.len(),
            tv == tracks_view(tracks@),
            t <= n,
            cur@.len() == t,
            heads@.len() == t,
            forall|u: int| 0 <= u < t ==> cur@[u] == 0,
            forall|u: int| 0 <= u < t && 0 < tv[u].len() ==> heads@[u] == abs_tick(tv[u], 0),
        decreases n - t,
    {
        proof {
            assert(tv[t as int] == tracks@[t as int]@);
            assert(abs_tick(tv[t as int], -1) == 0);
        }
        cur.push(0);
        if tracks[t].len() > 0 {
            heads.push(tracks[t][0].delta as u64);
        } else {
            heads.push(0);
        }
        t = t + 1;
    }
    let mut m: Vec<(usize, usize)> = Vec::new();
    loop
        invariant
            n == tracks@.len(),
            tv == tracks_view(tracks@),
            forall|u: int| 0 <= u < n ==> track_fits(#[trigger] tv[u]),
            cur@.len() == n,
            heads@.len() == n,
            forall|u: int| 0 <= u < n ==> cur@[u] <= tv[u].len(),
            forall|u: int|
                0 <= u < n && cur@[u] < tv[u].len() ==> heads@[u] == abs_tick(
                    tv[u],
                    cur@[u] as int,
                ),
            forall|i: int, j: int| 0 <= i < j < m@.len() ==> entry_before(tv, m@[i], m@[j]),
            forall|e: (usize, usize)|
                #[trigger] m@.contains(e) <==> (is_entry(tv, e) && e.1 < cur@[e.0 as int]),
            m@.len() > 0 ==> forall|u: int|
                0 <= u < n && cur@[u] < tv[u].len() ==> entry_before(
                    tv,
                    m@.last(),
                    (u as usize, cur@[u]),
                ),
        decreases pending(tv, cur@, n as int),
    {
        assert(forall|u: int| 0 <= u < n ==> tv[u] == tracks@[u]@);
        let mut best: usize = n;
        let mut u: usize = 0;
        while u < n
            invariant
                n == cur@.len(),
                n == heads@.len(),
                n == tracks@.len(),
                tv == tracks_view(tracks@),
                u <= n,
                best == n || (best < u && cur@[best as int] < tv[best as int].len()),
                best == n ==> forall|w: int| 0 <= w < u ==> cur@[w] >= tv[w].len(),
                best < n ==> forall|w: int|
                    0 <= w < u && cur@[w] < tv[w].len() ==> (heads@[best as int] < heads@[w]
                        || (heads@[best as int] == heads@[w] && best <= w)),
            decreases n - u,
        {
            if cur[u] < tracks[u].len() {
                if best == n || heads[u] < heads[best] {
                    best = u;
                }
            }
            u = u + 1;
        }
        if best == n {
            proof {
                assert forall|e: (usize, usize)| is_entry(tv, e) implies m@.contains(e) by {
                    assert(cur@[e.0 as int] >= tv[e.0 as int].len());
                }
            }
            return m;
        }
        let c = cur[best];
        let len_b = tracks[best].len();
        assert(tv[best as int] == tracks@[best as int]@);
        assert(c < len_b);
        let ghost old_m = m@;
        let ghost old_cur = cur@;
        let ghost old_heads = heads@;
        let entry = (best, c);
        m.push(entry);
        cur.set(best, c + 1);
        if c + 1 < tracks[best].len() {
            proof {
                lemma_abs_tick_mono(tv[best as int], c + 1, tv[best as int].len() - 1);
            }
            let h = heads[best] + tracks[best][c + 1].delta as u64;
            heads.set(best, h);
        }
        proof {
            lemma_pending_step(tv, old_cur, best as int, n as int);
            lemma_pending_nonneg(tv, cur@, n as int);
            assert forall|u: int|
                0 <= u < n && cur@[u] < tv[u].len() implies entry_before(
                tv,
                entry,
                (u as usize, cur@[u]),
            ) by {
                if u != best {
                    assert(old_heads[u] == abs_tick(tv[u], cur@[u] as int));
                }
            }
            assert forall|i: int, j: int| 0 <= i < j < m@.len() implies entry_before(
                tv,
                m@[i],
                m@[j],
            ) by {
                if j == m@.len() - 1 && i < j {
                    assert(old_m.contains(m@[i]));
                    assert(entry_before(tv, old_m.last(), entry));
                    if i < old_m.len() - 1 {
                        assert(entry_before(tv, old_m[i], old_m.last()));
                    }
                }
            }
            assert forall|e: (usize, usize)|
                m@.contains(e) <==> (is_entry(tv, e) && e.1 < cur@[e.0 as int]) by {
                assert(m@ == old_m.push(entry));
                assert(cur@ == old_cur.update(best as int, (c + 1) as usize));
                assert(is_entry(tv, entry));
                if e == entry {
                    assert(m@[m@.len() - 1] == e);
                } else {
                    if m@.contains(e) {
                        let k = choose|k: int| 0 <= k < m@.len() && m@[k] == e;
                        assert(old_m[k] == e);
                        assert(old_m.contains(e));
                    }
                    if old_m.contains(e) {
                        let k = choose|k: int| 0 <= k < old_m.len() && old_m[k] == e;
                        assert(m@[k] == e);
                    }
                    assert(m@.contains(e) == old_m.contains(e));
                    assert(old_m.contains(e) <==> (is_entry(tv, e) && e.1 < old_cur[e.0 as int]));
                    if e.0 == best {
                        assert(e.1 != c);
                    }
                    assert((is_entry(tv, e) && e.1 < old_cur[e.0 as int]) <==> (is_entry(tv, e)
                        && e.1 < cur@[e.0 as int]));
                }
            }
        }
    }
}

/// Sequences ordered by `entry_before` that hold the same entries are equal.
proof fn lemma_sorted_unique(
    tracks: Seq<Seq<RawEvent>>,
    m1: Seq<(usize, usize)>,
    m2: Seq<(usize, usize)>,
)
    requires
        forall|i: int, j: int| 0 <= i < j < m1.len() ==> entry_before(tracks, m1[i], m1[j]),
        forall|i: int, j: int| 0 <= i < j < m2.len() ==> entry_before(tracks, m2[i], m2[j]),
        forall|e: (usize, usize)| m1.contains(e) <==> m2.contains(e),
    ensures
        m1 == m2,
    decreases m1.len(),
{
    if m1.len() == 0 {
        if m2.len() > 0 {
            assert(m2.contains(m2[0]));
        }
        assert(m1 =~= m2);
    } else {
        assert(m1.contains(m1[0]));
        let j = choose|j: int| 0 <= j < m2.len() && m2[j] == m1[0];
        assert(m2.contains(m2[0]));
        let k = choose|k: int| 0 <= k < m1.len() && m1[k] == m2[0];
        if j > 0 {
            assert(entry_before(tracks, m2[0], m2[j]));
            if k > 0 {
                assert(entry_before(tracks, m1[0], m1[k]));
            }
        }
        assert(m1[0] == m2[0]);
        let r1 = m1.drop_first();
        let r2 = m2.drop_first();
        assert forall|e: (usize, usize)| r1.contains(e) <==> r2.contains(e) by {
            if r1.contains(e) {
                let a = choose|a: int| 0 <= a < r1.len() && r1[a] == e;
                assert(m1[a + 1] == e);
                assert(entry_before(tracks, m1[0], m1[a + 1]));
                assert(m2.contains(e));
                let b = choose|b: int| 0 <= b < m2.len() && m2[b] == e;
                assert(b != 0);
                assert(r2[b - 1] == e);
            }
            if r2.contains(e) {
                let a = choose|a: int| 0 <= a < r2.len() && r2[a] == e;
                assert(m2[a + 1] == e);
                assert(entry_before(tracks, m2[0], m2[a + 1]));
                assert(m1.contains(e));
                let b = choose|b: int| 0 <= b < m1.len() && m1[b] == e;
                assert(b != 0);
                assert(r1[b - 1] == e);
            }
        }
        lemma_sorted_unique(tracks, r1, r2);
        assert(m1 =~= seq![m1[0]] + r1);
        assert(m2 =~= seq![m2[0]] + r2);
    }
}

/// A set of tracks has one merge order.
pub proof fn lemma_merge_order_unique(
    tracks: Seq<Seq<RawEvent>>,
    m1: Seq<(usize, usize)>,
    m2: Seq<(usize, usize)>,
)
    requires
        is_merge_order(tracks, m1),
        is_merge_order(tracks, m2),
    ensures
        m1 == m2,
{
    lemma_sorted_unique(tracks, m1, m2);
}

/// Tracks that hold no message have the empty merge order.
pub proof fn lemma_merge_order_empty(tracks: Seq<Seq<RawEvent>>, m: Seq<(usize, usize)>)
    requires
        forall|t: int| 0 <= t < tracks.len() ==> (#[trigger] tracks[t]).len() == 0,
        is_merge_order(tracks, m),
    ensures
        m.len() == 0,
{
    if m.len() > 0 {
        assert(m.contains(m[0]));
        assert(tracks[m[0].0 as int].len() == 0);
    }
}

} // verus!
