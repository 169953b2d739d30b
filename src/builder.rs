//! The runtime side of a dynamic builder: one optional slot per field, set one
//! at a time, and a build step that hands out every value or reports every
//! slot still unset.

use vstd::prelude::*;

verus! {

/// The positions of the unset slots of `s`, in increasing order.
pub open spec fn unset_positions<V>(s: Seq<Option<V>>) -> Seq<usize>
    decreases s.len(),
{
    if s.len() == 0 {
        Seq::empty()
    } else if s.last() is None {
        unset_positions(s.drop_last()).push((s.len() - 1) as usize)
    } else {
        unset_positions(s.drop_last())
    }
}

pub open spec fn all_set<V>(s: Seq<Option<V>>) -> bool {
    forall|i: int| 0 <= i < s.len() ==> s[i] is Some
}

/// The values held by the slots of `s`.
pub open spec fn payloads<V>(s: Seq<Option<V>>) -> Seq<V> {
    s.map_values(|o: Option<V>| o->Some_0)
}

/// `s` after the writes `w` are applied in order, each setting the slot at its
/// position to its value.
pub open spec fn after_writes<V>(s: Seq<Option<V>>, w: Seq<(usize, V)>) -> Seq<Option<V>>
    decreases w.len(),
{
    if w.len() == 0 {
        s
    } else {
        let p = after_writes(s, w.drop_last());
        let (i, v) = w.last();
        if i < p.len() {
            p.update(i as int, Some(v))
        } else {
            p
        }
    }
}

/// Some write of `w` is at position `p`.
pub open spec fn writes_to<V>(w: Seq<(usize, V)>, p: int) -> bool {
    exists|k: int| 0 <= k < w.len() && w[k].0 == p
}

/// The slots of a builder under construction.
pub struct Slots<V> {
    slots: Vec<Option<V>>,
}

impl<V> View for Slots<V> {
    type V = Seq<Option<V>>;

    closed spec fn view(&self) -> Seq<Option<V>> {
        self.slots@
    }
}

impl<V> Slots<V> {
    /// A builder whose slots start as `initial`: unset, or pre-filled with a
    /// default.
    pub fn new(initial: Vec<Option<V>>) -> (r: Self)
        ensures
            r@ == initial@,
    {
        Slots { slots: initial }
    }

    pub fn len(&self) -> (r: usize)
        ensures
            r == self@.len(),
    {
        self.slots.len()
    }

    /// Fills the slot at `i` with `v`, replacing what it held.
    pub fn set(self, i: usize, v: V) -> (r: Self)
        requires
            i < self@.len(),
        ensures
            r@ == self@.update(i as int, Some(v)),
    {
        let mut slots = self.slots;
        slots.set(i, Some(v));
        Slots { slots }
    }

    /// The positions of the unset slots, in increasing order.
    pub fn unset(&self) -> (r: Vec<usize>)
        ensures
            r@ == unset_positions(self@),
    {
        let mut r: Vec<usize> = Vec::new();
        let mut i: usize = 0;
        while i < self.slots.len()
            invariant
                i <= self@.len(),
                r@ == unset_positions(self@.take(i as int)),
            decreases self@.len() - i,
        {
            assert(self@.take(i + 1).drop_last() =~= self@.take(i as int));
            if self.slots[i].is_none() {
                r.push(i);
            }
            i = i + 1;
        }
        assert(self@.take(i as int) =~= self@);
        r
    }

    /// The labels of the unset slots, in slot order: `labels` holds one label
    /// per slot, such as the error that names the slot's field.
    pub fn report<E>(&self, labels: Vec<E>) -> (r: Vec<E>)
        requires
            labels@.len() == self@.len(),
        ensures
            r@ == unset_positions(self@).map_values(|p: usize| labels@[p as int]),
    {
        let ghost all = labels@;
        let mut labels = labels;
        let n = self.slots.len();
        let mut r: Vec<E> = Vec::new();
        let mut i: usize = 0;
        while labels.len() > 0
            invariant
                n == self@.len(),
                all.len() == self@.len(),
                i <= self@.len(),
                labels@ == all.skip(i as int),
                r@ == unset_positions(self@.take(i as int)).map_values(|p: usize| all[p as int]),
            decreases labels@.len(),
        {
            assert(self@.take(i + 1).drop_last() =~= self@.take(i as int));
            let label = labels.remove(0);
            assert(label == all[i as int]);
            if self.slots[i].is_none() {
                r.push(label);
            }
            i = i + 1;
            assert(labels@ =~= all.skip(i as int));
            assert(r@ =~= unset_positions(self@.take(i as int)).map_values(|p: usize| all[p as int]));
        }
        assert(self@.take(i as int) =~= self@);
        r
    }

    /// Every value, in slot order, when all slots are set; else the positions
    /// of all unset slots, in increasing order.
    pub fn build(self) -> (r: Result<Vec<V>, Vec<usize>>)
        ensures
            r is Ok <==> all_set(self@),
            r is Ok ==> r->Ok_0@ == payloads(self@),
            r is Err ==> r->Err_0@ == unset_positions(self@),
    {
        let n = self.len();
        let missing = self.unset();
        proof {
            assert(self@.len() == n);
            lemma_unset_positions(self@);
        }
        if missing.len() > 0 {
            return Err(missing);
        }
        let ghost s = self@;
        let mut slots = self.slots;
        let mut out: Vec<V> = Vec::new();
        while slots.len() > 0
            invariant
                all_set(s),
                out@.len() + slots@.len() == s.len(),
                slots@ == s.skip(out@.len() as int),
                out@ == payloads(s.take(out@.len() as int)),
            decreases slots@.len(),
        {
            let ghost k = out@.len() as int;
            let first = slots.remove(0);
            assert(first == s[k]);
            match first {
                Some(v) => {
                    out.push(v);
                },
                None => {
                    return vstd::pervasive::unreached();
                },
            }
            assert(slots@ =~= s.skip(k + 1));
            assert(out@ =~= payloads(s.take(k + 1)));
        }
        assert(s.take(s.len() as int) =~= s);
        Ok(out)
    }
}

/// The unset positions are exactly the positions of the unset slots, so
/// there are none just when all slots are set.
pub proof fn lemma_unset_positions<V>(s: Seq<Option<V>>)
    requires
        s.len() <= usize::MAX,
    ensures
        forall|k: int|
            0 <= k < unset_positions(s).len() ==> {
                &&& unset_positions(s)[k] < s.len()
                &&& s[unset_positions(s)[k] as int] is None
            },
        forall|i: int| 0 <= i < s.len() && s[i] is None ==> unset_positions(s).contains(i as usize),
        unset_positions(s).len() == 0 <==> all_set(s),
    decreases s.len(),
{
    if s.len() > 0 {
        let t = s.drop_last();
        lemma_unset_positions(t);
        let p = unset_positions(t);
        assert forall|k: int| 0 <= k < unset_positions(s).len() implies {
            &&& unset_positions(s)[k] < s.len()
            &&& s[unset_positions(s)[k] as int] is None
        } by {
            if k < p.len() {
                assert(unset_positions(s)[k] == p[k]);
                assert(s[p[k] as int] == t[p[k] as int]);
            }
        }
        assert forall|i: int| 0 <= i < s.len() && s[i] is None implies unset_positions(s).contains(
            i as usize,
        ) by {
            if i < s.len() - 1 {
                assert(t[i] is None);
                let k = choose|k: int| 0 <= k < p.len() && p[k] == i as usize;
                if s.last() is None {
                    assert(unset_positions(s)[k] == i as usize);
                }
            } else {
                assert(unset_positions(s)[p.len() as int] == i as usize);
            }
        }
        if all_set(s) {
            assert(all_set(t)) by {
                assert forall|i: int| 0 <= i < t.len() implies t[i] is Some by {
                    assert(s[i] is Some);
                }
            }
        }
        if unset_positions(s).len() == 0 {
            assert forall|i: int| 0 <= i < s.len() implies s[i] is Some by {
                if s[i] is None {
                    assert(unset_positions(s).contains(i as usize));
                }
            }
        }
    }
}

/// Slots that no write touches keep what they held; a slot written exactly
/// once holds the value of that write; a written slot is set.
pub proof fn lemma_after_writes<V>(s: Seq<Option<V>>, w: Seq<(usize, V)>)
    ensures
        after_writes(s, w).len() == s.len(),
        forall|p: int|
            0 <= p < s.len() && (forall|k: int| 0 <= k < w.len() ==> w[k].0 != p) ==> #[trigger] after_writes(
                s,
                w,
            )[p] == s[p],
        forall|k: int|
            0 <= k < w.len() && w[k].0 < s.len() ==> (#[trigger] after_writes(s, w)[w[k].0 as int]) is Some,
        forall|k: int|
            0 <= k < w.len() && w[k].0 < s.len() && (forall|m: int|
                0 <= m < w.len() && m != k ==> w[m].0 != w[k].0) ==> #[trigger] after_writes(s, w)[w[k].0 as int]
                == Some(w[k].1),
    decreases w.len(),
{
    if w.len() > 0 {
        let d = w.drop_last();
        lemma_after_writes(s, d);
        assert forall|p: int|
            0 <= p < s.len() && (forall|k: int| 0 <= k < w.len() ==> w[k].0 != p) implies #[trigger] after_writes(
            s,
            w,
        )[p] == s[p] by {
            assert forall|k: int| 0 <= k < d.len() implies d[k].0 != p by {
                assert(w[k] == d[k]);
            }
            assert(w[w.len() - 1].0 != p);
        }
        assert forall|k: int| 0 <= k < w.len() && w[k].0 < s.len() implies (#[trigger] after_writes(s, w)[w[k].0 as int]) is Some by {
            if k < w.len() - 1 {
                assert(d[k] == w[k]);
            }
        }
        assert forall|k: int|
            0 <= k < w.len() && w[k].0 < s.len() && (forall|m: int|
                0 <= m < w.len() && m != k ==> w[m].0 != w[k].0) implies #[trigger] after_writes(s, w)[w[k].0 as int]
            == Some(w[k].1) by {
            let p = w[k].0 as int;
            if k < w.len() - 1 {
                assert(d[k] == w[k]);
                assert(w[w.len() - 1].0 != p);
                assert forall|m: int| 0 <= m < d.len() && m != k implies d[m].0 != d[k].0 by {
                    assert(w[m] == d[m]);
                }
            } else {
                assert forall|m: int| 0 <= m < d.len() implies d[m].0 != p by {
                    assert(w[m] == d[m]);
                }
            }
        }
    }
}

/// Building after every slot but `j` was written, where `j` started unset,
/// fails and reports `j` alone.
pub proof fn lemma_build_reports_the_omitted_slot<V>(s: Seq<Option<V>>, w: Seq<(usize, V)>, j: int)
    requires
        s.len() <= usize::MAX,
        0 <= j < s.len(),
        s[j] is None,
        forall|k: int| 0 <= k < w.len() ==> w[k].0 != j,
        forall|p: int|
            0 <= p < s.len() && p != j ==> #[trigger] writes_to(w, p),
    ensures
        !all_set(after_writes(s, w)),
        unset_positions(after_writes(s, w)) == seq![j as usize],
{
    let t = after_writes(s, w);
    lemma_after_writes(s, w);
    lemma_unset_positions(t);
    assert(t[j] is None);
    let u = unset_positions(t);
    assert(u.contains(j as usize));
    assert forall|k: int| 0 <= k < u.len() implies u[k] == j as usize by {
        let p = u[k] as int;
        if p != j {
            assert(writes_to(w, p));
            let m = choose|m: int| 0 <= m < w.len() && w[m].0 == p;
            assert(t[w[m].0 as int] is Some);
        }
    }
    lemma_unset_positions_increase(t);
    assert(u.len() == 1) by {
        if u.len() > 1 {
            assert(u[0] < u[1]);
        }
    }
    assert(u =~= seq![j as usize]);
}

/// Building after each slot was written exactly once succeeds and hands out
/// the written values, each at its slot.
pub proof fn lemma_build_after_all_writes<V>(s: Seq<Option<V>>, w: Seq<(usize, V)>)
    requires
        s.len() <= usize::MAX,
        forall|p: int|
            0 <= p < s.len() ==> #[trigger] writes_to(w, p),
        forall|k: int, m: int| 0 <= k < m < w.len() ==> w[k].0 != w[m].0,
        forall|k: int| 0 <= k < w.len() ==> w[k].0 < s.len(),
    ensures
        all_set(after_writes(s, w)),
        forall|k: int|
            0 <= k < w.len() ==> #[trigger] payloads(after_writes(s, w))[w[k].0 as int] == w[k].1,
{
    let t = after_writes(s, w);
    lemma_after_writes(s, w);
    assert forall|p: int| 0 <= p < t.len() implies t[p] is Some by {
        assert(writes_to(w, p));
        let k = choose|k: int| 0 <= k < w.len() && w[k].0 == p;
        assert(t[w[k].0 as int] is Some);
    }
    assert forall|k: int| 0 <= k < w.len() implies #[trigger] payloads(t)[w[k].0 as int] == w[k].1 by {
        let p = w[k].0 as int;
        assert forall|m: int| 0 <= m < w.len() && m != k implies w[m].0 != p by {
            if m < k {
                assert(w[m].0 != w[k].0);
            } else {
                assert(w[k].0 != w[m].0);
            }
        }
        assert(t[w[k].0 as int] == Some(w[k].1));
    }
}

/// The unset positions come in strictly increasing order.
pub proof fn lemma_unset_positions_increase<V>(s: Seq<Option<V>>)
    requires
        s.len() <= usize::MAX,
    ensures
        forall|a: int, b: int|
            0 <= a < b < unset_positions(s).len() ==> unset_positions(s)[a] < unset_positions(s)[b],
    decreases s.len(),
{
    if s.len() > 0 {
        let t = s.drop_last();
        lemma_unset_positions_increase(t);
        lemma_unset_positions(t);
        let p = unset_positions(t);
        let u = unset_positions(s);
        assert forall|a: int, b: int| 0 <= a < b < u.len() implies u[a] < u[b] by {
            if b < p.len() {
                assert(u[a] == p[a] && u[b] == p[b]);
            } else {
                assert(u[a] == p[a]);
                assert(u[b] == (s.len() - 1) as usize);
            }
        }
    }
}

} // verus!
