//! A map from run numbers, kept in ascending order of the runs.

use vstd::prelude::*;

verus! {

/// What is known of each run, by run number.
pub struct RunMap<V> {
    items: Vec<(u64, V)>,
}

/// Are the run numbers ascending, none twice?
pub open spec fn keys_ascend<V>(items: Seq<(u64, V)>) -> bool {
    forall|i: int, j: int| 0 <= i < j < items.len() ==> (#[trigger] items[i]).0 < (#[trigger] items[j]).0
}

/// The map of a list of runs and values.
pub open spec fn map_of<V>(items: Seq<(u64, V)>) -> Map<u64, V>
    decreases items.len(),
{
    if items.len() == 0 {
        Map::empty()
    } else {
        map_of(items.drop_last()).insert(items.last().0, items.last().1)
    }
}

proof fn lemma_map_of<V>(items: Seq<(u64, V)>, run: u64)
    requires
        keys_ascend(items),
    ensures
        map_of(items).dom().contains(run) <==> exists|i: int|
            0 <= i < items.len() && (#[trigger] items[i]).0 == run,
        forall|i: int|
            0 <= i < items.len() && (#[trigger] items[i]).0 == run ==> map_of(items)[run]
                == items[i].1,
    decreases items.len(),
{
    if items.len() > 0 {
        let rest = items.drop_last();
        let last = items[items.len() - 1];
        assert forall|i: int, j: int| 0 <= i < j < rest.len() implies (#[trigger] rest[i]).0 < (
        #[trigger] rest[j]).0 by {
            assert(rest[i] == items[i] && rest[j] == items[j]);
        }
        lemma_map_of(rest, run);
        if last.0 == run {
            assert(items[items.len() - 1].0 == run);
            assert forall|i: int| 0 <= i < items.len() && (#[trigger] items[i]).0 == run implies map_of(
                items,
            )[run] == items[i].1 by {
                if i < items.len() - 1 {
                    assert(items[i].0 < last.0);
                }
            }
        } else {
            if map_of(items).dom().contains(run) {
                let i = choose|i: int| 0 <= i < rest.len() && (#[trigger] rest[i]).0 == run;
                assert(items[i].0 == run);
            }
            assert forall|i: int| 0 <= i < items.len() && (#[trigger] items[i]).0 == run implies
                map_of(items)[run] == items[i].1 && map_of(items).dom().contains(run) by {
                assert(i < rest.len());
                assert(rest[i].0 == run);
            }
        }
    }
}

proof fn lemma_finite<V>(items: Seq<(u64, V)>)
    ensures
        map_of(items).dom().finite(),
    decreases items.len(),
{
    if items.len() > 0 {
        lemma_finite(items.drop_last());
        assert(map_of(items).dom() =~= map_of(items.drop_last()).dom().insert(items.last().0));
    } else {
        assert(map_of(items).dom() =~= Set::<u64>::empty());
    }
}

impl<V> View for RunMap<V> {
    type V = Map<u64, V>;

    closed spec fn view(&self) -> Map<u64, V> {
        map_of(self.items@)
    }
}

impl<V> RunMap<V> {
    #[verifier::type_invariant]
    closed spec fn in_order(&self) -> bool {
        keys_ascend(self.items@)
    }

    /// The runs and values, in ascending order of the runs.
    pub closed spec fn list(&self) -> Seq<(u64, V)> {
        self.items@
    }

    pub fn new() -> (r: Self)
        ensures
            r@ == Map::<u64, V>::empty(),
            r.list().len() == 0,
    {
        RunMap { items: Vec::new() }
    }

    /// Where the run stands, or where it would.
    fn place(&self, run: u64) -> (r: (usize, bool))
        ensures
            r.0 <= self.items@.len(),
            r.1 ==> r.0 < self.items@.len() && self.items@[r.0 as int].0 == run,
            !r.1 ==> !self@.dom().contains(run),
            forall|i: int| 0 <= i < r.0 ==> (#[trigger] self.items@[i]).0 < run,
            forall|i: int|
                r.0 <= i < self.items@.len() && !r.1 ==> (#[trigger] self.items@[i]).0 > run,
            r.1 <==> self@.dom().contains(run),
    {
        proof {
            use_type_invariant(self);
            lemma_map_of(self.items@, run);
        }
        let mut i: usize = 0;
        while i < self.items.len() && self.items[i].0 < run
            invariant
                i <= self.items@.len(),
                forall|k: int| 0 <= k < i ==> (#[trigger] self.items@[k]).0 < run,
            decreases self.items@.len() - i,
        {
            i = i + 1;
        }
        let here = i < self.items.len() && self.items[i].0 == run;
        if here {
            assert(self.items@[i as int].0 == run);
        }
        (i, here)
    }

    pub fn contains(&self, run: u64) -> (r: bool)
        ensures
            r == self@.dom().contains(run),
    {
        self.place(run).1
    }

    pub fn get(&self, run: u64) -> (r: Option<&V>)
        ensures
            match r {
                Some(v) => self@.dom().contains(run) && *v == self@[run],
                None => !self@.dom().contains(run),
            },
    {
        let (i, here) = self.place(run);
        proof {
            use_type_invariant(self);
            lemma_map_of(self.items@, run);
        }
        if here {
            Some(&self.items[i].1)
        } else {
            None
        }
    }

    pub fn insert(&mut self, run: u64, value: V)
        ensures
            final(self)@ == old(self)@.insert(run, value),
    {
        proof {
            use_type_invariant(&*self);
        }
        let (i, here) = self.place(run);
        let ghost before = self.items@;
        let mut items: Vec<(u64, V)> = Vec::new();
        std::mem::swap(&mut items, &mut self.items);
        if here {
            items.set(i, (run, value));
            assert(items@ == before.update(i as int, (run, value)));
        } else {
            items.insert(i, (run, value));
            assert(items@ == before.insert(i as int, (run, value)));
        }
        proof {
            let after = items@;
            assert(keys_ascend(after));
            assert(map_of(after) =~= map_of(before).insert(run, value)) by {
                assert forall|k: u64| #[trigger] map_of(after).dom().contains(k) <==> map_of(
                    before,
                ).insert(run, value).dom().contains(k) by {
                    lemma_map_of(before, k);
                    lemma_map_of(after, k);
                    lemma_put(before, after, i as int, here, run, value, k);
                }
                assert forall|k: u64| #[trigger] map_of(after).dom().contains(k) implies map_of(
                    after,
                )[k] == map_of(before).insert(run, value)[k] by {
                    lemma_map_of(before, k);
                    lemma_map_of(after, k);
                    lemma_put(before, after, i as int, here, run, value, k);
                }
            }
        }
        self.items = items;
    }

    pub fn remove(&mut self, run: u64) -> (r: Option<V>)
        ensures
            final(self)@ == old(self)@.remove(run),
            match r {
                Some(v) => old(self)@.dom().contains(run) && v == old(self)@[run],
                None => !old(self)@.dom().contains(run),
            },
    {
        proof {
            use_type_invariant(&*self);
            lemma_map_of(self.items@, run);
        }
        let (i, here) = self.place(run);
        if !here {
            assert(self@ =~= old(self)@.remove(run));
            return None;
        }
        let ghost before = self.items@;
        let mut items: Vec<(u64, V)> = Vec::new();
        std::mem::swap(&mut items, &mut self.items);
        let (_, value) = items.remove(i);
        proof {
            let after = items@;
            assert(after == before.remove(i as int));
            assert(keys_ascend(after));
            assert(map_of(after) =~= map_of(before).remove(run)) by {
                assert forall|k: u64| #[trigger] map_of(after).dom().contains(k) <==> map_of(
                    before,
                ).remove(run).dom().contains(k) by {
                    lemma_map_of(before, k);
                    lemma_map_of(after, k);
                    lemma_drop(before, after, i as int, run, k);
                }
                assert forall|k: u64| #[trigger] map_of(after).dom().contains(k) implies map_of(
                    after,
                )[k] == map_of(before).remove(run)[k] by {
                    lemma_map_of(before, k);
                    lemma_map_of(after, k);
                    lemma_drop(before, after, i as int, run, k);
                }
            }
        }
        self.items = items;
        Some(value)
    }

    pub fn clear(&mut self)
        ensures
            final(self)@ == Map::<u64, V>::empty(),
    {
        self.items = Vec::new();
    }

    /// The number of runs. Every run of the map is in the list with its
    /// value, and the runs of the list ascend.
    pub fn len(&self) -> (r: usize)
        ensures
            r == self.list().len(),
            keys_ascend(self.list()),
            self@.dom().finite(),
            forall|run: u64| #[trigger]
                self@.dom().contains(run) <==> exists|i: int|
                    0 <= i < self.list().len() && (#[trigger] self.list()[i]).0 == run,
            forall|i: int|
                0 <= i < self.list().len() ==> self@.dom().contains((#[trigger] self.list()[i]).0)
                    && self@[self.list()[i].0] == self.list()[i].1,
    {
        proof {
            use_type_invariant(self);
            lemma_finite(self.items@);
            assert forall|run: u64| #[trigger] self@.dom().contains(run) <==> exists|i: int|
                0 <= i < self.list().len() && (#[trigger] self.list()[i]).0 == run by {
                lemma_map_of(self.items@, run);
                if self@.dom().contains(run) {
                    let i = choose|i: int|
                        0 <= i < self.items@.len() && (#[trigger] self.items@[i]).0 == run;
                    assert(self.list()[i].0 == run);
                }
                if exists|i: int|
                    0 <= i < self.list().len() && (#[trigger] self.list()[i]).0 == run {
                    let i = choose|i: int|
                        0 <= i < self.list().len() && (#[trigger] self.list()[i]).0 == run;
                    assert(self.items@[i].0 == run);
                }
            }
            assert forall|i: int| 0 <= i < self.list().len() implies self@.dom().contains(
                (#[trigger] self.list()[i]).0,
            ) && self@[self.list()[i].0] == self.list()[i].1 by {
                lemma_map_of(self.items@, self.list()[i].0);
            }
        }
        self.items.len()
    }

    /// The run and the value at a place of the list.
    pub fn at(&self, i: usize) -> (r: (u64, &V))
        requires
            i < self.list().len(),
        ensures
            r.0 == self.list()[i as int].0,
            *r.1 == self.list()[i as int].1,
    {
        (self.items[i].0, &self.items[i].1)
    }

    /// The runs, ascending.
    pub fn runs(&self) -> (r: Vec<u64>)
        ensures
            crate::order::ascending(r@),
            forall|run: u64| #[trigger] r@.contains(run) <==> self@.dom().contains(run),
    {
        proof {
            use_type_invariant(self);
        }
        let mut out: Vec<u64> = Vec::new();
        let mut i: usize = 0;
        while i < self.items.len()
            invariant
                i <= self.items@.len(),
                keys_ascend(self.items@),
                out@.len() == i,
                forall|k: int| 0 <= k < i ==> out@[k] == (#[trigger] self.items@[k]).0,
            decreases self.items@.len() - i,
        {
            out.push(self.items[i].0);
            i = i + 1;
        }
        proof {
            assert forall|a: int, b: int| 0 <= a < b < out@.len() implies out@[a] < out@[b] by {
                assert(self.items@[a].0 < self.items@[b].0);
            }
            assert forall|run: u64| #[trigger] out@.contains(run) <==> self@.dom().contains(run) by {
                lemma_map_of(self.items@, run);
                if out@.contains(run) {
                    let k = choose|k: int| 0 <= k < out@.len() && out@[k] == run;
                    assert(self.items@[k].0 == run);
                }
                if self@.dom().contains(run) {
                    let k = choose|k: int|
                        0 <= k < self.items@.len() && (#[trigger] self.items@[k]).0 == run;
                    assert(out@[k] == run);
                }
            }
        }
        out
    }
}

proof fn lemma_put<V>(
    before: Seq<(u64, V)>,
    after: Seq<(u64, V)>,
    at: int,
    here: bool,
    run: u64,
    value: V,
    k: u64,
)
    requires
        0 <= at <= before.len(),
        keys_ascend(before),
        keys_ascend(after),
        here ==> at < before.len() && before[at].0 == run && after == before.update(
            at,
            (run, value),
        ),
        !here ==> after == before.insert(at, (run, value)),
        !here ==> forall|i: int| 0 <= i < before.len() ==> (#[trigger] before[i]).0 != run,
    ensures
        k == run ==> map_of(after).dom().contains(k) && map_of(after)[k] == value,
        k != run ==> (map_of(after).dom().contains(k) <==> map_of(before).dom().contains(k)),
        k != run && map_of(before).dom().contains(k) ==> map_of(after)[k] == map_of(before)[k],
{
    lemma_map_of(before, k);
    lemma_map_of(after, k);
    assert(after[at] == (run, value));
    if k != run {
        if map_of(before).dom().contains(k) {
            let i = choose|i: int| 0 <= i < before.len() && (#[trigger] before[i]).0 == k;
            if here || i < at {
                assert(after[i] == before[i]);
            } else {
                assert(after[i + 1] == before[i]);
            }
        }
        if map_of(after).dom().contains(k) {
            let i = choose|i: int| 0 <= i < after.len() && (#[trigger] after[i]).0 == k;
            if here || i < at {
                assert(before[i] == after[i]);
            } else {
                assert(before[i - 1] == after[i]);
            }
        }
    }
}

proof fn lemma_drop<V>(before: Seq<(u64, V)>, after: Seq<(u64, V)>, at: int, run: u64, k: u64)
    requires
        0 <= at < before.len(),
        before[at].0 == run,
        keys_ascend(before),
        keys_ascend(after),
        after == before.remove(at),
    ensures
        map_of(after).dom().contains(k) <==> map_of(before).dom().contains(k) && k != run,
        map_of(after).dom().contains(k) ==> map_of(after)[k] == map_of(before)[k],
{
    lemma_map_of(before, k);
    lemma_map_of(after, k);
    if map_of(before).dom().contains(k) && k != run {
        let i = choose|i: int| 0 <= i < before.len() && (#[trigger] before[i]).0 == k;
        if i < at {
            assert(after[i] == before[i]);
        } else {
            assert(after[i - 1] == before[i]);
        }
    }
    if map_of(after).dom().contains(k) {
        let i = choose|i: int| 0 <= i < after.len() && (#[trigger] after[i]).0 == k;
        if i < at {
            assert(before[i] == after[i]);
        } else {
            assert(before[i + 1] == after[i]);
            assert(before[at].0 < before[i + 1].0);
        }
        if k == run {
            if i < at {
                assert(before[i].0 < before[at].0);
            }
        }
    }
}

} // verus!
