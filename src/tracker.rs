//! The tracked-process set: one liveness handle per pid of the last
//! published batch, and its reconciliation against each new batch.
use std::collections::HashMap;
use vstd::prelude::*;

verus! {

broadcast use vstd::std_specs::hash::group_hash_axioms;

/// The part of the old set that a new batch keeps: the pids found in both,
/// with their handles.
pub open spec fn carried<H>(old: Map<i32, H>, pids: Seq<i32>) -> Map<i32, H> {
    old.restrict(pids.to_set())
}

/// Pids of the new batch that had no handle: each needs one opened and
/// registered.
pub open spec fn to_register(old_pids: Set<i32>, pids: Seq<i32>) -> Set<i32> {
    pids.to_set().difference(old_pids)
}

/// Pids of the old set that the new batch no longer holds: each handle is
/// deregistered and released.
pub open spec fn to_release(old_pids: Set<i32>, pids: Seq<i32>) -> Set<i32> {
    old_pids.difference(pids.to_set())
}

/// Liveness handles of type `H`, keyed by pid.
pub struct Tracker<H> {
    handles: HashMap<i32, H>,
    order: Vec<i32>,
}

/// What a reconciliation asks of its caller.
pub struct Reconciliation<H> {
    /// Pids to open a handle for and register, each once.
    pub to_open: Vec<i32>,
    /// Pids whose handle left the set, with that handle, each once.
    pub released: Vec<(i32, H)>,
}

impl<H> View for Tracker<H> {
    type V = Map<i32, H>;

    closed spec fn view(&self) -> Map<i32, H> {
        self.handles@
    }
}

impl<H> Tracker<H> {
    /// The pid list and the map agree, and no pid is listed twice.
    pub closed spec fn wf(&self) -> bool {
        &&& self.order@.no_duplicates()
        &&& self.order@.to_set() == self.handles@.dom()
    }

    pub fn new() -> (r: Self)
        ensures
            r.wf(),
            r@ == Map::<i32, H>::empty(),
    {
        let r = Tracker { handles: HashMap::new(), order: Vec::new() };
        proof {
            assert(r.order@.to_set() =~= r.handles@.dom());
        }
        r
    }

    pub fn len(&self) -> (r: usize)
        requires
            self.wf(),
        ensures
            r == self@.len(),
    {
        self.handles.len()
    }

    pub fn contains(&self, pid: i32) -> (r: bool)
        requires
            self.wf(),
        ensures
            r == self@.contains_key(pid),
    {
        self.handles.contains_key(&pid)
    }

    /// Adds the handle of a pid that is not tracked yet.
    pub fn insert(&mut self, pid: i32, handle: H)
        requires
            old(self).wf(),
            !old(self)@.contains_key(pid),
        ensures
            final(self).wf(),
            final(self)@ == old(self)@.insert(pid, handle),
    {
        self.handles.insert(pid, handle);
        self.order.push(pid);
        proof {
            assert(self.order@.to_set() =~= self.handles@.dom()) by {
                assert forall|p: i32| self.order@.contains(p) implies self.handles@.dom().contains(
                    p,
                ) by {
                    if p != pid {
                        let k = choose|k: int| 0 <= k < self.order.len() && self.order@[k] == p;
                        assert(old(self).order@[k] == p);
                    }
                }
                assert forall|p: i32| self.handles@.dom().contains(p) implies self.order@.contains(
                    p,
                ) by {
                    if p == pid {
                        assert(self.order@[self.order.len() - 1] == pid);
                    } else {
                        assert(old(self).order@.to_set().contains(p));
                        let k = choose|k: int|
                            0 <= k < old(self).order.len() && old(self).order@[k] == p;
                        assert(self.order@[k] == p);
                    }
                }
            }
        }
    }

    /// Adds the handles opened for pids that were not tracked, each pid once.
    pub fn insert_all(&mut self, opened: Vec<(i32, H)>)
        requires
            old(self).wf(),
            released_pids(opened@).no_duplicates(),
            forall|i: int| 0 <= i < opened.len() ==> !old(self)@.contains_key((#[trigger] opened[i]).0),
        ensures
            final(self).wf(),
            final(self)@.dom() == old(self)@.dom().union(released_pids(opened@).to_set()),
            forall|p: i32| old(self)@.contains_key(p) ==> final(self)@[p] == old(self)@[p],
            forall|i: int| 0 <= i < opened.len() ==> final(self)@[(#[trigger] opened[i]).0] == opened[i].1,
    {
        let ghost o = opened@;
        let ghost m0 = self@;
        let mut rest = opened;
        while rest.len() > 0
            invariant
                self.wf(),
                rest@ == o.take(rest.len() as int),
                rest.len() <= o.len(),
                released_pids(o).no_duplicates(),
                forall|i: int| 0 <= i < o.len() ==> !m0.contains_key((#[trigger] o[i]).0),
                forall|p: i32|
                    self@.contains_key(p) <==> (m0.contains_key(p) || exists|k: int|
                        rest.len() <= k < o.len() && (#[trigger] o[k]).0 == p),
                forall|p: i32| m0.contains_key(p) ==> self@[p] == m0[p],
                forall|k: int| rest.len() <= k < o.len() ==> self@[(#[trigger] o[k]).0] == o[k].1,
            decreases rest.len(),
        {
            let (p, h) = rest.pop().unwrap();
            let ghost n = rest.len() as int;
            proof {
                assert(o[n] == (p, h));
                assert(!self@.contains_key(p)) by {
                    if self@.contains_key(p) {
                        if !m0.contains_key(p) {
                            let k = choose|k: int| n + 1 <= k < o.len() && (#[trigger] o[k]).0 == p;
                            assert(released_pids(o)[k] == released_pids(o)[n]);
                        }
                    }
                }
                assert(rest@ =~= o.take(n));
            }
            self.insert(p, h);
            proof {
                assert forall|k: int| n <= k < o.len() implies self@[(#[trigger] o[k]).0] == o[k].1 by {
                    if k != n {
                        assert(released_pids(o)[k] != released_pids(o)[n]);
                    }
                }
                assert forall|q: i32|
                    self@.contains_key(q) <==> (m0.contains_key(q) || exists|k: int|
                        n <= k < o.len() && (#[trigger] o[k]).0 == q) by {
                    if q == p {
                        assert(o[n].0 == q);
                    }
                }
            }
        }
        proof {
            assert(self@.dom() =~= m0.dom().union(released_pids(o).to_set())) by {
                assert forall|q: i32| released_pids(o).contains(q) implies exists|k: int|
                    0 <= k < o.len() && (#[trigger] o[k]).0 == q by {
                    let k = choose|k: int| 0 <= k < released_pids(o).len() && released_pids(o)[k] == q;
                    assert(o[k].0 == q);
                }
                assert forall|q: i32| (exists|k: int| 0 <= k < o.len() && (#[trigger] o[k]).0 == q)
                    implies released_pids(o).contains(q) by {
                    let k = choose|k: int| 0 <= k < o.len() && (#[trigger] o[k]).0 == q;
                    assert(released_pids(o)[k] == q);
                }
            }
        }
    }

    /// Carries over the handles of pids found in both the old set and
    /// `pids`, untouched, and hands back what the caller must do: open and
    /// register a handle for each pid that is new, and deregister each
    /// released handle. The set then holds the pids of both; once the caller
    /// has inserted the new handles it holds exactly the pids of `pids`.
    pub fn reconcile(&mut self, pids: &Vec<i32>) -> (r: Reconciliation<H>)
        requires
            old(self).wf(),
        ensures
            final(self).wf(),
            final(self)@ == carried(old(self)@, pids@),
            r.to_open@.no_duplicates(),
            r.to_open@.to_set() == to_register(old(self)@.dom(), pids@),
            released_pids(r.released@).no_duplicates(),
            released_pids(r.released@).to_set() == to_release(old(self)@.dom(), pids@),
            forall|i: int|
                0 <= i < r.released.len() ==> old(self)@.contains_key(
                    (#[trigger] r.released[i]).0,
                ) && old(self)@[r.released[i].0] == r.released[i].1,
    {
        let ghost old_map = self.handles@;
        let ghost old_dom = self.handles@.dom();
        let mut old_order: Vec<i32> = Vec::new();
        std::mem::swap(&mut self.order, &mut old_order);
        let mut old_handles: HashMap<i32, H> = HashMap::new();
        std::mem::swap(&mut self.handles, &mut old_handles);
        proof {
            assert(self.order@.to_set() =~= self.handles@.dom());
            assert(pids@.take(0).to_set() =~= Set::<i32>::empty());
            assert(self.handles@ =~= old_map.restrict(pids@.take(0).to_set()));
            assert(old_handles@ =~= old_map.remove_keys(pids@.take(0).to_set()));
            assert(Seq::<i32>::empty().to_set() =~= pids@.take(0).to_set().difference(old_dom));
        }
        let mut to_open: Vec<i32> = Vec::new();
        let mut i: usize = 0;
        while i < pids.len()
            invariant
                i <= pids.len(),
                self.wf(),
                self.handles@ == old_map.restrict(pids@.take(i as int).to_set()),
                old_handles@ == old_map.remove_keys(pids@.take(i as int).to_set()),
                old_dom == old_map.dom(),
                to_open@.no_duplicates(),
                to_open@.to_set() == pids@.take(i as int).to_set().difference(old_dom),
            decreases pids.len() - i,
        {
            let p = pids[i];
            proof {
                lemma_take_step(pids@, i as int);
            }
            let ghost seen = pids@.take(i as int).to_set();
            let ghost seen2 = pids@.take(i + 1).to_set();
            match old_handles.remove(&p) {
                Some(h) => {
                    proof {
                        assert(!self.handles@.contains_key(p));
                    }
                    self.insert(p, h);
                    proof {
                        assert(self.handles@ =~= old_map.restrict(seen2));
                        assert(old_handles@ =~= old_map.remove_keys(seen2));
                        assert(to_open@.to_set() =~= seen2.difference(old_dom));
                    }
                },
                None => {
                    let tracked_now = self.contains(p);
                    let listed = vec_has(&to_open, p);
                    if !tracked_now && !listed {
                        let ghost prev = to_open@;
                        proof {
                            lemma_push_no_duplicates(to_open@, p);
                            if old_dom.contains(p) {
                                assert(!old_handles@.contains_key(p));
                                assert(seen.contains(p));
                                assert(self.handles@.contains_key(p));
                            }
                        }
                        to_open.push(p);
                        proof {
                            assert(to_open@.to_set() =~= seen2.difference(old_dom)) by {
                                assert forall|x: i32|
                                    to_open@.to_set().contains(x) <==> seen2.difference(
                                        old_dom,
                                    ).contains(x) by {
                                    lemma_push_contains(prev, p, x);
                                }
                            }
                        }
                    } else {
                        proof {
                            assert(to_open@.to_set() =~= seen2.difference(old_dom));
                        }
                    }
                    proof {
                        assert(self.handles@ =~= old_map.restrict(seen2));
                        assert(old_handles@ =~= old_map.remove_keys(seen2));
                    }
                },
            }
            i = i + 1;
        }
        proof {
            assert(pids@.take(pids.len() as int) =~= pids@);
        }
        let ghost all = pids@.to_set();
        let mut released: Vec<(i32, H)> = Vec::new();
        let mut j: usize = 0;
        while j < old_order.len()
            invariant
                j <= old_order.len(),
                old_order@.no_duplicates(),
                old_order@.to_set() == old_dom,
                old_dom == old_map.dom(),
                all == pids@.to_set(),
                self.wf(),
                self.handles@ == carried(old_map, pids@),
                old_handles@ == old_map.remove_keys(all).remove_keys(
                    old_order@.take(j as int).to_set(),
                ),
                released_pids(released@).no_duplicates(),
                released_pids(released@).to_set() == old_dom.difference(all).intersect(
                    old_order@.take(j as int).to_set(),
                ),
                forall|k: int|
                    0 <= k < released.len() ==> old_map.contains_key(
                        (#[trigger] released[k]).0,
                    ) && old_map[released[k].0] == released[k].1,
            decreases old_order.len() - j,
        {
            let q = old_order[j];
            proof {
                lemma_take_step(old_order@, j as int);
            }
            let ghost seen2 = old_order@.take(j + 1).to_set();
            let ghost before = released@;
            match old_handles.remove(&q) {
                Some(h) => {
                    proof {
                        assert(!released_pids(before).contains(q)) by {
                            if released_pids(before).contains(q) {
                                assert(released_pids(before).to_set().contains(q));
                            }
                        }
                        lemma_push_no_duplicates(released_pids(before), q);
                    }
                    released.push((q, h));
                    proof {
                        assert(released_pids(released@) =~= released_pids(before).push(q));
                        assert(released_pids(released@).to_set() =~= old_dom.difference(
                            all,
                        ).intersect(seen2)) by {
                            assert forall|x: i32|
                                released_pids(released@).to_set().contains(x) <==> old_dom.difference(
                                    all,
                                ).intersect(seen2).contains(x) by {
                                lemma_push_contains(released_pids(before), q, x);
                            }
                        }
                    }
                },
                None => {
                    proof {
                        assert(released_pids(released@).to_set() =~= old_dom.difference(
                            all,
                        ).intersect(seen2));
                    }
                },
            }
            proof {
                assert(old_handles@ =~= old_map.remove_keys(all).remove_keys(seen2));
            }
            j = j + 1;
        }
        proof {
            assert(old_order@.take(old_order.len() as int) =~= old_order@);
            assert(released_pids(released@).to_set() =~= to_release(old_dom, pids@));
        }
        Reconciliation { to_open, released }
    }
}

/// A pid held both before and after a batch keeps its handle: it is neither
/// registered again nor released, so over the life of its handle it is
/// registered exactly once.
pub proof fn lemma_kept_pid_not_registered_again<H>(old: Map<i32, H>, pids: Seq<i32>, pid: i32)
    requires
        old.contains_key(pid),
        pids.contains(pid),
    ensures
        !to_register(old.dom(), pids).contains(pid),
        !to_release(old.dom(), pids).contains(pid),
        carried(old, pids).contains_key(pid),
        carried(old, pids)[pid] == old[pid],
{
}

/// When a batch holds exactly the tracked pids, reconciliation changes
/// nothing and asks for no action: the set is carried over whole, and no
/// sequence of pids to register or to release has any element.
pub proof fn lemma_same_batch_issues_nothing<H>(old: Map<i32, H>, pids: Seq<i32>)
    requires
        pids.to_set() == old.dom(),
    ensures
        carried(old, pids) == old,
        to_register(old.dom(), pids) == Set::<i32>::empty(),
        to_release(old.dom(), pids) == Set::<i32>::empty(),
        forall|s: Seq<i32>|
            #[trigger] s.to_set() == to_register(old.dom(), pids) ==> s.len() == 0,
        forall|s: Seq<i32>|
            #[trigger] s.to_set() == to_release(old.dom(), pids) ==> s.len() == 0,
{
    assert(carried(old, pids) =~= old);
    assert(to_register(old.dom(), pids) =~= Set::<i32>::empty());
    assert(to_release(old.dom(), pids) =~= Set::<i32>::empty());
    assert forall|s: Seq<i32>| #[trigger] s.to_set() == Set::<i32>::empty() implies s.len() == 0 by {
        if s.len() > 0 {
            assert(s.to_set().contains(s[0]));
        }
    }
}

/// After a reconciliation, the carried pids and the pids to register make up
/// exactly the pids of the batch: once the new handles are inserted, the set
/// holds the pids of the batch and nothing else.
pub proof fn lemma_reconciled_set_is_batch<H>(old: Map<i32, H>, pids: Seq<i32>)
    ensures
        carried(old, pids).dom().union(to_register(old.dom(), pids)) == pids.to_set(),
        carried(old, pids).dom().disjoint(to_register(old.dom(), pids)),
{
    assert(carried(old, pids).dom().union(to_register(old.dom(), pids)) =~= pids.to_set());
}

/// Once the handles for the pids to register are added to what a
/// reconciliation carried over, the set holds exactly the pids of the batch.
pub proof fn lemma_cycle_tracks_batch<H>(
    old: Map<i32, H>,
    pids: Seq<i32>,
    opened: Set<i32>,
    new: Map<i32, H>,
)
    requires
        opened == to_register(old.dom(), pids),
        new.dom() == carried(old, pids).dom().union(opened),
    ensures
        new.dom() == pids.to_set(),
{
    lemma_reconciled_set_is_batch(old, pids);
}

/// When a batch holds the same pids as the batch before it, and the set was
/// brought to that earlier batch, the next reconciliation carries the set
/// over whole and asks for no registration and no release.
pub proof fn lemma_repeated_batch_issues_nothing<H>(m: Map<i32, H>, prev: Seq<i32>, pids: Seq<i32>)
    requires
        m.dom() == prev.to_set(),
        pids.to_set() == prev.to_set(),
    ensures
        carried(m, pids) == m,
        to_register(m.dom(), pids) == Set::<i32>::empty(),
        to_release(m.dom(), pids) == Set::<i32>::empty(),
{
    lemma_same_batch_issues_nothing(m, pids);
}

/// When the process of one tracked pid has exited and the next batch is the
/// earlier one without it, that pid's handle is the only one released and
/// nothing is registered.
pub proof fn lemma_exited_pid_released_alone<H>(
    m: Map<i32, H>,
    prev: Seq<i32>,
    pids: Seq<i32>,
    gone: i32,
)
    requires
        m.dom() == prev.to_set(),
        prev.contains(gone),
        pids.to_set() == prev.to_set().remove(gone),
    ensures
        to_register(m.dom(), pids) == Set::<i32>::empty(),
        to_release(m.dom(), pids) == set![gone],
        carried(m, pids) == m.remove(gone),
{
    assert(to_register(m.dom(), pids) =~= Set::<i32>::empty());
    assert(to_release(m.dom(), pids) =~= set![gone]);
    assert(carried(m, pids) =~= m.remove(gone));
}

/// The pids of released handles, in order.
pub open spec fn released_pids<H>(released: Seq<(i32, H)>) -> Seq<i32> {
    released.map_values(|e: (i32, H)| e.0)
}

proof fn lemma_take_step(s: Seq<i32>, i: int)
    requires
        0 <= i < s.len(),
    ensures
        s.take(i + 1).to_set() == s.take(i).to_set().insert(s[i]),
{
    assert(s.take(i + 1) =~= s.take(i).push(s[i]));
    assert forall|x: i32|
        s.take(i + 1).to_set().contains(x) <==> s.take(i).to_set().insert(s[i]).contains(x) by {
        lemma_push_contains(s.take(i), s[i], x);
    }
    assert(s.take(i + 1).to_set() =~= s.take(i).to_set().insert(s[i]));
}

proof fn lemma_push_contains(s: Seq<i32>, v: i32, x: i32)
    ensures
        s.push(v).to_set().contains(x) <==> (s.to_set().contains(x) || x == v),
{
    if s.push(v).contains(x) {
        let k = choose|k: int| 0 <= k < s.push(v).len() && s.push(v)[k] == x;
        if k < s.len() {
            assert(s[k] == x);
        }
    }
    if s.contains(x) {
        let k = choose|k: int| 0 <= k < s.len() && s[k] == x;
        assert(s.push(v)[k] == x);
    }
    if x == v {
        assert(s.push(v)[s.len() as int] == x);
    }
}

proof fn lemma_push_no_duplicates(s: Seq<i32>, v: i32)
    requires
        s.no_duplicates(),
        !s.contains(v),
    ensures
        s.push(v).no_duplicates(),
{
    assert forall|a: int, b: int|
        0 <= a < s.push(v).len() && 0 <= b < s.push(v).len() && a != b implies s.push(v)[a]
        != s.push(v)[b] by {
        if a == s.len() {
            assert(s[b] != v);
        } else if b == s.len() {
            assert(s[a] != v);
        }
    }
}

/// Whether `v` holds `x`.
fn vec_has(v: &Vec<i32>, x: i32) -> (r: bool)
    ensures
        r == v@.contains(x),
{
    let mut i: usize = 0;
    while i < v.len()
        invariant
            i <= v.len(),
            forall|k: int| 0 <= k < i ==> v@[k] != x,
        decreases v.len() - i,
    {
        if v[i] == x {
            assert(v@[i as int] == x);
            return true;
        }
        i = i + 1;
    }
    false
}

} // verus!
