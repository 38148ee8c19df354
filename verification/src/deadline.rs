//! A set of timer deadlines, each tagged with the ID of what it wakes, from which the
//! earliest deadline and everything due at it can be taken.
use vstd::prelude::*;

verus! {

/// Deadlines in nanoseconds, each with the ID of the timer or thread group it belongs to.
pub struct DeadlineSet {
    entries: Vec<(u64, u64)>,
}

impl View for DeadlineSet {
    type V = Set<(u64, u64)>;

    closed spec fn view(&self) -> Set<(u64, u64)> {
        self.entries@.to_set()
    }
}

/// The IDs due at `deadline` in `s`.
pub open spec fn ids_at(s: Set<(u64, u64)>, deadline: u64) -> Set<u64> {
    Set::new(|id: u64| s.contains((deadline, id)))
}

/// Whether `d` is the earliest deadline of `s`.
pub open spec fn is_earliest(s: Set<(u64, u64)>, d: u64) -> bool {
    &&& exists|id: u64| s.contains((d, id))
    &&& forall|e: (u64, u64)| s.contains(e) ==> d <= e.0
}

/// The earliest deadline of `s`, if it holds any entry.
pub open spec fn first_deadline(s: Set<(u64, u64)>) -> Option<u64> {
    if exists|d: u64| is_earliest(s, d) {
        Some(choose|d: u64| is_earliest(s, d))
    } else {
        None
    }
}

/// A set has at most one earliest deadline.
pub proof fn lemma_earliest_unique(s: Set<(u64, u64)>, d1: u64, d2: u64)
    requires
        is_earliest(s, d1),
        is_earliest(s, d2),
    ensures
        d1 == d2,
{
    let id1 = choose|id: u64| s.contains((d1, id));
    let id2 = choose|id: u64| s.contains((d2, id));
    assert(s.contains((d1, id1)));
    assert(s.contains((d2, id2)));
}

/// A finite set with an entry has an earliest deadline.
pub proof fn lemma_earliest_exists(s: Set<(u64, u64)>)
    requires
        s.finite(),
        s.len() > 0,
    ensures
        exists|d: u64| is_earliest(s, d),
    decreases s.len(),
{
    let x = s.choose();
    assert(s.contains(x));
    let rest = s.remove(x);
    if rest.len() == 0 {
        assert forall|e: (u64, u64)| s.contains(e) implies x.0 <= e.0 by {
            if e != x {
                assert(rest.contains(e));
            }
        }
        assert(s.contains((x.0, x.1)));
        assert(is_earliest(s, x.0));
    } else {
        lemma_earliest_exists(rest);
        let d = choose|d: u64| is_earliest(rest, d);
        let id = choose|id: u64| rest.contains((d, id));
        if x.0 < d {
            assert(s.contains((x.0, x.1)));
            assert forall|e: (u64, u64)| s.contains(e) implies x.0 <= e.0 by {
                if e != x {
                    assert(rest.contains(e));
                }
            }
            assert(is_earliest(s, x.0));
        } else {
            assert(s.contains((d, id)));
            assert forall|e: (u64, u64)| s.contains(e) implies d <= e.0 by {
                if e != x {
                    assert(rest.contains(e));
                }
            }
            assert(is_earliest(s, d));
        }
    }
}

impl DeadlineSet {
    /// How many entries the set holds.
    pub closed spec fn size(&self) -> nat {
        self.entries@.len()
    }

    /// No entry occurs twice.
    pub closed spec fn wf(&self) -> bool {
        self.entries@.no_duplicates()
    }

    /// The empty set.
    pub fn new() -> (r: Self)
        ensures
            r.wf(),
            r@ == Set::<(u64, u64)>::empty(),
    {
        let r = DeadlineSet { entries: Vec::new() };
        assert(r.entries@.to_set() =~= Set::<(u64, u64)>::empty());
        r
    }

    fn index_of(&self, deadline: u64, id: u64) -> (r: Option<usize>)
        ensures
            r is None ==> !self.entries@.contains((deadline, id)),
            r matches Some(i) ==> i < self.entries@.len() && self.entries@[i as int] == (
            deadline, id),
    {
        let mut i: usize = 0;
        while i < self.entries.len()
            invariant
                i <= self.entries@.len(),
                forall|k: int| 0 <= k < i ==> self.entries@[k] != (deadline, id),
            decreases self.entries@.len() - i,
        {
            let e = self.entries[i];
            if e.0 == deadline && e.1 == id {
                return Some(i);
            }
            i = i + 1;
        }
        None
    }

    /// Whether the set holds `(deadline, id)`.
    pub fn contains(&self, deadline: u64, id: u64) -> (r: bool)
        requires
            self.wf(),
        ensures
            r == self@.contains((deadline, id)),
    {
        self.index_of(deadline, id).is_some()
    }

    /// The set is finite.
    pub proof fn lemma_finite(&self)
        ensures
            self@.finite(),
    {
        vstd::seq_lib::seq_to_set_is_finite(self.entries@);
    }

    /// Whether some entry is at `deadline`.
    pub fn has_deadline(&self, deadline: u64) -> (r: bool)
        requires
            self.wf(),
        ensures
            r == exists|id: u64| self@.contains((deadline, id)),
    {
        let mut i: usize = 0;
        while i < self.entries.len()
            invariant
                i <= self.entries@.len(),
                forall|k: int| 0 <= k < i ==> #[trigger] self.entries@[k].0 != deadline,
            decreases self.entries@.len() - i,
        {
            if self.entries[i].0 == deadline {
                let ghost id = self.entries@[i as int].1;
                assert(self.entries@[i as int] == (deadline, id));
                assert(self@.contains((deadline, id)));
                return true;
            }
            i = i + 1;
        }
        proof {
            assert forall|id: u64| !self@.contains((deadline, id)) by {
                if self@.contains((deadline, id)) {
                    let k = choose|k: int| 0 <= k < self.entries@.len() && self.entries@[k] == (deadline, id);
                    assert(self.entries@[k].0 != deadline);
                }
            }
        }
        false
    }

    /// Adds `(deadline, id)`.
    pub fn insert(&mut self, deadline: u64, id: u64)
        requires
            old(self).wf(),
        ensures
            final(self).wf(),
            final(self)@ == old(self)@.insert((deadline, id)),
    {
        if self.index_of(deadline, id).is_none() {
            let ghost before = self.entries@;
            self.entries.push((deadline, id));
            proof {
                assert forall|a: int, b: int|
                    0 <= a < b < self.entries@.len() implies self.entries@[a]
                    != self.entries@[b] by {
                    if b == before.len() {
                        assert(before.contains(self.entries@[a]));
                    }
                }
                before.lemma_push_to_set_commute((deadline, id));
                assert(self.entries@ == before.push((deadline, id)));
            }
        } else {
            assert(old(self)@.contains((deadline, id)));
            assert(old(self)@.insert((deadline, id)) =~= old(self)@);
        }
    }

    /// Removes `(deadline, id)`, if present.
    pub fn remove(&mut self, deadline: u64, id: u64)
        requires
            old(self).wf(),
        ensures
            final(self).wf(),
            final(self)@ == old(self)@.remove((deadline, id)),
            old(self)@.contains((deadline, id)) ==> final(self).size() == old(self).size() - 1,
    {
        match self.index_of(deadline, id) {
            None => {
                assert(old(self)@.remove((deadline, id)) =~= old(self)@);
            },
            Some(i) => {
                let ghost before = self.entries@;
                self.entries.remove(i);
                proof {
                    let after = self.entries@;
                    assert(after =~= before.subrange(0, i as int) + before.subrange(
                        i + 1,
                        before.len() as int,
                    ));
                    assert forall|a: int, b: int|
                        0 <= a < b < after.len() implies after[a] != after[b] by {
                        let ia = if a < i {
                            a
                        } else {
                            a + 1
                        };
                        let ib = if b < i {
                            b
                        } else {
                            b + 1
                        };
                        assert(after[a] == before[ia]);
                        assert(after[b] == before[ib]);
                    }
                    assert forall|e: (u64, u64)|
                        after.to_set().contains(e) <==> before.to_set().remove(
                            (deadline, id),
                        ).contains(e) by {
                        if after.to_set().contains(e) {
                            let a = choose|a: int| 0 <= a < after.len() && after[a] == e;
                            let ia = if a < i {
                                a
                            } else {
                                a + 1
                            };
                            assert(before[ia] == e);
                            assert(ia != i);
                        }
                        if before.to_set().remove((deadline, id)).contains(e) {
                            let b = choose|b: int| 0 <= b < before.len() && before[b] == e;
                            assert(b != i);
                            let ab = if b < i {
                                b
                            } else {
                                b - 1
                            };
                            assert(after[ab] == e);
                        }
                    }
                    assert(after.to_set() =~= before.to_set().remove((deadline, id)));
                }
            },
        }
    }

    /// The earliest deadline, `None` when the set is empty.
    pub fn earliest(&self) -> (r: Option<u64>)
        requires
            self.wf(),
        ensures
            r is None <==> self@ == Set::<(u64, u64)>::empty(),
            r matches Some(d) ==> is_earliest(self@, d),
            r == first_deadline(self@),
    {
        if self.entries.len() == 0 {
            assert(self@ =~= Set::<(u64, u64)>::empty());
            return None;
        }
        let mut best = self.entries[0];
        let mut best_index: usize = 0;
        let mut i: usize = 1;
        while i < self.entries.len()
            invariant
                1 <= i <= self.entries@.len(),
                best_index < i,
                self.entries@[best_index as int] == best,
                forall|k: int| 0 <= k < i ==> best.0 <= #[trigger] self.entries@[k].0,
            decreases self.entries@.len() - i,
        {
            let e = self.entries[i];
            if e.0 < best.0 {
                best = e;
                best_index = i;
            }
            i = i + 1;
        }
        proof {
            assert(self@.contains(best));
            assert(self@.contains((best.0, best.1)));
            assert(self@ != Set::<(u64, u64)>::empty());
            assert forall|e: (u64, u64)| self@.contains(e) implies best.0 <= e.0 by {
                let k = choose|k: int| 0 <= k < self.entries@.len() && self.entries@[k] == e;
                assert(best.0 <= self.entries@[k].0);
            }
            assert(is_earliest(self@, best.0));
            let c = choose|d: u64| is_earliest(self@, d);
            lemma_earliest_unique(self@, c, best.0);
        }
        Some(best.0)
    }

    /// Removes every entry at `deadline` and returns their IDs in increasing order.
    pub fn take_deadline(&mut self, deadline: u64) -> (r: Vec<u64>)
        requires
            old(self).wf(),
        ensures
            final(self).wf(),
            final(self)@ == old(self)@.filter(|e: (u64, u64)| e.0 != deadline),
            r@.to_set() == ids_at(old(self)@, deadline),
            forall|a: int, b: int| 0 <= a < b < r@.len() ==> r@[a] < r@[b],
    {
        let mut ids: Vec<u64> = Vec::new();
        loop
            invariant
                self.wf(),
                self@ == old(self)@.filter(
                    |e: (u64, u64)| e.0 != deadline || !ids@.to_set().contains(e.1),
                ),
                ids@.to_set().subset_of(ids_at(old(self)@, deadline)),
                forall|a: int, b: int| 0 <= a < b < ids@.len() ==> ids@[a] < ids@[b],
                forall|a: int, e: (u64, u64)|
                    0 <= a < ids@.len() && self@.contains(e) && e.0 == deadline ==> ids@[a] < e.1,
            ensures
                self.wf(),
                self@ == old(self)@.filter(|e: (u64, u64)| e.0 != deadline),
                ids@.to_set() == ids_at(old(self)@, deadline),
                forall|a: int, b: int| 0 <= a < b < ids@.len() ==> ids@[a] < ids@[b],
            decreases self.entries@.len(),
        {
            let mut found: Option<usize> = None;
            let mut i: usize = 0;
            while i < self.entries.len()
                invariant
                    i <= self.entries@.len(),
                    found matches Some(f) ==> f < i && self.entries@[f as int].0 == deadline,
                    found is None ==> forall|k: int|
                        0 <= k < i ==> #[trigger] self.entries@[k].0 != deadline,
                    found matches Some(f) ==> forall|k: int|
                        0 <= k < i && #[trigger] self.entries@[k].0 == deadline
                            ==> self.entries@[f as int].1 <= self.entries@[k].1,
                decreases self.entries@.len() - i,
            {
                let e = self.entries[i];
                if e.0 == deadline {
                    match found {
                        None => {
                            found = Some(i);
                        },
                        Some(f) => {
                            if e.1 < self.entries[f].1 {
                                found = Some(i);
                            }
                        },
                    }
                }
                i = i + 1;
            }
            match found {
                None => {
                    proof {
                        assert forall|e: (u64, u64)|
                            old(self)@.filter(|e: (u64, u64)| e.0 != deadline).contains(e)
                                == self@.contains(e) by {
                            if self@.contains(e) && e.0 == deadline {
                                let k = choose|k: int|
                                    0 <= k < self.entries@.len() && self.entries@[k] == e;
                                assert(self.entries@[k].0 != deadline);
                            }
                            if old(self)@.contains(e) && e.0 == deadline {
                                assert(!self@.contains(e));
                            }
                        }
                        assert(self@ =~= old(self)@.filter(|e: (u64, u64)| e.0 != deadline));
                        assert forall|id: u64|
                            ids@.to_set().contains(id) == ids_at(old(self)@, deadline).contains(
                                id,
                            ) by {
                            if ids_at(old(self)@, deadline).contains(id) && !ids@.to_set().contains(id) {
                                assert(self@.contains((deadline, id)));
                                let k = choose|k: int|
                                    0 <= k < self.entries@.len() && self.entries@[k] == (
                                    deadline, id);
                                assert(self.entries@[k].0 != deadline);
                            }
                        }
                        assert(ids@.to_set() =~= ids_at(old(self)@, deadline));
                    }
                    break;
                },
                Some(f) => {
                    let (d, id) = self.entries[f];
                    proof {
                        assert(self@.contains((d, id)));
                        assert forall|e: (u64, u64)|
                            self@.contains(e) && e.0 == deadline implies id <= e.1 by {
                            let k = choose|k: int|
                                0 <= k < self.entries@.len() && self.entries@[k] == e;
                            assert(self.entries@[k].0 == deadline);
                        }
                    }
                    let ghost before_ids = ids@;
                    let ghost before_set = self@;
                    self.remove(d, id);
                    ids.push(id);
                    proof {
                        assert(ids@ == before_ids.push(id));
                        before_ids.lemma_push_to_set_commute(id);
                        assert(self@ =~= old(self)@.filter(
                            |e: (u64, u64)| e.0 != deadline || !ids@.to_set().contains(e.1),
                        ));
                        assert forall|a: int, b: int|
                            0 <= a < b < ids@.len() implies ids@[a] < ids@[b] by {
                            if b == ids@.len() - 1 {
                                assert(before_set.contains((deadline, id)));
                            }
                        }
                        assert forall|a: int, e: (u64, u64)|
                            0 <= a < ids@.len() && self@.contains(e) && e.0
                                == deadline implies ids@[a] < e.1 by {
                            assert(before_set.contains(e));
                            assert(e != (d, id));
                        }
                    }
                },
            }
        }
        ids
    }
}

} // verus!
