//! The descriptor table of a process: open files by descriptor number, each with its
//! close-on-exec flag, and the flags of `open(2)` as an open file keeps them.
use vstd::prelude::*;

verus! {

/// One descriptor: its number, the open file of type `D`, and close-on-exec.
pub struct FdEntry<D> {
    pub fd: u32,
    pub file: D,
    pub cloexec: bool,
}

/// A descriptor table.
pub struct FdTable<D> {
    entries: Vec<FdEntry<D>>,
}

/// Descriptor numbers strictly increase along the list.
pub open spec fn fds_ascending<D>(es: Seq<FdEntry<D>>) -> bool {
    forall|i: int, j: int| 0 <= i < j < es.len() ==> es[i].fd < es[j].fd
}

/// Whether some entry has descriptor `fd`.
pub open spec fn has_fd<D>(es: Seq<FdEntry<D>>, fd: u32) -> bool {
    exists|i: int| 0 <= i < es.len() && es[i].fd == fd
}

/// The position of descriptor `fd`.
pub open spec fn fd_index<D>(es: Seq<FdEntry<D>>, fd: u32) -> int {
    choose|i: int| 0 <= i < es.len() && es[i].fd == fd
}

/// The open files and close-on-exec flags, by descriptor.
pub open spec fn fd_map<D>(es: Seq<FdEntry<D>>) -> Map<u32, (D, bool)> {
    Map::new(
        |fd: u32| has_fd(es, fd),
        |fd: u32| (es[fd_index(es, fd)].file, es[fd_index(es, fd)].cloexec),
    )
}

/// The least descriptor at or above `min_fd` that is not in use.
pub open spec fn is_lowest_free<D>(m: Map<u32, (D, bool)>, min_fd: u32, fd: u32) -> bool {
    &&& min_fd <= fd
    &&& !m.contains_key(fd)
    &&& forall|f: u32| min_fd <= f < fd ==> m.contains_key(f)
}

/// Some descriptor at or above `min_fd` is free.
pub open spec fn has_free_from<D>(m: Map<u32, (D, bool)>, min_fd: u32) -> bool {
    exists|f: u32| min_fd <= f && !m.contains_key(f)
}

proof fn lemma_fd_index<D>(es: Seq<FdEntry<D>>, i: int)
    requires
        fds_ascending(es),
        0 <= i < es.len(),
    ensures
        has_fd(es, es[i].fd),
        fd_index(es, es[i].fd) == i,
        fd_map(es).contains_key(es[i].fd),
        fd_map(es)[es[i].fd] == (es[i].file, es[i].cloexec),
{
    assert(0 <= i < es.len() && es[i].fd == es[i].fd);
    let c = fd_index(es, es[i].fd);
    if c < i {
        assert(es[c].fd < es[i].fd);
    } else if c > i {
        assert(es[i].fd < es[c].fd);
    }
}

proof fn lemma_fd_update<D>(es: Seq<FdEntry<D>>, i: int, e: FdEntry<D>)
    requires
        fds_ascending(es),
        0 <= i < es.len(),
        e.fd == es[i].fd,
    ensures
        fds_ascending(es.update(i, e)),
        fd_map(es.update(i, e)) == fd_map(es).insert(e.fd, (e.file, e.cloexec)),
{
    let u = es.update(i, e);
    assert(fds_ascending(u)) by {
        assert forall|a: int, b: int| 0 <= a < b < u.len() implies u[a].fd < u[b].fd by {
            assert(es[a].fd < es[b].fd);
        }
    }
    let m = fd_map(es).insert(e.fd, (e.file, e.cloexec));
    assert forall|fd: u32| fd_map(u).contains_key(fd) <==> m.contains_key(fd) by {
        if fd_map(u).contains_key(fd) {
            let j = choose|j: int| 0 <= j < u.len() && u[j].fd == fd;
            assert(es[j].fd == fd);
        }
        if m.contains_key(fd) && fd != e.fd {
            let j = choose|j: int| 0 <= j < es.len() && es[j].fd == fd;
            assert(u[j].fd == fd);
        }
        if fd == e.fd {
            assert(u[i].fd == fd);
        }
    }
    assert forall|fd: u32| #[trigger] fd_map(u).contains_key(fd) implies fd_map(u)[fd] == m[fd] by {
        let j = choose|j: int| 0 <= j < u.len() && u[j].fd == fd;
        lemma_fd_index(u, j);
        if j != i {
            lemma_fd_index(es, j);
        }
    }
    assert(fd_map(u) =~= m);
}

proof fn lemma_fd_remove<D>(es: Seq<FdEntry<D>>, i: int)
    requires
        fds_ascending(es),
        0 <= i < es.len(),
    ensures
        fds_ascending(es.remove(i)),
        fd_map(es.remove(i)) == fd_map(es).remove(es[i].fd),
{
    let r = es.remove(i);
    assert(fds_ascending(r)) by {
        assert forall|a: int, b: int| 0 <= a < b < r.len() implies r[a].fd < r[b].fd by {
            let a0 = if a < i { a } else { a + 1 };
            let b0 = if b < i { b } else { b + 1 };
            assert(es[a0].fd < es[b0].fd);
        }
    }
    let m = fd_map(es).remove(es[i].fd);
    assert forall|fd: u32| fd_map(r).contains_key(fd) <==> m.contains_key(fd) by {
        if fd_map(r).contains_key(fd) {
            let j = choose|j: int| 0 <= j < r.len() && r[j].fd == fd;
            let j0 = if j < i { j } else { j + 1 };
            assert(es[j0].fd == fd);
            if j0 < i {
                assert(es[j0].fd < es[i].fd);
            } else {
                assert(es[i].fd < es[j0].fd);
            }
        }
        if m.contains_key(fd) {
            let j = choose|j: int| 0 <= j < es.len() && es[j].fd == fd;
            assert(j != i);
            let j1 = if j < i { j } else { j - 1 };
            assert(r[j1].fd == fd);
        }
    }
    assert forall|fd: u32| #[trigger] fd_map(r).contains_key(fd) implies fd_map(r)[fd] == m[fd] by {
        let j = choose|j: int| 0 <= j < r.len() && r[j].fd == fd;
        lemma_fd_index(r, j);
        let j0 = if j < i { j } else { j + 1 };
        assert(r[j] == es[j0]);
        lemma_fd_index(es, j0);
    }
    assert(fd_map(r) =~= m);
}

proof fn lemma_fd_insert<D>(es: Seq<FdEntry<D>>, p: int, e: FdEntry<D>)
    requires
        fds_ascending(es),
        0 <= p <= es.len(),
        forall|j: int| 0 <= j < p ==> es[j].fd < e.fd,
        forall|j: int| p <= j < es.len() ==> es[j].fd > e.fd,
    ensures
        fds_ascending(es.insert(p, e)),
        fd_map(es.insert(p, e)) == fd_map(es).insert(e.fd, (e.file, e.cloexec)),
{
    let u = es.insert(p, e);
    assert(fds_ascending(u)) by {
        assert forall|a: int, b: int| 0 <= a < b < u.len() implies u[a].fd < u[b].fd by {
            if a < p && b < p {
                assert(es[a].fd < es[b].fd);
            } else if a < p && b == p {
            } else if a < p {
                assert(u[b] == es[b - 1]);
            } else if a == p {
                assert(u[b] == es[b - 1]);
            } else {
                assert(u[a] == es[a - 1]);
                assert(u[b] == es[b - 1]);
                assert(es[a - 1].fd < es[b - 1].fd);
            }
        }
    }
    let m = fd_map(es).insert(e.fd, (e.file, e.cloexec));
    assert forall|fd: u32| fd_map(u).contains_key(fd) <==> m.contains_key(fd) by {
        if fd_map(u).contains_key(fd) && fd != e.fd {
            let j = choose|j: int| 0 <= j < u.len() && u[j].fd == fd;
            assert(j != p);
            let j0 = if j < p { j } else { j - 1 };
            assert(es[j0].fd == fd);
        }
        if m.contains_key(fd) && fd != e.fd {
            let j = choose|j: int| 0 <= j < es.len() && es[j].fd == fd;
            let j1 = if j < p { j } else { j + 1 };
            assert(u[j1].fd == fd);
        }
        if fd == e.fd {
            assert(u[p].fd == fd);
        }
    }
    assert forall|fd: u32| #[trigger] fd_map(u).contains_key(fd) implies fd_map(u)[fd] == m[fd] by {
        let j = choose|j: int| 0 <= j < u.len() && u[j].fd == fd;
        lemma_fd_index(u, j);
        if j != p {
            let j0 = if j < p { j } else { j - 1 };
            assert(u[j] == es[j0]);
            lemma_fd_index(es, j0);
        }
    }
    assert(fd_map(u) =~= m);
}

impl<D> FdTable<D> {
    /// The open files and close-on-exec flags, by descriptor.
    pub closed spec fn fds(&self) -> Map<u32, (D, bool)> {
        fd_map(self.entries@)
    }

    /// Descriptors are kept in increasing order.
    pub closed spec fn wf(&self) -> bool {
        fds_ascending(self.entries@)
    }

    /// No descriptors.
    pub fn empty() -> (r: Self)
        ensures
            r.wf(),
            r.fds() == Map::<u32, (D, bool)>::empty(),
    {
        let r = FdTable { entries: Vec::new() };
        assert(fd_map(r.entries@) =~= Map::<u32, (D, bool)>::empty());
        r
    }

    /// A table with standard input, output and error at 0, 1 and 2.
    pub fn new_with_stdio(stdin: D, stdout: D, stderr: D) -> (r: Self)
        ensures
            r.wf(),
            r.fds() == Map::<u32, (D, bool)>::empty().insert(0, (stdin, false)).insert(
                1,
                (stdout, false),
            ).insert(2, (stderr, false)),
    {
        let mut t = Self::empty();
        t.insert_at(0, stdin, false);
        t.insert_at(1, stdout, false);
        t.insert_at(2, stderr, false);
        t
    }

    /// Where descriptor `fd` is, or where it would go.
    fn position(&self, fd: u32) -> (r: (usize, bool))
        requires
            self.wf(),
        ensures
            r.0 <= self.entries@.len(),
            forall|j: int| 0 <= j < r.0 ==> self.entries@[j].fd < fd,
            r.1 ==> r.0 < self.entries@.len() && self.entries@[r.0 as int].fd == fd,
            !r.1 ==> forall|j: int| r.0 <= j < self.entries@.len() ==> self.entries@[j].fd > fd,
            !r.1 ==> !has_fd(self.entries@, fd),
    {
        let mut p: usize = 0;
        while p < self.entries.len() && self.entries[p].fd < fd
            invariant
                p <= self.entries@.len(),
                forall|j: int| 0 <= j < p ==> self.entries@[j].fd < fd,
            decreases self.entries@.len() - p,
        {
            p = p + 1;
        }
        let found = p < self.entries.len() && self.entries[p].fd == fd;
        proof {
            if !found {
                assert forall|j: int| p <= j < self.entries@.len() implies self.entries@[j].fd
                    > fd by {
                    if j > p {
                        assert(self.entries@[p as int].fd < self.entries@[j].fd);
                    }
                }
            }
        }
        (p, found)
    }

    /// Puts `file` at descriptor `fd`, in place of what was there.
    pub fn insert_at(&mut self, fd: u32, file: D, cloexec: bool)
        requires
            old(self).wf(),
        ensures
            final(self).wf(),
            final(self).fds() == old(self).fds().insert(fd, (file, cloexec)),
    {
        let (p, found) = self.position(fd);
        let e = FdEntry { fd, file, cloexec };
        let ghost before = self.entries@;
        if found {
            proof {
                lemma_fd_update(before, p as int, e);
            }
            self.entries.set(p, e);
        } else {
            proof {
                lemma_fd_insert(before, p as int, e);
            }
            self.entries.insert(p, e);
        }
    }

    /// The lowest free descriptor at or above `min_fd`, `None` when all are in use.
    pub fn lowest_free(&self, min_fd: u32) -> (r: Option<u32>)
        requires
            self.wf(),
        ensures
            r matches Some(fd) ==> is_lowest_free(self.fds(), min_fd, fd),
            r is None ==> !has_free_from(self.fds(), min_fd),
    {
        let (p, found) = self.position(min_fd);
        if !found {
            proof {
                assert forall|f: u32| min_fd <= f < min_fd implies self.fds().contains_key(f) by {}
            }
            return Some(min_fd);
        }
        let mut k: usize = p;
        let mut candidate: u32 = min_fd;
        while k < self.entries.len() && self.entries[k].fd == candidate
            invariant
                p <= k <= self.entries@.len(),
                min_fd <= candidate,
                forall|j: int| p <= j < k ==> self.entries@[j].fd == min_fd + (j - p),
                candidate == min_fd + (k - p),
                forall|j: int| 0 <= j < p ==> self.entries@[j].fd < min_fd,
                fds_ascending(self.entries@),
                self.entries@[p as int].fd == min_fd,
            decreases self.entries@.len() - k,
        {
            if candidate == u32::MAX {
                proof {
                    assert forall|f: u32| min_fd <= f implies self.fds().contains_key(f) by {
                        let j = p + (f - min_fd);
                        assert(self.entries@[j].fd == f);
                        lemma_fd_index(self.entries@, j);
                    }
                }
                return None;
            }
            candidate = candidate + 1;
            k = k + 1;
        }
        proof {
            assert(candidate == min_fd + (k - p));
            assert(!self.fds().contains_key(candidate)) by {
                if self.fds().contains_key(candidate) {
                    let j = choose|j: int| 0 <= j < self.entries@.len() && self.entries@[j].fd
                        == candidate;
                    if j < k {
                        if j < p {
                        } else {
                            assert(self.entries@[j].fd == min_fd + (j - p));
                        }
                    } else if j == k {
                    } else {
                        assert(self.entries@[k as int].fd < self.entries@[j].fd);
                        assert(self.entries@[k as int].fd != candidate);
                        if self.entries@[k as int].fd < candidate {
                            assert(self.entries@[k - 1].fd == candidate - 1);
                        }
                    }
                }
            }
            assert forall|f: u32| min_fd <= f < candidate implies self.fds().contains_key(f) by {
                let j = p + (f - min_fd);
                assert(self.entries@[j].fd == f);
                lemma_fd_index(self.entries@, j);
            }
        }
        Some(candidate)
    }

    /// Puts `file` at the lowest free descriptor at or above `min_fd`, and returns it.
    pub fn insert(&mut self, file: D, cloexec: bool, min_fd: u32) -> (r: u32)
        requires
            old(self).wf(),
            has_free_from(old(self).fds(), min_fd),
        ensures
            final(self).wf(),
            is_lowest_free(old(self).fds(), min_fd, r),
            final(self).fds() == old(self).fds().insert(r, (file, cloexec)),
    {
        let fd = match self.lowest_free(min_fd) {
            Some(fd) => fd,
            None => {
                assert(false);
                0
            },
        };
        self.insert_at(fd, file, cloexec);
        fd
    }

    /// The file and close-on-exec flag at descriptor `fd`.
    pub fn get(&self, fd: u32) -> (r: Option<(&D, bool)>)
        requires
            self.wf(),
        ensures
            r is None <==> !self.fds().contains_key(fd),
            r matches Some((f, c)) ==> (*f, c) == self.fds()[fd],
    {
        let (p, found) = self.position(fd);
        if found {
            proof {
                lemma_fd_index(self.entries@, p as int);
            }
            Some((&self.entries[p].file, self.entries[p].cloexec))
        } else {
            None
        }
    }

    /// Closes descriptor `fd`; `true` when it was open.
    pub fn close(&mut self, fd: u32) -> (r: bool)
        requires
            old(self).wf(),
        ensures
            final(self).wf(),
            r == old(self).fds().contains_key(fd),
            final(self).fds() == old(self).fds().remove(fd),
    {
        let (p, found) = self.position(fd);
        if found {
            let ghost before = self.entries@;
            proof {
                lemma_fd_remove(before, p as int);
                lemma_fd_index(before, p as int);
            }
            let _ = self.entries.remove(p);
            true
        } else {
            assert(self.fds().remove(fd) =~= self.fds());
            false
        }
    }

    /// Sets the close-on-exec flag of descriptor `fd`; `false` when it is not open.
    pub fn set_cloexec(&mut self, fd: u32, cloexec: bool) -> (r: bool)
        requires
            old(self).wf(),
        ensures
            final(self).wf(),
            r == old(self).fds().contains_key(fd),
            r ==> final(self).fds() == old(self).fds().insert(fd, (old(self).fds()[fd].0, cloexec)),
            !r ==> final(self).fds() == old(self).fds(),
    {
        let (p, found) = self.position(fd);
        if !found {
            return false;
        }
        let ghost before = self.entries@;
        proof {
            lemma_fd_index(before, p as int);
        }
        let mut e = self.entries.remove(p);
        e.cloexec = cloexec;
        self.entries.insert(p, e);
        proof {
            assert(self.entries@ =~= before.update(p as int, e));
            lemma_fd_update(before, p as int, e);
        }
        true
    }

    /// The open descriptors, in increasing order.
    pub fn fd_list(&self) -> (r: Vec<u32>)
        requires
            self.wf(),
        ensures
            forall|i: int, j: int| 0 <= i < j < r@.len() ==> r@[i] < r@[j],
            forall|fd: u32| self.fds().contains_key(fd) <==> r@.contains(fd),
    {
        let mut out: Vec<u32> = Vec::new();
        let mut k: usize = 0;
        while k < self.entries.len()
            invariant
                k <= self.entries@.len(),
                fds_ascending(self.entries@),
                out@.len() == k,
                forall|j: int| 0 <= j < k ==> out@[j] == self.entries@[j].fd,
            decreases self.entries@.len() - k,
        {
            out.push(self.entries[k].fd);
            k = k + 1;
        }
        proof {
            assert forall|fd: u32| self.fds().contains_key(fd) <==> out@.contains(fd) by {
                if self.fds().contains_key(fd) {
                    let j = choose|j: int| 0 <= j < self.entries@.len() && self.entries@[j].fd == fd;
                    assert(out@[j] == fd);
                }
                if out@.contains(fd) {
                    let j = choose|j: int| 0 <= j < out@.len() && out@[j] == fd;
                    assert(self.entries@[j].fd == fd);
                }
            }
        }
        out
    }

    /// Closes every descriptor from `first` to `last`; nothing when `first > last`.
    pub fn close_range(&mut self, first: u32, last: u32)
        requires
            old(self).wf(),
        ensures
            final(self).wf(),
            final(self).fds() == Map::<u32, (D, bool)>::new(
                |fd: u32| old(self).fds().contains_key(fd) && !(first <= fd <= last),
                |fd: u32| old(self).fds()[fd],
            ),
    {
        let ghost m0 = self.fds();
        if first > last {
            assert(self.fds() =~= Map::<u32, (D, bool)>::new(
                |fd: u32| m0.contains_key(fd) && !(first <= fd <= last),
                |fd: u32| m0[fd],
            ));
            return;
        }
        let mut k: usize = 0;
        while k < self.entries.len()
            invariant
                fds_ascending(self.entries@),
                k <= self.entries@.len(),
                forall|j: int| 0 <= j < k ==> !(first <= #[trigger] self.entries@[j].fd <= last),
                forall|fd: u32| #[trigger] fd_map(self.entries@).contains_key(fd) ==> m0.contains_key(fd)
                    && fd_map(self.entries@)[fd] == m0[fd],
                forall|fd: u32| #[trigger] m0.contains_key(fd) && !(first <= fd <= last) ==> fd_map(
                    self.entries@,
                ).contains_key(fd),
                forall|j: int| k <= j < self.entries@.len() ==> m0.contains_key(self.entries@[j].fd),
                forall|fd: u32| #[trigger] m0.contains_key(fd) && first <= fd <= last ==> (
                fd_map(self.entries@).contains_key(fd) ==> exists|j: int|
                    k <= j < self.entries@.len() && self.entries@[j].fd == fd),
            decreases self.entries@.len() - k,
        {
            let fd = self.entries[k].fd;
            if first <= fd && fd <= last {
                let ghost before = self.entries@;
                proof {
                    lemma_fd_remove(before, k as int);
                    lemma_fd_index(before, k as int);
                    assert forall|fd2: u32| #[trigger] m0.contains_key(fd2) && first <= fd2 <= last
                        && fd_map(before.remove(k as int)).contains_key(fd2) implies exists|j: int|
                        k <= j < before.remove(k as int).len() && before.remove(k as int)[j].fd
                            == fd2 by {
                        let j0 = choose|j: int| k <= j < before.len() && before[j].fd == fd2;
                        assert(j0 != k);
                        assert(before.remove(k as int)[j0 - 1].fd == fd2);
                    }
                }
                let _ = self.entries.remove(k);
            } else {
                proof {
                    assert forall|fd2: u32| #[trigger] m0.contains_key(fd2) && first <= fd2 <= last
                        && fd_map(self.entries@).contains_key(fd2) implies exists|j: int|
                        k + 1 <= j < self.entries@.len() && self.entries@[j].fd == fd2 by {
                        let j0 = choose|j: int| k <= j < self.entries@.len() && self.entries@[j].fd
                            == fd2;
                        assert(j0 != k);
                    }
                }
                k = k + 1;
            }
        }
        proof {
            let target = Map::<u32, (D, bool)>::new(
                |fd: u32| m0.contains_key(fd) && !(first <= fd <= last),
                |fd: u32| m0[fd],
            );
            assert forall|fd: u32| fd_map(self.entries@).contains_key(fd) <==> target.contains_key(
                fd,
            ) by {
                if fd_map(self.entries@).contains_key(fd) {
                    let j = choose|j: int| 0 <= j < self.entries@.len() && self.entries@[j].fd == fd;
                    assert(!(first <= self.entries@[j].fd <= last));
                }
            }
            assert(fd_map(self.entries@) =~= target);
        }
    }
}

impl<D> FdTable<D> {
    /// Closes every descriptor marked close-on-exec.
    pub fn close_cloexec(&mut self)
        requires
            old(self).wf(),
        ensures
            final(self).wf(),
            final(self).fds() == Map::<u32, (D, bool)>::new(
                |fd: u32| old(self).fds().contains_key(fd) && !old(self).fds()[fd].1,
                |fd: u32| old(self).fds()[fd],
            ),
    {
        let ghost m0 = self.fds();
        let mut k: usize = 0;
        while k < self.entries.len()
            invariant
                fds_ascending(self.entries@),
                k <= self.entries@.len(),
                forall|j: int| 0 <= j < k ==> !(#[trigger] self.entries@[j]).cloexec,
                forall|fd: u32| #[trigger] fd_map(self.entries@).contains_key(fd) ==> m0.contains_key(fd)
                    && fd_map(self.entries@)[fd] == m0[fd],
                forall|fd: u32| #[trigger] m0.contains_key(fd) && !m0[fd].1 ==> fd_map(
                    self.entries@,
                ).contains_key(fd),
            decreases self.entries@.len() - k,
        {
            if self.entries[k].cloexec {
                let ghost before = self.entries@;
                proof {
                    lemma_fd_remove(before, k as int);
                    lemma_fd_index(before, k as int);
                }
                let _ = self.entries.remove(k);
            } else {
                k = k + 1;
            }
        }
        proof {
            let target = Map::<u32, (D, bool)>::new(
                |fd: u32| m0.contains_key(fd) && !m0[fd].1,
                |fd: u32| m0[fd],
            );
            assert forall|fd: u32| fd_map(self.entries@).contains_key(fd) <==> target.contains_key(
                fd,
            ) by {
                if fd_map(self.entries@).contains_key(fd) {
                    let j = choose|j: int| 0 <= j < self.entries@.len() && self.entries@[j].fd == fd;
                    lemma_fd_index(self.entries@, j);
                    assert(!self.entries@[j].cloexec);
                }
            }
            assert(fd_map(self.entries@) =~= target);
        }
    }

    /// Marks every open descriptor from `first` to `last` close-on-exec; nothing when
    /// `first > last`.
    pub fn set_cloexec_range(&mut self, first: u32, last: u32)
        requires
            old(self).wf(),
        ensures
            final(self).wf(),
            final(self).fds() == Map::<u32, (D, bool)>::new(
                |fd: u32| old(self).fds().contains_key(fd),
                |fd: u32|
                    if first <= fd <= last {
                        (old(self).fds()[fd].0, true)
                    } else {
                        old(self).fds()[fd]
                    },
            ),
    {
        let ghost m0 = self.fds();
        let ghost target = Map::<u32, (D, bool)>::new(
            |fd: u32| m0.contains_key(fd),
            |fd: u32|
                if first <= fd <= last {
                    (m0[fd].0, true)
                } else {
                    m0[fd]
                },
        );
        if first > last {
            assert(self.fds() =~= target);
            return;
        }
        let mut k: usize = 0;
        while k < self.entries.len()
            invariant
                fds_ascending(self.entries@),
                k <= self.entries@.len(),
                fd_map(self.entries@).dom() == m0.dom(),
                forall|fd: u32| #[trigger] fd_map(self.entries@).contains_key(fd) ==> fd_map(
                    self.entries@,
                )[fd].0 == m0[fd].0,
                forall|j: int|
                    0 <= j < k ==> fd_map(self.entries@)[#[trigger] self.entries@[j].fd]
                        == target[self.entries@[j].fd],
                forall|j: int|
                    k <= j < self.entries@.len() ==> fd_map(self.entries@)[#[trigger] self.entries@[j].fd]
                        == m0[self.entries@[j].fd],
                target == Map::<u32, (D, bool)>::new(
                    |fd: u32| m0.contains_key(fd),
                    |fd: u32|
                        if first <= fd <= last {
                            (m0[fd].0, true)
                        } else {
                            m0[fd]
                        },
                ),
            decreases self.entries@.len() - k,
        {
            let fd = self.entries[k].fd;
            if first <= fd && fd <= last {
                let ghost before = self.entries@;
                proof {
                    lemma_fd_index(before, k as int);
                }
                let mut e = self.entries.remove(k);
                e.cloexec = true;
                self.entries.insert(k, e);
                proof {
                    assert(self.entries@ =~= before.update(k as int, e));
                    lemma_fd_update(before, k as int, e);
                    assert(fd_map(self.entries@).dom() =~= m0.dom());
                    assert forall|j: int| 0 <= j < k + 1 implies fd_map(self.entries@)[#[trigger] self.entries@[j].fd]
                        == target[self.entries@[j].fd] by {
                        if j < k {
                            assert(before[j].fd != fd);
                        }
                    }
                    assert forall|j: int|
                        k + 1 <= j < self.entries@.len() implies fd_map(self.entries@)[#[trigger] self.entries@[j].fd]
                        == m0[self.entries@[j].fd] by {
                        assert(before[j].fd != fd);
                    }
                }
            }
            k = k + 1;
        }
        proof {
            assert forall|fd: u32| #[trigger] fd_map(self.entries@).contains_key(fd) implies fd_map(
                self.entries@,
            )[fd] == target[fd] by {
                let j = choose|j: int| 0 <= j < self.entries@.len() && self.entries@[j].fd == fd;
            }
            assert(fd_map(self.entries@) =~= target);
        }
    }
}

impl<D: Clone> FdTable<D> {
    /// `dup`/`F_DUPFD`: a copy of descriptor `fd` at the lowest free descriptor at or
    /// above `min_fd`, with close-on-exec as given; `None` when `fd` is not open.
    pub fn duplicate(&mut self, fd: u32, min_fd: u32, cloexec: bool) -> (r: Option<u32>)
        requires
            old(self).wf(),
            old(self).fds().contains_key(fd) ==> has_free_from(old(self).fds(), min_fd),
        ensures
            final(self).wf(),
            !old(self).fds().contains_key(fd) ==> r is None && final(self).fds() == old(self).fds(),
            old(self).fds().contains_key(fd) ==> (r matches Some(n) && is_lowest_free(
                old(self).fds(),
                min_fd,
                n,
            ) && final(self).fds().contains_key(n) && final(self).fds()[n].1 == cloexec
                && cloned(old(self).fds()[fd].0, final(self).fds()[n].0) && final(self).fds()
                == old(self).fds().insert(n, final(self).fds()[n])),
    {
        let copy = match self.get(fd) {
            None => return None,
            Some((file, _)) => file.clone(),
        };
        Some(self.insert(copy, cloexec, min_fd))
    }

    /// `dup2`/`dup3`: a copy of descriptor `fd` at `newfd` (in place of what was there),
    /// with close-on-exec as given; `None` when `fd` is not open.
    pub fn duplicate_to(&mut self, fd: u32, newfd: u32, cloexec: bool) -> (r: Option<u32>)
        requires
            old(self).wf(),
        ensures
            final(self).wf(),
            !old(self).fds().contains_key(fd) ==> r is None && final(self).fds() == old(self).fds(),
            old(self).fds().contains_key(fd) ==> (r == Some(newfd) && final(self).fds().contains_key(
                newfd,
            ) && final(self).fds()[newfd].1 == cloexec && cloned(
                old(self).fds()[fd].0,
                final(self).fds()[newfd].0,
            ) && final(self).fds() == old(self).fds().insert(newfd, final(self).fds()[newfd])),
    {
        let copy = match self.get(fd) {
            None => return None,
            Some((file, _)) => file.clone(),
        };
        self.insert_at(newfd, copy, cloexec);
        Some(newfd)
    }
}

/// How an open file may be used.
#[derive(Debug, Clone, Copy, PartialEq, Eq, Structural)]
pub struct OpenFlags {
    pub read: bool,
    pub write: bool,
    pub append: bool,
    pub nonblock: bool,
    pub directory: bool,
}

pub const O_ACCMODE: u64 = 0o3;
pub const O_WRONLY: u64 = 0o1;
pub const O_RDWR: u64 = 0o2;
pub const O_APPEND: u64 = 0o2000;
pub const O_NONBLOCK: u64 = 0o4000;
pub const O_DIRECTORY: u64 = 0o200000;

/// The open-file flags of the `open(2)` flags `raw`: write-only, read-write, or else
/// read-only access, and append, non-blocking and directory when asked for.
pub open spec fn spec_linux_open_flags(raw: u64) -> OpenFlags {
    OpenFlags {
        read: raw & O_ACCMODE != O_WRONLY,
        write: raw & O_ACCMODE == O_WRONLY || raw & O_ACCMODE == O_RDWR,
        append: raw & O_APPEND != 0,
        nonblock: raw & O_NONBLOCK != 0,
        directory: raw & O_DIRECTORY != 0,
    }
}

/// The open-file flags of the `open(2)` flags `raw`.
pub fn linux_open_flags(raw: u64) -> (r: OpenFlags)
    ensures
        r == spec_linux_open_flags(raw),
{
    let mode = raw & O_ACCMODE;
    OpenFlags {
        read: mode != O_WRONLY,
        write: mode == O_WRONLY || mode == O_RDWR,
        append: (raw & O_APPEND) != 0,
        nonblock: (raw & O_NONBLOCK) != 0,
        directory: (raw & O_DIRECTORY) != 0,
    }
}

/// The `F_GETFL` flags of an open file.
pub open spec fn spec_linux_status_flags(flags: OpenFlags) -> u64 {
    (if flags.write {
        if flags.read {
            O_RDWR
        } else {
            O_WRONLY
        }
    } else {
        0
    }) | (if flags.append {
        O_APPEND
    } else {
        0
    }) | (if flags.nonblock {
        O_NONBLOCK
    } else {
        0
    }) | (if flags.directory {
        O_DIRECTORY
    } else {
        0
    })
}

/// The `F_GETFL` flags of an open file.
pub fn linux_status_flags(flags: OpenFlags) -> (r: u64)
    ensures
        r == spec_linux_status_flags(flags),
{
    (if flags.write {
        if flags.read {
            O_RDWR
        } else {
            O_WRONLY
        }
    } else {
        0
    }) | (if flags.append {
        O_APPEND
    } else {
        0
    }) | (if flags.nonblock {
        O_NONBLOCK
    } else {
        0
    }) | (if flags.directory {
        O_DIRECTORY
    } else {
        0
    })
}

/// The `open(2)` flags of an open file give back its flags, for a file that reads or
/// writes.
pub proof fn lemma_open_flags_roundtrip(f: OpenFlags)
    requires
        f.read || f.write,
    ensures
        spec_linux_open_flags(spec_linux_status_flags(f)) == f,
{
    let a: u64 = if f.write {
        if f.read {
            O_RDWR
        } else {
            O_WRONLY
        }
    } else {
        0
    };
    let b: u64 = if f.append { O_APPEND } else { 0 };
    let c: u64 = if f.nonblock { O_NONBLOCK } else { 0 };
    let d: u64 = if f.directory { O_DIRECTORY } else { 0 };
    let raw = a | b | c | d;
    assert(raw & 3 == a && (raw & 0o2000 != 0) == (b != 0) && (raw & 0o4000 != 0) == (c != 0)
        && (raw & 0o200000 != 0) == (d != 0)) by (bit_vector)
        requires
            raw == a | b | c | d,
            a == 0 || a == 1 || a == 2,
            b == 0 || b == 0o2000,
            c == 0 || c == 0o4000,
            d == 0 || d == 0o200000,
    ;
}

} // verus!
