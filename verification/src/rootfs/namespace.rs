//! A mount namespace: a stack of root mounts, and a stack of mounts at each other path.
//! Paths are absolute and already normalized; the latest mount at a path hides the
//! earlier ones until it is unmounted.
use vstd::prelude::*;

use crate::errno::SysErr;
use crate::text::bytes_equal;

verus! {

/// The mounts at one path, latest last.
pub struct MountEntry<M> {
    pub path: Vec<u8>,
    pub stack: Vec<M>,
}

/// A mount namespace over mounts of type `M`.
pub struct MountNamespace<M> {
    root_stack: Vec<M>,
    mounts: Vec<MountEntry<M>>,
}

/// The path `/`.
pub open spec fn root_path() -> Seq<u8> {
    seq![47u8]
}

/// Whether some entry is at `k`.
pub open spec fn has_key<M>(es: Seq<MountEntry<M>>, k: Seq<u8>) -> bool {
    exists|i: int| 0 <= i < es.len() && es[i].path@ == k
}

/// The position of the entry at `k`.
pub open spec fn key_index<M>(es: Seq<MountEntry<M>>, k: Seq<u8>) -> int {
    choose|i: int| 0 <= i < es.len() && es[i].path@ == k
}

/// The stacks of the entries, by path.
pub open spec fn entry_map<M>(es: Seq<MountEntry<M>>) -> Map<Seq<u8>, Seq<M>> {
    Map::new(|k: Seq<u8>| has_key(es, k), |k: Seq<u8>| es[key_index(es, k)].stack@)
}

/// No two entries share a path, and no stack is empty.
pub open spec fn entries_wf<M>(es: Seq<MountEntry<M>>) -> bool {
    &&& forall|i: int, j: int| 0 <= i < j < es.len() ==> es[i].path@ != es[j].path@
    &&& forall|i: int| 0 <= i < es.len() ==> es[i].stack@.len() > 0
}

/// Whether the mount at `mount_path` covers `path`: the same path, or a directory above
/// it.
pub open spec fn mount_path_matches(path: Seq<u8>, mount_path: Seq<u8>) -> bool {
    path == mount_path || (mount_path.len() < path.len() && path.take(mount_path.len() as int)
        == mount_path && path[mount_path.len() as int] == 47)
}

/// Whether the mount at `k` covers `path` and takes part in the choice: a path of at
/// least one byte.
pub open spec fn covers<M>(m: Map<Seq<u8>, Seq<M>>, path: Seq<u8>, k: Seq<u8>) -> bool {
    m.contains_key(k) && k.len() >= 1 && mount_path_matches(path, k)
}

/// The longest mount path that covers `path`.
pub open spec fn covering_path<M>(m: Map<Seq<u8>, Seq<M>>, path: Seq<u8>) -> Option<Seq<u8>> {
    if exists|k: Seq<u8>| covers(m, path, k) {
        Some(
            choose|k: Seq<u8>|
                covers(m, path, k) && forall|o: Seq<u8>| covers(m, path, o) ==> o.len() <= k.len(),
        )
    } else {
        None
    }
}

proof fn lemma_key_index<M>(es: Seq<MountEntry<M>>, i: int)
    requires
        entries_wf(es),
        0 <= i < es.len(),
    ensures
        has_key(es, es[i].path@),
        key_index(es, es[i].path@) == i,
        entry_map(es).contains_key(es[i].path@),
        entry_map(es)[es[i].path@] == es[i].stack@,
{
    assert(0 <= i < es.len() && es[i].path@ == es[i].path@);
    let c = key_index(es, es[i].path@);
    if c < i {
        assert(es[c].path@ != es[i].path@);
    } else if c > i {
        assert(es[i].path@ != es[c].path@);
    }
}

proof fn lemma_entry_set<M>(es: Seq<MountEntry<M>>, i: int, e: MountEntry<M>)
    requires
        entries_wf(es),
        0 <= i < es.len(),
        e.path@ == es[i].path@,
        e.stack@.len() > 0,
    ensures
        entries_wf(es.update(i, e)),
        entry_map(es.update(i, e)) == entry_map(es).insert(e.path@, e.stack@),
{
    let u = es.update(i, e);
    assert(entries_wf(u)) by {
        assert forall|a: int, b: int| 0 <= a < b < u.len() implies u[a].path@ != u[b].path@ by {
            assert(es[a].path@ != es[b].path@);
        }
    }
    let m = entry_map(es).insert(e.path@, e.stack@);
    assert forall|k: Seq<u8>| entry_map(u).contains_key(k) <==> m.contains_key(k) by {
        if entry_map(u).contains_key(k) {
            let j = choose|j: int| 0 <= j < u.len() && u[j].path@ == k;
            assert(es[j].path@ == k);
        }
        if m.contains_key(k) && k != e.path@ {
            let j = choose|j: int| 0 <= j < es.len() && es[j].path@ == k;
            assert(u[j].path@ == k);
        }
        if k == e.path@ {
            assert(u[i].path@ == k);
        }
    }
    assert forall|k: Seq<u8>| #[trigger] entry_map(u).contains_key(k) implies entry_map(u)[k] == m[k] by {
        let j = choose|j: int| 0 <= j < u.len() && u[j].path@ == k;
        lemma_key_index(u, j);
        if j != i {
            lemma_key_index(es, j);
        }
    }
    assert(entry_map(u) =~= m);
}

proof fn lemma_entry_remove<M>(es: Seq<MountEntry<M>>, i: int)
    requires
        entries_wf(es),
        0 <= i < es.len(),
    ensures
        entries_wf(es.remove(i)),
        entry_map(es.remove(i)) == entry_map(es).remove(es[i].path@),
{
    let r = es.remove(i);
    assert(entries_wf(r)) by {
        assert forall|a: int, b: int| 0 <= a < b < r.len() implies r[a].path@ != r[b].path@ by {
            let a0 = if a < i { a } else { a + 1 };
            let b0 = if b < i { b } else { b + 1 };
            assert(es[a0].path@ != es[b0].path@);
        }
        assert forall|a: int| 0 <= a < r.len() implies r[a].stack@.len() > 0 by {
            let a0 = if a < i { a } else { a + 1 };
            assert(r[a] == es[a0]);
        }
    }
    let m = entry_map(es).remove(es[i].path@);
    assert forall|k: Seq<u8>| entry_map(r).contains_key(k) <==> m.contains_key(k) by {
        if entry_map(r).contains_key(k) {
            let j = choose|j: int| 0 <= j < r.len() && r[j].path@ == k;
            let j0 = if j < i { j } else { j + 1 };
            assert(es[j0].path@ == k);
            if j0 < i {
                assert(es[j0].path@ != es[i].path@);
            } else {
                assert(es[i].path@ != es[j0].path@);
            }
        }
        if m.contains_key(k) {
            let j = choose|j: int| 0 <= j < es.len() && es[j].path@ == k;
            assert(j != i);
            let j1 = if j < i { j } else { j - 1 };
            assert(r[j1].path@ == k);
        }
    }
    assert forall|k: Seq<u8>| #[trigger] entry_map(r).contains_key(k) implies entry_map(r)[k] == m[k] by {
        let j = choose|j: int| 0 <= j < r.len() && r[j].path@ == k;
        lemma_key_index(r, j);
        let j0 = if j < i { j } else { j + 1 };
        assert(r[j] == es[j0]);
        lemma_key_index(es, j0);
    }
    assert(entry_map(r) =~= m);
}

proof fn lemma_entry_push<M>(es: Seq<MountEntry<M>>, e: MountEntry<M>)
    requires
        entries_wf(es),
        !has_key(es, e.path@),
        e.stack@.len() > 0,
    ensures
        entries_wf(es.push(e)),
        entry_map(es.push(e)) == entry_map(es).insert(e.path@, e.stack@),
{
    let u = es.push(e);
    assert(entries_wf(u)) by {
        assert forall|a: int, b: int| 0 <= a < b < u.len() implies u[a].path@ != u[b].path@ by {
            if b == es.len() {
                assert(es[a].path@ != e.path@);
            } else {
                assert(es[a].path@ != es[b].path@);
            }
        }
    }
    let m = entry_map(es).insert(e.path@, e.stack@);
    assert forall|k: Seq<u8>| entry_map(u).contains_key(k) <==> m.contains_key(k) by {
        if entry_map(u).contains_key(k) && k != e.path@ {
            let j = choose|j: int| 0 <= j < u.len() && u[j].path@ == k;
            assert(j < es.len());
            assert(es[j].path@ == k);
        }
        if m.contains_key(k) && k != e.path@ {
            let j = choose|j: int| 0 <= j < es.len() && es[j].path@ == k;
            assert(u[j].path@ == k);
        }
        if k == e.path@ {
            assert(u[es.len() as int].path@ == k);
        }
    }
    assert forall|k: Seq<u8>| #[trigger] entry_map(u).contains_key(k) implies entry_map(u)[k] == m[k] by {
        let j = choose|j: int| 0 <= j < u.len() && u[j].path@ == k;
        lemma_key_index(u, j);
        if j < es.len() {
            lemma_key_index(es, j);
        }
    }
    assert(entry_map(u) =~= m);
}

proof fn lemma_covers_unique<M>(m: Map<Seq<u8>, Seq<M>>, path: Seq<u8>, a: Seq<u8>, b: Seq<u8>)
    requires
        covers(m, path, a),
        covers(m, path, b),
        a.len() == b.len(),
    ensures
        a == b,
{
    assert(path.take(a.len() as int) == a) by {
        if path == a {
            assert(path.take(a.len() as int) =~= path);
        }
    }
    assert(path.take(b.len() as int) == b) by {
        if path == b {
            assert(path.take(b.len() as int) =~= path);
        }
    }
}


fn is_root(path: &[u8]) -> (r: bool)
    ensures
        r == (path@ == root_path()),
{
    if path.len() == 1 && path[0] == 47 {
        assert(path@ =~= root_path());
        true
    } else {
        false
    }
}

/// Whether the mount at `mount_path` covers `path`; see `mount_path_matches`.
pub fn path_matches(path: &[u8], mount_path: &[u8]) -> (r: bool)
    ensures
        r == mount_path_matches(path@, mount_path@),
{
    if bytes_equal(path, mount_path) {
        return true;
    }
    if mount_path.len() >= path.len() {
        return false;
    }
    let mut i: usize = 0;
    while i < mount_path.len()
        invariant
            i <= mount_path@.len(),
            mount_path@.len() < path@.len(),
            forall|j: int| 0 <= j < i ==> path@[j] == mount_path@[j],
        decreases mount_path@.len() - i,
    {
        if path[i] != mount_path[i] {
            assert(path@.take(mount_path@.len() as int)[i as int] != mount_path@[i as int]);
            return false;
        }
        i = i + 1;
    }
    assert(path@.take(mount_path@.len() as int) =~= mount_path@);
    path[mount_path.len()] == 47
}

fn copy_path(src: &[u8]) -> (r: Vec<u8>)
    ensures
        r@ == src@,
{
    let mut out: Vec<u8> = Vec::new();
    let mut j: usize = 0;
    while j < src.len()
        invariant
            j <= src@.len(),
            out@ == src@.take(j as int),
        decreases src@.len() - j,
    {
        out.push(src[j]);
        j = j + 1;
        assert(out@ =~= src@.take(j as int));
    }
    assert(src@.take(src@.len() as int) =~= src@);
    out
}

/// Whether `k` lies below the mount path `s`.
pub open spec fn is_descendant(k: Seq<u8>, s: Seq<u8>) -> bool {
    k.len() > s.len() && k.take(s.len() as int) == s && k[s.len() as int] == 47
}

/// What stands in front of the rest of a moved path: nothing for `/`, else `t`.
pub open spec fn target_prefix(t: Seq<u8>) -> Seq<u8> {
    if t == root_path() {
        Seq::empty()
    } else {
        t
    }
}

/// The path below `s` that a path below `t` came from.
pub open spec fn origin_of(s: Seq<u8>, t: Seq<u8>, k: Seq<u8>) -> Seq<u8> {
    s + k.skip(target_prefix(t).len() as int)
}

/// The path below `t` that a path below `s` moves to.
pub open spec fn moved_to(s: Seq<u8>, t: Seq<u8>, k: Seq<u8>) -> Seq<u8> {
    target_prefix(t) + k.skip(s.len() as int)
}

/// Whether `k` is where a mount below `s` lands when `s` moves to `t`.
pub open spec fn is_moved_key<M>(m: Map<Seq<u8>, Seq<M>>, s: Seq<u8>, t: Seq<u8>, k: Seq<u8>) -> bool {
    &&& s != root_path()
    &&& k.len() >= target_prefix(t).len()
    &&& k.take(target_prefix(t).len() as int) == target_prefix(t)
    &&& m.contains_key(origin_of(s, t, k))
    &&& is_descendant(origin_of(s, t, k), s)
}

/// The mounts below `s`, each under its new path below `t`.
pub open spec fn renamed_mounts<M>(m: Map<Seq<u8>, Seq<M>>, s: Seq<u8>, t: Seq<u8>) -> Map<Seq<u8>, Seq<M>> {
    Map::new(|k: Seq<u8>| is_moved_key(m, s, t, k), |k: Seq<u8>| m[origin_of(s, t, k)])
}

/// The mounts that stay where they are when `s` moves: all but those below it (all of
/// them when `s` is `/`).
pub open spec fn kept_mounts<M>(m: Map<Seq<u8>, Seq<M>>, s: Seq<u8>) -> Map<Seq<u8>, Seq<M>> {
    Map::new(
        |k: Seq<u8>| m.contains_key(k) && (s == root_path() || !is_descendant(k, s)),
        |k: Seq<u8>| m[k],
    )
}

/// The mounts after `node` lands on top of `t` (not `/`).
pub open spec fn pushed_at<M>(m: Map<Seq<u8>, Seq<M>>, t: Seq<u8>, node: M) -> Map<Seq<u8>, Seq<M>> {
    m.insert(
        t,
        (if m.contains_key(t) {
            m[t]
        } else {
            Seq::empty()
        }).push(node),
    )
}

/// The mounts other than `/` after the latest mount at `s` moves to `t`, where `m` is what
/// was left once it was taken off `s`: the mounts below `s` move along below `t`, in
/// place of what was there.
pub open spec fn moved_mounts<M>(m: Map<Seq<u8>, Seq<M>>, s: Seq<u8>, t: Seq<u8>, node: M) -> Map<Seq<u8>, Seq<M>> {
    let base = if t == root_path() {
        kept_mounts(m, s)
    } else {
        pushed_at(kept_mounts(m, s), t, node)
    };
    base.union_prefer_right(renamed_mounts(m, s, t))
}

/// The mounts after the latest one at `s` (not `/`) is taken off.
pub open spec fn popped_at<M>(m: Map<Seq<u8>, Seq<M>>, s: Seq<u8>) -> Map<Seq<u8>, Seq<M>> {
    if m[s].len() <= 1 {
        m.remove(s)
    } else {
        m.insert(s, m[s].drop_last())
    }
}

proof fn lemma_moved_to_origin(s: Seq<u8>, t: Seq<u8>, d: Seq<u8>)
    requires
        is_descendant(d, s),
    ensures
        origin_of(s, t, moved_to(s, t, d)) == d,
        moved_to(s, t, d).take(target_prefix(t).len() as int) == target_prefix(t),
        moved_to(s, t, d).len() >= target_prefix(t).len(),
{
    let k = moved_to(s, t, d);
    let tp = target_prefix(t);
    assert(k.skip(tp.len() as int) =~= d.skip(s.len() as int));
    assert(k.take(tp.len() as int) =~= tp);
    assert(s + d.skip(s.len() as int) =~= d) by {
        assert(d.take(s.len() as int) == s);
        assert forall|i: int| 0 <= i < d.len() implies (s + d.skip(s.len() as int))[i] == d[i] by {
            if i < s.len() {
                assert(d.take(s.len() as int)[i] == d[i]);
            }
        }
    }
}

proof fn lemma_origin_moved_to(s: Seq<u8>, t: Seq<u8>, k: Seq<u8>)
    requires
        k.len() >= target_prefix(t).len(),
        k.take(target_prefix(t).len() as int) == target_prefix(t),
    ensures
        moved_to(s, t, origin_of(s, t, k)) == k,
{
    let tp = target_prefix(t);
    let o = origin_of(s, t, k);
    assert(o.skip(s.len() as int) =~= k.skip(tp.len() as int));
    assert(tp + k.skip(tp.len() as int) =~= k) by {
        assert forall|i: int| 0 <= i < k.len() implies (tp + k.skip(tp.len() as int))[i] == k[i] by {
            if i < tp.len() {
                assert(k.take(tp.len() as int)[i] == k[i]);
            }
        }
    }
}

impl<M> MountNamespace<M> {
    /// The root mounts, latest last.
    pub closed spec fn roots(&self) -> Seq<M> {
        self.root_stack@
    }

    /// The mounts at each other path, latest last.
    pub closed spec fn mounts(&self) -> Map<Seq<u8>, Seq<M>> {
        entry_map(self.mounts@)
    }

    /// The invariant: there is a root mount, and every path in `mounts` has one.
    pub closed spec fn wf(&self) -> bool {
        &&& self.root_stack@.len() > 0
        &&& entries_wf(self.mounts@)
    }

    /// Every path with an entry has at least one mount.
    pub proof fn lemma_stacks_nonempty(&self)
        requires
            self.wf(),
        ensures
            self.roots().len() > 0,
            forall|k: Seq<u8>| #[trigger] self.mounts().contains_key(k) ==> self.mounts()[k].len() > 0,
    {
        assert forall|k: Seq<u8>| #[trigger] self.mounts().contains_key(k) implies self.mounts()[k].len()
            > 0 by {
            let j = choose|j: int| 0 <= j < self.mounts@.len() && self.mounts@[j].path@ == k;
            lemma_key_index(self.mounts@, j);
        }
    }

    /// A namespace with `root` as its root and nothing else mounted.
    pub fn new(root: M) -> (r: Self)
        ensures
            r.wf(),
            r.roots() == seq![root],
            r.mounts() == Map::<Seq<u8>, Seq<M>>::empty(),
    {
        let mut root_stack: Vec<M> = Vec::new();
        root_stack.push(root);
        let r = MountNamespace { root_stack, mounts: Vec::new() };
        assert(r.root_stack@ =~= seq![root]);
        assert(entry_map(r.mounts@) =~= Map::<Seq<u8>, Seq<M>>::empty());
        r
    }

    /// The mount at `/`: the latest root mount.
    pub fn root_mount(&self) -> (r: &M)
        requires
            self.wf(),
        ensures
            *r == self.roots().last(),
    {
        &self.root_stack[self.root_stack.len() - 1]
    }

    fn find_entry(&self, path: &[u8]) -> (r: Option<usize>)
        requires
            entries_wf(self.mounts@),
        ensures
            r matches Some(i) ==> i < self.mounts@.len() && self.mounts@[i as int].path@ == path@,
            r is None ==> !has_key(self.mounts@, path@),
    {
        let mut i: usize = 0;
        while i < self.mounts.len()
            invariant
                i <= self.mounts@.len(),
                forall|j: int| 0 <= j < i ==> self.mounts@[j].path@ != path@,
            decreases self.mounts@.len() - i,
        {
            if bytes_equal(self.mounts[i].path.as_slice(), path) {
                return Some(i);
            }
            i = i + 1;
        }
        None
    }

    /// The latest mount at exactly `path`: the root for `/`.
    pub fn lookup_mount(&self, path: &[u8]) -> (r: Option<&M>)
        requires
            self.wf(),
        ensures
            path@ == root_path() ==> (r matches Some(m) && *m == self.roots().last()),
            path@ != root_path() ==> match r {
                Some(m) => self.mounts().contains_key(path@) && *m == self.mounts()[path@].last(),
                None => !self.mounts().contains_key(path@),
            },
    {
        if is_root(path) {
            return Some(self.root_mount());
        }
        match self.find_entry(path) {
            None => None,
            Some(i) => {
                proof {
                    lemma_key_index(self.mounts@, i as int);
                }
                let stack = &self.mounts[i].stack;
                Some(&stack[stack.len() - 1])
            },
        }
    }

    /// The mount that `path` lies in: the latest mount at the longest mount path that
    /// covers it, else the root.
    pub fn covering_mount(&self, path: &[u8]) -> (r: &M)
        requires
            self.wf(),
        ensures
            *r == match covering_path(self.mounts(), path@) {
                Some(k) => self.mounts()[k].last(),
                None => self.roots().last(),
            },
    {
        let ghost es = self.mounts@;
        let ghost m = entry_map(es);
        let mut best: Option<usize> = None;
        let mut best_len: usize = 1;
        let mut i: usize = 0;
        while i < self.mounts.len()
            invariant
                es == self.mounts@,
                m == entry_map(es),
                entries_wf(es),
                i <= es.len(),
                best_len >= 1,
                best matches Some(b) ==> b < i && es[b as int].path@.len() == best_len
                    && mount_path_matches(path@, es[b as int].path@),
                best is None ==> best_len == 1,
                forall|j: int|
                    0 <= j < i && es[j].path@.len() >= 1 && mount_path_matches(path@, es[j].path@)
                        ==> es[j].path@.len() <= best_len && best is Some,
            decreases es.len() - i,
        {
            let mp = self.mounts[i].path.as_slice();
            if path_matches(path, mp) && mp.len() >= best_len {
                best = Some(i);
                best_len = mp.len();
            }
            i = i + 1;
        }
        match best {
            None => {
                proof {
                    assert forall|k: Seq<u8>| !covers(m, path@, k) by {
                        if covers(m, path@, k) {
                            let j = choose|j: int| 0 <= j < es.len() && es[j].path@ == k;
                        }
                    }
                }
                self.root_mount()
            },
            Some(b) => {
                proof {
                    lemma_key_index(es, b as int);
                    let kb = es[b as int].path@;
                    assert(covers(m, path@, kb));
                    assert forall|o: Seq<u8>| covers(m, path@, o) implies o.len() <= kb.len() by {
                        let j = choose|j: int| 0 <= j < es.len() && es[j].path@ == o;
                    }
                    let c = choose|k: Seq<u8>|
                        covers(m, path@, k) && forall|o: Seq<u8>|
                            covers(m, path@, o) ==> o.len() <= k.len();
                    assert(covers(m, path@, c) && forall|o: Seq<u8>|
                        covers(m, path@, o) ==> o.len() <= c.len());
                    assert(c.len() <= kb.len());
                    assert(kb.len() <= c.len());
                    lemma_covers_unique(m, path@, c, kb);
                }
                let stack = &self.mounts[b].stack;
                &stack[stack.len() - 1]
            },
        }
    }

    /// Mounts `node` at `target`, on top of what is there.
    pub fn mount(&mut self, target: &[u8], node: M) -> (r: Result<(), SysErr>)
        requires
            old(self).wf(),
        ensures
            final(self).wf(),
            r is Ok,
            target@ == root_path() ==> final(self).roots() == old(self).roots().push(node)
                && final(self).mounts() == old(self).mounts(),
            target@ != root_path() ==> final(self).roots() == old(self).roots()
                && final(self).mounts() == old(self).mounts().insert(
                target@,
                (if old(self).mounts().contains_key(target@) {
                    old(self).mounts()[target@]
                } else {
                    Seq::empty()
                }).push(node),
            ),
    {
        if is_root(target) {
            self.root_stack.push(node);
            return Ok(());
        }
        self.push_at(target, node);
        Ok(())
    }

    fn push_at(&mut self, target: &[u8], node: M)
        requires
            entries_wf(old(self).mounts@),
        ensures
            entries_wf(final(self).mounts@),
            final(self).root_stack@ == old(self).root_stack@,
            entry_map(final(self).mounts@) == entry_map(old(self).mounts@).insert(
                target@,
                (if entry_map(old(self).mounts@).contains_key(target@) {
                    entry_map(old(self).mounts@)[target@]
                } else {
                    Seq::empty()
                }).push(node),
            ),
    {
        match self.find_entry(target) {
            Some(i) => {
                let ghost before = self.mounts@;
                proof {
                    lemma_key_index(before, i as int);
                }
                let mut e = self.mounts.remove(i);
                e.stack.push(node);
                self.mounts.insert(i, e);
                proof {
                    assert(self.mounts@ =~= before.update(i as int, e));
                    lemma_entry_set(before, i as int, e);
                }
            },
            None => {
                let mut stack: Vec<M> = Vec::new();
                stack.push(node);
                let e = MountEntry { path: copy_path(target), stack };
                let ghost before = self.mounts@;
                assert(e.stack@ =~= Seq::<M>::empty().push(node));
                proof {
                    lemma_entry_push(before, e);
                }
                self.mounts.push(e);
            },
        }
    }

    /// Unmounts the latest mount at `target`: `Inval` when nothing is mounted there, or
    /// when it is the last root mount.
    pub fn unmount(&mut self, target: &[u8]) -> (r: Result<(), SysErr>)
        requires
            old(self).wf(),
        ensures
            final(self).wf(),
            target@ == root_path() && old(self).roots().len() <= 1 ==> r == Err::<(), SysErr>(
                SysErr::Inval,
            ) && final(self).roots() == old(self).roots() && final(self).mounts() == old(
                self,
            ).mounts(),
            target@ == root_path() && old(self).roots().len() > 1 ==> r is Ok && final(self).roots()
                == old(self).roots().drop_last() && final(self).mounts() == old(self).mounts(),
            target@ != root_path() && !old(self).mounts().contains_key(target@) ==> r == Err::<
                (),
                SysErr,
            >(SysErr::Inval) && final(self).roots() == old(self).roots() && final(self).mounts()
                == old(self).mounts(),
            target@ != root_path() && old(self).mounts().contains_key(target@) ==> r is Ok
                && final(self).roots() == old(self).roots() && final(self).mounts() == (if old(
                self,
            ).mounts()[target@].len() == 1 {
                old(self).mounts().remove(target@)
            } else {
                old(self).mounts().insert(target@, old(self).mounts()[target@].drop_last())
            }),
    {
        if is_root(target) {
            if self.root_stack.len() <= 1 {
                return Err(SysErr::Inval);
            }
            let _ = self.root_stack.pop();
            return Ok(());
        }
        match self.find_entry(target) {
            None => Err(SysErr::Inval),
            Some(i) => {
                let ghost before = self.mounts@;
                proof {
                    lemma_key_index(before, i as int);
                }
                let mut e = self.mounts.remove(i);
                let _ = e.stack.pop();
                if e.stack.len() == 0 {
                    proof {
                        lemma_entry_remove(before, i as int);
                    }
                } else {
                    self.mounts.insert(i, e);
                    proof {
                        assert(self.mounts@ =~= before.update(i as int, e));
                        lemma_entry_set(before, i as int, e);
                    }
                }
                Ok(())
            },
        }
    }
}

proof fn lemma_entries_wf_take<M>(es: Seq<MountEntry<M>>, n: int)
    requires
        entries_wf(es),
        0 <= n <= es.len(),
    ensures
        entries_wf(es.take(n)),
{
    assert forall|i: int, j: int| 0 <= i < j < es.take(n).len() implies es.take(n)[i].path@
        != es.take(n)[j].path@ by {
        assert(es[i].path@ != es[j].path@);
    }
    assert forall|i: int| 0 <= i < es.take(n).len() implies es.take(n)[i].stack@.len() > 0 by {
        assert(es.take(n)[i] == es[i]);
    }
}

proof fn lemma_not_key_of_prefix<M>(es: Seq<MountEntry<M>>, n: int)
    requires
        entries_wf(es),
        0 <= n < es.len(),
    ensures
        !has_key(es.take(n), es[n].path@),
        es.take(n + 1) == es.take(n).push(es[n]),
{
    if has_key(es.take(n), es[n].path@) {
        let i = choose|i: int| 0 <= i < es.take(n).len() && es.take(n)[i].path@ == es[n].path@;
        assert(es[i].path@ != es[n].path@);
    }
    assert(es.take(n + 1) =~= es.take(n).push(es[n]));
}

fn is_descendant_path(k: &[u8], s: &[u8]) -> (r: bool)
    ensures
        r == is_descendant(k@, s@),
{
    if k.len() <= s.len() {
        return false;
    }
    let mut i: usize = 0;
    while i < s.len()
        invariant
            i <= s@.len(),
            s@.len() < k@.len(),
            forall|j: int| 0 <= j < i ==> k@[j] == s@[j],
        decreases s@.len() - i,
    {
        if k[i] != s[i] {
            assert(k@.take(s@.len() as int)[i as int] != s@[i as int]);
            return false;
        }
        i = i + 1;
    }
    assert(k@.take(s@.len() as int) =~= s@);
    k[s.len()] == 47
}

fn moved_path(k: &[u8], s: &[u8], t: &[u8]) -> (r: Vec<u8>)
    requires
        s@.len() <= k@.len(),
    ensures
        r@ == moved_to(s@, t@, k@),
{
    let mut out: Vec<u8> = if is_root(t) {
        Vec::new()
    } else {
        copy_path(t)
    };
    let ghost start = out@;
    assert(start == target_prefix(t@));
    let mut j: usize = s.len();
    while j < k.len()
        invariant
            s@.len() <= j <= k@.len(),
            out@ == start + k@.subrange(s@.len() as int, j as int),
        decreases k@.len() - j,
    {
        out.push(k[j]);
        j = j + 1;
        assert(out@ =~= start + k@.subrange(s@.len() as int, j as int));
    }
    assert(k@.subrange(s@.len() as int, k@.len() as int) =~= k@.skip(s@.len() as int));
    out
}

impl<M> MountNamespace<M> {
    fn put_entry(&mut self, e: MountEntry<M>)
        requires
            entries_wf(old(self).mounts@),
            e.stack@.len() > 0,
        ensures
            entries_wf(final(self).mounts@),
            final(self).root_stack@ == old(self).root_stack@,
            entry_map(final(self).mounts@) == entry_map(old(self).mounts@).insert(e.path@, e.stack@),
    {
        match self.find_entry(e.path.as_slice()) {
            Some(i) => {
                let ghost before = self.mounts@;
                let _ = self.mounts.remove(i);
                let ghost pe = e;
                self.mounts.insert(i, e);
                proof {
                    assert(self.mounts@ =~= before.update(i as int, pe));
                    lemma_entry_set(before, i as int, pe);
                }
            },
            None => {
                let ghost before = self.mounts@;
                proof {
                    lemma_entry_push(before, e);
                }
                self.mounts.push(e);
            },
        }
    }

    fn take_descendants(&mut self, source: &[u8], target: &[u8]) -> (moved: Vec<MountEntry<M>>)
        requires
            entries_wf(old(self).mounts@),
            source@ != root_path(),
        ensures
            entries_wf(final(self).mounts@),
            entries_wf(moved@),
            final(self).root_stack@ == old(self).root_stack@,
            entry_map(final(self).mounts@) == kept_mounts(entry_map(old(self).mounts@), source@),
            entry_map(moved@) == renamed_mounts(entry_map(old(self).mounts@), source@, target@),
    {
        let ghost orig = self.mounts@;
        let mut rest: Vec<MountEntry<M>> = Vec::new();
        std::mem::swap(&mut rest, &mut self.mounts);
        let mut moved: Vec<MountEntry<M>> = Vec::new();
        let ghost mut done: int = 0;
        proof {
            assert(orig.skip(0) =~= orig);
            assert(orig.take(0) =~= Seq::<MountEntry<M>>::empty());
            assert(entry_map(orig.take(0)) =~= Map::<Seq<u8>, Seq<M>>::empty());
            assert(entry_map(self.mounts@) =~= Map::<Seq<u8>, Seq<M>>::empty());
            assert(entry_map(moved@) =~= Map::<Seq<u8>, Seq<M>>::empty());
            assert(kept_mounts(entry_map(orig.take(0)), source@) =~= Map::<Seq<u8>, Seq<M>>::empty());
            assert(renamed_mounts(entry_map(orig.take(0)), source@, target@) =~= Map::<
                Seq<u8>,
                Seq<M>,
            >::empty());
        }
        while rest.len() > 0
            invariant
                entries_wf(orig),
                0 <= done <= orig.len(),
                rest@ == orig.skip(done),
                source@ != root_path(),
                entries_wf(self.mounts@),
                entries_wf(moved@),
                entry_map(self.mounts@) == kept_mounts(entry_map(orig.take(done)), source@),
                entry_map(moved@) == renamed_mounts(entry_map(orig.take(done)), source@, target@),
                self.root_stack@ == old(self).root_stack@,
            decreases rest@.len(),
        {
            let e = rest.remove(0);
            let ghost p = orig.take(done);
            let ghost mp = entry_map(p);
            proof {
                assert(e == orig[done]);
                lemma_entries_wf_take(orig, done);
                lemma_not_key_of_prefix(orig, done);
                lemma_entry_push(p, e);
            }
            let ghost mp2 = entry_map(orig.take(done + 1));
            assert(mp2 == mp.insert(e.path@, e.stack@));
            if is_descendant_path(e.path.as_slice(), source) {
                let np = moved_path(e.path.as_slice(), source, target);
                proof {
                    lemma_moved_to_origin(source@, target@, e.path@);
                    assert(kept_mounts(mp2, source@) =~= kept_mounts(mp, source@));
                    assert forall|k: Seq<u8>| is_moved_key(mp2, source@, target@, k) <==> (
                    is_moved_key(mp, source@, target@, k) || k == np@) by {
                        if is_moved_key(mp2, source@, target@, k) && origin_of(source@, target@, k)
                            == e.path@ {
                            lemma_origin_moved_to(source@, target@, k);
                        }
                    }
                    assert(renamed_mounts(mp2, source@, target@) =~= renamed_mounts(
                        mp,
                        source@,
                        target@,
                    ).insert(np@, e.stack@));
                    if has_key(moved@, np@) {
                        assert(entry_map(moved@).contains_key(np@));
                        assert(mp.contains_key(e.path@));
                        assert(has_key(p, e.path@));
                    }
                    assert(orig[done].stack@.len() > 0);
                }
                let ne = MountEntry { path: np, stack: e.stack };
                proof {
                    lemma_entry_push(moved@, ne);
                }
                moved.push(ne);
            } else {
                proof {
                    assert(kept_mounts(mp2, source@) =~= kept_mounts(mp, source@).insert(
                        e.path@,
                        e.stack@,
                    ));
                    assert forall|k: Seq<u8>| is_moved_key(mp2, source@, target@, k) <==> is_moved_key(
                        mp,
                        source@,
                        target@,
                        k,
                    ) by {}
                    assert(renamed_mounts(mp2, source@, target@) =~= renamed_mounts(
                        mp,
                        source@,
                        target@,
                    ));
                    if has_key(self.mounts@, e.path@) {
                        assert(entry_map(self.mounts@).contains_key(e.path@));
                        assert(has_key(p, e.path@));
                    }
                    assert(orig[done].stack@.len() > 0);
                    lemma_entry_push(self.mounts@, e);
                }
                self.mounts.push(e);
            }
            proof {
                done = done + 1;
                assert(rest@ =~= orig.skip(done));
            }
        }
        proof {
            assert(orig.take(done) =~= orig);
        }
        moved
    }
}

impl<M: Clone> MountNamespace<M> {
    /// Moves the latest mount at `source` to `target`, with every mount below `source`
    /// moving to the same place below `target` (a mount already there gives way). Moving
    /// `/` leaves the root in place and mounts a clone of it. `Inval` when nothing is
    /// mounted at `source`.
    pub fn move_mount(&mut self, source: &[u8], target: &[u8]) -> (r: Result<(), SysErr>)
        requires
            old(self).wf(),
        ensures
            final(self).wf(),
            source@ != root_path() && !old(self).mounts().contains_key(source@) ==> r == Err::<
                (),
                SysErr,
            >(SysErr::Inval) && final(self).roots() == old(self).roots() && final(self).mounts()
                == old(self).mounts(),
            source@ == root_path() ==> r is Ok && exists|n: M|
                #![trigger cloned(old(self).roots().last(), n)]
                cloned(old(self).roots().last(), n) && final(self).roots() == (if target@
                    == root_path() {
                    old(self).roots().push(n)
                } else {
                    old(self).roots()
                }) && final(self).mounts() == moved_mounts(
                    old(self).mounts(),
                    source@,
                    target@,
                    n,
                ),
            source@ != root_path() && old(self).mounts().contains_key(source@) ==> r is Ok
                && final(self).roots() == (if target@ == root_path() {
                old(self).roots().push(old(self).mounts()[source@].last())
            } else {
                old(self).roots()
            }) && final(self).mounts() == moved_mounts(
                popped_at(old(self).mounts(), source@),
                source@,
                target@,
                old(self).mounts()[source@].last(),
            ),
    {
        let ghost m0 = entry_map(self.mounts@);
        let src_root = is_root(source);
        let node: M = if src_root {
            self.root_mount().clone()
        } else {
            match self.find_entry(source) {
                None => return Err(SysErr::Inval),
                Some(i) => {
                    let ghost before = self.mounts@;
                    proof {
                        lemma_key_index(before, i as int);
                    }
                    let mut e = self.mounts.remove(i);
                    let n = e.stack.pop().unwrap();
                    if e.stack.len() == 0 {
                        proof {
                            lemma_entry_remove(before, i as int);
                        }
                    } else {
                        self.mounts.insert(i, e);
                        proof {
                            assert(self.mounts@ =~= before.update(i as int, e));
                            lemma_entry_set(before, i as int, e);
                            assert(e.stack@ =~= before[i as int].stack@.drop_last());
                        }
                    }
                    n
                },
            }
        };
        let ghost m1 = entry_map(self.mounts@);
        let moved: Vec<MountEntry<M>> = if src_root {
            Vec::new()
        } else {
            self.take_descendants(source, target)
        };
        proof {
            if src_root {
                assert(m1 == m0);
                assert(kept_mounts(m1, source@) =~= m1);
                assert(renamed_mounts(m1, source@, target@) =~= Map::<Seq<u8>, Seq<M>>::empty());
                assert(entry_map(moved@) =~= Map::<Seq<u8>, Seq<M>>::empty());
            }
        }
        let ghost base_m = entry_map(self.mounts@);
        let ghost gnode = node;
        if is_root(target) {
            self.root_stack.push(node);
        } else {
            self.push_at(target, node);
        }
        let ghost base = entry_map(self.mounts@);
        let ghost roots_after = self.root_stack@;
        let ghost mv = moved@;
        let mut moved = moved;
        let ghost mut done: int = 0;
        proof {
            assert(mv.skip(0) =~= mv);
            assert(entry_map(mv.take(0)) =~= Map::<Seq<u8>, Seq<M>>::empty());
            assert(base.union_prefer_right(entry_map(mv.take(0))) =~= base);
        }
        while moved.len() > 0
            invariant
                entries_wf(mv),
                0 <= done <= mv.len(),
                moved@ == mv.skip(done),
                entries_wf(self.mounts@),
                entry_map(self.mounts@) == base.union_prefer_right(entry_map(mv.take(done))),
                self.root_stack@ == roots_after,
                roots_after.len() > 0,
            decreases moved@.len(),
        {
            let e = moved.remove(0);
            proof {
                assert(e == mv[done]);
                lemma_entries_wf_take(mv, done);
                lemma_not_key_of_prefix(mv, done);
                lemma_entry_push(mv.take(done), e);
                assert(base.union_prefer_right(entry_map(mv.take(done + 1))) =~= base.union_prefer_right(
                    entry_map(mv.take(done)),
                ).insert(e.path@, e.stack@));
            }
            self.put_entry(e);
            proof {
                done = done + 1;
                assert(moved@ =~= mv.skip(done));
            }
        }
        proof {
            assert(mv.take(done) =~= mv);
            if src_root {
                assert(cloned(old(self).roots().last(), gnode));
                assert(renamed_mounts(m0, source@, target@) =~= Map::<Seq<u8>, Seq<M>>::empty());
                assert(entry_map(self.mounts@) =~= moved_mounts(m0, source@, target@, gnode));
            }
        }
        Ok(())
    }
}

} // verus!
