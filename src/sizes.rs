//! The mapping from a type name to the sorted, duplicate-free sizes that were
//! observed for it.
use vstd::prelude::*;

verus! {

/// Whether `s` is strictly ascending, hence free of duplicates.
pub open spec fn strictly_ascending(s: Seq<u64>) -> bool {
    forall|i: int, j: int| 0 <= i < j < s.len() ==> s[i] < s[j]
}

/// Whether the sequence `s` holds exactly the values of `t`.
pub open spec fn holds_exactly(s: Seq<u64>, t: Set<u64>) -> bool {
    forall|y: u64| s.contains(y) <==> t.contains(y)
}

/// The sizes of `m` with `size` added under `name`.
pub open spec fn add_size(m: Map<Seq<char>, Set<u64>>, name: Seq<char>, size: u64) -> Map<
    Seq<char>,
    Set<u64>,
> {
    if m.contains_key(name) {
        m.insert(name, m[name].insert(size))
    } else {
        m.insert(name, set![size])
    }
}

/// The sets of sizes that a list of (name, size) observations gives.
pub open spec fn sizes_of(obs: Seq<(Seq<char>, u64)>) -> Map<Seq<char>, Set<u64>>
    decreases obs.len(),
{
    if obs.len() == 0 {
        Map::empty()
    } else {
        add_size(sizes_of(obs.drop_last()), obs.last().0, obs.last().1)
    }
}

/// A name is a key of `sizes_of(obs)` exactly when some observation carries
/// it, and its set holds exactly the sizes observed with it.
pub proof fn lemma_sizes_of(obs: Seq<(Seq<char>, u64)>)
    ensures
        forall|n: Seq<char>|
            #[trigger] sizes_of(obs).contains_key(n) <==> exists|i: int|
                0 <= i < obs.len() && obs[i].0 == n,
        forall|n: Seq<char>, y: u64|
            sizes_of(obs).contains_key(n) ==> (#[trigger] sizes_of(obs)[n].contains(y)
                <==> exists|i: int| 0 <= i < obs.len() && obs[i] == (n, y)),
    decreases obs.len(),
{
    if obs.len() > 0 {
        let p = obs.drop_last();
        lemma_sizes_of(p);
        let (ln, ly) = obs.last();
        assert(sizes_of(obs) == add_size(sizes_of(p), ln, ly));
        assert forall|n: Seq<char>|
            #[trigger] sizes_of(obs).contains_key(n) <==> exists|i: int|
                0 <= i < obs.len() && obs[i].0 == n by {
            if n == ln {
                assert(obs[obs.len() - 1].0 == n);
            }
            if n != ln && sizes_of(obs).contains_key(n) {
                assert(sizes_of(p).contains_key(n));
                let i = choose|i: int| 0 <= i < p.len() && p[i].0 == n;
                assert(obs[i].0 == n);
            }
            if exists|i: int| 0 <= i < obs.len() && obs[i].0 == n {
                let i = choose|i: int| 0 <= i < obs.len() && obs[i].0 == n;
                if i < p.len() {
                    assert(p[i].0 == n);
                    assert(sizes_of(p).contains_key(n));
                }
            }
        }
        assert forall|n: Seq<char>, y: u64|
            sizes_of(obs).contains_key(n) implies (#[trigger] sizes_of(obs)[n].contains(y)
                <==> exists|i: int| 0 <= i < obs.len() && obs[i] == (n, y)) by {
            if sizes_of(obs)[n].contains(y) {
                if n == ln && y == ly {
                    assert(obs[obs.len() - 1] == (n, y));
                } else {
                    assert(sizes_of(p).contains_key(n));
                    assert(sizes_of(p)[n].contains(y));
                    let i = choose|i: int| 0 <= i < p.len() && p[i] == (n, y);
                    assert(obs[i] == (n, y));
                }
            }
            if exists|i: int| 0 <= i < obs.len() && obs[i] == (n, y) {
                let i = choose|i: int| 0 <= i < obs.len() && obs[i] == (n, y);
                if i < p.len() {
                    assert(p[i] == (n, y));
                    assert(sizes_of(p).contains_key(n));
                    assert(sizes_of(p)[n].contains(y));
                }
            }
        }
    }
}

/// Whether the mapping `v` of names to size lists holds the sets `m`: same
/// names, and under each name a strictly ascending list of exactly its set.
pub open spec fn represents(v: Map<Seq<char>, Seq<u64>>, m: Map<Seq<char>, Set<u64>>) -> bool {
    &&& v.dom() == m.dom()
    &&& forall|k: Seq<char>| #[trigger]
        v.contains_key(k) ==> strictly_ascending(v[k]) && holds_exactly(v[k], m[k])
}

/// Two strictly ascending lists with the same elements are equal.
pub proof fn lemma_ascending_unique(a: Seq<u64>, b: Seq<u64>)
    requires
        strictly_ascending(a),
        strictly_ascending(b),
        forall|y: u64| a.contains(y) <==> b.contains(y),
    ensures
        a == b,
    decreases a.len() + b.len(),
{
    if a.len() == 0 {
        if b.len() > 0 {
            assert(b.contains(b[0]));
        }
    } else if b.len() == 0 {
        assert(a.contains(a[0]));
    } else {
        assert(a.contains(a[0]));
        assert(b.contains(b[0]));
        let ia = choose|i: int| 0 <= i < a.len() && a[i] == b[0];
        let ib = choose|i: int| 0 <= i < b.len() && b[i] == a[0];
        assert(a[0] == b[0]) by {
            if a[0] < b[0] {
                assert(b[ib] >= b[0]);
            } else if b[0] < a[0] {
                assert(a[ia] >= a[0]);
            }
        }
        let ta = a.drop_first();
        let tb = b.drop_first();
        assert forall|y: u64| ta.contains(y) <==> tb.contains(y) by {
            if ta.contains(y) {
                let k = choose|k: int| 0 <= k < ta.len() && ta[k] == y;
                assert(a[k + 1] == y);
                assert(b.contains(y));
                let m = choose|m: int| 0 <= m < b.len() && b[m] == y;
                assert(m != 0);
                assert(tb[m - 1] == y);
            }
            if tb.contains(y) {
                let k = choose|k: int| 0 <= k < tb.len() && tb[k] == y;
                assert(b[k + 1] == y);
                assert(a.contains(y));
                let m = choose|m: int| 0 <= m < a.len() && a[m] == y;
                assert(m != 0);
                assert(ta[m - 1] == y);
            }
        }
        lemma_ascending_unique(ta, tb);
        assert(a == seq![a[0]] + ta);
        assert(b == seq![b[0]] + tb);
    }
}

/// Each size list of a mapping that represents `sizes_of(obs)` is strictly
/// ascending, so it holds no size twice.
pub proof fn lemma_sizes_ascending(v: Map<Seq<char>, Seq<u64>>, obs: Seq<(Seq<char>, u64)>)
    requires
        represents(v, sizes_of(obs)),
    ensures
        forall|k: Seq<char>, i: int, j: int|
            v.contains_key(k) && 0 <= i < j < v[k].len() ==> #[trigger] v[k][i] < #[trigger] v[k][j],
{
    assert forall|k: Seq<char>, i: int, j: int|
        v.contains_key(k) && 0 <= i < j < v[k].len() implies #[trigger] v[k][i] < #[trigger] v[k][j] by {
        assert(strictly_ascending(v[k]));
    }
}

/// Two observation lists that hold the same (name, size) pairs, in whatever
/// order and however often, give the same mapping.
pub proof fn lemma_order_and_repeats_ignored(
    o1: Seq<(Seq<char>, u64)>,
    o2: Seq<(Seq<char>, u64)>,
    v1: Map<Seq<char>, Seq<u64>>,
    v2: Map<Seq<char>, Seq<u64>>,
)
    requires
        forall|x: (Seq<char>, u64)| o1.contains(x) <==> o2.contains(x),
        represents(v1, sizes_of(o1)),
        represents(v2, sizes_of(o2)),
    ensures
        v1 == v2,
{
    lemma_sizes_of(o1);
    lemma_sizes_of(o2);
    let m1 = sizes_of(o1);
    let m2 = sizes_of(o2);
    assert forall|n: Seq<char>| m1.contains_key(n) <==> m2.contains_key(n) by {
        if m1.contains_key(n) {
            let i = choose|i: int| 0 <= i < o1.len() && o1[i].0 == n;
            assert(o1.contains(o1[i]));
            let j = choose|j: int| 0 <= j < o2.len() && o2[j] == o1[i];
            assert(o2[j].0 == n);
        }
        if m2.contains_key(n) {
            let i = choose|i: int| 0 <= i < o2.len() && o2[i].0 == n;
            assert(o2.contains(o2[i]));
            let j = choose|j: int| 0 <= j < o1.len() && o1[j] == o2[i];
            assert(o1[j].0 == n);
        }
    }
    assert(v1.dom() =~= v2.dom());
    assert forall|n: Seq<char>| v1.contains_key(n) implies v1[n] == v2[n] by {
        assert(v2.contains_key(n));
        assert forall|y: u64| v1[n].contains(y) <==> v2[n].contains(y) by {
            if m1[n].contains(y) {
                let i = choose|i: int| 0 <= i < o1.len() && o1[i] == (n, y);
                assert(o1.contains((n, y)));
                let j = choose|j: int| 0 <= j < o2.len() && o2[j] == (n, y);
                assert(m2[n].contains(y));
            }
            if m2[n].contains(y) {
                let i = choose|i: int| 0 <= i < o2.len() && o2[i] == (n, y);
                assert(o2.contains((n, y)));
                let j = choose|j: int| 0 <= j < o1.len() && o1[j] == (n, y);
                assert(m1[n].contains(y));
            }
        }
        lemma_ascending_unique(v1[n], v2[n]);
    }
    assert(v1 =~= v2);
}

/// Adds `x` to the strictly ascending list `v`, keeping it so.
pub fn insert_sorted(v: &mut Vec<u64>, x: u64)
    requires
        strictly_ascending(old(v)@),
    ensures
        strictly_ascending(final(v)@),
        forall|y: u64| final(v)@.contains(y) <==> (old(v)@.contains(y) || y == x),
{
    let n = v.len();
    let mut i: usize = 0;
    while i < n && v[i] < x
        invariant
            v@ == old(v)@,
            n == v@.len(),
            i <= n,
            strictly_ascending(v@),
            forall|j: int| 0 <= j < i ==> v@[j] < x,
        decreases n - i,
    {
        i = i + 1;
    }
    if i < n && v[i] == x {
        assert(v@.contains(x));
        return;
    }
    let ghost before = v@;
    v.insert(i, x);
    proof {
        lemma_insert_contains(before, i as int, x);
        assert(v@ == before.insert(i as int, x));
        assert(before == old(v)@);
        assert forall|y: u64| v@.contains(y) <==> (old(v)@.contains(y) || y == x) by {
            assert(before.insert(i as int, x).contains(y) <==> (before.contains(y) || y == x));
        }
    }
}

proof fn lemma_insert_contains(before: Seq<u64>, i: int, x: u64)
    requires
        0 <= i <= before.len(),
    ensures
        forall|y: u64| before.insert(i, x).contains(y) <==> (before.contains(y) || y == x),
{
    let after = before.insert(i, x);
    assert forall|y: u64| after.contains(y) <==> (before.contains(y) || y == x) by {
        if after.contains(y) {
            let k = choose|k: int| 0 <= k < after.len() && after[k] == y;
            if k < i {
                assert(before[k] == y);
            } else if k > i {
                assert(before[k - 1] == y);
            }
        }
        if before.contains(y) {
            let k = choose|k: int| 0 <= k < before.len() && before[k] == y;
            if k < i {
                assert(after[k] == y);
            } else {
                assert(after[k + 1] == y);
            }
        }
        if y == x {
            assert(after[i] == x);
        }
    }
}

/// One name of the mapping with its sizes.
pub struct TypeSizeEntry {
    name: String,
    sizes: Vec<u64>,
}

/// A mapping from type name to the strictly ascending list of sizes observed
/// for it. Names are kept in the order in which they were first added.
pub struct TypeSizes {
    entries: Vec<TypeSizeEntry>,
    model: Ghost<Map<Seq<char>, Seq<u64>>>,
}

impl View for TypeSizes {
    type V = Map<Seq<char>, Seq<u64>>;

    closed spec fn view(&self) -> Map<Seq<char>, Seq<u64>> {
        self.model@
    }
}

impl TypeSizes {
    /// The names, in the order in which they were first added.
    pub closed spec fn names(&self) -> Seq<Seq<char>> {
        self.entries@.map_values(|e: TypeSizeEntry| e.name@)
    }

    /// Names are distinct, each is a key of the view with its size list, every
    /// key is among the names, and every size list is strictly ascending and
    /// not empty.
    pub closed spec fn wf(&self) -> bool {
        &&& forall|i: int, j: int|
            0 <= i < j < self.entries@.len() ==> self.entries@[i].name@
                != self.entries@[j].name@
        &&& forall|i: int|
            0 <= i < self.entries@.len() ==> {
                &&& #[trigger] self.model@.contains_key(self.entries@[i].name@)
                &&& self.model@[self.entries@[i].name@] == self.entries@[i].sizes@
                &&& strictly_ascending(self.entries@[i].sizes@)
                &&& self.entries@[i].sizes@.len() > 0
            }
        &&& forall|k: Seq<char>| #[trigger]
            self.model@.contains_key(k) ==> exists|i: int|
                0 <= i < self.entries@.len() && self.entries@[i].name@ == k
    }

    /// What a well-formed mapping guarantees of its names and size lists.
    pub proof fn lemma_wf(&self)
        requires
            self.wf(),
        ensures
            self.names().no_duplicates(),
            forall|k: Seq<char>| self@.contains_key(k) <==> self.names().contains(k),
            forall|k: Seq<char>| #[trigger]
                self@.contains_key(k) ==> strictly_ascending(self@[k]) && self@[k].len() > 0,
    {
        assert forall|k: Seq<char>| self@.contains_key(k) <==> self.names().contains(k) by {
            if self@.contains_key(k) {
                let i = choose|i: int| 0 <= i < self.entries@.len() && self.entries@[i].name@ == k;
                assert(self.names()[i] == k);
            }
            if self.names().contains(k) {
                let i = choose|i: int| 0 <= i < self.names().len() && self.names()[i] == k;
                assert(self.model@.contains_key(self.entries@[i].name@));
            }
        }
        assert forall|k: Seq<char>| #[trigger]
            self@.contains_key(k) implies strictly_ascending(self@[k]) && self@[k].len() > 0 by {
            let i = choose|i: int| 0 <= i < self.entries@.len() && self.entries@[i].name@ == k;
            assert(self.model@.contains_key(self.entries@[i].name@));
        }
    }

    /// An empty mapping.
    pub fn new() -> (r: TypeSizes)
        ensures
            r.wf(),
            r@ == Map::<Seq<char>, Seq<u64>>::empty(),
            r.names() == Seq::<Seq<char>>::empty(),
    {
        let r = TypeSizes { entries: Vec::new(), model: Ghost(Map::empty()) };
        assert(r.names() =~= Seq::<Seq<char>>::empty());
        r
    }

    /// The number of names.
    pub fn len(&self) -> (r: usize)
        ensures
            r == self.names().len(),
    {
        self.entries.len()
    }

    /// The position of `name` among the names, if it is one.
    fn find(&self, name: &String) -> (r: Option<usize>)
        requires
            self.wf(),
        ensures
            r is None ==> !self@.contains_key(name@),
            r matches Some(i) ==> i < self.entries@.len() && self.entries@[i as int].name@
                == name@,
    {
        let mut i: usize = 0;
        while i < self.entries.len()
            invariant
                i <= self.entries@.len(),
                forall|j: int| 0 <= j < i ==> self.entries@[j].name@ != name@,
            decreases self.entries@.len() - i,
        {
            if self.entries[i].name == *name {
                return Some(i);
            }
            i = i + 1;
        }
        None
    }

    /// The name at position `i`, in the order of first addition.
    pub fn name_at(&self, i: usize) -> (r: &str)
        requires
            i < self.names().len(),
        ensures
            r@ == self.names()[i as int],
    {
        self.entries[i].name.as_str()
    }

    /// The sizes recorded under `name`, if it is a key.
    pub fn get(&self, name: &str) -> (r: Option<&Vec<u64>>)
        requires
            self.wf(),
        ensures
            r is Some <==> self@.contains_key(name@),
            r matches Some(v) ==> v@ == self@[name@],
    {
        let key = String::from_str(name);
        match self.find(&key) {
            Some(i) => {
                assert(self.model@.contains_key(self.entries@[i as int].name@));
                Some(&self.entries[i].sizes)
            },
            None => None,
        }
    }

    /// Records that a type named `name` was seen with size `size`.
    pub fn add(&mut self, name: String, size: u64)
        requires
            old(self).wf(),
        ensures
            final(self).wf(),
            forall|m: Map<Seq<char>, Set<u64>>|
                represents(old(self)@, m) ==> represents(final(self)@, add_size(m, name@, size)),
            old(self)@.contains_key(name@) ==> final(self).names() == old(self).names(),
            !old(self)@.contains_key(name@) ==> final(self).names() == old(self).names().push(
                name@,
            ),
    {
        let ghost old_self = *self;
        proof {
            old_self.lemma_wf();
        }
        match self.find(&name) {
            Some(i) => {
                let ghost k = name@;
                assert(self.model@.contains_key(self.entries@[i as int].name@));
                insert_sorted(&mut self.entries[i].sizes, size);
                let ghost new_sizes = self.entries@[i as int].sizes@;
                self.model = Ghost(self.model@.insert(k, new_sizes));
                assert(self.names() =~= old_self.names());
                assert forall|j: int| 0 <= j < self.entries@.len() implies {
                    &&& #[trigger] self.model@.contains_key(self.entries@[j].name@)
                    &&& self.model@[self.entries@[j].name@] == self.entries@[j].sizes@
                    &&& strictly_ascending(self.entries@[j].sizes@)
                    &&& self.entries@[j].sizes@.len() > 0
                } by {
                    if j != i {
                        assert(old_self.model@.contains_key(old_self.entries@[j].name@));
                    } else {
                        assert(new_sizes.contains(size));
                    }
                }
                assert forall|kk: Seq<char>| #[trigger]
                    self.model@.contains_key(kk) implies exists|j: int|
                        0 <= j < self.entries@.len() && self.entries@[j].name@ == kk by {
                    if kk != k {
                        assert(old_self.model@.contains_key(kk));
                        let j = choose|j: int|
                            0 <= j < old_self.entries@.len() && old_self.entries@[j].name@ == kk;
                        assert(self.entries@[j].name@ == kk);
                    } else {
                        assert(self.entries@[i as int].name@ == kk);
                    }
                }
                assert forall|m: Map<Seq<char>, Set<u64>>|
                    represents(old_self@, m) implies represents(self@, add_size(m, name@, size)) by {
                    let m2 = add_size(m, name@, size);
                    assert(self@.dom() =~= m2.dom());
                    assert forall|kk: Seq<char>| #[trigger]
                        self@.contains_key(kk) implies strictly_ascending(self@[kk])
                        && holds_exactly(self@[kk], m2[kk]) by {
                        if kk != k {
                            assert(old_self@.contains_key(kk));
                        } else {
                            assert(old_self@.contains_key(kk));
                            assert(holds_exactly(old_self@[kk], m[kk]));
                        }
                    }
                }
            },
            None => {
                let ghost k = name@;
                let mut sizes: Vec<u64> = Vec::new();
                sizes.push(size);
                let ghost new_sizes = sizes@;
                self.entries.push(TypeSizeEntry { name, sizes });
                self.model = Ghost(self.model@.insert(k, new_sizes));
                let ghost n: int = self.entries@.len() - 1;
                assert(self.names() =~= old_self.names().push(k));
                assert forall|a: int, b: int|
                    0 <= a < b < self.entries@.len() implies self.entries@[a].name@
                    != self.entries@[b].name@ by {
                    if b == n {
                        assert(old_self.names().contains(old_self.entries@[a].name@)) by {
                            assert(old_self.names()[a] == old_self.entries@[a].name@);
                        }
                    }
                }
                assert forall|j: int| 0 <= j < self.entries@.len() implies {
                    &&& #[trigger] self.model@.contains_key(self.entries@[j].name@)
                    &&& self.model@[self.entries@[j].name@] == self.entries@[j].sizes@
                    &&& strictly_ascending(self.entries@[j].sizes@)
                    &&& self.entries@[j].sizes@.len() > 0
                } by {
                    if j < n {
                        assert(old_self.model@.contains_key(old_self.entries@[j].name@));
                        assert(old_self.names()[j] == old_self.entries@[j].name@);
                    }
                }
                assert forall|kk: Seq<char>| #[trigger]
                    self.model@.contains_key(kk) implies exists|j: int|
                        0 <= j < self.entries@.len() && self.entries@[j].name@ == kk by {
                    if kk != k {
                        assert(old_self.model@.contains_key(kk));
                        let j = choose|j: int|
                            0 <= j < old_self.entries@.len() && old_self.entries@[j].name@ == kk;
                        assert(self.entries@[j].name@ == kk);
                    } else {
                        assert(self.entries@[n].name@ == kk);
                    }
                }
                assert forall|m: Map<Seq<char>, Set<u64>>|
                    represents(old_self@, m) implies represents(self@, add_size(m, name@, size)) by {
                    let m2 = add_size(m, name@, size);
                    assert(self@.dom() =~= m2.dom());
                    assert forall|kk: Seq<char>| #[trigger]
                        self@.contains_key(kk) implies strictly_ascending(self@[kk])
                        && holds_exactly(self@[kk], m2[kk]) by {
                        if kk != k {
                            assert(old_self@.contains_key(kk));
                        } else {
                            assert(new_sizes =~= seq![size]);
                            assert(new_sizes[0] == size);
                            assert(new_sizes.contains(size));
                        }
                    }
                }
            },
        }
    }
}

} // verus!
