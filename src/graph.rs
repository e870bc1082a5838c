use vstd::prelude::*;
use vstd::set_lib::*;

verus! {

/// The dependency lists of a service set as plain sequences.
pub open spec fn deps_view(deps: Seq<Vec<usize>>) -> Seq<Seq<usize>> {
    deps.map_values(|v: Vec<usize>| v@)
}

/// Every declared dependency names a service of the set.
pub open spec fn deps_in_range(d: Seq<Seq<usize>>) -> bool {
    forall|k: int, j: int| 0 <= k < d.len() && 0 <= j < d[k].len() ==> #[trigger] d[k][j] < d.len()
}

/// Service `k` may come next once every one of its dependencies is in `prefix`.
pub open spec fn ready(d: Seq<Seq<usize>>, k: usize, prefix: Seq<usize>) -> bool {
    forall|j: int| 0 <= j < d[k as int].len() ==> prefix.contains(#[trigger] d[k as int][j])
}

/// `o` lists each of the services `0..n` exactly once.
pub open spec fn is_permutation(o: Seq<usize>, n: nat) -> bool {
    &&& o.len() == n
    &&& o.no_duplicates()
    &&& forall|i: int| 0 <= i < o.len() ==> #[trigger] o[i] < n
    &&& forall|k: usize| k < n ==> #[trigger] o.contains(k)
}

/// `o` is a start order: a permutation in which each service follows all its dependencies.
pub open spec fn is_start_order(d: Seq<Seq<usize>>, o: Seq<usize>) -> bool {
    &&& is_permutation(o, d.len())
    &&& forall|i: int| 0 <= i < o.len() ==> ready(d, #[trigger] o[i], o.take(i))
}

/// At each position, no service with a smaller index was ready and still waiting.
pub open spec fn ties_by_declaration(d: Seq<Seq<usize>>, o: Seq<usize>) -> bool {
    forall|i: int, k: usize|
        0 <= i < o.len() && k < o[i] && !o.take(i).contains(k) ==> !#[trigger] ready(
            d,
            k,
            o.take(i),
        )
}

/// A set of services each of which depends on a member of the set.
pub open spec fn is_closed(d: Seq<Seq<usize>>, s: Set<usize>) -> bool {
    forall|k: usize|
        #[trigger] s.contains(k) ==> k < d.len() && exists|j: int|
            0 <= j < d[k as int].len() && s.contains(#[trigger] d[k as int][j])
}

/// The dependency relation holds a cycle: some non-empty set of services is closed.
pub open spec fn has_cycle(d: Seq<Seq<usize>>) -> bool {
    exists|s: Set<usize>, k: usize| is_closed(d, s) && #[trigger] s.contains(k)
}

/// `k` reaches `t` through at most `fuel` dependency edges.
pub open spec fn depends_within(d: Seq<Seq<usize>>, k: usize, t: usize, fuel: nat) -> bool
    decreases fuel,
{
    fuel > 0 && exists|j: int|
        0 <= j < d[k as int].len() && (#[trigger] d[k as int][j] == t || depends_within(
            d,
            d[k as int][j],
            t,
            (fuel - 1) as nat,
        ))
}

/// `k` depends on `t`, directly or through other services.
pub open spec fn depends_transitively(d: Seq<Seq<usize>>, k: usize, t: usize) -> bool {
    exists|fuel: nat| #[trigger] depends_within(d, k, t, fuel)
}

/// Why a service set cannot become a graph.
#[derive(Debug, Clone, Copy, PartialEq, Eq)]
pub enum GraphError {
    /// `service` declares a dependency index that is not in the set.
    UnknownDependency { service: usize, dependency: usize },
    /// The dependencies form a cycle.
    Cycle,
    /// The dependency at `position` in the list of `service` names no service of the set.
    UnknownDependencyName { service: usize, position: usize },
}

/// A service set with its start order, computed once when built.
pub struct DependencyGraph {
    deps: Vec<Vec<usize>>,
    order: Vec<usize>,
}

/// A sequence with no repeats, drawn from `0..n`, is at most `n` long, and exactly
/// `n` long when it holds all of `0..n`.
proof fn lemma_bounded_len(o: Seq<usize>, n: nat)
    requires
        n <= usize::MAX,
        o.no_duplicates(),
        forall|i: int| 0 <= i < o.len() ==> #[trigger] o[i] < n,
    ensures
        o.len() <= n,
        (forall|k: usize| k < n ==> #[trigger] o.contains(k)) ==> o.len() == n,
{
    let f = |x: usize| x as int;
    let t = o.map_values(f);
    assert forall|a: usize, b: usize| #[trigger] f(a) == #[trigger] f(b) implies a == b by {}
    o.lemma_no_duplicates_injective(f);
    t.unique_seq_to_set();
    let r = set_int_range(0, n as int);
    lemma_int_range(0, n as int);
    assert(t.to_set().subset_of(r)) by {
        assert forall|x: int| t.to_set().contains(x) implies r.contains(x) by {
            let i = choose|i: int| 0 <= i < t.len() && t[i] == x;
            assert(o[i] < n);
        }
    }
    lemma_len_subset(t.to_set(), r);
    if forall|k: usize| k < n ==> #[trigger] o.contains(k) {
        assert(r.subset_of(t.to_set())) by {
            assert forall|x: int| r.contains(x) implies t.to_set().contains(x) by {
                let k = x as usize;
                assert(o.contains(k));
                let i = choose|i: int| 0 <= i < o.len() && o[i] == k;
                assert(t[i] == x);
            }
        }
        lemma_len_subset(r, t.to_set());
    }
}

/// No service of a closed set appears in the first `i` places of a start order.
proof fn lemma_closed_not_in_prefix(d: Seq<Seq<usize>>, o: Seq<usize>, s: Set<usize>, i: int)
    requires
        is_closed(d, s),
        0 <= i <= o.len(),
        forall|p: int| 0 <= p < o.len() ==> ready(d, #[trigger] o[p], o.take(p)),
    ensures
        forall|p: int| 0 <= p < i ==> !s.contains(#[trigger] o[p]),
    decreases i,
{
    if i > 0 {
        lemma_closed_not_in_prefix(d, o, s, i - 1);
        let x = o[i - 1];
        if s.contains(x) {
            let j = choose|j: int| 0 <= j < d[x as int].len() && s.contains(#[trigger] d[x as int][j]);
            assert(ready(d, o[i - 1], o.take(i - 1)));
            assert(o.take(i - 1).contains(d[x as int][j]));
            let p = choose|p: int| 0 <= p < i - 1 && #[trigger] o.take(i - 1)[p] == d[x as int][j];
            assert(o[p] == d[x as int][j]);
        }
    }
}

/// A service set with a cycle has no start order, and one with a start order has no cycle.
pub proof fn cycle_excludes_start_order(d: Seq<Seq<usize>>, o: Seq<usize>)
    requires
        is_start_order(d, o),
    ensures
        !has_cycle(d),
{
    if has_cycle(d) {
        let (s, k) = choose|s: Set<usize>, k: usize| is_closed(d, s) && #[trigger] s.contains(k);
        lemma_closed_not_in_prefix(d, o, s, o.len() as int);
        assert(k < d.len());
        assert(o.contains(k));
    }
}


/// Whether service `k` has every dependency placed, with `placed` marking the members of `prefix`.
fn is_ready(deps: &Vec<Vec<usize>>, k: usize, placed: &Vec<bool>, Ghost(prefix): Ghost<Seq<usize>>) -> (r: bool)
    requires
        k < deps.len(),
        deps_in_range(deps_view(deps@)),
        placed.len() == deps.len(),
        forall|x: usize| x < deps.len() ==> (placed@[x as int] <==> #[trigger] prefix.contains(x)),
    ensures
        r == ready(deps_view(deps@), k, prefix),
{
    let ghost d = deps_view(deps@);
    let row = &deps[k];
    assert(row@ == d[k as int]);
    let mut j: usize = 0;
    while j < row.len()
        invariant
            j <= row.len(),
            row@ == d[k as int],
            k < d.len(),
            d == deps_view(deps@),
            deps_in_range(d),
            placed.len() == deps.len(),
            forall|x: usize| x < deps.len() ==> (placed@[x as int] <==> #[trigger] prefix.contains(x)),
            forall|i: int| 0 <= i < j ==> prefix.contains(#[trigger] d[k as int][i]),
        decreases row.len() - j,
    {
        let x = row[j];
        assert(d[k as int][j as int] == x);
        if !placed[x] {
            assert(!prefix.contains(x));
            return false;
        }
        j = j + 1;
    }
    true
}

/// Finds the first service called `name`.
fn find_name(names: &Vec<String>, name: &String) -> (r: Option<usize>)
    ensures
        match r {
            Some(i) => i < names.len() && names@[i as int]@ == name@ && forall|q: int|
                0 <= q < i ==> (#[trigger] names@[q])@ != name@,
            None => forall|q: int| 0 <= q < names.len() ==> (#[trigger] names@[q])@ != name@,
        },
{
    let mut i: usize = 0;
    while i < names.len()
        invariant
            i <= names.len(),
            forall|q: int| 0 <= q < i ==> (#[trigger] names@[q])@ != name@,
        decreases names.len() - i,
    {
        if names[i] == *name {
            return Some(i);
        }
        i = i + 1;
    }
    None
}

/// Turns dependencies declared by name into service indices: each name resolves to the
/// first service so called.
pub fn resolve_dependencies(names: &Vec<String>, depends_on: &Vec<Vec<String>>) -> (r: Result<Vec<Vec<usize>>, GraphError>)
    ensures
        match r {
            Ok(v) => v@.len() == depends_on@.len() && forall|k: int|
                0 <= k < v@.len() ==> (#[trigger] v@[k])@.len() == depends_on@[k]@.len() && forall|j: int|
                    0 <= j < v@[k]@.len() ==> {
                        let i = #[trigger] v@[k]@[j];
                        &&& i < names@.len()
                        &&& names@[i as int]@ == depends_on@[k]@[j]@
                        &&& forall|q: int| 0 <= q < i ==> (#[trigger] names@[q])@ != depends_on@[k]@[j]@
                    },
            Err(GraphError::UnknownDependencyName { service, position }) => {
                &&& service < depends_on@.len()
                &&& position < depends_on@[service as int]@.len()
                &&& forall|q: int| 0 <= q < names@.len() ==> (#[trigger] names@[q])@ != depends_on@[service as int]@[position as int]@
            },
            Err(_) => false,
        },
{
    let mut v: Vec<Vec<usize>> = Vec::new();
    let mut k: usize = 0;
    while k < depends_on.len()
        invariant
            k <= depends_on.len(),
            v@.len() == k,
            forall|a: int|
                0 <= a < k ==> (#[trigger] v@[a])@.len() == depends_on@[a]@.len() && forall|j: int|
                    0 <= j < v@[a]@.len() ==> {
                        let i = #[trigger] v@[a]@[j];
                        &&& i < names@.len()
                        &&& names@[i as int]@ == depends_on@[a]@[j]@
                        &&& forall|q: int| 0 <= q < i ==> (#[trigger] names@[q])@ != depends_on@[a]@[j]@
                    },
        decreases depends_on.len() - k,
    {
        let row = &depends_on[k];
        let mut out: Vec<usize> = Vec::new();
        let mut j: usize = 0;
        while j < row.len()
            invariant
                k < depends_on.len(),
                row@ == depends_on@[k as int]@,
                j <= row.len(),
                out@.len() == j,
                forall|b: int|
                    0 <= b < j ==> {
                        let i = #[trigger] out@[b];
                        &&& i < names@.len()
                        &&& names@[i as int]@ == row@[b]@
                        &&& forall|q: int| 0 <= q < i ==> (#[trigger] names@[q])@ != row@[b]@
                    },
            decreases row.len() - j,
        {
            match find_name(names, &row[j]) {
                Some(i) => out.push(i),
                None => {
                    return Err(GraphError::UnknownDependencyName { service: k, position: j });
                },
            }
            j = j + 1;
        }
        let ghost old_v = v@;
        v.push(out);
        proof {
            assert forall|a: int| 0 <= a < k + 1 implies (#[trigger] v@[a])@.len() == depends_on@[a]@.len() && forall|j: int|
                0 <= j < v@[a]@.len() ==> {
                    let i = #[trigger] v@[a]@[j];
                    &&& i < names@.len()
                    &&& names@[i as int]@ == depends_on@[a]@[j]@
                    &&& forall|q: int| 0 <= q < i ==> (#[trigger] names@[q])@ != depends_on@[a]@[j]@
                } by {
                if a < k {
                    assert(v@[a] == old_v[a]);
                }
            }
        }
        k = k + 1;
    }
    Ok(v)
}

impl DependencyGraph {
    /// The dependency lists of the graph.
    pub closed spec fn deps(&self) -> Seq<Seq<usize>> {
        deps_view(self.deps@)
    }

    /// The cached start order.
    pub closed spec fn order(&self) -> Seq<usize> {
        self.order@
    }

    /// The graph holds an acyclic, in-range service set and its deterministic start order.
    pub open spec fn wf(&self) -> bool {
        &&& deps_in_range(self.deps())
        &&& is_start_order(self.deps(), self.order())
        &&& ties_by_declaration(self.deps(), self.order())
    }

    /// The graph of an empty service set.
    pub fn empty() -> (r: DependencyGraph)
        ensures
            r.wf(),
            r.deps().len() == 0,
    {
        let r = DependencyGraph { deps: Vec::new(), order: Vec::new() };
        assert(r.deps() =~= Seq::<Seq<usize>>::empty());
        r
    }

    /// The number of services in the graph.
    pub fn len(&self) -> (r: usize)
        ensures
            r == self.deps().len(),
    {
        self.deps.len()
    }

    /// The declared dependencies of service `k`.
    pub fn dependencies(&self, k: usize) -> (r: &Vec<usize>)
        requires
            k < self.deps().len(),
        ensures
            r@ == self.deps()[k as int],
    {
        &self.deps[k]
    }

    /// Service indices such that each follows all it depends on; ties go by declaration order.
    pub fn start_order(&self) -> (r: Vec<usize>)
        ensures
            r@ == self.order(),
    {
        let mut r: Vec<usize> = Vec::new();
        let mut i: usize = 0;
        while i < self.order.len()
            invariant
                i <= self.order.len(),
                r@ == self.order@.take(i as int),
            decreases self.order.len() - i,
        {
            r.push(self.order[i]);
            i = i + 1;
            assert(r@ =~= self.order@.take(i as int));
        }
        assert(r@ =~= self.order@);
        r
    }

    /// The start order reversed: dependents stop before their dependencies.
    pub fn stop_order(&self) -> (r: Vec<usize>)
        ensures
            r@ == self.order().reverse(),
    {
        let mut r: Vec<usize> = Vec::new();
        let mut i: usize = self.order.len();
        while i > 0
            invariant
                i <= self.order.len(),
                r@ == self.order@.subrange(i as int, self.order@.len() as int).reverse(),
            decreases i,
        {
            i = i - 1;
            r.push(self.order[i]);
            assert(r@ =~= self.order@.subrange(i as int, self.order@.len() as int).reverse());
        }
        assert(self.order@.subrange(0, self.order@.len() as int) =~= self.order@);
        r
    }

    /// The services that depend on `t`, directly or transitively, in start order.
    pub fn dependents_of(&self, t: usize) -> (r: Vec<usize>)
        requires
            self.wf(),
            t < self.deps().len(),
        ensures
            r@.no_duplicates(),
            forall|k: usize| #[trigger] r@.contains(k) <==> k < self.deps().len() && depends_transitively(self.deps(), k, t),
            forall|a: int, b: int, j: int|
                0 <= a < r@.len() && 0 <= b < r@.len() && 0 <= j < self.deps()[r@[b] as int].len()
                    && #[trigger] self.deps()[r@[b] as int][j] == #[trigger] r@[a] ==> a < b,
    {
        let ghost d = self.deps();
        let ghost o = self.order();
        let n = self.deps.len();
        let mut mark: Vec<bool> = Vec::new();
        let mut i: usize = 0;
        while i < n
            invariant
                i <= n,
                mark.len() == i,
                forall|x: int| 0 <= x < i ==> !mark@[x],
            decreases n - i,
        {
            mark.push(false);
            i = i + 1;
        }
        let mut r: Vec<usize> = Vec::new();
        let mut p: usize = 0;
        while p < n
            invariant
                self.wf(),
                d == self.deps(),
                o == self.order(),
                n == d.len(),
                t < n,
                p <= n,
                mark.len() == n,
                forall|q: int| 0 <= q < p ==> (mark@[#[trigger] o[q] as int] <==> depends_transitively(d, o[q], t)),
                forall|x: usize| x < n && !o.take(p as int).contains(x) ==> !#[trigger] mark@[x as int],
                r@.no_duplicates(),
                forall|k: usize| #[trigger] r@.contains(k) <==> (k < n && mark@[k as int]),
                forall|b: int| 0 <= b < r@.len() ==> ready(d, #[trigger] r@[b], o.take(p as int)),
                forall|a: int, b: int, j: int|
                    0 <= a < r@.len() && 0 <= b < r@.len() && 0 <= j < d[r@[b] as int].len()
                        && #[trigger] d[r@[b] as int][j] == #[trigger] r@[a] ==> a < b,
            decreases n - p,
        {
            let k = self.order[p];
            assert(k == o[p as int]);
            assert(ready(d, k, o.take(p as int)));
            let row = &self.deps[k];
            assert(row@ == d[k as int]);
            let mut found = false;
            let mut j: usize = 0;
            while j < row.len()
                invariant
                    self.wf(),
                    d == self.deps(),
                    o == self.order(),
                    n == d.len(),
                    k < n,
                    p < n,
                    k == o[p as int],
                    row@ == d[k as int],
                    mark.len() == n,
                    j <= row.len(),
                    found <==> exists|i: int| 0 <= i < j && (#[trigger] d[k as int][i] == t || mark@[d[k as int][i] as int]),
                decreases row.len() - j,
            {
                let x = row[j];
                assert(x == d[k as int][j as int]);
                if x == t || mark[x] {
                    found = true;
                }
                j = j + 1;
            }
            proof {
                assert(found <==> depends_transitively(d, k, t)) by {
                    if found {
                        let i = choose|i: int| 0 <= i < d[k as int].len() && (#[trigger] d[k as int][i] == t || mark@[d[k as int][i] as int]);
                        let x = d[k as int][i];
                        if x == t {
                            assert(depends_within(d, k, t, 1));
                        } else {
                            assert(o.take(p as int).contains(x));
                            let q = choose|q: int| 0 <= q < p && o.take(p as int)[q] == x;
                            assert(o[q] == x);
                            let f = choose|f: nat| #[trigger] depends_within(d, x, t, f);
                            assert(depends_within(d, k, t, f + 1));
                        }
                    }
                    if depends_transitively(d, k, t) {
                        let f = choose|f: nat| #[trigger] depends_within(d, k, t, f);
                        let i = choose|i: int| 0 <= i < d[k as int].len() && (#[trigger] d[k as int][i] == t || depends_within(d, d[k as int][i], t, (f - 1) as nat));
                        let x = d[k as int][i];
                        if x != t {
                            assert(depends_transitively(d, x, t));
                            assert(o.take(p as int).contains(x));
                            let q = choose|q: int| 0 <= q < p && o.take(p as int)[q] == x;
                            assert(o[q] == x);
                        }
                        assert(found);
                    }
                }
                assert(!o.take(p as int).contains(k));
                assert(!mark@[k as int]);
            }
            let ghost old_r = r@;
            let ghost old_mark = mark@;
            mark.set(k, found);
            if found {
                r.push(k);
            }
            proof {
                let np = (p + 1) as int;
                assert(o.take(np) =~= o.take(p as int).push(k));
                assert forall|q: int| 0 <= q < np implies (mark@[#[trigger] o[q] as int] <==> depends_transitively(d, o[q], t)) by {
                    if q < p {
                        assert(o[q] != k);
                    }
                }
                assert forall|x: usize| x < n && !o.take(np).contains(x) implies !#[trigger] mark@[x as int] by {
                    assert(o.take(np)[p as int] == k);
                    if o.take(p as int).contains(x) {
                        let q = choose|q: int| 0 <= q < p && o.take(p as int)[q] == x;
                        assert(o.take(np)[q] == x);
                    }
                }
                assert forall|b: int| 0 <= b < r@.len() implies ready(d, #[trigger] r@[b], o.take(np)) by {
                    let y = r@[b];
                    assert forall|j: int| 0 <= j < d[y as int].len() implies o.take(np).contains(#[trigger] d[y as int][j]) by {
                        if b < old_r.len() {
                            assert(ready(d, old_r[b], o.take(p as int)));
                            let z = d[y as int][j];
                            assert(o.take(p as int).contains(z));
                            let q = choose|q: int| 0 <= q < p && o.take(p as int)[q] == z;
                            assert(o.take(np)[q] == z);
                        } else {
                            let z = d[y as int][j];
                            assert(o.take(p as int).contains(z));
                            let q = choose|q: int| 0 <= q < p && o.take(p as int)[q] == z;
                            assert(o.take(np)[q] == z);
                        }
                    }
                }
                if found {
                    assert forall|x: usize| #[trigger] r@.contains(x) <==> (x < n && mark@[x as int]) by {
                        if x != k {
                            if r@.contains(x) {
                                let q = choose|q: int| 0 <= q < r@.len() && r@[q] == x;
                                assert(old_r[q] == x);
                            }
                            if old_r.contains(x) {
                                let q = choose|q: int| 0 <= q < old_r.len() && old_r[q] == x;
                                assert(r@[q] == x);
                            }
                        } else {
                            assert(r@[old_r.len() as int] == k);
                        }
                    }
                    assert(!old_r.contains(k));
                    assert forall|a: int, b: int| 0 <= a < b < r@.len() implies r@[a] != r@[b] by {
                        if b == old_r.len() {
                            assert(old_r[a] == r@[a]);
                        }
                    }
                    assert forall|a: int, b: int, j: int|
                        0 <= a < r@.len() && 0 <= b < r@.len() && 0 <= j < d[r@[b] as int].len()
                            && #[trigger] d[r@[b] as int][j] == #[trigger] r@[a] implies a < b by {
                        if a == old_r.len() {
                            if b < old_r.len() {
                                assert(ready(d, old_r[b], o.take(p as int)));
                                assert(o.take(p as int).contains(k));
                            } else {
                                assert(o.take(p as int).contains(k));
                            }
                        } else if b == old_r.len() {
                        } else {
                            assert(old_r[a] == r@[a] && old_r[b] == r@[b]);
                        }
                    }
                } else {
                    assert forall|x: usize| #[trigger] r@.contains(x) <==> (x < n && mark@[x as int]) by {
                        if x == k {
                            assert(!old_r.contains(k));
                        }
                    }
                }
            }
            p = p + 1;
        }
        proof {
            assert forall|k: usize| #[trigger] r@.contains(k) <==> k < n && depends_transitively(d, k, t) by {
                if k < n {
                    assert(o.contains(k));
                    let q = choose|q: int| 0 <= q < o.len() && o[q] == k;
                }
            }
        }
        r
    }

    /// Builds the graph of a service set given as the dependency indices of each service.
    pub fn build(deps: Vec<Vec<usize>>) -> (r: Result<DependencyGraph, GraphError>)
        ensures
            match r {
                Ok(g) => g.wf() && g.deps() == deps_view(deps@) && !has_cycle(g.deps()),
                Err(GraphError::UnknownDependency { service, dependency }) => {
                    !deps_in_range(deps_view(deps@)) && service < deps.len() && exists|j: int|
                        0 <= j < deps@[service as int]@.len() && #[trigger] deps@[service as int]@[j]
                            == dependency && dependency >= deps.len()
                },
                Err(GraphError::Cycle) => deps_in_range(deps_view(deps@)) && has_cycle(
                    deps_view(deps@),
                ),
                Err(GraphError::UnknownDependencyName { .. }) => false,
            },
            deps_in_range(deps_view(deps@)) && has_cycle(deps_view(deps@)) ==> r == Err::<
                DependencyGraph,
                GraphError,
            >(GraphError::Cycle),
    {
        let ghost d = deps_view(deps@);
        let n = deps.len();
        let mut k: usize = 0;
        while k < n
            invariant
                n == deps.len(),
                d == deps_view(deps@),
                forall|a: int, j: int| 0 <= a < k && 0 <= j < d[a].len() ==> #[trigger] d[a][j] < n,
            decreases n - k,
        {
            let row = &deps[k];
            assert(row@ == d[k as int]);
            let mut j: usize = 0;
            while j < row.len()
                invariant
                    j <= row.len(),
                    k < n,
                    n == deps.len(),
                    row@ == d[k as int],
                    d == deps_view(deps@),
                    forall|a: int, i: int| 0 <= a < k && 0 <= i < d[a].len() ==> #[trigger] d[a][i] < n,
                    forall|i: int| 0 <= i < j ==> #[trigger] d[k as int][i] < n,
                decreases row.len() - j,
            {
                if row[j] >= n {
                    assert(d[k as int][j as int] == row[j as int]);
                    assert(deps@[k as int]@[j as int] == row[j as int]);
                    assert(!deps_in_range(d));
                    return Err(GraphError::UnknownDependency { service: k, dependency: row[j] });
                }
                j = j + 1;
            }
            k = k + 1;
        }
        assert(deps_in_range(d));
        let mut placed: Vec<bool> = Vec::new();
        let mut i: usize = 0;
        while i < n
            invariant
                i <= n,
                placed.len() == i,
                forall|x: int| 0 <= x < i ==> !placed@[x],
            decreases n - i,
        {
            placed.push(false);
            i = i + 1;
        }
        let mut order: Vec<usize> = Vec::new();
        loop
            invariant
                n == deps.len(),
                d == deps_view(deps@),
                deps_in_range(d),
                placed.len() == n,
                order@.no_duplicates(),
                forall|p: int| 0 <= p < order.len() ==> #[trigger] order@[p] < n,
                forall|x: usize| x < n ==> (placed@[x as int] <==> #[trigger] order@.contains(x)),
                forall|p: int| 0 <= p < order.len() ==> ready(d, #[trigger] order@[p], order@.take(p)),
                ties_by_declaration(d, order@),
            decreases n - order.len(),
        {
            proof {
                lemma_bounded_len(order@, n as nat);
            }
            let mut pick: Option<usize> = None;
            let mut waiting: Option<usize> = None;
            let mut k: usize = 0;
            while k < n && pick.is_none()
                invariant
                    k <= n,
                    n == deps.len(),
                    d == deps_view(deps@),
                    deps_in_range(d),
                    placed.len() == n,
                    forall|x: usize| x < n ==> (placed@[x as int] <==> #[trigger] order@.contains(x)),
                    match pick {
                        Some(p) => p < k && !placed@[p as int] && ready(d, p, order@),
                        None => true,
                    },
                    forall|x: usize| x < k && pick.is_none() ==> (placed@[x as int] || !#[trigger] ready(d, x, order@)),
                    forall|x: usize| x < k && pick.is_some() && x < pick.unwrap() ==> (placed@[x as int] || !#[trigger] ready(d, x, order@)),
                    match waiting {
                        Some(w) => w < n && !placed@[w as int],
                        None => forall|x: usize| x < k ==> #[trigger] placed@[x as int],
                    },
                decreases n - k,
            {
                if !placed[k] {
                    waiting = Some(k);
                    if is_ready(&deps, k, &placed, Ghost(order@)) {
                        pick = Some(k);
                    }
                }
                k = k + 1;
            }
            match pick {
                Some(p) => {
                    let ghost old_order = order@;
                    order.push(p);
                    placed.set(p, true);
                    proof {
                        assert(!old_order.contains(p));
                        assert(order@.take(old_order.len() as int) =~= old_order);
                        assert(order@.no_duplicates()) by {
                            assert forall|a: int, b: int| 0 <= a < b < order@.len() implies order@[a] != order@[b] by {
                                if b == old_order.len() {
                                    assert(old_order[a] == order@[a]);
                                }
                            }
                        }
                        assert forall|q: int| 0 <= q < order.len() implies ready(d, #[trigger] order@[q], order@.take(q)) by {
                            if q < old_order.len() {
                                assert(order@.take(q) =~= old_order.take(q));
                            }
                        }
                        assert forall|q: int, x: usize|
                            0 <= q < order@.len() && x < order@[q] && !order@.take(q).contains(x)
                            implies !#[trigger] ready(d, x, order@.take(q)) by {
                            if q < old_order.len() {
                                assert(order@.take(q) =~= old_order.take(q));
                            } else {
                                assert(order@.take(q) =~= old_order);
                            }
                        }
                        assert forall|x: usize| x < n implies (placed@[x as int] <==> #[trigger] order@.contains(x)) by {
                            if x != p {
                                if order@.contains(x) {
                                    let q = choose|q: int| 0 <= q < order@.len() && order@[q] == x;
                                    assert(old_order[q] == x);
                                }
                                if old_order.contains(x) {
                                    let q = choose|q: int| 0 <= q < old_order.len() && old_order[q] == x;
                                    assert(order@[q] == x);
                                }
                            } else {
                                assert(order@[old_order.len() as int] == p);
                            }
                        }
                        lemma_bounded_len(order@, n as nat);
                    }
                },
                None => {
                    match waiting {
                        Some(w) => {
                            let ghost s = Set::new(|x: usize| x < n && !placed@[x as int]);
                            proof {
                                assert forall|x: usize| #[trigger] s.contains(x) implies x < d.len() && exists|j: int|
                                    0 <= j < d[x as int].len() && s.contains(#[trigger] d[x as int][j]) by {
                                    assert(!ready(d, x, order@));
                                    let j = choose|j: int| 0 <= j < d[x as int].len() && !order@.contains(#[trigger] d[x as int][j]);
                                    assert(d[x as int][j] < n);
                                    assert(s.contains(d[x as int][j]));
                                }
                                assert(is_closed(d, s));
                                assert(s.contains(w));
                            }
                            return Err(GraphError::Cycle);
                        },
                        None => {
                            let g = DependencyGraph { deps, order };
                            proof {
                                assert forall|x: usize| x < n implies #[trigger] order@.contains(x) by {
                                    assert(placed@[x as int]);
                                }
                                lemma_bounded_len(order@, n as nat);
                                assert(is_start_order(d, order@));
                                cycle_excludes_start_order(d, order@);
                            }
                            return Ok(g);
                        },
                    }
                },
            }
        }
    }
}


/// The start order and the stop order each list every service exactly once, and the
/// stop order is the start order reversed, so that each service stops before all of
/// its dependencies.
pub proof fn start_and_stop_orders_agree(g: DependencyGraph)
    requires
        g.wf(),
    ensures
        is_permutation(g.order(), g.deps().len()),
        is_permutation(g.order().reverse(), g.deps().len()),
        forall|i: int| 0 <= i < g.order().len() ==> #[trigger] g.order().reverse()[i] == g.order()[g.order().len() - 1 - i],
        forall|i: int, j: int, p: int|
            0 <= i < g.order().len() && 0 <= j < g.deps()[g.order().reverse()[i] as int].len() && 0 <= p < g.order().len()
                && #[trigger] g.order().reverse()[p] == #[trigger] g.deps()[g.order().reverse()[i] as int][j] ==> i < p,
{
    let o = g.order();
    let d = g.deps();
    let r = o.reverse();
    assert forall|a: int, b: int| 0 <= a < b < r.len() implies r[a] != r[b] by {
        assert(r[a] == o[o.len() - 1 - a] && r[b] == o[o.len() - 1 - b]);
    }
    assert forall|k: usize| k < d.len() implies #[trigger] r.contains(k) by {
        assert(o.contains(k));
        let q = choose|q: int| 0 <= q < o.len() && o[q] == k;
        assert(r[o.len() - 1 - q] == k);
    }
    assert forall|i: int, j: int, p: int|
        0 <= i < o.len() && 0 <= j < d[r[i] as int].len() && 0 <= p < o.len()
            && #[trigger] r[p] == #[trigger] d[r[i] as int][j] implies i < p by {
        let qi = o.len() - 1 - i;
        let qp = o.len() - 1 - p;
        assert(ready(d, o[qi], o.take(qi)));
        assert(o.take(qi).contains(d[r[i] as int][j]));
        let q = choose|q: int| 0 <= q < qi && o.take(qi)[q] == d[r[i] as int][j];
        assert(o[q] == o[qp]);
    }
}


/// A service that depends on itself, directly or through other services, closes a cycle.
pub proof fn self_dependency_is_cycle(d: Seq<Seq<usize>>, k: usize)
    requires
        deps_in_range(d),
        k < d.len(),
        depends_transitively(d, k, k),
    ensures
        has_cycle(d),
{
    let s = Set::new(|x: usize| x < d.len() && depends_transitively(d, x, k));
    assert forall|x: usize| #[trigger] s.contains(x) implies x < d.len() && exists|j: int|
        0 <= j < d[x as int].len() && s.contains(#[trigger] d[x as int][j]) by {
        let f = choose|f: nat| #[trigger] depends_within(d, x, k, f);
        let j = choose|j: int| 0 <= j < d[x as int].len() && (#[trigger] d[x as int][j] == k || depends_within(d, d[x as int][j], k, (f - 1) as nat));
        let y = d[x as int][j];
        assert(y < d.len());
        if y != k {
            assert(depends_within(d, y, k, (f - 1) as nat));
        }
        assert(s.contains(y));
    }
    assert(is_closed(d, s));
    assert(s.contains(k));
}

} // verus!
