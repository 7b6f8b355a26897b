use vstd::prelude::*;

use crate::strutil::str_eq;

verus! {

/// No identifier occurs twice.
pub open spec fn no_dups(s: Seq<Seq<char>>) -> bool {
    forall|i: int, j: int| 0 <= i < j < s.len() ==> s[i] != s[j]
}

/// Whether `v` holds a string whose characters are `x`.
fn contains_str(v: &Vec<String>, x: &str) -> (r: bool)
    ensures
        r == v.deep_view().contains(x@),
{
    let n = v.len();
    let mut k: usize = 0;
    while k < n
        invariant
            n == v@.len(),
            k <= n,
            forall|j: int| 0 <= j < k ==> v.deep_view()[j] != x@,
        decreases n - k,
    {
        if str_eq(v[k].as_str(), x) {
            proof {
                assert(v.deep_view()[k as int] == x@);
            }
            return true;
        }
        proof {
            assert(v.deep_view()[k as int] == v@[k as int]@);
        }
        k += 1;
    }
    proof {
        if v.deep_view().contains(x@) {
            let i = choose|i: int| 0 <= i < v.deep_view().len() && v.deep_view()[i] == x@;
            assert(v.deep_view()[i] != x@);
        }
    }
    false
}

/// Appending one identifier to a list adds exactly it to the list's set.
proof fn lemma_push_to_set(s: Seq<Seq<char>>, x: Seq<char>)
    ensures
        s.push(x).to_set() == s.to_set().insert(x),
{
    assert forall|y: Seq<char>| s.push(x).to_set().contains(y) implies s.to_set().insert(
        x,
    ).contains(y) by {
        let i = choose|i: int| 0 <= i < s.push(x).len() && s.push(x)[i] == y;
        if i < s.len() {
            assert(s[i] == y);
            assert(s.contains(y));
        }
    }
    assert forall|y: Seq<char>| s.to_set().insert(x).contains(y) implies s.push(x).to_set().contains(
        y,
    ) by {
        if y == x {
            assert(s.push(x)[s.len() as int] == y);
        } else {
            let i = choose|i: int| 0 <= i < s.len() && s[i] == y;
            assert(s.push(x)[i] == y);
        }
    }
    assert(s.push(x).to_set() =~= s.to_set().insert(x));
}

/// The single owner of the traversal state: every identifier ever enqueued
/// (`seen`), the identifiers awaiting resolution in the current wave
/// (`frontier`), and — as a ghost record — the identifiers already handed out
/// to waves (`dispatched`). An identifier enters `seen` once and never leaves,
/// so it is handed out to at most one wave.
pub struct Scheduler {
    seen: Vec<String>,
    frontier: Vec<String>,
    dispatched: Ghost<Set<Seq<char>>>,
}

impl Scheduler {
    /// Every identifier ever enqueued, in order of first appearance.
    pub closed spec fn seen_list(self) -> Seq<Seq<char>> {
        self.seen.deep_view()
    }

    /// The identifiers of the wave being assembled, in order of first appearance.
    pub closed spec fn frontier_list(self) -> Seq<Seq<char>> {
        self.frontier.deep_view()
    }

    /// The identifiers already handed out to waves.
    pub closed spec fn dispatched_ids(self) -> Set<Seq<char>> {
        self.dispatched@
    }

    /// Every identifier ever enqueued.
    pub open spec fn seen_ids(self) -> Set<Seq<char>> {
        self.seen_list().to_set()
    }

    /// The identifiers of the wave being assembled.
    pub open spec fn frontier_ids(self) -> Set<Seq<char>> {
        self.frontier_list().to_set()
    }

    /// The coordinator's invariant: no list repeats an identifier, and the
    /// seen set is exactly the dispatched identifiers plus the open frontier,
    /// with the two disjoint.
    pub open spec fn wf(self) -> bool {
        &&& no_dups(self.seen_list())
        &&& no_dups(self.frontier_list())
        &&& self.seen_ids() == self.dispatched_ids().union(self.frontier_ids())
        &&& self.dispatched_ids().disjoint(self.frontier_ids())
    }

    /// A scheduler seeded with the root identifiers: all of them seen and in
    /// the first frontier, none dispatched yet.
    pub fn new(roots: &Vec<String>) -> (s: Self)
        ensures
            s.wf(),
            s.seen_ids() == roots.deep_view().to_set(),
            s.frontier_ids() == roots.deep_view().to_set(),
            s.dispatched_ids() == Set::<Seq<char>>::empty(),
    {
        let mut s = Scheduler {
            seen: Vec::new(),
            frontier: Vec::new(),
            dispatched: Ghost(Set::empty()),
        };
        proof {
            assert(s.seen_list() =~= Seq::<Seq<char>>::empty());
            assert(s.frontier_list() =~= Seq::<Seq<char>>::empty());
            assert(s.seen_ids() =~= Set::<Seq<char>>::empty());
            assert(s.frontier_ids() =~= Set::<Seq<char>>::empty());
            assert(s.seen_ids() =~= s.dispatched_ids().union(s.frontier_ids()));
        }
        s.record_references(roots);
        proof {
            assert(Set::<Seq<char>>::empty().union(roots.deep_view().to_set()) =~= roots.deep_view().to_set());
            assert(roots.deep_view().to_set().difference(Set::<Seq<char>>::empty()) =~= roots.deep_view().to_set());
        }
        s
    }

    /// Whether the traversal is over: no identifier awaits resolution.
    pub fn done(&self) -> (r: bool)
        ensures
            r == (self.frontier_list().len() == 0),
    {
        self.frontier.len() == 0
    }

    /// How many identifiers have ever been enqueued.
    pub fn seen_count(&self) -> (r: usize)
        ensures
            r == self.seen_list().len(),
    {
        self.seen.len()
    }

    /// Whether `id` has ever been enqueued.
    pub fn was_seen(&self, id: &str) -> (r: bool)
        ensures
            r == self.seen_ids().contains(id@),
    {
        contains_str(&self.seen, id)
    }

    /// Folds one resolution's references into the state: every identifier not
    /// seen before becomes seen and joins the next wave's frontier; the rest
    /// change nothing. Identifiers already dispatched are therefore never
    /// re-enqueued.
    pub fn record_references(&mut self, refs: &Vec<String>)
        requires
            old(self).wf(),
        ensures
            final(self).wf(),
            final(self).dispatched_ids() == old(self).dispatched_ids(),
            final(self).seen_ids() == old(self).seen_ids().union(refs.deep_view().to_set()),
            final(self).frontier_ids() == old(self).frontier_ids().union(
                refs.deep_view().to_set().difference(old(self).seen_ids()),
            ),
    {
        let ghost d = refs.deep_view();
        let n = refs.len();
        let mut k: usize = 0;
        proof {
            assert(d.take(0) =~= Seq::<Seq<char>>::empty());
            assert(d.take(0).to_set() =~= Set::<Seq<char>>::empty());
            assert(old(self).seen_ids().union(d.take(0).to_set()) =~= old(self).seen_ids());
            assert(old(self).frontier_ids().union(
                d.take(0).to_set().difference(old(self).seen_ids()),
            ) =~= old(self).frontier_ids());
        }
        while k < n
            invariant
                n == refs@.len(),
                d == refs.deep_view(),
                k <= n,
                self.wf(),
                self.dispatched_ids() == old(self).dispatched_ids(),
                self.seen_ids() == old(self).seen_ids().union(d.take(k as int).to_set()),
                self.frontier_ids() == old(self).frontier_ids().union(
                    d.take(k as int).to_set().difference(old(self).seen_ids()),
                ),
            decreases n - k,
        {
            let ghost pre = *self;
            let r = &refs[k];
            proof {
                assert(d[k as int] == refs@[k as int]@);
                assert(d.take(k as int + 1) =~= d.take(k as int).push(d[k as int]));
                lemma_push_to_set(d.take(k as int), d[k as int]);
            }
            if !contains_str(&self.seen, r.as_str()) {
                self.seen.push(r.clone());
                self.frontier.push(r.clone());
                proof {
                    assert(self.seen_list() =~= pre.seen_list().push(r@));
                    assert(self.frontier_list() =~= pre.frontier_list().push(r@));
                    lemma_push_to_set(pre.seen_list(), r@);
                    lemma_push_to_set(pre.frontier_list(), r@);
                    // the new identifier was not yet seen, so also not in the frontier
                    assert(!pre.seen_ids().contains(r@));
                    assert(pre.frontier_ids().subset_of(pre.seen_ids()));
                    assert(!pre.frontier_ids().contains(r@));
                    assert(!pre.dispatched_ids().contains(r@));
                    // lists stay duplicate-free
                    assert forall|i: int, j: int|
                        0 <= i < j < self.seen_list().len() implies self.seen_list()[i]
                        != self.seen_list()[j] by {
                        if j < pre.seen_list().len() {
                        } else {
                            assert(self.seen_list()[j] == r@);
                            assert(pre.seen_list().contains(pre.seen_list()[i]));
                        }
                    }
                    assert forall|i: int, j: int|
                        0 <= i < j < self.frontier_list().len() implies self.frontier_list()[i]
                        != self.frontier_list()[j] by {
                        if j < pre.frontier_list().len() {
                        } else {
                            assert(self.frontier_list()[j] == r@);
                            assert(pre.frontier_list().contains(pre.frontier_list()[i]));
                        }
                    }
                    // set bookkeeping for the invariant
                    assert(self.seen_ids() =~= old(self).seen_ids().union(
                        d.take(k as int + 1).to_set(),
                    ));
                    assert(self.frontier_ids() =~= old(self).frontier_ids().union(
                        d.take(k as int + 1).to_set().difference(old(self).seen_ids()),
                    ));
                    assert(self.seen_ids() =~= self.dispatched_ids().union(self.frontier_ids()));
                }
            } else {
                proof {
                    assert(pre.seen_ids().contains(r@));
                    assert(self.seen_ids() =~= old(self).seen_ids().union(
                        d.take(k as int + 1).to_set(),
                    ));
                    assert(self.frontier_ids() =~= old(self).frontier_ids().union(
                        d.take(k as int + 1).to_set().difference(old(self).seen_ids()),
                    ));
                }
            }
            k += 1;
        }
        proof {
            assert(d.take(n as int) =~= d);
        }
    }

    /// Hands the whole frontier out as the next wave and marks it dispatched.
    /// No identifier of the wave was ever dispatched before — each identifier
    /// is resolved at most once per run — and the frontier is left empty.
    pub fn take_wave(&mut self) -> (w: Vec<String>)
        requires
            old(self).wf(),
        ensures
            final(self).wf(),
            w.deep_view() == old(self).frontier_list(),
            no_dups(w.deep_view()),
            forall|id: Seq<char>|
                w.deep_view().to_set().contains(id) ==> !old(self).dispatched_ids().contains(id),
            final(self).frontier_list().len() == 0,
            final(self).seen_ids() == old(self).seen_ids(),
            final(self).dispatched_ids() == old(self).dispatched_ids().union(
                w.deep_view().to_set(),
            ),
    {
        let mut w: Vec<String> = Vec::new();
        core::mem::swap(&mut w, &mut self.frontier);
        proof {
            assert(self.frontier_list() =~= Seq::<Seq<char>>::empty());
            assert(self.frontier_ids() =~= Set::<Seq<char>>::empty());
        }
        self.dispatched = Ghost(self.dispatched@.union(w.deep_view().to_set()));
        proof {
            assert(self.seen_ids() =~= self.dispatched_ids().union(self.frontier_ids()));
        }
        w
    }
}

/// The identifiers the graph `g` references from anywhere in `s`.
pub open spec fn succs(g: Map<Seq<char>, Set<Seq<char>>>, s: Set<Seq<char>>) -> Set<Seq<char>> {
    Set::new(
        |y: Seq<char>|
            exists|x: Seq<char>| #[trigger] s.contains(x) && g.contains_key(x) && g[x].contains(y),
    )
}

/// The identifiers reachable from `roots` in at most `n` reference steps.
/// One level-synchronous wave moves the seen set from `depth_le(g, roots, n)`
/// to `depth_le(g, roots, n + 1)`.
pub open spec fn depth_le(g: Map<Seq<char>, Set<Seq<char>>>, roots: Set<Seq<char>>, n: nat) -> Set<
    Seq<char>,
>
    decreases n,
{
    if n == 0 {
        roots
    } else {
        depth_le(g, roots, (n - 1) as nat).union(succs(g, depth_le(g, roots, (n - 1) as nat)))
    }
}

/// Depth sets only grow: each wave adds identifiers and removes none.
pub proof fn lemma_depth_monotone(g: Map<Seq<char>, Set<Seq<char>>>, roots: Set<Seq<char>>, n: nat)
    ensures
        depth_le(g, roots, n).subset_of(depth_le(g, roots, (n + 1) as nat)),
{
}

/// Recording a wave identifier by identifier reaches the same set as
/// recording the whole wave at once.
pub proof fn lemma_succs_union(
    g: Map<Seq<char>, Set<Seq<char>>>,
    a: Set<Seq<char>>,
    b: Set<Seq<char>>,
)
    ensures
        succs(g, a.union(b)) == succs(g, a).union(succs(g, b)),
{
    assert forall|y: Seq<char>| succs(g, a.union(b)).contains(y) implies succs(g, a).union(
        succs(g, b),
    ).contains(y) by {
        let x = choose|x: Seq<char>| #[trigger] a.union(b).contains(x) && g.contains_key(x)
            && g[x].contains(y);
        if a.contains(x) {
            assert(succs(g, a).contains(y));
        } else {
            assert(b.contains(x));
            assert(succs(g, b).contains(y));
        }
    }
    assert forall|y: Seq<char>| succs(g, a).union(succs(g, b)).contains(y) implies succs(
        g,
        a.union(b),
    ).contains(y) by {
        if succs(g, a).contains(y) {
            let x = choose|x: Seq<char>| #[trigger] a.contains(x) && g.contains_key(x)
                && g[x].contains(y);
            assert(a.union(b).contains(x));
        } else {
            let x = choose|x: Seq<char>| #[trigger] b.contains(x) && g.contains_key(x)
                && g[x].contains(y);
            assert(a.union(b).contains(x));
        }
    }
    assert(succs(g, a.union(b)) =~= succs(g, a).union(succs(g, b)));
}

/// One wave advances the traversal by exactly one depth level: when the seen
/// set holds everything within `k` steps and the open frontier holds exactly
/// the identifiers first reached at depth `k`, recording every reference of
/// the frontier extends the seen set to everything within `k + 1` steps. With
/// `lemma_depth_fixpoint`, the wave loop therefore ends after at most as many
/// waves as the longest dependency chain from the roots.
pub proof fn lemma_wave_advances_depth(
    g: Map<Seq<char>, Set<Seq<char>>>,
    roots: Set<Seq<char>>,
    k: nat,
)
    requires
        k >= 1,
    ensures
        depth_le(g, roots, (k + 1) as nat) == depth_le(g, roots, k).union(
            succs(
                g,
                depth_le(g, roots, k).difference(depth_le(g, roots, (k - 1) as nat)),
            ),
        ),
{
    let prev = depth_le(g, roots, (k - 1) as nat);
    let cur = depth_le(g, roots, k);
    let frontier = cur.difference(prev);
    lemma_depth_monotone(g, roots, (k - 1) as nat);
    assert(prev.union(frontier) =~= cur);
    lemma_succs_union(g, prev, frontier);
    // references of the older part were already recorded in the previous wave
    assert(succs(g, prev).subset_of(cur));
    assert(cur.union(succs(g, cur)) =~= cur.union(succs(g, frontier)));
}

/// The identifiers first reached at depth `k`: what the frontier holds as
/// wave `k` begins.
pub open spec fn depth_frontier(
    g: Map<Seq<char>, Set<Seq<char>>>,
    roots: Set<Seq<char>>,
    k: nat,
) -> Set<Seq<char>> {
    if k == 0 {
        roots
    } else {
        depth_le(g, roots, k).difference(depth_le(g, roots, (k - 1) as nat))
    }
}

/// Ties the scheduler's contracts to the depth sets, one wave at a time.
/// Entering wave `k`, let the seen set be exactly `depth_le(g, roots, k)` and
/// the frontier exactly `depth_frontier(g, roots, k)` — what `Scheduler::new`
/// establishes for `k == 0`. `take_wave` hands that frontier out; recording,
/// for each of its identifiers, exactly the references `g` gives it leaves
/// (by the ensures of `record_references`, folded over the wave) the seen set
/// `seen0 ∪ u` and the frontier `u ∖ seen0`, where `u == succs(g, frontier)`.
/// Those are exactly the depth sets of `k + 1`: wave `k` resolves precisely
/// the identifiers at reference distance `k` from the roots, and with
/// `lemma_depth_fixpoint` the loop ends after at most as many waves as the
/// longest dependency chain.
pub proof fn lemma_wave_tracks_depth(
    g: Map<Seq<char>, Set<Seq<char>>>,
    roots: Set<Seq<char>>,
    k: nat,
    seen0: Set<Seq<char>>,
    u: Set<Seq<char>>,
)
    requires
        seen0 == depth_le(g, roots, k),
        u == succs(g, depth_frontier(g, roots, k)),
    ensures
        seen0.union(u) == depth_le(g, roots, (k + 1) as nat),
        u.difference(seen0) == depth_frontier(g, roots, (k + 1) as nat),
{
    if k == 0 {
        assert(seen0.union(u) =~= depth_le(g, roots, (k + 1) as nat));
    } else {
        lemma_wave_advances_depth(g, roots, k);
        assert(seen0.union(u) =~= depth_le(g, roots, (k + 1) as nat));
    }
    assert(u.difference(seen0) =~= depth_le(g, roots, (k + 1) as nat).difference(
        depth_le(g, roots, k),
    ));
}

/// Termination of the wave loop: as soon as one wave discovers nothing new —
/// and for a finite reference graph the wave at the length of the longest
/// dependency chain from the roots can discover nothing new — every later
/// depth set equals that one, so the frontier that a further wave would be
/// given is empty and the traversal stops.
pub proof fn lemma_depth_fixpoint(
    g: Map<Seq<char>, Set<Seq<char>>>,
    roots: Set<Seq<char>>,
    k: nat,
    n: nat,
)
    requires
        depth_le(g, roots, (k + 1) as nat) == depth_le(g, roots, k),
        n >= k,
    ensures
        depth_le(g, roots, n) == depth_le(g, roots, k),
    decreases n - k,
{
    if n > k {
        lemma_depth_fixpoint(g, roots, k, (n - 1) as nat);
        assert(depth_le(g, roots, n) == depth_le(g, roots, (n - 1) as nat).union(
            succs(g, depth_le(g, roots, (n - 1) as nat)),
        ));
    }
}

} // verus!
