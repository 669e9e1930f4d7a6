//! Expansion of a set of root folders into every folder reachable through
//! the child-folder relation, with a visited guard so that no folder is
//! queried twice.

use vstd::prelude::*;

verus! {

/// Whether no two entries of the sequence hold the same identifier.
pub open spec fn distinct_strs(v: Seq<String>) -> bool {
    forall|i: int, j: int| 0 <= i < j < v.len() ==> v[i]@ != v[j]@
}

/// The set of identifiers held by a sequence of strings.
pub open spec fn str_ids(v: Seq<String>) -> Set<Seq<char>> {
    Set::new(|x: Seq<char>| exists|i: int| 0 <= i < v.len() && v[i]@ == x)
}

/// The identifiers of a sequence of strings, in order.
pub open spec fn str_views(v: Seq<String>) -> Seq<Seq<char>> {
    v.map_values(|s: String| s@)
}

/// Whether `x` is reachable from the roots in exactly `n` child steps of
/// the relation `rel` (a folder mapped to the children it reported).
pub open spec fn reaches_in(
    rel: Map<Seq<char>, Seq<Seq<char>>>,
    roots: Set<Seq<char>>,
    x: Seq<char>,
    n: nat,
) -> bool
    decreases n,
{
    if n == 0 {
        roots.contains(x)
    } else {
        exists|p: Seq<char>|
            #[trigger] rel.dom().contains(p) && reaches_in(rel, roots, p, (n - 1) as nat)
                && rel[p].contains(x)
    }
}

/// Whether `x` is reachable from the roots through the relation.
pub open spec fn reachable(
    rel: Map<Seq<char>, Seq<Seq<char>>>,
    roots: Set<Seq<char>>,
    x: Seq<char>,
) -> bool {
    exists|n: nat| reaches_in(rel, roots, x, n)
}

/// Whether the set misses no child: every child that the relation reports
/// for a member is itself a member.
pub open spec fn closed_under(rel: Map<Seq<char>, Seq<Seq<char>>>, s: Set<Seq<char>>) -> bool {
    forall|f: Seq<char>, c: Seq<char>|
        s.contains(f) && rel.dom().contains(f) && #[trigger] rel[f].contains(c) ==> s.contains(c)
}

/// Whether every member of the set is reachable from the roots.
pub open spec fn sound_for(
    rel: Map<Seq<char>, Seq<Seq<char>>>,
    roots: Set<Seq<char>>,
    s: Set<Seq<char>>,
) -> bool {
    forall|x: Seq<char>| #[trigger] s.contains(x) ==> reachable(rel, roots, x)
}

/// Whether `s` is the outcome of a finished walk over `rel` from `roots`:
/// it holds the roots, misses no reported child, and holds nothing that is
/// not reachable.
pub open spec fn complete_walk(
    rel: Map<Seq<char>, Seq<Seq<char>>>,
    roots: Set<Seq<char>>,
    s: Set<Seq<char>>,
) -> bool {
    roots.subset_of(s) && closed_under(rel, s) && sound_for(rel, roots, s)
}

/// Appending one string adds exactly its identifier to the set.
proof fn lemma_str_ids_push(v: Seq<String>, x: String)
    ensures
        str_ids(v.push(x)) == str_ids(v).insert(x@),
{
    let w = v.push(x);
    assert forall|y: Seq<char>| str_ids(w).contains(y) implies str_ids(v).insert(x@).contains(
        y,
    ) by {
        let i = choose|i: int| 0 <= i < w.len() && w[i]@ == y;
        if i < v.len() {
            assert(v[i]@ == y);
        }
    }
    assert forall|y: Seq<char>| str_ids(v).insert(x@).contains(y) implies str_ids(w).contains(
        y,
    ) by {
        if y == x@ {
            assert(w[v.len() as int]@ == y);
        } else {
            let i = choose|i: int| 0 <= i < v.len() && v[i]@ == y;
            assert(w[i]@ == y);
        }
    }
    assert(str_ids(w) =~= str_ids(v).insert(x@));
}

/// Taking one more element adds exactly its identifier to the set.
proof fn lemma_str_ids_take_step(v: Seq<String>, k: int)
    requires
        0 <= k < v.len(),
    ensures
        str_ids(v.take(k + 1)) == str_ids(v.take(k)).insert(v[k]@),
{
    assert(v.take(k + 1) =~= v.take(k).push(v[k]));
    lemma_str_ids_push(v.take(k), v[k]);
}

/// Reachability only grows when the relation does.
proof fn lemma_reaches_mono(
    rel1: Map<Seq<char>, Seq<Seq<char>>>,
    rel2: Map<Seq<char>, Seq<Seq<char>>>,
    roots: Set<Seq<char>>,
    x: Seq<char>,
    n: nat,
)
    requires
        rel1.dom().subset_of(rel2.dom()),
        forall|p: Seq<char>| #[trigger] rel1.dom().contains(p) ==> rel2[p] == rel1[p],
        reaches_in(rel1, roots, x, n),
    ensures
        reaches_in(rel2, roots, x, n),
    decreases n,
{
    if n > 0 {
        let p = choose|p: Seq<char>|
            #[trigger] rel1.dom().contains(p) && reaches_in(rel1, roots, p, (n - 1) as nat)
                && rel1[p].contains(x);
        lemma_reaches_mono(rel1, rel2, roots, p, (n - 1) as nat);
        assert(rel2.dom().contains(p) && rel2[p].contains(x));
    }
}

/// Anything reachable from the roots lies in every set that holds the
/// roots and misses no child.
proof fn lemma_reaches_into_closed(
    rel: Map<Seq<char>, Seq<Seq<char>>>,
    roots: Set<Seq<char>>,
    s: Set<Seq<char>>,
    x: Seq<char>,
    n: nat,
)
    requires
        roots.subset_of(s),
        closed_under(rel, s),
        reaches_in(rel, roots, x, n),
    ensures
        s.contains(x),
    decreases n,
{
    if n > 0 {
        let p = choose|p: Seq<char>|
            #[trigger] rel.dom().contains(p) && reaches_in(rel, roots, p, (n - 1) as nat)
                && rel[p].contains(x);
        lemma_reaches_into_closed(rel, roots, s, p, (n - 1) as nat);
    }
}

/// Two finished walks over the same hierarchy from the same roots discover
/// the same set of folders, whatever order the folders were expanded in:
/// the outcome is exactly the set reachable from the roots.
pub proof fn lemma_complete_walk_unique(
    rel: Map<Seq<char>, Seq<Seq<char>>>,
    roots: Set<Seq<char>>,
    s1: Set<Seq<char>>,
    s2: Set<Seq<char>>,
)
    requires
        complete_walk(rel, roots, s1),
        complete_walk(rel, roots, s2),
    ensures
        s1 == s2,
{
    assert forall|x: Seq<char>| s1.contains(x) implies s2.contains(x) by {
        let n = choose|n: nat| reaches_in(rel, roots, x, n);
        lemma_reaches_into_closed(rel, roots, s2, x, n);
    }
    assert forall|x: Seq<char>| s2.contains(x) implies s1.contains(x) by {
        let n = choose|n: nat| reaches_in(rel, roots, x, n);
        lemma_reaches_into_closed(rel, roots, s1, x, n);
    }
    assert(s1 =~= s2);
}

/// The walking stage: starting from the roots, repeatedly takes a folder
/// whose children have not been fetched yet, and absorbs the children it
/// reports, keeping each folder once.
pub struct FolderWalk {
    visited: Vec<String>,
    pending: Vec<String>,
    processed: Ghost<Map<Seq<char>, Seq<Seq<char>>>>,
    roots: Ghost<Set<Seq<char>>>,
}

impl FolderWalk {
    /// The identifiers of the folders discovered so far.
    pub closed spec fn seen(&self) -> Set<Seq<char>> {
        str_ids(self.visited@)
    }

    /// The discovered folders as held, in discovery order.
    pub closed spec fn visited_seq(&self) -> Seq<String> {
        self.visited@
    }

    /// The identifiers of the folders whose children are still to fetch.
    pub closed spec fn pending_ids(&self) -> Set<Seq<char>> {
        str_ids(self.pending@)
    }

    /// Each folder already expanded, mapped to the children it reported.
    pub closed spec fn processed_rel(&self) -> Map<Seq<char>, Seq<Seq<char>>> {
        self.processed@
    }

    /// The identifiers the walk started from.
    pub closed spec fn root_ids(&self) -> Set<Seq<char>> {
        self.roots@
    }

    /// Whether every discovered folder has been expanded.
    pub closed spec fn done(&self) -> bool {
        self.pending@.len() == 0
    }

    /// The folder to expand next.
    pub closed spec fn current(&self) -> Seq<char> {
        self.pending@.last()@
    }

    pub closed spec fn wf(&self) -> bool {
        &&& distinct_strs(self.visited@)
        &&& distinct_strs(self.pending@)
        &&& forall|i: int|
            0 <= i < self.pending@.len() ==> self.seen().contains(#[trigger] self.pending@[i]@)
        &&& forall|i: int|
            0 <= i < self.pending@.len() ==> !self.processed@.dom().contains(
                #[trigger] self.pending@[i]@,
            )
        &&& self.seen() == self.processed@.dom().union(self.pending_ids())
        &&& forall|f: Seq<char>, c: Seq<char>|
            self.processed@.dom().contains(f) && #[trigger] self.processed@[f].contains(c)
                ==> self.seen().contains(c)
        &&& self.roots@.subset_of(self.seen())
        &&& sound_for(self.processed@, self.roots@, self.seen())
    }

    /// Starts a walk from the given roots. Each root is discovered at
    /// once; repeated roots are kept once.
    pub fn new(roots: &Vec<String>) -> (r: FolderWalk)
        ensures
            r.wf(),
            r.root_ids() == str_ids(roots@),
            r.seen() == str_ids(roots@),
            r.processed_rel() == Map::<Seq<char>, Seq<Seq<char>>>::empty(),
    {
        let mut w = FolderWalk {
            visited: Vec::new(),
            pending: Vec::new(),
            processed: Ghost(Map::empty()),
            roots: Ghost(str_ids(roots@)),
        };
        let mut k: usize = 0;
        while k < roots.len()
            invariant
                k <= roots@.len(),
                w.processed@ == Map::<Seq<char>, Seq<Seq<char>>>::empty(),
                w.roots@ == str_ids(roots@),
                w.visited@ == w.pending@,
                distinct_strs(w.visited@),
                str_ids(w.visited@) =~= str_ids(roots@.take(k as int)),
            decreases roots@.len() - k,
        {
            let ghost vis0 = w.visited@;
            if !contains_str(&w.visited, &roots[k]) {
                w.visited.push(roots[k].clone());
                w.pending.push(roots[k].clone());
                proof {
                    lemma_str_ids_push(vis0, roots@[k as int]);
                }
            }
            proof {
                lemma_str_ids_take_step(roots@, k as int);
                assert(str_ids(w.visited@) =~= str_ids(roots@.take(k as int + 1)));
            }
            k = k + 1;
        }
        proof {
            assert(roots@.take(roots@.len() as int) =~= roots@);
            assert(w.seen() =~= str_ids(roots@));
            assert(w.seen() =~= w.processed@.dom().union(w.pending_ids()));
            assert forall|x: Seq<char>| w.seen().contains(x) implies reachable(
                w.processed@,
                w.roots@,
                x,
            ) by {
                assert(reaches_in(w.processed@, w.roots@, x, 0));
            }
        }
        w
    }

    /// The folder whose children should be fetched next, if one is left.
    pub fn next_folder(&self) -> (r: Option<String>)
        requires
            self.wf(),
        ensures
            match r {
                Option::None => self.done(),
                Option::Some(f) => !self.done() && f@ == self.current() && self.seen().contains(
                    f@,
                ),
            },
    {
        if self.pending.len() == 0 {
            None
        } else {
            let f = self.pending[self.pending.len() - 1].clone();
            Some(f)
        }
    }

    /// Absorbs the children reported for the folder under expansion: each
    /// child not seen before is discovered and will be expanded in turn.
    pub fn on_children(&mut self, children: &Vec<String>)
        requires
            old(self).wf(),
            !old(self).done(),
        ensures
            final(self).wf(),
            final(self).root_ids() == old(self).root_ids(),
            final(self).processed_rel() == old(self).processed_rel().insert(
                old(self).current(),
                str_views(children@),
            ),
            final(self).seen() == old(self).seen().union(str_ids(children@)),
    {
        let ghost rel0 = self.processed@;
        let ghost seen0 = str_ids(self.visited@);
        let f = self.pending.pop().unwrap();
        self.processed = Ghost(rel0.insert(f@, str_views(children@)));
        let ghost rel = self.processed@;
        proof {
            let prev = old(self).pending@;
            assert(f == prev.last());
            assert(self.pending@ == prev.drop_last());
            assert forall|i: int| 0 <= i < self.pending@.len() implies #[trigger] prev[i]@ != prev[
                prev.len() - 1
            ]@ by {}
            assert(!rel0.dom().contains(f@));
            assert(rel0.dom().subset_of(rel.dom()));
            // the folder moves from the worklist into the relation's domain,
            // so the discovered set still splits into the two parts
            assert(self.seen() =~= rel.dom().union(self.pending_ids())) by {
                assert forall|x: Seq<char>| self.seen().contains(x) implies rel.dom().union(
                    self.pending_ids(),
                ).contains(x) by {
                    if x != f@ && !rel0.dom().contains(x) {
                        let i = choose|i: int| 0 <= i < prev.len() && prev[i]@ == x;
                        assert(prev[i]@ != prev[prev.len() - 1]@);
                        assert(self.pending@[i] == prev[i]);
                        assert(self.pending_ids().contains(x));
                    }
                }
                assert forall|x: Seq<char>| rel.dom().union(self.pending_ids()).contains(
                    x,
                ) implies self.seen().contains(x) by {}
            }
            assert(sound_for(rel, self.roots@, self.seen())) by {
                assert forall|x: Seq<char>| #[trigger] self.seen().contains(x) implies reachable(
                    rel,
                    self.roots@,
                    x,
                ) by {
                    assert(seen0.contains(x));
                    assert(reachable(rel0, self.roots@, x));
                    let n = choose|n: nat| reaches_in(rel0, self.roots@, x, n);
                    lemma_reaches_mono(rel0, rel, self.roots@, x, n);
                }
            }
        }
        let ghost fid = f@;
        let mut k: usize = 0;
        while k < children.len()
            invariant
                k <= children@.len(),
                self.processed@ == rel,
                self.roots@ == old(self).roots@,
                rel.dom().contains(fid),
                rel[fid] == str_views(children@),
                distinct_strs(self.visited@),
                distinct_strs(self.pending@),
                forall|i: int|
                    0 <= i < self.pending@.len() ==> self.seen().contains(
                        #[trigger] self.pending@[i]@,
                    ),
                forall|i: int|
                    0 <= i < self.pending@.len() ==> !rel.dom().contains(
                        #[trigger] self.pending@[i]@,
                    ),
                self.seen() == rel.dom().union(self.pending_ids()),
                forall|g: Seq<char>, c: Seq<char>|
                    rel0.dom().contains(g) && #[trigger] rel0[g].contains(c) ==> self.seen().contains(
                        c,
                    ),
                forall|j: int| 0 <= j < k ==> self.seen().contains(#[trigger] children@[j]@),
                self.roots@.subset_of(self.seen()),
                sound_for(rel, self.roots@, self.seen()),
                self.seen() == old(self).seen().union(str_ids(children@.take(k as int))),
            decreases children@.len() - k,
        {
            let ghost seen_k = self.seen();
            let ghost vis_k = self.visited@;
            let ghost pend_k = self.pending@;
            if !contains_str(&self.visited, &children[k]) {
                self.visited.push(children[k].clone());
                self.pending.push(children[k].clone());
                proof {
                    let c = children@[k as int]@;
                    lemma_str_ids_push(vis_k, children@[k as int]);
                    lemma_str_ids_push(pend_k, children@[k as int]);
                    assert(self.seen() =~= seen_k.insert(c));
                    assert(self.pending_ids() =~= str_ids(pend_k).insert(c));
                    // the new child is reachable in one more step through
                    // the folder just expanded
                    assert(reachable(rel, self.roots@, c)) by {
                        assert(seen_k.contains(fid));
                        assert(reachable(rel, self.roots@, fid));
                        let n = choose|n: nat| reaches_in(rel, self.roots@, fid, n);
                        assert(str_views(children@)[k as int] == c);
                        assert(rel[fid].contains(c));
                        assert(reaches_in(rel, self.roots@, c, n + 1));
                    }
                    assert(self.seen() =~= rel.dom().union(self.pending_ids()));
                    lemma_str_ids_take_step(children@, k as int);
                    assert(self.seen() =~= old(self).seen().union(
                        str_ids(children@.take(k as int + 1)),
                    ));
                }
            } else {
                proof {
                    lemma_str_ids_take_step(children@, k as int);
                    assert(self.seen() =~= old(self).seen().union(
                        str_ids(children@.take(k as int + 1)),
                    ));
                }
            }
            k = k + 1;
        }
        proof {
            assert(children@.take(children@.len() as int) =~= children@);
            assert(self.seen() =~= old(self).seen().union(str_ids(children@)));
        }
    }

    /// How many folders have been discovered.
    pub fn len(&self) -> (r: usize)
        ensures
            r == self.visited_seq().len(),
    {
        self.visited.len()
    }

    /// Hands out the discovered folders, each once, roots first and then
    /// children in discovery order.
    pub fn into_folders(self) -> (v: Vec<String>)
        requires
            self.wf(),
        ensures
            distinct_strs(v@),
            str_ids(v@) == self.seen(),
    {
        self.visited
    }
}

/// A finished walk holds every root, misses no reported child, and holds
/// only folders reachable from the roots.
pub proof fn lemma_walk_complete(w: &FolderWalk)
    requires
        w.wf(),
        w.done(),
    ensures
        w.root_ids().subset_of(w.seen()),
        complete_walk(w.processed_rel(), w.root_ids(), w.seen()),
{
    assert(w.seen() =~= w.processed_rel().dom()) by {
        assert(w.pending_ids() =~= Set::<Seq<char>>::empty());
        assert(w.seen() =~= w.processed_rel().dom().union(w.pending_ids()));
    }
}

/// A finished walk whose every reply agreed with one fixed hierarchy is a
/// complete walk over that hierarchy itself. Together with the uniqueness
/// of complete walks, two finished walks against the same hierarchy from
/// the same roots discover the same folder set.
pub proof fn lemma_walk_complete_for(w: &FolderWalk, hierarchy: Map<Seq<char>, Seq<Seq<char>>>)
    requires
        w.wf(),
        w.done(),
        w.processed_rel().dom().subset_of(hierarchy.dom()),
        forall|f: Seq<char>| #[trigger]
            w.processed_rel().dom().contains(f) ==> hierarchy[f] == w.processed_rel()[f],
    ensures
        complete_walk(hierarchy, w.root_ids(), w.seen()),
{
    let rel = w.processed_rel();
    let s = w.seen();
    assert(s =~= rel.dom()) by {
        assert(w.pending_ids() =~= Set::<Seq<char>>::empty());
        assert(s =~= rel.dom().union(w.pending_ids()));
    }
    assert forall|f: Seq<char>, c: Seq<char>|
        s.contains(f) && hierarchy.dom().contains(f) && #[trigger] hierarchy[f].contains(
            c,
        ) implies s.contains(c) by {
        assert(rel.dom().contains(f));
        assert(rel[f].contains(c));
    }
    assert forall|x: Seq<char>| #[trigger] s.contains(x) implies reachable(
        hierarchy,
        w.root_ids(),
        x,
    ) by {
        let n = choose|n: nat| reaches_in(rel, w.root_ids(), x, n);
        lemma_reaches_mono(rel, hierarchy, w.root_ids(), x, n);
    }
}

/// Whether the sequence holds the given identifier.
fn contains_str(v: &Vec<String>, x: &String) -> (r: bool)
    ensures
        r == str_ids(v@).contains(x@),
{
    let mut k: usize = 0;
    while k < v.len()
        invariant
            k <= v@.len(),
            forall|i: int| 0 <= i < k ==> v@[i]@ != x@,
        decreases v@.len() - k,
    {
        if v[k] == *x {
            return true;
        }
        k = k + 1;
    }
    false
}

} // verus!
