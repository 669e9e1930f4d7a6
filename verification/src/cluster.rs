//! Identity of a discovered cluster and the canonical name derived from it.

use vstd::assert_by_contradiction;
use vstd::prelude::*;
use vstd::string::StringExecFns;

verus! {

/// Mathematical identity of a cluster: the three fields that together form
/// its deduplication key.
#[verifier::ext_equal]
pub struct ClusterId {
    pub name: Seq<char>,
    pub project: Seq<char>,
    pub location: Seq<char>,
}

/// A cluster discovered during the walk: its name, the identifier of the
/// project that owns it, and the location it runs in.
#[derive(Debug)]
pub struct ClusterReference {
    pub name: String,
    pub google_project_name: String,
    pub location: String,
}

impl View for ClusterReference {
    type V = ClusterId;

    open spec fn view(&self) -> ClusterId {
        ClusterId {
            name: self.name@,
            project: self.google_project_name@,
            location: self.location@,
        }
    }
}

impl Clone for ClusterReference {
    fn clone(&self) -> (r: Self)
        ensures
            r@ == self@,
    {
        ClusterReference {
            name: self.name.clone(),
            google_project_name: self.google_project_name.clone(),
            location: self.location.clone(),
        }
    }
}

impl ClusterReference {
    /// Whether two references name the same cluster: all three fields equal.
    pub fn same_cluster(&self, other: &ClusterReference) -> (r: bool)
        ensures
            r == (self@ == other@),
    {
        let r = self.name == other.name && self.google_project_name == other.google_project_name
            && self.location == other.location;
        proof {
            if r {
                assert(self@ =~= other@);
            }
        }
        r
    }
}

/// The canonical identifier a cluster is registered under locally:
/// `gke_` followed by project, location and cluster name, separated by `_`.
pub open spec fn autogen_name(project: Seq<char>, location: Seq<char>, name: Seq<char>) -> Seq<
    char,
> {
    "gke_"@ + project + "_"@ + location + "_"@ + name
}

/// Derives the canonical identifier for a cluster from its three fields.
pub fn gcloud_get_autogen_name(cluster: &ClusterReference) -> (r: String)
    ensures
        r@ == autogen_name(cluster.google_project_name@, cluster.location@, cluster.name@),
{
    let mut r = String::from_str("gke_");
    r.append(cluster.google_project_name.as_str());
    r.append("_");
    r.append(cluster.location.as_str());
    r.append("_");
    r.append(cluster.name.as_str());
    proof {
        assert(r@ =~= autogen_name(
            cluster.google_project_name@,
            cluster.location@,
            cluster.name@,
        ));
    }
    r
}

/// The canonical name is a pure function of the three identity fields:
/// two references with equal identity always derive the same name,
/// independent of call order or any other state.
pub proof fn lemma_autogen_deterministic(a: ClusterReference, b: ClusterReference)
    requires
        a@ == b@,
    ensures
        autogen_name(a.google_project_name@, a.location@, a.name@) == autogen_name(
            b.google_project_name@,
            b.location@,
            b.name@,
        ),
{
}

/// Whether no two entries of the sequence name the same cluster.
pub open spec fn distinct_clusters(s: Seq<ClusterReference>) -> bool {
    forall|i: int, j: int| 0 <= i < j < s.len() ==> s[i]@ != s[j]@
}

/// The set of cluster identities named by the entries of a sequence.
pub open spec fn cluster_ids(s: Seq<ClusterReference>) -> Set<ClusterId> {
    Set::new(|id: ClusterId| exists|i: int| 0 <= i < s.len() && s[i]@ == id)
}

/// How many entries of the sequence carry the given identity.
pub open spec fn count_matching(s: Seq<ClusterReference>, id: ClusterId) -> nat
    decreases s.len(),
{
    if s.len() == 0 {
        0
    } else {
        count_matching(s.drop_last(), id) + (if s.last()@ == id {
            1nat
        } else {
            0nat
        })
    }
}

/// A sequence without repeated identities holds exactly one entry for each
/// identity it contains, and none for any other.
pub proof fn lemma_distinct_count(s: Seq<ClusterReference>, id: ClusterId)
    requires
        distinct_clusters(s),
    ensures
        cluster_ids(s).contains(id) ==> count_matching(s, id) == 1,
        !cluster_ids(s).contains(id) ==> count_matching(s, id) == 0,
    decreases s.len(),
{
    if s.len() > 0 {
        let rest = s.drop_last();
        assert forall|i: int, j: int| 0 <= i < j < rest.len() implies rest[i]@ != rest[j]@ by {
            assert(s[i]@ != s[j]@);
        }
        lemma_distinct_count(rest, id);
        let last = s.len() - 1;
        if s.last()@ == id {
            assert(cluster_ids(s).contains(id));
            assert_by_contradiction!(!cluster_ids(rest).contains(id), {
                let i = choose|i: int| 0 <= i < rest.len() && rest[i]@ == id;
                assert(s[i]@ != s[last]@);
            });
        } else {
            if cluster_ids(s).contains(id) {
                let i = choose|i: int| 0 <= i < s.len() && s[i]@ == id;
                assert(rest[i]@ == id);
                assert(cluster_ids(rest).contains(id));
            }
            if cluster_ids(rest).contains(id) {
                let i = choose|i: int| 0 <= i < rest.len() && rest[i]@ == id;
                assert(s[i]@ == id);
                assert(cluster_ids(s).contains(id));
            }
        }
    }
}

/// The accumulated set of discovered clusters, deduplicated on the full
/// identity `{name, project, location}`.
pub struct ClusterSet {
    items: Vec<ClusterReference>,
}

impl View for ClusterSet {
    type V = Set<ClusterId>;

    closed spec fn view(&self) -> Set<ClusterId> {
        cluster_ids(self.items@)
    }
}

impl ClusterSet {
    /// The entries as a sequence, for counting and iteration order.
    pub closed spec fn seq(&self) -> Seq<ClusterReference> {
        self.items@
    }

    /// No two entries name the same cluster.
    pub closed spec fn wf(&self) -> bool {
        distinct_clusters(self.items@)
    }

    pub fn new() -> (r: ClusterSet)
        ensures
            r.wf(),
            r@ == Set::<ClusterId>::empty(),
            r.seq().len() == 0,
    {
        let r = ClusterSet { items: Vec::new() };
        proof {
            assert(r@ =~= Set::<ClusterId>::empty());
        }
        r
    }

    /// Whether a cluster with this identity is already in the set.
    pub fn contains(&self, c: &ClusterReference) -> (r: bool)
        ensures
            r == self@.contains(c@),
    {
        let mut k: usize = 0;
        while k < self.items.len()
            invariant
                k <= self.items@.len(),
                forall|i: int| 0 <= i < k ==> self.items@[i]@ != c@,
            decreases self.items@.len() - k,
        {
            if self.items[k].same_cluster(c) {
                return true;
            }
            k = k + 1;
        }
        false
    }

    /// Adds the cluster's identity to the set; an identity already present
    /// is not added again.
    pub fn insert(&mut self, c: ClusterReference)
        requires
            old(self).wf(),
        ensures
            final(self).wf(),
            final(self)@ == old(self)@.insert(c@),
            old(self)@.contains(c@) ==> final(self).seq() == old(self).seq(),
            !old(self)@.contains(c@) ==> final(self).seq() == old(self).seq().push(c),
    {
        if !self.contains(&c) {
            self.items.push(c);
            proof {
                let s = self.items@;
                let prev = old(self).items@;
                assert(forall|i: int| 0 <= i < prev.len() ==> s[i] == prev[i]);
                assert(final(self)@ =~= old(self)@.insert(s.last()@));
            }
        } else {
            proof {
                assert(final(self)@ =~= old(self)@.insert(c@));
            }
        }
    }

    /// How many clusters the set holds.
    pub fn len(&self) -> (r: usize)
        ensures
            r == self.seq().len(),
    {
        self.items.len()
    }

    /// Hands the clusters out as a sequence without repeated identities.
    pub fn into_vec(self) -> (v: Vec<ClusterReference>)
        requires
            self.wf(),
        ensures
            v@ == self.seq(),
            distinct_clusters(v@),
            cluster_ids(v@) == self@,
    {
        self.items
    }
}

} // verus!
