//! Location of clusters across every (project, location) pair, with one
//! listing per pair, deduplication of the results, and suppression of
//! authorization-denied listings.

use crate::cluster::{ClusterId, ClusterReference, ClusterSet};
use crate::projects::ProjectRef;
use vstd::prelude::*;
use vstd::string::StringExecFns;

verus! {

/// One cluster as a listing reports it: its name and the location it runs
/// in. The owning project is known from the query, not the reply.
#[derive(Debug)]
pub struct DiscoveredCluster {
    pub name: String,
    pub location: String,
}

/// How one cluster-listing call ended: a list of clusters, a refusal on
/// authorization grounds, or any other failure with its description.
#[derive(Debug)]
pub enum ListOutcome {
    Clusters(Vec<DiscoveredCluster>),
    PermissionDenied,
    Failed(String),
}

/// The identity a listed cluster gets when the given project owns it.
pub open spec fn listed_id(c: DiscoveredCluster, project: Seq<char>) -> ClusterId {
    ClusterId { name: c.name@, project: project, location: c.location@ }
}

/// The identities that one listing contributes when its clusters are owned
/// by the given project.
pub open spec fn listed_ids(cs: Seq<DiscoveredCluster>, project: Seq<char>) -> Set<ClusterId> {
    Set::new(|id: ClusterId| exists|i: int| 0 <= i < cs.len() && id == listed_id(cs[i], project))
}

/// The locating stage: queries every (project, location) pair in order,
/// projects outermost, and gathers the clusters reported into one
/// deduplicated set. An authorization-denied listing contributes nothing
/// and the walk goes on; any other failure halts it.
pub struct ClusterLocator {
    projects: Vec<ProjectRef>,
    locations: Vec<String>,
    pi: usize,
    li: usize,
    found: ClusterSet,
    failed: bool,
}

impl ClusterLocator {
    /// The projects under query, in order.
    pub closed spec fn projects_seq(&self) -> Seq<ProjectRef> {
        self.projects@
    }

    /// The locations under query, in order.
    pub closed spec fn locations_seq(&self) -> Seq<Seq<char>> {
        self.locations@.map_values(|s: String| s@)
    }

    /// Index of the project of the current pair.
    pub closed spec fn project_index(&self) -> int {
        self.pi as int
    }

    /// Index of the location of the current pair.
    pub closed spec fn location_index(&self) -> int {
        self.li as int
    }

    /// The identities of the clusters found so far.
    pub closed spec fn found_ids(&self) -> Set<ClusterId> {
        self.found@
    }

    /// The clusters found so far, as entries.
    pub closed spec fn found_seq(&self) -> Seq<ClusterReference> {
        self.found.seq()
    }

    /// Whether a fatal listing failure has halted the stage.
    pub closed spec fn failed(&self) -> bool {
        self.failed
    }

    pub closed spec fn wf(&self) -> bool {
        &&& self.found.wf()
        &&& self.pi <= self.projects@.len()
        &&& if self.locations@.len() == 0 {
            self.li == 0
        } else {
            self.li < self.locations@.len()
        }
    }

    /// Whether some pair still awaits its listing.
    pub open spec fn has_current(&self) -> bool {
        &&& !self.failed()
        &&& self.project_index() < self.projects_seq().len()
        &&& self.locations_seq().len() > 0
    }

    /// The identifier of the project of the current pair.
    pub open spec fn current_project_id(&self) -> Seq<char> {
        self.projects_seq()[self.project_index()]@.project_id
    }

    /// The scope string of the current pair: the project's resource name,
    /// `/locations/`, and the location.
    pub open spec fn current_parent(&self) -> Seq<char> {
        self.projects_seq()[self.project_index()]@.name + "/locations/"@
            + self.locations_seq()[self.location_index()]
    }

    /// The scope to query next, if a pair is left.
    pub open spec fn spec_next_query(&self) -> Option<Seq<char>> {
        if self.has_current() {
            Some(self.current_parent())
        } else {
            None
        }
    }

    pub fn new(projects: Vec<ProjectRef>, locations: Vec<String>) -> (r: ClusterLocator)
        ensures
            r.wf(),
            r.projects_seq() == projects@,
            r.locations_seq() == locations@.map_values(|s: String| s@),
            r.project_index() == 0,
            r.location_index() == 0,
            r.found_ids() == Set::<ClusterId>::empty(),
            !r.failed(),
    {
        ClusterLocator { projects, locations, pi: 0, li: 0, found: ClusterSet::new(), failed: false }
    }

    /// The scope string to query next, if any pair is left.
    pub fn next_query(&self) -> (r: Option<String>)
        requires
            self.wf(),
        ensures
            match r {
                Option::None => self.spec_next_query() is None,
                Option::Some(q) => self.spec_next_query() == Some(q@),
            },
    {
        if self.failed || self.pi >= self.projects.len() || self.locations.len() == 0 {
            None
        } else {
            let mut q = self.projects[self.pi].name.clone();
            q.append("/locations/");
            q.append(self.locations[self.li].as_str());
            proof {
                assert(q@ =~= self.current_parent());
            }
            Some(q)
        }
    }

    /// Moves the pair index one step: next location of the same project,
    /// or the first location of the next project.
    pub open spec fn advanced_from(&self, prev: &ClusterLocator) -> bool {
        if prev.location_index() + 1 < prev.locations_seq().len() {
            self.project_index() == prev.project_index() && self.location_index()
                == prev.location_index() + 1
        } else {
            self.project_index() == prev.project_index() + 1 && self.location_index() == 0
        }
    }

    /// Takes the outcome of the current pair's listing. Reported clusters
    /// join the set, keyed by name, owning project and location, so a
    /// cluster reported twice is held once. An authorization-denied
    /// outcome contributes nothing and the walk goes on to the next pair;
    /// any other failure halts the stage and is handed back.
    pub fn on_outcome(&mut self, outcome: ListOutcome) -> (r: Result<(), String>)
        requires
            old(self).wf(),
            old(self).has_current(),
        ensures
            final(self).wf(),
            final(self).projects_seq() == old(self).projects_seq(),
            final(self).locations_seq() == old(self).locations_seq(),
            match outcome {
                ListOutcome::Clusters(cs) => {
                    &&& r is Ok
                    &&& !final(self).failed()
                    &&& final(self).advanced_from(old(self))
                    &&& final(self).found_ids() == old(self).found_ids().union(
                        listed_ids(cs@, old(self).current_project_id()),
                    )
                },
                ListOutcome::PermissionDenied => {
                    &&& r is Ok
                    &&& !final(self).failed()
                    &&& final(self).advanced_from(old(self))
                    &&& final(self).found_ids() == old(self).found_ids()
                },
                ListOutcome::Failed(detail) => {
                    &&& r matches Err(e) && e@ == detail@
                    &&& final(self).failed()
                    &&& final(self).found_ids() == old(self).found_ids()
                    &&& final(self).spec_next_query() is None
                },
            },
    {
        match outcome {
            ListOutcome::Clusters(cs) => {
                let ghost project = self.current_project_id();
                let ghost prior = self.found@;
                let mut k: usize = 0;
                while k < cs.len()
                    invariant
                        k <= cs@.len(),
                        self.projects@ == old(self).projects@,
                        self.locations@ == old(self).locations@,
                        self.pi == old(self).pi,
                        self.li == old(self).li,
                        self.failed == old(self).failed,
                        self.pi < self.projects@.len(),
                        self.found.wf(),
                        project == self.current_project_id(),
                        self.found@ =~= prior.union(listed_ids(cs@.take(k as int), project)),
                    decreases cs@.len() - k,
                {
                    let c = ClusterReference {
                        name: cs[k].name.clone(),
                        google_project_name: self.projects[self.pi].project_id.clone(),
                        location: cs[k].location.clone(),
                    };
                    proof {
                        assert(c@ == listed_id(cs@[k as int], project));
                    }
                    self.found.insert(c);
                    proof {
                        let shorter = cs@.take(k as int);
                        let longer = cs@.take(k as int + 1);
                        assert forall|id: ClusterId|
                            listed_ids(longer, project).contains(id) implies listed_ids(
                            shorter,
                            project,
                        ).contains(id) || id == listed_id(cs@[k as int], project) by {
                            let i = choose|i: int|
                                0 <= i < longer.len() && id == listed_id(longer[i], project);
                            if i < k {
                                assert(shorter[i] == longer[i]);
                                assert(id == listed_id(shorter[i], project));
                            }
                        }
                        assert(longer[k as int] == cs@[k as int]);
                        assert(listed_ids(longer, project).contains(
                            listed_id(cs@[k as int], project),
                        ));
                        assert forall|id: ClusterId|
                            listed_ids(shorter, project).contains(id) implies listed_ids(
                            longer,
                            project,
                        ).contains(id) by {
                            let i = choose|i: int|
                                0 <= i < shorter.len() && id == listed_id(shorter[i], project);
                            assert(longer[i] == shorter[i]);
                            assert(id == listed_id(longer[i], project));
                        }
                        assert(self.found@ =~= prior.union(listed_ids(longer, project)));
                    }
                    k = k + 1;
                }
                proof {
                    assert(cs@.take(cs@.len() as int) =~= cs@);
                }
                self.advance();
                Ok(())
            },
            ListOutcome::PermissionDenied => {
                self.advance();
                Ok(())
            },
            ListOutcome::Failed(detail) => {
                self.failed = true;
                Err(detail)
            },
        }
    }

    /// Moves to the next pair, projects outermost.
    fn advance(&mut self)
        requires
            old(self).wf(),
            !old(self).failed(),
            old(self).project_index() < old(self).projects_seq().len(),
            old(self).locations_seq().len() > 0,
        ensures
            final(self).wf(),
            final(self).projects_seq() == old(self).projects_seq(),
            final(self).locations_seq() == old(self).locations_seq(),
            final(self).found_ids() == old(self).found_ids(),
            final(self).found == old(self).found,
            !final(self).failed(),
            final(self).advanced_from(old(self)),
    {
        let nloc: usize = self.locations.len();
        if self.li + 1 < nloc {
            self.li = self.li + 1;
        } else {
            self.li = 0;
            if self.pi < self.projects.len() {
                self.pi = self.pi + 1;
            }
        }
    }

    /// How many clusters have been found so far.
    pub fn found_len(&self) -> (r: usize)
        ensures
            r == self.found_seq().len(),
    {
        self.found.len()
    }

    /// Hands out the deduplicated set of discovered clusters.
    pub fn into_clusters(self) -> (s: ClusterSet)
        requires
            self.wf(),
        ensures
            s.wf(),
            s@ == self.found_ids(),
    {
        self.found
    }
}

} // verus!
