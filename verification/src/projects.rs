//! Enumeration of the projects contained in a list of folders: one listing
//! per folder, results concatenated in folder order.

use vstd::prelude::*;

verus! {

/// A project found under a folder: its full resource name and its plain
/// project identifier.
#[derive(Debug)]
pub struct ProjectRef {
    pub name: String,
    pub project_id: String,
}

/// Mathematical identity of a project reference.
#[verifier::ext_equal]
pub struct ProjectId {
    pub name: Seq<char>,
    pub project_id: Seq<char>,
}

impl View for ProjectRef {
    type V = ProjectId;

    open spec fn view(&self) -> ProjectId {
        ProjectId { name: self.name@, project_id: self.project_id@ }
    }
}

impl Clone for ProjectRef {
    fn clone(&self) -> (r: Self)
        ensures
            r@ == self@,
    {
        ProjectRef { name: self.name.clone(), project_id: self.project_id.clone() }
    }
}

/// The identities named by a sequence of project references, in order.
pub open spec fn project_views(s: Seq<ProjectRef>) -> Seq<ProjectId> {
    s.map_values(|p: ProjectRef| p@)
}

/// The enumeration stage: visits the given folders in order and appends
/// each folder's project listing to one growing list. Duplicates are kept:
/// a project visible from two folders is listed twice.
pub struct ProjectEnumeration {
    folders: Vec<String>,
    idx: usize,
    projects: Vec<ProjectRef>,
}

impl ProjectEnumeration {
    /// The folders to enumerate, in order.
    pub closed spec fn folders_seq(&self) -> Seq<Seq<char>> {
        self.folders@.map_values(|s: String| s@)
    }

    /// Index of the next folder to list.
    pub closed spec fn position(&self) -> int {
        self.idx as int
    }

    /// The projects collected so far, in order of collection.
    pub closed spec fn projects_seq(&self) -> Seq<ProjectRef> {
        self.projects@
    }

    pub closed spec fn wf(&self) -> bool {
        self.idx <= self.folders@.len()
    }

    /// Whether every folder has been listed.
    pub open spec fn done(&self) -> bool {
        self.position() >= self.folders_seq().len()
    }

    pub fn new(folders: Vec<String>) -> (r: ProjectEnumeration)
        ensures
            r.wf(),
            r.folders_seq() == folders@.map_values(|s: String| s@),
            r.position() == 0,
            r.projects_seq() == Seq::<ProjectRef>::empty(),
    {
        let r = ProjectEnumeration { folders, idx: 0, projects: Vec::new() };
        proof {
            assert(r.projects_seq() =~= Seq::<ProjectRef>::empty());
        }
        r
    }

    /// The folder whose projects should be listed next, if any is left.
    pub fn next_folder(&self) -> (r: Option<String>)
        requires
            self.wf(),
        ensures
            match r {
                Option::None => self.done(),
                Option::Some(f) => !self.done() && f@ == self.folders_seq()[self.position()],
            },
    {
        if self.idx < self.folders.len() {
            Some(self.folders[self.idx].clone())
        } else {
            None
        }
    }

    /// Appends one folder's project listing, in the listing's own order,
    /// and moves on to the next folder.
    pub fn on_projects(&mut self, items: &Vec<ProjectRef>)
        requires
            old(self).wf(),
            !old(self).done(),
        ensures
            final(self).wf(),
            final(self).folders_seq() == old(self).folders_seq(),
            final(self).position() == old(self).position() + 1,
            project_views(final(self).projects_seq()) == project_views(old(self).projects_seq())
                + project_views(items@),
    {
        let ghost prior = self.projects@;
        let mut k: usize = 0;
        while k < items.len()
            invariant
                k <= items@.len(),
                self.folders@ == old(self).folders@,
                self.idx == old(self).idx,
                self.projects@.len() == prior.len() + k,
                forall|i: int| 0 <= i < prior.len() ==> self.projects@[i] == prior[i],
                forall|i: int| 0 <= i < k ==> self.projects@[prior.len() + i]@ == items@[i]@,
            decreases items@.len() - k,
        {
            self.projects.push(items[k].clone());
            k = k + 1;
        }
        if self.idx < self.folders.len() {
            self.idx = self.idx + 1;
        }
        proof {
            let lhs = project_views(self.projects@);
            let rhs = project_views(prior) + project_views(items@);
            assert forall|i: int| 0 <= i < lhs.len() implies lhs[i] == rhs[i] by {
                if i < prior.len() {
                    assert(self.projects@[i] == prior[i]);
                } else {
                    assert(self.projects@[i]@ == items@[i - prior.len()]@);
                }
            }
            assert(lhs =~= rhs);
        }
    }

    /// How many projects have been collected.
    pub fn len(&self) -> (r: usize)
        ensures
            r == self.projects_seq().len(),
    {
        self.projects.len()
    }

    /// Hands out the collected projects: the concatenation of the folder
    /// listings, in folder order.
    pub fn into_projects(self) -> (v: Vec<ProjectRef>)
        ensures
            v@ == self.projects_seq(),
    {
        self.projects
    }
}

} // verus!
