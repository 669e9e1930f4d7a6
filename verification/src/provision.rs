//! Provisioning of local credentials and context aliases for each
//! discovered cluster, two subprocess invocations per cluster, stopping at
//! the first failure.

use crate::cluster::{autogen_name, ClusterId, ClusterReference};
use vstd::prelude::*;
use vstd::string::StringExecFns;

verus! {

/// How a subprocess ended: with an exit code, or without one (for example
/// when it was terminated by a signal).
#[derive(Debug)]
pub enum ExitStatus {
    Exited(i32),
    Terminated,
}

/// Why provisioning stopped: the subprocess ended without an exit code, or
/// with a non-zero one.
#[derive(Debug)]
pub enum ExitError {
    Killed,
    ExitCode(i32),
}

/// One subprocess invocation: the program to run and its arguments.
#[derive(Debug)]
pub struct Invocation {
    pub program: String,
    pub args: Vec<String>,
}

/// Mathematical image of an invocation.
#[verifier::ext_equal]
pub struct InvocationView {
    pub program: Seq<char>,
    pub args: Seq<Seq<char>>,
}

impl View for Invocation {
    type V = InvocationView;

    open spec fn view(&self) -> InvocationView {
        InvocationView { program: self.program@, args: self.args@.map_values(|s: String| s@) }
    }
}

/// What an exit status means: exit code zero is success, any other exit
/// code is a failure carrying that code, and ending without a code is a
/// failure of its own kind.
pub open spec fn interpret_exit_spec(status: &ExitStatus) -> Result<(), ExitError> {
    match status {
        ExitStatus::Exited(code) => if *code == 0 {
            Result::<(), ExitError>::Ok(())
        } else {
            Result::<(), ExitError>::Err(ExitError::ExitCode(*code))
        },
        ExitStatus::Terminated => Result::<(), ExitError>::Err(ExitError::Killed),
    }
}

/// Classifies how a subprocess ended.
pub fn interpret_exit_status(status: &ExitStatus) -> (r: Result<(), ExitError>)
    ensures
        r == interpret_exit_spec(status),
{
    match status {
        ExitStatus::Exited(code) => {
            if *code == 0 {
                Ok(())
            } else {
                Err(ExitError::ExitCode(*code))
            }
        },
        ExitStatus::Terminated => Err(ExitError::Killed),
    }
}

/// The invocation that fetches connection credentials for a cluster.
pub open spec fn credentials_invocation(c: ClusterId) -> InvocationView {
    InvocationView {
        program: "gcloud"@,
        args: seq![
            "container"@,
            "clusters"@,
            "get-credentials"@,
            c.name,
            "--project"@,
            c.project,
            "--location"@,
            c.location,
        ],
    }
}

/// The invocation that registers the friendly local alias for a cluster:
/// one argument of the form `<friendly-name>=<canonical-name>`.
pub open spec fn rename_invocation(c: ClusterId) -> InvocationView {
    InvocationView {
        program: "kubectx"@,
        args: seq![c.name + "="@ + autogen_name(c.project, c.location, c.name)],
    }
}

/// Builds the credential-fetching invocation for a cluster.
pub fn build_credentials_invocation(c: &ClusterReference) -> (r: Invocation)
    ensures
        r@ == credentials_invocation(c@),
{
    let mut args: Vec<String> = Vec::new();
    args.push(String::from_str("container"));
    args.push(String::from_str("clusters"));
    args.push(String::from_str("get-credentials"));
    args.push(c.name.clone());
    args.push(String::from_str("--project"));
    args.push(c.google_project_name.clone());
    args.push(String::from_str("--location"));
    args.push(c.location.clone());
    let r = Invocation { program: String::from_str("gcloud"), args };
    proof {
        assert(r@.args =~= credentials_invocation(c@).args);
        assert(r@ =~= credentials_invocation(c@));
    }
    r
}

/// Builds the alias-assignment invocation for a cluster.
pub fn build_rename_invocation(c: &ClusterReference) -> (r: Invocation)
    ensures
        r@ == rename_invocation(c@),
{
    let autogen = crate::cluster::gcloud_get_autogen_name(c);
    let mut arg = c.name.clone();
    arg.append("=");
    arg.append(autogen.as_str());
    let mut args: Vec<String> = Vec::new();
    args.push(arg);
    let r = Invocation { program: String::from_str("kubectx"), args };
    proof {
        assert(r@.args =~= rename_invocation(c@).args);
        assert(r@ =~= rename_invocation(c@));
    }
    r
}

/// The provisioning stage: walks the discovered clusters in order, issuing
/// the credential invocation and then the alias invocation for each, and
/// halts for good at the first failure.
pub struct ProvisionPlan {
    clusters: Vec<ClusterReference>,
    idx: usize,
    credentials_fetched: bool,
    halted: bool,
}

impl ProvisionPlan {
    /// The clusters to provision, in order.
    pub closed spec fn clusters_seq(&self) -> Seq<ClusterReference> {
        self.clusters@
    }

    /// Index of the cluster currently being provisioned.
    pub closed spec fn current_index(&self) -> int {
        self.idx as int
    }

    /// Whether the current cluster still awaits its credential invocation
    /// (after that succeeds, the alias invocation follows).
    pub closed spec fn fetch_phase(&self) -> bool {
        !self.credentials_fetched
    }

    /// Whether a failure has stopped the plan.
    pub closed spec fn halted(&self) -> bool {
        self.halted
    }

    pub closed spec fn wf(&self) -> bool {
        self.idx <= self.clusters@.len() && (self.credentials_fetched ==> self.idx
            < self.clusters@.len())
    }

    /// Whether some cluster is still being worked on.
    pub open spec fn has_current(&self) -> bool {
        !self.halted() && self.current_index() < self.clusters_seq().len()
    }

    /// The invocation owed next: credentials for the current cluster, then
    /// its alias; nothing once every cluster is done or a failure halted
    /// the plan.
    pub open spec fn spec_next_invocation(&self) -> Option<InvocationView> {
        if !self.has_current() {
            None
        } else if self.fetch_phase() {
            Some(credentials_invocation(self.clusters_seq()[self.current_index()]@))
        } else {
            Some(rename_invocation(self.clusters_seq()[self.current_index()]@))
        }
    }

    pub fn new(clusters: Vec<ClusterReference>) -> (r: ProvisionPlan)
        ensures
            r.wf(),
            r.clusters_seq() == clusters@,
            r.current_index() == 0,
            r.fetch_phase(),
            !r.halted(),
    {
        ProvisionPlan { clusters, idx: 0, credentials_fetched: false, halted: false }
    }

    /// How many clusters the plan was given.
    pub fn len(&self) -> (r: usize)
        ensures
            r == self.clusters_seq().len(),
    {
        self.clusters.len()
    }

    /// The cluster currently being provisioned.
    pub fn current_cluster(&self) -> (c: &ClusterReference)
        requires
            self.wf(),
            self.has_current(),
        ensures
            c == self.clusters_seq()[self.current_index()],
    {
        &self.clusters[self.idx]
    }

    /// The invocation to issue next, if any.
    pub fn next_invocation(&self) -> (r: Option<Invocation>)
        requires
            self.wf(),
        ensures
            match r {
                Option::None => self.spec_next_invocation() is None,
                Option::Some(i) => self.spec_next_invocation() == Some(i@),
            },
    {
        if self.halted || self.idx >= self.clusters.len() {
            None
        } else if !self.credentials_fetched {
            Some(build_credentials_invocation(&self.clusters[self.idx]))
        } else {
            Some(build_rename_invocation(&self.clusters[self.idx]))
        }
    }

    /// Records how the invocation issued last ended. Exit code zero moves
    /// the plan forward; anything else halts it for good and reports the
    /// failure, so no later cluster is ever attempted.
    pub fn on_exit(&mut self, status: &ExitStatus) -> (r: Result<(), ExitError>)
        requires
            old(self).wf(),
            old(self).has_current(),
        ensures
            final(self).wf(),
            final(self).clusters_seq() == old(self).clusters_seq(),
            r == interpret_exit_spec(status),
            r is Ok ==> {
                &&& !final(self).halted()
                &&& if old(self).fetch_phase() {
                    final(self).current_index() == old(self).current_index()
                        && !final(self).fetch_phase()
                } else {
                    final(self).current_index() == old(self).current_index() + 1
                        && final(self).fetch_phase()
                }
            },
            r is Err ==> {
                &&& final(self).halted()
                &&& final(self).current_index() == old(self).current_index()
                &&& final(self).spec_next_invocation() is None
            },
    {
        let outcome = interpret_exit_status(status);
        match outcome {
            Ok(()) => {
                if !self.credentials_fetched {
                    self.credentials_fetched = true;
                } else if self.idx < self.clusters.len() {
                    self.credentials_fetched = false;
                    self.idx = self.idx + 1;
                }
                Ok(())
            },
            Err(e) => {
                self.halted = true;
                Err(e)
            },
        }
    }
}

/// Once a provisioning step has failed the plan is halted, and a halted
/// plan never issues another invocation: the first failure is final.
pub proof fn lemma_fail_fast(p: ProvisionPlan)
    requires
        p.halted(),
    ensures
        p.spec_next_invocation() is None,
{
}

} // verus!
