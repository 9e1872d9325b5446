//! Messages exchanged with the cluster agent and the errors replied to
//! callers of the node agent.

use vstd::prelude::*;
use vstd::string::StringExecFns;

verus! {

/// Failed NVMe path.
#[derive(Debug, PartialEq, Eq)]
pub struct FailedPath {
    pub target_nqn: String,
}

impl View for FailedPath {
    type V = Seq<char>;

    /// A failed path is known by the NQN of its target.
    open spec fn view(&self) -> Seq<char> {
        self.target_nqn@
    }
}

impl Clone for FailedPath {
    fn clone(&self) -> (copy: Self)
        ensures
            copy@ == self@,
    {
        FailedPath { target_nqn: self.target_nqn.clone() }
    }
}

impl Default for FailedPath {
    fn default() -> (path: Self)
        ensures
            path@ == Seq::<char>::empty(),
    {
        FailedPath { target_nqn: String::new() }
    }
}

/// The target NQNs of a list of failed paths, in order.
pub open spec fn nqns_of(paths: Seq<FailedPath>) -> Seq<Seq<char>> {
    paths.map_values(|p: FailedPath| p@)
}

/// What a failure report says: the reporting node and the targets whose
/// paths failed.
pub struct ReportFailedPathsView {
    pub node: Seq<char>,
    pub failed_paths: Seq<Seq<char>>,
}

/// Report failed NVMe paths.
#[derive(Debug, PartialEq, Eq)]
pub struct ReportFailedPaths {
    pub node: String,
    pub failed_paths: Vec<FailedPath>,
}

impl View for ReportFailedPaths {
    type V = ReportFailedPathsView;

    open spec fn view(&self) -> ReportFailedPathsView {
        ReportFailedPathsView { node: self.node@, failed_paths: nqns_of(self.failed_paths@) }
    }
}

/// A copy of `paths`, entry by entry.
pub fn copy_failed_paths(paths: &Vec<FailedPath>) -> (copy: Vec<FailedPath>)
    ensures
        nqns_of(copy@) == nqns_of(paths@),
{
    let mut copy: Vec<FailedPath> = Vec::new();
    let mut i: usize = 0;
    while i < paths.len()
        invariant
            i <= paths.len(),
            copy.len() == i,
            forall|j: int| 0 <= j < i ==> copy[j]@ == paths[j]@,
        decreases paths.len() - i,
    {
        copy.push(paths[i].clone());
        i += 1;
    }
    assert(nqns_of(copy@) =~= nqns_of(paths@));
    copy
}

impl Clone for ReportFailedPaths {
    fn clone(&self) -> (copy: Self)
        ensures
            copy@ == self@,
    {
        ReportFailedPaths {
            node: self.node.clone(),
            failed_paths: copy_failed_paths(&self.failed_paths),
        }
    }
}

impl Default for ReportFailedPaths {
    fn default() -> (report: Self)
        ensures
            report@.node == Seq::<char>::empty(),
            report@.failed_paths == Seq::<Seq<char>>::empty(),
    {
        let report = ReportFailedPaths { node: String::new(), failed_paths: Vec::new() };
        assert(nqns_of(report.failed_paths@) =~= Seq::<Seq<char>>::empty());
        report
    }
}

impl ReportFailedPaths {
    /// Name of the node that reports.
    pub fn node(&self) -> (node: String)
        ensures
            node@ == self@.node,
    {
        self.node.clone()
    }

    /// List of failed NVMe paths.
    pub fn failed_paths(&self) -> (paths: Vec<FailedPath>)
        ensures
            nqns_of(paths@) == self@.failed_paths,
    {
        copy_failed_paths(&self.failed_paths)
    }
}

/// A failed path as the cluster agent is told of it.
#[derive(Debug, PartialEq, Eq)]
pub struct FailedNvmePath {
    pub target_nqn: String,
}

impl FailedNvmePath {
    /// The wire form of a failed path.
    pub fn from(path: FailedPath) -> (wire: Self)
        ensures
            wire.target_nqn@ == path@,
    {
        Self { target_nqn: path.target_nqn }
    }
}

/// The request by which a node reports failed paths to the cluster agent.
#[derive(Debug, PartialEq, Eq)]
pub struct ReportFailedNvmePathsRequest {
    pub nodename: String,
    pub failed_paths: Vec<FailedNvmePath>,
}

/// The target NQNs in a request, in order.
pub open spec fn wire_nqns_of(paths: Seq<FailedNvmePath>) -> Seq<Seq<char>> {
    paths.map_values(|p: FailedNvmePath| p.target_nqn@)
}

impl ReportFailedNvmePathsRequest {
    /// The request that carries `info`: the same node, the same paths in the
    /// same order.
    pub fn from(info: &ReportFailedPaths) -> (request: Self)
        ensures
            request.nodename@ == info@.node,
            wire_nqns_of(request.failed_paths@) == info@.failed_paths,
    {
        let mut failed_paths: Vec<FailedNvmePath> = Vec::new();
        let mut i: usize = 0;
        while i < info.failed_paths.len()
            invariant
                i <= info.failed_paths.len(),
                failed_paths.len() == i,
                forall|j: int| 0 <= j < i ==> failed_paths[j].target_nqn@ == info.failed_paths[j]@,
            decreases info.failed_paths.len() - i,
        {
            failed_paths.push(FailedNvmePath::from(info.failed_paths[i].clone()));
            i += 1;
        }
        assert(wire_nqns_of(failed_paths@) =~= info@.failed_paths);
        Self { nodename: info.node(), failed_paths }
    }
}

/// The kinds of error a request is answered with.
#[derive(Debug, Clone, Copy, PartialEq, Eq, Structural)]
pub enum ReplyErrorKind {
    /// The request carries an argument that cannot be used.
    InvalidArgument,
    /// The request was sound, and serving it failed.
    Internal,
}

/// The kinds of resource an error is about.
#[derive(Debug, Clone, Copy, PartialEq, Eq, Structural)]
pub enum ResourceKind {
    Nexus,
}

/// An error reply over character sequences.
pub struct ReplyErrorView {
    pub kind: ReplyErrorKind,
    pub resource: ResourceKind,
    pub source: Seq<char>,
    pub extra: Seq<char>,
}

/// The error a request is answered with.
#[derive(Debug, PartialEq, Eq)]
pub struct ReplyError {
    pub kind: ReplyErrorKind,
    pub resource: ResourceKind,
    /// Who raises the error.
    pub source: String,
    /// What went wrong.
    pub extra: String,
}

impl View for ReplyError {
    type V = ReplyErrorView;

    open spec fn view(&self) -> ReplyErrorView {
        ReplyErrorView {
            kind: self.kind,
            resource: self.resource,
            source: self.source@,
            extra: self.extra@,
        }
    }
}

impl Clone for ReplyError {
    fn clone(&self) -> (copy: Self)
        ensures
            copy@ == self@,
    {
        ReplyError {
            kind: self.kind,
            resource: self.resource,
            source: self.source.clone(),
            extra: self.extra.clone(),
        }
    }
}

/// The error for an unusable argument named `arg_name`, raised by `source`.
pub open spec fn invalid_argument_error(
    resource: ResourceKind,
    arg_name: Seq<char>,
    source: Seq<char>,
) -> ReplyErrorView {
    ReplyErrorView {
        kind: ReplyErrorKind::InvalidArgument,
        resource,
        source,
        extra: "Invalid "@ + arg_name + " was provided"@,
    }
}

impl ReplyError {
    /// The caller handed in an argument, `arg_name`, that cannot be used.
    pub fn invalid_argument(resource: ResourceKind, arg_name: &str, error: String) -> (err: Self)
        ensures
            err@ == invalid_argument_error(resource, arg_name@, error@),
    {
        let extra = String::from_str("Invalid ").concat(arg_name).concat(" was provided");
        ReplyError { kind: ReplyErrorKind::InvalidArgument, resource, source: error, extra }
    }

    /// Serving the request failed on this side.
    pub fn internal_error(resource: ResourceKind, source: String, extra: String) -> (err: Self)
        ensures
            err@ == (ReplyErrorView {
                kind: ReplyErrorKind::Internal,
                resource,
                source: source@,
                extra: extra@,
            }),
    {
        ReplyError { kind: ReplyErrorKind::Internal, resource, source, extra }
    }
}

} // verus!
