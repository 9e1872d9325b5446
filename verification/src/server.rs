//! The node agent's side of a path replacement: which steps are taken, in
//! which order, and what the caller is told.

use crate::detector::{NvmeController, NvmePathCache};
use crate::text::str_starts_with;
use crate::transport::{invalid_argument_error, ReplyError, ReplyErrorKind, ReplyErrorView, ResourceKind};
use crate::uri::{parse_uri, parsed_uri, UriParts, UriPartsView};
use vstd::prelude::*;
use vstd::string::{StrSliceExecFns, StringExecFns};

verus! {

/// Common error source name for all gRPC errors in HA Node agent.
pub const HA_AGENT_ERR_SOURCE: &'static str = "HA Node agent gRPC server";

/// What is needed to connect to an NVMe-oF target.
#[derive(Debug, PartialEq, Eq)]
pub struct NvmfConnectArgs {
    /// Transport address: the host of the target.
    pub traddr: String,
    /// Transport service id: the port of the target.
    pub trsvcid: u16,
    /// Name of the target.
    pub nqn: String,
}

/// Connection arguments over character sequences.
pub struct NvmfConnectArgsView {
    pub traddr: Seq<char>,
    pub trsvcid: u16,
    pub nqn: Seq<char>,
}

impl View for NvmfConnectArgs {
    type V = NvmfConnectArgsView;

    open spec fn view(&self) -> NvmfConnectArgsView {
        NvmfConnectArgsView { traddr: self.traddr@, trsvcid: self.trsvcid, nqn: self.nqn@ }
    }
}

/// The connection arguments that a candidate location stands for.
///
/// The location must have parsed, name a host and a port, and have a path.
/// The target NQN is the path without its leading separator, and must begin
/// with `prefix`, the part that all targets of this product share.
pub open spec fn connection_args(parts: Option<UriPartsView>, prefix: Seq<char>) -> Option<
    NvmfConnectArgsView,
> {
    match parts {
        Some(p) => if p.host is Some && p.port is Some && p.path.len() > 0 && prefix.is_prefix_of(
            p.path.skip(1),
        ) {
            Some(NvmfConnectArgsView { traddr: p.host->0, trsvcid: p.port->0, nqn: p.path.skip(1) })
        } else {
            None
        },
        None => None,
    }
}

/// Connection arguments over character sequences, where there are any.
pub open spec fn args_view(args: Option<NvmfConnectArgs>) -> Option<NvmfConnectArgsView> {
    match args {
        Some(a) => Some(a@),
        None => None,
    }
}

/// Works out the connection arguments from the parts of a parsed location;
/// `None` where the location did not parse or is of no use.
pub fn connection_args_from(parts: Option<UriParts>, prefix: &str) -> (args: Option<
    NvmfConnectArgs,
>)
    ensures
        args_view(args) == connection_args(
            match parts {
                Some(p) => Some(p@),
                None => None,
            },
            prefix@,
        ),
{
    let parts = match parts {
        Some(parts) => parts,
        None => {
            return None;
        },
    };
    let UriParts { host, port, path } = parts;
    let host = match host {
        Some(host) => host,
        None => {
            return None;
        },
    };
    let port = match port {
        Some(port) => port,
        None => {
            return None;
        },
    };
    let len = path.as_str().unicode_len();
    if len == 0 {
        return None;
    }
    let nqn = path.as_str().substring_char(1, len);
    assert(nqn@ =~= path@.skip(1));

    // Check NQN of the subsystem to make sure it belongs to the product.
    if !str_starts_with(nqn, prefix) {
        return None;
    }
    Some(NvmfConnectArgs { traddr: host, trsvcid: port, nqn: String::from_str(nqn) })
}

/// A request to replace the path to a target.
#[derive(Debug, PartialEq, Eq)]
pub struct ReplacePathRequest {
    /// The target whose path failed.
    pub target_nqn: String,
    /// Location of the path to use in its place.
    pub new_path: String,
}

/// A replacement request over character sequences.
pub struct ReplacePathRequestView {
    pub target_nqn: Seq<char>,
    pub new_path: Seq<char>,
}

impl View for ReplacePathRequest {
    type V = ReplacePathRequestView;

    open spec fn view(&self) -> ReplacePathRequestView {
        ReplacePathRequestView { target_nqn: self.target_nqn@, new_path: self.new_path@ }
    }
}

/// How an attempt to disconnect a controller ended.
#[derive(Debug, PartialEq, Eq)]
pub enum DisconnectOutcome {
    /// The controller is gone.
    Disconnected,
    /// The cached controller no longer resolves to a system path.
    NoSystemPath,
    /// The subsystem behind the controller could not be read.
    NoSubsystem,
    /// The kernel refused or failed the disconnect; the cause, as text.
    Failed(String),
}

/// A disconnect outcome over character sequences.
pub enum DisconnectOutcomeView {
    Disconnected,
    NoSystemPath,
    NoSubsystem,
    Failed(Seq<char>),
}

impl View for DisconnectOutcome {
    type V = DisconnectOutcomeView;

    open spec fn view(&self) -> DisconnectOutcomeView {
        match self {
            DisconnectOutcome::Disconnected => DisconnectOutcomeView::Disconnected,
            DisconnectOutcome::NoSystemPath => DisconnectOutcomeView::NoSystemPath,
            DisconnectOutcome::NoSubsystem => DisconnectOutcomeView::NoSubsystem,
            DisconnectOutcome::Failed(cause) => DisconnectOutcomeView::Failed(cause@),
        }
    }
}

/// An internal error of the node agent that says `extra`.
pub open spec fn agent_error(extra: Seq<char>) -> ReplyErrorView {
    ReplyErrorView {
        kind: ReplyErrorKind::Internal,
        resource: ResourceKind::Nexus,
        source: HA_AGENT_ERR_SOURCE@,
        extra,
    }
}

/// The error that a disconnect attempt on the controller at `path` amounts
/// to, if any.
pub open spec fn disconnect_error(path: Seq<char>, outcome: DisconnectOutcomeView) -> Option<
    ReplyErrorView,
> {
    match outcome {
        DisconnectOutcomeView::Disconnected => None,
        DisconnectOutcomeView::NoSystemPath => Some(
            agent_error("Failed to get system path for controller"@),
        ),
        DisconnectOutcomeView::NoSubsystem => Some(
            agent_error("Failed to get NVMe subsystem for controller"@),
        ),
        DisconnectOutcomeView::Failed(cause) => Some(
            agent_error("Failed to disconnect NVMe controller "@ + path + ": "@ + cause),
        ),
    }
}

fn internal(extra: String) -> (err: ReplyError)
    ensures
        err@ == agent_error(extra@),
{
    ReplyError::internal_error(ResourceKind::Nexus, String::from_str(HA_AGENT_ERR_SOURCE), extra)
}

/// Disconnect cached NVMe controller: what the attempt is answered with.
pub fn disconnect_controller(ctrlr: &NvmeController, outcome: &DisconnectOutcome) -> (reply:
    Result<(), ReplyError>)
    ensures
        match reply {
            Ok(_) => disconnect_error(ctrlr@, outcome@) is None,
            Err(e) => disconnect_error(ctrlr@, outcome@) == Some(e@),
        },
{
    match outcome {
        DisconnectOutcome::Disconnected => Ok(()),
        DisconnectOutcome::NoSystemPath => Err(
            internal(String::from_str("Failed to get system path for controller")),
        ),
        DisconnectOutcome::NoSubsystem => Err(
            internal(String::from_str("Failed to get NVMe subsystem for controller")),
        ),
        DisconnectOutcome::Failed(cause) => {
            let extra = String::from_str("Failed to disconnect NVMe controller ").concat(
                ctrlr.path.as_str(),
            ).concat(": ").concat(cause.as_str());
            Err(internal(extra))
        },
    }
}

/// A path replacement under way: each value says what has to be done next.
///
/// The steps touch the kernel, so the caller takes them and reports how each
/// one went; the order, and what the requester is told, are decided here.
#[derive(Debug, PartialEq, Eq)]
pub enum ReplacePath {
    /// Another replacement holds the target: wait until one is released, and
    /// report that.
    Wait { args: NvmfConnectArgs, target_nqn: String },
    /// Hand `args` to the kernel interface and report whether it accepts
    /// them. Nothing has been looked up or connected yet.
    Prepare { args: NvmfConnectArgs, target_nqn: String },
    /// Connect with `args`, which were accepted. `failed` is the controller of
    /// the broken path, left alone for now.
    Connect { args: NvmfConnectArgs, failed: NvmeController, target_nqn: String },
    /// The new path is up: disconnect `failed`.
    Disconnect { failed: NvmeController, target_nqn: String },
    /// Answer the requester with `result`. `warning` holds what went wrong
    /// with the disconnect, where it did and the request succeeded all the
    /// same.
    Done { result: Result<(), ReplyError>, warning: Option<ReplyError> },
}

/// A path replacement over character sequences.
pub enum ReplacePathView {
    Wait { args: NvmfConnectArgsView, target_nqn: Seq<char> },
    Prepare { args: NvmfConnectArgsView, target_nqn: Seq<char> },
    Connect { args: NvmfConnectArgsView, failed: Seq<char>, target_nqn: Seq<char> },
    Disconnect { failed: Seq<char>, target_nqn: Seq<char> },
    Done { result: Result<(), ReplyErrorView>, warning: Option<ReplyErrorView> },
}

impl View for ReplacePath {
    type V = ReplacePathView;

    open spec fn view(&self) -> ReplacePathView {
        match self {
            ReplacePath::Wait { args, target_nqn } => ReplacePathView::Wait {
                args: args@,
                target_nqn: target_nqn@,
            },
            ReplacePath::Prepare { args, target_nqn } => ReplacePathView::Prepare {
                args: args@,
                target_nqn: target_nqn@,
            },
            ReplacePath::Connect { args, failed, target_nqn } => ReplacePathView::Connect {
                args: args@,
                failed: failed@,
                target_nqn: target_nqn@,
            },
            ReplacePath::Disconnect { failed, target_nqn } => ReplacePathView::Disconnect {
                failed: failed@,
                target_nqn: target_nqn@,
            },
            ReplacePath::Done { result, warning } => ReplacePathView::Done {
                result: match result {
                    Ok(_) => Ok(()),
                    Err(e) => Err(e@),
                },
                warning: match warning {
                    Some(w) => Some(w@),
                    None => None,
                },
            },
        }
    }
}

/// What the caller reports after taking a step.
#[derive(Debug, PartialEq, Eq)]
pub enum ReplacePathEvent {
    /// A replacement has ended and given its target back.
    TargetReleased,
    /// The kernel interface accepts the connection arguments.
    ArgsAccepted,
    /// The kernel interface cannot use the connection arguments.
    ArgsRejected,
    /// The connection to the new path stands.
    Connected,
    /// The attempt to connect failed.
    ConnectFailed,
    /// The attempt to connect did not end in time.
    ConnectTimedOut,
    /// The attempt to disconnect the old path ended.
    DisconnectEnded(DisconnectOutcome),
}

/// An event over character sequences.
pub enum ReplacePathEventView {
    TargetReleased,
    ArgsAccepted,
    ArgsRejected,
    Connected,
    ConnectFailed,
    ConnectTimedOut,
    DisconnectEnded(DisconnectOutcomeView),
}

impl View for ReplacePathEvent {
    type V = ReplacePathEventView;

    open spec fn view(&self) -> ReplacePathEventView {
        match self {
            ReplacePathEvent::TargetReleased => ReplacePathEventView::TargetReleased,
            ReplacePathEvent::ArgsAccepted => ReplacePathEventView::ArgsAccepted,
            ReplacePathEvent::ArgsRejected => ReplacePathEventView::ArgsRejected,
            ReplacePathEvent::Connected => ReplacePathEventView::Connected,
            ReplacePathEvent::ConnectFailed => ReplacePathEventView::ConnectFailed,
            ReplacePathEvent::ConnectTimedOut => ReplacePathEventView::ConnectTimedOut,
            ReplacePathEvent::DisconnectEnded(outcome) => ReplacePathEventView::DisconnectEnded(
                outcome@,
            ),
        }
    }
}

/// The reply to a request whose candidate location is of no use.
pub open spec fn rejected() -> ReplacePathView {
    ReplacePathView::Done {
        result: Err(
            invalid_argument_error(ResourceKind::Nexus, "new_path"@, HA_AGENT_ERR_SOURCE@),
        ),
        warning: None,
    }
}

/// The reply to a request that failed on this side, with what went wrong.
pub open spec fn failed_with(extra: Seq<char>) -> ReplacePathView {
    ReplacePathView::Done { result: Err(agent_error(extra)), warning: None }
}

/// The target that a replacement holds: from the moment it is admitted until
/// it is answered, no other replacement may touch the paths of this target.
pub open spec fn claim(state: ReplacePathView) -> Option<Seq<char>> {
    match state {
        ReplacePathView::Prepare { target_nqn, .. } => Some(target_nqn),
        ReplacePathView::Connect { target_nqn, .. } => Some(target_nqn),
        ReplacePathView::Disconnect { target_nqn, .. } => Some(target_nqn),
        ReplacePathView::Wait { .. } => None,
        ReplacePathView::Done { .. } => None,
    }
}

/// Where a replacement with usable arguments stands when it asks for its
/// target: it waits while one of the replacements in `held` has it.
pub open spec fn admitted(
    held: Set<Seq<char>>,
    args: NvmfConnectArgsView,
    target_nqn: Seq<char>,
) -> ReplacePathView {
    if held.contains(target_nqn) {
        ReplacePathView::Wait { args, target_nqn }
    } else {
        ReplacePathView::Prepare { args, target_nqn }
    }
}

/// Where a replacement starts, given the connection arguments that the
/// candidate location yields: with unusable arguments it is over at once.
pub open spec fn started(
    held: Set<Seq<char>>,
    args: Option<NvmfConnectArgsView>,
    target_nqn: Seq<char>,
) -> ReplacePathView {
    match args {
        Some(args) => admitted(held, args, target_nqn),
        None => rejected(),
    }
}

/// Where a replacement stands after `event`, given the controllers that
/// `cache` knows and the targets that are `held`.
///
/// A waiting replacement asks for its target again when one was released.
/// Accepted arguments lead to the lookup of the failed controller and, where
/// it is known, to the connect. A connection that stands leads to the
/// disconnect of the failed controller; however that ends, the request has
/// succeeded. An event that does not answer the step that is due changes
/// nothing.
pub open spec fn advanced(
    cache: Map<Seq<char>, Seq<char>>,
    held: Set<Seq<char>>,
    state: ReplacePathView,
    event: ReplacePathEventView,
) -> ReplacePathView {
    match state {
        ReplacePathView::Wait { args, target_nqn } => match event {
            ReplacePathEventView::TargetReleased => admitted(held, args, target_nqn),
            _ => state,
        },
        ReplacePathView::Prepare { args, target_nqn } => match event {
            ReplacePathEventView::ArgsAccepted => if cache.contains_key(target_nqn) {
                ReplacePathView::Connect { args, failed: cache[target_nqn], target_nqn }
            } else {
                failed_with("Failed to lookup controller"@)
            },
            ReplacePathEventView::ArgsRejected => rejected(),
            _ => state,
        },
        ReplacePathView::Connect { args, failed, target_nqn } => match event {
            ReplacePathEventView::Connected => ReplacePathView::Disconnect { failed, target_nqn },
            ReplacePathEventView::ConnectFailed | ReplacePathEventView::ConnectTimedOut => failed_with(
                "Failed to connect to NVMe target"@,
            ),
            _ => state,
        },
        ReplacePathView::Disconnect { failed, target_nqn } => match event {
            ReplacePathEventView::DisconnectEnded(outcome) => ReplacePathView::Done {
                result: Ok(()),
                warning: disconnect_error(failed, outcome),
            },
            _ => state,
        },
        ReplacePathView::Done { .. } => state,
    }
}

/// The targets that are held after a replacement went from holding `before`
/// to holding `after`: a target is taken when the replacement is admitted and
/// given back when it is answered.
pub open spec fn held_after(
    held: Set<Seq<char>>,
    before: Option<Seq<char>>,
    after: Option<Seq<char>>,
) -> Set<Seq<char>> {
    match before {
        None => match after {
            Some(target) => held.insert(target),
            None => held,
        },
        Some(target) => match after {
            Some(_) => held,
            None => held.remove(target),
        },
    }
}

/// One replacement among the others: where it stands, and the targets that
/// are held by it and the rest.
pub struct Progress {
    pub state: ReplacePathView,
    pub held: Set<Seq<char>>,
}

/// The progress after `event`.
pub open spec fn step(
    cache: Map<Seq<char>, Seq<char>>,
    at: Progress,
    event: ReplacePathEventView,
) -> Progress {
    let next = advanced(cache, at.held, at.state, event);
    Progress { state: next, held: held_after(at.held, claim(at.state), claim(next)) }
}

/// The progress after the events `events`, first to last, while no other
/// replacement moves.
pub open spec fn run(
    cache: Map<Seq<char>, Seq<char>>,
    at: Progress,
    events: Seq<ReplacePathEventView>,
) -> Progress
    decreases events.len(),
{
    if events.len() == 0 {
        at
    } else {
        step(cache, run(cache, at, events.drop_last()), events.last())
    }
}

fn reject() -> (state: ReplacePath)
    ensures
        state@ == rejected(),
{
    ReplacePath::Done {
        result: Err(
            ReplyError::invalid_argument(
                ResourceKind::Nexus,
                "new_path",
                String::from_str(HA_AGENT_ERR_SOURCE),
            ),
        ),
        warning: None,
    }
}

fn fail_with(extra: &str) -> (state: ReplacePath)
    ensures
        state@ == failed_with(extra@),
{
    ReplacePath::Done { result: Err(internal(String::from_str(extra))), warning: None }
}

/// The targets for which a path replacement is under way. Two replacements
/// for one target must not run at the same time: a request enters only while
/// no other holds its target, and leaves when it is answered.
#[derive(Debug)]
pub struct TargetLocks {
    held: Vec<String>,
}

impl View for TargetLocks {
    type V = Set<Seq<char>>;

    closed spec fn view(&self) -> Set<Seq<char>> {
        Set::new(|nqn: Seq<char>| exists|i: int| 0 <= i < self.held.len() && self.held[i]@ == nqn)
    }
}

impl TargetLocks {
    /// No target is held twice.
    pub closed spec fn wf(&self) -> bool {
        forall|i: int, j: int| 0 <= i < j < self.held.len() ==> self.held[i]@ != self.held[j]@
    }

    /// No replacement is under way.
    pub fn new() -> (locks: Self)
        ensures
            locks.wf(),
            locks@ == Set::<Seq<char>>::empty(),
    {
        let locks = TargetLocks { held: Vec::new() };
        assert(locks@ =~= Set::<Seq<char>>::empty());
        locks
    }

    fn position(&self, nqn: &str) -> (found: Option<usize>)
        ensures
            match found {
                Some(at) => at < self.held.len() && self.held[at as int]@ == nqn@,
                None => !self@.contains(nqn@),
            },
    {
        let target = nqn.to_owned();
        let mut i: usize = 0;
        while i < self.held.len()
            invariant
                i <= self.held.len(),
                target@ == nqn@,
                forall|j: int| 0 <= j < i ==> self.held[j]@ != nqn@,
            decreases self.held.len() - i,
        {
            if self.held[i] == target {
                return Some(i);
            }
            i += 1;
        }
        None
    }

    /// Whether a replacement for `nqn` is under way.
    pub fn is_held(&self, nqn: &str) -> (held: bool)
        ensures
            held == self@.contains(nqn@),
    {
        match self.position(nqn) {
            Some(at) => {
                assert(self.held[at as int]@ == nqn@);
                true
            },
            None => false,
        }
    }

    /// Takes the target for a replacement, unless another one holds it.
    pub fn try_enter(&mut self, nqn: &str) -> (entered: bool)
        requires
            old(self).wf(),
        ensures
            final(self).wf(),
            entered == !old(self)@.contains(nqn@),
            final(self)@ == old(self)@.insert(nqn@),
    {
        match self.position(nqn) {
            Some(at) => {
                assert(self.held[at as int]@ == nqn@);
                assert(self@ =~= old(self)@.insert(nqn@));
                false
            },
            None => {
                self.held.push(String::from_str(nqn));
                assert forall|k: Seq<char>| self@.contains(k) == old(self)@.insert(nqn@).contains(
                    k,
                ) by {
                    if self@.contains(k) {
                        let i = choose|i: int| 0 <= i < self.held.len() && self.held[i]@ == k;
                        if i < old(self).held.len() {
                            assert(old(self).held[i]@ == k);
                        }
                    }
                    if old(self)@.contains(k) {
                        let i = choose|i: int|
                            0 <= i < old(self).held.len() && old(self).held[i]@ == k;
                        assert(self.held[i]@ == k);
                    }
                    if k == nqn@ {
                        assert(self.held[self.held.len() - 1]@ == k);
                    }
                }
                assert(self@ =~= old(self)@.insert(nqn@));
                true
            },
        }
    }

    /// Gives the target back when its replacement has been answered.
    pub fn leave(&mut self, nqn: &str)
        requires
            old(self).wf(),
        ensures
            final(self).wf(),
            final(self)@ == old(self)@.remove(nqn@),
    {
        match self.position(nqn) {
            Some(at) => {
                self.held.remove(at);
                assert forall|k: Seq<char>| self@.contains(k) == old(self)@.remove(nqn@).contains(
                    k,
                ) by {
                    if self@.contains(k) {
                        let i = choose|i: int| 0 <= i < self.held.len() && self.held[i]@ == k;
                        if i < at {
                            assert(old(self).held[i]@ == k);
                        } else {
                            assert(old(self).held[i + 1]@ == k);
                        }
                    }
                    if old(self)@.contains(k) && k != nqn@ {
                        let i = choose|i: int|
                            0 <= i < old(self).held.len() && old(self).held[i]@ == k;
                        if i < at {
                            assert(self.held[i]@ == k);
                        } else {
                            assert(self.held[i - 1]@ == k);
                        }
                    }
                }
                assert(self@ =~= old(self)@.remove(nqn@));
            },
            None => {
                assert(self@ =~= old(self)@.remove(nqn@));
            },
        }
    }
}

/// gRPC server implementation for HA Node agent.
#[derive(Debug)]
pub struct NodeAgentSvc {
    path_cache: NvmePathCache,
    nqn_prefix: String,
    locks: TargetLocks,
}

impl NodeAgentSvc {
    /// The controllers this service knows, by target NQN.
    pub closed spec fn cache(&self) -> Map<Seq<char>, Seq<char>> {
        self.path_cache@
    }

    /// What the NQN of every target of this product begins with.
    pub closed spec fn prefix(&self) -> Seq<char> {
        self.nqn_prefix@
    }

    /// The targets whose paths are being replaced.
    pub closed spec fn held(&self) -> Set<Seq<char>> {
        self.locks@
    }

    /// The service keeps its books in order.
    pub closed spec fn wf(&self) -> bool {
        self.locks.wf()
    }

    pub fn new(path_cache: NvmePathCache, nqn_prefix: String) -> (svc: Self)
        ensures
            svc.wf(),
            svc.cache() == path_cache@,
            svc.prefix() == nqn_prefix@,
            svc.held() == Set::<Seq<char>>::empty(),
    {
        Self { path_cache, nqn_prefix, locks: TargetLocks::new() }
    }

    /// Puts a fresh snapshot of the controllers in place of the current one,
    /// all at once.
    pub fn set_path_cache(&mut self, path_cache: NvmePathCache)
        ensures
            final(self).wf() == old(self).wf(),
            final(self).cache() == path_cache@,
            final(self).prefix() == old(self).prefix(),
            final(self).held() == old(self).held(),
    {
        self.path_cache = path_cache;
    }

    /// Whether a replacement holds the target `nqn`.
    pub fn is_held(&self, nqn: &str) -> (held: bool)
        ensures
            held == self.held().contains(nqn@),
    {
        self.locks.is_held(nqn)
    }

    /// Parses the candidate location `new_path` and checks that it names a
    /// target of this product.
    pub fn get_nvmf_connection_args(&self, new_path: &str) -> (args: Option<NvmfConnectArgs>)
        ensures
            args_view(args) == connection_args(parsed_uri(new_path@), self.prefix()),
    {
        connection_args_from(parse_uri(new_path), self.nqn_prefix.as_str())
    }

    fn claim_target(&mut self, args: NvmfConnectArgs, target_nqn: String) -> (state: ReplacePath)
        requires
            old(self).wf(),
        ensures
            final(self).wf(),
            final(self).cache() == old(self).cache(),
            final(self).prefix() == old(self).prefix(),
            state@ == admitted(old(self).held(), args@, target_nqn@),
            final(self).held() == held_after(old(self).held(), None, claim(state@)),
    {
        if self.locks.try_enter(target_nqn.as_str()) {
            ReplacePath::Prepare { args, target_nqn }
        } else {
            assert(old(self).held().insert(target_nqn@) =~= old(self).held());
            ReplacePath::Wait { args, target_nqn }
        }
    }

    /// Starts a replacement for `target_nqn` from the connection arguments
    /// that the candidate location of the request yielded.
    pub fn begin(&mut self, args: Option<NvmfConnectArgs>, target_nqn: &str) -> (state:
        ReplacePath)
        requires
            old(self).wf(),
        ensures
            final(self).wf(),
            final(self).cache() == old(self).cache(),
            final(self).prefix() == old(self).prefix(),
            state@ == started(old(self).held(), args_view(args), target_nqn@),
            final(self).held() == held_after(old(self).held(), None, claim(state@)),
    {
        match args {
            Some(args) => self.claim_target(args, String::from_str(target_nqn)),
            None => reject(),
        }
    }

    /// Takes up a request to replace a failed path.
    ///
    /// The candidate location is validated before anything else happens: a
    /// request that fails here is answered at once. A request that passes
    /// takes its target, or waits for it.
    pub fn replace_path(&mut self, request: &ReplacePathRequest) -> (state: ReplacePath)
        requires
            old(self).wf(),
        ensures
            final(self).wf(),
            final(self).cache() == old(self).cache(),
            final(self).prefix() == old(self).prefix(),
            state@ == started(
                old(self).held(),
                connection_args(parsed_uri(request@.new_path), old(self).prefix()),
                request@.target_nqn,
            ),
            final(self).held() == held_after(old(self).held(), None, claim(state@)),
    {
        // Parse URI in advance to make sure it's well-formed before using it.
        let args = self.get_nvmf_connection_args(request.new_path.as_str());
        self.begin(args, request.target_nqn.as_str())
    }

    /// Takes a replacement one step further.
    pub fn advance(&mut self, state: ReplacePath, event: &ReplacePathEvent) -> (next: ReplacePath)
        requires
            old(self).wf(),
        ensures
            final(self).wf(),
            final(self).cache() == old(self).cache(),
            final(self).prefix() == old(self).prefix(),
            next@ == advanced(old(self).cache(), old(self).held(), state@, event@),
            final(self).held() == held_after(old(self).held(), claim(state@), claim(next@)),
    {
        match state {
            ReplacePath::Wait { args, target_nqn } => match event {
                ReplacePathEvent::TargetReleased => self.claim_target(args, target_nqn),
                _ => ReplacePath::Wait { args, target_nqn },
            },
            ReplacePath::Prepare { args, target_nqn } => match event {
                ReplacePathEvent::ArgsAccepted => {
                    // Lookup NVMe controller whose path has failed.
                    match self.path_cache.lookup_controller(target_nqn.as_str()) {
                        Some(failed) => ReplacePath::Connect { args, failed, target_nqn },
                        None => {
                            self.locks.leave(target_nqn.as_str());
                            fail_with("Failed to lookup controller")
                        },
                    }
                },
                ReplacePathEvent::ArgsRejected => {
                    self.locks.leave(target_nqn.as_str());
                    reject()
                },
                _ => ReplacePath::Prepare { args, target_nqn },
            },
            ReplacePath::Connect { args, failed, target_nqn } => match event {
                // Once the additional path is created, client I/O resumes.
                ReplacePathEvent::Connected => ReplacePath::Disconnect { failed, target_nqn },
                ReplacePathEvent::ConnectFailed | ReplacePathEvent::ConnectTimedOut => {
                    self.locks.leave(target_nqn.as_str());
                    fail_with("Failed to connect to NVMe target")
                },
                _ => ReplacePath::Connect { args, failed, target_nqn },
            },
            ReplacePath::Disconnect { failed, target_nqn } => match event {
                // Errors under disconnection are not critical: the healthy
                // path exists, so the call has done what it was asked for.
                ReplacePathEvent::DisconnectEnded(outcome) => {
                    let warning = match disconnect_controller(&failed, outcome) {
                        Ok(_) => None,
                        Err(e) => Some(e),
                    };
                    self.locks.leave(target_nqn.as_str());
                    ReplacePath::Done { result: Ok(()), warning }
                },
                _ => ReplacePath::Disconnect { failed, target_nqn },
            },
            ReplacePath::Done { result, warning } => ReplacePath::Done { result, warning },
        }
    }
}

proof fn lemma_run_from_first(
    cache: Map<Seq<char>, Seq<char>>,
    at: Progress,
    events: Seq<ReplacePathEventView>,
)
    requires
        events.len() > 0,
    ensures
        run(cache, at, events) == run(cache, step(cache, at, events[0]), events.skip(1)),
    decreases events.len(),
{
    if events.len() == 1 {
        assert(events.drop_last() =~= Seq::<ReplacePathEventView>::empty());
        assert(events.skip(1) =~= Seq::<ReplacePathEventView>::empty());
    } else {
        lemma_run_from_first(cache, at, events.drop_last());
        assert(events.drop_last().skip(1) =~= events.skip(1).drop_last());
        assert(events.drop_last()[0] == events[0]);
        assert(events.skip(1).last() == events.last());
    }
}

/// A replacement that has been answered stays as it is, whatever is reported
/// afterwards: no further step is asked for and no target is taken.
pub proof fn law_done_is_final(
    cache: Map<Seq<char>, Seq<char>>,
    at: Progress,
    events: Seq<ReplacePathEventView>,
)
    requires
        at.state is Done,
    ensures
        run(cache, at, events) == at,
    decreases events.len(),
{
    if events.len() > 0 {
        law_done_is_final(cache, at, events.drop_last());
    }
}

/// A candidate location whose path does not carry the prefix of this product
/// is answered with an invalid-argument error, and the replacement is over
/// before it began: no target is taken and, whatever is reported, neither a
/// connect nor a disconnect is ever asked for.
pub proof fn law_foreign_target_is_rejected(
    svc: NodeAgentSvc,
    request: ReplacePathRequest,
    parts: UriPartsView,
    events: Seq<ReplacePathEventView>,
)
    requires
        parsed_uri(request@.new_path) == Some(parts),
        !svc.prefix().is_prefix_of(parts.path.skip(1)),
    ensures
        ({
            let begun = started(
                svc.held(),
                connection_args(parsed_uri(request@.new_path), svc.prefix()),
                request@.target_nqn,
            );
            let at = Progress { state: begun, held: svc.held() };
            &&& begun == rejected()
            &&& rejected() matches ReplacePathView::Done { result: Err(e), .. } && e.kind
                == ReplyErrorKind::InvalidArgument
            &&& held_after(svc.held(), None, claim(begun)) == svc.held()
            &&& run(svc.cache(), at, events) == at
        }),
{
    law_done_is_final(svc.cache(), Progress { state: rejected(), held: svc.held() }, events);
}

/// A connect that fails, or does not end in time, is answered with an
/// internal error and gives the target back; nothing that is reported
/// afterwards leads to a disconnect.
pub proof fn law_failed_connect_never_disconnects(
    cache: Map<Seq<char>, Seq<char>>,
    held: Set<Seq<char>>,
    args: NvmfConnectArgsView,
    failed: Seq<char>,
    target_nqn: Seq<char>,
    events: Seq<ReplacePathEventView>,
)
    requires
        events.len() > 0,
        events[0] is ConnectFailed || events[0] is ConnectTimedOut,
    ensures
        ({
            let at = Progress { state: ReplacePathView::Connect { args, failed, target_nqn }, held };
            let end = run(cache, at, events);
            &&& end.state == failed_with("Failed to connect to NVMe target"@)
            &&& end.state matches ReplacePathView::Done { result: Err(e), .. } && e.kind
                == ReplyErrorKind::Internal
            &&& end.held == held.remove(target_nqn)
        }),
{
    let at = Progress { state: ReplacePathView::Connect { args, failed, target_nqn }, held };
    lemma_run_from_first(cache, at, events);
    law_done_is_final(cache, step(cache, at, events[0]), events.skip(1));
}

/// Connect first, disconnect after. A replacement is admitted only while no
/// other holds its target; a connect is asked for only once the arguments
/// were accepted and the failed controller was found; a disconnect only once
/// the connection stands.
pub proof fn law_steps_keep_their_order(
    cache: Map<Seq<char>, Seq<char>>,
    held: Set<Seq<char>>,
    state: ReplacePathView,
    event: ReplacePathEventView,
)
    ensures
        advanced(cache, held, state, event) is Prepare ==> state is Prepare || (state is Wait
            && event is TargetReleased && !held.contains(state->Wait_target_nqn)),
        advanced(cache, held, state, event) is Connect ==> state is Connect || (state is Prepare
            && event is ArgsAccepted && cache.contains_key(state->Prepare_target_nqn)),
        advanced(cache, held, state, event) is Disconnect ==> state is Disconnect || (state is Connect
            && event is Connected),
        advanced(cache, held, state, event) is Wait ==> state is Wait,
{
}

/// Once the new path is connected the request succeeds, however the
/// disconnect of the old one ends: a failure there is kept as a warning. The
/// target is given back.
pub proof fn law_failed_disconnect_is_success(
    cache: Map<Seq<char>, Seq<char>>,
    held: Set<Seq<char>>,
    args: NvmfConnectArgsView,
    failed: Seq<char>,
    target_nqn: Seq<char>,
    outcome: DisconnectOutcomeView,
)
    ensures
        run(
            cache,
            Progress { state: ReplacePathView::Connect { args, failed, target_nqn }, held },
            seq![ReplacePathEventView::Connected, ReplacePathEventView::DisconnectEnded(outcome)],
        ) == (Progress {
            state: ReplacePathView::Done {
                result: Ok(()),
                warning: disconnect_error(failed, outcome),
            },
            held: held.remove(target_nqn),
        }),
        outcome !is Disconnected ==> disconnect_error(failed, outcome) is Some,
{
    let events = seq![
        ReplacePathEventView::Connected,
        ReplacePathEventView::DisconnectEnded(outcome),
    ];
    let first = Progress { state: ReplacePathView::Connect { args, failed, target_nqn }, held };
    assert(events.drop_last() =~= seq![ReplacePathEventView::Connected]);
    assert(events.drop_last().drop_last() =~= Seq::<ReplacePathEventView>::empty());
    assert(run(cache, first, events.drop_last().drop_last()) == first);
    assert(run(cache, first, events.drop_last()) == Progress {
        state: ReplacePathView::Disconnect { failed, target_nqn },
        held,
    });
}

/// One replacement per target. While a target is held, a request for it
/// waits, whatever is reported: it is not admitted, so it asks for no
/// connect and no disconnect, and the held targets stay as they are.
pub proof fn law_one_replacement_per_target(
    cache: Map<Seq<char>, Seq<char>>,
    held: Set<Seq<char>>,
    args: NvmfConnectArgsView,
    target_nqn: Seq<char>,
    events: Seq<ReplacePathEventView>,
)
    requires
        held.contains(target_nqn),
    ensures
        started(held, Some(args), target_nqn) == (ReplacePathView::Wait { args, target_nqn }),
        run(cache, Progress { state: ReplacePathView::Wait { args, target_nqn }, held }, events)
            == (Progress { state: ReplacePathView::Wait { args, target_nqn }, held }),
    decreases events.len(),
{
    if events.len() > 0 {
        law_one_replacement_per_target(cache, held, args, target_nqn, events.drop_last());
    }
}

/// A replacement keeps its target from the step that admits it to the step
/// that answers it, and gives it back with the answer.
pub proof fn law_target_is_held_until_answered(
    cache: Map<Seq<char>, Seq<char>>,
    at: Progress,
    event: ReplacePathEventView,
)
    requires
        claim(at.state) is Some,
    ensures
        ({
            let next = step(cache, at, event);
            let target = claim(at.state)->0;
            ||| claim(next.state) == Some(target) && next.held == at.held
            ||| next.state is Done && next.held == at.held.remove(target)
        }),
{
}

} // verus!
