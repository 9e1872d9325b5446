use ha_node::detector::{CachedController, NvmeController, NvmePathCache};
use ha_node::server::{
    connection_args_from, disconnect_controller, DisconnectOutcome, NodeAgentSvc,
    NvmfConnectArgs, ReplacePath, ReplacePathEvent, ReplacePathRequest, TargetLocks,
    HA_AGENT_ERR_SOURCE,
};
use ha_node::transport::{ReplyError, ReplyErrorKind, ResourceKind};
use ha_node::uri::UriParts;

const PREFIX: &str = "nqn.2021-01.example";
const T0: &str = "nqn.2021-01.example:t0";
const NEW_PATH: &str = "nvmf://10.0.0.2:4420/nqn.2021-01.example:t0";

fn cache() -> NvmePathCache {
    NvmePathCache::from_snapshot(vec![CachedController {
        nqn: T0.to_string(),
        controller: NvmeController { path: "nvme0".to_string() },
    }])
}

fn svc() -> NodeAgentSvc {
    NodeAgentSvc::new(cache(), PREFIX.to_string())
}

fn request(target: &str, new_path: &str) -> ReplacePathRequest {
    ReplacePathRequest { target_nqn: target.to_string(), new_path: new_path.to_string() }
}

fn args() -> NvmfConnectArgs {
    NvmfConnectArgs { traddr: "10.0.0.2".to_string(), trsvcid: 4420, nqn: T0.to_string() }
}

fn nvme0() -> NvmeController {
    NvmeController { path: "nvme0".to_string() }
}

fn internal(extra: &str) -> ReplyError {
    ReplyError {
        kind: ReplyErrorKind::Internal,
        resource: ResourceKind::Nexus,
        source: "HA Node agent gRPC server".to_string(),
        extra: extra.to_string(),
    }
}

fn invalid_new_path() -> ReplacePath {
    ReplacePath::Done {
        result: Err(ReplyError {
            kind: ReplyErrorKind::InvalidArgument,
            resource: ResourceKind::Nexus,
            source: "HA Node agent gRPC server".to_string(),
            extra: "Invalid new_path was provided".to_string(),
        }),
        warning: None,
    }
}

#[test]
fn error_source_names_the_agent() {
    assert_eq!(HA_AGENT_ERR_SOURCE, "HA Node agent gRPC server");
}

#[test]
fn location_yields_host_port_and_target() {
    assert_eq!(svc().get_nvmf_connection_args(NEW_PATH), Some(args()));
    assert_eq!(
        svc().get_nvmf_connection_args("nvmf://storage-3.example.org:8420/nqn.2021-01.example:vol-7"),
        Some(NvmfConnectArgs {
            traddr: "storage-3.example.org".to_string(),
            trsvcid: 8420,
            nqn: "nqn.2021-01.example:vol-7".to_string(),
        })
    );
}

#[test]
fn location_query_is_not_part_of_the_target() {
    assert_eq!(
        svc().get_nvmf_connection_args("nvmf://10.0.0.2:4420/nqn.2021-01.example:t0?hostnqn=x"),
        Some(args())
    );
}

#[test]
fn location_without_the_prefix_is_refused() {
    assert_eq!(svc().get_nvmf_connection_args("nvmf://10.0.0.2:4420/nqn.2019-05.other:t0"), None);
    assert_eq!(svc().get_nvmf_connection_args("nvmf://10.0.0.2:4420/"), None);
    assert_eq!(svc().get_nvmf_connection_args("nvmf://10.0.0.2:4420"), None);
    assert_eq!(svc().get_nvmf_connection_args("nvmf://10.0.0.2:4420/x/nqn.2021-01.example:t0"), None);
}

#[test]
fn location_needs_host_and_port() {
    assert_eq!(svc().get_nvmf_connection_args("nvmf://10.0.0.2/nqn.2021-01.example:t0"), None);
    assert_eq!(svc().get_nvmf_connection_args("/nqn.2021-01.example:t0"), None);
    assert_eq!(svc().get_nvmf_connection_args("*"), None);
}

#[test]
fn location_without_a_path_is_refused() {
    // A bare authority has a host and a port and no path at all.
    assert_eq!(svc().get_nvmf_connection_args("10.0.0.2:4420"), None);
    let open = NodeAgentSvc::new(cache(), String::new());
    assert_eq!(open.get_nvmf_connection_args("10.0.0.2:4420"), None);
}

#[test]
fn location_that_is_no_uri_is_refused() {
    assert_eq!(svc().get_nvmf_connection_args(""), None);
    assert_eq!(svc().get_nvmf_connection_args("nvmf://10.0.0.2:4420/nqn 2021"), None);
    assert_eq!(svc().get_nvmf_connection_args("nvmf://10.0.0.2:port/nqn.2021-01.example:t0"), None);
    assert_eq!(svc().get_nvmf_connection_args("nvmf://"), None);
}

#[test]
fn empty_prefix_admits_every_target() {
    let open = NodeAgentSvc::new(cache(), String::new());
    assert_eq!(
        open.get_nvmf_connection_args("nvmf://10.0.0.2:4420/anything"),
        Some(NvmfConnectArgs {
            traddr: "10.0.0.2".to_string(),
            trsvcid: 4420,
            nqn: "anything".to_string(),
        })
    );
    assert_eq!(
        open.get_nvmf_connection_args("nvmf://10.0.0.2:4420"),
        Some(NvmfConnectArgs { traddr: "10.0.0.2".to_string(), trsvcid: 4420, nqn: String::new() })
    );
}

#[test]
fn arguments_from_parts() {
    let parts = |host: Option<&str>, port: Option<u16>, path: &str| {
        Some(UriParts { host: host.map(|h| h.to_string()), port, path: path.to_string() })
    };
    assert_eq!(connection_args_from(None, PREFIX), None);
    assert_eq!(
        connection_args_from(parts(Some("10.0.0.2"), Some(4420), "/nqn.2021-01.example:t0"), PREFIX),
        Some(args())
    );
    assert_eq!(
        connection_args_from(parts(None, Some(4420), "/nqn.2021-01.example:t0"), PREFIX),
        None
    );
    assert_eq!(
        connection_args_from(parts(Some("10.0.0.2"), None, "/nqn.2021-01.example:t0"), PREFIX),
        None
    );
    assert_eq!(connection_args_from(parts(Some("10.0.0.2"), Some(4420), ""), PREFIX), None);
    assert_eq!(connection_args_from(parts(Some("10.0.0.2"), Some(4420), ""), ""), None);
    assert_eq!(
        connection_args_from(parts(Some("10.0.0.2"), Some(4420), "nqn.2021-01.example:t0"), PREFIX),
        None
    );
    assert_eq!(
        connection_args_from(parts(Some("h"), Some(1), "/nqn.2021-01.example"), PREFIX),
        Some(NvmfConnectArgs { traddr: "h".to_string(), trsvcid: 1, nqn: PREFIX.to_string() })
    );
    assert_eq!(connection_args_from(parts(Some("h"), Some(1), "/nqn.2021-01.exampl"), PREFIX), None);
}

fn prepare(target: &str) -> ReplacePath {
    ReplacePath::Prepare { args: args(), target_nqn: target.to_string() }
}

fn wait(target: &str) -> ReplacePath {
    ReplacePath::Wait { args: args(), target_nqn: target.to_string() }
}

fn connect() -> ReplacePath {
    ReplacePath::Connect { args: args(), failed: nvme0(), target_nqn: T0.to_string() }
}

fn disconnect() -> ReplacePath {
    ReplacePath::Disconnect { failed: nvme0(), target_nqn: T0.to_string() }
}

fn failed_with(extra: &str) -> ReplacePath {
    ReplacePath::Done { result: Err(internal(extra)), warning: None }
}

#[test]
fn scenario_replace_path_succeeds_though_disconnect_fails() {
    let mut svc = svc();
    let state = svc.replace_path(&request(T0, NEW_PATH));
    assert_eq!(state, prepare(T0));
    assert!(svc.is_held(T0));

    let state = svc.advance(state, &ReplacePathEvent::ArgsAccepted);
    assert_eq!(state, connect());

    let state = svc.advance(state, &ReplacePathEvent::Connected);
    assert_eq!(state, disconnect());
    assert!(svc.is_held(T0));

    let state = svc.advance(
        state,
        &ReplacePathEvent::DisconnectEnded(DisconnectOutcome::Failed("EBUSY".to_string())),
    );
    assert_eq!(
        state,
        ReplacePath::Done {
            result: Ok(()),
            warning: Some(internal("Failed to disconnect NVMe controller nvme0: EBUSY")),
        }
    );
    assert!(!svc.is_held(T0));
    // The cache still resolves the target.
    assert_eq!(cache().lookup_controller(T0), Some(nvme0()));
    let again = svc.replace_path(&request(T0, NEW_PATH));
    assert_eq!(svc.advance(again, &ReplacePathEvent::ArgsAccepted), connect());
}

#[test]
fn replace_path_without_trouble_has_no_warning() {
    let mut svc = svc();
    let state = svc.replace_path(&request(T0, NEW_PATH));
    let state = svc.advance(state, &ReplacePathEvent::ArgsAccepted);
    let state = svc.advance(state, &ReplacePathEvent::Connected);
    let state =
        svc.advance(state, &ReplacePathEvent::DisconnectEnded(DisconnectOutcome::Disconnected));
    assert_eq!(state, ReplacePath::Done { result: Ok(()), warning: None });
    assert!(!svc.is_held(T0));
}

#[test]
fn foreign_target_is_an_invalid_argument() {
    let mut svc = svc();
    let state = svc.replace_path(&request(T0, "nvmf://10.0.0.2:4420/nqn.2019-05.other:t0"));
    assert_eq!(state, invalid_new_path());
    assert!(!svc.is_held(T0));
    // Nothing that is reported afterwards starts a connect or a disconnect.
    let state = svc.advance(state, &ReplacePathEvent::TargetReleased);
    assert_eq!(state, invalid_new_path());
    let state = svc.advance(state, &ReplacePathEvent::ArgsAccepted);
    assert_eq!(state, invalid_new_path());
    let state = svc.advance(state, &ReplacePathEvent::Connected);
    assert_eq!(state, invalid_new_path());
    let state =
        svc.advance(state, &ReplacePathEvent::DisconnectEnded(DisconnectOutcome::Disconnected));
    assert_eq!(state, invalid_new_path());
    assert!(!svc.is_held(T0));
}

#[test]
fn malformed_location_is_an_invalid_argument() {
    assert_eq!(svc().replace_path(&request(T0, "10.0.0.2:4420")), invalid_new_path());
    assert_eq!(svc().replace_path(&request(T0, "")), invalid_new_path());
    assert_eq!(
        svc().replace_path(&request("nqn.unknown", "nvmf://10.0.0.2/nqn.2021-01.example:t0")),
        invalid_new_path()
    );
}

#[test]
fn validation_comes_before_lookup() {
    let mut svc = svc();
    assert_eq!(svc.replace_path(&request("nqn.unknown", "bad uri")), invalid_new_path());
    assert!(!svc.is_held("nqn.unknown"));
    let state = svc.replace_path(&request("nqn.unknown", NEW_PATH));
    assert_eq!(state, prepare("nqn.unknown"));
}

#[test]
fn rejected_arguments_are_an_invalid_argument() {
    let mut svc = svc();
    let state = svc.replace_path(&request(T0, NEW_PATH));
    assert_eq!(svc.advance(state, &ReplacePathEvent::ArgsRejected), invalid_new_path());
    assert!(!svc.is_held(T0));
    // Also where the target is unknown: the arguments are judged first.
    let state = svc.replace_path(&request("nqn.unknown", NEW_PATH));
    assert_eq!(svc.advance(state, &ReplacePathEvent::ArgsRejected), invalid_new_path());
    assert!(!svc.is_held("nqn.unknown"));
}

#[test]
fn unknown_target_is_an_internal_error() {
    let mut svc = svc();
    let state = svc.replace_path(&request("nqn.2021-01.example:t9", NEW_PATH));
    assert!(svc.is_held("nqn.2021-01.example:t9"));
    let state = svc.advance(state, &ReplacePathEvent::ArgsAccepted);
    assert_eq!(state, failed_with("Failed to lookup controller"));
    assert!(!svc.is_held("nqn.2021-01.example:t9"));
    let state = svc.advance(state, &ReplacePathEvent::Connected);
    assert_eq!(state, failed_with("Failed to lookup controller"));
}

#[test]
fn failed_connect_is_an_internal_error_without_disconnect() {
    for event in [ReplacePathEvent::ConnectFailed, ReplacePathEvent::ConnectTimedOut] {
        let mut svc = svc();
        let state = svc.replace_path(&request(T0, NEW_PATH));
        let state = svc.advance(state, &ReplacePathEvent::ArgsAccepted);
        let state = svc.advance(state, &event);
        assert_eq!(state, failed_with("Failed to connect to NVMe target"));
        assert!(!svc.is_held(T0));
        let state = svc.advance(state, &ReplacePathEvent::Connected);
        assert_eq!(state, failed_with("Failed to connect to NVMe target"));
        let state =
            svc.advance(state, &ReplacePathEvent::DisconnectEnded(DisconnectOutcome::Disconnected));
        assert_eq!(state, failed_with("Failed to connect to NVMe target"));
    }
}

#[test]
fn events_out_of_turn_change_nothing() {
    let mut svc = svc();
    let state = svc.replace_path(&request(T0, NEW_PATH));
    let state = svc.advance(state, &ReplacePathEvent::TargetReleased);
    let state = svc.advance(state, &ReplacePathEvent::Connected);
    let state = svc.advance(state, &ReplacePathEvent::ConnectFailed);
    let state =
        svc.advance(state, &ReplacePathEvent::DisconnectEnded(DisconnectOutcome::NoSubsystem));
    assert_eq!(state, prepare(T0));

    let state = svc.advance(state, &ReplacePathEvent::ArgsAccepted);
    let state = svc.advance(state, &ReplacePathEvent::ArgsAccepted);
    let state = svc.advance(state, &ReplacePathEvent::ArgsRejected);
    let state = svc.advance(state, &ReplacePathEvent::TargetReleased);
    let state =
        svc.advance(state, &ReplacePathEvent::DisconnectEnded(DisconnectOutcome::Disconnected));
    assert_eq!(state, connect());

    let state = svc.advance(state, &ReplacePathEvent::Connected);
    let state = svc.advance(state, &ReplacePathEvent::Connected);
    let state = svc.advance(state, &ReplacePathEvent::ConnectFailed);
    let state = svc.advance(state, &ReplacePathEvent::ArgsRejected);
    let state = svc.advance(state, &ReplacePathEvent::TargetReleased);
    assert_eq!(state, disconnect());
    assert!(svc.is_held(T0));
}

#[test]
fn begin_from_arguments() {
    let mut svc = svc();
    assert_eq!(svc.begin(None, T0), invalid_new_path());
    assert!(!svc.is_held(T0));
    assert_eq!(svc.begin(Some(args()), T0), prepare(T0));
    assert!(svc.is_held(T0));
    assert_eq!(svc.begin(Some(args()), T0), wait(T0));
    assert_eq!(svc.begin(None, T0), invalid_new_path());
    assert!(svc.is_held(T0));
}

#[test]
fn second_replacement_of_a_target_waits_for_the_first() {
    let mut svc = svc();
    let first = svc.replace_path(&request(T0, NEW_PATH));
    assert_eq!(first, prepare(T0));
    let second = svc.replace_path(&request(T0, NEW_PATH));
    assert_eq!(second, wait(T0));

    // While the first is under way the second takes no step.
    let first = svc.advance(first, &ReplacePathEvent::ArgsAccepted);
    let second = svc.advance(second, &ReplacePathEvent::TargetReleased);
    assert_eq!(second, wait(T0));
    let second = svc.advance(second, &ReplacePathEvent::ArgsAccepted);
    let second = svc.advance(second, &ReplacePathEvent::Connected);
    assert_eq!(second, wait(T0));
    let first = svc.advance(first, &ReplacePathEvent::Connected);
    let second = svc.advance(second, &ReplacePathEvent::TargetReleased);
    assert_eq!(second, wait(T0));
    assert_eq!(first, disconnect());

    let first =
        svc.advance(first, &ReplacePathEvent::DisconnectEnded(DisconnectOutcome::Disconnected));
    assert_eq!(first, ReplacePath::Done { result: Ok(()), warning: None });
    assert!(!svc.is_held(T0));

    let second = svc.advance(second, &ReplacePathEvent::TargetReleased);
    assert_eq!(second, prepare(T0));
    assert!(svc.is_held(T0));
    assert_eq!(svc.advance(second, &ReplacePathEvent::ArgsAccepted), connect());
}

#[test]
fn replacements_of_different_targets_do_not_wait() {
    let mut svc = svc();
    let first = svc.replace_path(&request(T0, NEW_PATH));
    let other = svc.replace_path(&request("nqn.2021-01.example:t1", NEW_PATH));
    assert_eq!(first, prepare(T0));
    assert_eq!(other, prepare("nqn.2021-01.example:t1"));
    let other = svc.advance(other, &ReplacePathEvent::ArgsRejected);
    assert_eq!(other, invalid_new_path());
    assert!(svc.is_held(T0));
    assert!(!svc.is_held("nqn.2021-01.example:t1"));
}

#[test]
fn failed_replacement_gives_the_target_back() {
    let mut svc = svc();
    let first = svc.replace_path(&request(T0, NEW_PATH));
    let second = svc.replace_path(&request(T0, NEW_PATH));
    let first = svc.advance(first, &ReplacePathEvent::ArgsAccepted);
    let first = svc.advance(first, &ReplacePathEvent::ConnectTimedOut);
    assert_eq!(first, failed_with("Failed to connect to NVMe target"));
    let second = svc.advance(second, &ReplacePathEvent::TargetReleased);
    assert_eq!(second, prepare(T0));
}

#[test]
fn fresh_cache_takes_the_place_of_the_old_one() {
    let mut svc = NodeAgentSvc::new(NvmePathCache::new(), PREFIX.to_string());
    let state = svc.replace_path(&request(T0, NEW_PATH));
    assert_eq!(
        svc.advance(state, &ReplacePathEvent::ArgsAccepted),
        failed_with("Failed to lookup controller")
    );
    let state = svc.replace_path(&request(T0, NEW_PATH));
    svc.set_path_cache(cache());
    assert!(svc.is_held(T0));
    assert_eq!(svc.advance(state, &ReplacePathEvent::ArgsAccepted), connect());
    assert_eq!(svc.get_nvmf_connection_args(NEW_PATH), Some(args()));
}

#[test]
fn disconnect_outcomes_and_their_replies() {
    let ctrlr = NvmeController { path: "nvme7".to_string() };
    assert_eq!(disconnect_controller(&ctrlr, &DisconnectOutcome::Disconnected), Ok(()));
    assert_eq!(
        disconnect_controller(&ctrlr, &DisconnectOutcome::NoSystemPath),
        Err(internal("Failed to get system path for controller"))
    );
    assert_eq!(
        disconnect_controller(&ctrlr, &DisconnectOutcome::NoSubsystem),
        Err(internal("Failed to get NVMe subsystem for controller"))
    );
    assert_eq!(
        disconnect_controller(&ctrlr, &DisconnectOutcome::Failed("IoFailed".to_string())),
        Err(internal("Failed to disconnect NVMe controller nvme7: IoFailed"))
    );
}

#[test]
fn every_failed_disconnect_is_kept_as_a_warning() {
    for (outcome, text) in [
        (DisconnectOutcome::NoSystemPath, "Failed to get system path for controller"),
        (DisconnectOutcome::NoSubsystem, "Failed to get NVMe subsystem for controller"),
        (DisconnectOutcome::Failed(String::new()), "Failed to disconnect NVMe controller nvme0: "),
    ] {
        let mut svc = svc();
        let state = svc.replace_path(&request(T0, NEW_PATH));
        let state = svc.advance(state, &ReplacePathEvent::ArgsAccepted);
        let state = svc.advance(state, &ReplacePathEvent::Connected);
        let state = svc.advance(state, &ReplacePathEvent::DisconnectEnded(outcome));
        assert!(!svc.is_held(T0));
        assert_eq!(state, ReplacePath::Done { result: Ok(()), warning: Some(internal(text)) });
    }
}

#[test]
fn one_replacement_per_target_at_a_time() {
    let mut locks = TargetLocks::new();
    assert!(!locks.is_held(T0));
    assert!(locks.try_enter(T0));
    assert!(locks.is_held(T0));
    assert!(!locks.try_enter(T0));
    assert!(locks.try_enter("nqn.2021-01.example:t1"));
    locks.leave(T0);
    assert!(!locks.is_held(T0));
    assert!(locks.is_held("nqn.2021-01.example:t1"));
    assert!(locks.try_enter(T0));
    locks.leave("nqn.2021-01.example:t2");
    assert!(locks.is_held(T0));
    locks.leave(T0);
    locks.leave(T0);
    locks.leave("nqn.2021-01.example:t1");
    assert!(!locks.is_held(T0));
    assert!(!locks.is_held("nqn.2021-01.example:t1"));
}
