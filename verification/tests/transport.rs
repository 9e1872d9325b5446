use ha_node::transport::{
    copy_failed_paths, FailedNvmePath, FailedPath, ReplyError, ReplyErrorKind,
    ReportFailedNvmePathsRequest, ReportFailedPaths, ResourceKind,
};

fn path(nqn: &str) -> FailedPath {
    FailedPath { target_nqn: nqn.to_string() }
}

#[test]
fn defaults_are_empty() {
    assert_eq!(FailedPath::default(), path(""));
    assert_eq!(
        ReportFailedPaths::default(),
        ReportFailedPaths { node: String::new(), failed_paths: vec![] }
    );
}

#[test]
fn report_hands_out_its_parts() {
    let report = ReportFailedPaths { node: "node-1".to_string(), failed_paths: vec![path("a"), path("b")] };
    assert_eq!(report.node(), "node-1");
    assert_eq!(report.failed_paths(), vec![path("a"), path("b")]);
    assert_eq!(report.clone(), report);
    assert_eq!(copy_failed_paths(&report.failed_paths), vec![path("a"), path("b")]);
    assert_eq!(path("a").clone(), path("a"));
}

#[test]
fn request_carries_the_report() {
    let report = ReportFailedPaths { node: "node-1".to_string(), failed_paths: vec![path("a"), path("b")] };
    assert_eq!(
        ReportFailedNvmePathsRequest::from(&report),
        ReportFailedNvmePathsRequest {
            nodename: "node-1".to_string(),
            failed_paths: vec![
                FailedNvmePath { target_nqn: "a".to_string() },
                FailedNvmePath { target_nqn: "b".to_string() },
            ],
        }
    );
    assert_eq!(FailedNvmePath::from(path("x")), FailedNvmePath { target_nqn: "x".to_string() });
}

#[test]
fn request_of_an_empty_report_is_empty() {
    let request = ReportFailedNvmePathsRequest::from(&ReportFailedPaths::default());
    assert_eq!(request.nodename, "");
    assert_eq!(request.failed_paths, vec![]);
}

#[test]
fn invalid_argument_names_the_argument() {
    let err = ReplyError::invalid_argument(ResourceKind::Nexus, "new_path", "the source".to_string());
    assert_eq!(err.kind, ReplyErrorKind::InvalidArgument);
    assert_eq!(err.resource, ResourceKind::Nexus);
    assert_eq!(err.source, "the source");
    assert_eq!(err.extra, "Invalid new_path was provided");
    assert_eq!(err.clone(), err);
}

#[test]
fn internal_error_keeps_source_and_text() {
    let err = ReplyError::internal_error(ResourceKind::Nexus, "src".to_string(), "what".to_string());
    assert_eq!(
        err,
        ReplyError {
            kind: ReplyErrorKind::Internal,
            resource: ResourceKind::Nexus,
            source: "src".to_string(),
            extra: "what".to_string(),
        }
    );
}
