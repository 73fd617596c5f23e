//! Calls between the nodes: who may call, what is sent, and how an answer is read.

use tsink_cluster::membership::{ClusterNode, MembershipView};
use tsink_cluster::rpc_auth::{
    authorize_internal_request, authorize_internal_request_with_policy,
    derive_shared_internal_token, internal_error_response, normalize_capabilities,
    parse_capabilities_header, peer_capability_mismatch_response, protocol_mismatch_response,
    required_capabilities_for_internal_rows, required_capabilities_for_internal_write,
    required_capabilities_for_rows, stable_fnv1a64, unauthorized_internal_response,
    CompatibilityProfile, HttpBody, HttpHeader, HttpRequest, HttpResponse, InternalApiConfig,
    InternalErrorResponse, ManagedStringSecret, CLUSTER_CAPABILITY_CONTROL_REPLICATION_V1,
    CLUSTER_CAPABILITY_CONTROL_SNAPSHOT_RPC_V1, CLUSTER_CAPABILITY_HISTOGRAM_INGEST_V1,
    CLUSTER_CAPABILITY_HISTOGRAM_STORAGE_V1, CLUSTER_CAPABILITY_RPC_V1,
};
use tsink_cluster::rpc_client::{
    classify_response, host_from_endpoint, interpret_response, parse_http_response,
    tls_server_name_from_endpoint, InternalCall, RpcClient, RpcClientConfig, RpcError,
};
use tsink_cluster::rpc_types::{
    DataPoint, InternalRow, Label, PointValue, Row, INTERNAL_RPC_AUTH_HEADER,
    INTERNAL_RPC_CAPABILITIES_HEADER, INTERNAL_RPC_NODE_ID_HEADER, INTERNAL_RPC_PROTOCOL_VERSION,
    INTERNAL_RPC_VERIFIED_NODE_ID_HEADER, INTERNAL_RPC_VERSION_HEADER,
};

fn header(name: &str, value: &str) -> HttpHeader {
    HttpHeader {
        name: name.to_string(),
        value: value.to_string(),
    }
}

fn authenticated_headers(token: &str, compatibility: &CompatibilityProfile) -> Vec<HttpHeader> {
    vec![
        header(INTERNAL_RPC_AUTH_HEADER, token),
        header(INTERNAL_RPC_VERSION_HEADER, INTERNAL_RPC_PROTOCOL_VERSION),
        header(
            INTERNAL_RPC_CAPABILITIES_HEADER,
            &compatibility.capabilities.join(","),
        ),
    ]
}

fn request(path: &str, headers: Vec<HttpHeader>) -> HttpRequest {
    HttpRequest {
        method: "POST".to_string(),
        path: path.to_string(),
        headers,
        body: Vec::new(),
    }
}

fn error_of(response: &HttpResponse) -> &InternalErrorResponse {
    match &response.body {
        HttpBody::Error(error) => error,
        HttpBody::Text(text) => panic!("expected an error, got '{text}'"),
    }
}

fn node(id: &str, endpoint: &str) -> ClusterNode {
    ClusterNode {
        id: id.to_string(),
        endpoint: endpoint.to_string(),
    }
}

fn two_node_membership() -> MembershipView {
    MembershipView {
        local_node_id: "node-a".to_string(),
        nodes: vec![
            node("127.0.0.1:9302", "127.0.0.1:9302"),
            node("node-a", "127.0.0.1:9301"),
        ],
    }
}

fn client(max_retries: usize) -> RpcClient {
    RpcClient::new(RpcClientConfig {
        timeout_ms: 25,
        max_retries,
        protocol_version: INTERNAL_RPC_PROTOCOL_VERSION.to_string(),
        internal_auth_token: "cluster-shared-token".to_string(),
        internal_auth_runtime: None,
        local_node_id: "node-a".to_string(),
        compatibility: CompatibilityProfile::default(),
        internal_mtls: None,
    })
}

fn timeout() -> RpcError {
    RpcError::Timeout {
        endpoint: "127.0.0.1:9302".to_string(),
        path: "/internal/v1/list_metrics".to_string(),
    }
}

#[test]
fn parse_http_response_rejects_duplicate_content_length() {
    let err = parse_http_response(
        b"HTTP/1.1 200 OK\r\nContent-Length: 4\r\nContent-Length: 5\r\n\r\ntest!",
    )
    .expect_err("duplicate content-length should be rejected");

    assert_eq!(err, "duplicate response content-length header");
}

#[test]
fn parse_http_response_rejects_transfer_encoding() {
    let err = parse_http_response(
        b"HTTP/1.1 200 OK\r\nTransfer-Encoding: chunked\r\n\r\n4\r\ntest\r\n0\r\n\r\n",
    )
    .expect_err("chunked response should be rejected");

    assert_eq!(err, "response transfer-encoding is not supported");
}

#[test]
fn parse_http_response_rejects_unsupported_version() {
    let err = parse_http_response(b"HTTP/2 200 OK\r\nContent-Length: 0\r\n\r\n")
        .expect_err("unsupported version should be rejected");

    assert_eq!(err, "unsupported HTTP version: HTTP/2");
}

#[test]
fn parse_http_response_reads_status_headers_and_body() {
    let parsed = parse_http_response(
        b"HTTP/1.1 503 Service Unavailable\r\nX-Kind:  busy \r\nContent-Length: 4\r\n\r\nwait",
    )
    .expect("response should parse");
    assert_eq!(parsed.status, 503);
    assert_eq!(parsed.body, b"wait".to_vec());
    assert_eq!(parsed.headers.len(), 2);
}

#[test]
fn parse_http_response_rejects_a_head_without_end() {
    assert!(parse_http_response(b"HTTP/1.1 200 OK\r\nContent-Length: 4\r\n").is_err());
    assert!(parse_http_response(b"\xff\xfe\r\n\r\n").is_err());
    assert!(parse_http_response(b"HTTP/1.1 abc OK\r\n\r\n").is_err());
    assert!(parse_http_response(b"HTTP/1.1 200 OK\r\nContent-Length: 9\r\n\r\nshort").is_err());
}

#[test]
fn shared_internal_token_is_deterministic_and_seed_order_invariant() {
    let membership_a = MembershipView {
        local_node_id: "node-a".to_string(),
        nodes: vec![
            node("node-a", "127.0.0.1:9301"),
            node("node-b", "127.0.0.1:9302"),
            node("node-c", "127.0.0.1:9303"),
        ],
    };
    let membership_b = MembershipView {
        local_node_id: "node-a".to_string(),
        nodes: vec![
            node("node-a", "127.0.0.1:9301"),
            node("node-c", "127.0.0.1:9303"),
            node("node-b", "127.0.0.1:9302"),
        ],
    };

    assert_eq!(
        derive_shared_internal_token(&membership_a),
        derive_shared_internal_token(&membership_b)
    );
}

#[test]
fn stable_hash_has_its_published_values() {
    assert_eq!(stable_fnv1a64(b""), 0xcbf29ce484222325);
    assert_eq!(stable_fnv1a64(b"a"), 0xaf63dc4c8601ec8c);
    assert_eq!(stable_fnv1a64(b"foobar"), 0x85944171f73967e8);
}

#[test]
fn internal_api_config_requires_explicit_token_without_mtls() {
    let membership = two_node_membership();
    let err = InternalApiConfig::from_membership(&membership, false, None)
        .expect_err("plaintext internal RPC should require explicit auth token");
    assert!(err.contains("--cluster-internal-auth-token"));
}

#[test]
fn internal_api_config_allows_mtls_without_explicit_token() {
    let membership = two_node_membership();
    let internal_api = InternalApiConfig::from_membership(&membership, true, None)
        .expect("mTLS mode should allow derived fallback token");
    assert!(!internal_api.auth_token.is_empty());
    assert!(internal_api.require_mtls);
}

#[test]
fn rpc_client_enforces_timeout_and_retry_limit() {
    let client = client(1);
    let mut attempts = 0;
    let err = loop {
        attempts += 1;
        let err = timeout();
        if client.gives_up_after(attempts, &err) {
            break err;
        }
    };
    assert!(matches!(err, RpcError::Timeout { .. }));
    assert_eq!(attempts, 2);
}

#[test]
fn rpc_client_gives_up_at_once_on_an_error_that_stays() {
    let err = RpcError::Deserialize {
        message: "bad".to_string(),
    };
    assert!(!err.retryable());
    assert!(client(5).gives_up_after(1, &err));
    assert!(!client(5).gives_up_after(5, &timeout()));
    assert!(client(0).gives_up_after(1, &timeout()));
}

fn answered(response: HttpResponse) -> RpcError {
    let raw = format!(
        "HTTP/1.1 {} Reply\r\nContent-Length: 0\r\n\r\n",
        response.status
    );
    let decoded = match response.body {
        HttpBody::Error(error) => Some(error),
        HttpBody::Text(_) => None,
    };
    let parsed = parse_http_response(raw.as_bytes()).expect("response should parse");
    classify_response(
        "127.0.0.1:9302",
        "/internal/v1/list_metrics",
        parsed,
        decoded,
    )
    .expect_err("RPC call should fail")
}

#[test]
fn rpc_client_reports_protocol_mismatch_clearly() {
    let err = answered(protocol_mismatch_response(
        INTERNAL_RPC_PROTOCOL_VERSION,
        Some("99"),
    ));
    assert!(matches!(
        err,
        RpcError::ProtocolVersionMismatch {
            expected,
            received,
            ..
        } if expected == INTERNAL_RPC_PROTOCOL_VERSION && received.as_deref() == Some("99")
    ));
}

#[test]
fn rpc_client_reports_compatibility_rejection_clearly() {
    let err = answered(peer_capability_mismatch_response(
        vec![CLUSTER_CAPABILITY_CONTROL_SNAPSHOT_RPC_V1.to_string()],
        vec![CLUSTER_CAPABILITY_RPC_V1.to_string()],
        vec![CLUSTER_CAPABILITY_CONTROL_SNAPSHOT_RPC_V1.to_string()],
    ));
    assert!(matches!(
        err,
        RpcError::CompatibilityRejected {
            missing_capabilities,
            ..
        } if missing_capabilities == vec![CLUSTER_CAPABILITY_CONTROL_SNAPSHOT_RPC_V1.to_string()]
    ));
}

#[test]
fn rpc_client_reports_other_errors_by_their_status() {
    let err = answered(internal_error_response(
        503,
        "busy".to_string(),
        "try later".to_string(),
        true,
    ));
    match &err {
        RpcError::HttpStatus {
            status,
            message,
            retryable,
            ..
        } => {
            assert_eq!(*status, 503);
            assert_eq!(message, "try later");
            assert!(*retryable);
        }
        other => panic!("unexpected error: {other:?}"),
    }
    assert!(err.retryable());
    assert!(err.message().contains("503"));

    let plain = interpret_response(
        "127.0.0.1:9302",
        "/internal/v1/select",
        b"HTTP/1.1 404 Not Found\r\nContent-Length: 4\r\n\r\nnope",
        None,
    )
    .expect_err("a missing path is an error");
    assert!(matches!(
        plain,
        RpcError::HttpStatus { status: 404, retryable: false, .. }
    ));

    let body = interpret_response(
        "127.0.0.1:9302",
        "/internal/v1/select",
        b"HTTP/1.1 200 OK\r\nContent-Length: 2\r\n\r\n{}",
        None,
    )
    .expect("a good answer is its body");
    assert_eq!(body, b"{}".to_vec());

    let garbled = interpret_response("127.0.0.1:9302", "/internal/v1/select", b"?", None)
        .expect_err("an answer that is no HTTP is an error");
    assert!(matches!(garbled, RpcError::Transport { .. }));
}

#[test]
fn a_request_carries_what_the_callee_checks() {
    let raw = client(0).build_http_request("127.0.0.1:9302", "/internal/v1/select", b"{}");
    let text = String::from_utf8(raw).expect("request should be text");
    assert!(text.starts_with("POST /internal/v1/select HTTP/1.1\r\n"));
    assert!(text.contains("Host: 127.0.0.1:9302\r\n"));
    assert!(text.contains("Content-Length: 2\r\n"));
    assert!(text.contains(&format!("{INTERNAL_RPC_AUTH_HEADER}: cluster-shared-token\r\n")));
    assert!(text.contains(&format!("{INTERNAL_RPC_NODE_ID_HEADER}: node-a\r\n")));
    assert!(text.ends_with("\r\n\r\n"));
}

#[test]
fn calls_go_to_their_paths() {
    assert_eq!(InternalCall::DataSnapshot.path(), "/internal/v1/snapshot_data");
    assert_eq!(
        InternalCall::ControlInstallSnapshot.path(),
        "/internal/v1/control/install_snapshot"
    );
    assert_eq!(InternalCall::ListMetrics.path(), "/internal/v1/list_metrics");
}

#[test]
fn endpoints_give_the_name_of_their_host() {
    assert_eq!(
        host_from_endpoint("db.example:9301").expect("host should be found"),
        "db.example"
    );
    assert_eq!(
        host_from_endpoint("[::1]:9301").expect("host should be found"),
        "::1"
    );
    assert!(host_from_endpoint("no-port").is_err());
    assert_eq!(
        tls_server_name_from_endpoint("db.example:9301").expect("name should be valid"),
        "db.example"
    );
    assert!(tls_server_name_from_endpoint("not a name:9301").is_err());
}

#[test]
fn authorize_internal_request_requires_mtls_identity_when_enabled() {
    let mut headers =
        authenticated_headers("cluster-shared-token", &CompatibilityProfile::default());
    headers.push(header(INTERNAL_RPC_NODE_ID_HEADER, "node-a"));
    let request = request("/internal/v1/list_metrics", headers);
    let internal_api = InternalApiConfig::new(
        "cluster-shared-token".to_string(),
        INTERNAL_RPC_PROTOCOL_VERSION.to_string(),
        true,
        vec!["node-a".to_string()],
    );

    let response = authorize_internal_request(&request, Some(&internal_api))
        .expect_err("request should be rejected without verified mTLS identity");
    assert_eq!(response.status, 401);
    assert_eq!(error_of(&response).code, "internal_mtls_auth_failed");
}

#[test]
fn authorize_internal_request_accepts_matching_claimed_and_verified_mtls_identity() {
    let mut headers =
        authenticated_headers("cluster-shared-token", &CompatibilityProfile::default());
    headers.push(header(INTERNAL_RPC_NODE_ID_HEADER, "node-a"));
    headers.push(header(INTERNAL_RPC_VERIFIED_NODE_ID_HEADER, "node-a"));
    let request = request("/internal/v1/list_metrics", headers);
    let internal_api = InternalApiConfig::new(
        "cluster-shared-token".to_string(),
        INTERNAL_RPC_PROTOCOL_VERSION.to_string(),
        true,
        vec!["node-a".to_string(), "node-b".to_string()],
    );

    authorize_internal_request(&request, Some(&internal_api))
        .expect("request should be authorized");
}

#[test]
fn authorize_internal_request_accepts_previous_rotated_token_during_overlap_window() {
    let mut internal_api = InternalApiConfig::new(
        "cluster-old".to_string(),
        INTERNAL_RPC_PROTOCOL_VERSION.to_string(),
        false,
        vec!["node-a".to_string()],
    );
    internal_api.set_auth_runtime(ManagedStringSecret {
        current: "cluster-new".to_string(),
        previous: Some("cluster-old".to_string()),
    });

    let old_request = request(
        "/internal/v1/list_metrics",
        authenticated_headers("cluster-old", &CompatibilityProfile::default()),
    );
    authorize_internal_request(&old_request, Some(&internal_api))
        .expect("previous token should remain valid during overlap");

    let new_request = request(
        "/internal/v1/list_metrics",
        authenticated_headers("cluster-new", &CompatibilityProfile::default()),
    );
    authorize_internal_request(&new_request, Some(&internal_api))
        .expect("new token should be accepted immediately");

    internal_api.set_auth_runtime(ManagedStringSecret {
        current: "cluster-new".to_string(),
        previous: None,
    });
    let refused = authorize_internal_request(&old_request, Some(&internal_api))
        .expect_err("previous token should be refused after the overlap");
    assert_eq!(refused, unauthorized_internal_response());
}

#[test]
fn authorize_internal_request_accepts_required_capability() {
    let compatibility = CompatibilityProfile::default();
    let request = request(
        "/internal/v1/control/append",
        authenticated_headers("cluster-shared-token", &compatibility),
    );
    let internal_api = InternalApiConfig::new(
        "cluster-shared-token".to_string(),
        INTERNAL_RPC_PROTOCOL_VERSION.to_string(),
        false,
        vec!["node-a".to_string()],
    );

    authorize_internal_request_with_policy(
        &request,
        Some(&internal_api),
        &Vec::new(),
        false,
        &vec![CLUSTER_CAPABILITY_CONTROL_REPLICATION_V1.to_string()],
    )
    .expect("request with required capabilities should be accepted");
}

#[test]
fn authorize_internal_request_rejects_missing_required_capability() {
    let compatibility = CompatibilityProfile::default()
        .with_capabilities(vec![CLUSTER_CAPABILITY_RPC_V1.to_string()]);
    let request = request(
        "/internal/v1/control/install_snapshot",
        authenticated_headers("cluster-shared-token", &compatibility),
    );
    let internal_api = InternalApiConfig::new(
        "cluster-shared-token".to_string(),
        INTERNAL_RPC_PROTOCOL_VERSION.to_string(),
        false,
        vec!["node-a".to_string()],
    );

    let response = authorize_internal_request_with_policy(
        &request,
        Some(&internal_api),
        &Vec::new(),
        false,
        &vec![CLUSTER_CAPABILITY_CONTROL_SNAPSHOT_RPC_V1.to_string()],
    )
    .expect_err("missing capability should be rejected");
    assert_eq!(response.status, 409);
    let body = error_of(&response);
    assert_eq!(body.code, "peer_capability_missing");
    assert_eq!(
        body.missing_capabilities,
        vec![CLUSTER_CAPABILITY_CONTROL_SNAPSHOT_RPC_V1.to_string()]
    );
}

#[test]
fn authorize_internal_request_refuses_strangers_and_other_versions() {
    let internal_api = InternalApiConfig::new(
        "cluster-shared-token".to_string(),
        INTERNAL_RPC_PROTOCOL_VERSION.to_string(),
        false,
        vec!["node-a".to_string()],
    );
    let stranger = request(
        "/internal/v1/list_metrics",
        authenticated_headers("guess", &CompatibilityProfile::default()),
    );
    let refused = authorize_internal_request(&stranger, Some(&internal_api))
        .expect_err("a wrong token should be refused");
    assert_eq!(refused.status, 401);

    let mut headers =
        authenticated_headers("cluster-shared-token", &CompatibilityProfile::default());
    headers[1] = header(INTERNAL_RPC_VERSION_HEADER, "2");
    let other_version = authorize_internal_request(
        &request("/internal/v1/list_metrics", headers),
        Some(&internal_api),
    )
    .expect_err("another version should be refused");
    assert_eq!(
        other_version,
        protocol_mismatch_response(INTERNAL_RPC_PROTOCOL_VERSION, Some("2"))
    );

    assert!(authorize_internal_request(
        &request("/internal/v1/list_metrics", Vec::new()),
        None
    )
    .is_err());
}

#[test]
fn capabilities_are_put_in_order_without_repetition() {
    assert_eq!(
        normalize_capabilities(vec![
            " b ".to_string(),
            "a".to_string(),
            "".to_string(),
            "b".to_string()
        ]),
        vec!["a".to_string(), "b".to_string()]
    );
    assert_eq!(
        parse_capabilities_header(Some("b, a,,b")),
        vec!["b".to_string(), "a".to_string(), "b".to_string()]
    );
    assert!(parse_capabilities_header(None).is_empty());
}

#[test]
fn rows_with_histograms_require_more() {
    let row = |value| Row {
        metric: "latency".to_string(),
        labels: vec![Label {
            name: "job".to_string(),
            value: "api".to_string(),
        }],
        data_point: DataPoint {
            timestamp: 1,
            value,
        },
    };
    let plain = row(PointValue::Number { bits: 0 });
    assert!(required_capabilities_for_rows(&vec![plain]).is_empty());
    let histogram = row(PointValue::Histogram { key: 7 });
    let needed = required_capabilities_for_rows(&vec![histogram]);
    assert_eq!(
        needed,
        vec![
            CLUSTER_CAPABILITY_HISTOGRAM_INGEST_V1.to_string(),
            CLUSTER_CAPABILITY_HISTOGRAM_STORAGE_V1.to_string()
        ]
    );
    let sent = InternalRow::from_row(&row(PointValue::Histogram { key: 7 }));
    assert_eq!(sent.data_point.value, PointValue::Histogram { key: 7 });
    assert_eq!(
        required_capabilities_for_internal_rows(
            &vec![sent],
            &vec!["extra".to_string()]
        ),
        vec![
            "extra".to_string(),
            CLUSTER_CAPABILITY_HISTOGRAM_INGEST_V1.to_string(),
            CLUSTER_CAPABILITY_HISTOGRAM_STORAGE_V1.to_string()
        ]
    );
    assert!(required_capabilities_for_internal_write(
        &Vec::new(),
        &Vec::new(),
        &Vec::new(),
        &Vec::new()
    )
    .is_empty());
}

#[test]
fn managed_secrets_do_not_tell_guards_apart() {
    let guard = |token: &str| {
        InternalApiConfig::new(
            token.to_string(),
            "1".to_string(),
            false,
            vec!["node-a".to_string()],
        )
    };
    let mut managed = guard("token");
    managed.set_auth_runtime(ManagedStringSecret {
        current: "other".to_string(),
        previous: None,
    });
    assert!(managed == guard("token"));
    assert!(managed != guard("other"));
}

#[test]
fn shared_token_ignores_space_and_case() {
    let plain = MembershipView {
        local_node_id: "node-a".to_string(),
        nodes: vec![node("node-a", "host-a:9301"), node("node-b", "host-b:9302")],
    };
    let other = MembershipView {
        local_node_id: "node-b".to_string(),
        nodes: vec![node(" NODE-B", "Host-B:9302 "), node("Node-a ", " HOST-a:9301")],
    };
    let token = derive_shared_internal_token(&plain);
    assert_eq!(token, derive_shared_internal_token(&other));
    assert!(token.starts_with("tsink-cluster-0x"));
}
