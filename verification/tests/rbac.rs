//! Who may do what.

use base64::engine::general_purpose::URL_SAFE_NO_PAD;
use base64::Engine;
use tsink_cluster::rbac::{RbacRegistry, ServiceAccountSpec};
use tsink_cluster::rbac_accounts::{
    account_name, conclude_token_draws, judge_config_write, judge_token_draw, AccountEvent,
    TokenDraw, MAX_TOKEN_DRAWS, TOKEN_BYTES,
};
use tsink_cluster::rbac_config::{parse_oidc_jwk, wants_keys, FetchedKeys};
use tsink_cluster::rbac_decision::{pattern_matches, signed_header};
use tsink_cluster::rbac_types::{
    AuthorizedPrincipal, OidcClaimMappingDefinition, OidcJwkDefinition, OidcKeyRuntime,
    OidcProviderDefinition, PrincipalDefinition, RbacAction, RbacBindingSnapshot, RbacConfigFile,
    RbacGrantSnapshot, RbacPermission, RbacResource, RoleDefinition, ServiceAccountDefinition,
};
use tsink_cluster::text_map::TextMap;

fn now_unix_seconds() -> u64 {
    std::time::SystemTime::now()
        .duration_since(std::time::UNIX_EPOCH)
        .map(|elapsed| elapsed.as_secs())
        .unwrap_or(0)
}

fn tenant(name: &str) -> RbacResource {
    RbacResource::tenant(name.to_string())
}

fn admin(name: &str) -> RbacResource {
    RbacResource::admin(name.to_string())
}

fn read(resource: RbacResource) -> RbacPermission {
    RbacPermission::new(RbacAction::Read, resource)
}

fn write(resource: RbacResource) -> RbacPermission {
    RbacPermission::new(RbacAction::Write, resource)
}

fn roles(name: &str, action: RbacAction, resource: RbacResource) -> TextMap<RoleDefinition> {
    let mut roles = TextMap::new();
    roles.insert(
        name.to_string(),
        RoleDefinition {
            grants: vec![RbacGrantSnapshot { action, resource }],
        },
    );
    roles
}

fn binding(role: &str, scopes: Vec<RbacResource>) -> RbacBindingSnapshot {
    RbacBindingSnapshot {
        role: role.to_string(),
        scopes,
    }
}

fn principal(id: &str, token: &str, bindings: Vec<RbacBindingSnapshot>) -> PrincipalDefinition {
    PrincipalDefinition {
        id: id.to_string(),
        token: token.to_string(),
        disabled: false,
        bindings,
    }
}

fn config(
    roles: TextMap<RoleDefinition>,
    principals: Vec<PrincipalDefinition>,
    service_accounts: Vec<ServiceAccountDefinition>,
    oidc_providers: Vec<OidcProviderDefinition>,
) -> RbacConfigFile {
    RbacConfigFile {
        roles,
        principals,
        service_accounts,
        oidc_providers,
    }
}

fn tenant_readers() -> TextMap<RoleDefinition> {
    roles("tenant-reader", RbacAction::Read, tenant("*"))
}

fn account(id: &str, token: &str) -> ServiceAccountDefinition {
    ServiceAccountDefinition {
        id: id.to_string(),
        token: token.to_string(),
        description: None,
        disabled: false,
        created_unix_ms: 0,
        updated_unix_ms: 0,
        last_rotated_unix_ms: 0,
        bindings: vec![binding("tenant-reader", vec![tenant("team-a")])],
    }
}

fn spec(id: &str) -> ServiceAccountSpec {
    ServiceAccountSpec {
        id: id.to_string(),
        description: None,
        disabled: false,
        bindings: vec![binding("tenant-reader", vec![tenant("team-a")])],
    }
}

fn account_registry(service_accounts: Vec<ServiceAccountDefinition>) -> RbacRegistry {
    RbacRegistry::from_config(
        config(tenant_readers(), Vec::new(), service_accounts, Vec::new()),
        None,
        &Vec::new(),
    )
    .expect("RBAC registry should load")
}

#[test]
fn scoped_bindings_limit_tenant_access() {
    let mut registry = RbacRegistry::from_config(
        config(
            tenant_readers(),
            vec![principal(
                "reader-a",
                "reader-a-token",
                vec![binding("tenant-reader", vec![tenant("tenant-a")])],
            )],
            Vec::new(),
            Vec::new(),
        ),
        None,
        &Vec::new(),
    )
    .expect("RBAC config should parse");

    let allowed = registry.authorize(Some("reader-a-token"), None, &read(tenant("tenant-a")));
    assert_eq!(
        allowed.expect("tenant-a should be allowed"),
        AuthorizedPrincipal {
            principal_id: "reader-a".to_string(),
            role: "tenant-reader".to_string(),
            auth_method: "token".to_string(),
            provider: None,
            subject: None,
            display_name: None,
        }
    );

    let denied = registry
        .authorize(Some("reader-a-token"), None, &read(tenant("tenant-b")))
        .expect_err("tenant-b should be denied");
    assert_eq!(denied.status(), 403);
    assert_eq!(denied.code(), "auth_scope_denied");
}

#[test]
fn reload_replaces_state_and_records_audit() {
    let mut registry = RbacRegistry::from_config(
        config(
            roles("rbac-reader", RbacAction::Read, admin("rbac")),
            vec![principal(
                "reader",
                "reader-token",
                vec![binding("rbac-reader", Vec::new())],
            )],
            Vec::new(),
            Vec::new(),
        ),
        Some("rbac.json".to_string()),
        &Vec::new(),
    )
    .expect("RBAC registry should load");
    assert_eq!(registry.source_path().as_deref(), Some("rbac.json"));
    registry
        .authorize(Some("reader-token"), None, &read(admin("rbac")))
        .expect("initial reader should be allowed");

    let rewritten = config(
        roles("rbac-writer", RbacAction::Write, admin("rbac")),
        vec![principal(
            "writer",
            "writer-token",
            vec![binding("rbac-writer", Vec::new())],
        )],
        Vec::new(),
        Vec::new(),
    );
    let snapshot = registry
        .reload(Ok(rewritten), &Vec::new())
        .expect("reload should succeed");
    assert_eq!(snapshot.roles.len(), 1);
    assert_eq!(snapshot.principals.len(), 1);
    assert_eq!(snapshot.principals[0].id, "writer");

    let old = registry
        .authorize(Some("reader-token"), None, &read(admin("rbac")))
        .expect_err("old token should no longer work");
    assert_eq!(old.code(), "auth_token_invalid");

    registry
        .authorize(Some("writer-token"), None, &write(admin("rbac")))
        .expect("new writer should be allowed");

    let audit = registry.audit_snapshot(10);
    assert!(audit.iter().any(|entry| entry.code == "rbac_reloaded"));
}

#[test]
fn a_reload_that_fails_changes_nothing() {
    let mut registry = account_registry(vec![account("bot", "bot-token")]);
    assert!(registry
        .reload(
            Ok(config(
                tenant_readers(),
                Vec::new(),
                Vec::new(),
                Vec::new()
            )),
            &Vec::new()
        )
        .is_err());
    registry
        .authorize(Some("bot-token"), None, &read(tenant("team-a")))
        .expect("the account should still be known");

    let mut filed = RbacRegistry::from_config(
        config(
            tenant_readers(),
            Vec::new(),
            vec![account("bot", "bot-token")],
            Vec::new(),
        ),
        Some("rbac.json".to_string()),
        &Vec::new(),
    )
    .expect("RBAC registry should load");
    assert_eq!(
        filed
            .reload(Err("unreadable".to_string()), &Vec::new())
            .err(),
        Some("unreadable".to_string())
    );
    filed
        .authorize(Some("bot-token"), None, &read(tenant("team-a")))
        .expect("the account should still be known");
}

fn jwk(kty: &str) -> OidcJwkDefinition {
    OidcJwkDefinition {
        kid: None,
        alg: None,
        kty: kty.to_string(),
        use_: None,
        n: None,
        e: None,
        x: None,
        y: None,
        crv: None,
        k: None,
    }
}

fn shared_key(secret: &[u8]) -> OidcJwkDefinition {
    OidcJwkDefinition {
        kid: Some("shared".to_string()),
        alg: Some("HS256".to_string()),
        k: Some(URL_SAFE_NO_PAD.encode(secret)),
        ..jwk("oct")
    }
}

fn provider(jwks: Vec<OidcJwkDefinition>) -> OidcProviderDefinition {
    OidcProviderDefinition {
        name: "corp".to_string(),
        issuer: "https://issuer.example".to_string(),
        audiences: vec!["tsink".to_string()],
        username_claim: Some("email".to_string()),
        jwks_url: None,
        jwks,
        claim_mappings: vec![OidcClaimMappingDefinition {
            claim: "groups".to_string(),
            value: "metrics-*".to_string(),
            bindings: vec![binding("tenant-reader", vec![tenant("team-a")])],
        }],
    }
}

fn no_keys() -> Vec<FetchedKeys> {
    vec![FetchedKeys {
        keys: Ok(Vec::new()),
    }]
}

fn oidc_registry(jwks: Vec<OidcJwkDefinition>) -> RbacRegistry {
    RbacRegistry::from_config(
        config(tenant_readers(), Vec::new(), Vec::new(), vec![provider(jwks)]),
        None,
        &no_keys(),
    )
    .expect("RBAC config should parse")
}

fn signed(header: &str, claims: &str, secret: &[u8]) -> String {
    let message = format!(
        "{}.{}",
        URL_SAFE_NO_PAD.encode(header),
        URL_SAFE_NO_PAD.encode(claims)
    );
    let signature = ring::hmac::sign(
        &ring::hmac::Key::new(ring::hmac::HMAC_SHA256, secret),
        message.as_bytes(),
    );
    format!("{message}.{}", URL_SAFE_NO_PAD.encode(signature.as_ref()))
}

fn claims(issuer: &str, audience: &str, expires: u64) -> String {
    format!(
        "{{\"iss\":\"{issuer}\",\"sub\":\"user-123\",\"aud\":\"{audience}\",\
         \"email\":\"user@example.com\",\"groups\":[\"metrics-readers\"],\"exp\":{expires}}}"
    )
}

const HEADER: &str = "{\"alg\":\"HS256\",\"kid\":\"shared\"}";
const ISSUER: &str = "https://issuer.example";

#[test]
fn oidc_claim_mappings_authorize_hs256_tokens() {
    let secret = b"super-secret-for-tests";
    let mut registry = oidc_registry(vec![shared_key(secret)]);
    let token = signed(
        HEADER,
        &claims(ISSUER, "tsink", now_unix_seconds() + 3600),
        secret,
    );

    let authorized = registry
        .authorize(Some(&token), None, &read(tenant("team-a")))
        .expect("OIDC token should authorize");
    assert_eq!(authorized.principal_id, "oidc:corp:user-123");
    assert_eq!(authorized.auth_method, "oidc");
    assert_eq!(authorized.provider.as_deref(), Some("corp"));
    assert_eq!(authorized.subject.as_deref(), Some("user-123"));
    assert_eq!(authorized.display_name.as_deref(), Some("user@example.com"));

    let denied = registry
        .authorize(Some(&token), None, &read(tenant("team-b")))
        .expect_err("team-b should be denied");
    assert_eq!(denied.code(), "auth_scope_denied");
}

#[test]
fn signed_tokens_that_do_not_hold_are_refused() {
    let secret = b"super-secret-for-tests";
    let now = now_unix_seconds();
    let mut registry = oidc_registry(vec![shared_key(secret)]);
    let wanted = read(tenant("team-a"));
    let good = claims(ISSUER, "tsink", now + 3600);
    for token in [
        signed(HEADER, &good, b"another-secret"),
        signed(
            HEADER,
            &claims("https://elsewhere.example", "tsink", now + 3600),
            secret,
        ),
        signed(HEADER, &claims(ISSUER, "another", now + 3600), secret),
        signed(HEADER, &claims(ISSUER, "tsink", now - 3600), secret),
        signed("{\"alg\":\"none\",\"kid\":\"shared\"}", &good, secret),
        signed("{\"alg\":\"HS256\",\"kid\":\"other\"}", &good, secret),
        signed("not json", &good, secret),
        signed(HEADER, "not json", secret),
    ] {
        let refused = registry
            .authorize(Some(&token), None, &wanted)
            .expect_err("the token should be refused");
        assert_eq!(refused.status(), 401, "{token}");
    }
    registry
        .authorize(Some(&signed(HEADER, &good, secret)), None, &wanted)
        .expect("the good token should be taken");
}

#[test]
fn fetched_keys_are_used_like_given_ones() {
    let secret = b"super-secret-for-tests";
    let mut with_url = provider(Vec::new());
    with_url.jwks_url = Some("https://issuer.example/keys".to_string());
    let mut registry = RbacRegistry::from_config(
        config(tenant_readers(), Vec::new(), Vec::new(), vec![with_url]),
        None,
        &vec![FetchedKeys {
            keys: Ok(vec![shared_key(secret)]),
        }],
    )
    .expect("RBAC config should parse");
    let token = signed(
        HEADER,
        &claims(ISSUER, "tsink", now_unix_seconds() + 3600),
        secret,
    );
    registry
        .authorize(Some(&token), None, &read(tenant("team-a")))
        .expect("OIDC token should authorize");

    let mut unreachable = provider(Vec::new());
    unreachable.jwks_url = Some("https://issuer.example/keys".to_string());
    let err = RbacRegistry::from_config(
        config(tenant_readers(), Vec::new(), Vec::new(), vec![unreachable]),
        None,
        &vec![FetchedKeys {
            keys: Err("connection refused".to_string()),
        }],
    )
    .expect_err("keys that could not be fetched are an error");
    assert!(err.contains("connection refused"));
}

#[test]
fn keys_are_read_by_their_type() {
    assert!(matches!(
        parse_oidc_jwk(&shared_key(b"secret")),
        Ok(OidcKeyRuntime::Oct { secret, .. }) if secret == b"secret".to_vec()
    ));
    assert!(parse_oidc_jwk(&jwk("oct")).is_err());
    assert!(parse_oidc_jwk(&jwk("RSA")).is_err());
    assert!(parse_oidc_jwk(&jwk("OKP")).is_err());
    let rsa = OidcJwkDefinition {
        n: Some(URL_SAFE_NO_PAD.encode([1u8, 2, 3])),
        e: Some("AQAB".to_string()),
        ..jwk("RSA")
    };
    assert!(matches!(
        parse_oidc_jwk(&rsa),
        Ok(OidcKeyRuntime::Rsa { n, e, .. }) if n == vec![1, 2, 3] && e == vec![1, 0, 1]
    ));
    let broken = OidcJwkDefinition {
        k: Some("***".to_string()),
        ..jwk("oct")
    };
    assert!(parse_oidc_jwk(&broken).is_err());
}

#[test]
fn public_keys_that_do_not_fit_the_signature_are_refused() {
    let now = now_unix_seconds();
    let rsa = OidcJwkDefinition {
        n: Some(URL_SAFE_NO_PAD.encode([0xc5u8; 256])),
        e: Some("AQAB".to_string()),
        ..jwk("RSA")
    };
    let ec = OidcJwkDefinition {
        crv: Some("P-256".to_string()),
        x: Some(URL_SAFE_NO_PAD.encode([1u8; 32])),
        y: Some(URL_SAFE_NO_PAD.encode([2u8; 32])),
        ..jwk("EC")
    };
    let mut registry = oidc_registry(vec![rsa, ec]);
    for alg in ["RS256", "ES256"] {
        let token = signed(
            &format!("{{\"alg\":\"{alg}\"}}"),
            &claims(ISSUER, "tsink", now + 3600),
            b"secret",
        );
        let refused = registry
            .authorize(Some(&token), None, &read(tenant("team-a")))
            .expect_err("the signature should be refused");
        assert_eq!(refused.status(), 401);
    }
}

const RSA_MODULUS: &str =
    "wjLNbiVjaDinbMML7PVDc6xN6rGmPd-OsnyCpKIotjy5SIDJVxgjKsnYYQ6pt5PjFsG3wWuu\
     pWXlzfgNq8RXz-3byOPEsXT4aJ3tg_amP-kZT-fOiw49-J914C3wYht3hKAW4tCMMlN6Y3v7\
     jD_zy8g7NYu7WXUo0xlXRXXnp1zKN7ZT_EiIrEYPZz7UcqbG3TrBPYfb764spV2pXIzNQhxv\
     uRDfed2kR-kZq2Tdzt1K8TkIjZSmXLOrsy0GoNWFlOsoCCggrr3nlxXsk5U9cA1orqRRFSeK\
     xwcRWeuHXPOTpf63cxDRKTUx8b7jVjMs3CN68haBeBd9nQ9pciuukw";

const RSA_SIGNATURE: &str =
    "Fxyr4p9uCrIdDBk6xfXOxYrfxJkPo2dDunAemVMOFcZkWv3wyDmyLvcZx-t6VEvmoy66hL58\
     fZj2IuJE2ho0lqqIcgIDkfBMcb6R6qkGI49HV5tZTBbUcS9SlrJSJeU1LDpQGCGl5ayL8aWz\
     Bs0av_wMgAbU8LsehA4d_bkPNS9lndeaGm8g3p7Reih4IGrSXN_aWntCAz6HOkjQnMNd-ZyZ\
     Fin3ZrkxSRyIJI7Z1_xmzetNmCDgrMrYXFMjyUN-U_auNzMyRQtB4Ku41o8HBd2VjLurlWMs\
     Gg7I3AxRa48WaU4Q5VviVdp2LcSHPSl02JV4k-hcXqICDVn8AYRmbA";

#[test]
fn tokens_signed_with_rsa_are_taken() {
    let rsa = OidcJwkDefinition {
        n: Some(RSA_MODULUS.to_string()),
        e: Some("AQAB".to_string()),
        ..jwk("RSA")
    };
    let mut registry = oidc_registry(vec![rsa]);
    let token = |expires| {
        format!(
            "{}.{}.{}",
            URL_SAFE_NO_PAD.encode("{\"alg\":\"RS256\"}"),
            URL_SAFE_NO_PAD.encode(claims(ISSUER, "tsink", expires)),
            RSA_SIGNATURE
        )
    };
    let authorized = registry
        .authorize(Some(&token(4_102_444_800)), None, &read(tenant("team-a")))
        .expect("the signature should hold");
    assert_eq!(authorized.principal_id, "oidc:corp:user-123");
    let changed = registry
        .authorize(Some(&token(4_102_444_801)), None, &read(tenant("team-a")))
        .expect_err("another text is not what was signed");
    assert_eq!(changed.status(), 401);
}

#[test]
fn tokens_signed_with_ecdsa_are_taken() {
    let rng = ring::rand::SystemRandom::new();
    let algorithm = &ring::signature::ECDSA_P256_SHA256_FIXED_SIGNING;
    let document = ring::signature::EcdsaKeyPair::generate_pkcs8(algorithm, &rng)
        .expect("a key should be made");
    let pair = ring::signature::EcdsaKeyPair::from_pkcs8(algorithm, document.as_ref(), &rng)
        .expect("the key should be read");
    let point = ring::signature::KeyPair::public_key(&pair).as_ref().to_vec();
    let ec = OidcJwkDefinition {
        crv: Some("P-256".to_string()),
        x: Some(URL_SAFE_NO_PAD.encode(&point[1..33])),
        y: Some(URL_SAFE_NO_PAD.encode(&point[33..65])),
        ..jwk("EC")
    };
    let mut registry = oidc_registry(vec![ec]);
    let message = format!(
        "{}.{}",
        URL_SAFE_NO_PAD.encode("{\"alg\":\"ES256\"}"),
        URL_SAFE_NO_PAD.encode(claims(ISSUER, "tsink", now_unix_seconds() + 3600))
    );
    let signature = pair
        .sign(&rng, message.as_bytes())
        .expect("the text should be signed");
    let token = format!("{message}.{}", URL_SAFE_NO_PAD.encode(signature.as_ref()));
    registry
        .authorize(Some(&token), None, &read(tenant("team-a")))
        .expect("the signature should hold");
}

#[test]
fn service_account_lifecycle_persists_and_audits() {
    let mut registry = RbacRegistry::from_config(
        config(tenant_readers(), Vec::new(), Vec::new(), Vec::new()),
        Some("rbac.json".to_string()),
        &Vec::new(),
    )
    .expect("RBAC registry should load");
    let wanted = read(tenant("team-a"));
    let mut persisted: Vec<(String, bool)> = Vec::new();

    let plan = registry.plan_create(
        &ServiceAccountSpec {
            id: "ci-bot".to_string(),
            description: Some("CI writer".to_string()),
            disabled: false,
            bindings: vec![binding("tenant-reader", vec![tenant("team-a")])],
        },
        1_000,
    );
    let change = registry.prepare(plan, &Vec::new());
    if let Ok(change) = &change {
        persisted = change
            .accounts()
            .iter()
            .map(|account| (account.id.clone(), account.disabled))
            .collect();
    }
    let created = registry
        .conclude_credential(change, Ok(None), AccountEvent::Create, "ci-bot", 1_000)
        .expect("service account should create");
    assert_eq!(created.service_account.id, "ci-bot");
    assert_eq!(persisted, vec![("ci-bot".to_string(), false)]);

    registry
        .authorize(Some(&created.token), None, &wanted)
        .expect("created service account should authorize");

    let change = registry.prepare(registry.plan_rotate("ci-bot", 2_000), &Vec::new());
    let rotated = registry
        .conclude_credential(change, Ok(None), AccountEvent::Rotate, "ci-bot", 2_000)
        .expect("service account should rotate");
    assert_ne!(created.token, rotated.token);
    let old = registry
        .authorize(Some(&created.token), None, &wanted)
        .expect_err("old token should stop authorizing");
    assert_eq!(old.code(), "auth_token_invalid");

    let change = registry.prepare(registry.plan_switch("ci-bot", true, 3_000), &Vec::new());
    if let Ok(change) = &change {
        persisted = change
            .accounts()
            .iter()
            .map(|account| (account.id.clone(), account.disabled))
            .collect();
    }
    registry
        .conclude_change(change, Ok(None), AccountEvent::Disable, "ci-bot", 3_000)
        .expect("service account should disable");
    let disabled = registry
        .authorize(Some(&rotated.token), None, &wanted)
        .expect_err("disabled service account should be blocked");
    assert_eq!(disabled.code(), "auth_principal_disabled");

    assert_eq!(persisted, vec![("ci-bot".to_string(), true)]);

    let audit = registry.audit_snapshot(20);
    assert!(audit
        .iter()
        .any(|entry| entry.code == "service_account_created"));
    assert!(audit
        .iter()
        .any(|entry| entry.code == "service_account_rotated"));
    assert!(audit
        .iter()
        .any(|entry| entry.code == "service_account_disabled"));
}

#[test]
fn a_change_that_is_not_written_is_not_made() {
    let mut registry = account_registry(vec![account("bot", "bot-token")]);
    let plan = registry.plan_rotate_with("bot", Ok("another-token".to_string()), 5);
    let change = registry.prepare(plan, &Vec::new());
    assert!(change.is_ok());
    assert_eq!(
        registry
            .conclude_credential(
                change,
                Err("disk full".to_string()),
                AccountEvent::Rotate,
                "bot",
                5
            )
            .err(),
        Some("disk full".to_string())
    );
    registry
        .authorize(Some("bot-token"), None, &read(tenant("team-a")))
        .expect("the old token should still hold");
    let last = &registry.audit_snapshot(1)[0];
    assert_eq!(last.outcome, "allow");
    assert_eq!(last.code, "authorized");
    assert!(registry
        .audit_snapshot(5)
        .iter()
        .any(|entry| entry.detail.as_deref() == Some("disk full")));
    assert!(registry.rotate_service_account("nobody", &Vec::new()).is_err());
    assert!(registry
        .create_service_account(spec("bot"), &Vec::new())
        .is_err());
}

#[test]
fn concurrent_service_account_creates_preserve_all_accounts() {
    let mut registry = account_registry(Vec::new());
    let mut expected_ids = Vec::new();
    for round in 0..3 {
        for worker in 0..8 {
            let id = format!("bot-{round}-{worker}");
            expected_ids.push(id.clone());
            registry
                .create_service_account(spec(&id), &Vec::new())
                .expect("service account create should succeed");
        }
    }
    expected_ids.sort();

    let mut snapshot_ids = registry
        .state_snapshot()
        .service_accounts
        .into_iter()
        .map(|service_account| service_account.id)
        .collect::<Vec<_>>();
    snapshot_ids.sort();
    assert_eq!(snapshot_ids, expected_ids);

    let mut persisted_ids = registry
        .config()
        .service_accounts
        .iter()
        .map(|service_account| service_account.id.clone())
        .collect::<Vec<_>>();
    persisted_ids.sort();
    assert_eq!(persisted_ids, expected_ids);
}

#[test]
fn concurrent_rotate_and_disable_preserve_each_change() {
    let rotate_accounts = (0..4)
        .map(|index| (format!("rotate-{index}"), format!("rotate-token-{index}")))
        .collect::<Vec<_>>();
    let disable_accounts = (0..4)
        .map(|index| (format!("disable-{index}"), format!("disable-token-{index}")))
        .collect::<Vec<_>>();
    let accounts = rotate_accounts
        .iter()
        .chain(disable_accounts.iter())
        .map(|(id, token)| account(id, token))
        .collect();
    let mut registry = account_registry(accounts);
    let wanted = read(tenant("team-a"));

    let mut rotated = Vec::new();
    let mut disabled = Vec::new();
    for index in 0..4 {
        let (id, old_token) = rotate_accounts[index].clone();
        let credential = registry
            .rotate_service_account(&id, &Vec::new())
            .expect("rotate should succeed");
        rotated.push((id, old_token, credential));
        let (id, old_token) = disable_accounts[index].clone();
        let snapshot = registry
            .set_service_account_disabled(&id, true, &Vec::new())
            .expect("disable should succeed");
        disabled.push((id, old_token, snapshot));
    }

    for (id, old_token, credential) in rotated {
        assert_ne!(credential.token, old_token);
        registry
            .authorize(Some(&credential.token), None, &wanted)
            .expect("rotated token should authorize");
        let denied = registry
            .authorize(Some(&old_token), None, &wanted)
            .expect_err("old token should be rejected");
        assert_eq!(denied.code(), "auth_token_invalid");
        assert_eq!(credential.service_account.id, id);
    }

    for (id, old_token, snapshot) in disabled {
        assert!(snapshot.disabled, "disabled snapshot should stay disabled");
        assert_eq!(snapshot.id, id);
        let denied = registry
            .authorize(Some(&old_token), None, &wanted)
            .expect_err("disabled token should be rejected");
        assert_eq!(denied.code(), "auth_principal_disabled");
    }

    let persisted = &registry.config().service_accounts;
    for (id, old_token) in rotate_accounts {
        let account = persisted
            .iter()
            .find(|account| account.id == id)
            .expect("rotated account should persist");
        assert_ne!(account.token, old_token, "rotated token should persist");
    }
    for (id, _) in disable_accounts {
        let account = persisted
            .iter()
            .find(|account| account.id == id)
            .expect("disabled account should persist");
        assert!(account.disabled);
    }
}

#[test]
fn updates_keep_the_token_and_change_the_rest() {
    let mut registry = account_registry(vec![account("bot", "bot-token")]);
    let updated = registry
        .update_service_account(
            ServiceAccountSpec {
                bindings: vec![binding("tenant-reader", vec![tenant("team-b")])],
                ..spec("bot")
            },
            &Vec::new(),
        )
        .expect("update should succeed");
    assert_eq!(updated.bindings[0].scopes[0].name, "team-b");
    registry
        .authorize(Some("bot-token"), None, &read(tenant("team-b")))
        .expect("the token should hold for the new scope");
    assert!(registry
        .authorize(Some("bot-token"), None, &read(tenant("team-a")))
        .is_err());
}

#[test]
fn configurations_with_mistakes_are_refused() {
    let twice = vec![
        principal("a", "same-token", Vec::new()),
        principal("b", "same-token", Vec::new()),
    ];
    assert!(RbacRegistry::from_config(
        config(tenant_readers(), twice, Vec::new(), Vec::new()),
        None,
        &Vec::new()
    )
    .is_err());
    let unknown = vec![principal("a", "a-token", vec![binding("nobody", Vec::new())])];
    assert!(RbacRegistry::from_config(
        config(tenant_readers(), unknown, Vec::new(), Vec::new()),
        None,
        &Vec::new()
    )
    .is_err());
}

#[test]
fn requests_without_a_known_token_are_refused() {
    let mut registry = account_registry(vec![account("bot", "bot-token")]);
    let missing = registry
        .authorize(None, None, &read(tenant("team-a")))
        .expect_err("a request without a token is refused");
    assert_eq!(missing.status(), 401);
    let unknown = registry
        .authorize(Some("guess"), None, &read(tenant("team-a")))
        .expect_err("an unknown token is refused");
    assert_eq!(unknown.code(), "auth_token_invalid");
    let wrong_action = registry
        .authorize(Some("bot-token"), None, &write(tenant("team-a")))
        .expect_err("an action that is not granted is refused");
    assert_eq!(wrong_action.status(), 403);
}

#[test]
fn patterns_end_in_a_star_or_are_exact() {
    assert!(pattern_matches("*", "anything"));
    assert!(pattern_matches("metrics-*", "metrics-readers"));
    assert!(!pattern_matches("metrics-*", "logs-readers"));
    assert!(pattern_matches("exact", "exact"));
    assert!(!pattern_matches("exact", "exactly"));
}

#[test]
fn names_that_are_none_are_refused_without_a_trace() {
    let mut registry = account_registry(vec![account("bot", "bot-token")]);
    let before = registry.audit_snapshot(0).len();
    assert_eq!(
        registry.rotate_service_account("  ", &Vec::new()).err(),
        Some("service account id must not be empty".to_string())
    );
    assert_eq!(
        registry
            .set_service_account_disabled("a\u{7}b", true, &Vec::new())
            .err(),
        Some("service account id must not contain control characters".to_string())
    );
    assert_eq!(registry.audit_snapshot(0).len(), before);
    assert!(registry
        .rotate_service_account("unknown", &Vec::new())
        .is_err());
    assert_eq!(registry.audit_snapshot(0).len(), before + 1);
    assert_eq!(account_name(" bot "), Ok("bot".to_string()));
}

#[test]
fn a_refused_header_is_worded_by_its_reader() {
    let secret = b"super-secret-for-tests";
    let mut registry = oidc_registry(vec![shared_key(secret)]);
    let wanted = read(tenant("team-a"));
    let good = claims(ISSUER, "tsink", now_unix_seconds() + 3600);
    let token = signed("{\"alg\":1}", &good, secret);
    assert_eq!(signed_header(&token), Some(b"{\"alg\":1}".to_vec()));
    assert_eq!(signed_header("not-signed"), None);
    assert_eq!(signed_header("***.a.b"), None);
    let said = "invalid type: integer `1`, expected a string at line 1 column 8";
    let refused = registry
        .authorize(Some(&token), Some(said), &wanted)
        .expect_err("the header should be refused");
    assert_eq!(refused.code(), "auth_token_invalid");
    assert_eq!(
        registry.audit_snapshot(1)[0].detail,
        Some(format!("invalid JWT header: {said}"))
    );
    registry
        .authorize(Some(&signed(HEADER, &good, secret)), Some(said), &wanted)
        .expect("words alone should refuse nothing");
}

#[test]
fn audit_entries_are_numbered_one_by_one() {
    let mut registry = account_registry(vec![account("bot", "bot-token")]);
    for made in 1..301u64 {
        let all = registry.audit_snapshot(0);
        assert_eq!(all.len() as u64, made.min(256));
        assert_eq!(all[0].sequence, made);
        for (place, entry) in all.iter().enumerate() {
            assert_eq!(entry.sequence, made - place as u64);
        }
        let few = registry.audit_snapshot(3);
        assert_eq!(few.as_slice(), &all[..few.len()]);
        assert_eq!(few.len() as u64, made.min(3));
        registry
            .authorize(Some("guess"), None, &read(tenant("team-a")))
            .expect_err("an unknown token is refused");
    }
}

#[test]
fn a_registry_shows_everything_in_order() {
    let mut roles = tenant_readers();
    roles.insert("admin".to_string(), RoleDefinition { grants: Vec::new() });
    let mut registry = RbacRegistry::from_config(
        config(
            roles,
            vec![
                principal("zoe", "zoe-token", Vec::new()),
                principal("ann", "ann-token", Vec::new()),
            ],
            vec![account("bot-b", "b-token"), account("bot-a", "a-token")],
            Vec::new(),
        ),
        None,
        &Vec::new(),
    )
    .expect("RBAC registry should load");
    let before = registry.state_snapshot();
    assert_eq!(before, registry.state_snapshot());
    assert!(before.enabled);
    assert_eq!(before.roles[0].name, "admin");
    assert_eq!(before.roles[1].name, "tenant-reader");
    assert_eq!(before.principals[0].id, "ann");
    assert_eq!(before.principals[1].id, "zoe");
    assert_eq!(before.service_accounts[0].id, "bot-a");
    assert_eq!(before.service_accounts[1].id, "bot-b");
    assert_eq!(before.audit_entries, 1);

    let made = registry
        .create_service_account(spec(" bot-aa "), &Vec::new())
        .expect("account should be made");
    let after = registry.state_snapshot();
    assert_eq!(after.roles, before.roles);
    assert_eq!(after.principals, before.principals);
    assert_eq!(after.oidc_providers, before.oidc_providers);
    assert_eq!(after.service_accounts.len(), 3);
    assert_eq!(after.service_accounts[0], before.service_accounts[0]);
    assert_eq!(after.service_accounts[1], made.service_account);
    assert_eq!(after.service_accounts[2], before.service_accounts[1]);
    assert_eq!(after.audit_entries, 2);

    registry
        .create_service_account(spec("bot-aa"), &Vec::new())
        .expect_err("a name that is taken is refused");
    let refused = registry.state_snapshot();
    assert_eq!(refused.service_accounts, after.service_accounts);
    assert_eq!(refused.audit_entries, 3);
}

#[test]
fn an_account_that_is_let_in_again_is_answered_as_before() {
    let mut registry = account_registry(vec![account("bot", "bot-token")]);
    let wanted = read(tenant("team-a"));
    let before = registry.authorize(Some("bot-token"), None, &wanted);
    registry
        .set_service_account_disabled(" bot ", true, &Vec::new())
        .expect("account should be shut out");
    let denied = registry
        .authorize(Some("bot-token"), None, &wanted)
        .expect_err("an account that is shut out is denied");
    assert_eq!(denied.code(), "auth_principal_disabled");
    registry
        .set_service_account_disabled("bot", false, &Vec::new())
        .expect("account should be let in again");
    let after = registry.authorize(Some("bot-token"), None, &wanted);
    assert_eq!(
        before.expect("account should be let in").principal_id,
        after.expect("account should be let in again").principal_id
    );
}

fn drawn(byte: u8) -> Option<Vec<u8>> {
    Some(vec![byte; TOKEN_BYTES])
}

fn token_of(byte: u8) -> String {
    format!("tsa_{}", URL_SAFE_NO_PAD.encode([byte; TOKEN_BYTES]))
}

#[test]
fn draws_are_judged_by_who_has_the_token() {
    let rules = config(
        tenant_readers(),
        vec![principal("ann", &format!(" {} ", token_of(1)), Vec::new())],
        vec![account("bot", &token_of(2))],
        Vec::new(),
    );
    assert_eq!(judge_token_draw(&rules, &None), TokenDraw::Failed);
    assert_eq!(judge_token_draw(&rules, &drawn(1)), TokenDraw::Taken);
    assert_eq!(judge_token_draw(&rules, &drawn(2)), TokenDraw::Taken);
    assert_eq!(
        judge_token_draw(&rules, &drawn(0)),
        TokenDraw::Fresh(format!("tsa_{}", "A".repeat(43)))
    );
}

#[test]
fn draws_are_made_until_they_come_to_something() {
    let rules = config(
        tenant_readers(),
        Vec::new(),
        vec![account("bot", &token_of(1))],
        Vec::new(),
    );
    assert_eq!(conclude_token_draws(&rules, &Vec::new()), None);
    assert_eq!(conclude_token_draws(&rules, &vec![drawn(1)]), None);
    assert_eq!(
        conclude_token_draws(&rules, &vec![drawn(1), drawn(3), None]),
        Some(Ok(token_of(3)))
    );
    assert_eq!(
        conclude_token_draws(&rules, &vec![drawn(1), None, drawn(3)]),
        Some(Err("failed to generate service account token".to_string()))
    );
    assert_eq!(MAX_TOKEN_DRAWS, 32);
    assert_eq!(conclude_token_draws(&rules, &vec![drawn(1); 31]), None);
    assert_eq!(
        conclude_token_draws(&rules, &vec![drawn(1); 32]),
        Some(Err(
            "failed to generate a unique service account token".to_string()
        ))
    );
    let mut draws = vec![drawn(1); 31];
    draws.push(drawn(4));
    let token = conclude_token_draws(&rules, &draws).expect("the last draw should decide");
    assert_eq!(token, Ok(token_of(4)));

    let mut registry = account_registry(vec![account("bot", &token_of(1))]);
    let plan = registry.plan_create_with(&spec("fresh"), token, 7);
    let change = registry.prepare(plan, &Vec::new());
    let made = registry
        .conclude_credential(change, Ok(None), AccountEvent::Create, "fresh", 7)
        .expect("account should be made");
    assert_eq!(made.token, token_of(4));
    let plan = registry.plan_rotate_with("fresh", Err("no token".to_string()), 8);
    assert_eq!(plan.err(), Some("no token".to_string()));
}

#[test]
fn a_new_token_decides_as_the_old_one() {
    let mut registry = account_registry(Vec::new());
    let created = registry
        .create_service_account(spec("ci-bot"), &Vec::new())
        .expect("account should be made");
    let allowed = read(tenant("team-a"));
    let denied = write(tenant("team-a"));
    registry
        .authorize(Some(&created.token), None, &allowed)
        .expect("the first token should be let in");
    let first_denial = registry
        .authorize(Some(&created.token), None, &denied)
        .expect_err("the role does not grant writes");
    let rotated = registry
        .rotate_service_account("ci-bot", &Vec::new())
        .expect("token should be rotated");
    assert_ne!(rotated.token, created.token);
    registry
        .authorize(Some(&rotated.token), None, &allowed)
        .expect("the new token should be let in");
    let second_denial = registry
        .authorize(Some(&rotated.token), None, &denied)
        .expect_err("the role still does not grant writes");
    assert_eq!(second_denial.code(), first_denial.code());
    for wanted in [&allowed, &denied] {
        let err = registry
            .authorize(Some(&created.token), None, wanted)
            .expect_err("the old token should be unknown");
        assert_eq!(err.code(), "auth_token_invalid");
    }
    let (before, after) = (created.service_account, rotated.service_account);
    assert_eq!(after.id, before.id);
    assert_eq!(after.description, before.description);
    assert_eq!(after.disabled, before.disabled);
    assert_eq!(after.created_unix_ms, before.created_unix_ms);
    assert_eq!(after.bindings, before.bindings);
}

#[test]
fn a_failed_write_is_judged_by_what_the_file_holds() {
    let failed = || Err("disk full".to_string());
    assert_eq!(
        judge_config_write("rbac.json", b"new", Ok(()), Err("unread".to_string())),
        Ok(None)
    );
    assert_eq!(
        judge_config_write("rbac.json", b"new", failed(), Ok(b"new".to_vec())),
        Ok(Some(
            "RBAC config rbac.json was updated but could not be fully synced: disk full"
                .to_string()
        ))
    );
    for found in [&b"old"[..], b"ne", b"newer"] {
        assert_eq!(
            judge_config_write("rbac.json", b"new", failed(), Ok(found.to_vec())),
            Err("failed to write RBAC config rbac.json: disk full".to_string())
        );
    }
    assert_eq!(
        judge_config_write("rbac.json", b"new", failed(), Err("gone".to_string())),
        Err(
            "failed to write RBAC config rbac.json: disk full; failed to verify persisted \
             contents: gone"
                .to_string()
        )
    );
}

#[test]
fn keys_are_wanted_once_the_rest_is_accepted() {
    let sound = || {
        config(
            tenant_readers(),
            Vec::new(),
            vec![account("bot", "bot-token")],
            Vec::new(),
        )
    };
    assert!(wants_keys(&sound()));
    let mut twice = sound();
    twice.service_accounts.push(account("bot", "other-token"));
    assert!(!wants_keys(&twice));

    let registry = account_registry(vec![account("bot", "bot-token")]);
    assert!(registry.plan_wants_keys(&registry.plan_switch("bot", true, 5)));
    assert!(!registry.plan_wants_keys(&registry.plan_switch("nobody", true, 5)));
    assert!(!registry.plan_wants_keys(&registry.plan_create(&spec("bot"), 5)));
    let mut unknown_role = spec("bot");
    unknown_role.bindings = vec![binding("no-such-role", Vec::new())];
    assert!(!registry.plan_wants_keys(&registry.plan_update(&unknown_role, 5)));
}
