//! Whether a request is let in: by a token of the configuration, or by one that a provider signed.

use vstd::prelude::*;
use vstd::string::*;
use vstd::utf8::encode_utf8;
use crate::control::saturated;
use crate::crypto::{
    ecdsa_p256_accepts, hmac_sha256_accepts, rsa_sha256_accepts, verify_ecdsa_p256,
    verify_hmac_sha256, verify_rsa_sha256, MAX_DIGEST_INPUT,
};
use crate::json::{
    count_colons, find_member, json_colons, member_value, opt_texts, parse_json, parsed_json,
    DocumentView, JsonDocument, JsonField, JsonFieldView,
};
use crate::lists::{
    first_index, group_views, lemma_first_index, lemma_first_index_is, views, Copied,
};
use crate::parsing::{chars_of, pieces, split_char};
use crate::rbac_config::{base64url_decode, decoded};
use crate::rbac_types::{
    forbidden, roles_view, unauthorized, AccountView, AuthorizationError, AuthorizedPrincipal,
    BindingView, ConfigView, DenialView, IdentityView, KeyView, MappingView, OidcKeyRuntime,
    OidcProviderRuntime, PermissionView, PrincipalDefinition, PrincipalGrantView, PrincipalView,
    ProviderView, RbacBindingSnapshot, RbacConfigFile, RbacPermission, RbacResource, ResourceView,
    RoleDefinition, RolesView, ServiceAccountDefinition, OIDC_CLOCK_SKEW_SECONDS,
};
use crate::text::{cat2, cat3, cat4, cat5, opt_str, opt_text, owned, same, trim, trimmed};
use crate::text_map::TextMap;

verus! {

broadcast use group_views;

/// A decision: who is let in, or why nobody is.
pub type Decision = Result<PrincipalGrantView, DenialView>;

/// A decision as it was returned.
pub open spec fn decision_view(result: Result<AuthorizedPrincipal, AuthorizationError>) -> Decision {
    match result {
        Ok(principal) => Ok(principal@),
        Err(error) => Err(error@),
    }
}

/// Whether a value fits a pattern: the same text, or any that starts with what stands before a
/// star at the end.
pub open spec fn pattern_fits(pattern: Seq<char>, value: Seq<char>) -> bool {
    if pattern.len() > 0 && pattern.last() == '*' {
        pattern.len() - 1 <= value.len() && value.take(pattern.len() - 1) == pattern.drop_last()
    } else {
        pattern == value
    }
}

/// Whether a resource fits a pattern.
pub open spec fn resource_fits(pattern: ResourceView, resource: ResourceView) -> bool {
    pattern.kind == resource.kind && pattern_fits(pattern.name, resource.name)
}

/// Whether a binding reaches a resource.
pub open spec fn in_scope(scopes: Seq<ResourceView>, resource: ResourceView) -> bool {
    scopes.len() == 0 || exists|i: int|
        0 <= i < scopes.len() && resource_fits(#[trigger] scopes[i], resource)
}

/// Whether some grants allow an action on a resource.
pub open spec fn granted(grants: Seq<PermissionView>, permission: PermissionView) -> bool {
    exists|i: int|
        0 <= i < grants.len() && (#[trigger] grants[i]).action == permission.action
            && resource_fits(grants[i].resource, permission.resource)
}

/// Whether a binding allows what is asked for.
pub open spec fn allows(roles: RolesView, binding: BindingView, permission: PermissionView) -> bool {
    roles.grants.dom().contains(binding.role) && in_scope(binding.scopes, permission.resource)
        && granted(roles.grants[binding.role], permission)
}

/// Tells the bindings that allow what is asked for.
pub open spec fn allowing(roles: RolesView, permission: PermissionView) -> spec_fn(
    BindingView,
) -> bool {
    |binding: BindingView| allows(roles, binding, permission)
}

/// Who asks, as far as is known before the bindings are looked at.
pub struct Applicant {
    pub principal_id: Seq<char>,
    pub auth_method: Seq<char>,
    pub provider: Option<Seq<char>>,
    pub subject: Option<Seq<char>>,
    pub display_name: Option<Seq<char>>,
}

/// The decision on someone with bindings: the first that allows what is asked for gives the role.
pub open spec fn bindings_decision(
    roles: RolesView,
    bindings: Seq<BindingView>,
    who: Applicant,
    permission: PermissionView,
) -> Decision {
    match first_index(bindings, allowing(roles, permission)) {
        Some(i) => Ok(
            PrincipalGrantView {
                principal_id: who.principal_id,
                role: bindings[i].role,
                auth_method: who.auth_method,
                provider: who.provider,
                subject: who.subject,
                display_name: who.display_name,
            },
        ),
        None => Err(
            DenialView {
                identity: IdentityView {
                    principal_id: Some(who.principal_id),
                    auth_method: Some(who.auth_method),
                    provider: who.provider,
                    subject: who.subject,
                },
                ..forbidden("auth_scope_denied"@)
            },
        ),
    }
}

/// A denial to someone who is shut out.
pub open spec fn disabled_denial(id: Seq<char>, auth_method: Seq<char>) -> DenialView {
    DenialView {
        identity: IdentityView {
            principal_id: Some(id),
            auth_method: Some(auth_method),
            provider: None,
            subject: None,
        },
        ..forbidden("auth_principal_disabled"@)
    }
}

/// The decision on a principal.
pub open spec fn principal_decision(
    roles: RolesView,
    principal: PrincipalView,
    permission: PermissionView,
) -> Decision {
    if principal.disabled {
        Err(disabled_denial(principal.id, "token"@))
    } else {
        bindings_decision(
            roles,
            principal.bindings,
            Applicant {
                principal_id: principal.id,
                auth_method: "token"@,
                provider: None,
                subject: None,
                display_name: None,
            },
            permission,
        )
    }
}

/// The decision on a service account.
pub open spec fn account_decision(
    roles: RolesView,
    account: AccountView,
    permission: PermissionView,
) -> Decision {
    if account.disabled {
        Err(disabled_denial(account.id, "service_account"@))
    } else {
        bindings_decision(
            roles,
            account.bindings,
            Applicant {
                principal_id: account.id,
                auth_method: "service_account"@,
                provider: None,
                subject: Some(account.id),
                display_name: Some(account.id),
            },
            permission,
        )
    }
}

/// Tells the principals with a token.
pub open spec fn principal_has(token: Seq<char>) -> spec_fn(PrincipalView) -> bool {
    |principal: PrincipalView| trimmed(principal.token) == token
}

/// Tells the service accounts with a token.
pub open spec fn account_has(token: Seq<char>) -> spec_fn(AccountView) -> bool {
    |account: AccountView| trimmed(account.token) == token
}

/// The text of a claim, without white space at its ends, unless nothing is left.
pub open spec fn claim_text(claims: DocumentView, name: Seq<char>) -> Option<Seq<char>> {
    match member_value(claims, name) {
        Some(JsonFieldView::Text(text)) => if trimmed(text).len() == 0 {
            None
        } else {
            Some(trimmed(text))
        },
        _ => None,
    }
}

/// The texts of a list, without white space at their ends, but for those of which nothing is left.
pub open spec fn list_texts(items: Seq<Option<Seq<char>>>) -> Seq<Seq<char>>
    decreases items.len(),
{
    if items.len() == 0 {
        Seq::empty()
    } else {
        let before = list_texts(items.drop_last());
        match items.last() {
            Some(text) => if trimmed(text).len() == 0 {
                before
            } else {
                before.push(trimmed(text))
            },
            None => before,
        }
    }
}

/// The texts of a claim that is a text or a list.
pub open spec fn claim_texts(claims: DocumentView, name: Seq<char>) -> Seq<Seq<char>> {
    match member_value(claims, name) {
        Some(JsonFieldView::Text(text)) => list_texts(seq![Some(text)]),
        Some(JsonFieldView::List(items)) => list_texts(items),
        _ => Seq::empty(),
    }
}

/// The number of a claim.
pub open spec fn claim_number(claims: DocumentView, name: Seq<char>) -> Option<u64> {
    match member_value(claims, name) {
        Some(JsonFieldView::Number(Some(n))) => Some(n),
        _ => None,
    }
}

/// The header of a signed token: the algorithm, and the name of the key where there is one.
pub struct HeaderView {
    pub alg: Seq<char>,
    pub kid: Option<Seq<char>>,
}

/// Why a header that is JSON is refused, where the reader of headers has not said it.
pub open spec fn header_refusal() -> Seq<char> {
    "expected the members alg and kid"@
}

/// What is wrong with a header: what its reader said, or else `own`.
pub open spec fn header_words(fault: Option<Seq<char>>, own: Seq<char>) -> Seq<char> {
    match fault {
        Some(text) => text,
        None => own,
    }
}

/// The bytes of the header of a signed token, where it has three parts and the first can be decoded.
pub open spec fn header_of(token: Seq<char>) -> Option<Seq<u8>> {
    if pieces(token, '.').len() == 3 {
        match decoded(pieces(token, '.')[0]) {
            Ok(bytes) => Some(bytes),
            Err(_) => None,
        }
    } else {
        None
    }
}

/// The header that a JSON document stands for: an object with the members `alg` and `kid`, each at
/// most once and the second optional, or a list of their values. `colons` counts the members of an
/// object as they are written.
pub open spec fn token_header(document: DocumentView, colons: nat) -> Option<HeaderView> {
    match document {
        DocumentView::Object(members) => {
            let alg = member_value(document, "alg"@);
            let kid = member_value(document, "kid"@);
            let known = if kid is Some {
                2nat
            } else {
                1nat
            };
            match alg {
                Some(JsonFieldView::Text(name)) => if members.len() != known || colons != known {
                    None
                } else {
                    match kid {
                        None | Some(JsonFieldView::Null) => Some(
                            HeaderView { alg: name, kid: None },
                        ),
                        Some(JsonFieldView::Text(id)) => Some(
                            HeaderView { alg: name, kid: Some(id) },
                        ),
                        _ => None,
                    }
                },
                _ => None,
            }
        },
        DocumentView::List(items) => if items.len() == 0 || items.len() > 2 {
            None
        } else {
            match items[0] {
                JsonFieldView::Text(name) => if items.len() == 1 {
                    Some(HeaderView { alg: name, kid: None })
                } else {
                    match items[1] {
                        JsonFieldView::Null => Some(HeaderView { alg: name, kid: None }),
                        JsonFieldView::Text(id) => Some(HeaderView { alg: name, kid: Some(id) }),
                        _ => None,
                    }
                },
                _ => None,
            }
        },
        DocumentView::Other => None,
    }
}

/// The name of a key.
pub open spec fn key_name(key: KeyView) -> Option<Seq<char>> {
    match key {
        KeyView::Rsa { kid, .. } => kid,
        KeyView::EcP256 { kid, .. } => kid,
        KeyView::Oct { kid, .. } => kid,
    }
}

/// The algorithm that a key is meant for.
pub open spec fn key_alg(key: KeyView) -> Option<Seq<char>> {
    match key {
        KeyView::Rsa { alg, .. } => alg,
        KeyView::EcP256 { alg, .. } => alg,
        KeyView::Oct { alg, .. } => alg,
    }
}

/// Whether a header may mean a key.
pub open spec fn key_matches(key: KeyView, header: HeaderView) -> bool {
    (header.kid is Some ==> key_name(key) == header.kid) && (key_alg(key) is Some ==> key_alg(key)
        == Some(header.alg))
}

/// Whether a key can check a signature of the header's algorithm.
pub open spec fn key_usable(key: KeyView, header: HeaderView) -> bool {
    key_matches(key, header) && match key {
        KeyView::Rsa { .. } => header.alg == "RS256"@,
        KeyView::EcP256 { .. } => header.alg == "ES256"@,
        KeyView::Oct { .. } => header.alg == "HS256"@,
    }
}

/// Tells the keys that a header may mean.
pub open spec fn matching(header: HeaderView) -> spec_fn(KeyView) -> bool {
    |key: KeyView| key_matches(key, header)
}

/// Tells the keys that can check a signature of the header's algorithm.
pub open spec fn usable(header: HeaderView) -> spec_fn(KeyView) -> bool {
    |key: KeyView| key_usable(key, header)
}

/// Whether a key accepts a signature; none accepts one of data too long for the digest.
pub open spec fn key_accepts(key: KeyView, data: Seq<u8>, signature: Seq<u8>) -> bool {
    data.len() <= MAX_DIGEST_INPUT && match key {
        KeyView::Rsa { n, e, .. } => rsa_sha256_accepts(n, e, data, signature),
        KeyView::EcP256 { x, y, .. } => ecdsa_p256_accepts(seq![4u8] + x + y, data, signature),
        KeyView::Oct { secret, .. } => secret.len() <= MAX_DIGEST_INPUT && hmac_sha256_accepts(
            secret,
            data,
            signature,
        ),
    }
}

/// Why a signature is not accepted, given whether the first key that can check it accepts it.
pub open spec fn verdict_denial(
    provider: ProviderView,
    header: HeaderView,
    accepted: bool,
) -> Option<DenialView> {
    match first_index(provider.keys, usable(header)) {
        Some(_) => if accepted {
            None
        } else {
            Some(
                DenialView {
                    detail: Some(
                        "signature verification failed for provider '"@ + provider.name + "'"@,
                    ),
                    ..unauthorized("auth_oidc_signature_invalid"@)
                },
            )
        },
        None => if first_index(provider.keys, matching(header)) is Some {
            Some(unauthorized("auth_oidc_signature_invalid"@))
        } else {
            Some(
                DenialView {
                    detail: Some(
                        "no signing key matched alg='"@ + header.alg + "' kid='"@ + match header.kid {
                            Some(kid) => kid,
                            None => ""@,
                        } + "'"@,
                    ),
                    ..unauthorized("auth_oidc_signing_key_missing"@)
                },
            )
        },
    }
}

/// Whether the first key of a provider that can check a signature accepts it.
pub open spec fn provider_accepts(
    provider: ProviderView,
    header: HeaderView,
    data: Seq<u8>,
    signature: Seq<u8>,
) -> bool {
    match first_index(provider.keys, usable(header)) {
        Some(i) => key_accepts(provider.keys[i], data, signature),
        None => false,
    }
}

/// Why a signature is not accepted. The first key that can check it decides.
pub open spec fn signature_denial(
    provider: ProviderView,
    header: HeaderView,
    data: Seq<u8>,
    signature: Seq<u8>,
) -> Option<DenialView> {
    verdict_denial(provider, header, provider_accepts(provider, header, data, signature))
}

/// Whether one of some texts is among others.
pub open spec fn any_among(list: Seq<Seq<char>>, others: Seq<Seq<char>>) -> bool {
    exists|i: int| 0 <= i < list.len() && others.contains(#[trigger] list[i])
}

/// Why the claims of a token are not accepted at a time in seconds.
pub open spec fn claims_denial(provider: ProviderView, claims: DocumentView, now_secs: u64) -> Option<
    DenialView,
> {
    let latest = saturated(now_secs, OIDC_CLOCK_SKEW_SECONDS);
    match claim_number(claims, "exp"@) {
        None => Some(unauthorized("auth_oidc_exp_missing"@)),
        Some(exp) => if saturated(exp, OIDC_CLOCK_SKEW_SECONDS) <= now_secs {
            Some(unauthorized("auth_oidc_token_expired"@))
        } else if claim_number(claims, "nbf"@) is Some && latest < claim_number(claims, "nbf"@)->0 {
            Some(unauthorized("auth_oidc_token_not_yet_valid"@))
        } else if claim_number(claims, "iat"@) is Some && latest < claim_number(claims, "iat"@)->0 {
            Some(unauthorized("auth_oidc_token_not_yet_valid"@))
        } else if provider.audiences.len() > 0 && !any_among(
            claim_texts(claims, "aud"@),
            provider.audiences,
        ) {
            Some(unauthorized("auth_oidc_audience_invalid"@))
        } else {
            None
        },
    }
}

/// Whether a claim of a token has a value that fits a pattern.
pub open spec fn claim_fits(claims: DocumentView, claim: Seq<char>, pattern: Seq<char>) -> bool {
    exists|i: int|
        0 <= i < claim_texts(claims, claim).len() && pattern_fits(
            pattern,
            #[trigger] claim_texts(claims, claim)[i],
        )
}

/// The bindings that the claims of a token give by the first mappings.
pub open spec fn mapped_bindings(claims: DocumentView, mappings: Seq<MappingView>) -> Seq<
    BindingView,
>
    decreases mappings.len(),
{
    if mappings.len() == 0 {
        Seq::empty()
    } else {
        let before = mapped_bindings(claims, mappings.drop_last());
        if claim_fits(claims, mappings.last().claim, mappings.last().value) {
            before + mappings.last().bindings
        } else {
            before
        }
    }
}

/// Tells the providers of an issuer.
pub open spec fn issued_by(issuer: Seq<char>) -> spec_fn(ProviderView) -> bool {
    |provider: ProviderView| provider.issuer == issuer
}

/// A denial with the provider that the token seems to come from.
pub open spec fn provider_denial(denial: DenialView, provider: Seq<char>) -> DenialView {
    DenialView {
        identity: IdentityView {
            principal_id: None,
            auth_method: Some("oidc"@),
            provider: Some(provider),
            subject: None,
        },
        ..denial
    }
}

/// The decision on the bearer of a token that a provider issued, once its signature is checked.
pub open spec fn bearer_decision(
    roles: RolesView,
    provider: ProviderView,
    claims: DocumentView,
    permission: PermissionView,
) -> Decision {
    match claim_text(claims, "sub"@) {
        None => Err(unauthorized("auth_oidc_subject_missing"@)),
        Some(subject) => bindings_decision(
            roles,
            mapped_bindings(claims, provider.claim_mappings),
            Applicant {
                principal_id: "oidc:"@ + provider.name + ":"@ + subject,
                auth_method: "oidc"@,
                provider: Some(provider.name),
                subject: Some(subject),
                display_name: match provider.username_claim {
                    None => None,
                    Some(claim) => if claim_texts(claims, claim).len() == 0 {
                        None
                    } else {
                        Some(claim_texts(claims, claim)[0])
                    },
                },
            },
            permission,
        ),
    }
}

/// The decision on a signed token, given its header, claims and signature.
pub open spec fn signed_decision(
    roles: RolesView,
    providers: Seq<ProviderView>,
    header: HeaderView,
    claims: DocumentView,
    data: Seq<u8>,
    signature: Seq<u8>,
    permission: PermissionView,
    now_secs: u64,
) -> Decision {
    match claim_text(claims, "iss"@) {
        None => Err(unauthorized("auth_oidc_issuer_missing"@)),
        Some(issuer) => match first_index(providers, issued_by(issuer)) {
            None => Err(
                DenialView {
                    detail: Some("issuer '"@ + issuer + "' is not configured"@),
                    ..unauthorized("auth_oidc_provider_not_configured"@)
                },
            ),
            Some(i) => {
                let provider = providers[i];
                match signature_denial(provider, header, data, signature) {
                    Some(denial) => Err(provider_denial(denial, provider.name)),
                    None => match claims_denial(provider, claims, now_secs) {
                        Some(denial) => Err(provider_denial(denial, provider.name)),
                        None => bearer_decision(roles, provider, claims, permission),
                    },
                }
            },
        },
    }
}

/// A denial of a token that is not well formed.
pub open spec fn malformed(detail: Seq<char>) -> DenialView {
    DenialView { detail: Some(detail), ..unauthorized("auth_token_invalid"@) }
}

/// The decision on a token of three parts: header, claims and signature. A header that is refused is
/// refused in the words of its reader, where there are any.
pub open spec fn token_decision(
    roles: RolesView,
    providers: Seq<ProviderView>,
    parts: Seq<Seq<char>>,
    header_fault: Option<Seq<char>>,
    permission: PermissionView,
    now_secs: u64,
) -> Decision {
    match (decoded(parts[0]), decoded(parts[1]), decoded(parts[2])) {
        (Err(detail), _, _) => Err(malformed(detail)),
        (_, Err(detail), _) => Err(malformed(detail)),
        (_, _, Err(detail)) => Err(malformed(detail)),
        (Ok(header_bytes), Ok(claims_bytes), Ok(signature)) => match parsed_json(header_bytes) {
            Err(detail) => Err(
                malformed("invalid JWT header: "@ + header_words(header_fault, detail)),
            ),
            Ok(document) => match token_header(document, json_colons(header_bytes)) {
                None => Err(
                    malformed("invalid JWT header: "@ + header_words(header_fault, header_refusal())),
                ),
                Some(header) => match parsed_json(claims_bytes) {
                    Err(detail) => Err(malformed("invalid JWT claims: "@ + detail)),
                    Ok(claims) => signed_decision(
                        roles,
                        providers,
                        header,
                        claims,
                        encode_utf8(parts[0] + "."@ + parts[1]),
                        signature,
                        permission,
                        now_secs,
                    ),
                },
            },
        },
    }
}

/// The decision on a token, if there is one: a principal's or a service account's token of the
/// configuration, else a signed token of three parts.
pub open spec fn access_decision(
    config: ConfigView,
    providers: Seq<ProviderView>,
    token: Option<Seq<char>>,
    header_fault: Option<Seq<char>>,
    permission: PermissionView,
    now_secs: u64,
) -> Decision {
    match token {
        None => Err(unauthorized("auth_token_missing"@)),
        Some(text) => match first_index(config.principals, principal_has(text)) {
            Some(i) => principal_decision(config.roles, config.principals[i], permission),
            None => match first_index(config.service_accounts, account_has(text)) {
                Some(i) => account_decision(
                    config.roles,
                    config.service_accounts[i],
                    permission,
                ),
                None => if pieces(text, '.').len() == 3 {
                    token_decision(
                        config.roles,
                        providers,
                        pieces(text, '.'),
                        header_fault,
                        permission,
                        now_secs,
                    )
                } else {
                    Err(unauthorized("auth_token_invalid"@))
                },
            },
        },
    }
}

/// Whether a value fits a pattern.
pub fn pattern_matches(pattern: &str, value: &str) -> (res: bool)
    ensures
        res == pattern_fits(pattern@, value@),
{
    let wanted = chars_of(pattern);
    let given = chars_of(value);
    let count: usize = wanted.len();
    if count > 0 && wanted[count - 1] == '*' {
        if count - 1 > given.len() {
            return false;
        }
        let mut i: usize = 0;
        while i < count - 1
            invariant
                i <= count - 1,
                count == wanted.len(),
                count - 1 <= given.len(),
                wanted@ == pattern@,
                given@ == value@,
                forall|k: int| 0 <= k < i ==> #[trigger] wanted@[k] == given@[k],
            decreases count - 1 - i,
        {
            if wanted[i] != given[i] {
                assert(value@.take(count - 1)[i as int] != pattern@.drop_last()[i as int]);
                return false;
            }
            i += 1;
        }
        assert(value@.take(count - 1) =~= pattern@.drop_last());
        return true;
    }
    same(pattern, value)
}

/// Whether a resource fits a pattern.
pub fn resource_matches(pattern: &RbacResource, requested: &RbacResource) -> (res: bool)
    ensures
        res == resource_fits(pattern@, requested@),
{
    pattern.kind == requested.kind && pattern_matches(&pattern.name, &requested.name)
}

fn scope_allows(scopes: &Vec<RbacResource>, resource: &RbacResource) -> (res: bool)
    ensures
        res == in_scope(views(scopes@), resource@),
{
    let ghost all = views(scopes@);
    if scopes.len() == 0 {
        return true;
    }
    let mut i: usize = 0;
    while i < scopes.len()
        invariant
            i <= scopes.len(),
            all == views(scopes@),
            forall|k: int| 0 <= k < i ==> !resource_fits(#[trigger] all[k], resource@),
        decreases scopes.len() - i,
    {
        assert(all[i as int] == scopes@[i as int]@);
        if resource_matches(&scopes[i], resource) {
            return true;
        }
        i += 1;
    }
    false
}

fn role_grants(role: &RoleDefinition, permission: &RbacPermission) -> (res: bool)
    ensures
        res == granted(views(role.grants@), permission@),
{
    let ghost all = views(role.grants@);
    let mut i: usize = 0;
    while i < role.grants.len()
        invariant
            i <= role.grants.len(),
            all == views(role.grants@),
            forall|k: int|
                0 <= k < i ==> !((#[trigger] all[k]).action == permission@.action && resource_fits(
                    all[k].resource,
                    permission@.resource,
                )),
        decreases role.grants.len() - i,
    {
        assert(all[i as int] == role.grants@[i as int]@);
        if role.grants[i].action == permission.action && resource_matches(
            &role.grants[i].resource,
            &permission.resource,
        ) {
            return true;
        }
        i += 1;
    }
    false
}

/// Whether a binding allows what is asked for.
fn binding_allows(
    roles: &TextMap<RoleDefinition>,
    binding: &RbacBindingSnapshot,
    permission: &RbacPermission,
) -> (res: bool)
    ensures
        res == allows(roles_view(*roles), binding@, permission@),
{
    match roles.get(&binding.role) {
        None => false,
        Some(role) => scope_allows(&binding.scopes, &permission.resource) && role_grants(
            role,
            permission,
        ),
    }
}

/// Decides on someone with bindings.
pub(crate) fn authorize_bindings(
    roles: &TextMap<RoleDefinition>,
    bindings: &Vec<RbacBindingSnapshot>,
    principal_id: String,
    auth_method: &str,
    provider: Option<String>,
    subject: Option<String>,
    display_name: Option<String>,
    permission: &RbacPermission,
) -> (res: Result<AuthorizedPrincipal, AuthorizationError>)
    ensures
        decision_view(res) == bindings_decision(
            roles_view(*roles),
            views(bindings@),
            Applicant {
                principal_id: principal_id@,
                auth_method: auth_method@,
                provider: opt_text(provider),
                subject: opt_text(subject),
                display_name: opt_text(display_name),
            },
            permission@,
        ),
{
    let ghost all = views(bindings@);
    let ghost known = roles_view(*roles);
    let mut i: usize = 0;
    while i < bindings.len()
        invariant_except_break
            i <= bindings.len(),
            all == views(bindings@),
            known == roles_view(*roles),
            forall|k: int| 0 <= k < i ==> !allowing(known, permission@)(#[trigger] all[k]),
        ensures
            i <= bindings.len(),
            forall|k: int| 0 <= k < i ==> !allowing(known, permission@)(#[trigger] all[k]),
            i < bindings.len() ==> allowing(known, permission@)(all[i as int]),
        decreases bindings.len() - i,
    {
        assert(all[i as int] == bindings@[i as int]@);
        if binding_allows(roles, &bindings[i], permission) {
            break;
        }
        i += 1;
    }
    proof {
        lemma_first_index(all, allowing(known, permission@));
        if i < bindings.len() {
            lemma_first_index_is(all, allowing(known, permission@), i as int);
        }
    }
    if i < bindings.len() {
        assert(all[i as int] == bindings@[i as int]@);
        return Ok(
            AuthorizedPrincipal {
                principal_id,
                role: bindings[i].role.clone(),
                auth_method: owned(auth_method),
                provider,
                subject,
                display_name,
            },
        );
    }
    Err(
        AuthorizationError::forbidden("auth_scope_denied").with_identity(
            Some(principal_id),
            Some(owned(auth_method)),
            provider,
            subject,
        ),
    )
}

fn authorize_principal(
    roles: &TextMap<RoleDefinition>,
    principal: &PrincipalDefinition,
    permission: &RbacPermission,
) -> (res: Result<AuthorizedPrincipal, AuthorizationError>)
    ensures
        decision_view(res) == principal_decision(roles_view(*roles), principal@, permission@),
{
    if principal.disabled {
        return Err(
            AuthorizationError::forbidden("auth_principal_disabled").with_identity(
                Some(principal.id.clone()),
                Some(owned("token")),
                None,
                None,
            ),
        );
    }
    authorize_bindings(
        roles,
        &principal.bindings,
        principal.id.clone(),
        "token",
        None,
        None,
        None,
        permission,
    )
}

fn authorize_account(
    roles: &TextMap<RoleDefinition>,
    account: &ServiceAccountDefinition,
    permission: &RbacPermission,
) -> (res: Result<AuthorizedPrincipal, AuthorizationError>)
    ensures
        decision_view(res) == account_decision(roles_view(*roles), account@, permission@),
{
    if account.disabled {
        return Err(
            AuthorizationError::forbidden("auth_principal_disabled").with_identity(
                Some(account.id.clone()),
                Some(owned("service_account")),
                None,
                None,
            ),
        );
    }
    authorize_bindings(
        roles,
        &account.bindings,
        account.id.clone(),
        "service_account",
        None,
        Some(account.id.clone()),
        Some(account.id.clone()),
        permission,
    )
}

/// The text of a claim.
pub fn claim_string(claims: &JsonDocument, name: &str) -> (res: Option<String>)
    ensures
        opt_text(res) == claim_text(claims@, name@),
{
    match find_member(claims, name) {
        Some(JsonField::Text(text)) => {
            let text = trim(text);
            if text.is_empty() {
                None
            } else {
                Some(owned(text))
            }
        },
        _ => None,
    }
}

/// The texts of a claim that is a text or a list.
pub fn claim_values(claims: &JsonDocument, name: &str) -> (res: Vec<String>)
    ensures
        views(res@) == claim_texts(claims@, name@),
{
    let mut out: Vec<String> = Vec::new();
    assert(views(out@) =~= Seq::<Seq<char>>::empty());
    match find_member(claims, name) {
        Some(JsonField::Text(value)) => {
            let text = trim(value);
            proof {
                assert(seq![Some(value@)].drop_last() =~= Seq::<Option<Seq<char>>>::empty());
                reveal_with_fuel(list_texts, 2);
            }
            if !text.is_empty() {
                out.push(owned(text));
            }
            out
        },
        Some(JsonField::List(items)) => {
            let ghost all = opt_texts(items@);
            let mut i: usize = 0;
            while i < items.len()
                invariant
                    i <= items.len(),
                    all == opt_texts(items@),
                    views(out@) == list_texts(all.take(i as int)),
                decreases items.len() - i,
            {
                assert(all.take(i + 1).drop_last() =~= all.take(i as int));
                assert(all.take(i + 1).last() == opt_text(items@[i as int]));
                if let Some(value) = &items[i] {
                    let text = trim(value);
                    if !text.is_empty() {
                        out.push(owned(text));
                    }
                }
                i += 1;
            }
            assert(all.take(i as int) =~= all);
            out
        },
        _ => out,
    }
}

fn claim_u64(claims: &JsonDocument, name: &str) -> (res: Option<u64>)
    ensures
        res == claim_number(claims@, name@),
{
    match find_member(claims, name) {
        Some(JsonField::Number(Some(n))) => Some(*n),
        _ => None,
    }
}

/// The header of a signed token.
#[derive(Debug, PartialEq, Eq)]
pub struct JwtHeader {
    pub alg: String,
    pub kid: Option<String>,
}

impl View for JwtHeader {
    type V = HeaderView;

    open spec fn view(&self) -> HeaderView {
        HeaderView { alg: self.alg@, kid: opt_text(self.kid) }
    }
}

/// The header that a JSON document stands for; `colons` counts the members of an object as they are
/// written.
pub fn read_header(document: &JsonDocument, colons: usize) -> (res: Option<JwtHeader>)
    ensures
        match res {
            Some(header) => token_header(document@, colons as nat) == Some(header@),
            None => token_header(document@, colons as nat) is None,
        },
{
    match document {
        JsonDocument::Other => None,
        JsonDocument::List(items) => {
            assert(views(items@).len() == items.len());
            if items.len() == 0 || items.len() > 2 {
                return None;
            }
            assert(views(items@)[0] == items@[0]@);
            let alg = match &items[0] {
                JsonField::Text(name) => name.clone(),
                _ => {
                    return None;
                },
            };
            if items.len() == 1 {
                return Some(JwtHeader { alg, kid: None });
            }
            assert(views(items@)[1] == items@[1]@);
            match &items[1] {
                JsonField::Null => Some(JwtHeader { alg, kid: None }),
                JsonField::Text(id) => Some(JwtHeader { alg, kid: Some(id.clone()) }),
                _ => None,
            }
        },
        JsonDocument::Object(members) => {
            assert(views(members@).len() == members.len());
            let kid = find_member(document, "kid");
            let known: usize = if kid.is_some() {
                2
            } else {
                1
            };
            let alg = match find_member(document, "alg") {
                Some(JsonField::Text(name)) => name.clone(),
                _ => {
                    return None;
                },
            };
            if members.len() != known || colons != known {
                return None;
            }
            match kid {
                None | Some(JsonField::Null) => Some(JwtHeader { alg, kid: None }),
                Some(JsonField::Text(id)) => Some(JwtHeader { alg, kid: Some(id.clone()) }),
                _ => None,
            }
        },
    }
}

impl OidcKeyRuntime {
    fn kid(&self) -> (res: &Option<String>)
        ensures
            opt_text(*res) == key_name(self@),
    {
        match self {
            OidcKeyRuntime::Rsa { kid, .. } => kid,
            OidcKeyRuntime::EcP256 { kid, .. } => kid,
            OidcKeyRuntime::Oct { kid, .. } => kid,
        }
    }

    fn alg(&self) -> (res: &Option<String>)
        ensures
            opt_text(*res) == key_alg(self@),
    {
        match self {
            OidcKeyRuntime::Rsa { alg, .. } => alg,
            OidcKeyRuntime::EcP256 { alg, .. } => alg,
            OidcKeyRuntime::Oct { alg, .. } => alg,
        }
    }

    /// The name of the key, for those who look at the configuration.
    pub fn descriptor(&self) -> (res: String)
        ensures
            res@ == match key_name(self@) {
                Some(name) => name,
                None => "<unnamed>"@,
            },
    {
        match self.kid() {
            Some(name) => name.clone(),
            None => owned("<unnamed>"),
        }
    }

    fn matches(&self, header: &JwtHeader) -> (res: bool)
        ensures
            res == key_matches(self@, header@),
    {
        let named: bool = match &header.kid {
            None => true,
            Some(requested) => match self.kid() {
                Some(kid) => same(kid, requested),
                None => false,
            },
        };
        let meant: bool = match self.alg() {
            None => true,
            Some(alg) => same(alg, &header.alg),
        };
        named && meant
    }

    fn is_usable(&self, header: &JwtHeader) -> (res: bool)
        ensures
            res == key_usable(self@, header@),
    {
        self.matches(header) && match self {
            OidcKeyRuntime::Rsa { .. } => same(&header.alg, "RS256"),
            OidcKeyRuntime::EcP256 { .. } => same(&header.alg, "ES256"),
            OidcKeyRuntime::Oct { .. } => same(&header.alg, "HS256"),
        }
    }

    fn accepts(&self, data: &[u8], signature: &[u8]) -> (res: bool)
        ensures
            res == key_accepts(self@, data@, signature@),
    {
        if data.len() as u64 > MAX_DIGEST_INPUT {
            return false;
        }
        match self {
            OidcKeyRuntime::Rsa { n, e, .. } => verify_rsa_sha256(
                n.as_slice(),
                e.as_slice(),
                data,
                signature,
            ),
            OidcKeyRuntime::EcP256 { x, y, .. } => {
                let mut public_key: Vec<u8> = Vec::new();
                public_key.push(0x04);
                push_all(&mut public_key, x);
                push_all(&mut public_key, y);
                assert(public_key@ =~= seq![4u8] + x@ + y@);
                verify_ecdsa_p256(public_key.as_slice(), data, signature)
            },
            OidcKeyRuntime::Oct { secret, .. } => secret.len() as u64 <= MAX_DIGEST_INPUT
                && verify_hmac_sha256(secret.as_slice(), data, signature),
        }
    }
}

fn push_all(out: &mut Vec<u8>, bytes: &Vec<u8>)
    ensures
        final(out)@ == old(out)@ + bytes@,
{
    let ghost start = out@;
    let mut i: usize = 0;
    while i < bytes.len()
        invariant
            i <= bytes.len(),
            start == old(out)@,
            out@ == start + bytes@.take(i as int),
        decreases bytes.len() - i,
    {
        out.push(bytes[i]);
        assert(out@ =~= start + bytes@.take(i + 1));
        i += 1;
    }
    assert(bytes@.take(i as int) =~= bytes@);
}

/// The first key of a provider that can check a signature of the header's algorithm.
fn usable_key(provider: &OidcProviderRuntime, header: &JwtHeader) -> (res: Option<usize>)
    ensures
        match res {
            Some(i) => i < provider.keys.len() && first_index(
                provider@.keys,
                usable(header@),
            ) == Some(i as int),
            None => first_index(provider@.keys, usable(header@)) is None,
        },
{
    let ghost all = provider@.keys;
    let mut i: usize = 0;
    while i < provider.keys.len()
        invariant
            i <= provider.keys.len(),
            all == views(provider.keys@),
            provider@.keys == all,
            forall|k: int| 0 <= k < i ==> !usable(header@)(#[trigger] all[k]),
        decreases provider.keys.len() - i,
    {
        assert(all[i as int] == provider.keys@[i as int]@);
        if provider.keys[i].is_usable(header) {
            proof {
                lemma_first_index_is(all, usable(header@), i as int);
            }
            return Some(i);
        }
        i += 1;
    }
    proof {
        lemma_first_index(all, usable(header@));
    }
    None
}

fn has_matching_key(provider: &OidcProviderRuntime, header: &JwtHeader) -> (res: bool)
    ensures
        res == (first_index(provider@.keys, matching(header@)) is Some),
{
    let ghost all = provider@.keys;
    proof {
        lemma_first_index(all, matching(header@));
    }
    let mut i: usize = 0;
    while i < provider.keys.len()
        invariant
            i <= provider.keys.len(),
            all == views(provider.keys@),
            forall|k: int| 0 <= k < i ==> !matching(header@)(#[trigger] all[k]),
        decreases provider.keys.len() - i,
    {
        assert(all[i as int] == provider.keys@[i as int]@);
        if provider.keys[i].matches(header) {
            proof {
                lemma_first_index_is(all, matching(header@), i as int);
                assert(provider@.keys == all);
            }
            return true;
        }
        i += 1;
    }
    proof {
        assert(provider@.keys == all);
        lemma_first_index(all, matching(header@));
    }
    false
}

/// A denial as it was returned.
pub open spec fn denial_view(result: Option<AuthorizationError>) -> Option<DenialView> {
    match result {
        Some(error) => Some(error@),
        None => None,
    }
}

/// Says why a signature is not accepted, given whether the first key that can check it accepts it.
pub fn judge_signature(provider: &OidcProviderRuntime, header: &JwtHeader, accepted: bool) -> (res:
    Option<AuthorizationError>)
    ensures
        denial_view(res) == verdict_denial(provider@, header@, accepted),
{
    if usable_key(provider, header).is_some() {
        if accepted {
            return None;
        }
        return Some(
            AuthorizationError::unauthorized("auth_oidc_signature_invalid").with_detail(
                cat3(
                    "signature verification failed for provider '",
                    &provider.name,
                    "'",
                ),
            ),
        );
    }
    if has_matching_key(provider, header) {
        return Some(AuthorizationError::unauthorized("auth_oidc_signature_invalid"));
    }
    let kid: &str = match &header.kid {
        Some(kid) => kid.as_str(),
        None => "",
    };
    Some(
        AuthorizationError::unauthorized("auth_oidc_signing_key_missing").with_detail(
            cat5("no signing key matched alg='", &header.alg, "' kid='", kid, "'"),
        ),
    )
}

/// Checks a signature with the keys of a provider.
pub fn verify_oidc_signature(
    provider: &OidcProviderRuntime,
    header: &JwtHeader,
    data: &[u8],
    signature: &[u8],
) -> (res: Option<AuthorizationError>)
    ensures
        denial_view(res) == signature_denial(provider@, header@, data@, signature@),
{
    let accepted: bool = match usable_key(provider, header) {
        Some(i) => {
            assert(provider@.keys[i as int] == provider.keys@[i as int]@);
            provider.keys[i].accepts(data, signature)
        },
        None => false,
    };
    judge_signature(provider, header, accepted)
}

/// Checks the claims of a token at a time in seconds.
pub fn validate_oidc_claims(provider: &OidcProviderRuntime, claims: &JsonDocument, now_secs: u64) -> (res:
    Option<AuthorizationError>)
    ensures
        denial_view(res) == claims_denial(provider@, claims@, now_secs),
{
    let exp: u64 = match claim_u64(claims, "exp") {
        Some(exp) => exp,
        None => {
            return Some(AuthorizationError::unauthorized("auth_oidc_exp_missing"));
        },
    };
    if exp.saturating_add(OIDC_CLOCK_SKEW_SECONDS) <= now_secs {
        return Some(AuthorizationError::unauthorized("auth_oidc_token_expired"));
    }
    let latest: u64 = now_secs.saturating_add(OIDC_CLOCK_SKEW_SECONDS);
    if let Some(nbf) = claim_u64(claims, "nbf") {
        if latest < nbf {
            return Some(AuthorizationError::unauthorized("auth_oidc_token_not_yet_valid"));
        }
    }
    if let Some(iat) = claim_u64(claims, "iat") {
        if latest < iat {
            return Some(AuthorizationError::unauthorized("auth_oidc_token_not_yet_valid"));
        }
    }
    assert(views(provider.audiences@).len() == provider.audiences.len());
    if provider.audiences.len() > 0 {
        let audiences = claim_values(claims, "aud");
        if !has_common(&audiences, &provider.audiences) {
            return Some(AuthorizationError::unauthorized("auth_oidc_audience_invalid"));
        }
    }
    None
}

fn has_common(list: &Vec<String>, others: &Vec<String>) -> (res: bool)
    ensures
        res == any_among(views(list@), views(others@)),
{
    let ghost all = views(list@);
    let mut i: usize = 0;
    while i < list.len()
        invariant
            i <= list.len(),
            all == views(list@),
            forall|k: int| 0 <= k < i ==> !views(others@).contains(#[trigger] all[k]),
        decreases list.len() - i,
    {
        assert(all[i as int] == list@[i as int]@);
        if crate::text::contains_text(others, &list[i]) {
            return true;
        }
        i += 1;
    }
    false
}

fn has_claim(claims: &JsonDocument, claim: &str, pattern: &str) -> (res: bool)
    ensures
        res == claim_fits(claims@, claim@, pattern@),
{
    let values = claim_values(claims, claim);
    let ghost all = claim_texts(claims@, claim@);
    let mut i: usize = 0;
    while i < values.len()
        invariant
            i <= values.len(),
            all == views(values@),
            all == claim_texts(claims@, claim@),
            forall|k: int| 0 <= k < i ==> !pattern_fits(pattern@, #[trigger] all[k]),
        decreases values.len() - i,
    {
        assert(all[i as int] == values@[i as int]@);
        if pattern_matches(pattern, &values[i]) {
            return true;
        }
        i += 1;
    }
    false
}

fn collect_bindings(provider: &OidcProviderRuntime, claims: &JsonDocument) -> (res: Vec<
    RbacBindingSnapshot,
>)
    ensures
        views(res@) == mapped_bindings(claims@, provider@.claim_mappings),
{
    let ghost all = provider@.claim_mappings;
    let mut out: Vec<RbacBindingSnapshot> = Vec::new();
    assert(views(out@) =~= Seq::<BindingView>::empty());
    let mut i: usize = 0;
    while i < provider.claim_mappings.len()
        invariant
            i <= provider.claim_mappings.len(),
            all == views(provider.claim_mappings@),
            views(out@) == mapped_bindings(claims@, all.take(i as int)),
        decreases provider.claim_mappings.len() - i,
    {
        let mapping = &provider.claim_mappings[i];
        assert(all.take(i + 1).drop_last() =~= all.take(i as int));
        assert(all.take(i + 1).last() == mapping@);
        if has_claim(claims, &mapping.claim, &mapping.value) {
            push_bindings(&mut out, &mapping.bindings);
        }
        i += 1;
    }
    assert(all.take(i as int) =~= all);
    out
}

fn push_bindings(out: &mut Vec<RbacBindingSnapshot>, bindings: &Vec<RbacBindingSnapshot>)
    ensures
        views(final(out)@) == views(old(out)@) + views(bindings@),
{
    let ghost start = views(out@);
    let ghost all = views(bindings@);
    let mut i: usize = 0;
    while i < bindings.len()
        invariant
            i <= bindings.len(),
            all == views(bindings@),
            start == views(old(out)@),
            views(out@) =~= start + all.take(i as int),
        decreases bindings.len() - i,
    {
        let item = bindings[i].copied();
        out.push(item);
        assert(all[i as int] == bindings@[i as int]@);
        assert(views(out@) =~= start + all.take(i + 1));
        i += 1;
    }
    assert(all.take(i as int) =~= all);
}

/// Decides on the bearer of a token that a provider issued and whose signature and claims are
/// accepted.
pub fn authorize_bearer(
    roles: &TextMap<RoleDefinition>,
    provider: &OidcProviderRuntime,
    claims: &JsonDocument,
    permission: &RbacPermission,
) -> (res: Result<AuthorizedPrincipal, AuthorizationError>)
    ensures
        decision_view(res) == bearer_decision(
            roles_view(*roles),
            provider@,
            claims@,
            permission@,
        ),
{
    let subject = match claim_string(claims, "sub") {
        Some(subject) => subject,
        None => {
            return Err(AuthorizationError::unauthorized("auth_oidc_subject_missing"));
        },
    };
    let display_name: Option<String> = match &provider.username_claim {
        None => None,
        Some(claim) => {
            let values = claim_values(claims, claim);
            assert(views(values@).len() == values.len());
            if values.len() == 0 {
                None
            } else {
                assert(views(values@)[0] == values@[0]@);
                Some(values[0].clone())
            }
        },
    };
    let bindings = collect_bindings(provider, claims);
    authorize_bindings(
        roles,
        &bindings,
        cat4("oidc:", &provider.name, ":", &subject),
        "oidc",
        Some(provider.name.clone()),
        Some(subject),
        display_name,
        permission,
    )
}

/// Decides on a signed token, given its header, claims and signature.
pub fn authorize_signed(
    roles: &TextMap<RoleDefinition>,
    providers: &Vec<OidcProviderRuntime>,
    header: &JwtHeader,
    claims: &JsonDocument,
    data: &[u8],
    signature: &[u8],
    permission: &RbacPermission,
    now_secs: u64,
) -> (res: Result<AuthorizedPrincipal, AuthorizationError>)
    ensures
        decision_view(res) == signed_decision(
            roles_view(*roles),
            views(providers@),
            header@,
            claims@,
            data@,
            signature@,
            permission@,
            now_secs,
        ),
{
    let issuer = match claim_string(claims, "iss") {
        Some(issuer) => issuer,
        None => {
            return Err(AuthorizationError::unauthorized("auth_oidc_issuer_missing"));
        },
    };
    let ghost all = views(providers@);
    let mut i: usize = 0;
    while i < providers.len()
        invariant_except_break
            i <= providers.len(),
            all == views(providers@),
            forall|k: int| 0 <= k < i ==> !issued_by(issuer@)(#[trigger] all[k]),
        ensures
            i <= providers.len(),
            forall|k: int| 0 <= k < i ==> !issued_by(issuer@)(#[trigger] all[k]),
            i < providers.len() ==> issued_by(issuer@)(all[i as int]),
        decreases providers.len() - i,
    {
        assert(all[i as int] == providers@[i as int]@);
        if same(&providers[i].issuer, &issuer) {
            break;
        }
        i += 1;
    }
    proof {
        lemma_first_index(all, issued_by(issuer@));
        if i < providers.len() {
            lemma_first_index_is(all, issued_by(issuer@), i as int);
        }
    }
    if i == providers.len() {
        return Err(
            AuthorizationError::unauthorized("auth_oidc_provider_not_configured").with_detail(
                cat3("issuer '", &issuer, "' is not configured"),
            ),
        );
    }
    let provider = &providers[i];
    assert(all[i as int] == provider@);
    if let Some(error) = verify_oidc_signature(provider, header, data, signature) {
        return Err(
            error.with_identity(None, Some(owned("oidc")), Some(provider.name.clone()), None),
        );
    }
    if let Some(error) = validate_oidc_claims(provider, claims, now_secs) {
        return Err(
            error.with_identity(None, Some(owned("oidc")), Some(provider.name.clone()), None),
        );
    }
    authorize_bearer(roles, provider, claims, permission)
}

/// The bytes of the header of a signed token, for whoever reads headers. Nothing where the token does
/// not have three parts, or where the first cannot be decoded.
pub fn signed_header(token: &str) -> (res: Option<Vec<u8>>)
    ensures
        match res {
            Some(bytes) => header_of(token@) == Some(bytes@),
            None => header_of(token@) is None,
        },
{
    let parts = split_char(token, '.');
    assert(views(parts@).len() == parts.len());
    if parts.len() != 3 {
        return None;
    }
    assert(views(parts@)[0] == parts@[0]@);
    match base64url_decode(&parts[0]) {
        Ok(bytes) => Some(bytes),
        Err(_) => None,
    }
}

fn refuse_header(header_fault: Option<&str>, own: &str) -> (res: AuthorizationError)
    ensures
        res@ == malformed("invalid JWT header: "@ + header_words(opt_str(header_fault), own@)),
{
    let words = match header_fault {
        Some(text) => text,
        None => own,
    };
    AuthorizationError::unauthorized("auth_token_invalid").with_detail(
        cat2("invalid JWT header: ", words),
    )
}

/// Decides on a token of three parts: header, claims and signature.
fn authorize_oidc_token(
    roles: &TextMap<RoleDefinition>,
    providers: &Vec<OidcProviderRuntime>,
    parts: &Vec<String>,
    header_fault: Option<&str>,
    permission: &RbacPermission,
    now_secs: u64,
) -> (res: Result<AuthorizedPrincipal, AuthorizationError>)
    requires
        parts.len() == 3,
    ensures
        decision_view(res) == token_decision(
            roles_view(*roles),
            views(providers@),
            views(parts@),
            opt_str(header_fault),
            permission@,
            now_secs,
        ),
{
    assert(views(parts@)[0] == parts@[0]@);
    assert(views(parts@)[1] == parts@[1]@);
    assert(views(parts@)[2] == parts@[2]@);
    let header_bytes = match base64url_decode(&parts[0]) {
        Ok(bytes) => bytes,
        Err(detail) => {
            return Err(AuthorizationError::unauthorized("auth_token_invalid").with_detail(detail));
        },
    };
    let claims_bytes = match base64url_decode(&parts[1]) {
        Ok(bytes) => bytes,
        Err(detail) => {
            return Err(AuthorizationError::unauthorized("auth_token_invalid").with_detail(detail));
        },
    };
    let signature = match base64url_decode(&parts[2]) {
        Ok(bytes) => bytes,
        Err(detail) => {
            return Err(AuthorizationError::unauthorized("auth_token_invalid").with_detail(detail));
        },
    };
    let document = match parse_json(header_bytes.as_slice()) {
        Ok(document) => document,
        Err(detail) => {
            return Err(refuse_header(header_fault, &detail));
        },
    };
    let header = match read_header(&document, count_colons(header_bytes.as_slice())) {
        Some(header) => header,
        None => {
            return Err(refuse_header(header_fault, "expected the members alg and kid"));
        },
    };
    let claims = match parse_json(claims_bytes.as_slice()) {
        Ok(claims) => claims,
        Err(detail) => {
            return Err(
                AuthorizationError::unauthorized("auth_token_invalid").with_detail(
                    cat2("invalid JWT claims: ", &detail),
                ),
            );
        },
    };
    let signed = cat3(&parts[0], ".", &parts[1]);
    authorize_signed(
        roles,
        providers,
        &header,
        &claims,
        signed.as_str().as_bytes(),
        signature.as_slice(),
        permission,
        now_secs,
    )
}

/// Decides on a token, if there is one.
pub(crate) fn authorize_token(
    config: &RbacConfigFile,
    providers: &Vec<OidcProviderRuntime>,
    token: Option<&str>,
    header_fault: Option<&str>,
    permission: &RbacPermission,
    now_secs: u64,
) -> (res: Result<AuthorizedPrincipal, AuthorizationError>)
    ensures
        decision_view(res) == access_decision(
            config@,
            views(providers@),
            opt_str(token),
            opt_str(header_fault),
            permission@,
            now_secs,
        ),
{
    let text = match token {
        Some(text) => text,
        None => {
            return Err(AuthorizationError::unauthorized("auth_token_missing"));
        },
    };
    let ghost principals = views(config.principals@);
    let mut i: usize = 0;
    while i < config.principals.len()
        invariant
            i <= config.principals.len(),
            principals == views(config.principals@),
            opt_str(token) == Some(text@),
            forall|k: int| 0 <= k < i ==> !principal_has(text@)(#[trigger] principals[k]),
        decreases config.principals.len() - i,
    {
        assert(principals[i as int] == config.principals@[i as int]@);
        if same(trim(&config.principals[i].token), text) {
            proof {
                lemma_first_index_is(principals, principal_has(text@), i as int);
            }
            return authorize_principal(&config.roles, &config.principals[i], permission);
        }
        i += 1;
    }
    proof {
        lemma_first_index(principals, principal_has(text@));
    }
    let ghost accounts = views(config.service_accounts@);
    let mut k: usize = 0;
    while k < config.service_accounts.len()
        invariant
            k <= config.service_accounts.len(),
            accounts == views(config.service_accounts@),
            opt_str(token) == Some(text@),
            first_index(config@.principals, principal_has(text@)) is None,
            forall|j: int| 0 <= j < k ==> !account_has(text@)(#[trigger] accounts[j]),
        decreases config.service_accounts.len() - k,
    {
        assert(accounts[k as int] == config.service_accounts@[k as int]@);
        if same(trim(&config.service_accounts[k].token), text) {
            proof {
                lemma_first_index_is(accounts, account_has(text@), k as int);
            }
            return authorize_account(&config.roles, &config.service_accounts[k], permission);
        }
        k += 1;
    }
    proof {
        lemma_first_index(accounts, account_has(text@));
    }
    let parts = split_char(text, '.');
    assert(views(parts@).len() == parts.len());
    if parts.len() == 3 {
        return authorize_oidc_token(
            &config.roles,
            providers,
            &parts,
            header_fault,
            permission,
            now_secs,
        );
    }
    Err(AuthorizationError::unauthorized("auth_token_invalid"))
}

} // verus!
