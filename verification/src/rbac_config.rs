//! When a configuration of access control is accepted, and the token providers that it makes.

use vstd::prelude::*;
use crate::crypto::{base64url_bytes, bytes_result, decode_base64url};
use crate::lists::{copy_list, group_views, insert_ranked, ranked_insert, views, Ranked};
use crate::parsing::chars_of;
use crate::rbac_types::{
    roles_view, AccountView, BindingView, ConfigView, JwkView, KeyView, MappingView,
    OidcClaimMappingDefinition, OidcJwkDefinition, OidcKeyRuntime, OidcProviderDefinition,
    OidcProviderRuntime, PermissionView, PrincipalDefinition, PrincipalView, ProviderDefView,
    ProviderView, RbacBindingSnapshot, RbacConfigFile, RbacGrantSnapshot, RbacResource, ResourceView,
    RoleDefinition, RolesView, ServiceAccountDefinition,
};
use crate::text::{
    cat2, cat3, cat5, clone_opt, lowered, opt_text, owned, same, to_lower, trim, trimmed,
};
use crate::text_map::TextMap;

verus! {

broadcast use group_views;

/// A control character.
pub open spec fn is_control(c: char) -> bool {
    c < ' ' || '\x7f' <= c <= '\u{9f}'
}

/// Whether a text has a control character.
pub open spec fn has_control(s: Seq<char>) -> bool {
    exists|i: int| 0 <= i < s.len() && is_control(#[trigger] s[i])
}

/// What is wrong with a name.
pub open spec fn identifier_error(value: Seq<char>, label: Seq<char>) -> Option<Seq<char>> {
    if trimmed(value).len() == 0 {
        Some(label + " must not be empty"@)
    } else if has_control(trimmed(value)) {
        Some(label + " must not contain control characters"@)
    } else {
        None
    }
}

/// What is wrong with a resource.
pub open spec fn resource_error(resource: ResourceView) -> Option<Seq<char>> {
    identifier_error(resource.name, "RBAC resource name"@)
}

/// What is wrong with the first `n` of some resources.
pub open spec fn resources_error(resources: Seq<ResourceView>, n: nat) -> Option<Seq<char>>
    decreases n,
{
    if n == 0 {
        None
    } else {
        match resources_error(resources, (n - 1) as nat) {
            Some(message) => Some(message),
            None => resource_error(resources[n - 1]),
        }
    }
}

/// What is wrong with the first `n` of some grants.
pub open spec fn grants_error(grants: Seq<PermissionView>, n: nat) -> Option<Seq<char>>
    decreases n,
{
    if n == 0 {
        None
    } else {
        match grants_error(grants, (n - 1) as nat) {
            Some(message) => Some(message),
            None => resource_error(grants[n - 1].resource),
        }
    }
}

/// What is wrong with the role of a name.
pub open spec fn role_error(roles: RolesView, name: Seq<char>) -> Option<Seq<char>> {
    match identifier_error(name, "RBAC role name"@) {
        Some(message) => Some(message),
        None => grants_error(roles.grants[name], roles.grants[name].len()),
    }
}

/// What is wrong with the first `n` roles.
pub open spec fn roles_error(roles: RolesView, n: nat) -> Option<Seq<char>>
    decreases n,
{
    if n == 0 {
        None
    } else {
        match roles_error(roles, (n - 1) as nat) {
            Some(message) => Some(message),
            None => role_error(roles, roles.names[n - 1]),
        }
    }
}

/// What is wrong with a binding of an owner.
pub open spec fn binding_error(
    roles: RolesView,
    binding: BindingView,
    owner: Seq<char>,
) -> Option<Seq<char>> {
    if !roles.grants.dom().contains(binding.role) {
        Some(
            "RBAC principal '"@ + owner + "' references unknown role '"@ + binding.role + "'"@,
        )
    } else {
        resources_error(binding.scopes, binding.scopes.len())
    }
}

/// What is wrong with the first `n` bindings of an owner.
pub open spec fn bindings_error(
    roles: RolesView,
    bindings: Seq<BindingView>,
    owner: Seq<char>,
    n: nat,
) -> Option<Seq<char>>
    decreases n,
{
    if n == 0 {
        None
    } else {
        match bindings_error(roles, bindings, owner, (n - 1) as nat) {
            Some(message) => Some(message),
            None => binding_error(roles, bindings[n - 1], owner),
        }
    }
}

/// Whether one of the first `n` principals has a name.
pub open spec fn principal_named(principals: Seq<PrincipalView>, n: int, id: Seq<char>) -> bool {
    exists|k: int| 0 <= k < n && (#[trigger] principals[k]).id == id
}

/// Whether one of the first `n` principals has a token.
pub open spec fn principal_token(principals: Seq<PrincipalView>, n: int, token: Seq<char>) -> bool {
    exists|k: int| 0 <= k < n && trimmed((#[trigger] principals[k]).token) == token
}

/// Whether one of the first `n` accounts has a name.
pub open spec fn account_named(accounts: Seq<AccountView>, n: int, id: Seq<char>) -> bool {
    exists|k: int| 0 <= k < n && (#[trigger] accounts[k]).id == id
}

/// Whether one of the first `n` accounts has a token.
pub open spec fn account_token(accounts: Seq<AccountView>, n: int, token: Seq<char>) -> bool {
    exists|k: int| 0 <= k < n && trimmed((#[trigger] accounts[k]).token) == token
}

/// What is wrong with the principal at place `i`.
pub open spec fn principal_error(
    roles: RolesView,
    principals: Seq<PrincipalView>,
    i: int,
) -> Option<Seq<char>> {
    let principal = principals[i];
    let named = identifier_error(principal.id, "RBAC principal id"@);
    if named is Some {
        named
    } else if trimmed(principal.token).len() == 0 {
        Some("RBAC principal '"@ + principal.id + "' token must not be empty"@)
    } else if principal_named(principals, i, principal.id) {
        Some("duplicate RBAC principal id '"@ + principal.id + "'"@)
    } else if principal_token(principals, i, trimmed(principal.token)) {
        Some("duplicate RBAC token values are not allowed"@)
    } else {
        bindings_error(roles, principal.bindings, principal.id, principal.bindings.len())
    }
}

/// What is wrong with the first `n` principals.
pub open spec fn principals_error(
    roles: RolesView,
    principals: Seq<PrincipalView>,
    n: nat,
) -> Option<Seq<char>>
    decreases n,
{
    if n == 0 {
        None
    } else {
        match principals_error(roles, principals, (n - 1) as nat) {
            Some(message) => Some(message),
            None => principal_error(roles, principals, n - 1),
        }
    }
}

/// What is wrong with the account at place `i`.
pub open spec fn account_error(
    roles: RolesView,
    principals: Seq<PrincipalView>,
    accounts: Seq<AccountView>,
    i: int,
) -> Option<Seq<char>> {
    let account = accounts[i];
    let token = trimmed(account.token);
    let named = identifier_error(account.id, "service account id"@);
    if named is Some {
        named
    } else if token.len() == 0 {
        Some("service account '"@ + account.id + "' token must not be empty"@)
    } else if principal_named(principals, principals.len() as int, account.id) {
        Some("service account '"@ + account.id + "' conflicts with an existing principal id"@)
    } else if account_named(accounts, i, account.id) {
        Some("duplicate service account id '"@ + account.id + "'"@)
    } else if principal_token(principals, principals.len() as int, token) || account_token(
        accounts,
        i,
        token,
    ) {
        Some("duplicate RBAC token values are not allowed"@)
    } else {
        bindings_error(roles, account.bindings, account.id, account.bindings.len())
    }
}

/// What is wrong with the first `n` accounts.
pub open spec fn accounts_error(
    roles: RolesView,
    principals: Seq<PrincipalView>,
    accounts: Seq<AccountView>,
    n: nat,
) -> Option<Seq<char>>
    decreases n,
{
    if n == 0 {
        None
    } else {
        match accounts_error(roles, principals, accounts, (n - 1) as nat) {
            Some(message) => Some(message),
            None => account_error(roles, principals, accounts, n - 1),
        }
    }
}

/// A text without white space at its ends, unless nothing is left.
pub open spec fn normal_text(value: Option<Seq<char>>) -> Option<Seq<char>> {
    match value {
        Some(text) => if trimmed(text).len() == 0 {
            None
        } else {
            Some(trimmed(text))
        },
        None => None,
    }
}

/// What is wrong with a claim mapping of a provider.
pub open spec fn mapping_error(roles: RolesView, mapping: MappingView, provider: Seq<char>) -> Option<
    Seq<char>,
> {
    let named = identifier_error(mapping.claim, "OIDC claim mapping claim"@);
    if named is Some {
        named
    } else if trimmed(mapping.value).len() == 0 {
        Some(
            "OIDC provider '"@ + provider + "' claim mappings must not have an empty value"@,
        )
    } else {
        bindings_error(roles, mapping.bindings, provider, mapping.bindings.len())
    }
}

/// The claim mappings of a provider, their values without white space at the ends, or what is wrong
/// with the first `n`.
pub open spec fn mappings_built(
    roles: RolesView,
    mappings: Seq<MappingView>,
    provider: Seq<char>,
    n: nat,
) -> Result<Seq<MappingView>, Seq<char>>
    decreases n,
{
    if n == 0 {
        Ok(Seq::empty())
    } else {
        match mappings_built(roles, mappings, provider, (n - 1) as nat) {
            Err(message) => Err(message),
            Ok(before) => match mapping_error(roles, mappings[n - 1], provider) {
                Some(message) => Err(message),
                None => Ok(
                    before.push(
                        MappingView {
                            value: trimmed(mappings[n - 1].value),
                            ..mappings[n - 1]
                        },
                    ),
                ),
            },
        }
    }
}

/// The bytes that a field of a key stands for.
pub open spec fn key_bytes(field: Option<Seq<char>>, missing: Seq<char>) -> Result<
    Seq<u8>,
    Seq<char>,
> {
    match field {
        None => Err(missing),
        Some(text) => decoded(text),
    }
}

/// The bytes that a text stands for.
pub open spec fn decoded(text: Seq<char>) -> Result<Seq<u8>, Seq<char>> {
    match base64url_bytes(text) {
        Ok(bytes) => Ok(bytes),
        Err(detail) => Err("invalid base64url value: "@ + detail),
    }
}

/// The key that a JSON web key stands for.
pub open spec fn jwk_key(key: JwkView) -> Result<KeyView, Seq<char>> {
    let kid = key.kid;
    let alg = key.alg;
    let crv = match key.crv {
        Some(text) => text,
        None => Seq::empty(),
    };
    if key.use_ is Some && lowered(key.use_->0) != "sig"@ {
        Err("unsupported JWK use '"@ + key.use_->0 + "'; only 'sig' is supported"@)
    } else if key.kty == "RSA"@ {
        match key_bytes(key.n, "RSA JWK is missing modulus 'n'"@) {
            Err(message) => Err(message),
            Ok(n) => match key_bytes(key.e, "RSA JWK is missing exponent 'e'"@) {
                Err(message) => Err(message),
                Ok(e) => Ok(KeyView::Rsa { kid, alg, n, e }),
            },
        }
    } else if key.kty == "EC"@ {
        if crv != "P-256"@ {
            Err("unsupported EC curve '"@ + crv + "'; only P-256 is supported"@)
        } else {
            match key_bytes(key.x, "EC JWK is missing coordinate 'x'"@) {
                Err(message) => Err(message),
                Ok(x) => match key_bytes(key.y, "EC JWK is missing coordinate 'y'"@) {
                    Err(message) => Err(message),
                    Ok(y) => Ok(KeyView::EcP256 { kid, alg, x, y }),
                },
            }
        }
    } else if key.kty == "oct"@ {
        match key_bytes(key.k, "oct JWK is missing secret 'k'"@) {
            Err(message) => Err(message),
            Ok(secret) => Ok(KeyView::Oct { kid, alg, secret }),
        }
    } else {
        Err("unsupported JWK key type '"@ + key.kty + "'"@)
    }
}

/// The keys that the first `n` JSON web keys stand for, after some that are known; the message of
/// an invalid one starts with `prefix`.
pub open spec fn keys_parsed(
    known: Seq<KeyView>,
    keys: Seq<JwkView>,
    prefix: Seq<char>,
    n: nat,
) -> Result<Seq<KeyView>, Seq<char>>
    decreases n,
{
    if n == 0 {
        Ok(known)
    } else {
        match keys_parsed(known, keys, prefix, (n - 1) as nat) {
            Err(message) => Err(message),
            Ok(before) => match jwk_key(keys[n - 1]) {
                Err(message) => Err(prefix + message),
                Ok(key) => Ok(before.push(key)),
            },
        }
    }
}

/// What was fetched from the place that a provider names, if it names one.
pub type FetchedView = Result<Seq<JwkView>, Seq<char>>;

/// The keys of a provider: those written down, then those fetched.
pub open spec fn provider_keys(provider: ProviderDefView, fetched: FetchedView) -> Result<
    Seq<KeyView>,
    Seq<char>,
> {
    match keys_parsed(
        Seq::empty(),
        provider.jwks,
        "OIDC provider '"@ + provider.name + "' has an invalid JWK: "@,
        provider.jwks.len(),
    ) {
        Err(message) => Err(message),
        Ok(written) => match normal_text(provider.jwks_url) {
            None => Ok(written),
            Some(url) => match fetched {
                Err(message) => Err(message),
                Ok(keys) => keys_parsed(
                    written,
                    keys,
                    "OIDC provider '"@ + provider.name + "' JWKS "@ + url
                        + " contains an invalid key: "@,
                    keys.len(),
                ),
            },
        },
    }
}

/// Some texts without white space at their ends.
pub open spec fn all_trimmed(list: Seq<Seq<char>>) -> Seq<Seq<char>> {
    Seq::new(list.len(), |i: int| trimmed(list[i]))
}

/// Whether one of some texts is empty.
pub open spec fn has_empty(list: Seq<Seq<char>>) -> bool {
    exists|i: int| 0 <= i < list.len() && (#[trigger] list[i]).len() == 0
}

/// Whether one of the first `n` providers has a name.
pub open spec fn provider_named(providers: Seq<ProviderDefView>, n: int, name: Seq<char>) -> bool {
    exists|k: int| 0 <= k < n && (#[trigger] providers[k]).name == name
}

/// The provider at place `i` made ready for use, or what is wrong with it.
pub open spec fn provider_built(
    roles: RolesView,
    providers: Seq<ProviderDefView>,
    fetched: FetchedView,
    i: int,
) -> Result<ProviderView, Seq<char>> {
    let provider = providers[i];
    let named = identifier_error(provider.name, "OIDC provider name"@);
    if named is Some {
        Err(named->0)
    } else if provider_named(providers, i, provider.name) {
        Err("duplicate OIDC provider name '"@ + provider.name + "'"@)
    } else if trimmed(provider.issuer).len() == 0 {
        Err("OIDC provider '"@ + provider.name + "' issuer must not be empty"@)
    } else if has_empty(all_trimmed(provider.audiences)) {
        Err("OIDC provider '"@ + provider.name + "' audiences must not contain empty values"@)
    } else {
        match mappings_built(
            roles,
            provider.claim_mappings,
            provider.name,
            provider.claim_mappings.len(),
        ) {
            Err(message) => Err(message),
            Ok(claim_mappings) => match provider_keys(provider, fetched) {
                Err(message) => Err(message),
                Ok(keys) => if keys.len() == 0 {
                    Err(
                        "OIDC provider '"@ + provider.name
                            + "' must define at least one signing key"@,
                    )
                } else {
                    Ok(
                        ProviderView {
                            name: provider.name,
                            issuer: trimmed(provider.issuer),
                            audiences: all_trimmed(provider.audiences),
                            username_claim: normal_text(provider.username_claim),
                            jwks_url: normal_text(provider.jwks_url),
                            keys,
                            claim_mappings,
                        },
                    )
                },
            },
        }
    }
}

/// The first `n` providers made ready for use, in the order of their names, or what is wrong.
pub open spec fn providers_built(
    roles: RolesView,
    providers: Seq<ProviderDefView>,
    fetched: Seq<FetchedView>,
    n: nat,
) -> Result<Seq<ProviderView>, Seq<char>>
    decreases n,
{
    if n == 0 {
        Ok(Seq::empty())
    } else {
        match providers_built(roles, providers, fetched, (n - 1) as nat) {
            Err(message) => Err(message),
            Ok(before) => match provider_built(roles, providers, fetched[n - 1], n - 1) {
                Err(message) => Err(message),
                Ok(provider) => Ok(ranked_insert::<OidcProviderRuntime>(before, provider)),
            },
        }
    }
}

/// Whether the providers of a configuration are looked at: nothing is wrong with its roles, its
/// principals and its service accounts, which come before them.
pub open spec fn providers_reached(
    roles: RolesView,
    principals: Seq<PrincipalView>,
    accounts: Seq<AccountView>,
) -> bool {
    &&& roles_error(roles, roles.names.len()) is None
    &&& principals_error(roles, principals, principals.len()) is None
    &&& accounts_error(roles, principals, accounts, accounts.len()) is None
}

/// The providers that a configuration makes, or what is wrong with the configuration: roles come
/// first, then principals, service accounts and providers.
pub open spec fn config_built(config: ConfigView, fetched: Seq<FetchedView>) -> Result<
    Seq<ProviderView>,
    Seq<char>,
> {
    let roles = config.roles;
    if roles_error(roles, roles.names.len()) is Some {
        Err(roles_error(roles, roles.names.len())->0)
    } else if principals_error(roles, config.principals, config.principals.len()) is Some {
        Err(principals_error(roles, config.principals, config.principals.len())->0)
    } else if accounts_error(
        roles,
        config.principals,
        config.service_accounts,
        config.service_accounts.len(),
    ) is Some {
        Err(
            accounts_error(
                roles,
                config.principals,
                config.service_accounts,
                config.service_accounts.len(),
            )->0,
        )
    } else {
        providers_built(roles, config.oidc_providers, fetched, config.oidc_providers.len())
    }
}

proof fn lemma_resources_error_stays(resources: Seq<ResourceView>, m: nat, n: nat)
    requires
        m <= n,
        resources_error(resources, m) is Some,
    ensures
        resources_error(resources, n) == resources_error(resources, m),
    decreases n,
{
    if m < n {
        lemma_resources_error_stays(resources, m, (n - 1) as nat);
    }
}

proof fn lemma_grants_error_stays(grants: Seq<PermissionView>, m: nat, n: nat)
    requires
        m <= n,
        grants_error(grants, m) is Some,
    ensures
        grants_error(grants, n) == grants_error(grants, m),
    decreases n,
{
    if m < n {
        lemma_grants_error_stays(grants, m, (n - 1) as nat);
    }
}

proof fn lemma_roles_error_stays(roles: RolesView, m: nat, n: nat)
    requires
        m <= n,
        roles_error(roles, m) is Some,
    ensures
        roles_error(roles, n) == roles_error(roles, m),
    decreases n,
{
    if m < n {
        lemma_roles_error_stays(roles, m, (n - 1) as nat);
    }
}

proof fn lemma_bindings_error_stays(roles: RolesView, bindings: Seq<BindingView>, owner: Seq<char>, m: nat, n: nat)
    requires
        m <= n,
        bindings_error(roles, bindings, owner, m) is Some,
    ensures
        bindings_error(roles, bindings, owner, n) == bindings_error(roles, bindings, owner, m),
    decreases n,
{
    if m < n {
        lemma_bindings_error_stays(roles, bindings, owner, m, (n - 1) as nat);
    }
}

proof fn lemma_principals_error_stays(roles: RolesView, principals: Seq<PrincipalView>, m: nat, n: nat)
    requires
        m <= n,
        principals_error(roles, principals, m) is Some,
    ensures
        principals_error(roles, principals, n) == principals_error(roles, principals, m),
    decreases n,
{
    if m < n {
        lemma_principals_error_stays(roles, principals, m, (n - 1) as nat);
    }
}

proof fn lemma_accounts_error_stays(roles: RolesView, principals: Seq<PrincipalView>, accounts: Seq<AccountView>, m: nat, n: nat)
    requires
        m <= n,
        accounts_error(roles, principals, accounts, m) is Some,
    ensures
        accounts_error(roles, principals, accounts, n) == accounts_error(roles, principals, accounts, m),
    decreases n,
{
    if m < n {
        lemma_accounts_error_stays(roles, principals, accounts, m, (n - 1) as nat);
    }
}

proof fn lemma_mappings_built_stays(roles: RolesView, mappings: Seq<MappingView>, provider: Seq<char>, m: nat, n: nat)
    requires
        m <= n,
        mappings_built(roles, mappings, provider, m) is Err,
    ensures
        mappings_built(roles, mappings, provider, n) == mappings_built(roles, mappings, provider, m),
    decreases n,
{
    if m < n {
        lemma_mappings_built_stays(roles, mappings, provider, m, (n - 1) as nat);
    }
}

proof fn lemma_keys_parsed_stays(known: Seq<KeyView>, keys: Seq<JwkView>, prefix: Seq<char>, m: nat, n: nat)
    requires
        m <= n,
        keys_parsed(known, keys, prefix, m) is Err,
    ensures
        keys_parsed(known, keys, prefix, n) == keys_parsed(known, keys, prefix, m),
    decreases n,
{
    if m < n {
        lemma_keys_parsed_stays(known, keys, prefix, m, (n - 1) as nat);
    }
}

proof fn lemma_providers_built_stays(roles: RolesView, providers: Seq<ProviderDefView>, fetched: Seq<FetchedView>, m: nat, n: nat)
    requires
        m <= n,
        providers_built(roles, providers, fetched, m) is Err,
    ensures
        providers_built(roles, providers, fetched, n) == providers_built(roles, providers, fetched, m),
    decreases n,
{
    if m < n {
        lemma_providers_built_stays(roles, providers, fetched, m, (n - 1) as nat);
    }
}

/// The keys that were fetched for a provider, or why they were not.
#[derive(Debug)]
pub struct FetchedKeys {
    pub keys: Result<Vec<OidcJwkDefinition>, String>,
}

impl View for FetchedKeys {
    type V = FetchedView;

    open spec fn view(&self) -> FetchedView {
        match self.keys {
            Ok(keys) => Ok(views(keys@)),
            Err(message) => Err(message@),
        }
    }
}

/// The message of a refusal.
pub open spec fn refusal(result: Result<(), String>) -> Option<Seq<char>> {
    match result {
        Ok(_) => None,
        Err(message) => Some(message@),
    }
}

fn contains_control(s: &str) -> (res: bool)
    ensures
        res == has_control(s@),
{
    let chars = chars_of(s);
    let mut i: usize = 0;
    while i < chars.len()
        invariant
            i <= chars.len(),
            chars@ == s@,
            forall|k: int| 0 <= k < i ==> !is_control(#[trigger] s@[k]),
        decreases chars.len() - i,
    {
        let c = chars[i];
        if c < ' ' || ('\x7f' <= c && c <= '\u{9f}') {
            assert(is_control(s@[i as int]));
            return true;
        }
        i += 1;
    }
    false
}

/// Checks a name.
pub(crate) fn validate_identifier(value: &str, label: &str) -> (res: Result<(), String>)
    ensures
        refusal(res) == identifier_error(value@, label@),
{
    let text = trim(value);
    if text.is_empty() {
        return Err(cat2(label, " must not be empty"));
    }
    if contains_control(text) {
        return Err(cat2(label, " must not contain control characters"));
    }
    Ok(())
}

fn validate_resources(resources: &Vec<RbacResource>) -> (res: Result<(), String>)
    ensures
        refusal(res) == resources_error(views(resources@), resources@.len()),
{
    let ghost all = views(resources@);
    let mut i: usize = 0;
    while i < resources.len()
        invariant
            i <= resources.len(),
            all == views(resources@),
            resources_error(all, i as nat) is None,
        decreases resources.len() - i,
    {
        assert(all[i as int] == resources@[i as int]@);
        if let Err(message) = validate_identifier(&resources[i].name, "RBAC resource name") {
            proof {
                lemma_resources_error_stays(all, (i + 1) as nat, all.len());
            }
            return Err(message);
        }
        i += 1;
    }
    Ok(())
}

fn validate_grants(grants: &Vec<RbacGrantSnapshot>) -> (res: Result<(), String>)
    ensures
        refusal(res) == grants_error(views(grants@), grants@.len()),
{
    let ghost all = views(grants@);
    let mut i: usize = 0;
    while i < grants.len()
        invariant
            i <= grants.len(),
            all == views(grants@),
            grants_error(all, i as nat) is None,
        decreases grants.len() - i,
    {
        assert(all[i as int] == grants@[i as int]@);
        if let Err(message) = validate_identifier(
            &grants[i].resource.name,
            "RBAC resource name",
        ) {
            proof {
                lemma_grants_error_stays(all, (i + 1) as nat, all.len());
            }
            return Err(message);
        }
        i += 1;
    }
    Ok(())
}

fn validate_roles(roles: &TextMap<RoleDefinition>) -> (res: Result<(), String>)
    ensures
        refusal(res) == roles_error(roles_view(*roles), roles_view(*roles).names.len()),
{
    let ghost all = roles_view(*roles);
    let count: usize = roles.len();
    let mut i: usize = 0;
    while i < count
        invariant
            i <= count,
            count == all.names.len(),
            all == roles_view(*roles),
            roles_error(all, i as nat) is None,
        decreases count - i,
    {
        let name = roles.key_at(i);
        let role = roles.value_at(i);
        assert(all.grants[name@] == views(role.grants@));
        if let Err(message) = validate_identifier(name, "RBAC role name") {
            proof {
                lemma_roles_error_stays(all, (i + 1) as nat, all.names.len());
            }
            return Err(message);
        }
        if let Err(message) = validate_grants(&role.grants) {
            proof {
                lemma_roles_error_stays(all, (i + 1) as nat, all.names.len());
            }
            return Err(message);
        }
        i += 1;
    }
    Ok(())
}

/// Checks the bindings of an owner.
fn validate_bindings(
    bindings: &Vec<RbacBindingSnapshot>,
    roles: &TextMap<RoleDefinition>,
    owner: &str,
) -> (res: Result<(), String>)
    ensures
        refusal(res) == bindings_error(
            roles_view(*roles),
            views(bindings@),
            owner@,
            bindings@.len(),
        ),
{
    let ghost all = views(bindings@);
    let ghost known = roles_view(*roles);
    let mut i: usize = 0;
    while i < bindings.len()
        invariant
            i <= bindings.len(),
            all == views(bindings@),
            known == roles_view(*roles),
            bindings_error(known, all, owner@, i as nat) is None,
        decreases bindings.len() - i,
    {
        assert(all[i as int] == bindings@[i as int]@);
        if !roles.contains_key(&bindings[i].role) {
            proof {
                lemma_bindings_error_stays(known, all, owner@, (i + 1) as nat, all.len());
            }
            return Err(
                cat5(
                    "RBAC principal '",
                    owner,
                    "' references unknown role '",
                    &bindings[i].role,
                    "'",
                ),
            );
        }
        if let Err(message) = validate_resources(&bindings[i].scopes) {
            proof {
                lemma_bindings_error_stays(known, all, owner@, (i + 1) as nat, all.len());
            }
            return Err(message);
        }
        i += 1;
    }
    Ok(())
}

/// Whether one of the first principals has a name.
pub(crate) fn has_principal(principals: &Vec<PrincipalDefinition>, n: usize, id: &str) -> (res: bool)
    requires
        n <= principals.len(),
    ensures
        res == principal_named(views(principals@), n as int, id@),
{
    let ghost all = views(principals@);
    let mut k: usize = 0;
    while k < n
        invariant
            k <= n <= principals.len(),
            all == views(principals@),
            forall|j: int| 0 <= j < k ==> (#[trigger] all[j]).id != id@,
        decreases n - k,
    {
        assert(all[k as int] == principals@[k as int]@);
        if same(&principals[k].id, id) {
            return true;
        }
        k += 1;
    }
    false
}

/// Whether one of the first principals has a token.
pub(crate) fn has_principal_token(
    principals: &Vec<PrincipalDefinition>,
    n: usize,
    token: &str,
) -> (res: bool)
    requires
        n <= principals.len(),
    ensures
        res == principal_token(views(principals@), n as int, token@),
{
    let ghost all = views(principals@);
    let mut k: usize = 0;
    while k < n
        invariant
            k <= n <= principals.len(),
            all == views(principals@),
            forall|j: int| 0 <= j < k ==> trimmed((#[trigger] all[j]).token) != token@,
        decreases n - k,
    {
        assert(all[k as int] == principals@[k as int]@);
        if same(trim(&principals[k].token), token) {
            return true;
        }
        k += 1;
    }
    false
}

/// Whether one of the first accounts has a name.
pub(crate) fn has_account(accounts: &Vec<ServiceAccountDefinition>, n: usize, id: &str) -> (res: bool)
    requires
        n <= accounts.len(),
    ensures
        res == account_named(views(accounts@), n as int, id@),
{
    let ghost all = views(accounts@);
    let mut k: usize = 0;
    while k < n
        invariant
            k <= n <= accounts.len(),
            all == views(accounts@),
            forall|j: int| 0 <= j < k ==> (#[trigger] all[j]).id != id@,
        decreases n - k,
    {
        assert(all[k as int] == accounts@[k as int]@);
        if same(&accounts[k].id, id) {
            return true;
        }
        k += 1;
    }
    false
}

/// Whether one of the first accounts has a token.
pub(crate) fn has_account_token(
    accounts: &Vec<ServiceAccountDefinition>,
    n: usize,
    token: &str,
) -> (res: bool)
    requires
        n <= accounts.len(),
    ensures
        res == account_token(views(accounts@), n as int, token@),
{
    let ghost all = views(accounts@);
    let mut k: usize = 0;
    while k < n
        invariant
            k <= n <= accounts.len(),
            all == views(accounts@),
            forall|j: int| 0 <= j < k ==> trimmed((#[trigger] all[j]).token) != token@,
        decreases n - k,
    {
        assert(all[k as int] == accounts@[k as int]@);
        if same(trim(&accounts[k].token), token) {
            return true;
        }
        k += 1;
    }
    false
}

fn validate_principal(
    roles: &TextMap<RoleDefinition>,
    principals: &Vec<PrincipalDefinition>,
    i: usize,
) -> (res: Result<(), String>)
    requires
        i < principals.len(),
    ensures
        refusal(res) == principal_error(roles_view(*roles), views(principals@), i as int),
{
    let principal = &principals[i];
    assert(views(principals@)[i as int] == principal@);
    if let Err(message) = validate_identifier(&principal.id, "RBAC principal id") {
        return Err(message);
    }
    let token = trim(&principal.token);
    if token.is_empty() {
        return Err(cat3("RBAC principal '", &principal.id, "' token must not be empty"));
    }
    if has_principal(principals, i, &principal.id) {
        return Err(cat3("duplicate RBAC principal id '", &principal.id, "'"));
    }
    if has_principal_token(principals, i, token) {
        return Err(owned("duplicate RBAC token values are not allowed"));
    }
    validate_bindings(&principal.bindings, roles, &principal.id)
}

fn validate_principals(roles: &TextMap<RoleDefinition>, principals: &Vec<PrincipalDefinition>) -> (res:
    Result<(), String>)
    ensures
        refusal(res) == principals_error(
            roles_view(*roles),
            views(principals@),
            principals@.len(),
        ),
{
    let ghost all = views(principals@);
    let ghost known = roles_view(*roles);
    let mut i: usize = 0;
    while i < principals.len()
        invariant
            i <= principals.len(),
            all == views(principals@),
            known == roles_view(*roles),
            principals_error(known, all, i as nat) is None,
        decreases principals.len() - i,
    {
        if let Err(message) = validate_principal(roles, principals, i) {
            proof {
                lemma_principals_error_stays(known, all, (i + 1) as nat, all.len());
            }
            return Err(message);
        }
        i += 1;
    }
    Ok(())
}

fn validate_account(
    roles: &TextMap<RoleDefinition>,
    principals: &Vec<PrincipalDefinition>,
    accounts: &Vec<ServiceAccountDefinition>,
    i: usize,
) -> (res: Result<(), String>)
    requires
        i < accounts.len(),
    ensures
        refusal(res) == account_error(
            roles_view(*roles),
            views(principals@),
            views(accounts@),
            i as int,
        ),
{
    let account = &accounts[i];
    assert(views(accounts@)[i as int] == account@);
    if let Err(message) = validate_identifier(&account.id, "service account id") {
        return Err(message);
    }
    let token = trim(&account.token);
    if token.is_empty() {
        return Err(cat3("service account '", &account.id, "' token must not be empty"));
    }
    if has_principal(principals, principals.len(), &account.id) {
        return Err(
            cat3("service account '", &account.id, "' conflicts with an existing principal id"),
        );
    }
    if has_account(accounts, i, &account.id) {
        return Err(cat3("duplicate service account id '", &account.id, "'"));
    }
    if has_principal_token(principals, principals.len(), token) || has_account_token(
        accounts,
        i,
        token,
    ) {
        return Err(owned("duplicate RBAC token values are not allowed"));
    }
    validate_bindings(&account.bindings, roles, &account.id)
}

fn validate_accounts(
    roles: &TextMap<RoleDefinition>,
    principals: &Vec<PrincipalDefinition>,
    accounts: &Vec<ServiceAccountDefinition>,
) -> (res: Result<(), String>)
    ensures
        refusal(res) == accounts_error(
            roles_view(*roles),
            views(principals@),
            views(accounts@),
            accounts@.len(),
        ),
{
    let ghost all = views(accounts@);
    let ghost others = views(principals@);
    let ghost known = roles_view(*roles);
    let mut i: usize = 0;
    while i < accounts.len()
        invariant
            i <= accounts.len(),
            all == views(accounts@),
            others == views(principals@),
            known == roles_view(*roles),
            accounts_error(known, others, all, i as nat) is None,
        decreases accounts.len() - i,
    {
        if let Err(message) = validate_account(roles, principals, accounts, i) {
            proof {
                lemma_accounts_error_stays(known, others, all, (i + 1) as nat, all.len());
            }
            return Err(message);
        }
        i += 1;
    }
    Ok(())
}

/// A text without white space at its ends, unless nothing is left.
pub(crate) fn normalize_optional_text(value: &Option<String>) -> (res: Option<String>)
    ensures
        opt_text(res) == normal_text(opt_text(*value)),
{
    match value {
        None => None,
        Some(text) => {
            let text = trim(text);
            if text.is_empty() {
                None
            } else {
                Some(owned(text))
            }
        },
    }
}

/// What building claim mappings came to.
pub open spec fn mappings_result(result: Result<Vec<OidcClaimMappingDefinition>, String>) -> Result<
    Seq<MappingView>,
    Seq<char>,
> {
    match result {
        Ok(mappings) => Ok(views(mappings@)),
        Err(message) => Err(message@),
    }
}

fn build_mappings(
    roles: &TextMap<RoleDefinition>,
    mappings: &Vec<OidcClaimMappingDefinition>,
    provider: &str,
) -> (res: Result<Vec<OidcClaimMappingDefinition>, String>)
    ensures
        mappings_result(res) == mappings_built(
            roles_view(*roles),
            views(mappings@),
            provider@,
            mappings@.len(),
        ),
{
    let ghost all = views(mappings@);
    let ghost known = roles_view(*roles);
    let mut built: Vec<OidcClaimMappingDefinition> = Vec::new();
    assert(views(built@) =~= Seq::<MappingView>::empty());
    let mut i: usize = 0;
    while i < mappings.len()
        invariant
            i <= mappings.len(),
            all == views(mappings@),
            known == roles_view(*roles),
            mappings_built(known, all, provider@, i as nat) == Ok::<Seq<MappingView>, Seq<char>>(
                views(built@),
            ),
        decreases mappings.len() - i,
    {
        let mapping = &mappings[i];
        assert(all[i as int] == mapping@);
        if let Err(message) = validate_identifier(&mapping.claim, "OIDC claim mapping claim") {
            proof {
                lemma_mappings_built_stays(known, all, provider@, (i + 1) as nat, all.len());
            }
            return Err(message);
        }
        let value = trim(&mapping.value);
        if value.is_empty() {
            proof {
                lemma_mappings_built_stays(known, all, provider@, (i + 1) as nat, all.len());
            }
            return Err(
                cat3(
                    "OIDC provider '",
                    provider,
                    "' claim mappings must not have an empty value",
                ),
            );
        }
        if let Err(message) = validate_bindings(&mapping.bindings, roles, provider) {
            proof {
                lemma_mappings_built_stays(known, all, provider@, (i + 1) as nat, all.len());
            }
            return Err(message);
        }
        built.push(
            OidcClaimMappingDefinition {
                claim: mapping.claim.clone(),
                value: owned(value),
                bindings: copy_list(&mapping.bindings),
            },
        );
        i += 1;
    }
    Ok(built)
}

/// Decodes a text.
pub(crate) fn base64url_decode(text: &str) -> (res: Result<Vec<u8>, String>)
    ensures
        bytes_result(res) == decoded(text@),
{
    match decode_base64url(text) {
        Ok(bytes) => Ok(bytes),
        Err(detail) => Err(cat2("invalid base64url value: ", &detail)),
    }
}

fn decode_field(field: &Option<String>, missing: &str) -> (res: Result<Vec<u8>, String>)
    ensures
        bytes_result(res) == key_bytes(opt_text(*field), missing@),
{
    match field {
        None => Err(owned(missing)),
        Some(text) => base64url_decode(text),
    }
}

/// What parsing a key came to.
pub open spec fn key_result(result: Result<OidcKeyRuntime, String>) -> Result<KeyView, Seq<char>> {
    match result {
        Ok(key) => Ok(key@),
        Err(message) => Err(message@),
    }
}

/// Makes a key of a JSON web key.
pub fn parse_oidc_jwk(key: &OidcJwkDefinition) -> (res: Result<OidcKeyRuntime, String>)
    ensures
        key_result(res) == jwk_key(key@),
{
    if let Some(use_) = &key.use_ {
        if !same(&to_lower(use_), "sig") {
            return Err(
                cat3("unsupported JWK use '", use_, "'; only 'sig' is supported"),
            );
        }
    }
    let kid = clone_opt(&key.kid);
    let alg = clone_opt(&key.alg);
    if same(&key.kty, "RSA") {
        let n = match decode_field(&key.n, "RSA JWK is missing modulus 'n'") {
            Ok(bytes) => bytes,
            Err(message) => {
                return Err(message);
            },
        };
        let e = match decode_field(&key.e, "RSA JWK is missing exponent 'e'") {
            Ok(bytes) => bytes,
            Err(message) => {
                return Err(message);
            },
        };
        return Ok(OidcKeyRuntime::Rsa { kid, alg, n, e });
    }
    if same(&key.kty, "EC") {
        let crv: String = match &key.crv {
            Some(text) => text.clone(),
            None => String::new(),
        };
        if !same(&crv, "P-256") {
            return Err(cat3("unsupported EC curve '", &crv, "'; only P-256 is supported"));
        }
        let x = match decode_field(&key.x, "EC JWK is missing coordinate 'x'") {
            Ok(bytes) => bytes,
            Err(message) => {
                return Err(message);
            },
        };
        let y = match decode_field(&key.y, "EC JWK is missing coordinate 'y'") {
            Ok(bytes) => bytes,
            Err(message) => {
                return Err(message);
            },
        };
        return Ok(OidcKeyRuntime::EcP256 { kid, alg, x, y });
    }
    if same(&key.kty, "oct") {
        let secret = match decode_field(&key.k, "oct JWK is missing secret 'k'") {
            Ok(bytes) => bytes,
            Err(message) => {
                return Err(message);
            },
        };
        return Ok(OidcKeyRuntime::Oct { kid, alg, secret });
    }
    Err(cat3("unsupported JWK key type '", &key.kty, "'"))
}

/// Adds the keys that some JSON web keys stand for.
fn parse_keys(known: &mut Vec<OidcKeyRuntime>, keys: &Vec<OidcJwkDefinition>, prefix: &str) -> (res:
    Result<(), String>)
    ensures
        match res {
            Ok(_) => keys_parsed(
                views(old(known)@),
                views(keys@),
                prefix@,
                keys@.len(),
            ) == Ok::<Seq<KeyView>, Seq<char>>(views(final(known)@)),
            Err(message) => keys_parsed(
                views(old(known)@),
                views(keys@),
                prefix@,
                keys@.len(),
            ) == Err::<Seq<KeyView>, Seq<char>>(message@),
        },
{
    let ghost start = views(known@);
    let ghost all = views(keys@);
    let mut i: usize = 0;
    while i < keys.len()
        invariant
            i <= keys.len(),
            all == views(keys@),
            start == views(old(known)@),
            keys_parsed(start, all, prefix@, i as nat) == Ok::<Seq<KeyView>, Seq<char>>(
                views(known@),
            ),
        decreases keys.len() - i,
    {
        assert(all[i as int] == keys@[i as int]@);
        match parse_oidc_jwk(&keys[i]) {
            Ok(key) => known.push(key),
            Err(message) => {
                proof {
                    lemma_keys_parsed_stays(start, all, prefix@, (i + 1) as nat, all.len());
                }
                return Err(cat2(prefix, &message));
            },
        }
        i += 1;
    }
    Ok(())
}

/// What loading the keys of a provider came to.
pub open spec fn keys_result(result: Result<Vec<OidcKeyRuntime>, String>) -> Result<
    Seq<KeyView>,
    Seq<char>,
> {
    match result {
        Ok(keys) => Ok(views(keys@)),
        Err(message) => Err(message@),
    }
}

/// The keys of a provider: those written down, then those fetched.
fn load_oidc_keys(provider: &OidcProviderDefinition, fetched: &FetchedKeys) -> (res: Result<
    Vec<OidcKeyRuntime>,
    String,
>)
    ensures
        keys_result(res) == provider_keys(provider@, fetched@),
{
    let mut keys: Vec<OidcKeyRuntime> = Vec::new();
    assert(views(keys@) =~= Seq::<KeyView>::empty());
    let prefix = cat3("OIDC provider '", &provider.name, "' has an invalid JWK: ");
    if let Err(message) = parse_keys(&mut keys, &provider.jwks, &prefix) {
        return Err(message);
    }
    if let Some(url) = normalize_optional_text(&provider.jwks_url) {
        match &fetched.keys {
            Err(message) => {
                return Err(message.clone());
            },
            Ok(remote) => {
                let prefix = cat5(
                    "OIDC provider '",
                    &provider.name,
                    "' JWKS ",
                    &url,
                    " contains an invalid key: ",
                );
                if let Err(message) = parse_keys(&mut keys, remote, &prefix) {
                    return Err(message);
                }
            },
        }
    }
    Ok(keys)
}

fn trim_all(list: &Vec<String>) -> (res: Vec<String>)
    ensures
        views(res@) == all_trimmed(views(list@)),
{
    let mut out: Vec<String> = Vec::new();
    let mut i: usize = 0;
    while i < list.len()
        invariant
            i <= list.len(),
            views(out@) =~= all_trimmed(views(list@)).take(i as int),
        decreases list.len() - i,
    {
        out.push(owned(trim(&list[i])));
        i += 1;
    }
    assert(all_trimmed(views(list@)).take(i as int) =~= all_trimmed(views(list@)));
    out
}

fn has_empty_text(list: &Vec<String>) -> (res: bool)
    ensures
        res == has_empty(views(list@)),
{
    let ghost all = views(list@);
    let mut i: usize = 0;
    while i < list.len()
        invariant
            i <= list.len(),
            all == views(list@),
            forall|k: int| 0 <= k < i ==> (#[trigger] all[k]).len() != 0,
        decreases list.len() - i,
    {
        assert(all[i as int] == list@[i as int]@);
        if list[i].as_str().is_empty() {
            return true;
        }
        i += 1;
    }
    false
}

fn has_provider(providers: &Vec<OidcProviderDefinition>, n: usize, name: &str) -> (res: bool)
    requires
        n <= providers.len(),
    ensures
        res == provider_named(views(providers@), n as int, name@),
{
    let ghost all = views(providers@);
    let mut k: usize = 0;
    while k < n
        invariant
            k <= n <= providers.len(),
            all == views(providers@),
            forall|j: int| 0 <= j < k ==> (#[trigger] all[j]).name != name@,
        decreases n - k,
    {
        assert(all[k as int] == providers@[k as int]@);
        if same(&providers[k].name, name) {
            return true;
        }
        k += 1;
    }
    false
}

/// What building a provider came to.
pub open spec fn provider_result(result: Result<OidcProviderRuntime, String>) -> Result<
    ProviderView,
    Seq<char>,
> {
    match result {
        Ok(provider) => Ok(provider@),
        Err(message) => Err(message@),
    }
}

fn build_provider(
    roles: &TextMap<RoleDefinition>,
    providers: &Vec<OidcProviderDefinition>,
    fetched: &FetchedKeys,
    i: usize,
) -> (res: Result<OidcProviderRuntime, String>)
    requires
        i < providers.len(),
    ensures
        provider_result(res) == provider_built(
            roles_view(*roles),
            views(providers@),
            fetched@,
            i as int,
        ),
{
    let provider = &providers[i];
    assert(views(providers@)[i as int] == provider@);
    if let Err(message) = validate_identifier(&provider.name, "OIDC provider name") {
        return Err(message);
    }
    if has_provider(providers, i, &provider.name) {
        return Err(cat3("duplicate OIDC provider name '", &provider.name, "'"));
    }
    let issuer = trim(&provider.issuer);
    if issuer.is_empty() {
        return Err(cat3("OIDC provider '", &provider.name, "' issuer must not be empty"));
    }
    let audiences = trim_all(&provider.audiences);
    if has_empty_text(&audiences) {
        return Err(
            cat3(
                "OIDC provider '",
                &provider.name,
                "' audiences must not contain empty values",
            ),
        );
    }
    let claim_mappings = match build_mappings(roles, &provider.claim_mappings, &provider.name) {
        Ok(mappings) => mappings,
        Err(message) => {
            return Err(message);
        },
    };
    let keys = match load_oidc_keys(provider, fetched) {
        Ok(keys) => keys,
        Err(message) => {
            return Err(message);
        },
    };
    assert(views(keys@).len() == keys.len());
    if keys.len() == 0 {
        return Err(
            cat3(
                "OIDC provider '",
                &provider.name,
                "' must define at least one signing key",
            ),
        );
    }
    Ok(
        OidcProviderRuntime {
            name: provider.name.clone(),
            issuer: owned(issuer),
            audiences,
            username_claim: normalize_optional_text(&provider.username_claim),
            jwks_url: normalize_optional_text(&provider.jwks_url),
            keys,
            claim_mappings,
        },
    )
}

/// What building the providers came to.
pub open spec fn providers_result(result: Result<Vec<OidcProviderRuntime>, String>) -> Result<
    Seq<ProviderView>,
    Seq<char>,
> {
    match result {
        Ok(providers) => Ok(views(providers@)),
        Err(message) => Err(message@),
    }
}

/// Checks what comes before the providers.
pub(crate) fn reaches_providers(
    roles: &TextMap<RoleDefinition>,
    principals: &Vec<PrincipalDefinition>,
    accounts: &Vec<ServiceAccountDefinition>,
) -> (res: bool)
    ensures
        res == providers_reached(roles_view(*roles), views(principals@), views(accounts@)),
{
    validate_roles(roles).is_ok() && validate_principals(roles, principals).is_ok()
        && validate_accounts(roles, principals, accounts).is_ok()
}

/// Whether the keys of the providers are asked for to take over a configuration: not where what
/// comes before them is refused.
pub fn wants_keys(config: &RbacConfigFile) -> (res: bool)
    ensures
        res == providers_reached(
            config@.roles,
            config@.principals,
            config@.service_accounts,
        ),
{
    reaches_providers(&config.roles, &config.principals, &config.service_accounts)
}

/// Checks roles, principals, service accounts and providers, and makes the providers ready for use.
pub(crate) fn build_runtime_state(
    roles: &TextMap<RoleDefinition>,
    principals: &Vec<PrincipalDefinition>,
    accounts: &Vec<ServiceAccountDefinition>,
    providers: &Vec<OidcProviderDefinition>,
    fetched: &Vec<FetchedKeys>,
) -> (res: Result<Vec<OidcProviderRuntime>, String>)
    requires
        fetched.len() == providers.len(),
    ensures
        providers_result(res) == config_built(
            ConfigView {
                roles: roles_view(*roles),
                principals: views(principals@),
                service_accounts: views(accounts@),
                oidc_providers: views(providers@),
            },
            views(fetched@),
        ),
{
    if let Err(message) = validate_roles(roles) {
        return Err(message);
    }
    if let Err(message) = validate_principals(roles, principals) {
        return Err(message);
    }
    if let Err(message) = validate_accounts(roles, principals, accounts) {
        return Err(message);
    }
    let ghost known = roles_view(*roles);
    let ghost all = views(providers@);
    let ghost got = views(fetched@);
    let mut built: Vec<OidcProviderRuntime> = Vec::new();
    assert(views(built@) =~= Seq::<ProviderView>::empty());
    let mut i: usize = 0;
    while i < providers.len()
        invariant
            i <= providers.len(),
            fetched.len() == providers.len(),
            known == roles_view(*roles),
            all == views(providers@),
            got == views(fetched@),
            providers_built(known, all, got, i as nat) == Ok::<Seq<ProviderView>, Seq<char>>(
                views(built@),
            ),
            roles_error(known, known.names.len()) is None,
            principals_error(known, views(principals@), principals@.len()) is None,
            accounts_error(
                known,
                views(principals@),
                views(accounts@),
                accounts@.len(),
            ) is None,
        decreases providers.len() - i,
    {
        assert(got[i as int] == fetched@[i as int]@);
        match build_provider(roles, providers, &fetched[i], i) {
            Ok(provider) => insert_ranked(&mut built, provider),
            Err(message) => {
                proof {
                    lemma_providers_built_stays(known, all, got, (i + 1) as nat, all.len());
                }
                return Err(message);
            },
        }
        i += 1;
    }
    Ok(built)
}

} // verus!
