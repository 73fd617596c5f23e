//! Which configurations of access control are accepted, and what is made of them.

use vstd::prelude::*;
use crate::crypto::base64url_bytes;
use crate::lists::{lemma_ranked_insert_elements, lemma_ranked_insert_len};
use crate::rbac_config::{
    account_error, accounts_error, all_trimmed, binding_error, bindings_error, config_built,
    grants_error, has_control, identifier_error, is_control, jwk_key, keys_parsed, mappings_built,
    normal_text, principal_error, principals_error, provider_built, provider_keys, providers_built,
    resources_error, roles_error, FetchedView,
};
use crate::rbac_types::{
    AccountView, BindingView, ConfigView, JwkView, KeyView, MappingView, OidcProviderRuntime,
    PermissionView, PrincipalView, ProviderDefView, ResourceView, RolesView,
};
use crate::text::{lowered, trimmed};

verus! {

/// A name is more than white space and holds no control characters but at its ends.
pub open spec fn plain_name(name: Seq<char>) -> bool {
    trimmed(name).len() > 0 && forall|i: int|
        0 <= i < trimmed(name).len() ==> trimmed(name)[i] >= ' ' && !('\x7f' <= (
        #[trigger] trimmed(name)[i]) <= '\u{9f}')
}

proof fn lemma_identifier(name: Seq<char>, label: Seq<char>)
    ensures
        identifier_error(name, label) is None <==> plain_name(name),
{
    let text = trimmed(name);
    if plain_name(name) && has_control(text) {
        let i = choose|i: int| 0 <= i < text.len() && is_control(#[trigger] text[i]);
        assert(text[i] >= ' ');
    }
    if text.len() > 0 && !has_control(text) {
        assert forall|i: int| 0 <= i < text.len() implies text[i] >= ' ' && !('\x7f' <= (
        #[trigger] text[i]) <= '\u{9f}') by {
            assert(!is_control(text[i]));
        }
    }
}

/// The scopes of a binding are all named.
pub open spec fn scopes_named(scopes: Seq<ResourceView>, n: nat) -> bool {
    forall|i: int| 0 <= i < n ==> plain_name((#[trigger] scopes[i]).name)
}

proof fn lemma_resources(scopes: Seq<ResourceView>, n: nat)
    requires
        n <= scopes.len(),
    ensures
        resources_error(scopes, n) is None <==> scopes_named(scopes, n),
    decreases n,
{
    if n > 0 {
        lemma_resources(scopes, (n - 1) as nat);
        lemma_identifier(scopes[n - 1].name, "RBAC resource name"@);
        if scopes_named(scopes, (n - 1) as nat) && plain_name(scopes[n - 1].name) {
            assert forall|i: int| 0 <= i < n implies plain_name((#[trigger] scopes[i]).name) by {
                if i < n - 1 {
                    assert(plain_name(scopes[i].name));
                }
            }
        }
        if scopes_named(scopes, n) {
            assert(plain_name(scopes[n - 1].name));
        }
    }
}

/// Bindings are of roles that there are, and their scopes are named.
pub open spec fn bindings_hold(roles: RolesView, bindings: Seq<BindingView>, n: nat) -> bool {
    forall|i: int|
        0 <= i < n ==> roles.grants.dom().contains((#[trigger] bindings[i]).role) && scopes_named(
            bindings[i].scopes,
            bindings[i].scopes.len(),
        )
}

/// Bindings are accepted where every one of them is of a known role and every scope has a name.
pub proof fn law_which_bindings_are_accepted(
    roles: RolesView,
    bindings: Seq<BindingView>,
    owner: Seq<char>,
    n: nat,
)
    requires
        n <= bindings.len(),
    ensures
        bindings_error(roles, bindings, owner, n) is None <==> bindings_hold(roles, bindings, n),
    decreases n,
{
    if n > 0 {
        law_which_bindings_are_accepted(roles, bindings, owner, (n - 1) as nat);
        lemma_resources(bindings[n - 1].scopes, bindings[n - 1].scopes.len());
        if bindings_hold(roles, bindings, (n - 1) as nat) && binding_error(
            roles,
            bindings[n - 1],
            owner,
        ) is None {
            assert forall|i: int| 0 <= i < n implies roles.grants.dom().contains(
                (#[trigger] bindings[i]).role,
            ) && scopes_named(bindings[i].scopes, bindings[i].scopes.len()) by {
                if i < n - 1 {
                    assert(scopes_named(bindings[i].scopes, bindings[i].scopes.len()));
                }
            }
        }
        if bindings_hold(roles, bindings, n) {
            assert(scopes_named(bindings[n - 1].scopes, bindings[n - 1].scopes.len()));
        }
    }
}

/// The resources of some grants are all named.
pub open spec fn grants_named(grants: Seq<PermissionView>, n: nat) -> bool {
    forall|i: int| 0 <= i < n ==> plain_name((#[trigger] grants[i]).resource.name)
}

proof fn lemma_grants(grants: Seq<PermissionView>, n: nat)
    requires
        n <= grants.len(),
    ensures
        grants_error(grants, n) is None <==> grants_named(grants, n),
    decreases n,
{
    if n > 0 {
        lemma_grants(grants, (n - 1) as nat);
        lemma_identifier(grants[n - 1].resource.name, "RBAC resource name"@);
        if grants_named(grants, (n - 1) as nat) && plain_name(grants[n - 1].resource.name) {
            assert forall|i: int| 0 <= i < n implies plain_name(
                (#[trigger] grants[i]).resource.name,
            ) by {
                if i < n - 1 {
                    assert(plain_name(grants[i].resource.name));
                }
            }
        }
        if grants_named(grants, n) {
            assert(plain_name(grants[n - 1].resource.name));
        }
    }
}

/// A role and all that it grants have names.
pub open spec fn role_holds(roles: RolesView, name: Seq<char>) -> bool {
    plain_name(name) && grants_named(roles.grants[name], roles.grants[name].len())
}

/// Roles are accepted where every one of them, and every resource that it grants something on, has a
/// name.
pub proof fn law_which_roles_are_accepted(roles: RolesView, n: nat)
    requires
        n <= roles.names.len(),
    ensures
        roles_error(roles, n) is None <==> forall|i: int|
            0 <= i < n ==> role_holds(roles, #[trigger] roles.names[i]),
    decreases n,
{
    if n > 0 {
        law_which_roles_are_accepted(roles, (n - 1) as nat);
        let name = roles.names[n - 1];
        lemma_identifier(name, "RBAC role name"@);
        lemma_grants(roles.grants[name], roles.grants[name].len());
        if roles_error(roles, n) is None {
            assert forall|i: int| 0 <= i < n implies role_holds(
                roles,
                #[trigger] roles.names[i],
            ) by {
                if i < n - 1 {
                    assert(role_holds(roles, roles.names[i]));
                }
            }
        }
        if forall|i: int| 0 <= i < n ==> role_holds(roles, #[trigger] roles.names[i]) {
            assert(role_holds(roles, roles.names[n - 1]));
        }
    }
}

/// A principal has a name and a token that no other has in front of it, and bindings that hold.
pub open spec fn principal_holds(
    roles: RolesView,
    principals: Seq<PrincipalView>,
    i: int,
) -> bool {
    let principal = principals[i];
    &&& plain_name(principal.id)
    &&& trimmed(principal.token).len() > 0
    &&& forall|k: int| 0 <= k < i ==> (#[trigger] principals[k]).id != principal.id
    &&& forall|k: int|
        0 <= k < i ==> trimmed((#[trigger] principals[k]).token) != trimmed(principal.token)
    &&& bindings_hold(roles, principal.bindings, principal.bindings.len())
}

/// Principals are accepted where every one of them holds.
pub proof fn law_which_principals_are_accepted(
    roles: RolesView,
    principals: Seq<PrincipalView>,
    n: nat,
)
    requires
        n <= principals.len(),
    ensures
        principals_error(roles, principals, n) is None <==> forall|i: int|
            0 <= i < n ==> #[trigger] principal_holds(roles, principals, i),
    decreases n,
{
    if n > 0 {
        law_which_principals_are_accepted(roles, principals, (n - 1) as nat);
        let principal = principals[n - 1];
        lemma_identifier(principal.id, "RBAC principal id"@);
        law_which_bindings_are_accepted(
            roles,
            principal.bindings,
            principal.id,
            principal.bindings.len(),
        );
        assert(principal_error(roles, principals, n - 1) is None <==> principal_holds(
            roles,
            principals,
            n - 1,
        ));
    }
}

/// A service account has a name and a token that no principal has and no account in front of it, and
/// bindings that hold.
pub open spec fn account_holds(
    roles: RolesView,
    principals: Seq<PrincipalView>,
    accounts: Seq<AccountView>,
    i: int,
) -> bool {
    let account = accounts[i];
    &&& plain_name(account.id)
    &&& trimmed(account.token).len() > 0
    &&& forall|k: int| 0 <= k < principals.len() ==> (#[trigger] principals[k]).id != account.id
    &&& forall|k: int| 0 <= k < i ==> (#[trigger] accounts[k]).id != account.id
    &&& forall|k: int|
        0 <= k < principals.len() ==> trimmed((#[trigger] principals[k]).token) != trimmed(
            account.token,
        )
    &&& forall|k: int|
        0 <= k < i ==> trimmed((#[trigger] accounts[k]).token) != trimmed(account.token)
    &&& bindings_hold(roles, account.bindings, account.bindings.len())
}

/// Service accounts are accepted where every one of them holds.
pub proof fn law_which_accounts_are_accepted(
    roles: RolesView,
    principals: Seq<PrincipalView>,
    accounts: Seq<AccountView>,
    n: nat,
)
    requires
        n <= accounts.len(),
    ensures
        accounts_error(roles, principals, accounts, n) is None <==> forall|i: int|
            0 <= i < n ==> #[trigger] account_holds(roles, principals, accounts, i),
    decreases n,
{
    if n > 0 {
        law_which_accounts_are_accepted(roles, principals, accounts, (n - 1) as nat);
        let account = accounts[n - 1];
        lemma_identifier(account.id, "service account id"@);
        law_which_bindings_are_accepted(
            roles,
            account.bindings,
            account.id,
            account.bindings.len(),
        );
        assert(account_error(roles, principals, accounts, n - 1) is None <==> account_holds(
            roles,
            principals,
            accounts,
            n - 1,
        ));
    }
}

/// The mappings of a provider that is accepted are all there, in their order, each with its claim, its
/// value without white space at the ends, and its bindings.
pub proof fn law_mappings_are_kept(
    roles: RolesView,
    mappings: Seq<MappingView>,
    provider: Seq<char>,
    n: nat,
)
    requires
        n <= mappings.len(),
    ensures
        match mappings_built(roles, mappings, provider, n) {
            Ok(built) => built.len() == n && forall|i: int|
                0 <= i < n ==> {
                    &&& (#[trigger] built[i]).claim == mappings[i].claim
                    &&& built[i].value == trimmed(mappings[i].value)
                    &&& built[i].bindings == mappings[i].bindings
                    &&& plain_name(mappings[i].claim)
                    &&& built[i].value.len() > 0
                    &&& bindings_hold(roles, mappings[i].bindings, mappings[i].bindings.len())
                },
            Err(_) => exists|i: int|
                0 <= i < n && !(plain_name((#[trigger] mappings[i]).claim) && trimmed(
                    mappings[i].value,
                ).len() > 0 && bindings_hold(
                    roles,
                    mappings[i].bindings,
                    mappings[i].bindings.len(),
                )),
        },
    decreases n,
{
    if n > 0 {
        law_mappings_are_kept(roles, mappings, provider, (n - 1) as nat);
        let last = mappings[n - 1];
        lemma_identifier(last.claim, "OIDC claim mapping claim"@);
        law_which_bindings_are_accepted(roles, last.bindings, provider, last.bindings.len());
    }
}

/// A key is made of its own parts: modulus and exponent, two coordinates, or a secret. It keeps its name
/// and its algorithm. A key for anything but signatures is refused.
pub proof fn law_keys_are_made_of_their_parts(key: JwkView)
    ensures
        jwk_key(key) matches Ok(made) ==> {
            &&& key.use_ matches Some(text) ==> lowered(text) == "sig"@
            &&& match made {
                KeyView::Rsa { kid, alg, n, e } => key.kty == "RSA"@ && kid == key.kid && alg
                    == key.alg && key.n is Some && key.e is Some && base64url_bytes(key.n->0)
                    == Ok::<Seq<u8>, Seq<char>>(n) && base64url_bytes(key.e->0) == Ok::<
                    Seq<u8>,
                    Seq<char>,
                >(e),
                KeyView::EcP256 { kid, alg, x, y } => key.kty == "EC"@ && key.crv == Some("P-256"@)
                    && kid == key.kid && alg == key.alg && key.x is Some && key.y is Some
                    && base64url_bytes(key.x->0) == Ok::<Seq<u8>, Seq<char>>(x) && base64url_bytes(
                    key.y->0,
                ) == Ok::<Seq<u8>, Seq<char>>(y),
                KeyView::Oct { kid, alg, secret } => key.kty == "oct"@ && kid == key.kid && alg
                    == key.alg && key.k is Some && base64url_bytes(key.k->0) == Ok::<
                    Seq<u8>,
                    Seq<char>,
                >(secret),
            }
        },
        key.kty == "RSA"@ && key.use_ is None && key.n is Some && key.e is Some && base64url_bytes(
            key.n->0,
        ) is Ok && base64url_bytes(key.e->0) is Ok ==> jwk_key(key) is Ok,
        key.kty == "oct"@ && key.kty != "RSA"@ && key.kty != "EC"@ && key.use_ is None && key.k is Some
            && base64url_bytes(key.k->0) is Ok ==> jwk_key(key) is Ok,
{
    reveal_strlit("P-256");
}

proof fn lemma_keys(known: Seq<KeyView>, keys: Seq<JwkView>, prefix: Seq<char>, n: nat)
    requires
        n <= keys.len(),
    ensures
        match keys_parsed(known, keys, prefix, n) {
            Ok(parsed) => parsed.len() == known.len() + n && (forall|i: int|
                0 <= i < known.len() ==> #[trigger] parsed[i] == known[i]) && forall|i: int|
                0 <= i < n ==> jwk_key(#[trigger] keys[i]) == Ok::<KeyView, Seq<char>>(
                    parsed[known.len() + i],
                ),
            Err(_) => exists|i: int| 0 <= i < n && jwk_key(#[trigger] keys[i]) is Err,
        },
    decreases n,
{
    if n > 0 {
        lemma_keys(known, keys, prefix, (n - 1) as nat);
    }
}

/// The keys of a provider are those written down for it, followed by those at its address where it has
/// one, each of them in its order; one that cannot be used makes the provider fail.
pub proof fn law_keys_of_a_provider(provider: ProviderDefView, fetched: FetchedView)
    ensures
        provider_keys(provider, fetched) matches Ok(keys) ==> {
            &&& forall|i: int|
                0 <= i < provider.jwks.len() ==> jwk_key(#[trigger] provider.jwks[i]) == Ok::<
                    KeyView,
                    Seq<char>,
                >(keys[i])
            &&& normal_text(provider.jwks_url) is None ==> keys.len() == provider.jwks.len()
            &&& normal_text(provider.jwks_url) is Some ==> (fetched matches Ok(found) && keys.len()
                == provider.jwks.len() + found.len() && forall|i: int|
                0 <= i < found.len() ==> jwk_key(#[trigger] found[i]) == Ok::<KeyView, Seq<char>>(
                    keys[provider.jwks.len() + i],
                ))
        },
        (forall|i: int|
            0 <= i < provider.jwks.len() ==> jwk_key(#[trigger] provider.jwks[i]) is Ok) && (
        normal_text(provider.jwks_url) is Some ==> (fetched matches Ok(found) && forall|i: int|
            0 <= i < found.len() ==> jwk_key(#[trigger] found[i]) is Ok)) ==> provider_keys(
            provider,
            fetched,
        ) is Ok,
{
    let first = "OIDC provider '"@ + provider.name + "' has an invalid JWK: "@;
    lemma_keys(Seq::empty(), provider.jwks, first, provider.jwks.len());
    let written = keys_parsed(Seq::empty(), provider.jwks, first, provider.jwks.len());
    match (written, normal_text(provider.jwks_url), fetched) {
        (Ok(known), Some(url), Ok(keys)) => {
            let second = "OIDC provider '"@ + provider.name + "' JWKS "@ + url
                + " contains an invalid key: "@;
            lemma_keys(known, keys, second, keys.len());
            match provider_keys(provider, fetched) {
                Ok(all) => {
                    assert forall|i: int| 0 <= i < provider.jwks.len() implies jwk_key(
                        #[trigger] provider.jwks[i],
                    ) == Ok::<KeyView, Seq<char>>(all[i]) by {
                        assert(all[i] == known[i]);
                    }
                },
                Err(_) => {},
            }
        },
        _ => {},
    }
}

/// A provider that is accepted keeps its name, its issuer, its audiences, the claim that names users and
/// the address of its keys, without white space at the ends; it has a key.
pub proof fn law_provider_is_made_of_its_parts(
    roles: RolesView,
    providers: Seq<ProviderDefView>,
    fetched: FetchedView,
    i: int,
)
    ensures
        provider_built(roles, providers, fetched, i) matches Ok(made) ==> {
            let provider = providers[i];
            &&& made.name == provider.name
            &&& plain_name(provider.name)
            &&& forall|k: int| 0 <= k < i ==> (#[trigger] providers[k]).name != provider.name
            &&& made.issuer == trimmed(provider.issuer)
            &&& made.issuer.len() > 0
            &&& made.audiences.len() == provider.audiences.len()
            &&& forall|k: int|
                0 <= k < provider.audiences.len() ==> #[trigger] made.audiences[k] == trimmed(
                    provider.audiences[k],
                ) && made.audiences[k].len() > 0
            &&& made.keys.len() > 0
            &&& provider_keys(provider, fetched) == Ok::<Seq<KeyView>, Seq<char>>(made.keys)
            &&& made.claim_mappings.len() == provider.claim_mappings.len()
            &&& provider.username_claim matches Some(claim) ==> trimmed(claim).len() > 0
                ==> made.username_claim == Some(trimmed(claim))
            &&& provider.username_claim is None ==> made.username_claim is None
        },
{
    let provider = providers[i];
    lemma_identifier(provider.name, "OIDC provider name"@);
    law_mappings_are_kept(
        roles,
        provider.claim_mappings,
        provider.name,
        provider.claim_mappings.len(),
    );
    match provider_built(roles, providers, fetched, i) {
        Ok(made) => {
            assert forall|k: int| 0 <= k < provider.audiences.len() implies
                #[trigger] made.audiences[k] == trimmed(provider.audiences[k])
                && made.audiences[k].len() > 0 by {
                assert(all_trimmed(provider.audiences)[k].len() != 0);
            }
        },
        Err(_) => {},
    }
}

/// Every provider of a configuration that is accepted is in use, and no other.
pub proof fn law_every_provider_is_in_use(
    roles: RolesView,
    providers: Seq<ProviderDefView>,
    fetched: Seq<FetchedView>,
    n: nat,
)
    requires
        n <= providers.len(),
    ensures
        match providers_built(roles, providers, fetched, n) {
            Ok(built) => {
                &&& built.len() == n
                &&& forall|i: int|
                    0 <= i < n ==> (#[trigger] provider_built(roles, providers, fetched[i], i)
                        matches Ok(made) && built.contains(made))
            },
            Err(_) => exists|i: int|
                0 <= i < n && #[trigger] provider_built(roles, providers, fetched[i], i) is Err,
        },
    decreases n,
{
    broadcast use vstd::seq_lib::group_to_multiset_ensures;

    if n > 0 {
        let m = (n - 1) as nat;
        law_every_provider_is_in_use(roles, providers, fetched, m);
        match (
            providers_built(roles, providers, fetched, m),
            provider_built(roles, providers, fetched[n - 1], n - 1),
        ) {
            (Ok(before), Ok(made)) => {
                let built = providers_built(roles, providers, fetched, n)->Ok_0;
                lemma_ranked_insert_elements::<OidcProviderRuntime>(before, made);
                lemma_ranked_insert_len::<OidcProviderRuntime>(before, made);
                assert forall|i: int| 0 <= i < n implies (#[trigger] provider_built(
                    roles,
                    providers,
                    fetched[i],
                    i,
                ) matches Ok(one) && built.contains(one)) by {
                    let one = provider_built(roles, providers, fetched[i], i)->Ok_0;
                    if i < m {
                        assert(before.contains(one));
                        assert(before.to_multiset().count(one) > 0);
                    }
                    assert(built.to_multiset().count(one) > 0);
                }
            },
            (Ok(_), Err(_)) => {
                assert(provider_built(roles, providers, fetched[n - 1], n - 1) is Err);
            },
            _ => {},
        }
    }
}

/// A configuration is accepted where its roles, principals, service accounts and providers all are.
pub proof fn law_which_configurations_are_accepted(
    config: ConfigView,
    fetched: Seq<FetchedView>,
)
    ensures
        config_built(config, fetched) is Ok <==> {
            &&& forall|i: int|
                0 <= i < config.roles.names.len() ==> role_holds(
                    config.roles,
                    #[trigger] config.roles.names[i],
                )
            &&& forall|i: int|
                0 <= i < config.principals.len() ==> #[trigger] principal_holds(
                    config.roles,
                    config.principals,
                    i,
                )
            &&& forall|i: int|
                0 <= i < config.service_accounts.len() ==> #[trigger] account_holds(
                    config.roles,
                    config.principals,
                    config.service_accounts,
                    i,
                )
            &&& forall|i: int|
                0 <= i < config.oidc_providers.len() ==> (#[trigger] provider_built(
                    config.roles,
                    config.oidc_providers,
                    fetched[i],
                    i,
                )) is Ok
        },
{
    law_which_roles_are_accepted(config.roles, config.roles.names.len());
    law_which_principals_are_accepted(config.roles, config.principals, config.principals.len());
    law_which_accounts_are_accepted(
        config.roles,
        config.principals,
        config.service_accounts,
        config.service_accounts.len(),
    );
    law_every_provider_is_in_use(
        config.roles,
        config.oidc_providers,
        fetched,
        config.oidc_providers.len(),
    );
}

} // verus!
