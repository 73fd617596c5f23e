//! What holds of access control whatever is configured and asked for.

use vstd::prelude::*;
use crate::crypto::{base64url_text, is_base64url_char};
use crate::json::DocumentView;
use crate::lists::{first_index, lemma_first_index, lemma_first_index_is};
use crate::parsing::{lemma_unsplit, pieces};
use crate::rbac::{audited, authorized, next_sequence, AuditView, RegistryView, SpecView};
use crate::rbac_accounts::{
    account_is, accounts_created, accounts_rotated, accounts_switched, accounts_updated,
    change_concluded, create_step, drawn_for, fresh_token, rotate_step, switch_step, token_of_bytes,
    AccountEvent, Drawn, Prepared, Written, TOKEN_BYTES,
};
use crate::rbac_config::{
    account_error, account_named, account_token, accounts_error, config_built, principal_error,
    principal_named, principal_token, principals_error, providers_reached, FetchedView,
};
use crate::rbac_decision::{
    access_decision, account_decision, account_has, allowing, any_among, bindings_decision,
    claim_number, claim_text, claim_texts, granted, in_scope, issued_by, principal_decision,
    principal_has, provider_accepts, resource_fits, signed_decision, Applicant, HeaderView,
};
use crate::rbac_types::{
    unauthorized, AccountView, BindingView, ConfigView, DenialView, PermissionView, PrincipalView,
    ProviderView, RolesView, OIDC_CLOCK_SKEW_SECONDS, RBAC_AUDIT_CAPACITY,
};
use crate::text::{is_space, lemma_trimmed_twice, trim_end, trim_start, trimmed};

verus! {

proof fn lemma_principals_checked(
    roles: RolesView,
    principals: Seq<PrincipalView>,
    n: nat,
    i: int,
)
    requires
        principals_error(roles, principals, n) is None,
        0 <= i < n,
    ensures
        principal_error(roles, principals, i) is None,
    decreases n,
{
    if i < n - 1 {
        lemma_principals_checked(roles, principals, (n - 1) as nat, i);
    }
}

proof fn lemma_accounts_checked(
    roles: RolesView,
    principals: Seq<PrincipalView>,
    accounts: Seq<AccountView>,
    n: nat,
    i: int,
)
    requires
        accounts_error(roles, principals, accounts, n) is None,
        0 <= i < n,
    ensures
        account_error(roles, principals, accounts, i) is None,
    decreases n,
{
    if i < n - 1 {
        lemma_accounts_checked(roles, principals, accounts, (n - 1) as nat, i);
    }
}

/// In a configuration that is accepted, no two of those who have a token share it or their name.
pub proof fn law_tokens_and_names_unique(config: ConfigView, fetched: Seq<FetchedView>)
    requires
        config_built(config, fetched) is Ok,
    ensures
        forall|i: int, k: int|
            0 <= i < k < config.principals.len() ==> (#[trigger] config.principals[i]).id != (
            #[trigger] config.principals[k]).id && trimmed(config.principals[i].token) != trimmed(
                config.principals[k].token,
            ),
        forall|i: int, k: int|
            0 <= i < k < config.service_accounts.len() ==> (
            #[trigger] config.service_accounts[i]).id != (#[trigger] config.service_accounts[k]).id
                && trimmed(config.service_accounts[i].token) != trimmed(
                config.service_accounts[k].token,
            ),
        forall|i: int, k: int|
            0 <= i < config.principals.len() && 0 <= k < config.service_accounts.len() ==> (
            #[trigger] config.principals[i]).id != (#[trigger] config.service_accounts[k]).id
                && trimmed(config.principals[i].token) != trimmed(config.service_accounts[k].token),
{
    let principals = config.principals;
    let accounts = config.service_accounts;
    assert forall|i: int, k: int| 0 <= i < k < principals.len() implies (
    #[trigger] principals[i]).id != (#[trigger] principals[k]).id && trimmed(principals[i].token)
        != trimmed(principals[k].token) by {
        lemma_principals_checked(config.roles, principals, principals.len(), k);
        assert(!principal_named(principals, k, principals[k].id));
        assert(!principal_token(principals, k, trimmed(principals[k].token)));
    }
    assert forall|i: int, k: int| 0 <= i < k < accounts.len() implies (#[trigger] accounts[i]).id
        != (#[trigger] accounts[k]).id && trimmed(accounts[i].token) != trimmed(
        accounts[k].token,
    ) by {
        lemma_accounts_checked(config.roles, principals, accounts, accounts.len(), k);
        assert(!account_named(accounts, k, accounts[k].id));
        assert(!account_token(accounts, k, trimmed(accounts[k].token)));
    }
    assert forall|i: int, k: int|
        0 <= i < principals.len() && 0 <= k < accounts.len() implies (#[trigger] principals[i]).id
        != (#[trigger] accounts[k]).id && trimmed(principals[i].token) != trimmed(
        accounts[k].token,
    ) by {
        lemma_accounts_checked(config.roles, principals, accounts, accounts.len(), k);
        assert(!principal_named(principals, principals.len() as int, accounts[k].id));
        assert(!principal_token(
            principals,
            principals.len() as int,
            trimmed(accounts[k].token),
        ));
    }
}

/// Where something is wrong before the providers are reached, their keys do not matter.
pub proof fn law_keys_do_not_matter_unless_wanted(
    config: ConfigView,
    fetched: Seq<FetchedView>,
    other: Seq<FetchedView>,
)
    requires
        !providers_reached(config.roles, config.principals, config.service_accounts),
    ensures
        config_built(config, fetched) is Err,
        config_built(config, fetched) == config_built(config, other),
{
}

/// Whoever is let in has a binding that reaches the resource, of a role that grants the action on it.
pub proof fn law_access_needs_a_grant(
    roles: RolesView,
    bindings: Seq<BindingView>,
    who: Applicant,
    permission: PermissionView,
)
    requires
        bindings_decision(roles, bindings, who, permission) is Ok,
    ensures
        exists|i: int|
            0 <= i < bindings.len() && roles.grants.dom().contains((#[trigger] bindings[i]).role)
                && in_scope(bindings[i].scopes, permission.resource) && granted(
                roles.grants[bindings[i].role],
                permission,
            ) && bindings_decision(roles, bindings, who, permission)->Ok_0.role
                == bindings[i].role,
{
    lemma_first_index(bindings, allowing(roles, permission));
    let i = first_index(bindings, allowing(roles, permission))->0;
    assert(allowing(roles, permission)(bindings[i]));
}

/// Whoever has only bindings with scopes is kept out of every resource that no scope fits.
pub proof fn law_scopes_limit_access(
    roles: RolesView,
    bindings: Seq<BindingView>,
    who: Applicant,
    permission: PermissionView,
)
    requires
        forall|i: int|
            0 <= i < bindings.len() ==> (#[trigger] bindings[i]).scopes.len() > 0 && forall|k: int|
                0 <= k < bindings[i].scopes.len() ==> !resource_fits(
                    #[trigger] bindings[i].scopes[k],
                    permission.resource,
                ),
    ensures
        bindings_decision(roles, bindings, who, permission) matches Err(denial) && denial.status
            == 403 && denial.code == "auth_scope_denied"@,
{
    lemma_first_index(bindings, allowing(roles, permission));
    match first_index(bindings, allowing(roles, permission)) {
        Some(i) => {
            assert(allowing(roles, permission)(bindings[i]));
            assert(!in_scope(bindings[i].scopes, permission.resource));
        },
        None => {},
    }
}

/// Whoever is shut out is denied everything.
pub proof fn law_disabled_are_denied(
    roles: RolesView,
    principal: PrincipalView,
    account: AccountView,
    permission: PermissionView,
)
    ensures
        principal.disabled ==> (principal_decision(roles, principal, permission) matches Err(denial)
            && denial.code == "auth_principal_disabled"@),
        account.disabled ==> (account_decision(roles, account, permission) matches Err(denial)
            && denial.code == "auth_principal_disabled"@),
{
}

/// Without a token, or with one that nobody has and that is not signed, nobody is let in.
pub proof fn law_unknown_tokens_are_denied(
    config: ConfigView,
    providers: Seq<ProviderView>,
    token: Seq<char>,
    header_fault: Option<Seq<char>>,
    permission: PermissionView,
    now_secs: u64,
)
    requires
        !principal_token(config.principals, config.principals.len() as int, token),
        !account_token(config.service_accounts, config.service_accounts.len() as int, token),
        pieces(token, '.').len() != 3,
    ensures
        access_decision(config, providers, None, header_fault, permission, now_secs) == Err::<
            crate::rbac_types::PrincipalGrantView,
            DenialView,
        >(unauthorized("auth_token_missing"@)),
        access_decision(config, providers, Some(token), header_fault, permission, now_secs) == Err::<
            crate::rbac_types::PrincipalGrantView,
            DenialView,
        >(unauthorized("auth_token_invalid"@)),
{
    lemma_first_index(config.principals, principal_has(token));
    lemma_first_index(config.service_accounts, account_has(token));
    match first_index(config.principals, principal_has(token)) {
        Some(i) => {
            assert(trimmed(config.principals[i].token) == token);
        },
        None => {},
    }
    match first_index(config.service_accounts, account_has(token)) {
        Some(i) => {
            assert(trimmed(config.service_accounts[i].token) == token);
        },
        None => {},
    }
}

/// A signed token lets someone in only where a key of its issuer accepts the signature, and its
/// claims hold at the time: it has not expired, it is valid already, and it is meant for an audience
/// of the provider.
pub proof fn law_signed_tokens_are_checked(
    roles: RolesView,
    providers: Seq<ProviderView>,
    header: HeaderView,
    claims: DocumentView,
    data: Seq<u8>,
    signature: Seq<u8>,
    permission: PermissionView,
    now_secs: u64,
)
    requires
        signed_decision(
            roles,
            providers,
            header,
            claims,
            data,
            signature,
            permission,
            now_secs,
        ) is Ok,
    ensures
        exists|i: int|
            0 <= i < providers.len() && claim_text(claims, "iss"@) == Some(
                (#[trigger] providers[i]).issuer,
            ) && provider_accepts(providers[i], header, data, signature) && (
            providers[i].audiences.len() > 0 ==> any_among(
                claim_texts(claims, "aud"@),
                providers[i].audiences,
            )),
        claim_number(claims, "exp"@) matches Some(exp) && exp + OIDC_CLOCK_SKEW_SECONDS > now_secs,
        claim_number(claims, "nbf"@) matches Some(nbf) ==> nbf <= now_secs
            + OIDC_CLOCK_SKEW_SECONDS,
        claim_number(claims, "iat"@) matches Some(iat) ==> iat <= now_secs
            + OIDC_CLOCK_SKEW_SECONDS,
        claim_text(claims, "sub"@) is Some,
{
    let issuer = claim_text(claims, "iss"@)->0;
    lemma_first_index(providers, issued_by(issuer));
    let i = first_index(providers, issued_by(issuer))->0;
    assert(issued_by(issuer)(providers[i]));
}

/// A text of the alphabet of tokens has no white space at its ends.
proof fn lemma_token_trimmed(token: Seq<char>)
    requires
        token.len() > 0,
        !is_space(token[0]),
        !is_space(token.last()),
    ensures
        trimmed(token) == token,
{
    reveal_with_fuel(trim_start, 2);
    reveal_with_fuel(trim_end, 2);
}

proof fn lemma_fresh_token(config: ConfigView, token: Seq<char>)
    requires
        fresh_token(config, token),
    ensures
        trimmed(token) == token,
        token.len() > 0,
{
    reveal_strlit("tsa_");
    let prefix = "tsa_"@;
    let bytes = choose|bytes: Seq<u8>|
        bytes.len() == TOKEN_BYTES && token == #[trigger] token_of_bytes(bytes);
    assert(token == prefix + base64url_text(bytes));
    assert(token[0] == prefix[0]);
    if token.len() == prefix.len() {
        assert(token.last() == prefix[3]);
    } else {
        assert(is_base64url_char(token[token.len() - 1]));
    }
    lemma_token_trimmed(token);
}

/// A token that was drawn does not have the form of a signed token.
proof fn lemma_fresh_token_unsigned(config: ConfigView, token: Seq<char>)
    requires
        fresh_token(config, token),
    ensures
        pieces(token, '.').len() == 1,
{
    reveal_strlit("tsa_");
    let prefix = "tsa_"@;
    let bytes = choose|bytes: Seq<u8>|
        bytes.len() == TOKEN_BYTES && token == #[trigger] token_of_bytes(bytes);
    assert(token == prefix + base64url_text(bytes));
    assert forall|i: int| 0 <= i < token.len() implies #[trigger] token[i] != '.' by {
        if i < prefix.len() {
            assert(token[i] == prefix[i]);
        } else {
            assert(is_base64url_char(token[i]));
        }
    }
    lemma_unsplit(token, '.');
}

/// A token of an account that is in force is answered for by that account.
proof fn lemma_account_answers(
    config: ConfigView,
    fetched: Seq<FetchedView>,
    providers: Seq<ProviderView>,
    i: int,
    header_fault: Option<Seq<char>>,
    permission: PermissionView,
    now_secs: u64,
)
    requires
        config_built(config, fetched) is Ok,
        0 <= i < config.service_accounts.len(),
    ensures
        access_decision(
            config,
            providers,
            Some(trimmed(config.service_accounts[i].token)),
            header_fault,
            permission,
            now_secs,
        ) == account_decision(config.roles, config.service_accounts[i], permission),
{
    let accounts = config.service_accounts;
    let token = trimmed(accounts[i].token);
    law_tokens_and_names_unique(config, fetched);
    lemma_first_index(config.principals, principal_has(token));
    match first_index(config.principals, principal_has(token)) {
        Some(k) => {
            assert(trimmed(config.principals[k].token) == token);
            assert(config.principals[k].id != accounts[i].id);
        },
        None => {},
    }
    assert forall|k: int| 0 <= k < i implies !account_has(token)(#[trigger] accounts[k]) by {
        assert(accounts[k].id != accounts[i].id);
    }
    lemma_first_index_is(accounts, account_has(token), i);
}

/// A service account that was made is let in by its token as its description says.
pub proof fn law_created_account_is_let_in(
    v: RegistryView,
    spec: SpecView,
    token: Drawn,
    fetched: Seq<FetchedView>,
    now_ms: u64,
    header_fault: Option<Seq<char>>,
    permission: PermissionView,
    now_secs: u64,
)
    requires
        drawn_for(v.config, token),
        create_step(v, spec, token, fetched, now_ms).1 is Ok,
    ensures
        token is Ok,
        create_step(v, spec, token, fetched, now_ms).1->Ok_0.token == token->Ok_0,
        create_step(v, spec, token, fetched, now_ms).1->Ok_0.id == trimmed(spec.id),
        access_decision(
            create_step(v, spec, token, fetched, now_ms).0.config,
            create_step(v, spec, token, fetched, now_ms).0.providers,
            Some(token->Ok_0),
            header_fault,
            permission,
            now_secs,
        ) == account_decision(
            v.config.roles,
            create_step(v, spec, token, fetched, now_ms).1->Ok_0,
            permission,
        ),
{
    let accounts = accounts_created(v.config, spec, token, now_ms)->Ok_0;
    let w = create_step(v, spec, token, fetched, now_ms).0;
    let id = trimmed(spec.id);
    let last = accounts.len() - 1;
    lemma_first_index(accounts, account_is(id));
    assert forall|k: int| 0 <= k < last implies !account_is(id)(#[trigger] accounts[k]) by {
        assert(accounts[k] == v.config.service_accounts[k]);
        assert(!account_named(
            v.config.service_accounts,
            v.config.service_accounts.len() as int,
            id,
        ));
    }
    lemma_first_index_is(accounts, account_is(id), last);
    lemma_fresh_token(v.config, token->Ok_0);
    lemma_account_answers(
        ConfigView { service_accounts: accounts, ..v.config },
        fetched,
        w.providers,
        last,
        header_fault,
        permission,
        now_secs,
    );
}

/// Once a service account has a new token, the old one belongs to nobody.
pub proof fn law_rotation_ends_the_old_token(
    v: RegistryView,
    id: Seq<char>,
    token: Drawn,
    fetched: Seq<FetchedView>,
    before: Seq<FetchedView>,
    now_ms: u64,
)
    requires
        config_built(v.config, before) is Ok,
        drawn_for(v.config, token),
        rotate_step(v, id, token, fetched, now_ms).1 is Ok,
    ensures
        first_index(v.config.service_accounts, account_is(trimmed(id))) is Some,
        ({
            let i = first_index(v.config.service_accounts, account_is(trimmed(id)))->0;
            let old_token = trimmed(v.config.service_accounts[i].token);
            let config = rotate_step(v, id, token, fetched, now_ms).0.config;
            &&& !principal_token(config.principals, config.principals.len() as int, old_token)
            &&& !account_token(
                config.service_accounts,
                config.service_accounts.len() as int,
                old_token,
            )
            &&& config.service_accounts[i].token == token->Ok_0
            &&& trimmed(token->Ok_0) != old_token
        }),
{
    let accounts = v.config.service_accounts;
    let name = trimmed(id);
    lemma_first_index(accounts, account_is(name));
    let i = first_index(accounts, account_is(name))->0;
    let old_token = trimmed(accounts[i].token);
    let next = accounts_rotated(v.config, name, token, now_ms)->Ok_0;
    lemma_fresh_token(v.config, token->Ok_0);
    law_tokens_and_names_unique(v.config, before);
    assert(trimmed(token->Ok_0) != old_token) by {
        assert(!account_token(accounts, accounts.len() as int, token->Ok_0));
        assert(trimmed(accounts[i].token) == old_token);
    }
    assert forall|k: int| 0 <= k < next.len() implies trimmed((#[trigger] next[k]).token)
        != old_token by {
        if k != i {
            assert(next[k] == accounts[k]);
            assert(accounts[k].id != accounts[i].id);
        }
    }
    assert forall|k: int| 0 <= k < v.config.principals.len() implies trimmed(
        (#[trigger] v.config.principals[k]).token,
    ) != old_token by {
        assert(v.config.principals[k].id != accounts[i].id);
    }
}

/// Once a service account has a new token, it is the account that it was but for the token and the
/// times of the change. The new token is answered as the old one was, whatever is asked for, and the
/// old one is unknown, unless it has the form of a signed token.
pub proof fn law_new_token_decides_as_the_old_one(
    v: RegistryView,
    id: Seq<char>,
    token: Drawn,
    fetched: Seq<FetchedView>,
    before: Seq<FetchedView>,
    now_ms: u64,
    header_fault: Option<Seq<char>>,
    permission: PermissionView,
    now_secs: u64,
)
    requires
        config_built(v.config, before) is Ok,
        drawn_for(v.config, token),
        rotate_step(v, id, token, fetched, now_ms).1 is Ok,
    ensures
        token is Ok,
        first_index(v.config.service_accounts, account_is(trimmed(id))) is Some,
        ({
            let i = first_index(v.config.service_accounts, account_is(trimmed(id)))->0;
            let account = v.config.service_accounts[i];
            let old_token = trimmed(account.token);
            let w = rotate_step(v, id, token, fetched, now_ms).0;
            let decision = access_decision(
                w.config,
                w.providers,
                Some(token->Ok_0),
                header_fault,
                permission,
                now_secs,
            );
            &&& rotate_step(v, id, token, fetched, now_ms).1->Ok_0 == (AccountView {
                token: token->Ok_0,
                updated_unix_ms: now_ms,
                last_rotated_unix_ms: now_ms,
                ..account
            })
            &&& token->Ok_0 != old_token
            &&& decision == account_decision(v.config.roles, account, permission)
            &&& decision == access_decision(
                v.config,
                v.providers,
                Some(old_token),
                header_fault,
                permission,
                now_secs,
            )
            &&& pieces(old_token, '.').len() != 3 ==> access_decision(
                w.config,
                w.providers,
                Some(old_token),
                header_fault,
                permission,
                now_secs,
            ) == Err::<crate::rbac_types::PrincipalGrantView, DenialView>(
                unauthorized("auth_token_invalid"@),
            )
        }),
{
    law_rotation_ends_the_old_token(v, id, token, fetched, before, now_ms);
    let accounts = v.config.service_accounts;
    let name = trimmed(id);
    lemma_first_index(accounts, account_is(name));
    let i = first_index(accounts, account_is(name))->0;
    let old_token = trimmed(accounts[i].token);
    let next = accounts_rotated(v.config, name, token, now_ms)->Ok_0;
    let w = rotate_step(v, id, token, fetched, now_ms).0;
    assert forall|k: int| 0 <= k < i implies !account_is(name)(#[trigger] next[k]) by {
        assert(next[k] == accounts[k]);
    }
    lemma_first_index_is(next, account_is(name), i);
    lemma_fresh_token(v.config, token->Ok_0);
    lemma_account_answers(
        v.config,
        before,
        v.providers,
        i,
        header_fault,
        permission,
        now_secs,
    );
    lemma_account_answers(w.config, fetched, w.providers, i, header_fault, permission, now_secs);
    if pieces(old_token, '.').len() != 3 {
        law_unknown_tokens_are_denied(
            w.config,
            w.providers,
            old_token,
            header_fault,
            permission,
            now_secs,
        );
    }
}

/// A service account that was made and then given a new token keeps its name, description, state,
/// bindings and the time it was made. The token it was made with is unknown from then on, and the
/// new one is another and is answered as the first one was.
pub proof fn law_rotation_after_creation(
    v: RegistryView,
    spec: SpecView,
    first: Drawn,
    first_fetched: Seq<FetchedView>,
    created_ms: u64,
    between: RegistryView,
    second: Drawn,
    second_fetched: Seq<FetchedView>,
    rotated_ms: u64,
    header_fault: Option<Seq<char>>,
    permission: PermissionView,
    now_secs: u64,
)
    requires
        drawn_for(v.config, first),
        create_step(v, spec, first, first_fetched, created_ms).1 is Ok,
        between.config == create_step(v, spec, first, first_fetched, created_ms).0.config,
        drawn_for(between.config, second),
        rotate_step(
            between,
            create_step(v, spec, first, first_fetched, created_ms).1->Ok_0.id,
            second,
            second_fetched,
            rotated_ms,
        ).1 is Ok,
    ensures
        ({
            let created = create_step(v, spec, first, first_fetched, created_ms).1->Ok_0;
            let after = rotate_step(between, created.id, second, second_fetched, rotated_ms);
            let rotated = after.1->Ok_0;
            &&& rotated.token != created.token
            &&& rotated == (AccountView {
                token: rotated.token,
                updated_unix_ms: rotated_ms,
                last_rotated_unix_ms: rotated_ms,
                ..created
            })
            &&& access_decision(
                after.0.config,
                after.0.providers,
                Some(created.token),
                header_fault,
                permission,
                now_secs,
            ) == Err::<crate::rbac_types::PrincipalGrantView, DenialView>(
                unauthorized("auth_token_invalid"@),
            )
            &&& access_decision(
                after.0.config,
                after.0.providers,
                Some(rotated.token),
                header_fault,
                permission,
                now_secs,
            ) == access_decision(
                between.config,
                between.providers,
                Some(created.token),
                header_fault,
                permission,
                now_secs,
            )
        }),
{
    let created = create_step(v, spec, first, first_fetched, created_ms).1->Ok_0;
    let accounts = accounts_created(v.config, spec, first, created_ms)->Ok_0;
    let last = accounts.len() - 1;
    law_created_account_is_let_in(
        v,
        spec,
        first,
        first_fetched,
        created_ms,
        header_fault,
        permission,
        now_secs,
    );
    lemma_fresh_token(v.config, first->Ok_0);
    lemma_fresh_token_unsigned(v.config, first->Ok_0);
    lemma_trimmed_twice(spec.id);
    assert forall|k: int| 0 <= k < last implies !account_is(created.id)(#[trigger] accounts[k]) by {
        assert(accounts[k] == v.config.service_accounts[k]);
        assert(!account_named(
            v.config.service_accounts,
            v.config.service_accounts.len() as int,
            created.id,
        ));
    }
    lemma_first_index_is(accounts, account_is(created.id), last);
    law_new_token_decides_as_the_old_one(
        between,
        created.id,
        second,
        second_fetched,
        first_fetched,
        rotated_ms,
        header_fault,
        permission,
        now_secs,
    );
}

/// A service account that is shut out is denied everything, and let in again it is answered as it was
/// before.
pub proof fn law_switching_back_brings_back(
    v: RegistryView,
    id: Seq<char>,
    before: Seq<FetchedView>,
    first: Seq<FetchedView>,
    second: Seq<FetchedView>,
    off_ms: u64,
    on_ms: u64,
    header_fault: Option<Seq<char>>,
    permission: PermissionView,
    now_secs: u64,
)
    requires
        config_built(v.config, before) is Ok,
        switch_step(v, id, true, first, off_ms).1 is Ok,
        switch_step(
            switch_step(v, id, true, first, off_ms).0,
            id,
            false,
            second,
            on_ms,
        ).1 is Ok,
    ensures
        first_index(v.config.service_accounts, account_is(trimmed(id))) is Some,
        ({
            let i = first_index(v.config.service_accounts, account_is(trimmed(id)))->0;
            let account = v.config.service_accounts[i];
            let token = Some(trimmed(account.token));
            let off = switch_step(v, id, true, first, off_ms).0;
            let on = switch_step(off, id, false, second, on_ms).0;
            &&& access_decision(
                off.config,
                off.providers,
                token,
                header_fault,
                permission,
                now_secs,
            ) matches Err(denial) && denial.code == "auth_principal_disabled"@
            &&& !account.disabled ==> access_decision(
                on.config,
                on.providers,
                token,
                header_fault,
                permission,
                now_secs,
            ) == access_decision(
                v.config,
                v.providers,
                token,
                header_fault,
                permission,
                now_secs,
            )
        }),
{
    let name = trimmed(id);
    let accounts = v.config.service_accounts;
    lemma_first_index(accounts, account_is(name));
    let i = first_index(accounts, account_is(name))->0;
    let off = switch_step(v, id, true, first, off_ms).0;
    let on = switch_step(off, id, false, second, on_ms).0;
    let switched = accounts_switched(v.config, name, true, off_ms)->Ok_0;
    assert forall|k: int| 0 <= k < i implies !account_is(name)(#[trigger] switched[k]) by {
        assert(!account_is(name)(accounts[k]));
    }
    lemma_first_index_is(switched, account_is(name), i);
    assert(off.config == (ConfigView { service_accounts: switched, ..v.config }));
    let again = accounts_switched(off.config, name, false, on_ms)->Ok_0;
    assert(on.config == (ConfigView { service_accounts: again, ..v.config })) by {
        assert forall|k: int| 0 <= k < i implies !account_is(name)(#[trigger] again[k]) by {
            assert(!account_is(name)(switched[k]));
        }
        lemma_first_index_is(again, account_is(name), i);
    }
    lemma_account_answers(v.config, before, v.providers, i, header_fault, permission, now_secs);
    lemma_account_answers(off.config, first, off.providers, i, header_fault, permission, now_secs);
    lemma_account_answers(on.config, second, on.providers, i, header_fault, permission, now_secs);
}

/// Describing one service account anew, giving it a token or shutting it out keeps every other.
pub proof fn law_other_accounts_stay(
    config: ConfigView,
    spec: SpecView,
    id: Seq<char>,
    disabled: bool,
    token: Drawn,
    now_ms: u64,
    k: int,
)
    requires
        0 <= k < config.service_accounts.len(),
    ensures
        accounts_created(config, spec, token, now_ms) matches Ok(next) ==> next[k]
            == config.service_accounts[k],
        config.service_accounts[k].id != trimmed(spec.id) ==> (accounts_updated(
            config,
            spec,
            now_ms,
        ) matches Ok(next) ==> next[k] == config.service_accounts[k]),
        config.service_accounts[k].id != id ==> (accounts_rotated(
            config,
            id,
            token,
            now_ms,
        ) matches Ok(next) ==> next[k] == config.service_accounts[k]),
        config.service_accounts[k].id != id ==> (accounts_switched(
            config,
            id,
            disabled,
            now_ms,
        ) matches Ok(next) ==> next[k] == config.service_accounts[k]),
{
    let accounts = config.service_accounts;
    lemma_first_index(accounts, account_is(trimmed(spec.id)));
    lemma_first_index(accounts, account_is(id));
}

/// A change that was refused, or could not be written, leaves the configuration as it was.
pub proof fn law_failed_change_changes_nothing(
    v: RegistryView,
    change: Prepared,
    written: Written,
    event: AccountEvent,
    id: Seq<char>,
    now_ms: u64,
)
    requires
        change is Err || written is Err,
    ensures
        change_concluded(v, change, written, event, id, now_ms).1 is Err,
        change_concluded(v, change, written, event, id, now_ms).0.config == v.config,
        change_concluded(v, change, written, event, id, now_ms).0.providers == v.providers,
        change_concluded(v, change, written, event, id, now_ms).0.last_loaded_unix_ms
            == v.last_loaded_unix_ms,
{
}

/// The audit log never holds more than its capacity, and its last entry is always the newest.
pub proof fn law_audit_log_is_bounded(v: RegistryView, entry: AuditView, now_ms: u64)
    requires
        v.audit.len() <= RBAC_AUDIT_CAPACITY,
    ensures
        audited(v, entry, now_ms).audit.len() <= RBAC_AUDIT_CAPACITY,
        audited(v, entry, now_ms).audit.len() > 0,
        audited(v, entry, now_ms).audit.last() == (AuditView {
            sequence: next_sequence(v.audit_seq),
            timestamp_unix_ms: now_ms,
            ..entry
        }),
{
}

/// Every decision is noted: what was asked for, and whether it was allowed.
pub proof fn law_decisions_are_noted(
    v: RegistryView,
    token: Option<Seq<char>>,
    header_fault: Option<Seq<char>>,
    permission: PermissionView,
    now_ms: u64,
)
    ensures
        ({
            let (w, decision) = authorized(v, token, header_fault, permission, now_ms);
            let entry = w.audit.last();
            &&& entry.action == Some(permission.action)
            &&& entry.resource == Some(permission.resource)
            &&& entry.outcome == (if decision is Ok {
                "allow"@
            } else {
                "deny"@
            })
            &&& w.config == v.config
            &&& w.providers == v.providers
        }),
{
}

/// What the reader of headers says of a token words a denial and decides nothing.
pub proof fn law_header_fault_decides_nothing(
    config: ConfigView,
    providers: Seq<ProviderView>,
    token: Option<Seq<char>>,
    a: Option<Seq<char>>,
    b: Option<Seq<char>>,
    permission: PermissionView,
    now_secs: u64,
)
    ensures
        match (
            access_decision(config, providers, token, a, permission, now_secs),
            access_decision(config, providers, token, b, permission, now_secs),
        ) {
            (Ok(x), Ok(y)) => x == y,
            (Err(x), Err(y)) => x == (DenialView { detail: x.detail, ..y }),
            _ => false,
        },
{
}

} // verus!
