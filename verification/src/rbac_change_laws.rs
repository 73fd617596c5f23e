//! What the changes to service accounts do: each changes the account that it names, as it says, and
//! nothing else.

use vstd::prelude::*;
use crate::lists::{
    first_index, lemma_first_index, lemma_first_index_is, lemma_ranked_sort_elements,
};
use crate::rbac::{
    accounts_shown, audited, decision_entry, principals_shown, reloaded, state_shown, AuditView,
    RbacPrincipalSnapshot, RbacServiceAccountSnapshot, RegistryView, SpecView,
};
use crate::rbac_accounts::{
    account_is, accounts_created, accounts_rotated, accounts_switched, accounts_updated,
    change_concluded, change_entry, change_prepared, config_write_judged, credential_answer,
    draws_concluded, ends_draws, snapshot_answer, switch_event, token_in_use, token_of_bytes,
    AccountEvent, Drawn, Prepared, Written, MAX_TOKEN_DRAWS,
};
use crate::rbac_config::{
    account_named, config_built, identifier_error, principal_named, FetchedView,
};
use crate::rbac_decision::Decision;
use crate::rbac_types::{AccountView, ConfigView, PermissionView, ProviderView, RBAC_AUDIT_CAPACITY};
use crate::text::trimmed;

verus! {

/// The account of an id is the one at `i`, the first of that id.
pub open spec fn account_at(accounts: Seq<AccountView>, id: Seq<char>, i: int) -> bool {
    0 <= i < accounts.len() && accounts[i].id == id && forall|k: int|
        0 <= k < i ==> (#[trigger] accounts[k]).id != id
}

/// Nothing but the account at `i` differs.
pub open spec fn others_kept(before: Seq<AccountView>, after: Seq<AccountView>, i: int) -> bool {
    before.len() == after.len() && forall|k: int|
        0 <= k < before.len() && k != i ==> #[trigger] after[k] == before[k]
}

/// A service account is made as it is asked for, behind all others: with its name, its bindings, the
/// token that was drawn, and switched off where that is asked for. It is not made where its name is
/// taken or no token could be drawn.
pub proof fn law_account_is_made_as_asked_for(
    config: ConfigView,
    spec: SpecView,
    token: Drawn,
    now_ms: u64,
)
    ensures
        match accounts_created(config, spec, token, now_ms) {
            Ok(list) => {
                let made = list[config.service_accounts.len() as int];
                &&& list.len() == config.service_accounts.len() + 1
                &&& forall|k: int|
                    0 <= k < config.service_accounts.len() ==> #[trigger] list[k]
                        == config.service_accounts[k]
                &&& made.id == trimmed(spec.id)
                &&& token == Ok::<Seq<char>, Seq<char>>(made.token)
                &&& made.disabled == spec.disabled
                &&& made.bindings == spec.bindings
                &&& made.created_unix_ms == now_ms
                &&& made.updated_unix_ms == now_ms
                &&& made.last_rotated_unix_ms == now_ms
                &&& spec.description matches Some(text) ==> trimmed(text).len() > 0
                    ==> made.description == Some(trimmed(text))
                &&& spec.description is None ==> made.description is None
                &&& forall|k: int|
                    0 <= k < config.principals.len() ==> (#[trigger] config.principals[k]).id
                        != made.id
                &&& forall|k: int|
                    0 <= k < config.service_accounts.len() ==> (
                    #[trigger] config.service_accounts[k]).id != made.id
            },
            Err(_) => token is Err || identifier_error(trimmed(spec.id), "service account id"@)
                is Some || (exists|k: int|
                0 <= k < config.principals.len() && (#[trigger] config.principals[k]).id == trimmed(
                    spec.id,
                )) || (exists|k: int|
                0 <= k < config.service_accounts.len() && (#[trigger] config.service_accounts[k]).id
                    == trimmed(spec.id)),
        },
{
    match accounts_created(config, spec, token, now_ms) {
        Ok(list) => {
            let id = trimmed(spec.id);
            assert(!principal_named(config.principals, config.principals.len() as int, id));
            assert(!account_named(
                config.service_accounts,
                config.service_accounts.len() as int,
                id,
            ));
        },
        Err(_) => {},
    }
}

/// Changing a service account sets its description, whether it is switched off, and its bindings. Its
/// token stays, and so does every other account.
pub proof fn law_account_is_changed_as_asked_for(
    config: ConfigView,
    spec: SpecView,
    now_ms: u64,
    i: int,
)
    requires
        account_at(config.service_accounts, trimmed(spec.id), i),
    ensures
        accounts_updated(config, spec, now_ms) matches Ok(list) && {
            let was = config.service_accounts[i];
            &&& others_kept(config.service_accounts, list, i)
            &&& list[i].id == was.id
            &&& list[i].token == was.token
            &&& list[i].disabled == spec.disabled
            &&& list[i].bindings == spec.bindings
            &&& list[i].created_unix_ms == was.created_unix_ms
            &&& list[i].last_rotated_unix_ms == was.last_rotated_unix_ms
            &&& list[i].updated_unix_ms == now_ms
            &&& spec.description is None ==> list[i].description is None
            &&& spec.description matches Some(text) ==> trimmed(text).len() > 0
                ==> list[i].description == Some(trimmed(text))
        },
{
    lemma_first_index_is(config.service_accounts, account_is(trimmed(spec.id)), i);
}

/// Rotating gives a service account the token that was drawn; all else that it has stays, and so does
/// every other account.
pub proof fn law_rotation_changes_the_token_alone(
    config: ConfigView,
    id: Seq<char>,
    token: Seq<char>,
    now_ms: u64,
    i: int,
)
    requires
        account_at(config.service_accounts, id, i),
    ensures
        accounts_rotated(config, id, Ok(token), now_ms) matches Ok(list) && {
            let was = config.service_accounts[i];
            &&& others_kept(config.service_accounts, list, i)
            &&& list[i].id == was.id
            &&& list[i].token == token
            &&& list[i].disabled == was.disabled
            &&& list[i].bindings == was.bindings
            &&& list[i].description == was.description
            &&& list[i].created_unix_ms == was.created_unix_ms
            &&& list[i].last_rotated_unix_ms == now_ms
            &&& list[i].updated_unix_ms == now_ms
        },
        forall|message: Seq<char>|
            (#[trigger] accounts_rotated(config, id, Err(message), now_ms)) is Err,
{
    lemma_first_index_is(config.service_accounts, account_is(id), i);
}

/// Switching a service account off or on changes that alone, for that account alone.
pub proof fn law_switching_changes_the_switch_alone(
    config: ConfigView,
    id: Seq<char>,
    disabled: bool,
    now_ms: u64,
    i: int,
)
    requires
        account_at(config.service_accounts, id, i),
    ensures
        accounts_switched(config, id, disabled, now_ms) matches Ok(list) && {
            let was = config.service_accounts[i];
            &&& others_kept(config.service_accounts, list, i)
            &&& list[i].id == was.id
            &&& list[i].token == was.token
            &&& list[i].disabled == disabled
            &&& list[i].bindings == was.bindings
            &&& list[i].description == was.description
            &&& list[i].created_unix_ms == was.created_unix_ms
            &&& list[i].last_rotated_unix_ms == was.last_rotated_unix_ms
            &&& list[i].updated_unix_ms == now_ms
        },
{
    lemma_first_index_is(config.service_accounts, account_is(id), i);
}

/// An account that there is not cannot be changed, rotated or switched.
pub proof fn law_unknown_accounts_cannot_be_changed(
    config: ConfigView,
    spec: SpecView,
    id: Seq<char>,
    token: Drawn,
    disabled: bool,
    now_ms: u64,
)
    requires
        forall|k: int|
            0 <= k < config.service_accounts.len() ==> (#[trigger] config.service_accounts[k]).id
                != id,
        trimmed(spec.id) == id,
    ensures
        accounts_updated(config, spec, now_ms) is Err,
        accounts_rotated(config, id, token, now_ms) is Err,
        accounts_switched(config, id, disabled, now_ms) is Err,
{
    lemma_first_index(config.service_accounts, account_is(id));
    match first_index(config.service_accounts, account_is(id)) {
        Some(k) => {
            assert(config.service_accounts[k].id == id);
        },
        None => {},
    }
}

/// A change that was prepared and written is in force: the accounts are those of the change, and the
/// roles and the principals stay. The account that is handed back is the one that was changed. A change
/// that was refused or could not be written changes neither accounts nor providers.
pub proof fn law_written_change_is_in_force(
    v: RegistryView,
    change: Prepared,
    written: Written,
    event: AccountEvent,
    id: Seq<char>,
    now_ms: u64,
)
    ensures
        ({
            let (w, result) = change_concluded(v, change, written, event, id, now_ms);
            &&& w.config.roles == v.config.roles
            &&& w.config.principals == v.config.principals
            &&& w.config.oidc_providers == v.config.oidc_providers
            &&& w.source_path == v.source_path
            &&& change is Err || written is Err ==> result is Err && w.config == v.config
                && w.providers == v.providers && w.last_loaded_unix_ms == v.last_loaded_unix_ms
            &&& result matches Ok(account) ==> change is Ok && account.id == id
                && w.config.service_accounts == change->Ok_0.accounts && w.providers
                == change->Ok_0.providers && w.last_loaded_unix_ms == now_ms
                && w.config.service_accounts.contains(account)
            &&& change matches Ok(next) ==> written == Ok::<Option<Seq<char>>, Seq<char>>(None)
                && (exists|k: int| 0 <= k < next.accounts.len() && (#[trigger] next.accounts[k]).id == id)
                ==> result is Ok
        }),
{
    match change {
        Ok(next) => {
            lemma_first_index(next.accounts, account_is(id));
            match first_index(next.accounts, account_is(id)) {
                Some(i) => {
                    assert(account_is(id)(next.accounts[i]));
                },
                None => {
                    if exists|k: int| 0 <= k < next.accounts.len() && (#[trigger] next.accounts[k]).id == id {
                        let k = choose|k: int|
                            0 <= k < next.accounts.len() && (#[trigger] next.accounts[k]).id == id;
                        assert(!account_is(id)(next.accounts[k]));
                    }
                },
            }
        },
        Err(_) => {},
    }
}

/// A change is prepared where the configuration with the accounts changed is accepted.
pub proof fn law_only_what_is_accepted_is_prepared(
    config: ConfigView,
    accounts: Seq<AccountView>,
    fetched: Seq<FetchedView>,
)
    ensures
        change_prepared(config, Ok(accounts), fetched) is Ok <==> config_built(
            ConfigView {
                roles: config.roles,
                principals: config.principals,
                service_accounts: accounts,
                oidc_providers: config.oidc_providers,
            },
            fetched,
        ) is Ok,
        change_prepared(config, Ok(accounts), fetched) matches Ok(change) ==> change.accounts
            == accounts,
{
}

/// A drawn token counts where nobody has it yet. The first draw that nobody has, or that failed, ends the
/// drawing; as long as each was taken it goes on, up to the number of draws that are made.
pub proof fn law_first_free_draw_is_the_token(
    config: ConfigView,
    draws: Seq<Option<Seq<u8>>>,
    i: int,
)
    ensures
        0 <= i < draws.len() && (forall|k: int|
            0 <= k < i ==> ((#[trigger] draws[k]) matches Some(bytes) && token_in_use(
                config,
                token_of_bytes(bytes),
            ))) ==> {
            &&& draws[i] matches Some(bytes) ==> !token_in_use(config, token_of_bytes(bytes))
                ==> draws_concluded(config, draws) == Some(
                Ok::<Seq<char>, Seq<char>>(token_of_bytes(bytes)),
            )
            &&& draws[i] is None ==> (draws_concluded(config, draws) matches Some(drawn)
                && drawn is Err)
        },
        (forall|k: int|
            0 <= k < draws.len() ==> ((#[trigger] draws[k]) matches Some(bytes) && token_in_use(
                config,
                token_of_bytes(bytes),
            ))) ==> {
            &&& draws.len() < MAX_TOKEN_DRAWS ==> draws_concluded(config, draws) is None
            &&& draws.len() >= MAX_TOKEN_DRAWS ==> (draws_concluded(config, draws) matches Some(drawn)
                && drawn is Err)
        },
{
    let ends = ends_draws(config);
    lemma_first_index(draws, ends);
    if 0 <= i < draws.len() && (forall|k: int|
        0 <= k < i ==> ((#[trigger] draws[k]) matches Some(bytes) && token_in_use(
            config,
            token_of_bytes(bytes),
        ))) && ends(draws[i]) {
        assert forall|k: int| 0 <= k < i implies !ends(#[trigger] draws[k]) by {
            assert(draws[k] matches Some(bytes) && token_in_use(config, token_of_bytes(bytes)));
        }
        lemma_first_index_is(draws, ends, i);
    }
    if forall|k: int|
        0 <= k < draws.len() ==> ((#[trigger] draws[k]) matches Some(bytes) && token_in_use(
            config,
            token_of_bytes(bytes),
        )) {
        match first_index(draws, ends) {
            Some(k) => {
                assert(draws[k] matches Some(bytes) && token_in_use(config, token_of_bytes(bytes)));
                assert(!ends(draws[k]));
            },
            None => {},
        }
    }
}

/// A token is in use where a principal or a service account has it.
pub proof fn law_when_a_token_is_in_use(config: ConfigView, token: Seq<char>)
    ensures
        token_in_use(config, token) <==> (exists|k: int|
            0 <= k < config.principals.len() && trimmed((#[trigger] config.principals[k]).token)
                == token) || (exists|k: int|
            0 <= k < config.service_accounts.len() && trimmed(
                (#[trigger] config.service_accounts[k]).token,
            ) == token),
{
}

/// A configuration counts as written where writing it succeeded, or where what is read back is what was
/// to be written; then a warning says so.
pub proof fn law_when_a_configuration_counts_as_written(
    shown: Seq<char>,
    raw: Seq<u8>,
    written: Result<(), Seq<char>>,
    read_back: Result<Seq<u8>, Seq<char>>,
)
    ensures
        config_write_judged(shown, raw, written, read_back) is Ok <==> written is Ok || read_back
            == Ok::<Seq<u8>, Seq<char>>(raw),
        config_write_judged(shown, raw, written, read_back) == Ok::<Option<Seq<char>>, Seq<char>>(
            None,
        ) <==> written is Ok,
{
}

/// An entry of the audit log goes behind all others, with the next number and the time; the others stay,
/// but for the oldest where there is no room.
pub proof fn law_entries_are_added_at_the_end(v: RegistryView, entry: AuditView, now_ms: u64)
    requires
        v.audit.len() <= RBAC_AUDIT_CAPACITY,
        v.audit_seq < u64::MAX,
    ensures
        ({
            let w = audited(v, entry, now_ms);
            let made = w.audit.last();
            let gone: int = if v.audit.len() == RBAC_AUDIT_CAPACITY {
                1
            } else {
                0
            };
            &&& w.audit.len() == v.audit.len() + 1 - gone
            &&& forall|k: int|
                0 <= k < w.audit.len() - 1 ==> #[trigger] w.audit[k] == v.audit[k + gone]
            &&& made.sequence == v.audit_seq + 1
            &&& w.audit_seq == v.audit_seq + 1
            &&& made.timestamp_unix_ms == now_ms
            &&& made.event == entry.event
            &&& made.outcome == entry.outcome
            &&& made.code == entry.code
            &&& made.principal_id == entry.principal_id
            &&& made.role == entry.role
            &&& made.action == entry.action
            &&& made.resource == entry.resource
            &&& made.auth_method == entry.auth_method
            &&& made.provider == entry.provider
            &&& made.subject == entry.subject
            &&& made.detail == entry.detail
            &&& w.config == v.config
            &&& w.providers == v.providers
            &&& w.source_path == v.source_path
        }),
{
}

/// A decision is noted with who asked, for what, and how it was decided.
pub proof fn law_decisions_are_noted_in_full(permission: PermissionView, decision: Decision)
    ensures
        ({
            let entry = decision_entry(permission, decision);
            &&& entry.event == "decision"@
            &&& entry.action == Some(permission.action)
            &&& entry.resource == Some(permission.resource)
            &&& match decision {
                Ok(grant) => entry.outcome == "allow"@ && entry.principal_id == Some(
                    grant.principal_id,
                ) && entry.role == Some(grant.role) && entry.auth_method == Some(grant.auth_method)
                    && entry.provider == grant.provider && entry.subject == grant.subject,
                Err(denial) => entry.outcome == "deny"@ && entry.code == denial.code && entry.detail
                    == denial.detail && entry.principal_id == denial.identity.principal_id
                    && entry.auth_method == denial.identity.auth_method && entry.provider
                    == denial.identity.provider && entry.subject == denial.identity.subject
                    && entry.role is None,
            }
        }),
{
}

/// Loading anew puts the configuration that was read in force, with its providers. Where it cannot be
/// read or is not accepted, the old one stays in force, and nothing is noted.
pub proof fn law_reload_puts_what_was_read_in_force(
    v: RegistryView,
    config: ConfigView,
    fetched: Seq<FetchedView>,
    now_ms: u64,
    message: Seq<char>,
)
    ensures
        ({
            let (w, result) = reloaded(v, Ok(config), fetched, now_ms);
            &&& result is Ok <==> v.source_path is Some && config_built(config, fetched) is Ok
            &&& result is Ok ==> w.config == config && config_built(config, fetched) == Ok::<
                Seq<ProviderView>,
                Seq<char>,
            >(w.providers) && w.last_loaded_unix_ms == now_ms && w.source_path == v.source_path
            &&& result is Err ==> w == v
        }),
        reloaded(v, Err(message), fetched, now_ms).0 == v,
        reloaded(v, Err(message), fetched, now_ms).1 is Err,
{
}

/// What is shown of the registry shows every role with its grants, every principal, every service account
/// and every provider, as they are, and never a token or a key.
pub proof fn law_everything_is_shown(v: RegistryView, i: int)
    ensures
        ({
            let shown = state_shown(v);
            &&& shown.roles.len() == v.config.roles.names.len()
            &&& 0 <= i < v.config.roles.names.len() ==> shown.roles[i].name
                == v.config.roles.names[i] && shown.roles[i].grants
                == v.config.roles.grants[v.config.roles.names[i]]
            &&& 0 <= i < v.config.principals.len() ==> exists|k: int|
                0 <= k < shown.principals.len() && (#[trigger] shown.principals[k]).id
                    == v.config.principals[i].id && shown.principals[k].disabled
                    == v.config.principals[i].disabled && shown.principals[k].bindings
                    == v.config.principals[i].bindings
            &&& 0 <= i < v.config.service_accounts.len() ==> exists|k: int|
                0 <= k < shown.service_accounts.len() && (#[trigger] shown.service_accounts[k]).id
                    == v.config.service_accounts[i].id && shown.service_accounts[k].disabled
                    == v.config.service_accounts[i].disabled && shown.service_accounts[k].bindings
                    == v.config.service_accounts[i].bindings
                    && shown.service_accounts[k].created_unix_ms
                    == v.config.service_accounts[i].created_unix_ms
                    && shown.service_accounts[k].updated_unix_ms
                    == v.config.service_accounts[i].updated_unix_ms
                    && shown.service_accounts[k].last_rotated_unix_ms
                    == v.config.service_accounts[i].last_rotated_unix_ms
            &&& shown.principals.len() == v.config.principals.len()
            &&& shown.service_accounts.len() == v.config.service_accounts.len()
            &&& shown.oidc_providers.len() == v.providers.len()
            &&& 0 <= i < v.providers.len() ==> shown.oidc_providers[i].name == v.providers[i].name
                && shown.oidc_providers[i].issuer == v.providers[i].issuer
                && shown.oidc_providers[i].audiences == v.providers[i].audiences
                && shown.oidc_providers[i].key_ids.len() == v.providers[i].keys.len()
                && shown.oidc_providers[i].claim_mappings == v.providers[i].claim_mappings
                && shown.oidc_providers[i].username_claim == v.providers[i].username_claim
                && shown.oidc_providers[i].jwks_url == v.providers[i].jwks_url
            &&& shown.audit_entries == v.audit.len()
            &&& shown.source_path == v.source_path
            &&& shown.last_loaded_unix_ms == v.last_loaded_unix_ms
        }),
{
    broadcast use vstd::seq_lib::group_to_multiset_ensures;

    let shown = state_shown(v);
    let principals = principals_shown(v.config.principals);
    let accounts = accounts_shown(v.config.service_accounts);
    lemma_ranked_sort_elements::<RbacPrincipalSnapshot>(principals);
    lemma_ranked_sort_elements::<RbacServiceAccountSnapshot>(accounts);
    assert(shown.principals.len() == shown.principals.to_multiset().len());
    assert(principals.len() == principals.to_multiset().len());
    assert(shown.service_accounts.len() == shown.service_accounts.to_multiset().len());
    assert(accounts.len() == accounts.to_multiset().len());
    if 0 <= i < v.config.principals.len() {
        let one = principals[i];
        assert(principals.contains(one));
        assert(shown.principals.to_multiset().count(one) > 0);
        assert(shown.principals.contains(one));
        let k = choose|k: int| 0 <= k < shown.principals.len() && shown.principals[k] == one;
        assert(shown.principals[k].id == v.config.principals[i].id);
    }
    if 0 <= i < v.config.service_accounts.len() {
        let one = accounts[i];
        assert(accounts.contains(one));
        assert(shown.service_accounts.to_multiset().count(one) > 0);
        assert(shown.service_accounts.contains(one));
        let k = choose|k: int|
            0 <= k < shown.service_accounts.len() && shown.service_accounts[k] == one;
        assert(shown.service_accounts[k].id == v.config.service_accounts[i].id);
    }
}

/// Whoever makes or rotates a service account is handed the account as it is now, with its token; whoever
/// changes one otherwise is handed the account alone.
pub proof fn law_token_is_handed_back(account: AccountView, message: Seq<char>)
    ensures
        credential_answer(Ok(account)) matches Ok(answer) && answer.1 == account.token && answer.0.id
            == account.id && answer.0.disabled == account.disabled && answer.0.bindings
            == account.bindings && answer.0.last_rotated_unix_ms == account.last_rotated_unix_ms,
        snapshot_answer(Ok(account)) matches Ok(shown) && shown.id == account.id && shown.disabled
            == account.disabled && shown.bindings == account.bindings && shown.updated_unix_ms
            == account.updated_unix_ms && shown.created_unix_ms == account.created_unix_ms,
        credential_answer(Err(message)) is Err,
        snapshot_answer(Err(message)) is Err,
{
}

/// A change is noted under its own name, for the account that it was made to, with whether it succeeded.
pub proof fn law_changes_are_noted(
    event: AccountEvent,
    id: Seq<char>,
    result: Result<AccountView, Seq<char>>,
)
    ensures
        change_entry(event, id, result).principal_id == Some(id),
        change_entry(event, id, result).event == match event {
            AccountEvent::Create => "service_account_create"@,
            AccountEvent::Update => "service_account_update"@,
            AccountEvent::Rotate => "service_account_rotate"@,
            AccountEvent::Disable => "service_account_disable"@,
            AccountEvent::Enable => "service_account_enable"@,
        },
        change_entry(event, id, result).outcome == if result is Ok {
            "success"@
        } else {
            "error"@
        },
        result matches Err(message) ==> change_entry(event, id, result).detail == Some(message),
        switch_event(true) == AccountEvent::Disable,
        switch_event(false) == AccountEvent::Enable,
{
}

} // verus!
