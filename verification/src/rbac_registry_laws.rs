//! What holds of every registry of access control, from the moment it is loaded.

use vstd::prelude::*;
use crate::lists::{
    lemma_ranked_insert_in_order, lemma_ranked_sort_elements, lemma_ranked_sort_in_order,
    lemma_ranked_sort_keys, lemma_text_less_total, lemma_text_less_transitive, ranked_in_order,
    ranked_insert, ranks_consistently, texts_ascending, Ranked,
};
use crate::rbac::{
    account_shown, accounts_shown, audit_numbered, audit_shown, audited, authorized, load_step,
    loaded, next_sequence, principals_shown, registry_sound, reloaded, state_shown,
    AccountSnapshotView, AuditView, PrincipalSnapshotView, RbacPrincipalSnapshot,
    RbacServiceAccountSnapshot, RegistryView, SpecView,
};
use crate::rbac_accounts::{
    account_is, accounts_created, change_concluded, change_entry, change_prepared, create_step,
    AccountEvent, Drawn, Written,
};
use crate::rbac_config::{
    config_built, provider_built, provider_named, providers_built, FetchedView,
};
use crate::rbac_laws::law_tokens_and_names_unique;
use crate::rbac_types::{
    AccountView, ConfigView, OidcProviderRuntime, PermissionView, ProviderDefView, ProviderView,
    RolesView, RBAC_AUDIT_CAPACITY,
};
use crate::text::{text_less, trimmed};

verus! {

// ---------------------------------------------------------------------------------------------
// The audit log
// ---------------------------------------------------------------------------------------------

/// One more entry keeps the audit log numbered one by one, until the numbers run out.
pub proof fn law_audit_stays_numbered(v: RegistryView, entry: AuditView, now_ms: u64)
    requires
        audit_numbered(v),
        v.audit_seq < u64::MAX,
    ensures
        audit_numbered(audited(v, entry, now_ms)),
        audited(v, entry, now_ms).audit_seq == v.audit_seq + 1,
{
    let w = audited(v, entry, now_ms);
    assert(next_sequence(v.audit_seq) == v.audit_seq + 1);
    assert forall|i: int| 0 <= i < w.audit.len() implies (#[trigger] w.audit[i]).sequence
        == w.audit_seq - (w.audit.len() - 1 - i) by {
        if i < w.audit.len() - 1 {
            if v.audit.len() == RBAC_AUDIT_CAPACITY {
                assert(w.audit[i] == v.audit[i + 1]);
            } else {
                assert(w.audit[i] == v.audit[i]);
            }
        }
    }
}

/// The audit log is shown with the newest entry first and the numbers going down one by one from
/// that of the last entry made; it holds as many as were made, up to its capacity, so that the oldest
/// are the ones dropped. A limit shows the first of all; none shows all.
pub proof fn law_audit_is_shown_by_number(v: RegistryView, limit: nat)
    requires
        audit_numbered(v),
    ensures
        ({
            let all = audit_shown(v.audit, 0);
            &&& all.len() == if v.audit_seq < RBAC_AUDIT_CAPACITY {
                v.audit_seq as int
            } else {
                RBAC_AUDIT_CAPACITY as int
            }
            &&& forall|i: int|
                0 <= i < all.len() ==> (#[trigger] all[i]).sequence == v.audit_seq - i
            &&& limit > 0 ==> audit_shown(v.audit, limit) == all.take(
                if limit < all.len() {
                    limit as int
                } else {
                    all.len() as int
                },
            )
        }),
{
    let all = audit_shown(v.audit, 0);
    assert forall|i: int| 0 <= i < all.len() implies (#[trigger] all[i]).sequence == v.audit_seq
        - i by {
        assert(all[i] == v.audit[v.audit.len() - 1 - i]);
    }
    if limit > 0 {
        assert(audit_shown(v.audit, limit) =~= all.take(
            if limit < all.len() {
                limit as int
            } else {
                all.len() as int
            },
        ));
    }
}

// ---------------------------------------------------------------------------------------------
// Every registry
// ---------------------------------------------------------------------------------------------

/// A registry that is loaded from a configuration with its roles in order is sound.
pub proof fn law_loaded_registry_is_sound(
    config: ConfigView,
    source_path: Option<Seq<char>>,
    fetched: Seq<FetchedView>,
    now_ms: u64,
)
    requires
        texts_ascending(config.roles.names),
    ensures
        load_step(config, source_path, fetched, now_ms) matches Ok(v) ==> registry_sound(v)
            && v.audit_seq == 1,
{
    if let Ok(providers) = config_built(config, fetched) {
        let empty = RegistryView {
            source_path,
            last_loaded_unix_ms: now_ms,
            config,
            providers,
            audit: Seq::empty(),
            audit_seq: 0,
        };
        law_audit_stays_numbered(
            empty,
            crate::rbac::plain_entry("reload"@, "success"@, "rbac_loaded"@),
            now_ms,
        );
        assert(config_built(loaded(config, providers, source_path, now_ms).config, fetched) == Ok::<
            Seq<ProviderView>,
            Seq<char>,
        >(providers));
    }
}

/// Taking over another configuration with its roles in order, or being refused it, keeps a registry
/// sound.
pub proof fn law_reloaded_registry_is_sound(
    v: RegistryView,
    config: ConfigView,
    fetched: Seq<FetchedView>,
    now_ms: u64,
)
    requires
        registry_sound(v),
        v.audit_seq < u64::MAX,
        texts_ascending(config.roles.names),
    ensures
        registry_sound(reloaded(v, Ok(config), fetched, now_ms).0),
{
    if v.source_path is Some {
        if let Ok(providers) = config_built(config, fetched) {
            law_audit_stays_numbered(
                RegistryView { last_loaded_unix_ms: now_ms, config, providers, ..v },
                AuditView {
                    detail: Some(v.source_path->0),
                    ..crate::rbac::plain_entry("reload"@, "success"@, "rbac_reloaded"@)
                },
                now_ms,
            );
            let w = reloaded(v, Ok(config), fetched, now_ms).0;
            assert(config_built(w.config, fetched) == Ok::<Seq<ProviderView>, Seq<char>>(
                w.providers,
            ));
        }
    }
}

/// Every decision, and every change of the accounts that was prepared for the registry as it is,
/// keeps a registry sound, however the change came out.
pub proof fn law_registry_stays_sound(
    v: RegistryView,
    token: Option<Seq<char>>,
    header_fault: Option<Seq<char>>,
    permission: PermissionView,
    accounts: Result<Seq<AccountView>, Seq<char>>,
    fetched: Seq<FetchedView>,
    written: Written,
    event: AccountEvent,
    id: Seq<char>,
    now_ms: u64,
)
    requires
        registry_sound(v),
        v.audit_seq < u64::MAX,
    ensures
        registry_sound(authorized(v, token, header_fault, permission, now_ms).0),
        registry_sound(
            change_concluded(
                v,
                change_prepared(v.config, accounts, fetched),
                written,
                event,
                id,
                now_ms,
            ).0,
        ),
{
    let before = choose|f: Seq<FetchedView>| #[trigger]
        config_built(v.config, f) == Ok::<Seq<ProviderView>, Seq<char>>(v.providers);
    let decided = authorized(v, token, header_fault, permission, now_ms);
    law_audit_stays_numbered(v, crate::rbac::decision_entry(permission, decided.1), now_ms);
    assert(config_built(decided.0.config, before) == Ok::<Seq<ProviderView>, Seq<char>>(
        decided.0.providers,
    ));
    let change = change_prepared(v.config, accounts, fetched);
    let taken = crate::rbac_accounts::change_taken(v, change, written, id, now_ms);
    law_audit_stays_numbered(taken.0, change_entry(event, id, taken.1), now_ms);
    let w = change_concluded(v, change, written, event, id, now_ms).0;
    if taken.0 == v {
        assert(config_built(w.config, before) == Ok::<Seq<ProviderView>, Seq<char>>(w.providers));
    } else {
        assert(config_built(w.config, fetched) == Ok::<Seq<ProviderView>, Seq<char>>(w.providers));
    }
}

// ---------------------------------------------------------------------------------------------
// What is shown
// ---------------------------------------------------------------------------------------------

proof fn lemma_names_rank()
    ensures
        ranks_consistently::<RbacPrincipalSnapshot>(),
        ranks_consistently::<RbacServiceAccountSnapshot>(),
        ranks_consistently::<OidcProviderRuntime>(),
{
    assert forall|a: Seq<char>, b: Seq<char>| #[trigger] text_less(a, b) implies !text_less(
        b,
        a,
    ) by {
        lemma_text_less_total(a, b);
    }
    assert forall|a: Seq<char>, b: Seq<char>, c: Seq<char>|
        !(#[trigger] text_less(b, a)) && !(#[trigger] text_less(c, b)) implies !text_less(
        c,
        a,
    ) by {
        if text_less(c, a) {
            lemma_text_less_total(a, b);
            lemma_text_less_total(b, c);
            if text_less(a, b) {
                lemma_text_less_transitive(c, a, b);
            }
        }
    }
}

/// The names of some providers.
pub open spec fn provider_names(providers: Seq<ProviderView>) -> Seq<Seq<char>> {
    Seq::new(providers.len(), |i: int| providers[i].name)
}

proof fn lemma_providers_ascend(
    roles: RolesView,
    defs: Seq<ProviderDefView>,
    fetched: Seq<FetchedView>,
    n: nat,
)
    requires
        n <= defs.len(),
        providers_built(roles, defs, fetched, n) is Ok,
    ensures
        ({
            let out = providers_built(roles, defs, fetched, n)->Ok_0;
            &&& texts_ascending(provider_names(out))
            &&& forall|i: int|
                0 <= i < out.len() ==> provider_named(defs, n as int, (#[trigger] out[i]).name)
        }),
    decreases n,
{
    if n > 0 {
        let m = (n - 1) as nat;
        lemma_providers_ascend(roles, defs, fetched, m);
        let before = providers_built(roles, defs, fetched, m)->Ok_0;
        let fresh = provider_built(roles, defs, fetched[n - 1], n - 1)->Ok_0;
        let out = ranked_insert::<OidcProviderRuntime>(before, fresh);
        lemma_names_rank();
        assert forall|i: int, j: int| 0 <= i < j < before.len() implies !OidcProviderRuntime::before(
            #[trigger] before[j],
            #[trigger] before[i],
        ) by {
            assert(text_less(provider_names(before)[i], provider_names(before)[j]));
            lemma_text_less_total(before[i].name, before[j].name);
        }
        lemma_ranked_insert_in_order::<OidcProviderRuntime>(before, fresh);
        lemma_inserted_names_differ(before, fresh);
        assert forall|i: int, j: int| 0 <= i < j < out.len() implies text_less(
            #[trigger] provider_names(out)[i],
            #[trigger] provider_names(out)[j],
        ) by {
            assert(out[i].name != out[j].name);
            assert(!OidcProviderRuntime::before(out[j], out[i]));
            lemma_text_less_total(out[i].name, out[j].name);
        }
        assert forall|i: int| 0 <= i < out.len() implies provider_named(
            defs,
            n as int,
            (#[trigger] out[i]).name,
        ) by {
            if out[i] == fresh {
                assert(defs[n - 1].name == fresh.name);
            } else {
                assert(before.contains(out[i]));
                let k = choose|k: int| 0 <= k < before.len() && before[k] == out[i];
                assert(provider_named(defs, m as int, before[k].name));
                let d = choose|d: int| 0 <= d < m && (#[trigger] defs[d]).name == before[k].name;
                assert(defs[d].name == out[i].name);
            }
        }
    }
}

proof fn lemma_inserted_names_differ(before: Seq<ProviderView>, fresh: ProviderView)
    requires
        texts_ascending(provider_names(before)),
        forall|k: int| 0 <= k < before.len() ==> (#[trigger] before[k]).name != fresh.name,
    ensures
        forall|i: int, j: int|
            0 <= i < j < ranked_insert::<OidcProviderRuntime>(before, fresh).len() ==> (
            #[trigger] ranked_insert::<OidcProviderRuntime>(before, fresh)[i]).name != (
            #[trigger] ranked_insert::<OidcProviderRuntime>(before, fresh)[j]).name,
    decreases before.len(),
{
    let out = ranked_insert::<OidcProviderRuntime>(before, fresh);
    assert forall|i: int, j: int| 0 <= i < j < before.len() implies (#[trigger] before[i]).name != (
    #[trigger] before[j]).name by {
        assert(text_less(provider_names(before)[i], provider_names(before)[j]));
        lemma_text_less_total(before[i].name, before[j].name);
        crate::lists::lemma_text_less_irreflexive(before[i].name);
    }
    if before.len() > 0 && OidcProviderRuntime::before(fresh, before.last()) {
        let head = before.drop_last();
        assert forall|i: int, j: int| 0 <= i < j < head.len() implies text_less(
            #[trigger] provider_names(head)[i],
            #[trigger] provider_names(head)[j],
        ) by {
            assert(text_less(provider_names(before)[i], provider_names(before)[j]));
        }
        lemma_inserted_names_differ(head, fresh);
        lemma_names_rank();
        lemma_head_in_order(head);
        lemma_ranked_insert_in_order::<OidcProviderRuntime>(head, fresh);
        let inner = ranked_insert::<OidcProviderRuntime>(head, fresh);
        assert forall|i: int| 0 <= i < inner.len() implies (#[trigger] inner[i]).name
            != before.last().name by {
            if inner[i] != fresh {
                assert(head.contains(inner[i]));
                let k = choose|k: int| 0 <= k < head.len() && head[k] == inner[i];
                assert(before[k].name != before[before.len() - 1].name);
            } else {
                assert(before[before.len() - 1].name != fresh.name);
            }
        }
    }
}

proof fn lemma_head_in_order(list: Seq<ProviderView>)
    requires
        texts_ascending(provider_names(list)),
    ensures
        ranked_in_order::<OidcProviderRuntime>(list),
{
    assert forall|i: int, j: int| 0 <= i < j < list.len() implies !OidcProviderRuntime::before(
        #[trigger] list[j],
        #[trigger] list[i],
    ) by {
        assert(text_less(provider_names(list)[i], provider_names(list)[j]));
        lemma_text_less_total(list[i].name, list[j].name);
    }
}

/// What a sound registry shows of itself is in strictly ascending order: roles and providers by
/// name, principals and service accounts by id. No principal is a service account too, and the
/// number of audit entries is that of the entries that are shown, at most the capacity of the log.
pub proof fn law_snapshot_is_in_order(v: RegistryView)
    requires
        registry_sound(v),
    ensures
        ({
            let s = state_shown(v);
            &&& s.enabled
            &&& forall|i: int, j: int|
                0 <= i < j < s.roles.len() ==> text_less(
                    (#[trigger] s.roles[i]).name,
                    (#[trigger] s.roles[j]).name,
                )
            &&& forall|i: int, j: int|
                0 <= i < j < s.principals.len() ==> text_less(
                    (#[trigger] s.principals[i]).id,
                    (#[trigger] s.principals[j]).id,
                )
            &&& forall|i: int, j: int|
                0 <= i < j < s.service_accounts.len() ==> text_less(
                    (#[trigger] s.service_accounts[i]).id,
                    (#[trigger] s.service_accounts[j]).id,
                )
            &&& forall|i: int, j: int|
                0 <= i < j < s.oidc_providers.len() ==> text_less(
                    (#[trigger] s.oidc_providers[i]).name,
                    (#[trigger] s.oidc_providers[j]).name,
                )
            &&& forall|i: int, j: int|
                0 <= i < s.principals.len() && 0 <= j < s.service_accounts.len() ==> (
                #[trigger] s.principals[i]).id != (#[trigger] s.service_accounts[j]).id
            &&& s.audit_entries == audit_shown(v.audit, 0).len()
            &&& s.audit_entries <= RBAC_AUDIT_CAPACITY
        }),
{
    let s = state_shown(v);
    let config = v.config;
    let fetched = choose|f: Seq<FetchedView>| #[trigger]
        config_built(config, f) == Ok::<Seq<ProviderView>, Seq<char>>(v.providers);
    law_tokens_and_names_unique(config, fetched);
    lemma_names_rank();
    assert forall|i: int, j: int| 0 <= i < j < s.roles.len() implies text_less(
        (#[trigger] s.roles[i]).name,
        (#[trigger] s.roles[j]).name,
    ) by {
        assert(text_less(config.roles.names[i], config.roles.names[j]));
    }
    let people = principals_shown(config.principals);
    let who = |x: PrincipalSnapshotView| x.id;
    assert forall|i: int, j: int| 0 <= i < j < people.len() implies who(#[trigger] people[i])
        != who(#[trigger] people[j]) by {
        assert(config.principals[i].id != config.principals[j].id);
    }
    lemma_ranked_sort_keys::<RbacPrincipalSnapshot, Seq<char>>(people, who);
    lemma_ranked_sort_in_order::<RbacPrincipalSnapshot>(people);
    assert forall|i: int, j: int| 0 <= i < j < s.principals.len() implies text_less(
        (#[trigger] s.principals[i]).id,
        (#[trigger] s.principals[j]).id,
    ) by {
        assert(who(s.principals[i]) != who(s.principals[j]));
        assert(!RbacPrincipalSnapshot::before(s.principals[j], s.principals[i]));
        lemma_text_less_total(s.principals[i].id, s.principals[j].id);
    }
    let accounts = accounts_shown(config.service_accounts);
    let which = |x: AccountSnapshotView| x.id;
    assert forall|i: int, j: int| 0 <= i < j < accounts.len() implies which(#[trigger] accounts[i])
        != which(#[trigger] accounts[j]) by {
        assert(config.service_accounts[i].id != config.service_accounts[j].id);
    }
    lemma_ranked_sort_keys::<RbacServiceAccountSnapshot, Seq<char>>(accounts, which);
    lemma_ranked_sort_in_order::<RbacServiceAccountSnapshot>(accounts);
    assert forall|i: int, j: int| 0 <= i < j < s.service_accounts.len() implies text_less(
        (#[trigger] s.service_accounts[i]).id,
        (#[trigger] s.service_accounts[j]).id,
    ) by {
        assert(which(s.service_accounts[i]) != which(s.service_accounts[j]));
        assert(!RbacServiceAccountSnapshot::before(s.service_accounts[j], s.service_accounts[i]));
        lemma_text_less_total(s.service_accounts[i].id, s.service_accounts[j].id);
    }
    lemma_providers_ascend(
        config.roles,
        config.oidc_providers,
        fetched,
        config.oidc_providers.len(),
    );
    assert forall|i: int, j: int| 0 <= i < j < s.oidc_providers.len() implies text_less(
        (#[trigger] s.oidc_providers[i]).name,
        (#[trigger] s.oidc_providers[j]).name,
    ) by {
        assert(text_less(provider_names(v.providers)[i], provider_names(v.providers)[j]));
    }
    assert forall|i: int, j: int|
        0 <= i < s.principals.len() && 0 <= j < s.service_accounts.len() implies (
    #[trigger] s.principals[i]).id != (#[trigger] s.service_accounts[j]).id by {
        assert(s.principals.contains(s.principals[i]));
        assert(s.service_accounts.contains(s.service_accounts[j]));
        let a = choose|a: int| 0 <= a < people.len() && people[a] == s.principals[i];
        let b = choose|b: int| 0 <= b < accounts.len() && accounts[b] == s.service_accounts[j];
        assert(config.principals[a].id != config.service_accounts[b].id);
    }
}

/// Making a service account adds it to those that are shown, and keeps the roles, the principals and
/// every other account; the providers are made anew of what was fetched, and are the same where that
/// gives what was there. An account that could not be made changes none of these. Either way the
/// audit log has just one entry more.
pub proof fn law_created_account_is_added(
    v: RegistryView,
    spec: SpecView,
    token: Drawn,
    fetched: Seq<FetchedView>,
    now_ms: u64,
)
    ensures
        ({
            let (w, result) = create_step(v, spec, token, fetched, now_ms);
            let entry = change_entry(AccountEvent::Create, trimmed(spec.id), result);
            &&& state_shown(w).roles == state_shown(v).roles
            &&& state_shown(w).principals == state_shown(v).principals
            &&& w.audit == audited(v, entry, now_ms).audit
            &&& w.audit_seq == next_sequence(v.audit_seq)
            &&& match result {
                Ok(account) => {
                    &&& account.id == trimmed(spec.id)
                    &&& w.config.service_accounts == v.config.service_accounts.push(account)
                    &&& state_shown(w).service_accounts.to_multiset() == state_shown(
                        v,
                    ).service_accounts.to_multiset().insert(account_shown(account))
                    &&& config_built(v.config, fetched) == Ok::<Seq<ProviderView>, Seq<char>>(
                        v.providers,
                    ) ==> w.providers == v.providers
                },
                Err(_) => w.config == v.config && w.providers == v.providers,
            }
        }),
{
    broadcast use vstd::seq_lib::group_to_multiset_ensures;

    let (w, result) = create_step(v, spec, token, fetched, now_ms);
    if let Ok(account) = result {
        let list = accounts_created(v.config, spec, token, now_ms)->Ok_0;
        let last = list.len() - 1;
        let id = trimmed(spec.id);
        assert forall|k: int| 0 <= k < last implies !account_is(id)(#[trigger] list[k]) by {
            assert(list[k] == v.config.service_accounts[k]);
            assert(!crate::rbac_config::account_named(
                v.config.service_accounts,
                v.config.service_accounts.len() as int,
                id,
            ));
        }
        crate::lists::lemma_first_index_is(list, account_is(id), last);
        let before = accounts_shown(v.config.service_accounts);
        assert(accounts_shown(list) =~= before.push(account_shown(account)));
        lemma_ranked_sort_elements::<RbacServiceAccountSnapshot>(before);
        lemma_ranked_sort_elements::<RbacServiceAccountSnapshot>(accounts_shown(list));
        assert(accounts_shown(list).to_multiset() =~= before.to_multiset().insert(
            account_shown(account),
        ));
    }
}

} // verus!
