//! The registry of access control: its configuration, its service accounts and its audit log.

use vstd::prelude::*;
use crate::clock::unix_timestamp_millis;
use crate::lists::{
    copy_list, group_views, ranked_sort, sort_ranked, texts_ascending, views, Copied, Ranked,
};
use crate::rbac_config::{
    build_runtime_state, config_built, normal_text, normalize_optional_text, FetchedKeys,
    FetchedView,
};
use crate::rbac_decision::{
    access_decision, authorize_token, decision_view, key_name, Decision,
};
use crate::rbac_registry_laws::{law_loaded_registry_is_sound, law_reloaded_registry_is_sound};
use crate::rbac_types::{
    roles_view, AccountView, AuthorizationError, AuthorizedPrincipal, BindingView, ConfigView,
    KeyView, MappingView, OidcClaimMappingDefinition, OidcKeyRuntime, OidcProviderRuntime,
    PermissionView, PrincipalDefinition, PrincipalView, ProviderView, RbacAction,
    RbacBindingSnapshot, RbacConfigFile, RbacGrantSnapshot, RbacPermission, RbacResource,
    ResourceView, RoleDefinition, RolesView, ServiceAccountDefinition, RBAC_AUDIT_CAPACITY,
};
use crate::text::{clone_opt, clone_texts, less, opt_str, opt_text, owned, text_less};
use crate::text_map::TextMap;

verus! {

broadcast use group_views;

/// An entry of the audit log.
#[derive(Debug, PartialEq, Eq)]
pub struct RbacAuditEntry {
    pub sequence: u64,
    pub timestamp_unix_ms: u64,
    pub event: String,
    pub outcome: String,
    pub principal_id: Option<String>,
    pub role: Option<String>,
    pub action: Option<RbacAction>,
    pub resource: Option<RbacResource>,
    pub code: String,
    pub auth_method: Option<String>,
    pub provider: Option<String>,
    pub subject: Option<String>,
    pub detail: Option<String>,
}

/// What an [`RbacAuditEntry`] holds.
pub struct AuditView {
    pub sequence: u64,
    pub timestamp_unix_ms: u64,
    pub event: Seq<char>,
    pub outcome: Seq<char>,
    pub principal_id: Option<Seq<char>>,
    pub role: Option<Seq<char>>,
    pub action: Option<RbacAction>,
    pub resource: Option<ResourceView>,
    pub code: Seq<char>,
    pub auth_method: Option<Seq<char>>,
    pub provider: Option<Seq<char>>,
    pub subject: Option<Seq<char>>,
    pub detail: Option<Seq<char>>,
}

/// A resource, if there is one.
pub open spec fn opt_resource(resource: Option<RbacResource>) -> Option<ResourceView> {
    match resource {
        Some(resource) => Some(resource@),
        None => None,
    }
}

impl View for RbacAuditEntry {
    type V = AuditView;

    open spec fn view(&self) -> AuditView {
        AuditView {
            sequence: self.sequence,
            timestamp_unix_ms: self.timestamp_unix_ms,
            event: self.event@,
            outcome: self.outcome@,
            principal_id: opt_text(self.principal_id),
            role: opt_text(self.role),
            action: self.action,
            resource: opt_resource(self.resource),
            code: self.code@,
            auth_method: opt_text(self.auth_method),
            provider: opt_text(self.provider),
            subject: opt_text(self.subject),
            detail: opt_text(self.detail),
        }
    }
}

impl Copied for RbacAuditEntry {
    fn copied(&self) -> (res: Self) {
        RbacAuditEntry {
            sequence: self.sequence,
            timestamp_unix_ms: self.timestamp_unix_ms,
            event: self.event.clone(),
            outcome: self.outcome.clone(),
            principal_id: clone_opt(&self.principal_id),
            role: clone_opt(&self.role),
            action: self.action,
            resource: match &self.resource {
                Some(resource) => Some(resource.copied()),
                None => None,
            },
            code: self.code.clone(),
            auth_method: clone_opt(&self.auth_method),
            provider: clone_opt(&self.provider),
            subject: clone_opt(&self.subject),
            detail: clone_opt(&self.detail),
        }
    }
}

/// What a role allows.
#[derive(Debug, PartialEq, Eq)]
pub struct RbacRoleSnapshot {
    pub name: String,
    pub grants: Vec<RbacGrantSnapshot>,
}

/// What an [`RbacRoleSnapshot`] holds.
pub struct RoleSnapshotView {
    pub name: Seq<char>,
    pub grants: Seq<PermissionView>,
}

impl View for RbacRoleSnapshot {
    type V = RoleSnapshotView;

    open spec fn view(&self) -> RoleSnapshotView {
        RoleSnapshotView { name: self.name@, grants: views(self.grants@) }
    }
}

/// A principal without its token.
#[derive(Debug, PartialEq, Eq)]
pub struct RbacPrincipalSnapshot {
    pub id: String,
    pub disabled: bool,
    pub bindings: Vec<RbacBindingSnapshot>,
}

/// What an [`RbacPrincipalSnapshot`] holds.
pub struct PrincipalSnapshotView {
    pub id: Seq<char>,
    pub disabled: bool,
    pub bindings: Seq<BindingView>,
}

impl View for RbacPrincipalSnapshot {
    type V = PrincipalSnapshotView;

    open spec fn view(&self) -> PrincipalSnapshotView {
        PrincipalSnapshotView {
            id: self.id@,
            disabled: self.disabled,
            bindings: views(self.bindings@),
        }
    }
}

impl Ranked for RbacPrincipalSnapshot {
    open spec fn before(a: PrincipalSnapshotView, b: PrincipalSnapshotView) -> bool {
        text_less(a.id, b.id)
    }

    fn precedes(&self, other: &Self) -> (res: bool) {
        less(&self.id, &other.id)
    }
}

/// A service account without its token.
#[derive(Debug, PartialEq, Eq)]
pub struct RbacServiceAccountSnapshot {
    pub id: String,
    pub description: Option<String>,
    pub disabled: bool,
    pub created_unix_ms: u64,
    pub updated_unix_ms: u64,
    pub last_rotated_unix_ms: u64,
    pub bindings: Vec<RbacBindingSnapshot>,
}

/// What an [`RbacServiceAccountSnapshot`] holds.
pub struct AccountSnapshotView {
    pub id: Seq<char>,
    pub description: Option<Seq<char>>,
    pub disabled: bool,
    pub created_unix_ms: u64,
    pub updated_unix_ms: u64,
    pub last_rotated_unix_ms: u64,
    pub bindings: Seq<BindingView>,
}

impl View for RbacServiceAccountSnapshot {
    type V = AccountSnapshotView;

    open spec fn view(&self) -> AccountSnapshotView {
        AccountSnapshotView {
            id: self.id@,
            description: opt_text(self.description),
            disabled: self.disabled,
            created_unix_ms: self.created_unix_ms,
            updated_unix_ms: self.updated_unix_ms,
            last_rotated_unix_ms: self.last_rotated_unix_ms,
            bindings: views(self.bindings@),
        }
    }
}

impl Ranked for RbacServiceAccountSnapshot {
    open spec fn before(a: AccountSnapshotView, b: AccountSnapshotView) -> bool {
        text_less(a.id, b.id)
    }

    fn precedes(&self, other: &Self) -> (res: bool) {
        less(&self.id, &other.id)
    }
}

/// A claim mapping of a provider.
#[derive(Debug, PartialEq, Eq)]
pub struct RbacOidcClaimMappingSnapshot {
    pub claim: String,
    pub value: String,
    pub bindings: Vec<RbacBindingSnapshot>,
}

impl View for RbacOidcClaimMappingSnapshot {
    type V = MappingView;

    open spec fn view(&self) -> MappingView {
        MappingView { claim: self.claim@, value: self.value@, bindings: views(self.bindings@) }
    }
}

/// A provider, with its keys by name.
#[derive(Debug, PartialEq, Eq)]
pub struct RbacOidcProviderSnapshot {
    pub name: String,
    pub issuer: String,
    pub audiences: Vec<String>,
    pub username_claim: Option<String>,
    pub jwks_url: Option<String>,
    pub key_ids: Vec<String>,
    pub claim_mappings: Vec<RbacOidcClaimMappingSnapshot>,
}

/// What an [`RbacOidcProviderSnapshot`] holds.
pub struct ProviderSnapshotView {
    pub name: Seq<char>,
    pub issuer: Seq<char>,
    pub audiences: Seq<Seq<char>>,
    pub username_claim: Option<Seq<char>>,
    pub jwks_url: Option<Seq<char>>,
    pub key_ids: Seq<Seq<char>>,
    pub claim_mappings: Seq<MappingView>,
}

impl View for RbacOidcProviderSnapshot {
    type V = ProviderSnapshotView;

    open spec fn view(&self) -> ProviderSnapshotView {
        ProviderSnapshotView {
            name: self.name@,
            issuer: self.issuer@,
            audiences: views(self.audiences@),
            username_claim: opt_text(self.username_claim),
            jwks_url: opt_text(self.jwks_url),
            key_ids: views(self.key_ids@),
            claim_mappings: views(self.claim_mappings@),
        }
    }
}

/// The whole configuration as it is in force, without secrets.
#[derive(Debug, PartialEq, Eq)]
pub struct RbacStateSnapshot {
    pub enabled: bool,
    pub source_path: Option<String>,
    pub last_loaded_unix_ms: u64,
    pub roles: Vec<RbacRoleSnapshot>,
    pub principals: Vec<RbacPrincipalSnapshot>,
    pub service_accounts: Vec<RbacServiceAccountSnapshot>,
    pub oidc_providers: Vec<RbacOidcProviderSnapshot>,
    pub audit_entries: usize,
}

/// What an [`RbacStateSnapshot`] holds.
pub struct StateSnapshotView {
    pub enabled: bool,
    pub source_path: Option<Seq<char>>,
    pub last_loaded_unix_ms: u64,
    pub roles: Seq<RoleSnapshotView>,
    pub principals: Seq<PrincipalSnapshotView>,
    pub service_accounts: Seq<AccountSnapshotView>,
    pub oidc_providers: Seq<ProviderSnapshotView>,
    pub audit_entries: nat,
}

impl View for RbacStateSnapshot {
    type V = StateSnapshotView;

    open spec fn view(&self) -> StateSnapshotView {
        StateSnapshotView {
            enabled: self.enabled,
            source_path: opt_text(self.source_path),
            last_loaded_unix_ms: self.last_loaded_unix_ms,
            roles: views(self.roles@),
            principals: views(self.principals@),
            service_accounts: views(self.service_accounts@),
            oidc_providers: views(self.oidc_providers@),
            audit_entries: self.audit_entries as nat,
        }
    }
}

/// What a service account is to be.
#[derive(Debug, PartialEq, Eq)]
pub struct ServiceAccountSpec {
    pub id: String,
    pub description: Option<String>,
    pub disabled: bool,
    pub bindings: Vec<RbacBindingSnapshot>,
}

/// What a [`ServiceAccountSpec`] holds.
pub struct SpecView {
    pub id: Seq<char>,
    pub description: Option<Seq<char>>,
    pub disabled: bool,
    pub bindings: Seq<BindingView>,
}

impl View for ServiceAccountSpec {
    type V = SpecView;

    open spec fn view(&self) -> SpecView {
        SpecView {
            id: self.id@,
            description: opt_text(self.description),
            disabled: self.disabled,
            bindings: views(self.bindings@),
        }
    }
}

/// A service account and its token.
#[derive(Debug, PartialEq, Eq)]
pub struct ServiceAccountCredential {
    pub service_account: RbacServiceAccountSnapshot,
    pub token: String,
}

/// The registry of access control.
#[derive(Debug)]
pub struct RbacRegistry {
    pub(crate) source_path: Option<String>,
    pub(crate) last_loaded_unix_ms: u64,
    pub(crate) config: RbacConfigFile,
    pub(crate) providers: Vec<OidcProviderRuntime>,
    pub(crate) audit: Vec<RbacAuditEntry>,
    pub(crate) audit_seq: u64,
}

/// What an [`RbacRegistry`] holds.
pub struct RegistryView {
    pub source_path: Option<Seq<char>>,
    pub last_loaded_unix_ms: u64,
    pub config: ConfigView,
    pub providers: Seq<ProviderView>,
    pub audit: Seq<AuditView>,
    pub audit_seq: u64,
}

impl View for RbacRegistry {
    type V = RegistryView;

    open(crate) spec fn view(&self) -> RegistryView {
        RegistryView {
            source_path: opt_text(self.source_path),
            last_loaded_unix_ms: self.last_loaded_unix_ms,
            config: self.config@,
            providers: views(self.providers@),
            audit: views(self.audit@),
            audit_seq: self.audit_seq,
        }
    }
}

/// The number of the entry after one.
pub open spec fn next_sequence(n: u64) -> u64 {
    vstd::wrapping::u64_specs::wrapping_add(n, 1)
}

/// Whether the entries of the audit log are numbered one by one up to the last, of which none but the
/// oldest were dropped.
pub open spec fn audit_numbered(v: RegistryView) -> bool {
    &&& v.audit.len() == if v.audit_seq < RBAC_AUDIT_CAPACITY {
        v.audit_seq as int
    } else {
        RBAC_AUDIT_CAPACITY as int
    }
    &&& forall|i: int|
        0 <= i < v.audit.len() ==> (#[trigger] v.audit[i]).sequence == v.audit_seq - (v.audit.len()
            - 1 - i)
}

/// What holds of every registry: its configuration is accepted, its providers are those that the
/// configuration makes, its roles are in the order of their names, and its audit log is numbered one
/// by one.
pub open spec fn registry_sound(v: RegistryView) -> bool {
    &&& exists|fetched: Seq<FetchedView>| #[trigger]
        config_built(v.config, fetched) == Ok::<Seq<ProviderView>, Seq<char>>(v.providers)
    &&& texts_ascending(v.config.roles.names)
    &&& audit_numbered(v)
}

/// An entry without any details, before it has a number and a time.
pub open spec fn plain_entry(event: Seq<char>, outcome: Seq<char>, code: Seq<char>) -> AuditView {
    AuditView {
        sequence: 0,
        timestamp_unix_ms: 0,
        event,
        outcome,
        principal_id: None,
        role: None,
        action: None,
        resource: None,
        code,
        auth_method: None,
        provider: None,
        subject: None,
        detail: None,
    }
}

/// The registry with one more entry in its audit log, of which the oldest is dropped when it is full.
pub open spec fn audited(v: RegistryView, entry: AuditView, now_ms: u64) -> RegistryView {
    let sequence = next_sequence(v.audit_seq);
    let kept = if v.audit.len() == RBAC_AUDIT_CAPACITY {
        v.audit.skip(1)
    } else {
        v.audit
    };
    RegistryView {
        audit: kept.push(AuditView { sequence, timestamp_unix_ms: now_ms, ..entry }),
        audit_seq: sequence,
        ..v
    }
}

/// The entry on a decision.
pub open spec fn decision_entry(permission: PermissionView, decision: Decision) -> AuditView {
    match decision {
        Ok(principal) => AuditView {
            principal_id: Some(principal.principal_id),
            role: Some(principal.role),
            action: Some(permission.action),
            resource: Some(permission.resource),
            auth_method: Some(principal.auth_method),
            provider: principal.provider,
            subject: principal.subject,
            ..plain_entry("decision"@, "allow"@, "authorized"@)
        },
        Err(denial) => AuditView {
            principal_id: denial.identity.principal_id,
            action: Some(permission.action),
            resource: Some(permission.resource),
            auth_method: denial.identity.auth_method,
            provider: denial.identity.provider,
            subject: denial.identity.subject,
            detail: denial.detail,
            ..plain_entry("decision"@, "deny"@, denial.code)
        },
    }
}

/// What a decision makes of the registry.
pub open spec fn authorized(
    v: RegistryView,
    token: Option<Seq<char>>,
    header_fault: Option<Seq<char>>,
    permission: PermissionView,
    now_ms: u64,
) -> (RegistryView, Decision) {
    let decision = access_decision(
        v.config,
        v.providers,
        token,
        header_fault,
        permission,
        (now_ms / 1000) as u64,
    );
    (audited(v, decision_entry(permission, decision), now_ms), decision)
}

/// The registry that a configuration makes.
pub open spec fn loaded(
    config: ConfigView,
    providers: Seq<ProviderView>,
    source_path: Option<Seq<char>>,
    now_ms: u64,
) -> RegistryView {
    audited(
        RegistryView {
            source_path,
            last_loaded_unix_ms: now_ms,
            config,
            providers,
            audit: Seq::empty(),
            audit_seq: 0,
        },
        plain_entry("reload"@, "success"@, "rbac_loaded"@),
        now_ms,
    )
}

/// The registry after it took over another configuration from its file.
pub open spec fn reloaded(
    v: RegistryView,
    read: Result<ConfigView, Seq<char>>,
    fetched: Seq<FetchedView>,
    now_ms: u64,
) -> (RegistryView, Result<StateSnapshotView, Seq<char>>) {
    match v.source_path {
        None => (v, Err("RBAC registry does not have a backing config path"@)),
        Some(path) => match read {
            Err(message) => (v, Err(message)),
            Ok(config) => match config_built(config, fetched) {
                Err(message) => (v, Err(message)),
                Ok(providers) => {
                    let w = audited(
                        RegistryView { last_loaded_unix_ms: now_ms, config, providers, ..v },
                        AuditView {
                            detail: Some(path),
                            ..plain_entry("reload"@, "success"@, "rbac_reloaded"@)
                        },
                        now_ms,
                    );
                    (w, Ok(state_shown(w)))
                },
            },
        },
    }
}

/// The roles as they are shown.
pub open spec fn roles_shown(roles: RolesView) -> Seq<RoleSnapshotView> {
    Seq::new(
        roles.names.len(),
        |i: int| RoleSnapshotView { name: roles.names[i], grants: roles.grants[roles.names[i]] },
    )
}

/// The principals as they are shown, before they are put in order.
pub open spec fn principals_shown(principals: Seq<PrincipalView>) -> Seq<PrincipalSnapshotView> {
    Seq::new(
        principals.len(),
        |i: int|
            PrincipalSnapshotView {
                id: principals[i].id,
                disabled: principals[i].disabled,
                bindings: principals[i].bindings,
            },
    )
}

/// A service account as it is shown.
pub open spec fn account_shown(account: AccountView) -> AccountSnapshotView {
    AccountSnapshotView {
        id: account.id,
        description: normal_text(account.description),
        disabled: account.disabled,
        created_unix_ms: account.created_unix_ms,
        updated_unix_ms: account.updated_unix_ms,
        last_rotated_unix_ms: account.last_rotated_unix_ms,
        bindings: account.bindings,
    }
}

/// The service accounts as they are shown, before they are put in order.
pub open spec fn accounts_shown(accounts: Seq<AccountView>) -> Seq<AccountSnapshotView> {
    Seq::new(accounts.len(), |i: int| account_shown(accounts[i]))
}

/// The names of some keys as they are shown.
pub open spec fn key_ids(keys: Seq<KeyView>) -> Seq<Seq<char>> {
    Seq::new(
        keys.len(),
        |i: int|
            match key_name(keys[i]) {
                Some(name) => name,
                None => "<unnamed>"@,
            },
    )
}

/// The providers as they are shown.
pub open spec fn providers_shown(providers: Seq<ProviderView>) -> Seq<ProviderSnapshotView> {
    Seq::new(
        providers.len(),
        |i: int|
            ProviderSnapshotView {
                name: providers[i].name,
                issuer: providers[i].issuer,
                audiences: providers[i].audiences,
                username_claim: providers[i].username_claim,
                jwks_url: providers[i].jwks_url,
                key_ids: key_ids(providers[i].keys),
                claim_mappings: providers[i].claim_mappings,
            },
    )
}

/// The registry as it is shown: everything in the order of the names.
pub open spec fn state_shown(v: RegistryView) -> StateSnapshotView {
    StateSnapshotView {
        enabled: true,
        source_path: v.source_path,
        last_loaded_unix_ms: v.last_loaded_unix_ms,
        roles: roles_shown(v.config.roles),
        principals: ranked_sort::<RbacPrincipalSnapshot>(principals_shown(v.config.principals)),
        service_accounts: ranked_sort::<RbacServiceAccountSnapshot>(
            accounts_shown(v.config.service_accounts),
        ),
        oidc_providers: providers_shown(v.providers),
        audit_entries: v.audit.len(),
    }
}

/// The newest entries of the audit log, the newest first; all of them where the limit is zero.
pub open spec fn audit_shown(audit: Seq<AuditView>, limit: nat) -> Seq<AuditView> {
    let count = if limit == 0 || limit > audit.len() {
        audit.len()
    } else {
        limit
    };
    Seq::new(count, |i: int| audit[audit.len() - 1 - i])
}

/// What loading a registry came to.
pub open spec fn registry_result(result: Result<RbacRegistry, String>) -> Result<
    RegistryView,
    Seq<char>,
> {
    match result {
        Ok(registry) => Ok(registry@),
        Err(message) => Err(message@),
    }
}

/// What reloading a registry came to.
pub open spec fn snapshot_result(result: Result<RbacStateSnapshot, String>) -> Result<
    StateSnapshotView,
    Seq<char>,
> {
    match result {
        Ok(snapshot) => Ok(snapshot@),
        Err(message) => Err(message@),
    }
}

/// What reading a configuration came to.
pub open spec fn config_result(result: Result<RbacConfigFile, String>) -> Result<
    ConfigView,
    Seq<char>,
> {
    match result {
        Ok(config) => Ok(config@),
        Err(message) => Err(message@),
    }
}

/// The registry that a configuration makes, or what is wrong with the configuration.
pub open spec fn load_step(
    config: ConfigView,
    source_path: Option<Seq<char>>,
    fetched: Seq<FetchedView>,
    now_ms: u64,
) -> Result<RegistryView, Seq<char>> {
    match config_built(config, fetched) {
        Err(message) => Err(message),
        Ok(providers) => Ok(loaded(config, providers, source_path, now_ms)),
    }
}

/// An audit entry without any details.
pub(crate) fn audit_entry(event: &str, outcome: &str, code: &str) -> (res: RbacAuditEntry)
    ensures
        res@ == plain_entry(event@, outcome@, code@),
{
    RbacAuditEntry {
        sequence: 0,
        timestamp_unix_ms: 0,
        event: owned(event),
        outcome: owned(outcome),
        principal_id: None,
        role: None,
        action: None,
        resource: None,
        code: owned(code),
        auth_method: None,
        provider: None,
        subject: None,
        detail: None,
    }
}

/// A service account as it is shown.
pub(crate) fn show_account(account: &ServiceAccountDefinition) -> (res: RbacServiceAccountSnapshot)
    ensures
        res@ == account_shown(account@),
{
    RbacServiceAccountSnapshot {
        id: account.id.clone(),
        description: normalize_optional_text(&account.description),
        disabled: account.disabled,
        created_unix_ms: account.created_unix_ms,
        updated_unix_ms: account.updated_unix_ms,
        last_rotated_unix_ms: account.last_rotated_unix_ms,
        bindings: copy_list(&account.bindings),
    }
}

fn show_roles(roles: &TextMap<RoleDefinition>) -> (res: Vec<RbacRoleSnapshot>)
    ensures
        views(res@) == roles_shown(roles_view(*roles)),
{
    let ghost all = roles_shown(roles_view(*roles));
    let mut out: Vec<RbacRoleSnapshot> = Vec::new();
    let count: usize = roles.len();
    let mut i: usize = 0;
    while i < count
        invariant
            i <= count,
            count == roles.keys().len(),
            all == roles_shown(roles_view(*roles)),
            views(out@) =~= all.take(i as int),
        decreases count - i,
    {
        let role = RbacRoleSnapshot {
            name: owned(roles.key_at(i)),
            grants: copy_list(&roles.value_at(i).grants),
        };
        assert(role@ == all[i as int]);
        out.push(role);
        assert(views(out@) =~= all.take(i + 1));
        i += 1;
    }
    assert(all.take(i as int) =~= all);
    out
}

fn show_principals(principals: &Vec<PrincipalDefinition>) -> (res: Vec<RbacPrincipalSnapshot>)
    ensures
        views(res@) == principals_shown(views(principals@)),
{
    let ghost all = principals_shown(views(principals@));
    let mut out: Vec<RbacPrincipalSnapshot> = Vec::new();
    let mut i: usize = 0;
    while i < principals.len()
        invariant
            i <= principals.len(),
            all == principals_shown(views(principals@)),
            views(out@) =~= all.take(i as int),
        decreases principals.len() - i,
    {
        let principal = RbacPrincipalSnapshot {
            id: principals[i].id.clone(),
            disabled: principals[i].disabled,
            bindings: copy_list(&principals[i].bindings),
        };
        assert(principal@ == all[i as int]);
        out.push(principal);
        assert(views(out@) =~= all.take(i + 1));
        i += 1;
    }
    assert(all.take(i as int) =~= all);
    out
}

fn show_accounts(accounts: &Vec<ServiceAccountDefinition>) -> (res: Vec<RbacServiceAccountSnapshot>)
    ensures
        views(res@) == accounts_shown(views(accounts@)),
{
    let ghost all = accounts_shown(views(accounts@));
    let mut out: Vec<RbacServiceAccountSnapshot> = Vec::new();
    let mut i: usize = 0;
    while i < accounts.len()
        invariant
            i <= accounts.len(),
            all == accounts_shown(views(accounts@)),
            views(out@) =~= all.take(i as int),
        decreases accounts.len() - i,
    {
        let account = show_account(&accounts[i]);
        assert(account@ == all[i as int]);
        out.push(account);
        assert(views(out@) =~= all.take(i + 1));
        i += 1;
    }
    assert(all.take(i as int) =~= all);
    out
}

fn show_mappings(mappings: &Vec<OidcClaimMappingDefinition>) -> (res: Vec<
    RbacOidcClaimMappingSnapshot,
>)
    ensures
        views(res@) == views(mappings@),
{
    let ghost all = views(mappings@);
    let mut out: Vec<RbacOidcClaimMappingSnapshot> = Vec::new();
    let mut i: usize = 0;
    while i < mappings.len()
        invariant
            i <= mappings.len(),
            all == views(mappings@),
            views(out@) =~= all.take(i as int),
        decreases mappings.len() - i,
    {
        let mapping = RbacOidcClaimMappingSnapshot {
            claim: mappings[i].claim.clone(),
            value: mappings[i].value.clone(),
            bindings: copy_list(&mappings[i].bindings),
        };
        assert(mapping@ == all[i as int]);
        out.push(mapping);
        assert(views(out@) =~= all.take(i + 1));
        i += 1;
    }
    assert(all.take(i as int) =~= all);
    out
}

fn show_keys(keys: &Vec<OidcKeyRuntime>) -> (res: Vec<String>)
    ensures
        views(res@) == key_ids(views(keys@)),
{
    let ghost all = key_ids(views(keys@));
    let mut out: Vec<String> = Vec::new();
    let mut i: usize = 0;
    while i < keys.len()
        invariant
            i <= keys.len(),
            all == key_ids(views(keys@)),
            views(out@) =~= all.take(i as int),
        decreases keys.len() - i,
    {
        let name = keys[i].descriptor();
        assert(name@ == all[i as int]);
        out.push(name);
        assert(views(out@) =~= all.take(i + 1));
        i += 1;
    }
    assert(all.take(i as int) =~= all);
    out
}

fn show_providers(providers: &Vec<OidcProviderRuntime>) -> (res: Vec<RbacOidcProviderSnapshot>)
    ensures
        views(res@) == providers_shown(views(providers@)),
{
    let ghost all = providers_shown(views(providers@));
    let mut out: Vec<RbacOidcProviderSnapshot> = Vec::new();
    let mut i: usize = 0;
    while i < providers.len()
        invariant
            i <= providers.len(),
            all == providers_shown(views(providers@)),
            views(out@) =~= all.take(i as int),
        decreases providers.len() - i,
    {
        let provider = RbacOidcProviderSnapshot {
            name: providers[i].name.clone(),
            issuer: providers[i].issuer.clone(),
            audiences: clone_texts(&providers[i].audiences),
            username_claim: clone_opt(&providers[i].username_claim),
            jwks_url: clone_opt(&providers[i].jwks_url),
            key_ids: show_keys(&providers[i].keys),
            claim_mappings: show_mappings(&providers[i].claim_mappings),
        };
        assert(provider@ == all[i as int]);
        out.push(provider);
        assert(views(out@) =~= all.take(i + 1));
        i += 1;
    }
    assert(all.take(i as int) =~= all);
    out
}

impl RbacRegistry {
    /// Makes a registry of a configuration at `now_ms`, with the keys that were fetched for each
    /// provider.
    pub fn from_config_at(
        config: RbacConfigFile,
        source_path: Option<String>,
        fetched: &Vec<FetchedKeys>,
        now_ms: u64,
    ) -> (res: Result<Self, String>)
        requires
            fetched.len() == config.oidc_providers.len(),
        ensures
            registry_result(res) == load_step(
                config@,
                opt_text(source_path),
                views(fetched@),
                now_ms,
            ),
            match res {
                Ok(registry) => registry_sound(registry@),
                Err(_) => true,
            },
    {
        let _ = config.roles.len();
        proof {
            law_loaded_registry_is_sound(
                config@,
                opt_text(source_path),
                views(fetched@),
                now_ms,
            );
        }
        let providers = match build_runtime_state(
            &config.roles,
            &config.principals,
            &config.service_accounts,
            &config.oidc_providers,
            fetched,
        ) {
            Ok(providers) => providers,
            Err(message) => {
                return Err(message);
            },
        };
        let mut registry = RbacRegistry {
            source_path,
            last_loaded_unix_ms: now_ms,
            config,
            providers,
            audit: Vec::new(),
            audit_seq: 0,
        };
        assert(registry@.audit =~= Seq::<AuditView>::empty());
        registry.push_audit_entry(audit_entry("reload", "success", "rbac_loaded"), now_ms);
        Ok(registry)
    }

    /// Makes a registry of a configuration now.
    pub fn from_config(
        config: RbacConfigFile,
        source_path: Option<String>,
        fetched: &Vec<FetchedKeys>,
    ) -> (res: Result<Self, String>)
        requires
            fetched.len() == config.oidc_providers.len(),
        ensures
            exists|now_ms: u64|
                registry_result(res) == #[trigger] load_step(
                    config@,
                    opt_text(source_path),
                    views(fetched@),
                    now_ms,
                ),
            match res {
                Ok(registry) => registry_sound(registry@),
                Err(_) => true,
            },
    {
        RbacRegistry::from_config_at(config, source_path, fetched, unix_timestamp_millis())
    }

    /// The file that the configuration comes from.
    pub fn source_path(&self) -> (res: &Option<String>)
        ensures
            opt_text(*res) == self@.source_path,
    {
        &self.source_path
    }

    /// The configuration in force.
    pub fn config(&self) -> (res: &RbacConfigFile)
        ensures
            res@ == self@.config,
    {
        &self.config
    }

    pub(crate) fn push_audit_entry(&mut self, entry: RbacAuditEntry, now_ms: u64)
        ensures
            final(self)@ == audited(old(self)@, entry@, now_ms),
    {
        let sequence: u64 = self.audit_seq.wrapping_add(1);
        self.audit_seq = sequence;
        assert(views(self.audit@).len() == self.audit.len());
        if self.audit.len() == RBAC_AUDIT_CAPACITY {
            let ghost before = views(self.audit@);
            self.audit.remove(0);
            assert(views(self.audit@) =~= before.skip(1));
        }
        self.audit.push(
            RbacAuditEntry { sequence, timestamp_unix_ms: now_ms, ..entry },
        );
    }

    /// Takes over another configuration, as it was read from the file, at `now_ms`.
    pub fn reload_at(
        &mut self,
        read: Result<RbacConfigFile, String>,
        fetched: &Vec<FetchedKeys>,
        now_ms: u64,
    ) -> (res: Result<RbacStateSnapshot, String>)
        requires
            match read {
                Ok(config) => fetched.len() == config.oidc_providers.len(),
                Err(_) => true,
            },
        ensures
            (final(self)@, snapshot_result(res)) == reloaded(
                old(self)@,
                config_result(read),
                views(fetched@),
                now_ms,
            ),
            registry_sound(old(self)@) && old(self)@.audit_seq < u64::MAX ==> registry_sound(
                final(self)@,
            ),
    {
        let path = match &self.source_path {
            Some(path) => path.clone(),
            None => {
                return Err(owned("RBAC registry does not have a backing config path"));
            },
        };
        let config = match read {
            Ok(config) => config,
            Err(message) => {
                return Err(message);
            },
        };
        let providers = match build_runtime_state(
            &config.roles,
            &config.principals,
            &config.service_accounts,
            &config.oidc_providers,
            fetched,
        ) {
            Ok(providers) => providers,
            Err(message) => {
                return Err(message);
            },
        };
        let _ = config.roles.len();
        proof {
            if registry_sound(self@) && self@.audit_seq < u64::MAX {
                law_reloaded_registry_is_sound(self@, config@, views(fetched@), now_ms);
            }
        }
        self.last_loaded_unix_ms = now_ms;
        self.config = config;
        self.providers = providers;
        let mut entry = audit_entry("reload", "success", "rbac_reloaded");
        entry.detail = Some(path);
        self.push_audit_entry(entry, now_ms);
        Ok(self.state_snapshot())
    }

    /// Takes over another configuration, as it was read from the file, now.
    pub fn reload(&mut self, read: Result<RbacConfigFile, String>, fetched: &Vec<FetchedKeys>) -> (res:
        Result<RbacStateSnapshot, String>)
        requires
            match read {
                Ok(config) => fetched.len() == config.oidc_providers.len(),
                Err(_) => true,
            },
        ensures
            exists|now_ms: u64|
                (final(self)@, snapshot_result(res)) == #[trigger] reloaded(
                    old(self)@,
                    config_result(read),
                    views(fetched@),
                    now_ms,
                ),
            registry_sound(old(self)@) && old(self)@.audit_seq < u64::MAX ==> registry_sound(
                final(self)@,
            ),
    {
        self.reload_at(read, fetched, unix_timestamp_millis())
    }

    /// Decides at `now_ms` whether a request is let in. `header_fault` is what the reader of token
    /// headers said against the header of the token, whose bytes `signed_header` gives; it words the
    /// denial of a header that is refused, and changes nothing else.
    pub fn authorize_at(
        &mut self,
        token: Option<&str>,
        header_fault: Option<&str>,
        permission: &RbacPermission,
        now_ms: u64,
    ) -> (res: Result<AuthorizedPrincipal, AuthorizationError>)
        ensures
            (final(self)@, decision_view(res)) == authorized(
                old(self)@,
                opt_str(token),
                opt_str(header_fault),
                permission@,
                now_ms,
            ),
    {
        let decision = authorize_token(
            &self.config,
            &self.providers,
            token,
            header_fault,
            permission,
            now_ms / 1000,
        );
        let mut entry = match &decision {
            Ok(principal) => {
                let mut entry = audit_entry("decision", "allow", "authorized");
                entry.principal_id = Some(principal.principal_id.clone());
                entry.role = Some(principal.role.clone());
                entry.auth_method = Some(principal.auth_method.clone());
                entry.provider = clone_opt(&principal.provider);
                entry.subject = clone_opt(&principal.subject);
                entry
            },
            Err(error) => {
                let mut entry = audit_entry("decision", "deny", error.code);
                entry.principal_id = clone_opt(&error.identity.principal_id);
                entry.auth_method = clone_opt(&error.identity.auth_method);
                entry.provider = clone_opt(&error.identity.provider);
                entry.subject = clone_opt(&error.identity.subject);
                entry.detail = clone_opt(&error.detail);
                entry
            },
        };
        entry.action = Some(permission.action);
        entry.resource = Some(permission.resource.copied());
        self.push_audit_entry(entry, now_ms);
        decision
    }

    /// Decides now whether a request is let in.
    pub fn authorize(
        &mut self,
        token: Option<&str>,
        header_fault: Option<&str>,
        permission: &RbacPermission,
    ) -> (res: Result<AuthorizedPrincipal, AuthorizationError>)
        ensures
            exists|now_ms: u64|
                (final(self)@, decision_view(res)) == #[trigger] authorized(
                    old(self)@,
                    opt_str(token),
                    opt_str(header_fault),
                    permission@,
                    now_ms,
                ),
    {
        self.authorize_at(token, header_fault, permission, unix_timestamp_millis())
    }

    /// The registry as it is shown.
    pub fn state_snapshot(&self) -> (res: RbacStateSnapshot)
        ensures
            res@ == state_shown(self@),
    {
        assert(views(self.audit@).len() == self.audit.len());
        RbacStateSnapshot {
            enabled: true,
            source_path: clone_opt(&self.source_path),
            last_loaded_unix_ms: self.last_loaded_unix_ms,
            roles: show_roles(&self.config.roles),
            principals: sort_ranked(show_principals(&self.config.principals)),
            service_accounts: sort_ranked(show_accounts(&self.config.service_accounts)),
            oidc_providers: show_providers(&self.providers),
            audit_entries: self.audit.len(),
        }
    }

    /// The newest entries of the audit log, the newest first; all of them where the limit is zero.
    pub fn audit_snapshot(&self, limit: usize) -> (res: Vec<RbacAuditEntry>)
        ensures
            views(res@) == audit_shown(self@.audit, limit as nat),
    {
        let total: usize = self.audit.len();
        assert(views(self.audit@).len() == total);
        let count: usize = if limit == 0 || limit > total {
            total
        } else {
            limit
        };
        let ghost all = audit_shown(self@.audit, limit as nat);
        let mut out: Vec<RbacAuditEntry> = Vec::new();
        let mut i: usize = 0;
        while i < count
            invariant
                i <= count <= total,
                total == self.audit.len(),
                count == all.len(),
                all == audit_shown(self@.audit, limit as nat),
                views(out@) =~= all.take(i as int),
            decreases count - i,
        {
            let entry = self.audit[total - 1 - i].copied();
            assert(entry@ == all[i as int]);
            out.push(entry);
            assert(views(out@) =~= all.take(i + 1));
            i += 1;
        }
        assert(all.take(i as int) =~= all);
        out
    }
}

} // verus!
