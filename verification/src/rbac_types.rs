//! The terms of access control: who may do what on which resource, and how that is written down.

use vstd::prelude::*;
use crate::lists::{copy_list, group_views, views, Copied, Ranked};
use crate::text::{clone_opt, less, opt_text, text_less};
use crate::text_map::TextMap;

verus! {

broadcast use group_views;

pub const RBAC_AUTH_VERIFIED_HEADER: &'static str = "x-tsink-rbac-verified";

pub const RBAC_AUTH_PRINCIPAL_ID_HEADER: &'static str = "x-tsink-auth-principal-id";

pub const RBAC_AUTH_ROLE_HEADER: &'static str = "x-tsink-auth-role";

pub const RBAC_AUTH_METHOD_HEADER: &'static str = "x-tsink-auth-method";

pub const RBAC_AUTH_PROVIDER_HEADER: &'static str = "x-tsink-auth-provider";

pub const RBAC_AUTH_SUBJECT_HEADER: &'static str = "x-tsink-auth-subject";

/// How many audit entries are kept.
pub const RBAC_AUDIT_CAPACITY: usize = 256;

/// By how many seconds clocks may differ.
pub const OIDC_CLOCK_SKEW_SECONDS: u64 = 60;

/// What may be done to a resource.
#[derive(Debug, Clone, Copy, PartialEq, Eq, Structural)]
pub enum RbacAction {
    Read,
    Write,
}

/// What a resource is.
#[derive(Debug, Clone, Copy, PartialEq, Eq, Structural)]
pub enum RbacResourceKind {
    Tenant,
    Admin,
    System,
}

/// A resource, or in a grant or a scope a pattern of resources.
#[derive(Debug, PartialEq, Eq)]
pub struct RbacResource {
    pub kind: RbacResourceKind,
    pub name: String,
}

/// What an [`RbacResource`] holds.
pub struct ResourceView {
    pub kind: RbacResourceKind,
    pub name: Seq<char>,
}

impl View for RbacResource {
    type V = ResourceView;

    open spec fn view(&self) -> ResourceView {
        ResourceView { kind: self.kind, name: self.name@ }
    }
}

impl Copied for RbacResource {
    fn copied(&self) -> (res: Self) {
        RbacResource { kind: self.kind, name: self.name.clone() }
    }
}

impl Clone for RbacResource {
    fn clone(&self) -> (res: Self)
        ensures
            res@ == self@,
    {
        self.copied()
    }
}

impl RbacResource {
    pub fn tenant(name: String) -> (res: Self)
        ensures
            res == (RbacResource { kind: RbacResourceKind::Tenant, name }),
    {
        RbacResource { kind: RbacResourceKind::Tenant, name }
    }

    pub fn admin(name: String) -> (res: Self)
        ensures
            res == (RbacResource { kind: RbacResourceKind::Admin, name }),
    {
        RbacResource { kind: RbacResourceKind::Admin, name }
    }

    pub fn system(name: String) -> (res: Self)
        ensures
            res == (RbacResource { kind: RbacResourceKind::System, name }),
    {
        RbacResource { kind: RbacResourceKind::System, name }
    }
}

/// An action on a resource, to be allowed or denied.
#[derive(Debug, PartialEq, Eq)]
pub struct RbacPermission {
    pub action: RbacAction,
    pub resource: RbacResource,
}

/// What an [`RbacPermission`] holds.
pub struct PermissionView {
    pub action: RbacAction,
    pub resource: ResourceView,
}

impl View for RbacPermission {
    type V = PermissionView;

    open spec fn view(&self) -> PermissionView {
        PermissionView { action: self.action, resource: self.resource@ }
    }
}

impl RbacPermission {
    pub fn new(action: RbacAction, resource: RbacResource) -> (res: Self)
        ensures
            res == (RbacPermission { action, resource }),
    {
        RbacPermission { action, resource }
    }
}

/// Who was let in, and in which role.
#[derive(Debug, PartialEq, Eq)]
pub struct AuthorizedPrincipal {
    pub principal_id: String,
    pub role: String,
    pub auth_method: String,
    pub provider: Option<String>,
    pub subject: Option<String>,
    pub display_name: Option<String>,
}

/// What an [`AuthorizedPrincipal`] holds.
pub struct PrincipalGrantView {
    pub principal_id: Seq<char>,
    pub role: Seq<char>,
    pub auth_method: Seq<char>,
    pub provider: Option<Seq<char>>,
    pub subject: Option<Seq<char>>,
    pub display_name: Option<Seq<char>>,
}

impl View for AuthorizedPrincipal {
    type V = PrincipalGrantView;

    open spec fn view(&self) -> PrincipalGrantView {
        PrincipalGrantView {
            principal_id: self.principal_id@,
            role: self.role@,
            auth_method: self.auth_method@,
            provider: opt_text(self.provider),
            subject: opt_text(self.subject),
            display_name: opt_text(self.display_name),
        }
    }
}

/// Who a request seems to come from.
#[derive(Debug, PartialEq, Eq)]
pub struct AuthorizationIdentity {
    pub principal_id: Option<String>,
    pub auth_method: Option<String>,
    pub provider: Option<String>,
    pub subject: Option<String>,
}

/// What an [`AuthorizationIdentity`] holds.
pub struct IdentityView {
    pub principal_id: Option<Seq<char>>,
    pub auth_method: Option<Seq<char>>,
    pub provider: Option<Seq<char>>,
    pub subject: Option<Seq<char>>,
}

impl View for AuthorizationIdentity {
    type V = IdentityView;

    open spec fn view(&self) -> IdentityView {
        IdentityView {
            principal_id: opt_text(self.principal_id),
            auth_method: opt_text(self.auth_method),
            provider: opt_text(self.provider),
            subject: opt_text(self.subject),
        }
    }
}

/// Nobody in particular.
pub open spec fn no_identity() -> IdentityView {
    IdentityView { principal_id: None, auth_method: None, provider: None, subject: None }
}

/// Why a request is denied.
#[derive(Debug, PartialEq, Eq)]
pub struct AuthorizationError {
    pub(crate) status: u16,
    pub(crate) code: &'static str,
    pub(crate) detail: Option<String>,
    pub(crate) identity: AuthorizationIdentity,
}

/// What an [`AuthorizationError`] holds.
pub struct DenialView {
    pub status: u16,
    pub code: Seq<char>,
    pub detail: Option<Seq<char>>,
    pub identity: IdentityView,
}

impl View for AuthorizationError {
    type V = DenialView;

    open(crate) spec fn view(&self) -> DenialView {
        DenialView {
            status: self.status,
            code: self.code@,
            detail: opt_text(self.detail),
            identity: self.identity@,
        }
    }
}

/// A denial to someone who is not known.
pub open spec fn unauthorized(code: Seq<char>) -> DenialView {
    DenialView { status: 401, code, detail: None, identity: no_identity() }
}

/// A denial to someone who is known.
pub open spec fn forbidden(code: Seq<char>) -> DenialView {
    DenialView { status: 403, code, detail: None, identity: no_identity() }
}

impl AuthorizationError {
    /// The HTTP status of the denial.
    pub fn status(&self) -> (res: u16)
        ensures
            res == self@.status,
    {
        self.status
    }

    /// The code of the denial.
    pub fn code(&self) -> (res: &'static str)
        ensures
            res@ == self@.code,
    {
        self.code
    }

    pub(crate) fn unauthorized(code: &'static str) -> (res: Self)
        ensures
            res@ == unauthorized(code@),
    {
        AuthorizationError {
            status: 401,
            code,
            detail: None,
            identity: AuthorizationIdentity {
                principal_id: None,
                auth_method: None,
                provider: None,
                subject: None,
            },
        }
    }

    pub(crate) fn forbidden(code: &'static str) -> (res: Self)
        ensures
            res@ == forbidden(code@),
    {
        AuthorizationError {
            status: 403,
            code,
            detail: None,
            identity: AuthorizationIdentity {
                principal_id: None,
                auth_method: None,
                provider: None,
                subject: None,
            },
        }
    }

    pub(crate) fn with_detail(self, detail: String) -> (res: Self)
        ensures
            res@ == (DenialView { detail: Some(detail@), ..self@ }),
    {
        AuthorizationError { detail: Some(detail), ..self }
    }

    pub(crate) fn with_identity(
        self,
        principal_id: Option<String>,
        auth_method: Option<String>,
        provider: Option<String>,
        subject: Option<String>,
    ) -> (res: Self)
        ensures
            res@ == (DenialView {
                identity: IdentityView {
                    principal_id: opt_text(principal_id),
                    auth_method: opt_text(auth_method),
                    provider: opt_text(provider),
                    subject: opt_text(subject),
                },
                ..self@
            }),
    {
        AuthorizationError {
            identity: AuthorizationIdentity { principal_id, auth_method, provider, subject },
            ..self
        }
    }
}

/// An action on resources that a role allows.
#[derive(Debug, PartialEq, Eq)]
pub struct RbacGrantSnapshot {
    pub action: RbacAction,
    pub resource: RbacResource,
}

impl View for RbacGrantSnapshot {
    type V = PermissionView;

    open spec fn view(&self) -> PermissionView {
        PermissionView { action: self.action, resource: self.resource@ }
    }
}

impl Copied for RbacGrantSnapshot {
    fn copied(&self) -> (res: Self) {
        RbacGrantSnapshot { action: self.action, resource: self.resource.copied() }
    }
}

/// A role that someone has, on some resources or, where none are named, on all.
#[derive(Debug, PartialEq, Eq)]
pub struct RbacBindingSnapshot {
    pub role: String,
    pub scopes: Vec<RbacResource>,
}

/// What an [`RbacBindingSnapshot`] holds.
pub struct BindingView {
    pub role: Seq<char>,
    pub scopes: Seq<ResourceView>,
}

impl View for RbacBindingSnapshot {
    type V = BindingView;

    open spec fn view(&self) -> BindingView {
        BindingView { role: self.role@, scopes: views(self.scopes@) }
    }
}

impl Copied for RbacBindingSnapshot {
    fn copied(&self) -> (res: Self) {
        RbacBindingSnapshot { role: self.role.clone(), scopes: copy_list(&self.scopes) }
    }
}

/// A role: what it allows.
#[derive(Debug)]
pub struct RoleDefinition {
    pub grants: Vec<RbacGrantSnapshot>,
}

/// The roles of a configuration by name, and the names in ascending order.
pub struct RolesView {
    pub names: Seq<Seq<char>>,
    pub grants: Map<Seq<char>, Seq<PermissionView>>,
}

/// What some roles hold.
pub open spec fn roles_view(roles: TextMap<RoleDefinition>) -> RolesView {
    RolesView {
        names: roles.keys(),
        grants: Map::new(
            |name: Seq<char>| roles@.dom().contains(name),
            |name: Seq<char>| views(roles@[name].grants@),
        ),
    }
}

/// Someone who is known by a token.
#[derive(Debug)]
pub struct PrincipalDefinition {
    pub id: String,
    pub token: String,
    pub disabled: bool,
    pub bindings: Vec<RbacBindingSnapshot>,
}

/// What a [`PrincipalDefinition`] holds.
pub struct PrincipalView {
    pub id: Seq<char>,
    pub token: Seq<char>,
    pub disabled: bool,
    pub bindings: Seq<BindingView>,
}

impl View for PrincipalDefinition {
    type V = PrincipalView;

    open spec fn view(&self) -> PrincipalView {
        PrincipalView {
            id: self.id@,
            token: self.token@,
            disabled: self.disabled,
            bindings: views(self.bindings@),
        }
    }
}

/// A program that is known by a token which can be changed.
#[derive(Debug)]
pub struct ServiceAccountDefinition {
    pub id: String,
    pub token: String,
    pub description: Option<String>,
    pub disabled: bool,
    pub created_unix_ms: u64,
    pub updated_unix_ms: u64,
    pub last_rotated_unix_ms: u64,
    pub bindings: Vec<RbacBindingSnapshot>,
}

/// What a [`ServiceAccountDefinition`] holds.
pub struct AccountView {
    pub id: Seq<char>,
    pub token: Seq<char>,
    pub description: Option<Seq<char>>,
    pub disabled: bool,
    pub created_unix_ms: u64,
    pub updated_unix_ms: u64,
    pub last_rotated_unix_ms: u64,
    pub bindings: Seq<BindingView>,
}

impl View for ServiceAccountDefinition {
    type V = AccountView;

    open spec fn view(&self) -> AccountView {
        AccountView {
            id: self.id@,
            token: self.token@,
            description: opt_text(self.description),
            disabled: self.disabled,
            created_unix_ms: self.created_unix_ms,
            updated_unix_ms: self.updated_unix_ms,
            last_rotated_unix_ms: self.last_rotated_unix_ms,
            bindings: views(self.bindings@),
        }
    }
}

impl Copied for ServiceAccountDefinition {
    fn copied(&self) -> (res: Self) {
        ServiceAccountDefinition {
            id: self.id.clone(),
            token: self.token.clone(),
            description: clone_opt(&self.description),
            disabled: self.disabled,
            created_unix_ms: self.created_unix_ms,
            updated_unix_ms: self.updated_unix_ms,
            last_rotated_unix_ms: self.last_rotated_unix_ms,
            bindings: copy_list(&self.bindings),
        }
    }
}

/// The bindings of those whose token has a claim of a value.
#[derive(Debug)]
pub struct OidcClaimMappingDefinition {
    pub claim: String,
    pub value: String,
    pub bindings: Vec<RbacBindingSnapshot>,
}

/// What an [`OidcClaimMappingDefinition`] holds.
pub struct MappingView {
    pub claim: Seq<char>,
    pub value: Seq<char>,
    pub bindings: Seq<BindingView>,
}

impl View for OidcClaimMappingDefinition {
    type V = MappingView;

    open spec fn view(&self) -> MappingView {
        MappingView { claim: self.claim@, value: self.value@, bindings: views(self.bindings@) }
    }
}

/// A key as a JSON web key writes it down.
#[derive(Debug)]
pub struct OidcJwkDefinition {
    pub kid: Option<String>,
    pub alg: Option<String>,
    pub kty: String,
    pub use_: Option<String>,
    pub n: Option<String>,
    pub e: Option<String>,
    pub x: Option<String>,
    pub y: Option<String>,
    pub crv: Option<String>,
    pub k: Option<String>,
}

/// What an [`OidcJwkDefinition`] holds.
pub struct JwkView {
    pub kid: Option<Seq<char>>,
    pub alg: Option<Seq<char>>,
    pub kty: Seq<char>,
    pub use_: Option<Seq<char>>,
    pub n: Option<Seq<char>>,
    pub e: Option<Seq<char>>,
    pub x: Option<Seq<char>>,
    pub y: Option<Seq<char>>,
    pub crv: Option<Seq<char>>,
    pub k: Option<Seq<char>>,
}

impl View for OidcJwkDefinition {
    type V = JwkView;

    open spec fn view(&self) -> JwkView {
        JwkView {
            kid: opt_text(self.kid),
            alg: opt_text(self.alg),
            kty: self.kty@,
            use_: opt_text(self.use_),
            n: opt_text(self.n),
            e: opt_text(self.e),
            x: opt_text(self.x),
            y: opt_text(self.y),
            crv: opt_text(self.crv),
            k: opt_text(self.k),
        }
    }
}

/// A provider of tokens as the configuration writes it down.
#[derive(Debug)]
pub struct OidcProviderDefinition {
    pub name: String,
    pub issuer: String,
    pub audiences: Vec<String>,
    pub username_claim: Option<String>,
    pub jwks_url: Option<String>,
    pub jwks: Vec<OidcJwkDefinition>,
    pub claim_mappings: Vec<OidcClaimMappingDefinition>,
}

/// What an [`OidcProviderDefinition`] holds.
pub struct ProviderDefView {
    pub name: Seq<char>,
    pub issuer: Seq<char>,
    pub audiences: Seq<Seq<char>>,
    pub username_claim: Option<Seq<char>>,
    pub jwks_url: Option<Seq<char>>,
    pub jwks: Seq<JwkView>,
    pub claim_mappings: Seq<MappingView>,
}

impl View for OidcProviderDefinition {
    type V = ProviderDefView;

    open spec fn view(&self) -> ProviderDefView {
        ProviderDefView {
            name: self.name@,
            issuer: self.issuer@,
            audiences: views(self.audiences@),
            username_claim: opt_text(self.username_claim),
            jwks_url: opt_text(self.jwks_url),
            jwks: views(self.jwks@),
            claim_mappings: views(self.claim_mappings@),
        }
    }
}

/// A configuration of access control.
#[derive(Debug)]
pub struct RbacConfigFile {
    pub roles: TextMap<RoleDefinition>,
    pub principals: Vec<PrincipalDefinition>,
    pub service_accounts: Vec<ServiceAccountDefinition>,
    pub oidc_providers: Vec<OidcProviderDefinition>,
}

/// What an [`RbacConfigFile`] holds.
pub struct ConfigView {
    pub roles: RolesView,
    pub principals: Seq<PrincipalView>,
    pub service_accounts: Seq<AccountView>,
    pub oidc_providers: Seq<ProviderDefView>,
}

impl View for RbacConfigFile {
    type V = ConfigView;

    open spec fn view(&self) -> ConfigView {
        ConfigView {
            roles: roles_view(self.roles),
            principals: views(self.principals@),
            service_accounts: views(self.service_accounts@),
            oidc_providers: views(self.oidc_providers@),
        }
    }
}

/// A key that signatures are checked with.
#[derive(Debug)]
pub enum OidcKeyRuntime {
    Rsa { kid: Option<String>, alg: Option<String>, n: Vec<u8>, e: Vec<u8> },
    EcP256 { kid: Option<String>, alg: Option<String>, x: Vec<u8>, y: Vec<u8> },
    Oct { kid: Option<String>, alg: Option<String>, secret: Vec<u8> },
}

/// What an [`OidcKeyRuntime`] holds.
pub enum KeyView {
    Rsa { kid: Option<Seq<char>>, alg: Option<Seq<char>>, n: Seq<u8>, e: Seq<u8> },
    EcP256 { kid: Option<Seq<char>>, alg: Option<Seq<char>>, x: Seq<u8>, y: Seq<u8> },
    Oct { kid: Option<Seq<char>>, alg: Option<Seq<char>>, secret: Seq<u8> },
}

impl View for OidcKeyRuntime {
    type V = KeyView;

    open spec fn view(&self) -> KeyView {
        match *self {
            OidcKeyRuntime::Rsa { kid, alg, n, e } => KeyView::Rsa {
                kid: opt_text(kid),
                alg: opt_text(alg),
                n: n@,
                e: e@,
            },
            OidcKeyRuntime::EcP256 { kid, alg, x, y } => KeyView::EcP256 {
                kid: opt_text(kid),
                alg: opt_text(alg),
                x: x@,
                y: y@,
            },
            OidcKeyRuntime::Oct { kid, alg, secret } => KeyView::Oct {
                kid: opt_text(kid),
                alg: opt_text(alg),
                secret: secret@,
            },
        }
    }
}

/// A provider of tokens, ready for use.
#[derive(Debug)]
pub struct OidcProviderRuntime {
    pub name: String,
    pub issuer: String,
    pub audiences: Vec<String>,
    pub username_claim: Option<String>,
    pub jwks_url: Option<String>,
    pub keys: Vec<OidcKeyRuntime>,
    pub claim_mappings: Vec<OidcClaimMappingDefinition>,
}

/// What an [`OidcProviderRuntime`] holds.
pub struct ProviderView {
    pub name: Seq<char>,
    pub issuer: Seq<char>,
    pub audiences: Seq<Seq<char>>,
    pub username_claim: Option<Seq<char>>,
    pub jwks_url: Option<Seq<char>>,
    pub keys: Seq<KeyView>,
    pub claim_mappings: Seq<MappingView>,
}

impl View for OidcProviderRuntime {
    type V = ProviderView;

    open spec fn view(&self) -> ProviderView {
        ProviderView {
            name: self.name@,
            issuer: self.issuer@,
            audiences: views(self.audiences@),
            username_claim: opt_text(self.username_claim),
            jwks_url: opt_text(self.jwks_url),
            keys: views(self.keys@),
            claim_mappings: views(self.claim_mappings@),
        }
    }
}

impl Ranked for OidcProviderRuntime {
    open spec fn before(a: ProviderView, b: ProviderView) -> bool {
        text_less(a.name, b.name)
    }

    fn precedes(&self, other: &Self) -> (res: bool) {
        less(&self.name, &other.name)
    }
}

} // verus!
