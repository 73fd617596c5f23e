//! How service accounts are made, changed, given new tokens and shut out. A change is planned, prepared
//! with the keys of the providers, written to the file that backs the registry, where there is one,
//! and then taken over.

use vstd::prelude::*;
use crate::clock::unix_timestamp_millis;
use crate::crypto::{base64url_text, encode_base64url, is_base64url_char, random_bytes};
use crate::lists::{
    copy_list, first_index, group_views, lemma_first_index, lemma_first_index_is, views, Copied,
};
use crate::rbac::{
    account_shown, audit_entry, audited, plain_entry, show_account, AccountSnapshotView, AuditView,
    RbacRegistry, RbacServiceAccountSnapshot, RegistryView, ServiceAccountCredential,
    ServiceAccountSpec, SpecView,
};
use crate::rbac_config::{
    account_named, account_token, build_runtime_state, config_built, has_account, has_account_token,
    has_principal, has_principal_token, identifier_error, normal_text, normalize_optional_text,
    principal_named, principal_token, providers_reached, reaches_providers, validate_identifier,
    FetchedKeys, FetchedView,
};
use crate::rbac_types::{
    AccountView, ConfigView, OidcProviderRuntime, ProviderView, RbacConfigFile,
    ServiceAccountDefinition,
};
use crate::text::{cat2, cat3, cat4, cat6, message_view, opt_text, owned, same, trim, trimmed};

verus! {

broadcast use group_views;

/// What is done to a service account.
#[derive(Debug, Clone, Copy, PartialEq, Eq, Structural)]
pub enum AccountEvent {
    Create,
    Update,
    Rotate,
    Disable,
    Enable,
}

/// The name of an event in the audit log.
pub open spec fn event_name(event: AccountEvent) -> Seq<char> {
    match event {
        AccountEvent::Create => "service_account_create"@,
        AccountEvent::Update => "service_account_update"@,
        AccountEvent::Rotate => "service_account_rotate"@,
        AccountEvent::Disable => "service_account_disable"@,
        AccountEvent::Enable => "service_account_enable"@,
    }
}

/// The code of an event that succeeded.
pub open spec fn done_code(event: AccountEvent) -> Seq<char> {
    match event {
        AccountEvent::Create => "service_account_created"@,
        AccountEvent::Update => "service_account_updated"@,
        AccountEvent::Rotate => "service_account_rotated"@,
        AccountEvent::Disable => "service_account_disabled"@,
        AccountEvent::Enable => "service_account_enabled"@,
    }
}

/// The code of an event that failed.
pub open spec fn failed_code(event: AccountEvent) -> Seq<char> {
    match event {
        AccountEvent::Create => "service_account_create_failed"@,
        AccountEvent::Update => "service_account_update_failed"@,
        AccountEvent::Rotate => "service_account_rotate_failed"@,
        AccountEvent::Disable => "service_account_disable_failed"@,
        AccountEvent::Enable => "service_account_enable_failed"@,
    }
}

impl AccountEvent {
    fn name(self) -> (res: &'static str)
        ensures
            res@ == event_name(self),
    {
        match self {
            AccountEvent::Create => "service_account_create",
            AccountEvent::Update => "service_account_update",
            AccountEvent::Rotate => "service_account_rotate",
            AccountEvent::Disable => "service_account_disable",
            AccountEvent::Enable => "service_account_enable",
        }
    }

    fn done(self) -> (res: &'static str)
        ensures
            res@ == done_code(self),
    {
        match self {
            AccountEvent::Create => "service_account_created",
            AccountEvent::Update => "service_account_updated",
            AccountEvent::Rotate => "service_account_rotated",
            AccountEvent::Disable => "service_account_disabled",
            AccountEvent::Enable => "service_account_enabled",
        }
    }

    fn failed(self) -> (res: &'static str)
        ensures
            res@ == failed_code(self),
    {
        match self {
            AccountEvent::Create => "service_account_create_failed",
            AccountEvent::Update => "service_account_update_failed",
            AccountEvent::Rotate => "service_account_rotate_failed",
            AccountEvent::Disable => "service_account_disable_failed",
            AccountEvent::Enable => "service_account_enable_failed",
        }
    }
}

/// What drawing a token came to.
pub type Drawn = Result<Seq<char>, Seq<char>>;

/// What drawing a token came to.
pub open spec fn drawn_view(token: Result<String, String>) -> Drawn {
    match token {
        Ok(text) => Ok(text@),
        Err(message) => Err(message@),
    }
}

/// How often a token is drawn before the search for one that nobody has is given up.
pub const MAX_TOKEN_DRAWS: usize = 32;

/// How many random bytes a token is made of.
pub const TOKEN_BYTES: usize = 32;

/// What a draw of random bytes comes to: it failed, it gave a token that somebody has, or it gave a
/// token that nobody has.
#[derive(Debug, PartialEq, Eq)]
pub enum TokenDraw {
    Failed,
    Taken,
    Fresh(String),
}

/// What a [`TokenDraw`] holds.
pub enum TokenDrawView {
    Failed,
    Taken,
    Fresh(Seq<char>),
}

impl View for TokenDraw {
    type V = TokenDrawView;

    open spec fn view(&self) -> TokenDrawView {
        match *self {
            TokenDraw::Failed => TokenDrawView::Failed,
            TokenDraw::Taken => TokenDrawView::Taken,
            TokenDraw::Fresh(token) => TokenDrawView::Fresh(token@),
        }
    }
}

/// The bytes of a draw, where there are any.
pub open spec fn draw_view(bytes: Option<Vec<u8>>) -> Option<Seq<u8>> {
    match bytes {
        Some(bytes) => Some(bytes@),
        None => None,
    }
}

/// The bytes of some draws, where there are any.
pub open spec fn draw_views(draws: Seq<Option<Vec<u8>>>) -> Seq<Option<Seq<u8>>> {
    Seq::new(draws.len(), |i: int| draw_view(draws[i]))
}

/// A draw that failed or gave as many bytes as a token is made of.
pub open spec fn draw_fits(bytes: Option<Seq<u8>>) -> bool {
    match bytes {
        Some(bytes) => bytes.len() == TOKEN_BYTES,
        None => true,
    }
}

/// The token that some bytes make.
pub open spec fn token_of_bytes(bytes: Seq<u8>) -> Seq<char> {
    "tsa_"@ + base64url_text(bytes)
}

/// Whether a principal or a service account of a configuration has a token.
pub open spec fn token_in_use(config: ConfigView, token: Seq<char>) -> bool {
    ||| principal_token(config.principals, config.principals.len() as int, token)
    ||| account_token(config.service_accounts, config.service_accounts.len() as int, token)
}

/// What a draw comes to for a configuration.
pub open spec fn draw_judged(config: ConfigView, bytes: Option<Seq<u8>>) -> TokenDrawView {
    match bytes {
        None => TokenDrawView::Failed,
        Some(bytes) => if token_in_use(config, token_of_bytes(bytes)) {
            TokenDrawView::Taken
        } else {
            TokenDrawView::Fresh(token_of_bytes(bytes))
        },
    }
}

/// Tells the draws after which none is made: those that failed and those that gave a token that
/// nobody has.
pub open spec fn ends_draws(config: ConfigView) -> spec_fn(Option<Seq<u8>>) -> bool {
    |bytes: Option<Seq<u8>>| draw_judged(config, bytes) !is Taken
}

/// What some draws come to: the first that gave a token which nobody has, or that failed, decides.
/// Where none did, the search is given up once enough draws were made, and goes on before that.
pub open spec fn draws_concluded(config: ConfigView, draws: Seq<Option<Seq<u8>>>) -> Option<Drawn> {
    match first_index(draws, ends_draws(config)) {
        Some(i) => match draw_judged(config, draws[i]) {
            TokenDrawView::Fresh(token) => Some(Ok(token)),
            _ => Some(Err("failed to generate service account token"@)),
        },
        None => if draws.len() >= MAX_TOKEN_DRAWS {
            Some(Err("failed to generate a unique service account token"@))
        } else {
            None
        },
    }
}

/// Whether some draws, made one after the other until they come to something, come to a token or to
/// an error: every draw but the last gave a token that somebody has.
pub open spec fn drawn_by(
    config: ConfigView,
    draws: Seq<Option<Seq<u8>>>,
    token: Drawn,
) -> bool {
    &&& 1 <= draws.len() <= MAX_TOKEN_DRAWS
    &&& forall|i: int| 0 <= i < draws.len() ==> draw_fits(#[trigger] draws[i])
    &&& forall|i: int|
        0 <= i < draws.len() - 1 ==> draw_judged(config, #[trigger] draws[i]) is Taken
    &&& draws_concluded(config, draws) == Some(token)
}

/// A token that may be drawn for a configuration: nobody in it has it.
pub open spec fn fresh_token(config: ConfigView, token: Seq<char>) -> bool {
    &&& exists|bytes: Seq<u8>|
        bytes.len() == TOKEN_BYTES && token == #[trigger] token_of_bytes(bytes)
    &&& forall|i: int| "tsa_"@.len() <= i < token.len() ==> is_base64url_char(#[trigger] token[i])
    &&& !token_in_use(config, token)
}

/// What drawing a token for a configuration may come to.
pub open spec fn drawn_for(config: ConfigView, token: Drawn) -> bool {
    &&& exists|draws: Seq<Option<Seq<u8>>>| drawn_by(config, draws, token)
    &&& token matches Ok(text) ==> fresh_token(config, text)
}

/// Tells the accounts with a name.
pub open spec fn account_is(id: Seq<char>) -> spec_fn(AccountView) -> bool {
    |account: AccountView| account.id == id
}

/// The accounts after one more is made with a token that was drawn.
pub open spec fn accounts_created(config: ConfigView, spec: SpecView, token: Drawn, now_ms: u64) ->
    Planned {
    let id = trimmed(spec.id);
    let named = identifier_error(id, "service account id"@);
    if named is Some {
        Err(named->0)
    } else if principal_named(config.principals, config.principals.len() as int, id) {
        Err("service account id '"@ + id + "' conflicts with an existing principal"@)
    } else if account_named(config.service_accounts, config.service_accounts.len() as int, id) {
        Err("duplicate service account id '"@ + id + "'"@)
    } else {
        match token {
            Err(message) => Err(message),
            Ok(text) => Ok(
                config.service_accounts.push(
                    AccountView {
                        id,
                        token: text,
                        description: normal_text(spec.description),
                        disabled: spec.disabled,
                        created_unix_ms: now_ms,
                        updated_unix_ms: now_ms,
                        last_rotated_unix_ms: now_ms,
                        bindings: spec.bindings,
                    },
                ),
            ),
        }
    }
}

/// A message on an account that is not there.
pub open spec fn unknown_account(id: Seq<char>) -> Seq<char> {
    "unknown service account '"@ + id + "'"@
}

/// The accounts after one is described anew.
pub open spec fn accounts_updated(config: ConfigView, spec: SpecView, now_ms: u64) -> Planned {
    let id = trimmed(spec.id);
    let accounts = config.service_accounts;
    match first_index(accounts, account_is(id)) {
        None => Err(unknown_account(id)),
        Some(i) => Ok(
            accounts.update(
                i,
                AccountView {
                    description: normal_text(spec.description),
                    disabled: spec.disabled,
                    updated_unix_ms: now_ms,
                    bindings: spec.bindings,
                    ..accounts[i]
                },
            ),
        ),
    }
}

/// The accounts after one is given a token that was drawn.
pub open spec fn accounts_rotated(config: ConfigView, id: Seq<char>, token: Drawn, now_ms: u64) ->
    Planned {
    let accounts = config.service_accounts;
    match token {
        Err(message) => Err(message),
        Ok(text) => match first_index(accounts, account_is(id)) {
            None => Err(unknown_account(id)),
            Some(i) => Ok(
                accounts.update(
                    i,
                    AccountView {
                        token: text,
                        updated_unix_ms: now_ms,
                        last_rotated_unix_ms: now_ms,
                        ..accounts[i]
                    },
                ),
            ),
        },
    }
}

/// The accounts after one is shut out or let in again.
pub open spec fn accounts_switched(
    config: ConfigView,
    id: Seq<char>,
    disabled: bool,
    now_ms: u64,
) -> Planned {
    let accounts = config.service_accounts;
    match first_index(accounts, account_is(id)) {
        None => Err(unknown_account(id)),
        Some(i) => Ok(
            accounts.update(i, AccountView { disabled, updated_unix_ms: now_ms, ..accounts[i] }),
        ),
    }
}

/// The service accounts as a change leaves them, before the configuration is checked with them.
#[derive(Debug)]
pub struct AccountPlan {
    pub(crate) accounts: Vec<ServiceAccountDefinition>,
}

impl View for AccountPlan {
    type V = Seq<AccountView>;

    open(crate) spec fn view(&self) -> Seq<AccountView> {
        views(self.accounts@)
    }
}

/// What planning a change came to.
pub type Planned = Result<Seq<AccountView>, Seq<char>>;

/// What planning a change came to.
pub open spec fn planned_view(result: Result<AccountPlan, String>) -> Planned {
    match result {
        Ok(plan) => Ok(plan@),
        Err(message) => Err(message@),
    }
}

/// A change of the service accounts that is prepared but not taken over.
#[derive(Debug)]
pub struct AccountChange {
    pub(crate) accounts: Vec<ServiceAccountDefinition>,
    pub(crate) providers: Vec<OidcProviderRuntime>,
}

/// What an [`AccountChange`] holds.
pub struct ChangeView {
    pub accounts: Seq<AccountView>,
    pub providers: Seq<ProviderView>,
}

impl View for AccountChange {
    type V = ChangeView;

    open(crate) spec fn view(&self) -> ChangeView {
        ChangeView { accounts: views(self.accounts@), providers: views(self.providers@) }
    }
}

/// The name of a service account without white space at its ends, or why it is none.
pub fn account_name(id: &str) -> (res: Result<String, String>)
    ensures
        match res {
            Ok(name) => name@ == trimmed(id@) && identifier_error(
                trimmed(id@),
                "service account id"@,
            ) is None,
            Err(message) => identifier_error(trimmed(id@), "service account id"@) == Some(message@),
        },
{
    let name = trim(id);
    match validate_identifier(name, "service account id") {
        Ok(()) => Ok(owned(name)),
        Err(message) => Err(message),
    }
}

impl AccountChange {
    /// The service accounts as they are to be written.
    pub fn accounts(&self) -> (res: &Vec<ServiceAccountDefinition>)
        ensures
            views(res@) == self@.accounts,
    {
        &self.accounts
    }
}

/// What preparing a change came to.
pub type Prepared = Result<ChangeView, Seq<char>>;

/// What preparing a change came to.
pub open spec fn prepared_view(result: Result<AccountChange, String>) -> Prepared {
    match result {
        Ok(change) => Ok(change@),
        Err(message) => Err(message@),
    }
}

/// A change to some accounts is prepared where the configuration is accepted with them.
pub open spec fn change_prepared(
    config: ConfigView,
    accounts: Planned,
    fetched: Seq<FetchedView>,
) -> Prepared {
    match accounts {
        Err(message) => Err(message),
        Ok(list) => match config_built(ConfigView { service_accounts: list, ..config }, fetched) {
            Err(message) => Err(message),
            Ok(providers) => Ok(ChangeView { accounts: list, providers }),
        },
    }
}

/// What writing a configuration came to: done, done with a warning, or not done.
pub type Written = Result<Option<Seq<char>>, Seq<char>>;

/// What writing a configuration came to.
pub open spec fn written_view(written: Result<Option<String>, String>) -> Written {
    match written {
        Ok(warning) => Ok(opt_text(warning)),
        Err(message) => Err(message@),
    }
}

/// What reading a file came to.
pub open spec fn read_view(read_back: Result<Vec<u8>, String>) -> Result<Seq<u8>, Seq<char>> {
    match read_back {
        Ok(bytes) => Ok(bytes@),
        Err(message) => Err(message@),
    }
}

/// What a write of the configuration comes to, given what was found in the file after a write that
/// failed: one that left all the bytes there is done, but may not last.
pub open spec fn config_write_judged(
    shown: Seq<char>,
    raw: Seq<u8>,
    written: Result<(), Seq<char>>,
    read_back: Result<Seq<u8>, Seq<char>>,
) -> Written {
    match written {
        Ok(_) => Ok(None),
        Err(message) => match read_back {
            Ok(found) => if found == raw {
                Ok(
                    Some(
                        "RBAC config "@ + shown
                            + " was updated but could not be fully synced: "@ + message,
                    ),
                )
            } else {
                Err("failed to write RBAC config "@ + shown + ": "@ + message)
            },
            Err(fault) => Err(
                "failed to write RBAC config "@ + shown + ": "@ + message
                    + "; failed to verify persisted contents: "@ + fault,
            ),
        },
    }
}

/// What a prepared change makes of the registry once it is written, and the account it is about.
/// One that was not written is not taken over; one with a warning is, but the warning is reported.
pub open spec fn change_taken(
    v: RegistryView,
    change: Prepared,
    written: Written,
    id: Seq<char>,
    now_ms: u64,
) -> (RegistryView, Result<AccountView, Seq<char>>) {
    match change {
        Err(message) => (v, Err(message)),
        Ok(next) => match written {
            Err(message) => (v, Err(message)),
            Ok(warning) => match first_index(next.accounts, account_is(id)) {
                None => (v, Err("service account '"@ + id + "' was not persisted"@)),
                Some(i) => (
                    RegistryView {
                        last_loaded_unix_ms: now_ms,
                        config: ConfigView { service_accounts: next.accounts, ..v.config },
                        providers: next.providers,
                        ..v
                    },
                    match warning {
                        Some(message) => Err(message),
                        None => Ok(next.accounts[i]),
                    },
                ),
            },
        },
    }
}

/// The entry on a change of a service account.
pub open spec fn change_entry(
    event: AccountEvent,
    id: Seq<char>,
    result: Result<AccountView, Seq<char>>,
) -> AuditView {
    match result {
        Ok(_) => AuditView {
            principal_id: Some(id),
            auth_method: Some("service_account"@),
            ..plain_entry(event_name(event), "success"@, done_code(event))
        },
        Err(message) => AuditView {
            principal_id: Some(id),
            auth_method: Some("service_account"@),
            detail: Some(message),
            ..plain_entry(event_name(event), "error"@, failed_code(event))
        },
    }
}

/// What a prepared change makes of the registry, audit log included.
pub open spec fn change_concluded(
    v: RegistryView,
    change: Prepared,
    written: Written,
    event: AccountEvent,
    id: Seq<char>,
    now_ms: u64,
) -> (RegistryView, Result<AccountView, Seq<char>>) {
    let (w, result) = change_taken(v, change, written, id, now_ms);
    (audited(w, change_entry(event, id, result), now_ms), result)
}

/// What an account is shown and answered as.
pub open spec fn snapshot_answer(result: Result<AccountView, Seq<char>>) -> Result<
    AccountSnapshotView,
    Seq<char>,
> {
    match result {
        Ok(account) => Ok(account_shown(account)),
        Err(message) => Err(message),
    }
}

/// What an account and its token are answered as.
pub open spec fn credential_answer(result: Result<AccountView, Seq<char>>) -> Result<
    (AccountSnapshotView, Seq<char>),
    Seq<char>,
> {
    match result {
        Ok(account) => Ok((account_shown(account), account.token)),
        Err(message) => Err(message),
    }
}

/// An account as it was answered.
pub open spec fn snapshot_view(result: Result<RbacServiceAccountSnapshot, String>) -> Result<
    AccountSnapshotView,
    Seq<char>,
> {
    match result {
        Ok(snapshot) => Ok(snapshot@),
        Err(message) => Err(message@),
    }
}

/// An account and its token as they were answered.
pub open spec fn credential_view(result: Result<ServiceAccountCredential, String>) -> Result<
    (AccountSnapshotView, Seq<char>),
    Seq<char>,
> {
    match result {
        Ok(credential) => Ok((credential.service_account@, credential.token@)),
        Err(message) => Err(message@),
    }
}

/// What making an account makes of a registry without a file.
pub open spec fn create_step(
    v: RegistryView,
    spec: SpecView,
    token: Drawn,
    fetched: Seq<FetchedView>,
    now_ms: u64,
) -> (RegistryView, Result<AccountView, Seq<char>>) {
    change_concluded(
        v,
        change_prepared(v.config, accounts_created(v.config, spec, token, now_ms), fetched),
        Ok(None),
        AccountEvent::Create,
        trimmed(spec.id),
        now_ms,
    )
}

/// What describing an account anew makes of a registry without a file.
pub open spec fn update_step(
    v: RegistryView,
    spec: SpecView,
    fetched: Seq<FetchedView>,
    now_ms: u64,
) -> (RegistryView, Result<AccountView, Seq<char>>) {
    change_concluded(
        v,
        change_prepared(v.config, accounts_updated(v.config, spec, now_ms), fetched),
        Ok(None),
        AccountEvent::Update,
        trimmed(spec.id),
        now_ms,
    )
}

/// What giving an account a new token makes of a registry without a file. A name that is none is
/// refused without a trace.
pub open spec fn rotate_step(
    v: RegistryView,
    id: Seq<char>,
    token: Drawn,
    fetched: Seq<FetchedView>,
    now_ms: u64,
) -> (RegistryView, Result<AccountView, Seq<char>>) {
    match identifier_error(trimmed(id), "service account id"@) {
        Some(message) => (v, Err(message)),
        None => change_concluded(
            v,
            change_prepared(
                v.config,
                accounts_rotated(v.config, trimmed(id), token, now_ms),
                fetched,
            ),
            Ok(None),
            AccountEvent::Rotate,
            trimmed(id),
            now_ms,
        ),
    }
}

/// The event of shutting an account out or letting it in again.
pub open spec fn switch_event(disabled: bool) -> AccountEvent {
    if disabled {
        AccountEvent::Disable
    } else {
        AccountEvent::Enable
    }
}

/// What shutting an account out or letting it in again makes of a registry without a file. A name
/// that is none is refused without a trace.
pub open spec fn switch_step(
    v: RegistryView,
    id: Seq<char>,
    disabled: bool,
    fetched: Seq<FetchedView>,
    now_ms: u64,
) -> (RegistryView, Result<AccountView, Seq<char>>) {
    match identifier_error(trimmed(id), "service account id"@) {
        Some(message) => (v, Err(message)),
        None => change_concluded(
            v,
            change_prepared(
                v.config,
                accounts_switched(v.config, trimmed(id), disabled, now_ms),
                fetched,
            ),
            Ok(None),
            switch_event(disabled),
            trimmed(id),
            now_ms,
        ),
    }
}

fn same_bytes(a: &[u8], b: &[u8]) -> (res: bool)
    ensures
        res == (a@ == b@),
{
    if a.len() != b.len() {
        return false;
    }
    let mut i: usize = 0;
    while i < a.len()
        invariant
            i <= a.len(),
            a@.len() == b@.len(),
            forall|k: int| 0 <= k < i ==> #[trigger] a@[k] == b@[k],
        decreases a.len() - i,
    {
        if a[i] != b[i] {
            return false;
        }
        i += 1;
    }
    assert(a@ =~= b@);
    true
}

/// Judges a write of the configuration to the file that is shown as `shown`. Where it failed,
/// `read_back` is what the file was found to hold afterwards; it does not matter otherwise.
pub fn judge_config_write(
    shown: &str,
    raw: &[u8],
    written: Result<(), String>,
    read_back: Result<Vec<u8>, String>,
) -> (res: Result<Option<String>, String>)
    ensures
        written_view(res) == config_write_judged(
            shown@,
            raw@,
            message_view(written),
            read_view(read_back),
        ),
{
    let message = match written {
        Ok(()) => {
            return Ok(None);
        },
        Err(message) => message,
    };
    match read_back {
        Ok(found) => if same_bytes(found.as_slice(), raw) {
            Ok(
                Some(
                    cat4(
                        "RBAC config ",
                        shown,
                        " was updated but could not be fully synced: ",
                        &message,
                    ),
                ),
            )
        } else {
            Err(cat4("failed to write RBAC config ", shown, ": ", &message))
        },
        Err(fault) => Err(
            cat6(
                "failed to write RBAC config ",
                shown,
                ": ",
                &message,
                "; failed to verify persisted contents: ",
                &fault,
            ),
        ),
    }
}

/// Judges a draw of random bytes for a configuration.
pub fn judge_token_draw(config: &RbacConfigFile, bytes: &Option<Vec<u8>>) -> (res: TokenDraw)
    requires
        draw_fits(draw_view(*bytes)),
    ensures
        res@ == draw_judged(config@, draw_view(*bytes)),
        res@ matches TokenDrawView::Fresh(token) ==> fresh_token(config@, token),
{
    let bytes = match bytes {
        Some(bytes) => bytes,
        None => {
            return TokenDraw::Failed;
        },
    };
    let encoded = encode_base64url(bytes.as_slice());
    let token = cat2("tsa_", &encoded);
    assert(token@ == token_of_bytes(bytes@));
    if has_principal_token(&config.principals, config.principals.len(), &token)
        || has_account_token(&config.service_accounts, config.service_accounts.len(), &token) {
        TokenDraw::Taken
    } else {
        assert forall|i: int| "tsa_"@.len() <= i < token@.len() implies is_base64url_char(
            #[trigger] token@[i],
        ) by {
            assert(token@[i] == encoded@[i - "tsa_"@.len()]);
        }
        TokenDraw::Fresh(token)
    }
}

/// What the draws made so far for a configuration come to; `None` where another is to be made.
pub fn conclude_token_draws(config: &RbacConfigFile, draws: &Vec<Option<Vec<u8>>>) -> (res: Option<
    Result<String, String>,
>)
    requires
        forall|i: int| 0 <= i < draws.len() ==> draw_fits(draw_view(#[trigger] draws@[i])),
    ensures
        match res {
            Some(token) => draws_concluded(config@, draw_views(draws@)) == Some(drawn_view(token)),
            None => draws_concluded(config@, draw_views(draws@)) is None,
        },
        res matches Some(Ok(token)) ==> fresh_token(config@, token@),
{
    let ghost all = draw_views(draws@);
    let mut i: usize = 0;
    while i < draws.len()
        invariant
            i <= draws.len(),
            all == draw_views(draws@),
            forall|k: int| 0 <= k < draws.len() ==> draw_fits(draw_view(#[trigger] draws@[k])),
            forall|k: int| 0 <= k < i ==> !ends_draws(config@)(#[trigger] all[k]),
        decreases draws.len() - i,
    {
        let judged = judge_token_draw(config, &draws[i]);
        assert(all[i as int] == draw_view(draws@[i as int]));
        match judged {
            TokenDraw::Fresh(token) => {
                proof {
                    lemma_first_index_is(all, ends_draws(config@), i as int);
                }
                return Some(Ok(token));
            },
            TokenDraw::Failed => {
                proof {
                    lemma_first_index_is(all, ends_draws(config@), i as int);
                }
                return Some(Err(owned("failed to generate service account token")));
            },
            TokenDraw::Taken => {},
        }
        i += 1;
    }
    proof {
        lemma_first_index(all, ends_draws(config@));
    }
    if draws.len() >= MAX_TOKEN_DRAWS {
        Some(Err(owned("failed to generate a unique service account token")))
    } else {
        None
    }
}

/// Draws a token that nobody in a configuration has: random bytes are drawn until they come to
/// something.
pub(crate) fn generate_unique_service_account_token(config: &RbacConfigFile) -> (res: Result<
    String,
    String,
>)
    ensures
        drawn_for(config@, drawn_view(res)),
{
    let mut draws: Vec<Option<Vec<u8>>> = Vec::new();
    loop
        invariant
            draws.len() < MAX_TOKEN_DRAWS,
            forall|i: int| 0 <= i < draws.len() ==> draw_fits(draw_view(#[trigger] draws@[i])),
            forall|i: int|
                0 <= i < draws.len() ==> draw_judged(
                    config@,
                    draw_view(#[trigger] draws@[i]),
                ) is Taken,
        decreases MAX_TOKEN_DRAWS - draws.len(),
    {
        draws.push(random_bytes());
        let ghost all = draw_views(draws@);
        match conclude_token_draws(config, &draws) {
            Some(token) => {
                assert(drawn_by(config@, all, drawn_view(token)));
                return token;
            },
            None => {
                proof {
                    lemma_first_index(all, ends_draws(config@));
                    assert(!ends_draws(config@)(all.last()));
                }
            },
        }
    }
}

fn locate_account(accounts: &Vec<ServiceAccountDefinition>, id: &str) -> (res: Option<usize>)
    ensures
        match res {
            Some(i) => i < accounts.len() && first_index(
                views(accounts@),
                account_is(id@),
            ) == Some(i as int),
            None => first_index(views(accounts@), account_is(id@)) is None,
        },
{
    let ghost all = views(accounts@);
    let mut i: usize = 0;
    while i < accounts.len()
        invariant
            i <= accounts.len(),
            all == views(accounts@),
            forall|k: int| 0 <= k < i ==> !account_is(id@)(#[trigger] all[k]),
        decreases accounts.len() - i,
    {
        assert(all[i as int] == accounts@[i as int]@);
        if same(&accounts[i].id, id) {
            proof {
                lemma_first_index_is(all, account_is(id@), i as int);
            }
            return Some(i);
        }
        i += 1;
    }
    proof {
        lemma_first_index(all, account_is(id@));
    }
    None
}

impl RbacRegistry {
    /// Whether the keys of the providers are asked for to prepare a change: not where it could not
    /// be planned, nor where the roles, the principals or the accounts are refused.
    pub fn plan_wants_keys(&self, plan: &Result<AccountPlan, String>) -> (res: bool)
        ensures
            res == match planned_view(*plan) {
                Ok(accounts) => providers_reached(
                    self@.config.roles,
                    self@.config.principals,
                    accounts,
                ),
                Err(_) => false,
            },
    {
        match plan {
            Ok(plan) => reaches_providers(
                &self.config.roles,
                &self.config.principals,
                &plan.accounts,
            ),
            Err(_) => false,
        }
    }

    /// Prepares a change that was planned: the configuration is checked with it.
    pub fn prepare(&self, plan: Result<AccountPlan, String>, fetched: &Vec<FetchedKeys>) -> (res:
        Result<AccountChange, String>)
        requires
            plan is Ok ==> fetched.len() == self@.config.oidc_providers.len(),
        ensures
            prepared_view(res) == change_prepared(
                self@.config,
                planned_view(plan),
                views(fetched@),
            ),
    {
        let accounts = match plan {
            Ok(plan) => plan.accounts,
            Err(message) => {
                return Err(message);
            },
        };
        match build_runtime_state(
            &self.config.roles,
            &self.config.principals,
            &accounts,
            &self.config.oidc_providers,
            fetched,
        ) {
            Ok(providers) => Ok(AccountChange { accounts, providers }),
            Err(message) => Err(message),
        }
    }

    /// Plans a new service account with a token that was drawn.
    pub fn plan_create_with(
        &self,
        spec: &ServiceAccountSpec,
        token: Result<String, String>,
        now_ms: u64,
    ) -> (res: Result<AccountPlan, String>)
        ensures
            planned_view(res) == accounts_created(self@.config, spec@, drawn_view(token), now_ms),
    {
        let id = trim(&spec.id);
        if let Err(message) = validate_identifier(id, "service account id") {
            return Err(message);
        }
        if has_principal(&self.config.principals, self.config.principals.len(), id) {
            return Err(
                cat3("service account id '", id, "' conflicts with an existing principal"),
            );
        }
        if has_account(&self.config.service_accounts, self.config.service_accounts.len(), id) {
            return Err(cat3("duplicate service account id '", id, "'"));
        }
        let token = match token {
            Ok(token) => token,
            Err(message) => {
                return Err(message);
            },
        };
        let mut accounts = copy_list(&self.config.service_accounts);
        accounts.push(
            ServiceAccountDefinition {
                id: owned(id),
                token,
                description: normalize_optional_text(&spec.description),
                disabled: spec.disabled,
                created_unix_ms: now_ms,
                updated_unix_ms: now_ms,
                last_rotated_unix_ms: now_ms,
                bindings: copy_list(&spec.bindings),
            },
        );
        Ok(AccountPlan { accounts })
    }

    /// Plans a new service account with a token of its own.
    pub fn plan_create(&self, spec: &ServiceAccountSpec, now_ms: u64) -> (res: Result<
        AccountPlan,
        String,
    >)
        ensures
            exists|token: Drawn|
                drawn_for(self@.config, token) && planned_view(res) == #[trigger] accounts_created(
                    self@.config,
                    spec@,
                    token,
                    now_ms,
                ),
    {
        let token = generate_unique_service_account_token(&self.config);
        let ghost drawn = drawn_view(token);
        let res = self.plan_create_with(spec, token, now_ms);
        assert(drawn_for(self@.config, drawn) && planned_view(res) == accounts_created(
            self@.config,
            spec@,
            drawn,
            now_ms,
        ));
        res
    }

    /// Plans a new description of a service account.
    pub fn plan_update(&self, spec: &ServiceAccountSpec, now_ms: u64) -> (res: Result<
        AccountPlan,
        String,
    >)
        ensures
            planned_view(res) == accounts_updated(self@.config, spec@, now_ms),
    {
        let id = trim(&spec.id);
        let i: usize = match locate_account(&self.config.service_accounts, id) {
            Some(i) => i,
            None => {
                return Err(cat3("unknown service account '", id, "'"));
            },
        };
        let mut accounts = copy_list(&self.config.service_accounts);
        assert(views(accounts@).len() == accounts.len());
        assert(views(self.config.service_accounts@).len() == self.config.service_accounts.len());
        let mut account = accounts[i].copied();
        assert(account@ == views(accounts@)[i as int]);
        account.description = normalize_optional_text(&spec.description);
        account.disabled = spec.disabled;
        account.updated_unix_ms = now_ms;
        account.bindings = copy_list(&spec.bindings);
        accounts.set(i, account);
        Ok(AccountPlan { accounts })
    }

    /// Plans a new token of a service account, which was drawn.
    pub fn plan_rotate_with(
        &self,
        id: &str,
        token: Result<String, String>,
        now_ms: u64,
    ) -> (res: Result<AccountPlan, String>)
        ensures
            planned_view(res) == accounts_rotated(self@.config, id@, drawn_view(token), now_ms),
    {
        let token = match token {
            Ok(token) => token,
            Err(message) => {
                return Err(message);
            },
        };
        let i: usize = match locate_account(&self.config.service_accounts, id) {
            Some(i) => i,
            None => {
                return Err(cat3("unknown service account '", id, "'"));
            },
        };
        let mut accounts = copy_list(&self.config.service_accounts);
        assert(views(accounts@).len() == accounts.len());
        assert(views(self.config.service_accounts@).len() == self.config.service_accounts.len());
        let mut account = accounts[i].copied();
        assert(account@ == views(accounts@)[i as int]);
        account.token = token;
        account.updated_unix_ms = now_ms;
        account.last_rotated_unix_ms = now_ms;
        accounts.set(i, account);
        Ok(AccountPlan { accounts })
    }

    /// Plans a new token of a service account.
    pub fn plan_rotate(&self, id: &str, now_ms: u64) -> (res: Result<AccountPlan, String>)
        ensures
            exists|token: Drawn|
                drawn_for(self@.config, token) && planned_view(res) == #[trigger] accounts_rotated(
                    self@.config,
                    id@,
                    token,
                    now_ms,
                ),
    {
        let token = generate_unique_service_account_token(&self.config);
        let ghost drawn = drawn_view(token);
        let res = self.plan_rotate_with(id, token, now_ms);
        assert(drawn_for(self@.config, drawn) && planned_view(res) == accounts_rotated(
            self@.config,
            id@,
            drawn,
            now_ms,
        ));
        res
    }

    /// Plans to shut a service account out or to let it in again.
    pub fn plan_switch(&self, id: &str, disabled: bool, now_ms: u64) -> (res: Result<
        AccountPlan,
        String,
    >)
        ensures
            planned_view(res) == accounts_switched(self@.config, id@, disabled, now_ms),
    {
        let i: usize = match locate_account(&self.config.service_accounts, id) {
            Some(i) => i,
            None => {
                return Err(cat3("unknown service account '", id, "'"));
            },
        };
        let mut accounts = copy_list(&self.config.service_accounts);
        assert(views(accounts@).len() == accounts.len());
        assert(views(self.config.service_accounts@).len() == self.config.service_accounts.len());
        let mut account = accounts[i].copied();
        assert(account@ == views(accounts@)[i as int]);
        account.disabled = disabled;
        account.updated_unix_ms = now_ms;
        accounts.set(i, account);
        Ok(AccountPlan { accounts })
    }

    /// Takes over a prepared change once it is written.
    fn take_change(
        &mut self,
        change: Result<AccountChange, String>,
        written: Result<Option<String>, String>,
        id: &str,
        now_ms: u64,
    ) -> (res: Result<ServiceAccountDefinition, String>)
        ensures
            match res {
                Ok(account) => change_taken(
                    old(self)@,
                    prepared_view(change),
                    written_view(written),
                    id@,
                    now_ms,
                ) == (final(self)@, Ok::<AccountView, Seq<char>>(account@)),
                Err(message) => change_taken(
                    old(self)@,
                    prepared_view(change),
                    written_view(written),
                    id@,
                    now_ms,
                ) == (final(self)@, Err::<AccountView, Seq<char>>(message@)),
            },
    {
        let next = match change {
            Ok(next) => next,
            Err(message) => {
                return Err(message);
            },
        };
        let warning = match written {
            Ok(warning) => warning,
            Err(message) => {
                return Err(message);
            },
        };
        let account = match locate_account(&next.accounts, id) {
            Some(i) => {
                assert(views(next.accounts@)[i as int] == next.accounts@[i as int]@);
                next.accounts[i].copied()
            },
            None => {
                return Err(cat3("service account '", id, "' was not persisted"));
            },
        };
        self.config.service_accounts = next.accounts;
        self.providers = next.providers;
        self.last_loaded_unix_ms = now_ms;
        match warning {
            Some(message) => Err(message),
            None => Ok(account),
        }
    }

    /// Concludes a change with the account that it is about.
    fn conclude(
        &mut self,
        change: Result<AccountChange, String>,
        written: Result<Option<String>, String>,
        event: AccountEvent,
        id: &str,
        now_ms: u64,
    ) -> (res: Result<ServiceAccountDefinition, String>)
        ensures
            match res {
                Ok(account) => change_concluded(
                    old(self)@,
                    prepared_view(change),
                    written_view(written),
                    event,
                    id@,
                    now_ms,
                ) == (final(self)@, Ok::<AccountView, Seq<char>>(account@)),
                Err(message) => change_concluded(
                    old(self)@,
                    prepared_view(change),
                    written_view(written),
                    event,
                    id@,
                    now_ms,
                ) == (final(self)@, Err::<AccountView, Seq<char>>(message@)),
            },
    {
        let result = self.take_change(change, written, id, now_ms);
        let mut entry = match &result {
            Ok(_) => audit_entry(event.name(), "success", event.done()),
            Err(message) => {
                let mut entry = audit_entry(event.name(), "error", event.failed());
                entry.detail = Some(message.clone());
                entry
            },
        };
        entry.principal_id = Some(owned(id));
        entry.auth_method = Some(owned("service_account"));
        self.push_audit_entry(entry, now_ms);
        result
    }

    /// Concludes a change once it is written: takes it over and notes it in the audit log.
    pub fn conclude_change(
        &mut self,
        change: Result<AccountChange, String>,
        written: Result<Option<String>, String>,
        event: AccountEvent,
        id: &str,
        now_ms: u64,
    ) -> (res: Result<RbacServiceAccountSnapshot, String>)
        ensures
            ({
                let step = change_concluded(
                    old(self)@,
                    prepared_view(change),
                    written_view(written),
                    event,
                    id@,
                    now_ms,
                );
                final(self)@ == step.0 && snapshot_view(res) == snapshot_answer(step.1)
            }),
    {
        match self.conclude(change, written, event, id, now_ms) {
            Ok(account) => Ok(show_account(&account)),
            Err(message) => Err(message),
        }
    }

    /// Concludes a change that gives a service account a token.
    pub fn conclude_credential(
        &mut self,
        change: Result<AccountChange, String>,
        written: Result<Option<String>, String>,
        event: AccountEvent,
        id: &str,
        now_ms: u64,
    ) -> (res: Result<ServiceAccountCredential, String>)
        ensures
            ({
                let step = change_concluded(
                    old(self)@,
                    prepared_view(change),
                    written_view(written),
                    event,
                    id@,
                    now_ms,
                );
                final(self)@ == step.0 && credential_view(res) == credential_answer(step.1)
            }),
    {
        match self.conclude(change, written, event, id, now_ms) {
            Ok(account) => Ok(
                ServiceAccountCredential {
                    service_account: show_account(&account),
                    token: account.token,
                },
            ),
            Err(message) => Err(message),
        }
    }

    /// Makes a service account in a registry without a file.
    pub fn create_service_account(
        &mut self,
        spec: ServiceAccountSpec,
        fetched: &Vec<FetchedKeys>,
    ) -> (res: Result<ServiceAccountCredential, String>)
        requires
            old(self)@.source_path is None,
            fetched.len() == old(self)@.config.oidc_providers.len(),
        ensures
            exists|token: Drawn, now_ms: u64|
                drawn_for(old(self)@.config, token) && final(self)@ == (#[trigger] create_step(
                    old(self)@,
                    spec@,
                    token,
                    views(fetched@),
                    now_ms,
                )).0 && credential_view(res) == credential_answer(
                    create_step(old(self)@, spec@, token, views(fetched@), now_ms).1,
                ),
    {
        let now_ms: u64 = unix_timestamp_millis();
        let id = owned(trim(&spec.id));
        let token = generate_unique_service_account_token(&self.config);
        let ghost drawn = drawn_view(token);
        let change = self.prepare(self.plan_create_with(&spec, token, now_ms), fetched);
        let res = self.conclude_credential(change, Ok(None), AccountEvent::Create, &id, now_ms);
        assert(final(self)@ == create_step(
            old(self)@,
            spec@,
            drawn,
            views(fetched@),
            now_ms,
        ).0);
        res
    }

    /// Describes a service account anew in a registry without a file.
    pub fn update_service_account(
        &mut self,
        spec: ServiceAccountSpec,
        fetched: &Vec<FetchedKeys>,
    ) -> (res: Result<RbacServiceAccountSnapshot, String>)
        requires
            old(self)@.source_path is None,
            fetched.len() == old(self)@.config.oidc_providers.len(),
        ensures
            exists|now_ms: u64|
                final(self)@ == (#[trigger] update_step(
                    old(self)@,
                    spec@,
                    views(fetched@),
                    now_ms,
                )).0 && snapshot_view(res) == snapshot_answer(
                    update_step(old(self)@, spec@, views(fetched@), now_ms).1,
                ),
    {
        let now_ms: u64 = unix_timestamp_millis();
        let id = owned(trim(&spec.id));
        let change = self.prepare(self.plan_update(&spec, now_ms), fetched);
        let res = self.conclude_change(change, Ok(None), AccountEvent::Update, &id, now_ms);
        assert(final(self)@ == update_step(old(self)@, spec@, views(fetched@), now_ms).0);
        res
    }

    /// Gives a service account a new token in a registry without a file.
    pub fn rotate_service_account(&mut self, id: &str, fetched: &Vec<FetchedKeys>) -> (res: Result<
        ServiceAccountCredential,
        String,
    >)
        requires
            old(self)@.source_path is None,
            fetched.len() == old(self)@.config.oidc_providers.len(),
        ensures
            exists|token: Drawn, now_ms: u64|
                drawn_for(old(self)@.config, token) && final(self)@ == (#[trigger] rotate_step(
                    old(self)@,
                    id@,
                    token,
                    views(fetched@),
                    now_ms,
                )).0 && credential_view(res) == credential_answer(
                    rotate_step(old(self)@, id@, token, views(fetched@), now_ms).1,
                ),
    {
        let now_ms: u64 = unix_timestamp_millis();
        let token = generate_unique_service_account_token(&self.config);
        let ghost drawn = drawn_view(token);
        let name = match account_name(id) {
            Ok(name) => name,
            Err(message) => {
                assert(final(self)@ == rotate_step(
                    old(self)@,
                    id@,
                    drawn,
                    views(fetched@),
                    now_ms,
                ).0);
                return Err(message);
            },
        };
        let change = self.prepare(self.plan_rotate_with(&name, token, now_ms), fetched);
        let res = self.conclude_credential(change, Ok(None), AccountEvent::Rotate, &name, now_ms);
        assert(final(self)@ == rotate_step(
            old(self)@,
            id@,
            drawn,
            views(fetched@),
            now_ms,
        ).0);
        res
    }

    /// Shuts a service account out or lets it in again, in a registry without a file.
    pub fn set_service_account_disabled(
        &mut self,
        id: &str,
        disabled: bool,
        fetched: &Vec<FetchedKeys>,
    ) -> (res: Result<RbacServiceAccountSnapshot, String>)
        requires
            old(self)@.source_path is None,
            fetched.len() == old(self)@.config.oidc_providers.len(),
        ensures
            exists|now_ms: u64|
                final(self)@ == (#[trigger] switch_step(
                    old(self)@,
                    id@,
                    disabled,
                    views(fetched@),
                    now_ms,
                )).0 && snapshot_view(res) == snapshot_answer(
                    switch_step(old(self)@, id@, disabled, views(fetched@), now_ms).1,
                ),
    {
        let now_ms: u64 = unix_timestamp_millis();
        let name = match account_name(id) {
            Ok(name) => name,
            Err(message) => {
                assert(final(self)@ == switch_step(
                    old(self)@,
                    id@,
                    disabled,
                    views(fetched@),
                    now_ms,
                ).0);
                return Err(message);
            },
        };
        let event = if disabled {
            AccountEvent::Disable
        } else {
            AccountEvent::Enable
        };
        let change = self.prepare(self.plan_switch(&name, disabled, now_ms), fetched);
        let res = self.conclude_change(change, Ok(None), event, &name, now_ms);
        assert(final(self)@ == switch_step(
            old(self)@,
            id@,
            disabled,
            views(fetched@),
            now_ms,
        ).0);
        res
    }
}

} // verus!
