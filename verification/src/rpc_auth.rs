//! Who may call the endpoints that nodes offer each other: tokens, protocol versions, capabilities
//! and verified node identities.

use vstd::prelude::*;
use vstd::string::*;
use crate::control_ownership::same_texts;
use crate::lists::{
    first_index, group_views, lemma_first_index, lemma_first_index_is, ranked_sort, sort_ranked,
    views,
};
use crate::membership::{ClusterNodeView, MembershipView};
use crate::parsing::{join_texts, joined, normal_list, normalize_list, pieces, split_char};
use crate::rpc_types::{
    DataPoint, InternalMetricMetadataUpdate, InternalRow, InternalWriteExemplar, PointValue, Row,
    INTERNAL_RPC_AUTH_HEADER, INTERNAL_RPC_CAPABILITIES_HEADER, INTERNAL_RPC_NODE_ID_HEADER,
    INTERNAL_RPC_PROTOCOL_VERSION, INTERNAL_RPC_VERIFIED_NODE_ID_HEADER,
    INTERNAL_RPC_VERSION_HEADER,
};
use crate::text::{
    cat2, cat3, cat5, clone_texts, contains_text, lowered, opt_str, opt_text, owned, same, to_lower,
    trim, trimmed,
};

verus! {

broadcast use group_views;

pub const CLUSTER_CAPABILITY_RPC_V1: &'static str = "cluster_rpc_v1";

pub const CLUSTER_CAPABILITY_CONTROL_REPLICATION_V1: &'static str = "control_replication_v1";

pub const CLUSTER_CAPABILITY_CONTROL_SNAPSHOT_RPC_V1: &'static str = "control_snapshot_rpc_v1";

pub const CLUSTER_CAPABILITY_CONTROL_STATE_V1: &'static str = "control_state_v1";

pub const CLUSTER_CAPABILITY_CONTROL_LOG_V1: &'static str = "control_log_v1";

pub const CLUSTER_CAPABILITY_CONTROL_RECOVERY_SNAPSHOT_V1: &'static str = "control_recovery_snapshot_v1";

pub const CLUSTER_CAPABILITY_CLUSTER_SNAPSHOT_V1: &'static str = "cluster_snapshot_v1";

pub const CLUSTER_CAPABILITY_METADATA_INGEST_V1: &'static str = "metadata_ingest_v1";

pub const CLUSTER_CAPABILITY_METADATA_STORE_V1: &'static str = "metadata_store_v1";

pub const CLUSTER_CAPABILITY_EXEMPLAR_INGEST_V1: &'static str = "exemplar_ingest_v1";

pub const CLUSTER_CAPABILITY_EXEMPLAR_QUERY_V1: &'static str = "exemplar_query_v1";

pub const CLUSTER_CAPABILITY_HISTOGRAM_INGEST_V1: &'static str = "histogram_ingest_v1";

pub const CLUSTER_CAPABILITY_HISTOGRAM_STORAGE_V1: &'static str = "histogram_storage_v1";

/// The capabilities of this version of the library.
pub open spec fn default_capabilities() -> Seq<Seq<char>> {
    seq![
        CLUSTER_CAPABILITY_RPC_V1@,
        CLUSTER_CAPABILITY_CONTROL_REPLICATION_V1@,
        CLUSTER_CAPABILITY_CONTROL_SNAPSHOT_RPC_V1@,
        CLUSTER_CAPABILITY_CONTROL_STATE_V1@,
        CLUSTER_CAPABILITY_CONTROL_LOG_V1@,
        CLUSTER_CAPABILITY_CONTROL_RECOVERY_SNAPSHOT_V1@,
        CLUSTER_CAPABILITY_CLUSTER_SNAPSHOT_V1@,
        CLUSTER_CAPABILITY_METADATA_INGEST_V1@,
        CLUSTER_CAPABILITY_METADATA_STORE_V1@,
        CLUSTER_CAPABILITY_EXEMPLAR_INGEST_V1@,
        CLUSTER_CAPABILITY_EXEMPLAR_QUERY_V1@,
        CLUSTER_CAPABILITY_HISTOGRAM_INGEST_V1@,
        CLUSTER_CAPABILITY_HISTOGRAM_STORAGE_V1@,
    ]
}

/// The capabilities of this version of the library.
pub fn default_cluster_capabilities() -> (res: [&'static str; 13])
    ensures
        forall|i: int| 0 <= i < 13 ==> (#[trigger] res@[i])@ == default_capabilities()[i],
{
    [
        CLUSTER_CAPABILITY_RPC_V1,
        CLUSTER_CAPABILITY_CONTROL_REPLICATION_V1,
        CLUSTER_CAPABILITY_CONTROL_SNAPSHOT_RPC_V1,
        CLUSTER_CAPABILITY_CONTROL_STATE_V1,
        CLUSTER_CAPABILITY_CONTROL_LOG_V1,
        CLUSTER_CAPABILITY_CONTROL_RECOVERY_SNAPSHOT_V1,
        CLUSTER_CAPABILITY_CLUSTER_SNAPSHOT_V1,
        CLUSTER_CAPABILITY_METADATA_INGEST_V1,
        CLUSTER_CAPABILITY_METADATA_STORE_V1,
        CLUSTER_CAPABILITY_EXEMPLAR_INGEST_V1,
        CLUSTER_CAPABILITY_EXEMPLAR_QUERY_V1,
        CLUSTER_CAPABILITY_HISTOGRAM_INGEST_V1,
        CLUSTER_CAPABILITY_HISTOGRAM_STORAGE_V1,
    ]
}

/// What a peer must be able to do to take exemplars.
pub open spec fn exemplar_capabilities() -> Seq<Seq<char>> {
    seq![CLUSTER_CAPABILITY_EXEMPLAR_INGEST_V1@]
}

/// What a peer must be able to do to take metadata.
pub open spec fn metadata_capabilities() -> Seq<Seq<char>> {
    seq![CLUSTER_CAPABILITY_METADATA_INGEST_V1@, CLUSTER_CAPABILITY_METADATA_STORE_V1@]
}

/// What a peer must be able to do to take histograms.
pub open spec fn histogram_capabilities() -> Seq<Seq<char>> {
    seq![CLUSTER_CAPABILITY_HISTOGRAM_INGEST_V1@, CLUSTER_CAPABILITY_HISTOGRAM_STORAGE_V1@]
}

/// Trims, sorts and deduplicates capabilities and drops empty ones.
pub fn normalize_capabilities(capabilities: Vec<String>) -> (res: Vec<String>)
    ensures
        views(res@) == normal_list(views(capabilities@)),
{
    normalize_list(&capabilities)
}

/// Some texts, each trimmed, without those that are then empty.
pub open spec fn trimmed_items(list: Seq<Seq<char>>) -> Seq<Seq<char>>
    decreases list.len(),
{
    if list.len() == 0 {
        list
    } else {
        let before = trimmed_items(list.drop_last());
        let item = trimmed(list.last());
        if item.len() == 0 {
            before
        } else {
            before.push(item)
        }
    }
}

/// The capabilities that a header lists, with commas between them.
pub open spec fn header_capabilities(header: Option<Seq<char>>) -> Seq<Seq<char>> {
    match header {
        Some(text) => trimmed_items(pieces(text, ',')),
        None => Seq::empty(),
    }
}

/// Reads the capabilities that a header lists, with commas between them.
pub fn parse_capabilities_header(header: Option<&str>) -> (res: Vec<String>)
    ensures
        views(res@) == header_capabilities(opt_str(header)),
{
    let mut out: Vec<String> = Vec::new();
    assert(views(out@) =~= Seq::<Seq<char>>::empty());
    let text = match header {
        Some(text) => text,
        None => {
            return out;
        },
    };
    let list = split_char(text, ',');
    let ghost all = views(list@);
    let mut i: usize = 0;
    assert(views(out@) =~= trimmed_items(all.take(0)));
    while i < list.len()
        invariant
            i <= list.len(),
            all == views(list@),
            views(out@) == trimmed_items(all.take(i as int)),
        decreases list.len() - i,
    {
        assert(all.take(i + 1).drop_last() =~= all.take(i as int));
        assert(all.take(i + 1).last() == list@[i as int]@);
        let item = trim(&list[i]);
        if !item.is_empty() {
            out.push(owned(item));
        }
        i += 1;
    }
    assert(all.take(i as int) =~= all);
    out
}

/// Whether a point is a histogram.
pub open spec fn is_histogram(point: DataPoint) -> bool {
    point.value is Histogram
}

/// Whether one of the rows holds a histogram.
pub open spec fn rows_with_histogram(rows: Seq<InternalRow>) -> bool {
    exists|i: int| 0 <= i < rows.len() && is_histogram((#[trigger] rows[i]).data_point)
}

fn any_histogram(rows: &Vec<InternalRow>) -> (res: bool)
    ensures
        res == rows_with_histogram(rows@),
{
    let mut i: usize = 0;
    while i < rows.len()
        invariant
            i <= rows.len(),
            forall|j: int| 0 <= j < i ==> !is_histogram((#[trigger] rows@[j]).data_point),
        decreases rows.len() - i,
    {
        if matches!(rows[i].data_point.value, PointValue::Histogram { .. }) {
            assert(is_histogram(rows@[i as int].data_point));
            return true;
        }
        i += 1;
    }
    false
}

/// What a peer must be able to do to take rows.
pub fn required_capabilities_for_rows(rows: &Vec<Row>) -> (res: Vec<String>)
    ensures
        views(res@) == (if exists|i: int|
            0 <= i < rows.len() && is_histogram((#[trigger] rows@[i]).data_point) {
            normal_list(histogram_capabilities())
        } else {
            Seq::empty()
        }),
{
    let mut i: usize = 0;
    while i < rows.len()
        invariant
            i <= rows.len(),
            forall|j: int| 0 <= j < i ==> !is_histogram((#[trigger] rows@[j]).data_point),
        decreases rows.len() - i,
    {
        if matches!(rows[i].data_point.value, PointValue::Histogram { .. }) {
            assert(is_histogram(rows@[i as int].data_point));
            let mut required: Vec<String> = Vec::new();
            push_histogram_capabilities(&mut required);
            assert(views(required@) =~= histogram_capabilities());
            return normalize_list(&required);
        }
        i += 1;
    }
    let none: Vec<String> = Vec::new();
    assert(views(none@) =~= Seq::<Seq<char>>::empty());
    none
}

fn push_histogram_capabilities(required: &mut Vec<String>)
    ensures
        views(final(required)@) == views(old(required)@) + histogram_capabilities(),
{
    let ghost before = views(required@);
    required.push(owned(CLUSTER_CAPABILITY_HISTOGRAM_INGEST_V1));
    required.push(owned(CLUSTER_CAPABILITY_HISTOGRAM_STORAGE_V1));
    assert(views(required@) =~= before + histogram_capabilities());
}

/// What is asked of a peer that takes rows: what was asked for, and what histograms need.
pub open spec fn row_capabilities(
    rows: Seq<InternalRow>,
    explicit: Seq<Seq<char>>,
) -> Seq<Seq<char>> {
    if rows_with_histogram(rows) {
        normal_list(explicit + histogram_capabilities())
    } else {
        normal_list(explicit)
    }
}

/// What a peer must be able to do to take rows.
pub fn required_capabilities_for_internal_rows(
    rows: &Vec<InternalRow>,
    explicit_capabilities: &Vec<String>,
) -> (res: Vec<String>)
    ensures
        views(res@) == row_capabilities(rows@, views(explicit_capabilities@)),
{
    let mut required = clone_texts(explicit_capabilities);
    if any_histogram(rows) {
        push_histogram_capabilities(&mut required);
    }
    normalize_list(&required)
}

/// What is asked of a peer that takes a write.
pub open spec fn write_capabilities(
    rows: Seq<InternalRow>,
    exemplars: nat,
    metadata_updates: nat,
    explicit: Seq<Seq<char>>,
) -> Seq<Seq<char>> {
    let of_rows = row_capabilities(rows, explicit);
    let with_metadata = if metadata_updates > 0 {
        of_rows + metadata_capabilities()
    } else {
        of_rows
    };
    let with_exemplars = if exemplars > 0 {
        with_metadata + exemplar_capabilities()
    } else {
        with_metadata
    };
    normal_list(with_exemplars)
}

/// What a peer must be able to do to take a write.
pub fn required_capabilities_for_internal_write(
    rows: &Vec<InternalRow>,
    exemplars: &Vec<InternalWriteExemplar>,
    metadata_updates: &Vec<InternalMetricMetadataUpdate>,
    explicit_capabilities: &Vec<String>,
) -> (res: Vec<String>)
    ensures
        views(res@) == write_capabilities(
            rows@,
            exemplars@.len(),
            metadata_updates@.len(),
            views(explicit_capabilities@),
        ),
{
    let mut required = required_capabilities_for_internal_rows(rows, explicit_capabilities);
    let ghost of_rows = views(required@);
    if metadata_updates.len() > 0 {
        required.push(owned(CLUSTER_CAPABILITY_METADATA_INGEST_V1));
        required.push(owned(CLUSTER_CAPABILITY_METADATA_STORE_V1));
        assert(views(required@) =~= of_rows + metadata_capabilities());
    }
    let ghost with_metadata = views(required@);
    if exemplars.len() > 0 {
        required.push(owned(CLUSTER_CAPABILITY_EXEMPLAR_INGEST_V1));
        assert(views(required@) =~= with_metadata + exemplar_capabilities());
    }
    normalize_list(&required)
}

/// What a node can do.
#[derive(Debug, PartialEq, Eq)]
pub struct CompatibilityProfile {
    pub capabilities: Vec<String>,
}

impl Default for CompatibilityProfile {
    fn default() -> (res: Self)
        ensures
            views(res.capabilities@) == normal_list(default_capabilities()),
    {
        let defaults = default_cluster_capabilities();
        let mut list: Vec<String> = Vec::new();
        let mut i: usize = 0;
        while i < 13
            invariant
                i <= 13,
                list.len() == i,
                forall|k: int| 0 <= k < 13 ==> (#[trigger] defaults@[k])@
                    == default_capabilities()[k],
                forall|k: int| 0 <= k < i ==> (#[trigger] views(list@)[k])
                    == default_capabilities()[k],
            decreases 13 - i,
        {
            list.push(owned(defaults[i]));
            i += 1;
        }
        assert(views(list@) =~= default_capabilities());
        CompatibilityProfile { capabilities: normalize_list(&list) }
    }
}

impl Clone for CompatibilityProfile {
    fn clone(&self) -> (res: Self)
        ensures
            res.capabilities@ == self.capabilities@,
    {
        CompatibilityProfile { capabilities: clone_texts(&self.capabilities) }
    }
}

impl CompatibilityProfile {
    /// A profile with the given capabilities.
    pub fn with_capabilities(self, capabilities: Vec<String>) -> (res: Self)
        ensures
            views(res.capabilities@) == normal_list(views(capabilities@)),
    {
        CompatibilityProfile { capabilities: normalize_list(&capabilities) }
    }
}

/// A secret that may have been replaced a short time ago.
#[derive(Debug, PartialEq, Eq)]
pub struct ManagedStringSecret {
    pub current: String,
    pub previous: Option<String>,
}

/// What a [`ManagedStringSecret`] holds.
pub struct SecretView {
    pub current: Seq<char>,
    pub previous: Option<Seq<char>>,
}

impl View for ManagedStringSecret {
    type V = SecretView;

    open spec fn view(&self) -> SecretView {
        SecretView { current: self.current@, previous: opt_text(self.previous) }
    }
}

/// Whether a text is the current secret, or the previous one where that still counts.
pub open spec fn secret_matches(secret: SecretView, provided: Option<Seq<char>>) -> bool {
    provided is Some && (provided == Some(secret.current) || provided == secret.previous)
}

impl ManagedStringSecret {
    /// Whether a text is a secret that counts now.
    pub fn matches(&self, provided: Option<&str>) -> (res: bool)
        ensures
            res == secret_matches(self@, opt_str(provided)),
    {
        match provided {
            Some(text) => {
                if same(text, &self.current) {
                    return true;
                }
                match &self.previous {
                    Some(previous) => same(text, previous),
                    None => false,
                }
            },
            None => false,
        }
    }
}

/// How this node guards the endpoints for other nodes.
#[derive(Debug)]
pub struct InternalApiConfig {
    pub auth_token: String,
    pub protocol_version: String,
    pub require_mtls: bool,
    pub allowed_node_ids: Vec<String>,
    pub compatibility: CompatibilityProfile,
    pub auth_runtime: Option<ManagedStringSecret>,
}

/// What an [`InternalApiConfig`] holds.
pub struct ApiView {
    pub auth_token: Seq<char>,
    pub protocol_version: Seq<char>,
    pub require_mtls: bool,
    pub allowed_node_ids: Seq<Seq<char>>,
    pub capabilities: Seq<Seq<char>>,
    pub auth_runtime: Option<SecretView>,
}

impl View for InternalApiConfig {
    type V = ApiView;

    open spec fn view(&self) -> ApiView {
        ApiView {
            auth_token: self.auth_token@,
            protocol_version: self.protocol_version@,
            require_mtls: self.require_mtls,
            allowed_node_ids: views(self.allowed_node_ids@),
            capabilities: views(self.compatibility.capabilities@),
            auth_runtime: match self.auth_runtime {
                Some(secret) => Some(secret@),
                None => None,
            },
        }
    }
}

/// Whether two guards are set up alike, whatever secrets are managed for them.
pub open spec fn same_api(a: ApiView, b: ApiView) -> bool {
    ApiView { auth_runtime: b.auth_runtime, ..a } == b
}

impl PartialEq for InternalApiConfig {
    fn eq(&self, other: &Self) -> (res: bool) {
        same(&self.auth_token, &other.auth_token) && same(
            &self.protocol_version,
            &other.protocol_version,
        ) && self.require_mtls == other.require_mtls && same_texts(
            &self.allowed_node_ids,
            &other.allowed_node_ids,
        ) && same_texts(&self.compatibility.capabilities, &other.compatibility.capabilities)
    }
}

impl vstd::std_specs::cmp::PartialEqSpecImpl for InternalApiConfig {
    open spec fn obeys_eq_spec() -> bool {
        true
    }

    open spec fn eq_spec(&self, other: &Self) -> bool {
        same_api(self@, other@)
    }
}

impl Eq for InternalApiConfig {

}

/// A guard with the default capabilities and no managed secret.
pub open spec fn new_api(
    auth_token: Seq<char>,
    protocol_version: Seq<char>,
    require_mtls: bool,
    allowed_node_ids: Seq<Seq<char>>,
) -> ApiView {
    ApiView {
        auth_token,
        protocol_version,
        require_mtls,
        allowed_node_ids: normal_list(allowed_node_ids),
        capabilities: normal_list(default_capabilities()),
        auth_runtime: None,
    }
}

/// Whether a token is accepted: by the managed secret where there is one, else by the fixed token.
pub open spec fn token_accepted(api: ApiView, provided: Option<Seq<char>>) -> bool {
    match api.auth_runtime {
        Some(secret) => secret_matches(secret, provided),
        None => provided == Some(api.auth_token),
    }
}

/// The ids of some nodes.
pub open spec fn node_ids(nodes: Seq<ClusterNodeView>) -> Seq<Seq<char>> {
    Seq::new(nodes.len(), |i: int| nodes[i].id)
}

/// The guard that a membership asks for: with the given token, or with one derived from the
/// membership where nodes prove their identity by certificates; else a token is asked for.
pub open spec fn api_from_membership(
    nodes: Seq<ClusterNodeView>,
    require_mtls: bool,
    auth_token: Option<Seq<char>>,
) -> Result<ApiView, Seq<char>> {
    let given = match auth_token {
        Some(token) => if trimmed(token).len() == 0 {
            None
        } else {
            Some(trimmed(token))
        },
        None => None,
    };
    let token = if given is Some {
        given
    } else if require_mtls {
        Some(shared_token(nodes))
    } else {
        None
    };
    match token {
        Some(text) => Ok(
            new_api(text, INTERNAL_RPC_PROTOCOL_VERSION@, require_mtls, node_ids(nodes)),
        ),
        None => Err(
            "--cluster-internal-auth-token is required when --cluster-internal-mtls-enabled=false"@,
        ),
    }
}

/// A guard, or the message that says why there is none.
pub open spec fn api_result(result: Result<InternalApiConfig, String>) -> Result<
    ApiView,
    Seq<char>,
> {
    match result {
        Ok(api) => Ok(api@),
        Err(message) => Err(message@),
    }
}

impl InternalApiConfig {
    /// A guard with the default capabilities.
    pub fn new(
        auth_token: String,
        protocol_version: String,
        require_mtls: bool,
        allowed_node_ids: Vec<String>,
    ) -> (res: Self)
        ensures
            res@ == new_api(
                auth_token@,
                protocol_version@,
                require_mtls,
                views(allowed_node_ids@),
            ),
    {
        InternalApiConfig {
            auth_token,
            protocol_version,
            require_mtls,
            allowed_node_ids: normalize_list(&allowed_node_ids),
            compatibility: CompatibilityProfile::default(),
            auth_runtime: None,
        }
    }

    /// The same guard with another profile.
    pub fn with_compatibility(self, compatibility: CompatibilityProfile) -> (res: Self)
        ensures
            res@ == (ApiView { capabilities: views(compatibility.capabilities@), ..self@ }),
    {
        InternalApiConfig {
            auth_token: self.auth_token,
            protocol_version: self.protocol_version,
            require_mtls: self.require_mtls,
            allowed_node_ids: self.allowed_node_ids,
            compatibility,
            auth_runtime: self.auth_runtime,
        }
    }

    /// Lets a managed secret take the place of the fixed token.
    pub fn set_auth_runtime(&mut self, auth_runtime: ManagedStringSecret)
        ensures
            final(self)@ == (ApiView { auth_runtime: Some(auth_runtime@), ..old(self)@ }),
    {
        self.auth_runtime = Some(auth_runtime);
    }

    /// Whether a token is accepted.
    pub fn auth_token_matches(&self, provided: Option<&str>) -> (res: bool)
        ensures
            res == token_accepted(self@, opt_str(provided)),
    {
        match &self.auth_runtime {
            Some(secret) => secret.matches(provided),
            None => match provided {
                Some(text) => same(text, &self.auth_token),
                None => false,
            },
        }
    }

    /// The guard that a membership asks for.
    pub fn from_membership(
        membership: &MembershipView,
        require_mtls: bool,
        auth_token: Option<&str>,
    ) -> (res: Result<Self, String>)
        ensures
            api_result(res) == api_from_membership(
                views(membership.nodes@),
                require_mtls,
                opt_str(auth_token),
            ),
    {
        let ghost nodes = views(membership.nodes@);
        let mut ids: Vec<String> = Vec::new();
        let mut i: usize = 0;
        while i < membership.nodes.len()
            invariant
                i <= membership.nodes.len(),
                nodes == views(membership.nodes@),
                ids.len() == i,
                forall|k: int| 0 <= k < i ==> #[trigger] views(ids@)[k] == nodes[k].id,
            decreases membership.nodes.len() - i,
        {
            assert(nodes[i as int] == membership.nodes@[i as int]@);
            ids.push(membership.nodes[i].id.clone());
            i += 1;
        }
        assert(views(ids@) =~= node_ids(nodes));
        let given: Option<String> = match auth_token {
            Some(token) => {
                let text = trim(token);
                if text.is_empty() {
                    None
                } else {
                    Some(owned(text))
                }
            },
            None => None,
        };
        let token = match given {
            Some(token) => token,
            None => {
                if !require_mtls {
                    return Err(
                        owned(
                            "--cluster-internal-auth-token is required when --cluster-internal-mtls-enabled=false",
                        ),
                    );
                }
                derive_shared_internal_token(membership)
            },
        };
        Ok(
            InternalApiConfig::new(
                token,
                owned(INTERNAL_RPC_PROTOCOL_VERSION),
                require_mtls,
                ids,
            ),
        )
    }
}

// ---------------------------------------------------------------------------------------------
// The token that a membership stands for
// ---------------------------------------------------------------------------------------------

/// One step of the 64-bit FNV-1a hash.
pub open spec fn fnv1a_step(hash: u64, byte: u8) -> u64 {
    vstd::wrapping::u64_specs::wrapping_mul(hash ^ (byte as u64), 0x100000001b3)
}

/// The 64-bit FNV-1a hash of some bytes.
pub open spec fn fnv1a(bytes: Seq<u8>) -> u64
    decreases bytes.len(),
{
    if bytes.len() == 0 {
        0xcbf29ce484222325
    } else {
        fnv1a_step(fnv1a(bytes.drop_last()), bytes.last())
    }
}

/// The 64-bit FNV-1a hash of some bytes.
pub fn stable_fnv1a64(bytes: &[u8]) -> (res: u64)
    ensures
        res == fnv1a(bytes@),
{
    let mut hash: u64 = 0xcbf29ce484222325;
    let mut i: usize = 0;
    while i < bytes.len()
        invariant
            i <= bytes.len(),
            hash == fnv1a(bytes@.take(i as int)),
        decreases bytes.len() - i,
    {
        assert(bytes@.take(i + 1).drop_last() =~= bytes@.take(i as int));
        hash = (hash ^ (bytes[i] as u64)).wrapping_mul(0x100000001b3);
        i += 1;
    }
    assert(bytes@.take(i as int) =~= bytes@);
    hash
}

/// The hexadecimal digit `d` as text, for `d` below sixteen.
pub open spec fn hex_digit(d: nat) -> Seq<char> {
    if d < 10 {
        crate::text::digit_text(d)
    } else if d == 10 {
        "a"@
    } else if d == 11 {
        "b"@
    } else if d == 12 {
        "c"@
    } else if d == 13 {
        "d"@
    } else if d == 14 {
        "e"@
    } else {
        "f"@
    }
}

/// The hexadecimal numeral of `n` with at least `width` digits.
pub open spec fn hex(n: nat, width: nat) -> Seq<char>
    decreases n + width,
{
    if n < 16 && width <= 1 {
        hex_digit(n)
    } else {
        hex(
            n / 16,
            if width > 0 {
                (width - 1) as nat
            } else {
                0
            },
        ) + hex_digit(n % 16)
    }
}

fn hex_digit_text(d: u64) -> (res: String)
    requires
        d < 16,
    ensures
        res@ == hex_digit(d as nat),
{
    if d < 10 {
        crate::text::number(d)
    } else if d == 10 {
        owned("a")
    } else if d == 11 {
        owned("b")
    } else if d == 12 {
        owned("c")
    } else if d == 13 {
        owned("d")
    } else if d == 14 {
        owned("e")
    } else {
        owned("f")
    }
}

fn hex_text(n: u64, width: u64) -> (res: String)
    requires
        width <= 64,
    ensures
        res@ == hex(n as nat, width as nat),
    decreases n + width,
{
    if n < 16 && width <= 1 {
        hex_digit_text(n)
    } else {
        let narrower: u64 = if width > 0 {
            width - 1
        } else {
            0
        };
        let head = hex_text(n / 16, narrower);
        head.concat(hex_digit_text(n % 16).as_str())
    }
}

/// How a node enters the token: its id and endpoint, trimmed and in lower case.
pub open spec fn node_signature(node: ClusterNodeView) -> Seq<char> {
    lowered(trimmed(node.id)) + "@"@ + lowered(trimmed(node.endpoint))
}

/// The signatures of some nodes.
pub open spec fn node_signatures(nodes: Seq<ClusterNodeView>) -> Seq<Seq<char>> {
    Seq::new(nodes.len(), |i: int| node_signature(nodes[i]))
}

/// The token that some nodes share: a hash of their sorted signatures.
pub open spec fn shared_token(nodes: Seq<ClusterNodeView>) -> Seq<char> {
    "tsink-cluster-0x"@ + hex(
        fnv1a(
            vstd::utf8::encode_utf8(joined(ranked_sort::<String>(node_signatures(nodes)), ","@)),
        ) as nat,
        14,
    )
}

/// The token that the nodes of a membership share.
pub fn derive_shared_internal_token(membership: &MembershipView) -> (res: String)
    ensures
        res@ == shared_token(views(membership.nodes@)),
{
    let ghost nodes = views(membership.nodes@);
    let mut signatures: Vec<String> = Vec::new();
    let mut i: usize = 0;
    while i < membership.nodes.len()
        invariant
            i <= membership.nodes.len(),
            nodes == views(membership.nodes@),
            signatures.len() == i,
            forall|k: int|
                0 <= k < i ==> #[trigger] views(signatures@)[k] == node_signature(nodes[k]),
        decreases membership.nodes.len() - i,
    {
        let node = &membership.nodes[i];
        assert(nodes[i as int] == node@);
        signatures.push(
            cat3(
                to_lower(trim(&node.id)).as_str(),
                "@",
                to_lower(trim(&node.endpoint)).as_str(),
            ),
        );
        i += 1;
    }
    assert(views(signatures@) =~= node_signatures(nodes));
    let sorted = sort_ranked(signatures);
    let text = join_texts(&sorted, ",");
    let hash = stable_fnv1a64(text.as_str().as_bytes());
    cat2("tsink-cluster-0x", hex_text(hash, 14).as_str())
}

/// A node as it enters the token: its id and endpoint without the space around them, in lower case.
pub open spec fn plain_node(node: ClusterNodeView) -> ClusterNodeView {
    ClusterNodeView {
        id: lowered(trimmed(node.id)),
        endpoint: lowered(trimmed(node.endpoint)),
    }
}

/// Some nodes as they enter the token.
pub open spec fn plain_nodes(nodes: Seq<ClusterNodeView>) -> Seq<ClusterNodeView> {
    Seq::new(nodes.len(), |i: int| plain_node(nodes[i]))
}

/// The token that some nodes share depends neither on the order in which they are listed, nor on
/// space around their ids and endpoints, nor on the case of these.
pub proof fn law_shared_token_invariant(a: Seq<ClusterNodeView>, b: Seq<ClusterNodeView>)
    requires
        plain_nodes(a).to_multiset() == plain_nodes(b).to_multiset(),
    ensures
        shared_token(a) == shared_token(b),
        "tsink-cluster-0x"@.is_prefix_of(shared_token(a)),
{
    assert(node_signatures(a) =~= signatures_of(plain_nodes(a)));
    assert(node_signatures(b) =~= signatures_of(plain_nodes(b)));
    lemma_signature_multiset(plain_nodes(a), plain_nodes(b));
    crate::lists::lemma_text_sort_unique(node_signatures(a), node_signatures(b));
}

spec fn signature_of(node: ClusterNodeView) -> Seq<char> {
    node.id + "@"@ + node.endpoint
}

spec fn signatures_of(nodes: Seq<ClusterNodeView>) -> Seq<Seq<char>> {
    Seq::new(nodes.len(), |i: int| signature_of(nodes[i]))
}

proof fn lemma_signature_multiset(a: Seq<ClusterNodeView>, b: Seq<ClusterNodeView>)
    requires
        a.to_multiset() == b.to_multiset(),
    ensures
        signatures_of(a).to_multiset() == signatures_of(b).to_multiset(),
    decreases a.len(),
{
    broadcast use vstd::seq_lib::group_to_multiset_ensures;

    assert(a.to_multiset().len() == a.len());
    assert(b.to_multiset().len() == b.len());
    if a.len() == 0 {
        assert(signatures_of(a) =~= signatures_of(b));
    } else {
        let x = a.last();
        assert(a.contains(x));
        assert(a.to_multiset().count(x) > 0);
        assert(b.contains(x));
        let k = choose|k: int| 0 <= k < b.len() && b[k] == x;
        let rest = b.remove(k);
        assert(a.drop_last() =~= a.remove(a.len() - 1));
        assert(a.drop_last().to_multiset() =~= a.to_multiset().remove(x));
        assert(rest.to_multiset() =~= b.to_multiset().remove(x));
        lemma_signature_multiset(a.drop_last(), rest);
        assert(signatures_of(a) =~= signatures_of(a.drop_last()).push(signature_of(x)));
        assert(signatures_of(rest) =~= signatures_of(b).remove(k));
        assert(signatures_of(b)[k] == signature_of(x));
        assert(signatures_of(b).to_multiset() =~= signatures_of(rest).to_multiset().insert(
            signature_of(x),
        ));
        assert(signatures_of(a).to_multiset() =~= signatures_of(
            a.drop_last(),
        ).to_multiset().insert(signature_of(x)));
    }
}

// ---------------------------------------------------------------------------------------------
// Requests, answers and the decision
// ---------------------------------------------------------------------------------------------

/// A header of a request or an answer.
#[derive(Debug, PartialEq, Eq)]
pub struct HttpHeader {
    pub name: String,
    pub value: String,
}

/// What an [`HttpHeader`] holds.
pub struct HeaderView {
    pub name: Seq<char>,
    pub value: Seq<char>,
}

impl View for HttpHeader {
    type V = HeaderView;

    open spec fn view(&self) -> HeaderView {
        HeaderView { name: self.name@, value: self.value@ }
    }
}

/// A request; the names of its headers are in lower case.
#[derive(Debug, PartialEq, Eq)]
pub struct HttpRequest {
    pub method: String,
    pub path: String,
    pub headers: Vec<HttpHeader>,
    pub body: Vec<u8>,
}

/// The value of the first header with a name.
pub open spec fn header_value(headers: Seq<HeaderView>, name: Seq<char>) -> Option<Seq<char>> {
    match first_index(headers, |header: HeaderView| header.name == name) {
        Some(i) => Some(headers[i].value),
        None => None,
    }
}

/// The value of the first header with a name.
pub(crate) fn find_header<'a>(headers: &'a Vec<HttpHeader>, name: &str) -> (res: Option<&'a str>)
    ensures
        opt_str(res) == header_value(views(headers@), name@),
{
    let ghost all = views(headers@);
    let mut i: usize = 0;
    while i < headers.len()
        invariant
            i <= headers.len(),
            all == views(headers@),
            forall|j: int| 0 <= j < i ==> (#[trigger] all[j]).name != name@,
        decreases headers.len() - i,
    {
        assert(all[i as int] == headers@[i as int]@);
        if same(&headers[i].name, name) {
            proof {
                lemma_first_index_is(all, |header: HeaderView| header.name == name@, i as int);
            }
            return Some(headers[i].value.as_str());
        }
        i += 1;
    }
    proof {
        lemma_first_index(all, |header: HeaderView| header.name == name@);
    }
    None
}

impl HttpRequest {
    /// The value of a header.
    pub fn header(&self, name: &str) -> (res: Option<&str>)
        ensures
            opt_str(res) == header_value(views(self.headers@), name@),
    {
        find_header(&self.headers, name)
    }
}

/// What an endpoint answers when it refuses a request.
#[derive(Debug, PartialEq, Eq)]
pub struct InternalErrorResponse {
    pub code: String,
    pub error: String,
    pub retryable: bool,
    pub expected_protocol_version: Option<String>,
    pub received_protocol_version: Option<String>,
    pub required_capabilities: Vec<String>,
    pub received_capabilities: Vec<String>,
    pub missing_capabilities: Vec<String>,
}

/// What an [`InternalErrorResponse`] holds.
pub struct ErrorView {
    pub code: Seq<char>,
    pub error: Seq<char>,
    pub retryable: bool,
    pub expected_protocol_version: Option<Seq<char>>,
    pub received_protocol_version: Option<Seq<char>>,
    pub required_capabilities: Seq<Seq<char>>,
    pub received_capabilities: Seq<Seq<char>>,
    pub missing_capabilities: Seq<Seq<char>>,
}

impl View for InternalErrorResponse {
    type V = ErrorView;

    open spec fn view(&self) -> ErrorView {
        ErrorView {
            code: self.code@,
            error: self.error@,
            retryable: self.retryable,
            expected_protocol_version: opt_text(self.expected_protocol_version),
            received_protocol_version: opt_text(self.received_protocol_version),
            required_capabilities: views(self.required_capabilities@),
            received_capabilities: views(self.received_capabilities@),
            missing_capabilities: views(self.missing_capabilities@),
        }
    }
}

/// The body of an answer: a text, or an error that is sent as JSON.
#[derive(Debug, PartialEq, Eq)]
pub enum HttpBody {
    Text(String),
    Error(InternalErrorResponse),
}

/// What an [`HttpBody`] holds.
pub enum BodyView {
    Text(Seq<char>),
    Error(ErrorView),
}

/// An answer.
#[derive(Debug, PartialEq, Eq)]
pub struct HttpResponse {
    pub status: u16,
    pub headers: Vec<HttpHeader>,
    pub body: HttpBody,
}

/// What an [`HttpResponse`] holds.
pub struct ResponseView {
    pub status: u16,
    pub headers: Seq<HeaderView>,
    pub body: BodyView,
}

impl View for HttpResponse {
    type V = ResponseView;

    open spec fn view(&self) -> ResponseView {
        ResponseView {
            status: self.status,
            headers: views(self.headers@),
            body: match self.body {
                HttpBody::Text(text) => BodyView::Text(text@),
                HttpBody::Error(error) => BodyView::Error(error@),
            },
        }
    }
}

/// An error with nothing but a code and a message.
pub open spec fn plain_error(code: Seq<char>, error: Seq<char>, retryable: bool) -> ErrorView {
    ErrorView {
        code,
        error,
        retryable,
        expected_protocol_version: None,
        received_protocol_version: None,
        required_capabilities: Seq::empty(),
        received_capabilities: Seq::empty(),
        missing_capabilities: Seq::empty(),
    }
}

/// An answer that carries an error.
pub open spec fn error_answer(status: u16, error: ErrorView) -> ResponseView {
    ResponseView { status, headers: Seq::empty(), body: BodyView::Error(error) }
}

/// The answer to a request with another protocol version.
pub open spec fn mismatch_answer(expected: Seq<char>, received: Option<Seq<char>>) -> ResponseView {
    let shown = match received {
        Some(version) => version,
        None => "<missing>"@,
    };
    error_answer(
        409,
        ErrorView {
            expected_protocol_version: Some(expected),
            received_protocol_version: received,
            ..plain_error(
                "protocol_version_mismatch"@,
                "protocol version mismatch: expected '"@ + expected + "', received '"@ + shown
                    + "'"@,
                false,
            )
        },
    )
}

/// The answer to a peer that lacks capabilities.
pub open spec fn capability_answer(
    required: Seq<Seq<char>>,
    received: Seq<Seq<char>>,
    missing: Seq<Seq<char>>,
) -> ResponseView {
    error_answer(
        409,
        ErrorView {
            required_capabilities: required,
            received_capabilities: received,
            missing_capabilities: missing,
            ..plain_error(
                "peer_capability_missing"@,
                "peer is missing required capabilities: "@ + joined(missing, ", "@),
                false,
            )
        },
    )
}

/// The answer to a request without a valid token.
pub open spec fn unauthorized_answer() -> ResponseView {
    ResponseView {
        headers: seq![HeaderView { name: "WWW-Authenticate"@, value: "TsinkInternal"@ }],
        ..error_answer(
            401,
            plain_error(
                "internal_auth_failed"@,
                "internal endpoint authentication failed"@,
                false,
            ),
        )
    }
}

/// The answer to a peer whose identity is not accepted.
pub open spec fn identity_answer(message: Seq<char>) -> ResponseView {
    error_answer(401, plain_error("internal_mtls_auth_failed"@, message, false))
}

fn no_texts() -> (res: Vec<String>)
    ensures
        views(res@) == Seq::<Seq<char>>::empty(),
{
    let res: Vec<String> = Vec::new();
    assert(views(res@) =~= Seq::<Seq<char>>::empty());
    res
}

fn no_headers() -> (res: Vec<HttpHeader>)
    ensures
        views(res@) == Seq::<HeaderView>::empty(),
{
    let res: Vec<HttpHeader> = Vec::new();
    assert(views(res@) =~= Seq::<HeaderView>::empty());
    res
}

/// An answer that carries a text.
pub fn text_response(status: u16, text: &str) -> (res: HttpResponse)
    ensures
        res@ == (ResponseView { status, headers: Seq::empty(), body: BodyView::Text(text@) }),
{
    HttpResponse { status, headers: no_headers(), body: HttpBody::Text(owned(text)) }
}

/// An answer that carries an error.
pub fn internal_error_response(status: u16, code: String, message: String, retryable: bool) -> (res:
    HttpResponse)
    ensures
        res@ == error_answer(status, plain_error(code@, message@, retryable)),
{
    HttpResponse {
        status,
        headers: no_headers(),
        body: HttpBody::Error(
            InternalErrorResponse {
                code,
                error: message,
                retryable,
                expected_protocol_version: None,
                received_protocol_version: None,
                required_capabilities: no_texts(),
                received_capabilities: no_texts(),
                missing_capabilities: no_texts(),
            },
        ),
    }
}

/// The answer to a request with another protocol version.
pub fn protocol_mismatch_response(
    expected_protocol_version: &str,
    received_protocol_version: Option<&str>,
) -> (res: HttpResponse)
    ensures
        res@ == mismatch_answer(expected_protocol_version@, opt_str(received_protocol_version)),
{
    let shown = match received_protocol_version {
        Some(version) => version,
        None => "<missing>",
    };
    HttpResponse {
        status: 409,
        headers: no_headers(),
        body: HttpBody::Error(
            InternalErrorResponse {
                code: owned("protocol_version_mismatch"),
                error: cat5(
                    "protocol version mismatch: expected '",
                    expected_protocol_version,
                    "', received '",
                    shown,
                    "'",
                ),
                retryable: false,
                expected_protocol_version: Some(owned(expected_protocol_version)),
                received_protocol_version: match received_protocol_version {
                    Some(version) => Some(owned(version)),
                    None => None,
                },
                required_capabilities: no_texts(),
                received_capabilities: no_texts(),
                missing_capabilities: no_texts(),
            },
        ),
    }
}

/// The answer to a peer that lacks capabilities.
pub fn peer_capability_mismatch_response(
    required_capabilities: Vec<String>,
    received_capabilities: Vec<String>,
    missing_capabilities: Vec<String>,
) -> (res: HttpResponse)
    ensures
        res@ == capability_answer(
            views(required_capabilities@),
            views(received_capabilities@),
            views(missing_capabilities@),
        ),
{
    let error = cat2(
        "peer is missing required capabilities: ",
        join_texts(&missing_capabilities, ", ").as_str(),
    );
    HttpResponse {
        status: 409,
        headers: no_headers(),
        body: HttpBody::Error(
            InternalErrorResponse {
                code: owned("peer_capability_missing"),
                error,
                retryable: false,
                expected_protocol_version: None,
                received_protocol_version: None,
                required_capabilities,
                received_capabilities,
                missing_capabilities,
            },
        ),
    }
}

/// The answer to a request without a valid token.
pub fn unauthorized_internal_response() -> (res: HttpResponse)
    ensures
        res@ == unauthorized_answer(),
{
    let mut response = internal_error_response(
        401,
        owned("internal_auth_failed"),
        owned("internal endpoint authentication failed"),
        false,
    );
    let ghost before = response@;
    response.headers.push(
        HttpHeader { name: owned("WWW-Authenticate"), value: owned("TsinkInternal") },
    );
    assert(views(response.headers@) =~= unauthorized_answer().headers);
    response
}

/// The answer to a peer whose identity is not accepted.
pub fn unauthorized_internal_mtls_response(message: &str) -> (res: HttpResponse)
    ensures
        res@ == identity_answer(message@),
{
    internal_error_response(401, owned("internal_mtls_auth_failed"), owned(message), false)
}

/// Those of the required capabilities that were not received, in order.
pub open spec fn missing_from(
    required: Seq<Seq<char>>,
    received: Seq<Seq<char>>,
) -> Seq<Seq<char>>
    decreases required.len(),
{
    if required.len() == 0 {
        required
    } else if received.contains(required.last()) {
        missing_from(required.drop_last(), received)
    } else {
        missing_from(required.drop_last(), received).push(required.last())
    }
}

fn missing_capabilities(required: &Vec<String>, received: &Vec<String>) -> (res: Vec<String>)
    ensures
        views(res@) == missing_from(views(required@), views(received@)),
{
    let ghost all = views(required@);
    let mut out: Vec<String> = Vec::new();
    let mut i: usize = 0;
    assert(views(out@) =~= missing_from(all.take(0), views(received@)));
    while i < required.len()
        invariant
            i <= required.len(),
            all == views(required@),
            views(out@) == missing_from(all.take(i as int), views(received@)),
        decreases required.len() - i,
    {
        assert(all.take(i + 1).drop_last() =~= all.take(i as int));
        assert(all.take(i + 1).last() == required@[i as int]@);
        if !contains_text(received, &required[i]) {
            out.push(required[i].clone());
        }
        i += 1;
    }
    assert(all.take(i as int) =~= all);
    out
}

/// Why the identity of a peer is not accepted: the id that it claims and the id that its
/// certificate proves must both be there, be the same, and be that of a known node.
pub open spec fn identity_refusal(
    claimed: Option<Seq<char>>,
    verified: Option<Seq<char>>,
    allow_unknown: bool,
    allowed: Seq<Seq<char>>,
    additional: Seq<Seq<char>>,
) -> Option<Seq<char>> {
    match (claimed, verified) {
        (None, _) => Some("missing internal node id header"@),
        (Some(_), None) => Some(
            "mTLS-authenticated peer identity is required for internal endpoint"@,
        ),
        (Some(claim), Some(proof_of)) => if claim != proof_of {
            Some("internal node id header does not match mTLS peer identity"@)
        } else if !allow_unknown && !allowed.contains(proof_of) && !additional.contains(proof_of) {
            Some("mTLS peer identity is not part of cluster membership"@)
        } else {
            None
        },
    }
}

/// Whether a request is let in, or what it is answered. The checks come in order: the endpoints must
/// be offered at all, then token, protocol version, capabilities and identity must be accepted.
pub open spec fn authorization(
    headers: Seq<HeaderView>,
    api: Option<ApiView>,
    additional: Seq<Seq<char>>,
    allow_unknown: bool,
    endpoint_required: Seq<Seq<char>>,
) -> Result<(), ResponseView> {
    match api {
        None => Err(
            ResponseView {
                status: 404,
                headers: Seq::empty(),
                body: BodyView::Text("not found"@),
            },
        ),
        Some(guard) => {
            let version = header_value(headers, INTERNAL_RPC_VERSION_HEADER@);
            let required = normal_list(endpoint_required);
            let received = normal_list(
                header_capabilities(header_value(headers, INTERNAL_RPC_CAPABILITIES_HEADER@)),
            );
            let missing = missing_from(required, received);
            let refusal = identity_refusal(
                header_value(headers, INTERNAL_RPC_NODE_ID_HEADER@),
                header_value(headers, INTERNAL_RPC_VERIFIED_NODE_ID_HEADER@),
                allow_unknown,
                guard.allowed_node_ids,
                additional,
            );
            if !token_accepted(guard, header_value(headers, INTERNAL_RPC_AUTH_HEADER@)) {
                Err(unauthorized_answer())
            } else if version != Some(guard.protocol_version) {
                Err(mismatch_answer(guard.protocol_version, version))
            } else if missing.len() > 0 {
                Err(capability_answer(required, received, missing))
            } else if guard.require_mtls && refusal is Some {
                Err(identity_answer(refusal->0))
            } else {
                Ok(())
            }
        },
    }
}

/// What [`authorize_internal_request_with_policy`] returned, as plain values.
pub open spec fn authorization_view(result: Result<(), HttpResponse>) -> Result<(), ResponseView> {
    match result {
        Ok(_) => Ok(()),
        Err(response) => Err(response@),
    }
}

/// The view of a guard that may not be there.
pub open spec fn api_view(api: Option<&InternalApiConfig>) -> Option<ApiView> {
    match api {
        Some(guard) => Some(guard@),
        None => None,
    }
}

/// Lets a request in, or answers it.
pub fn authorize_internal_request(
    request: &HttpRequest,
    internal_api: Option<&InternalApiConfig>,
) -> (res: Result<(), HttpResponse>)
    ensures
        authorization_view(res) == authorization(
            views(request.headers@),
            api_view(internal_api),
            Seq::empty(),
            false,
            Seq::empty(),
        ),
{
    authorize_internal_request_with_policy(request, internal_api, &no_texts(), false, &no_texts())
}

/// Lets a request in, or answers it, with further nodes and capabilities.
pub fn authorize_internal_request_with_policy(
    request: &HttpRequest,
    internal_api: Option<&InternalApiConfig>,
    additional_allowed_node_ids: &Vec<String>,
    allow_unknown_mtls_node: bool,
    endpoint_required_capabilities: &Vec<String>,
) -> (res: Result<(), HttpResponse>)
    ensures
        authorization_view(res) == authorization(
            views(request.headers@),
            api_view(internal_api),
            views(additional_allowed_node_ids@),
            allow_unknown_mtls_node,
            views(endpoint_required_capabilities@),
        ),
{
    let api = match internal_api {
        Some(api) => api,
        None => {
            return Err(text_response(404, "not found"));
        },
    };
    if !api.auth_token_matches(request.header(INTERNAL_RPC_AUTH_HEADER)) {
        return Err(unauthorized_internal_response());
    }
    let version = request.header(INTERNAL_RPC_VERSION_HEADER);
    let version_matches = match version {
        Some(text) => same(text, &api.protocol_version),
        None => false,
    };
    if !version_matches {
        return Err(protocol_mismatch_response(&api.protocol_version, version));
    }
    let required = normalize_list(endpoint_required_capabilities);
    let received = normalize_capabilities(
        parse_capabilities_header(request.header(INTERNAL_RPC_CAPABILITIES_HEADER)),
    );
    let missing = missing_capabilities(&required, &received);
    if missing.len() > 0 {
        return Err(peer_capability_mismatch_response(required, received, missing));
    }
    if api.require_mtls {
        let claimed = match request.header(INTERNAL_RPC_NODE_ID_HEADER) {
            Some(claimed) => claimed,
            None => {
                return Err(
                    unauthorized_internal_mtls_response("missing internal node id header"),
                );
            },
        };
        let verified = match request.header(INTERNAL_RPC_VERIFIED_NODE_ID_HEADER) {
            Some(verified) => verified,
            None => {
                return Err(
                    unauthorized_internal_mtls_response(
                        "mTLS-authenticated peer identity is required for internal endpoint",
                    ),
                );
            },
        };
        if !same(claimed, verified) {
            return Err(
                unauthorized_internal_mtls_response(
                    "internal node id header does not match mTLS peer identity",
                ),
            );
        }
        if !allow_unknown_mtls_node && !contains_text(&api.allowed_node_ids, verified)
            && !contains_text(additional_allowed_node_ids, verified) {
            return Err(
                unauthorized_internal_mtls_response(
                    "mTLS peer identity is not part of cluster membership",
                ),
            );
        }
    }
    Ok(())
}

proof fn lemma_missing_from(required: Seq<Seq<char>>, received: Seq<Seq<char>>)
    ensures
        missing_from(required, received).len() == 0 <==> forall|i: int|
            0 <= i < required.len() ==> received.contains(#[trigger] required[i]),
    decreases required.len(),
{
    if required.len() > 0 {
        let head = required.drop_last();
        lemma_missing_from(head, received);
        if forall|i: int| 0 <= i < required.len() ==> received.contains(#[trigger] required[i]) {
            assert forall|i: int| 0 <= i < head.len() implies received.contains(
                #[trigger] head[i],
            ) by {
                assert(received.contains(required[i]));
            }
            assert(received.contains(required[required.len() - 1]));
        }
        if missing_from(required, received).len() == 0 {
            assert forall|i: int| 0 <= i < required.len() implies received.contains(
                #[trigger] required[i],
            ) by {
                if i < head.len() {
                    assert(head[i] == required[i]);
                }
            }
        }
    }
}

/// A request is let in exactly when the endpoints are offered, its token is accepted, it speaks the
/// same protocol version, it lists every required capability and, where certificates are asked for,
/// it claims the id that its certificate proves and that id is allowed.
pub proof fn law_request_let_in(
    headers: Seq<HeaderView>,
    api: Option<ApiView>,
    additional: Seq<Seq<char>>,
    allow_unknown: bool,
    endpoint_required: Seq<Seq<char>>,
)
    ensures
        authorization(headers, api, additional, allow_unknown, endpoint_required) is Ok <==> {
            &&& api is Some
            &&& token_accepted(api->0, header_value(headers, INTERNAL_RPC_AUTH_HEADER@))
            &&& header_value(headers, INTERNAL_RPC_VERSION_HEADER@) == Some(api->0.protocol_version)
            &&& forall|i: int|
                0 <= i < normal_list(endpoint_required).len() ==> normal_list(
                    header_capabilities(header_value(headers, INTERNAL_RPC_CAPABILITIES_HEADER@)),
                ).contains(#[trigger] normal_list(endpoint_required)[i])
            &&& api->0.require_mtls ==> {
                let claimed = header_value(headers, INTERNAL_RPC_NODE_ID_HEADER@);
                &&& claimed is Some
                &&& claimed == header_value(headers, INTERNAL_RPC_VERIFIED_NODE_ID_HEADER@)
                &&& allow_unknown || api->0.allowed_node_ids.contains(claimed->0)
                    || additional.contains(claimed->0)
            }
        },
{
    lemma_missing_from(
        normal_list(endpoint_required),
        normal_list(
            header_capabilities(header_value(headers, INTERNAL_RPC_CAPABILITIES_HEADER@)),
        ),
    );
}

} // verus!
