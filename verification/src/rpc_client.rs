//! Calls between nodes: how a request is written, how an answer is read, what its errors are and
//! when a call is tried again.

use vstd::prelude::*;
use vstd::string::*;
use vstd::slice::slice_subrange;
use vstd::utf8::{decode_utf8, encode_utf8, valid_utf8};
use crate::lists::{
    first_index, group_views, lemma_first_index, lemma_first_index_is, views,
};
use crate::parsing::{
    chars_of, crlf_lines, join_texts, joined, numeral_value, parse_numeral, split_crlf,
    split_words, text_from_utf8, text_of, utf8_text, words,
};
use crate::rpc_auth::{
    find_header, header_value, CompatibilityProfile, ErrorView, HeaderView, HttpHeader,
    InternalErrorResponse, ManagedStringSecret,
};
use crate::rpc_types::{
    INTERNAL_RPC_AUTH_HEADER, INTERNAL_RPC_CAPABILITIES_HEADER, INTERNAL_RPC_NODE_ID_HEADER,
    INTERNAL_RPC_PROTOCOL_VERSION, INTERNAL_RPC_VERSION_HEADER,
};
use crate::text::{
    cat2, cat3, cat4, cat5, cat7, decimal, lowered, number, opt_text, owned, same, to_lower, trim,
    trimmed,
};

verus! {

broadcast use group_views;

pub const DEFAULT_RPC_TIMEOUT_MS: u64 = 2_000;

pub const DEFAULT_RPC_MAX_RETRIES: usize = 2;

/// Why a call failed.
#[derive(Debug, PartialEq, Eq)]
pub enum RpcError {
    Timeout { endpoint: String, path: String },
    Transport { endpoint: String, path: String, message: String },
    ProtocolVersionMismatch { endpoint: String, expected: String, received: Option<String> },
    CompatibilityRejected {
        endpoint: String,
        path: String,
        message: String,
        missing_capabilities: Vec<String>,
    },
    HttpStatus { endpoint: String, path: String, status: u16, message: String, retryable: bool },
    Serialize { message: String },
    Deserialize { message: String },
}

/// What an [`RpcError`] holds.
pub enum RpcErrorView {
    Timeout { endpoint: Seq<char>, path: Seq<char> },
    Transport { endpoint: Seq<char>, path: Seq<char>, message: Seq<char> },
    ProtocolVersionMismatch {
        endpoint: Seq<char>,
        expected: Seq<char>,
        received: Option<Seq<char>>,
    },
    CompatibilityRejected {
        endpoint: Seq<char>,
        path: Seq<char>,
        message: Seq<char>,
        missing_capabilities: Seq<Seq<char>>,
    },
    HttpStatus {
        endpoint: Seq<char>,
        path: Seq<char>,
        status: u16,
        message: Seq<char>,
        retryable: bool,
    },
    Serialize { message: Seq<char> },
    Deserialize { message: Seq<char> },
}

impl View for RpcError {
    type V = RpcErrorView;

    open spec fn view(&self) -> RpcErrorView {
        match *self {
            RpcError::Timeout { endpoint, path } => RpcErrorView::Timeout {
                endpoint: endpoint@,
                path: path@,
            },
            RpcError::Transport { endpoint, path, message } => RpcErrorView::Transport {
                endpoint: endpoint@,
                path: path@,
                message: message@,
            },
            RpcError::ProtocolVersionMismatch { endpoint, expected, received } => {
                RpcErrorView::ProtocolVersionMismatch {
                    endpoint: endpoint@,
                    expected: expected@,
                    received: opt_text(received),
                }
            },
            RpcError::CompatibilityRejected { endpoint, path, message, missing_capabilities } => {
                RpcErrorView::CompatibilityRejected {
                    endpoint: endpoint@,
                    path: path@,
                    message: message@,
                    missing_capabilities: views(missing_capabilities@),
                }
            },
            RpcError::HttpStatus { endpoint, path, status, message, retryable } => {
                RpcErrorView::HttpStatus {
                    endpoint: endpoint@,
                    path: path@,
                    status,
                    message: message@,
                    retryable,
                }
            },
            RpcError::Serialize { message } => RpcErrorView::Serialize { message: message@ },
            RpcError::Deserialize { message } => RpcErrorView::Deserialize { message: message@ },
        }
    }
}

/// Whether a call that failed in this way may succeed later.
pub open spec fn rpc_retryable(error: RpcErrorView) -> bool {
    match error {
        RpcErrorView::Timeout { .. } => true,
        RpcErrorView::Transport { .. } => true,
        RpcErrorView::HttpStatus { retryable, .. } => retryable,
        _ => false,
    }
}

/// What an error says.
pub open spec fn rpc_message(error: RpcErrorView) -> Seq<char> {
    match error {
        RpcErrorView::Timeout { endpoint, path } => "RPC timeout calling "@ + endpoint + path,
        RpcErrorView::Transport { endpoint, path, message } => {
            "RPC transport error calling "@ + endpoint + path + ": "@ + message
        },
        RpcErrorView::ProtocolVersionMismatch { endpoint, expected, received } => {
            "RPC protocol mismatch for "@ + endpoint + ": expected '"@ + expected
                + "', received '"@ + (match received {
                Some(version) => version,
                None => "<missing>"@,
            }) + "'"@
        },
        RpcErrorView::CompatibilityRejected { endpoint, path, message, .. } => {
            "RPC compatibility rejection from "@ + endpoint + path + ": "@ + message
        },
        RpcErrorView::HttpStatus { endpoint, path, status, message, .. } => {
            "RPC HTTP "@ + decimal(status as nat) + " from "@ + endpoint + path + ": "@ + message
        },
        RpcErrorView::Serialize { message } => "RPC request serialization failed: "@ + message,
        RpcErrorView::Deserialize { message } => "RPC response deserialization failed: "@ + message,
    }
}

impl RpcError {
    /// Whether a call that failed in this way may succeed later.
    pub fn retryable(&self) -> (res: bool)
        ensures
            res == rpc_retryable(self@),
    {
        match self {
            RpcError::Timeout { .. } => true,
            RpcError::Transport { .. } => true,
            RpcError::HttpStatus { retryable, .. } => *retryable,
            _ => false,
        }
    }

    /// What the error says.
    pub fn message(&self) -> (res: String)
        ensures
            res@ == rpc_message(self@),
    {
        match self {
            RpcError::Timeout { endpoint, path } => cat3("RPC timeout calling ", endpoint, path),
            RpcError::Transport { endpoint, path, message } => cat5(
                "RPC transport error calling ",
                endpoint,
                path,
                ": ",
                message,
            ),
            RpcError::ProtocolVersionMismatch { endpoint, expected, received } => {
                let shown = match received {
                    Some(version) => version.as_str(),
                    None => "<missing>",
                };
                cat7(
                    "RPC protocol mismatch for ",
                    endpoint,
                    ": expected '",
                    expected,
                    "', received '",
                    shown,
                    "'",
                )
            },
            RpcError::CompatibilityRejected { endpoint, path, message, .. } => cat5(
                "RPC compatibility rejection from ",
                endpoint,
                path,
                ": ",
                message,
            ),
            RpcError::HttpStatus { endpoint, path, status, message, .. } => cat7(
                "RPC HTTP ",
                number(*status as u64).as_str(),
                " from ",
                endpoint,
                path,
                ": ",
                message,
            ),
            RpcError::Serialize { message } => cat2("RPC request serialization failed: ", message),
            RpcError::Deserialize { message } => cat2(
                "RPC response deserialization failed: ",
                message,
            ),
        }
    }
}

/// The files that prove the identity of this node to others.
#[derive(Debug, PartialEq, Eq)]
pub struct RpcClientInternalMtlsConfig {
    pub ca_cert: String,
    pub cert: String,
    pub key: String,
}

/// How this node calls others.
#[derive(Debug, PartialEq, Eq)]
pub struct RpcClientConfig {
    pub timeout_ms: u64,
    pub max_retries: usize,
    pub protocol_version: String,
    pub internal_auth_token: String,
    pub internal_auth_runtime: Option<ManagedStringSecret>,
    pub local_node_id: String,
    pub compatibility: CompatibilityProfile,
    pub internal_mtls: Option<RpcClientInternalMtlsConfig>,
}

impl Default for RpcClientConfig {
    fn default() -> (res: Self)
        ensures
            res.timeout_ms == DEFAULT_RPC_TIMEOUT_MS,
            res.max_retries == DEFAULT_RPC_MAX_RETRIES,
            res.protocol_version@ == INTERNAL_RPC_PROTOCOL_VERSION@,
            res.internal_auth_token@.len() == 0,
            res.internal_auth_runtime is None,
            res.local_node_id@.len() == 0,
            views(res.compatibility.capabilities@) == crate::parsing::normal_list(
                crate::rpc_auth::default_capabilities(),
            ),
            res.internal_mtls is None,
    {
        RpcClientConfig {
            timeout_ms: DEFAULT_RPC_TIMEOUT_MS,
            max_retries: DEFAULT_RPC_MAX_RETRIES,
            protocol_version: owned(INTERNAL_RPC_PROTOCOL_VERSION),
            internal_auth_token: String::new(),
            internal_auth_runtime: None,
            local_node_id: String::new(),
            compatibility: CompatibilityProfile::default(),
            internal_mtls: None,
        }
    }
}

impl RpcClientConfig {
    /// The same configuration with another profile.
    pub fn with_compatibility(self, compatibility: CompatibilityProfile) -> (res: Self)
        ensures
            res == (RpcClientConfig { compatibility, ..self }),
    {
        RpcClientConfig {
            timeout_ms: self.timeout_ms,
            max_retries: self.max_retries,
            protocol_version: self.protocol_version,
            internal_auth_token: self.internal_auth_token,
            internal_auth_runtime: self.internal_auth_runtime,
            local_node_id: self.local_node_id,
            compatibility,
            internal_mtls: self.internal_mtls,
        }
    }
}

/// The token that this node shows: the managed secret where there is one, else the fixed token.
pub open spec fn shown_token(config: RpcClientConfig) -> Seq<char> {
    match config.internal_auth_runtime {
        Some(secret) => secret.current@,
        None => config.internal_auth_token@,
    }
}

/// The head of a request, with an empty line at its end.
pub open spec fn request_head(
    config: RpcClientConfig,
    endpoint: Seq<char>,
    path: Seq<char>,
    body_len: nat,
) -> Seq<char> {
    "POST "@ + path + " HTTP/1.1\r\n"@ + "Host: "@ + endpoint + "\r\n"@ + "Connection: close\r\n"@
        + "Content-Type: application/json\r\n"@ + "Content-Length: "@ + decimal(body_len)
        + "\r\n"@ + INTERNAL_RPC_VERSION_HEADER@ + ": "@ + config.protocol_version@ + "\r\n"@
        + INTERNAL_RPC_AUTH_HEADER@ + ": "@ + shown_token(config) + "\r\n"@
        + INTERNAL_RPC_CAPABILITIES_HEADER@ + ": "@ + joined(
        views(config.compatibility.capabilities@),
        ","@,
    ) + "\r\n"@ + node_id_line(config.local_node_id@) + "\r\n"@
}

/// The line that says which node calls, where the node has an id.
pub open spec fn node_id_line(local_node_id: Seq<char>) -> Seq<char> {
    if trimmed(local_node_id).len() == 0 {
        Seq::empty()
    } else {
        INTERNAL_RPC_NODE_ID_HEADER@ + ": "@ + trimmed(local_node_id) + "\r\n"@
    }
}

/// Whether a call is given up after so many attempts: it may be repeated only after an error that can
/// pass, and as often as retries are allowed.
pub open spec fn gives_up(max_retries: nat, attempts: nat, retryable: bool) -> bool {
    attempts > max_retries || !retryable
}

/// The codes of answers that may be different later.
pub open spec fn status_retryable(status: u16) -> bool {
    status == 500 || status == 502 || status == 503 || status == 504
}

/// The text that `String::from_utf8_lossy` makes of bytes that need not be valid UTF-8.
pub uninterp spec fn lossy_text(bytes: Seq<u8>) -> Seq<char>;

/// `String::from_utf8_lossy` gives the text that valid UTF-8 encodes. Of other bytes the contract
/// claims only that the text is a function of them.
#[verifier::external_body]
fn text_from_utf8_lossy(bytes: &[u8]) -> (res: String)
    ensures
        res@ == lossy_text(bytes@),
        valid_utf8(bytes@) ==> res@ == decode_utf8(bytes@),
{
    String::from_utf8_lossy(bytes).into_owned()
}

// ---------------------------------------------------------------------------------------------
// Reading an answer
// ---------------------------------------------------------------------------------------------

/// An answer taken apart. Of headers with the same name the last one counts.
#[derive(Debug, PartialEq, Eq)]
pub struct ParsedHttpResponse {
    pub status: u16,
    pub headers: Vec<HttpHeader>,
    pub body: Vec<u8>,
}

/// What a [`ParsedHttpResponse`] holds.
pub struct ParsedView {
    pub status: u16,
    pub headers: Seq<HeaderView>,
    pub body: Seq<u8>,
}

impl View for ParsedHttpResponse {
    type V = ParsedView;

    open spec fn view(&self) -> ParsedView {
        ParsedView { status: self.status, headers: views(self.headers@), body: self.body@ }
    }
}

/// Whether the head of an answer ends at `i`.
pub open spec fn head_ends_at(raw: Seq<u8>, i: int) -> bool {
    0 <= i && i + 4 <= raw.len() && raw[i] == 13 && raw[i + 1] == 10 && raw[i + 2] == 13 && raw[i
        + 3] == 10
}

/// Where the head of an answer ends, among the first `n` places.
pub open spec fn head_end(raw: Seq<u8>, n: nat) -> Option<int>
    decreases n,
{
    if n == 0 {
        None
    } else {
        match head_end(raw, (n - 1) as nat) {
            Some(i) => Some(i),
            None => if head_ends_at(raw, n - 1) {
                Some(n - 1)
            } else {
                None
            },
        }
    }
}

/// The first place of a character in a text.
pub open spec fn find_char(s: Seq<char>, c: char) -> Option<int> {
    first_index(s, is_char(c))
}

/// Whether a character is the given one.
pub open spec fn is_char(c: char) -> spec_fn(char) -> bool {
    |x: char| x == c
}

/// The headers with one more, which takes the place of one with the same name.
pub open spec fn with_header(
    headers: Seq<HeaderView>,
    name: Seq<char>,
    value: Seq<char>,
) -> Seq<HeaderView> {
    match first_index(headers, |header: HeaderView| header.name == name) {
        Some(i) => headers.update(i, HeaderView { name, value }),
        None => headers.push(HeaderView { name, value }),
    }
}

/// The headers once a line has been read.
pub open spec fn header_line(headers: Seq<HeaderView>, line: Seq<char>) -> Result<
    Seq<HeaderView>,
    Seq<char>,
> {
    if line.len() == 0 {
        Ok(headers)
    } else {
        match find_char(line, ':') {
            None => Err("malformed response header line: "@ + line),
            Some(i) => {
                let name = lowered(trimmed(line.subrange(0, i)));
                let value = trimmed(line.subrange(i + 1, line.len() as int));
                if trimmed(line.subrange(0, i)).len() == 0 {
                    Err("malformed response header line: "@ + line)
                } else if name == "content-length"@ && header_value(headers, name) is Some {
                    Err("duplicate response content-length header"@)
                } else if name == "transfer-encoding"@ {
                    Err("response transfer-encoding is not supported"@)
                } else {
                    Ok(with_header(headers, name, value))
                }
            },
        }
    }
}

/// The headers once the lines before line `n` have been read; line 0 is the status line.
pub open spec fn header_lines(lines: Seq<Seq<char>>, n: nat) -> Result<Seq<HeaderView>, Seq<char>>
    decreases n,
{
    if n <= 1 {
        Ok(Seq::empty())
    } else {
        match header_lines(lines, (n - 1) as nat) {
            Ok(headers) => header_line(headers, lines[n - 1]),
            Err(message) => Err(message),
        }
    }
}

/// The code of an answer, from the words of its status line.
pub open spec fn status_code(parts: Seq<Seq<char>>) -> Result<u16, Seq<char>> {
    if parts.len() == 0 {
        Err("response status line is missing HTTP version"@)
    } else if parts[0] != "HTTP/1.1"@ && parts[0] != "HTTP/1.0"@ {
        Err("unsupported HTTP version: "@ + parts[0])
    } else if parts.len() == 1 {
        Err("response status line is missing status code"@)
    } else {
        match numeral_value(parts[1], u16::MAX as nat) {
            Some(n) => Ok(n as u16),
            None => Err("response status code is invalid"@),
        }
    }
}

/// The body of an answer: as many bytes as its headers say, or all.
pub open spec fn body_of(headers: Seq<HeaderView>, rest: Seq<u8>) -> Result<Seq<u8>, Seq<char>> {
    match header_value(headers, "content-length"@) {
        None => Ok(rest),
        Some(value) => match numeral_value(value, usize::MAX as nat) {
            None => Err("response content-length is invalid"@),
            Some(n) => if rest.len() < n {
                Err(
                    "response body truncated: expected "@ + decimal(n) + " bytes, got "@ + decimal(
                        rest.len(),
                    ),
                )
            } else {
                Ok(rest.subrange(0, n as int))
            },
        },
    }
}

/// What an answer says, or why it cannot be read.
pub open spec fn response_of(raw: Seq<u8>) -> Result<ParsedView, Seq<char>> {
    match head_end(raw, raw.len()) {
        None => Err("response is missing header terminator"@),
        Some(end) => match utf8_text(raw.subrange(0, end)) {
            None => Err("response headers are not valid UTF-8"@),
            Some(text) => {
                let lines = crlf_lines(text);
                match status_code(words(lines[0])) {
                    Err(message) => Err(message),
                    Ok(status) => match header_lines(lines, lines.len()) {
                        Err(message) => Err(message),
                        Ok(headers) => match body_of(
                            headers,
                            raw.subrange(end + 4, raw.len() as int),
                        ) {
                            Err(message) => Err(message),
                            Ok(body) => Ok(ParsedView { status, headers, body }),
                        },
                    },
                }
            },
        },
    }
}

/// What [`parse_http_response`] returned, as plain values.
pub open spec fn parsed_view(result: Result<ParsedHttpResponse, String>) -> Result<
    ParsedView,
    Seq<char>,
> {
    match result {
        Ok(parsed) => Ok(parsed@),
        Err(message) => Err(message@),
    }
}

proof fn lemma_head_end(raw: Seq<u8>, n: nat, i: int)
    requires
        0 <= i < n,
        head_ends_at(raw, i),
        forall|j: int| 0 <= j < i ==> !head_ends_at(raw, j),
    ensures
        head_end(raw, n) == Some(i),
    decreases n,
{
    if n - 1 > i {
        lemma_head_end(raw, (n - 1) as nat, i);
    } else {
        lemma_no_head_end(raw, i as nat);
    }
}

proof fn lemma_no_head_end(raw: Seq<u8>, n: nat)
    requires
        forall|j: int| 0 <= j < n ==> !head_ends_at(raw, j),
    ensures
        head_end(raw, n) is None,
    decreases n,
{
    if n > 0 {
        lemma_no_head_end(raw, (n - 1) as nat);
        assert(!head_ends_at(raw, n - 1));
    }
}

fn find_head_end(raw: &[u8]) -> (res: Option<usize>)
    ensures
        match res {
            Some(i) => i + 4 <= raw@.len() && head_end(raw@, raw@.len()) == Some(i as int),
            None => head_end(raw@, raw@.len()) is None,
        },
{
    let mut i: usize = 0;
    while i < raw.len()
        invariant
            i <= raw.len(),
            forall|j: int| 0 <= j < i ==> !head_ends_at(raw@, j),
        decreases raw.len() - i,
    {
        if raw.len() - i >= 4 && raw[i] == 13 && raw[i + 1] == 10 && raw[i + 2] == 13 && raw[i + 3]
            == 10 {
            proof {
                lemma_head_end(raw@, raw@.len(), i as int);
            }
            return Some(i);
        }
        assert(!head_ends_at(raw@, i as int));
        i += 1;
    }
    proof {
        lemma_no_head_end(raw@, raw@.len());
    }
    None
}

fn put_header(headers: &mut Vec<HttpHeader>, name: String, value: String)
    ensures
        views(final(headers)@) == with_header(views(old(headers)@), name@, value@),
{
    let ghost all = views(headers@);
    let mut i: usize = 0;
    while i < headers.len()
        invariant
            i <= headers.len(),
            all == views(headers@),
            all == views(old(headers)@),
            forall|j: int| 0 <= j < i ==> (#[trigger] all[j]).name != name@,
        decreases headers.len() - i,
    {
        assert(all[i as int] == headers@[i as int]@);
        if same(&headers[i].name, &name) {
            proof {
                lemma_first_index_is(all, |header: HeaderView| header.name == name@, i as int);
            }
            headers.set(i, HttpHeader { name, value });
            return;
        }
        i += 1;
    }
    proof {
        lemma_first_index(all, |header: HeaderView| header.name == name@);
    }
    headers.push(HttpHeader { name, value });
}

fn locate_char(chars: &Vec<char>, c: char) -> (res: Option<usize>)
    ensures
        match res {
            Some(i) => i < chars.len() && find_char(chars@, c) == Some(i as int),
            None => find_char(chars@, c) is None,
        },
{
    let mut i: usize = 0;
    while i < chars.len()
        invariant
            i <= chars.len(),
            forall|j: int| 0 <= j < i ==> #[trigger] chars@[j] != c,
        decreases chars.len() - i,
    {
        if chars[i] == c {
            proof {
                lemma_first_index_is(chars@, is_char(c), i as int);
            }
            return Some(i);
        }
        i += 1;
    }
    proof {
        lemma_first_index(chars@, is_char(c));
    }
    None
}

fn read_header_line(headers: &mut Vec<HttpHeader>, line: &str) -> (res: Result<(), String>)
    ensures
        match res {
            Ok(_) => header_line(views(old(headers)@), line@) == Ok::<
                Seq<HeaderView>,
                Seq<char>,
            >(views(final(headers)@)),
            Err(message) => header_line(views(old(headers)@), line@) == Err::<
                Seq<HeaderView>,
                Seq<char>,
            >(message@),
        },
{
    if line.is_empty() {
        return Ok(());
    }
    let chars = chars_of(line);
    let at = match locate_char(&chars, ':') {
        Some(at) => at,
        None => {
            return Err(cat2("malformed response header line: ", line));
        },
    };
    let before = text_of(&chars, 0, at);
    let after = text_of(&chars, at + 1, chars.len());
    let name_text = trim(&before);
    if name_text.is_empty() {
        return Err(cat2("malformed response header line: ", line));
    }
    let name = to_lower(name_text);
    let value = owned(trim(&after));
    if same(&name, "content-length") && find_header(headers, &name).is_some() {
        return Err(owned("duplicate response content-length header"));
    }
    if same(&name, "transfer-encoding") {
        return Err(owned("response transfer-encoding is not supported"));
    }
    put_header(headers, name, value);
    Ok(())
}

proof fn lemma_header_lines_stop(lines: Seq<Seq<char>>, n: nat, m: nat)
    requires
        n <= m,
        header_lines(lines, n) is Err,
    ensures
        header_lines(lines, m) == header_lines(lines, n),
    decreases m,
{
    if n < m {
        lemma_header_lines_stop(lines, n, (m - 1) as nat);
    }
}

fn read_status(line: &str) -> (res: Result<u16, String>)
    ensures
        match res {
            Ok(status) => status_code(words(line@)) == Ok::<u16, Seq<char>>(status),
            Err(message) => status_code(words(line@)) == Err::<u16, Seq<char>>(message@),
        },
{
    let parts = split_words(line);
    let ghost all = views(parts@);
    if parts.len() == 0 {
        return Err(owned("response status line is missing HTTP version"));
    }
    assert(all[0] == parts@[0]@);
    if !same(&parts[0], "HTTP/1.1") && !same(&parts[0], "HTTP/1.0") {
        return Err(cat2("unsupported HTTP version: ", &parts[0]));
    }
    if parts.len() == 1 {
        return Err(owned("response status line is missing status code"));
    }
    assert(all[1] == parts@[1]@);
    match parse_numeral(&parts[1], 65535) {
        Some(n) => Ok(n as u16),
        None => Err(owned("response status code is invalid")),
    }
}

fn read_body(headers: &Vec<HttpHeader>, rest: &[u8]) -> (res: Result<Vec<u8>, String>)
    ensures
        match res {
            Ok(body) => body_of(views(headers@), rest@) == Ok::<Seq<u8>, Seq<char>>(body@),
            Err(message) => body_of(views(headers@), rest@) == Err::<Seq<u8>, Seq<char>>(message@),
        },
{
    match find_header(headers, "content-length") {
        None => Ok(vstd::slice::slice_to_vec(rest)),
        Some(value) => match parse_numeral(value, usize::MAX as u64) {
            None => Err(owned("response content-length is invalid")),
            Some(n) => {
                if (rest.len() as u64) < n {
                    return Err(
                        cat4(
                            "response body truncated: expected ",
                            number(n).as_str(),
                            " bytes, got ",
                            number(rest.len() as u64).as_str(),
                        ),
                    );
                }
                Ok(vstd::slice::slice_to_vec(slice_subrange(rest, 0, n as usize)))
            },
        },
    }
}

/// Reads an answer.
pub fn parse_http_response(raw: &[u8]) -> (res: Result<ParsedHttpResponse, String>)
    ensures
        parsed_view(res) == response_of(raw@),
{
    let end = match find_head_end(raw) {
        Some(end) => end,
        None => {
            return Err(owned("response is missing header terminator"));
        },
    };
    let text = match text_from_utf8(slice_subrange(raw, 0, end)) {
        Some(text) => text,
        None => {
            return Err(owned("response headers are not valid UTF-8"));
        },
    };
    let lines = split_crlf(text);
    let ghost all = views(lines@);
    assert(all[0] == lines@[0]@);
    let status = match read_status(&lines[0]) {
        Ok(status) => status,
        Err(message) => {
            return Err(message);
        },
    };
    let mut headers: Vec<HttpHeader> = Vec::new();
    let total: usize = raw.len();
    let mut i: usize = 1;
    assert(views(headers@) =~= Seq::<HeaderView>::empty());
    while i < lines.len()
        invariant
            1 <= i <= lines.len(),
            end + 4 <= total == raw@.len(),
            head_end(raw@, raw@.len()) == Some(end as int),
            utf8_text(raw@.subrange(0, end as int)) == Some(text@),
            all == views(lines@),
            all == crlf_lines(text@),
            status_code(words(all[0])) == Ok::<u16, Seq<char>>(status),
            header_lines(all, i as nat) == Ok::<Seq<HeaderView>, Seq<char>>(views(headers@)),
        decreases lines.len() - i,
    {
        assert(all[i as int] == lines@[i as int]@);
        if let Err(message) = read_header_line(&mut headers, &lines[i]) {
            proof {
                assert(header_lines(all, (i + 1) as nat) == Err::<Seq<HeaderView>, Seq<char>>(
                    message@,
                ));
                lemma_header_lines_stop(all, (i + 1) as nat, lines.len() as nat);
            }
            return Err(message);
        }
        i += 1;
    }
    match read_body(&headers, slice_subrange(raw, end + 4, total)) {
        Ok(body) => Ok(ParsedHttpResponse { status, headers, body }),
        Err(message) => Err(message),
    }
}

/// What an answer with this code and body comes to, given the error that its body decodes to, if it
/// does: the body where the code says success, else an error.
pub open spec fn outcome_of(
    endpoint: Seq<char>,
    path: Seq<char>,
    parsed: ParsedView,
    decoded: Option<ErrorView>,
) -> Result<Seq<u8>, RpcErrorView> {
    if 200 <= parsed.status < 300 {
        Ok(parsed.body)
    } else if parsed.status == 409 && decoded is Some && decoded->0.code
        == "protocol_version_mismatch"@ {
        Err(
            RpcErrorView::ProtocolVersionMismatch {
                endpoint,
                expected: match decoded->0.expected_protocol_version {
                    Some(version) => version,
                    None => INTERNAL_RPC_PROTOCOL_VERSION@,
                },
                received: decoded->0.received_protocol_version,
            },
        )
    } else if parsed.status == 409 && decoded is Some && decoded->0.code
        == "peer_capability_missing"@ {
        Err(
            RpcErrorView::CompatibilityRejected {
                endpoint,
                path,
                message: decoded->0.error,
                missing_capabilities: decoded->0.missing_capabilities,
            },
        )
    } else {
        Err(
            RpcErrorView::HttpStatus {
                endpoint,
                path,
                status: parsed.status,
                message: match decoded {
                    Some(error) => error.error,
                    None => lossy_text(parsed.body),
                },
                retryable: match decoded {
                    Some(error) => error.retryable,
                    None => status_retryable(parsed.status),
                },
            },
        )
    }
}

/// What the bytes of an answer come to.
pub open spec fn call_outcome(
    endpoint: Seq<char>,
    path: Seq<char>,
    raw: Seq<u8>,
    decoded: Option<ErrorView>,
) -> Result<Seq<u8>, RpcErrorView> {
    match response_of(raw) {
        Err(message) => Err(RpcErrorView::Transport { endpoint, path, message }),
        Ok(parsed) => outcome_of(endpoint, path, parsed, decoded),
    }
}

/// What a call returned, as plain values.
pub open spec fn call_view(result: Result<Vec<u8>, RpcError>) -> Result<Seq<u8>, RpcErrorView> {
    match result {
        Ok(body) => Ok(body@),
        Err(error) => Err(error@),
    }
}

/// An optional error taken by its view.
pub open spec fn decoded_error(error: Option<InternalErrorResponse>) -> Option<ErrorView> {
    match error {
        Some(decoded) => Some(decoded@),
        None => None,
    }
}

/// Judges an answer that could be read.
pub fn classify_response(
    endpoint: &str,
    path: &str,
    parsed: ParsedHttpResponse,
    decoded: Option<InternalErrorResponse>,
) -> (res: Result<Vec<u8>, RpcError>)
    ensures
        call_view(res) == outcome_of(endpoint@, path@, parsed@, decoded_error(decoded)),
{
    let status = parsed.status;
    if 200 <= status && status < 300 {
        return Ok(parsed.body);
    }
    match decoded {
        Some(error) => {
            if status == 409 && same(&error.code, "protocol_version_mismatch") {
                return Err(
                    RpcError::ProtocolVersionMismatch {
                        endpoint: owned(endpoint),
                        expected: match error.expected_protocol_version {
                            Some(version) => version,
                            None => owned(INTERNAL_RPC_PROTOCOL_VERSION),
                        },
                        received: error.received_protocol_version,
                    },
                );
            }
            if status == 409 && same(&error.code, "peer_capability_missing") {
                return Err(
                    RpcError::CompatibilityRejected {
                        endpoint: owned(endpoint),
                        path: owned(path),
                        message: error.error,
                        missing_capabilities: error.missing_capabilities,
                    },
                );
            }
            Err(
                RpcError::HttpStatus {
                    endpoint: owned(endpoint),
                    path: owned(path),
                    status,
                    message: error.error,
                    retryable: error.retryable,
                },
            )
        },
        None => Err(
            RpcError::HttpStatus {
                endpoint: owned(endpoint),
                path: owned(path),
                status,
                message: text_from_utf8_lossy(parsed.body.as_slice()),
                retryable: status == 500 || status == 502 || status == 503 || status == 504,
            },
        ),
    }
}

/// Judges the bytes of an answer.
pub fn interpret_response(
    endpoint: &str,
    path: &str,
    raw: &[u8],
    decoded: Option<InternalErrorResponse>,
) -> (res: Result<Vec<u8>, RpcError>)
    ensures
        call_view(res) == call_outcome(endpoint@, path@, raw@, decoded_error(decoded)),
{
    match parse_http_response(raw) {
        Ok(parsed) => classify_response(endpoint, path, parsed, decoded),
        Err(message) => Err(
            RpcError::Transport { endpoint: owned(endpoint), path: owned(path), message },
        ),
    }
}

/// Makes calls to other nodes.
#[derive(Debug, PartialEq, Eq)]
pub struct RpcClient {
    pub config: RpcClientConfig,
}

impl RpcClient {
    pub fn new(config: RpcClientConfig) -> (res: Self)
        ensures
            res.config == config,
    {
        RpcClient { config }
    }

    /// Lets a managed secret take the place of the fixed token.
    pub fn set_internal_auth_runtime(&mut self, auth_runtime: ManagedStringSecret)
        ensures
            final(self).config == (RpcClientConfig {
                internal_auth_runtime: Some(auth_runtime),
                ..old(self).config
            }),
    {
        self.config.internal_auth_runtime = Some(auth_runtime);
    }

    /// The head of a request, as it is sent before the body.
    pub fn build_http_request(&self, endpoint: &str, path: &str, body: &[u8]) -> (res: Vec<u8>)
        ensures
            res@ == encode_utf8(request_head(self.config, endpoint@, path@, body@.len())),
    {
        let mut request = owned("POST ");
        request.append(path);
        request.append(" HTTP/1.1\r\n");
        request.append("Host: ");
        request.append(endpoint);
        request.append("\r\n");
        request.append("Connection: close\r\n");
        request.append("Content-Type: application/json\r\n");
        request.append("Content-Length: ");
        request.append(number(body.len() as u64).as_str());
        request.append("\r\n");
        request.append(INTERNAL_RPC_VERSION_HEADER);
        request.append(": ");
        request.append(&self.config.protocol_version);
        request.append("\r\n");
        request.append(INTERNAL_RPC_AUTH_HEADER);
        request.append(": ");
        match &self.config.internal_auth_runtime {
            Some(secret) => {
                request.append(&secret.current);
            },
            None => {
                request.append(&self.config.internal_auth_token);
            },
        }
        request.append("\r\n");
        request.append(INTERNAL_RPC_CAPABILITIES_HEADER);
        request.append(": ");
        request.append(join_texts(&self.config.compatibility.capabilities, ",").as_str());
        request.append("\r\n");
        let ghost before = request@;
        let id = trim(&self.config.local_node_id);
        let mut line = String::new();
        if !id.is_empty() {
            line = cat4(INTERNAL_RPC_NODE_ID_HEADER, ": ", id, "\r\n");
        }
        request.append(line.as_str());
        assert(line@ =~= node_id_line(self.config.local_node_id@));
        request.append("\r\n");
        request.as_str().as_bytes_vec()
    }

    /// Whether a call that failed is given up after so many attempts.
    pub fn gives_up_after(&self, attempts: usize, error: &RpcError) -> (res: bool)
        ensures
            res == gives_up(
                self.config.max_retries as nat,
                attempts as nat,
                rpc_retryable(error@),
            ),
    {
        attempts > self.config.max_retries || !error.retryable()
    }
}

/// A call ends: whatever errors come, it is given up after one attempt more than retries are allowed;
/// errors that can pass are put up with until then, others are not.
pub proof fn law_calls_are_bounded(max_retries: nat, attempts: nat, retryable: bool)
    ensures
        gives_up(max_retries, max_retries + 1, retryable),
        attempts <= max_retries && retryable ==> !gives_up(max_retries, attempts, retryable),
        !retryable ==> gives_up(max_retries, attempts, retryable),
{
}

// ---------------------------------------------------------------------------------------------
// The name that a certificate must carry
// ---------------------------------------------------------------------------------------------

/// Whether `rustls::pki_types::ServerName::try_from` takes a text as the name of a server.
pub uninterp spec fn valid_server_name(host: Seq<char>) -> bool;

/// `rustls::pki_types::ServerName::try_from` takes DNS names and IP addresses. The contract claims
/// only that whether it takes a text is a function of the text.
#[verifier::external_body]
fn accepts_server_name(host: &str) -> (res: bool)
    ensures
        res == valid_server_name(host@),
{
    rustls::pki_types::ServerName::try_from(host.to_owned()).is_ok()
}

/// The last place of a character in a text.
pub open spec fn find_last_char(s: Seq<char>, c: char) -> Option<int>
    decreases s.len(),
{
    if s.len() == 0 {
        None
    } else if s.last() == c {
        Some(s.len() - 1)
    } else {
        find_last_char(s.drop_last(), c)
    }
}

/// The host of an endpoint, as it is written there: between brackets, or before the last colon.
pub open spec fn endpoint_host(endpoint: Seq<char>) -> Result<Seq<char>, Seq<char>> {
    if endpoint.len() > 0 && endpoint[0] == '[' {
        let rest = endpoint.subrange(1, endpoint.len() as int);
        match find_char(rest, ']') {
            None => Err("invalid internal RPC endpoint '"@ + endpoint + "' for TLS"@),
            Some(end) => if trimmed(rest.subrange(0, end)).len() == 0 {
                Err("internal RPC endpoint '"@ + endpoint + "' has empty host for TLS"@)
            } else {
                Ok(rest.subrange(0, end))
            },
        }
    } else {
        match find_last_char(endpoint, ':') {
            None => Err(
                "internal RPC endpoint '"@ + endpoint + "' must use host:port syntax"@,
            ),
            Some(end) => if trimmed(endpoint.subrange(0, end)).len() == 0 {
                Err("internal RPC endpoint '"@ + endpoint + "' has empty host for TLS"@)
            } else {
                Ok(endpoint.subrange(0, end))
            },
        }
    }
}

/// The name that the certificate of an endpoint must carry.
pub open spec fn endpoint_server_name(endpoint: Seq<char>) -> Result<Seq<char>, Seq<char>> {
    match endpoint_host(endpoint) {
        Err(message) => Err(message),
        Ok(host) => if valid_server_name(trimmed(host)) {
            Ok(trimmed(host))
        } else {
            Err("invalid internal RPC TLS server name '"@ + host + "'"@)
        },
    }
}

/// A text, or the message that says why there is none.
pub open spec fn text_result(result: Result<String, String>) -> Result<Seq<char>, Seq<char>> {
    match result {
        Ok(text) => Ok(text@),
        Err(message) => Err(message@),
    }
}

/// The host of an endpoint, as it is written there.
pub fn host_from_endpoint(endpoint: &str) -> (res: Result<String, String>)
    ensures
        text_result(res) == endpoint_host(endpoint@),
{
    let chars = chars_of(endpoint);
    if chars.len() > 0 && chars[0] == '[' {
        let rest_text = text_of(&chars, 1, chars.len());
        let rest = chars_of(&rest_text);
        let end = match locate_char(&rest, ']') {
            Some(end) => end,
            None => {
                return Err(cat3("invalid internal RPC endpoint '", endpoint, "' for TLS"));
            },
        };
        let host = text_of(&rest, 0, end);
        if trim(&host).is_empty() {
            return Err(
                cat3("internal RPC endpoint '", endpoint, "' has empty host for TLS"),
            );
        }
        return Ok(host);
    }
    let mut n: usize = chars.len();
    assert(endpoint@.take(n as int) =~= endpoint@);
    while n > 0
        invariant
            n <= chars.len(),
            chars@ == endpoint@,
            !(chars.len() > 0 && chars@[0] == '['),
            find_last_char(endpoint@, ':') == find_last_char(endpoint@.take(n as int), ':'),
        decreases n,
    {
        assert(endpoint@.take(n as int).drop_last() =~= endpoint@.take(n - 1));
        assert(endpoint@.take(n as int).last() == chars@[n - 1]);
        if chars[n - 1] == ':' {
            let host = text_of(&chars, 0, n - 1);
            if trim(&host).is_empty() {
                return Err(
                    cat3("internal RPC endpoint '", endpoint, "' has empty host for TLS"),
                );
            }
            return Ok(host);
        }
        n -= 1;
    }
    Err(cat3("internal RPC endpoint '", endpoint, "' must use host:port syntax"))
}

/// The name that the certificate of an endpoint must carry.
pub fn tls_server_name_from_endpoint(endpoint: &str) -> (res: Result<String, String>)
    ensures
        text_result(res) == endpoint_server_name(endpoint@),
{
    let host = match host_from_endpoint(endpoint) {
        Ok(host) => host,
        Err(message) => {
            return Err(message);
        },
    };
    let name = trim(&host);
    if accepts_server_name(name) {
        Ok(owned(name))
    } else {
        Err(cat3("invalid internal RPC TLS server name '", &host, "'"))
    }
}

/// What a node can be asked by another one.
#[derive(Debug, Clone, Copy, PartialEq, Eq, Structural)]
pub enum InternalCall {
    IngestRows,
    IngestWrite,
    Select,
    SelectBatch,
    SelectSeries,
    QueryExemplars,
    ListMetrics,
    DigestWindow,
    DataSnapshot,
    DataRestore,
    RepairBackfill,
    ControlAppend,
    ControlInstallSnapshot,
    ControlAutoJoin,
}

/// Where a call is sent to.
pub open spec fn call_path(call: InternalCall) -> Seq<char> {
    match call {
        InternalCall::IngestRows => "/internal/v1/ingest_rows"@,
        InternalCall::IngestWrite => "/internal/v1/ingest_write"@,
        InternalCall::Select => "/internal/v1/select"@,
        InternalCall::SelectBatch => "/internal/v1/select_batch"@,
        InternalCall::SelectSeries => "/internal/v1/select_series"@,
        InternalCall::QueryExemplars => "/internal/v1/query_exemplars"@,
        InternalCall::ListMetrics => "/internal/v1/list_metrics"@,
        InternalCall::DigestWindow => "/internal/v1/digest_window"@,
        InternalCall::DataSnapshot => "/internal/v1/snapshot_data"@,
        InternalCall::DataRestore => "/internal/v1/restore_data"@,
        InternalCall::RepairBackfill => "/internal/v1/repair_backfill"@,
        InternalCall::ControlAppend => "/internal/v1/control/append"@,
        InternalCall::ControlInstallSnapshot => "/internal/v1/control/install_snapshot"@,
        InternalCall::ControlAutoJoin => "/internal/v1/control/auto_join"@,
    }
}

impl InternalCall {
    /// Where the call is sent to.
    pub fn path(self) -> (res: &'static str)
        ensures
            res@ == call_path(self),
    {
        match self {
            InternalCall::IngestRows => "/internal/v1/ingest_rows",
            InternalCall::IngestWrite => "/internal/v1/ingest_write",
            InternalCall::Select => "/internal/v1/select",
            InternalCall::SelectBatch => "/internal/v1/select_batch",
            InternalCall::SelectSeries => "/internal/v1/select_series",
            InternalCall::QueryExemplars => "/internal/v1/query_exemplars",
            InternalCall::ListMetrics => "/internal/v1/list_metrics",
            InternalCall::DigestWindow => "/internal/v1/digest_window",
            InternalCall::DataSnapshot => "/internal/v1/snapshot_data",
            InternalCall::DataRestore => "/internal/v1/restore_data",
            InternalCall::RepairBackfill => "/internal/v1/repair_backfill",
            InternalCall::ControlAppend => "/internal/v1/control/append",
            InternalCall::ControlInstallSnapshot => "/internal/v1/control/install_snapshot",
            InternalCall::ControlAutoJoin => "/internal/v1/control/auto_join",
        }
    }
}

} // verus!
