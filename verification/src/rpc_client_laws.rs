//! What a call to another node says and what becomes of its answer.

use vstd::prelude::*;
use crate::lists::{first_index, lemma_first_index, lemma_first_index_is, views};
use crate::parsing::joined;
use crate::rpc_auth::{header_value, ErrorView, HeaderView};
use crate::rpc_client::{
    call_outcome, endpoint_host, endpoint_server_name, find_char, find_last_char, gives_up,
    head_end, head_ends_at, header_line, header_lines, is_char, node_id_line, outcome_of,
    request_head, response_of, rpc_retryable, shown_token, status_code, valid_server_name,
    with_header, ParsedView, RpcClientConfig, RpcErrorView,
};
use crate::rpc_types::{
    INTERNAL_RPC_AUTH_HEADER, INTERNAL_RPC_CAPABILITIES_HEADER, INTERNAL_RPC_NODE_ID_HEADER,
    INTERNAL_RPC_VERSION_HEADER,
};
use crate::text::{decimal, lowered, trimmed};

verus! {

/// A text holds a header line.
pub open spec fn holds_line(head: Seq<char>, name: Seq<char>, value: Seq<char>) -> bool {
    exists|front: Seq<char>, back: Seq<char>|
        head == #[trigger] (front + "\r\n"@ + (name + ": "@ + value) + "\r\n"@ + back)
}

/// A call names its path and its host, says how long its body is, and carries the version of the
/// protocol, the token, the capabilities and, where there is one, the name of the node, each in a line
/// of its own.
pub proof fn law_request_carries_its_headers(
    config: RpcClientConfig,
    endpoint: Seq<char>,
    path: Seq<char>,
    body_len: nat,
)
    ensures
        ({
            let head = request_head(config, endpoint, path, body_len);
            &&& exists|rest: Seq<char>| head == #[trigger] ("POST "@ + path + " HTTP/1.1\r\n"@ + rest)
            &&& exists|front: Seq<char>| head == #[trigger] (front + "\r\n"@ + "\r\n"@)
            &&& holds_line(head, INTERNAL_RPC_VERSION_HEADER@, config.protocol_version@)
            &&& holds_line(
                head,
                INTERNAL_RPC_AUTH_HEADER@,
                match config.internal_auth_runtime {
                    Some(secret) => secret.current@,
                    None => config.internal_auth_token@,
                },
            )
            &&& holds_line(
                head,
                INTERNAL_RPC_CAPABILITIES_HEADER@,
                joined(views(config.compatibility.capabilities@), ","@),
            )
            &&& trimmed(config.local_node_id@).len() > 0 ==> holds_line(
                head,
                INTERNAL_RPC_NODE_ID_HEADER@,
                trimmed(config.local_node_id@),
            )
        }),
{
    let head = request_head(config, endpoint, path, body_len);
    let h0 = "POST "@;
    let h1 = h0 + path;
    let h2 = h1 + " HTTP/1.1\r\n"@;
    let h3 = h2 + "Host: "@;
    let h4 = h3 + endpoint;
    let h5 = h4 + "\r\n"@;
    let h6 = h5 + "Connection: close\r\n"@;
    let h7 = h6 + "Content-Type: application/json\r\n"@;
    let h8 = h7 + "Content-Length: "@;
    let h9 = h8 + decimal(body_len);
    let h10 = h9 + "\r\n"@;
    let h11 = h10 + INTERNAL_RPC_VERSION_HEADER@;
    let h12 = h11 + ": "@;
    let h13 = h12 + config.protocol_version@;
    let h14 = h13 + "\r\n"@;
    let h15 = h14 + INTERNAL_RPC_AUTH_HEADER@;
    let h16 = h15 + ": "@;
    let h17 = h16 + shown_token(config);
    let h18 = h17 + "\r\n"@;
    let h19 = h18 + INTERNAL_RPC_CAPABILITIES_HEADER@;
    let h20 = h19 + ": "@;
    let h21 = h20 + joined(views(config.compatibility.capabilities@), ","@);
    let h22 = h21 + "\r\n"@;
    let h23 = h22 + node_id_line(config.local_node_id@);
    let h24 = h23 + "\r\n"@;
    let t24 = Seq::<char>::empty();
    assert(head == h24);
    lemma_all(head);
    let t23 = "\r\n"@ + t24;
    lemma_shift(head, h23, "\r\n"@, t24);
    let t22 = node_id_line(config.local_node_id@) + t23;
    lemma_shift(head, h22, node_id_line(config.local_node_id@), t23);
    let t21 = "\r\n"@ + t22;
    lemma_shift(head, h21, "\r\n"@, t22);
    let t20 = joined(views(config.compatibility.capabilities@), ","@) + t21;
    lemma_shift(head, h20, joined(views(config.compatibility.capabilities@), ","@), t21);
    let t19 = ": "@ + t20;
    lemma_shift(head, h19, ": "@, t20);
    let t18 = INTERNAL_RPC_CAPABILITIES_HEADER@ + t19;
    lemma_shift(head, h18, INTERNAL_RPC_CAPABILITIES_HEADER@, t19);
    let t17 = "\r\n"@ + t18;
    lemma_shift(head, h17, "\r\n"@, t18);
    let t16 = shown_token(config) + t17;
    lemma_shift(head, h16, shown_token(config), t17);
    let t15 = ": "@ + t16;
    lemma_shift(head, h15, ": "@, t16);
    let t14 = INTERNAL_RPC_AUTH_HEADER@ + t15;
    lemma_shift(head, h14, INTERNAL_RPC_AUTH_HEADER@, t15);
    let t13 = "\r\n"@ + t14;
    lemma_shift(head, h13, "\r\n"@, t14);
    let t12 = config.protocol_version@ + t13;
    lemma_shift(head, h12, config.protocol_version@, t13);
    let t11 = ": "@ + t12;
    lemma_shift(head, h11, ": "@, t12);
    let t10 = INTERNAL_RPC_VERSION_HEADER@ + t11;
    lemma_shift(head, h10, INTERNAL_RPC_VERSION_HEADER@, t11);
    let t9 = "\r\n"@ + t10;
    lemma_shift(head, h9, "\r\n"@, t10);
    let t8 = decimal(body_len) + t9;
    lemma_shift(head, h8, decimal(body_len), t9);
    let t7 = "Content-Length: "@ + t8;
    lemma_shift(head, h7, "Content-Length: "@, t8);
    let t6 = "Content-Type: application/json\r\n"@ + t7;
    lemma_shift(head, h6, "Content-Type: application/json\r\n"@, t7);
    let t5 = "Connection: close\r\n"@ + t6;
    lemma_shift(head, h5, "Connection: close\r\n"@, t6);
    let t4 = "\r\n"@ + t5;
    lemma_shift(head, h4, "\r\n"@, t5);
    let t3 = endpoint + t4;
    lemma_shift(head, h3, endpoint, t4);
    let t2 = "Host: "@ + t3;
    lemma_shift(head, h2, "Host: "@, t3);
    lemma_line(head, h9, INTERNAL_RPC_VERSION_HEADER@, config.protocol_version@, t14);
    lemma_line(head, h13, INTERNAL_RPC_AUTH_HEADER@, shown_token(config), t18);
    lemma_line(head, h17, INTERNAL_RPC_CAPABILITIES_HEADER@, joined(views(config.compatibility.capabilities@), ","@), t22);
    let node = trimmed(config.local_node_id@);
    if node.len() > 0 {
        lemma_node_line(head, h21, INTERNAL_RPC_NODE_ID_HEADER@, node);
    } else {
        assert(h23 =~= h22);
    }
}

proof fn lemma_all(head: Seq<char>)
    ensures
        head == head + Seq::<char>::empty(),
{
    assert(head =~= head + Seq::<char>::empty());
}

proof fn lemma_shift(head: Seq<char>, front: Seq<char>, part: Seq<char>, back: Seq<char>)
    requires
        head == (front + part) + back,
    ensures
        head == front + (part + back),
{
    assert(head =~= front + (part + back));
}

proof fn lemma_line(
    head: Seq<char>,
    front: Seq<char>,
    name: Seq<char>,
    value: Seq<char>,
    back: Seq<char>,
)
    requires
        head == front + "\r\n"@ + name + ": "@ + value + "\r\n"@ + back,
    ensures
        holds_line(head, name, value),
{
    assert(head =~= front + "\r\n"@ + (name + ": "@ + value) + "\r\n"@ + back);
}

proof fn lemma_node_line(head: Seq<char>, front: Seq<char>, name: Seq<char>, value: Seq<char>)
    requires
        head == front + "\r\n"@ + (name + ": "@ + value + "\r\n"@) + "\r\n"@,
    ensures
        holds_line(head, name, value),
        exists|start: Seq<char>| head == #[trigger] (start + "\r\n"@ + "\r\n"@),
{
    let start = front + "\r\n"@ + (name + ": "@ + value);
    assert(head =~= front + "\r\n"@ + (name + ": "@ + value) + "\r\n"@ + "\r\n"@);
    assert(head =~= start + "\r\n"@ + "\r\n"@);
}

/// The head of an answer ends at its first empty line.
pub proof fn law_head_ends_at_the_first_empty_line(raw: Seq<u8>, n: nat)
    ensures
        match head_end(raw, n) {
            Some(i) => 0 <= i < n && head_ends_at(raw, i) && forall|k: int|
                0 <= k < i ==> !head_ends_at(raw, k),
            None => forall|k: int| 0 <= k < n ==> !head_ends_at(raw, k),
        },
    decreases n,
{
    if n > 0 {
        law_head_ends_at_the_first_empty_line(raw, (n - 1) as nat);
    }
}

/// The body of an answer that is taken is all that stands behind its head, or as much of it as the answer
/// says; one that is shorter than it says is not taken.
pub proof fn law_body_is_what_stands_behind_the_head(head: Seq<u8>, body: Seq<u8>)
    requires
        forall|k: int|
            0 <= k < head.len() ==> !head_ends_at(head + seq![13u8, 10, 13, 10] + body, k),
    ensures
        ({
            let raw = head + seq![13u8, 10, 13, 10] + body;
            response_of(raw) matches Ok(parsed) ==> match header_value(
                parsed.headers,
                "content-length"@,
            ) {
                None => parsed.body == body,
                Some(length) => exists|n: nat|
                    crate::parsing::numeral_value(length, usize::MAX as nat) == Some(n) && n
                        <= body.len() && parsed.body == #[trigger] body.take(n as int),
            }
        }),
{
    let raw = head + seq![13u8, 10, 13, 10] + body;
    law_head_ends_at_the_first_empty_line(raw, raw.len());
    assert(head_ends_at(raw, head.len() as int));
    match head_end(raw, raw.len()) {
        Some(end) => {
            assert(end == head.len());
            assert(raw.subrange(end + 4, raw.len() as int) =~= body);
            match response_of(raw) {
                Ok(parsed) => {
                    match header_value(parsed.headers, "content-length"@) {
                        None => {},
                        Some(length) => {
                            let n = crate::parsing::numeral_value(length, usize::MAX as nat)->0;
                            assert(body.subrange(0, n as int) =~= body.take(n as int));
                        },
                    }
                },
                Err(_) => {},
            }
        },
        None => {},
    }
}

/// Where a line of a header is split: at its first colon.
pub open spec fn splits_at(line: Seq<char>, i: int) -> bool {
    0 <= i < line.len() && line[i] == ':' && forall|k: int| 0 <= k < i ==> line[k] != ':'
}

proof fn lemma_set_header(
    headers: Seq<HeaderView>,
    name: Seq<char>,
    value: Seq<char>,
    other: Seq<char>,
)
    ensures
        header_value(with_header(headers, name, value), name) == Some(value),
        other != name ==> header_value(with_header(headers, name, value), other) == header_value(
            headers,
            other,
        ),
{
    let named = |header: HeaderView| header.name == name;
    let wanted = |header: HeaderView| header.name == other;
    let out = with_header(headers, name, value);
    lemma_first_index(headers, named);
    lemma_first_index(headers, wanted);
    match first_index(headers, named) {
        Some(i) => {
            assert forall|k: int| 0 <= k < i implies !named(#[trigger] out[k]) by {
                assert(out[k] == headers[k]);
            }
            lemma_first_index_is(out, named, i);
        },
        None => {
            let i = headers.len() as int;
            assert forall|k: int| 0 <= k < i implies !named(#[trigger] out[k]) by {
                assert(out[k] == headers[k]);
            }
            lemma_first_index_is(out, named, i);
        },
    }
    if other != name {
        assert forall|k: int| 0 <= k < headers.len() implies (#[trigger] wanted(out[k])) == wanted(
            headers[k],
        ) by {}
        match first_index(headers, wanted) {
            Some(i) => {
                assert(wanted(out[i]));
                assert forall|k: int| 0 <= k < i implies !wanted(#[trigger] out[k]) by {
                    assert(!wanted(headers[k]));
                }
                lemma_first_index_is(out, wanted, i);
                assert(out[i].value == headers[i].value);
            },
            None => {
                lemma_first_index(out, wanted);
                match first_index(out, wanted) {
                    Some(k) => {
                        assert(wanted(out[k]));
                        if k < headers.len() {
                            assert(!wanted(headers[k]));
                        }
                    },
                    None => {},
                }
            },
        }
    }
}

/// Every line of the head of an answer that is taken is a header: what stands before its first colon is
/// the name, in lower case, and what stands behind is the value. Of several lines with one name the
/// last counts.
pub proof fn law_last_line_of_a_name_counts(lines: Seq<Seq<char>>, n: nat, r: int, i: int)
    requires
        1 <= r < n <= lines.len(),
        header_lines(lines, n) is Ok,
        splits_at(lines[r], i),
        forall|k: int, j: int|
            r < k < n && #[trigger] splits_at(lines[k], j) ==> lowered(
                trimmed(lines[k].subrange(0, j)),
            ) != lowered(trimmed(lines[r].subrange(0, i))),
    ensures
        header_value(
            header_lines(lines, n)->Ok_0,
            lowered(trimmed(lines[r].subrange(0, i))),
        ) == Some(trimmed(lines[r].subrange(i + 1, lines[r].len() as int))),
    decreases n,
{
    let name = lowered(trimmed(lines[r].subrange(0, i)));
    let value = trimmed(lines[r].subrange(i + 1, lines[r].len() as int));
    let line = lines[n - 1];
    let before = header_lines(lines, (n - 1) as nat)->Ok_0;
    lemma_first_index(line, is_char(':'));
    if r < n - 1 {
        assert forall|k: int, j: int|
            r < k < n - 1 && #[trigger] splits_at(lines[k], j) implies lowered(
            trimmed(lines[k].subrange(0, j)),
        ) != name by {}
        law_last_line_of_a_name_counts(lines, (n - 1) as nat, r, i);
        if line.len() > 0 {
            let j = find_char(line, ':')->0;
            assert(is_char(':')(line[j]));
            assert forall|k: int| 0 <= k < j implies line[k] != ':' by {
                assert(!is_char(':')(line[k]));
            }
            assert(splits_at(lines[n - 1], j));
            lemma_set_header(
                before,
                lowered(trimmed(line.subrange(0, j))),
                trimmed(line.subrange(j + 1, line.len() as int)),
                name,
            );
        }
    } else {
        assert forall|k: int| 0 <= k < i implies !is_char(':')(#[trigger] line[k]) by {}
        lemma_first_index_is(line, is_char(':'), i);
        lemma_set_header(before, name, value, name);
    }
}

/// A line without a colon, without a name, or with a second length is not taken, nor is an answer in
/// another encoding.
pub proof fn law_lines_that_are_not_taken(headers: Seq<HeaderView>, line: Seq<char>, i: int)
    ensures
        line.len() > 0 && (forall|k: int| 0 <= k < line.len() ==> line[k] != ':') ==> header_line(
            headers,
            line,
        ) is Err,
        splits_at(line, i) && trimmed(line.subrange(0, i)).len() == 0 ==> header_line(headers, line)
            is Err,
        splits_at(line, i) && lowered(trimmed(line.subrange(0, i))) == "content-length"@
            && header_value(headers, "content-length"@) is Some ==> header_line(headers, line) is Err,
        splits_at(line, i) && lowered(trimmed(line.subrange(0, i))) == "transfer-encoding"@
            ==> header_line(headers, line) is Err,
{
    lemma_first_index(line, is_char(':'));
    if splits_at(line, i) {
        assert forall|k: int| 0 <= k < i implies !is_char(':')(#[trigger] line[k]) by {}
        lemma_first_index_is(line, is_char(':'), i);
    }
    if line.len() > 0 && (forall|k: int| 0 <= k < line.len() ==> line[k] != ':') {
        match find_char(line, ':') {
            Some(k) => {
                assert(is_char(':')(line[k]));
            },
            None => {},
        }
    }
}

/// A call has succeeded where its answer says so, and gives the body of the answer in full. Otherwise the
/// error names the call's own endpoint, and says whether to try again: as the answer does, or by the
/// status where it says nothing that can be read.
pub proof fn law_what_becomes_of_an_answer(
    endpoint: Seq<char>,
    path: Seq<char>,
    parsed: ParsedView,
    decoded: Option<ErrorView>,
)
    ensures
        outcome_of(endpoint, path, parsed, decoded) is Ok <==> 200 <= parsed.status <= 299,
        outcome_of(endpoint, path, parsed, decoded) matches Ok(body) ==> body == parsed.body,
        match outcome_of(endpoint, path, parsed, decoded) {
            Ok(_) => true,
            Err(RpcErrorView::ProtocolVersionMismatch { endpoint: at, expected, received }) => at
                == endpoint && parsed.status == 409 && decoded is Some && received
                == decoded->0.received_protocol_version && (
            decoded->0.expected_protocol_version is Some ==> Some(expected)
                == decoded->0.expected_protocol_version),
            Err(
                RpcErrorView::CompatibilityRejected {
                    endpoint: at,
                    path: to,
                    message,
                    missing_capabilities,
                },
            ) => at == endpoint && to == path && parsed.status == 409 && decoded is Some && message
                == decoded->0.error && missing_capabilities == decoded->0.missing_capabilities,
            Err(RpcErrorView::HttpStatus { endpoint: at, path: to, status, message, retryable }) => {
                &&& at == endpoint
                &&& to == path
                &&& status == parsed.status
                &&& decoded matches Some(error) ==> message == error.error && retryable
                    == error.retryable
                &&& decoded is None ==> (retryable <==> status == 500 || status == 502 || status
                    == 503 || status == 504)
            },
            Err(_) => false,
        },
        decoded matches Some(error) ==> parsed.status == 409 && error.code
            == "protocol_version_mismatch"@ ==> (outcome_of(endpoint, path, parsed, decoded) matches Err(failure) && failure is ProtocolVersionMismatch && !rpc_retryable(failure)),
{
}

/// A call is tried again as long as the error says so and retries are left: once more than retries are
/// allowed, in all.
pub proof fn law_calls_are_tried_again(max_retries: nat, attempts: nat, retryable: bool)
    ensures
        gives_up(max_retries, attempts, false),
        gives_up(max_retries, attempts, true) <==> attempts >= max_retries + 1,
{
}

/// An answer that cannot be read is a fault of the transport, which is worth another try.
pub proof fn law_unreadable_answers_are_worth_another_try(
    endpoint: Seq<char>,
    path: Seq<char>,
    raw: Seq<u8>,
    decoded: Option<ErrorView>,
)
    requires
        response_of(raw) is Err,
    ensures
        call_outcome(endpoint, path, raw, decoded) matches Err(error) && rpc_retryable(error) && (
        error matches RpcErrorView::Transport { endpoint: at, path: to, .. } && at == endpoint && to
            == path),
{
}

proof fn lemma_last_char(s: Seq<char>, c: char, i: int)
    requires
        0 <= i < s.len(),
        s[i] == c,
        forall|k: int| i < k < s.len() ==> s[k] != c,
    ensures
        find_last_char(s, c) == Some(i),
    decreases s.len(),
{
    if i < s.len() - 1 {
        let front = s.drop_last();
        assert(s.last() == s[s.len() - 1]);
        assert forall|k: int| i < k < front.len() implies front[k] != c by {
            assert(front[k] == s[k]);
        }
        lemma_last_char(front, c, i);
    }
}

/// The host of an endpoint is what stands before its last colon, or between brackets.
pub proof fn law_host_of_an_endpoint(host: Seq<char>, rest: Seq<char>)
    ensures
        trimmed(host).len() > 0 && host.len() > 0 && host[0] != '[' && !rest.contains(':')
            ==> endpoint_host(host + ":"@ + rest) == Ok::<Seq<char>, Seq<char>>(host),
        trimmed(host).len() > 0 && !host.contains(']') ==> endpoint_host("["@ + host + "]"@ + rest)
            == Ok::<Seq<char>, Seq<char>>(host),
{
    reveal_strlit(":");
    reveal_strlit("[");
    reveal_strlit("]");
    if trimmed(host).len() > 0 && host.len() > 0 && host[0] != '[' && !rest.contains(':') {
        let whole = host + ":"@ + rest;
        let i = host.len() as int;
        assert forall|k: int| i < k < whole.len() implies whole[k] != ':' by {
            assert(whole[k] == rest[k - i - 1]);
            if rest[k - i - 1] == ':' {
                assert(rest.contains(':'));
            }
        }
        lemma_last_char(whole, ':', i);
        assert(whole.subrange(0, i) =~= host);
        assert(whole[0] == host[0]);
    }
    if trimmed(host).len() > 0 && !host.contains(']') {
        let whole = "["@ + host + "]"@ + rest;
        let inner = whole.subrange(1, whole.len() as int);
        let i = host.len() as int;
        assert(inner[i] == ']');
        assert forall|k: int| 0 <= k < i implies !is_char(']')(#[trigger] inner[k]) by {
            assert(inner[k] == host[k]);
            if host[k] == ']' {
                assert(host.contains(']'));
            }
        }
        lemma_first_index_is(inner, is_char(']'), i);
        assert(inner.subrange(0, i) =~= host);
        assert(whole[0] == '[');
    }
}

/// The status of an answer is the number behind the version of the protocol; another version, or a line
/// without a number, is not taken.
pub proof fn law_status_of_an_answer(parts: Seq<Seq<char>>, status: u16)
    ensures
        parts.len() >= 2 && (parts[0] == "HTTP/1.1"@ || parts[0] == "HTTP/1.0"@) && parts[1]
            == decimal(status as nat) ==> status_code(parts) == Ok::<u16, Seq<char>>(status),
        parts.len() < 2 ==> status_code(parts) is Err,
        parts.len() >= 1 && parts[0] != "HTTP/1.1"@ && parts[0] != "HTTP/1.0"@ ==> status_code(parts)
            is Err,
{
    crate::text_laws::law_numbers_are_read_back(status as nat, u16::MAX as nat);
}

/// The name that a server must prove is the host of its endpoint, without white space at the ends, where
/// that can be the name of a server.
pub proof fn law_name_of_a_server(endpoint: Seq<char>)
    ensures
        endpoint_server_name(endpoint) matches Ok(name) ==> (endpoint_host(endpoint) matches Ok(host)
            && name == trimmed(host) && valid_server_name(name)),
        endpoint_host(endpoint) matches Ok(host) ==> (endpoint_server_name(endpoint) is Ok
            <==> valid_server_name(trimmed(host))),
        endpoint_host(endpoint) is Err ==> endpoint_server_name(endpoint) is Err,
{
}

} // verus!
