//! Who may call the endpoints that nodes offer each other: whoever knows the token, speaks the protocol,
//! can do what is required and, where that is asked for, is who it says it is.

use vstd::prelude::*;
use crate::lists::{
    first_index, lemma_first_index, lemma_first_index_is, lemma_ranked_sort_unique,
    lemma_text_less_total, lemma_text_less_transitive, ranks_consistently, ranks_totally, Ranked,
};
use crate::membership::ClusterNodeView;
use crate::parsing::{law_normal_list, normal_list, pieces};
use crate::rpc_auth::{
    api_from_membership, authorization, exemplar_capabilities, header_capabilities, header_value,
    histogram_capabilities, is_histogram, metadata_capabilities, missing_from, node_ids,
    node_signatures, row_capabilities, rows_with_histogram, shared_token, token_accepted,
    trimmed_items, write_capabilities, ApiView, BodyView, HeaderView,
};
use crate::rpc_types::{
    InternalRow, INTERNAL_RPC_AUTH_HEADER, INTERNAL_RPC_CAPABILITIES_HEADER,
    INTERNAL_RPC_NODE_ID_HEADER, INTERNAL_RPC_PROTOCOL_VERSION,
    INTERNAL_RPC_VERIFIED_NODE_ID_HEADER, INTERNAL_RPC_VERSION_HEADER,
};
use crate::text::{is_space, text_less, trimmed};

verus! {

/// A header has the value of the first line with its name, and none where no line has it.
pub proof fn law_first_header_line_counts(headers: Seq<HeaderView>, name: Seq<char>, i: int)
    ensures
        0 <= i < headers.len() && headers[i].name == name && (forall|k: int|
            0 <= k < i ==> (#[trigger] headers[k]).name != name) ==> header_value(headers, name)
            == Some(headers[i].value),
        (forall|k: int| 0 <= k < headers.len() ==> (#[trigger] headers[k]).name != name)
            ==> header_value(headers, name) is None,
{
    let named = |header: HeaderView| header.name == name;
    lemma_first_index(headers, named);
    if 0 <= i < headers.len() && headers[i].name == name && (forall|k: int|
        0 <= k < i ==> (#[trigger] headers[k]).name != name) {
        lemma_first_index_is(headers, named, i);
    }
    if forall|k: int| 0 <= k < headers.len() ==> (#[trigger] headers[k]).name != name {
        match first_index(headers, named) {
            Some(k) => {
                assert(headers[k].name == name);
            },
            None => {},
        }
    }
}

/// The token that is set at run time is accepted, now or before the last change of it; without one, the
/// token of the settings. A caller without a token is not accepted.
pub proof fn law_which_tokens_are_accepted(api: ApiView, provided: Option<Seq<char>>)
    ensures
        provided is None ==> !token_accepted(api, provided),
        api.auth_runtime is None ==> (token_accepted(api, provided) <==> provided == Some(
            api.auth_token,
        )),
        api.auth_runtime matches Some(secret) ==> (token_accepted(api, provided) <==> provided
            is Some && (provided->0 == secret.current || secret.previous == Some(provided->0))),
{
}

/// The items of a list are its texts without white space at their ends, but for those of which nothing
/// is left.
pub proof fn law_items_are_the_texts(list: Seq<Seq<char>>)
    ensures
        trimmed_items(list) == list.map_values(|text: Seq<char>| trimmed(text)).filter(
            |text: Seq<char>| text.len() > 0,
        ),
    decreases list.len(),
{
    reveal(Seq::filter);
    let cut = |text: Seq<char>| trimmed(text);
    let some = |text: Seq<char>| text.len() > 0;
    if list.len() > 0 {
        law_items_are_the_texts(list.drop_last());
        assert(list.map_values(cut).drop_last() =~= list.drop_last().map_values(cut));
    } else {
        assert(list.map_values(cut) =~= Seq::empty());
    }
}

proof fn lemma_items(list: Seq<Seq<char>>, item: Seq<char>)
    ensures
        trimmed_items(list).contains(item) <==> item.len() > 0 && exists|i: int|
            0 <= i < list.len() && trimmed(#[trigger] list[i]) == item,
    decreases list.len(),
{
    let out = trimmed_items(list);
    if list.len() > 0 {
        let front = list.drop_last();
        let before = trimmed_items(front);
        lemma_items(front, item);
        assert(list.last() == list[list.len() - 1]);
        if before.contains(item) {
            let k = choose|k: int| 0 <= k < before.len() && before[k] == item;
            assert(out[k] == item);
            let i = choose|i: int| 0 <= i < front.len() && trimmed(#[trigger] front[i]) == item;
            assert(list[i] == front[i]);
        }
        if out.contains(item) && !before.contains(item) {
            let k = choose|k: int| 0 <= k < out.len() && out[k] == item;
            if k < before.len() {
                assert(before[k] == item);
            }
            assert(trimmed(list[list.len() - 1]) == item);
        }
        if item.len() > 0 && exists|i: int| 0 <= i < list.len() && trimmed(#[trigger] list[i]) == item {
            let i = choose|i: int| 0 <= i < list.len() && trimmed(#[trigger] list[i]) == item;
            if i < front.len() {
                assert(front[i] == list[i]);
                assert(before.contains(item));
            } else {
                assert(out[out.len() - 1] == item);
            }
        }
    }
}

/// A capability is among those that the header names, separated by commas.
pub open spec fn names_capability(header: Option<Seq<char>>, capability: Seq<char>) -> bool {
    header is Some && exists|i: int|
        0 <= i < pieces(header->0, ',').len() && trimmed(#[trigger] pieces(header->0, ',')[i])
            == capability
}

proof fn lemma_trimmed_normal(list: Seq<Seq<char>>, item: Seq<char>)
    requires
        forall|i: int| 0 <= i < list.len() ==> trimmed(#[trigger] list[i]) == list[i] && list[i].len() > 0,
    ensures
        normal_list(list).contains(item) <==> list.contains(item),
{
    law_normal_list(list);
    if list.contains(item) {
        let i = choose|i: int| 0 <= i < list.len() && list[i] == item;
        assert(trimmed(list[i]) == item);
    }
    if normal_list(list).contains(item) {
        let i = choose|i: int| 0 <= i < list.len() && trimmed(#[trigger] list[i]) == item;
        assert(list[i] == item);
    }
}

proof fn lemma_received(header: Option<Seq<char>>, item: Seq<char>)
    requires
        item.len() > 0,
    ensures
        normal_list(header_capabilities(header)).contains(item) <==> names_capability(header, item),
{
    let list = header_capabilities(header);
    match header {
        Some(text) => {
            let parts = pieces(text, ',');
            assert forall|i: int| 0 <= i < list.len() implies trimmed(#[trigger] list[i]) == list[i]
                && list[i].len() > 0 by {
                assert(list.contains(list[i]));
                lemma_items(parts, list[i]);
                let k = choose|k: int| 0 <= k < parts.len() && trimmed(#[trigger] parts[k]) == list[i];
                crate::text::lemma_trimmed_twice(parts[k]);
            }
            lemma_trimmed_normal(list, item);
            lemma_items(parts, item);
        },
        None => {
            lemma_trimmed_normal(list, item);
        },
    }
}

proof fn lemma_missing(required: Seq<Seq<char>>, received: Seq<Seq<char>>, item: Seq<char>)
    ensures
        missing_from(required, received).contains(item) <==> required.contains(item)
            && !received.contains(item),
    decreases required.len(),
{
    let out = missing_from(required, received);
    if required.len() > 0 {
        let front = required.drop_last();
        let before = missing_from(front, received);
        lemma_missing(front, received, item);
        assert(required.last() == required[required.len() - 1]);
        if before.contains(item) {
            let k = choose|k: int| 0 <= k < before.len() && before[k] == item;
            assert(out[k] == item);
            let i = choose|i: int| 0 <= i < front.len() && front[i] == item;
            assert(required[i] == item);
        }
        if out.contains(item) && !before.contains(item) {
            let k = choose|k: int| 0 <= k < out.len() && out[k] == item;
            if k < before.len() {
                assert(before[k] == item);
            }
        }
        if required.contains(item) && !received.contains(item) {
            let i = choose|i: int| 0 <= i < required.len() && required[i] == item;
            if i < front.len() {
                assert(front[i] == item);
            } else {
                assert(out[out.len() - 1] == item);
            }
        }
    }
}

proof fn lemma_none_missing(required: Seq<Seq<char>>, received: Seq<Seq<char>>)
    ensures
        missing_from(required, received).len() == 0 <==> forall|i: int|
            0 <= i < required.len() ==> received.contains(#[trigger] required[i]),
    decreases required.len(),
{
    if required.len() > 0 {
        let front = required.drop_last();
        lemma_none_missing(front, received);
        assert(required.last() == required[required.len() - 1]);
        assert forall|i: int| 0 <= i < front.len() implies #[trigger] required[i] == front[i] by {}
        if forall|i: int| 0 <= i < required.len() ==> received.contains(#[trigger] required[i]) {
            assert forall|i: int| 0 <= i < front.len() implies received.contains(
                #[trigger] front[i],
            ) by {
                assert(received.contains(required[i]));
            }
        }
    }
}

/// The caller names every capability that the endpoint requires.
pub open spec fn names_all(header: Option<Seq<char>>, required: Seq<Seq<char>>) -> bool {
    forall|i: int|
        0 <= i < required.len() && trimmed(#[trigger] required[i]).len() > 0 ==> names_capability(
            header,
            trimmed(required[i]),
        )
}

/// The caller says who it is, which has been verified, and is a member unless anyone may call.
pub open spec fn identified(
    claimed: Option<Seq<char>>,
    verified: Option<Seq<char>>,
    api: ApiView,
    additional: Seq<Seq<char>>,
    allow_unknown: bool,
) -> bool {
    claimed is Some && claimed == verified && (allow_unknown || api.allowed_node_ids.contains(
        claimed->0,
    ) || additional.contains(claimed->0))
}

proof fn lemma_all_received(header: Option<Seq<char>>, endpoint_required: Seq<Seq<char>>)
    ensures
        missing_from(
            normal_list(endpoint_required),
            normal_list(header_capabilities(header)),
        ).len() == 0 <==> names_all(header, endpoint_required),
{
    let required = normal_list(endpoint_required);
    let received = normal_list(header_capabilities(header));
    lemma_none_missing(required, received);
    law_normal_list(endpoint_required);
    if names_all(header, endpoint_required) {
        assert forall|i: int| 0 <= i < required.len() implies received.contains(
            #[trigger] required[i],
        ) by {
            assert(required.contains(required[i]));
            let k = choose|k: int|
                0 <= k < endpoint_required.len() && trimmed(#[trigger] endpoint_required[k])
                    == required[i];
            lemma_received(header, required[i]);
        }
    }
    if forall|i: int| 0 <= i < required.len() ==> received.contains(#[trigger] required[i]) {
        assert forall|k: int|
            0 <= k < endpoint_required.len() && trimmed(#[trigger] endpoint_required[k]).len()
                > 0 implies names_capability(header, trimmed(endpoint_required[k])) by {
            let item = trimmed(endpoint_required[k]);
            assert(required.contains(item));
            let i = choose|i: int| 0 <= i < required.len() && required[i] == item;
            assert(received.contains(required[i]));
            lemma_received(header, item);
        }
    }
}

/// A call is let through where the caller knows the token, speaks the protocol, names every capability
/// that the endpoint requires, in any order, and is identified where that is asked for; and never
/// otherwise.
pub proof fn law_who_may_call(
    headers: Seq<HeaderView>,
    api: ApiView,
    additional: Seq<Seq<char>>,
    allow_unknown: bool,
    endpoint_required: Seq<Seq<char>>,
)
    ensures
        authorization(headers, Some(api), additional, allow_unknown, endpoint_required) is Ok
            <==> token_accepted(api, header_value(headers, INTERNAL_RPC_AUTH_HEADER@))
            && header_value(headers, INTERNAL_RPC_VERSION_HEADER@) == Some(api.protocol_version)
            && names_all(
            header_value(headers, INTERNAL_RPC_CAPABILITIES_HEADER@),
            endpoint_required,
        ) && (api.require_mtls ==> identified(
            header_value(headers, INTERNAL_RPC_NODE_ID_HEADER@),
            header_value(headers, INTERNAL_RPC_VERIFIED_NODE_ID_HEADER@),
            api,
            additional,
            allow_unknown,
        )),
{
    lemma_all_received(
        header_value(headers, INTERNAL_RPC_CAPABILITIES_HEADER@),
        endpoint_required,
    );
}

/// What a refused caller is answered: nothing is there where nodes offer no endpoints; then the token
/// is asked for, then the protocol, then the capabilities, each of those that are missing, then the
/// identity. None of these answers asks to try again.
pub proof fn law_what_a_refused_caller_is_answered(
    headers: Seq<HeaderView>,
    api: ApiView,
    additional: Seq<Seq<char>>,
    allow_unknown: bool,
    endpoint_required: Seq<Seq<char>>,
)
    ensures
        authorization(headers, None, additional, allow_unknown, endpoint_required) matches Err(answer)
            && answer.status == 404,
        ({
            let decision = authorization(
                headers,
                Some(api),
                additional,
                allow_unknown,
                endpoint_required,
            );
            let known = token_accepted(api, header_value(headers, INTERNAL_RPC_AUTH_HEADER@));
            let version = header_value(headers, INTERNAL_RPC_VERSION_HEADER@);
            let named = header_value(headers, INTERNAL_RPC_CAPABILITIES_HEADER@);
            &&& decision matches Err(answer) ==> (answer.body matches BodyView::Error(error)
                && !error.retryable)
            &&& !known ==> (decision matches Err(answer) && answer.status == 401 && (
            answer.body matches BodyView::Error(error) && error.code == "internal_auth_failed"@))
            &&& known && version != Some(api.protocol_version) ==> (decision matches Err(answer)
                && answer.status == 409 && (answer.body matches BodyView::Error(error) && error.code
                == "protocol_version_mismatch"@ && error.expected_protocol_version == Some(
                api.protocol_version,
            ) && error.received_protocol_version == version))
            &&& known && version == Some(api.protocol_version) && !names_all(
                named,
                endpoint_required,
            ) ==> (decision matches Err(answer) && answer.status == 409 && (
            answer.body matches BodyView::Error(error) && error.code == "peer_capability_missing"@
                && (forall|item: Seq<char>| #[trigger]
                error.missing_capabilities.contains(item) <==> item.len() > 0 && !names_capability(
                    named,
                    item,
                ) && exists|i: int|
                    0 <= i < endpoint_required.len() && trimmed(#[trigger] endpoint_required[i])
                        == item)))
            &&& known && version == Some(api.protocol_version) && names_all(
                named,
                endpoint_required,
            ) && decision is Err ==> (decision matches Err(answer) && answer.status == 401 && (
            answer.body matches BodyView::Error(error) && error.code
                == "internal_mtls_auth_failed"@))
        }),
{
    let named = header_value(headers, INTERNAL_RPC_CAPABILITIES_HEADER@);
    let required = normal_list(endpoint_required);
    let received = normal_list(header_capabilities(named));
    let missing = missing_from(required, received);
    lemma_all_received(named, endpoint_required);
    law_normal_list(endpoint_required);
    assert forall|item: Seq<char>| #[trigger] missing.contains(item) <==> item.len() > 0
        && !names_capability(named, item) && exists|i: int|
        0 <= i < endpoint_required.len() && trimmed(#[trigger] endpoint_required[i]) == item by {
        lemma_missing(required, received, item);
        if item.len() > 0 {
            lemma_received(named, item);
        }
    }
}

proof fn lemma_histogram_capabilities()
    ensures
        forall|i: int|
            0 <= i < histogram_capabilities().len() ==> trimmed(
                #[trigger] histogram_capabilities()[i],
            ) == histogram_capabilities()[i] && histogram_capabilities()[i].len() > 0,
{
    reveal_strlit("histogram_ingest_v1");
    reveal_strlit("histogram_storage_v1");
    let list = histogram_capabilities();
    assert forall|i: int| 0 <= i < list.len() implies trimmed(#[trigger] list[i]) == list[i]
        && list[i].len() > 0 by {
        assert(!is_space(list[i][0]));
        assert(!is_space(list[i].last()));
    }
}

/// Histograms ask for what handles them, wherever in the rows one stands; nothing that was asked for
/// besides is dropped, and nothing else is added.
pub proof fn law_what_rows_ask_for(
    rows: Seq<InternalRow>,
    explicit: Seq<Seq<char>>,
    item: Seq<char>,
)
    ensures
        row_capabilities(rows, explicit).contains(item) <==> item.len() > 0 && ((exists|i: int|
            0 <= i < explicit.len() && trimmed(#[trigger] explicit[i]) == item) || (
        histogram_capabilities().contains(item) && exists|r: int|
            0 <= r < rows.len() && (#[trigger] rows[r]).data_point.value is Histogram)),
{
    let all = explicit + histogram_capabilities();
    lemma_histogram_capabilities();
    law_normal_list(explicit);
    law_normal_list(all);
    if rows_with_histogram(rows) {
        let r = choose|r: int| 0 <= r < rows.len() && is_histogram((#[trigger] rows[r]).data_point);
        assert(rows[r].data_point.value is Histogram);
        if row_capabilities(rows, explicit).contains(item) {
            let i = choose|i: int| 0 <= i < all.len() && trimmed(#[trigger] all[i]) == item;
            if i < explicit.len() {
                assert(explicit[i] == all[i]);
            } else {
                assert(histogram_capabilities()[i - explicit.len()] == all[i]);
            }
        }
        if exists|i: int| 0 <= i < explicit.len() && trimmed(#[trigger] explicit[i]) == item {
            let i = choose|i: int| 0 <= i < explicit.len() && trimmed(#[trigger] explicit[i]) == item;
            assert(all[i] == explicit[i]);
        }
        if histogram_capabilities().contains(item) {
            let k = choose|k: int|
                0 <= k < histogram_capabilities().len() && histogram_capabilities()[k] == item;
            assert(trimmed(histogram_capabilities()[k]) == item);
            assert(all[explicit.len() + k] == item);
            assert(trimmed(all[explicit.len() + k]) == item);
        }
    } else {
        assert forall|r: int| 0 <= r < rows.len() implies !(
        (#[trigger] rows[r]).data_point.value is Histogram) by {
            assert(!is_histogram(rows[r].data_point));
        }
    }
}

/// Endpoints are guarded by the token that is given, or by one that the members share where their
/// identity is verified; without either they are not offered. Just the members may call.
pub proof fn law_endpoints_are_guarded(
    nodes: Seq<ClusterNodeView>,
    require_mtls: bool,
    auth_token: Option<Seq<char>>,
)
    ensures
        ({
            let api = api_from_membership(nodes, require_mtls, auth_token);
            let given = auth_token is Some && trimmed(auth_token->0).len() > 0;
            &&& api is Ok <==> given || require_mtls
            &&& api matches Ok(guard) ==> {
                &&& guard.auth_token == if given {
                    trimmed(auth_token->0)
                } else {
                    shared_token(nodes)
                }
                &&& guard.protocol_version == INTERNAL_RPC_PROTOCOL_VERSION@
                &&& guard.require_mtls == require_mtls
                &&& guard.auth_runtime is None
                &&& forall|id: Seq<char>| #[trigger]
                    guard.allowed_node_ids.contains(id) <==> id.len() > 0 && exists|i: int|
                        0 <= i < nodes.len() && trimmed((#[trigger] nodes[i]).id) == id
            }
        }),
{
    let ids = node_ids(nodes);
    law_normal_list(ids);
    assert forall|id: Seq<char>| #[trigger] normal_list(ids).contains(id) <==> id.len() > 0
        && exists|i: int| 0 <= i < nodes.len() && trimmed((#[trigger] nodes[i]).id) == id by {
        if normal_list(ids).contains(id) {
            let i = choose|i: int| 0 <= i < ids.len() && trimmed(#[trigger] ids[i]) == id;
            assert(trimmed(nodes[i].id) == id);
        }
        if exists|i: int| 0 <= i < nodes.len() && trimmed((#[trigger] nodes[i]).id) == id {
            let i = choose|i: int| 0 <= i < nodes.len() && trimmed((#[trigger] nodes[i]).id) == id;
            assert(trimmed(ids[i]) == id);
        }
    }
}

proof fn lemma_texts_rank()
    ensures
        ranks_consistently::<String>(),
        ranks_totally::<String>(),
{
    assert forall|a: Seq<char>, b: Seq<char>| #[trigger] String::before(a, b) implies
        !String::before(b, a) by {
        lemma_text_less_total(a, b);
    }
    assert forall|a: Seq<char>, b: Seq<char>| a == b || #[trigger] String::before(a, b)
        || String::before(b, a) by {
        lemma_text_less_total(a, b);
    }
    assert forall|a: Seq<char>, b: Seq<char>, c: Seq<char>|
        !(#[trigger] String::before(b, a)) && !(#[trigger] String::before(c, b)) implies
        !String::before(c, a) by {
        lemma_text_less_total(a, b);
        lemma_text_less_total(b, c);
        lemma_text_less_total(a, c);
        if text_less(a, b) && text_less(b, c) {
            lemma_text_less_transitive(a, b, c);
        }
    }
}

/// The token that members share does not depend on the order in which they are listed.
pub proof fn law_shared_token_does_not_depend_on_order(
    nodes: Seq<ClusterNodeView>,
    others: Seq<ClusterNodeView>,
)
    requires
        node_signatures(nodes).to_multiset() == node_signatures(others).to_multiset(),
    ensures
        shared_token(nodes) == shared_token(others),
{
    lemma_texts_rank();
    lemma_ranked_sort_unique::<String>(node_signatures(nodes), node_signatures(others));
}

proof fn lemma_plain_capabilities()
    ensures
        forall|i: int|
            0 <= i < metadata_capabilities().len() ==> trimmed(
                #[trigger] metadata_capabilities()[i],
            ) == metadata_capabilities()[i] && metadata_capabilities()[i].len() > 0,
        forall|i: int|
            0 <= i < exemplar_capabilities().len() ==> trimmed(
                #[trigger] exemplar_capabilities()[i],
            ) == exemplar_capabilities()[i] && exemplar_capabilities()[i].len() > 0,
{
    reveal_strlit("metadata_ingest_v1");
    reveal_strlit("metadata_store_v1");
    reveal_strlit("exemplar_ingest_v1");
    let list = metadata_capabilities();
    assert forall|i: int| 0 <= i < list.len() implies trimmed(#[trigger] list[i]) == list[i]
        && list[i].len() > 0 by {
        assert(!is_space(list[i][0]));
        assert(!is_space(list[i].last()));
    }
    let other = exemplar_capabilities();
    assert forall|i: int| 0 <= i < other.len() implies trimmed(#[trigger] other[i]) == other[i]
        && other[i].len() > 0 by {
        assert(!is_space(other[i][0]));
        assert(!is_space(other[i].last()));
    }
}

proof fn lemma_added(list: Seq<Seq<char>>, more: Seq<Seq<char>>, item: Seq<char>)
    requires
        forall|i: int| 0 <= i < list.len() ==> trimmed(#[trigger] list[i]) == list[i] && list[i].len() > 0,
        forall|i: int| 0 <= i < more.len() ==> trimmed(#[trigger] more[i]) == more[i] && more[i].len() > 0,
    ensures
        forall|i: int|
            0 <= i < (list + more).len() ==> trimmed(#[trigger] (list + more)[i]) == (list + more)[i]
                && (list + more)[i].len() > 0,
        (list + more).contains(item) <==> list.contains(item) || more.contains(item),
{
    let all = list + more;
    assert forall|i: int| 0 <= i < all.len() implies trimmed(#[trigger] all[i]) == all[i]
        && all[i].len() > 0 by {
        if i < list.len() {
            assert(all[i] == list[i]);
        } else {
            assert(all[i] == more[i - list.len()]);
        }
    }
    if all.contains(item) {
        let i = choose|i: int| 0 <= i < all.len() && all[i] == item;
        if i < list.len() {
            assert(list[i] == item);
        } else {
            assert(more[i - list.len()] == item);
        }
    }
    if list.contains(item) {
        let i = choose|i: int| 0 <= i < list.len() && list[i] == item;
        assert(all[i] == item);
    }
    if more.contains(item) {
        let i = choose|i: int| 0 <= i < more.len() && more[i] == item;
        assert(all[list.len() + i] == item);
    }
}

/// A write asks for what its rows ask for, for what handles metadata where it brings any, and for what
/// handles exemplars where it brings any, and for nothing else.
pub proof fn law_what_a_write_asks_for(
    rows: Seq<InternalRow>,
    exemplars: nat,
    metadata_updates: nat,
    explicit: Seq<Seq<char>>,
    item: Seq<char>,
)
    ensures
        write_capabilities(rows, exemplars, metadata_updates, explicit).contains(item)
            <==> row_capabilities(rows, explicit).contains(item) || (metadata_updates > 0
            && metadata_capabilities().contains(item)) || (exemplars > 0
            && exemplar_capabilities().contains(item)),
{
    let of_rows = row_capabilities(rows, explicit);
    let source = if rows_with_histogram(rows) {
        explicit + histogram_capabilities()
    } else {
        explicit
    };
    law_normal_list(source);
    assert forall|i: int| 0 <= i < of_rows.len() implies trimmed(#[trigger] of_rows[i]) == of_rows[i]
        && of_rows[i].len() > 0 by {
        assert(of_rows.contains(of_rows[i]));
        let k = choose|k: int| 0 <= k < source.len() && trimmed(#[trigger] source[k]) == of_rows[i];
        crate::text::lemma_trimmed_twice(source[k]);
    }
    lemma_plain_capabilities();
    let with_metadata = if metadata_updates > 0 {
        of_rows + metadata_capabilities()
    } else {
        of_rows
    };
    lemma_added(of_rows, metadata_capabilities(), item);
    let all = if exemplars > 0 {
        with_metadata + exemplar_capabilities()
    } else {
        with_metadata
    };
    lemma_added(with_metadata, exemplar_capabilities(), item);
    lemma_trimmed_normal(all, item);
}

} // verus!
