//! Who is let in: whoever has a binding that reaches the resource, of a role that grants the action on
//! it, and nobody else.

use vstd::prelude::*;
use vstd::utf8::encode_utf8;
use crate::crypto::{
    base64url_bytes, ecdsa_p256_accepts, hmac_sha256_accepts, rsa_sha256_accepts, MAX_DIGEST_INPUT,
};
use crate::json::{json_colons, member_value, parsed_json, DocumentView, JsonFieldView};
use crate::lists::{first_index, lemma_first_index, lemma_first_index_is};
use crate::parsing::pieces;
use crate::rbac_decision::{
    access_decision, account_decision, account_has, allowing, allows, bindings_decision, claim_fits,
    claim_number, claim_text, claim_texts, claims_denial, granted, in_scope, issued_by, key_usable,
    list_texts, mapped_bindings, pattern_fits, principal_decision, principal_has, resource_fits,
    signature_denial, signed_decision, token_decision, token_header, usable, Applicant, HeaderView,
};
use crate::rbac_types::{
    AccountView, BindingView, ConfigView, KeyView, MappingView, PermissionView, PrincipalView,
    ProviderView, ResourceView, RolesView, OIDC_CLOCK_SKEW_SECONDS,
};
use crate::text::trimmed;

verus! {

/// A text covers itself, and one that ends in a star covers every text that goes on from what stands
/// before the star.
pub open spec fn covers(pattern: Seq<char>, value: Seq<char>) -> bool {
    pattern == value || exists|rest: Seq<char>|
        pattern.len() > 0 && pattern.last() == '*' && value == #[trigger] (pattern.drop_last()
            + rest)
}

/// A binding reaches a resource by the scope at `s`, or everywhere where it has no scopes.
pub open spec fn reaches_by(binding: BindingView, resource: ResourceView, s: int) -> bool {
    binding.scopes.len() == 0 || (0 <= s < binding.scopes.len() && binding.scopes[s].kind
        == resource.kind && covers(binding.scopes[s].name, resource.name))
}

/// A role grants an action on a resource by the grant at `g`.
pub open spec fn grants_by(
    roles: RolesView,
    role: Seq<char>,
    permission: PermissionView,
    g: int,
) -> bool {
    roles.grants.dom().contains(role) && 0 <= g < roles.grants[role].len()
        && roles.grants[role][g].action == permission.action
        && roles.grants[role][g].resource.kind == permission.resource.kind && covers(
        roles.grants[role][g].resource.name,
        permission.resource.name,
    )
}

/// Some binding reaches the resource and is of a role that grants the action on it.
pub open spec fn has_access(
    roles: RolesView,
    binding: BindingView,
    permission: PermissionView,
) -> bool {
    (exists|s: int| #[trigger] reaches_by(binding, permission.resource, s)) && exists|g: int|
        #[trigger] grants_by(roles, binding.role, permission, g)
}

/// A pattern is fitted by what it covers.
pub proof fn law_patterns_cover(pattern: Seq<char>, value: Seq<char>)
    ensures
        pattern_fits(pattern, value) <==> covers(pattern, value),
{
    if pattern.len() > 0 && pattern.last() == '*' {
        let start = pattern.drop_last();
        if pattern_fits(pattern, value) {
            let rest = value.skip(start.len() as int);
            assert(value =~= start + rest);
        }
        if pattern == value {
            assert(value =~= start + seq!['*']);
            assert(value.take(start.len() as int) =~= start);
        }
        if exists|rest: Seq<char>| value == #[trigger] (start + rest) {
            let rest = choose|rest: Seq<char>| value == #[trigger] (start + rest);
            assert(value.take(start.len() as int) =~= start);
        }
    }
}

proof fn lemma_reach(binding: BindingView, resource: ResourceView)
    ensures
        in_scope(binding.scopes, resource) <==> exists|s: int| #[trigger]
            reaches_by(binding, resource, s),
{
    let scopes = binding.scopes;
    assert forall|s: int| 0 <= s < scopes.len() implies (resource_fits(
        #[trigger] scopes[s],
        resource,
    ) <==> scopes[s].kind == resource.kind && covers(scopes[s].name, resource.name)) by {
        law_patterns_cover(scopes[s].name, resource.name);
    }
    if scopes.len() == 0 {
        assert(reaches_by(binding, resource, 0));
    } else if in_scope(scopes, resource) {
        let s = choose|s: int|
            0 <= s < scopes.len() && resource_fits(#[trigger] scopes[s], resource);
        assert(reaches_by(binding, resource, s));
    }
}

proof fn lemma_grant(roles: RolesView, role: Seq<char>, permission: PermissionView)
    requires
        roles.grants.dom().contains(role),
    ensures
        granted(roles.grants[role], permission) <==> exists|g: int| #[trigger]
            grants_by(roles, role, permission, g),
{
    let grants = roles.grants[role];
    assert forall|g: int| 0 <= g < grants.len() implies (resource_fits(
        (#[trigger] grants[g]).resource,
        permission.resource,
    ) <==> grants[g].resource.kind == permission.resource.kind && covers(
        grants[g].resource.name,
        permission.resource.name,
    )) by {
        law_patterns_cover(grants[g].resource.name, permission.resource.name);
    }
    if granted(grants, permission) {
        let g = choose|g: int|
            0 <= g < grants.len() && (#[trigger] grants[g]).action == permission.action
                && resource_fits(grants[g].resource, permission.resource);
        assert(grants_by(roles, role, permission, g));
    }
}

proof fn lemma_allows(roles: RolesView, binding: BindingView, permission: PermissionView)
    ensures
        allows(roles, binding, permission) <==> has_access(roles, binding, permission),
{
    lemma_reach(binding, permission.resource);
    if roles.grants.dom().contains(binding.role) {
        lemma_grant(roles, binding.role, permission);
    }
}

/// Whoever has a binding of which any scope fits the resource, wherever the scope stands, of a known
/// role with any grant of the action on the resource, is let in.
pub proof fn law_any_fitting_scope_lets_in(
    roles: RolesView,
    bindings: Seq<BindingView>,
    who: Applicant,
    permission: PermissionView,
    b: int,
    s: int,
    g: int,
)
    requires
        0 <= b < bindings.len(),
        reaches_by(bindings[b], permission.resource, s),
        grants_by(roles, bindings[b].role, permission, g),
    ensures
        bindings_decision(roles, bindings, who, permission) is Ok,
{
    lemma_allows(roles, bindings[b], permission);
    lemma_first_index(bindings, allowing(roles, permission));
    if first_index(bindings, allowing(roles, permission)) is None {
        assert(!allowing(roles, permission)(bindings[b]));
    }
}

/// Whoever is let in is let in by the first binding that gives access, under their own name, with the
/// role of that binding. Whoever has no such binding is refused, under their own name.
pub proof fn law_first_binding_with_access_decides(
    roles: RolesView,
    bindings: Seq<BindingView>,
    who: Applicant,
    permission: PermissionView,
)
    ensures
        match bindings_decision(roles, bindings, who, permission) {
            Ok(grant) => {
                &&& exists|b: int|
                    0 <= b < bindings.len() && has_access(
                        roles,
                        #[trigger] bindings[b],
                        permission,
                    ) && grant.role == bindings[b].role && forall|k: int|
                        0 <= k < b ==> !has_access(roles, #[trigger] bindings[k], permission)
                &&& grant.principal_id == who.principal_id
                &&& grant.auth_method == who.auth_method
                &&& grant.provider == who.provider
                &&& grant.subject == who.subject
                &&& grant.display_name == who.display_name
            },
            Err(denial) => {
                &&& forall|b: int|
                    0 <= b < bindings.len() ==> !has_access(
                        roles,
                        #[trigger] bindings[b],
                        permission,
                    )
                &&& denial.status == 403
                &&& denial.code == "auth_scope_denied"@
                &&& denial.detail is None
                &&& denial.identity.principal_id == Some(who.principal_id)
                &&& denial.identity.auth_method == Some(who.auth_method)
                &&& denial.identity.provider == who.provider
                &&& denial.identity.subject == who.subject
            },
        },
{
    let allowed = allowing(roles, permission);
    lemma_first_index(bindings, allowed);
    assert forall|b: int| 0 <= b < bindings.len() implies (allowed(#[trigger] bindings[b])
        <==> has_access(roles, bindings[b], permission)) by {
        lemma_allows(roles, bindings[b], permission);
    }
}

/// Whether a binding reaches a resource does not depend on the order of its scopes, nor on how often
/// one is written down.
pub proof fn law_order_of_scopes_does_not_matter(
    scopes: Seq<ResourceView>,
    others: Seq<ResourceView>,
    resource: ResourceView,
)
    requires
        forall|scope: ResourceView|
            #![trigger scopes.contains(scope)]
            #![trigger others.contains(scope)]
            scopes.contains(scope) <==> others.contains(scope),
    ensures
        in_scope(scopes, resource) == in_scope(others, resource),
{
    if scopes.len() > 0 {
        assert(scopes.contains(scopes[0]));
        assert(others.len() > 0);
    }
    if others.len() > 0 {
        assert(others.contains(others[0]));
        assert(scopes.len() > 0);
    }
    if scopes.len() > 0 && in_scope(scopes, resource) {
        let i = choose|i: int|
            0 <= i < scopes.len() && resource_fits(#[trigger] scopes[i], resource);
        assert(scopes.contains(scopes[i]));
        let k = choose|k: int| 0 <= k < others.len() && others[k] == scopes[i];
        assert(resource_fits(others[k], resource));
    }
    if others.len() > 0 && in_scope(others, resource) {
        let i = choose|i: int|
            0 <= i < others.len() && resource_fits(#[trigger] others[i], resource);
        assert(others.contains(others[i]));
        let k = choose|k: int| 0 <= k < scopes.len() && scopes[k] == others[i];
        assert(resource_fits(scopes[k], resource));
    }
}

/// Two lists of bindings of the same roles, whose scopes differ in their order alone, decide alike.
pub proof fn law_decisions_do_not_depend_on_the_order_of_scopes(
    roles: RolesView,
    bindings: Seq<BindingView>,
    others: Seq<BindingView>,
    who: Applicant,
    permission: PermissionView,
)
    requires
        bindings.len() == others.len(),
        forall|b: int|
            0 <= b < bindings.len() ==> (#[trigger] bindings[b]).role == others[b].role
                && forall|scope: ResourceView|
                #![trigger bindings[b].scopes.contains(scope)]
                #![trigger others[b].scopes.contains(scope)]
                bindings[b].scopes.contains(scope) <==> others[b].scopes.contains(scope),
    ensures
        bindings_decision(roles, bindings, who, permission) == bindings_decision(
            roles,
            others,
            who,
            permission,
        ),
{
    let allowed = allowing(roles, permission);
    assert forall|b: int| 0 <= b < bindings.len() implies allowed(#[trigger] bindings[b])
        == allowed(others[b]) by {
        law_order_of_scopes_does_not_matter(
            bindings[b].scopes,
            others[b].scopes,
            permission.resource,
        );
    }
    lemma_first_index(bindings, allowed);
    match first_index(bindings, allowed) {
        Some(i) => {
            assert forall|k: int| 0 <= k < i implies !allowed(#[trigger] others[k]) by {
                assert(!allowed(bindings[k]));
            }
            assert(allowed(bindings[i]));
            lemma_first_index_is(others, allowed, i);
        },
        None => {
            lemma_first_index(others, allowed);
            match first_index(others, allowed) {
                Some(k) => {
                    assert(!allowed(bindings[k]));
                },
                None => {},
            }
        },
    }
}

/// One more scope, wherever it is put, takes no access away from a binding that has scopes.
pub proof fn law_more_scopes_take_no_access_away(
    roles: RolesView,
    bindings: Seq<BindingView>,
    who: Applicant,
    permission: PermissionView,
    b: int,
    at: int,
    scope: ResourceView,
)
    requires
        0 <= b < bindings.len(),
        bindings[b].scopes.len() > 0,
        0 <= at <= bindings[b].scopes.len(),
        bindings_decision(roles, bindings, who, permission) is Ok,
    ensures
        bindings_decision(
            roles,
            bindings.update(
                b,
                BindingView {
                    role: bindings[b].role,
                    scopes: bindings[b].scopes.insert(at, scope),
                },
            ),
            who,
            permission,
        ) is Ok,
{
    let allowed = allowing(roles, permission);
    let wider = BindingView {
        role: bindings[b].role,
        scopes: bindings[b].scopes.insert(at, scope),
    };
    let after = bindings.update(b, wider);
    lemma_first_index(bindings, allowed);
    lemma_first_index(after, allowed);
    let i = first_index(bindings, allowed)->0;
    assert(allowed(bindings[i]));
    if i == b {
        let scopes = bindings[b].scopes;
        let s = choose|s: int|
            0 <= s < scopes.len() && resource_fits(#[trigger] scopes[s], permission.resource);
        let moved = if s < at {
            s
        } else {
            s + 1
        };
        assert(wider.scopes[moved] == scopes[s]);
        assert(in_scope(wider.scopes, permission.resource));
        assert(allowed(after[i]));
    } else {
        assert(after[i] == bindings[i]);
    }
    if first_index(after, allowed) is None {
        assert(!allowed(after[i]));
    }
}

/// One more binding, wherever it is put, takes no access away.
pub proof fn law_more_bindings_take_no_access_away(
    roles: RolesView,
    bindings: Seq<BindingView>,
    who: Applicant,
    permission: PermissionView,
    at: int,
    binding: BindingView,
)
    requires
        0 <= at <= bindings.len(),
        bindings_decision(roles, bindings, who, permission) is Ok,
    ensures
        bindings_decision(roles, bindings.insert(at, binding), who, permission) is Ok,
{
    let allowed = allowing(roles, permission);
    let after = bindings.insert(at, binding);
    lemma_first_index(bindings, allowed);
    lemma_first_index(after, allowed);
    let i = first_index(bindings, allowed)->0;
    let moved = if i < at {
        i
    } else {
        i + 1
    };
    assert(after[moved] == bindings[i]);
    if first_index(after, allowed) is None {
        assert(!allowed(after[moved]));
    }
}

/// A principal or a service account that is not shut out is let in by its own bindings, under its own
/// name; one that is shut out is refused, under its own name.
pub proof fn law_who_asks_is_who_is_named(
    roles: RolesView,
    principal: PrincipalView,
    account: AccountView,
    permission: PermissionView,
)
    ensures
        principal_decision(roles, principal, permission) is Ok <==> !principal.disabled && exists|
            b: int,
        |
            0 <= b < principal.bindings.len() && has_access(
                roles,
                #[trigger] principal.bindings[b],
                permission,
            ),
        account_decision(roles, account, permission) is Ok <==> !account.disabled && exists|b: int|
            0 <= b < account.bindings.len() && has_access(
                roles,
                #[trigger] account.bindings[b],
                permission,
            ),
        match principal_decision(roles, principal, permission) {
            Ok(grant) => grant.principal_id == principal.id && grant.auth_method == "token"@
                && grant.provider is None && grant.subject is None && grant.display_name is None,
            Err(denial) => denial.status == 403 && denial.identity.principal_id == Some(
                principal.id,
            ) && denial.identity.auth_method == Some("token"@) && denial.code == if principal.disabled {
                "auth_principal_disabled"@
            } else {
                "auth_scope_denied"@
            },
        },
        match account_decision(roles, account, permission) {
            Ok(grant) => grant.principal_id == account.id && grant.auth_method
                == "service_account"@ && grant.provider is None && grant.subject == Some(account.id)
                && grant.display_name == Some(account.id),
            Err(denial) => denial.status == 403 && denial.identity.principal_id == Some(account.id)
                && denial.identity.auth_method == Some("service_account"@) && denial.code
                == if account.disabled {
                "auth_principal_disabled"@
            } else {
                "auth_scope_denied"@
            },
        },
{
    law_first_binding_with_access_decides(
        roles,
        principal.bindings,
        Applicant {
            principal_id: principal.id,
            auth_method: "token"@,
            provider: None,
            subject: None,
            display_name: None,
        },
        permission,
    );
    law_first_binding_with_access_decides(
        roles,
        account.bindings,
        Applicant {
            principal_id: account.id,
            auth_method: "service_account"@,
            provider: None,
            subject: Some(account.id),
            display_name: Some(account.id),
        },
        permission,
    );
}

/// The token of a principal is decided on by that principal, and the token of a service account by
/// that account, where nobody in front of them has it.
pub proof fn law_tokens_stand_for_their_owners(
    config: ConfigView,
    providers: Seq<ProviderView>,
    token: Seq<char>,
    header_fault: Option<Seq<char>>,
    permission: PermissionView,
    now_secs: u64,
    i: int,
)
    ensures
        0 <= i < config.principals.len() && trimmed(config.principals[i].token) == token && (forall|
            k: int,
        |
            0 <= k < i ==> trimmed((#[trigger] config.principals[k]).token) != token)
            ==> access_decision(
            config,
            providers,
            Some(token),
            header_fault,
            permission,
            now_secs,
        ) == principal_decision(config.roles, config.principals[i], permission),
        0 <= i < config.service_accounts.len() && trimmed(config.service_accounts[i].token) == token
            && (forall|k: int|
            0 <= k < i ==> trimmed((#[trigger] config.service_accounts[k]).token) != token) && (
        forall|k: int|
            0 <= k < config.principals.len() ==> trimmed((#[trigger] config.principals[k]).token)
                != token) ==> access_decision(
            config,
            providers,
            Some(token),
            header_fault,
            permission,
            now_secs,
        ) == account_decision(config.roles, config.service_accounts[i], permission),
{
    let principal = principal_has(token);
    let account = account_has(token);
    if 0 <= i < config.principals.len() && trimmed(config.principals[i].token) == token && (forall|
        k: int,
    |
        0 <= k < i ==> trimmed((#[trigger] config.principals[k]).token) != token) {
        lemma_first_index_is(config.principals, principal, i);
    }
    if 0 <= i < config.service_accounts.len() && trimmed(config.service_accounts[i].token) == token
        && (forall|k: int|
        0 <= k < i ==> trimmed((#[trigger] config.service_accounts[k]).token) != token) && (forall|
        k: int,
    |
        0 <= k < config.principals.len() ==> trimmed((#[trigger] config.principals[k]).token)
            != token) {
        lemma_first_index(config.principals, principal);
        lemma_first_index_is(config.service_accounts, account, i);
        match first_index(config.principals, principal) {
            Some(k) => {
                assert(trimmed(config.principals[k].token) == token);
            },
            None => {},
        }
    }
}

/// The texts of a list claim are those of its members that are texts with something left in them.
pub proof fn law_list_claims(items: Seq<Option<Seq<char>>>)
    ensures
        forall|text: Seq<char>| #[trigger]
            list_texts(items).contains(text) <==> text.len() > 0 && exists|i: int|
                0 <= i < items.len() && ((#[trigger] items[i]) matches Some(item) && trimmed(item)
                    == text),
    decreases items.len(),
{
    let out = list_texts(items);
    if items.len() > 0 {
        let front = items.drop_last();
        let before = list_texts(front);
        law_list_claims(front);
        assert(items.last() == items[items.len() - 1]);
        assert forall|text: Seq<char>| #[trigger] out.contains(text) <==> text.len() > 0 && exists|
            i: int,
        |
            0 <= i < items.len() && ((#[trigger] items[i]) matches Some(item) && trimmed(item)
                == text) by {
            if before.contains(text) {
                let k = choose|k: int| 0 <= k < before.len() && before[k] == text;
                assert(out[k] == text);
                let i = choose|i: int|
                    0 <= i < front.len() && ((#[trigger] front[i]) matches Some(item) && trimmed(
                        item,
                    ) == text);
                assert(items[i] == front[i]);
            }
            if out.contains(text) && !before.contains(text) {
                let k = choose|k: int| 0 <= k < out.len() && out[k] == text;
                if k < before.len() {
                    assert(before[k] == text);
                }
                assert(items[items.len() - 1] matches Some(item) && trimmed(item) == text);
            }
            if text.len() > 0 && exists|i: int|
                0 <= i < items.len() && ((#[trigger] items[i]) matches Some(item) && trimmed(item)
                    == text) {
                let i = choose|i: int|
                    0 <= i < items.len() && ((#[trigger] items[i]) matches Some(item) && trimmed(
                        item,
                    ) == text);
                if i < front.len() {
                    assert(front[i] == items[i]);
                    assert(before.contains(text));
                } else {
                    assert(out[out.len() - 1] == text);
                }
            }
        }
    }
}

/// What a claim gives: a text without white space at its ends, all the texts of a list, or a number.
pub proof fn law_claims_are_read(claims: DocumentView, name: Seq<char>)
    ensures
        match member_value(claims, name) {
            Some(JsonFieldView::Text(text)) => {
                &&& trimmed(text).len() > 0 ==> claim_text(claims, name) == Some(trimmed(text))
                    && claim_texts(claims, name) == seq![trimmed(text)]
                &&& trimmed(text).len() == 0 ==> claim_text(claims, name) is None && claim_texts(
                    claims,
                    name,
                ).len() == 0
                &&& claim_number(claims, name) is None
            },
            Some(JsonFieldView::List(items)) => claim_text(claims, name) is None && claim_number(
                claims,
                name,
            ) is None && forall|text: Seq<char>| #[trigger]
                claim_texts(claims, name).contains(text) <==> text.len() > 0 && exists|i: int|
                    0 <= i < items.len() && ((#[trigger] items[i]) matches Some(item) && trimmed(
                        item,
                    ) == text),
            Some(JsonFieldView::Number(number)) => claim_number(claims, name) == number
                && claim_text(claims, name) is None && claim_texts(claims, name).len() == 0,
            _ => claim_number(claims, name) is None && claim_text(claims, name) is None
                && claim_texts(claims, name).len() == 0,
        },
{
    match member_value(claims, name) {
        Some(JsonFieldView::Text(text)) => {
            let items = seq![Some(text)];
            assert(items.drop_last() =~= Seq::empty());
            assert(list_texts(items.drop_last()) =~= Seq::empty());
            if trimmed(text).len() > 0 {
                assert(list_texts(items) =~= seq![trimmed(text)]);
            }
        },
        Some(JsonFieldView::List(items)) => {
            law_list_claims(items);
        },
        _ => {},
    }
}

/// A token has the bindings of every mapping that one of its claims fits, and no others.
pub proof fn law_claims_give_the_bindings_of_their_mappings(
    claims: DocumentView,
    mappings: Seq<MappingView>,
)
    ensures
        forall|binding: BindingView| #[trigger]
            mapped_bindings(claims, mappings).contains(binding) <==> exists|m: int, t: int|
                0 <= m < mappings.len() && 0 <= t < claim_texts(claims, mappings[m].claim).len()
                    && covers(
                    (#[trigger] mappings[m]).value,
                    #[trigger] claim_texts(claims, mappings[m].claim)[t],
                ) && mappings[m].bindings.contains(binding),
    decreases mappings.len(),
{
    let out = mapped_bindings(claims, mappings);
    if mappings.len() > 0 {
        let front = mappings.drop_last();
        let last = mappings.last();
        let before = mapped_bindings(claims, front);
        law_claims_give_the_bindings_of_their_mappings(claims, front);
        assert(last == mappings[mappings.len() - 1]);
        assert forall|t: int| 0 <= t < claim_texts(claims, last.claim).len() implies (pattern_fits(
            last.value,
            #[trigger] claim_texts(claims, last.claim)[t],
        ) <==> covers(last.value, claim_texts(claims, last.claim)[t])) by {
            law_patterns_cover(last.value, claim_texts(claims, last.claim)[t]);
        }
        assert forall|binding: BindingView| #[trigger] out.contains(binding) <==> exists|
            m: int,
            t: int,
        |
            0 <= m < mappings.len() && 0 <= t < claim_texts(claims, mappings[m].claim).len()
                && covers(
                (#[trigger] mappings[m]).value,
                #[trigger] claim_texts(claims, mappings[m].claim)[t],
            ) && mappings[m].bindings.contains(binding) by {
            if before.contains(binding) {
                let k = choose|k: int| 0 <= k < before.len() && before[k] == binding;
                assert(out[k] == binding);
                let (m, t) = choose|m: int, t: int|
                    0 <= m < front.len() && 0 <= t < claim_texts(claims, front[m].claim).len()
                        && covers(
                        (#[trigger] front[m]).value,
                        #[trigger] claim_texts(claims, front[m].claim)[t],
                    ) && front[m].bindings.contains(binding);
                assert(mappings[m] == front[m]);
                assert(covers(mappings[m].value, claim_texts(claims, mappings[m].claim)[t]));
            }
            if out.contains(binding) && !before.contains(binding) {
                let k = choose|k: int| 0 <= k < out.len() && out[k] == binding;
                if k < before.len() {
                    assert(before[k] == binding);
                }
                assert(last.bindings[k - before.len()] == binding);
                assert(claim_fits(claims, last.claim, last.value));
                let t = choose|t: int|
                    0 <= t < claim_texts(claims, last.claim).len() && pattern_fits(
                        last.value,
                        #[trigger] claim_texts(claims, last.claim)[t],
                    );
                let m = mappings.len() - 1;
                assert(covers(mappings[m].value, claim_texts(claims, mappings[m].claim)[t]));
            }
            if exists|m: int, t: int|
                0 <= m < mappings.len() && 0 <= t < claim_texts(claims, mappings[m].claim).len()
                    && covers(
                    (#[trigger] mappings[m]).value,
                    #[trigger] claim_texts(claims, mappings[m].claim)[t],
                ) && mappings[m].bindings.contains(binding) {
                let (m, t) = choose|m: int, t: int|
                    0 <= m < mappings.len() && 0 <= t < claim_texts(claims, mappings[m].claim).len()
                        && covers(
                        (#[trigger] mappings[m]).value,
                        #[trigger] claim_texts(claims, mappings[m].claim)[t],
                    ) && mappings[m].bindings.contains(binding);
                if m < front.len() {
                    assert(front[m] == mappings[m]);
                    assert(covers(front[m].value, claim_texts(claims, front[m].claim)[t]));
                    assert(before.contains(binding));
                } else {
                    assert(pattern_fits(last.value, claim_texts(claims, last.claim)[t]));
                    let k = choose|k: int| 0 <= k < last.bindings.len() && last.bindings[k] == binding;
                    assert(out[before.len() + k] == binding);
                }
            }
        }
    }
}

/// Which keys may check a signature: those of the header's algorithm, under the name that the header
/// gives if it gives one, unless they are meant for another algorithm.
pub proof fn law_keys_fit_their_algorithm(key: KeyView, header: HeaderView)
    ensures
        match key {
            KeyView::Rsa { kid, alg, .. } => key_usable(key, header) <==> header.alg == "RS256"@
                && (header.kid is None || kid == header.kid) && (alg is None || alg == Some(
                header.alg,
            )),
            KeyView::EcP256 { kid, alg, .. } => key_usable(key, header) <==> header.alg == "ES256"@
                && (header.kid is None || kid == header.kid) && (alg is None || alg == Some(
                header.alg,
            )),
            KeyView::Oct { kid, alg, .. } => key_usable(key, header) <==> header.alg == "HS256"@
                && (header.kid is None || kid == header.kid) && (alg is None || alg == Some(
                header.alg,
            )),
        },
{
}

/// The first key of a provider that may check a signature decides: the signature is accepted where that
/// key accepts it.
pub proof fn law_first_usable_key_decides(
    provider: ProviderView,
    header: HeaderView,
    data: Seq<u8>,
    signature: Seq<u8>,
    i: int,
)
    requires
        0 <= i < provider.keys.len(),
        key_usable(provider.keys[i], header),
        forall|k: int| 0 <= k < i ==> !key_usable(#[trigger] provider.keys[k], header),
        data.len() <= MAX_DIGEST_INPUT,
    ensures
        match provider.keys[i] {
            KeyView::Rsa { n, e, .. } => signature_denial(provider, header, data, signature) is None
                <==> rsa_sha256_accepts(n, e, data, signature),
            KeyView::EcP256 { x, y, .. } => signature_denial(provider, header, data, signature)
                is None <==> ecdsa_p256_accepts(seq![4u8] + x + y, data, signature),
            KeyView::Oct { secret, .. } => secret.len() <= MAX_DIGEST_INPUT ==> (signature_denial(
                provider,
                header,
                data,
                signature,
            ) is None <==> hmac_sha256_accepts(secret, data, signature)),
        },
        signature_denial(provider, header, data, signature) matches Some(denial) ==> denial.status
            == 401 && denial.code == "auth_oidc_signature_invalid"@,
{
    lemma_first_index_is(provider.keys, usable(header), i);
}

/// Without a key that may check it, no signature is accepted.
pub proof fn law_no_usable_key_no_access(
    provider: ProviderView,
    header: HeaderView,
    data: Seq<u8>,
    signature: Seq<u8>,
)
    requires
        forall|k: int| 0 <= k < provider.keys.len() ==> !key_usable(#[trigger] provider.keys[k], header),
    ensures
        signature_denial(provider, header, data, signature) matches Some(denial) && denial.status
            == 401,
{
    lemma_first_index(provider.keys, usable(header));
    match first_index(provider.keys, usable(header)) {
        Some(k) => {
            assert(key_usable(provider.keys[k], header));
        },
        None => {},
    }
}

/// A token whose issuer is a provider, whose signature is accepted, which has not expired, is valid
/// already, is meant for the provider's audience and names its bearer is let in where one of the
/// bindings that its claims give allows what is asked for; the bearer is named after the provider and
/// the subject.
pub proof fn law_valid_signed_tokens_are_let_in(
    roles: RolesView,
    providers: Seq<ProviderView>,
    header: HeaderView,
    claims: DocumentView,
    data: Seq<u8>,
    signature: Seq<u8>,
    permission: PermissionView,
    now_secs: u64,
    i: int,
    aud: int,
)
    requires
        0 <= i < providers.len(),
        claim_text(claims, "iss"@) == Some(providers[i].issuer),
        forall|k: int| 0 <= k < i ==> (#[trigger] providers[k]).issuer != providers[i].issuer,
        signature_denial(providers[i], header, data, signature) is None,
        claim_number(claims, "exp"@) is Some,
        claim_number(claims, "exp"@)->0 + OIDC_CLOCK_SKEW_SECONDS > now_secs,
        claim_number(claims, "nbf"@) matches Some(nbf) ==> nbf <= now_secs
            + OIDC_CLOCK_SKEW_SECONDS,
        claim_number(claims, "iat"@) matches Some(iat) ==> iat <= now_secs
            + OIDC_CLOCK_SKEW_SECONDS,
        now_secs < u64::MAX,
        providers[i].audiences.len() == 0 || (0 <= aud < claim_texts(claims, "aud"@).len()
            && providers[i].audiences.contains(claim_texts(claims, "aud"@)[aud])),
        claim_text(claims, "sub"@) is Some,
    ensures
        ({
            let decision = signed_decision(
                roles,
                providers,
                header,
                claims,
                data,
                signature,
                permission,
                now_secs,
            );
            let bindings = mapped_bindings(claims, providers[i].claim_mappings);
            &&& decision is Ok <==> exists|b: int|
                0 <= b < bindings.len() && has_access(roles, #[trigger] bindings[b], permission)
            &&& decision matches Ok(grant) ==> grant.principal_id == "oidc:"@ + providers[i].name
                + ":"@ + claim_text(claims, "sub"@)->0 && grant.auth_method == "oidc"@
                && grant.provider == Some(providers[i].name) && grant.subject == claim_text(
                claims,
                "sub"@,
            )
            &&& decision matches Err(denial) ==> denial.status == 403 && denial.code
                == "auth_scope_denied"@ && denial.identity.principal_id == Some(
                "oidc:"@ + providers[i].name + ":"@ + claim_text(claims, "sub"@)->0,
            )
        }),
{
    let provider = providers[i];
    let issuer = provider.issuer;
    lemma_first_index_is(providers, issued_by(issuer), i);
    assert(claims_denial(provider, claims, now_secs) is None) by {
        if provider.audiences.len() > 0 {
            assert(provider.audiences.contains(claim_texts(claims, "aud"@)[aud]));
        }
    }
    law_first_binding_with_access_decides(
        roles,
        mapped_bindings(claims, provider.claim_mappings),
        Applicant {
            principal_id: "oidc:"@ + provider.name + ":"@ + claim_text(claims, "sub"@)->0,
            auth_method: "oidc"@,
            provider: Some(provider.name),
            subject: Some(claim_text(claims, "sub"@)->0),
            display_name: match provider.username_claim {
                None => None,
                Some(claim) => if claim_texts(claims, claim).len() == 0 {
                    None
                } else {
                    Some(claim_texts(claims, claim)[0])
                },
            },
        },
        permission,
    );
}

/// What is wrong with the claims of a token is said by a code of its own.
pub proof fn law_claims_are_refused_by_code(
    provider: ProviderView,
    claims: DocumentView,
    now_secs: u64,
)
    ensures
        claim_number(claims, "exp"@) is None ==> (claims_denial(provider, claims, now_secs) matches Some(denial) && denial.code == "auth_oidc_exp_missing"@),
        claim_number(claims, "exp"@) matches Some(exp) ==> exp + OIDC_CLOCK_SKEW_SECONDS <= now_secs
            ==> (claims_denial(provider, claims, now_secs) matches Some(denial) && denial.code
            == "auth_oidc_token_expired"@),
        claim_number(claims, "exp"@) matches Some(exp) ==> exp + OIDC_CLOCK_SKEW_SECONDS > now_secs
            && now_secs < u64::MAX && (claim_number(claims, "nbf"@) matches Some(nbf) && nbf > now_secs
            + OIDC_CLOCK_SKEW_SECONDS) ==> (claims_denial(provider, claims, now_secs) matches Some(
            denial,
        ) && denial.code == "auth_oidc_token_not_yet_valid"@),
        claims_denial(provider, claims, now_secs) matches Some(denial) ==> denial.status == 401,
{
}

/// The header of a signed token names the algorithm and, where it names one, the key.
pub proof fn law_headers_are_read(document: DocumentView, colons: nat)
    ensures
        token_header(document, colons) matches Some(header) ==> match document {
            DocumentView::Object(members) => member_value(document, "alg"@) == Some(
                JsonFieldView::Text(header.alg),
            ) && match header.kid {
                Some(kid) => member_value(document, "kid"@) == Some(JsonFieldView::Text(kid))
                    && members.len() == 2,
                None => member_value(document, "kid"@) is None || member_value(document, "kid"@)
                    == Some(JsonFieldView::Null),
            },
            DocumentView::List(items) => 1 <= items.len() <= 2 && items[0] == JsonFieldView::Text(
                header.alg,
            ) && match header.kid {
                Some(kid) => items.len() == 2 && items[1] == JsonFieldView::Text(kid),
                None => items.len() == 1 || items[1] == JsonFieldView::Null,
            },
            DocumentView::Other => false,
        },
{
}

/// A signed token is decided on by what its own three parts hold: the first its header, the second its
/// claims, the third the signature, which is over the first two with the dot between them. A part that
/// cannot be read makes the token invalid.
pub proof fn law_tokens_are_decided_on_by_their_parts(
    roles: RolesView,
    providers: Seq<ProviderView>,
    parts: Seq<Seq<char>>,
    header_fault: Option<Seq<char>>,
    permission: PermissionView,
    now_secs: u64,
    header_bytes: Seq<u8>,
    claims_bytes: Seq<u8>,
    signature: Seq<u8>,
)
    ensures
        base64url_bytes(parts[0]) == Ok::<Seq<u8>, Seq<char>>(header_bytes) && base64url_bytes(
            parts[1],
        ) == Ok::<Seq<u8>, Seq<char>>(claims_bytes) && base64url_bytes(parts[2]) == Ok::<
            Seq<u8>,
            Seq<char>,
        >(signature) && parsed_json(header_bytes) is Ok && token_header(
            parsed_json(header_bytes)->Ok_0,
            json_colons(header_bytes),
        ) is Some && parsed_json(claims_bytes) is Ok ==> token_decision(
            roles,
            providers,
            parts,
            header_fault,
            permission,
            now_secs,
        ) == signed_decision(
            roles,
            providers,
            token_header(parsed_json(header_bytes)->Ok_0, json_colons(header_bytes))->0,
            parsed_json(claims_bytes)->Ok_0,
            encode_utf8(parts[0] + "."@ + parts[1]),
            signature,
            permission,
            now_secs,
        ),
        base64url_bytes(parts[0]) is Err || base64url_bytes(parts[1]) is Err || base64url_bytes(
            parts[2],
        ) is Err ==> (token_decision(
            roles,
            providers,
            parts,
            header_fault,
            permission,
            now_secs,
        ) matches Err(denial) && denial.status == 401 && denial.code == "auth_token_invalid"@),
{
}

/// A signed token is asked about where nobody has it as their own: it has three parts.
pub proof fn law_signed_tokens_have_three_parts(
    config: ConfigView,
    providers: Seq<ProviderView>,
    token: Seq<char>,
    header_fault: Option<Seq<char>>,
    permission: PermissionView,
    now_secs: u64,
)
    requires
        forall|k: int|
            0 <= k < config.principals.len() ==> trimmed((#[trigger] config.principals[k]).token)
                != token,
        forall|k: int|
            0 <= k < config.service_accounts.len() ==> trimmed(
                (#[trigger] config.service_accounts[k]).token,
            ) != token,
    ensures
        pieces(token, '.').len() == 3 ==> access_decision(
            config,
            providers,
            Some(token),
            header_fault,
            permission,
            now_secs,
        ) == token_decision(
            config.roles,
            providers,
            pieces(token, '.'),
            header_fault,
            permission,
            now_secs,
        ),
        pieces(token, '.').len() != 3 ==> access_decision(
            config,
            providers,
            Some(token),
            header_fault,
            permission,
            now_secs,
        ) is Err,
{
    lemma_first_index(config.principals, principal_has(token));
    lemma_first_index(config.service_accounts, account_has(token));
    match first_index(config.principals, principal_has(token)) {
        Some(k) => {
            assert(trimmed(config.principals[k].token) == token);
        },
        None => {},
    }
    match first_index(config.service_accounts, account_has(token)) {
        Some(k) => {
            assert(trimmed(config.service_accounts[k].token) == token);
        },
        None => {},
    }
}

/// A token of an issuer that is not known, or without an issuer, is refused, and so is one whose signature
/// is not accepted; the refusal names the provider where there is one.
pub proof fn law_what_a_signed_token_is_refused_for(
    roles: RolesView,
    providers: Seq<ProviderView>,
    header: HeaderView,
    claims: DocumentView,
    data: Seq<u8>,
    signature: Seq<u8>,
    permission: PermissionView,
    now_secs: u64,
    i: int,
)
    ensures
        ({
            let decision = signed_decision(
                roles,
                providers,
                header,
                claims,
                data,
                signature,
                permission,
                now_secs,
            );
            &&& claim_text(claims, "iss"@) is None ==> (decision matches Err(denial) && denial.code
                == "auth_oidc_issuer_missing"@)
            &&& claim_text(claims, "iss"@) matches Some(issuer) ==> (forall|k: int|
                0 <= k < providers.len() ==> (#[trigger] providers[k]).issuer != issuer) ==> (
            decision matches Err(denial) && denial.code == "auth_oidc_provider_not_configured"@)
            &&& 0 <= i < providers.len() && claim_text(claims, "iss"@) == Some(providers[i].issuer)
                && (forall|k: int|
                0 <= k < i ==> (#[trigger] providers[k]).issuer != providers[i].issuer) ==> {
                &&& signature_denial(providers[i], header, data, signature) matches Some(refusal) ==> (
                decision matches Err(denial) && denial.code == refusal.code && denial.status
                    == refusal.status && denial.identity.provider == Some(providers[i].name)
                    && denial.identity.auth_method == Some("oidc"@))
                &&& signature_denial(providers[i], header, data, signature) is None ==> (
                claims_denial(providers[i], claims, now_secs) matches Some(refusal) ==> (
                decision matches Err(denial) && denial.code == refusal.code && denial.status
                    == refusal.status && denial.identity.provider == Some(providers[i].name)))
            }
        }),
{
    match claim_text(claims, "iss"@) {
        Some(issuer) => {
            lemma_first_index(providers, issued_by(issuer));
            match first_index(providers, issued_by(issuer)) {
                Some(k) => {
                    assert(providers[k].issuer == issuer);
                },
                None => {},
            }
            if 0 <= i < providers.len() && providers[i].issuer == issuer && (forall|k: int|
                0 <= k < i ==> (#[trigger] providers[k]).issuer != providers[i].issuer) {
                lemma_first_index_is(providers, issued_by(issuer), i);
            }
        },
        None => {},
    }
}

} // verus!
