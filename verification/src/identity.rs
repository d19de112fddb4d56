//! Agent and model identity of invocations.
use vstd::prelude::*;

use crate::roots::{file_name, file_name_spec};
use crate::text::{
    ascii_lower, copy_string, ends_with, non_blank, non_blank_owned, opt_view, starts_with,
    str_eq, str_starts_with, string_of_range, to_ascii_lower, trim, chars_of,
};

verus! {

/// The agent family of an agent CLI path: its file name (else the path),
/// lower-cased in ASCII.
pub open spec fn agent_name_spec(agent_cli: Seq<char>) -> Seq<char> {
    match file_name_spec(agent_cli) {
        Some(n) => ascii_lower(n),
        None => ascii_lower(agent_cli),
    }
}

pub fn normalize_agent_name(agent_cli: &str) -> (r: String)
    ensures
        r@ == agent_name_spec(agent_cli@),
{
    match file_name(agent_cli) {
        Some(n) => to_ascii_lower(n.as_str()),
        None => to_ascii_lower(agent_cli),
    }
}

/// Grok Build's usage ledger reports requested model `grok-X.Y` as
/// `grok-X.Y-build`: a billing label for the same public model.
pub open spec fn ledger_alias_spec(requested: Seq<char>, provider: Seq<char>) -> bool {
    starts_with(requested, "grok-"@) && ends_with(provider, "-build"@) && provider.take(
        provider.len() - "-build"@.len(),
    ) == requested
}

pub fn grok_build_ledger_aliases_requested(requested: &str, provider: &str) -> (b: bool)
    ensures
        b == ledger_alias_spec(requested@, provider@),
{
    if !str_starts_with(requested, "grok-") {
        return false;
    }
    let p = chars_of(provider);
    let suffix = chars_of("-build");
    if !crate::text::seq_ends_with(p.as_slice(), suffix.as_slice()) {
        return false;
    }
    let public_id = string_of_range(p.as_slice(), 0, p.len() - suffix.len());
    assert(public_id@ =~= provider@.take(provider@.len() - "-build"@.len()));
    str_eq(public_id.as_str(), requested)
}

/// The model an invocation is stored under, and whether the mismatch
/// between the requested and the provider-reported model is reported: the
/// provider's model wins unless it is the ledger alias of the requested one.
pub open spec fn stored_model_spec(requested: Option<Seq<char>>, provider: Option<Seq<char>>) -> (
    Option<Seq<char>>,
    bool,
) {
    let p = non_blank(provider);
    match (requested, p) {
        (Some(r), Some(pv)) => if ledger_alias_spec(r, pv) {
            (Some(r), false)
        } else if r != pv {
            (Some(pv), true)
        } else {
            (Some(pv), false)
        },
        (_, Some(pv)) => (Some(pv), false),
        (_, None) => (requested, false),
    }
}

pub fn stored_model(requested: Option<&str>, provider: Option<&str>) -> (r: (Option<String>, bool))
    ensures
        (crate::text::opt_string_view(r.0), r.1) == stored_model_spec(opt_view(requested), opt_view(provider)),
{
    let p = non_blank_owned(provider);
    match (requested, p) {
        (Some(req), Some(pv)) => {
            if grok_build_ledger_aliases_requested(req, pv.as_str()) {
                (Some(copy_string(req)), false)
            } else if !str_eq(req, pv.as_str()) {
                (Some(pv), true)
            } else {
                (Some(pv), false)
            }
        },
        (_, Some(pv)) => (Some(pv), false),
        (_, None) => (
            match requested {
                Some(req) => Some(copy_string(req)),
                None => None,
            },
            false,
        ),
    }
}

/// The identity used when the agent family cannot be checked: the agent
/// CLI's name when not blank, and the trimmed model when not blank.
pub open spec fn legacy_identity_spec(agent_cli: Option<Seq<char>>, model: Option<Seq<char>>) -> (
    Option<Seq<char>>,
    Option<Seq<char>>,
) {
    let agent = match agent_cli {
        Some(a) => if trim(agent_name_spec(a)).len() > 0 {
            Some(agent_name_spec(a))
        } else {
            None
        },
        None => None,
    };
    (agent, non_blank(model))
}

pub fn legacy_identity(agent_cli: Option<&str>, model: Option<&str>) -> (r: (Option<String>, Option<String>))
    ensures
        (crate::text::opt_string_view(r.0), crate::text::opt_string_view(r.1)) == legacy_identity_spec(
            opt_view(agent_cli),
            opt_view(model),
        ),
{
    let agent = match agent_cli {
        Some(a) => {
            let n = normalize_agent_name(a);
            if crate::text::blank(n.as_str()) {
                None
            } else {
                Some(n)
            }
        },
        None => None,
    };
    (agent, non_blank_owned(model))
}

/// The key a duel family's orchestrator model is configured under: the
/// family trimmed and lower-cased in ASCII.
pub fn duel_family_key(family: &str) -> (r: String)
    ensures
        r@ == ascii_lower(trim(family@)),
{
    let t = crate::text::trimmed(family);
    to_ascii_lower(t.as_str())
}

/// The model identity of the runtime's actor: its trimmed label when the
/// actor is an agent and the label is not blank.
pub fn actor_model_identity(is_agent: bool, label: &str) -> (r: Option<String>)
    ensures
        crate::text::opt_string_view(r) == if is_agent {
            non_blank(Some(label@))
        } else {
            None
        },
{
    if is_agent {
        non_blank_owned(Some(label))
    } else {
        None
    }
}

} // verus!
