//! Search tool input rules.
use vstd::prelude::*;

use crate::error::OrbitError;
use crate::json::{JsonValue, json_get};
use crate::text::{copy_string, push_str};

verus! {

/// The retired selection parameters, in the order they are checked.
pub open spec fn retired_param(k: int) -> Seq<char> {
    if k == 0 {
        "field"@
    } else if k == 1 {
        "embedding_model"@
    } else if k == 2 {
        "embeddingModel"@
    } else if k == 3 {
        "embedding-model"@
    } else if k == 4 {
        "semantic_model"@
    } else {
        "semanticModel"@
    }
}

fn retired_param_name(k: usize) -> (r: &'static str)
    requires
        k < 6,
    ensures
        r@ == retired_param(k as int),
{
    if k == 0 {
        "field"
    } else if k == 1 {
        "embedding_model"
    } else if k == 2 {
        "embeddingModel"
    } else if k == 3 {
        "embedding-model"
    } else if k == 4 {
        "semantic_model"
    } else {
        "semanticModel"
    }
}

/// The first retired parameter present, from position `k`.
pub open spec fn first_retired(input: JsonValue, k: int) -> Option<Seq<char>>
    decreases 6 - k,
{
    if k < 0 || k >= 6 {
        None
    } else if json_get(input, retired_param(k)) is Some {
        Some(retired_param(k))
    } else {
        first_retired(input, k + 1)
    }
}

/// Why a search request is refused outright: the legacy `related`
/// parameter, or a retired field or embedding-model selector.
pub open spec fn search_refusal(input: JsonValue) -> Option<Seq<char>> {
    if json_get(input, "related"@) is Some {
        Some("unknown parameter `related`; use `semantic` for task-neighbor lookup"@)
    } else {
        match first_retired(input, 0) {
            Some(p) => Some(
                "unknown parameter `"@ + p
                    + "`; search no longer exposes field or embedding-model selection"@,
            ),
            None => None,
        }
    }
}

pub fn check_search_params(input: &JsonValue) -> (r: Result<(), OrbitError>)
    ensures
        match search_refusal(*input) {
            None => r is Ok,
            Some(m) => r matches Err(OrbitError::InvalidInput(x)) && x@ == m,
        },
{
    if input.get("related").is_some() {
        return Err(
            OrbitError::InvalidInput(
                copy_string("unknown parameter `related`; use `semantic` for task-neighbor lookup"),
            ),
        );
    }
    let mut k: usize = 0;
    while k < 6
        invariant
            k <= 6,
            json_get(*input, "related"@) is None,
            first_retired(*input, k as int) == first_retired(*input, 0),
        decreases 6 - k,
    {
        let name = retired_param_name(k);
        if input.get(name).is_some() {
            let mut m = copy_string("unknown parameter `");
            push_str(&mut m, name);
            push_str(&mut m, "`; search no longer exposes field or embedding-model selection");
            return Err(OrbitError::InvalidInput(m));
        }
        k += 1;
    }
    Ok(())
}

} // verus!
