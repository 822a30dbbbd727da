//! mod.io credentials: a value baked in at build time wins over the runtime
//! environment, and blank values count as missing.
use vstd::prelude::*;

use crate::number::{parse_u64, parse_u64_spec};
use crate::text::{chars_of, opt_view, string_of, trim, trim_seq};

verus! {

pub open spec fn non_empty_spec(value: Option<Seq<char>>) -> Option<Seq<char>> {
    match value {
        Some(v) => if trim_seq(v).len() > 0 {
            Some(trim_seq(v))
        } else {
            None
        },
        None => None,
    }
}

/// The trimmed value, or `None` when it is missing or blank.
pub fn non_empty(value: Option<String>) -> (r: Option<String>)
    ensures
        opt_view(r) == non_empty_spec(opt_view(value)),
{
    match value {
        Some(v) => {
            let t = trim(&chars_of(v.as_str()));
            if t.len() > 0 {
                Some(string_of(&t))
            } else {
                None
            }
        },
        None => None,
    }
}

pub open spec fn first_present(
    baked: Option<Seq<char>>,
    runtime: Option<Seq<char>>,
) -> Option<Seq<char>> {
    match non_empty_spec(baked) {
        Some(v) => Some(v),
        None => non_empty_spec(runtime),
    }
}

/// The API key: the baked-in value if it is not blank, else the runtime one.
pub fn modio_api_key(baked: Option<String>, runtime: Option<String>) -> (r: Option<String>)
    ensures
        opt_view(r) == first_present(opt_view(baked), opt_view(runtime)),
{
    match non_empty(baked) {
        Some(v) => Some(v),
        None => non_empty(runtime),
    }
}

/// The game id, chosen like the API key and then parsed as a number.
pub fn modio_game_id(baked: Option<String>, runtime: Option<String>) -> (r: Option<u64>)
    ensures
        r == (match first_present(opt_view(baked), opt_view(runtime)) {
            Some(v) => parse_u64_spec(v),
            None => None,
        }),
{
    match modio_api_key(baked, runtime) {
        Some(v) => parse_u64(&chars_of(v.as_str())),
        None => None,
    }
}

} // verus!
