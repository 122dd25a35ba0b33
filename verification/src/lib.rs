//! A verified core for a command-driven HTTP orchestration tool.
//!
//! A *glue* command such as `get http://example.com ^$.id >token` describes an
//! HTTP request: the first token is the method, the second the URL, and the
//! remaining tokens carry a JSONPath selector (`^`), body attributes (`~`),
//! header attributes (`*`) and a save-as name (`>`). Brace-enclosed
//! subcommands are dependencies whose results are substituted into the
//! enclosing command before it is dispatched.
//!
//! The crate parses commands into request trees, flattens them into
//! depth-ordered execution layers, and drives execution as a state machine:
//! callers perform the HTTP transfers and hand the response text back, while
//! everything the tool decides — masking, tokenization, projection into
//! request nodes, layering, dependency substitution, selector handling, and
//! the shared variable heap — is verified here.

use vstd::prelude::*;

pub mod errors;
pub mod expression;
pub mod heap;
pub mod mask;
pub mod masking;
pub mod node;
pub mod parser;
pub mod request_body;
pub mod runner;
pub mod selector;
pub mod serialized;
pub mod stack;
pub mod text;
pub mod token;
pub mod utils;

verus! {

/// Returns whether `value` is one of the accepted request methods,
/// compared case-insensitively over ASCII letters.
pub fn is_valid_method_chars(value: &Vec<char>) -> (r: bool)
    ensures
        r == is_method(crate::text::to_lower(value@)),
{
    let lowered = crate::text::to_lower_exec(value);
    is_method_exec(&lowered)
}

/// The lowercase spellings of the accepted request methods. `req` reads a
/// saved variable from the heap instead of performing an HTTP call.
pub open spec fn is_method(s: Seq<char>) -> bool {
    ||| s == "get"@
    ||| s == "post"@
    ||| s == "put"@
    ||| s == "patch"@
    ||| s == "delete"@
    ||| s == "req"@
}

fn is_method_exec(s: &Vec<char>) -> (r: bool)
    ensures
        r == is_method(s@),
{
    crate::text::eq_lit(s, "get") || crate::text::eq_lit(s, "post") || crate::text::eq_lit(
        s,
        "put",
    ) || crate::text::eq_lit(s, "patch") || crate::text::eq_lit(s, "delete") || crate::text::eq_lit(
        s,
        "req",
    )
}

} // verus!
