//! The response selector: applies a JSONPath expression to a response body
//! and renders the matches — the first match as a plain string, or the whole
//! match list as compact or indented JSON.
//!
//! The evaluation itself is an outside capability; its outcomes are named
//! ([`query_ok`], [`match_count`], [`first_match_str`], [`matches_compact`],
//! [`matches_pretty`]), since they depend on the two texts alone, and
//! [`get_response_value`] is specified exactly over those names through
//! [`selection`].

use vstd::prelude::*;
use vstd::string::{StrSliceExecFns, StringExecFns};

use crate::errors::RunError;
use crate::text::chars_of;

verus! {

/// Whether `c` is a decimal digit.
pub open spec fn digit_at(s: Seq<char>, j: int) -> bool {
    0 <= j < s.len() && '0' <= s[j] && s[j] <= '9'
}

/// The length of the longest run of consecutive decimal digits in `s`,
/// folded from position `j` with the current run `cur` and the best run
/// seen `best`.
pub open spec fn max_digit_run(s: Seq<char>, j: int, cur: nat, best: nat) -> nat
    decreases s.len() - j,
{
    if j < 0 || j >= s.len() {
        if cur > best {
            cur
        } else {
            best
        }
    } else if digit_at(s, j) {
        max_digit_run(s, j + 1, cur + 1, best)
    } else {
        max_digit_run(s, j + 1, 0, if cur > best {
            cur
        } else {
            best
        })
    }
}

/// Every integer literal in `s` has fewer than ten digits, so its value is
/// below a billion. The JSONPath engine walks slices with `i64` arithmetic
/// whose step and bounds come verbatim from the selector text; literals
/// this small keep that arithmetic far from overflow on any document.
pub open spec fn small_numbers(s: Seq<char>) -> bool {
    max_digit_run(s, 0, 0, 0) < 10
}

/// Checks [`small_numbers`] on a selector text.
pub fn path_numbers_small(path: &str) -> (r: bool)
    ensures
        r == small_numbers(path@),
{
    let chars = chars_of(path);
    let n = chars.len();
    let mut cur: usize = 0;
    let mut best: usize = 0;
    let mut j: usize = 0;
    while j < n
        invariant
            j <= n,
            n == chars@.len(),
            cur <= j,
            best <= n,
            max_digit_run(chars@, 0, 0, 0) == max_digit_run(chars@, j as int, cur as nat, best as nat),
        decreases n - j,
    {
        let c = chars[j];
        if '0' <= c && c <= '9' {
            cur = cur + 1;
        } else {
            if cur > best {
                best = cur;
            }
            cur = 0;
        }
        j = j + 1;
    }
    let run = if cur > best {
        cur
    } else {
        best
    };
    run < 10
}

/// Whether the response parses as JSON and the selector parses and applies
/// to it; a function of the two texts alone.
pub uninterp spec fn query_ok(response: Seq<char>, path: Seq<char>) -> bool;

/// The number of values the selector matches; a function of the two texts
/// alone, meaningful when [`query_ok`] holds.
pub uninterp spec fn match_count(response: Seq<char>, path: Seq<char>) -> nat;

/// The string payload of the first matched value, `None` when that value
/// is not a JSON string; meaningful when [`query_ok`] holds and the match
/// list is nonempty.
pub uninterp spec fn first_match_str(response: Seq<char>, path: Seq<char>) -> Option<Seq<char>>;

/// The compact JSON serialization of the whole match list.
pub uninterp spec fn matches_compact(response: Seq<char>, path: Seq<char>) -> Seq<char>;

/// The indented JSON serialization of the whole match list.
pub uninterp spec fn matches_pretty(response: Seq<char>, path: Seq<char>) -> Seq<char>;

/// One selector evaluation in first-match mode.
enum FirstOutcome {
    /// The response is not JSON, or the selector does not apply.
    Invalid,
    /// The selector applies but matches nothing.
    Empty,
    /// The first matched value is not a JSON string.
    NotText,
    /// The first matched value's string payload.
    Text(String),
}

/// Relies on `serde_json::from_str::<Value>`, `jsonpath_rust::JsonPath::query`
/// and `serde_json::Value::as_str`: parsing, evaluation and the first
/// match's payload are functions of the two texts alone. The caller keeps
/// the selector's integer literals small, away from the engine's slice
/// arithmetic overflow.
#[verifier::external_body]
fn query_first(response: &str, path: &str) -> (r: FirstOutcome)
    requires
        small_numbers(path@),
    ensures
        (r is Invalid) == !query_ok(response@, path@),
        (r is Empty) == (query_ok(response@, path@) && match_count(response@, path@) == 0),
        (r is NotText) == (query_ok(response@, path@) && match_count(response@, path@) > 0
            && first_match_str(response@, path@) is None),
        (r is Text) == (query_ok(response@, path@) && match_count(response@, path@) > 0
            && first_match_str(response@, path@) is Some),
        r matches FirstOutcome::Text(s) ==> Some(s@) == first_match_str(response@, path@),
{
    let doc: serde_json::Value = match serde_json::from_str(response) {
        Ok(d) => d,
        Err(_) => return FirstOutcome::Invalid,
    };
    let found = match jsonpath_rust::JsonPath::query(&doc, path) {
        Ok(m) => m,
        Err(_) => return FirstOutcome::Invalid,
    };
    match found.first() {
        None => FirstOutcome::Empty,
        Some(v) => match v.as_str() {
            Some(s) => FirstOutcome::Text(s.to_owned()),
            None => FirstOutcome::NotText,
        },
    }
}

/// Relies on `serde_json::from_str::<Value>`, `jsonpath_rust::JsonPath::query`
/// and `serde_json::to_string` (which cannot fail on a list of JSON
/// values): the compact serialization of the match list is a function of
/// the two texts alone. The caller keeps the selector's integer literals
/// small.
#[verifier::external_body]
fn query_compact(response: &str, path: &str) -> (r: Option<String>)
    requires
        small_numbers(path@),
    ensures
        (r is Some) == query_ok(response@, path@),
        r matches Some(s) ==> s@ == matches_compact(response@, path@),
{
    let doc: serde_json::Value = serde_json::from_str(response).ok()?;
    let found = jsonpath_rust::JsonPath::query(&doc, path).ok()?;
    serde_json::to_string(&found).ok()
}

/// Relies on `serde_json::from_str::<Value>`, `jsonpath_rust::JsonPath::query`
/// and `serde_json::to_string_pretty` (which cannot fail on a list of JSON
/// values): the indented serialization of the match list is a function of
/// the two texts alone. The caller keeps the selector's integer literals
/// small.
#[verifier::external_body]
fn query_pretty(response: &str, path: &str) -> (r: Option<String>)
    requires
        small_numbers(path@),
    ensures
        (r is Some) == query_ok(response@, path@),
        r matches Some(s) ==> s@ == matches_pretty(response@, path@),
{
    let doc: serde_json::Value = serde_json::from_str(response).ok()?;
    let found = jsonpath_rust::JsonPath::query(&doc, path).ok()?;
    serde_json::to_string_pretty(&found).ok()
}

/// The selector's outcome as a function of its inputs: `Ok` with the text
/// returned; `Err(true)` when first-match mode finds nothing; `Err(false)`
/// when the response is not JSON, the selector does not parse or apply,
/// its integer literals are oversized, or the first match is not a string.
pub open spec fn selection(
    path: Seq<char>,
    response: Seq<char>,
    just_first: bool,
    pretty: bool,
) -> Result<Seq<char>, bool> {
    if path.len() == 0 {
        Ok(response)
    } else if !small_numbers(path) {
        Err(false)
    } else if !query_ok(response, path) {
        Err(false)
    } else if just_first {
        if match_count(response, path) == 0 {
            Err(true)
        } else {
            match first_match_str(response, path) {
                Some(s) => Ok(s),
                None => Err(false),
            }
        }
    } else if pretty {
        Ok(matches_pretty(response, path))
    } else {
        Ok(matches_compact(response, path))
    }
}

/// Applies `path` to `response`: an empty path returns the response
/// unchanged; otherwise the response is parsed as JSON and the path
/// evaluated over it. With `just_first_slice_value` the first match is
/// returned as a plain string; otherwise the match list is serialized,
/// indented when `pretty` is set. The result is exactly [`selection`],
/// with `SelectorNoMatch` for a first-match miss and `SelectorInvalid`
/// otherwise.
pub fn get_response_value(
    path: &String,
    response: &String,
    just_first_slice_value: bool,
    pretty: bool,
) -> (r: Result<String, RunError>)
    ensures
        match selection(path@, response@, just_first_slice_value, pretty) {
            Ok(s) => r is Ok && r.unwrap()@ == s,
            Err(no_match) => r is Err && (no_match ==> r.unwrap_err() is SelectorNoMatch) && (
            !no_match ==> r.unwrap_err() is SelectorInvalid),
        },
{
    if path.as_str().unicode_len() == 0 {
        return Ok(response.clone());
    }
    if !path_numbers_small(path.as_str()) {
        let mut msg = String::new();
        msg.append("Oversized number in this selector: ");
        msg.append(path.as_str());
        return Err(RunError::SelectorInvalid(msg));
    }
    if just_first_slice_value {
        match query_first(response.as_str(), path.as_str()) {
            FirstOutcome::Text(s) => Ok(s),
            FirstOutcome::Empty => {
                let mut msg = String::new();
                msg.append("No match for this selector: ");
                msg.append(path.as_str());
                Err(RunError::SelectorNoMatch(msg))
            },
            FirstOutcome::NotText => {
                let mut msg = String::new();
                msg.append("Could not select value to use with this selector: ");
                msg.append(path.as_str());
                Err(RunError::SelectorInvalid(msg))
            },
            FirstOutcome::Invalid => {
                let mut msg = String::new();
                msg.append("Could not apply this selector: ");
                msg.append(path.as_str());
                Err(RunError::SelectorInvalid(msg))
            },
        }
    } else if pretty {
        match query_pretty(response.as_str(), path.as_str()) {
            Some(s) => Ok(s),
            None => {
                let mut msg = String::new();
                msg.append("Could not apply this selector: ");
                msg.append(path.as_str());
                Err(RunError::SelectorInvalid(msg))
            },
        }
    } else {
        match query_compact(response.as_str(), path.as_str()) {
            Some(s) => Ok(s),
            None => {
                let mut msg = String::new();
                msg.append("Could not apply this selector: ");
                msg.append(path.as_str());
                Err(RunError::SelectorInvalid(msg))
            },
        }
    }
}

} // verus!
