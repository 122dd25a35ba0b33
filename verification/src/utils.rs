//! Small verified helpers over command text: attribute splitting, quote
//! stripping, and raw-body extraction.

use vstd::prelude::*;

use crate::text::{
    chars_of, find_from, first_occ, first_occ_from, lemma_first_occ_from_props, string_of,
    subrange_vec, trim_chars, trim_spec,
};

verus! {

/// `s` trimmed; if the trimmed text is wrapped in double quotes, the quotes
/// are removed as well.
pub open spec fn unquote_spec(s: Seq<char>) -> Seq<char> {
    let t = trim_spec(s);
    if t.len() >= 2 && t[0] == '"' && t[t.len() - 1] == '"' {
        t.subrange(1, t.len() - 1)
    } else {
        t
    }
}

/// Trims `input` and strips one pair of surrounding double quotes, if any.
pub fn trim_and_remove_quotes(input: String) -> (r: String)
    ensures
        r@ == unquote_spec(input@),
{
    let chars = chars_of(input.as_str());
    let t = trim_chars(&chars);
    if t.len() >= 2 && t[0] == '"' && t[t.len() - 1] == '"' {
        let inner = subrange_vec(&t, 1, t.len() - 1);
        string_of(&inner)
    } else {
        string_of(&t)
    }
}

/// The key and value of an attribute `key=value`: the key is the trimmed
/// text before the first `=`, the value the trimmed text between the first
/// and second `=` (or the rest, with a single `=`). `None` when there is
/// no `=` at all.
pub open spec fn key_value_split(attr: Seq<char>) -> Option<(Seq<char>, Seq<char>)> {
    let t = trim_spec(attr);
    match first_occ(t, seq!['=']) {
        None => None,
        Some(k) => {
            let key = trim_spec(t.take(k));
            let rest = t.skip(k + 1);
            let value = match first_occ(rest, seq!['=']) {
                None => trim_spec(rest),
                Some(m) => trim_spec(rest.take(m)),
            };
            Some((key, value))
        },
    }
}

/// Splits an attribute of the form `key=value` into its trimmed key and
/// value; fails when no `=` is present.
pub fn resolve_key_and_value(attribute: String) -> (r: Result<(String, String), String>)
    ensures
        match r {
            Ok(kv) => key_value_split(attribute@) == Some((kv.0@, kv.1@)),
            Err(e) => key_value_split(attribute@) is None && e@
                == "Failed to resolve value from attribute"@,
        },
{
    let chars = chars_of(attribute.as_str());
    let t = trim_chars(&chars);
    let mut eq_pat: Vec<char> = Vec::new();
    eq_pat.push('=');
    assert(eq_pat@ =~= seq!['=']);
    match find_from(&t, &eq_pat, 0) {
        None => Err("Failed to resolve value from attribute".to_owned()),
        Some(k) => {
            proof {
                lemma_first_occ_from_props(t@, seq!['='], 0);
                assert(k + 1 <= t@.len());
            }
            let tl = t.len();
            let key_part = subrange_vec(&t, 0, k);
            let key = trim_chars(&key_part);
            let rest = subrange_vec(&t, k + 1, tl);
            let value = match find_from(&rest, &eq_pat, 0) {
                None => trim_chars(&rest),
                Some(m) => {
                    proof {
                        lemma_first_occ_from_props(rest@, seq!['='], 0);
                    }
                    let value_part = subrange_vec(&rest, 0, m);
                    trim_chars(&value_part)
                },
            };
            proof {
                assert(t@.take(k as int) =~= t@.subrange(0, k as int));
                assert(t@.skip(k + 1) =~= t@.subrange(k + 1, t@.len() as int));
            }
            Ok((string_of(&key), string_of(&value)))
        },
    }
}

/// The text between the first raw-body fence `~#-` … `-#`, if the command
/// holds a complete fence.
pub open spec fn raw_body_spec(s: Seq<char>) -> Option<Seq<char>> {
    match first_occ(s, seq!['~', '#', '-']) {
        None => None,
        Some(p) => match first_occ_from(s, seq!['-', '#'], p + 3) {
            None => None,
            Some(q) => Some(s.subrange(p + 3, q)),
        },
    }
}

/// Extracts the raw JSON body between the first `~#-` … `-#` fence.
pub fn get_raw_json_body(input: &String) -> (r: Option<String>)
    ensures
        match r {
            Some(x) => raw_body_spec(input@) == Some(x@),
            None => raw_body_spec(input@) is None,
        },
{
    let chars = chars_of(input.as_str());
    let mut open_pat: Vec<char> = Vec::new();
    open_pat.push('~');
    open_pat.push('#');
    open_pat.push('-');
    assert(open_pat@ =~= seq!['~', '#', '-']);
    let mut close_pat: Vec<char> = Vec::new();
    close_pat.push('-');
    close_pat.push('#');
    assert(close_pat@ =~= seq!['-', '#']);
    match find_from(&chars, &open_pat, 0) {
        None => None,
        Some(p) => {
            proof {
                lemma_first_occ_from_props(chars@, seq!['~', '#', '-'], 0);
                assert(p + 3 <= chars@.len());
            }
            let cl = chars.len();
            assert(p + 3 <= cl);
            match find_from(&chars, &close_pat, p + 3) {
                None => None,
                Some(q) => {
                    proof {
                        lemma_first_occ_from_props(chars@, seq!['-', '#'], p + 3);
                    }
                    let inner = subrange_vec(&chars, p + 3, q);
                    Some(string_of(&inner))
                },
            }
        },
    }
}

/// The text of `s` from `pos` on, with every minimally quoted run removed;
/// quotes are paired left to right without escape handling.
pub open spec fn exclude_quoted_spec(s: Seq<char>, pos: int) -> Seq<char>
    decreases s.len() - pos,
{
    if pos < 0 || pos >= s.len() {
        Seq::<char>::empty()
    } else if s[pos] == '"' {
        match first_occ_from(s, seq!['"'], pos + 1) {
            Some(q) => if pos < q + 1 <= s.len() {
                exclude_quoted_spec(s, q + 1)
            } else {
                Seq::<char>::empty()
            },
            None => s.skip(pos),
        }
    } else {
        seq![s[pos]] + exclude_quoted_spec(s, pos + 1)
    }
}

/// Removes every quoted run from `input`, quotes included.
pub fn exclude_quoted_text(input: String) -> (r: String)
    ensures
        r@ == exclude_quoted_spec(input@, 0),
{
    let chars = chars_of(input.as_str());
    let n = chars.len();
    let mut quote_pat: Vec<char> = Vec::new();
    quote_pat.push('"');
    assert(quote_pat@ =~= seq!['"']);
    let mut out: Vec<char> = Vec::new();
    let mut pos: usize = 0;
    while pos < n
        invariant
            pos <= n,
            n == chars@.len(),
            quote_pat@ == seq!['"'],
            exclude_quoted_spec(chars@, 0) =~= out@ + exclude_quoted_spec(chars@, pos as int),
        decreases n - pos,
    {
        if chars[pos] == '"' {
            match find_from(&chars, &quote_pat, pos + 1) {
                Some(q) => {
                    proof {
                        lemma_first_occ_from_props(chars@, seq!['"'], pos + 1);
                    }
                    pos = q + 1;
                },
                None => {
                    let rest = subrange_vec(&chars, pos, n);
                    crate::text::append_vec(&mut out, &rest);
                    proof {
                        assert(chars@.subrange(pos as int, n as int) =~= chars@.skip(pos as int));
                    }
                    pos = n;
                },
            }
        } else {
            out.push(chars[pos]);
            pos = pos + 1;
        }
    }
    string_of(&out)
}

} // verus!
