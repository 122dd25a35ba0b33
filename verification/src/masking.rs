//! The quote masker.
//!
//! Before a command is tokenized, every balanced double-quoted run (honoring
//! `\"` escapes) and every raw-body fence `~#-` … `-#` is replaced by a
//! placeholder `|#i|`; the replaced text, delimiters included, is kept in a
//! components list. Placeholders are numbered left to right from zero.
//! [`deserialize`] substitutes each `|#i|` back; [`lemma_mask_roundtrip`]
//! shows that unmasking a masked string restores the original.

use vstd::prelude::*;

use crate::text::{
    append_vec, find_from, first_occ_from, lemma_first_occ_from_props, occurs_at, replace_first,
    replace_first_spec, subrange_vec,
};

verus! {

/// The decimal digit character for `d`.
pub open spec fn digit_char(d: int) -> char {
    ((48 + d) as u8) as char
}

/// The decimal digits of `n`, most significant first.
pub open spec fn digits_of(n: nat) -> Seq<char>
    decreases n,
{
    if n < 10 {
        seq![digit_char(n as int)]
    } else {
        digits_of(n / 10) + seq![digit_char((n % 10) as int)]
    }
}

/// The placeholder written in place of component `i`.
pub open spec fn placeholder(i: nat) -> Seq<char> {
    seq!['|', '#'] + digits_of(i) + seq!['|']
}

/// Whether `s` is free of the `|#` marker that placeholders start with.
/// Masking a string that spells out `|#` may not round-trip, because the
/// spelled-out text is indistinguishable from a generated placeholder.
pub open spec fn no_marker(s: Seq<char>) -> bool {
    forall|k: int| 0 <= k < s.len() - 1 ==> !(#[trigger] s[k] == '|' && s[k + 1] == '#')
}

/// The index of the closing quote of a quoted run whose opening quote
/// stands just before `j`; a backslash escapes the following character.
pub open spec fn quote_end(s: Seq<char>, j: int) -> Option<int>
    decreases s.len() - j,
{
    if j < 0 || j >= s.len() {
        None
    } else if s[j] == '\\' {
        if j + 2 <= s.len() {
            quote_end(s, j + 2)
        } else {
            None
        }
    } else if s[j] == '"' {
        Some(j)
    } else {
        quote_end(s, j + 1)
    }
}

/// The index of the `-` of the first closing `-#` at or after `j`.
pub open spec fn fence_close(s: Seq<char>, j: int) -> Option<int> {
    first_occ_from(s, seq!['-', '#'], j)
}

/// Whether a raw-body fence `~#-` opens at `pos`.
pub open spec fn is_fence_start(s: Seq<char>, pos: int) -> bool {
    pos + 3 <= s.len() && s[pos] == '~' && s[pos + 1] == '#' && s[pos + 2] == '-'
}

/// The end (exclusive) of the maskable run starting at `pos`, if one starts
/// there: a balanced quoted run or a complete raw-body fence.
pub open spec fn run_end(s: Seq<char>, pos: int) -> Option<int> {
    if 0 <= pos < s.len() && s[pos] == '"' {
        match quote_end(s, pos + 1) {
            Some(j) => Some(j + 1),
            None => None,
        }
    } else if is_fence_start(s, pos) {
        match fence_close(s, pos + 3) {
            Some(j) => Some(j + 2),
            None => None,
        }
    } else {
        None
    }
}

/// The masked text and the components of the suffix of `s` starting at
/// `pos`, with placeholders numbered from `i`.
pub open spec fn mask_spec(s: Seq<char>, pos: int, i: nat) -> (Seq<char>, Seq<Seq<char>>)
    decreases s.len() - pos,
{
    if pos < 0 || pos >= s.len() {
        (Seq::<char>::empty(), Seq::<Seq<char>>::empty())
    } else {
        match run_end(s, pos) {
            Some(e) => {
                if pos < e <= s.len() {
                    let rest = mask_spec(s, e, i + 1);
                    (placeholder(i) + rest.0, seq![s.subrange(pos, e)] + rest.1)
                } else {
                    (Seq::<char>::empty(), Seq::<Seq<char>>::empty())
                }
            },
            None => {
                let rest = mask_spec(s, pos + 1, i);
                (seq![s[pos]] + rest.0, rest.1)
            },
        }
    }
}

/// The result of substituting each component back for its placeholder, in
/// order: component `k` replaces the first occurrence of `|#(start+k)|`.
pub open spec fn unmask_spec(part: Seq<char>, comps: Seq<Seq<char>>, start: nat) -> Seq<char>
    decreases comps.len(),
{
    if comps.len() == 0 {
        part
    } else {
        unmask_spec(replace_first_spec(part, placeholder(start), comps[0]), comps.skip(1), start + 1)
    }
}

proof fn lemma_quote_end_bounds(s: Seq<char>, j: int)
    requires
        0 <= j,
    ensures
        match quote_end(s, j) {
            Some(e) => j <= e < s.len() && s[e] == '"',
            None => true,
        },
    decreases s.len() - j,
{
    if j >= s.len() {
    } else if s[j] == '\\' {
        if j + 2 <= s.len() {
            lemma_quote_end_bounds(s, j + 2);
        }
    } else if s[j] == '"' {
    } else {
        lemma_quote_end_bounds(s, j + 1);
    }
}

/// Bounds and boundary characters of a maskable run.
proof fn lemma_run_end_bounds(s: Seq<char>, pos: int)
    requires
        0 <= pos,
    ensures
        match run_end(s, pos) {
            Some(e) => pos + 2 <= e <= s.len() && (s[pos] == '"' || s[pos] == '~') && (s[e - 1]
                == '"' || s[e - 1] == '#'),
            None => true,
        },
{
    if 0 <= pos < s.len() && s[pos] == '"' {
        lemma_quote_end_bounds(s, pos + 1);
    } else if is_fence_start(s, pos) {
        lemma_first_occ_from_props(s, seq!['-', '#'], pos + 3);
        match fence_close(s, pos + 3) {
            Some(j) => {
                assert(occurs_at(s, seq!['-', '#'], j));
                assert(s.subrange(j, j + 2)[1] == s[j + 1]);
            },
            None => {},
        }
    }
}

/// Every digit character is a decimal digit, hence none of the masking
/// delimiter characters.
proof fn lemma_digits_shape(n: nat)
    ensures
        digits_of(n).len() >= 1,
        forall|k: int|
            0 <= k < digits_of(n).len() ==> '0' <= #[trigger] digits_of(n)[k] && digits_of(n)[k]
                <= '9',
    decreases n,
{
    if n >= 10 {
        lemma_digits_shape(n / 10);
    }
}

/// Placeholders start with `|#`, end with `|`, and are at least four long.
proof fn lemma_placeholder_shape(i: nat)
    ensures
        placeholder(i).len() >= 4,
        placeholder(i)[0] == '|',
        placeholder(i)[1] == '#',
{
    lemma_digits_shape(i);
}

proof fn lemma_no_marker_subrange(s: Seq<char>, a: int, b: int)
    requires
        no_marker(s),
        0 <= a <= b <= s.len(),
    ensures
        no_marker(s.subrange(a, b)),
{
    assert forall|k: int| 0 <= k < b - a - 1 implies !(#[trigger] s.subrange(a, b)[k] == '|'
        && s.subrange(a, b)[k + 1] == '#') by {
        assert(s.subrange(a, b)[k] == s[a + k]);
        assert(s.subrange(a, b)[k + 1] == s[a + k + 1]);
    }
}

/// Well-formedness of the components a masking produces: each is at least
/// two long, starts with a quote or a tilde, ends with a quote or a hash,
/// and is itself free of the `|#` marker.
spec fn comps_ok(comps: Seq<Seq<char>>) -> bool {
    forall|j: int|
        0 <= j < comps.len() ==> (#[trigger] comps[j]).len() >= 2 && comps[j][0] != '#'
            && comps[j][comps[j].len() - 1] != '|' && no_marker(comps[j])
}

proof fn lemma_comps_shape(s: Seq<char>, pos: int, i: nat)
    requires
        no_marker(s),
        0 <= pos,
    ensures
        comps_ok(mask_spec(s, pos, i).1),
    decreases s.len() - pos,
{
    if pos >= s.len() {
    } else {
        lemma_run_end_bounds(s, pos);
        match run_end(s, pos) {
            Some(e) => {
                lemma_comps_shape(s, e, i + 1);
                lemma_no_marker_subrange(s, pos, e);
                let comp = s.subrange(pos, e);
                let cs = mask_spec(s, pos, i).1;
                assert(cs[0] == comp);
                assert(comp[0] == s[pos]);
                assert(comp[comp.len() - 1] == s[e - 1]);
                assert forall|j: int| 0 <= j < cs.len() implies (#[trigger] cs[j]).len() >= 2
                    && cs[j][0] != '#' && cs[j][cs[j].len() - 1] != '|' && no_marker(cs[j]) by {
                    if j > 0 {
                        assert(cs[j] == mask_spec(s, e, i + 1).1[j - 1]);
                    }
                }
            },
            None => {
                lemma_comps_shape(s, pos + 1, i);
            },
        }
    }
}

/// The first character of a non-empty masked text is either a placeholder
/// opener or the first unprocessed character.
proof fn lemma_mask_head(s: Seq<char>, pos: int, i: nat)
    requires
        0 <= pos,
    ensures
        mask_spec(s, pos, i).0.len() > 0 ==> (mask_spec(s, pos, i).0[0] == '|' || mask_spec(
            s,
            pos,
            i,
        ).0[0] == s[pos]),
{
    if 0 <= pos < s.len() {
        lemma_run_end_bounds(s, pos);
        match run_end(s, pos) {
            Some(e) => {
                lemma_placeholder_shape(i);
                assert(mask_spec(s, pos, i).0[0] == placeholder(i)[0]);
            },
            None => {
                assert(mask_spec(s, pos, i).0[0] == s[pos]);
            },
        }
    }
}

/// Unmasking distributes over a prefix in which no placeholder can start.
proof fn lemma_unmask_prepend(x: Seq<char>, t: Seq<char>, comps: Seq<Seq<char>>, start: nat)
    requires
        no_marker(x),
        (x.len() > 0 && x[x.len() - 1] == '|') ==> (t.len() > 0 ==> t[0] != '#'),
        forall|j: int| 0 <= j < comps.len() ==> (#[trigger] comps[j]).len() >= 1 && comps[j][0]
            != '#',
    ensures
        unmask_spec(x + t, comps, start) == x + unmask_spec(t, comps, start),
    decreases comps.len(),
{
    if comps.len() == 0 {
    } else {
        let ph = placeholder(start);
        lemma_placeholder_shape(start);
        assert forall|k: int| 0 <= k < x.len() implies !occurs_at(x + t, ph, k) by {
            if occurs_at(x + t, ph, k) {
                assert((x + t).subrange(k, k + ph.len())[0] == (x + t)[k]);
                assert((x + t).subrange(k, k + ph.len())[1] == (x + t)[k + 1]);
                assert((x + t)[k] == '|' && (x + t)[k + 1] == '#');
                if k + 1 < x.len() {
                    assert(x[k] == '|' && x[k + 1] == '#');
                } else {
                    assert(k == x.len() - 1);
                    assert(x[x.len() - 1] == '|');
                    assert((x + t)[k + 1] == t[0]);
                }
            }
        }
        crate::text::lemma_replace_prepend(x, t, ph, comps[0]);
        let t2 = replace_first_spec(t, ph, comps[0]);
        assert((x.len() > 0 && x[x.len() - 1] == '|') ==> (t2.len() > 0 ==> t2[0] != '#')) by {
            lemma_first_occ_from_props(t, ph, 0);
            match crate::text::first_occ(t, ph) {
                None => {},
                Some(m) => {
                    if m == 0 {
                        assert(t2 =~= t.take(0) + comps[0] + t.skip(ph.len() as int));
                        assert(t2[0] == comps[0][0]);
                    } else {
                        assert(t2[0] == t[0]);
                    }
                },
            }
        }
        lemma_unmask_prepend(x, t2, comps.skip(1), start + 1);
    }
}

/// The round trip at an arbitrary suffix and numbering.
proof fn lemma_roundtrip_at(s: Seq<char>, pos: int, i: nat)
    requires
        no_marker(s),
        0 <= pos <= s.len(),
    ensures
        unmask_spec(mask_spec(s, pos, i).0, mask_spec(s, pos, i).1, i) == s.skip(pos),
    decreases s.len() - pos,
{
    if pos == s.len() {
        assert(s.skip(pos) =~= Seq::<char>::empty());
    } else {
        lemma_run_end_bounds(s, pos);
        match run_end(s, pos) {
            None => {
                let c = s[pos];
                let m1 = mask_spec(s, pos + 1, i).0;
                let cs = mask_spec(s, pos + 1, i).1;
                lemma_comps_shape(s, pos + 1, i);
                lemma_mask_head(s, pos + 1, i);
                assert(no_marker(seq![c]));
                assert(c == '|' ==> (m1.len() > 0 ==> m1[0] != '#')) by {
                    if c == '|' && m1.len() > 0 {
                        assert(!(s[pos] == '|' && s[pos + 1] == '#'));
                    }
                }
                assert(seq![c][0] == c);
                lemma_unmask_prepend(seq![c], m1, cs, i);
                lemma_roundtrip_at(s, pos + 1, i);
                assert(seq![c] + s.skip(pos + 1) =~= s.skip(pos));
            },
            Some(e) => {
                let comp = s.subrange(pos, e);
                let m1 = mask_spec(s, e, i + 1).0;
                let cs = mask_spec(s, e, i + 1).1;
                let ph = placeholder(i);
                lemma_placeholder_shape(i);
                lemma_comps_shape(s, pos, i);
                lemma_comps_shape(s, e, i + 1);
                assert(mask_spec(s, pos, i).1[0] == comp);
                assert(mask_spec(s, pos, i).1.skip(1) =~= cs);
                // the first placeholder is replaced by the first component
                assert((ph + m1).subrange(0, ph.len() as int) =~= ph);
                assert(occurs_at(ph + m1, ph, 0));
                assert(crate::text::first_occ(ph + m1, ph) == Some(0int));
                let t2 = replace_first_spec(ph + m1, ph, comp);
                assert(t2 =~= comp + m1) by {
                    assert((ph + m1).take(0) =~= Seq::<char>::empty());
                    assert((ph + m1).skip(ph.len() as int) =~= m1);
                    assert((ph + m1).take(0) + comp + (ph + m1).skip(ph.len() as int) =~= comp + m1);
                }
                // the component itself is left alone by the later substitutions
                assert(comp.len() >= 2 && comp[0] != '#' && comp[comp.len() - 1] != '|'
                    && no_marker(comp)) by {
                    assert(mask_spec(s, pos, i).1[0] == comp);
                }
                lemma_unmask_prepend(comp, m1, cs, i + 1);
                lemma_roundtrip_at(s, e, i + 1);
                assert(unmask_spec(mask_spec(s, pos, i).0, mask_spec(s, pos, i).1, i) == unmask_spec(
                    t2,
                    cs,
                    i + 1,
                ));
                assert(comp + s.skip(e) =~= s.skip(pos));
            },
        }
    }
}

/// Quote-masking round trip: for any string free of the `|#` marker,
/// unmasking the masked text with its components restores the original.
pub proof fn lemma_mask_roundtrip(s: Seq<char>)
    requires
        no_marker(s),
    ensures
        unmask_spec(mask_spec(s, 0, 0).0, mask_spec(s, 0, 0).1, 0) == s,
{
    lemma_roundtrip_at(s, 0, 0);
    assert(s.skip(0) =~= s);
}

// ------------------------------------------------------------------
// Executable masking
// ------------------------------------------------------------------
/// The decimal digits of `n`.
pub(crate) fn digits_exec(n: usize) -> (r: Vec<char>)
    ensures
        r@ == digits_of(n as nat),
    decreases n,
{
    if n < 10 {
        let c = ((48 + (n as u8)) as u8) as char;
        let mut out: Vec<char> = Vec::new();
        out.push(c);
        assert(out@ =~= digits_of(n as nat));
        out
    } else {
        let mut out = digits_exec(n / 10);
        let c = ((48 + ((n % 10) as u8)) as u8) as char;
        out.push(c);
        assert(out@ =~= digits_of(n as nat));
        out
    }
}

/// The placeholder `|#i|`.
fn placeholder_exec(i: usize) -> (r: Vec<char>)
    ensures
        r@ == placeholder(i as nat),
{
    let mut out: Vec<char> = Vec::new();
    out.push('|');
    out.push('#');
    let ds = digits_exec(i);
    append_vec(&mut out, &ds);
    out.push('|');
    assert(out@ =~= placeholder(i as nat));
    out
}

fn quote_end_exec(s: &Vec<char>, start: usize) -> (r: Option<usize>)
    requires
        start <= s@.len(),
    ensures
        match r {
            Some(j) => quote_end(s@, start as int) == Some(j as int) && j < s@.len(),
            None => quote_end(s@, start as int) is None,
        },
{
    let n = s.len();
    let mut j = start;
    while j < n
        invariant
            n == s@.len(),
            j <= n,
            quote_end(s@, start as int) == quote_end(s@, j as int),
        decreases n - j,
    {
        if s[j] == '\\' {
            if j + 1 < n {
                j = j + 2;
            } else {
                return None;
            }
        } else if s[j] == '"' {
            return Some(j);
        } else {
            j = j + 1;
        }
    }
    None
}

fn run_end_exec(s: &Vec<char>, pos: usize) -> (r: Option<usize>)
    requires
        pos < s@.len(),
    ensures
        match r {
            Some(e) => run_end(s@, pos as int) == Some(e as int) && pos + 2 <= e <= s@.len(),
            None => run_end(s@, pos as int) is None,
        },
{
    let n = s.len();
    proof {
        lemma_run_end_bounds(s@, pos as int);
    }
    if s[pos] == '"' {
        match quote_end_exec(s, pos + 1) {
            Some(j) => Some(j + 1),
            None => None,
        }
    } else if n - pos >= 3 && s[pos] == '~' && s[pos + 1] == '#' && s[pos + 2] == '-' {
        let mut pat: Vec<char> = Vec::new();
        pat.push('-');
        pat.push('#');
        assert(pat@ =~= seq!['-', '#']);
        match find_from(s, &pat, pos + 3) {
            Some(j) => {
                proof {
                    lemma_first_occ_from_props(s@, seq!['-', '#'], pos + 3);
                }
                Some(j + 2)
            },
            None => None,
        }
    } else {
        None
    }
}

/// Masks `s`: returns the masked text and the components, numbered from
/// zero.
pub fn serialize_chars(s: &Vec<char>) -> (r: (Vec<char>, Vec<Vec<char>>))
    ensures
        (r.0@, r.1.deep_view()) == mask_spec(s@, 0, 0),
{
    let n = s.len();
    let mut out: Vec<char> = Vec::new();
    let mut comps: Vec<Vec<char>> = Vec::new();
    let mut pos: usize = 0;
    while pos < n
        invariant
            n == s@.len(),
            pos <= n,
            mask_spec(s@, 0, 0).0 =~= out@ + mask_spec(s@, pos as int, comps@.len() as nat).0,
            mask_spec(s@, 0, 0).1 =~= comps.deep_view() + mask_spec(
                s@,
                pos as int,
                comps@.len() as nat,
            ).1,
        decreases n - pos,
    {
        let ghost i = comps@.len() as nat;
        proof {
            lemma_run_end_bounds(s@, pos as int);
        }
        match run_end_exec(s, pos) {
            Some(e) => {
                let ghost old_dv = comps.deep_view();
                let comp = subrange_vec(s, pos, e);
                let ph = placeholder_exec(comps.len());
                append_vec(&mut out, &ph);
                comps.push(comp);
                proof {
                    let rest = mask_spec(s@, e as int, i + 1);
                    assert(mask_spec(s@, pos as int, i).0 =~= placeholder(i) + rest.0);
                    assert(mask_spec(s@, pos as int, i).1 =~= seq![s@.subrange(pos as int, e as int)]
                        + rest.1);
                    assert(comps.deep_view() =~~= old_dv.push(s@.subrange(pos as int, e as int)));
                }
                pos = e;
            },
            None => {
                out.push(s[pos]);
                proof {
                    let rest = mask_spec(s@, pos + 1, i);
                    assert(mask_spec(s@, pos as int, i).0 =~= seq![s@[pos as int]] + rest.0);
                    assert(mask_spec(s@, pos as int, i).1 =~= rest.1);
                }
                pos = pos + 1;
            },
        }
    }
    (out, comps)
}

/// Substitutes each component back for its placeholder, in order.
pub fn deserialize_chars(part: &Vec<char>, comps: &Vec<Vec<char>>) -> (r: Vec<char>)
    ensures
        r@ == unmask_spec(part@, comps.deep_view(), 0),
{
    let mut cur: Vec<char> = Vec::new();
    append_vec(&mut cur, part);
    assert(cur@ =~= part@);
    assert(comps.deep_view().skip(0) =~= comps.deep_view());
    let mut i: usize = 0;
    while i < comps.len()
        invariant
            i <= comps@.len(),
            unmask_spec(part@, comps.deep_view(), 0) == unmask_spec(
                cur@,
                comps.deep_view().skip(i as int),
                i as nat,
            ),
        decreases comps@.len() - i,
    {
        let ph = placeholder_exec(i);
        proof {
            lemma_placeholder_shape(i as nat);
            let rem = comps.deep_view().skip(i as int);
            assert(rem[0] == comps.deep_view()[i as int]);
            assert(comps.deep_view()[i as int] =~= comps@[i as int]@);
            assert(rem.skip(1) =~= comps.deep_view().skip(i as int + 1));
        }
        let next = replace_first(&cur, &ph, &comps[i]);
        cur = next;
        i = i + 1;
    }
    proof {
        assert(comps.deep_view().skip(comps@.len() as int) =~= Seq::<Seq<char>>::empty());
    }
    cur
}

// ------------------------------------------------------------------
// Removing placeholders outright
// ------------------------------------------------------------------
/// The end (exclusive) of the run of decimal digits starting at `j`.
pub open spec fn digit_run_end(s: Seq<char>, j: int) -> int
    decreases s.len() - j,
{
    if 0 <= j < s.len() && '0' <= s[j] && s[j] <= '9' {
        digit_run_end(s, j + 1)
    } else {
        j
    }
}

/// The index of the closing `|` of a placeholder starting at `pos`, if a
/// complete placeholder `|#<digits>|` stands there.
pub open spec fn ph_at(s: Seq<char>, pos: int) -> Option<int> {
    if 0 <= pos && pos + 2 <= s.len() && s[pos] == '|' && s[pos + 1] == '#' && digit_run_end(
        s,
        pos + 2,
    ) > pos + 2 && digit_run_end(s, pos + 2) < s.len() && s[digit_run_end(s, pos + 2)] == '|' {
        Some(digit_run_end(s, pos + 2))
    } else {
        None
    }
}

/// The suffix of `s` from `pos` with every placeholder removed.
pub open spec fn strip_spec(s: Seq<char>, pos: int) -> Seq<char>
    decreases s.len() - pos,
{
    if pos < 0 || pos >= s.len() {
        Seq::<char>::empty()
    } else {
        match ph_at(s, pos) {
            Some(e) => strip_spec(s, e + 1),
            None => seq![s[pos]] + strip_spec(s, pos + 1),
        }
    }
}

proof fn lemma_digit_run_bounds(s: Seq<char>, j: int)
    requires
        0 <= j <= s.len(),
    ensures
        j <= digit_run_end(s, j) <= s.len(),
    decreases s.len() - j,
{
    if 0 <= j < s.len() && '0' <= s[j] && s[j] <= '9' {
        lemma_digit_run_bounds(s, j + 1);
    }
}

fn digit_run_end_exec(s: &Vec<char>, start: usize) -> (r: usize)
    requires
        start <= s@.len(),
    ensures
        r == digit_run_end(s@, start as int),
        start <= r <= s@.len(),
{
    let n = s.len();
    let mut j = start;
    while j < n && '0' <= s[j] && s[j] <= '9'
        invariant
            start <= j <= n,
            n == s@.len(),
            digit_run_end(s@, start as int) == digit_run_end(s@, j as int),
        decreases n - j,
    {
        j = j + 1;
    }
    j
}

/// `s` with every placeholder `|#<digits>|` removed.
pub fn strip_placeholders_chars(s: &Vec<char>) -> (r: Vec<char>)
    ensures
        r@ == strip_spec(s@, 0),
{
    let n = s.len();
    let mut out: Vec<char> = Vec::new();
    let mut pos: usize = 0;
    while pos < n
        invariant
            pos <= n,
            n == s@.len(),
            strip_spec(s@, 0) =~= out@ + strip_spec(s@, pos as int),
        decreases n - pos,
    {
        let mut stripped = false;
        if s[pos] == '|' && n - pos >= 2 {
            if s[pos + 1] == '#' {
                let e = digit_run_end_exec(s, pos + 2);
                if e > pos + 2 && e < n {
                    if s[e] == '|' {
                        assert(ph_at(s@, pos as int) == Some(e as int));
                        pos = e + 1;
                        stripped = true;
                    }
                }
            }
        }
        if !stripped {
            assert(ph_at(s@, pos as int) is None);
            out.push(s[pos]);
            pos = pos + 1;
        }
    }
    out
}

// ------------------------------------------------------------------
// String-level interface
// ------------------------------------------------------------------
/// Masks `input`: returns the masked text and the components list.
pub fn serialize(input: String) -> (r: (String, Vec<String>))
    ensures
        r.0@ == mask_spec(input@, 0, 0).0,
        r.1.deep_view() == mask_spec(input@, 0, 0).1,
{
    let chars = crate::text::chars_of(input.as_str());
    let (masked, comps) = serialize_chars(&chars);
    let masked_s = crate::text::string_of(&masked);
    let mut out: Vec<String> = Vec::new();
    let mut i: usize = 0;
    while i < comps.len()
        invariant
            i <= comps@.len(),
            out.deep_view() =~= comps.deep_view().take(i as int),
        decreases comps@.len() - i,
    {
        let ghost old_dv = out.deep_view();
        out.push(crate::text::string_of(&comps[i]));
        proof {
            assert(out.deep_view() =~~= old_dv.push(comps.deep_view()[i as int]));
            assert(out.deep_view() =~~= comps.deep_view().take(i as int + 1));
        }
        i = i + 1;
    }
    proof {
        assert(comps.deep_view().take(comps@.len() as int) =~= comps.deep_view());
    }
    (masked_s, out)
}

/// The characters of each component.
pub(crate) fn comps_chars(components: &Vec<String>) -> (r: Vec<Vec<char>>)
    ensures
        r.deep_view() == components.deep_view(),
{
    let mut comps: Vec<Vec<char>> = Vec::new();
    let mut i: usize = 0;
    while i < components.len()
        invariant
            i <= components@.len(),
            comps.deep_view() =~= components.deep_view().take(i as int),
        decreases components@.len() - i,
    {
        let ghost old_dv = comps.deep_view();
        comps.push(crate::text::chars_of(components[i].as_str()));
        proof {
            assert(comps.deep_view() =~~= old_dv.push(components.deep_view()[i as int]));
            assert(comps.deep_view() =~~= components.deep_view().take(i as int + 1));
        }
        i = i + 1;
    }
    proof {
        assert(components.deep_view().take(components@.len() as int) =~= components.deep_view());
    }
    comps
}

/// Substitutes each component of `components` back for its placeholder.
pub fn deserialize(input: String, components: &Vec<String>) -> (r: String)
    ensures
        r@ == unmask_spec(input@, components.deep_view(), 0),
{
    let chars = crate::text::chars_of(input.as_str());
    let comps = comps_chars(components);
    let out = deserialize_chars(&chars, &comps);
    crate::text::string_of(&out)
}

/// `input` with every placeholder `|#<digits>|` removed, used when a masked
/// text must be word-split without reintroducing masked runs.
pub fn remove_serialization_placeholders(input: &String) -> (r: String)
    ensures
        r@ == strip_spec(input@, 0),
{
    let chars = crate::text::chars_of(input.as_str());
    let out = strip_placeholders_chars(&chars);
    crate::text::string_of(&out)
}


/// A copy of a list of strings, character for character.
pub(crate) fn clone_strings(v: &Vec<String>) -> (r: Vec<String>)
    ensures
        r.deep_view() == v.deep_view(),
{
    let mut out: Vec<String> = Vec::new();
    let mut i: usize = 0;
    while i < v.len()
        invariant
            i <= v@.len(),
            out.deep_view() =~= v.deep_view().take(i as int),
        decreases v@.len() - i,
    {
        let ghost old_dv = out.deep_view();
        out.push(v[i].clone());
        proof {
            assert(out.deep_view() =~~= old_dv.push(v.deep_view()[i as int]));
            assert(out.deep_view() =~~= v.deep_view().take(i as int + 1));
        }
        i = i + 1;
    }
    proof {
        assert(v.deep_view().take(v@.len() as int) =~= v.deep_view());
    }
    out
}

} // verus!
