//! Verified utilities over character sequences.
//!
//! The parsing logic of this crate works on `Vec<char>`, whose view is a
//! `Seq<char>`; strings enter and leave through [`chars_of`] and
//! [`string_of`].

use vstd::prelude::*;
use vstd::string::*;

verus! {

/// The characters that separate tokens and are removed by trimming.
pub open spec fn is_space_char(c: char) -> bool {
    c == ' ' || c == '\n' || c == '\t' || c == '\r'
}

pub fn is_space_exec(c: char) -> (r: bool)
    ensures
        r == is_space_char(c),
{
    c == ' ' || c == '\n' || c == '\t' || c == '\r'
}

/// The characters of `s`, in order.
pub fn chars_of(s: &str) -> (r: Vec<char>)
    ensures
        r@ == s@,
{
    let n = s.unicode_len();
    let mut out: Vec<char> = Vec::new();
    let mut i: usize = 0;
    while i < n
        invariant
            i <= n,
            n == s@.len(),
            out@ =~= s@.take(i as int),
        decreases n - i,
    {
        out.push(s.get_char(i));
        i = i + 1;
        assert(s@.take(i as int) =~= s@.take(i as int - 1).push(s@[i as int - 1]));
    }
    assert(s@.take(n as int) =~= s@);
    out
}

/// Relies on `String: FromIterator<char>`: collecting an iterator of
/// characters yields the string of exactly those characters, in order.
#[verifier::external_body]
pub fn string_of(v: &Vec<char>) -> (r: String)
    ensures
        r@ == v@,
{
    v.iter().collect()
}

/// The characters of `v` between `from` (inclusive) and `to` (exclusive).
pub fn subrange_vec(v: &Vec<char>, from: usize, to: usize) -> (r: Vec<char>)
    requires
        from <= to <= v@.len(),
    ensures
        r@ == v@.subrange(from as int, to as int),
{
    let mut out: Vec<char> = Vec::new();
    let mut i: usize = from;
    while i < to
        invariant
            from <= i <= to <= v@.len(),
            out@ =~= v@.subrange(from as int, i as int),
        decreases to - i,
    {
        out.push(v[i]);
        i = i + 1;
        assert(v@.subrange(from as int, i as int) =~= v@.subrange(from as int, i as int - 1).push(
            v@[i as int - 1],
        ));
    }
    out
}

/// Appends the characters of `src` to `dst`.
pub fn append_vec(dst: &mut Vec<char>, src: &Vec<char>)
    ensures
        final(dst)@ == old(dst)@ + src@,
{
    let mut i: usize = 0;
    while i < src.len()
        invariant
            i <= src@.len(),
            dst@ =~= old(dst)@ + src@.take(i as int),
        decreases src@.len() - i,
    {
        dst.push(src[i]);
        i = i + 1;
        assert(src@.take(i as int) =~= src@.take(i as int - 1).push(src@[i as int - 1]));
    }
    assert(dst@ =~= old(dst)@ + src@);
}

/// Whether `s` equals the string literal `lit`, character for character.
pub fn eq_lit(s: &Vec<char>, lit: &str) -> (r: bool)
    ensures
        r == (s@ == lit@),
{
    let n = lit.unicode_len();
    if s.len() != n {
        return false;
    }
    let mut i: usize = 0;
    while i < n
        invariant
            i <= n,
            n == lit@.len(),
            s@.len() == n,
            forall|j: int| 0 <= j < i ==> s@[j] == lit@[j],
        decreases n - i,
    {
        if s[i] != lit.get_char(i) {
            return false;
        }
        i = i + 1;
    }
    assert(s@ =~= lit@);
    true
}

/// Whether the characters of `a` and `b` are equal.
pub fn eq_chars(a: &Vec<char>, b: &Vec<char>) -> (r: bool)
    ensures
        r == (a@ == b@),
{
    if a.len() != b.len() {
        return false;
    }
    let mut i: usize = 0;
    while i < a.len()
        invariant
            i <= a@.len(),
            a@.len() == b@.len(),
            forall|j: int| 0 <= j < i ==> a@[j] == b@[j],
        decreases a@.len() - i,
    {
        if a[i] != b[i] {
            return false;
        }
        i = i + 1;
    }
    assert(a@ =~= b@);
    true
}

/// ASCII-lowercases a single character; other characters are unchanged.
pub open spec fn lower_char(c: char) -> char {
    if 'A' <= c && c <= 'Z' {
        ((c as u8) + 32) as char
    } else {
        c
    }
}

/// ASCII-lowercases a character sequence.
pub open spec fn to_lower(s: Seq<char>) -> Seq<char> {
    s.map_values(|c: char| lower_char(c))
}

pub fn lower_char_exec(c: char) -> (r: char)
    ensures
        r == lower_char(c),
{
    if 'A' <= c && c <= 'Z' {
        (((c as u8) + 32) as char)
    } else {
        c
    }
}

pub fn to_lower_exec(s: &Vec<char>) -> (r: Vec<char>)
    ensures
        r@ == to_lower(s@),
{
    let mut out: Vec<char> = Vec::new();
    let mut i: usize = 0;
    while i < s.len()
        invariant
            i <= s@.len(),
            out@ =~= to_lower(s@.take(i as int)),
        decreases s@.len() - i,
    {
        out.push(lower_char_exec(s[i]));
        i = i + 1;
        assert(s@.take(i as int) =~= s@.take(i as int - 1).push(s@[i as int - 1]));
    }
    assert(s@.take(s@.len() as int) =~= s@);
    out
}

/// `s` with leading space characters removed.
pub open spec fn trim_left(s: Seq<char>) -> Seq<char>
    decreases s.len(),
{
    if s.len() > 0 && is_space_char(s[0]) {
        trim_left(s.skip(1))
    } else {
        s
    }
}

/// `s` with trailing space characters removed.
pub open spec fn trim_right(s: Seq<char>) -> Seq<char>
    decreases s.len(),
{
    if s.len() > 0 && is_space_char(s[s.len() - 1]) {
        trim_right(s.take(s.len() - 1))
    } else {
        s
    }
}

/// `s` with leading and trailing space characters removed.
pub open spec fn trim_spec(s: Seq<char>) -> Seq<char> {
    trim_right(trim_left(s))
}

proof fn lemma_trim_left_skip(s: Seq<char>, a: int)
    requires
        0 <= a <= s.len(),
        forall|j: int| 0 <= j < a ==> is_space_char(s[j]),
        a < s.len() ==> !is_space_char(s[a]),
    ensures
        trim_left(s) == s.skip(a),
    decreases a,
{
    if a == 0 {
        assert(s.skip(0) =~= s);
    } else {
        assert(is_space_char(s[0]));
        lemma_trim_left_skip(s.skip(1), a - 1);
        assert(s.skip(1).skip(a - 1) =~= s.skip(a));
    }
}

proof fn lemma_trim_right_take(s: Seq<char>, b: int)
    requires
        0 <= b <= s.len(),
        forall|j: int| b <= j < s.len() ==> is_space_char(s[j]),
        b > 0 ==> !is_space_char(s[b - 1]),
    ensures
        trim_right(s) == s.take(b),
    decreases s.len() - b,
{
    if b == s.len() {
        assert(s.take(b) =~= s);
    } else {
        assert(is_space_char(s[s.len() - 1]));
        lemma_trim_right_take(s.take(s.len() - 1), b);
        assert(s.take(s.len() - 1).take(b) =~= s.take(b));
    }
}

/// `v` with leading and trailing space characters removed.
pub fn trim_chars(v: &Vec<char>) -> (r: Vec<char>)
    ensures
        r@ == trim_spec(v@),
{
    let mut a: usize = 0;
    while a < v.len() && is_space_exec(v[a])
        invariant
            a <= v@.len(),
            forall|j: int| 0 <= j < a ==> is_space_char(v@[j]),
        decreases v@.len() - a,
    {
        a = a + 1;
    }
    proof {
        lemma_trim_left_skip(v@, a as int);
    }
    let mut b: usize = v.len();
    while b > a && is_space_exec(v[b - 1])
        invariant
            a <= b <= v@.len(),
            forall|j: int| b <= j < v@.len() ==> is_space_char(v@[j]),
        decreases b,
    {
        b = b - 1;
    }
    let r = subrange_vec(v, a, b);
    proof {
        let t = v@.skip(a as int);
        if b == a {
            // everything after the leading run is space
            lemma_trim_right_take(t, 0);
        } else {
            lemma_trim_right_take(t, b - a as int);
        }
        assert(t.take(b - a as int) =~= v@.subrange(a as int, b as int));
    }
    r
}

/// Whether `pat` occurs in `t` starting at index `k`.
pub open spec fn occurs_at(t: Seq<char>, pat: Seq<char>, k: int) -> bool {
    0 <= k && k + pat.len() <= t.len() && t.subrange(k, k + pat.len()) == pat
}

/// The first index at or after `k` where `pat` occurs in `t`, if any.
pub open spec fn first_occ_from(t: Seq<char>, pat: Seq<char>, k: int) -> Option<int>
    decreases t.len() - k,
{
    if k + pat.len() > t.len() {
        None
    } else if pat.len() == 0 {
        Some(k)
    } else if occurs_at(t, pat, k) {
        Some(k)
    } else {
        first_occ_from(t, pat, k + 1)
    }
}

pub open spec fn first_occ(t: Seq<char>, pat: Seq<char>) -> Option<int> {
    first_occ_from(t, pat, 0)
}

pub broadcast proof fn lemma_first_occ_from_props(t: Seq<char>, pat: Seq<char>, k: int)
    requires
        0 <= k,
    ensures
        match #[trigger] first_occ_from(t, pat, k) {
            Some(i) => occurs_at(t, pat, i) && k <= i && forall|j: int|
                k <= j < i ==> !occurs_at(t, pat, j),
            None => forall|j: int| k <= j ==> !occurs_at(t, pat, j),
        },
    decreases t.len() - k,
{
    if k + pat.len() > t.len() {
        assert forall|j: int| k <= j implies !occurs_at(t, pat, j) by {}
    } else if pat.len() == 0 {
        assert(t.subrange(k, k) =~= pat);
        assert(occurs_at(t, pat, k));
    } else if occurs_at(t, pat, k) {
    } else {
        lemma_first_occ_from_props(t, pat, k + 1);
    }
}

/// Whether `pat` occurs anywhere in `t`.
pub open spec fn contains_seq(t: Seq<char>, pat: Seq<char>) -> bool {
    exists|k: int| occurs_at(t, pat, k)
}

/// The first index at or after `from` where `pat` occurs in `v`, if any.
pub fn find_from(v: &Vec<char>, pat: &Vec<char>, from: usize) -> (r: Option<usize>)
    requires
        from <= v@.len(),
        pat@.len() > 0,
    ensures
        match r {
            Some(i) => from <= i && first_occ_from(v@, pat@, from as int) == Some(i as int),
            None => first_occ_from(v@, pat@, from as int) is None,
        },
{
    let n = v.len();
    let p = pat.len();
    if p > n {
        proof {
            lemma_first_occ_long(v@, pat@, from as int);
        }
        return None;
    }
    let last = n - p;
    let mut k: usize = from;
    while k <= last
        invariant
            k <= n,
            n == v@.len(),
            p == pat@.len(),
            1 <= p <= n,
            last == n - p,
            from <= k,
            first_occ_from(v@, pat@, from as int) == first_occ_from(v@, pat@, k as int),
        decreases last + 1 - k,
    {
        if match_at(v, pat, k) {
            return Some(k);
        }
        k = k + 1;
    }
    proof {
        lemma_first_occ_long(v@, pat@, k as int);
    }
    None
}

/// Whether `pat` occurs in `v` starting at index `k`.
fn match_at(v: &Vec<char>, pat: &Vec<char>, k: usize) -> (r: bool)
    requires
        k + pat@.len() <= v@.len(),
    ensures
        r == occurs_at(v@, pat@, k as int),
{
    let n = v.len();
    let mut m: usize = 0;
    while m < pat.len()
        invariant
            n == v@.len(),
            k + pat@.len() <= n,
            m <= pat@.len(),
            forall|j: int| 0 <= j < m ==> v@[k + j] == pat@[j],
        decreases pat@.len() - m,
    {
        if v[k + m] != pat[m] {
            proof {
                let bad = m as int;
                assert(!occurs_at(v@, pat@, k as int)) by {
                    if occurs_at(v@, pat@, k as int) {
                        assert(v@.subrange(k as int, k + pat@.len())[bad] == pat@[bad]);
                    }
                }
            }
            return false;
        }
        m = m + 1;
    }
    assert(v@.subrange(k as int, k + pat@.len()) =~= pat@);
    true
}

proof fn lemma_first_occ_long(t: Seq<char>, pat: Seq<char>, k: int)
    requires
        k + pat.len() > t.len(),
    ensures
        first_occ_from(t, pat, k) is None,
{
}

/// Occurrences shift along with a prepended prefix.
pub proof fn lemma_occurs_at_shift(x: Seq<char>, t: Seq<char>, pat: Seq<char>, k: int)
    requires
        0 <= k,
    ensures
        occurs_at(x + t, pat, x.len() + k) == occurs_at(t, pat, k),
{
    if k + pat.len() <= t.len() {
        assert((x + t).subrange(x.len() + k, x.len() + k + pat.len()) =~= t.subrange(
            k,
            k + pat.len(),
        ));
    }
}

/// A position with no occurrence can be skipped when searching.
pub proof fn lemma_first_occ_step(t: Seq<char>, pat: Seq<char>, k: int)
    requires
        !occurs_at(t, pat, k),
        pat.len() > 0,
    ensures
        first_occ_from(t, pat, k) == first_occ_from(t, pat, k + 1),
{
    if k + pat.len() > t.len() {
        assert(first_occ_from(t, pat, k + 1) is None);
    }
}

/// Searching may start past any occurrence-free range.
pub proof fn lemma_first_occ_skip_range(t: Seq<char>, pat: Seq<char>, a: int, b: int)
    requires
        a <= b,
        pat.len() > 0,
        forall|j: int| a <= j < b ==> !occurs_at(t, pat, j),
    ensures
        first_occ_from(t, pat, a) == first_occ_from(t, pat, b),
    decreases b - a,
{
    if a < b {
        lemma_first_occ_step(t, pat, a);
        lemma_first_occ_skip_range(t, pat, a + 1, b);
    }
}

/// The first occurrence within the suffix `t` of `x + t`, found from the
/// boundary, is the first occurrence in `t`, shifted.
pub proof fn lemma_first_occ_shift(x: Seq<char>, t: Seq<char>, pat: Seq<char>, k: int)
    requires
        0 <= k,
        pat.len() > 0,
    ensures
        first_occ_from(x + t, pat, x.len() + k) == match first_occ_from(t, pat, k) {
            Some(m) => Some(m + x.len()),
            None => None,
        },
    decreases t.len() - k,
{
    lemma_occurs_at_shift(x, t, pat, k);
    if k + pat.len() > t.len() {
    } else if occurs_at(t, pat, k) {
    } else {
        lemma_first_occ_shift(x, t, pat, k + 1);
    }
}

/// Replacing inside `x + t` only touches `t` when no occurrence starts
/// within `x`.
pub proof fn lemma_replace_prepend(x: Seq<char>, t: Seq<char>, pat: Seq<char>, rep: Seq<char>)
    requires
        pat.len() > 0,
        forall|k: int| 0 <= k < x.len() ==> !occurs_at(x + t, pat, k),
    ensures
        replace_first_spec(x + t, pat, rep) == x + replace_first_spec(t, pat, rep),
{
    lemma_first_occ_skip_range(x + t, pat, 0, x.len() as int);
    lemma_first_occ_shift(x, t, pat, 0);
    match first_occ(t, pat) {
        None => {},
        Some(m) => {
            lemma_first_occ_from_props(t, pat, 0);
            assert((x + t).take(x.len() + m) =~= x + t.take(m));
            assert((x + t).skip(x.len() + m + pat.len()) =~= t.skip(m + pat.len()));
            assert(x + t.take(m) + rep + t.skip(m + pat.len()) =~= x + (t.take(m) + rep + t.skip(
                m + pat.len(),
            )));
        },
    }
}

/// `t` with the first occurrence of `pat` replaced by `rep`; `t` itself
/// when `pat` does not occur.
pub open spec fn replace_first_spec(t: Seq<char>, pat: Seq<char>, rep: Seq<char>) -> Seq<char> {
    match first_occ(t, pat) {
        None => t,
        Some(k) => t.take(k) + rep + t.skip(k + pat.len()),
    }
}

pub fn replace_first(v: &Vec<char>, pat: &Vec<char>, rep: &Vec<char>) -> (r: Vec<char>)
    requires
        pat@.len() > 0,
    ensures
        r@ == replace_first_spec(v@, pat@, rep@),
{
    match find_from(v, pat, 0) {
        None => {
            let mut out: Vec<char> = Vec::new();
            append_vec(&mut out, v);
            assert(out@ =~= v@);
            out
        },
        Some(k) => {
            proof {
                lemma_first_occ_from_props(v@, pat@, 0);
                assert(occurs_at(v@, pat@, k as int));
            }
            let n = v.len();
            let mut out = subrange_vec(v, 0, k);
            append_vec(&mut out, rep);
            let tail = subrange_vec(v, k + pat.len(), n);
            append_vec(&mut out, &tail);
            assert(v@.subrange(0, k as int) =~= v@.take(k as int));
            assert(v@.subrange(k + pat@.len(), v@.len() as int) =~= v@.skip(k + pat@.len()));
            out
        },
    }
}

} // verus!
