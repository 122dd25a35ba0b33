//! The expression builder: walks a masked command, isolates brace-enclosed
//! dependency subcommands, and tokenizes what remains.
//!
//! Each dependency region `{…}` becomes a child [`Expression`], and the
//! two-character hole `{}` is written into the parent's predicate in its
//! place, so results can be substituted positionally later.

use vstd::prelude::*;

use crate::errors::{ParserError, ParserErrorType};
use crate::mask::Mask;
use crate::masking::{clone_strings, comps_chars, deserialize_chars, unmask_spec};
use crate::text::{chars_of, is_space_char, is_space_exec, string_of, subrange_vec};
use crate::token::{token_err_is, token_is, Token};

verus! {

/// The number of dependency holes `{}` in `p`.
pub open spec fn count_holes(p: Seq<char>) -> nat
    decreases p.len(),
{
    if p.len() < 2 {
        0
    } else {
        (if p[0] == '{' && p[1] == '}' {
            1nat
        } else {
            0nat
        }) + count_holes(p.skip(1))
    }
}

/// Hole counts add up across concatenation when the boundary cannot form
/// a hole.
proof fn lemma_holes_append(p: Seq<char>, q: Seq<char>)
    requires
        p.len() > 0 ==> p[p.len() - 1] != '{',
    ensures
        count_holes(p + q) == count_holes(p) + count_holes(q),
    decreases p.len(),
{
    if p.len() == 0 {
        assert(p + q =~= q);
    } else {
        assert((p + q).skip(1) =~= p.skip(1) + q);
        lemma_holes_append(p.skip(1), q);
        if p.len() == 1 {
            assert(count_holes(p) == 0);
            assert((p + q).len() >= 1);
            if (p + q).len() >= 2 {
                assert((p + q)[0] == p[0]);
            }
        }
    }
}

/// The end (exclusive) of the run of non-space characters starting at `j`.
pub open spec fn token_end(s: Seq<char>, j: int) -> int
    decreases s.len() - j,
{
    if 0 <= j < s.len() && !is_space_char(s[j]) {
        token_end(s, j + 1)
    } else {
        j
    }
}

proof fn lemma_token_end_bounds(s: Seq<char>, j: int)
    requires
        0 <= j <= s.len(),
    ensures
        j <= token_end(s, j) <= s.len(),
    decreases s.len() - j,
{
    if 0 <= j < s.len() && !is_space_char(s[j]) {
        lemma_token_end_bounds(s, j + 1);
    }
}

/// The maximal non-space runs of `s` from `pos` on, in order.
pub open spec fn split_ws(s: Seq<char>, pos: int) -> Seq<Seq<char>>
    decreases s.len() - pos,
{
    if pos < 0 || pos >= s.len() {
        Seq::<Seq<char>>::empty()
    } else if is_space_char(s[pos]) {
        split_ws(s, pos + 1)
    } else {
        let e = token_end(s, pos);
        if pos < e <= s.len() {
            seq![s.subrange(pos, e)] + split_ws(s, e)
        } else {
            Seq::<Seq<char>>::empty()
        }
    }
}

/// The tokens `ts` are the classification of the whitespace-split parts of
/// the masked text `m`, each part unmasked with `comps` for sigil reading.
pub open spec fn tokens_match(ts: Seq<Token>, m: Seq<char>, comps: Seq<Seq<char>>) -> bool {
    let parts = split_ws(m, 0);
    ts.len() == parts.len() && forall|i: int|
        0 <= i < ts.len() ==> token_is(
            #[trigger] ts[i],
            unmask_spec(parts[i], comps, 0),
            parts[i],
            i,
        )
}

fn token_end_exec(s: &Vec<char>, start: usize) -> (r: usize)
    requires
        start <= s@.len(),
    ensures
        r == token_end(s@, start as int),
        start <= r <= s@.len(),
{
    let n = s.len();
    let mut j = start;
    while j < n && !is_space_exec(s[j])
        invariant
            start <= j <= n,
            n == s@.len(),
            token_end(s@, start as int) == token_end(s@, j as int),
        decreases n - j,
    {
        j = j + 1;
    }
    j
}

/// Splits the masked text `mv` on whitespace and classifies each part.
pub(crate) fn tokenize(mv: &Vec<char>, comps: &Vec<String>) -> (r: Result<Vec<Token>, ParserError>)
    ensures
        match r {
            Ok(ts) => tokens_match(ts@, mv@, comps.deep_view()),
            Err(e) => e.error == ParserErrorType::InvalidToken && exists|i: int|
                0 <= i < split_ws(mv@, 0).len() && token_err_is(
                    unmask_spec(#[trigger] split_ws(mv@, 0)[i], comps.deep_view(), 0),
                    i,
                ),
        },
{
    let cc = comps_chars(comps);
    let n = mv.len();
    let mut tokens: Vec<Token> = Vec::new();
    let ghost mut done: Seq<Seq<char>> = Seq::<Seq<char>>::empty();
    let mut pos: usize = 0;
    while pos < n
        invariant
            pos <= n,
            n == mv@.len(),
            cc.deep_view() == comps.deep_view(),
            split_ws(mv@, 0) =~= done + split_ws(mv@, pos as int),
            tokens@.len() == done.len(),
            forall|i: int|
                0 <= i < done.len() ==> token_is(
                    #[trigger] tokens@[i],
                    unmask_spec(done[i], comps.deep_view(), 0),
                    done[i],
                    i,
                ),
        decreases n - pos,
    {
        if is_space_exec(mv[pos]) {
            pos = pos + 1;
        } else {
            let e2 = token_end_exec(mv, pos);
            proof {
                lemma_token_end_bounds(mv@, pos + 1);
            }
            assert(pos < e2);
            let part = subrange_vec(mv, pos, e2);
            let unmasked = deserialize_chars(&part, &cc);
            let mask = Mask::from_parts(
                string_of(&unmasked),
                string_of(&part),
                clone_strings(comps),
            );
            match Token::new(mask, tokens.len()) {
                Ok(t) => {
                    tokens.push(t);
                    proof {
                        done = done + seq![part@];
                        assert(split_ws(mv@, pos as int) =~= seq![mv@.subrange(
                            pos as int,
                            e2 as int,
                        )] + split_ws(mv@, e2 as int));
                    }
                    pos = e2;
                },
                Err(e) => {
                    proof {
                        let parts = split_ws(mv@, 0);
                        let bad = done.len() as int;
                        assert(split_ws(mv@, pos as int) =~= seq![mv@.subrange(
                            pos as int,
                            e2 as int,
                        )] + split_ws(mv@, e2 as int));
                        assert(parts[bad] == part@);
                    }
                    return Err(e);
                },
            }
        }
    }
    proof {
        assert(split_ws(mv@, 0) =~= done);
    }
    Ok(tokens)
}

/// A parsed command: its predicate (masked, with `{}` holes), its tokens,
/// and its dependency subexpressions, in positional order.
#[derive(Debug)]
pub struct Expression {
    /// The predicate in its three forms: unmasked, masked, components.
    pub raw: Mask,
    pub tokens: Vec<Token>,
    pub references: Vec<Expression>,
}

impl Expression {
    /// The masked predicate, with one `{}` hole per reference.
    pub open spec fn pred(&self) -> Seq<char> {
        self.raw.masked_spec()
    }

    /// The components the predicate's placeholders stand for.
    pub open spec fn comps(&self) -> Seq<Seq<char>> {
        self.raw.components_spec()
    }

    /// Well-formedness: the predicate has exactly one `{}` hole per
    /// reference, the tokens classify its whitespace-split parts, and every
    /// reference is itself well formed.
    pub open spec fn wf(self) -> bool
        decreases self,
    {
        &&& count_holes(self.pred()) == self.references@.len()
        &&& tokens_match(self.tokens@, self.pred(), self.comps())
        &&& forall|i: int| 0 <= i < self.references@.len() ==> (#[trigger] self.references@[i]).wf()
    }

    /// Builds the expression tree of a whole masked command: the walk over
    /// the masked text determines the predicate and the dependency regions,
    /// and every brace must find its match.
    pub fn from_mask(value: Mask) -> (r: Result<Self, ParserError>)
        ensures
            r is Err ==> r.unwrap_err().error == ParserErrorType::InvalidToken && (walk(
                value.masked_spec(),
                0,
            ).2 != value.masked_spec().len() || walk_has_bad_token(
                value.masked_spec(),
                0,
                value.components_spec(),
            )),
            r is Ok ==> r.unwrap().wf() && expr_from(
                r.unwrap(),
                value.masked_spec(),
                0,
                value.components_spec(),
            ) && walk(value.masked_spec(), 0).2 == value.masked_spec().len() && (no_braces(
                value.masked_spec(),
                0,
            ) ==> r.unwrap().pred() == value.masked_spec() && r.unwrap().references@.len() == 0),
    {
        let mv = chars_of(value.masked().as_str());
        let comps = value.components_list();
        match build_expr(&mv, &comps, 0) {
            Ok((expr, end)) => {
                if end < mv.len() {
                    // the walk stopped at a closing brace no dependency opened
                    return Err(
                        ParserError::new(
                            ParserErrorType::InvalidToken,
                            "Unmatched closing brace".to_owned(),
                        ),
                    );
                }
                proof {
                    assert(mv@.subrange(0, mv@.len() as int) =~= mv@);
                }
                Ok(expr)
            },
            Err(e) => Err(e),
        }
    }

    /// Masks `value` and builds its expression tree; a command without
    /// braces outside quotes becomes a single expression without references.
    pub fn from_string(value: String) -> (r: Result<Self, ParserError>)
        ensures
            r is Err ==> ({
                let m = crate::masking::mask_spec(value@, 0, 0);
                r.unwrap_err().error == ParserErrorType::InvalidToken && (walk(m.0, 0).2
                    != m.0.len() || walk_has_bad_token(m.0, 0, m.1))
            }),
            r is Ok ==> ({
                let m = crate::masking::mask_spec(value@, 0, 0);
                r.unwrap().wf() && expr_from(r.unwrap(), m.0, 0, m.1) && walk(m.0, 0).2
                    == m.0.len() && (no_braces(m.0, 0) ==> r.unwrap().pred() == m.0
                    && r.unwrap().references@.len() == 0)
            }),
    {
        Expression::from_mask(Mask::new(value))
    }

    /// The token at `index`, if any.
    pub fn token_at(self: &Self, index: usize) -> (r: Option<&Token>)
        ensures
            match r {
                Some(t) => index < self.tokens@.len() && *t == self.tokens@[index as int],
                None => index >= self.tokens@.len(),
            },
    {
        if index < self.tokens.len() {
            Some(&self.tokens[index])
        } else {
            None
        }
    }

    /// The length, in characters, of the masked predicate.
    pub fn len(self: &Self) -> (r: usize)
        ensures
            r == self.pred().len(),
    {
        let mv = chars_of(self.raw.masked().as_str());
        mv.len()
    }

    /// The masked predicate text.
    pub fn predicate_masked(self: &Self) -> (r: String)
        ensures
            r@ == self.pred(),
    {
        self.raw.masked()
    }

    /// The components of the predicate's placeholders.
    pub fn components(self: &Self) -> (r: Vec<String>)
        ensures
            r.deep_view() == self.comps(),
    {
        self.raw.components_list()
    }

    /// The unmasked predicate text.
    pub fn predicate_unmasked(self: &Self) -> (r: String)
        ensures
            r@ == self.raw.raw_spec(),
    {
        self.raw.unmasked()
    }
}


/// The brace walk from `pos`: the predicate text collected (each dependency
/// region contributing its two-character `{}` hole), the start positions of
/// the dependency regions, and the index of the closing brace that ended
/// the walk (the text length when none did). A dependency region whose
/// closing brace is missing yields an empty continuation; the builder
/// rejects that case.
pub open spec fn walk(s: Seq<char>, pos: int) -> (Seq<char>, Seq<int>, int)
    decreases s.len() - pos,
{
    if pos < 0 || pos >= s.len() {
        (Seq::<char>::empty(), Seq::<int>::empty(), s.len() as int)
    } else if s[pos] == '}' {
        (Seq::<char>::empty(), Seq::<int>::empty(), pos)
    } else if s[pos] == '{' {
        let inner_end = walk(s, pos + 1).2;
        if pos < inner_end && inner_end < s.len() {
            let rest = walk(s, inner_end + 1);
            (seq!['{', '}'] + rest.0, seq![pos + 1] + rest.1, rest.2)
        } else {
            // a dependency whose closing brace is missing: the sentinel one
            // past the text length marks the walk as failed
            (Seq::<char>::empty(), Seq::<int>::empty(), s.len() as int + 1)
        }
    } else {
        let rest = walk(s, pos + 1);
        (seq![s[pos]] + rest.0, rest.1, rest.2)
    }
}

/// The expression is what building at `start` of the masked text `s`
/// yields: its predicate is the walk's text, and each reference is in turn
/// built at its region's start, one hole per reference, all sharing the
/// script's components.
pub open spec fn expr_from(e: Expression, s: Seq<char>, start: int, comps: Seq<Seq<char>>) -> bool
    decreases e,
{
    &&& e.pred() == walk(s, start).0
    &&& e.comps() == comps
    &&& e.references@.len() == walk(s, start).1.len()
    &&& forall|i: int|
        0 <= i < e.references@.len() ==> expr_from(
            #[trigger] e.references@[i],
            s,
            walk(s, start).1[i],
            comps,
        )
}

/// The walk never ends before its start.
pub proof fn lemma_walk_start_bound(s: Seq<char>, pos: int)
    requires
        0 <= pos <= s.len(),
    ensures
        walk(s, pos).2 >= pos,
    decreases s.len() - pos,
{
    if pos >= s.len() {
    } else if s[pos] == '}' {
    } else if s[pos] == '{' {
        lemma_walk_start_bound(s, pos + 1);
        let inner_end = walk(s, pos + 1).2;
        if pos < inner_end && inner_end < s.len() {
            lemma_walk_start_bound(s, inner_end + 1);
        }
    } else {
        lemma_walk_start_bound(s, pos + 1);
    }
}

/// Whether some command in the walk's tree from `pos` holds a token that
/// classifies in no way: a part of its own predicate, or of a dependency's,
/// recursively.
pub open spec fn walk_has_bad_token(s: Seq<char>, pos: int, comps: Seq<Seq<char>>) -> bool
    decreases s.len() - pos,
{
    ||| (exists|i: int|
        0 <= i < split_ws(walk(s, pos).0, 0).len() && token_err_is(
            unmask_spec(#[trigger] split_ws(walk(s, pos).0, 0)[i], comps, 0),
            i,
        ))
    ||| (exists|j: int|
        0 <= j < walk(s, pos).1.len() && pos < #[trigger] walk(s, pos).1[j] && walk(s, pos).1[j]
            <= s.len() && (if pos < walk(s, pos).1[j] && walk(s, pos).1[j] <= s.len() {
            walk_has_bad_token(s, walk(s, pos).1[j], comps)
        } else {
            false
        }))
}

/// Whether the suffix of `s` from `pos` holds no brace at all.
pub open spec fn no_braces(s: Seq<char>, pos: int) -> bool {
    forall|k: int| pos <= k < s.len() ==> #[trigger] s[k] != '{' && s[k] != '}'
}

/// Walks the masked text from `start`, collecting the predicate and the
/// dependency subexpressions, until the matching closing brace or the end.
/// Returns the expression and the index of the closing brace (or the text
/// length when the walk consumed everything).
fn build_expr(mv: &Vec<char>, comps: &Vec<String>, start: usize) -> (r: Result<
    (Expression, usize),
    ParserError,
>)
    requires
        start <= mv@.len(),
    ensures
        match r {
            Ok(p) => start <= p.1 <= mv@.len() && p.0.wf() && p.1 == walk(mv@, start as int).2
                && expr_from(p.0, mv@, start as int, comps.deep_view()) && (no_braces(
                mv@,
                start as int,
            ) ==> p.0.pred() == mv@.subrange(start as int, mv@.len() as int)
                && p.0.references@.len() == 0 && p.1 == mv@.len()),
            Err(e) => e.error == ParserErrorType::InvalidToken && (walk(mv@, start as int).2
                > mv@.len() || walk_has_bad_token(mv@, start as int, comps.deep_view())),
        },
    decreases mv@.len() - start,
{
    let n = mv.len();
    let mut buf: Vec<char> = Vec::new();
    let mut refs: Vec<Expression> = Vec::new();
    let ghost mut starts: Seq<int> = Seq::<int>::empty();
    let mut pos: usize = start;
    let mut end: usize = n;
    let mut closed = false;
    while pos < n && !closed
        invariant
            start <= pos <= n,
            n == mv@.len(),
            start <= end <= n,
            !closed ==> end == n,
            count_holes(buf@) == refs@.len(),
            buf@.len() > 0 ==> buf@[buf@.len() - 1] != '{',
            forall|i: int| 0 <= i < refs@.len() ==> (#[trigger] refs@[i]).wf(),
            walk(mv@, start as int).0 =~= buf@ + (if closed {
                Seq::<char>::empty()
            } else {
                walk(mv@, pos as int).0
            }),
            walk(mv@, start as int).1 =~= starts + (if closed {
                Seq::<int>::empty()
            } else {
                walk(mv@, pos as int).1
            }),
            walk(mv@, start as int).2 == (if closed {
                end as int
            } else {
                walk(mv@, pos as int).2
            }),
            refs@.len() == starts.len(),
            forall|i: int|
                0 <= i < refs@.len() ==> expr_from(
                    #[trigger] refs@[i],
                    mv@,
                    starts[i],
                    comps.deep_view(),
                ),
            no_braces(mv@, start as int) ==> !closed && buf@ == mv@.subrange(
                start as int,
                pos as int,
            ) && refs@.len() == 0 && end == n,
        decreases n - pos + (if closed {
            0int
        } else {
            1int
        }),
    {
        let c = mv[pos];
        if c == '{' {
            match build_expr(mv, comps, pos + 1) {
                Ok((child, child_end)) => {
                    if child_end >= n {
                        proof {
                            // the sentinel propagates the missing brace here
                            assert(walk(mv@, pos as int).2 == mv@.len() + 1);
                        }
                        // the dependency's closing brace is missing
                        return Err(
                            ParserError::new(
                                ParserErrorType::InvalidToken,
                                "Unmatched opening brace".to_owned(),
                            ),
                        );
                    }
                    refs.push(child);
                    let ghost old_buf = buf@;
                    buf.push('{');
                    buf.push('}');
                    proof {
                        assert(buf@ =~= old_buf + seq!['{', '}']);
                        lemma_holes_append(old_buf, seq!['{', '}']);
                        assert(count_holes(seq!['{', '}']) == 1) by {
                            let s = seq!['{', '}'];
                            assert(s.skip(1) =~= seq!['}']);
                            assert(count_holes(seq!['}']) == 0);
                            assert(s[0] == '{' && s[1] == '}');
                        }
                        // one unfolding of the walk at the opening brace
                        let w = walk(mv@, pos as int);
                        let rest = walk(mv@, child_end + 1);
                        assert(w.0 == seq!['{', '}'] + rest.0);
                        assert(w.1 == seq![pos + 1] + rest.1);
                        assert(w.2 == rest.2);
                        starts = starts + seq![pos + 1];
                        assert(walk(mv@, start as int).0 =~= buf@ + rest.0);
                        assert(walk(mv@, start as int).1 =~= starts + rest.1);
                    }
                    pos = child_end + 1;
                },
                Err(e) => {
                    proof {
                        let cd = comps.deep_view();
                        lemma_walk_start_bound(mv@, pos + 1);
                        if walk(mv@, pos + 1).2 >= mv@.len() {
                            assert(walk(mv@, pos as int).2 == mv@.len() + 1);
                        } else {
                            assert(walk(mv@, pos as int).1 == seq![pos + 1] + walk(
                                mv@,
                                walk(mv@, pos + 1).2 + 1,
                            ).1);
                            assert(walk(mv@, start as int).1[starts.len() as int] == pos + 1);
                            assert(walk_has_bad_token(mv@, start as int, cd));
                        }
                    }
                    return Err(e);
                },
            }
        } else if c == '}' {
            proof {
                assert(walk(mv@, pos as int).0 =~= Seq::<char>::empty());
                assert(walk(mv@, start as int).0 =~= buf@);
                assert(walk(mv@, start as int).1 =~= starts);
            }
            end = pos;
            closed = true;
        } else {
            let ghost old_buf = buf@;
            buf.push(c);
            proof {
                assert(buf@ =~= old_buf + seq![c]);
                lemma_holes_append(old_buf, seq![c]);
                let rest = walk(mv@, pos + 1);
                assert(walk(mv@, pos as int).0 == seq![c] + rest.0);
                assert(walk(mv@, start as int).0 =~= buf@ + rest.0);
                if no_braces(mv@, start as int) {
                    assert(buf@ =~= mv@.subrange(start as int, pos + 1));
                }
            }
            pos = pos + 1;
        }
    }
    let tokens = match tokenize(&buf, comps) {
        Ok(ts) => ts,
        Err(e) => {
            proof {
                assert(buf@ =~= walk(mv@, start as int).0);
                assert(walk_has_bad_token(mv@, start as int, comps.deep_view()));
            }
            return Err(e);
        },
    };
    let unmasked = {
        let cc = comps_chars(comps);
        deserialize_chars(&buf, &cc)
    };
    proof {
        if !closed {
            assert(pos == n);
            assert(walk(mv@, pos as int).0 =~= Seq::<char>::empty());
            assert(walk(mv@, start as int).0 =~= buf@);
            assert(walk(mv@, start as int).1 =~= starts);
            assert(walk(mv@, start as int).2 == n);
        }
    }
    let raw = Mask::from_parts(string_of(&unmasked), string_of(&buf), clone_strings(comps));
    let expr = Expression { raw, tokens, references: refs };
    assert(expr.wf());
    assert(expr.comps() == comps.deep_view());
    assert(expr_from(expr, mv@, start as int, comps.deep_view()));
    proof {
        if no_braces(mv@, start as int) {
            assert(expr.pred() == mv@.subrange(start as int, mv@.len() as int));
            assert(expr.references@.len() == 0);
            assert(end == n);
        }
    }
    Ok((expr, end))
}

} // verus!
