//! The multi-command parser: splits a script on `;` and builds one
//! expression per command.

use vstd::prelude::*;

use crate::errors::{ParserError, ParserErrorType};
use crate::mask::Mask;
use crate::expression::{expr_from, no_braces, walk, walk_has_bad_token, Expression};
use crate::masking::{mask_spec, unmask_spec};
use crate::node::{projectable, tree_malformed, tree_method_missing, tree_too_deep, tree_url_missing, GlueNode};
use crate::text::{chars_of, string_of, subrange_vec, trim_chars, trim_spec};

verus! {

/// The trimmed, nonempty pieces of `s` between `;` separators, from `pos`.
pub open spec fn split_semi(s: Seq<char>, pos: int) -> Seq<Seq<char>>
    decreases s.len() + 1 - pos,
{
    if pos < 0 || pos > s.len() {
        Seq::<Seq<char>>::empty()
    } else {
        let e = semi_end(s, pos);
        if pos <= e <= s.len() {
            let piece = trim_spec(s.subrange(pos, e));
            let rest = split_semi(s, e + 1);
            if piece.len() > 0 {
                seq![piece] + rest
            } else {
                rest
            }
        } else {
            Seq::<Seq<char>>::empty()
        }
    }
}

/// The index of the next `;` at or after `j`, or the text length.
pub open spec fn semi_end(s: Seq<char>, j: int) -> int
    decreases s.len() - j,
{
    if 0 <= j < s.len() && s[j] != ';' {
        semi_end(s, j + 1)
    } else {
        j
    }
}

proof fn lemma_semi_end_bounds(s: Seq<char>, j: int)
    requires
        0 <= j <= s.len(),
    ensures
        j <= semi_end(s, j) <= s.len(),
    decreases s.len() - j,
{
    if 0 <= j < s.len() && s[j] != ';' {
        lemma_semi_end_bounds(s, j + 1);
    }
}

fn semi_end_exec(s: &Vec<char>, start: usize) -> (r: usize)
    requires
        start <= s@.len(),
    ensures
        r == semi_end(s@, start as int),
        start <= r <= s@.len(),
{
    let n = s.len();
    let mut j = start;
    while j < n && s[j] != ';'
        invariant
            start <= j <= n,
            n == s@.len(),
            semi_end(s@, start as int) == semi_end(s@, j as int),
        decreases n - j,
    {
        j = j + 1;
    }
    j
}

/// A parsed script: one expression per `;`-separated command.
pub struct Parser {
    /// The expressions, in script order.
    pub expressions: Vec<Expression>,
}

impl Parser {
    /// All stored expressions are well formed.
    pub open spec fn wf(&self) -> bool {
        forall|i: int| 0 <= i < self.expressions@.len() ==> (#[trigger] self.expressions@[i]).wf()
    }

    /// Masks the script, splits the masked text on `;`, and builds one
    /// expression per nonempty command: the piece is unmasked with the
    /// script's components and parsed as a command of its own.
    pub fn parse(value: String) -> (r: Result<Self, ParserError>)
        ensures
            match r {
                Ok(p) => {
                    let m = mask_spec(value@, 0, 0);
                    let pieces = split_semi(m.0, 0);
                    &&& p.wf()
                    &&& p.expressions@.len() == pieces.len()
                    &&& forall|i: int|
                        0 <= i < pieces.len() ==> ({
                            let mi = mask_spec(unmask_spec(pieces[i], m.1, 0), 0, 0);
                            &&& (#[trigger] p.expressions@[i]).comps() == mi.1
                            &&& expr_from(p.expressions@[i], mi.0, 0, mi.1)
                            &&& walk(mi.0, 0).2 == mi.0.len()
                            &&& (no_braces(mi.0, 0) ==> p.expressions@[i].pred() == mi.0
                                && p.expressions@[i].references@.len() == 0)
                        })
                },
                Err(e) => e.error == ParserErrorType::InvalidToken && ({
                    let m = mask_spec(value@, 0, 0);
                    exists|i: int|
                        0 <= i < split_semi(m.0, 0).len() && ({
                            let mi = mask_spec(
                                unmask_spec(#[trigger] split_semi(m.0, 0)[i], m.1, 0),
                                0,
                                0,
                            );
                            walk(mi.0, 0).2 != mi.0.len() || walk_has_bad_token(mi.0, 0, mi.1)
                        })
                }),
            },
    {
        let script = Mask::new(value.clone());
        let mv = chars_of(script.masked().as_str());
        let n = mv.len();
        let ghost pieces = split_semi(mv@, 0);
        let mut expressions: Vec<Expression> = Vec::new();
        let mut pos: usize = 0;
        let mut scanned = false;
        let ghost mut done: int = 0;
        while !scanned
            invariant
                pos <= n,
                n == mv@.len(),
                script.wf(),
                script.raw_spec() == value@,
                mv@ == script.masked_spec(),
                0 <= done <= pieces.len(),
                expressions@.len() == done,
                pieces == split_semi(mv@, 0),
                !scanned ==> pieces =~= pieces.take(done) + split_semi(mv@, pos as int),
                scanned ==> done == pieces.len(),
                forall|i: int|
                    0 <= i < expressions@.len() ==> (#[trigger] expressions@[i]).wf(),
                forall|i: int|
                    0 <= i < done ==> ({
                        let mi = mask_spec(unmask_spec(pieces[i], script.components_spec(), 0), 0, 0);
                        &&& (#[trigger] expressions@[i]).comps() == mi.1
                        &&& expr_from(expressions@[i], mi.0, 0, mi.1)
                        &&& walk(mi.0, 0).2 == mi.0.len()
                        &&& (no_braces(mi.0, 0) ==> expressions@[i].pred() == mi.0
                            && expressions@[i].references@.len() == 0)
                    }),
            decreases n - pos + (if scanned {
                0int
            } else {
                1int
            }),
        {
            let e = semi_end_exec(&mv, pos);
            let piece = subrange_vec(&mv, pos, e);
            let trimmed = trim_chars(&piece);
            let ghost rest = split_semi(mv@, e + 1);
            proof {
                assert(split_semi(mv@, pos as int) == if trim_spec(
                    mv@.subrange(pos as int, e as int),
                ).len() > 0 {
                    seq![trim_spec(mv@.subrange(pos as int, e as int))] + rest
                } else {
                    rest
                });
            }
            if trimmed.len() > 0 {
                let command_mask = Mask::derive(string_of(&trimmed), &script);
                match Expression::from_mask(command_mask) {
                    Ok(expr) => {
                        expressions.push(expr);
                        proof {
                            let old_done = done;
                            assert(pieces =~= pieces.take(old_done) + (seq![trimmed@] + rest));
                            assert(pieces[old_done] == trimmed@);
                            done = done + 1;
                            assert(pieces.take(done) =~= pieces.take(old_done) + seq![trimmed@]);
                            assert(pieces =~= pieces.take(done) + rest);
                        }
                    },
                    Err(err) => {
                        proof {
                            assert(pieces =~= pieces.take(done) + (seq![trimmed@] + rest));
                            assert(pieces[done] == trimmed@);
                            let m = mask_spec(value@, 0, 0);
                            assert(pieces == split_semi(m.0, 0));
                            assert(command_mask.raw_spec() == unmask_spec(pieces[done], m.1, 0));
                            let mi = mask_spec(unmask_spec(pieces[done], m.1, 0), 0, 0);
                            assert(command_mask.masked_spec() == mi.0);
                            assert(command_mask.components_spec() == mi.1);
                            assert(split_semi(m.0, 0)[done] == trimmed@);
                            assert(0 <= done < split_semi(m.0, 0).len());
                            assert(walk(mi.0, 0).2 != mi.0.len() || walk_has_bad_token(
                                mi.0,
                                0,
                                mi.1,
                            ));
                        }
                        return Err(err);
                    },
                }
            } else {
                proof {
                    assert(pieces =~= pieces.take(done) + rest);
                }
            }
            if e < n {
                pos = e + 1;
            } else {
                scanned = true;
                proof {
                    assert(split_semi(mv@, e + 1) =~= Seq::<Seq<char>>::empty());
                    assert(pieces =~= pieces.take(done));
                    assert(done == pieces.len());
                }
            }
        }
        Ok(Parser { expressions })
    }

    /// Projects every expression into a root request node.
    pub fn to_nodes(self: &Self) -> (r: Result<Vec<GlueNode>, ParserError>)
        requires
            self.wf(),
        ensures
            match r {
                Ok(ns) => {
                    &&& ns@.len() == self.expressions@.len()
                    &&& forall|i: int|
                        0 <= i < ns@.len() ==> (#[trigger] ns@[i]).wf() && ns@[i].depth == 0
                            && crate::node::node_of_expr(ns@[i], self.expressions@[i])
                },
                Err(err) => (exists|i: int|
                    0 <= i < self.expressions@.len() && !projectable(
                        #[trigger] self.expressions@[i],
                        0,
                    )) && match err.error {
                    ParserErrorType::InvalidToken => exists|i: int|
                        0 <= i < self.expressions@.len() && tree_too_deep(
                            #[trigger] self.expressions@[i],
                            0,
                        ),
                    ParserErrorType::MalformedAttribute => exists|i: int|
                        0 <= i < self.expressions@.len() && tree_malformed(
                            #[trigger] self.expressions@[i],
                        ),
                    ParserErrorType::UnresolvedMethod => exists|i: int|
                        0 <= i < self.expressions@.len() && tree_method_missing(
                            #[trigger] self.expressions@[i],
                        ),
                    ParserErrorType::UnresolvedUrl => exists|i: int|
                        0 <= i < self.expressions@.len() && tree_url_missing(
                            #[trigger] self.expressions@[i],
                        ),
                },
            },
    {
        let mut nodes: Vec<GlueNode> = Vec::new();
        let mut i: usize = 0;
        while i < self.expressions.len()
            invariant
                self.wf(),
                i <= self.expressions@.len(),
                nodes@.len() == i,
                forall|j: int|
                    0 <= j < i ==> (#[trigger] nodes@[j]).wf() && nodes@[j].depth == 0
                        && crate::node::node_of_expr(nodes@[j], self.expressions@[j]),
            decreases self.expressions@.len() - i,
        {
            assert(self.expressions@[i as int].wf());
            match self.expressions[i].to_node(0) {
                Ok(node) => {
                    nodes.push(node);
                },
                Err(e) => {
                    return Err(e);
                },
            }
            i = i + 1;
        }
        Ok(nodes)
    }
}

} // verus!
