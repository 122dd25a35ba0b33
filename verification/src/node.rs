//! Request nodes: the typed projection of a parsed command, holding the
//! method, URL, selector, headers, body, save-as name, and the dependency
//! nodes whose results fill the predicate's `{}` holes.

use vstd::prelude::*;
use vstd::string::StrSliceExecFns;

use crate::errors::{ParserError, ParserErrorType};
use crate::expression::{count_holes, split_ws, tokens_match, walk, walk_has_bad_token, Expression};
use crate::mask::Mask;
use crate::masking::{deserialize, mask_spec, unmask_spec};
use crate::request_body::{kv_map, uniq_keys, upsert, RequestBody, RequestBodyType};
use crate::text::{chars_of, replace_first, replace_first_spec, string_of, to_lower, trim_chars, trim_spec};
use crate::token::{token_err_is, token_like, lemma_token_is_excludes_err, lemma_token_is_functional, Token};
use crate::utils::{key_value_split, trim_and_remove_quotes, unquote_spec};

verus! {

/// The payload of the last method token, if any.
pub open spec fn last_method(ts: Seq<Token>) -> Option<Seq<char>>
    decreases ts.len(),
{
    if ts.len() == 0 {
        None
    } else {
        match ts.last() {
            Token::Method(v) => Some(v.spec_value()),
            _ => last_method(ts.drop_last()),
        }
    }
}

/// The payload of the last URL token, if any.
pub open spec fn last_url(ts: Seq<Token>) -> Option<Seq<char>>
    decreases ts.len(),
{
    if ts.len() == 0 {
        None
    } else {
        match ts.last() {
            Token::Url(v) => Some(v.spec_value()),
            _ => last_url(ts.drop_last()),
        }
    }
}

/// The payload of the last selector token, if any.
pub open spec fn last_selector(ts: Seq<Token>) -> Option<Seq<char>>
    decreases ts.len(),
{
    if ts.len() == 0 {
        None
    } else {
        match ts.last() {
            Token::Selector(v) => Some(v.spec_value()),
            _ => last_selector(ts.drop_last()),
        }
    }
}

/// The payload of the last save-as token, if any.
pub open spec fn last_save(ts: Seq<Token>) -> Option<Seq<char>>
    decreases ts.len(),
{
    if ts.len() == 0 {
        None
    } else {
        match ts.last() {
            Token::SaveAs(v) => Some(v.spec_value()),
            _ => last_save(ts.drop_last()),
        }
    }
}

/// Whether an attribute token cannot be split into a nonempty key and a
/// nonempty value.
pub open spec fn attr_malformed(t: Token) -> bool {
    match t {
        Token::BodyAttribute(a) => match key_value_split(a.spec_value()) {
            None => true,
            Some(kv) => kv.0.len() == 0 || kv.1.len() == 0,
        },
        Token::HeaderAttribute(a) => match key_value_split(a.spec_value()) {
            None => true,
            Some(kv) => kv.0.len() == 0 || kv.1.len() == 0,
        },
        _ => false,
    }
}

pub open spec fn has_malformed_attr(ts: Seq<Token>) -> bool {
    exists|i: int| 0 <= i < ts.len() && attr_malformed(#[trigger] ts[i])
}

/// Whether the token list yields no usable method.
pub open spec fn method_missing(ts: Seq<Token>) -> bool {
    match last_method(ts) {
        None => true,
        Some(u) => u.len() == 0,
    }
}

/// Whether the token list yields no usable URL.
pub open spec fn url_missing(ts: Seq<Token>) -> bool {
    match last_url(ts) {
        None => true,
        Some(u) => u.len() == 0,
    }
}

/// The headers that a token list accumulates: each header attribute's key,
/// lowercased, maps to its unquoted value; the last write wins.
pub open spec fn headers_fold(ts: Seq<Token>, comps: Seq<Seq<char>>) -> Option<
    Map<Seq<char>, Seq<char>>,
>
    decreases ts.len(),
{
    if ts.len() == 0 {
        None
    } else {
        let prev = headers_fold(ts.drop_last(), comps);
        match ts.last() {
            Token::HeaderAttribute(a) => match key_value_split(a.spec_value()) {
                Some(kv) => if kv.0.len() > 0 && kv.1.len() > 0 {
                    let key = to_lower(trim_spec(unmask_spec(kv.0, comps, 0)));
                    let val = unquote_spec(unmask_spec(kv.1, comps, 0));
                    Some(
                        (match prev {
                            None => Map::<Seq<char>, Seq<char>>::empty(),
                            Some(m) => m,
                        }).insert(key, val),
                    )
                } else {
                    prev
                },
                None => prev,
            },
            _ => prev,
        }
    }
}

/// The body that a token list accumulates: body attributes merge into a
/// JSON-typed attribute map, a raw-body token replaces everything with an
/// arbitrary body, and a body attribute after a raw body starts a fresh
/// attribute map.
pub open spec fn body_fold(ts: Seq<Token>, comps: Seq<Seq<char>>) -> Option<
    (RequestBodyType, Map<Seq<char>, Seq<char>>, Seq<char>),
>
    decreases ts.len(),
{
    if ts.len() == 0 {
        None
    } else {
        let prev = body_fold(ts.drop_last(), comps);
        match ts.last() {
            Token::BodyRaw(v) => Some(
                (RequestBodyType::ARBITRARY, Map::<Seq<char>, Seq<char>>::empty(), v.spec_value()),
            ),
            Token::BodyAttribute(a) => match key_value_split(a.spec_value()) {
                Some(kv) => if kv.0.len() > 0 && kv.1.len() > 0 {
                    let key = trim_spec(unmask_spec(kv.0, comps, 0));
                    let val = unquote_spec(unmask_spec(kv.1, comps, 0));
                    let m0 = match prev {
                        None => Map::<Seq<char>, Seq<char>>::empty(),
                        Some(f) => if f.0 == RequestBodyType::ARBITRARY {
                            Map::<Seq<char>, Seq<char>>::empty()
                        } else {
                            f.1
                        },
                    };
                    Some((RequestBodyType::JSON, m0.insert(key, val), Seq::<char>::empty()))
                } else {
                    prev
                },
                None => prev,
            },
            _ => prev,
        }
    }
}

/// `p` with each `{}` hole replaced, left to right, by the corresponding
/// element of `rs`.
pub open spec fn subst_results(p: Seq<char>, rs: Seq<Seq<char>>) -> Seq<char>
    decreases rs.len(),
{
    if rs.len() == 0 {
        p
    } else {
        subst_results(replace_first_spec(p, seq!['{', '}'], rs[0]), rs.skip(1))
    }
}

/// The node tree is what parsing the command yields: masking, a fully
/// matched brace walk, and the projection of the resulting expression tree.
pub open spec fn parses_to(command: Seq<char>, n: GlueNode) -> bool {
    let m = mask_spec(command, 0, 0);
    &&& n.wf()
    &&& n.depth == 0
    &&& n.components.deep_view() == m.1
    &&& exists|e: Expression|
        #[trigger] crate::expression::expr_from(e, m.0, 0, m.1) && e.wf() && projectable(e, 0)
            && node_of_expr(n, e)
    &&& crate::expression::walk(m.0, 0).2 == m.0.len()
}

/// The node is the projection of the expression, level by level: the
/// fields follow the expression's tokens, the predicate is kept, and each
/// dependency is in turn the projection of the matching reference.
pub open spec fn node_of_expr(n: GlueNode, e: Expression) -> bool
    decreases e,
{
    &&& n.predicate@ == e.pred()
    &&& n.components.deep_view() == e.comps()
    &&& node_fields_match(n, e.tokens@, e.comps())
    &&& n.dependencies@.len() == e.references@.len()
    &&& forall|i: int|
        0 <= i < n.dependencies@.len() ==> node_of_expr(
            #[trigger] n.dependencies@[i],
            e.references@[i],
        )
}


/// Whether the masked text's parts all classify into tokens.
pub open spec fn classifies(m: Seq<char>, comps: Seq<Seq<char>>) -> bool {
    exists|ts: Seq<Token>| tokens_match(ts, m, comps)
}

/// The token list of a masked text that classifies; by
/// [`lemma_parsed_tokens`], everything the projection reads of it is the
/// same whichever witness is picked.
pub open spec fn parsed_tokens(m: Seq<char>, comps: Seq<Seq<char>>) -> Seq<Token> {
    choose|ts: Seq<Token>| tokens_match(ts, m, comps)
}

/// Whether re-parsing the masked text succeeds outright: every part
/// classifies, every attribute splits, and a method and a URL are present.
pub open spec fn resolves_ok(m: Seq<char>, comps: Seq<Seq<char>>) -> bool {
    &&& classifies(m, comps)
    &&& !has_malformed_attr(parsed_tokens(m, comps))
    &&& !method_missing(parsed_tokens(m, comps))
    &&& !url_missing(parsed_tokens(m, comps))
}

proof fn lemma_tokens_like(ts1: Seq<Token>, ts2: Seq<Token>, m: Seq<char>, comps: Seq<Seq<char>>)
    requires
        tokens_match(ts1, m, comps),
        tokens_match(ts2, m, comps),
    ensures
        ts1.len() == ts2.len(),
        forall|i: int| 0 <= i < ts1.len() ==> token_like(#[trigger] ts1[i], ts2[i]),
{
    assert forall|i: int| 0 <= i < ts1.len() implies token_like(#[trigger] ts1[i], ts2[i]) by {
        lemma_token_is_functional(
            ts1[i],
            ts2[i],
            crate::masking::unmask_spec(split_ws(m, 0)[i], comps, 0),
            split_ws(m, 0)[i],
            i,
        );
    }
}

proof fn lemma_like_lasts(ts1: Seq<Token>, ts2: Seq<Token>, comps: Seq<Seq<char>>, k: int)
    requires
        ts1.len() == ts2.len(),
        forall|i: int| 0 <= i < ts1.len() ==> token_like(#[trigger] ts1[i], ts2[i]),
        0 <= k <= ts1.len(),
    ensures
        last_method(ts1.take(k)) == last_method(ts2.take(k)),
        last_url(ts1.take(k)) == last_url(ts2.take(k)),
        last_selector(ts1.take(k)) == last_selector(ts2.take(k)),
        last_save(ts1.take(k)) == last_save(ts2.take(k)),
        headers_fold(ts1.take(k), comps) == headers_fold(ts2.take(k), comps),
        body_fold(ts1.take(k), comps) == body_fold(ts2.take(k), comps),
    decreases k,
{
    if k > 0 {
        lemma_like_lasts(ts1, ts2, comps, k - 1);
        assert(ts1.take(k).drop_last() =~= ts1.take(k - 1));
        assert(ts2.take(k).drop_last() =~= ts2.take(k - 1));
        assert(ts1.take(k).last() == ts1[k - 1]);
        assert(ts2.take(k).last() == ts2[k - 1]);
        assert(token_like(ts1[k - 1], ts2[k - 1]));
    }
}

/// Two token lists classifying the same masked text agree on everything
/// the projection reads of them.
pub proof fn lemma_parsed_tokens(ts: Seq<Token>, m: Seq<char>, comps: Seq<Seq<char>>)
    requires
        tokens_match(ts, m, comps),
    ensures
        classifies(m, comps),
        tokens_match(parsed_tokens(m, comps), m, comps),
        has_malformed_attr(parsed_tokens(m, comps)) == has_malformed_attr(ts),
        method_missing(parsed_tokens(m, comps)) == method_missing(ts),
        url_missing(parsed_tokens(m, comps)) == url_missing(ts),
        last_method(parsed_tokens(m, comps)) == last_method(ts),
        last_url(parsed_tokens(m, comps)) == last_url(ts),
        last_selector(parsed_tokens(m, comps)) == last_selector(ts),
        last_save(parsed_tokens(m, comps)) == last_save(ts),
        headers_fold(parsed_tokens(m, comps), comps) == headers_fold(ts, comps),
        body_fold(parsed_tokens(m, comps), comps) == body_fold(ts, comps),
{
    assert(classifies(m, comps));
    let pt = parsed_tokens(m, comps);
    assert(tokens_match(pt, m, comps));
    lemma_tokens_like(pt, ts, m, comps);
    lemma_like_lasts(pt, ts, comps, pt.len() as int);
    assert(pt.take(pt.len() as int) =~= pt);
    assert(ts.take(ts.len() as int) =~= ts);
    assert(has_malformed_attr(pt) == has_malformed_attr(ts)) by {
        if has_malformed_attr(pt) {
            let i = choose|i: int| 0 <= i < pt.len() && attr_malformed(#[trigger] pt[i]);
            assert(token_like(pt[i], ts[i]));
            assert(attr_malformed(ts[i]));
        }
        if has_malformed_attr(ts) {
            let i = choose|i: int| 0 <= i < ts.len() && attr_malformed(#[trigger] ts[i]);
            assert(token_like(pt[i], ts[i]));
            assert(attr_malformed(pt[i]));
        }
    }
}

/// A part that classifies in no way rules out a token list for the whole.
pub proof fn lemma_err_excludes_classify(m: Seq<char>, comps: Seq<Seq<char>>, i: int)
    requires
        0 <= i < split_ws(m, 0).len(),
        token_err_is(crate::masking::unmask_spec(split_ws(m, 0)[i], comps, 0), i),
    ensures
        !classifies(m, comps),
{
    if classifies(m, comps) {
        let ts = choose|ts: Seq<Token>| tokens_match(ts, m, comps);
        lemma_token_is_excludes_err(
            ts[i],
            crate::masking::unmask_spec(split_ws(m, 0)[i], comps, 0),
            split_ws(m, 0)[i],
            i,
        );
    }
}

/// Some command of the expression tree holds an attribute that does not
/// split into a nonempty key and value.
pub open spec fn tree_malformed(e: Expression) -> bool
    decreases e,
{
    ||| has_malformed_attr(e.tokens@)
    ||| (exists|i: int|
        0 <= i < e.references@.len() && tree_malformed(#[trigger] e.references@[i]))
}

/// Some command of the expression tree lacks a usable method token.
pub open spec fn tree_method_missing(e: Expression) -> bool
    decreases e,
{
    ||| method_missing(e.tokens@)
    ||| (exists|i: int|
        0 <= i < e.references@.len() && tree_method_missing(#[trigger] e.references@[i]))
}

/// Some command of the expression tree lacks a usable URL token.
pub open spec fn tree_url_missing(e: Expression) -> bool
    decreases e,
{
    ||| url_missing(e.tokens@)
    ||| (exists|i: int|
        0 <= i < e.references@.len() && tree_url_missing(#[trigger] e.references@[i]))
}

/// The dependency nesting exhausts the depth counter somewhere below
/// `depth`.
pub open spec fn tree_too_deep(e: Expression, depth: int) -> bool
    decreases e,
{
    ||| (e.references@.len() > 0 && depth >= usize::MAX)
    ||| (exists|i: int|
        0 <= i < e.references@.len() && tree_too_deep(#[trigger] e.references@[i], depth + 1))
}

/// Whether projecting an expression at the given depth succeeds: every
/// attribute splits, a method and a URL are present, and the same holds of
/// every reference one level deeper.
pub open spec fn projectable(e: Expression, depth: int) -> bool
    decreases e,
{
    &&& !has_malformed_attr(e.tokens@)
    &&& !method_missing(e.tokens@)
    &&& !url_missing(e.tokens@)
    &&& (e.references@.len() > 0 ==> depth < usize::MAX)
    &&& forall|i: int|
        0 <= i < e.references@.len() ==> projectable(#[trigger] e.references@[i], depth + 1)
}

/// A request node.
#[derive(Debug)]
pub struct GlueNode {
    /// The masked predicate, with one `{}` hole per dependency.
    pub predicate: String,
    /// The components the predicate's placeholders stand for.
    pub components: Vec<String>,
    /// The request method, lowercased.
    pub method: String,
    /// The request URL, or the variable name when the method is `req`.
    pub url: String,
    /// The JSONPath selector applied to the response; empty for none.
    pub result_selector: String,
    /// Header names (lowercased) and values, in insertion order.
    pub headers: Option<Vec<(String, String)>>,
    /// The request body, if any.
    pub body: Option<RequestBody>,
    /// The dependency nodes, in the positional order of the `{}` holes.
    pub dependencies: Vec<GlueNode>,
    /// The node's depth in the tree; the root is at zero.
    pub depth: usize,
    /// The result of executing this node; empty until execution.
    pub result: String,
    /// The heap name the result is saved under, if any.
    pub save_as: Option<String>,
}

/// The projected fields of `n` are exactly what the token list dictates.
pub open spec fn node_fields_match(n: GlueNode, ts: Seq<Token>, comps: Seq<Seq<char>>) -> bool {
    &&& last_method(ts) is Some && n.method@ == to_lower(last_method(ts).unwrap())
    &&& last_url(ts) is Some && n.url@ == last_url(ts).unwrap()
    &&& n.result_selector@ == match last_selector(ts) {
        Some(u) => u,
        None => Seq::<char>::empty(),
    }
    &&& match (n.save_as, last_save(ts)) {
        (Some(s), Some(u)) => s@ == u,
        (None, None) => true,
        _ => false,
    }
    &&& match n.headers {
        None => headers_fold(ts, comps) is None,
        Some(hs) => headers_fold(ts, comps) is Some && kv_map(hs.deep_view()) == headers_fold(
            ts,
            comps,
        ).unwrap() && uniq_keys(hs.deep_view()),
    }
    &&& match n.body {
        None => body_fold(ts, comps) is None,
        Some(b) => body_fold(ts, comps) is Some && b.wf() && b.body_type == body_fold(
            ts,
            comps,
        ).unwrap().0 && kv_map(b.value.deep_view()) == body_fold(ts, comps).unwrap().1 && b.raw@
            == body_fold(ts, comps).unwrap().2,
    }
}

impl GlueNode {
    /// Well-formedness: one `{}` hole per dependency, every dependency one
    /// level deeper than its parent, and attribute stores without duplicate
    /// keys — recursively.
    pub open spec fn wf(self) -> bool
        decreases self,
    {
        &&& count_holes(self.predicate@) == self.dependencies@.len()
        &&& match self.headers {
            Some(hs) => uniq_keys(hs.deep_view()),
            None => true,
        }
        &&& match self.body {
            Some(b) => b.wf(),
            None => true,
        }
        &&& forall|i: int|
            0 <= i < self.dependencies@.len() ==> (#[trigger] self.dependencies@[i]).depth
                == self.depth + 1 && self.dependencies@[i].wf()
    }

    /// Every dependency of a well-formed node sits exactly one level deeper
    /// than the node itself; because well-formedness is recursive, the same
    /// holds of every node in the tree.
    pub proof fn lemma_depth_monotonic(self, i: int)
        requires
            self.wf(),
            0 <= i < self.dependencies@.len(),
        ensures
            self.dependencies@[i].depth == self.depth + 1,
            self.dependencies@[i].wf(),
    {
    }

    /// The number of `{}` holes in a well-formed node's predicate equals
    /// the number of its dependencies.
    pub proof fn lemma_dependency_hole_count(self)
        requires
            self.wf(),
        ensures
            count_holes(self.predicate@) == self.dependencies@.len(),
    {
    }

    /// Parses a whole command into its request-node tree.
    pub fn from_string(command: &String) -> (r: Result<GlueNode, ParserError>)
        ensures
            match r {
                Ok(n) => parses_to(command@, n),
                Err(err) => ({
                    let m = mask_spec(command@, 0, 0);
                    match err.error {
                        ParserErrorType::InvalidToken => walk(m.0, 0).2 != m.0.len()
                            || walk_has_bad_token(m.0, 0, m.1) || (exists|ex: Expression|
                            #[trigger] crate::expression::expr_from(ex, m.0, 0, m.1) && ex.wf()
                                && tree_too_deep(ex, 0)),
                        ParserErrorType::MalformedAttribute => exists|ex: Expression|
                            #[trigger] crate::expression::expr_from(ex, m.0, 0, m.1) && ex.wf()
                                && tree_malformed(ex),
                        ParserErrorType::UnresolvedMethod => exists|ex: Expression|
                            #[trigger] crate::expression::expr_from(ex, m.0, 0, m.1) && ex.wf()
                                && tree_method_missing(ex),
                        ParserErrorType::UnresolvedUrl => exists|ex: Expression|
                            #[trigger] crate::expression::expr_from(ex, m.0, 0, m.1) && ex.wf()
                                && tree_url_missing(ex),
                    }
                }),
            },
    {
        let expr = match Expression::from_string(command.clone()) {
            Ok(x) => x,
            Err(e) => {
                return Err(e);
            },
        };
        let ghost m = mask_spec(command@, 0, 0);
        match expr.to_node(0) {
            Ok(node) => {
                proof {
                    assert(crate::expression::expr_from(expr, m.0, 0, m.1) && expr.wf()
                        && projectable(expr, 0) && node_of_expr(node, expr));
                }
                Ok(node)
            },
            Err(e) => Err(e),
        }
    }

    /// Inserts a header under the lowercased key; the last write wins.
    /// Whether the name and value are legal on the wire is the transport's
    /// concern, checked where the request is sent.
    pub fn set_header(self: &mut Self, header: (String, String)) -> (r: Result<(), ParserError>)
        requires
            match old(self).headers {
                Some(hs) => uniq_keys(hs.deep_view()),
                None => true,
            },
        ensures
            r is Ok,
            final(self).headers is Some,
            uniq_keys(final(self).headers.unwrap().deep_view()),
            kv_map(final(self).headers.unwrap().deep_view()) == (match old(self).headers {
                None => Map::<Seq<char>, Seq<char>>::empty(),
                Some(hs) => kv_map(hs.deep_view()),
            }).insert(to_lower(header.0@), header.1@),
            final(self).predicate == old(self).predicate,
            final(self).components == old(self).components,
            final(self).method == old(self).method,
            final(self).url == old(self).url,
            final(self).result_selector == old(self).result_selector,
            final(self).body == old(self).body,
            final(self).dependencies == old(self).dependencies,
            final(self).depth == old(self).depth,
            final(self).result == old(self).result,
            final(self).save_as == old(self).save_as,
    {
        let (key, value) = header;
        let lowered = {
            let kc = chars_of(key.as_str());
            let lc = crate::text::to_lower_exec(&kc);
            string_of(&lc)
        };
        match &mut self.headers {
            Some(hs) => {
                upsert(hs, lowered, value);
            },
            None => {
                let mut hs: Vec<(String, String)> = Vec::new();
                assert(hs.deep_view() =~= Seq::<(Seq<char>, Seq<char>)>::empty());
                upsert(&mut hs, lowered, value);
                self.headers = Some(hs);
            },
        }
        Ok(())
    }

    /// Merges a `key=value` pair into the body as a JSON attribute; an
    /// arbitrary body is discarded first.
    pub fn set_body_attribute(self: &mut Self, attribute: (String, String))
        requires
            match old(self).body {
                Some(b) => b.wf(),
                None => true,
            },
        ensures
            final(self).body is Some,
            ({
                let b = final(self).body.unwrap();
                &&& b.wf()
                &&& b.body_type == RequestBodyType::JSON
                &&& b.raw@.len() == 0
                &&& kv_map(b.value.deep_view()) == (match old(self).body {
                    Some(ob) => if ob.body_type == RequestBodyType::ARBITRARY {
                        Map::<Seq<char>, Seq<char>>::empty()
                    } else {
                        kv_map(ob.value.deep_view())
                    },
                    None => Map::<Seq<char>, Seq<char>>::empty(),
                }).insert(attribute.0@, attribute.1@)
            }),
            final(self).predicate == old(self).predicate,
            final(self).components == old(self).components,
            final(self).method == old(self).method,
            final(self).url == old(self).url,
            final(self).result_selector == old(self).result_selector,
            final(self).headers == old(self).headers,
            final(self).dependencies == old(self).dependencies,
            final(self).depth == old(self).depth,
            final(self).result == old(self).result,
            final(self).save_as == old(self).save_as,
    {
        let (key, value) = attribute;
        let mut keep = false;
        match &self.body {
            Some(b) => {
                match b.body_type {
                    RequestBodyType::ARBITRARY => {
                    },
                    _ => {
                        keep = true;
                    },
                }
            },
            None => {},
        }
        if keep {
            match &mut self.body {
                Some(b) => {
                    upsert(&mut b.value, key, value);
                    b.body_type = RequestBodyType::JSON;
                },
                None => {
                    // unreachable: `keep` is set only when a body is present
                    assert(false);
                },
            }
        } else {
            let mut entries: Vec<(String, String)> = Vec::new();
            assert(entries.deep_view() =~= Seq::<(Seq<char>, Seq<char>)>::empty());
            upsert(&mut entries, key, value);
            self.body = Some(RequestBody::new(RequestBodyType::JSON, Some(entries), None));
        }
    }

    /// Applies classified tokens to this node's fields, in token order.
    /// The node's own fields must still be unset; the predicate, the
    /// components, the dependencies, the depth and the result are left
    /// untouched.
    pub(crate) fn apply_tokens(self: &mut Self, tokens: &Vec<Token>, components: &Vec<String>) -> (r: Result<
        (),
        ParserError,
    >)
        requires
            old(self).method@.len() == 0,
            old(self).url@.len() == 0,
            old(self).result_selector@.len() == 0,
            old(self).save_as is None,
            old(self).headers is None,
            old(self).body is None,
        ensures
            match r {
                Ok(()) => !has_malformed_attr(tokens@) && !method_missing(tokens@) && !url_missing(
                    tokens@,
                ) && node_fields_match(*final(self), tokens@, components.deep_view()),
                Err(e) => {
                    ||| (e.error == ParserErrorType::MalformedAttribute && has_malformed_attr(
                        tokens@,
                    ))
                    ||| (e.error == ParserErrorType::UnresolvedMethod && method_missing(tokens@)
                        && !has_malformed_attr(tokens@))
                    ||| (e.error == ParserErrorType::UnresolvedUrl && url_missing(tokens@)
                        && !has_malformed_attr(tokens@) && !method_missing(tokens@))
                },
            },
            final(self).predicate == old(self).predicate,
            final(self).components == old(self).components,
            final(self).dependencies == old(self).dependencies,
            final(self).depth == old(self).depth,
            final(self).result == old(self).result,
    {
        let n = tokens.len();
        let mut i: usize = 0;
        while i < n
            invariant
                i <= n,
                n == tokens@.len(),
                self.predicate == old(self).predicate,
                self.components == old(self).components,
                self.dependencies == old(self).dependencies,
                self.depth == old(self).depth,
                self.result == old(self).result,
                !has_malformed_attr(tokens@.take(i as int)),
                ({
                    let pre = tokens@.take(i as int);
                    let comps = components.deep_view();
                    &&& match last_method(pre) {
                        None => self.method@.len() == 0,
                        Some(u) => self.method@ == to_lower(u),
                    }
                    &&& match last_url(pre) {
                        None => self.url@.len() == 0,
                        Some(u) => self.url@ == u,
                    }
                    &&& self.result_selector@ == match last_selector(pre) {
                        Some(u) => u,
                        None => Seq::<char>::empty(),
                    }
                    &&& match (self.save_as, last_save(pre)) {
                        (Some(s), Some(u)) => s@ == u,
                        (None, None) => true,
                        _ => false,
                    }
                    &&& match self.headers {
                        None => headers_fold(pre, comps) is None,
                        Some(hs) => headers_fold(pre, comps) is Some && kv_map(hs.deep_view())
                            == headers_fold(pre, comps).unwrap() && uniq_keys(hs.deep_view()),
                    }
                    &&& match self.body {
                        None => body_fold(pre, comps) is None,
                        Some(b) => body_fold(pre, comps) is Some && b.wf() && b.body_type
                            == body_fold(pre, comps).unwrap().0 && kv_map(b.value.deep_view())
                            == body_fold(pre, comps).unwrap().1 && b.raw@ == body_fold(
                            pre,
                            comps,
                        ).unwrap().2,
                    }
                }),
            decreases n - i,
        {
            let ghost pre = tokens@.take(i as int);
            let ghost pre1 = tokens@.take(i as int + 1);
            proof {
                assert(pre1.drop_last() =~= pre);
                assert(pre1.last() == tokens@[i as int]);
                assert forall|k: int| 0 <= k < pre1.len() implies !attr_malformed(
                    #[trigger] pre1[k],
                ) || k == i as int by {
                    if k < i as int {
                        assert(pre1[k] == pre[k]);
                        assert(!attr_malformed(pre[k]));
                    }
                }
            }
            let t = &tokens[i];
            match t {
                Token::Method(v) => {
                    let vc = chars_of(v.value().as_str());
                    let lc = crate::text::to_lower_exec(&vc);
                    self.method = string_of(&lc);
                },
                Token::Url(v) => {
                    self.url = v.value();
                },
                Token::Selector(v) => {
                    self.result_selector = v.value();
                },
                Token::SaveAs(v) => {
                    self.save_as = Some(v.value());
                },
                Token::BodyRaw(v) => {
                    self.set_body_raw(v.value());
                },
                Token::BodyAttribute(a) => {
                    match a.value() {
                        Err(e) => {
                            proof {
                                assert(attr_malformed(tokens@[i as int]));
                            }
                            return Err(e);
                        },
                        Ok((km, vm)) => {
                            let key = {
                                let kc = chars_of(deserialize(km, components).as_str());
                                let kt = trim_chars(&kc);
                                string_of(&kt)
                            };
                            let val = trim_and_remove_quotes(deserialize(vm, components));
                            self.set_body_attribute((key, val));
                        },
                    }
                },
                Token::HeaderAttribute(a) => {
                    match a.value() {
                        Err(e) => {
                            proof {
                                assert(attr_malformed(tokens@[i as int]));
                            }
                            return Err(e);
                        },
                        Ok((km, vm)) => {
                            let key = {
                                let kc = chars_of(deserialize(km, components).as_str());
                                let kt = trim_chars(&kc);
                                string_of(&kt)
                            };
                            let val = trim_and_remove_quotes(deserialize(vm, components));
                            let _ = self.set_header((key, val));
                        },
                    }
                },
            }
            i = i + 1;
        }
        proof {
            assert(tokens@.take(n as int) =~= tokens@);
        }
        if self.method.as_str().unicode_len() == 0 {
            return Err(
                ParserError::new(
                    ParserErrorType::UnresolvedMethod,
                    "Failed to resolve method".to_owned(),
                ),
            );
        }
        if self.url.as_str().unicode_len() == 0 {
            return Err(
                ParserError::new(ParserErrorType::UnresolvedUrl, "Failed to resolve url".to_owned()),
            );
        }
        Ok(())
    }

    /// Replaces each `{}` hole in the predicate, left to right, with the
    /// corresponding dependency's result.
    pub fn resolve_dependencies(self: &mut Self)
        ensures
            final(self).predicate@ == subst_results(
                old(self).predicate@,
                old(self).dependencies@.map_values(|d: GlueNode| d.result@),
            ),
            final(self).components == old(self).components,
            final(self).method == old(self).method,
            final(self).url == old(self).url,
            final(self).result_selector == old(self).result_selector,
            final(self).headers == old(self).headers,
            final(self).body == old(self).body,
            final(self).dependencies == old(self).dependencies,
            final(self).depth == old(self).depth,
            final(self).result == old(self).result,
            final(self).save_as == old(self).save_as,
    {
        let ghost rs = self.dependencies@.map_values(|d: GlueNode| d.result@);
        let mut cur = chars_of(self.predicate.as_str());
        proof {
            assert(rs.skip(0) =~= rs);
        }
        let mut pat: Vec<char> = Vec::new();
        pat.push('{');
        pat.push('}');
        assert(pat@ =~= seq!['{', '}']);
        let n = self.dependencies.len();
        let mut i: usize = 0;
        while i < n
            invariant
                i <= n,
                n == self.dependencies@.len(),
                pat@ == seq!['{', '}'],
                *self == *old(self),
                rs == self.dependencies@.map_values(|d: GlueNode| d.result@),
                subst_results(old(self).predicate@, rs) == subst_results(
                    cur@,
                    rs.skip(i as int),
                ),
            decreases n - i,
        {
            let rc = chars_of(self.dependencies[i].result.as_str());
            proof {
                assert(rs.skip(i as int)[0] == rs[i as int]);
                assert(rs[i as int] == self.dependencies@[i as int].result@);
                assert(rs.skip(i as int).skip(1) =~= rs.skip(i as int + 1));
            }
            cur = replace_first(&cur, &pat, &rc);
            i = i + 1;
        }
        proof {
            assert(rs.skip(n as int) =~= Seq::<Seq<char>>::empty());
        }
        self.predicate = string_of(&cur);
    }

    /// Parses the (substituted) predicate anew and fills the node's typed
    /// fields from it: masking, tokenization and projection run again, but
    /// no dependency walk — braces in substituted results stay literal.
    pub fn resolve_predicate(self: &mut Self) -> (r: Result<(), ParserError>)
        ensures
            ({
                let t = unmask_spec(old(self).predicate@, old(self).components.deep_view(), 0);
                let m = mask_spec(t, 0, 0);
                &&& (r is Ok <==> resolves_ok(m.0, m.1))
                &&& (r is Ok ==> node_fields_match(*final(self), parsed_tokens(m.0, m.1), m.1))
                &&& (r is Err ==> match r.unwrap_err().error {
                    ParserErrorType::InvalidToken => !classifies(m.0, m.1),
                    ParserErrorType::MalformedAttribute => classifies(m.0, m.1)
                        && has_malformed_attr(parsed_tokens(m.0, m.1)),
                    ParserErrorType::UnresolvedMethod => classifies(m.0, m.1)
                        && !has_malformed_attr(parsed_tokens(m.0, m.1)) && method_missing(
                        parsed_tokens(m.0, m.1),
                    ),
                    ParserErrorType::UnresolvedUrl => classifies(m.0, m.1) && !has_malformed_attr(
                        parsed_tokens(m.0, m.1),
                    ) && !method_missing(parsed_tokens(m.0, m.1)) && url_missing(
                        parsed_tokens(m.0, m.1),
                    ),
                })
            }),
            final(self).predicate == old(self).predicate,
            final(self).components == old(self).components,
            final(self).dependencies == old(self).dependencies,
            final(self).depth == old(self).depth,
            final(self).result == old(self).result,
    {
        let text = deserialize(self.predicate.clone(), &self.components);
        let m = Mask::new(text);
        let mv = chars_of(m.masked().as_str());
        let comps = m.components_list();
        let ghost t = unmask_spec(old(self).predicate@, old(self).components.deep_view(), 0);
        let ghost spec_m = mask_spec(t, 0, 0);
        let tokens = match crate::expression::tokenize(&mv, &comps) {
            Ok(ts) => ts,
            Err(e) => {
                proof {
                    let i = choose|i: int|
                        0 <= i < split_ws(spec_m.0, 0).len() && token_err_is(
                            unmask_spec(#[trigger] split_ws(spec_m.0, 0)[i], spec_m.1, 0),
                            i,
                        );
                    lemma_err_excludes_classify(spec_m.0, spec_m.1, i);
                }
                return Err(e);
            },
        };
        proof {
            assert(tokens_match(tokens@, spec_m.0, spec_m.1));
            lemma_parsed_tokens(tokens@, spec_m.0, spec_m.1);
        }
        self.method = String::new();
        self.url = String::new();
        self.result_selector = String::new();
        self.save_as = None;
        self.headers = None;
        self.body = None;
        match self.apply_tokens(&tokens, &comps) {
            Ok(()) => {
                proof {
                    assert(resolves_ok(spec_m.0, spec_m.1));
                    assert(node_fields_match(*self, parsed_tokens(spec_m.0, spec_m.1), spec_m.1));
                }
                Ok(())
            },
            Err(e) => Err(e),
        }
    }

    /// Replaces the body with an arbitrary one holding `raw_body` verbatim.
    pub fn set_body_raw(self: &mut Self, raw_body: String)
        ensures
            final(self).body is Some,
            ({
                let b = final(self).body.unwrap();
                &&& b.wf()
                &&& b.body_type == RequestBodyType::ARBITRARY
                &&& b.raw@ == raw_body@
                &&& b.value.deep_view().len() == 0
            }),
            final(self).predicate == old(self).predicate,
            final(self).components == old(self).components,
            final(self).method == old(self).method,
            final(self).url == old(self).url,
            final(self).result_selector == old(self).result_selector,
            final(self).headers == old(self).headers,
            final(self).dependencies == old(self).dependencies,
            final(self).depth == old(self).depth,
            final(self).result == old(self).result,
            final(self).save_as == old(self).save_as,
    {
        self.body = Some(RequestBody::new(RequestBodyType::ARBITRARY, None, Some(raw_body)));
    }
}


impl Expression {
    /// Projects this expression into a request node at the given depth;
    /// references become dependency nodes one level deeper, in order.
    pub fn to_node(self: &Self, depth: usize) -> (r: Result<GlueNode, ParserError>)
        requires
            self.wf(),
        ensures
            r is Ok <==> projectable(*self, depth as int),
            match r {
                Ok(node) => {
                    &&& node.wf()
                    &&& node.depth == depth
                    &&& node.result@.len() == 0
                    &&& node_of_expr(node, *self)
                },
                Err(err) => match err.error {
                    ParserErrorType::InvalidToken => tree_too_deep(*self, depth as int),
                    ParserErrorType::MalformedAttribute => tree_malformed(*self),
                    ParserErrorType::UnresolvedMethod => tree_method_missing(*self),
                    ParserErrorType::UnresolvedUrl => tree_url_missing(*self),
                },
            },
        decreases *self,
    {
        if self.references.len() > 0 && depth == usize::MAX {
            return Err(
                ParserError::new(
                    ParserErrorType::InvalidToken,
                    "Dependency nesting too deep".to_owned(),
                ),
            );
        }
        let rn = self.references.len();
        let mut deps: Vec<GlueNode> = Vec::new();
        let mut i: usize = 0;
        while i < rn
            invariant
                self.wf(),
                i <= rn,
                rn == self.references@.len(),
                rn > 0 ==> depth < usize::MAX,
                deps@.len() == i,
                forall|j: int|
                    0 <= j < i ==> (#[trigger] deps@[j]).wf() && deps@[j].depth == depth + 1,
                forall|j: int| 0 <= j < i ==> projectable(#[trigger] self.references@[j], depth + 1),
                forall|j: int|
                    0 <= j < i ==> node_of_expr(#[trigger] deps@[j], self.references@[j]),
            decreases rn - i,
        {
            assert(self.references@[i as int].wf());
            match self.references[i].to_node(depth + 1) {
                Ok(nd) => {
                    deps.push(nd);
                },
                Err(e) => {
                    proof {
                        assert(!projectable(self.references@[i as int], depth as int + 1));
                        assert(!projectable(*self, depth as int));
                        if tree_malformed(self.references@[i as int]) {
                            assert(tree_malformed(*self));
                        }
                        if tree_method_missing(self.references@[i as int]) {
                            assert(tree_method_missing(*self));
                        }
                        if tree_url_missing(self.references@[i as int]) {
                            assert(tree_url_missing(*self));
                        }
                        if tree_too_deep(self.references@[i as int], depth as int + 1) {
                            assert(tree_too_deep(*self, depth as int));
                        }
                    }
                    return Err(e);
                },
            }
            i = i + 1;
        }
        let comps = self.components();
        let mut node = GlueNode {
            predicate: self.predicate_masked(),
            components: self.components(),
            method: String::new(),
            url: String::new(),
            result_selector: String::new(),
            headers: None,
            body: None,
            dependencies: deps,
            depth,
            result: String::new(),
            save_as: None,
        };
        match node.apply_tokens(&self.tokens, &comps) {
            Ok(()) => {
                assert(node.wf());
                assert(projectable(*self, depth as int));
                assert(node_of_expr(node, *self));
                Ok(node)
            },
            Err(e) => {
                proof {
                    assert(!projectable(*self, depth as int));
                }
                Err(e)
            },
        }
    }
}

} // verus!
