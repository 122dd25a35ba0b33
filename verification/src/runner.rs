//! The runner: one compiled command tree, flattened into an arena of nodes
//! and a plan of depth-ordered layers, executed deepest layer first.
//!
//! The runner decides everything but the HTTP transfers themselves: the
//! caller asks it to resolve a node, performs the returned HTTP call, and
//! hands the response text back. `req` nodes read the heap instead and
//! complete on the spot.

use vstd::prelude::*;
use vstd::string::StrSliceExecFns;

use crate::errors::{ParserError, RunError};
use crate::expression::count_holes;
use crate::heap::Heap;
use crate::masking::{clone_strings, mask_spec, unmask_spec};
use crate::node::{node_fields_match, subst_results, GlueNode};
use crate::selector::selection;
use crate::request_body::RequestBody;
use crate::selector::get_response_value;
use crate::text::{chars_of, replace_first, string_of, trim_chars, trim_spec};

verus! {

/// One arena entry: a request node whose dependency edges are arena
/// indices instead of owned children.
#[derive(Debug)]
pub struct RunnerNode {
    /// The node; its own dependency list is empty.
    pub node: GlueNode,
    /// The arena indices of the dependencies, in hole order; all smaller
    /// than this entry's own index.
    pub deps: Vec<usize>,
}

/// Entry `i` of the arena is well formed: one dependency per hole, edges
/// pointing at earlier entries exactly one level deeper.
pub open spec fn node_ok_at(a: Seq<RunnerNode>, i: int) -> bool {
    &&& a[i].deps@.len() == count_holes(a[i].node.predicate@)
    &&& a[i].node.dependencies@.len() == 0
    &&& forall|j: int|
        0 <= j < a[i].deps@.len() ==> (#[trigger] a[i].deps@[j]) < i && a[a[i].deps@[j] as int].node.depth
            == a[i].node.depth + 1
}

pub open spec fn arena_ok(a: Seq<RunnerNode>) -> bool {
    forall|i: int| 0 <= i < a.len() ==> #[trigger] node_ok_at(a, i)
}

/// The ascending list of arena indices below `upto` whose node sits at
/// depth `d`.
pub open spec fn idxs_upto(a: Seq<RunnerNode>, d: int, upto: int) -> Seq<usize>
    decreases upto,
{
    if upto <= 0 {
        Seq::<usize>::empty()
    } else {
        idxs_upto(a, d, upto - 1) + (if a[upto - 1].node.depth == d {
            seq![(upto - 1) as usize]
        } else {
            Seq::<usize>::empty()
        })
    }
}

/// Every listed index lies below `upto` and sits at depth `d`, and every
/// such index is listed.
pub proof fn lemma_idxs_membership(a: Seq<RunnerNode>, d: int, upto: int)
    requires
        upto <= a.len(),
        upto <= usize::MAX,
    ensures
        forall|k: int|
            0 <= k < idxs_upto(a, d, upto).len() ==> (#[trigger] idxs_upto(a, d, upto)[k]) < upto
                && a[idxs_upto(a, d, upto)[k] as int].node.depth == d,
        forall|i: int|
            0 <= i < upto && a[i].node.depth == d ==> idxs_upto(a, d, upto).contains(i as usize),
    decreases upto,
{
    if upto > 0 {
        lemma_idxs_membership(a, d, upto - 1);
        let prev = idxs_upto(a, d, upto - 1);
        let cur = idxs_upto(a, d, upto);
        assert forall|k: int|
            0 <= k < cur.len() implies (#[trigger] cur[k]) < upto && a[cur[k] as int].node.depth
            == d by {
            if k < prev.len() {
                assert(cur[k] == prev[k]);
            } else {
                assert(cur[k] == (upto - 1) as usize);
            }
        }
        assert forall|i: int| 0 <= i < upto && a[i].node.depth == d implies cur.contains(
            i as usize,
        ) by {
            if i < upto - 1 {
                assert(prev.contains(i as usize));
                let w = choose|w: int| 0 <= w < prev.len() && prev[w] == i as usize;
                assert(cur[w] == i as usize);
            } else {
                assert(cur[cur.len() - 1] == i as usize);
            }
        }
    }
}

/// Depths only matter: arenas equal in depth below `upto` list the same
/// indices.
proof fn lemma_idxs_same(a: Seq<RunnerNode>, b: Seq<RunnerNode>, d: int, upto: int)
    requires
        forall|i: int| 0 <= i < upto ==> a[i].node.depth == #[trigger] b[i].node.depth,
    ensures
        idxs_upto(a, d, upto) == idxs_upto(b, d, upto),
    decreases upto,
{
    if upto > 0 {
        lemma_idxs_same(a, b, d, upto - 1);
    }
}

/// The results of a node's dependencies, in hole order.
pub open spec fn dep_results(a: Seq<RunnerNode>, idx: int) -> Seq<Seq<char>> {
    Seq::new(a[idx].deps@.len(), |j: int| a[a[idx].deps@[j] as int].node.result@)
}

/// The text a node is re-parsed from: its predicate with the dependency
/// results substituted for the holes, unmasked with its components.
pub open spec fn resolved_text(a: Seq<RunnerNode>, idx: int) -> Seq<char> {
    unmask_spec(
        subst_results(a[idx].node.predicate@, dep_results(a, idx)),
        a[idx].node.components.deep_view(),
        0,
    )
}


/// The number of nodes in a request tree.
pub open spec fn tree_size(t: GlueNode) -> nat
    decreases t,
{
    1 + size_of_list(t.dependencies@)
}

pub open spec fn size_of_list(ts: Seq<GlueNode>) -> nat
    decreases ts,
{
    if ts.len() == 0 {
        0
    } else {
        tree_size(ts[0]) + size_of_list(ts.skip(1))
    }
}

/// The height of a request tree: zero for a leaf.
pub open spec fn tree_height(t: GlueNode) -> nat
    decreases t,
{
    if t.dependencies@.len() == 0 {
        0
    } else {
        1 + height_of_list(t.dependencies@)
    }
}

pub open spec fn height_of_list(ts: Seq<GlueNode>) -> nat
    decreases ts,
{
    if ts.len() == 0 {
        0
    } else {
        let h0 = tree_height(ts[0]);
        let hr = height_of_list(ts.skip(1));
        if h0 > hr {
            h0
        } else {
            hr
        }
    }
}

proof fn lemma_height_list_ge(ts: Seq<GlueNode>, j: int)
    requires
        0 <= j < ts.len(),
    ensures
        height_of_list(ts) >= tree_height(ts[j]),
    decreases ts.len(),
{
    if j > 0 {
        lemma_height_list_ge(ts.skip(1), j - 1);
        assert(ts.skip(1)[j - 1] == ts[j]);
    }
}

proof fn lemma_height_list_witness(ts: Seq<GlueNode>)
    requires
        ts.len() > 0,
    ensures
        exists|j: int| 0 <= j < ts.len() && tree_height(#[trigger] ts[j]) == height_of_list(ts),
    decreases ts.len(),
{
    if ts.len() == 1 {
        assert(tree_height(ts[0]) == height_of_list(ts));
    } else {
        lemma_height_list_witness(ts.skip(1));
        let j = choose|j: int|
            0 <= j < ts.skip(1).len() && tree_height(#[trigger] ts.skip(1)[j]) == height_of_list(
                ts.skip(1),
            );
        if tree_height(ts[0]) > height_of_list(ts.skip(1)) {
            assert(tree_height(ts[0]) == height_of_list(ts));
        } else {
            assert(ts.skip(1)[j] == ts[j + 1]);
            assert(tree_height(ts[j + 1]) == height_of_list(ts));
        }
    }
}

proof fn lemma_size_take_step(ts: Seq<GlueNode>, k: int)
    requires
        0 <= k < ts.len(),
    ensures
        size_of_list(ts.take(k + 1)) == size_of_list(ts.take(k)) + tree_size(ts[k]),
    decreases k,
{
    if k == 0 {
        assert(ts.take(1) =~= seq![ts[0]]);
        assert(ts.take(1).skip(1) =~= Seq::<GlueNode>::empty());
        assert(ts.take(0) =~= Seq::<GlueNode>::empty());
    } else {
        lemma_size_take_step(ts.skip(1), k - 1);
        assert(ts.take(k + 1).skip(1) =~= ts.skip(1).take(k));
        assert(ts.take(k).skip(1) =~= ts.skip(1).take(k - 1));
        assert(ts.take(k + 1)[0] == ts[0]);
        assert(ts.take(k)[0] == ts[0]);
        assert(ts.skip(1)[k - 1] == ts[k]);
    }
}

/// The entry mirrors the tree node, field for field, with one dependency
/// edge per child.
pub open spec fn entry_matches(e: RunnerNode, t: GlueNode) -> bool {
    &&& e.node.predicate@ == t.predicate@
    &&& e.node.components.deep_view() == t.components.deep_view()
    &&& e.node.method@ == t.method@
    &&& e.node.url@ == t.url@
    &&& e.node.result_selector@ == t.result_selector@
    &&& e.node.result@ == t.result@
    &&& (match (e.node.save_as, t.save_as) {
        (Some(a), Some(b)) => a@ == b@,
        (None, None) => true,
        _ => false,
    })
    &&& e.node.depth == t.depth
    &&& e.deps@.len() == t.dependencies@.len()
}

/// Arena index `i` is the image of tree node `t`: the entry mirrors it and
/// each dependency edge leads to the image of the matching child.
pub open spec fn arena_represents(a: Seq<RunnerNode>, i: int, t: GlueNode) -> bool
    decreases t,
{
    &&& 0 <= i < a.len()
    &&& entry_matches(a[i], t)
    &&& forall|j: int|
        0 <= j < t.dependencies@.len() ==> arena_represents(
            a,
            a[i].deps@[j] as int,
            #[trigger] t.dependencies@[j],
        )
}

/// A representation is kept by appending to the arena.
proof fn lemma_represents_extend(a: Seq<RunnerNode>, b: Seq<RunnerNode>, i: int, t: GlueNode)
    requires
        arena_represents(a, i, t),
        b.len() >= a.len(),
        b.take(a.len() as int) == a,
    ensures
        arena_represents(b, i, t),
    decreases t,
{
    assert(b[i] == b.take(a.len() as int)[i]);
    assert forall|j: int| 0 <= j < t.dependencies@.len() implies arena_represents(
        b,
        b[i].deps@[j] as int,
        #[trigger] t.dependencies@[j],
    ) by {
        lemma_represents_extend(a, b, a[i].deps@[j] as int, t.dependencies@[j]);
    }
}

/// The image of a well-formed tree holds an entry at the tree's deepest
/// level.
proof fn lemma_represents_height(a: Seq<RunnerNode>, i: int, t: GlueNode)
    requires
        arena_represents(a, i, t),
        t.wf(),
    ensures
        exists|k: int|
            0 <= k < a.len() && (#[trigger] a[k]).node.depth == t.depth + tree_height(t),
    decreases t,
{
    if t.dependencies@.len() == 0 {
        assert(a[i].node.depth == t.depth + tree_height(t));
    } else {
        lemma_height_list_witness(t.dependencies@);
        let j = choose|j: int|
            0 <= j < t.dependencies@.len() && tree_height(#[trigger] t.dependencies@[j])
                == height_of_list(t.dependencies@);
        assert(arena_represents(a, a[i].deps@[j] as int, t.dependencies@[j]));
        assert(t.dependencies@[j].wf() && t.dependencies@[j].depth == t.depth + 1);
        lemma_represents_height(a, a[i].deps@[j] as int, t.dependencies@[j]);
    }
}

/// An HTTP request the caller must perform for a node.
#[derive(Debug)]
pub struct HttpCall {
    /// The arena index of the node the response belongs to.
    pub node_id: usize,
    /// The request method: one of `get`, `post`, `put`, `patch`, `delete`.
    pub method: String,
    /// The resolved URL.
    pub url: String,
    /// Header names and values, if any.
    pub headers: Option<Vec<(String, String)>>,
    /// The body, if any.
    pub body: Option<RequestBody>,
}

/// A compiled command: the node arena and the layer plan, deepest first.
#[derive(Debug)]
pub struct Runner {
    /// The nodes; dependencies precede their dependents, the root is last.
    pub nodes: Vec<RunnerNode>,
    /// The layers: layer `li` holds the indices of the nodes at depth
    /// `depth - li`, so the deepest layer runs first and the root alone
    /// runs last.
    pub layers: Vec<Vec<usize>>,
    /// The greatest node depth.
    pub depth: usize,
    /// The root's result, once the root has completed.
    pub result: Option<String>,
    /// Whether request lines should be reported before dispatch.
    pub log_info: bool,
}

impl Runner {
    /// Well-formedness of the compiled plan.
    pub open spec fn wf(&self) -> bool {
        &&& arena_ok(self.nodes@)
        &&& self.nodes@.len() > 0
        &&& self.nodes@.len() <= usize::MAX
        &&& self.nodes@[self.nodes@.len() - 1].node.depth == 0
        &&& forall|i: int| 0 <= i < self.nodes@.len() - 1 ==> (#[trigger] self.nodes@[i]).node.depth
            > 0
        &&& forall|i: int| 0 <= i < self.nodes@.len() ==> (#[trigger] self.nodes@[i]).node.depth
            <= self.depth
        &&& self.layers@.len() == self.depth + 1
        &&& forall|li: int|
            0 <= li < self.layers@.len() ==> (#[trigger] self.layers@[li])@ == idxs_upto(
                self.nodes@,
                self.depth - li,
                self.nodes@.len() as int,
            )
    }

    /// Compiles a runner from a parsed root node: the arena is the
    /// flattening of the tree, dependencies first and the root last, and
    /// the plan has one layer per tree level.
    pub fn from_root_node(root: &GlueNode, log_info: bool) -> (r: Runner)
        requires
            root.wf(),
            root.depth == 0,
        ensures
            r.wf(),
            r.result is None,
            r.log_info == log_info,
            r.nodes@.len() == tree_size(*root),
            r.depth == tree_height(*root),
            arena_represents(r.nodes@, r.nodes@.len() - 1, *root),
            ({
                let rn = r.nodes@[r.nodes@.len() - 1].node;
                &&& rn.predicate@ == root.predicate@
                &&& rn.method@ == root.method@
                &&& rn.url@ == root.url@
                &&& rn.result_selector@ == root.result_selector@
                &&& match (rn.save_as, root.save_as) {
                    (Some(a), Some(b)) => a@ == b@,
                    (None, None) => true,
                    _ => false,
                }
            }),
    {
        let mut nodes: Vec<RunnerNode> = Vec::new();
        let _root_idx = flatten(root, &mut nodes);
        let n = nodes.len();
        let mut maxd: usize = 0;
        let mut i: usize = 0;
        while i < n
            invariant
                i <= n,
                n == nodes@.len(),
                forall|j: int| 0 <= j < i ==> (#[trigger] nodes@[j]).node.depth <= maxd,
                i > 0 ==> exists|j: int| 0 <= j < i && (#[trigger] nodes@[j]).node.depth == maxd,
                i == 0 ==> maxd == 0,
            decreases n - i,
        {
            if nodes[i].node.depth > maxd {
                maxd = nodes[i].node.depth;
            }
            i = i + 1;
        }
        proof {
            lemma_represents_height(nodes@, n - 1, *root);
            let deep = choose|k: int|
                0 <= k < nodes@.len() && (#[trigger] nodes@[k]).node.depth == root.depth
                    + tree_height(*root);
            assert(maxd >= nodes@[deep].node.depth);
            let top = choose|j: int|
                0 <= j < n && (#[trigger] nodes@[j]).node.depth == maxd;
            assert(nodes@[top].node.depth <= root.depth + tree_height(*root));
            assert(maxd == tree_height(*root));
        }
        let mut layers: Vec<Vec<usize>> = Vec::new();
        let mut d = maxd;
        let mut done_layers = false;
        while !done_layers
            invariant
                d <= maxd,
                n == nodes@.len(),
                !done_layers ==> layers@.len() == maxd - d,
                done_layers ==> layers@.len() == maxd + 1 && d == 0,
                forall|k: int|
                    0 <= k < layers@.len() ==> (#[trigger] layers@[k])@ == idxs_upto(
                        nodes@,
                        maxd - k,
                        n as int,
                    ),
            decreases d + (if done_layers {
                0int
            } else {
                1int
            }),
        {
            let layer = layer_of_depth(&nodes, d);
            layers.push(layer);
            if d == 0 {
                done_layers = true;
            } else {
                d = d - 1;
            }
        }
        Runner { nodes, layers, depth: maxd, result: None, log_info }
    }

    /// Parses a command and compiles it; the last arena entry is the
    /// parsed root.
    pub fn from_string(command: &String, log_info: bool) -> (r: Result<Runner, ParserError>)
        ensures
            r is Ok ==> ({
                let runner = r.unwrap();
                let rn = runner.nodes@[runner.nodes@.len() - 1].node;
                &&& runner.wf()
                &&& runner.result is None
                &&& exists|root: GlueNode|
                    #[trigger] crate::node::parses_to(command@, root) && rn.predicate@
                        == root.predicate@ && rn.method@ == root.method@ && rn.url@ == root.url@
                        && rn.result_selector@ == root.result_selector@ && runner.nodes@.len()
                        == tree_size(root) && runner.depth == tree_height(root)
                        && arena_represents(runner.nodes@, runner.nodes@.len() - 1, root)
            }),
            r is Err ==> ({
                let m = mask_spec(command@, 0, 0);
                match r.unwrap_err().error {
                    crate::errors::ParserErrorType::InvalidToken => crate::expression::walk(
                        m.0,
                        0,
                    ).2 != m.0.len() || crate::expression::walk_has_bad_token(m.0, 0, m.1) || (
                    exists|ex: crate::expression::Expression|
                        #[trigger] crate::expression::expr_from(ex, m.0, 0, m.1) && ex.wf()
                            && crate::node::tree_too_deep(ex, 0)),
                    crate::errors::ParserErrorType::MalformedAttribute => exists|
                        ex: crate::expression::Expression,
                    |
                        #[trigger] crate::expression::expr_from(ex, m.0, 0, m.1) && ex.wf()
                            && crate::node::tree_malformed(ex),
                    crate::errors::ParserErrorType::UnresolvedMethod => exists|
                        ex: crate::expression::Expression,
                    |
                        #[trigger] crate::expression::expr_from(ex, m.0, 0, m.1) && ex.wf()
                            && crate::node::tree_method_missing(ex),
                    crate::errors::ParserErrorType::UnresolvedUrl => exists|
                        ex: crate::expression::Expression,
                    |
                        #[trigger] crate::expression::expr_from(ex, m.0, 0, m.1) && ex.wf()
                            && crate::node::tree_url_missing(ex),
                }
            }),
    {
        match GlueNode::from_string(command) {
            Ok(root) => {
                let runner = Runner::from_root_node(&root, log_info);
                proof {
                    let rn = runner.nodes@[runner.nodes@.len() - 1].node;
                    assert(crate::node::parses_to(command@, root) && rn.predicate@
                        == root.predicate@ && rn.method@ == root.method@ && rn.url@ == root.url@
                        && rn.result_selector@ == root.result_selector@ && runner.nodes@.len()
                        == tree_size(root) && runner.depth == tree_height(root)
                        && arena_represents(runner.nodes@, runner.nodes@.len() - 1, root));
                }
                Ok(runner)
            },
            Err(e) => Err(e),
        }
    }

    /// The number of layers in the plan.
    pub fn layer_count(&self) -> (r: usize)
        ensures
            r == self.layers@.len(),
    {
        self.layers.len()
    }

    /// The node indices of one layer, for the caller to walk.
    pub fn layer(&self, li: usize) -> (r: Vec<usize>)
        requires
            li < self.layers@.len(),
        ensures
            r@ == self.layers@[li as int]@,
    {
        let mut out: Vec<usize> = Vec::new();
        let n = self.layers[li].len();
        let mut k: usize = 0;
        while k < n
            invariant
                k <= n,
                li < self.layers@.len(),
                n == self.layers@[li as int]@.len(),
                out@ =~= self.layers@[li as int]@.take(k as int),
            decreases n - k,
        {
            out.push(self.layers[li][k]);
            proof {
                assert(self.layers@[li as int]@.take(k + 1) =~= self.layers@[li as int]@.take(
                    k as int,
                ).push(self.layers@[li as int]@[k as int]));
            }
            k = k + 1;
        }
        proof {
            assert(self.layers@[li as int]@.take(n as int) =~= self.layers@[li as int]@);
        }
        out
    }

    /// Resolves the node at `idx`: substitutes its dependencies' results
    /// into the predicate, parses the resolved text, and fills the node's
    /// fields. A `req` node completes immediately against the heap and
    /// yields no call; any other node yields the HTTP call to perform.
    /// When the resolved text parses, success is owed: a `req` node fails
    /// only on a missing name or a failing selection, any other node not at
    /// all. Every failure leaves the runner and the heap untouched.
    pub fn resolve_node(self: &mut Self, idx: usize, heap: &mut Heap) -> (r: Result<
        Option<HttpCall>,
        RunError,
    >)
        requires
            old(self).wf(),
            idx < old(self).nodes@.len(),
            old(heap).inv(),
        ensures
            final(self).wf(),
            final(heap).inv(),
            final(self).layers == old(self).layers,
            final(self).depth == old(self).depth,
            final(self).log_info == old(self).log_info,
            final(self).nodes@.len() == old(self).nodes@.len(),
            r is Err ==> final(self).nodes@ == old(self).nodes@ && final(self).result == old(
                self,
            ).result && final(heap)@ == old(heap)@,
            ({
                let m = mask_spec(resolved_text(old(self).nodes@, idx as int), 0, 0);
                let pt = crate::node::parsed_tokens(m.0, m.1);
                &&& (r is Err && r.unwrap_err() is Parse ==> !crate::node::resolves_ok(m.0, m.1))
                &&& (r is Err && r.unwrap_err() is UnresolvedVariable
                    ==> crate::node::resolves_ok(m.0, m.1) && !old(heap)@.contains_key(
                    crate::node::last_url(pt).unwrap(),
                ))
                &&& (r is Ok ==> crate::node::resolves_ok(m.0, m.1) && node_fields_match(
                    final(self).nodes@[idx as int].node,
                    pt,
                    m.1,
                ))
                &&& (crate::node::resolves_ok(m.0, m.1) ==> ({
                    let meth = crate::text::to_lower(crate::node::last_method(pt).unwrap());
                    let url = crate::node::last_url(pt).unwrap();
                    let sel = match crate::node::last_selector(pt) {
                        Some(u) => u,
                        None => Seq::<char>::empty(),
                    };
                    let is_root = old(self).nodes@[idx as int].node.depth == 0;
                    if meth != "req"@ {
                        r is Ok && r.unwrap() is Some
                    } else {
                        &&& (!old(heap)@.contains_key(url) ==> r is Err
                            && r.unwrap_err() is UnresolvedVariable)
                        &&& (old(heap)@.contains_key(url) ==> match crate::selector::selection(
                            sel,
                            old(heap)@[url],
                            !is_root,
                            is_root,
                        ) {
                            Ok(res) => ({
                                let fr = final(self).nodes@[idx as int].node.result@;
                                r is Ok && r.unwrap() is None && fr == res
                            }),
                            Err(no_match) => r is Err && (no_match
                                ==> r.unwrap_err() is SelectorNoMatch) && (!no_match
                                ==> r.unwrap_err() is SelectorInvalid),
                        })
                    }
                }))
            }),
            match r {
                Ok(Some(call)) => {
                    &&& call.node_id == idx
                    &&& final(heap)@ == old(heap)@
                    &&& ({
                        let node = final(self).nodes@[idx as int].node;
                        &&& node.method@ != "req"@
                        &&& call.method == node.method
                        &&& call.url == node.url
                        &&& (match call.headers {
                            Some(hs) => node.headers is Some && hs.deep_view()
                                == node.headers.unwrap().deep_view(),
                            None => node.headers is None,
                        })
                        &&& (match call.body {
                            Some(b) => node.body is Some && b.body_type
                                == node.body.unwrap().body_type && b.value.deep_view()
                                == node.body.unwrap().value.deep_view() && b.raw@
                                == node.body.unwrap().raw@,
                            None => node.body is None,
                        })
                    })
                },
                Ok(None) => {
                    let node = final(self).nodes@[idx as int].node;
                    &&& node.method@ == "req"@
                    &&& old(heap)@.contains_key(node.url@)
                    &&& (node.result_selector@.len() == 0 ==> node.result@ == old(
                        heap,
                    )@[node.url@])
                    &&& match node.save_as {
                        Some(s) => final(heap)@ == old(heap)@.insert(trim_spec(s@), node.result@),
                        None => final(heap)@ == old(heap)@,
                    }
                    &&& (node.depth == 0 ==> final(self).result == Some(node.result))
                },
                Err(e) => !(e is Transport) && !(e is FileRead) && !(e is UnknownMethod),
            },
    {
        let ghost old_nodes = self.nodes@;
        let mut entry = self.nodes.remove(idx);
        proof {
            assert(node_ok_at(old_nodes, idx as int));
            assert forall|j: int| 0 <= j < entry.deps@.len() implies (#[trigger] entry.deps@[j])
                < idx <= self.nodes@.len() by {
                assert(old_nodes[idx as int].deps@[j] < idx as int);
            }
        }
        let ghost rs = dep_results(old_nodes, idx as int);
        proof {
            old_nodes.remove_ensures(idx as int);
            assert(rs.skip(0) =~= rs);
            assert forall|t: int| 0 <= t < idx implies self.nodes@[t] == old_nodes[t] by {}
        }
        // substitute the dependencies' results into the predicate text
        let mut pred = chars_of(entry.node.predicate.as_str());
        let mut pat: Vec<char> = Vec::new();
        pat.push('{');
        pat.push('}');
        assert(pat@ =~= seq!['{', '}']);
        let dn = entry.deps.len();
        let mut k: usize = 0;
        while k < dn
            invariant
                k <= dn,
                dn == entry.deps@.len(),
                pat@ == seq!['{', '}'],
                entry == old_nodes[idx as int],
                old_nodes == old(self).nodes@,
                self.nodes@ == old_nodes.remove(idx as int),
                forall|t: int| 0 <= t < idx ==> self.nodes@[t] == #[trigger] old_nodes[t],
                rs == dep_results(old_nodes, idx as int),
                forall|j: int| 0 <= j < dn ==> (#[trigger] entry.deps@[j]) < idx <= self.nodes@.len(),
                subst_results(entry.node.predicate@, rs) == subst_results(
                    pred@,
                    rs.skip(k as int),
                ),
            decreases dn - k,
        {
            let d = entry.deps[k];
            proof {
                assert(self.nodes@[d as int] == old_nodes[d as int]);
                assert(rs.skip(k as int)[0] == rs[k as int]);
                assert(rs[k as int] == old_nodes[old_nodes[idx as int].deps@[k as int] as int].node.result@);
                assert(rs.skip(k as int).skip(1) =~= rs.skip(k as int + 1));
            }
            let rc = chars_of(self.nodes[d].node.result.as_str());
            pred = replace_first(&pred, &pat, &rc);
            k = k + 1;
        }
        proof {
            assert(rs.skip(dn as int) =~= Seq::<Seq<char>>::empty());
        }
        let resolved = crate::masking::deserialize(string_of(&pred), &entry.node.components);
        let m = crate::mask::Mask::new(resolved);
        let mv = chars_of(m.masked().as_str());
        let comps = m.components_list();
        let ghost spec_m = mask_spec(resolved_text(old_nodes, idx as int), 0, 0);
        proof {
            assert(mv@ == spec_m.0);
            assert(comps.deep_view() == spec_m.1);
        }
        let tokens = match crate::expression::tokenize(&mv, &comps) {
            Ok(ts) => ts,
            Err(e) => {
                let ghost eg = entry;
                self.nodes.insert(idx, entry);
                proof {
                    reinsert_facts(old(self).nodes@, self.nodes@, idx as int, eg);
                    lemma_update_keeps_wf(old(self), self, idx as int);
                    assert(self.nodes@ =~= old(self).nodes@);
                    let i = choose|i: int|
                        0 <= i < crate::expression::split_ws(spec_m.0, 0).len()
                            && crate::token::token_err_is(
                            unmask_spec(
                                #[trigger] crate::expression::split_ws(spec_m.0, 0)[i],
                                spec_m.1,
                                0,
                            ),
                            i,
                        );
                    crate::node::lemma_err_excludes_classify(spec_m.0, spec_m.1, i);
                }
                return Err(RunError::Parse(e));
            },
        };
        proof {
            assert(crate::expression::tokens_match(tokens@, spec_m.0, spec_m.1));
            crate::node::lemma_parsed_tokens(tokens@, spec_m.0, spec_m.1);
        }
        // project into a scratch node, so a failed parse leaves the arena
        // exactly as it was
        let mut scratch = GlueNode {
            predicate: entry.node.predicate.clone(),
            components: clone_strings(&entry.node.components),
            method: String::new(),
            url: String::new(),
            result_selector: String::new(),
            headers: None,
            body: None,
            dependencies: Vec::new(),
            depth: entry.node.depth,
            result: String::new(),
            save_as: None,
        };
        match scratch.apply_tokens(&tokens, &comps) {
            Ok(()) => {},
            Err(e) => {
                let ghost eg = entry;
                self.nodes.insert(idx, entry);
                proof {
                    reinsert_facts(old(self).nodes@, self.nodes@, idx as int, eg);
                    lemma_update_keeps_wf(old(self), self, idx as int);
                    assert(self.nodes@ =~= old(self).nodes@);
                }
                return Err(RunError::Parse(e));
            },
        }
        let is_req = {
            let mc = chars_of(scratch.method.as_str());
            crate::text::eq_lit(&mc, "req")
        };
        if is_req {
            let name = scratch.url.clone();
            let value = match heap.get(&name) {
                Some(v) => v,
                None => {
                    let ghost eg = entry;
                    self.nodes.insert(idx, entry);
                    proof {
                        reinsert_facts(old(self).nodes@, self.nodes@, idx as int, eg);
                        lemma_update_keeps_wf(old(self), self, idx as int);
                        assert(self.nodes@ =~= old(self).nodes@);
                    }
                    return Err(RunError::UnresolvedVariable(name));
                },
            };
            let is_root = entry.node.depth == 0;
            let res = match get_response_value(&scratch.result_selector, &value, !is_root, is_root) {
                Ok(x) => x,
                Err(e) => {
                    let ghost eg = entry;
                    self.nodes.insert(idx, entry);
                    proof {
                        reinsert_facts(old(self).nodes@, self.nodes@, idx as int, eg);
                        lemma_update_keeps_wf(old(self), self, idx as int);
                        assert(self.nodes@ =~= old(self).nodes@);
                    }
                    return Err(e);
                },
            };
            entry.node.method = scratch.method;
            entry.node.url = scratch.url;
            entry.node.result_selector = scratch.result_selector;
            entry.node.save_as = scratch.save_as;
            entry.node.headers = scratch.headers;
            entry.node.body = scratch.body;
            entry.node.result = res;
            match &entry.node.save_as {
                Some(s) => {
                    let key = string_of(&trim_chars(&chars_of(s.as_str())));
                    heap.insert(key, entry.node.result.clone());
                },
                None => {},
            }
            if is_root {
                self.result = Some(entry.node.result.clone());
            }
            let ghost eg = entry;
            self.nodes.insert(idx, entry);
            proof {
                reinsert_facts(old(self).nodes@, self.nodes@, idx as int, eg);
                lemma_update_keeps_wf(old(self), self, idx as int);
            }
            Ok(None)
        } else {
            entry.node.method = scratch.method;
            entry.node.url = scratch.url;
            entry.node.result_selector = scratch.result_selector;
            entry.node.save_as = scratch.save_as;
            entry.node.headers = scratch.headers;
            entry.node.body = scratch.body;
            let call = HttpCall {
                node_id: idx,
                method: entry.node.method.clone(),
                url: entry.node.url.clone(),
                headers: clone_headers(&entry.node.headers),
                body: clone_body(&entry.node.body),
            };
            let ghost eg = entry;
            self.nodes.insert(idx, entry);
            proof {
                reinsert_facts(old(self).nodes@, self.nodes@, idx as int, eg);
                lemma_update_keeps_wf(old(self), self, idx as int);
            }
            Ok(Some(call))
        }
    }

    /// Completes the node at `idx` with the response text: applies the
    /// selector (first match for dependency nodes, pretty output for the
    /// root), stores the result, saves it in the heap when asked, and sets
    /// the runner result for the root.
    pub fn complete_node(self: &mut Self, idx: usize, response: String, heap: &mut Heap) -> (r:
        Result<(), RunError>)
        requires
            old(self).wf(),
            idx < old(self).nodes@.len(),
            old(heap).inv(),
        ensures
            final(self).wf(),
            final(heap).inv(),
            final(self).layers == old(self).layers,
            final(self).depth == old(self).depth,
            final(self).log_info == old(self).log_info,
            final(self).nodes@.len() == old(self).nodes@.len(),
            r is Err ==> final(self).nodes@ == old(self).nodes@ && final(self).result == old(
                self,
            ).result && final(heap)@ == old(heap)@,
            ({
                let sel = old(self).nodes@[idx as int].node.result_selector@;
                let is_root = old(self).nodes@[idx as int].node.depth == 0;
                match selection(sel, response@, !is_root, is_root) {
                    Ok(s) => ({
                        let fr = final(self).nodes@[idx as int].node.result@;
                        r is Ok && fr == s
                    }),
                    Err(no_match) => r is Err && (no_match ==> r.unwrap_err() is SelectorNoMatch)
                        && (!no_match ==> r.unwrap_err() is SelectorInvalid),
                }
            }),
            match r {
                Ok(()) => {
                    let node = final(self).nodes@[idx as int].node;
                    &&& (node.result_selector@.len() == 0 ==> node.result@ == response@)
                    &&& match node.save_as {
                        Some(s) => final(heap)@ == old(heap)@.insert(trim_spec(s@), node.result@),
                        None => final(heap)@ == old(heap)@,
                    }
                    &&& (node.depth == 0 ==> final(self).result == Some(node.result))
                },
                Err(e) => (e is SelectorInvalid || e is SelectorNoMatch) && final(heap)@ == old(
                    heap,
                )@,
            },
    {
        let ghost old_nodes0 = self.nodes@;
        let mut entry = self.nodes.remove(idx);
        let is_root = entry.node.depth == 0;
        let res = match get_response_value(&entry.node.result_selector, &response, !is_root, is_root) {
            Ok(x) => x,
            Err(e) => {
                let ghost eg = entry;
                self.nodes.insert(idx, entry);
                proof {
                    reinsert_facts(old(self).nodes@, self.nodes@, idx as int, eg);
                    lemma_update_keeps_wf(old(self), self, idx as int);
                }
                return Err(e);
            },
        };
        entry.node.result = res;
        match &entry.node.save_as {
            Some(s) => {
                let key = string_of(&trim_chars(&chars_of(s.as_str())));
                heap.insert(key, entry.node.result.clone());
            },
            None => {},
        }
        if is_root {
            self.result = Some(entry.node.result.clone());
        }
        let ghost eg = entry;
        self.nodes.insert(idx, entry);
        proof {
            reinsert_facts(old(self).nodes@, self.nodes@, idx as int, eg);
            lemma_update_keeps_wf(old(self), self, idx as int);
        }
        Ok(())
    }
}

/// After removing and reinserting at `idx`, the arena is the pointwise
/// update of the original.
proof fn reinsert_facts(a0: Seq<RunnerNode>, a1: Seq<RunnerNode>, idx: int, e: RunnerNode)
    requires
        0 <= idx < a0.len(),
        a1 == a0.remove(idx).insert(idx, e),
    ensures
        a1 == a0.update(idx, e),
        a1[idx] == e,
{
    a0.remove_ensures(idx);
    a0.remove(idx).insert_ensures(idx, e);
    assert(a1 =~= a0.update(idx, e));
}

/// Removing and reinserting a node with unchanged predicate, dependency
/// edges and depth keeps the runner well formed.
proof fn lemma_update_keeps_wf(r0: &Runner, r1: &Runner, idx: int)
    requires
        r0.wf(),
        0 <= idx < r0.nodes@.len(),
        r1.nodes@ == r0.nodes@.update(idx, r1.nodes@[idx]),
        r1.layers == r0.layers,
        r1.depth == r0.depth,
        r1.nodes@[idx].deps == r0.nodes@[idx].deps,
        r1.nodes@[idx].node.predicate == r0.nodes@[idx].node.predicate,
        r1.nodes@[idx].node.dependencies@.len() == r0.nodes@[idx].node.dependencies@.len(),
        r1.nodes@[idx].node.depth == r0.nodes@[idx].node.depth,
    ensures
        r1.wf(),
{
    assert forall|i: int| 0 <= i < r1.nodes@.len() implies #[trigger] node_ok_at(r1.nodes@, i) by {
        assert(node_ok_at(r0.nodes@, i));
        assert forall|j: int| 0 <= j < r1.nodes@[i].deps@.len() implies (#[trigger] r1.nodes@[i].deps@[j])
            < i && r1.nodes@[r1.nodes@[i].deps@[j] as int].node.depth == r1.nodes@[i].node.depth
            + 1 by {
            assert(r0.nodes@[i].deps@[j] < i);
        }
    }
    assert forall|li: int| 0 <= li < r1.layers@.len() implies (#[trigger] r1.layers@[li])@
        == idxs_upto(r1.nodes@, r1.depth - li, r1.nodes@.len() as int) by {
        lemma_idxs_same(r0.nodes@, r1.nodes@, r0.depth - li, r0.nodes@.len() as int);
    }
}

/// The indices of the nodes at depth `d`, ascending.
fn layer_of_depth(nodes: &Vec<RunnerNode>, d: usize) -> (r: Vec<usize>)
    ensures
        r@ == idxs_upto(nodes@, d as int, nodes@.len() as int),
{
    let n = nodes.len();
    let mut out: Vec<usize> = Vec::new();
    let mut i: usize = 0;
    while i < n
        invariant
            i <= n,
            n == nodes@.len(),
            out@ =~= idxs_upto(nodes@, d as int, i as int),
        decreases n - i,
    {
        if nodes[i].node.depth == d {
            out.push(i);
        }
        proof {
            assert(out@ =~= idxs_upto(nodes@, d as int, i + 1));
        }
        i = i + 1;
    }
    out
}

/// Appends the flattening of `node` to the arena, dependencies first, the
/// node itself last; returns the node's own index.
fn flatten(node: &GlueNode, arena: &mut Vec<RunnerNode>) -> (idx: usize)
    requires
        node.wf(),
        arena_ok(old(arena)@),
    ensures
        arena_ok(final(arena)@),
        final(arena)@.len() > old(arena)@.len(),
        idx == final(arena)@.len() - 1,
        final(arena)@.take(old(arena)@.len() as int) == old(arena)@,
        final(arena)@[idx as int].node.depth == node.depth,
        final(arena)@[idx as int].node.predicate@ == node.predicate@,
        final(arena)@[idx as int].node.components.deep_view() == node.components.deep_view(),
        final(arena)@[idx as int].node.method@ == node.method@,
        final(arena)@[idx as int].node.url@ == node.url@,
        final(arena)@[idx as int].node.result_selector@ == node.result_selector@,
        final(arena)@[idx as int].node.result@ == node.result@,
        (match (final(arena)@[idx as int].node.save_as, node.save_as) {
            (Some(a), Some(b)) => a@ == b@,
            (None, None) => true,
            _ => false,
        }),
        ({
            let fa = final(arena)@;
            forall|k: int|
                old(arena)@.len() <= k < fa.len() - 1 ==> (#[trigger] fa[k]).node.depth
                    > node.depth
        }),
        ({
            let fa = final(arena)@;
            forall|k: int|
                old(arena)@.len() <= k < fa.len() ==> (#[trigger] fa[k]).node.depth <= node.depth
                    + tree_height(*node)
        }),
        arena_represents(final(arena)@, idx as int, *node),
        final(arena)@.len() == old(arena)@.len() + tree_size(*node),
    decreases *node,
{
    let ghost base = arena@;
    let mut dep_ids: Vec<usize> = Vec::new();
    let dn = node.dependencies.len();
    let mut k: usize = 0;
    while k < dn
        invariant
            node.wf(),
            k <= dn,
            dn == node.dependencies@.len(),
            dep_ids@.len() == k,
            arena_ok(arena@),
            arena@.len() >= base.len(),
            arena@.take(base.len() as int) == base,
            arena@.len() == base.len() + size_of_list(node.dependencies@.take(k as int)),
            forall|j: int|
                0 <= j < k ==> (#[trigger] dep_ids@[j]) < arena@.len()
                    && arena@[dep_ids@[j] as int].node.depth == node.depth + 1,
            forall|j: int|
                0 <= j < k ==> arena_represents(
                    arena@,
                    dep_ids@[j] as int,
                    #[trigger] node.dependencies@[j],
                ),
            forall|t: int|
                base.len() <= t < arena@.len() ==> (#[trigger] arena@[t]).node.depth > node.depth,
            forall|t: int|
                base.len() <= t < arena@.len() ==> (#[trigger] arena@[t]).node.depth <= node.depth
                    + tree_height(*node),
        decreases dn - k,
    {
        assert(node.dependencies@[k as int].wf() && node.dependencies@[k as int].depth
            == node.depth + 1);
        proof {
            assert(node.dependencies@.take(k as int) =~= node.dependencies@.take(k as int));
        }
        let ghost before = arena@;
        let ci = flatten(&node.dependencies[k], arena);
        dep_ids.push(ci);
        proof {
            lemma_size_take_step(node.dependencies@, k as int);
            lemma_height_list_ge(node.dependencies@, k as int);
            assert(arena@.take(base.len() as int) =~= base) by {
                assert(arena@.take(before.len() as int) == before);
                assert forall|t: int| 0 <= t < base.len() implies arena@.take(
                    base.len() as int,
                )[t] == base[t] by {
                    assert(arena@.take(before.len() as int)[t] == before[t]);
                }
            }
            assert forall|j: int| 0 <= j < dep_ids@.len() implies (#[trigger] dep_ids@[j])
                < arena@.len() && arena@[dep_ids@[j] as int].node.depth == node.depth + 1 by {
                if j < dep_ids@.len() - 1 {
                    assert(dep_ids@[j] < before.len());
                    assert(arena@.take(before.len() as int)[dep_ids@[j] as int]
                        == before[dep_ids@[j] as int]);
                } else {
                    assert(dep_ids@[j] == ci);
                }
            }
            assert forall|t: int| base.len() <= t < arena@.len() implies (#[trigger] arena@[t]).node.depth
                > node.depth by {
                if t < before.len() {
                    assert(arena@.take(before.len() as int)[t] == before[t]);
                } else if t < arena@.len() - 1 {
                } else {
                    assert(arena@[t].node.depth == node.dependencies@[k as int].depth);
                }
            }
            assert forall|t: int| base.len() <= t < arena@.len() implies (#[trigger] arena@[t]).node.depth
                <= node.depth + tree_height(*node) by {
                if t < before.len() {
                    assert(arena@.take(before.len() as int)[t] == before[t]);
                } else {
                    assert(arena@[t].node.depth <= node.dependencies@[k as int].depth
                        + tree_height(node.dependencies@[k as int]));
                }
            }
            assert forall|j: int| 0 <= j < dep_ids@.len() implies arena_represents(
                arena@,
                dep_ids@[j] as int,
                #[trigger] node.dependencies@[j],
            ) by {
                if j < dep_ids@.len() - 1 {
                    lemma_represents_extend(
                        before,
                        arena@,
                        dep_ids@[j] as int,
                        node.dependencies@[j],
                    );
                } else {
                    assert(dep_ids@[j] == ci);
                }
            }
        }
        k = k + 1;
    }
    proof {
        assert(node.dependencies@.take(dn as int) =~= node.dependencies@);
    }
    let flat = GlueNode {
        predicate: node.predicate.clone(),
        components: clone_strings(&node.components),
        method: node.method.clone(),
        url: node.url.clone(),
        result_selector: node.result_selector.clone(),
        headers: clone_headers(&node.headers),
        body: clone_body(&node.body),
        dependencies: Vec::new(),
        depth: node.depth,
        result: node.result.clone(),
        save_as: match &node.save_as {
            Some(s) => Some(s.clone()),
            None => None,
        },
    };
    let idx = arena.len();
    let ghost pre_push = arena@;
    let ghost dep_ids_view = dep_ids@;
    arena.push(RunnerNode { node: flat, deps: dep_ids });
    proof {
        assert(arena@.drop_last() =~= pre_push);
        assert(arena@.take(base.len() as int) =~= pre_push.take(base.len() as int));
        assert(node_ok_at(arena@, idx as int)) by {
            assert(count_holes(node.predicate@) == node.dependencies@.len());
        }
        assert forall|i: int| 0 <= i < arena@.len() implies #[trigger] node_ok_at(arena@, i) by {
            if i < idx {
                assert(node_ok_at(pre_push, i));
                assert(arena@[i] == pre_push[i]);
                assert forall|j: int| 0 <= j < arena@[i].deps@.len() implies (#[trigger] arena@[i].deps@[j])
                    < i && arena@[arena@[i].deps@[j] as int].node.depth == arena@[i].node.depth
                    + 1 by {
                    assert(pre_push[i].deps@[j] < i);
                    assert(arena@[pre_push[i].deps@[j] as int] == pre_push[pre_push[i].deps@[j] as int]);
                }
            }
        }
        assert(arena_represents(arena@, idx as int, *node)) by {
            assert(entry_matches(arena@[idx as int], *node));
            assert forall|j: int| 0 <= j < node.dependencies@.len() implies arena_represents(
                arena@,
                arena@[idx as int].deps@[j] as int,
                #[trigger] node.dependencies@[j],
            ) by {
                assert(arena@[idx as int].deps@[j] == dep_ids_view[j]);
                lemma_represents_extend(
                    pre_push,
                    arena@,
                    dep_ids_view[j] as int,
                    node.dependencies@[j],
                );
            }
        }
    }
    idx
}

fn clone_headers(h: &Option<Vec<(String, String)>>) -> (r: Option<Vec<(String, String)>>)
    ensures
        match r {
            Some(hs) => h is Some && hs.deep_view() == h.unwrap().deep_view(),
            None => h is None,
        },
{
    match h {
        None => None,
        Some(hs) => Some(clone_pairs(hs)),
    }
}

fn clone_pairs(v: &Vec<(String, String)>) -> (r: Vec<(String, String)>)
    ensures
        r.deep_view() == v.deep_view(),
{
    let mut out: Vec<(String, String)> = Vec::new();
    let mut i: usize = 0;
    while i < v.len()
        invariant
            i <= v@.len(),
            out.deep_view() =~= v.deep_view().take(i as int),
        decreases v@.len() - i,
    {
        let ghost old_dv = out.deep_view();
        out.push((v[i].0.clone(), v[i].1.clone()));
        proof {
            assert(out.deep_view() =~~= old_dv.push(v.deep_view()[i as int]));
            assert(out.deep_view() =~~= v.deep_view().take(i as int + 1));
        }
        i = i + 1;
    }
    proof {
        assert(v.deep_view().take(v@.len() as int) =~= v.deep_view());
    }
    out
}

fn clone_body(b: &Option<RequestBody>) -> (r: Option<RequestBody>)
    ensures
        match r {
            Some(rb) => b is Some && rb.body_type == b.unwrap().body_type && rb.value.deep_view()
                == b.unwrap().value.deep_view() && rb.raw@ == b.unwrap().raw@,
            None => b is None,
        },
{
    match b {
        None => None,
        Some(rb) => Some(
            RequestBody {
                body_type: rb.body_type,
                value: clone_pairs(&rb.value),
                raw: rb.raw.clone(),
            },
        ),
    }
}

/// Layer ordering: any node in an earlier layer of a compiled runner is
/// strictly deeper than any node in a later layer, so everything a node
/// depends on runs before it and the root runs last.
pub proof fn lemma_layer_ordering(r: Runner, li: int, lj: int, ki: int, kj: int)
    requires
        r.wf(),
        0 <= li < lj < r.layers@.len(),
        0 <= ki < r.layers@[li]@.len(),
        0 <= kj < r.layers@[lj]@.len(),
    ensures
        r.nodes@[r.layers@[li]@[ki] as int].node.depth > r.nodes@[r.layers@[lj]@[kj] as int].node.depth,
{
    lemma_idxs_membership(r.nodes@, r.depth - li, r.nodes@.len() as int);
    lemma_idxs_membership(r.nodes@, r.depth - lj, r.nodes@.len() as int);
}

/// The root runs last: the final layer of a compiled runner holds exactly
/// the root node.
pub proof fn lemma_root_runs_last(r: Runner)
    requires
        r.wf(),
    ensures
        r.layers@[r.layers@.len() - 1]@ =~= seq![(r.nodes@.len() - 1) as usize],
{
    let n = r.nodes@.len() as int;
    lemma_idxs_zero_singleton(r.nodes@, n);
}

proof fn lemma_idxs_empty(a: Seq<RunnerNode>, d: int, upto: int)
    requires
        forall|i: int| 0 <= i < upto ==> (#[trigger] a[i]).node.depth != d,
    ensures
        idxs_upto(a, d, upto).len() == 0,
    decreases upto,
{
    if upto > 0 {
        lemma_idxs_empty(a, d, upto - 1);
    }
}

proof fn lemma_idxs_zero_singleton(a: Seq<RunnerNode>, n: int)
    requires
        n == a.len(),
        n > 0,
        a[n - 1].node.depth == 0,
        forall|i: int| 0 <= i < n - 1 ==> (#[trigger] a[i]).node.depth > 0,
    ensures
        idxs_upto(a, 0, n) =~= seq![(n - 1) as usize],
{
    lemma_idxs_empty(a, 0, n - 1);
}


/// After removing and reinserting a runner at `idx`, the runner list is
/// the pointwise update of the original.
pub proof fn reinsert_stack_facts(a0: Seq<Runner>, a1: Seq<Runner>, idx: int, e: Runner)
    requires
        0 <= idx < a0.len(),
        a1 == a0.remove(idx).insert(idx, e),
    ensures
        a1 == a0.update(idx, e),
        a1[idx] == e,
        a1.len() == a0.len(),
        forall|i: int| 0 <= i < a0.len() && i != idx ==> a1[i] == #[trigger] a0[i],
{
    a0.remove_ensures(idx);
    a0.remove(idx).insert_ensures(idx, e);
    assert(a1 =~= a0.update(idx, e));
}

} // verus!
