//! The stack: a sequential session of runners sharing one heap, so a
//! later command can `req` what an earlier command saved.
//!
//! The stack decides which runner executes next; the caller drives the
//! picked runner's layers and performs its HTTP transfers. The cursor
//! advances when a runner is picked, before anything of it has run, so an
//! error inside one runner never blocks the runners after it.

use vstd::prelude::*;

use crate::errors::{ParserError, RunError};
use crate::heap::{heap, Heap};
use crate::masking::mask_spec;
use crate::node::GlueNode;
use crate::runner::{resolved_text, HttpCall, Runner};
use crate::selector::selection;

verus! {

/// The cursor transition of one pick: the runner picked, if any, and the
/// cursor afterwards. The cursor moves whether or not the picked runner
/// later fails.
pub open spec fn advance(count: int, cursor: int) -> (Option<int>, int) {
    if cursor < count {
        (Some(cursor), cursor + 1)
    } else {
        (None, cursor)
    }
}

/// Error isolation: a pick moves the cursor past the picked runner before
/// the runner does anything, and executing a runner touches only that
/// runner and the heap, never the cursor; so whatever became of the picked
/// runner, the next pick is the following runner.
pub proof fn lemma_error_isolation(count: int, cursor: int)
    requires
        0 <= cursor < count,
    ensures
        advance(count, cursor).0 == Some(cursor),
        advance(count, cursor).1 == cursor + 1,
        cursor + 1 < count ==> advance(count, advance(count, cursor).1).0 == Some(cursor + 1),
{
}

/// A sequential executor of runners sharing one heap.
pub struct Stack {
    runners: Vec<Runner>,
    heap: Heap,
    current: usize,
}

impl Stack {
    /// The runners, in push order.
    pub closed spec fn runners_spec(&self) -> Seq<Runner> {
        self.runners@
    }

    /// The shared heap's map.
    pub closed spec fn heap_spec(&self) -> Map<Seq<char>, Seq<char>> {
        self.heap@
    }

    /// The index of the next runner to execute.
    pub closed spec fn cursor(&self) -> int {
        self.current as int
    }

    /// The heap keeps one entry per name, every runner is well formed, and
    /// the cursor never runs past the runners.
    pub closed spec fn wf(&self) -> bool {
        &&& self.heap.inv()
        &&& self.current <= self.runners@.len()
        &&& forall|i: int| 0 <= i < self.runners@.len() ==> (#[trigger] self.runners@[i]).wf()
    }

    /// An empty stack with a fresh heap.
    pub fn new() -> (r: Stack)
        ensures
            r.wf(),
            r.runners_spec().len() == 0,
            r.cursor() == 0,
            r.heap_spec() == Map::<Seq<char>, Seq<char>>::empty(),
    {
        Stack { runners: Vec::new(), heap: heap(), current: 0 }
    }

    /// A stack holding one runner compiled from `root`.
    pub fn from_root_node(root: &GlueNode, log_info: bool) -> (r: Stack)
        requires
            root.wf(),
            root.depth == 0,
        ensures
            r.wf(),
            r.runners_spec().len() == 1,
            r.cursor() == 0,
    {
        let mut stack = Stack::new();
        let runner = Runner::from_root_node(root, log_info);
        stack.push_runner(runner);
        stack
    }

    /// Compiles `command` and pushes the runner; the stack is unchanged
    /// when the command does not parse.
    pub fn push_runner_from_string(self: &mut Self, command: &String, log_info: bool) -> (r: Result<
        (),
        ParserError,
    >)
        requires
            old(self).wf(),
        ensures
            final(self).wf(),
            final(self).cursor() == old(self).cursor(),
            final(self).heap_spec() == old(self).heap_spec(),
            match r {
                Ok(()) => ({
                    let rs = final(self).runners_spec();
                    let rn = rs.last().nodes@[rs.last().nodes@.len() - 1].node;
                    &&& rs.len() == old(self).runners_spec().len() + 1
                    &&& rs.last().wf()
                    &&& rs.last().result is None
                    &&& exists|root: GlueNode|
                        #[trigger] crate::node::parses_to(command@, root) && rn.predicate@
                            == root.predicate@ && rn.method@ == root.method@ && rn.url@
                            == root.url@ && rn.result_selector@ == root.result_selector@
                            && rs.last().nodes@.len() == crate::runner::tree_size(root)
                            && rs.last().depth == crate::runner::tree_height(root)
                            && crate::runner::arena_represents(
                            rs.last().nodes@,
                            rs.last().nodes@.len() - 1,
                            root,
                        )
                }),
                Err(e) => final(self).runners_spec() == old(self).runners_spec() && ({
                    let m = mask_spec(command@, 0, 0);
                    e.error == crate::errors::ParserErrorType::InvalidToken
                        ==> crate::expression::walk(m.0, 0).2 != m.0.len()
                        || crate::expression::walk_has_bad_token(m.0, 0, m.1) || (exists|
                        ex: crate::expression::Expression,
                    |
                        #[trigger] crate::expression::expr_from(ex, m.0, 0, m.1) && ex.wf()
                            && crate::node::tree_too_deep(ex, 0))
                }),
            },
    {
        match Runner::from_string(command, log_info) {
            Ok(runner) => {
                self.runners.push(runner);
                Ok(())
            },
            Err(e) => Err(e),
        }
    }

    /// Pushes an already compiled runner.
    pub fn push_runner(self: &mut Self, runner: Runner)
        requires
            old(self).wf(),
            runner.wf(),
        ensures
            final(self).wf(),
            final(self).cursor() == old(self).cursor(),
            final(self).heap_spec() == old(self).heap_spec(),
            final(self).runners_spec() == old(self).runners_spec().push(runner),
    {
        self.runners.push(runner);
    }

    /// Picks the runner to execute next and moves the cursor past it —
    /// before the runner has done anything, so a failing runner never
    /// wedges the stack. The caller then drives the picked runner's layers.
    pub fn execute_next(self: &mut Self) -> (r: Option<usize>)
        requires
            old(self).wf(),
        ensures
            final(self).wf(),
            final(self).runners_spec() == old(self).runners_spec(),
            final(self).heap_spec() == old(self).heap_spec(),
            (match r {
                Some(i) => Some(i as int),
                None => None,
            }) == advance(old(self).runners_spec().len() as int, old(self).cursor()).0,
            final(self).cursor() == advance(
                old(self).runners_spec().len() as int,
                old(self).cursor(),
            ).1,
    {
        if self.current < self.runners.len() {
            let i = self.current;
            self.current = self.current + 1;
            Some(i)
        } else {
            None
        }
    }

    /// The last runner picked, or nothing when none was picked yet.
    pub fn current(self: &Self) -> (r: Option<&Runner>)
        requires
            self.wf(),
        ensures
            match r {
                Some(rr) => 0 < self.cursor() <= self.runners_spec().len() && *rr
                    == self.runners_spec()[self.cursor() - 1],
                None => self.cursor() == 0,
            },
    {
        if self.current > 0 {
            Some(&self.runners[self.current - 1])
        } else {
            None
        }
    }

    /// The number of runners pushed so far.
    pub fn runner_count(self: &Self) -> (r: usize)
        ensures
            r == self.runners_spec().len(),
    {
        self.runners.len()
    }

    /// The number of layers of runner `ri`.
    pub fn runner_layer_count(self: &Self, ri: usize) -> (r: usize)
        requires
            ri < self.runners_spec().len(),
        ensures
            r == self.runners_spec()[ri as int].layers@.len(),
    {
        self.runners[ri].layer_count()
    }

    /// The node indices of layer `li` of runner `ri`.
    pub fn runner_layer(self: &Self, ri: usize, li: usize) -> (r: Vec<usize>)
        requires
            ri < self.runners_spec().len(),
            li < self.runners_spec()[ri as int].layers@.len(),
        ensures
            r@ == self.runners_spec()[ri as int].layers@[li as int]@,
    {
        self.runners[ri].layer(li)
    }

    /// The final result of runner `ri`, once its root has completed.
    pub fn runner_result(self: &Self, ri: usize) -> (r: Option<String>)
        requires
            ri < self.runners_spec().len(),
        ensures
            match r {
                Some(s) => self.runners_spec()[ri as int].result == Some(s),
                None => self.runners_spec()[ri as int].result is None,
            },
    {
        match &self.runners[ri].result {
            Some(s) => Some(s.clone()),
            None => None,
        }
    }

    /// Resolves node `ni` of runner `ri` against the shared heap; see
    /// [`Runner::resolve_node`].
    pub fn resolve_node(self: &mut Self, ri: usize, ni: usize) -> (r: Result<
        Option<HttpCall>,
        RunError,
    >)
        requires
            old(self).wf(),
            ri < old(self).runners_spec().len(),
            ni < old(self).runners_spec()[ri as int].nodes@.len(),
        ensures
            final(self).wf(),
            final(self).cursor() == old(self).cursor(),
            final(self).runners_spec().len() == old(self).runners_spec().len(),
            forall|i: int|
                0 <= i < old(self).runners_spec().len() && i != ri ==> final(self).runners_spec()[i]
                    == #[trigger] old(self).runners_spec()[i],
            ({
                let r0 = old(self).runners_spec()[ri as int];
                let r1 = final(self).runners_spec()[ri as int];
                r1.layers == r0.layers && r1.depth == r0.depth && r1.log_info == r0.log_info
                    && r1.nodes@.len() == r0.nodes@.len()
            }),
            r is Err ==> ({
                let r0 = old(self).runners_spec()[ri as int];
                let r1 = final(self).runners_spec()[ri as int];
                final(self).heap_spec() == old(self).heap_spec() && r1.nodes@ == r0.nodes@
                    && r1.result == r0.result
            }),
            ({
                let m = mask_spec(
                    resolved_text(old(self).runners_spec()[ri as int].nodes@, ni as int),
                    0,
                    0,
                );
                let pt = crate::node::parsed_tokens(m.0, m.1);
                &&& (r is Err && r.unwrap_err() is Parse ==> !crate::node::resolves_ok(m.0, m.1))
                &&& (r is Err && r.unwrap_err() is UnresolvedVariable
                    ==> crate::node::resolves_ok(m.0, m.1) && !old(self).heap_spec().contains_key(
                    crate::node::last_url(pt).unwrap(),
                ))
                &&& (r is Ok ==> crate::node::resolves_ok(m.0, m.1)
                    && crate::node::node_fields_match(
                    final(self).runners_spec()[ri as int].nodes@[ni as int].node,
                    pt,
                    m.1,
                ))
                &&& (crate::node::resolves_ok(m.0, m.1) ==> ({
                    let meth = crate::text::to_lower(crate::node::last_method(pt).unwrap());
                    let url = crate::node::last_url(pt).unwrap();
                    let sel = match crate::node::last_selector(pt) {
                        Some(u) => u,
                        None => Seq::<char>::empty(),
                    };
                    let is_root = old(self).runners_spec()[ri as int].nodes@[ni as int].node.depth
                        == 0;
                    if meth != "req"@ {
                        r is Ok && r.unwrap() is Some
                    } else {
                        &&& (!old(self).heap_spec().contains_key(url) ==> r is Err
                            && r.unwrap_err() is UnresolvedVariable)
                        &&& (old(self).heap_spec().contains_key(url) ==> match selection(
                            sel,
                            old(self).heap_spec()[url],
                            !is_root,
                            is_root,
                        ) {
                            Ok(res) => ({
                                let fr = final(self).runners_spec()[ri as int].nodes@[ni as int].node.result@;
                                r is Ok && r.unwrap() is None && fr == res
                            }),
                            Err(no_match) => r is Err && (no_match
                                ==> r.unwrap_err() is SelectorNoMatch) && (!no_match
                                ==> r.unwrap_err() is SelectorInvalid),
                        })
                    }
                }))
            }),
            match r {
                Ok(Some(call)) => call.node_id == ni && final(self).heap_spec() == old(
                    self,
                ).heap_spec() && ({
                    let node = final(self).runners_spec()[ri as int].nodes@[ni as int].node;
                    &&& node.method@ != "req"@
                    &&& call.method == node.method
                    &&& call.url == node.url
                    &&& (match call.headers {
                        Some(hs) => node.headers is Some && hs.deep_view()
                            == node.headers.unwrap().deep_view(),
                        None => node.headers is None,
                    })
                    &&& (match call.body {
                        Some(b) => node.body is Some && b.body_type == node.body.unwrap().body_type
                            && b.value.deep_view() == node.body.unwrap().value.deep_view() && b.raw@
                            == node.body.unwrap().raw@,
                        None => node.body is None,
                    })
                }),
                Ok(None) => ({
                    let node = final(self).runners_spec()[ri as int].nodes@[ni as int].node;
                    &&& node.method@ == "req"@
                    &&& old(self).heap_spec().contains_key(node.url@)
                    &&& (node.result_selector@.len() == 0 ==> node.result@ == old(
                        self,
                    ).heap_spec()[node.url@])
                    &&& match node.save_as {
                        Some(s) => final(self).heap_spec() == old(self).heap_spec().insert(
                            crate::text::trim_spec(s@),
                            node.result@,
                        ),
                        None => final(self).heap_spec() == old(self).heap_spec(),
                    }
                }),
                Err(e) => !(e is Transport) && !(e is FileRead) && !(e is UnknownMethod),
            },
    {
        let mut runner = self.runners.remove(ri);
        let out = runner.resolve_node(ni, &mut self.heap);
        let ghost rg = runner;
        self.runners.insert(ri, runner);
        proof {
            crate::runner::reinsert_stack_facts(
                old(self).runners_spec(),
                self.runners@,
                ri as int,
                rg,
            );
        }
        out
    }

    /// Completes node `ni` of runner `ri` with the response text; see
    /// [`Runner::complete_node`].
    pub fn complete_node(self: &mut Self, ri: usize, ni: usize, response: String) -> (r: Result<
        (),
        RunError,
    >)
        requires
            old(self).wf(),
            ri < old(self).runners_spec().len(),
            ni < old(self).runners_spec()[ri as int].nodes@.len(),
        ensures
            final(self).wf(),
            final(self).cursor() == old(self).cursor(),
            final(self).runners_spec().len() == old(self).runners_spec().len(),
            forall|i: int|
                0 <= i < old(self).runners_spec().len() && i != ri ==> final(self).runners_spec()[i]
                    == #[trigger] old(self).runners_spec()[i],
            r is Err ==> ({
                let r0 = old(self).runners_spec()[ri as int];
                let r1 = final(self).runners_spec()[ri as int];
                final(self).heap_spec() == old(self).heap_spec() && r1.nodes@ == r0.nodes@
                    && r1.result == r0.result
            }),
            ({
                let sel = old(self).runners_spec()[ri as int].nodes@[ni as int].node.result_selector@;
                let is_root = old(self).runners_spec()[ri as int].nodes@[ni as int].node.depth
                    == 0;
                match selection(sel, response@, !is_root, is_root) {
                    Ok(s) => ({
                        let fr = final(self).runners_spec()[ri as int].nodes@[ni as int].node.result@;
                        r is Ok && fr == s
                    }),
                    Err(no_match) => r is Err && (no_match ==> r.unwrap_err() is SelectorNoMatch)
                        && (!no_match ==> r.unwrap_err() is SelectorInvalid),
                }
            }),
            match r {
                Ok(()) => ({
                    let node = final(self).runners_spec()[ri as int].nodes@[ni as int].node;
                    &&& (node.result_selector@.len() == 0 ==> node.result@ == response@)
                    &&& match node.save_as {
                        Some(s) => final(self).heap_spec() == old(self).heap_spec().insert(
                            crate::text::trim_spec(s@),
                            node.result@,
                        ),
                        None => final(self).heap_spec() == old(self).heap_spec(),
                    }
                    &&& (node.depth == 0 ==> final(self).runners_spec()[ri as int].result == Some(
                        node.result,
                    ))
                }),
                Err(e) => (e is SelectorInvalid || e is SelectorNoMatch) && final(self).heap_spec()
                    == old(self).heap_spec(),
            },
    {
        let mut runner = self.runners.remove(ri);
        let out = runner.complete_node(ni, response, &mut self.heap);
        let ghost rg = runner;
        self.runners.insert(ri, runner);
        proof {
            crate::runner::reinsert_stack_facts(
                old(self).runners_spec(),
                self.runners@,
                ri as int,
                rg,
            );
        }
        out
    }

    /// The shared heap.
    pub fn heap(self: &Self) -> (r: &Heap)
        requires
            self.wf(),
        ensures
            r@ == self.heap_spec(),
            r.inv(),
    {
        &self.heap
    }

    /// Whether runner `ri` was compiled in verbose mode.
    pub fn runner_verbose(self: &Self, ri: usize) -> (r: bool)
        requires
            ri < self.runners_spec().len(),
        ensures
            r == self.runners_spec()[ri as int].log_info,
    {
        self.runners[ri].log_info
    }

    /// Reads a saved variable straight from the shared heap.
    pub fn heap_get(self: &Self, name: &String) -> (r: Option<String>)
        requires
            self.wf(),
        ensures
            match r {
                Some(v) => self.heap_spec().contains_key(name@) && v@ == self.heap_spec()[name@],
                None => !self.heap_spec().contains_key(name@),
            },
    {
        self.heap.get(name)
    }
}

} // verus!
