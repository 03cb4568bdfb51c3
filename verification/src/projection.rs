//! The projection of a function into its graph, and what holds of every
//! projected graph.

use crate::error::EditorError;
use crate::graph::{FunctionData, FunctionDataView};
use crate::ir::{Expression, Function, FunctionHandle, FunctionView, Statement};
use crate::node::{IdTracker, Node, NodeType};
use std::collections::HashMap;
use vstd::prelude::*;

verus! {

broadcast use vstd::std_specs::hash::group_hash_axioms;

impl FunctionView {
    /// The node of expression `h`: its block starts after the blocks of the
    /// expressions before it.
    pub open spec fn expression_node(self, h: int) -> Node {
        Node { ty: NodeType::Expression(h as usize), base_pin: self.pins_before(h) as usize }
    }

    /// The nodes of all expressions, in arena order.
    pub open spec fn expression_nodes(self) -> Seq<Node> {
        Seq::new(self.expressions.len(), |h: int| self.expression_node(h))
    }

    /// The one pin of the entry marker: the first after the expressions' pins.
    pub open spec fn start_pin(self) -> nat {
        self.pins_before(self.expressions.len() as int)
    }

    /// The entry marker.
    pub open spec fn start_node(self) -> Node {
        Node { ty: NodeType::Start, base_pin: self.start_pin() as usize }
    }

    /// The first pin of the node of statement `s`, where that is a `Return`.
    pub open spec fn return_base(self, s: int) -> nat {
        self.start_pin() + 1 + self.return_pins_before(s)
    }

    /// The nodes of the `Return`s among the first `n` statements, in body order.
    pub open spec fn return_nodes(self, n: int) -> Seq<Node>
        decreases n,
    {
        if n <= 0 {
            Seq::empty()
        } else if self.body[n - 1] is Return {
            self.return_nodes(n - 1).push(
                Node {
                    ty: NodeType::Return((n - 1) as usize),
                    base_pin: self.return_base(n - 1) as usize,
                },
            )
        } else {
            self.return_nodes(n - 1)
        }
    }

    /// The links of the first `n` expressions: a binary expression is linked
    /// from each of its two inputs to the output of the operand.
    pub open spec fn expression_links(self, n: int) -> Seq<(usize, usize, bool)>
        decreases n,
    {
        if n <= 0 {
            Seq::empty()
        } else {
            match self.expressions[n - 1] {
                Expression::Binary { left, right, .. } => self.expression_links(n - 1).push(
                    (
                        self.pins_before(n - 1) as usize,
                        self.output_pin(left as int) as usize,
                        false,
                    ),
                ).push(
                    (
                        (self.pins_before(n - 1) + 1) as usize,
                        self.output_pin(right as int) as usize,
                        false,
                    ),
                ),
                _ => self.expression_links(n - 1),
            }
        }
    }

    /// The links of the first `n` statements: a `Return` is linked from the
    /// entry marker to its control input and, where it names a value, from
    /// the output of that expression to its value input.
    pub open spec fn statement_links(self, n: int) -> Seq<(usize, usize, bool)>
        decreases n,
    {
        if n <= 0 {
            Seq::empty()
        } else {
            match self.body[n - 1] {
                Statement::Return { value } => {
                    let control = self.statement_links(n - 1).push(
                        (self.start_pin() as usize, self.return_base(n - 1) as usize, true),
                    );
                    match value {
                        Some(h) => control.push(
                            (
                                self.output_pin(h as int) as usize,
                                (self.return_base(n - 1) + 1) as usize,
                                false,
                            ),
                        ),
                        None => control,
                    }
                },
                _ => self.statement_links(n - 1),
            }
        }
    }

    /// The graph of this function: the nodes of its expressions in arena
    /// order, the entry marker, the nodes of its `Return`s in body order; the
    /// links of the expressions, then those of the statements; each
    /// expression mapped to its output pin.
    pub open spec fn projection(self, handle: FunctionHandle) -> FunctionDataView {
        FunctionDataView {
            handle,
            nodes: self.expression_nodes().push(self.start_node()) + self.return_nodes(
                self.body.len() as int,
            ),
            links: self.expression_links(self.expressions.len() as int) + self.statement_links(
                self.body.len() as int,
            ),
            next_pin: self.total_pins(),
            expression_to_pin: Map::new(
                |h: usize| h < self.expressions.len(),
                |h: usize| self.output_pin(h as int) as usize,
            ),
        }
    }
}

/// Exactly one of the nodes stands for `ty`.
pub open spec fn occurs_once(nodes: Seq<Node>, ty: NodeType) -> bool {
    exists|k: int|
        0 <= k < nodes.len() && (#[trigger] nodes[k]).ty == ty && forall|j: int|
            0 <= j < nodes.len() && (#[trigger] nodes[j]).ty == ty ==> j == k
}

impl FunctionData {
    /// Projects `function` into its graph.
    ///
    /// One pass over the arena gives each expression its block of pins and
    /// links each binary expression to its operands; the entry marker
    /// follows; one pass over the body gives each `Return` its block and its
    /// links. `function` is only read.
    ///
    /// Fails with `Unsupported` exactly where `function` is not projectable.
    pub fn project(handle: FunctionHandle, function: &Function) -> (projected: Result<
        FunctionData,
        EditorError,
    >)
        requires
            function@.total_pins() <= usize::MAX,
        ensures
            match projected {
                Ok(data) => function@.projectable() && data@ == function@.projection(handle),
                Err(e) => e == EditorError::Unsupported && !function@.projectable(),
            },
    {
        let ghost f = function@;
        let mut nodes: Vec<Node> = Vec::with_capacity(function.expressions.len());
        let mut links: Vec<(usize, usize, bool)> = Vec::new();
        let mut expression_to_pin: HashMap<usize, usize> = HashMap::with_capacity(
            function.expressions.len(),
        );
        let mut pin_tracker = IdTracker::new();

        let mut h: usize = 0;
        while h < function.expressions.len()
            invariant
                f == function@,
                f.total_pins() <= usize::MAX,
                h <= f.expressions.len(),
                forall|i: int| 0 <= i < h ==> #[trigger] f.expression_projectable(i),
                nodes@ == Seq::new(h as nat, |i: int| f.expression_node(i)),
                links@ == f.expression_links(h as int),
                pin_tracker@ == f.pins_before(h as int),
                expression_to_pin@ == Map::new(
                    |k: usize| k < h,
                    |k: usize| f.output_pin(k as int) as usize,
                ),
            decreases f.expressions.len() - h,
        {
            let ty = NodeType::Expression(h);
            let pin_count: usize = match ty.pin_count(function) {
                Ok(count) => count,
                Err(e) => {
                    assert(!f.expression_projectable(h as int));
                    return Err(e);
                },
            };
            proof {
                f.lemma_pins_before_monotonic(h + 1, f.expressions.len() as int);
            }
            let base_pin: usize = pin_tracker.reserve(pin_count);
            match function.expressions[h] {
                Expression::Binary { left, right, .. } => {
                    let left_pin: usize = match expression_to_pin.get(&left) {
                        Some(pin) => *pin,
                        None => {
                            assert(!f.expression_projectable(h as int));
                            return Err(EditorError::Unsupported);
                        },
                    };
                    let right_pin: usize = match expression_to_pin.get(&right) {
                        Some(pin) => *pin,
                        None => {
                            assert(!f.expression_projectable(h as int));
                            return Err(EditorError::Unsupported);
                        },
                    };
                    links.push((base_pin, left_pin, false));
                    links.push((base_pin + 1, right_pin, false));
                },
                _ => {},
            }
            expression_to_pin.insert(h, base_pin + pin_count - 1);
            nodes.push(Node { ty, base_pin });
            proof {
                assert(expression_to_pin@ =~= Map::new(
                    |k: usize| k < h + 1,
                    |k: usize| f.output_pin(k as int) as usize,
                ));
            }
            h += 1;
        }

        proof {
            f.lemma_return_pins_before_monotonic(0, f.body.len() as int);
        }
        let last_link: usize = pin_tracker.reserve(1);
        nodes.push(Node { ty: NodeType::Start, base_pin: last_link });

        let mut s: usize = 0;
        while s < function.body.len()
            invariant
                f == function@,
                f.total_pins() <= usize::MAX,
                s <= f.body.len(),
                last_link == f.start_pin(),
                forall|i: int| 0 <= i < s ==> #[trigger] f.statement_projectable(i),
                nodes@ == f.expression_nodes().push(f.start_node()) + f.return_nodes(s as int),
                links@ == f.expression_links(f.expressions.len() as int) + f.statement_links(
                    s as int,
                ),
                pin_tracker@ == f.return_base(s as int),
                expression_to_pin@ == Map::new(
                    |k: usize| k < f.expressions.len(),
                    |k: usize| f.output_pin(k as int) as usize,
                ),
            decreases f.body.len() - s,
        {
            match function.body[s] {
                Statement::Emit => {},
                Statement::Return { value } => {
                    let ty = NodeType::Return(s);
                    let pin_count: usize = if function.has_result {
                        2
                    } else {
                        1
                    };
                    proof {
                        f.lemma_return_pins_before_monotonic(s + 1, f.body.len() as int);
                    }
                    let operand: Option<usize> = match value {
                        Some(expr) => {
                            if !function.has_result {
                                assert(!f.statement_projectable(s as int));
                                return Err(EditorError::Unsupported);
                            }
                            match expression_to_pin.get(&expr) {
                                Some(pin) => Some(*pin),
                                None => {
                                    assert(!f.statement_projectable(s as int));
                                    return Err(EditorError::Unsupported);
                                },
                            }
                        },
                        None => None,
                    };
                    let base_pin: usize = pin_tracker.reserve(pin_count);
                    nodes.push(Node { ty, base_pin });
                    links.push((last_link, base_pin, true));
                    if let Some(res_pin) = operand {
                        links.push((res_pin, base_pin + 1, false));
                    }
                    proof {
                        assert(nodes@ =~= f.expression_nodes().push(f.start_node())
                            + f.return_nodes(s + 1));
                        assert(links@ =~= f.expression_links(f.expressions.len() as int)
                            + f.statement_links(s + 1));
                    }
                },
                Statement::Unsupported(_) => {
                    assert(!f.statement_projectable(s as int));
                    return Err(EditorError::Unsupported);
                },
            }
            s += 1;
        }

        Ok(FunctionData { handle, nodes, links, pin_tracker, expression_to_pin })
    }
}

impl FunctionView {
    /// The position, among the projected nodes, of the node of statement `s`.
    pub open spec fn return_position(self, s: int) -> int {
        (self.expressions.len() + 1 + self.returns_before(s)) as int
    }

    /// The `Return` nodes of a prefix of the body: one for each `Return`, in
    /// body order, each standing at its statement's base pin.
    pub proof fn lemma_return_nodes(self, n: int)
        requires
            0 <= n <= self.body.len(),
            self.fits(),
        ensures
            self.return_nodes(n).len() == self.returns_before(n),
            forall|k: int|
                0 <= k < self.return_nodes(n).len() ==> {
                    let node = #[trigger] self.return_nodes(n)[k];
                    &&& node.ty matches NodeType::Return(s)
                    &&& s < n
                    &&& self.body[s as int] is Return
                    &&& self.returns_before(s as int) == k
                    &&& node.base_pin == self.return_base(s as int) as usize
                },
            forall|s: int|
                0 <= s < n && self.body[s] is Return ==> {
                    &&& 0 <= #[trigger] self.returns_before(s) < self.return_nodes(n).len()
                    &&& self.return_nodes(n)[self.returns_before(s) as int] == Node {
                        ty: NodeType::Return(s as usize),
                        base_pin: self.return_base(s) as usize,
                    }
                },
        decreases n,
    {
        if n > 0 {
            self.lemma_return_nodes(n - 1);
            self.lemma_bases_fit();
            assert forall|s: int| 0 <= s < n && self.body[s] is Return implies {
                &&& 0 <= #[trigger] self.returns_before(s) < self.return_nodes(n).len()
                &&& self.return_nodes(n)[self.returns_before(s) as int] == Node {
                    ty: NodeType::Return(s as usize),
                    base_pin: self.return_base(s) as usize,
                }
            } by {
                self.lemma_returns_before_monotonic(s + 1, n);
            }
        }
    }

    /// Where the projection fits the pin space, so does every block in it.
    pub proof fn lemma_bases_fit(self)
        requires
            self.fits(),
        ensures
            forall|h: int|
                0 <= h <= self.expressions.len() ==> #[trigger] self.pins_before(h)
                    <= self.start_pin(),
            forall|s: int|
                0 <= s <= self.body.len() ==> #[trigger] self.return_base(s) <= self.total_pins(),
            self.start_pin() < self.total_pins(),
    {
        assert forall|h: int| 0 <= h <= self.expressions.len() implies #[trigger] self.pins_before(
            h,
        ) <= self.start_pin() by {
            self.lemma_pins_before_monotonic(h, self.expressions.len() as int);
        }
        assert forall|s: int| 0 <= s <= self.body.len() implies #[trigger] self.return_base(s)
            <= self.total_pins() by {
            self.lemma_return_pins_before_monotonic(s, self.body.len() as int);
        }
    }

    /// The nodes of the projection, position by position: the expressions
    /// in arena order, the entry marker, the `Return`s in body order.
    pub proof fn lemma_projection_nodes(self, handle: FunctionHandle)
        requires
            self.fits(),
        ensures
            self.projection(handle).nodes.len() == self.expressions.len() + 1
                + self.returns_before(self.body.len() as int),
            forall|h: int|
                0 <= h < self.expressions.len() ==> #[trigger] self.projection(handle).nodes[h]
                    == self.expression_node(h),
            self.projection(handle).nodes[self.expressions.len() as int] == self.start_node(),
            forall|k: int|
                self.expressions.len() < k < self.projection(handle).nodes.len() ==> {
                    let node = #[trigger] self.projection(handle).nodes[k];
                    &&& node.ty matches NodeType::Return(s)
                    &&& s < self.body.len()
                    &&& self.body[s as int] is Return
                    &&& self.return_position(s as int) == k
                    &&& node.base_pin == self.return_base(s as int)
                },
            forall|s: int|
                0 <= s < self.body.len() && self.body[s] is Return ==> {
                    &&& self.expressions.len() < #[trigger] self.return_position(s)
                        < self.projection(handle).nodes.len()
                    &&& self.projection(handle).nodes[self.return_position(s)] == Node {
                        ty: NodeType::Return(s as usize),
                        base_pin: self.return_base(s) as usize,
                    }
                },
    {
        self.lemma_return_nodes(self.body.len() as int);
        self.lemma_bases_fit();
    }

    /// In the projection of a projectable function every node owns a block
    /// of pins, and the blocks lie in node order without overlap, all below
    /// the allocator's cursor.
    pub proof fn lemma_projection_blocks(self, handle: FunctionHandle)
        requires
            self.fits(),
            self.projectable(),
        ensures
            self.projection(handle).nodes_wf(self),
    {
        let g = self.projection(handle);
        let n = self.expressions.len() as int;
        let m = self.body.len() as int;
        self.lemma_projection_nodes(handle);
        self.lemma_bases_fit();
        // The block of node `k` in terms of the function alone.
        assert forall|k: int| 0 <= k < g.nodes.len() implies {
            &&& (#[trigger] g.nodes[k]).ty.pins(self) is Some
            &&& k < n ==> g.nodes[k].base_pin == self.pins_before(k) && g.block_end(self, k)
                == self.pins_before(k + 1)
            &&& k == n ==> g.nodes[k].base_pin == self.start_pin() && g.block_end(self, k)
                == self.start_pin() + 1
            &&& k > n ==> exists|s: int|
                0 <= s < m && self.body[s] is Return && #[trigger] self.return_position(s) == k
                    && g.nodes[k].base_pin == self.return_base(s) && g.block_end(self, k)
                    == self.return_base(s + 1)
        } by {
            if k < n {
                assert(self.expression_projectable(k));
            } else if k > n {
                let s = g.nodes[k].ty->Return_0 as int;
                assert(self.return_position(s) == k);
            }
        }
        assert forall|k: int| 0 <= k < g.nodes.len() implies #[trigger] g.block_end(self, k)
            <= g.next_pin by {
            if k < n {
                self.lemma_pins_before_monotonic(k + 1, n);
            } else if k > n {
                let s = choose|s: int|
                    0 <= s < m && self.body[s] is Return && #[trigger] self.return_position(s) == k
                        && g.nodes[k].base_pin == self.return_base(s) && g.block_end(self, k)
                        == self.return_base(s + 1);
                self.lemma_return_pins_before_monotonic(s + 1, m);
            }
        }
        assert forall|i: int, j: int| 0 <= i < j < g.nodes.len() implies #[trigger] g.block_end(
            self,
            i,
        ) <= (#[trigger] g.nodes[j]).base_pin by {
            if j < n {
                self.lemma_pins_before_monotonic(i + 1, j);
            } else if j == n {
                self.lemma_pins_before_monotonic(i + 1, n);
            } else {
                let t = choose|t: int|
                    0 <= t < m && self.body[t] is Return && #[trigger] self.return_position(t) == j
                        && g.nodes[j].base_pin == self.return_base(t) && g.block_end(self, j)
                        == self.return_base(t + 1);
                if i < n {
                    self.lemma_pins_before_monotonic(i + 1, n);
                } else if i > n {
                    let s = choose|s: int|
                        0 <= s < m && self.body[s] is Return && #[trigger] self.return_position(s)
                            == i && g.nodes[i].base_pin == self.return_base(s) && g.block_end(
                            self,
                            i,
                        ) == self.return_base(s + 1);
                    if s >= t {
                        self.lemma_returns_before_monotonic(t, s);
                    }
                    self.lemma_return_pins_before_monotonic(s + 1, t);
                }
            }
        }
    }

    /// Every link of the expression pass ends at the output of a node that
    /// is already in the node list when the link is made.
    pub proof fn lemma_expression_links(self, handle: FunctionHandle, n: int)
        requires
            self.fits(),
            self.projectable(),
            0 <= n <= self.expressions.len(),
        ensures
            forall|l: int|
                0 <= l < self.expression_links(n).len() ==> #[trigger] self.projection(
                    handle,
                ).resolves_earlier(self, self.expression_links(n)[l]),
        decreases n,
    {
        if n > 0 {
            let g = self.projection(handle);
            let to = n - 1;
            self.lemma_expression_links(handle, n - 1);
            self.lemma_projection_nodes(handle);
            self.lemma_bases_fit();
            assert(self.expression_projectable(to));
            match self.expressions[to] {
                Expression::Binary { left, right, .. } => {
                    let first = (
                        self.pins_before(to) as usize,
                        self.output_pin(left as int) as usize,
                        false,
                    );
                    let second = (
                        (self.pins_before(to) + 1) as usize,
                        self.output_pin(right as int) as usize,
                        false,
                    );
                    assert(self.expression_projectable(left as int));
                    assert(self.expression_projectable(right as int));
                    self.lemma_pins_before_monotonic(left + 1, n);
                    self.lemma_pins_before_monotonic(right + 1, n);
                    self.lemma_pins_before_monotonic(n, self.expressions.len() as int);
                    assert(left < to && !first.2 && g.carries(
                        self,
                        left as int,
                        first.1 as int,
                        to,
                        first.0 as int,
                        first.2,
                    ));
                    assert(right < to && !second.2 && g.carries(
                        self,
                        right as int,
                        second.1 as int,
                        to,
                        second.0 as int,
                        second.2,
                    ));
                },
                _ => {},
            }
            let before = self.expression_links(n - 1);
            assert forall|l: int| 0 <= l < self.expression_links(n).len() implies #[trigger] g.resolves_earlier(
                self,
                self.expression_links(n)[l],
            ) by {
                if l < before.len() {
                    assert(self.expression_links(n)[l] == before[l]);
                }
            }
        }
    }

    /// Where a function is projectable, every operand link of its
    /// projection runs from an input of a binary expression's node to the
    /// output of a node that stands earlier in the node list.
    pub proof fn lemma_operands_resolve_earlier(self, handle: FunctionHandle)
        requires
            self.fits(),
            self.projectable(),
        ensures
            forall|l: int|
                0 <= l < self.expression_links(self.expressions.len() as int).len()
                    ==> #[trigger] self.projection(handle).resolves_earlier(
                    self,
                    self.projection(handle).links[l],
                ),
    {
        self.lemma_expression_links(handle, self.expressions.len() as int);
    }

    /// Every link of the statement pass joins the output of one node and a
    /// compatible input of a `Return` node.
    pub proof fn lemma_statement_links(self, handle: FunctionHandle, n: int)
        requires
            self.fits(),
            self.projectable(),
            0 <= n <= self.body.len(),
        ensures
            forall|l: int|
                0 <= l < self.statement_links(n).len() ==> #[trigger] self.projection(
                    handle,
                ).link_wf(self, self.statement_links(n)[l]),
        decreases n,
    {
        if n > 0 {
            let g = self.projection(handle);
            let s = n - 1;
            let start = self.expressions.len() as int;
            self.lemma_statement_links(handle, n - 1);
            self.lemma_projection_nodes(handle);
            self.lemma_bases_fit();
            assert(self.statement_projectable(s));
            match self.body[s] {
                Statement::Return { value } => {
                    let to = self.return_position(s);
                    let control = (
                        self.start_pin() as usize,
                        self.return_base(s) as usize,
                        true,
                    );
                    self.lemma_return_pins_before_monotonic(n, self.body.len() as int);
                    assert(g.link_joins(self, control, start, to));
                    match value {
                        Some(h) => {
                            let data = (
                                self.output_pin(h as int) as usize,
                                (self.return_base(s) + 1) as usize,
                                false,
                            );
                            assert(self.expression_projectable(h as int));
                            self.lemma_pins_before_monotonic(h + 1, start);
                            assert(g.carries(
                                self,
                                h as int,
                                data.0 as int,
                                to,
                                data.1 as int,
                                false,
                            ));
                            assert(g.link_joins(self, data, h as int, to));
                        },
                        None => {},
                    }
                },
                _ => {},
            }
            let before = self.statement_links(n - 1);
            assert forall|l: int| 0 <= l < self.statement_links(n).len() implies #[trigger] g.link_wf(
                self,
                self.statement_links(n)[l],
            ) by {
                if l < before.len() {
                    assert(self.statement_links(n)[l] == before[l]);
                }
            }
        }
    }

    /// The projection of a projectable function is a consistent picture of
    /// it.
    pub proof fn lemma_projection_wf(self, handle: FunctionHandle)
        requires
            self.fits(),
            self.projectable(),
        ensures
            self.projection(handle).wf(self),
    {
        let g = self.projection(handle);
        let n = self.expressions.len() as int;
        let m = self.body.len() as int;
        self.lemma_projection_blocks(handle);
        self.lemma_projection_nodes(handle);
        self.lemma_bases_fit();
        self.lemma_expression_links(handle, n);
        self.lemma_statement_links(handle, m);
        assert forall|l: int| 0 <= l < g.links.len() implies #[trigger] g.link_wf(
            self,
            g.links[l],
        ) by {
            let link = g.links[l];
            if l < self.expression_links(n).len() {
                assert(g.resolves_earlier(self, link));
                let (from, to) = choose|from: int, to: int|
                    from < to && !link.2 && #[trigger] g.carries(
                        self,
                        from,
                        link.1 as int,
                        to,
                        link.0 as int,
                        link.2,
                    );
                assert(g.link_joins(self, link, from, to));
            } else {
                assert(link == self.statement_links(m)[l - self.expression_links(n).len()]);
            }
        }
        assert forall|h: usize| #[trigger] g.expression_to_pin.contains_key(h) implies {
            &&& h < g.nodes.len()
            &&& g.nodes[h as int].ty == NodeType::Expression(h)
            &&& g.nodes[h as int].output_pin(self) == Some(g.expression_to_pin[h] as int)
        } by {
            self.lemma_pins_before_monotonic(h + 1, n);
        }
    }

    /// Projecting a function gives exactly one node to each expression and
    /// to each `Return`, exactly one entry marker and no other node; and no
    /// pin belongs to two nodes.
    pub proof fn lemma_projection_one_node_each(self, handle: FunctionHandle)
        requires
            self.fits(),
            self.projectable(),
        ensures
            self.projection(handle).nodes.len() == self.expressions.len() + 1
                + self.returns_before(self.body.len() as int),
            forall|h: usize|
                h < self.expressions.len() ==> #[trigger] occurs_once(
                    self.projection(handle).nodes,
                    NodeType::Expression(h),
                ),
            occurs_once(self.projection(handle).nodes, NodeType::Start),
            forall|s: usize|
                s < self.body.len() && self.body[s as int] is Return ==> #[trigger] occurs_once(
                    self.projection(handle).nodes,
                    NodeType::Return(s),
                ),
            forall|k: int|
                0 <= k < self.projection(handle).nodes.len() ==> match (
                #[trigger] self.projection(handle).nodes[k]).ty {
                    NodeType::Expression(h) => h < self.expressions.len(),
                    NodeType::Return(s) => s < self.body.len() && self.body[s as int] is Return,
                    NodeType::Start => true,
                },
            forall|i: int, j: int, pin: int|
                0 <= i < self.projection(handle).nodes.len() && 0 <= j < self.projection(
                    handle,
                ).nodes.len() && i != j && #[trigger] self.projection(handle).nodes[i].owns(
                    self,
                    pin,
                ) ==> !#[trigger] self.projection(handle).nodes[j].owns(self, pin),
    {
        let g = self.projection(handle);
        let nodes = g.nodes;
        let n = self.expressions.len() as int;
        self.lemma_projection_nodes(handle);
        self.lemma_projection_wf(handle);
        assert forall|h: usize| h < self.expressions.len() implies #[trigger] occurs_once(
            nodes,
            NodeType::Expression(h),
        ) by {
            assert(nodes[h as int] == self.expression_node(h as int));
        }
        assert(occurs_once(nodes, NodeType::Start)) by {
            assert(nodes[n] == self.start_node());
        }
        assert forall|s: usize|
            s < self.body.len() && self.body[s as int] is Return implies #[trigger] occurs_once(
            nodes,
            NodeType::Return(s),
        ) by {
            assert(nodes[self.return_position(s as int)].ty == NodeType::Return(s));
        }
        assert forall|i: int, j: int, pin: int|
            0 <= i < nodes.len() && 0 <= j < nodes.len() && i != j && #[trigger] nodes[i].owns(
                self,
                pin,
            ) implies !#[trigger] nodes[j].owns(self, pin) by {
            g.lemma_blocks_disjoint(self, i, j, pin);
        }
    }
}

} // verus!
