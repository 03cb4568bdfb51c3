//! What an editor is, mathematically: the module, one graph per function,
//! the selection; what each operation makes of it; and what holds of every
//! editor that the operations can reach.

use crate::editor::Interaction;
use crate::error::EditorError;
use crate::graph::FunctionDataView;
use crate::ir::{Expression, ExpressionKind, FunctionView, ModuleView};
use crate::node::{Node, NodeType};
use vstd::prelude::*;

verus! {

/// The mathematical content of an [`Editor`](crate::editor::Editor).
#[verifier::ext_equal]
pub struct EditorView {
    /// One graph per function, then one per entry point.
    pub graphs: Seq<FunctionDataView>,
    pub module: ModuleView,
    /// The position of the active graph.
    pub selected: nat,
}

impl EditorView {
    /// The graph that is shown and edited.
    pub open spec fn active(self) -> FunctionDataView {
        self.graphs[self.selected as int]
    }

    /// The function that the active graph mirrors.
    pub open spec fn active_function(self) -> FunctionView {
        self.module.function(self.active().handle)
    }

    /// The editor with `graph` in place of the active graph.
    pub open spec fn with_active(self, graph: FunctionDataView) -> EditorView {
        EditorView { graphs: self.graphs.update(self.selected as int, graph), ..self }
    }

    /// There is a graph for each function and entry point of the module, in
    /// that order, each a consistent picture of its function; and the
    /// selection is one of them.
    pub open spec fn wf(self) -> bool {
        &&& self.graphs.len() == self.module.len()
        &&& self.graphs.len() <= usize::MAX
        &&& self.selected < self.graphs.len()
        &&& forall|i: int|
            0 <= i < self.graphs.len() ==> {
                &&& (#[trigger] self.graphs[i]).handle == self.module.handle_at(i)
                &&& self.graphs[i].wf(self.module.function(self.module.handle_at(i)))
            }
    }

    /// The editor of a freshly loaded module: every function and entry
    /// point projected, the first of them selected. A module that holds
    /// neither is given one empty function first.
    pub open spec fn loaded(m: ModuleView) -> EditorView {
        let module = if m.len() == 0 {
            ModuleView { functions: seq![FunctionView::empty()], entry_points: m.entry_points }
        } else {
            m
        };
        EditorView {
            graphs: Seq::new(
                module.len(),
                |i: int| module.function(module.handle_at(i)).projection(module.handle_at(i)),
            ),
            module,
            selected: 0,
        }
    }

    /// The editor before any module is loaded.
    pub open spec fn initial() -> EditorView {
        Self::loaded(ModuleView::empty())
    }

    /// The editor after a request to select the graph at `index`.
    pub open spec fn select(self, index: usize) -> EditorView {
        if index < self.graphs.len() {
            EditorView { selected: index as nat, ..self }
        } else {
            self
        }
    }

    /// What becomes of a proposed link from `pin_start` of node `node_start`
    /// to `pin_end` of node `node_end` of the active graph: it is accepted
    /// where `pin_start` is the output of the first node and `pin_end` an
    /// input of the second that takes what the first gives.
    pub open spec fn link_outcome(
        self,
        pin_start: usize,
        node_start: usize,
        pin_end: usize,
        node_end: usize,
    ) -> Result<(), EditorError> {
        if node_start >= self.active().nodes.len() || node_end >= self.active().nodes.len() {
            Err(EditorError::OutOfRange)
        } else if self.active().admits_link(
            self.active_function(),
            node_start as int,
            pin_start as int,
            node_end as int,
            pin_end as int,
        ) {
            Ok(())
        } else {
            Err(EditorError::InvalidTarget)
        }
    }

    /// The editor after that proposal: where it is accepted, the payload is
    /// written into the active function and the link is appended to the
    /// active graph; otherwise nothing changes.
    pub open spec fn propose_link(
        self,
        pin_start: usize,
        node_start: usize,
        pin_end: usize,
        node_end: usize,
    ) -> EditorView {
        if self.link_outcome(pin_start, node_start, pin_end, node_end) is Ok {
            let g = self.active();
            let update = g.nodes[node_start as int].ty.payload().unwrap();
            let f = g.nodes[node_end as int].written(self.active_function(), pin_end as int, update);
            EditorView {
                module: self.module.with_function(g.handle, f),
                graphs: self.graphs.update(
                    self.selected as int,
                    FunctionDataView {
                        links: g.links.push((pin_start, pin_end, update.is_control_flow())),
                        ..g
                    },
                ),
                ..self
            }
        } else {
            self
        }
    }

    /// The editor after a request to remove the link at `index` of the
    /// active graph. The module is not touched.
    pub open spec fn remove_link(self, index: usize) -> EditorView {
        if index < self.active().links.len() {
            self.with_active(
                FunctionDataView { links: self.active().links.remove(index as int), ..self.active() },
            )
        } else {
            self
        }
    }

    /// The active graph and function have room for one more expression of
    /// this kind.
    pub open spec fn can_add(self, kind: ExpressionKind) -> bool {
        &&& self.active().next_pin + kind.spec_expression().pins() <= usize::MAX
        &&& self.active_function().expressions.len() < usize::MAX
    }

    /// The editor after a new expression of this kind was inserted: the
    /// expression stands at the end of the active function's arena, its node
    /// at the end of the active graph's nodes, on freshly reserved pins.
    pub open spec fn add_expression_node(self, kind: ExpressionKind) -> EditorView {
        let g = self.active();
        let f = self.active_function();
        let e = kind.spec_expression();
        EditorView {
            module: self.module.with_function(g.handle, f.with_expression(e)),
            graphs: self.graphs.update(
                self.selected as int,
                FunctionDataView {
                    nodes: g.nodes.push(
                        Node {
                            ty: NodeType::Expression(f.expressions.len() as usize),
                            base_pin: g.next_pin as usize,
                        },
                    ),
                    next_pin: g.next_pin + e.pins(),
                    ..g
                },
            ),
            ..self
        }
    }

    /// The editor after one display pass: the drawn link is proposed, then
    /// the removed link is removed, then the requested node is inserted.
    pub open spec fn show(self, interaction: Interaction) -> EditorView {
        let linked = match interaction.link_created {
            Some((pin_start, node_start, pin_end, node_end)) => self.propose_link(
                pin_start,
                node_start,
                pin_end,
                node_end,
            ),
            None => self,
        };
        let unlinked = match interaction.link_destroyed {
            Some(index) => linked.remove_link(index),
            None => linked,
        };
        match interaction.node_requested {
            Some(kind) => unlinked.add_expression_node(kind),
            None => unlinked,
        }
    }

    /// Replacing the active function leaves every other function in place.
    pub proof fn lemma_other_functions_kept(self, f: FunctionView, i: int)
        requires
            self.wf(),
            0 <= i < self.graphs.len(),
        ensures
            self.module.with_function(self.active().handle, f).len() == self.module.len(),
            self.module.with_function(self.active().handle, f).handle_at(i)
                == self.module.handle_at(i),
            self.module.with_function(self.active().handle, f).function(self.module.handle_at(i))
                == if i == self.selected {
                f
            } else {
                self.module.function(self.module.handle_at(i))
            },
    {
        assert(self.graphs[self.selected as int].handle == self.module.handle_at(
            self.selected as int,
        ));
    }

    /// A freshly loaded editor is well formed.
    pub proof fn lemma_loaded_wf(m: ModuleView)
        requires
            m.fits(),
            m.projectable(),
        ensures
            Self::loaded(m).wf(),
    {
        let e = Self::loaded(m);
        assert forall|i: int| 0 <= i < e.graphs.len() implies {
            &&& (#[trigger] e.graphs[i]).handle == e.module.handle_at(i)
            &&& e.graphs[i].wf(e.module.function(e.module.handle_at(i)))
        } by {
            let handle = e.module.handle_at(i);
            let f = e.module.function(handle);
            if m.len() == 0 {
                assert(f == FunctionView::empty());
                assert(f.total_pins() == 1) by {
                    assert(f.pins_before(0) == 0);
                    assert(f.return_pins_before(0) == 0);
                }
            } else {
                assert(m.function(m.handle_at(i)).fits());
                assert(m.function(m.handle_at(i)).projectable());
            }
            f.lemma_projection_wf(handle);
        }
    }

    /// Selecting keeps the editor well formed.
    pub proof fn lemma_select_wf(self, index: usize)
        requires
            self.wf(),
        ensures
            self.select(index).wf(),
    {
    }

    /// Proposing a link keeps the editor well formed, whether the link is
    /// accepted or not.
    pub proof fn lemma_propose_link_wf(
        self,
        pin_start: usize,
        node_start: usize,
        pin_end: usize,
        node_end: usize,
    )
        requires
            self.wf(),
        ensures
            self.propose_link(pin_start, node_start, pin_end, node_end).wf(),
    {
        if self.link_outcome(pin_start, node_start, pin_end, node_end) is Ok {
            let after = self.propose_link(pin_start, node_start, pin_end, node_end);
            let g = self.active();
            let f = self.active_function();
            let source = g.nodes[node_start as int];
            let target = g.nodes[node_end as int];
            let update = source.ty.payload().unwrap();
            let f2 = target.written(f, pin_end as int, update);
            let g2 = after.graphs[self.selected as int];
            let link = (pin_start, pin_end, update.is_control_flow());
            target.lemma_written_extends(f, pin_end as int, update);
            assert forall|i: int| 0 <= i < after.graphs.len() implies {
                &&& (#[trigger] after.graphs[i]).handle == after.module.handle_at(i)
                &&& after.graphs[i].wf(after.module.function(after.module.handle_at(i)))
            } by {
                self.lemma_other_functions_kept(f2, i);
                if i == self.selected {
                    // The old graph is a picture of the new function too.
                    g.lemma_wf_stable(f, f2);
                    g.lemma_nodes_wf_by_nodes(g2, f2);
                    // So is the old graph with the new link.
                    source.ty.lemma_layout_stable(f, f2);
                    target.ty.lemma_layout_stable(f, f2);
                    assert(g2.link_joins(f2, link, node_start as int, node_end as int));
                    assert forall|l: int| 0 <= l < g2.links.len() implies #[trigger] g2.link_wf(
                        f2,
                        g2.links[l],
                    ) by {
                        if l < g.links.len() {
                            g.lemma_link_wf_by_nodes(g2, f2, g.links[l]);
                        }
                    }
                }
            }
        }
    }

    /// Removing a link keeps the editor well formed.
    pub proof fn lemma_remove_link_wf(self, index: usize)
        requires
            self.wf(),
        ensures
            self.remove_link(index).wf(),
    {
        if index < self.active().links.len() {
            let after = self.remove_link(index);
            let g = self.active();
            let g2 = after.graphs[self.selected as int];
            let f = self.active_function();
            assert forall|i: int| 0 <= i < after.graphs.len() implies {
                &&& (#[trigger] after.graphs[i]).handle == after.module.handle_at(i)
                &&& after.graphs[i].wf(after.module.function(after.module.handle_at(i)))
            } by {
                if i == self.selected {
                    g.lemma_nodes_wf_by_nodes(g2, f);
                    assert forall|l: int| 0 <= l < g2.links.len() implies #[trigger] g2.link_wf(
                        f,
                        g2.links[l],
                    ) by {
                        // Every link that is left was there before.
                        let k = if l < index {
                            l
                        } else {
                            l + 1
                        };
                        assert(g2.links[l] == g.links[k]);
                        g.lemma_link_wf_by_nodes(g2, f, g.links[k]);
                    }
                }
            }
        }
    }

    /// Inserting an expression keeps the editor well formed.
    pub proof fn lemma_add_expression_node_wf(self, kind: ExpressionKind)
        requires
            self.wf(),
            self.can_add(kind),
        ensures
            self.add_expression_node(kind).wf(),
    {
        let after = self.add_expression_node(kind);
        let g = self.active();
        let f = self.active_function();
        let e = kind.spec_expression();
        let f2 = f.with_expression(e);
        let g2 = after.graphs[self.selected as int];
        f.lemma_with_expression_extends(e);
        assert forall|i: int| 0 <= i < after.graphs.len() implies {
            &&& (#[trigger] after.graphs[i]).handle == after.module.handle_at(i)
            &&& after.graphs[i].wf(after.module.function(after.module.handle_at(i)))
        } by {
            self.lemma_other_functions_kept(f2, i);
            if i == self.selected {
                // The old graph is a picture of the longer function too.
                g.lemma_wf_stable(f, f2);
                // The new node owns the pins from the old cursor on.
                g.lemma_nodes_wf_push(g2, f2, g2.nodes[g.nodes.len() as int]);
                assert forall|l: int| 0 <= l < g2.links.len() implies #[trigger] g2.link_wf(
                    f2,
                    g2.links[l],
                ) by {
                    g.lemma_link_wf_by_nodes(g2, f2, g.links[l]);
                }
            }
        }
    }

    /// A link from the output of an expression's node to an operand pin of
    /// a binary expression's node is always accepted, and that operand is
    /// then the source expression; the operator and the other operand stay.
    pub proof fn lemma_operand_link_accepted(
        self,
        pin_start: usize,
        node_start: usize,
        pin_end: usize,
        node_end: usize,
    )
        requires
            self.wf(),
            node_start < self.active().nodes.len(),
            node_end < self.active().nodes.len(),
            self.active().nodes[node_start as int].ty is Expression,
            self.active().nodes[node_start as int].output_pin(self.active_function()) == Some(
                pin_start as int,
            ),
            self.active().nodes[node_end as int].ty matches NodeType::Expression(target)
                && self.active_function().expressions[target as int] is Binary,
            pin_end == self.active().nodes[node_end as int].base_pin || pin_end
                == self.active().nodes[node_end as int].base_pin + 1,
        ensures
            self.link_outcome(pin_start, node_start, pin_end, node_end) is Ok,
            ({
                let source = self.active().nodes[node_start as int].ty->Expression_0;
                let target = self.active().nodes[node_end as int].ty->Expression_0 as int;
                let base = self.active().nodes[node_end as int].base_pin;
                let before = self.active_function().expressions[target];
                let after = self.propose_link(
                    pin_start,
                    node_start,
                    pin_end,
                    node_end,
                ).active_function().expressions[target];
                &&& before matches Expression::Binary { op, left, right }
                &&& pin_end == base ==> after == Expression::Binary { op, left: source, right }
                &&& pin_end == base + 1 ==> after == Expression::Binary { op, left, right: source }
            }),
    {
        let g = self.active();
        let f = self.active_function();
        let update = g.nodes[node_start as int].ty.payload().unwrap();
        let f2 = g.nodes[node_end as int].written(f, pin_end as int, update);
        self.lemma_other_functions_kept(f2, self.selected as int);
    }

    /// A link into a pin that is no input of its node is always declined,
    /// and nothing changes: so is every link into a constant, which has no
    /// input, and every link into an offset beyond a node's block.
    pub proof fn lemma_link_without_slot_rejected(
        self,
        pin_start: usize,
        node_start: usize,
        pin_end: usize,
        node_end: usize,
    )
        requires
            self.wf(),
            node_start < self.active().nodes.len(),
            node_end < self.active().nodes.len(),
            ({
                let node = self.active().nodes[node_end as int];
                ||| node.ty matches NodeType::Expression(target)
                    && self.active_function().expressions[target as int] is Constant
                ||| !node.owns(self.active_function(), pin_end as int)
            }),
        ensures
            self.link_outcome(pin_start, node_start, pin_end, node_end) == Err::<
                (),
                EditorError,
            >(EditorError::InvalidTarget),
            self.propose_link(pin_start, node_start, pin_end, node_end) == self,
    {
        let g = self.active();
        let f = self.active_function();
        g.nodes[node_end as int].ty.lemma_roles(f);
    }

    /// A proposal touches the active graph and the active function alone:
    /// every other graph and every other function stays as it was. And the
    /// two pins of an accepted link belong to nodes of the active graph.
    pub proof fn lemma_propose_link_local(
        self,
        pin_start: usize,
        node_start: usize,
        pin_end: usize,
        node_end: usize,
    )
        requires
            self.wf(),
        ensures
            ({
                let after = self.propose_link(pin_start, node_start, pin_end, node_end);
                &&& after.selected == self.selected
                &&& after.graphs.len() == self.graphs.len()
                &&& forall|i: int|
                    0 <= i < self.graphs.len() && i != self.selected ==> {
                        &&& #[trigger] after.graphs[i] == self.graphs[i]
                        &&& after.module.function(self.module.handle_at(i))
                            == self.module.function(self.module.handle_at(i))
                    }
                &&& self.link_outcome(pin_start, node_start, pin_end, node_end) is Ok ==> {
                    &&& after.active().nodes == self.active().nodes
                    &&& after.active().nodes[node_start as int].owns(
                        after.active_function(),
                        pin_start as int,
                    )
                    &&& after.active().nodes[node_end as int].owns(
                        after.active_function(),
                        pin_end as int,
                    )
                }
            }),
    {
        let after = self.propose_link(pin_start, node_start, pin_end, node_end);
        if self.link_outcome(pin_start, node_start, pin_end, node_end) is Ok {
            let g = self.active();
            let f = self.active_function();
            let update = g.nodes[node_start as int].ty.payload().unwrap();
            let f2 = g.nodes[node_end as int].written(f, pin_end as int, update);
            g.nodes[node_end as int].lemma_written_extends(f, pin_end as int, update);
            g.nodes[node_start as int].ty.lemma_layout_stable(f, f2);
            g.nodes[node_end as int].ty.lemma_layout_stable(f, f2);
            g.nodes[node_end as int].ty.lemma_roles(f);
            assert forall|i: int| 0 <= i < self.graphs.len() && i != self.selected implies {
                &&& #[trigger] after.graphs[i] == self.graphs[i]
                &&& after.module.function(self.module.handle_at(i)) == self.module.function(
                    self.module.handle_at(i),
                )
            } by {
                self.lemma_other_functions_kept(f2, i);
            }
            self.lemma_other_functions_kept(f2, self.selected as int);
        }
    }

    /// Every link of every graph joins two pins that belong to nodes of that
    /// same graph: no link reaches into the pins of another function.
    pub proof fn lemma_links_within_graph(self, i: int, l: int)
        requires
            self.wf(),
            0 <= i < self.graphs.len(),
            0 <= l < self.graphs[i].links.len(),
        ensures
            exists|a: int|
                0 <= a < self.graphs[i].nodes.len() && (#[trigger] self.graphs[i].nodes[a]).owns(
                    self.module.function(self.graphs[i].handle),
                    self.graphs[i].links[l].0 as int,
                ),
            exists|b: int|
                0 <= b < self.graphs[i].nodes.len() && (#[trigger] self.graphs[i].nodes[b]).owns(
                    self.module.function(self.graphs[i].handle),
                    self.graphs[i].links[l].1 as int,
                ),
    {
        let g = self.graphs[i];
        g.lemma_link_pins_owned(self.module.function(self.module.handle_at(i)), l);
    }

    /// One display pass keeps the editor well formed.
    pub proof fn lemma_show_wf(self, interaction: Interaction)
        requires
            self.wf(),
            interaction.node_requested matches Some(kind) ==> self.can_add(kind),
        ensures
            self.show(interaction).wf(),
    {
        let linked = match interaction.link_created {
            Some((pin_start, node_start, pin_end, node_end)) => {
                self.lemma_propose_link_wf(pin_start, node_start, pin_end, node_end);
                self.lemma_propose_link_keeps_room(pin_start, node_start, pin_end, node_end);
                self.propose_link(pin_start, node_start, pin_end, node_end)
            },
            None => self,
        };
        let unlinked = match interaction.link_destroyed {
            Some(index) => {
                linked.lemma_remove_link_wf(index);
                linked.remove_link(index)
            },
            None => linked,
        };
        match interaction.node_requested {
            Some(kind) => {
                unlinked.lemma_add_expression_node_wf(kind);
            },
            None => {},
        }
    }

    /// Proposing a link uses up no pins and no arena positions.
    pub proof fn lemma_propose_link_keeps_room(
        self,
        pin_start: usize,
        node_start: usize,
        pin_end: usize,
        node_end: usize,
    )
        requires
            self.wf(),
        ensures
            self.propose_link(pin_start, node_start, pin_end, node_end).active().next_pin
                == self.active().next_pin,
            self.propose_link(
                pin_start,
                node_start,
                pin_end,
                node_end,
            ).active_function().expressions.len() == self.active_function().expressions.len(),
    {
        if self.link_outcome(pin_start, node_start, pin_end, node_end) is Ok {
            let g = self.active();
            let f = self.active_function();
            let update = g.nodes[node_start as int].ty.payload().unwrap();
            let f2 = g.nodes[node_end as int].written(f, pin_end as int, update);
            g.nodes[node_end as int].lemma_written_extends(f, pin_end as int, update);
            self.lemma_other_functions_kept(f2, self.selected as int);
        }
    }
}

} // verus!
