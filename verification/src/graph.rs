//! The graph of one function, and what makes it a consistent picture of
//! that function.

use crate::ir::{FunctionHandle, FunctionView};
use crate::node::{IdTracker, Node, NodeType};
use std::collections::HashMap;
use vstd::prelude::*;

verus! {

/// The graph of one function: its nodes and links, the allocator of its pin
/// namespace, and the output pin of each expression that was projected.
///
/// A link is `(pin, pin, is_control_flow)`.
#[derive(Clone, Debug, PartialEq, Eq)]
pub struct FunctionData {
    pub handle: FunctionHandle,
    pub nodes: Vec<Node>,
    pub links: Vec<(usize, usize, bool)>,
    pub pin_tracker: IdTracker,
    pub expression_to_pin: HashMap<usize, usize>,
}

/// The mathematical content of a [`FunctionData`].
#[verifier::ext_equal]
pub struct FunctionDataView {
    pub handle: FunctionHandle,
    pub nodes: Seq<Node>,
    pub links: Seq<(usize, usize, bool)>,
    /// The first pin that was never handed out.
    pub next_pin: nat,
    pub expression_to_pin: Map<usize, usize>,
}

impl View for FunctionData {
    type V = FunctionDataView;

    open spec fn view(&self) -> FunctionDataView {
        FunctionDataView {
            handle: self.handle,
            nodes: self.nodes@,
            links: self.links@,
            next_pin: self.pin_tracker@,
            expression_to_pin: self.expression_to_pin@,
        }
    }
}

impl FunctionDataView {
    /// The first pin after the block of node `k`.
    pub open spec fn block_end(self, f: FunctionView, k: int) -> int {
        self.nodes[k].base_pin + self.nodes[k].ty.pins(f).unwrap()
    }

    /// Every node stands for something in `f`; the blocks of the nodes lie
    /// in node order without overlap, all below the allocator's cursor.
    pub open spec fn nodes_wf(self, f: FunctionView) -> bool {
        &&& forall|k: int| 0 <= k < self.nodes.len() ==> (#[trigger] self.nodes[k]).ty.pins(f) is Some
        &&& forall|k: int| 0 <= k < self.nodes.len() ==> #[trigger] self.block_end(f, k) <= self.next_pin
        &&& forall|i: int, j: int|
            0 <= i < j < self.nodes.len() ==> #[trigger] self.block_end(f, i) <= (
            #[trigger] self.nodes[j]).base_pin
    }

    /// A link may run from `out_pin` of node `from` to `in_pin` of node
    /// `to`: the first is the output of `from`, the second an input of `to`
    /// that takes what `from` gives.
    pub open spec fn admits_link(
        self,
        f: FunctionView,
        from: int,
        out_pin: int,
        to: int,
        in_pin: int,
    ) -> bool {
        &&& 0 <= from < self.nodes.len()
        &&& 0 <= to < self.nodes.len()
        &&& self.nodes[from].output_pin(f) == Some(out_pin)
        &&& self.nodes[from].ty.payload() matches Some(update)
        &&& self.nodes[to].admits(f, in_pin, update)
    }

    /// Such a link, with `control_flow` saying whether it carries the
    /// sequencing signal.
    pub open spec fn carries(
        self,
        f: FunctionView,
        from: int,
        out_pin: int,
        to: int,
        in_pin: int,
        control_flow: bool,
    ) -> bool {
        &&& self.admits_link(f, from, out_pin, to, in_pin)
        &&& self.nodes[from].ty.payload() matches Some(update)
        &&& control_flow == update.is_control_flow()
    }

    /// The link joins the output of node `from` and an input of node `to`,
    /// in either order of its two pins.
    pub open spec fn link_joins(
        self,
        f: FunctionView,
        link: (usize, usize, bool),
        from: int,
        to: int,
    ) -> bool {
        ||| self.carries(f, from, link.0 as int, to, link.1 as int, link.2)
        ||| self.carries(f, from, link.1 as int, to, link.0 as int, link.2)
    }

    /// The link joins the output of one node of this graph and a compatible
    /// input of one node of this graph.
    pub open spec fn link_wf(self, f: FunctionView, link: (usize, usize, bool)) -> bool {
        exists|from: int, to: int| #[trigger] self.link_joins(f, link, from, to)
    }

    /// Every link of the graph is such a link.
    pub open spec fn links_wf(self, f: FunctionView) -> bool {
        forall|l: int| 0 <= l < self.links.len() ==> #[trigger] self.link_wf(f, self.links[l])
    }

    /// Every expression in the lookup is the node at its own position, and
    /// is mapped to that node's output pin.
    pub open spec fn lookup_wf(self, f: FunctionView) -> bool {
        forall|h: usize| #[trigger]
            self.expression_to_pin.contains_key(h) ==> {
                &&& h < self.nodes.len()
                &&& self.nodes[h as int].ty == NodeType::Expression(h)
                &&& self.nodes[h as int].output_pin(f) == Some(self.expression_to_pin[h] as int)
            }
    }

    /// The graph is a consistent picture of `f`.
    pub open spec fn wf(self, f: FunctionView) -> bool {
        &&& self.next_pin <= usize::MAX
        &&& self.nodes_wf(f)
        &&& self.links_wf(f)
        &&& self.lookup_wf(f)
    }

    /// The link runs from an input of one node to the output of a node that
    /// stands earlier in the node list, and carries a value.
    pub open spec fn resolves_earlier(self, f: FunctionView, link: (usize, usize, bool)) -> bool {
        exists|from: int, to: int|
            from < to && !link.2 && #[trigger] self.carries(
                f,
                from,
                link.1 as int,
                to,
                link.0 as int,
                link.2,
            )
    }

    /// In a consistent graph no pin belongs to two nodes.
    pub proof fn lemma_blocks_disjoint(self, f: FunctionView, i: int, j: int, pin: int)
        requires
            self.wf(f),
            0 <= i < self.nodes.len(),
            0 <= j < self.nodes.len(),
            i != j,
            self.nodes[i].owns(f, pin),
        ensures
            !self.nodes[j].owns(f, pin),
    {
        if i < j {
            assert(self.block_end(f, i) <= self.nodes[j].base_pin);
        } else {
            assert(self.block_end(f, j) <= self.nodes[i].base_pin);
        }
    }

    /// In a consistent graph both pins of every link belong to nodes of
    /// that same graph.
    pub proof fn lemma_link_pins_owned(self, f: FunctionView, l: int)
        requires
            self.wf(f),
            0 <= l < self.links.len(),
        ensures
            exists|a: int|
                0 <= a < self.nodes.len() && (#[trigger] self.nodes[a]).owns(
                    f,
                    self.links[l].0 as int,
                ),
            exists|b: int|
                0 <= b < self.nodes.len() && (#[trigger] self.nodes[b]).owns(
                    f,
                    self.links[l].1 as int,
                ),
    {
        let link = self.links[l];
        assert(self.link_wf(f, link));
        let (from, to) = choose|from: int, to: int| #[trigger] self.link_joins(f, link, from, to);
        // `from` owns the link's output pin, `to` its input pin.
        self.nodes[from].ty.lemma_roles(f);
        self.nodes[to].ty.lemma_roles(f);
    }

    /// A consistent graph stays consistent while the function keeps its
    /// layout.
    pub proof fn lemma_wf_stable(self, before: FunctionView, after: FunctionView)
        requires
            self.wf(before),
            after.extends(before),
        ensures
            self.wf(after),
    {
        assert forall|k: int| 0 <= k < self.nodes.len() implies (#[trigger] self.nodes[k]).ty.pins(
            after,
        ) == self.nodes[k].ty.pins(before) && self.nodes[k].ty.output_offset(after)
            == self.nodes[k].ty.output_offset(before) && (forall|offset: int|
            self.nodes[k].ty.role_at(after, offset) == self.nodes[k].ty.role_at(before, offset)) by {
            self.nodes[k].ty.lemma_layout_stable(before, after);
        }
        assert(self.nodes_wf(after)) by {
            assert forall|k: int| 0 <= k < self.nodes.len() implies #[trigger] self.block_end(
                after,
                k,
            ) <= self.next_pin by {
                assert(self.block_end(before, k) <= self.next_pin);
            }
            assert forall|i: int, j: int| 0 <= i < j < self.nodes.len() implies #[trigger] self.block_end(
                after,
                i,
            ) <= (#[trigger] self.nodes[j]).base_pin by {
                assert(self.block_end(before, i) <= self.nodes[j].base_pin);
            }
        }
        assert forall|l: int| 0 <= l < self.links.len() implies #[trigger] self.link_wf(
            after,
            self.links[l],
        ) by {
            let link = self.links[l];
            assert(self.link_wf(before, link));
            let (from, to) = choose|from: int, to: int| #[trigger]
                self.link_joins(before, link, from, to);
            assert(self.link_joins(after, link, from, to));
        }
    }

    /// Whether the nodes are laid out well depends on the nodes alone, and
    /// on a cursor that is no lower.
    pub proof fn lemma_nodes_wf_by_nodes(self, other: FunctionDataView, f: FunctionView)
        requires
            self.nodes_wf(f),
            other.nodes == self.nodes,
            other.next_pin >= self.next_pin,
        ensures
            other.nodes_wf(f),
    {
        assert forall|k: int| 0 <= k < other.nodes.len() implies #[trigger] other.block_end(f, k)
            <= other.next_pin by {
            assert(self.block_end(f, k) <= self.next_pin);
        }
        assert forall|i: int, j: int| 0 <= i < j < other.nodes.len() implies #[trigger] other.block_end(
            f,
            i,
        ) <= (#[trigger] other.nodes[j]).base_pin by {
            assert(self.block_end(f, i) <= self.nodes[j].base_pin);
        }
    }

    /// A node whose block starts at the cursor can be appended: the nodes
    /// stay laid out well, with the cursor after the new block.
    pub proof fn lemma_nodes_wf_push(self, other: FunctionDataView, f: FunctionView, node: Node)
        requires
            self.nodes_wf(f),
            node.ty.pins(f) matches Some(n) && other.next_pin == self.next_pin + n,
            node.base_pin == self.next_pin,
            other.nodes == self.nodes.push(node),
        ensures
            other.nodes_wf(f),
    {
        let last = self.nodes.len() as int;
        assert forall|k: int| 0 <= k < other.nodes.len() implies (#[trigger] other.nodes[k]).ty.pins(
            f,
        ) is Some && other.block_end(f, k) <= other.next_pin by {
            if k < last {
                assert(self.nodes[k].ty.pins(f) is Some);
                assert(self.block_end(f, k) <= self.next_pin);
            }
        }
        assert forall|i: int, j: int| 0 <= i < j < other.nodes.len() implies #[trigger] other.block_end(
            f,
            i,
        ) <= (#[trigger] other.nodes[j]).base_pin by {
            assert(self.block_end(f, i) <= self.next_pin);
            if j < last {
                assert(self.block_end(f, i) <= self.nodes[j].base_pin);
            }
        }
    }

    /// Whether a link is well formed depends on the nodes alone.
    pub proof fn lemma_link_wf_by_nodes(
        self,
        other: FunctionDataView,
        f: FunctionView,
        link: (usize, usize, bool),
    )
        requires
            self.link_wf(f, link),
            other.nodes.len() >= self.nodes.len(),
            forall|k: int| 0 <= k < self.nodes.len() ==> other.nodes[k] == self.nodes[k],
        ensures
            other.link_wf(f, link),
    {
        let (from, to) = choose|from: int, to: int| #[trigger] self.link_joins(f, link, from, to);
        assert(other.link_joins(f, link, from, to));
    }
}

} // verus!
