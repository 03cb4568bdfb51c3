//! The controller: one graph per function of a module, the active
//! selection, and the edits that a user makes to the active graph.

use crate::error::EditorError;
use crate::graph::FunctionData;
use crate::ir::{
    Expression, ExpressionKind, Function, FunctionHandle, FunctionView, Module, ModuleView,
};
use crate::model::EditorView;
use crate::node::{IdTracker, Node, NodeType, Update};
use std::collections::HashMap;
use vstd::prelude::*;

verus! {

/// Mirrors a module as graphs and applies graph edits back onto it.
#[derive(Debug)]
pub struct Editor {
    functions: Vec<FunctionData>,
    module: Module,
    select_function: usize,
}

/// What the presentation layer reports of one display pass.
#[derive(Clone, Copy, Debug, PartialEq, Eq)]
pub struct Interaction {
    /// A link was drawn: `(pin_start, node_start, pin_end, node_end)`.
    pub link_created: Option<(usize, usize, usize, usize)>,
    /// The link at this position of the active graph's links was removed.
    pub link_destroyed: Option<usize>,
    /// A new node of this kind was asked for.
    pub node_requested: Option<ExpressionKind>,
}

impl View for Editor {
    type V = EditorView;

    closed spec fn view(&self) -> EditorView {
        EditorView {
            graphs: Seq::new(self.functions@.len(), |i: int| self.functions@[i]@),
            module: self.module@,
            selected: self.select_function as nat,
        }
    }
}

impl Editor {
    /// The editor's invariant holds.
    pub open spec fn wf(&self) -> bool {
        self@.wf()
    }

    /// An editor over a module of one empty function.
    pub fn new() -> (editor: Self)
        ensures
            editor.wf(),
            editor@ == EditorView::initial(),
    {
        let mut editor = Editor {
            functions: Vec::new(),
            module: Module::new(),
            select_function: 0,
        };
        editor.add_function();
        proof {
            EditorView::lemma_loaded_wf(ModuleView::empty());
        }
        editor
    }

    /// The module as the edits so far have left it.
    pub fn module(&self) -> (module: &Module)
        ensures
            module@ == self@.module,
    {
        &self.module
    }

    /// The graphs, one per function and then one per entry point.
    pub fn functions(&self) -> (functions: &Vec<FunctionData>)
        ensures
            functions@.len() == self@.graphs.len(),
            forall|i: int| 0 <= i < functions@.len() ==> (#[trigger] functions@[i])@ == self@.graphs[i],
    {
        &self.functions
    }

    /// The position of the active graph.
    pub fn selected(&self) -> (selected: usize)
        ensures
            selected == self@.selected,
    {
        self.select_function
    }

    /// Replaces the module: every function and every entry point is
    /// projected anew and the first graph is selected. A module that holds
    /// neither is given one empty function first.
    ///
    /// Fails with `Unsupported` exactly where some function or entry point
    /// is not projectable; the editor is then left as it was.
    pub fn load_module(&mut self, module: Module) -> (loaded: Result<(), EditorError>)
        requires
            old(self).wf(),
            module@.fits(),
        ensures
            final(self).wf(),
            match loaded {
                Ok(()) => module@.projectable() && final(self)@ == EditorView::loaded(module@),
                Err(e) => e == EditorError::Unsupported && !module@.projectable() && final(self)@
                    == old(self)@,
            },
    {
        let ghost m = module@;
        let mut functions: Vec<FunctionData> = Vec::new();
        let mut i: usize = 0;
        while i < module.functions.len()
            invariant
                self@ == old(self)@,
                self.wf(),
                m == module@,
                m.fits(),
                i <= m.functions.len(),
                functions@.len() == i,
                forall|k: int|
                    0 <= k < i ==> {
                        &&& #[trigger] m.function(m.handle_at(k)).projectable()
                        &&& functions@[k]@ == m.function(m.handle_at(k)).projection(m.handle_at(k))
                    },
            decreases m.functions.len() - i,
        {
            let handle = FunctionHandle::Function(i);
            assert(m.function(m.handle_at(i as int)).fits());
            match Self::process_function(&mut functions, handle, &module.functions[i]) {
                Ok(()) => {},
                Err(e) => {
                    return Err(e);
                },
            }
            i += 1;
        }
        let mut j: usize = 0;
        while j < module.entry_points.len()
            invariant
                self@ == old(self)@,
                self.wf(),
                m == module@,
                m.fits(),
                j <= m.entry_points.len(),
                functions@.len() == m.functions.len() + j,
                forall|k: int|
                    0 <= k < m.functions.len() + j ==> {
                        &&& #[trigger] m.function(m.handle_at(k)).projectable()
                        &&& functions@[k]@ == m.function(m.handle_at(k)).projection(m.handle_at(k))
                    },
            decreases m.entry_points.len() - j,
        {
            let handle = FunctionHandle::EntryPoint(j);
            assert(m.function(m.handle_at(m.functions.len() + j)).fits());
            match Self::process_function(&mut functions, handle, &module.entry_points[j]) {
                Ok(()) => {},
                Err(e) => {
                    return Err(e);
                },
            }
            j += 1;
        }
        assert(m.projectable());
        self.functions = functions;
        self.select_function = 0;
        self.module = module;
        if self.functions.len() == 0 {
            self.add_function();
        } else {
            proof {
                let loaded = EditorView::loaded(m);
                assert forall|k: int| 0 <= k < m.len() implies #[trigger] self@.graphs[k]
                    == loaded.graphs[k] by {
                    assert(m.function(m.handle_at(k)).projectable());
                }
            }
        }
        proof {
            EditorView::lemma_loaded_wf(m);
        }
        Ok(())
    }

    /// Projects `function` and appends its graph to `functions`.
    fn process_function(
        functions: &mut Vec<FunctionData>,
        handle: FunctionHandle,
        function: &Function,
    ) -> (processed: Result<(), EditorError>)
        requires
            function@.total_pins() <= usize::MAX,
        ensures
            match processed {
                Ok(()) => {
                    &&& function@.projectable()
                    &&& final(functions)@.len() == old(functions)@.len() + 1
                    &&& forall|k: int|
                        0 <= k < old(functions)@.len() ==> final(functions)@[k] == old(
                            functions,
                        )@[k]
                    &&& final(functions)@[old(functions)@.len() as int]@ == function@.projection(
                        handle,
                    )
                },
                Err(e) => {
                    &&& e == EditorError::Unsupported
                    &&& !function@.projectable()
                    &&& final(functions)@ == old(functions)@
                },
            },
    {
        match FunctionData::project(handle, function) {
            Ok(data) => {
                functions.push(data);
                Ok(())
            },
            Err(e) => Err(e),
        }
    }

    /// Gives an editor without functions one empty function and its graph.
    fn add_function(&mut self)
        requires
            old(self)@.graphs.len() == 0,
            old(self)@.module.len() == 0,
            old(self)@.selected == 0,
        ensures
            final(self)@ == EditorView::loaded(old(self)@.module),
    {
        let handle = FunctionHandle::Function(self.module.functions.len());
        self.module.functions.push(Function::new());

        let mut pin_tracker = IdTracker::new();
        let base_pin: usize = pin_tracker.reserve(1);
        let function = FunctionData {
            handle,
            nodes: vec![Node { ty: NodeType::Start, base_pin }],
            links: Vec::new(),
            pin_tracker,
            expression_to_pin: HashMap::new(),
        };
        assert(function@ =~= FunctionView::empty().projection(handle));
        self.functions.push(function);
    }

    /// Makes the graph at `index` the active one.
    ///
    /// Fails with `OutOfRange` exactly where there is no such graph; the
    /// selection then stays.
    pub fn select(&mut self, index: usize) -> (selected: Result<(), EditorError>)
        requires
            old(self).wf(),
        ensures
            final(self).wf(),
            final(self)@ == old(self)@.select(index),
            selected == if index < old(self)@.graphs.len() {
                Ok::<(), EditorError>(())
            } else {
                Err(EditorError::OutOfRange)
            },
    {
        proof {
            old(self)@.lemma_select_wf(index);
        }
        if index < self.functions.len() {
            self.select_function = index;
            Ok(())
        } else {
            Err(EditorError::OutOfRange)
        }
    }

    /// Proposes a link from `pin_start` of node `node_start` to `pin_end`
    /// of node `node_end` of the active graph.
    ///
    /// The link is accepted where `pin_start` is the output of the first
    /// node and `pin_end` an input of the second that takes what the first
    /// gives: a value from an expression, control flow from the entry marker.
    /// The value is then stored in the operand or return slot of the active
    /// function that `pin_end` stands for, and the link is appended to the
    /// active graph. Other graphs and functions are never touched.
    ///
    /// Fails with `OutOfRange` where one of the two nodes does not exist,
    /// else with `InvalidTarget` where the link is not accepted; the editor
    /// is then left as it was.
    pub fn propose_link(
        &mut self,
        pin_start: usize,
        node_start: usize,
        pin_end: usize,
        node_end: usize,
    ) -> (outcome: Result<(), EditorError>)
        requires
            old(self).wf(),
        ensures
            final(self).wf(),
            outcome == old(self)@.link_outcome(pin_start, node_start, pin_end, node_end),
            final(self)@ == old(self)@.propose_link(pin_start, node_start, pin_end, node_end),
    {
        proof {
            old(self)@.lemma_propose_link_wf(pin_start, node_start, pin_end, node_end);
        }
        let ghost before = self@;
        let selected: usize = self.select_function;
        if node_start >= self.functions[selected].nodes.len() || node_end
            >= self.functions[selected].nodes.len() {
            return Err(EditorError::OutOfRange);
        }
        let source: Node = self.functions[selected].nodes[node_start];
        let target: Node = self.functions[selected].nodes[node_end];
        let handle: FunctionHandle = self.functions[selected].handle;
        let update: Update = match source.ty {
            NodeType::Expression(h) => Update::Expression(h),
            NodeType::Start => Update::ControlFlow,
            NodeType::Return(_) => {
                return Err(EditorError::InvalidTarget);
            },
        };
        let control_flow: bool = match update {
            Update::ControlFlow => true,
            Update::Expression(_) => false,
        };
        let count: usize = match source.ty.pin_count(self.module.function(handle)) {
            Ok(count) => count,
            Err(_) => {
                return Err(EditorError::InvalidTarget);
            },
        };
        assert(before.active().block_end(before.active_function(), node_start as int)
            <= before.active().next_pin);
        if pin_start != source.base_pin + (count - 1) {
            return Err(EditorError::InvalidTarget);
        }
        let accepted: bool = match handle {
            FunctionHandle::Function(i) => target.update(
                &mut self.module.functions[i],
                pin_end,
                update,
            ),
            FunctionHandle::EntryPoint(i) => target.update(
                &mut self.module.entry_points[i],
                pin_end,
                update,
            ),
        };
        if !accepted {
            return Err(EditorError::InvalidTarget);
        }
        self.functions[selected].links.push((pin_start, pin_end, control_flow));
        proof {
            let after = before.propose_link(pin_start, node_start, pin_end, node_end);
            assert(self@.graphs =~= after.graphs);
        }
        Ok(())
    }

    /// Removes the link at `link_index` of the active graph. What the link
    /// wrote into the module when it was made stays there.
    ///
    /// Fails with `OutOfRange` exactly where there is no such link; the
    /// editor is then left as it was.
    pub fn remove_link(&mut self, link_index: usize) -> (removed: Result<(), EditorError>)
        requires
            old(self).wf(),
        ensures
            final(self).wf(),
            final(self)@ == old(self)@.remove_link(link_index),
            final(self)@.module == old(self)@.module,
            removed == if link_index < old(self)@.active().links.len() {
                Ok::<(), EditorError>(())
            } else {
                Err(EditorError::OutOfRange)
            },
    {
        proof {
            old(self)@.lemma_remove_link_wf(link_index);
        }
        let selected: usize = self.select_function;
        if link_index >= self.functions[selected].links.len() {
            return Err(EditorError::OutOfRange);
        }
        self.functions[selected].links.remove(link_index);
        proof {
            assert(self@.graphs =~= old(self)@.remove_link(link_index).graphs);
        }
        Ok(())
    }

    /// Whether the active graph and function have room for one more
    /// expression of this kind.
    pub fn has_room(&self, kind: ExpressionKind) -> (room: bool)
        requires
            self.wf(),
        ensures
            room == self@.can_add(kind),
    {
        let selected: usize = self.select_function;
        let handle: FunctionHandle = self.functions[selected].handle;
        assert(self@.graphs[selected as int].handle == self@.module.handle_at(selected as int));
        let pin_count: usize = match kind {
            ExpressionKind::Binary(_) => 3,
            ExpressionKind::Constant => 1,
        };
        let next: usize = self.functions[selected].pin_tracker.next_pin();
        next <= usize::MAX - pin_count && self.module.function(handle).expressions.len()
            < usize::MAX
    }

    /// Inserts a new expression of this kind, its operands placeholders, at
    /// the end of the active function's arena, and appends its node to the
    /// active graph on freshly reserved pins.
    pub fn add_expression_node(&mut self, kind: ExpressionKind)
        requires
            old(self).wf(),
            old(self)@.can_add(kind),
        ensures
            final(self).wf(),
            final(self)@ == old(self)@.add_expression_node(kind),
    {
        proof {
            old(self)@.lemma_add_expression_node_wf(kind);
        }
        let ghost before = self@;
        let selected: usize = self.select_function;
        let handle: FunctionHandle = self.functions[selected].handle;
        let expression = kind.expression();
        let pin_count: usize = match expression {
            Expression::Binary { .. } => 3,
            _ => 1,
        };
        let position: usize = match handle {
            FunctionHandle::Function(i) => {
                let position: usize = self.module.functions[i].expressions.len();
                self.module.functions[i].expressions.push(expression);
                position
            },
            FunctionHandle::EntryPoint(i) => {
                let position: usize = self.module.entry_points[i].expressions.len();
                self.module.entry_points[i].expressions.push(expression);
                position
            },
        };
        let base_pin: usize = self.functions[selected].pin_tracker.reserve(pin_count);
        self.functions[selected].nodes.push(Node { ty: NodeType::Expression(position), base_pin });
        proof {
            let after = before.add_expression_node(kind);
            assert(self@.graphs =~= after.graphs);
        }
    }

    /// Applies what one display pass reported: the drawn link is proposed,
    /// then the removed link is removed, then the requested node is
    /// inserted. A proposal or removal that is declined changes nothing.
    pub fn show(&mut self, interaction: &Interaction)
        requires
            old(self).wf(),
            interaction.node_requested matches Some(kind) ==> old(self)@.can_add(kind),
        ensures
            final(self).wf(),
            final(self)@ == old(self)@.show(*interaction),
    {
        if let Some((pin_start, node_start, pin_end, node_end)) = interaction.link_created {
            proof {
                self@.lemma_propose_link_keeps_room(pin_start, node_start, pin_end, node_end);
            }
            let _ = self.propose_link(pin_start, node_start, pin_end, node_end);
        }
        if let Some(index) = interaction.link_destroyed {
            let _ = self.remove_link(index);
        }
        if let Some(kind) = interaction.node_requested {
            self.add_expression_node(kind);
        }
    }
}

impl Default for Editor {
    fn default() -> (editor: Self)
        ensures
            editor.wf(),
            editor@ == EditorView::initial(),
    {
        Editor::new()
    }
}

} // verus!
