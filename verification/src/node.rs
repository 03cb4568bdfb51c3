//! Pins, the allocator that issues them, and the nodes that own them.

use crate::error::EditorError;
use crate::ir::{BinaryOperator, Expression, Function, FunctionView, Statement};
use vstd::prelude::*;

verus! {

/// Issues pin identifiers in contiguous blocks from a cursor that only grows.
///
/// The view of a tracker is its cursor: the first identifier that was never
/// handed out.
#[derive(Clone, Debug, PartialEq, Eq)]
pub struct IdTracker {
    next: usize,
}

impl View for IdTracker {
    type V = nat;

    closed spec fn view(&self) -> nat {
        self.next as nat
    }
}

impl IdTracker {
    /// A tracker that has handed out nothing yet.
    pub fn new() -> (tracker: Self)
        ensures
            tracker@ == 0,
    {
        IdTracker { next: 0 }
    }

    /// Hands out the next `count` identifiers and returns the first of them.
    pub fn reserve(&mut self, count: usize) -> (base: usize)
        requires
            old(self)@ + count <= usize::MAX,
        ensures
            base == old(self)@,
            final(self)@ == old(self)@ + count,
    {
        let base: usize = self.next;
        self.next = base + count;
        base
    }

    /// Starts a fresh namespace: the cursor goes back to zero.
    pub fn clear(&mut self)
        ensures
            final(self)@ == 0,
    {
        self.next = 0;
    }

    /// The cursor: every identifier below it has been handed out.
    pub fn next_pin(&self) -> (next: usize)
        ensures
            next == self@,
    {
        self.next
    }
}

impl Default for IdTracker {
    fn default() -> (tracker: Self)
        ensures
            tracker@ == 0,
    {
        IdTracker::new()
    }
}

/// Where the cursor stands after the first `n` of a run of `reserve` calls
/// with the given counts, on a tracker whose cursor stood at `start`. The
/// call after those `n` returns this pin as its base.
pub open spec fn cursor_after(start: nat, counts: Seq<nat>, n: int) -> nat
    decreases n,
{
    if n <= 0 {
        start
    } else {
        cursor_after(start, counts, n - 1) + counts[n - 1]
    }
}

/// In any run of `reserve` calls, a later call's block starts at or after
/// the end of every earlier call's block, so no two blocks overlap; and the
/// base pins strictly increase wherever the earlier call asked for at least
/// one pin.
pub proof fn lemma_reserve_monotonic(start: nat, counts: Seq<nat>, i: int, j: int)
    requires
        0 <= i < j < counts.len(),
    ensures
        cursor_after(start, counts, i) + counts[i] <= cursor_after(start, counts, j),
        counts[i] > 0 ==> cursor_after(start, counts, i) < cursor_after(start, counts, j),
    decreases j - i,
{
    if i + 1 < j {
        lemma_reserve_monotonic(start, counts, i, j - 1);
    }
}

/// What a proposed link carries from its source node.
#[derive(Clone, Copy, Debug, PartialEq, Eq, Structural)]
pub enum Update {
    /// The sequencing signal of the entry marker.
    ControlFlow,
    /// The value of the expression at this arena position.
    Expression(usize),
}

/// What a node stands for.
#[derive(Clone, Copy, Debug, PartialEq, Eq, Structural)]
pub enum NodeType {
    /// The entry marker of the function.
    Start,
    /// The `Return` statement at this position of the body.
    Return(usize),
    /// The expression at this position of the arena.
    Expression(usize),
}

/// The part that one pin plays on its node.
#[derive(Clone, Copy, Debug, PartialEq, Eq, Structural)]
pub enum PinRole {
    /// Output of the entry marker.
    ControlOut,
    /// Control-flow input of a `Return`.
    ControlIn,
    /// Value input of a `Return` in a function that declares a result.
    ReturnValue,
    /// Output of a constant.
    ConstantValue,
    /// Left operand input of a binary expression.
    Left,
    /// Right operand input of a binary expression.
    Right,
    /// Output of a binary expression.
    Result,
}

/// One pin as the presentation layer draws it.
#[derive(Clone, Copy, Debug, PartialEq, Eq, Structural)]
pub struct PinAttribute {
    pub pin: usize,
    pub role: PinRole,
}

/// What the presentation layer needs to draw one node.
#[derive(Clone, Debug, PartialEq, Eq)]
pub struct NodeLayout {
    /// The node's position in its function's node list.
    pub id: usize,
    /// The node's display name.
    pub name: &'static str,
    /// The node's pins, in pin order.
    pub pins: Vec<PinAttribute>,
}

/// One node of the graph and the first pin of the block that it owns.
#[derive(Clone, Copy, Debug, PartialEq, Eq, Structural)]
pub struct Node {
    pub ty: NodeType,
    pub base_pin: usize,
}

impl Update {
    /// Whether the payload is the sequencing signal.
    pub open spec fn is_control_flow(self) -> bool {
        self is ControlFlow
    }
}

impl PinRole {
    /// The pin receives a link's payload.
    pub open spec fn is_input(self) -> bool {
        match self {
            PinRole::ControlIn | PinRole::ReturnValue | PinRole::Left | PinRole::Right => true,
            PinRole::ControlOut | PinRole::ConstantValue | PinRole::Result => false,
        }
    }

    /// The pin carries sequencing rather than a value.
    pub open spec fn is_control_flow(self) -> bool {
        match self {
            PinRole::ControlOut | PinRole::ControlIn => true,
            _ => false,
        }
    }

    /// An input takes the payload of its own kind: control flow into the
    /// control input, a value into every other input. An output takes none.
    pub open spec fn accepts(self, update: Update) -> bool {
        self.is_input() && (self.is_control_flow() <==> update.is_control_flow())
    }

    /// The text beside the pin.
    pub open spec fn spec_label(self) -> Seq<char> {
        match self {
            PinRole::ControlOut | PinRole::ControlIn => "Control flow"@,
            PinRole::ReturnValue | PinRole::ConstantValue => "value"@,
            PinRole::Left => "left"@,
            PinRole::Right => "right"@,
            PinRole::Result => "result"@,
        }
    }

    /// Whether the pin receives a link's payload.
    pub fn input(&self) -> (input: bool)
        ensures
            input == self.is_input(),
    {
        match self {
            PinRole::ControlIn | PinRole::ReturnValue | PinRole::Left | PinRole::Right => true,
            PinRole::ControlOut | PinRole::ConstantValue | PinRole::Result => false,
        }
    }

    /// Whether the pin carries sequencing rather than a value.
    pub fn control_flow(&self) -> (control_flow: bool)
        ensures
            control_flow == self.is_control_flow(),
    {
        match self {
            PinRole::ControlOut | PinRole::ControlIn => true,
            _ => false,
        }
    }

    /// The text beside the pin.
    pub fn label(&self) -> (label: &'static str)
        ensures
            label@ == self.spec_label(),
    {
        match self {
            PinRole::ControlOut | PinRole::ControlIn => "Control flow",
            PinRole::ReturnValue | PinRole::ConstantValue => "value",
            PinRole::Left => "left",
            PinRole::Right => "right",
            PinRole::Result => "result",
        }
    }
}

impl NodeType {
    /// The roles of the node's pins, in pin order; `None` where the node
    /// names nothing that the graph models in `f`.
    pub open spec fn roles(self, f: FunctionView) -> Option<Seq<PinRole>> {
        match self {
            NodeType::Start => Some(seq![PinRole::ControlOut]),
            NodeType::Return(s) => if s < f.body.len() && f.body[s as int] is Return {
                if f.has_result {
                    Some(seq![PinRole::ControlIn, PinRole::ReturnValue])
                } else {
                    Some(seq![PinRole::ControlIn])
                }
            } else {
                None
            },
            NodeType::Expression(h) => if h < f.expressions.len() {
                match f.expressions[h as int] {
                    Expression::Constant => Some(seq![PinRole::ConstantValue]),
                    Expression::Binary { .. } => Some(
                        seq![PinRole::Left, PinRole::Right, PinRole::Result],
                    ),
                    Expression::Unsupported(_) => None,
                }
            } else {
                None
            },
        }
    }

    /// How many pins the node owns; `None` where [`Self::roles`] is.
    pub open spec fn pins(self, f: FunctionView) -> Option<nat> {
        match self {
            NodeType::Start => Some(1),
            NodeType::Return(s) => if s < f.body.len() && f.body[s as int] is Return {
                Some(f.return_pins())
            } else {
                None
            },
            NodeType::Expression(h) => if h < f.expressions.len()
                && !(f.expressions[h as int] is Unsupported) {
                Some(f.expressions[h as int].pins())
            } else {
                None
            },
        }
    }

    /// The role of the pin at `offset` from the node's first pin, if the
    /// node has that many pins.
    pub open spec fn role_at(self, f: FunctionView, offset: int) -> Option<PinRole> {
        match self.roles(f) {
            Some(roles) => if 0 <= offset < roles.len() {
                Some(roles[offset])
            } else {
                None
            },
            None => None,
        }
    }

    /// The offset of the pin at which the node's payload leaves it: the last
    /// pin of an expression or of the entry marker. A `Return` has none.
    pub open spec fn output_offset(self, f: FunctionView) -> Option<nat> {
        match self {
            NodeType::Return(_) => None,
            _ => match self.pins(f) {
                Some(n) => Some((n - 1) as nat),
                None => None,
            },
        }
    }

    /// What a link that starts at this node carries.
    pub open spec fn payload(self) -> Option<Update> {
        match self {
            NodeType::Start => Some(Update::ControlFlow),
            NodeType::Expression(h) => Some(Update::Expression(h)),
            NodeType::Return(_) => None,
        }
    }

    /// The display name; `None` for an expression that has none.
    pub open spec fn title(self, f: FunctionView) -> Option<Seq<char>> {
        match self {
            NodeType::Start => Some("Begin"@),
            NodeType::Return(_) => Some("Return"@),
            NodeType::Expression(h) => if h < f.expressions.len() {
                match f.expressions[h as int] {
                    Expression::Constant => Some("Constant"@),
                    Expression::Binary { op: BinaryOperator::Add, .. } => Some("Addition"@),
                    _ => None,
                }
            } else {
                None
            },
        }
    }

    /// The node has as many pins as it has roles, and its output, where it
    /// has one, is the one pin that is no input.
    pub proof fn lemma_roles(self, f: FunctionView)
        ensures
            self.roles(f) is Some <==> self.pins(f) is Some,
            self.roles(f) matches Some(roles) ==> {
                &&& self.pins(f) == Some(roles.len())
                &&& 1 <= roles.len() <= 3
                &&& forall|k: int|
                    0 <= k < roles.len() ==> (!(#[trigger] roles[k]).is_input() <==> self.output_offset(
                        f,
                    ) == Some(k as nat))
            },
    {
    }

    /// A node keeps its pins and their roles while the function keeps its
    /// layout.
    pub proof fn lemma_layout_stable(self, before: FunctionView, after: FunctionView)
        requires
            after.extends(before),
            self.pins(before) is Some,
        ensures
            self.pins(after) == self.pins(before),
            self.roles(after) == self.roles(before),
            self.output_offset(after) == self.output_offset(before),
            forall|offset: int| self.role_at(after, offset) == self.role_at(before, offset),
    {
    }

    /// The display name of the node.
    ///
    /// Fails with `Unsupported` where the node is an expression outside the
    /// arena, of a kind without a name, or a binary expression whose operator
    /// is not addition.
    pub fn name(&self, function: &Function) -> (name: Result<&'static str, EditorError>)
        ensures
            match name {
                Ok(text) => self.title(function@) == Some(text@),
                Err(e) => e == EditorError::Unsupported && self.title(function@) is None,
            },
    {
        match *self {
            NodeType::Start => Ok("Begin"),
            NodeType::Return(_) => Ok("Return"),
            NodeType::Expression(h) => {
                if h < function.expressions.len() {
                    match function.expressions[h] {
                        Expression::Constant => Ok("Constant"),
                        Expression::Binary { op: BinaryOperator::Add, .. } => Ok("Addition"),
                        _ => Err(EditorError::Unsupported),
                    }
                } else {
                    Err(EditorError::Unsupported)
                }
            },
        }
    }

    /// How many pins the node owns: one for the entry marker and for a
    /// constant, three for a binary expression, one or two for a `Return`.
    ///
    /// Fails with `Unsupported` where the node names nothing that the graph
    /// models in `function`.
    pub fn pin_count(&self, function: &Function) -> (count: Result<usize, EditorError>)
        ensures
            match count {
                Ok(n) => self.pins(function@) == Some(n as nat),
                Err(e) => e == EditorError::Unsupported && self.pins(function@) is None,
            },
    {
        match *self {
            NodeType::Start => Ok(1),
            NodeType::Return(s) => {
                if s < function.body.len() {
                    match function.body[s] {
                        Statement::Return { .. } => Ok(if function.has_result { 2 } else { 1 }),
                        _ => Err(EditorError::Unsupported),
                    }
                } else {
                    Err(EditorError::Unsupported)
                }
            },
            NodeType::Expression(h) => {
                if h < function.expressions.len() {
                    match function.expressions[h] {
                        Expression::Constant => Ok(1),
                        Expression::Binary { .. } => Ok(3),
                        Expression::Unsupported(_) => Err(EditorError::Unsupported),
                    }
                } else {
                    Err(EditorError::Unsupported)
                }
            },
        }
    }

    /// The roles of the node's pins, in pin order.
    ///
    /// Fails with `Unsupported` where the node names nothing that the graph
    /// models in `function`.
    pub fn pin_roles(&self, function: &Function) -> (roles: Result<Vec<PinRole>, EditorError>)
        ensures
            match roles {
                Ok(list) => self.roles(function@) == Some(list@),
                Err(e) => e == EditorError::Unsupported && self.roles(function@) is None,
            },
    {
        match *self {
            NodeType::Start => Ok(vec![PinRole::ControlOut]),
            NodeType::Return(s) => {
                if s < function.body.len() {
                    match function.body[s] {
                        Statement::Return { .. } => if function.has_result {
                            Ok(vec![PinRole::ControlIn, PinRole::ReturnValue])
                        } else {
                            Ok(vec![PinRole::ControlIn])
                        },
                        _ => Err(EditorError::Unsupported),
                    }
                } else {
                    Err(EditorError::Unsupported)
                }
            },
            NodeType::Expression(h) => {
                if h < function.expressions.len() {
                    match function.expressions[h] {
                        Expression::Constant => Ok(vec![PinRole::ConstantValue]),
                        Expression::Binary { .. } => Ok(
                            vec![PinRole::Left, PinRole::Right, PinRole::Result],
                        ),
                        Expression::Unsupported(_) => Err(EditorError::Unsupported),
                    }
                } else {
                    Err(EditorError::Unsupported)
                }
            },
        }
    }
}

impl Node {
    /// The pin belongs to the block that the node owns in `f`.
    pub open spec fn owns(self, f: FunctionView, pin: int) -> bool {
        self.ty.pins(f) matches Some(n) && self.base_pin <= pin < self.base_pin + n
    }

    /// The role of `pin` on this node, if the node owns it.
    pub open spec fn role_of(self, f: FunctionView, pin: int) -> Option<PinRole> {
        self.ty.role_at(f, pin - self.base_pin)
    }

    /// The pin at which the node's payload leaves it, if it has one.
    pub open spec fn output_pin(self, f: FunctionView) -> Option<int> {
        match self.ty.output_offset(f) {
            Some(k) => Some(self.base_pin + k),
            None => None,
        }
    }

    /// Whether a link that carries `update` may end at `pin` of this node:
    /// the pin is an input of the node, and of the payload's kind.
    pub open spec fn admits(self, f: FunctionView, pin: int, update: Update) -> bool {
        self.role_of(f, pin) matches Some(role) && role.accepts(update)
    }

    /// The function after a link that carries `update` has ended at `pin`
    /// of this node: a value is stored in the operand or return slot that the
    /// pin stands for, control flow stores nothing.
    pub open spec fn written(self, f: FunctionView, pin: int, update: Update) -> FunctionView {
        match (self.ty, self.role_of(f, pin), update) {
            (NodeType::Expression(h), Some(PinRole::Left), Update::Expression(v)) => f.with_left(
                h as int,
                v,
            ),
            (NodeType::Expression(h), Some(PinRole::Right), Update::Expression(v)) => f.with_right(
                h as int,
                v,
            ),
            (
                NodeType::Return(s),
                Some(PinRole::ReturnValue),
                Update::Expression(v),
            ) => f.with_return_value(s as int, v),
            _ => f,
        }
    }

    /// Whatever a link writes, the function keeps its layout.
    pub proof fn lemma_written_extends(self, f: FunctionView, pin: int, update: Update)
        ensures
            self.written(f, pin, update).extends(f),
            self.written(f, pin, update).expressions.len() == f.expressions.len(),
    {
    }

    /// The node's pins as the presentation layer draws them; `None` where
    /// the node names nothing that the graph models in `f`.
    pub open spec fn attributes(self, f: FunctionView) -> Option<Seq<PinAttribute>> {
        match self.ty.roles(f) {
            Some(roles) => Some(
                Seq::new(
                    roles.len(),
                    |k: int| PinAttribute { pin: (self.base_pin + k) as usize, role: roles[k] },
                ),
            ),
            None => None,
        }
    }

    /// Describes the node for the presentation layer: its position `id`, its
    /// display name and its pins in pin order.
    ///
    /// Fails with `Unsupported` where the node has no name or no pins in
    /// `function`.
    pub fn to_constructor(&self, id: usize, function: &Function) -> (layout: Result<
        NodeLayout,
        EditorError,
    >)
        requires
            self.ty.pins(function@) matches Some(n) ==> self.base_pin + n <= usize::MAX,
        ensures
            match layout {
                Ok(l) => {
                    &&& l.id == id
                    &&& self.ty.title(function@) == Some(l.name@)
                    &&& self.attributes(function@) == Some(l.pins@)
                },
                Err(e) => {
                    &&& e == EditorError::Unsupported
                    &&& (self.ty.title(function@) is None || self.attributes(function@) is None)
                },
            },
    {
        let name = match self.ty.name(function) {
            Ok(name) => name,
            Err(e) => {
                return Err(e);
            },
        };
        let roles = match self.ty.pin_roles(function) {
            Ok(roles) => roles,
            Err(e) => {
                return Err(e);
            },
        };
        proof {
            self.ty.lemma_roles(function@);
        }
        let mut pins: Vec<PinAttribute> = Vec::new();
        let mut k: usize = 0;
        while k < roles.len()
            invariant
                k <= roles.len(),
                self.base_pin + roles.len() <= usize::MAX,
                pins@ == Seq::new(
                    k as nat,
                    |j: int| PinAttribute { pin: (self.base_pin + j) as usize, role: roles@[j] },
                ),
            decreases roles.len() - k,
        {
            pins.push(PinAttribute { pin: self.base_pin + k, role: roles[k] });
            k += 1;
        }
        Ok(NodeLayout { id, name, pins })
    }

    /// Applies the far end of a proposed link to the representation.
    ///
    /// The link is accepted where `pin` is an input of this node that takes
    /// the kind of payload in `update`; a value is then stored in the slot of
    /// `function` that the pin stands for. Otherwise the link is rejected and
    /// `function` stays as it was.
    pub fn update(&self, function: &mut Function, pin: usize, update: Update) -> (accepted: bool)
        ensures
            accepted == self.admits(old(function)@, pin as int, update),
            accepted ==> final(function)@ == self.written(old(function)@, pin as int, update),
            !accepted ==> final(function)@ == old(function)@,
    {
        if pin < self.base_pin {
            return false;
        }
        let offset: usize = pin - self.base_pin;
        match self.ty {
            NodeType::Start => false,
            NodeType::Expression(h) => {
                let value: usize = match update {
                    Update::ControlFlow => {
                        return false;
                    },
                    Update::Expression(value) => value,
                };
                if h >= function.expressions.len() {
                    return false;
                }
                match function.expressions[h] {
                    Expression::Binary { op, left, right } => {
                        if offset == 0 {
                            function.expressions.set(
                                h,
                                Expression::Binary { op, left: value, right },
                            );
                            true
                        } else if offset == 1 {
                            function.expressions.set(
                                h,
                                Expression::Binary { op, left, right: value },
                            );
                            true
                        } else {
                            false
                        }
                    },
                    _ => false,
                }
            },
            NodeType::Return(s) => {
                if s >= function.body.len() {
                    return false;
                }
                match function.body[s] {
                    Statement::Return { .. } => match update {
                        Update::ControlFlow => offset == 0,
                        Update::Expression(value) => {
                            if offset == 1 && function.has_result {
                                function.body.set(s, Statement::Return { value: Some(value) });
                                true
                            } else {
                                false
                            }
                        },
                    },
                    _ => false,
                }
            },
        }
    }
}

} // verus!
