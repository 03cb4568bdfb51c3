//! The program representation that the editor mirrors: a module of
//! functions and entry points, each a straight-line body over an arena of
//! expressions. Expressions and statements are named by their position in
//! the arena or body that holds them.

use vstd::prelude::*;

verus! {

/// The operator of a binary expression.
#[derive(Clone, Copy, Debug, PartialEq, Eq, Structural)]
pub enum BinaryOperator {
    Add,
    Subtract,
    Multiply,
    Divide,
    Modulo,
    Equal,
    NotEqual,
    Less,
    LessEqual,
    Greater,
    GreaterEqual,
    And,
    ExclusiveOr,
    InclusiveOr,
    LogicalAnd,
    LogicalOr,
    ShiftLeft,
    ShiftRight,
}

/// One entry of a function's expression arena.
#[derive(Clone, Copy, Debug, PartialEq, Eq, Structural)]
pub enum Expression {
    /// A constant: no operands, one value.
    Constant,
    /// Two operands, named by their arena positions, and one value.
    Binary { op: BinaryOperator, left: usize, right: usize },
    /// A kind that the graph does not model; the tag is the host's name for it.
    Unsupported(u32),
}

/// The operand of a freshly inserted expression, until a link names one.
pub const PLACEHOLDER_OPERAND: usize = 1;

/// A kind of expression that a user can insert.
#[derive(Clone, Copy, Debug, PartialEq, Eq, Structural)]
pub enum ExpressionKind {
    Constant,
    Binary(BinaryOperator),
}

/// One entry of a function's body.
#[derive(Clone, Copy, Debug, PartialEq, Eq)]
pub enum Statement {
    /// Marks expressions as evaluated; it has no node of its own.
    Emit,
    /// Leaves the function, with the value of an expression if one is named.
    Return { value: Option<usize> },
    /// A kind that the graph does not model; the tag is the host's name for it.
    Unsupported(u32),
}

/// A function: whether it declares a result, its expression arena and its
/// straight-line body.
#[derive(Clone, Debug, PartialEq, Eq)]
pub struct Function {
    pub has_result: bool,
    pub expressions: Vec<Expression>,
    pub body: Vec<Statement>,
}

/// Names one function of a module.
#[derive(Clone, Copy, Debug, PartialEq, Eq, Structural)]
pub enum FunctionHandle {
    /// The function at this position of the module's functions.
    Function(usize),
    /// The entry point at this position of the module's entry points.
    EntryPoint(usize),
}

/// A module: its functions and its entry points, each entry point held as
/// the function that it runs.
#[derive(Clone, Debug, PartialEq, Eq)]
pub struct Module {
    pub functions: Vec<Function>,
    pub entry_points: Vec<Function>,
}

/// The mathematical content of a [`Function`].
#[verifier::ext_equal]
pub struct FunctionView {
    pub has_result: bool,
    pub expressions: Seq<Expression>,
    pub body: Seq<Statement>,
}

/// The mathematical content of a [`Module`].
#[verifier::ext_equal]
pub struct ModuleView {
    pub functions: Seq<FunctionView>,
    pub entry_points: Seq<FunctionView>,
}

impl View for Function {
    type V = FunctionView;

    open spec fn view(&self) -> FunctionView {
        FunctionView {
            has_result: self.has_result,
            expressions: self.expressions@,
            body: self.body@,
        }
    }
}

impl View for Module {
    type V = ModuleView;

    open spec fn view(&self) -> ModuleView {
        ModuleView {
            functions: Seq::new(self.functions@.len(), |i: int| self.functions@[i]@),
            entry_points: Seq::new(self.entry_points@.len(), |i: int| self.entry_points@[i]@),
        }
    }
}

impl Expression {
    /// How many pins the node of this expression owns: one output for a
    /// constant, two inputs and one output for a binary expression.
    pub open spec fn pins(self) -> nat {
        match self {
            Expression::Constant => 1,
            Expression::Binary { .. } => 3,
            Expression::Unsupported(_) => 0,
        }
    }

    /// Both expressions are of one kind, whatever their operands.
    pub open spec fn same_kind(self, other: Expression) -> bool {
        match (self, other) {
            (Expression::Constant, Expression::Constant) => true,
            (Expression::Binary { .. }, Expression::Binary { .. }) => true,
            (Expression::Unsupported(_), Expression::Unsupported(_)) => true,
            _ => false,
        }
    }
}

impl ExpressionKind {
    /// A fresh expression of this kind, its operands placeholders.
    pub open spec fn spec_expression(self) -> Expression {
        match self {
            ExpressionKind::Constant => Expression::Constant,
            ExpressionKind::Binary(op) => Expression::Binary {
                op,
                left: PLACEHOLDER_OPERAND,
                right: PLACEHOLDER_OPERAND,
            },
        }
    }

    /// A fresh expression of this kind, its operands placeholders.
    pub fn expression(&self) -> (expression: Expression)
        ensures
            expression == self.spec_expression(),
    {
        match *self {
            ExpressionKind::Constant => Expression::Constant,
            ExpressionKind::Binary(op) => Expression::Binary {
                op,
                left: PLACEHOLDER_OPERAND,
                right: PLACEHOLDER_OPERAND,
            },
        }
    }
}

impl FunctionView {
    /// The function without result, expressions or statements.
    pub open spec fn empty() -> FunctionView {
        FunctionView { has_result: false, expressions: Seq::empty(), body: Seq::empty() }
    }

    /// The function with `expression` at the end of its arena.
    pub open spec fn with_expression(self, expression: Expression) -> FunctionView {
        FunctionView { expressions: self.expressions.push(expression), ..self }
    }

    /// The function with `value` as the left operand of binary expression `h`.
    pub open spec fn with_left(self, h: int, value: usize) -> FunctionView {
        match self.expressions[h] {
            Expression::Binary { op, left, right } => FunctionView {
                expressions: self.expressions.update(
                    h,
                    Expression::Binary { op, left: value, right },
                ),
                ..self
            },
            _ => self,
        }
    }

    /// The function with `value` as the right operand of binary expression `h`.
    pub open spec fn with_right(self, h: int, value: usize) -> FunctionView {
        match self.expressions[h] {
            Expression::Binary { op, left, right } => FunctionView {
                expressions: self.expressions.update(
                    h,
                    Expression::Binary { op, left, right: value },
                ),
                ..self
            },
            _ => self,
        }
    }

    /// The function with `value` as what statement `s` returns.
    pub open spec fn with_return_value(self, s: int, value: usize) -> FunctionView {
        FunctionView { body: self.body.update(s, Statement::Return { value: Some(value) }), ..self }
    }

    /// `self` lays out as `before` did: the same result flag, a `Return`
    /// wherever `before` had one, and every expression of `before` still of
    /// its kind. Operands, returned values and new expressions at the end of
    /// the arena are free.
    pub open spec fn extends(self, before: FunctionView) -> bool {
        &&& self.has_result == before.has_result
        &&& self.body.len() == before.body.len()
        &&& forall|s: int|
            0 <= s < before.body.len() ==> ((#[trigger] self.body[s]) is Return
                <==> before.body[s] is Return)
        &&& self.expressions.len() >= before.expressions.len()
        &&& forall|h: int|
            0 <= h < before.expressions.len() ==> (#[trigger] self.expressions[h]).same_kind(
                before.expressions[h],
            )
    }

    /// Pins owned by the nodes of the first `n` expressions together.
    pub open spec fn pins_before(self, n: int) -> nat
        decreases n,
    {
        if n <= 0 {
            0
        } else {
            self.pins_before(n - 1) + self.expressions[n - 1].pins()
        }
    }

    /// How many pins a `Return` node owns here: control flow, and the value
    /// where the function declares a result.
    pub open spec fn return_pins(self) -> nat {
        if self.has_result {
            2
        } else {
            1
        }
    }

    /// How many of the first `n` statements are `Return`s.
    pub open spec fn returns_before(self, n: int) -> nat
        decreases n,
    {
        if n <= 0 {
            0
        } else if self.body[n - 1] is Return {
            self.returns_before(n - 1) + 1
        } else {
            self.returns_before(n - 1)
        }
    }

    /// Pins owned by the `Return` nodes of the first `n` statements together.
    pub open spec fn return_pins_before(self, n: int) -> nat
        decreases n,
    {
        if n <= 0 {
            0
        } else if self.body[n - 1] is Return {
            self.return_pins_before(n - 1) + self.return_pins()
        } else {
            self.return_pins_before(n - 1)
        }
    }

    /// All the pins that the projection of this function allocates: those of
    /// the expressions, one for the entry marker, those of the `Return`s.
    pub open spec fn total_pins(self) -> nat {
        self.pins_before(self.expressions.len() as int) + 1 + self.return_pins_before(
            self.body.len() as int,
        )
    }

    /// The function is one that a machine can hold and project: its arena,
    /// its body and the pins of its projection can be counted in a `usize`.
    pub open spec fn fits(self) -> bool {
        &&& self.expressions.len() <= usize::MAX
        &&& self.body.len() <= usize::MAX
        &&& self.total_pins() <= usize::MAX
    }

    /// The pin at which the value of expression `h` leaves its node: the last
    /// pin of the node's block.
    pub open spec fn output_pin(self, h: int) -> int {
        self.pins_before(h + 1) - 1
    }

    /// Every expression is a constant or a binary expression, and every
    /// statement an `Emit` or a `Return`.
    pub open spec fn kinds_modelled(self) -> bool {
        &&& forall|i: int|
            0 <= i < self.expressions.len() ==> !((#[trigger] self.expressions[i]) is Unsupported)
        &&& forall|s: int| 0 <= s < self.body.len() ==> !((#[trigger] self.body[s]) is Unsupported)
    }

    /// The arena is in dependency order: the operands of every binary
    /// expression stand earlier in the arena than the expression itself.
    pub open spec fn dependency_ordered(self) -> bool {
        forall|i: int|
            0 <= i < self.expressions.len() ==> (
            #[trigger] self.expressions[i] matches Expression::Binary { left, right, .. } ==> left
                < i && right < i)
    }

    /// A `Return` names a value only where the function declares a result,
    /// and then one that is in the arena.
    pub open spec fn returns_resolve(self) -> bool {
        forall|s: int|
            0 <= s < self.body.len() ==> (
            #[trigger] self.body[s] matches Statement::Return { value: Some(h) }
                ==> self.has_result && h < self.expressions.len())
    }

    /// Expression `i` has a modelled kind, and its operands, if any, stand
    /// earlier in the arena.
    pub open spec fn expression_projectable(self, i: int) -> bool {
        match self.expressions[i] {
            Expression::Constant => true,
            Expression::Binary { left, right, .. } => left < i && right < i,
            Expression::Unsupported(_) => false,
        }
    }

    /// Statement `s` has a modelled kind, and a `Return` names a value only
    /// where the function declares a result and the value is in the arena.
    pub open spec fn statement_projectable(self, s: int) -> bool {
        match self.body[s] {
            Statement::Emit => true,
            Statement::Return { value: Some(h) } => self.has_result && h < self.expressions.len(),
            Statement::Return { value: None } => true,
            Statement::Unsupported(_) => false,
        }
    }

    /// The function can be laid out as a graph: every expression and every
    /// statement can.
    pub open spec fn projectable(self) -> bool {
        &&& forall|i: int|
            0 <= i < self.expressions.len() ==> #[trigger] self.expression_projectable(i)
        &&& forall|s: int| 0 <= s < self.body.len() ==> #[trigger] self.statement_projectable(s)
    }

    /// A function is projectable exactly where its kinds are modelled, its
    /// arena is in dependency order and its `Return`s resolve. So the
    /// projection of a function whose arena is in dependency order can only
    /// be declined for a kind or for a `Return`.
    pub proof fn lemma_projectable_by_parts(self)
        ensures
            self.projectable() <==> self.kinds_modelled() && self.dependency_ordered()
                && self.returns_resolve(),
    {
        if self.projectable() {
            assert forall|i: int| 0 <= i < self.expressions.len() implies !((
            #[trigger] self.expressions[i]) is Unsupported) && (
            self.expressions[i] matches Expression::Binary { left, right, .. } ==> left < i && right
                < i) by {
                assert(self.expression_projectable(i));
            }
            assert forall|s: int| 0 <= s < self.body.len() implies !((
            #[trigger] self.body[s]) is Unsupported) && (
            self.body[s] matches Statement::Return { value: Some(h) } ==> self.has_result && h
                < self.expressions.len()) by {
                assert(self.statement_projectable(s));
            }
        }
    }

    /// A function with one more expression keeps its layout.
    pub proof fn lemma_with_expression_extends(self, expression: Expression)
        ensures
            self.with_expression(expression).extends(self),
    {
    }

    /// Later prefixes of the arena own at least the pins of earlier ones.
    pub proof fn lemma_pins_before_monotonic(self, i: int, j: int)
        requires
            i <= j,
        ensures
            self.pins_before(i) <= self.pins_before(j),
        decreases j - i,
    {
        if i < j {
            self.lemma_pins_before_monotonic(i, j - 1);
        }
    }

    /// Later prefixes of the body hold at least the `Return`s of earlier ones.
    pub proof fn lemma_returns_before_monotonic(self, i: int, j: int)
        requires
            i <= j,
        ensures
            self.returns_before(i) <= self.returns_before(j),
        decreases j - i,
    {
        if i < j {
            self.lemma_returns_before_monotonic(i, j - 1);
        }
    }

    /// Later prefixes of the body own at least the pins of earlier ones.
    pub proof fn lemma_return_pins_before_monotonic(self, i: int, j: int)
        requires
            i <= j,
        ensures
            self.return_pins_before(i) <= self.return_pins_before(j),
        decreases j - i,
    {
        if i < j {
            self.lemma_return_pins_before_monotonic(i, j - 1);
        }
    }
}

impl ModuleView {
    /// The module without functions or entry points.
    pub open spec fn empty() -> ModuleView {
        ModuleView { functions: Seq::empty(), entry_points: Seq::empty() }
    }

    /// How many functions and entry points the module holds together.
    pub open spec fn len(self) -> nat {
        self.functions.len() + self.entry_points.len()
    }

    /// The handle names a function or an entry point that the module holds.
    pub open spec fn contains(self, handle: FunctionHandle) -> bool {
        match handle {
            FunctionHandle::Function(i) => i < self.functions.len(),
            FunctionHandle::EntryPoint(i) => i < self.entry_points.len(),
        }
    }

    /// The function that the handle names.
    pub open spec fn function(self, handle: FunctionHandle) -> FunctionView {
        match handle {
            FunctionHandle::Function(i) => self.functions[i as int],
            FunctionHandle::EntryPoint(i) => self.entry_points[i as int],
        }
    }

    /// The handle of the `i`-th of the module's functions and entry points:
    /// the functions come first, then the entry points.
    pub open spec fn handle_at(self, i: int) -> FunctionHandle {
        if i < self.functions.len() {
            FunctionHandle::Function(i as usize)
        } else {
            FunctionHandle::EntryPoint((i - self.functions.len()) as usize)
        }
    }

    /// The module with `f` in the place that the handle names.
    pub open spec fn with_function(self, handle: FunctionHandle, f: FunctionView) -> ModuleView {
        match handle {
            FunctionHandle::Function(i) => ModuleView {
                functions: self.functions.update(i as int, f),
                ..self
            },
            FunctionHandle::EntryPoint(i) => ModuleView {
                entry_points: self.entry_points.update(i as int, f),
                ..self
            },
        }
    }

    /// Every function and every entry point can be laid out as a graph.
    pub open spec fn projectable(self) -> bool {
        forall|i: int| 0 <= i < self.len() ==> #[trigger] self.function(self.handle_at(i)).projectable()
    }

    /// Every function and every entry point fits the machine, and so does
    /// their number.
    pub open spec fn fits(self) -> bool {
        &&& self.len() <= usize::MAX
        &&& forall|i: int| 0 <= i < self.len() ==> #[trigger] self.function(self.handle_at(i)).fits()
    }
}

impl Function {
    /// A function without result, expressions or statements.
    pub fn new() -> (function: Self)
        ensures
            function@ == FunctionView::empty(),
    {
        Function { has_result: false, expressions: Vec::new(), body: Vec::new() }
    }
}

impl Function {
    /// How many pins the projection of the function allocates; `None` where
    /// they cannot be counted in a `usize`.
    pub fn pin_demand(&self) -> (demand: Option<usize>)
        ensures
            match demand {
                Some(n) => n == self@.total_pins(),
                None => self@.total_pins() > usize::MAX,
            },
    {
        let ghost f = self@;
        let mut pins: usize = 0;
        let mut i: usize = 0;
        while i < self.expressions.len()
            invariant
                f == self@,
                i <= f.expressions.len(),
                pins == f.pins_before(i as int),
            decreases f.expressions.len() - i,
        {
            let count: usize = match self.expressions[i] {
                Expression::Constant => 1,
                Expression::Binary { .. } => 3,
                Expression::Unsupported(_) => 0,
            };
            pins = match pins.checked_add(count) {
                Some(sum) => sum,
                None => {
                    proof {
                        f.lemma_pins_before_monotonic(i + 1, f.expressions.len() as int);
                    }
                    return None;
                },
            };
            i += 1;
        }
        pins = match pins.checked_add(1) {
            Some(sum) => sum,
            None => {
                return None;
            },
        };
        let each: usize = if self.has_result {
            2
        } else {
            1
        };
        let mut s: usize = 0;
        while s < self.body.len()
            invariant
                f == self@,
                s <= f.body.len(),
                each == f.return_pins(),
                pins == f.pins_before(f.expressions.len() as int) + 1 + f.return_pins_before(s as int),
            decreases f.body.len() - s,
        {
            if let Statement::Return { .. } = self.body[s] {
                pins = match pins.checked_add(each) {
                    Some(sum) => sum,
                    None => {
                        proof {
                            f.lemma_return_pins_before_monotonic(s + 1, f.body.len() as int);
                        }
                        return None;
                    },
                };
            }
            s += 1;
        }
        Some(pins)
    }
}

impl Module {
    /// Whether every function and every entry point fits the machine, and
    /// their number does.
    pub fn fits(&self) -> (fits: bool)
        ensures
            fits == self@.fits(),
    {
        let ghost m = self@;
        if self.functions.len().checked_add(self.entry_points.len()).is_none() {
            return false;
        }
        let mut i: usize = 0;
        while i < self.functions.len()
            invariant
                m == self@,
                m.len() <= usize::MAX,
                i <= m.functions.len(),
                forall|k: int| 0 <= k < i ==> #[trigger] m.function(m.handle_at(k)).fits(),
            decreases m.functions.len() - i,
        {
            if self.functions[i].pin_demand().is_none() {
                assert(!m.function(m.handle_at(i as int)).fits());
                return false;
            }
            proof {
                let function = self.functions@[i as int];
                assert(function.expressions.len() == function.expressions@.len());
                assert(function.body.len() == function.body@.len());
            }
            i += 1;
        }
        let mut j: usize = 0;
        while j < self.entry_points.len()
            invariant
                m == self@,
                m.len() <= usize::MAX,
                j <= m.entry_points.len(),
                forall|k: int|
                    0 <= k < m.functions.len() + j ==> #[trigger] m.function(m.handle_at(k)).fits(),
            decreases m.entry_points.len() - j,
        {
            if self.entry_points[j].pin_demand().is_none() {
                assert(!m.function(m.handle_at(m.functions.len() + j)).fits());
                return false;
            }
            proof {
                let function = self.entry_points@[j as int];
                assert(function.expressions.len() == function.expressions@.len());
                assert(function.body.len() == function.body@.len());
            }
            j += 1;
        }
        true
    }

    /// A module without functions or entry points.
    pub fn new() -> (module: Self)
        ensures
            module@ == ModuleView::empty(),
    {
        Module { functions: Vec::new(), entry_points: Vec::new() }
    }

    /// The function that the handle names.
    pub fn function(&self, handle: FunctionHandle) -> (function: &Function)
        requires
            self@.contains(handle),
        ensures
            function@ == self@.function(handle),
    {
        match handle {
            FunctionHandle::Function(i) => &self.functions[i],
            FunctionHandle::EntryPoint(i) => &self.entry_points[i],
        }
    }
}

} // verus!
