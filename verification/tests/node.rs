use vse_rs::{
    BinaryOperator, EditorError, Expression, ExpressionKind, Function, Node, NodeType,
    PinAttribute, PinRole, Statement, Update,
};

fn sample() -> Function {
    Function {
        has_result: true,
        expressions: vec![
            Expression::Constant,
            Expression::Binary { op: BinaryOperator::Add, left: 0, right: 0 },
            Expression::Binary { op: BinaryOperator::Multiply, left: 0, right: 1 },
            Expression::Unsupported(9),
        ],
        body: vec![Statement::Emit, Statement::Return { value: None }],
    }
}

#[test]
fn pin_counts_by_kind() {
    let function = sample();
    assert_eq!(NodeType::Start.pin_count(&function), Ok(1));
    assert_eq!(NodeType::Expression(0).pin_count(&function), Ok(1));
    assert_eq!(NodeType::Expression(1).pin_count(&function), Ok(3));
    assert_eq!(NodeType::Expression(2).pin_count(&function), Ok(3));
    assert_eq!(NodeType::Return(1).pin_count(&function), Ok(2));
}

#[test]
fn return_has_one_pin_without_result() {
    let mut function = sample();
    function.has_result = false;
    assert_eq!(NodeType::Return(1).pin_count(&function), Ok(1));
}

#[test]
fn pin_count_is_unsupported_for_what_has_no_layout() {
    let function = sample();
    assert_eq!(NodeType::Expression(3).pin_count(&function), Err(EditorError::Unsupported));
    assert_eq!(NodeType::Expression(4).pin_count(&function), Err(EditorError::Unsupported));
    assert_eq!(NodeType::Return(0).pin_count(&function), Err(EditorError::Unsupported));
    assert_eq!(NodeType::Return(2).pin_count(&function), Err(EditorError::Unsupported));
}

#[test]
fn names_by_kind() {
    let function = sample();
    assert_eq!(NodeType::Start.name(&function), Ok("Begin"));
    assert_eq!(NodeType::Return(1).name(&function), Ok("Return"));
    assert_eq!(NodeType::Expression(0).name(&function), Ok("Constant"));
    assert_eq!(NodeType::Expression(1).name(&function), Ok("Addition"));
}

#[test]
fn name_is_unsupported_for_other_operators_and_kinds() {
    let function = sample();
    assert_eq!(NodeType::Expression(2).name(&function), Err(EditorError::Unsupported));
    assert_eq!(NodeType::Expression(3).name(&function), Err(EditorError::Unsupported));
    assert_eq!(NodeType::Expression(4).name(&function), Err(EditorError::Unsupported));
}

#[test]
fn roles_in_pin_order() {
    let function = sample();
    assert_eq!(NodeType::Start.pin_roles(&function), Ok(vec![PinRole::ControlOut]));
    assert_eq!(NodeType::Expression(0).pin_roles(&function), Ok(vec![PinRole::ConstantValue]));
    assert_eq!(
        NodeType::Expression(1).pin_roles(&function),
        Ok(vec![PinRole::Left, PinRole::Right, PinRole::Result])
    );
    assert_eq!(
        NodeType::Return(1).pin_roles(&function),
        Ok(vec![PinRole::ControlIn, PinRole::ReturnValue])
    );
    assert_eq!(NodeType::Expression(3).pin_roles(&function), Err(EditorError::Unsupported));
}

#[test]
fn role_properties_and_labels() {
    let expected = [
        (PinRole::ControlOut, false, true, "Control flow"),
        (PinRole::ControlIn, true, true, "Control flow"),
        (PinRole::ReturnValue, true, false, "value"),
        (PinRole::ConstantValue, false, false, "value"),
        (PinRole::Left, true, false, "left"),
        (PinRole::Right, true, false, "right"),
        (PinRole::Result, false, false, "result"),
    ];
    for (role, input, control_flow, label) in expected {
        assert_eq!(role.input(), input);
        assert_eq!(role.control_flow(), control_flow);
        assert_eq!(role.label(), label);
    }
}

#[test]
fn layout_of_a_binary_node() {
    let function = sample();
    let node = Node { ty: NodeType::Expression(1), base_pin: 10 };
    let layout = node.to_constructor(4, &function).unwrap();
    assert_eq!(layout.id, 4);
    assert_eq!(layout.name, "Addition");
    assert_eq!(
        layout.pins,
        vec![
            PinAttribute { pin: 10, role: PinRole::Left },
            PinAttribute { pin: 11, role: PinRole::Right },
            PinAttribute { pin: 12, role: PinRole::Result },
        ]
    );
}

#[test]
fn layout_of_start_constant_and_return() {
    let mut function = sample();
    let start = Node { ty: NodeType::Start, base_pin: 7 }.to_constructor(0, &function).unwrap();
    assert_eq!(start.name, "Begin");
    assert_eq!(start.pins, vec![PinAttribute { pin: 7, role: PinRole::ControlOut }]);

    let constant =
        Node { ty: NodeType::Expression(0), base_pin: 0 }.to_constructor(1, &function).unwrap();
    assert_eq!(constant.name, "Constant");
    assert_eq!(constant.pins, vec![PinAttribute { pin: 0, role: PinRole::ConstantValue }]);

    let ret = Node { ty: NodeType::Return(1), base_pin: 8 };
    assert_eq!(
        ret.to_constructor(2, &function).unwrap().pins,
        vec![
            PinAttribute { pin: 8, role: PinRole::ControlIn },
            PinAttribute { pin: 9, role: PinRole::ReturnValue },
        ]
    );
    function.has_result = false;
    assert_eq!(
        ret.to_constructor(2, &function).unwrap().pins,
        vec![PinAttribute { pin: 8, role: PinRole::ControlIn }]
    );
}

#[test]
fn layout_is_unsupported_without_name_or_pins() {
    let function = sample();
    let multiply = Node { ty: NodeType::Expression(2), base_pin: 0 };
    assert_eq!(multiply.to_constructor(0, &function).err(), Some(EditorError::Unsupported));
    let unknown = Node { ty: NodeType::Expression(3), base_pin: 0 };
    assert_eq!(unknown.to_constructor(0, &function).err(), Some(EditorError::Unsupported));
    let emit = Node { ty: NodeType::Return(0), base_pin: 0 };
    assert_eq!(emit.to_constructor(0, &function).err(), Some(EditorError::Unsupported));
}

#[test]
fn update_writes_the_left_operand() {
    let mut function = sample();
    let node = Node { ty: NodeType::Expression(2), base_pin: 4 };
    assert!(node.update(&mut function, 4, Update::Expression(1)));
    assert_eq!(
        function.expressions[2],
        Expression::Binary { op: BinaryOperator::Multiply, left: 1, right: 1 }
    );
}

#[test]
fn update_writes_the_right_operand() {
    let mut function = sample();
    let node = Node { ty: NodeType::Expression(1), base_pin: 1 };
    assert!(node.update(&mut function, 2, Update::Expression(2)));
    assert_eq!(
        function.expressions[1],
        Expression::Binary { op: BinaryOperator::Add, left: 0, right: 2 }
    );
}

#[test]
fn update_rejects_what_has_no_slot() {
    let function = sample();
    let binary = Node { ty: NodeType::Expression(1), base_pin: 1 };
    let constant = Node { ty: NodeType::Expression(0), base_pin: 0 };
    let start = Node { ty: NodeType::Start, base_pin: 9 };
    let unknown = Node { ty: NodeType::Expression(3), base_pin: 20 };
    let missing = Node { ty: NodeType::Expression(17), base_pin: 20 };
    let cases = [
        // the output pin of a binary expression
        (binary, 3, Update::Expression(0)),
        // beyond the block
        (binary, 4, Update::Expression(0)),
        // below the block
        (binary, 0, Update::Expression(0)),
        // control flow into an operand
        (binary, 1, Update::ControlFlow),
        // a constant has no input
        (constant, 0, Update::Expression(1)),
        (constant, 0, Update::ControlFlow),
        // the entry marker has no input
        (start, 9, Update::ControlFlow),
        (start, 9, Update::Expression(0)),
        (unknown, 20, Update::Expression(0)),
        (missing, 20, Update::Expression(0)),
    ];
    for (node, pin, update) in cases {
        let mut edited = function.clone();
        assert!(!node.update(&mut edited, pin, update), "{:?} {} {:?}", node, pin, update);
        assert_eq!(edited, function);
    }
}

#[test]
fn update_of_a_return() {
    let mut function = sample();
    let node = Node { ty: NodeType::Return(1), base_pin: 12 };
    assert!(node.update(&mut function, 12, Update::ControlFlow));
    assert_eq!(function, sample());
    assert!(!node.update(&mut function, 12, Update::Expression(0)));
    assert!(!node.update(&mut function, 13, Update::ControlFlow));
    assert!(!node.update(&mut function, 14, Update::Expression(0)));
    assert_eq!(function, sample());
    assert!(node.update(&mut function, 13, Update::Expression(2)));
    assert_eq!(function.body[1], Statement::Return { value: Some(2) });
    assert_eq!(function.expressions, sample().expressions);
}

#[test]
fn return_without_result_has_no_value_slot() {
    let mut function = sample();
    function.has_result = false;
    let before = function.clone();
    let node = Node { ty: NodeType::Return(1), base_pin: 12 };
    assert!(!node.update(&mut function, 13, Update::Expression(0)));
    assert_eq!(function, before);
    assert!(node.update(&mut function, 12, Update::ControlFlow));
}

#[test]
fn fresh_expressions_have_placeholder_operands() {
    assert_eq!(ExpressionKind::Constant.expression(), Expression::Constant);
    assert_eq!(
        ExpressionKind::Binary(BinaryOperator::Add).expression(),
        Expression::Binary { op: BinaryOperator::Add, left: 1, right: 1 }
    );
}
