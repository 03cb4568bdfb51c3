use vse_rs::{
    BinaryOperator, EditorError, Expression, Function, FunctionData, FunctionHandle, Node,
    NodeType, Statement,
};

fn add(left: usize, right: usize) -> Expression {
    Expression::Binary { op: BinaryOperator::Add, left, right }
}

fn sum_of_two_constants() -> Function {
    Function {
        has_result: true,
        expressions: vec![Expression::Constant, Expression::Constant, add(0, 1)],
        body: vec![Statement::Return { value: Some(2) }],
    }
}

fn block(node: &Node, function: &Function) -> (usize, usize) {
    let count = node.ty.pin_count(function).unwrap();
    (node.base_pin, node.base_pin + count)
}

#[test]
fn projects_the_sum_of_two_constants() {
    let function = sum_of_two_constants();
    let data = FunctionData::project(FunctionHandle::Function(0), &function).unwrap();
    assert_eq!(data.handle, FunctionHandle::Function(0));
    assert_eq!(
        data.nodes,
        vec![
            Node { ty: NodeType::Expression(0), base_pin: 0 },
            Node { ty: NodeType::Expression(1), base_pin: 1 },
            Node { ty: NodeType::Expression(2), base_pin: 2 },
            Node { ty: NodeType::Start, base_pin: 5 },
            Node { ty: NodeType::Return(0), base_pin: 6 },
        ]
    );
    // (binary.in0, const0.out), (binary.in1, const1.out),
    // (start.out, return.ctrl), (binary.out, return.val)
    assert_eq!(
        data.links,
        vec![(2, 0, false), (3, 1, false), (5, 6, true), (4, 7, false)]
    );
    assert_eq!(data.pin_tracker.next_pin(), 8);
    assert_eq!(data.expression_to_pin.len(), 3);
    assert_eq!(data.expression_to_pin[&0], 0);
    assert_eq!(data.expression_to_pin[&1], 1);
    assert_eq!(data.expression_to_pin[&2], 4);
}

#[test]
fn projection_only_reads_the_function() {
    let function = sum_of_two_constants();
    let copy = function.clone();
    let _ = FunctionData::project(FunctionHandle::EntryPoint(3), &function).unwrap();
    assert_eq!(function, copy);
}

#[test]
fn empty_function_projects_to_the_entry_marker() {
    let function = Function::new();
    let data = FunctionData::project(FunctionHandle::Function(0), &function).unwrap();
    assert_eq!(data.nodes, vec![Node { ty: NodeType::Start, base_pin: 0 }]);
    assert!(data.links.is_empty());
    assert!(data.expression_to_pin.is_empty());
    assert_eq!(data.pin_tracker.next_pin(), 1);
}

#[test]
fn return_without_result_owns_one_pin() {
    let function = Function {
        has_result: false,
        expressions: vec![],
        body: vec![Statement::Return { value: None }, Statement::Return { value: None }],
    };
    let data = FunctionData::project(FunctionHandle::Function(0), &function).unwrap();
    assert_eq!(
        data.nodes,
        vec![
            Node { ty: NodeType::Start, base_pin: 0 },
            Node { ty: NodeType::Return(0), base_pin: 1 },
            Node { ty: NodeType::Return(1), base_pin: 2 },
        ]
    );
    assert_eq!(data.links, vec![(0, 1, true), (0, 2, true)]);
    assert_eq!(data.pin_tracker.next_pin(), 3);
}

#[test]
fn return_with_result_and_no_value_owns_two_pins() {
    let function = Function {
        has_result: true,
        expressions: vec![Expression::Constant],
        body: vec![Statement::Return { value: None }, Statement::Return { value: Some(0) }],
    };
    let data = FunctionData::project(FunctionHandle::Function(0), &function).unwrap();
    assert_eq!(
        data.nodes,
        vec![
            Node { ty: NodeType::Expression(0), base_pin: 0 },
            Node { ty: NodeType::Start, base_pin: 1 },
            Node { ty: NodeType::Return(0), base_pin: 2 },
            Node { ty: NodeType::Return(1), base_pin: 4 },
        ]
    );
    assert_eq!(data.links, vec![(1, 2, true), (1, 4, true), (0, 5, false)]);
    assert_eq!(data.pin_tracker.next_pin(), 6);
}

#[test]
fn emit_has_no_node() {
    let function = Function {
        has_result: true,
        expressions: vec![Expression::Constant],
        body: vec![Statement::Emit, Statement::Return { value: Some(0) }, Statement::Emit],
    };
    let data = FunctionData::project(FunctionHandle::Function(0), &function).unwrap();
    assert_eq!(
        data.nodes,
        vec![
            Node { ty: NodeType::Expression(0), base_pin: 0 },
            Node { ty: NodeType::Start, base_pin: 1 },
            Node { ty: NodeType::Return(1), base_pin: 2 },
        ]
    );
    assert_eq!(data.links, vec![(1, 2, true), (0, 3, false)]);
}

#[test]
fn one_node_each_and_no_shared_pin() {
    let function = Function {
        has_result: true,
        expressions: vec![
            Expression::Constant,
            add(0, 0),
            Expression::Constant,
            add(1, 2),
            add(3, 0),
        ],
        body: vec![
            Statement::Emit,
            Statement::Return { value: Some(4) },
            Statement::Return { value: None },
        ],
    };
    let data = FunctionData::project(FunctionHandle::Function(0), &function).unwrap();
    // five expressions, one entry marker, two returns
    assert_eq!(data.nodes.len(), 5 + 1 + 2);
    for h in 0..5 {
        let count = data.nodes.iter().filter(|n| n.ty == NodeType::Expression(h)).count();
        assert_eq!(count, 1);
    }
    assert_eq!(data.nodes.iter().filter(|n| n.ty == NodeType::Start).count(), 1);
    assert_eq!(data.nodes.iter().filter(|n| n.ty == NodeType::Return(1)).count(), 1);
    assert_eq!(data.nodes.iter().filter(|n| n.ty == NodeType::Return(2)).count(), 1);
    assert_eq!(data.nodes.iter().filter(|n| n.ty == NodeType::Return(0)).count(), 0);
    for i in 0..data.nodes.len() {
        for j in (i + 1)..data.nodes.len() {
            let a = block(&data.nodes[i], &function);
            let b = block(&data.nodes[j], &function);
            assert!(a.1 <= b.0, "blocks {:?} and {:?} overlap", a, b);
        }
    }
    // 1 + 3 + 1 + 3 + 3 pins of expressions, 1 of the entry marker, 2 + 2 of the returns
    assert_eq!(data.pin_tracker.next_pin(), 16);
}

#[test]
fn operands_resolve_to_earlier_nodes() {
    let function = Function {
        has_result: false,
        expressions: vec![Expression::Constant, add(0, 0), add(1, 0), add(2, 1)],
        body: vec![],
    };
    let data = FunctionData::project(FunctionHandle::Function(0), &function).unwrap();
    assert_eq!(
        data.links,
        vec![
            (1, 0, false),
            (2, 0, false),
            (4, 3, false),
            (5, 0, false),
            (7, 6, false),
            (8, 3, false),
        ]
    );
    for (input, output, control_flow) in data.links.iter().copied() {
        assert!(!control_flow);
        let to = data.nodes.iter().position(|n| {
            let (start, end) = block(n, &function);
            start <= input && input < end
        });
        let from = data.nodes.iter().position(|n| {
            let (_, end) = block(n, &function);
            output + 1 == end
        });
        assert!(from.unwrap() < to.unwrap());
    }
}

#[test]
fn unsupported_expression_is_declined() {
    let function = Function {
        has_result: false,
        expressions: vec![Expression::Constant, Expression::Unsupported(7)],
        body: vec![],
    };
    let projected = FunctionData::project(FunctionHandle::Function(0), &function);
    assert_eq!(projected.err(), Some(EditorError::Unsupported));
}

#[test]
fn unsupported_statement_is_declined() {
    let function = Function {
        has_result: false,
        expressions: vec![],
        body: vec![Statement::Return { value: None }, Statement::Unsupported(2)],
    };
    let projected = FunctionData::project(FunctionHandle::Function(0), &function);
    assert_eq!(projected.err(), Some(EditorError::Unsupported));
}

#[test]
fn forward_reference_is_declined() {
    let function = Function {
        has_result: false,
        expressions: vec![add(1, 1), Expression::Constant],
        body: vec![],
    };
    let projected = FunctionData::project(FunctionHandle::Function(0), &function);
    assert_eq!(projected.err(), Some(EditorError::Unsupported));
}

#[test]
fn self_reference_is_declined() {
    let function = Function {
        has_result: false,
        expressions: vec![Expression::Constant, add(0, 1)],
        body: vec![],
    };
    let projected = FunctionData::project(FunctionHandle::Function(0), &function);
    assert_eq!(projected.err(), Some(EditorError::Unsupported));
}

#[test]
fn return_of_a_missing_expression_is_declined() {
    let function = Function {
        has_result: true,
        expressions: vec![Expression::Constant],
        body: vec![Statement::Return { value: Some(1) }],
    };
    let projected = FunctionData::project(FunctionHandle::Function(0), &function);
    assert_eq!(projected.err(), Some(EditorError::Unsupported));
}

#[test]
fn returned_value_without_result_is_declined() {
    let function = Function {
        has_result: false,
        expressions: vec![Expression::Constant],
        body: vec![Statement::Return { value: Some(0) }],
    };
    let projected = FunctionData::project(FunctionHandle::Function(0), &function);
    assert_eq!(projected.err(), Some(EditorError::Unsupported));
}

#[test]
fn any_binary_operator_is_projected() {
    let function = Function {
        has_result: false,
        expressions: vec![
            Expression::Constant,
            Expression::Binary { op: BinaryOperator::ShiftLeft, left: 0, right: 0 },
        ],
        body: vec![],
    };
    let data = FunctionData::project(FunctionHandle::Function(0), &function).unwrap();
    assert_eq!(data.nodes.len(), 3);
    assert_eq!(data.links, vec![(1, 0, false), (2, 0, false)]);
}

#[test]
fn pin_demand_counts_every_block() {
    assert_eq!(Function::new().pin_demand(), Some(1));
    assert_eq!(sum_of_two_constants().pin_demand(), Some(8));
    let function = Function {
        has_result: false,
        expressions: vec![Expression::Constant, Expression::Unsupported(1), add(0, 0)],
        body: vec![Statement::Emit, Statement::Return { value: None }, Statement::Unsupported(4)],
    };
    assert_eq!(function.pin_demand(), Some(1 + 0 + 3 + 1 + 1));
}

#[test]
fn pin_demand_is_the_cursor_after_projection() {
    let function = Function {
        has_result: true,
        expressions: vec![Expression::Constant, add(0, 0), add(1, 0)],
        body: vec![Statement::Return { value: Some(2) }, Statement::Emit, Statement::Return { value: None }],
    };
    let data = FunctionData::project(FunctionHandle::Function(0), &function).unwrap();
    assert_eq!(function.pin_demand(), Some(data.pin_tracker.next_pin()));
}

#[test]
fn ordinary_modules_fit() {
    let module = vse_rs::Module {
        functions: vec![sum_of_two_constants(), Function::new()],
        entry_points: vec![sum_of_two_constants()],
    };
    assert!(module.fits());
    assert!(vse_rs::Module::new().fits());
}
