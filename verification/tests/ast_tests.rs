use expr_ast::ast::{make_ast, AstError, AST};
use expr_ast::nodes::{Classification, Node, ParseResult, Token, TokenType};

fn node(c: Classification, value: &str, tt: TokenType) -> Node {
    Node {
        classification: c,
        token: Token { value: String::from(value), token_type: tt },
        left: None,
        right: None,
        parent: None,
    }
}

/// Links the given nodes into the flat doubly linked chain a grouping front
/// end would hand over, seeded at index 0.
fn chain(mut nodes: Vec<Node>) -> ParseResult {
    let n = nodes.len();
    for i in 0..n {
        nodes[i].left = if i == 0 { None } else { Some(i - 1) };
        nodes[i].right = if i + 1 == n { None } else { Some(i + 1) };
        nodes[i].parent = None;
    }
    let sub_expressions = if n == 0 { vec![] } else { vec![0] };
    ParseResult { nodes, sub_expressions }
}

fn ast_from(nodes: Vec<Node>) -> AST {
    make_ast(chain(nodes)).unwrap()
}

fn single_leaf_ast(c: Classification, value: &str, tt: TokenType) {
    let ast = ast_from(vec![node(c, value, tt)]);
    assert_eq!(ast.nodes, vec![node(c, value, tt)]);
    assert_eq!(ast.root, 0);
    assert_eq!(ast.sub_roots, vec![]);
}

#[test]
fn create_empty() {
    let ast = ast_from(vec![]);
    assert_eq!(
        ast.nodes,
        vec![node(Classification::Literal, "", TokenType::UnitLiteral)]
    );
    assert_eq!(ast.root, 0);
    assert_eq!(ast.sub_roots, vec![]);
}

#[test]
fn number_only() {
    single_leaf_ast(Classification::Literal, "10", TokenType::Number);
}

#[test]
fn character_only() {
    single_leaf_ast(Classification::Literal, "a", TokenType::Character);
}

#[test]
fn character_list_only() {
    single_leaf_ast(Classification::Literal, "hello world", TokenType::CharacterList);
}

#[test]
fn identifier_only() {
    single_leaf_ast(Classification::Literal, "my_value", TokenType::Identifier);
}

#[test]
fn symbol_only() {
    single_leaf_ast(Classification::Literal, ":", TokenType::SymbolOperator);
}

#[test]
fn unit_only() {
    single_leaf_ast(Classification::Literal, "()", TokenType::UnitLiteral);
}

#[test]
fn input_only() {
    single_leaf_ast(Classification::Literal, "$", TokenType::Input);
}

#[test]
fn result_only() {
    single_leaf_ast(Classification::Literal, "?", TokenType::ResultRef);
}

#[test]
fn iteration_output() {
    single_leaf_ast(Classification::IterationOutput, "|>output", TokenType::IterationOutput);
}

#[test]
fn iteration_skip() {
    single_leaf_ast(Classification::IterationSkip, "|>skip", TokenType::IterationSkip);
}

#[test]
fn iteration_continue() {
    single_leaf_ast(Classification::IterationContinue, "|>continue", TokenType::IterationContinue);
}

#[test]
fn iteration_complete() {
    single_leaf_ast(Classification::IterationComplete, "|>complete", TokenType::IterationComplete);
}

#[test]
fn decimal_is_above_numbers() {
    let ast = ast_from(vec![
        node(Classification::Literal, "3", TokenType::Number),
        node(Classification::Decimal, ".", TokenType::SymbolOperator),
        node(Classification::Literal, "14", TokenType::Number),
    ]);

    let n = ast.nodes.get(0).unwrap();
    assert_eq!(n.parent, Some(1));
    assert_eq!(n.left, None);
    assert_eq!(n.right, None);

    let n = ast.nodes.get(2).unwrap();
    assert_eq!(n.parent, Some(1));
    assert_eq!(n.left, None);
    assert_eq!(n.right, None);

    let n = ast.nodes.get(1).unwrap();
    assert_eq!(n.parent, None);
    assert_eq!(n.left, Some(0));
    assert_eq!(n.right, Some(2));

    assert_eq!(ast.root, 1);
}

#[test]
fn access_is_above_identifiers() {
    let ast = ast_from(vec![
        node(Classification::Literal, "my_object", TokenType::Identifier),
        node(Classification::Access, ".", TokenType::SymbolOperator),
        node(Classification::Literal, "my_value", TokenType::Identifier),
    ]);

    let n = ast.nodes.get(0).unwrap();
    assert_eq!(n.parent, Some(1));
    assert_eq!(n.left, None);
    assert_eq!(n.right, None);

    let n = ast.nodes.get(2).unwrap();
    assert_eq!(n.parent, Some(1));
    assert_eq!(n.left, None);
    assert_eq!(n.right, None);

    let n = ast.nodes.get(1).unwrap();
    assert_eq!(n.parent, None);
    assert_eq!(n.left, Some(0));
    assert_eq!(n.right, Some(2));

    assert_eq!(ast.root, 1);
}

#[test]
fn access_is_above_decimal() {
    let ast = ast_from(vec![
        node(Classification::Literal, "3", TokenType::Number),
        node(Classification::Decimal, ".", TokenType::SymbolOperator),
        node(Classification::Literal, "14", TokenType::Number),
        node(Classification::Access, ".", TokenType::SymbolOperator),
        node(Classification::Literal, "my_value", TokenType::Identifier),
    ]);

    let n = ast.nodes.get(0).unwrap();
    assert_eq!(n.parent, Some(1));
    assert_eq!(n.left, None);
    assert_eq!(n.right, None);

    let n = ast.nodes.get(1).unwrap();
    assert_eq!(n.parent, Some(3));
    assert_eq!(n.left, Some(0));
    assert_eq!(n.right, Some(2));

    let n = ast.nodes.get(2).unwrap();
    assert_eq!(n.parent, Some(1));
    assert_eq!(n.left, None);
    assert_eq!(n.right, None);

    let n = ast.nodes.get(3).unwrap();
    assert_eq!(n.parent, None);
    assert_eq!(n.left, Some(1));
    assert_eq!(n.right, Some(4));

    let n = ast.nodes.get(4).unwrap();
    assert_eq!(n.parent, Some(3));
    assert_eq!(n.left, None);
    assert_eq!(n.right, None);

    assert_eq!(ast.root, 3);
}

#[test]
fn absolute_value() {
    let ast = ast_from(vec![
        node(Classification::AbsoluteValue, "+", TokenType::SymbolOperator),
        node(Classification::Literal, "10", TokenType::Number),
    ]);

    let n = ast.nodes.get(0).unwrap();
    assert_eq!(n.parent, None);
    assert_eq!(n.left, None);
    assert_eq!(n.right, Some(1));

    let n = ast.nodes.get(1).unwrap();
    assert_eq!(n.parent, Some(0));
    assert_eq!(n.left, None);
    assert_eq!(n.right, None);
}

#[test]
fn negation() {
    let ast = ast_from(vec![
        node(Classification::Negation, "-", TokenType::SymbolOperator),
        node(Classification::Literal, "10", TokenType::Number),
    ]);

    let n = ast.nodes.get(0).unwrap();
    assert_eq!(n.parent, None);
    assert_eq!(n.left, None);
    assert_eq!(n.right, Some(1));

    let n = ast.nodes.get(1).unwrap();
    assert_eq!(n.parent, Some(0));
    assert_eq!(n.left, None);
    assert_eq!(n.right, None);
}

#[test]
fn not() {
    let ast = ast_from(vec![
        node(Classification::Not, "!", TokenType::SymbolOperator),
        node(Classification::Literal, "10", TokenType::Number),
    ]);

    let n = ast.nodes.get(0).unwrap();
    assert_eq!(n.parent, None);
    assert_eq!(n.left, None);
    assert_eq!(n.right, Some(1));

    let n = ast.nodes.get(1).unwrap();
    assert_eq!(n.parent, Some(0));
    assert_eq!(n.left, None);
    assert_eq!(n.right, None);
}

#[test]
fn access_is_left_associative() {
    let ast = ast_from(vec![
        node(Classification::Literal, "my_object", TokenType::Identifier),
        node(Classification::Access, ".", TokenType::SymbolOperator),
        node(Classification::Literal, "my_value", TokenType::Identifier),
        node(Classification::Access, ".", TokenType::SymbolOperator),
        node(Classification::Literal, "my_field", TokenType::Identifier),
    ]);

    // ((my_object.my_value).my_field): the right access is the root and the
    // left access is its left child.
    assert_eq!(ast.root, 3);

    let n = ast.nodes.get(3).unwrap();
    assert_eq!(n.parent, None);
    assert_eq!(n.left, Some(1));
    assert_eq!(n.right, Some(4));

    let n = ast.nodes.get(1).unwrap();
    assert_eq!(n.parent, Some(3));
    assert_eq!(n.left, Some(0));
    assert_eq!(n.right, Some(2));

    let n = ast.nodes.get(0).unwrap();
    assert_eq!(n.parent, Some(1));
    assert_eq!(n.left, None);
    assert_eq!(n.right, None);

    let n = ast.nodes.get(2).unwrap();
    assert_eq!(n.parent, Some(1));
    assert_eq!(n.left, None);
    assert_eq!(n.right, None);

    let n = ast.nodes.get(4).unwrap();
    assert_eq!(n.parent, Some(3));
    assert_eq!(n.left, None);
    assert_eq!(n.right, None);
}

#[test]
fn reduction_keeps_positions_and_tokens() {
    let input = vec![
        node(Classification::Literal, "3", TokenType::Number),
        node(Classification::Decimal, ".", TokenType::SymbolOperator),
        node(Classification::Literal, "14", TokenType::Number),
        node(Classification::Access, ".", TokenType::SymbolOperator),
        node(Classification::Literal, "my_value", TokenType::Identifier),
    ];
    let ast = ast_from(input.clone());

    // Only link fields change: every node keeps its position,
    // classification and token.
    assert_eq!(ast.nodes.len(), input.len());
    for (got, expected) in ast.nodes.iter().zip(input.iter()) {
        assert_eq!(got.classification, expected.classification);
        assert_eq!(got.token, expected.token);
    }
}

#[test]
fn consumed_literals_are_detached() {
    let ast = ast_from(vec![
        node(Classification::Literal, "3", TokenType::Number),
        node(Classification::Decimal, ".", TokenType::SymbolOperator),
        node(Classification::Literal, "14", TokenType::Number),
        node(Classification::Access, ".", TokenType::SymbolOperator),
        node(Classification::Literal, "my_value", TokenType::Identifier),
    ]);

    // Every literal that gained a parent lost both chain links.
    for n in ast.nodes.iter() {
        if n.classification == Classification::Literal && n.parent.is_some() {
            assert_eq!(n.left, None);
            assert_eq!(n.right, None);
        }
    }
}

#[test]
fn binary_operator_missing_right_operand() {
    let result = make_ast(chain(vec![
        node(Classification::Literal, "my_object", TokenType::Identifier),
        node(Classification::Access, ".", TokenType::SymbolOperator),
    ]));
    assert_eq!(result.unwrap_err(), AstError::MissingOperand);
}

#[test]
fn binary_operator_missing_left_operand() {
    let result = make_ast(chain(vec![
        node(Classification::Access, ".", TokenType::SymbolOperator),
        node(Classification::Literal, "my_value", TokenType::Identifier),
    ]));
    assert_eq!(result.unwrap_err(), AstError::MissingOperand);
}

#[test]
fn lone_binary_operator_has_no_operands() {
    let result = make_ast(chain(vec![node(
        Classification::Decimal,
        ".",
        TokenType::SymbolOperator,
    )]));
    assert_eq!(result.unwrap_err(), AstError::MissingOperand);
}

#[test]
fn prefix_operator_missing_right_operand() {
    let result = make_ast(chain(vec![
        node(Classification::Literal, "10", TokenType::Number),
        node(Classification::Not, "!", TokenType::SymbolOperator),
    ]));
    assert_eq!(result.unwrap_err(), AstError::MissingOperand);
}

#[test]
fn cyclic_parent_links_leave_the_root_unresolved() {
    // Two binary operators whose links point at each other: each consumes
    // the other, so the parent walk never finds a parentless node.
    let mut a = node(Classification::Decimal, ".", TokenType::SymbolOperator);
    a.left = Some(1);
    a.right = Some(1);
    let mut b = node(Classification::Decimal, ".", TokenType::SymbolOperator);
    b.left = Some(0);
    b.right = Some(0);
    let result = make_ast(ParseResult { nodes: vec![a, b], sub_expressions: vec![0] });
    assert_eq!(result.unwrap_err(), AstError::UnresolvedRoot);
}

#[test]
fn iteration_marker_operand_keeps_its_links() {
    // Only literals are scrubbed when consumed; an iteration-control leaf
    // keeps its chain links even once an operator takes it as an operand.
    let ast = ast_from(vec![
        node(Classification::IterationOutput, "|>output", TokenType::IterationOutput),
        node(Classification::Access, ".", TokenType::SymbolOperator),
        node(Classification::Literal, "my_value", TokenType::Identifier),
    ]);

    assert_eq!(ast.root, 1);
    let n = ast.nodes.get(0).unwrap();
    assert_eq!(n.parent, Some(1));
    assert_eq!(n.left, None);
    assert_eq!(n.right, Some(1));
}
