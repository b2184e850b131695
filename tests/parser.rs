use eel_parser::{
    parse, Assignment, AssignmentOperator, AssignmentTarget, BinaryExpression, BinaryOperator,
    CompilerError, EelFunction, ErrorKind, Expression, ExpressionBlock, FunctionCall, Identifier,
    Lexer, NumberLiteral, Parser, Span, TokenKind, UnaryExpression, UnaryOperator,
};

fn num(text: &str) -> Expression {
    Expression::NumberLiteral(NumberLiteral { text: text.to_string() })
}

fn ident(name: &str, start: usize, end: usize) -> Identifier {
    Identifier { name: name.to_string(), span: Span { start, end } }
}

fn bin(op: BinaryOperator, left: Expression, right: Expression) -> Expression {
    Expression::BinaryExpression(BinaryExpression { left: Box::new(left), right: Box::new(right), op })
}

fn program(expressions: Vec<Expression>) -> EelFunction {
    EelFunction { expressions: ExpressionBlock { expressions } }
}

fn single(src: &str) -> Expression {
    let mut p = parse(src).unwrap();
    assert_eq!(p.expressions.expressions.len(), 1);
    p.expressions.expressions.pop().unwrap()
}

fn value(e: &Expression) -> f64 {
    match e {
        Expression::NumberLiteral(n) => n.text.parse::<f64>().unwrap(),
        other => panic!("not a number: {:?}", other),
    }
}

fn error_kind(src: &str) -> ErrorKind {
    parse(src).unwrap_err().kind
}

#[test]
fn can_parse_integer() {
    let result = Parser::new("1").parse();
    assert_eq!(result, Ok(program(vec![num("1")])));
    assert_eq!(value(&result.unwrap().expressions.expressions[0]), 1.0);
}

#[test]
fn can_parse_integer_2() {
    let result = Parser::new("2").parse();
    assert_eq!(result, Ok(program(vec![num("2")])));
    assert_eq!(value(&result.unwrap().expressions.expressions[0]), 2.0);
}

#[test]
fn power_chains_group_from_the_left() {
    let expected = bin(BinaryOperator::Power, bin(BinaryOperator::Power, num("2"), num("2")), num("4"));
    assert_eq!(single("2 ^ 2 ^ 4"), expected);
}

#[test]
fn power_binds_tighter_than_product() {
    assert_eq!(
        single("2 ^ 2 * 4"),
        bin(BinaryOperator::Multiply, bin(BinaryOperator::Power, num("2"), num("2")), num("4"))
    );
    assert_eq!(
        single("2 * 2 ^ 4"),
        bin(BinaryOperator::Multiply, num("2"), bin(BinaryOperator::Power, num("2"), num("4")))
    );
}

#[test]
fn modulo_and_power_share_a_level() {
    assert_eq!(
        single("2 % 5 ^ 2"),
        bin(BinaryOperator::Power, bin(BinaryOperator::Modulo, num("2"), num("5")), num("2"))
    );
    assert_eq!(
        single("2 ^ 5 % 2"),
        bin(BinaryOperator::Modulo, bin(BinaryOperator::Power, num("2"), num("5")), num("2"))
    );
    assert_eq!(
        single("2 * 5 % 2"),
        bin(BinaryOperator::Multiply, num("2"), bin(BinaryOperator::Modulo, num("5"), num("2")))
    );
}

#[test]
fn sum_product_comparison_logic_levels() {
    assert_eq!(
        single("1 + 1 * 10"),
        bin(BinaryOperator::Add, num("1"), bin(BinaryOperator::Multiply, num("1"), num("10")))
    );
    assert_eq!(
        single("1 - 2 - 3"),
        bin(BinaryOperator::Subtract, bin(BinaryOperator::Subtract, num("1"), num("2")), num("3"))
    );
    assert_eq!(
        single("1 < 2 && 3 == 4"),
        bin(
            BinaryOperator::And,
            bin(BinaryOperator::Lt, num("1"), num("2")),
            bin(BinaryOperator::Eq, num("3"), num("4"))
        )
    );
    assert_eq!(
        single("1 | 2 & 3"),
        bin(BinaryOperator::BitAnd, bin(BinaryOperator::BitOr, num("1"), num("2")), num("3"))
    );
}

#[test]
fn unary_binds_tightest() {
    let neg_one = Expression::UnaryExpression(UnaryExpression { right: Box::new(num("1")), op: UnaryOperator::Minus });
    assert_eq!(single("-1 + 1"), bin(BinaryOperator::Add, neg_one, num("1")));
    let not = Expression::UnaryExpression(UnaryExpression { right: Box::new(num("0.1")), op: UnaryOperator::Not });
    assert_eq!(single("!0.1"), not);
}

#[test]
fn names_are_folded_to_lower_case() {
    assert_eq!(parse("InT(10)"), parse("int(10)"));
    assert_eq!(
        single("G = 10;"),
        Expression::Assignment(Assignment {
            left: AssignmentTarget::Identifier(ident("g", 0, 1)),
            operator: AssignmentOperator::Equal,
            right: Box::new(num("10")),
        })
    );
    assert_eq!(single("MegaBuf_2"), Expression::Identifier(ident("megabuf_2", 0, 9)));
}

#[test]
fn numeric_literal_edge_cases() {
    assert_eq!(single(".5"), num("0.5"));
    assert_eq!(value(&single(".5")), 0.5);
    assert_eq!(single("5."), num("5."));
    assert_eq!(value(&single("5.")), 5.0);
    assert_eq!(single("."), num("0."));
    assert_eq!(value(&single(".")), 0.0);
    assert_eq!(value(&single("0.000009")), 0.000009);
}

#[test]
fn invalid_number_is_rejected() {
    assert_eq!(
        parse("g = 1.2.3;"),
        Err(CompilerError { kind: ErrorKind::InvalidNumber, span: Span { start: 4, end: 9 } })
    );
}

#[test]
fn assignment_is_an_expression() {
    let inner = Expression::Assignment(Assignment {
        left: AssignmentTarget::Identifier(ident("a", 4, 5)),
        operator: AssignmentOperator::Equal,
        right: Box::new(num("10")),
    });
    assert_eq!(
        single("g = a = 10"),
        Expression::Assignment(Assignment {
            left: AssignmentTarget::Identifier(ident("g", 0, 1)),
            operator: AssignmentOperator::Equal,
            right: Box::new(inner),
        })
    );
}

#[test]
fn short_circuit_right_side_holds_the_assignment() {
    let assign = Expression::Assignment(Assignment {
        left: AssignmentTarget::Identifier(ident("g", 5, 6)),
        operator: AssignmentOperator::Equal,
        right: Box::new(num("10")),
    });
    assert_eq!(single("0 && g = 10"), bin(BinaryOperator::And, num("0"), assign));
    let p = parse("1 || (g = 10); g").unwrap();
    assert_eq!(p.expressions.expressions.len(), 2);
}

#[test]
fn compound_assignment_operators() {
    let ops = [
        ("g += 1", AssignmentOperator::PlusEqual),
        ("g -= 1", AssignmentOperator::MinusEqual),
        ("g *= 1", AssignmentOperator::TimesEqual),
        ("g /= 1", AssignmentOperator::DivideEqual),
        ("g %= 1", AssignmentOperator::ModEqual),
    ];
    for (src, op) in ops {
        match single(src) {
            Expression::Assignment(a) => assert_eq!(a.operator, op),
            other => panic!("{:?}", other),
        }
    }
}

#[test]
fn buffer_slot_assignment_target() {
    let call = FunctionCall { name: ident("megabuf", 0, 7), arguments: vec![num("8388607")] };
    assert_eq!(
        single("megabuf(8388607) = 10"),
        Expression::Assignment(Assignment {
            left: AssignmentTarget::FunctionCall(call),
            operator: AssignmentOperator::Equal,
            right: Box::new(num("10")),
        })
    );
}

#[test]
fn calls_take_zero_or_more_arguments() {
    assert_eq!(
        single("rand()"),
        Expression::FunctionCall(FunctionCall { name: ident("rand", 0, 4), arguments: vec![] })
    );
    match single("atan2(1, 1.0)") {
        Expression::FunctionCall(c) => assert_eq!(c.arguments, vec![num("1"), num("1.0")]),
        other => panic!("{:?}", other),
    }
}

#[test]
fn trailing_comma_in_call_is_an_error() {
    assert_eq!(error_kind("f(1,)"), ErrorKind::ExpectedExpression { found: TokenKind::CloseParen });
}

#[test]
fn missing_argument_separator_is_an_error() {
    assert_eq!(
        parse("f(1 2)"),
        Err(CompilerError {
            kind: ErrorKind::ExpectedArgumentSeparator { found: TokenKind::Int },
            span: Span { start: 4, end: 5 },
        })
    );
}

#[test]
fn unclosed_group_reports_end_of_file() {
    assert_eq!(
        parse("(1"),
        Err(CompilerError {
            kind: ErrorKind::UnexpectedToken { expected: TokenKind::CloseParen, found: TokenKind::EOF },
            span: Span { start: 2, end: 2 },
        })
    );
}

#[test]
fn unexpected_character_is_an_error() {
    assert_eq!(
        parse("g = #"),
        Err(CompilerError { kind: ErrorKind::UnexpectedCharacter, span: Span { start: 4, end: 5 } })
    );
}

#[test]
fn expressions_need_separating_semicolons() {
    assert_eq!(
        error_kind("1 2"),
        ErrorKind::UnexpectedToken { expected: TokenKind::EOF, found: TokenKind::Int }
    );
}

#[test]
fn semicolons_are_optional_and_repeatable() {
    let p = parse("g = 10;;; ;g = 20;;").unwrap();
    assert_eq!(p.expressions.expressions.len(), 2);
    assert_eq!(parse("g = 1").unwrap().expressions.expressions.len(), 1);
    assert_eq!(parse("").unwrap(), program(vec![]));
    assert_eq!(parse(";").unwrap(), program(vec![]));
}

#[test]
fn parenthesised_group_is_a_block() {
    assert_eq!(
        single("(0; 20 + 5;)"),
        Expression::ExpressionBlock(ExpressionBlock {
            expressions: vec![num("0"), bin(BinaryOperator::Add, num("20"), num("5"))],
        })
    );
    assert_eq!(single("()"), Expression::ExpressionBlock(ExpressionBlock { expressions: vec![] }));
}

#[test]
fn comments_are_skipped() {
    assert_eq!(parse("g = 10; // g = 20;").unwrap().expressions.expressions.len(), 1);
    assert_eq!(parse("g = 10; \\\\ g = 20;").unwrap().expressions.expressions.len(), 1);
    assert_eq!(parse("g = 1; /* g = 10 */ g = g * 2;").unwrap().expressions.expressions.len(), 2);
    assert_eq!(parse("g = 1;\n// note\ng = 2").unwrap().expressions.expressions.len(), 2);
}

#[test]
fn parsing_twice_gives_equal_programs() {
    let src = "a = 10; g = (megabuf(a) += 2 ^ 3 % 2; if(g, -a, !b)); loop(2, g *= .5)";
    assert_eq!(parse(src), parse(src));
    assert!(parse(src).is_ok());
}

#[test]
fn lexer_returns_end_of_file_repeatedly() {
    let mut lexer = Lexer::new("ab <= 1.5");
    let kinds: Vec<TokenKind> = (0..5).map(|_| lexer.next_token().unwrap().kind).collect();
    assert_eq!(
        kinds,
        vec![TokenKind::Identifier, TokenKind::LessEqual, TokenKind::Int, TokenKind::EOF, TokenKind::EOF]
    );
}

#[test]
fn expression_block_parses_from_current_token() {
    let mut parser = Parser::new("1; 2");
    let mut tail = Parser::new("");
    assert!(tail.parse_program().is_ok());
    // the start-of-file token is not an expression, so a block read before it is empty
    assert_eq!(parser.parse_expression_block(), Ok(ExpressionBlock { expressions: vec![] }));
}
