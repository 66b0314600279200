use emat::parse::ast::{ASTNode, AssignmentProp, Operation};
use emat::parse::tokens::{LexError, Span, Token, TokenData};
use emat::parse::{parse as read, Boxed, ParseError, Parser, SyntaxError};

fn literal(text: &String) -> u64 {
    text.parse::<f64>().unwrap_or(f64::NAN).to_bits()
}

fn parse(src: &str) -> Result<ASTNode, ParseError> {
    Parser::new(src.to_string()).unwrap().gen_ast(&literal)
}

fn statements(src: &str) -> Vec<ASTNode> {
    parse(src).unwrap().try_program().unwrap()
}

fn num(text: &str) -> ASTNode {
    ASTNode::NumericLiteral(text.parse::<f64>().unwrap().to_bits())
}

fn ident(name: &str) -> ASTNode {
    ASTNode::Identifier(name.to_string())
}

fn bin(left: ASTNode, operation: Operation, right: ASTNode) -> ASTNode {
    ASTNode::BinaryExpression { left: Box::new(left), right: Box::new(right), operation }
}

fn eof() -> TokenData {
    TokenData { t: Token::EOF, span: Span { start: 0, end: 0 }, slice: "__EOF__".to_string() }
}

#[test]
fn multiplication_binds_tighter_than_addition() {
    assert_eq!(
        parse("1+2*3"),
        Ok(ASTNode::Program(vec![bin(
            num("1"),
            Operation::Add,
            bin(num("2"), Operation::Mul, num("3"))
        )]))
    );
}

#[test]
fn parentheses_group() {
    assert_eq!(
        parse("(1+2)*3"),
        Ok(ASTNode::Program(vec![bin(
            bin(num("1"), Operation::Add, num("2")),
            Operation::Mul,
            num("3")
        )]))
    );
}

#[test]
fn operators_of_one_tier_fold_to_the_left() {
    assert_eq!(
        statements("1-2+3"),
        vec![bin(bin(num("1"), Operation::Sub, num("2")), Operation::Add, num("3"))]
    );
    assert_eq!(
        statements("8/4*2"),
        vec![bin(bin(num("8"), Operation::Div, num("4")), Operation::Mul, num("2"))]
    );
}

#[test]
fn two_parses_of_one_text_are_equal() {
    let src = "add(a,b) = a + b\nx = add(2, 3) * (4 - 1)\nx / 2";
    let first = parse(src);
    let second = parse(src);
    assert!(first.is_ok());
    assert_eq!(first, second);
}

#[test]
fn an_empty_source_is_an_empty_program() {
    assert_eq!(parse(""), Ok(ASTNode::Program(vec![])));
}

#[test]
fn an_assignment_has_a_target_on_its_left() {
    assert_eq!(
        statements("x = 5"),
        vec![bin(
            ASTNode::AssignmentProp(AssignmentProp::Identifier("x".to_string())),
            Operation::Assign,
            num("5")
        )]
    );
}

#[test]
fn assignment_folds_with_the_sums() {
    assert_eq!(
        statements("x = 1 + 2"),
        vec![bin(
            bin(
                ASTNode::AssignmentProp(AssignmentProp::Identifier("x".to_string())),
                Operation::Assign,
                num("1")
            ),
            Operation::Add,
            num("2")
        )]
    );
}

#[test]
fn a_line_feed_in_atom_position_is_minus_one() {
    assert_eq!(statements("\n"), vec![num("-1")]);
    assert_eq!(
        statements("x = 5\nx + 1"),
        vec![
            bin(
                ASTNode::AssignmentProp(AssignmentProp::Identifier("x".to_string())),
                Operation::Assign,
                num("5")
            ),
            num("-1"),
            bin(ident("x"), Operation::Add, num("1")),
        ]
    );
}

#[test]
fn a_call_keeps_its_arguments_in_order() {
    assert_eq!(
        statements("f(1, x, 2*3)"),
        vec![ASTNode::FunctionCall {
            name: "f".to_string(),
            args: vec![num("1"), ident("x"), bin(num("2"), Operation::Mul, num("3"))],
        }]
    );
    assert_eq!(
        statements("f()"),
        vec![ASTNode::FunctionCall { name: "f".to_string(), args: vec![] }]
    );
}

#[test]
fn names_in_parentheses_before_an_equals_sign_define_a_function() {
    assert_eq!(
        statements("add(a,b) = a + b"),
        vec![ASTNode::FunctionDefinition {
            name: "add".to_string(),
            args: vec!["a".to_string(), "b".to_string()],
            body: Box::new(bin(ident("a"), Operation::Add, ident("b"))),
        }]
    );
    assert_eq!(
        statements("one() = 1"),
        vec![ASTNode::FunctionDefinition {
            name: "one".to_string(),
            args: vec![],
            body: Box::new(num("1")),
        }]
    );
}

#[test]
fn names_in_parentheses_without_an_equals_sign_are_a_call() {
    assert_eq!(
        statements("add(a,b)"),
        vec![ASTNode::FunctionCall {
            name: "add".to_string(),
            args: vec![ident("a"), ident("b")],
        }]
    );
}

#[test]
fn a_call_is_no_assignment_target() {
    let err = parse("f(1) = 2").unwrap_err();
    assert_eq!(
        err,
        ParseError::InvalidAssignmentTarget(TokenData {
            t: Token::Assign,
            span: Span { start: 5, end: 6 },
            slice: "=".to_string(),
        })
    );
    let err = parse("f(a, 1) = 2").unwrap_err();
    assert!(matches!(err, ParseError::InvalidAssignmentTarget(_)));
}

#[test]
fn a_number_is_no_assignment_target() {
    assert!(matches!(parse("1 = 2"), Err(ParseError::InvalidAssignmentTarget(_))));
    assert!(matches!(parse("x + 1 = 2"), Err(ParseError::InvalidAssignmentTarget(_))));
    assert!(matches!(parse("x = y = 2"), Err(ParseError::InvalidAssignmentTarget(_))));
}

#[test]
fn a_missing_closing_parenthesis_is_an_error() {
    assert_eq!(
        parse("(1+2"),
        Err(ParseError::ExpectedToken {
            expected: Token::RParen,
            found: eof(),
            reason: "Expected a ')'.".to_string(),
        })
    );
    assert_eq!(
        parse("f(a b)"),
        Err(ParseError::ExpectedToken {
            expected: Token::RParen,
            found: TokenData {
                t: Token::Ident,
                span: Span { start: 4, end: 5 },
                slice: "b".to_string(),
            },
            reason: "Expected a ')'.".to_string(),
        })
    );
}

#[test]
fn a_token_that_starts_no_atom_is_an_error() {
    assert_eq!(parse("1 +"), Err(ParseError::UnexpectedToken(eof())));
    assert_eq!(parse("f(a,"), Err(ParseError::UnexpectedToken(eof())));
    assert_eq!(
        parse(")"),
        Err(ParseError::UnexpectedToken(TokenData {
            t: Token::RParen,
            span: Span { start: 0, end: 1 },
            slice: ")".to_string(),
        }))
    );
    assert!(matches!(parse("[1]"), Err(ParseError::UnexpectedToken(_))));
    assert!(matches!(parse("1 2 * /"), Err(ParseError::UnexpectedToken(_))));
}

#[test]
fn a_source_that_does_not_tokenize_gives_no_parser() {
    match Parser::new("1 + $".to_string()) {
        Err(e) => assert_eq!(e, LexError { span: Span { start: 4, end: 5 } }),
        Ok(_) => panic!("a parser was made"),
    }
}

#[test]
fn expect_looks_at_the_current_token_and_leaves_it() {
    let mut parser = Parser::new("a b".to_string()).unwrap();
    let a = TokenData { t: Token::Ident, span: Span { start: 0, end: 1 }, slice: "a".to_string() };
    assert_eq!(parser.expect(Token::Ident, "a name"), Ok(a.clone()));
    assert_eq!(parser.expect(Token::Ident, "a name"), Ok(a.clone()));
    assert_eq!(
        parser.expect(Token::Comma, "a comma"),
        Err(ParseError::ExpectedToken {
            expected: Token::Comma,
            found: a,
            reason: "a comma".to_string(),
        })
    );
    assert_eq!(
        parser.gen_ast(&literal),
        Ok(ASTNode::Program(vec![ident("a"), ident("b")]))
    );
    assert_eq!(parser.expect(Token::EOF, "the end"), Ok(eof()));
}

#[test]
fn try_string_and_try_program_pick_their_variants() {
    assert_eq!(ident("x").try_string(), Some("x".to_string()));
    assert_eq!(num("1").try_string(), None);
    assert_eq!(ASTNode::Program(vec![num("1")]).try_program(), Some(vec![num("1")]));
    assert_eq!(ident("x").try_program(), None);
}

#[test]
fn a_copy_of_a_tree_equals_the_tree() {
    let tree = parse("f(a) = a * (2 + g(a, 1))\nf(3)").unwrap();
    assert_eq!(tree.clone(), tree);
}

#[test]
fn a_text_is_read_in_one_step() {
    assert_eq!(read("1+2", &literal), Ok(ASTNode::Program(vec![bin(num("1"), Operation::Add, num("2"))])));
    assert_eq!(read("1 ~ 2", &literal), Err(SyntaxError::Lex(LexError { span: Span { start: 2, end: 3 } })));
    assert_eq!(read("1 +", &literal), Err(SyntaxError::Parse(ParseError::UnexpectedToken(eof()))));
    assert_eq!(read("f(x) = x\nf(2)", &literal), parse("f(x) = x\nf(2)").map_err(SyntaxError::Parse));
}

#[test]
fn a_parse_error_says_what_went_wrong() {
    assert_eq!(parse(")").unwrap_err().message(), "Unexpected token ) at bytes 0..1");
    assert_eq!(parse("1 +").unwrap_err().message(), "Unexpected token __EOF__ at bytes 0..0");
    assert_eq!(
        parse("(1 2345678901").unwrap_err().message(),
        "Expected a ')'. Found 2345678901 at bytes 3..13"
    );
    assert_eq!(
        parse("1 = 2").unwrap_err().message(),
        "Nothing to assign to before = at bytes 2..3"
    );
}

#[test]
fn a_node_is_copied_into_a_box() {
    let node = bin(num("1"), Operation::Add, ident("x"));
    let boxed: Box<ASTNode> = node.boxed();
    assert_eq!(*boxed, node);
}

#[test]
fn a_literal_holds_its_number() {
    assert_eq!(statements("2.5"), vec![ASTNode::NumericLiteral(2.5f64.to_bits())]);
    assert_eq!(statements("1.0"), statements("1.00"));
    assert_eq!(statements("1.0"), statements("1"));
    assert_eq!(statements("\n"), vec![ASTNode::NumericLiteral((-1.0f64).to_bits())]);
    assert_eq!(emat::parse::ast::MINUS_ONE, (-1.0f64).to_bits());
}

#[test]
fn the_number_of_a_literal_is_what_the_callers_function_says() {
    let length = |text: &String| text.len() as u64;
    assert_eq!(
        Parser::new("123 + 4.5".to_string()).unwrap().gen_ast(&length),
        Ok(ASTNode::Program(vec![bin(
            ASTNode::NumericLiteral(3),
            Operation::Add,
            ASTNode::NumericLiteral(3)
        )]))
    );
    assert_eq!(read("12345", &length), Ok(ASTNode::Program(vec![ASTNode::NumericLiteral(5)])));
}
