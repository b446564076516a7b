use calnium::lexer::{LexError, Lexer};
use calnium::nodes::Node;
use calnium::parser::{ParseError, Parser};
use calnium::tokens::Token;
use calnium::transpiler::transpile;

fn parse_str(s: &str) -> Result<Box<Node>, ParseError> {
    let mut parser = Parser::new(Lexer::new(s));
    parser.parse()
}

fn eval(n: &Node) -> f64 {
    match n {
        Node::NumberNode(s) => s.parse::<f64>().unwrap(),
        Node::AddNode(a, b) => eval(a) + eval(b),
        Node::SubtractNode(a, b) => eval(a) - eval(b),
        Node::MultiplyNode(a, b) => eval(a) * eval(b),
        Node::DivideNode(a, b) => eval(a) / eval(b),
        Node::PlusNode(a) => eval(a),
        Node::MinusNode(a) => -1.0 * eval(a),
    }
}

fn eval_str(s: &str) -> f64 {
    eval(&parse_str(s).unwrap())
}

#[test]
fn precedence_multiplication_first() {
    assert_eq!(eval_str("2 + 3 * 4"), 14.0);
}

#[test]
fn precedence_parentheses_reset() {
    assert_eq!(eval_str("(2 + 3) * 4"), 20.0);
}

#[test]
fn subtraction_is_left_associative() {
    assert_eq!(eval_str("10 - 2 - 3"), 5.0);
}

#[test]
fn division_is_left_associative() {
    assert_eq!(eval_str("100 / 10 / 2"), 5.0);
}

#[test]
fn unary_minus_chains() {
    assert_eq!(eval_str("--5"), 5.0);
    assert_eq!(eval_str("-(-5)"), 5.0);
}

#[test]
fn unary_plus_is_identity() {
    assert_eq!(eval_str("+7"), 7.0);
    assert_eq!(eval_str("++7"), 7.0);
}

#[test]
fn division_by_zero_is_positive_infinity() {
    let v = eval_str("1/0");
    assert!(v.is_infinite());
    assert!(v > 0.0);
}

#[test]
fn decimal_arithmetic() {
    assert_eq!(eval_str("10 / 4"), 2.5);
    assert_eq!(eval_str("1.5 + 2.25"), 3.75);
}

#[test]
fn precedence_shows_in_tree_shape() {
    let node = parse_str("2 + 3 * 4").unwrap();
    match *node {
        Node::AddNode(left, right) => {
            assert!(matches!(*left, Node::NumberNode(_)));
            assert!(matches!(*right, Node::MultiplyNode(_, _)));
        }
        other => panic!("expected an addition at the root, got {:?}", other),
    }
}

#[test]
fn whitespace_is_skipped() {
    assert_eq!(eval_str("  1 \t+\n 2 "), 3.0);
}

#[test]
fn illegal_character_is_a_lex_error() {
    let mut lexer = Lexer::new("2 + @");
    assert_eq!(lexer.next(), Some(Ok(Token::Number("2".to_string()))));
    assert_eq!(lexer.next(), Some(Ok(Token::Plus)));
    assert_eq!(lexer.next(), Some(Err(LexError::IllegalCharacter('@'))));
}

#[test]
fn illegal_character_surfaces_through_parse() {
    assert_eq!(
        parse_str("2 + @"),
        Err(ParseError::LexError(LexError::IllegalCharacter('@')))
    );
}

#[test]
fn unclosed_parenthesis_is_a_syntax_error() {
    assert_eq!(parse_str("(1 + 2"), Err(ParseError::InvalidSyntax));
}

#[test]
fn trailing_token_is_a_syntax_error() {
    assert_eq!(parse_str("1 2"), Err(ParseError::InvalidSyntax));
    assert_eq!(parse_str("1 + 2)"), Err(ParseError::InvalidSyntax));
}

#[test]
fn empty_input_is_reported() {
    assert_eq!(parse_str(""), Err(ParseError::EmptyInput));
    assert_eq!(parse_str("   "), Err(ParseError::EmptyInput));
}

#[test]
fn operator_without_operand_is_a_syntax_error() {
    assert_eq!(parse_str("1 +"), Err(ParseError::InvalidSyntax));
    assert_eq!(parse_str("* 2"), Err(ParseError::InvalidSyntax));
}

#[test]
fn exhausted_lexer_keeps_yielding_none() {
    let mut lexer = Lexer::new("1");
    assert_eq!(lexer.next(), Some(Ok(Token::Number("1".to_string()))));
    assert_eq!(lexer.next(), None);
    assert_eq!(lexer.next(), None);
}

#[test]
fn numerals_are_normalized() {
    let mut lexer = Lexer::new(".5 5. .");
    assert_eq!(lexer.next(), Some(Ok(Token::Number("0.5".to_string()))));
    assert_eq!(lexer.next(), Some(Ok(Token::Number("5.0".to_string()))));
    assert_eq!(lexer.next(), Some(Ok(Token::Number("0.0".to_string()))));
    assert_eq!(lexer.next(), None);
}

#[test]
fn second_point_ends_the_numeral() {
    let mut lexer = Lexer::new("1.2.3");
    assert_eq!(lexer.next(), Some(Ok(Token::Number("1.2".to_string()))));
    assert_eq!(lexer.next(), Some(Ok(Token::Number("0.3".to_string()))));
    assert_eq!(lexer.next(), None);
}

#[test]
fn numeral_of_two_leading_points_is_malformed() {
    let mut lexer = Lexer::new("..");
    assert_eq!(
        lexer.next(),
        Some(Err(LexError::MalformedNumber("0..0".to_string())))
    );
}

#[test]
fn malformed_numeral_surfaces_through_parse() {
    assert_eq!(
        parse_str(".5.3"),
        Err(ParseError::LexError(LexError::MalformedNumber(
            "0.5.3".to_string()
        )))
    );
}

#[test]
fn transpile_wraps_the_expression_in_a_program() {
    let program = transpile(parse_str("5").unwrap());
    assert_eq!(
        program,
        "#include <stdio.h>\n\nint main(void) {\n  printf(\"%lf\\n\", 5.0);\n  return 0;\n}\n"
    );
}

#[test]
fn transpile_renders_literals_with_a_decimal_point() {
    let program = transpile(Box::new(Node::NumberNode("5".to_string())));
    assert!(program.contains("5.0"));
    let kept = transpile(Box::new(Node::NumberNode("5.25".to_string())));
    assert!(kept.contains("5.25"));
    assert!(!kept.contains("5.25.0"));
}

#[test]
fn transpile_parenthesizes_fully() {
    let program = transpile(parse_str("2 + 3 * 4").unwrap());
    assert!(program.contains("(2.0 + (3.0 * 4.0))"));
    let unary = transpile(parse_str("--5").unwrap());
    assert!(unary.contains("(-(-5.0))"));
    let quotient = transpile(parse_str("(1 - 2) / 4").unwrap());
    assert!(quotient.contains("((1.0 - 2.0) / 4.0)"));
}
