use compiler::parser::{ExpressionNode, Parser};
use compiler::scanner::Scanner;

#[test]
fn parse_empty_program() {
    let scanner = Scanner::new("");
    let mut parser = Parser::new(scanner);
    let res = parser.parse().unwrap();
    assert_eq!(res.len(), 0)
}

#[test]
fn parse_literal_outside_of_list() {
    let scanner = Scanner::new("true false");
    let mut parser = Parser::new(scanner);

    if let Err(error) = parser.parse() {
        assert_eq!(
            error,
            "[line 1] Error at 'true': Expected LeftParen, but get True"
        );
    } else {
        panic!("Parser must fail");
    };
}

#[test]
fn parse_empty_list() {
    let scanner = Scanner::new("()");
    let mut parser = Parser::new(scanner);

    let result = parser.parse().unwrap();

    // One empty list expression
    assert_eq!(result, vec![vec![]]);
}

#[test]
fn parse_bool_expression() {
    let scanner = Scanner::new("(true false)");
    let mut parser = Parser::new(scanner);

    let result = parser.parse().unwrap();

    assert_eq!(
        result,
        vec![vec![
            ExpressionNode::BooleanLiteral(true),
            ExpressionNode::BooleanLiteral(false)
        ]]
    );
}

#[test]
fn parse_integer_numbers() {
    let scanner = Scanner::new("( -10 -1 0 1 2 42 1000 )");
    let mut parser = Parser::new(scanner);

    let result = parser.parse().unwrap();

    assert_eq!(
        result,
        vec![vec![
            ExpressionNode::IntegerNumberLiteral(-10),
            ExpressionNode::IntegerNumberLiteral(-1),
            ExpressionNode::IntegerNumberLiteral(0),
            ExpressionNode::IntegerNumberLiteral(1),
            ExpressionNode::IntegerNumberLiteral(2),
            ExpressionNode::IntegerNumberLiteral(42),
            ExpressionNode::IntegerNumberLiteral(1000),
        ]]
    );
}

#[test]
fn parse_float_numbers() {
    let scanner = Scanner::new("( -10.0 -1.1 0.0 1.0 2.5 42.9999 1000.110111 )");
    let mut parser = Parser::new(scanner);

    let result = parser.parse().unwrap();

    let expected: Vec<f64> = vec![-10.0, -1.1, 0.0, 1.0, 2.5, 42.9999, 1000.110111];
    assert_eq!(result.len(), 1);
    assert_eq!(result[0].len(), expected.len());
    for i in 0..expected.len() {
        match &result[0][i] {
            ExpressionNode::FloatNumberLiteral(text) => {
                let value: f64 = text.parse().unwrap();
                assert_eq!(value, expected[i]);
            }
            other => panic!("expected a float literal, got {:?}", other),
        }
    }
}

#[test]
fn parse_fraction_numbers() {
    let scanner = Scanner::new("( -1/2 1/2 0/1 1/33 )");
    let mut parser = Parser::new(scanner);

    let result = parser.parse().unwrap();

    assert_eq!(
        result,
        vec![vec![
            ExpressionNode::FractionNumberLiteral(-1, 2),
            ExpressionNode::FractionNumberLiteral(1, 2),
            ExpressionNode::FractionNumberLiteral(0, 1),
            ExpressionNode::FractionNumberLiteral(1, 33),
        ]]
    );
}

#[test]
fn parse_string_literal() {
    let scanner = Scanner::new("( \"\" \"Hello world\" \"Meh\" )");
    let mut parser = Parser::new(scanner);

    let result = parser.parse().unwrap();

    assert_eq!(
        result,
        vec![vec![
            ExpressionNode::StringLiteral("".to_owned()),
            ExpressionNode::StringLiteral("Hello world".to_owned()),
            ExpressionNode::StringLiteral("Meh".to_owned()),
        ]]
    );
}

#[test]
fn parse_identifier() {
    let scanner = Scanner::new("( x _x 'x x2 ?when do * / )");
    let mut parser = Parser::new(scanner);

    let result = parser.parse().unwrap();

    assert_eq!(
        result,
        vec![vec![
            ExpressionNode::Identifier("x".to_owned()),
            ExpressionNode::Identifier("_x".to_owned()),
            ExpressionNode::Identifier("'x".to_owned()),
            ExpressionNode::Identifier("x2".to_owned()),
            ExpressionNode::Identifier("?when".to_owned()),
            ExpressionNode::Identifier("do".to_owned()),
            ExpressionNode::Identifier("*".to_owned()),
            ExpressionNode::Identifier("/".to_owned()),
        ]]
    );
}

#[test]
fn parse_keyword() {
    let scanner = Scanner::new("( :hello :12 :x1 :when)");
    let mut parser = Parser::new(scanner);

    let result = parser.parse().unwrap();

    assert_eq!(
        result,
        vec![vec![
            ExpressionNode::Keyword(":hello".to_owned()),
            ExpressionNode::Keyword(":12".to_owned()),
            ExpressionNode::Keyword(":x1".to_owned()),
            ExpressionNode::Keyword(":when".to_owned()),
        ]]
    );
}

#[test]
fn parse_empty_array() {
    let scanner = Scanner::new("( [] )");
    let mut parser = Parser::new(scanner);

    let result = parser.parse().unwrap();

    assert_eq!(result, vec![vec![ExpressionNode::Array(vec![]),]]);
}

#[test]
fn parse_empty_map() {
    let scanner = Scanner::new("( {} )");
    let mut parser = Parser::new(scanner);

    let result = parser.parse().unwrap();

    assert_eq!(result, vec![vec![ExpressionNode::MapLiteral(vec![]),]]);
}

#[test]
fn parse_anonymous_function() {
    let scanner = Scanner::new("(#( + %1 2 ))");
    let mut parser = Parser::new(scanner);

    let result = parser.parse().unwrap();

    assert_eq!(
        result,
        vec![vec![ExpressionNode::AnonymousFunction(vec![
            ExpressionNode::Identifier("+".to_owned()),
            ExpressionNode::Identifier("%1".to_owned()),
            ExpressionNode::IntegerNumberLiteral(2)
        ]),]]
    );
}

#[test]
fn parse_list_in_list() {
    let scanner = Scanner::new("(() ())");
    let mut parser = Parser::new(scanner);

    let result = parser.parse().unwrap();

    assert_eq!(
        result,
        vec![vec![
            ExpressionNode::FunctionCall(vec![]),
            ExpressionNode::FunctionCall(vec![])
        ]]
    );
}

#[test]
fn parse_whitespace_and_comments_only() {
    let scanner = Scanner::new("  , \t\n; a comment\n;# a block\ncomment #;\n");
    let mut parser = Parser::new(scanner);
    let result = parser.parse().unwrap();
    assert_eq!(result.len(), 0);
}

#[test]
fn parse_extreme_integers() {
    let scanner = Scanner::new("( 9223372036854775807 -9223372036854775808 )");
    let mut parser = Parser::new(scanner);
    let result = parser.parse().unwrap();
    assert_eq!(
        result,
        vec![vec![
            ExpressionNode::IntegerNumberLiteral(i64::MAX),
            ExpressionNode::IntegerNumberLiteral(i64::MIN),
        ]]
    );
}

#[test]
fn parse_integer_out_of_range() {
    let scanner = Scanner::new("(99999999999999999999)");
    let mut parser = Parser::new(scanner);
    let err = parser.parse().unwrap_err();
    assert_eq!(
        err,
        "[line 1] Error at '99999999999999999999': Invalid integer literal"
    );
}

#[test]
fn parse_unterminated_string_diagnostic() {
    let scanner = Scanner::new("(\"abc");
    let mut parser = Parser::new(scanner);
    let err = parser.parse().unwrap_err();
    assert_eq!(
        err,
        "[line 1] Error at 'Unterminated string': Unterminated string"
    );
}

#[test]
fn parse_unterminated_fraction_diagnostic() {
    let scanner = Scanner::new("(1/)");
    let mut parser = Parser::new(scanner);
    let err = parser.parse().unwrap_err();
    assert_eq!(
        err,
        "[line 1] Error at 'Unterminated fraction number': Unterminated fraction number"
    );
}

#[test]
fn parse_unexpected_character_diagnostic() {
    let scanner = Scanner::new("(~)");
    let mut parser = Parser::new(scanner);
    let err = parser.parse().unwrap_err();
    assert_eq!(
        err,
        "[line 1] Error at 'Unexpected character.': Unexpected character."
    );
}

#[test]
fn parse_missing_closer_diagnostic() {
    let scanner = Scanner::new("(true");
    let mut parser = Parser::new(scanner);
    let err = parser.parse().unwrap_err();
    assert_eq!(err, "[line 1] Error at end: Expected RightParen, but get Eof");
}

#[test]
fn parse_mismatched_closer_diagnostic() {
    let scanner = Scanner::new("(true]");
    let mut parser = Parser::new(scanner);
    let err = parser.parse().unwrap_err();
    assert_eq!(
        err,
        "[line 1] Error at ']': Unexpected token RightSquare"
    );
}

#[test]
fn parse_bad_dispatch_diagnostic() {
    let scanner = Scanner::new("(#1)");
    let mut parser = Parser::new(scanner);
    let err = parser.parse().unwrap_err();
    assert_eq!(err, "[line 1] Error at '1': Unexpected token IntegerNumber");
}

#[test]
fn parse_error_line_number() {
    let scanner = Scanner::new("()\n()\ntrue");
    let mut parser = Parser::new(scanner);
    let err = parser.parse().unwrap_err();
    assert_eq!(
        err,
        "[line 3] Error at 'true': Expected LeftParen, but get True"
    );
}

#[test]
fn parse_reports_only_first_error() {
    // Panic mode suppresses everything after the first diagnostic.
    let scanner = Scanner::new("(~ ~)");
    let mut parser = Parser::new(scanner);
    let err = parser.parse().unwrap_err();
    assert_eq!(
        err,
        "[line 1] Error at 'Unexpected character.': Unexpected character."
    );
}

#[test]
fn parse_nested_collections() {
    let scanner = Scanner::new("( [1 2] {:a 1} (f [true]) )");
    let mut parser = Parser::new(scanner);
    let result = parser.parse().unwrap();
    assert_eq!(
        result,
        vec![vec![
            ExpressionNode::Array(vec![
                ExpressionNode::IntegerNumberLiteral(1),
                ExpressionNode::IntegerNumberLiteral(2),
            ]),
            ExpressionNode::MapLiteral(vec![
                ExpressionNode::Keyword(":a".to_owned()),
                ExpressionNode::IntegerNumberLiteral(1),
            ]),
            ExpressionNode::FunctionCall(vec![
                ExpressionNode::Identifier("f".to_owned()),
                ExpressionNode::Array(vec![ExpressionNode::BooleanLiteral(true)]),
            ]),
        ]]
    );
}

#[test]
fn parse_multiple_forms() {
    let scanner = Scanner::new("(a) (b) (c)");
    let mut parser = Parser::new(scanner);
    let result = parser.parse().unwrap();
    assert_eq!(result.len(), 3);
    assert_eq!(result[0], vec![ExpressionNode::Identifier("a".to_owned())]);
    assert_eq!(result[1], vec![ExpressionNode::Identifier("b".to_owned())]);
    assert_eq!(result[2], vec![ExpressionNode::Identifier("c".to_owned())]);
}

#[test]
fn parse_balanced_shape_round_trip() {
    // Rendering this pure-shape tree gives back exactly the source below,
    // so nesting depth and element counts survive the cycle.
    let scanner = Scanner::new("(()[]{})((){})");
    let mut parser = Parser::new(scanner);
    let result = parser.parse().unwrap();
    assert_eq!(
        result,
        vec![
            vec![
                ExpressionNode::FunctionCall(vec![]),
                ExpressionNode::Array(vec![]),
                ExpressionNode::MapLiteral(vec![]),
            ],
            vec![
                ExpressionNode::FunctionCall(vec![]),
                ExpressionNode::MapLiteral(vec![]),
            ],
        ]
    );
}
