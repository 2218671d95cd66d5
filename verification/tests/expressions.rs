use rho::parsers::{
    expressionize, match_definition, match_empty, match_expression, match_function_call,
    match_function_name, match_parameter_list, Expression,
};
use rho::tokens::{
    tokenize, BuiltinType, Delimiters, Literals, Operators, ParseResult, PrimitiveType, Token,
    TokenType, Types,
};

fn tok(s: &str, t: TokenType) -> Token {
    Token {
        string: s.to_string(),
        token_type: t,
    }
}

fn comment(s: &str) -> Token {
    tok(s, TokenType::Comment)
}

fn ident(s: &str) -> Token {
    tok(s, TokenType::Identifier)
}

fn period() -> Token {
    tok(".", TokenType::Delimiter(Delimiters::Period))
}

/// End-to-end: a string definition tokenizes to four tokens and folds to
/// one definition expression over all of them.
#[test]
fn string_definition_end_to_end() {
    let tokens = tokenize("str s = \"rho_is_cool\"");
    let lexemes: Vec<&str> = tokens.iter().map(|t| t.string.as_str()).collect();
    assert_eq!(lexemes, vec!["str", "s", "=", "\"rho_is_cool\""]);
    assert_eq!(
        tokens[0].token_type,
        TokenType::Type(Types::BuiltIn(BuiltinType::String))
    );
    assert_eq!(tokens[1].token_type, TokenType::Identifier);
    assert_eq!(tokens[2].token_type, TokenType::Operator(Operators::Equal));
    assert_eq!(
        tokens[3].token_type,
        TokenType::Literal(Literals::BuiltIn(BuiltinType::String))
    );

    let expressions = expressionize(tokens);
    assert_eq!(expressions.len(), 1);
    match &expressions[0] {
        Expression::Definition {
            definition_type,
            identifier,
            value,
        } => {
            assert_eq!(definition_type.string, "str");
            assert_eq!(identifier.string, "s");
            match &**value {
                Expression::Literal { token, .. } => {
                    assert_eq!(token.string, "\"rho_is_cool\"");
                }
                other => panic!("value is not a literal: {:?}", other),
            }
        }
        other => panic!("not a definition: {:?}", other),
    }
}

/// End-to-end: `int a = 1 + 2` gives six tokens; only the first four fold
/// into a definition, and the unmatched trailing `+ 2` is dropped.
#[test]
fn int_definition_with_trailing_tokens() {
    let tokens = tokenize("int a = 1 + 2");
    assert_eq!(tokens.len(), 6);
    assert_eq!(
        tokens.iter().map(|t| t.token_type).collect::<Vec<_>>(),
        vec![
            TokenType::Type(Types::Primitive(PrimitiveType::Int)),
            TokenType::Identifier,
            TokenType::Operator(Operators::Equal),
            TokenType::Literal(Literals::Primitive(PrimitiveType::Int)),
            TokenType::Operator(Operators::Add),
            TokenType::Literal(Literals::Primitive(PrimitiveType::Int)),
        ]
    );

    let expressions = expressionize(tokens);
    assert_eq!(expressions.len(), 1);
    assert!(matches!(&expressions[0], Expression::Definition { .. }));
}

/// Function call: `a.b.c(x, y)` tokenizes to ten tokens and folds to one
/// call whose name keeps the periods and whose parameters run through the
/// closing parenthesis.
#[test]
fn dotted_function_call_end_to_end() {
    let tokens = tokenize("a.b.c(x, y)");
    let lexemes: Vec<&str> = tokens.iter().map(|t| t.string.as_str()).collect();
    assert_eq!(lexemes, vec!["a", ".", "b", ".", "c", "(", "x", ",", "y", ")"]);
    assert_eq!(tokens.len(), 10);

    let expressions = expressionize(tokens);
    assert_eq!(expressions.len(), 1);
    match &expressions[0] {
        Expression::FunctionCall {
            function_name,
            parameters,
        } => {
            let name: Vec<&str> = function_name
                .idents
                .iter()
                .map(|t| t.string.as_str())
                .collect();
            assert_eq!(name, vec!["a", ".", "b", ".", "c"]);
            let params: Vec<&str> = parameters
                .params
                .iter()
                .map(|t| t.string.as_str())
                .collect();
            assert_eq!(params, vec!["x", ",", "y", ")"]);
        }
        other => panic!("not a function call: {:?}", other),
    }
}

#[test]
fn empty_matcher_takes_the_comment_run() {
    let tokens = vec![comment("// a"), comment("/* b */"), ident("x")];
    let r = match_empty(&tokens);
    match r {
        Ok((Expression::Empty { tokens: skipped }, consumed)) => {
            assert_eq!(consumed, 2);
            assert_eq!(skipped.len(), 2);
            assert_eq!(skipped[0].string, "// a");
            assert_eq!(skipped[1].string, "/* b */");
        }
        other => panic!("unexpected: {:?}", other),
    }
}

#[test]
fn empty_matcher_fails_on_zero_length_run() {
    let tokens = vec![ident("x")];
    assert!(match_empty(&tokens).is_err());
    let none: Vec<Token> = Vec::new();
    assert!(match_empty(&none).is_err());
}

#[test]
fn definition_matcher_needs_the_exact_shape() {
    let t = tok("int", TokenType::Type(Types::Primitive(PrimitiveType::Int)));
    let eq = tok("=", TokenType::Operator(Operators::Equal));
    let one = tok("1", TokenType::Literal(Literals::Primitive(PrimitiveType::Int)));
    let good = vec![t.clone(), ident("a"), eq.clone(), one.clone()];
    let (e, consumed) = match_definition(&good).expect("the four-token shape matches");
    assert_eq!(consumed, 4);
    assert!(matches!(e, Expression::Definition { .. }));

    // too short
    assert!(match_definition(&vec![t.clone(), ident("a"), eq.clone()]).is_err());
    // wrong operator
    let plus = tok("+", TokenType::Operator(Operators::Add));
    assert!(match_definition(&vec![t.clone(), ident("a"), plus, one.clone()]).is_err());
    // value must be a literal
    assert!(match_definition(&vec![t, ident("a"), eq, ident("b")]).is_err());
}

#[test]
fn function_name_must_end_with_an_identifier() {
    let ok = match_function_name(&vec![ident("a"), period(), ident("b")]).unwrap();
    let name: Vec<&str> = ok.idents.iter().map(|t| t.string.as_str()).collect();
    assert_eq!(name, vec!["a", ".", "b"]);

    let single = match_function_name(&vec![ident("a")]).unwrap();
    assert_eq!(single.idents.len(), 1);

    // a run ending on a period is refused, not trimmed
    assert!(match_function_name(&vec![ident("a"), period()]).is_err());
    assert!(match_function_name(&vec![period()]).is_err());
    let none: Vec<Token> = Vec::new();
    assert!(match_function_name(&none).is_err());
}

#[test]
fn parameter_list_needs_a_non_empty_run_and_a_close() {
    let open = tok("(", TokenType::Delimiter(Delimiters::ParOpen));
    let close = tok(")", TokenType::Delimiter(Delimiters::ParClose));

    let good = vec![open.clone(), ident("x"), close.clone()];
    let params = match_parameter_list(&good).unwrap();
    let ps: Vec<&str> = params.params.iter().map(|t| t.string.as_str()).collect();
    assert_eq!(ps, vec!["x", ")"]);

    // empty parameter run
    assert!(match_parameter_list(&vec![open.clone(), close.clone()]).is_err());
    // no closing parenthesis
    assert!(match_parameter_list(&vec![open.clone(), ident("x")]).is_err());
    // does not start with an opening parenthesis
    assert!(match_parameter_list(&vec![ident("x")]).is_err());
    let none: Vec<Token> = Vec::new();
    assert!(match_parameter_list(&none).is_err());
}

#[test]
fn function_call_consumes_name_parenthesis_and_parameters() {
    let tokens = tokenize("f(x)");
    let (e, consumed) = match_function_call(&tokens).unwrap();
    assert_eq!(consumed, 4);
    assert!(matches!(e, Expression::FunctionCall { .. }));

    // name alone is not a call
    assert!(match_function_call(&tokenize("f")).is_err());
    // empty parameter run fails
    assert!(match_function_call(&tokenize("f()")).is_err());
}

#[test]
fn expression_matcher_prefers_the_empty_matcher() {
    let tokens = vec![comment("// c"), ident("x")];
    let (e, consumed) = match_expression(&tokens).unwrap();
    assert_eq!(consumed, 1);
    assert!(matches!(e, Expression::Empty { .. }));
}

#[test]
fn expression_matcher_reports_no_match() {
    let tokens = vec![tok("+", TokenType::Operator(Operators::Add))];
    assert!(match_expression(&tokens).is_err());
}

#[test]
fn expressionize_of_nothing_is_empty() {
    let none: Vec<Token> = Vec::new();
    assert_eq!(expressionize(none).len(), 0);
}

#[test]
fn expressionize_folds_a_comment_run_into_one_empty_expression() {
    let tokens = tokenize("// x\n// y");
    assert_eq!(tokens.len(), 2);
    let expressions = expressionize(tokens);
    assert_eq!(expressions.len(), 1);
    match &expressions[0] {
        Expression::Empty { tokens } => assert_eq!(tokens.len(), 2),
        other => panic!("not an empty expression: {:?}", other),
    }
}

/// The bare token-run recognizer is a placeholder that always reports an
/// erroneous state.
#[test]
fn bare_token_run_recognizer_reports_error() {
    let r = rho::tokens::match_expression(vec![ident("x")]);
    assert!(matches!(r, ParseResult::Error));
    let none: Vec<Token> = Vec::new();
    let r = rho::tokens::match_expression(none);
    assert!(matches!(r, ParseResult::Error));
}
