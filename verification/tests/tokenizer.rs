use rho::tokens::{
    tokenize, tokenize_identifier, tokenize_numeric_literal, tokenize_string_literal, BuiltinType,
    Delimiters, Literals, Operators, PrimitiveType, Token, TokenType, Types,
};

fn kinds(tokens: &[Token]) -> Vec<TokenType> {
    tokens.iter().map(|t| t.token_type).collect()
}

fn lexemes(tokens: &[Token]) -> Vec<&str> {
    tokens.iter().map(|t| t.string.as_str()).collect()
}

/// Priority ordering: a reserved type name wins over an identifier.
#[test]
fn int_alone_is_a_type_token() {
    let tokens = tokenize("int");
    assert_eq!(lexemes(&tokens), vec!["int"]);
    assert_eq!(
        kinds(&tokens),
        vec![TokenType::Type(Types::Primitive(PrimitiveType::Int))]
    );
}

/// Boundary hazard policy: matching is plain prefix comparison with no
/// trailing-boundary check, so `intx` is a type name followed by an
/// identifier, not one identifier.
#[test]
fn intx_splits_into_type_and_identifier() {
    let tokens = tokenize("intx");
    assert_eq!(lexemes(&tokens), vec!["int", "x"]);
    assert_eq!(
        kinds(&tokens),
        vec![
            TokenType::Type(Types::Primitive(PrimitiveType::Int)),
            TokenType::Identifier
        ]
    );
}

/// Two-character operator greediness: `<=` is one operator, never `<` `=`.
#[test]
fn less_equal_is_one_operator() {
    let tokens = tokenize("<=");
    assert_eq!(lexemes(&tokens), vec!["<="]);
    assert_eq!(kinds(&tokens), vec![TokenType::Operator(Operators::LEq)]);
}

/// Range vs. float disambiguation: `1..5` is an int, a double dot, an int.
#[test]
fn range_splits_into_int_dotdot_int() {
    let tokens = tokenize("1..5");
    assert_eq!(lexemes(&tokens), vec!["1", "..", "5"]);
    assert_eq!(
        kinds(&tokens),
        vec![
            TokenType::Literal(Literals::Primitive(PrimitiveType::Int)),
            TokenType::Operator(Operators::DoubleDot),
            TokenType::Literal(Literals::Primitive(PrimitiveType::Int)),
        ]
    );
}

/// Range vs. float disambiguation: `1.5` is one float literal.
#[test]
fn one_point_five_is_one_float() {
    let tokens = tokenize("1.5");
    assert_eq!(lexemes(&tokens), vec!["1.5"]);
    assert_eq!(
        kinds(&tokens),
        vec![TokenType::Literal(Literals::Primitive(PrimitiveType::Float))]
    );
}

/// String escaping: an escaped quote does not close the literal.
#[test]
fn escaped_quote_stays_inside_the_string() {
    let source = "\"a\\\"b\"";
    let r = tokenize_string_literal(source);
    assert_eq!(
        r,
        Ok((
            "\"a\\\"b\"",
            TokenType::Literal(Literals::BuiltIn(BuiltinType::String))
        ))
    );
    let tokens = tokenize(source);
    assert_eq!(lexemes(&tokens), vec!["\"a\\\"b\""]);
}

/// Comment span: a line comment with no trailing newline runs to the end of
/// the input.
#[test]
fn line_comment_spans_the_remainder() {
    let tokens = tokenize("// hello");
    assert_eq!(lexemes(&tokens), vec!["// hello"]);
    assert_eq!(kinds(&tokens), vec![TokenType::Comment]);
}

#[test]
fn whitespace_is_skipped_between_tokens() {
    let tokens = tokenize("  int \n a ");
    assert_eq!(lexemes(&tokens), vec!["int", "a"]);
}

/// The driver is fail-open: a character no sub-scanner matches is dropped
/// and scanning continues.
#[test]
fn unmatched_character_is_dropped() {
    let tokens = tokenize("a @ b");
    assert_eq!(lexemes(&tokens), vec!["a", "b"]);
    assert_eq!(kinds(&tokens), vec![TokenType::Identifier, TokenType::Identifier]);
}

#[test]
fn empty_source_yields_no_tokens() {
    assert_eq!(tokenize("").len(), 0);
    assert_eq!(tokenize("   \n\t ").len(), 0);
}

#[test]
fn negative_number_is_one_int_literal() {
    let tokens = tokenize("-12");
    assert_eq!(lexemes(&tokens), vec!["-12"]);
    assert_eq!(
        kinds(&tokens),
        vec![TokenType::Literal(Literals::Primitive(PrimitiveType::Int))]
    );
}

/// A bare minus has no digit, so the numeric scanner refuses it and the
/// operator scanner takes it.
#[test]
fn bare_minus_is_the_subtract_operator() {
    assert!(tokenize_numeric_literal("-").is_err());
    assert!(tokenize_numeric_literal("-x").is_err());
    let tokens = tokenize("-");
    assert_eq!(kinds(&tokens), vec![TokenType::Operator(Operators::Subtract)]);
}

/// A digit run with a trailing dot at the very end of input is no numeric
/// literal at all.
#[test]
fn trailing_dot_at_end_is_no_numeric_match() {
    assert!(tokenize_numeric_literal("1.").is_err());
}

/// A dot followed by a non-digit still begins an (empty) fractional part.
#[test]
fn dot_before_non_digit_gives_a_float_with_empty_fraction() {
    assert_eq!(
        tokenize_numeric_literal("1.x"),
        Ok((
            "1.",
            TokenType::Literal(Literals::Primitive(PrimitiveType::Float))
        ))
    );
}

#[test]
fn numeric_scanner_rejects_non_digits() {
    assert!(tokenize_numeric_literal("").is_err());
    assert!(tokenize_numeric_literal("x1").is_err());
}

#[test]
fn identifier_runs_over_alphanumerics_and_underscores() {
    assert_eq!(tokenize_identifier("a_1b c"), Ok(("a_1b", TokenType::Identifier)));
    assert!(tokenize_identifier("_x").is_err());
    assert!(tokenize_identifier("").is_err());
    assert!(tokenize_identifier("9a").is_err());
}

#[test]
fn string_scanner_rejects_unterminated_and_short_input() {
    assert!(tokenize_string_literal("\"ab").is_err());
    assert!(tokenize_string_literal("\"").is_err());
    assert!(tokenize_string_literal("ab").is_err());
}

/// An unterminated string falls through to the double-quote delimiter, and
/// scanning continues after it.
#[test]
fn unterminated_string_becomes_a_dquote_delimiter() {
    let tokens = tokenize("\"ab");
    assert_eq!(lexemes(&tokens), vec!["\"", "ab"]);
    assert_eq!(
        kinds(&tokens),
        vec![TokenType::Delimiter(Delimiters::DQuote), TokenType::Identifier]
    );
}

/// A period tokenizes as a delimiter, and a double dot as an operator, so a
/// dotted name keeps its periods as single tokens.
#[test]
fn dotted_name_tokenizes_periods_as_delimiters() {
    let tokens = tokenize("a.b");
    assert_eq!(lexemes(&tokens), vec!["a", ".", "b"]);
    assert_eq!(
        kinds(&tokens),
        vec![
            TokenType::Identifier,
            TokenType::Delimiter(Delimiters::Period),
            TokenType::Identifier
        ]
    );
}

#[test]
fn negative_float_is_one_float_literal() {
    assert_eq!(
        tokenize_numeric_literal("-2.14"),
        Ok((
            "-2.14",
            TokenType::Literal(Literals::Primitive(PrimitiveType::Float))
        ))
    );
}

fn without_whitespace(s: &str) -> String {
    s.chars().filter(|c| !c.is_whitespace()).collect()
}

/// Re-tokenization coverage on concrete inputs: for source that fully
/// tokenizes, the concatenated lexemes carry exactly the non-whitespace
/// content of the input.
#[test]
fn lexemes_reproduce_the_non_whitespace_input() {
    for source in [
        "int a = 1",
        "str s = \"a b\"",
        "a.b.c(x, y)",
        "// note\nint x = 2",
        "1..5 <= 1.5",
    ] {
        let concatenated: String = tokenize(source).iter().map(|t| t.string.as_str()).collect();
        assert_eq!(
            without_whitespace(&concatenated),
            without_whitespace(source),
            "input {:?}",
            source
        );
    }
}

/// A block comment closes at the first `*/` and scanning continues.
#[test]
fn block_comment_then_code() {
    let tokens = tokenize("/* note */ int");
    assert_eq!(lexemes(&tokens), vec!["/* note */", "int"]);
    assert_eq!(
        kinds(&tokens),
        vec![
            TokenType::Comment,
            TokenType::Type(Types::Primitive(PrimitiveType::Int))
        ]
    );
}
