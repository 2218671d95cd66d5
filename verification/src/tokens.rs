//! Token data model and the character-class sub-scanners.
//!
//! Each sub-scanner examines the forward slice of remaining text and either
//! matches a lexeme at its start, classifying it with a token kind, or
//! reports no match. The driver `tokenize` tries them in a fixed priority
//! order: comment, string literal, numeric literal, keyword, type name,
//! operator, delimiter, identifier. Matching is first-match across
//! categories, not longest-match.

use crate::text::char_is_alphabetic;
use crate::text::char_is_digit;
use crate::text::char_is_whitespace;
use crate::text::ident_char;
use crate::text::run_len;
use crate::text::lemma_run_len_is;
use crate::text::lemma_run_len_le;
use crate::text::str_has_prefix;
use vstd::prelude::*;
use vstd::string::StrSliceExecFns;

verus! {

#[derive(Debug, Clone, Copy, PartialEq, Eq, Structural)]
pub enum PrimitiveType {
    Int,
    Float,
    Bool,
    Char,
    Atom,
}

#[derive(Debug, Clone, Copy, PartialEq, Eq, Structural)]
pub enum BuiltinType {
    String,
    Enum,
    Tuple,
    List,
    Range,
    Mapping,
    Stream,
}

#[derive(Debug, Clone, Copy, PartialEq, Eq, Structural)]
pub enum Types {
    Primitive(PrimitiveType),
    BuiltIn(BuiltinType),
}

#[derive(Debug, Clone, Copy, PartialEq, Eq, Structural)]
pub enum Literals {
    Primitive(PrimitiveType),
    BuiltIn(BuiltinType),
}

#[derive(Debug, Clone, Copy, PartialEq, Eq, Structural)]
pub enum Operators {
    Add,
    EnumConcat,
    Subtract,
    Div,
    Mult,
    Modulo,
    Exp,
    Concat,
    LessThan,
    GreaterThan,
    LEq,
    GEq,
    BEq,
    BNEq,
    Lshift,
    Rshift,
    Into,
    Equal,
    DoubleDot,
    Pipe,
}

#[derive(Debug, Clone, Copy, PartialEq, Eq, Structural)]
pub enum Keywords {
    Import,
    Include,
    Struct,
    For,
    Continue,
    Break,
    Func,
    Fn,
    Match,
    Cond,
    When,
    If,
    Elif,
    Else,
    Return,
    Interface,
    Assert,
    Panic,
    Test,
    EoF,
}

#[derive(Debug, Clone, Copy, PartialEq, Eq, Structural)]
pub enum Delimiters {
    ParOpen,
    ParClose,
    BracketOpen,
    BracketClose,
    BraceOpen,
    BraceClose,
    DQuote,
    Quote,
    Comma,
    Semicolon,
    Period,
}

#[derive(Debug, Clone, Copy, PartialEq, Eq, Structural)]
pub enum TokenType {
    Type(Types),
    Literal(Literals),
    Keyword(Keywords),
    Operator(Operators),
    Delimiter(Delimiters),
    EoF,
    Identifier,
    Comment,
}

/// One token: the lexeme exactly as consumed from the source, and its kind.
#[derive(Debug, PartialEq)]
pub struct Token {
    pub string: String,
    pub token_type: TokenType,
}

impl Clone for Token {
    fn clone(&self) -> (r: Self)
        ensures
            r == *self,
    {
        Token { string: self.string.clone(), token_type: self.token_type }
    }
}

impl View for Token {
    type V = (Seq<char>, TokenType);

    open spec fn view(&self) -> (Seq<char>, TokenType) {
        (self.string@, self.token_type)
    }
}

/// What a sub-scanner is expected to report: `None` for no match, or the
/// exact lexeme it consumes together with the token kind it assigns.
pub type ScanModel = Option<(Seq<char>, TokenType)>;

/// Relates a sub-scanner's result to its model: a match yields exactly the
/// modelled lexeme and kind, a miss yields the no-match signal.
pub open spec fn scan_matches(r: Result<(&str, TokenType), &str>, m: ScanModel) -> bool {
    match m {
        Some(p) => r matches Ok(q) && q.0@ == p.0 && q.1 == p.1,
        None => r is Err,
    }
}

/// The delimiter sub-scanner: a single-character match against the
/// punctuation marks.
pub open spec fn spec_tokenize_delimiter(s: Seq<char>) -> ScanModel {
    if s.len() == 0 {
        None
    } else if s[0] == '(' {
        Some((s.take(1), TokenType::Delimiter(Delimiters::ParOpen)))
    } else if s[0] == ')' {
        Some((s.take(1), TokenType::Delimiter(Delimiters::ParClose)))
    } else if s[0] == '[' {
        Some((s.take(1), TokenType::Delimiter(Delimiters::BracketOpen)))
    } else if s[0] == ']' {
        Some((s.take(1), TokenType::Delimiter(Delimiters::BracketClose)))
    } else if s[0] == '{' {
        Some((s.take(1), TokenType::Delimiter(Delimiters::BraceOpen)))
    } else if s[0] == '}' {
        Some((s.take(1), TokenType::Delimiter(Delimiters::BraceClose)))
    } else if s[0] == '"' {
        Some((s.take(1), TokenType::Delimiter(Delimiters::DQuote)))
    } else if s[0] == '\'' {
        Some((s.take(1), TokenType::Delimiter(Delimiters::Quote)))
    } else if s[0] == ',' {
        Some((s.take(1), TokenType::Delimiter(Delimiters::Comma)))
    } else if s[0] == ';' {
        Some((s.take(1), TokenType::Delimiter(Delimiters::Semicolon)))
    } else if s[0] == '.' {
        Some((s.take(1), TokenType::Delimiter(Delimiters::Period)))
    } else {
        None
    }
}

pub fn tokenize_delimiter(string: &str) -> (r: Result<(&str, TokenType), &str>)
    ensures
        scan_matches(r, spec_tokenize_delimiter(string@)),
{
    if string.unicode_len() == 0 {
        return Err("Err: Could not parse delimiter");
    }
    let c = string.get_char(0);
    let lex = string.substring_char(0, 1);
    if c == '(' {
        Ok((lex, TokenType::Delimiter(Delimiters::ParOpen)))
    } else if c == ')' {
        Ok((lex, TokenType::Delimiter(Delimiters::ParClose)))
    } else if c == '[' {
        Ok((lex, TokenType::Delimiter(Delimiters::BracketOpen)))
    } else if c == ']' {
        Ok((lex, TokenType::Delimiter(Delimiters::BracketClose)))
    } else if c == '{' {
        Ok((lex, TokenType::Delimiter(Delimiters::BraceOpen)))
    } else if c == '}' {
        Ok((lex, TokenType::Delimiter(Delimiters::BraceClose)))
    } else if c == '"' {
        Ok((lex, TokenType::Delimiter(Delimiters::DQuote)))
    } else if c == '\'' {
        Ok((lex, TokenType::Delimiter(Delimiters::Quote)))
    } else if c == ',' {
        Ok((lex, TokenType::Delimiter(Delimiters::Comma)))
    } else if c == ';' {
        Ok((lex, TokenType::Delimiter(Delimiters::Semicolon)))
    } else if c == '.' {
        Ok((lex, TokenType::Delimiter(Delimiters::Period)))
    } else {
        Err("Err: Could not parse delimiter")
    }
}

/// The operator sub-scanner: the two-character operators are checked before
/// the one-character ones, first matching entry wins within each length.
pub open spec fn spec_tokenize_operator(s: Seq<char>) -> ScanModel {
    if s.len() >= 2 && s[0] == '+' && s[1] == '+' {
        Some((s.take(2), TokenType::Operator(Operators::EnumConcat)))
    } else if s.len() >= 2 && s[0] == '<' && s[1] == '>' {
        Some((s.take(2), TokenType::Operator(Operators::Concat)))
    } else if s.len() >= 2 && s[0] == '<' && s[1] == '=' {
        Some((s.take(2), TokenType::Operator(Operators::LEq)))
    } else if s.len() >= 2 && s[0] == '>' && s[1] == '=' {
        Some((s.take(2), TokenType::Operator(Operators::GEq)))
    } else if s.len() >= 2 && s[0] == '=' && s[1] == '=' {
        Some((s.take(2), TokenType::Operator(Operators::BEq)))
    } else if s.len() >= 2 && s[0] == '!' && s[1] == '=' {
        Some((s.take(2), TokenType::Operator(Operators::BNEq)))
    } else if s.len() >= 2 && s[0] == '<' && s[1] == '<' {
        Some((s.take(2), TokenType::Operator(Operators::Lshift)))
    } else if s.len() >= 2 && s[0] == '>' && s[1] == '>' {
        Some((s.take(2), TokenType::Operator(Operators::Rshift)))
    } else if s.len() >= 2 && s[0] == '-' && s[1] == '>' {
        Some((s.take(2), TokenType::Operator(Operators::Into)))
    } else if s.len() >= 2 && s[0] == '.' && s[1] == '.' {
        Some((s.take(2), TokenType::Operator(Operators::DoubleDot)))
    } else if s.len() >= 2 && s[0] == '|' && s[1] == '>' {
        Some((s.take(2), TokenType::Operator(Operators::Pipe)))
    } else if s.len() >= 1 && s[0] == '+' {
        Some((s.take(1), TokenType::Operator(Operators::Add)))
    } else if s.len() >= 1 && s[0] == '-' {
        Some((s.take(1), TokenType::Operator(Operators::Subtract)))
    } else if s.len() >= 1 && s[0] == '/' {
        Some((s.take(1), TokenType::Operator(Operators::Div)))
    } else if s.len() >= 1 && s[0] == '*' {
        Some((s.take(1), TokenType::Operator(Operators::Mult)))
    } else if s.len() >= 1 && s[0] == '%' {
        Some((s.take(1), TokenType::Operator(Operators::Modulo)))
    } else if s.len() >= 1 && s[0] == '^' {
        Some((s.take(1), TokenType::Operator(Operators::Exp)))
    } else if s.len() >= 1 && s[0] == '<' {
        Some((s.take(1), TokenType::Operator(Operators::LessThan)))
    } else if s.len() >= 1 && s[0] == '>' {
        Some((s.take(1), TokenType::Operator(Operators::GreaterThan)))
    } else if s.len() >= 1 && s[0] == '=' {
        Some((s.take(1), TokenType::Operator(Operators::Equal)))
    } else {
        None
    }
}

pub fn tokenize_operator(string: &str) -> (r: Result<(&str, TokenType), &str>)
    ensures
        scan_matches(r, spec_tokenize_operator(string@)),
{
    let n = string.unicode_len();
    if n >= 2 {
        let c0 = string.get_char(0);
        let c1 = string.get_char(1);
        let lex2 = string.substring_char(0, 2);
        if c0 == '+' && c1 == '+' {
            return Ok((lex2, TokenType::Operator(Operators::EnumConcat)));
        } else if c0 == '<' && c1 == '>' {
            return Ok((lex2, TokenType::Operator(Operators::Concat)));
        } else if c0 == '<' && c1 == '=' {
            return Ok((lex2, TokenType::Operator(Operators::LEq)));
        } else if c0 == '>' && c1 == '=' {
            return Ok((lex2, TokenType::Operator(Operators::GEq)));
        } else if c0 == '=' && c1 == '=' {
            return Ok((lex2, TokenType::Operator(Operators::BEq)));
        } else if c0 == '!' && c1 == '=' {
            return Ok((lex2, TokenType::Operator(Operators::BNEq)));
        } else if c0 == '<' && c1 == '<' {
            return Ok((lex2, TokenType::Operator(Operators::Lshift)));
        } else if c0 == '>' && c1 == '>' {
            return Ok((lex2, TokenType::Operator(Operators::Rshift)));
        } else if c0 == '-' && c1 == '>' {
            return Ok((lex2, TokenType::Operator(Operators::Into)));
        } else if c0 == '.' && c1 == '.' {
            return Ok((lex2, TokenType::Operator(Operators::DoubleDot)));
        } else if c0 == '|' && c1 == '>' {
            return Ok((lex2, TokenType::Operator(Operators::Pipe)));
        }
    }
    if n >= 1 {
        let c0 = string.get_char(0);
        let lex1 = string.substring_char(0, 1);
        if c0 == '+' {
            return Ok((lex1, TokenType::Operator(Operators::Add)));
        } else if c0 == '-' {
            return Ok((lex1, TokenType::Operator(Operators::Subtract)));
        } else if c0 == '/' {
            return Ok((lex1, TokenType::Operator(Operators::Div)));
        } else if c0 == '*' {
            return Ok((lex1, TokenType::Operator(Operators::Mult)));
        } else if c0 == '%' {
            return Ok((lex1, TokenType::Operator(Operators::Modulo)));
        } else if c0 == '^' {
            return Ok((lex1, TokenType::Operator(Operators::Exp)));
        } else if c0 == '<' {
            return Ok((lex1, TokenType::Operator(Operators::LessThan)));
        } else if c0 == '>' {
            return Ok((lex1, TokenType::Operator(Operators::GreaterThan)));
        } else if c0 == '=' {
            return Ok((lex1, TokenType::Operator(Operators::Equal)));
        }
    }
    Err("Could not match string to an operator")
}

/// The keyword sub-scanner: a plain prefix match against the reserved-word
/// table, in table order, with no trailing-boundary check.
pub open spec fn spec_tokenize_keyword(s: Seq<char>) -> ScanModel {
    if "import"@.is_prefix_of(s) {
        Some(("import"@, TokenType::Keyword(Keywords::Import)))
    } else if "include"@.is_prefix_of(s) {
        Some(("include"@, TokenType::Keyword(Keywords::Include)))
    } else if "struct"@.is_prefix_of(s) {
        Some(("struct"@, TokenType::Keyword(Keywords::Struct)))
    } else if "for"@.is_prefix_of(s) {
        Some(("for"@, TokenType::Keyword(Keywords::For)))
    } else if "continue"@.is_prefix_of(s) {
        Some(("continue"@, TokenType::Keyword(Keywords::Continue)))
    } else if "break"@.is_prefix_of(s) {
        Some(("break"@, TokenType::Keyword(Keywords::Break)))
    } else if "func"@.is_prefix_of(s) {
        Some(("func"@, TokenType::Keyword(Keywords::Func)))
    } else if "fn"@.is_prefix_of(s) {
        Some(("fn"@, TokenType::Keyword(Keywords::Fn)))
    } else if "match"@.is_prefix_of(s) {
        Some(("match"@, TokenType::Keyword(Keywords::Match)))
    } else if "cond"@.is_prefix_of(s) {
        Some(("cond"@, TokenType::Keyword(Keywords::Cond)))
    } else if "when"@.is_prefix_of(s) {
        Some(("when"@, TokenType::Keyword(Keywords::When)))
    } else if "if"@.is_prefix_of(s) {
        Some(("if"@, TokenType::Keyword(Keywords::If)))
    } else if "elif"@.is_prefix_of(s) {
        Some(("elif"@, TokenType::Keyword(Keywords::Elif)))
    } else if "else"@.is_prefix_of(s) {
        Some(("else"@, TokenType::Keyword(Keywords::Else)))
    } else if "return"@.is_prefix_of(s) {
        Some(("return"@, TokenType::Keyword(Keywords::Return)))
    } else if "interface"@.is_prefix_of(s) {
        Some(("interface"@, TokenType::Keyword(Keywords::Interface)))
    } else if "assert"@.is_prefix_of(s) {
        Some(("assert"@, TokenType::Keyword(Keywords::Assert)))
    } else if "panic"@.is_prefix_of(s) {
        Some(("panic"@, TokenType::Keyword(Keywords::Panic)))
    } else if "test"@.is_prefix_of(s) {
        Some(("test"@, TokenType::Keyword(Keywords::Test)))
    } else if "<EOF>"@.is_prefix_of(s) {
        Some(("<EOF>"@, TokenType::Keyword(Keywords::EoF)))
    } else {
        None
    }
}

pub fn tokenize_keyword(string: &str) -> (r: Result<(&str, TokenType), &str>)
    ensures
        scan_matches(r, spec_tokenize_keyword(string@)),
{
    if str_has_prefix(string, "import") {
        Ok(("import", TokenType::Keyword(Keywords::Import)))
    } else if str_has_prefix(string, "include") {
        Ok(("include", TokenType::Keyword(Keywords::Include)))
    } else if str_has_prefix(string, "struct") {
        Ok(("struct", TokenType::Keyword(Keywords::Struct)))
    } else if str_has_prefix(string, "for") {
        Ok(("for", TokenType::Keyword(Keywords::For)))
    } else if str_has_prefix(string, "continue") {
        Ok(("continue", TokenType::Keyword(Keywords::Continue)))
    } else if str_has_prefix(string, "break") {
        Ok(("break", TokenType::Keyword(Keywords::Break)))
    } else if str_has_prefix(string, "func") {
        Ok(("func", TokenType::Keyword(Keywords::Func)))
    } else if str_has_prefix(string, "fn") {
        Ok(("fn", TokenType::Keyword(Keywords::Fn)))
    } else if str_has_prefix(string, "match") {
        Ok(("match", TokenType::Keyword(Keywords::Match)))
    } else if str_has_prefix(string, "cond") {
        Ok(("cond", TokenType::Keyword(Keywords::Cond)))
    } else if str_has_prefix(string, "when") {
        Ok(("when", TokenType::Keyword(Keywords::When)))
    } else if str_has_prefix(string, "if") {
        Ok(("if", TokenType::Keyword(Keywords::If)))
    } else if str_has_prefix(string, "elif") {
        Ok(("elif", TokenType::Keyword(Keywords::Elif)))
    } else if str_has_prefix(string, "else") {
        Ok(("else", TokenType::Keyword(Keywords::Else)))
    } else if str_has_prefix(string, "return") {
        Ok(("return", TokenType::Keyword(Keywords::Return)))
    } else if str_has_prefix(string, "interface") {
        Ok(("interface", TokenType::Keyword(Keywords::Interface)))
    } else if str_has_prefix(string, "assert") {
        Ok(("assert", TokenType::Keyword(Keywords::Assert)))
    } else if str_has_prefix(string, "panic") {
        Ok(("panic", TokenType::Keyword(Keywords::Panic)))
    } else if str_has_prefix(string, "test") {
        Ok(("test", TokenType::Keyword(Keywords::Test)))
    } else if str_has_prefix(string, "<EOF>") {
        Ok(("<EOF>", TokenType::Keyword(Keywords::EoF)))
    } else {
        Err("Err: could not match keyword.")
    }
}

/// The type-name sub-scanner: a plain prefix match against the built-in and
/// primitive type table, in table order, with no trailing-boundary check.
pub open spec fn spec_tokenize_type(s: Seq<char>) -> ScanModel {
    if "stream"@.is_prefix_of(s) {
        Some(("stream"@, TokenType::Type(Types::BuiltIn(BuiltinType::Stream))))
    } else if "str"@.is_prefix_of(s) {
        Some(("str"@, TokenType::Type(Types::BuiltIn(BuiltinType::String))))
    } else if "enum"@.is_prefix_of(s) {
        Some(("enum"@, TokenType::Type(Types::BuiltIn(BuiltinType::Enum))))
    } else if "tuple"@.is_prefix_of(s) {
        Some(("tuple"@, TokenType::Type(Types::BuiltIn(BuiltinType::Tuple))))
    } else if "list"@.is_prefix_of(s) {
        Some(("list"@, TokenType::Type(Types::BuiltIn(BuiltinType::List))))
    } else if "range"@.is_prefix_of(s) {
        Some(("range"@, TokenType::Type(Types::BuiltIn(BuiltinType::Range))))
    } else if "map"@.is_prefix_of(s) {
        Some(("map"@, TokenType::Type(Types::BuiltIn(BuiltinType::Mapping))))
    } else if "int"@.is_prefix_of(s) {
        Some(("int"@, TokenType::Type(Types::Primitive(PrimitiveType::Int))))
    } else if "float"@.is_prefix_of(s) {
        Some(("float"@, TokenType::Type(Types::Primitive(PrimitiveType::Float))))
    } else if "bool"@.is_prefix_of(s) {
        Some(("bool"@, TokenType::Type(Types::Primitive(PrimitiveType::Bool))))
    } else if "char"@.is_prefix_of(s) {
        Some(("char"@, TokenType::Type(Types::Primitive(PrimitiveType::Char))))
    } else if "atom"@.is_prefix_of(s) {
        Some(("atom"@, TokenType::Type(Types::Primitive(PrimitiveType::Atom))))
    } else {
        None
    }
}

pub fn tokenize_type(string: &str) -> (r: Result<(&str, TokenType), &str>)
    ensures
        scan_matches(r, spec_tokenize_type(string@)),
{
    if str_has_prefix(string, "stream") {
        Ok(("stream", TokenType::Type(Types::BuiltIn(BuiltinType::Stream))))
    } else if str_has_prefix(string, "str") {
        Ok(("str", TokenType::Type(Types::BuiltIn(BuiltinType::String))))
    } else if str_has_prefix(string, "enum") {
        Ok(("enum", TokenType::Type(Types::BuiltIn(BuiltinType::Enum))))
    } else if str_has_prefix(string, "tuple") {
        Ok(("tuple", TokenType::Type(Types::BuiltIn(BuiltinType::Tuple))))
    } else if str_has_prefix(string, "list") {
        Ok(("list", TokenType::Type(Types::BuiltIn(BuiltinType::List))))
    } else if str_has_prefix(string, "range") {
        Ok(("range", TokenType::Type(Types::BuiltIn(BuiltinType::Range))))
    } else if str_has_prefix(string, "map") {
        Ok(("map", TokenType::Type(Types::BuiltIn(BuiltinType::Mapping))))
    } else if str_has_prefix(string, "int") {
        Ok(("int", TokenType::Type(Types::Primitive(PrimitiveType::Int))))
    } else if str_has_prefix(string, "float") {
        Ok(("float", TokenType::Type(Types::Primitive(PrimitiveType::Float))))
    } else if str_has_prefix(string, "bool") {
        Ok(("bool", TokenType::Type(Types::Primitive(PrimitiveType::Bool))))
    } else if str_has_prefix(string, "char") {
        Ok(("char", TokenType::Type(Types::Primitive(PrimitiveType::Char))))
    } else if str_has_prefix(string, "atom") {
        Ok(("atom", TokenType::Type(Types::Primitive(PrimitiveType::Atom))))
    } else {
        Err("Err: no matching type keyword")
    }
}

/// The identifier sub-scanner: the first character must be alphabetic, and
/// the lexeme is the leading run of alphanumeric-or-underscore characters.
pub open spec fn spec_tokenize_identifier(s: Seq<char>) -> ScanModel {
    if s.len() > 0 && char_is_alphabetic(s[0]) && run_len(s, |c: char| ident_char(c)) > 0 {
        Some((s.take(run_len(s, |c: char| ident_char(c)) as int), TokenType::Identifier))
    } else {
        None
    }
}

pub fn tokenize_identifier(string: &str) -> (r: Result<(&str, TokenType), &str>)
    ensures
        scan_matches(r, spec_tokenize_identifier(string@)),
{
    let n = string.unicode_len();
    if n == 0 || !string.get_char(0).is_alphabetic() {
        return Err("Err: could not parse identifer | Ident must start with alphabetic");
    }
    let mut i: usize = 0;
    while i < n
        invariant
            0 <= i <= n,
            n == string@.len(),
            forall|j: int| 0 <= j < i ==> ident_char(string@[j]),
        ensures
            0 <= i <= n,
            forall|j: int| 0 <= j < i ==> ident_char(string@[j]),
            i < n ==> !ident_char(string@[i as int]),
        decreases n - i,
    {
        let c = string.get_char(i);
        if !(c.is_alphanumeric() || c == '_') {
            break;
        }
        i += 1;
    }
    proof {
        lemma_run_len_is(string@, |c: char| ident_char(c), i as int);
    }
    if i > 0 {
        Ok((string.substring_char(0, i), TokenType::Identifier))
    } else {
        Err("Err: Could not parse identifier.")
    }
}

/// The numeric-literal sub-scanner: an optional leading minus, then one or
/// more decimal digits. A following dot that is not itself followed by a
/// second dot extends the lexeme with a fractional digit run and classifies
/// it Float; a dot followed by another dot is left unconsumed and the digits
/// classify Int; a dot that ends the input is no match at all.
pub open spec fn spec_tokenize_numeric(s: Seq<char>) -> ScanModel {
    let start: int = if s.len() > 0 && s[0] == '-' {
        1
    } else {
        0
    };
    let d = run_len(s.skip(start), |c: char| char_is_digit(c));
    if d == 0 {
        None
    } else {
        let e = start + d;
        if e < s.len() && s[e] == '.' {
            if e + 1 < s.len() && s[e + 1] != '.' {
                let f = run_len(s.skip(e + 1), |c: char| char_is_digit(c));
                Some(
                    (
                        s.take(e + 1 + f),
                        TokenType::Literal(Literals::Primitive(PrimitiveType::Float)),
                    ),
                )
            } else if e + 1 < s.len() {
                Some((s.take(e), TokenType::Literal(Literals::Primitive(PrimitiveType::Int))))
            } else {
                None
            }
        } else {
            Some((s.take(e), TokenType::Literal(Literals::Primitive(PrimitiveType::Int))))
        }
    }
}

/// Counts the decimal digits of `string` from `from` on, stopping at the
/// first non-digit.
fn digit_run_end(string: &str, from: usize) -> (end: usize)
    requires
        from <= string@.len(),
    ensures
        from <= end <= string@.len(),
        end - from == run_len(string@.skip(from as int), |c: char| char_is_digit(c)),
{
    let n = string.unicode_len();
    let mut i: usize = from;
    while i < n
        invariant
            from <= i <= n,
            n == string@.len(),
            forall|j: int| from <= j < i ==> char_is_digit(string@[j]),
        ensures
            from <= i <= n,
            forall|j: int| from <= j < i ==> char_is_digit(string@[j]),
            i < n ==> !char_is_digit(string@[i as int]),
        decreases n - i,
    {
        let c = string.get_char(i);
        let u = c as u32;
        if !(48 <= u && u <= 57) {
            break;
        }
        i += 1;
    }
    proof {
        let t = string@.skip(from as int);
        assert forall|j: int| 0 <= j < i - from implies char_is_digit(t[j]) by {
            assert(t[j] == string@[j + from]);
        }
        assert(i - from < t.len() ==> !char_is_digit(t[i - from]));
        lemma_run_len_is(t, |c: char| char_is_digit(c), i - from);
    }
    i
}

pub fn tokenize_numeric_literal(string: &str) -> (r: Result<(&str, TokenType), &str>)
    ensures
        scan_matches(r, spec_tokenize_numeric(string@)),
{
    let n = string.unicode_len();
    let start: usize = if n > 0 && string.get_char(0) == '-' {
        1
    } else {
        0
    };
    let e = digit_run_end(string, start);
    if e == start {
        return Err("Err: could not parse numeric");
    }
    if e < n && string.get_char(e) == '.' {
        if e + 1 < n {
            if string.get_char(e + 1) != '.' {
                let f = digit_run_end(string, e + 1);
                return Ok(
                    (
                        string.substring_char(0, f),
                        TokenType::Literal(Literals::Primitive(PrimitiveType::Float)),
                    ),
                );
            } else {
                return Ok(
                    (
                        string.substring_char(0, e),
                        TokenType::Literal(Literals::Primitive(PrimitiveType::Int)),
                    ),
                );
            }
        } else {
            return Err("Err: could not parse numeric");
        }
    }
    Ok((string.substring_char(0, e), TokenType::Literal(Literals::Primitive(PrimitiveType::Int))))
}

/// Position of the first closing quote at or after `i`: a `'"'` whose
/// immediately preceding character is not a backslash.
pub open spec fn find_string_close(s: Seq<char>, i: int) -> Option<int>
    decreases s.len() - i,
    when 1 <= i <= s.len()
{
    if i >= s.len() {
        None
    } else if s[i] == '"' && s[i - 1] != '\\' {
        Some(i)
    } else {
        find_string_close(s, i + 1)
    }
}

proof fn lemma_find_string_close_from(s: Seq<char>, lo: int, i: int)
    requires
        1 <= lo <= i <= s.len(),
        forall|j: int| lo <= j < i ==> !((#[trigger] s[j]) == '"' && s[j - 1] != '\\'),
    ensures
        find_string_close(s, lo) == find_string_close(s, i),
    decreases i - lo,
{
    if lo < i {
        lemma_find_string_close_from(s, lo + 1, i);
    }
}

/// The string-literal sub-scanner: starts only on a double quote, and runs
/// to the first closing quote not preceded by a backslash, both quotes
/// included; no qualifying close, or input under two characters, is no
/// match.
pub open spec fn spec_tokenize_string(s: Seq<char>) -> ScanModel {
    if s.len() >= 2 && s[0] == '"' {
        match find_string_close(s, 1) {
            Some(i) => Some(
                (s.take(i + 1), TokenType::Literal(Literals::BuiltIn(BuiltinType::String))),
            ),
            None => None,
        }
    } else {
        None
    }
}

pub fn tokenize_string_literal(string: &str) -> (r: Result<(&str, TokenType), &str>)
    ensures
        scan_matches(r, spec_tokenize_string(string@)),
{
    let n = string.unicode_len();
    if n < 2 || string.get_char(0) != '"' {
        return Err("Not a string literal");
    }
    let mut i: usize = 1;
    let mut found = false;
    while i < n
        invariant_except_break
            !found,
        invariant
            1 <= i <= n,
            n == string@.len(),
            forall|j: int| 1 <= j < i ==> !((#[trigger] string@[j]) == '"' && string@[j - 1] != '\\'),
        ensures
            1 <= i <= n,
            forall|j: int| 1 <= j < i ==> !((#[trigger] string@[j]) == '"' && string@[j - 1] != '\\'),
            found ==> i < n && string@[i as int] == '"' && string@[i as int - 1] != '\\',
            !found ==> i == n,
        decreases n - i,
    {
        if string.get_char(i) == '"' && string.get_char(i - 1) != '\\' {
            found = true;
            break;
        }
        i += 1;
    }
    proof {
        lemma_find_string_close_from(string@, 1, i as int);
    }
    if found {
        Ok(
            (
                string.substring_char(0, i + 1),
                TokenType::Literal(Literals::BuiltIn(BuiltinType::String)),
            ),
        )
    } else {
        Err("Err: String literal never closed.")
    }
}

/// Position of the first `*/` at or after `i`.
pub open spec fn find_block_close(s: Seq<char>, i: int) -> Option<int>
    decreases s.len() - i,
    when 1 <= i <= s.len()
{
    if i + 1 >= s.len() {
        None
    } else if s[i] == '*' && s[i + 1] == '/' {
        Some(i)
    } else {
        find_block_close(s, i + 1)
    }
}

proof fn lemma_find_block_close_from(s: Seq<char>, lo: int, i: int)
    requires
        1 <= lo <= i <= s.len(),
        forall|j: int| lo <= j < i ==> !(j + 1 < s.len() && (#[trigger] s[j]) == '*' && s[j + 1] == '/'),
    ensures
        find_block_close(s, lo) == find_block_close(s, i),
    decreases i - lo,
{
    if lo < i {
        lemma_find_block_close_from(s, lo + 1, i);
    }
}

/// The comment sub-scanner: `//` through the end of the line, terminator
/// excluded (to the end of input when no newline remains); or `/*` through
/// the first following `*/` inclusive, consuming to the end of input when
/// unterminated.
pub open spec fn spec_tokenize_comment(s: Seq<char>) -> ScanModel {
    if s.len() >= 2 && s[0] == '/' && s[1] == '/' {
        Some((s.take(run_len(s, |c: char| c != '\n') as int), TokenType::Comment))
    } else if s.len() >= 2 && s[0] == '/' && s[1] == '*' {
        match find_block_close(s, 1) {
            Some(i) => Some((s.take(i + 2), TokenType::Comment)),
            None => Some((s, TokenType::Comment)),
        }
    } else {
        None
    }
}

pub fn tokenize_comment(string: &str) -> (r: Result<(&str, TokenType), &str>)
    ensures
        scan_matches(r, spec_tokenize_comment(string@)),
{
    let n = string.unicode_len();
    if n < 2 || string.get_char(0) != '/' {
        return Err("Err not implemented");
    }
    let c1 = string.get_char(1);
    if c1 == '/' {
        let mut i: usize = 0;
        while i < n
            invariant
                0 <= i <= n,
                n == string@.len(),
                forall|j: int| 0 <= j < i ==> string@[j] != '\n',
            ensures
                0 <= i <= n,
                forall|j: int| 0 <= j < i ==> string@[j] != '\n',
                i < n ==> string@[i as int] == '\n',
            decreases n - i,
        {
            if string.get_char(i) == '\n' {
                break;
            }
            i += 1;
        }
        proof {
            lemma_run_len_is(string@, |c: char| c != '\n', i as int);
        }
        return Ok((string.substring_char(0, i), TokenType::Comment));
    }
    if c1 == '*' {
        let mut i: usize = 1;
        let mut found = false;
        while i < n
            invariant_except_break
                !found,
            invariant
                1 <= i <= n,
                n == string@.len(),
                forall|j: int|
                    1 <= j < i ==> !(j + 1 < n && (#[trigger] string@[j]) == '*' && string@[j
                        + 1] == '/'),
            ensures
                1 <= i <= n,
                forall|j: int|
                    1 <= j < i ==> !(j + 1 < n && (#[trigger] string@[j]) == '*' && string@[j
                        + 1] == '/'),
                found ==> i + 1 < n && string@[i as int] == '*' && string@[i as int + 1] == '/',
                !found ==> i == n,
            decreases n - i,
        {
            if i + 1 < n && string.get_char(i) == '*' && string.get_char(i + 1) == '/' {
                found = true;
                break;
            }
            i += 1;
        }
        proof {
            lemma_find_block_close_from(string@, 1, i as int);
        }
        if found {
            return Ok((string.substring_char(0, i + 2), TokenType::Comment));
        } else {
            return Ok((string, TokenType::Comment));
        }
    }
    Err("Err not implemented")
}

proof fn lemma_find_string_close_bounds(s: Seq<char>, lo: int)
    requires
        1 <= lo <= s.len(),
        find_string_close(s, lo) is Some,
    ensures
        lo <= find_string_close(s, lo)->0 < s.len(),
    decreases s.len() - lo,
{
    if !(s[lo] == '"' && s[lo - 1] != '\\') {
        lemma_find_string_close_bounds(s, lo + 1);
    }
}

proof fn lemma_find_block_close_bounds(s: Seq<char>, lo: int)
    requires
        1 <= lo <= s.len(),
        find_block_close(s, lo) is Some,
    ensures
        lo <= find_block_close(s, lo)->0,
        find_block_close(s, lo)->0 + 1 < s.len(),
    decreases s.len() - lo,
{
    if lo + 1 < s.len() && !(s[lo] == '*' && s[lo + 1] == '/') {
        lemma_find_block_close_bounds(s, lo + 1);
    }
}

/// One scan step at the head of the remaining input: the sub-scanners are
/// tried in the fixed priority order and the first match wins.
pub open spec fn spec_scan(s: Seq<char>) -> ScanModel {
    if spec_tokenize_comment(s) is Some {
        spec_tokenize_comment(s)
    } else if spec_tokenize_string(s) is Some {
        spec_tokenize_string(s)
    } else if spec_tokenize_numeric(s) is Some {
        spec_tokenize_numeric(s)
    } else if spec_tokenize_keyword(s) is Some {
        spec_tokenize_keyword(s)
    } else if spec_tokenize_type(s) is Some {
        spec_tokenize_type(s)
    } else if spec_tokenize_operator(s) is Some {
        spec_tokenize_operator(s)
    } else if spec_tokenize_delimiter(s) is Some {
        spec_tokenize_delimiter(s)
    } else {
        spec_tokenize_identifier(s)
    }
}

/// A matched lexeme is a non-empty prefix of the input it was scanned from.
pub proof fn lemma_scan_prefix(s: Seq<char>)
    requires
        spec_scan(s) is Some,
    ensures
        1 <= (spec_scan(s)->0).0.len(),
        (spec_scan(s)->0).0.is_prefix_of(s),
{
    let lex = (spec_scan(s)->0).0;
    if spec_tokenize_comment(s) is Some {
        if s.len() >= 2 && s[0] == '/' && s[1] == '/' {
            lemma_run_len_le(s, |c: char| c != '\n');
        } else {
            match find_block_close(s, 1) {
                Some(i) => lemma_find_block_close_bounds(s, 1),
                None => {},
            }
        }
    } else if spec_tokenize_string(s) is Some {
        lemma_find_string_close_bounds(s, 1);
    } else if spec_tokenize_numeric(s) is Some {
        let start: int = if s.len() > 0 && s[0] == '-' {
            1
        } else {
            0
        };
        lemma_run_len_le(s.skip(start), |c: char| char_is_digit(c));
        let d = run_len(s.skip(start), |c: char| char_is_digit(c));
        let e = start + d;
        if e < s.len() && s[e] == '.' && e + 1 < s.len() && s[e + 1] != '.' {
            lemma_run_len_le(s.skip(e + 1), |c: char| char_is_digit(c));
        }
    } else if spec_tokenize_keyword(s) is Some {
        reveal_strlit("import");
        reveal_strlit("include");
        reveal_strlit("struct");
        reveal_strlit("for");
        reveal_strlit("continue");
        reveal_strlit("break");
        reveal_strlit("func");
        reveal_strlit("fn");
        reveal_strlit("match");
        reveal_strlit("cond");
        reveal_strlit("when");
        reveal_strlit("if");
        reveal_strlit("elif");
        reveal_strlit("else");
        reveal_strlit("return");
        reveal_strlit("interface");
        reveal_strlit("assert");
        reveal_strlit("panic");
        reveal_strlit("test");
        reveal_strlit("<EOF>");
    } else if spec_tokenize_type(s) is Some {
        reveal_strlit("stream");
        reveal_strlit("str");
        reveal_strlit("enum");
        reveal_strlit("tuple");
        reveal_strlit("list");
        reveal_strlit("range");
        reveal_strlit("map");
        reveal_strlit("int");
        reveal_strlit("float");
        reveal_strlit("bool");
        reveal_strlit("char");
        reveal_strlit("atom");
    } else if spec_tokenize_operator(s) is Some {
    } else if spec_tokenize_delimiter(s) is Some {
    } else {
        lemma_run_len_le(s, |c: char| ident_char(c));
    }
}

/// Length of the leading whitespace run.
pub open spec fn ws_run(s: Seq<char>) -> nat {
    run_len(s, |c: char| char_is_whitespace(c))
}

/// The token sequence the driver produces from `s`: skip leading
/// whitespace, stop at end of input, otherwise take the scan chain's first
/// match and continue past its lexeme. When no sub-scanner matches, the
/// driver is fail-open: it drops one character and continues.
pub open spec fn spec_tokenize(s: Seq<char>) -> Seq<(Seq<char>, TokenType)>
    decreases s.len(),
    via spec_tokenize_decreases
{
    let t = s.skip(ws_run(s) as int);
    if t.len() <= 0 {
        Seq::empty()
    } else {
        match spec_scan(t) {
            Some(m) => seq![m] + spec_tokenize(t.skip(m.0.len() as int)),
            None => spec_tokenize(t.skip(1)),
        }
    }
}

#[via_fn]
proof fn spec_tokenize_decreases(s: Seq<char>) {
    lemma_run_len_le(s, |c: char| char_is_whitespace(c));
    let t = s.skip(ws_run(s) as int);
    if t.len() > 0 && spec_scan(t) is Some {
        lemma_scan_prefix(t);
    }
}

/// Skipping one leading whitespace character does not change the tokens.
proof fn lemma_tokenize_skip_ws(t: Seq<char>)
    requires
        t.len() > 0,
        char_is_whitespace(t[0]),
    ensures
        spec_tokenize(t) == spec_tokenize(t.skip(1)),
{
    let u = t.skip(1);
    assert(t.drop_first() =~= u);
    assert(ws_run(t) == 1 + ws_run(u));
    lemma_run_len_le(u, |c: char| char_is_whitespace(c));
    assert(t.skip(ws_run(t) as int) =~= u.skip(ws_run(u) as int));
}

/// The lexeme and kind of each token in a run.
pub open spec fn tokens_model(ts: Seq<Token>) -> Seq<(Seq<char>, TokenType)> {
    ts.map_values(|t: Token| t@)
}

/// Tries the sub-scanners at the head of `string` in priority order and
/// returns the first match.
fn scan_token(string: &str) -> (r: Result<(&str, TokenType), &str>)
    ensures
        scan_matches(r, spec_scan(string@)),
{
    if let Ok(p) = tokenize_comment(string) {
        return Ok(p);
    }
    if let Ok(p) = tokenize_string_literal(string) {
        return Ok(p);
    }
    if let Ok(p) = tokenize_numeric_literal(string) {
        return Ok(p);
    }
    if let Ok(p) = tokenize_keyword(string) {
        return Ok(p);
    }
    if let Ok(p) = tokenize_type(string) {
        return Ok(p);
    }
    if let Ok(p) = tokenize_operator(string) {
        return Ok(p);
    }
    if let Ok(p) = tokenize_delimiter(string) {
        return Ok(p);
    }
    tokenize_identifier(string)
}

/// The tokenizer driver: skip whitespace, try the sub-scanners in priority
/// order, accept the first success, advance past the consumed lexeme;
/// where nothing matches, drop one character and continue.
pub fn tokenize(input_string: &str) -> (v: Vec<Token>)
    ensures
        tokens_model(v@) == spec_tokenize(input_string@),
{
    let ghost s = input_string@;
    let n = input_string.unicode_len();
    let mut pos: usize = 0;
    let mut v: Vec<Token> = Vec::new();
    proof {
        assert(s.skip(0) =~= s);
        assert(tokens_model(v@) + spec_tokenize(s) =~= spec_tokenize(s));
    }
    while pos < n
        invariant
            0 <= pos <= n,
            n == s.len(),
            s == input_string@,
            spec_tokenize(s) == tokens_model(v@) + spec_tokenize(s.skip(pos as int)),
        decreases n - pos,
    {
        let ghost t = s.skip(pos as int);
        let c = input_string.get_char(pos);
        if c.is_whitespace() {
            proof {
                lemma_tokenize_skip_ws(t);
                assert(t.skip(1) =~= s.skip(pos + 1));
            }
            pos += 1;
            continue;
        }
        let rest = input_string.substring_char(pos, n);
        proof {
            assert(rest@ =~= t);
            assert(ws_run(t) == 0);
            assert(t.skip(0) =~= t);
        }
        match scan_token(rest) {
            Ok((lex, t_type)) => {
                proof {
                    lemma_scan_prefix(t);
                }
                let l = lex.unicode_len();
                let ghost v0 = v@;
                v.push(Token { string: lex.to_owned(), token_type: t_type });
                proof {
                    let m = spec_scan(t)->0;
                    assert(tokens_model(v@) =~= tokens_model(v0) + seq![(lex@, t_type)]);
                    assert(t.skip(l as int) =~= s.skip(pos + l));
                    assert(tokens_model(v0) + (seq![m] + spec_tokenize(t.skip(l as int)))
                        =~= (tokens_model(v0) + seq![m]) + spec_tokenize(t.skip(l as int)));
                }
                pos += l;
            },
            Err(_) => {
                proof {
                    assert(t.skip(1) =~= s.skip(pos + 1));
                }
                pos += 1;
            },
        }
    }
    proof {
        assert(s.skip(n as int).len() == 0);
        assert(ws_run(s.skip(n as int)) == 0);
        assert(s.skip(n as int).skip(0) =~= s.skip(n as int));
        assert(tokens_model(v@) + spec_tokenize(s.skip(n as int)) =~= tokens_model(v@));
    }
    v
}

/// The shallow expression shapes the recognizer can produce.
#[derive(Debug, Clone, Copy, PartialEq, Eq, Structural)]
pub enum ExpressionType {
    Definition,
    Calculation,
    FunctionCall,
    Literal,
}

/// A parser can report a successful parse, input it cannot parse, or a
/// malformed, erroneous state in the input.
pub enum ParseResult<T> {
    Parsed(T),
    Unparsable,
    Error,
}

/// A run of tokens grouped as one expression.
#[derive(Debug, Clone)]
pub struct Expression {
    tokens: Vec<Token>,
}

/// Placeholder recognizer over a bare token run; the shallow grammar lives in
/// the expression matchers, and this entry always reports an erroneous state.
pub fn match_expression(expression: Vec<Token>) -> (r: ParseResult<Expression>)
    ensures
        r is Error,
{
    ParseResult::Error
}

} // verus!
