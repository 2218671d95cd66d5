//! Expression shapes and the matchers that fold token runs into them.
//!
//! Each matcher maps a token-sequence suffix to an expression together with
//! the number of tokens it consumed, or reports no match. The driver
//! `expressionize` tries them in a fixed priority order: comment-skip,
//! definition, function call. Once a matcher accepts a run of tokens, those
//! tokens are never revisited; when every matcher fails, the driver stops
//! and the remaining tokens are dropped.

use crate::text::lemma_run_len_is;
use crate::text::lemma_run_len_le;
use crate::text::run_len;
use crate::tokens::Delimiters;
use crate::tokens::Operators;
use crate::tokens::Token;
use crate::tokens::TokenType;
use vstd::prelude::*;

verus! {

/// The dotted name of a call: identifiers alternating with periods.
#[derive(Debug, Clone, PartialEq)]
pub struct FunctionName {
    pub idents: Vec<Token>,
}

/// The parameter run of a call: everything after the opening parenthesis up
/// to and including the closing one.
#[derive(Debug, Clone, PartialEq)]
pub struct ParameterList {
    pub params: Vec<Token>,
}

/// A binary calculation; reserved, no matcher produces it yet.
#[derive(Debug, Clone, PartialEq)]
pub struct Calculation {
    pub left: Token,
    pub operator: Token,
    pub right: Token,
}

/// A call flattened to one name token; reserved, no matcher produces it.
#[derive(Debug, Clone, PartialEq)]
pub struct FunctionCall {
    pub function_name: Token,
    pub parameter_list: Vec<Token>,
}

/// One recognized expression over a run of tokens.
#[derive(Debug, PartialEq)]
pub enum Expression {
    Definition { definition_type: Token, identifier: Token, value: Box<Expression> },
    Calculation,
    FunctionCall { function_name: FunctionName, parameters: ParameterList },
    Literal { literal_type: TokenType, token: Token },
    Identifier,
    Empty { tokens: Vec<Token> },
}

/// The mathematical shape of an expression: token containers become plain
/// sequences.
pub enum ExprModel {
    Definition { definition_type: Token, identifier: Token, value: Box<ExprModel> },
    Calculation,
    FunctionCall { function_name: Seq<Token>, parameters: Seq<Token> },
    Literal { literal_type: TokenType, token: Token },
    Identifier,
    Empty { tokens: Seq<Token> },
}

impl View for Expression {
    type V = ExprModel;

    open spec fn view(&self) -> ExprModel
        decreases self,
    {
        match self {
            Expression::Definition { definition_type, identifier, value } => ExprModel::Definition {
                definition_type: *definition_type,
                identifier: *identifier,
                value: Box::new((**value)@),
            },
            Expression::Calculation => ExprModel::Calculation,
            Expression::FunctionCall { function_name, parameters } => ExprModel::FunctionCall {
                function_name: function_name.idents@,
                parameters: parameters.params@,
            },
            Expression::Literal { literal_type, token } => ExprModel::Literal {
                literal_type: *literal_type,
                token: *token,
            },
            Expression::Identifier => ExprModel::Identifier,
            Expression::Empty { tokens } => ExprModel::Empty { tokens: tokens@ },
        }
    }
}

/// Relates a matcher's result to its model: a match yields exactly the
/// modelled expression and consumed count, a miss yields the no-match
/// signal.
pub open spec fn matcher_matches(
    r: Result<(Expression, usize), &str>,
    m: Option<(ExprModel, int)>,
) -> bool {
    match m {
        Some(p) => r matches Ok(q) && q.0@ == p.0 && q.1 == p.1,
        None => r is Err,
    }
}

/// The empty matcher: succeeds on a run of one or more leading comment
/// tokens, wrapping the skipped run; fails on a zero-length run.
pub open spec fn spec_match_empty(toks: Seq<Token>) -> Option<(ExprModel, int)> {
    let k = run_len(toks, |t: Token| t.token_type is Comment);
    if k > 0 {
        Some((ExprModel::Empty { tokens: toks.take(k as int) }, k as int))
    } else {
        None
    }
}

/// The definition matcher: succeeds only on the exact four-token prefix
/// type, identifier, equal sign, literal; the value is the literal wrapped
/// as an expression of its own.
pub open spec fn spec_match_definition(toks: Seq<Token>) -> Option<(ExprModel, int)> {
    if toks.len() >= 4 && toks[0].token_type is Type && toks[1].token_type is Identifier
        && toks[2].token_type == TokenType::Operator(Operators::Equal)
        && toks[3].token_type is Literal {
        Some(
            (
                ExprModel::Definition {
                    definition_type: toks[0],
                    identifier: toks[1],
                    value: Box::new(
                        ExprModel::Literal { literal_type: toks[3].token_type, token: toks[3] },
                    ),
                },
                4,
            ),
        )
    } else {
        None
    }
}

/// Whether a token may stand at a position of a dotted name that expects an
/// identifier (`expect_ident`) or a period.
pub open spec fn dotted_ok(t: Token, expect_ident: bool) -> bool {
    if expect_ident {
        t.token_type is Identifier
    } else {
        t.token_type == TokenType::Delimiter(Delimiters::Period)
    }
}

/// Length of the longest leading run alternating identifier and period.
pub open spec fn dotted_run(toks: Seq<Token>, expect_ident: bool) -> nat
    decreases toks.len(),
{
    if toks.len() > 0 && dotted_ok(toks[0], expect_ident) {
        1 + dotted_run(toks.drop_first(), !expect_ident)
    } else {
        0
    }
}

pub proof fn lemma_dotted_run_le(toks: Seq<Token>, expect_ident: bool)
    ensures
        dotted_run(toks, expect_ident) <= toks.len(),
    decreases toks.len(),
{
    if toks.len() > 0 && dotted_ok(toks[0], expect_ident) {
        lemma_dotted_run_le(toks.drop_first(), !expect_ident);
    }
}

/// Every token inside the alternating run stands at a position of the
/// expected kind: identifiers at even offsets, periods at odd ones.
pub proof fn lemma_dotted_run_holds(toks: Seq<Token>, expect_ident: bool, j: int)
    requires
        0 <= j < dotted_run(toks, expect_ident),
    ensures
        dotted_ok(
            toks[j],
            if j % 2 == 0 {
                expect_ident
            } else {
                !expect_ident
            },
        ),
    decreases j,
{
    lemma_dotted_run_le(toks, expect_ident);
    if j > 0 {
        lemma_dotted_run_holds(toks.drop_first(), !expect_ident, j - 1);
        assert(toks.drop_first()[j - 1] == toks[j]);
    }
}

proof fn lemma_dotted_run_is(toks: Seq<Token>, expect_ident: bool, i: int)
    requires
        0 <= i <= toks.len(),
        forall|j: int|
            0 <= j < i ==> dotted_ok(
                #[trigger] toks[j],
                if j % 2 == 0 {
                    expect_ident
                } else {
                    !expect_ident
                },
            ),
        i < toks.len() ==> !dotted_ok(
            toks[i],
            if i % 2 == 0 {
                expect_ident
            } else {
                !expect_ident
            },
        ),
    ensures
        dotted_run(toks, expect_ident) == i,
    decreases i,
{
    if i == 0 {
        assert(toks.len() == 0 || !dotted_ok(toks[0], expect_ident));
    } else {
        assert(dotted_ok(toks[0], expect_ident));
        let t = toks.drop_first();
        assert forall|j: int|
            0 <= j < i - 1 implies dotted_ok(
            #[trigger] t[j],
            if j % 2 == 0 {
                !expect_ident
            } else {
                expect_ident
            },
        ) by {
            assert(t[j] == toks[j + 1]);
        }
        if i < toks.len() {
            assert(t[i - 1] == toks[i as int]);
        }
        lemma_dotted_run_is(t, !expect_ident, i - 1);
    }
}

/// The dotted-name part of the function-call matcher: the greedy alternating
/// run must be non-empty and end with an identifier, so its length is odd.
pub open spec fn spec_match_function_name(toks: Seq<Token>) -> Option<Seq<Token>> {
    let k = dotted_run(toks, true);
    if k % 2 == 1 {
        Some(toks.take(k as int))
    } else {
        None
    }
}

/// The parameter-list part of the function-call matcher: after an opening
/// parenthesis, a non-empty run up to the first closing parenthesis, which
/// is appended; a missing close or an empty run is no match.
pub open spec fn spec_match_parameter_list(toks: Seq<Token>) -> Option<Seq<Token>> {
    if toks.len() > 0 && toks[0].token_type == TokenType::Delimiter(Delimiters::ParOpen) {
        let inner = toks.skip(1);
        let k = run_len(
            inner,
            |t: Token| !(t.token_type == TokenType::Delimiter(Delimiters::ParClose)),
        );
        if k >= 1 && k < inner.len() {
            Some(inner.take(k as int + 1))
        } else {
            None
        }
    } else {
        None
    }
}

/// The function-call matcher: a dotted name, then a parameter list on the
/// remainder; the consumed run spans the name, the opening parenthesis and
/// the parameters through the close.
pub open spec fn spec_match_function_call(toks: Seq<Token>) -> Option<(ExprModel, int)> {
    match spec_match_function_name(toks) {
        Some(name) => match spec_match_parameter_list(toks.skip(name.len() as int)) {
            Some(params) => Some(
                (
                    ExprModel::FunctionCall { function_name: name, parameters: params },
                    name.len() as int + 1 + params.len() as int,
                ),
            ),
            None => None,
        },
        None => None,
    }
}

/// One recognition step: the matchers are tried in the fixed priority order
/// and the first match wins.
pub open spec fn spec_match_expression(toks: Seq<Token>) -> Option<(ExprModel, int)> {
    if spec_match_empty(toks) is Some {
        spec_match_empty(toks)
    } else if spec_match_definition(toks) is Some {
        spec_match_definition(toks)
    } else {
        spec_match_function_call(toks)
    }
}

/// A match consumes at least one token and no more than there are.
pub proof fn lemma_match_consumed(toks: Seq<Token>)
    requires
        spec_match_expression(toks) is Some,
    ensures
        1 <= (spec_match_expression(toks)->0).1 <= toks.len(),
{
    if spec_match_empty(toks) is Some {
        lemma_run_len_le(toks, |t: Token| t.token_type is Comment);
    } else if spec_match_definition(toks) is Some {
    } else {
        let name = spec_match_function_name(toks)->0;
        let k = dotted_run(toks, true);
        lemma_dotted_run_le(toks, true);
        let rest = toks.skip(k as int);
        let inner = rest.skip(1);
        lemma_run_len_le(
            inner,
            |t: Token| !(t.token_type == TokenType::Delimiter(Delimiters::ParClose)),
        );
    }
}

/// The expression sequence the driver produces from `toks`: take the
/// matcher chain's first result and continue past the consumed run; where
/// no matcher succeeds, the driver stops and drops what remains.
pub open spec fn spec_expressionize(toks: Seq<Token>) -> Seq<ExprModel>
    decreases toks.len(),
    via spec_expressionize_decreases
{
    if toks.len() == 0 {
        Seq::empty()
    } else {
        match spec_match_expression(toks) {
            Some(p) => seq![p.0] + spec_expressionize(toks.skip(p.1)),
            None => Seq::empty(),
        }
    }
}

#[via_fn]
proof fn spec_expressionize_decreases(toks: Seq<Token>) {
    if toks.len() > 0 && spec_match_expression(toks) is Some {
        lemma_match_consumed(toks);
    }
}

/// Clones the tokens of positions `from..to`.
fn clone_tokens(tokens: &Vec<Token>, from: usize, to: usize) -> (out: Vec<Token>)
    requires
        from <= to <= tokens@.len(),
    ensures
        out@ == tokens@.subrange(from as int, to as int),
{
    let mut out: Vec<Token> = Vec::new();
    let mut j = from;
    while j < to
        invariant
            from <= j <= to <= tokens@.len(),
            out@ =~= tokens@.subrange(from as int, j as int),
        decreases to - j,
    {
        out.push(tokens[j].clone());
        j += 1;
    }
    proof {
        assert(out@ =~= tokens@.subrange(from as int, to as int));
    }
    out
}

pub fn match_empty(tokens: &Vec<Token>) -> (r: Result<(Expression, usize), &'static str>)
    ensures
        matcher_matches(r, spec_match_empty(tokens@)),
{
    let n = tokens.len();
    let mut i: usize = 0;
    while i < n
        invariant
            0 <= i <= n,
            n == tokens@.len(),
            forall|j: int| 0 <= j < i ==> (#[trigger] tokens@[j]).token_type is Comment,
        ensures
            0 <= i <= n,
            forall|j: int| 0 <= j < i ==> (#[trigger] tokens@[j]).token_type is Comment,
            i < n ==> !(tokens@[i as int].token_type is Comment),
        decreases n - i,
    {
        if !matches!(tokens[i].token_type, TokenType::Comment) {
            break;
        }
        i += 1;
    }
    proof {
        lemma_run_len_is(tokens@, |t: Token| t.token_type is Comment, i as int);
    }
    if i > 0 {
        Ok((Expression::Empty { tokens: clone_tokens(tokens, 0, i) }, i))
    } else {
        Err("Failed to match empty")
    }
}

pub fn match_definition(tokens: &Vec<Token>) -> (r: Result<(Expression, usize), &'static str>)
    ensures
        matcher_matches(r, spec_match_definition(tokens@)),
{
    if tokens.len() >= 4 && matches!(tokens[0].token_type, TokenType::Type(_)) && matches!(
        tokens[1].token_type,
        TokenType::Identifier,
    ) && matches!(tokens[2].token_type, TokenType::Operator(Operators::Equal)) && matches!(
        tokens[3].token_type,
        TokenType::Literal(_),
    ) {
        let value = Expression::Literal {
            literal_type: tokens[3].token_type,
            token: tokens[3].clone(),
        };
        proof {
            assert(value@ == ExprModel::Literal {
                literal_type: tokens@[3].token_type,
                token: tokens@[3],
            });
        }
        let e = Expression::Definition {
            definition_type: tokens[0].clone(),
            identifier: tokens[1].clone(),
            value: Box::new(value),
        };
        proof {
            assert(e@ == (spec_match_definition(tokens@)->0).0);
        }
        Ok((e, 4))
    } else {
        Err("Could not match defintion")
    }
}

pub fn match_function_name(tokens: &Vec<Token>) -> (r: Result<FunctionName, &'static str>)
    ensures
        match spec_match_function_name(tokens@) {
            Some(name) => r matches Ok(q) && q.idents@ == name,
            None => r is Err,
        },
{
    let n = tokens.len();
    let mut i: usize = 0;
    while i < n
        invariant
            0 <= i <= n,
            n == tokens@.len(),
            forall|j: int|
                0 <= j < i ==> dotted_ok(
                    #[trigger] tokens@[j],
                    if j % 2 == 0 {
                        true
                    } else {
                        false
                    },
                ),
        ensures
            0 <= i <= n,
            forall|j: int|
                0 <= j < i ==> dotted_ok(
                    #[trigger] tokens@[j],
                    if j % 2 == 0 {
                        true
                    } else {
                        false
                    },
                ),
            i < n ==> !dotted_ok(
                tokens@[i as int],
                if i % 2 == 0 {
                    true
                } else {
                    false
                },
            ),
        decreases n - i,
    {
        let ok = if i % 2 == 0 {
            matches!(tokens[i].token_type, TokenType::Identifier)
        } else {
            matches!(tokens[i].token_type, TokenType::Delimiter(Delimiters::Period))
        };
        if !ok {
            break;
        }
        i += 1;
    }
    proof {
        lemma_dotted_run_is(tokens@, true, i as int);
    }
    if i % 2 == 1 {
        Ok(FunctionName { idents: clone_tokens(tokens, 0, i) })
    } else {
        Err("")
    }
}

pub fn match_parameter_list(tokens: &Vec<Token>) -> (r: Result<ParameterList, &'static str>)
    ensures
        match spec_match_parameter_list(tokens@) {
            Some(params) => r matches Ok(q) && q.params@ == params,
            None => r is Err,
        },
{
    let n = tokens.len();
    if n == 0 || !matches!(tokens[0].token_type, TokenType::Delimiter(Delimiters::ParOpen)) {
        return Err("Couldn't match param list");
    }
    let mut i: usize = 1;
    while i < n
        invariant
            1 <= i <= n,
            n == tokens@.len(),
            forall|j: int|
                1 <= j < i ==> !((#[trigger] tokens@[j]).token_type == TokenType::Delimiter(
                    Delimiters::ParClose,
                )),
        ensures
            1 <= i <= n,
            forall|j: int|
                1 <= j < i ==> !((#[trigger] tokens@[j]).token_type == TokenType::Delimiter(
                    Delimiters::ParClose,
                )),
            i < n ==> tokens@[i as int].token_type == TokenType::Delimiter(Delimiters::ParClose),
        decreases n - i,
    {
        if matches!(tokens[i].token_type, TokenType::Delimiter(Delimiters::ParClose)) {
            break;
        }
        i += 1;
    }
    proof {
        let inner = tokens@.skip(1);
        let pred = |t: Token| !(t.token_type == TokenType::Delimiter(Delimiters::ParClose));
        assert forall|j: int| 0 <= j < i - 1 implies pred(#[trigger] inner[j]) by {
            assert(inner[j] == tokens@[j + 1]);
        }
        assert(i - 1 < inner.len() ==> !pred(inner[i - 1]));
        lemma_run_len_is(inner, pred, i - 1);
    }
    if i >= n || i == 1 {
        return Err("Couldn't match param list");
    }
    let params = clone_tokens(tokens, 1, i + 1);
    proof {
        assert(tokens@.subrange(1, i + 1) =~= tokens@.skip(1).take(i as int));
    }
    Ok(ParameterList { params })
}

pub fn match_function_call(tokens: &Vec<Token>) -> (r: Result<(Expression, usize), &'static str>)
    ensures
        matcher_matches(r, spec_match_function_call(tokens@)),
{
    let fn_name = match match_function_name(tokens) {
        Ok(e) => e,
        Err(_) => {
            return Err("Could not match function name");
        },
    };
    let k = fn_name.idents.len();
    proof {
        lemma_dotted_run_le(tokens@, true);
    }
    let toks = clone_tokens(tokens, k, tokens.len());
    proof {
        assert(toks@ =~= tokens@.skip(k as int));
    }
    let params = match match_parameter_list(&toks) {
        Ok(e) => e,
        Err(_) => {
            return Err("Could not match function name");
        },
    };
    proof {
        let inner = toks@.skip(1);
        lemma_run_len_le(
            inner,
            |t: Token| !(t.token_type == TokenType::Delimiter(Delimiters::ParClose)),
        );
    }
    let consumed = k + 1 + params.params.len();
    Ok((Expression::FunctionCall { function_name: fn_name, parameters: params }, consumed))
}

pub fn match_expression(tokens: &Vec<Token>) -> (r: Result<(Expression, usize), &'static str>)
    ensures
        matcher_matches(r, spec_match_expression(tokens@)),
{
    if let Ok(p) = match_empty(tokens) {
        return Ok(p);
    }
    if let Ok(p) = match_definition(tokens) {
        return Ok(p);
    }
    if let Ok(p) = match_function_call(tokens) {
        return Ok(p);
    }
    Err("Not implemented")
}

/// The expression driver: while tokens remain, try the matchers in priority
/// order, keep the first success, and advance past the consumed run; the
/// first unmatched suffix stops the loop and its tokens are dropped.
pub fn expressionize(tokens: Vec<Token>) -> (v: Vec<Expression>)
    ensures
        v@.map_values(|e: Expression| e@) == spec_expressionize(tokens@),
{
    let ghost toks0 = tokens@;
    let mut rest = tokens;
    let mut v: Vec<Expression> = Vec::new();
    proof {
        assert(v@.map_values(|e: Expression| e@) + spec_expressionize(toks0) =~= spec_expressionize(
            toks0,
        ));
    }
    while rest.len() > 0
        invariant
            spec_expressionize(toks0) == v@.map_values(|e: Expression| e@) + spec_expressionize(
                rest@,
            ),
        ensures
            spec_expressionize(toks0) == v@.map_values(|e: Expression| e@),
        decreases rest@.len(),
    {
        let ghost r0 = rest@;
        match match_expression(&rest) {
            Ok((e, k)) => {
                proof {
                    lemma_match_consumed(r0);
                }
                let ghost v0 = v@;
                let ghost m = spec_match_expression(r0)->0;
                v.push(e);
                proof {
                    assert(v@.map_values(|x: Expression| x@) =~= v0.map_values(|x: Expression| x@)
                        + seq![m.0]);
                    assert((v0.map_values(|x: Expression| x@) + seq![m.0]) + spec_expressionize(
                        r0.skip(m.1),
                    ) =~= v0.map_values(|x: Expression| x@) + (seq![m.0] + spec_expressionize(
                        r0.skip(m.1),
                    )));
                }
                rest = clone_tokens(&rest, k, rest.len());
                proof {
                    assert(rest@ =~= r0.skip(k as int));
                }
            },
            Err(_) => {
                proof {
                    assert(v@.map_values(|e: Expression| e@) + Seq::<ExprModel>::empty()
                        =~= v@.map_values(|e: Expression| e@));
                }
                break;
            },
        }
    }
    proof {
        if rest@.len() == 0 {
            assert(spec_expressionize(rest@) =~= Seq::<ExprModel>::empty());
        }
        assert(v@.map_values(|e: Expression| e@) + Seq::<ExprModel>::empty() =~= v@.map_values(
            |e: Expression| e@,
        ));
    }
    v
}

} // verus!
