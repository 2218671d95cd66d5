//! Properties of the front end as a whole: what the token and expression
//! sequences look like, stated over the drivers' models and proved once for
//! every input.

use crate::parsers::ExprModel;
use crate::parsers::dotted_ok;
use crate::parsers::dotted_run;
use crate::parsers::lemma_dotted_run_holds;
use crate::parsers::lemma_dotted_run_le;
use crate::parsers::lemma_match_consumed;
use crate::parsers::spec_expressionize;
use crate::parsers::spec_match_expression;
use crate::text::char_is_whitespace;
use crate::text::lemma_run_len_holds;
use crate::text::lemma_run_len_le;
use crate::tokens::Delimiters;
use crate::tokens::Token;
use crate::tokens::TokenType;
use crate::tokens::lemma_scan_prefix;
use crate::tokens::spec_scan;
use crate::tokens::spec_tokenize;
use crate::tokens::ws_run;
use vstd::prelude::*;

verus! {

/// Whether the driver consumes every character of `s` into tokens: at each
/// step, after skipping whitespace, some sub-scanner matches, so the
/// fail-open single-character drop is never taken.
pub open spec fn fully_tokenizes(s: Seq<char>) -> bool
    decreases s.len(),
    via fully_tokenizes_decreases
{
    let t = s.skip(ws_run(s) as int);
    if t.len() <= 0 {
        true
    } else {
        match spec_scan(t) {
            Some(m) => fully_tokenizes(t.skip(m.0.len() as int)),
            None => false,
        }
    }
}

#[via_fn]
proof fn fully_tokenizes_decreases(s: Seq<char>) {
    lemma_run_len_le(s, |c: char| char_is_whitespace(c));
    let t = s.skip(ws_run(s) as int);
    if t.len() > 0 && spec_scan(t) is Some {
        lemma_scan_prefix(t);
    }
}

/// Concatenation of the lexemes of a token run.
pub open spec fn lexeme_concat(ms: Seq<(Seq<char>, TokenType)>) -> Seq<char>
    decreases ms.len(),
{
    if ms.len() == 0 {
        Seq::empty()
    } else {
        ms[0].0 + lexeme_concat(ms.drop_first())
    }
}

/// The non-whitespace characters of `s`, in order.
pub open spec fn non_ws(s: Seq<char>) -> Seq<char> {
    s.filter(|c: char| !char_is_whitespace(c))
}

proof fn lemma_ws_filters_empty(s: Seq<char>)
    requires
        forall|j: int| 0 <= j < s.len() ==> char_is_whitespace(#[trigger] s[j]),
    ensures
        non_ws(s) == Seq::<char>::empty(),
    decreases s.len(),
{
    reveal(Seq::filter);
    if s.len() > 0 {
        lemma_ws_filters_empty(s.drop_last());
    }
}

/// Re-tokenization coverage: on input that fully tokenizes, concatenating
/// all token lexemes, with the whitespace the driver skipped left out,
/// reproduces the non-whitespace content of the input.
pub proof fn lemma_retokenization_coverage(s: Seq<char>)
    requires
        fully_tokenizes(s),
    ensures
        non_ws(lexeme_concat(spec_tokenize(s))) == non_ws(s),
    decreases s.len(),
{
    let pred = |c: char| !char_is_whitespace(c);
    let w = ws_run(s) as int;
    lemma_run_len_le(s, |c: char| char_is_whitespace(c));
    let t = s.skip(w);
    assert(s =~= s.take(w) + t);
    Seq::<char>::filter_distributes_over_add(s.take(w), t, pred);
    assert forall|j: int| 0 <= j < s.take(w).len() implies char_is_whitespace(
        #[trigger] s.take(w)[j],
    ) by {
        lemma_run_len_holds(s, |c: char| char_is_whitespace(c), j);
    }
    lemma_ws_filters_empty(s.take(w));
    assert(non_ws(s) =~= non_ws(t));
    if t.len() == 0 {
        assert(non_ws(t) =~= Seq::<char>::empty()) by {
            reveal(Seq::filter);
        }
    } else {
        let m = spec_scan(t)->0;
        lemma_scan_prefix(t);
        let lex = m.0;
        let rest = t.skip(lex.len() as int);
        assert(t =~= lex + rest);
        Seq::<char>::filter_distributes_over_add(lex, rest, pred);
        let rest_models = spec_tokenize(rest);
        assert((seq![m] + rest_models).drop_first() =~= rest_models);
        assert(lexeme_concat(spec_tokenize(s)) == lex + lexeme_concat(rest_models));
        Seq::<char>::filter_distributes_over_add(lex, lexeme_concat(rest_models), pred);
        lemma_retokenization_coverage(rest);
    }
}

/// Every token the driver produces carries a non-empty lexeme.
pub proof fn lemma_lexemes_nonempty(s: Seq<char>, i: int)
    requires
        0 <= i < spec_tokenize(s).len(),
    ensures
        spec_tokenize(s)[i].0.len() >= 1,
    decreases s.len(),
{
    lemma_run_len_le(s, |c: char| char_is_whitespace(c));
    let t = s.skip(ws_run(s) as int);
    if t.len() > 0 {
        match spec_scan(t) {
            Some(m) => {
                lemma_scan_prefix(t);
                let rest = t.skip(m.0.len() as int);
                if i == 0 {
                    assert((seq![m] + spec_tokenize(rest))[0] == m);
                } else {
                    assert((seq![m] + spec_tokenize(rest))[i] == spec_tokenize(rest)[i - 1]);
                    lemma_lexemes_nonempty(rest, i - 1);
                }
            },
            None => {
                lemma_lexemes_nonempty(t.skip(1), i);
            },
        }
    }
}

/// In every recognized expression, a definition's value is itself a
/// literal expression.
pub proof fn lemma_definition_value_is_literal(toks: Seq<Token>, i: int)
    requires
        0 <= i < spec_expressionize(toks).len(),
    ensures
        spec_expressionize(toks)[i] matches ExprModel::Definition { value, .. } ==> (
        *value matches ExprModel::Literal { .. }),
    decreases toks.len(),
{
    if toks.len() > 0 && spec_match_expression(toks) is Some {
        lemma_match_consumed(toks);
        let p = spec_match_expression(toks)->0;
        let rest = spec_expressionize(toks.skip(p.1));
        if i == 0 {
            assert((seq![p.0] + rest)[0] == p.0);
        } else {
            assert((seq![p.0] + rest)[i] == rest[i - 1]);
            lemma_definition_value_is_literal(toks.skip(p.1), i - 1);
        }
    }
}

/// A recognized call's name is a non-empty alternating run: identifiers at
/// even offsets, periods at odd ones, of odd length, so it starts and ends
/// with an identifier.
pub proof fn lemma_function_call_name_shape(toks: Seq<Token>, i: int)
    requires
        0 <= i < spec_expressionize(toks).len(),
    ensures
        spec_expressionize(toks)[i] matches ExprModel::FunctionCall { function_name, .. } ==> ({
            &&& function_name.len() % 2 == 1
            &&& forall|j: int|
                0 <= j < function_name.len() ==> if j % 2 == 0 {
                    (#[trigger] function_name[j]).token_type is Identifier
                } else {
                    function_name[j].token_type == TokenType::Delimiter(Delimiters::Period)
                }
        }),
    decreases toks.len(),
{
    if toks.len() > 0 && spec_match_expression(toks) is Some {
        lemma_match_consumed(toks);
        let p = spec_match_expression(toks)->0;
        let rest = spec_expressionize(toks.skip(p.1));
        if i == 0 {
            assert((seq![p.0] + rest)[0] == p.0);
            if p.0 matches ExprModel::FunctionCall { function_name, .. } {
                let k = dotted_run(toks, true);
                lemma_dotted_run_le(toks, true);
                assert forall|j: int| 0 <= j < k implies dotted_ok(
                    #[trigger] toks[j],
                    j % 2 == 0,
                ) by {
                    lemma_dotted_run_holds(toks, true, j);
                }
            }
        } else {
            assert((seq![p.0] + rest)[i] == rest[i - 1]);
            lemma_function_call_name_shape(toks.skip(p.1), i - 1);
        }
    }
}

} // verus!
