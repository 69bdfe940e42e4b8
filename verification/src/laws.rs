//! Properties that hold of every source text and every position.
use vstd::prelude::*;
use crate::chars::{is_alphabetic_char, is_numeric_char, is_whitespace_char};
use crate::position::{col_at, line_at};
use crate::scan::{
    expr_scan, fn_scan, ident_end, identifier_scan, index_scan, index_tail, lemma_fn_scan,
    lemma_ident_end, lemma_skip_ws, main_scan, number_run, number_scan, param_default_scan,
    prepend_tokens, skip_ws, step, Scan, MSG_UNEXPECTED_AFTER_FN,
};
use crate::tokens::{DefaultView, ExprKindView, ExprTokenView};

verus! {

/// Stepping over a line feed moves to column 1 of the next line; stepping over
/// any other character moves one column to the right on the same line.
pub proof fn law_step_position(s: Seq<char>, p: int)
    requires
        0 <= p < s.len(),
    ensures
        s[p] == '\n' ==> line_at(s, p + 1) == line_at(s, p) + 1 && col_at(s, p + 1) == 1,
        s[p] != '\n' ==> line_at(s, p + 1) == line_at(s, p) && col_at(s, p + 1) == col_at(s, p)
            + 1,
{
}

/// Lexing a whole source from `p` succeeds exactly when everything from `p` on
/// is whitespace, and then the lexer stands at the end of the text.
pub proof fn law_main_accepts_only_whitespace(s: Seq<char>, p: int)
    requires
        0 <= p <= s.len(),
    ensures
        main_scan(s, p) is Done <==> (forall|i: int| p <= i < s.len() ==> is_whitespace_char(
            #[trigger] s[i],
        )),
        main_scan(s, p) matches Scan::Done(_, e) ==> e == s.len(),
{
    lemma_skip_ws(s, p);
    lemma_main_done(s, p);
    if forall|i: int| p <= i < s.len() ==> is_whitespace_char(#[trigger] s[i]) {
        lemma_all_whitespace_skipped(s, p);
    }
}

proof fn lemma_main_done(s: Seq<char>, p: int)
    requires
        0 <= p <= s.len(),
    ensures
        main_scan(s, p) is Done ==> skip_ws(s, p) >= s.len(),
        main_scan(s, p) matches Scan::Done(_, e) ==> e == s.len(),
{
    lemma_skip_ws(s, p);
    let q = skip_ws(s, p);
    if q < s.len() && crate::chars::is_alphabetic_char(s[q]) {
        crate::scan::lemma_alpha_end(s, q);
        let r = crate::scan::alpha_end(s, q);
        if r < s.len() {
            lemma_fn_scan(s, r);
        }
    }
}

proof fn lemma_all_whitespace_skipped(s: Seq<char>, p: int)
    requires
        0 <= p <= s.len(),
        forall|i: int| p <= i < s.len() ==> is_whitespace_char(#[trigger] s[i]),
    ensures
        skip_ws(s, p) == s.len(),
    decreases s.len() - p,
{
    if p < s.len() {
        assert(is_whitespace_char(s[p]));
        lemma_all_whitespace_skipped(s, p + 1);
    }
}

/// A function declaration never completes: what follows `fn` always ends in an
/// error, or never returns.
pub proof fn law_function_never_completes(s: Seq<char>, p: int)
    requires
        0 <= p <= s.len(),
    ensures
        !(fn_scan(s, p) is Done),
{
    lemma_fn_scan(s, p);
}

/// An identifier is the longest run of alphabetic characters and `_` at `p`:
/// its text is the source from `p` on, each of its characters is alphabetic or
/// `_`, and the character after it is neither.
pub proof fn law_identifier_is_longest(s: Seq<char>, p: int)
    requires
        0 <= p <= s.len(),
    ensures
        p + identifier_scan(s, p).0.len() <= s.len(),
        identifier_scan(s, p).0 == s.subrange(p, p + identifier_scan(s, p).0.len()),
        forall|i: int|
            0 <= i < identifier_scan(s, p).0.len() ==> is_alphabetic_char(
                #[trigger] identifier_scan(s, p).0[i],
            ) || identifier_scan(s, p).0[i] == '_',
        ident_end(s, p) == p + identifier_scan(s, p).0.len(),
        ident_end(s, p) < s.len() ==> !is_alphabetic_char(s[ident_end(s, p)]) && s[ident_end(
            s,
            p,
        )] != '_',
{
    lemma_ident_end(s, p);
    assert forall|i: int| 0 <= i < identifier_scan(s, p).0.len() implies is_alphabetic_char(
        #[trigger] identifier_scan(s, p).0[i],
    ) || identifier_scan(s, p).0[i] == '_' by {
        assert(identifier_scan(s, p).0[i] == s[p + i]);
    }
}

/// After `fn` and whitespace, a character that is neither alphabetic nor `_`
/// cannot start a function's name, and is refused where it stands.
pub proof fn law_function_name_start(s: Seq<char>, p: int)
    requires
        0 <= p <= s.len(),
        skip_ws(s, p) < s.len(),
        !is_alphabetic_char(s[skip_ws(s, p)]),
        s[skip_ws(s, p)] != '_',
    ensures
        fn_scan(s, p) == Scan::<()>::Fail(skip_ws(s, p), skip_ws(s, p), MSG_UNEXPECTED_AFTER_FN@),
{
    lemma_skip_ws(s, p);
}

/// Each operator character of an expression gives a token of its own kind at
/// its position (`+` an addition, `-` a subtraction, `*` a multiplication, `/`
/// a division), followed by the tokens of the rest of the expression.
pub proof fn law_expression_operators(s: Seq<char>, p: int)
    requires
        0 <= p < s.len(),
        !is_numeric_char(s[p]),
        !is_whitespace_char(s[p]),
    ensures
        s[p] == '+' ==> expr_scan(s, p) == prepend_tokens(
            seq![ExprTokenView { kind: ExprKindView::Add, line: line_at(s, p), col: col_at(s, p) }],
            expr_scan(s, p + 1),
        ),
        s[p] == '-' ==> expr_scan(s, p) == prepend_tokens(
            seq![
                ExprTokenView { kind: ExprKindView::Subtract, line: line_at(s, p), col: col_at(s, p) },
            ],
            expr_scan(s, p + 1),
        ),
        s[p] == '*' ==> expr_scan(s, p) == prepend_tokens(
            seq![
                ExprTokenView { kind: ExprKindView::Multiply, line: line_at(s, p), col: col_at(s, p) },
            ],
            expr_scan(s, p + 1),
        ),
        s[p] == '/' ==> expr_scan(s, p) == prepend_tokens(
            seq![
                ExprTokenView { kind: ExprKindView::Divide, line: line_at(s, p), col: col_at(s, p) },
            ],
            expr_scan(s, p + 1),
        ),
{
}

/// The text of a number literal is the source from where it starts: a prefix of
/// the rest of the text, which holds at least the first character when that
/// character is numeric.
pub proof fn law_number_is_source_text(s: Seq<char>, p: int)
    requires
        0 <= p <= s.len(),
    ensures
        p + number_scan(s, p).0.len() <= s.len(),
        number_scan(s, p).0 == s.subrange(p, p + number_scan(s, p).0.len()),
        p < s.len() && is_numeric_char(s[p]) ==> number_scan(s, p).0.len() >= 1
            && number_scan(s, p).0[0] == s[p],
{
    lemma_number_run_is_source_text(s, p, true);
}

proof fn lemma_number_run_is_source_text(s: Seq<char>, p: int, point: bool)
    requires
        0 <= p <= s.len(),
    ensures
        p + number_run(s, p, point).0.len() <= s.len(),
        number_run(s, p, point).0 == s.subrange(p, p + number_run(s, p, point).0.len()),
    decreases s.len() - p, if point { 1int } else { 0int },
{
    if p < s.len() {
        if is_numeric_char(s[p]) {
            lemma_number_run_is_source_text(s, p + 1, point);
            let r = number_run(s, p + 1, point);
            assert(seq![s[p]] + r.0 =~= s.subrange(p, p + 1 + r.0.len()));
        } else if s[p] == '.' && point {
            lemma_number_run_is_source_text(s, p, false);
            assert(number_run(s, p, false).0.len() == 0);
            assert(seq!['.'] + number_run(s, p, false).0 =~= s.subrange(p, p + 1));
        } else {
            assert(Seq::<char>::empty() =~= s.subrange(p, p));
        }
    } else {
        assert(Seq::<char>::empty() =~= s.subrange(p, p));
    }
}

/// A parameter default that starts with a numeric character is a number
/// holding the literal read there, and a default that is read is never absent.
pub proof fn law_param_default_number(s: Seq<char>, p: int)
    requires
        0 <= p <= s.len(),
    ensures
        p < s.len() && s[p] != '"' && is_numeric_char(s[p]) ==> param_default_scan(s, p)
            == Scan::Done(DefaultView::Number(number_scan(s, p).0), number_scan(s, p).1),
        param_default_scan(s, p) matches Scan::Done(d, _) ==> !(d is Absent),
{
}

/// An index is accepted with the tokens of its expression whenever that
/// expression stops at a closing bracket, however many tokens it has.
pub proof fn law_index_accepts_closed_expression(
    s: Seq<char>,
    q: int,
    v: Seq<ExprTokenView>,
    e: int,
)
    requires
        0 <= q <= s.len(),
        expr_scan(s, q) == Scan::Done(v, e),
        0 <= e < s.len(),
        s[e] == ']',
    ensures
        index_tail(s, q) == Scan::Done(v, e),
{
}

/// An empty index `[]` is accepted with no tokens, and the lexer then stands at
/// its `]`.
pub proof fn law_empty_index(s: Seq<char>, p: int)
    requires
        0 <= p,
        p + 1 < s.len(),
        s[p] == '[',
        s[p + 1] == ']',
        !is_numeric_char(']'),
        !is_whitespace_char(']'),
        !is_alphabetic_char(']'),
    ensures
        index_scan(s, p) == Scan::Done(Seq::<ExprTokenView>::empty(), p + 1),
{
    assert(step(s, p) == p + 1);
    assert(expr_scan(s, p + 1) == Scan::Done(Seq::<ExprTokenView>::empty(), p + 1));
}

/// Every character of a number literal is numeric or a `.`.
pub proof fn law_number_characters(s: Seq<char>, p: int, point: bool)
    requires
        0 <= p <= s.len(),
    ensures
        forall|i: int|
            0 <= i < number_run(s, p, point).0.len() ==> is_numeric_char(
                #[trigger] number_run(s, p, point).0[i],
            ) || number_run(s, p, point).0[i] == '.',
    decreases s.len() - p, if point { 1int } else { 0int },
{
    if p < s.len() {
        if is_numeric_char(s[p]) {
            law_number_characters(s, p + 1, point);
            let r = number_run(s, p + 1, point);
            assert forall|i: int| 0 <= i < number_run(s, p, point).0.len() implies is_numeric_char(
                #[trigger] number_run(s, p, point).0[i],
            ) || number_run(s, p, point).0[i] == '.' by {
                if i > 0 {
                    assert(number_run(s, p, point).0[i] == r.0[i - 1]);
                }
            }
        } else if s[p] == '.' && point {
            law_number_characters(s, p, false);
            let r = number_run(s, p, false);
            assert forall|i: int| 0 <= i < number_run(s, p, point).0.len() implies is_numeric_char(
                #[trigger] number_run(s, p, point).0[i],
            ) || number_run(s, p, point).0[i] == '.' by {
                if i > 0 {
                    assert(number_run(s, p, point).0[i] == r.0[i - 1]);
                }
            }
        }
    }
}

} // verus!
