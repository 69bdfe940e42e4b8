//! What each part of the lexer reads, as functions of the source text and the
//! position it starts at.
//!
//! A scan ends in one of three ways: `Done(value, end)`, where `end` is the
//! position the lexer stands at afterwards; `Fail(at, end, message)`, where `at`
//! is the position the error points at and `end` the position the lexer stands
//! at; or `Stuck`, where the lexer never returns (a string literal holding a
//! character that is neither a quote nor a backslash makes it push that
//! character forever).
use vstd::prelude::*;
use crate::chars::{is_alphabetic_char, is_numeric_char, is_whitespace_char};
use crate::position::{col_at, line_at};
use crate::tokens::{DefaultView, ExprKindView, ExprTokenView};

verus! {

pub const MSG_UNEXPECTED_CHARACTER: &'static str = "Unexpected character";
pub const MSG_UNCONCLUDED_IDENTIFIER: &'static str = "Unconcluded Identifier or block declaration";
pub const MSG_UNRECOGNIZED_IDENTIFIER: &'static str = "Unrecognized identifier";
pub const MSG_EXPECTED_AFTER_FN: &'static str = "Expected something after `fn`";
pub const MSG_UNEXPECTED_AFTER_FN: &'static str = "Unexpected character after `fn`";
pub const MSG_EXPECTED_OPEN_PAREN: &'static str = "Expected opening parenthesis";
pub const MSG_UNCONCLUDED_PARAMETERS: &'static str = "Unconcluded parameters";
pub const MSG_UNEXPECTED_IN_PARAMETERS: &'static str = "Unexpected character in function parameters";
pub const MSG_EXPECTED_PARAMETER_TYPE: &'static str = "Expected parameter type declaration";
pub const MSG_EOF_AS_TYPE: &'static str =
    "EOF is not a parameter type, and I am starting to get tired of coding all of these bizarre errors";
pub const MSG_UNEXPECTED_IN_DECLARATION: &'static str = "Unexpected character in parameter declaration";
pub const MSG_EXPECTED_OPEN_BRACE: &'static str = "Expected opening curly brace to begin function script";
pub const MSG_UNCONCLUDED_FUNCTION: &'static str = "Unconcluded function";
pub const MSG_EXPECTED_ARROW: &'static str = "Expected \">\" to continue output type declaration";
pub const MSG_UNCONCLUDED_STRING: &'static str = "Unconcluded string";
pub const MSG_UNCONCLUDED_INDEX: &'static str = "Unconcluded index";

/// How a scan ends.
pub enum Scan<T> {
    Done(T, int),
    Fail(int, int, Seq<char>),
    Stuck,
}

/// Every position a scan started at `lo` reports lies between `lo` and `hi`,
/// and an error points no further than where the lexer stops.
pub open spec fn within<T>(r: Scan<T>, lo: int, hi: int) -> bool {
    match r {
        Scan::Done(_, e) => lo <= e <= hi,
        Scan::Fail(a, b, _) => lo <= a <= b <= hi,
        Scan::Stuck => true,
    }
}

/// The character at `p`, if there is one.
pub open spec fn char_at(s: Seq<char>, p: int) -> Option<char> {
    if 0 <= p < s.len() {
        Some(s[p])
    } else {
        None
    }
}

/// The position after one step forward: the end of the text is never passed.
pub open spec fn step(s: Seq<char>, p: int) -> int {
    if p < s.len() {
        p + 1
    } else {
        p
    }
}

/// A character that may stand in an identifier.
pub open spec fn is_ident_char(c: char) -> bool {
    is_alphabetic_char(c) || c == '_'
}

/// The first position from `p` on that holds no whitespace.
pub open spec fn skip_ws(s: Seq<char>, p: int) -> int
    decreases s.len() - p,
{
    if 0 <= p < s.len() && is_whitespace_char(s[p]) {
        skip_ws(s, p + 1)
    } else {
        p
    }
}

/// The first position from `p` on that holds no identifier character.
pub open spec fn ident_end(s: Seq<char>, p: int) -> int
    decreases s.len() - p,
{
    if 0 <= p < s.len() && is_ident_char(s[p]) {
        ident_end(s, p + 1)
    } else {
        p
    }
}

/// The first position from `p` on that holds no alphabetic character.
pub open spec fn alpha_end(s: Seq<char>, p: int) -> int
    decreases s.len() - p,
{
    if 0 <= p < s.len() && is_alphabetic_char(s[p]) {
        alpha_end(s, p + 1)
    } else {
        p
    }
}

pub proof fn lemma_skip_ws(s: Seq<char>, p: int)
    requires
        0 <= p <= s.len(),
    ensures
        p <= skip_ws(s, p) <= s.len(),
        skip_ws(s, p) < s.len() ==> !is_whitespace_char(s[skip_ws(s, p)]),
        forall|i: int| p <= i < skip_ws(s, p) ==> is_whitespace_char(#[trigger] s[i]),
    decreases s.len() - p,
{
    if p < s.len() && is_whitespace_char(s[p]) {
        lemma_skip_ws(s, p + 1);
    }
}

pub proof fn lemma_ident_end(s: Seq<char>, p: int)
    requires
        0 <= p <= s.len(),
    ensures
        p <= ident_end(s, p) <= s.len(),
        ident_end(s, p) < s.len() ==> !is_ident_char(s[ident_end(s, p)]),
        forall|i: int| p <= i < ident_end(s, p) ==> is_ident_char(#[trigger] s[i]),
    decreases s.len() - p,
{
    if p < s.len() && is_ident_char(s[p]) {
        lemma_ident_end(s, p + 1);
    }
}

pub proof fn lemma_alpha_end(s: Seq<char>, p: int)
    requires
        0 <= p <= s.len(),
    ensures
        p <= alpha_end(s, p) <= s.len(),
        alpha_end(s, p) < s.len() ==> !is_alphabetic_char(s[alpha_end(s, p)]),
        forall|i: int| p <= i < alpha_end(s, p) ==> is_alphabetic_char(#[trigger] s[i]),
    decreases s.len() - p,
{
    if p < s.len() && is_alphabetic_char(s[p]) {
        lemma_alpha_end(s, p + 1);
    }
}

/// An identifier: the longest run of identifier characters from `p`, after which
/// the lexer steps over one more character.
pub open spec fn identifier_scan(s: Seq<char>, p: int) -> (Seq<char>, int) {
    (s.subrange(p, ident_end(s, p)), step(s, ident_end(s, p)))
}

pub proof fn lemma_identifier_scan(s: Seq<char>, p: int)
    requires
        0 <= p <= s.len(),
    ensures
        p <= identifier_scan(s, p).1 <= s.len(),
        p < s.len() ==> p < identifier_scan(s, p).1,
{
    lemma_ident_end(s, p);
}

/// The characters of a number from `p`: numeric characters, and while `point`
/// holds, one `.` that is not stepped over.
pub open spec fn number_run(s: Seq<char>, p: int, point: bool) -> (Seq<char>, int)
    decreases s.len() - p, if point { 1int } else { 0int },
{
    if p < 0 || p >= s.len() {
        (Seq::empty(), p)
    } else if is_numeric_char(s[p]) {
        let r = number_run(s, p + 1, point);
        (seq![s[p]] + r.0, r.1)
    } else if s[p] == '.' && point {
        let r = number_run(s, p, false);
        (seq!['.'] + r.0, r.1)
    } else {
        (Seq::empty(), p)
    }
}

/// A number literal: the run of `number_run`, after which the lexer steps over
/// one more character.
pub open spec fn number_scan(s: Seq<char>, p: int) -> (Seq<char>, int) {
    (number_run(s, p, true).0, step(s, number_run(s, p, true).1))
}

pub proof fn lemma_number_run(s: Seq<char>, p: int, point: bool)
    requires
        0 <= p <= s.len(),
    ensures
        p <= number_run(s, p, point).1 <= s.len(),
    decreases s.len() - p, if point { 1int } else { 0int },
{
    if p < s.len() {
        if is_numeric_char(s[p]) {
            lemma_number_run(s, p + 1, point);
        } else if s[p] == '.' && point {
            lemma_number_run(s, p, false);
        }
    }
}

pub proof fn lemma_number_scan(s: Seq<char>, p: int)
    requires
        0 <= p <= s.len(),
    ensures
        p <= number_scan(s, p).1 <= s.len(),
        p < s.len() ==> p < number_scan(s, p).1,
{
    lemma_number_run(s, p, true);
}

/// Puts `c` in front of the text a string scan reads.
pub open spec fn prepend_char(c: char, r: Scan<Seq<char>>) -> Scan<Seq<char>> {
    match r {
        Scan::Done(v, e) => Scan::Done(seq![c] + v, e),
        Scan::Fail(a, b, m) => Scan::Fail(a, b, m),
        Scan::Stuck => Scan::Stuck,
    }
}

/// Puts the text `t` in front of the text a string scan reads.
pub open spec fn prepend_text(t: Seq<char>, r: Scan<Seq<char>>) -> Scan<Seq<char>> {
    match r {
        Scan::Done(v, e) => Scan::Done(t + v, e),
        Scan::Fail(a, b, m) => Scan::Fail(a, b, m),
        Scan::Stuck => Scan::Stuck,
    }
}

/// The body of a string literal from `p`, up to and past the closing quote.
/// A backslash makes the lexer step over itself and the character after it;
/// the character after those is then read: an `n` gives a line feed, a quote or
/// a backslash is taken as it stands and then read again.
pub open spec fn string_body(s: Seq<char>, p: int) -> Scan<Seq<char>>
    decreases s.len() - p,
{
    if p < 0 {
        Scan::Stuck
    } else if p >= s.len() {
        Scan::Fail(p, p, MSG_UNCONCLUDED_STRING@)
    } else if s[p] == '"' {
        Scan::Done(Seq::empty(), p + 1)
    } else if s[p] == '\\' {
        let q = step(s, p + 1);
        if q >= s.len() {
            Scan::Fail(q, q, MSG_UNCONCLUDED_PARAMETERS@)
        } else if s[q] == 'n' {
            prepend_char('\n', string_body(s, q + 1))
        } else if s[q] == '"' || s[q] == '\\' {
            prepend_char(s[q], string_body(s, q))
        } else {
            Scan::Stuck
        }
    } else {
        Scan::Stuck
    }
}

/// A string literal: the lexer steps over the opening quote and reads the body.
pub open spec fn string_scan(s: Seq<char>, p: int) -> Scan<Seq<char>> {
    string_body(s, step(s, p))
}

pub proof fn lemma_string_body(s: Seq<char>, p: int)
    requires
        0 <= p <= s.len(),
    ensures
        within(string_body(s, p), p, s.len() as int),
        string_body(s, p) matches Scan::Done(_, e) ==> p < e,
    decreases s.len() - p,
{
    if p < s.len() && s[p] == '\\' {
        let q = step(s, p + 1);
        if q < s.len() {
            if s[q] == 'n' {
                lemma_string_body(s, q + 1);
            } else if s[q] == '"' || s[q] == '\\' {
                lemma_string_body(s, q);
            }
        }
    }
}

pub proof fn lemma_string_scan(s: Seq<char>, p: int)
    requires
        0 <= p <= s.len(),
    ensures
        within(string_scan(s, p), p, s.len() as int),
        string_scan(s, p) matches Scan::Done(_, e) ==> p < e,
{
    lemma_string_body(s, step(s, p));
}

/// An expression token of kind `k` starting at `p`.
pub open spec fn token_at(s: Seq<char>, p: int, k: ExprKindView) -> ExprTokenView {
    ExprTokenView { kind: k, line: line_at(s, p), col: col_at(s, p) }
}

/// Puts the tokens `t` in front of the tokens a scan reads.
pub open spec fn prepend_tokens(t: Seq<ExprTokenView>, r: Scan<Seq<ExprTokenView>>) -> Scan<
    Seq<ExprTokenView>,
> {
    match r {
        Scan::Done(v, e) => Scan::Done(t + v, e),
        Scan::Fail(a, b, m) => Scan::Fail(a, b, m),
        Scan::Stuck => Scan::Stuck,
    }
}

/// The tokens of an expression from `p`, read until the end of the text or a
/// character that starts no token.
pub open spec fn expr_scan(s: Seq<char>, p: int) -> Scan<Seq<ExprTokenView>>
    decreases s.len() - p, 0int,
{
    if p < 0 || p >= s.len() {
        Scan::Done(Seq::empty(), p)
    } else {
        let c = s[p];
        if c == '"' {
            proof {
                lemma_string_scan(s, p);
            }
            match string_scan(s, p) {
                Scan::Done(v, e) => prepend_tokens(
                    seq![token_at(s, p, ExprKindView::StringLit(v))],
                    expr_scan(s, e),
                ),
                Scan::Fail(a, b, m) => Scan::Fail(a, b, m),
                Scan::Stuck => Scan::Stuck,
            }
        } else if is_numeric_char(c) {
            proof {
                lemma_number_scan(s, p);
            }
            let r = number_scan(s, p);
            prepend_tokens(seq![token_at(s, p, ExprKindView::NumLit(r.0))], expr_scan(s, r.1))
        } else if is_whitespace_char(c) {
            expr_scan(s, p + 1)
        } else if c == '+' {
            prepend_tokens(seq![token_at(s, p, ExprKindView::Add)], expr_scan(s, p + 1))
        } else if c == '-' {
            prepend_tokens(seq![token_at(s, p, ExprKindView::Subtract)], expr_scan(s, p + 1))
        } else if c == '/' {
            prepend_tokens(seq![token_at(s, p, ExprKindView::Divide)], expr_scan(s, p + 1))
        } else if c == '*' {
            prepend_tokens(seq![token_at(s, p, ExprKindView::Multiply)], expr_scan(s, p + 1))
        } else if is_alphabetic_char(c) {
            proof {
                lemma_identifier_scan(s, p);
            }
            let r = identifier_scan(s, p);
            prepend_tokens(seq![token_at(s, p, ExprKindView::Identifier(r.0))], expr_scan(s, r.1))
        } else if c == '[' {
            match index_tail(s, p + 1) {
                Scan::Done(v, e) => if p < e <= s.len() {
                    prepend_tokens(seq![token_at(s, p, ExprKindView::Index(v))], expr_scan(s, e))
                } else {
                    // never taken: see `lemma_index_tail`
                    Scan::Stuck
                },
                Scan::Fail(a, b, m) => Scan::Fail(a, b, m),
                Scan::Stuck => Scan::Stuck,
            }
        } else if c == '.' {
            proof {
                lemma_identifier_scan(s, p + 1);
            }
            let r = identifier_scan(s, p + 1);
            prepend_tokens(seq![token_at(s, p, ExprKindView::Entry(r.0))], expr_scan(s, r.1))
        } else {
            Scan::Done(Seq::empty(), p)
        }
    }
}

/// The tokens inside an index from `q`, just after its opening bracket; the
/// lexer must then stand at the closing bracket, which it does not step over.
pub open spec fn index_tail(s: Seq<char>, q: int) -> Scan<Seq<ExprTokenView>>
    decreases s.len() - q, 1int,
{
    match expr_scan(s, q) {
        Scan::Done(v, e) => if 0 <= e < s.len() && s[e] == ']' {
            Scan::Done(v, e)
        } else {
            Scan::Fail(e, e, MSG_UNCONCLUDED_INDEX@)
        },
        Scan::Fail(a, b, m) => if 0 <= b < s.len() && s[b] == ']' {
            Scan::Fail(a, b, m)
        } else {
            Scan::Fail(b, b, MSG_UNCONCLUDED_INDEX@)
        },
        Scan::Stuck => Scan::Stuck,
    }
}

/// An index: the lexer steps over the opening bracket and reads the rest.
pub open spec fn index_scan(s: Seq<char>, p: int) -> Scan<Seq<ExprTokenView>> {
    index_tail(s, step(s, p))
}

pub proof fn lemma_expr_scan(s: Seq<char>, p: int)
    requires
        0 <= p <= s.len(),
    ensures
        within(expr_scan(s, p), p, s.len() as int),
    decreases s.len() - p, 0int,
{
    if p < s.len() {
        let c = s[p];
        if c == '"' {
            lemma_string_scan(s, p);
            if let Scan::Done(_, e) = string_scan(s, p) {
                lemma_expr_scan(s, e);
            }
        } else if is_numeric_char(c) {
            lemma_number_scan(s, p);
            lemma_expr_scan(s, number_scan(s, p).1);
        } else if is_whitespace_char(c) || c == '+' || c == '-' || c == '/' || c == '*' {
            lemma_expr_scan(s, p + 1);
        } else if is_alphabetic_char(c) {
            lemma_identifier_scan(s, p);
            lemma_expr_scan(s, identifier_scan(s, p).1);
        } else if c == '[' {
            lemma_index_tail(s, p + 1);
            if let Scan::Done(_, e) = index_tail(s, p + 1) {
                lemma_expr_scan(s, e);
            }
        } else if c == '.' {
            lemma_identifier_scan(s, p + 1);
            lemma_expr_scan(s, identifier_scan(s, p + 1).1);
        }
    }
}

pub proof fn lemma_index_tail(s: Seq<char>, q: int)
    requires
        0 <= q <= s.len(),
    ensures
        within(index_tail(s, q), q, s.len() as int),
        index_tail(s, q) matches Scan::Done(_, e) ==> e < s.len() && s[e] == ']',
    decreases s.len() - q, 1int,
{
    lemma_expr_scan(s, q);
}

pub proof fn lemma_index_scan(s: Seq<char>, p: int)
    requires
        0 <= p <= s.len(),
    ensures
        within(index_scan(s, p), p, s.len() as int),
        p < s.len() ==> (index_scan(s, p) matches Scan::Done(_, e) ==> p < e),
{
    lemma_index_tail(s, step(s, p));
}

/// The output type after `Variable` or `Var`: the lexer skips whitespace; an
/// alphabetic character gives `Any` and is not stepped over, while `-` is
/// refused because the lexer then looks for `>` at the `-` itself.
pub open spec fn varto_scan(s: Seq<char>, p: int) -> Scan<()> {
    let q = skip_ws(s, p);
    if q >= s.len() {
        Scan::Fail(q, q, MSG_UNCONCLUDED_PARAMETERS@)
    } else if s[q] == '-' {
        Scan::Fail(q, q, MSG_EXPECTED_ARROW@)
    } else if is_alphabetic_char(s[q]) {
        Scan::Done((), q)
    } else {
        Scan::Fail(q, q, MSG_UNEXPECTED_IN_DECLARATION@)
    }
}

/// The name of an output type from `r`, read so far as `name`: letters, ended
/// by whitespace, which is not stepped over, or by a comma, which is.
pub open spec fn out_name_scan(s: Seq<char>, r: int, name: Seq<char>) -> Scan<Seq<char>>
    decreases s.len() - r,
{
    if r < 0 || r >= s.len() {
        Scan::Fail(r, r, MSG_UNCONCLUDED_PARAMETERS@)
    } else if is_alphabetic_char(s[r]) {
        out_name_scan(s, r + 1, name.push(s[r]))
    } else if is_whitespace_char(s[r]) {
        Scan::Done(name, r)
    } else if s[r] == ',' {
        Scan::Done(name, r + 1)
    } else {
        Scan::Fail(r, r, MSG_UNEXPECTED_IN_DECLARATION@)
    }
}

/// The rest of an output type after `->`: whitespace, then the type's name.
pub open spec fn output_type_scan(s: Seq<char>, p: int) -> Scan<Seq<char>> {
    let q = skip_ws(s, p);
    if q < 0 || q >= s.len() {
        Scan::Fail(q, q, MSG_UNCONCLUDED_PARAMETERS@)
    } else if is_alphabetic_char(s[q]) {
        out_name_scan(s, q, Seq::empty())
    } else {
        Scan::Fail(q, q, MSG_UNEXPECTED_IN_DECLARATION@)
    }
}

/// A parameter's default value at `p`: a string literal or a number literal.
pub open spec fn param_default_scan(s: Seq<char>, p: int) -> Scan<DefaultView> {
    if p < 0 || p >= s.len() {
        Scan::Fail(p, p, MSG_UNCONCLUDED_PARAMETERS@)
    } else if s[p] == '"' {
        match string_scan(s, p) {
            Scan::Done(v, e) => Scan::Done(DefaultView::Text(v), e),
            Scan::Fail(a, b, m) => Scan::Fail(a, b, m),
            Scan::Stuck => Scan::Stuck,
        }
    } else if is_numeric_char(s[p]) {
        Scan::Done(DefaultView::Number(number_scan(s, p).0), number_scan(s, p).1)
    } else {
        Scan::Fail(p, p, MSG_UNEXPECTED_IN_DECLARATION@)
    }
}

/// A parameter's type from `p`: its name so far is `ty`; `?` marks it optional
/// and `+` plural; a comma or whitespace ends it and is stepped over.
pub open spec fn type_scan(s: Seq<char>, p: int, ty: Seq<char>, plural: bool, optional: bool) -> Scan<
    (Seq<char>, bool, bool),
>
    decreases s.len() - p,
{
    if p < 0 || p >= s.len() {
        Scan::Fail(p, p, MSG_UNCONCLUDED_PARAMETERS@)
    } else if is_alphabetic_char(s[p]) {
        type_scan(s, p + 1, ty.push(s[p]), plural, optional)
    } else if s[p] == ',' || is_whitespace_char(s[p]) {
        Scan::Done((ty, plural, optional), p + 1)
    } else if s[p] == '?' {
        type_scan(s, p + 1, ty, plural, true)
    } else if s[p] == '+' {
        type_scan(s, p + 1, ty, true, optional)
    } else {
        Scan::Fail(p, p, MSG_UNEXPECTED_IN_PARAMETERS@)
    }
}

/// Whether a parameter type names a variable.
pub open spec fn is_variable_type(ty: Seq<char>) -> bool {
    ty == "Variable"@ || ty == "Var"@
}

/// What follows an optional parameter's type: whitespace, then `=` and a default
/// value, or an alphabetic character, which is not stepped over.
pub open spec fn default_scan(s: Seq<char>, p: int) -> Scan<()>
    decreases s.len() - p,
{
    if p < 0 || p >= s.len() {
        Scan::Fail(p, p, MSG_UNCONCLUDED_PARAMETERS@)
    } else if is_whitespace_char(s[p]) {
        default_scan(s, p + 1)
    } else if s[p] == '=' {
        match param_default_scan(s, p + 1) {
            Scan::Done(_, e) => Scan::Done((), e),
            Scan::Fail(a, b, m) => Scan::Fail(a, b, m),
            Scan::Stuck => Scan::Stuck,
        }
    } else if is_alphabetic_char(s[p]) {
        Scan::Done((), p)
    } else {
        Scan::Fail(p, p, MSG_UNEXPECTED_IN_DECLARATION@)
    }
}

/// One parameter from `q`: an alphabetic name, `:`, whitespace, the type, then
/// a default value for an optional parameter that is neither plural nor a
/// variable, and the output type for a variable.
pub open spec fn param_scan(s: Seq<char>, q: int) -> Scan<()> {
    let r = alpha_end(s, q);
    if r < 0 || r >= s.len() {
        Scan::Fail(q, r, MSG_EXPECTED_PARAMETER_TYPE@)
    } else if s[r] != ':' {
        Scan::Fail(r, r, MSG_UNEXPECTED_IN_PARAMETERS@)
    } else {
        let r2 = skip_ws(s, r + 1);
        if r2 >= s.len() {
            Scan::Fail(r2, r2, MSG_EOF_AS_TYPE@)
        } else if !is_alphabetic_char(s[r2]) {
            Scan::Fail(r2, r2, MSG_UNEXPECTED_IN_PARAMETERS@)
        } else {
            match type_scan(s, r2, Seq::empty(), false, false) {
                Scan::Done(t, r3) => {
                    let ty = t.0;
                    let d = if t.2 && !t.1 && !is_variable_type(ty) {
                        default_scan(s, r3)
                    } else {
                        Scan::Done((), r3)
                    };
                    match d {
                        Scan::Done(_, r4) => if is_variable_type(ty) {
                            varto_scan(s, r4)
                        } else {
                            Scan::Done((), r4)
                        },
                        Scan::Fail(a, b, m) => Scan::Fail(a, b, m),
                        Scan::Stuck => Scan::Stuck,
                    }
                },
                Scan::Fail(a, b, m) => Scan::Fail(a, b, m),
                Scan::Stuck => Scan::Stuck,
            }
        }
    }
}

pub proof fn lemma_type_scan(s: Seq<char>, p: int, ty: Seq<char>, plural: bool, optional: bool)
    requires
        0 <= p <= s.len(),
    ensures
        within(type_scan(s, p, ty, plural, optional), p, s.len() as int),
        type_scan(s, p, ty, plural, optional) matches Scan::Done(_, e) ==> p < e,
    decreases s.len() - p,
{
    if p < s.len() {
        if is_alphabetic_char(s[p]) {
            lemma_type_scan(s, p + 1, ty.push(s[p]), plural, optional);
        } else if s[p] == ',' || is_whitespace_char(s[p]) {
        } else if s[p] == '?' {
            lemma_type_scan(s, p + 1, ty, plural, true);
        } else if s[p] == '+' {
            lemma_type_scan(s, p + 1, ty, true, optional);
        }
    }
}

pub proof fn lemma_default_scan(s: Seq<char>, p: int)
    requires
        0 <= p <= s.len(),
    ensures
        within(default_scan(s, p), p, s.len() as int),
    decreases s.len() - p,
{
    if p < s.len() {
        if is_whitespace_char(s[p]) {
            lemma_default_scan(s, p + 1);
        } else if s[p] == '=' {
            if p + 1 < s.len() {
                lemma_string_scan(s, p + 1);
                lemma_number_scan(s, p + 1);
            }
        }
    }
}

pub proof fn lemma_varto_scan(s: Seq<char>, p: int)
    requires
        0 <= p <= s.len(),
    ensures
        within(varto_scan(s, p), p, s.len() as int),
{
    lemma_skip_ws(s, p);
}

pub proof fn lemma_param_scan(s: Seq<char>, q: int)
    requires
        0 <= q <= s.len(),
    ensures
        within(param_scan(s, q), q, s.len() as int),
        param_scan(s, q) matches Scan::Done(_, e) ==> q < e,
{
    lemma_alpha_end(s, q);
    let r = alpha_end(s, q);
    if r < s.len() && s[r] == ':' {
        lemma_skip_ws(s, r + 1);
        let r2 = skip_ws(s, r + 1);
        if r2 < s.len() && is_alphabetic_char(s[r2]) {
            lemma_type_scan(s, r2, Seq::empty(), false, false);
            if let Scan::Done(t, r3) = type_scan(s, r2, Seq::empty(), false, false) {
                lemma_default_scan(s, r3);
                let d = if t.2 && !t.1 && !is_variable_type(t.0) {
                    default_scan(s, r3)
                } else {
                    Scan::Done((), r3)
                };
                if let Scan::Done(_, r4) = d {
                    lemma_varto_scan(s, r4);
                }
            }
        }
    }
}

/// The parameter list from `q`, up to and past its closing parenthesis; an
/// unfinished list is reported at `start`, just after the opening parenthesis.
pub open spec fn params_scan(s: Seq<char>, start: int, q: int) -> Scan<()>
    decreases s.len() - q,
{
    if q < 0 || q >= s.len() {
        Scan::Fail(start, q, MSG_UNCONCLUDED_PARAMETERS@)
    } else if is_whitespace_char(s[q]) {
        params_scan(s, start, q + 1)
    } else if s[q] == ')' {
        Scan::Done((), q + 1)
    } else if is_alphabetic_char(s[q]) {
        proof {
            lemma_param_scan(s, q);
        }
        match param_scan(s, q) {
            Scan::Done(_, e) => params_scan(s, start, e),
            Scan::Fail(a, b, m) => Scan::Fail(a, b, m),
            Scan::Stuck => Scan::Stuck,
        }
    } else {
        Scan::Fail(q, q, MSG_UNEXPECTED_IN_PARAMETERS@)
    }
}

pub proof fn lemma_params_scan(s: Seq<char>, start: int, q: int)
    requires
        0 <= start <= q <= s.len(),
    ensures
        within(params_scan(s, start, q), start, s.len() as int),
    decreases s.len() - q,
{
    if q < s.len() {
        if is_whitespace_char(s[q]) {
            lemma_params_scan(s, start, q + 1);
        } else if s[q] == ')' {
        } else if is_alphabetic_char(s[q]) {
            lemma_param_scan(s, q);
            if let Scan::Done(_, e) = param_scan(s, q) {
                lemma_params_scan(s, start, e);
            }
        }
    }
}

/// The statements of a function body from `q`: identifiers and indexes, read
/// until a character that starts neither, or the end of the text. Nothing ends
/// a body, so this scan never completes.
pub open spec fn stmts_scan(s: Seq<char>, q: int) -> Scan<()>
    decreases s.len() - q,
{
    let r = skip_ws(s, q);
    if q < 0 || r >= s.len() {
        Scan::Fail(r, r, MSG_UNCONCLUDED_FUNCTION@)
    } else if is_alphabetic_char(s[r]) {
        proof {
            lemma_skip_ws(s, q);
            lemma_identifier_scan(s, r);
        }
        stmts_scan(s, identifier_scan(s, r).1)
    } else if s[r] == '[' {
        proof {
            lemma_skip_ws(s, q);
            lemma_index_scan(s, r);
        }
        match index_scan(s, r) {
            Scan::Done(_, e) => stmts_scan(s, e),
            Scan::Fail(a, b, m) => Scan::Fail(a, b, m),
            Scan::Stuck => Scan::Stuck,
        }
    } else {
        Scan::Fail(r, r, MSG_UNEXPECTED_CHARACTER@)
    }
}

/// A function body from `q`: whitespace, an opening brace, then statements.
pub open spec fn body_scan(s: Seq<char>, q: int) -> Scan<()> {
    let r = skip_ws(s, q);
    if r < 0 || r >= s.len() || s[r] != '{' {
        Scan::Fail(r, r, MSG_EXPECTED_OPEN_BRACE@)
    } else {
        stmts_scan(s, r + 1)
    }
}

/// A function declaration after the word `fn`: whitespace, a name, one
/// character the lexer steps over, an opening parenthesis, the parameter list
/// and the body.
pub open spec fn fn_scan(s: Seq<char>, p: int) -> Scan<()> {
    let q0 = skip_ws(s, p);
    if q0 < 0 || q0 >= s.len() {
        Scan::Fail(q0, q0, MSG_EXPECTED_AFTER_FN@)
    } else if !is_ident_char(s[q0]) {
        Scan::Fail(q0, q0, MSG_UNEXPECTED_AFTER_FN@)
    } else {
        let q1 = identifier_scan(s, q0).1;
        if q1 >= s.len() || s[q1] != '(' {
            Scan::Fail(q1, q1, MSG_EXPECTED_OPEN_PAREN@)
        } else {
            match params_scan(s, q1 + 1, q1 + 1) {
                Scan::Done(_, e) => body_scan(s, e),
                Scan::Fail(a, b, m) => Scan::Fail(a, b, m),
                Scan::Stuck => Scan::Stuck,
            }
        }
    }
}

/// A whole source from `p`: whitespace and then, if anything is left, a word of
/// letters ended by whitespace, which must be `fn`.
pub open spec fn main_scan(s: Seq<char>, p: int) -> Scan<()> {
    let q = skip_ws(s, p);
    if q < 0 || q >= s.len() {
        Scan::Done((), q)
    } else if !is_alphabetic_char(s[q]) {
        Scan::Fail(q, q, MSG_UNEXPECTED_CHARACTER@)
    } else {
        let r = alpha_end(s, q);
        if r >= s.len() {
            Scan::Fail(q, r, MSG_UNCONCLUDED_IDENTIFIER@)
        } else if !is_whitespace_char(s[r]) {
            Scan::Fail(r, r, MSG_UNEXPECTED_CHARACTER@)
        } else if s.subrange(q, r) == "fn"@ {
            fn_scan(s, r)
        } else {
            Scan::Fail(q, r, MSG_UNRECOGNIZED_IDENTIFIER@)
        }
    }
}

pub proof fn lemma_stmts_scan(s: Seq<char>, q: int)
    requires
        0 <= q <= s.len(),
    ensures
        within(stmts_scan(s, q), q, s.len() as int),
        !(stmts_scan(s, q) is Done),
    decreases s.len() - q,
{
    lemma_skip_ws(s, q);
    let r = skip_ws(s, q);
    if r < s.len() {
        if is_alphabetic_char(s[r]) {
            lemma_identifier_scan(s, r);
            lemma_stmts_scan(s, identifier_scan(s, r).1);
        } else if s[r] == '[' {
            lemma_index_scan(s, r);
            if let Scan::Done(_, e) = index_scan(s, r) {
                lemma_stmts_scan(s, e);
            }
        }
    }
}

pub proof fn lemma_fn_scan(s: Seq<char>, p: int)
    requires
        0 <= p <= s.len(),
    ensures
        within(fn_scan(s, p), p, s.len() as int),
        !(fn_scan(s, p) is Done),
{
    lemma_skip_ws(s, p);
    let q0 = skip_ws(s, p);
    if q0 < s.len() && is_ident_char(s[q0]) {
        lemma_identifier_scan(s, q0);
        let q1 = identifier_scan(s, q0).1;
        if q1 < s.len() && s[q1] == '(' {
            lemma_params_scan(s, q1 + 1, q1 + 1);
            if let Scan::Done(_, e) = params_scan(s, q1 + 1, q1 + 1) {
                lemma_skip_ws(s, e);
                let r = skip_ws(s, e);
                if r < s.len() && s[r] == '{' {
                    lemma_stmts_scan(s, r + 1);
                }
            }
        }
    }
}

pub proof fn lemma_main_scan(s: Seq<char>, p: int)
    requires
        0 <= p <= s.len(),
    ensures
        within(main_scan(s, p), p, s.len() as int),
        main_scan(s, p) matches Scan::Done(_, e) ==> e == s.len(),
{
    lemma_skip_ws(s, p);
    let q = skip_ws(s, p);
    if q < s.len() && is_alphabetic_char(s[q]) {
        lemma_alpha_end(s, q);
        let r = alpha_end(s, q);
        if r < s.len() {
            lemma_fn_scan(s, r);
        }
    }
}

} // verus!
