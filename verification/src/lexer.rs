//! The lexer: a cursor over the characters of a source text that keeps the
//! line and column of its position.
use vstd::prelude::*;
use crate::chars::{
    char_is_alphabetic, char_is_numeric, char_is_whitespace, is_alphabetic_char,
    is_whitespace_char,
};
use crate::position::{col_at, lemma_line_col_bounds, line_at};
use crate::scan::{
    alpha_end, body_scan, char_at, default_scan, expr_scan, fn_scan, ident_end,
    identifier_scan, index_scan, is_variable_type, lemma_alpha_end,
    lemma_fn_scan, lemma_ident_end, lemma_identifier_scan, lemma_index_scan, lemma_index_tail,
    lemma_number_scan, lemma_param_scan, lemma_skip_ws, lemma_string_scan,
    main_scan, number_run, number_scan, out_name_scan, output_type_scan, param_default_scan, param_scan, params_scan,
    prepend_text, prepend_tokens, skip_ws, step, stmts_scan, string_body, string_scan,
    type_scan, varto_scan, Scan, MSG_EOF_AS_TYPE, MSG_EXPECTED_AFTER_FN, MSG_EXPECTED_ARROW,
    MSG_EXPECTED_OPEN_BRACE, MSG_EXPECTED_OPEN_PAREN, MSG_EXPECTED_PARAMETER_TYPE,
    MSG_UNCONCLUDED_FUNCTION, MSG_UNCONCLUDED_IDENTIFIER, MSG_UNCONCLUDED_INDEX,
    MSG_UNCONCLUDED_PARAMETERS, MSG_UNCONCLUDED_STRING, MSG_UNEXPECTED_AFTER_FN,
    MSG_UNEXPECTED_CHARACTER, MSG_UNEXPECTED_IN_DECLARATION, MSG_UNEXPECTED_IN_PARAMETERS,
    MSG_UNRECOGNIZED_IDENTIFIER,
};
use crate::tokens::{
    default_view, error_is, names_type, token_view, tokens_view, ExprToken, ExprTokenKind,
    Function, FunctionParam, LToken, LTokenKind, LexError, Lexed, ParamDefault, ParamType,
    Struct,
};

verus! {

/// Extending a slice of `s` by one position appends the character there.
pub proof fn lemma_subrange_push(s: Seq<char>, a: int, b: int)
    requires
        0 <= a <= b < s.len(),
    ensures
        s.subrange(a, b + 1) == s.subrange(a, b).push(s[b]),
{
    assert(s.subrange(a, b + 1) =~= s.subrange(a, b).push(s[b]));
}

/// Whether `t` holds exactly the characters of `lit`.
fn text_is(t: &String, lit: &str) -> (r: bool)
    ensures
        r == (t@ == lit@),
{
    *t == lit.to_string()
}

/// The parameter type a type name stands for; other names are kept as unknown.
fn param_type_named(name: &String) -> (k: ParamType)
    ensures
        names_type(name@, k),
{
    if text_is(name, "string") || text_is(name, "str") {
        ParamType::String
    } else if text_is(name, "number") || text_is(name, "num") {
        ParamType::Number
    } else if text_is(name, "List") {
        ParamType::List
    } else if text_is(name, "Dictionary") || text_is(name, "Dict") {
        ParamType::Dictionary
    } else if text_is(name, "Any") {
        ParamType::Any
    } else {
        ParamType::Unknown(name.clone())
    }
}

/// Pushing a token onto the tokens read so far moves its view from the front of
/// the rest of a scan to the end of what was read.
pub proof fn lemma_push_token(toks: Seq<ExprToken>, t: ExprToken, r: Scan<Seq<crate::tokens::ExprTokenView>>)
    ensures
        prepend_tokens(tokens_view(toks), prepend_tokens(seq![token_view(t)], r))
            == prepend_tokens(tokens_view(toks.push(t)), r),
{
    assert(toks.push(t).subrange(0, toks.push(t).len() - 1) =~= toks);
    assert(tokens_view(toks.push(t)) == tokens_view(toks).push(token_view(t)));
    match r {
        Scan::Done(v, e) => {
            assert(tokens_view(toks) + (seq![token_view(t)] + v) =~= tokens_view(toks).push(
                token_view(t),
            ) + v);
        },
        _ => {},
    }
}

/// A cursor over a source text.
pub struct Lexer {
    source: Vec<char>,
    pos: usize,
    line: usize,
    col: usize,
}

/// Why a scan stopped without a value: an error to report, or an input on which
/// the lexer would never return.
pub(crate) enum Stop {
    Error(LexError),
    Endless,
}

impl Lexer {
    /// The characters of the source text.
    pub closed spec fn text(&self) -> Seq<char> {
        self.source@
    }

    /// The position of the cursor.
    pub closed spec fn offset(&self) -> int {
        self.pos as int
    }

    /// The line the lexer records for its position.
    pub closed spec fn cur_line(&self) -> nat {
        self.line as nat
    }

    /// The column the lexer records for its position.
    pub closed spec fn cur_col(&self) -> nat {
        self.col as nat
    }

    /// The position lies in the text, and the recorded line and column are those
    /// of the position.
    pub open spec fn wf(&self) -> bool {
        &&& 0 <= self.offset() <= self.text().len()
        &&& self.text().len() < usize::MAX
        &&& self.cur_line() == line_at(self.text(), self.offset())
        &&& self.cur_col() == col_at(self.text(), self.offset())
    }

    /// A lexer at the start of `source`.
    pub fn new(source: &str) -> (l: Self)
        requires
            source@.len() < usize::MAX,
        ensures
            l.wf(),
            l.text() == source@,
            l.offset() == 0,
    {
        let mut chars: Vec<char> = Vec::new();
        for c in it: source.chars()
            invariant
                chars@ == it.seq().take(it.index() as int),
        {
            chars.push(c);
        }
        Lexer { source: chars, pos: 0, line: 1, col: 1 }
    }

    /// An error pointing at the lexer's position.
    fn error_here(&self, msg: &str) -> (e: LexError)
        requires
            self.wf(),
        ensures
            error_is(e, self.text(), self.offset(), msg@),
    {
        LexError { line: self.line, col: self.col, message: msg.to_string() }
    }

    /// The character at the lexer's position, if there is one.
    pub fn peek(&self) -> (r: Option<char>)
        requires
            self.wf(),
        ensures
            r == char_at(self.text(), self.offset()),
    {
        if self.pos < self.source.len() {
            Some(self.source[self.pos])
        } else {
            None
        }
    }

    /// The character `offset` places after the lexer's position, if there is one.
    pub fn peek_ahead(&self, offset: usize) -> (r: Option<char>)
        requires
            self.wf(),
            self.offset() + offset <= usize::MAX,
        ensures
            r == char_at(self.text(), self.offset() + offset),
    {
        let at = self.pos + offset;
        if at < self.source.len() {
            Some(self.source[at])
        } else {
            None
        }
    }

    /// Steps over the character at the lexer's position and returns it; at the
    /// end of the text nothing changes.
    pub fn advance(&mut self) -> (r: Option<char>)
        requires
            old(self).wf(),
        ensures
            final(self).wf(),
            final(self).text() == old(self).text(),
            r == char_at(old(self).text(), old(self).offset()),
            final(self).offset() == step(old(self).text(), old(self).offset()),
    {
        proof {
            lemma_line_col_bounds(self.source@, self.pos as int);
        }
        if self.pos < self.source.len() {
            let c = self.source[self.pos];
            self.pos = self.pos + 1;
            if c == '\n' {
                self.line = self.line + 1;
                self.col = 1;
            } else {
                self.col = self.col + 1;
            }
            Some(c)
        } else {
            None
        }
    }

    /// An identifier: the longest run of alphabetic characters and `_` from the
    /// lexer's position; the lexer then steps over one more character.
    pub fn lex_identifier(&mut self) -> (o: String)
        requires
            old(self).wf(),
        ensures
            final(self).wf(),
            final(self).text() == old(self).text(),
            o@ == identifier_scan(old(self).text(), old(self).offset()).0,
            final(self).offset() == identifier_scan(old(self).text(), old(self).offset()).1,
    {
        let ghost s = self.text();
        let ghost p0 = self.offset();
        proof {
            lemma_ident_end(s, p0);
        }
        let mut o = String::new();
        loop
            invariant
                self.wf(),
                self.text() == s,
                0 <= p0 <= self.offset() <= s.len(),
                ident_end(s, self.offset()) == ident_end(s, p0),
                o@ == s.subrange(p0, self.offset()),
            ensures
                self.wf(),
                self.text() == s,
                self.offset() == ident_end(s, p0),
                o@ == s.subrange(p0, self.offset()),
            decreases s.len() - self.offset(),
        {
            match self.peek() {
                None => {
                    break;
                },
                Some(c) => {
                    if char_is_alphabetic(c) || c == '_' {
                        let ghost at = self.offset();
                        proof {
                            lemma_subrange_push(s, p0, at);
                        }
                        o.push(c);
                        self.advance();
                    } else {
                        break;
                    }
                },
            }
        }
        self.advance();
        o
    }

    /// A number literal: numeric characters and at most one `.`, which is not
    /// stepped over; the lexer then steps over one more character.
    pub fn lex_num_lit(&mut self) -> (o: String)
        requires
            old(self).wf(),
        ensures
            final(self).wf(),
            final(self).text() == old(self).text(),
            o@ == number_scan(old(self).text(), old(self).offset()).0,
            final(self).offset() == number_scan(old(self).text(), old(self).offset()).1,
    {
        let ghost s = self.text();
        let ghost p0 = self.offset();
        let mut o = String::new();
        let mut point = true;
        loop
            invariant
                self.wf(),
                self.text() == s,
                0 <= p0 <= self.offset() <= s.len(),
                number_run(s, p0, true).0 == o@ + number_run(s, self.offset(), point).0,
                number_run(s, p0, true).1 == number_run(s, self.offset(), point).1,
            ensures
                self.wf(),
                self.text() == s,
                number_run(s, p0, true).0 == o@,
                number_run(s, p0, true).1 == self.offset(),
            decreases 2 * (s.len() - self.offset()) + if point { 1int } else { 0int },
        {
            let ghost before = o@;
            match self.peek() {
                None => {
                    assert(o@ + Seq::<char>::empty() =~= o@);
                    break;
                },
                Some(c) => {
                    if char_is_numeric(c) {
                        o.push(c);
                        self.advance();
                        assert(before + (seq![c] + number_run(s, self.offset(), point).0) =~= o@
                            + number_run(s, self.offset(), point).0);
                    } else if c == '.' && point {
                        point = !point;
                        o.push('.');
                        assert(before + (seq!['.'] + number_run(s, self.offset(), point).0) =~= o@
                            + number_run(s, self.offset(), point).0);
                    } else {
                        assert(o@ + Seq::<char>::empty() =~= o@);
                        break;
                    }
                },
            }
        }
        self.advance();
        o
    }

    /// A string literal: the lexer steps over the opening quote and reads up to
    /// and past the closing one; `Endless` where the lexer would never return.
    pub(crate) fn scan_string_lit(&mut self) -> (r: Result<String, Stop>)
        requires
            old(self).wf(),
        ensures
            final(self).wf(),
            final(self).text() == old(self).text(),
            match string_scan(old(self).text(), old(self).offset()) {
                Scan::Done(v, e) => r matches Ok(o) && o@ == v && final(self).offset() == e,
                Scan::Fail(a, b, m) => r matches Err(Stop::Error(err)) && error_is(
                    err,
                    old(self).text(),
                    a,
                    m,
                ) && final(self).offset() == b,
                Scan::Stuck => r matches Err(Stop::Endless),
            },
    {
        let ghost s = self.text();
        self.advance();
        let ghost q0 = self.offset();
        let mut o = String::new();
        assert(o@ + Seq::<char>::empty() =~= Seq::<char>::empty());
        loop
            invariant_except_break
                string_body(s, q0) == prepend_text(o@, string_body(s, self.offset())),
            invariant
                self.wf(),
                self.text() == s,
                0 <= q0 <= self.offset() <= s.len(),
                old(self).text() == s,
                string_scan(s, old(self).offset()) == string_body(s, q0),
            ensures
                self.wf(),
                self.text() == s,
                string_body(s, q0) == Scan::Done(o@, self.offset()),
            decreases s.len() - self.offset(),
        {
            let ghost at = self.offset();
            let ghost before = o@;
            match self.peek() {
                None => {
                    return Err(Stop::Error(self.error_here(MSG_UNCONCLUDED_STRING)));
                },
                Some(c) => {
                    if c == '"' {
                        self.advance();
                        assert(before + Seq::<char>::empty() =~= before);
                        break;
                    } else if c == '\\' {
                        self.advance();
                        self.advance();
                        match self.peek() {
                            None => {
                                return Err(
                                    Stop::Error(self.error_here(MSG_UNCONCLUDED_PARAMETERS)),
                                );
                            },
                            Some(d) => {
                                if d == 'n' {
                                    self.advance();
                                    o.push('\n');
                                } else {
                                    o.push(d);
                                }
                                proof {
                                    let tail = string_body(s, self.offset());
                                    match tail {
                                        Scan::Done(v, e) => {
                                            assert(before + (seq![o@.last()] + v) =~= o@ + v);
                                        },
                                        _ => {},
                                    }
                                }
                            },
                        }
                    } else {
                        return Err(Stop::Endless);
                    }
                },
            }
        }
        Ok(o)
    }

    /// A string literal: the lexer steps over the opening quote and reads up to
    /// and past the closing one. A backslash makes the lexer step over itself and
    /// the character after it; the character after those is then read: an `n`
    /// gives a line feed, a quote or a backslash is taken as it stands.
    pub fn lex_string_lit(&mut self) -> (r: Result<String, LexError>)
        requires
            old(self).wf(),
            !(string_scan(old(self).text(), old(self).offset()) is Stuck),
        ensures
            final(self).wf(),
            final(self).text() == old(self).text(),
            match string_scan(old(self).text(), old(self).offset()) {
                Scan::Done(v, e) => r matches Ok(o) && o@ == v && final(self).offset() == e,
                Scan::Fail(a, b, m) => r matches Err(err) && error_is(err, old(self).text(), a, m)
                    && final(self).offset() == b,
                Scan::Stuck => false,
            },
    {
        match self.scan_string_lit() {
            Ok(o) => Ok(o),
            Err(Stop::Error(e)) => Err(e),
            Err(Stop::Endless) => Err(self.error_here(MSG_UNCONCLUDED_STRING)),
        }
    }

    /// The output type after `Variable` or `Var`: whitespace, then an alphabetic
    /// character gives `Any`, which is not stepped over. After `-` the lexer looks
    /// for `>` at the `-` itself, so an arrow is always refused.
    pub fn lex_varto(&mut self) -> (r: Result<ParamType, LexError>)
        requires
            old(self).wf(),
        ensures
            final(self).wf(),
            final(self).text() == old(self).text(),
            match varto_scan(old(self).text(), old(self).offset()) {
                Scan::Done(_, e) => r matches Ok(ParamType::Any) && final(self).offset() == e,
                Scan::Fail(a, b, m) => r matches Err(err) && error_is(err, old(self).text(), a, m)
                    && final(self).offset() == b,
                Scan::Stuck => false,
            },
    {
        let ghost s = self.text();
        let ghost p0 = self.offset();
        proof {
            lemma_skip_ws(s, p0);
        }
        loop
            invariant
                self.wf(),
                self.text() == s,
                old(self).text() == s,
                old(self).offset() == p0,
                0 <= p0 <= self.offset() <= skip_ws(s, p0),
                skip_ws(s, self.offset()) == skip_ws(s, p0),
            ensures
                self.wf(),
                self.text() == s,
                self.offset() == skip_ws(s, p0),
                char_at(s, self.offset()) == Some('-'),
            decreases s.len() - self.offset(),
        {
            match self.peek() {
                None => {
                    return Err(self.error_here(MSG_UNCONCLUDED_PARAMETERS));
                },
                Some(c) => {
                    if char_is_whitespace(c) {
                        self.advance();
                        proof {
                            lemma_skip_ws(s, self.offset());
                        }
                    } else if c == '-' {
                        break;
                    } else if char_is_alphabetic(c) {
                        return Ok(ParamType::Any);
                    } else {
                        return Err(self.error_here(MSG_UNEXPECTED_IN_DECLARATION));
                    }
                },
            }
        }
        let arrow = match self.peek() {
            Some(c) => c == '>',
            None => false,
        };
        if !arrow {
            return Err(self.error_here(MSG_EXPECTED_ARROW));
        }
        self.advance();
        self.read_output_type()
    }

    /// The rest of an output type after `->`: whitespace, then a type name ended
    /// by whitespace or a comma, and the parameter type it names. `lex_varto`
    /// never gets this far (see there).
    fn read_output_type(&mut self) -> (r: Result<ParamType, LexError>)
        requires
            old(self).wf(),
        ensures
            final(self).wf(),
            final(self).text() == old(self).text(),
            match output_type_scan(old(self).text(), old(self).offset()) {
                Scan::Done(name, e) => r matches Ok(k) && names_type(name, k) && final(self).offset()
                    == e,
                Scan::Fail(a, b, m) => r matches Err(err) && error_is(err, old(self).text(), a, m)
                    && final(self).offset() == b,
                Scan::Stuck => false,
            },
    {
        let ghost s = self.text();
        let ghost p0 = self.offset();
        proof {
            lemma_skip_ws(s, p0);
        }
        loop
            invariant
                self.wf(),
                self.text() == s,
                old(self).text() == s,
                old(self).offset() == p0,
                0 <= p0 <= self.offset() <= skip_ws(s, p0),
                skip_ws(s, self.offset()) == skip_ws(s, p0),
            ensures
                self.wf(),
                self.text() == s,
                self.offset() == skip_ws(s, p0),
                self.offset() < s.len(),
                is_alphabetic_char(s[self.offset()]),
            decreases s.len() - self.offset(),
        {
            match self.peek() {
                None => {
                    return Err(self.error_here(MSG_UNCONCLUDED_PARAMETERS));
                },
                Some(c) => {
                    if char_is_whitespace(c) {
                        self.advance();
                        proof {
                            lemma_skip_ws(s, self.offset());
                        }
                    } else if char_is_alphabetic(c) {
                        break;
                    } else {
                        return Err(self.error_here(MSG_UNEXPECTED_IN_DECLARATION));
                    }
                },
            }
        }
        let ghost q = self.offset();
        let mut out_name = String::new();
        loop
            invariant_except_break
                out_name_scan(s, q, Seq::empty()) == out_name_scan(s, self.offset(), out_name@),
            invariant
                self.wf(),
                self.text() == s,
                old(self).text() == s,
                old(self).offset() == p0,
                0 <= q <= self.offset() <= s.len(),
                output_type_scan(s, p0) == out_name_scan(s, q, Seq::empty()),
            ensures
                self.wf(),
                self.text() == s,
                out_name_scan(s, q, Seq::empty()) == Scan::Done(out_name@, self.offset()),
            decreases s.len() - self.offset(),
        {
            match self.peek() {
                None => {
                    return Err(self.error_here(MSG_UNCONCLUDED_PARAMETERS));
                },
                Some(c) => {
                    if char_is_alphabetic(c) {
                        out_name.push(c);
                        self.advance();
                    } else if char_is_whitespace(c) {
                        break;
                    } else if c == ',' {
                        self.advance();
                        break;
                    } else {
                        return Err(self.error_here(MSG_UNEXPECTED_IN_DECLARATION));
                    }
                },
            }
        }
        Ok(param_type_named(&out_name))
    }

    /// A parameter's default value: a string literal or a number literal.
    pub(crate) fn scan_param_default(&mut self) -> (r: Result<ParamDefault, Stop>)
        requires
            old(self).wf(),
        ensures
            final(self).wf(),
            final(self).text() == old(self).text(),
            match param_default_scan(old(self).text(), old(self).offset()) {
                Scan::Done(v, e) => r matches Ok(d) && default_view(d) == v && final(self).offset()
                    == e,
                Scan::Fail(a, b, m) => r matches Err(Stop::Error(err)) && error_is(
                    err,
                    old(self).text(),
                    a,
                    m,
                ) && final(self).offset() == b,
                Scan::Stuck => r matches Err(Stop::Endless),
            },
    {
        match self.peek() {
            None => Err(Stop::Error(self.error_here(MSG_UNCONCLUDED_PARAMETERS))),
            Some(c) => {
                if c == '"' {
                    match self.scan_string_lit() {
                        Err(e) => Err(e),
                        Ok(t) => Ok(ParamDefault::String(t)),
                    }
                } else if char_is_numeric(c) {
                    Ok(ParamDefault::Number(self.lex_num_lit()))
                } else {
                    Err(Stop::Error(self.error_here(MSG_UNEXPECTED_IN_DECLARATION)))
                }
            },
        }
    }

    /// A parameter's default value: a string literal or a number literal.
    pub fn lex_param_default(&mut self) -> (r: Result<ParamDefault, LexError>)
        requires
            old(self).wf(),
            !(param_default_scan(old(self).text(), old(self).offset()) is Stuck),
        ensures
            final(self).wf(),
            final(self).text() == old(self).text(),
            match param_default_scan(old(self).text(), old(self).offset()) {
                Scan::Done(v, e) => r matches Ok(d) && default_view(d) == v && final(self).offset()
                    == e,
                Scan::Fail(a, b, m) => r matches Err(err) && error_is(err, old(self).text(), a, m)
                    && final(self).offset() == b,
                Scan::Stuck => false,
            },
    {
        match self.scan_param_default() {
            Ok(d) => Ok(d),
            Err(Stop::Error(e)) => Err(e),
            Err(Stop::Endless) => Err(self.error_here(MSG_UNCONCLUDED_PARAMETERS)),
        }
    }

    /// The tokens of an expression, read until the end of the text or a character
    /// that starts no token.
    pub(crate) fn scan_expr(&mut self) -> (r: Result<Vec<ExprToken>, Stop>)
        requires
            old(self).wf(),
        ensures
            final(self).wf(),
            final(self).text() == old(self).text(),
            match expr_scan(old(self).text(), old(self).offset()) {
                Scan::Done(v, e) => r matches Ok(t) && tokens_view(t@) == v && final(self).offset()
                    == e,
                Scan::Fail(a, b, m) => r matches Err(Stop::Error(err)) && error_is(
                    err,
                    old(self).text(),
                    a,
                    m,
                ) && final(self).offset() == b,
                Scan::Stuck => r matches Err(Stop::Endless),
            },
        decreases if old(self).offset() < old(self).text().len() {
            3 * (old(self).text().len() - old(self).offset()) + 2
        } else {
            0
        },
    {
        let ghost s = self.text();
        let ghost p0 = self.offset();
        let mut toks: Vec<ExprToken> = Vec::new();
        assert(tokens_view(toks@) =~= Seq::empty());
        loop
            invariant_except_break
                expr_scan(s, p0) == prepend_tokens(tokens_view(toks@), expr_scan(s, self.offset())),
            invariant
                self.wf(),
                self.text() == s,
                old(self).text() == s,
                old(self).offset() == p0,
                0 <= p0 <= self.offset() <= s.len(),
            ensures
                self.wf(),
                self.text() == s,
                expr_scan(s, p0) == Scan::Done(tokens_view(toks@), self.offset()),
            decreases s.len() - self.offset(),
        {
            let ghost at = self.offset();
            let ghost before = toks@;
            let t_line = self.line;
            let t_col = self.col;
            match self.peek() {
                None => {
                    assert(tokens_view(toks@) + Seq::empty() =~= tokens_view(toks@));
                    break;
                },
                Some(c) => {
                    if c == '"' {
                        proof {
                            lemma_string_scan(s, at);
                        }
                        match self.scan_string_lit() {
                            Err(e) => {
                                return Err(e);
                            },
                            Ok(t) => {
                                let tok = ExprToken {
                                    kind: ExprTokenKind::StringLit(t),
                                    line: t_line,
                                    col: t_col,
                                };
                                proof {
                                    lemma_push_token(before, tok, expr_scan(s, self.offset()));
                                }
                                toks.push(tok);
                            },
                        }
                    } else if char_is_numeric(c) {
                        proof {
                            lemma_number_scan(s, at);
                        }
                        let n = self.lex_num_lit();
                        let tok = ExprToken { kind: ExprTokenKind::NumLit(n), line: t_line, col: t_col };
                        proof {
                            lemma_push_token(before, tok, expr_scan(s, self.offset()));
                        }
                        toks.push(tok);
                    } else if char_is_whitespace(c) {
                        self.advance();
                    } else if c == '+' || c == '-' || c == '/' || c == '*' {
                        let kind = if c == '+' {
                            ExprTokenKind::Add
                        } else if c == '-' {
                            ExprTokenKind::Subtract
                        } else if c == '/' {
                            ExprTokenKind::Divide
                        } else {
                            ExprTokenKind::Multiply
                        };
                        let tok = ExprToken { kind, line: t_line, col: t_col };
                        self.advance();
                        proof {
                            lemma_push_token(before, tok, expr_scan(s, self.offset()));
                        }
                        toks.push(tok);
                    } else if char_is_alphabetic(c) {
                        proof {
                            lemma_identifier_scan(s, at);
                        }
                        let name = self.lex_identifier();
                        let tok = ExprToken {
                            kind: ExprTokenKind::Identifier(name),
                            line: t_line,
                            col: t_col,
                        };
                        proof {
                            lemma_push_token(before, tok, expr_scan(s, self.offset()));
                        }
                        toks.push(tok);
                    } else if c == '[' {
                        proof {
                            lemma_index_tail(s, at + 1);
                        }
                        match self.scan_index() {
                            Err(e) => {
                                return Err(e);
                            },
                            Ok(inner) => {
                                let tok = ExprToken {
                                    kind: ExprTokenKind::Index(inner),
                                    line: t_line,
                                    col: t_col,
                                };
                                proof {
                                    lemma_push_token(before, tok, expr_scan(s, self.offset()));
                                }
                                toks.push(tok);
                            },
                        }
                    } else if c == '.' {
                        self.advance();
                        proof {
                            lemma_identifier_scan(s, at + 1);
                        }
                        let name = self.lex_identifier();
                        let tok = ExprToken {
                            kind: ExprTokenKind::Entry(name),
                            line: t_line,
                            col: t_col,
                        };
                        proof {
                            lemma_push_token(before, tok, expr_scan(s, self.offset()));
                        }
                        toks.push(tok);
                    } else {
                        assert(tokens_view(toks@) + Seq::empty() =~= tokens_view(toks@));
                        break;
                    }
                },
            }
        }
        Ok(toks)
    }

    /// An index: the lexer steps over the opening bracket, reads an expression
    /// and must then stand at the closing bracket, which it does not step over.
    pub(crate) fn scan_index(&mut self) -> (r: Result<Vec<ExprToken>, Stop>)
        requires
            old(self).wf(),
        ensures
            final(self).wf(),
            final(self).text() == old(self).text(),
            match index_scan(old(self).text(), old(self).offset()) {
                Scan::Done(v, e) => r matches Ok(t) && tokens_view(t@) == v && final(self).offset()
                    == e,
                Scan::Fail(a, b, m) => r matches Err(Stop::Error(err)) && error_is(
                    err,
                    old(self).text(),
                    a,
                    m,
                ) && final(self).offset() == b,
                Scan::Stuck => r matches Err(Stop::Endless),
            },
        decreases 3 * (old(self).text().len() - old(self).offset()) + 1,
    {
        self.advance();
        let toks = self.scan_expr();
        match toks {
            Err(Stop::Endless) => Err(Stop::Endless),
            other => {
                let closed = match self.peek() {
                    Some(c) => c == ']',
                    None => false,
                };
                if closed {
                    other
                } else {
                    Err(Stop::Error(self.error_here(MSG_UNCONCLUDED_INDEX)))
                }
            },
        }
    }

    /// The tokens of an expression, read until the end of the text or a character
    /// that starts no token.
    pub fn lex_expr(&mut self) -> (r: Result<Vec<ExprToken>, LexError>)
        requires
            old(self).wf(),
            !(expr_scan(old(self).text(), old(self).offset()) is Stuck),
        ensures
            final(self).wf(),
            final(self).text() == old(self).text(),
            match expr_scan(old(self).text(), old(self).offset()) {
                Scan::Done(v, e) => r matches Ok(t) && tokens_view(t@) == v && final(self).offset()
                    == e,
                Scan::Fail(a, b, m) => r matches Err(err) && error_is(err, old(self).text(), a, m)
                    && final(self).offset() == b,
                Scan::Stuck => false,
            },
    {
        match self.scan_expr() {
            Ok(t) => Ok(t),
            Err(Stop::Error(e)) => Err(e),
            Err(Stop::Endless) => Err(self.error_here(MSG_UNCONCLUDED_STRING)),
        }
    }

    /// An index: the lexer steps over the opening bracket, reads an expression
    /// and must then stand at the closing bracket, which it does not step over.
    pub fn lex_index(&mut self) -> (r: Result<Vec<ExprToken>, LexError>)
        requires
            old(self).wf(),
            !(index_scan(old(self).text(), old(self).offset()) is Stuck),
        ensures
            final(self).wf(),
            final(self).text() == old(self).text(),
            match index_scan(old(self).text(), old(self).offset()) {
                Scan::Done(v, e) => r matches Ok(t) && tokens_view(t@) == v && final(self).offset()
                    == e,
                Scan::Fail(a, b, m) => r matches Err(err) && error_is(err, old(self).text(), a, m)
                    && final(self).offset() == b,
                Scan::Stuck => false,
            },
    {
        match self.scan_index() {
            Ok(t) => Ok(t),
            Err(Stop::Error(e)) => Err(e),
            Err(Stop::Endless) => Err(self.error_here(MSG_UNCONCLUDED_INDEX)),
        }
    }

    /// A parameter's type: letters, with `?` marking it optional and `+` plural,
    /// ended by a comma or whitespace, which is stepped over.
    fn scan_param_type(&mut self) -> (r: Result<(String, bool, bool), LexError>)
        requires
            old(self).wf(),
        ensures
            final(self).wf(),
            final(self).text() == old(self).text(),
            match type_scan(old(self).text(), old(self).offset(), Seq::empty(), false, false) {
                Scan::Done(t, e) => r matches Ok(x) && x.0@ == t.0 && x.1 == t.1 && x.2 == t.2
                    && final(self).offset() == e,
                Scan::Fail(a, b, m) => r matches Err(err) && error_is(err, old(self).text(), a, m)
                    && final(self).offset() == b,
                Scan::Stuck => false,
            },
    {
        let ghost s = self.text();
        let ghost p0 = self.offset();
        let mut type_ident = String::new();
        let mut plural = false;
        let mut optional = false;
        loop
            invariant_except_break
                type_scan(s, p0, Seq::empty(), false, false) == type_scan(
                    s,
                    self.offset(),
                    type_ident@,
                    plural,
                    optional,
                ),
            invariant
                self.wf(),
                self.text() == s,
                old(self).text() == s,
                old(self).offset() == p0,
                0 <= p0 <= self.offset() <= s.len(),
            ensures
                self.wf(),
                self.text() == s,
                type_scan(s, p0, Seq::empty(), false, false) == Scan::Done(
                    (type_ident@, plural, optional),
                    self.offset(),
                ),
            decreases s.len() - self.offset(),
        {
            match self.peek() {
                None => {
                    return Err(self.error_here(MSG_UNCONCLUDED_PARAMETERS));
                },
                Some(c) => {
                    if char_is_alphabetic(c) {
                        type_ident.push(c);
                        self.advance();
                    } else if c == ',' {
                        self.advance();
                        break;
                    } else if char_is_whitespace(c) {
                        self.advance();
                        break;
                    } else if c == '?' {
                        optional = true;
                        self.advance();
                    } else if c == '+' {
                        plural = true;
                        self.advance();
                    } else {
                        return Err(self.error_here(MSG_UNEXPECTED_IN_PARAMETERS));
                    }
                },
            }
        }
        Ok((type_ident, plural, optional))
    }

    /// What follows an optional parameter's type: whitespace, then `=` and a
    /// default value, or an alphabetic character, which leaves no default.
    fn scan_default(&mut self) -> (r: Result<ParamDefault, Stop>)
        requires
            old(self).wf(),
        ensures
            final(self).wf(),
            final(self).text() == old(self).text(),
            match default_scan(old(self).text(), old(self).offset()) {
                Scan::Done(_, e) => r is Ok && final(self).offset() == e,
                Scan::Fail(a, b, m) => r matches Err(Stop::Error(err)) && error_is(
                    err,
                    old(self).text(),
                    a,
                    m,
                ) && final(self).offset() == b,
                Scan::Stuck => r matches Err(Stop::Endless),
            },
    {
        let ghost s = self.text();
        let ghost p0 = self.offset();
        loop
            invariant
                self.wf(),
                self.text() == s,
                old(self).text() == s,
                old(self).offset() == p0,
                0 <= p0 <= self.offset() <= s.len(),
                default_scan(s, p0) == default_scan(s, self.offset()),
            decreases s.len() - self.offset(),
        {
            match self.peek() {
                None => {
                    return Err(Stop::Error(self.error_here(MSG_UNCONCLUDED_PARAMETERS)));
                },
                Some(c) => {
                    if char_is_whitespace(c) {
                        self.advance();
                    } else if c == '=' {
                        self.advance();
                        return match self.scan_param_default() {
                            Err(e) => Err(e),
                            Ok(d) => Ok(d),
                        };
                    } else if char_is_alphabetic(c) {
                        return Ok(ParamDefault::NoDefault);
                    } else {
                        return Err(Stop::Error(self.error_here(MSG_UNEXPECTED_IN_DECLARATION)));
                    }
                },
            }
        }
    }

    /// One parameter: an alphabetic name, `:`, whitespace, the type, then a
    /// default value for an optional parameter that is neither plural nor a
    /// variable, and the output type for a variable.
    fn scan_param(&mut self) -> (r: Result<FunctionParam, Stop>)
        requires
            old(self).wf(),
        ensures
            final(self).wf(),
            final(self).text() == old(self).text(),
            match param_scan(old(self).text(), old(self).offset()) {
                Scan::Done(_, e) => r is Ok && final(self).offset() == e,
                Scan::Fail(a, b, m) => r matches Err(Stop::Error(err)) && error_is(
                    err,
                    old(self).text(),
                    a,
                    m,
                ) && final(self).offset() == b,
                Scan::Stuck => r matches Err(Stop::Endless),
            },
    {
        let ghost s = self.text();
        let ghost p0 = self.offset();
        proof {
            lemma_alpha_end(s, p0);
        }
        let mut name = String::new();
        let t_line = self.line;
        let t_col = self.col;
        loop
            invariant_except_break
                p0 <= self.offset() <= alpha_end(s, p0),
                alpha_end(s, self.offset()) == alpha_end(s, p0),
            invariant
                self.wf(),
                self.text() == s,
                old(self).text() == s,
                old(self).offset() == p0,
                0 <= p0 <= self.offset() <= s.len(),
                t_line == line_at(s, p0),
                t_col == col_at(s, p0),
            ensures
                self.wf(),
                self.text() == s,
                alpha_end(s, p0) < s.len(),
                s[alpha_end(s, p0)] == ':',
                self.offset() == alpha_end(s, p0) + 1,
            decreases s.len() - self.offset(),
        {
            match self.peek() {
                None => {
                    return Err(
                        Stop::Error(
                            LexError {
                                line: t_line,
                                col: t_col,
                                message: MSG_EXPECTED_PARAMETER_TYPE.to_string(),
                            },
                        ),
                    );
                },
                Some(c) => {
                    if char_is_alphabetic(c) {
                        name.push(c);
                        self.advance();
                        proof {
                            lemma_alpha_end(s, self.offset());
                        }
                    } else if c == ':' {
                        self.advance();
                        break;
                    } else {
                        return Err(Stop::Error(self.error_here(MSG_UNEXPECTED_IN_PARAMETERS)));
                    }
                },
            }
        }
        let ghost r1 = self.offset();
        proof {
            lemma_skip_ws(s, r1);
        }
        loop
            invariant
                self.wf(),
                self.text() == s,
                old(self).text() == s,
                old(self).offset() == p0,
                0 <= p0 <= alpha_end(s, p0) < s.len(),
                s[alpha_end(s, p0)] == ':',
                r1 == alpha_end(s, p0) + 1,
                r1 <= self.offset() <= skip_ws(s, r1),
                skip_ws(s, self.offset()) == skip_ws(s, r1),
            ensures
                self.wf(),
                self.text() == s,
                self.offset() == skip_ws(s, r1),
                self.offset() < s.len(),
                is_alphabetic_char(s[self.offset()]),
            decreases s.len() - self.offset(),
        {
            match self.peek() {
                None => {
                    return Err(Stop::Error(self.error_here(MSG_EOF_AS_TYPE)));
                },
                Some(c) => {
                    if char_is_whitespace(c) {
                        self.advance();
                        proof {
                            lemma_skip_ws(s, self.offset());
                        }
                    } else if char_is_alphabetic(c) {
                        break;
                    } else {
                        return Err(Stop::Error(self.error_here(MSG_UNEXPECTED_IN_PARAMETERS)));
                    }
                },
            }
        }
        let (type_ident, plural, optional) = match self.scan_param_type() {
            Ok(x) => x,
            Err(e) => {
                return Err(Stop::Error(e));
            },
        };
        let variable = text_is(&type_ident, "Variable") || text_is(&type_ident, "Var");
        assert(variable == is_variable_type(type_ident@));
        let mut default = ParamDefault::NoDefault;
        if optional && !plural && !text_is(&type_ident, "Variable") && !text_is(
            &type_ident,
            "Var",
        ) {
            default = match self.scan_default() {
                Err(e) => {
                    return Err(e);
                },
                Ok(d) => d,
            };
        }
        let kind = if variable {
            match self.lex_varto() {
                Err(e) => {
                    return Err(Stop::Error(e));
                },
                Ok(t) => ParamType::Variable(Box::new(t)),
            }
        } else {
            param_type_named(&type_ident)
        };
        Ok(FunctionParam { kind, name, plural, optional, default })
    }

    /// A function body: whitespace, an opening brace, then statements, which are
    /// identifiers and indexes. Nothing ends a body, so this always stops without
    /// a function.
    fn scan_body(&mut self) -> (r: Stop)
        requires
            old(self).wf(),
        ensures
            final(self).wf(),
            final(self).text() == old(self).text(),
            match body_scan(old(self).text(), old(self).offset()) {
                Scan::Done(_, _) => false,
                Scan::Fail(a, b, m) => r matches Stop::Error(err) && error_is(
                    err,
                    old(self).text(),
                    a,
                    m,
                ) && final(self).offset() == b,
                Scan::Stuck => r matches Stop::Endless,
            },
    {
        let ghost s = self.text();
        let ghost p0 = self.offset();
        proof {
            lemma_skip_ws(s, p0);
        }
        loop
            invariant
                self.wf(),
                self.text() == s,
                old(self).text() == s,
                old(self).offset() == p0,
                0 <= p0 <= self.offset() <= skip_ws(s, p0),
                skip_ws(s, self.offset()) == skip_ws(s, p0),
            ensures
                self.wf(),
                self.text() == s,
                self.offset() == skip_ws(s, p0),
                char_at(s, self.offset()) == Some('{'),
            decreases s.len() - self.offset(),
        {
            match self.peek() {
                None => {
                    return Stop::Error(self.error_here(MSG_EXPECTED_OPEN_BRACE));
                },
                Some(c) => {
                    if char_is_whitespace(c) {
                        self.advance();
                        proof {
                            lemma_skip_ws(s, self.offset());
                        }
                    } else if c == '{' {
                        break;
                    } else {
                        return Stop::Error(self.error_here(MSG_EXPECTED_OPEN_BRACE));
                    }
                },
            }
        }
        self.advance();
        loop
            invariant
                self.wf(),
                self.text() == s,
                old(self).text() == s,
                old(self).offset() == p0,
                0 <= self.offset() <= s.len(),
                body_scan(s, p0) == stmts_scan(s, self.offset()),
            decreases s.len() - self.offset(),
        {
            let ghost q = self.offset();
            proof {
                lemma_skip_ws(s, q);
            }
            loop
                invariant
                    self.wf(),
                    self.text() == s,
                    0 <= q <= self.offset() <= skip_ws(s, q),
                    skip_ws(s, self.offset()) == skip_ws(s, q),
                ensures
                    self.wf(),
                    self.text() == s,
                    self.offset() == skip_ws(s, q),
                decreases s.len() - self.offset(),
            {
                match self.peek() {
                    None => {
                        break;
                    },
                    Some(c) => {
                        if char_is_whitespace(c) {
                            self.advance();
                            proof {
                                lemma_skip_ws(s, self.offset());
                            }
                        } else {
                            break;
                        }
                    },
                }
            }
            let t_line = self.line;
            let t_col = self.col;
            let mut l_toks: Vec<LToken> = Vec::new();
            match self.peek() {
                None => {
                    return Stop::Error(self.error_here(MSG_UNCONCLUDED_FUNCTION));
                },
                Some(c) => {
                    if char_is_whitespace(c) {
                        self.advance();
                    } else if char_is_alphabetic(c) {
                        proof {
                            lemma_identifier_scan(s, self.offset());
                        }
                        let ident = self.lex_identifier();
                        l_toks.push(
                            LToken { kind: LTokenKind::Identifier(ident), line: t_line, col: t_col },
                        );
                    } else if c == '[' {
                        proof {
                            lemma_index_scan(s, self.offset());
                        }
                        match self.scan_index() {
                            Ok(t) => {
                                l_toks.push(
                                    LToken { kind: LTokenKind::Index(t), line: t_line, col: t_col },
                                );
                            },
                            Err(e) => {
                                return e;
                            },
                        }
                    } else {
                        return Stop::Error(
                            LexError {
                                line: t_line,
                                col: t_col,
                                message: MSG_UNEXPECTED_CHARACTER.to_string(),
                            },
                        );
                    }
                },
            }
        }
    }

    /// A function declaration after the word `fn`: whitespace, a name, one
    /// character the lexer steps over, an opening parenthesis, the parameters and
    /// the body. No function is ever completed: this always stops.
    pub(crate) fn scan_function(&mut self) -> (r: Result<Function, Stop>)
        requires
            old(self).wf(),
        ensures
            final(self).wf(),
            final(self).text() == old(self).text(),
            r is Err,
            match fn_scan(old(self).text(), old(self).offset()) {
                Scan::Done(_, _) => false,
                Scan::Fail(a, b, m) => r matches Err(Stop::Error(err)) && error_is(
                    err,
                    old(self).text(),
                    a,
                    m,
                ) && final(self).offset() == b,
                Scan::Stuck => r matches Err(Stop::Endless),
            },
    {
        let ghost s = self.text();
        let ghost p0 = self.offset();
        proof {
            lemma_skip_ws(s, p0);
        }
        loop
            invariant
                self.wf(),
                self.text() == s,
                old(self).text() == s,
                old(self).offset() == p0,
                0 <= p0 <= self.offset() <= skip_ws(s, p0),
                skip_ws(s, self.offset()) == skip_ws(s, p0),
            ensures
                self.wf(),
                self.text() == s,
                self.offset() == skip_ws(s, p0),
                self.offset() < s.len(),
            decreases s.len() - self.offset(),
        {
            match self.peek() {
                None => {
                    return Err(Stop::Error(self.error_here(MSG_EXPECTED_AFTER_FN)));
                },
                Some(c) => {
                    if char_is_whitespace(c) {
                        self.advance();
                        proof {
                            lemma_skip_ws(s, self.offset());
                        }
                    } else {
                        break;
                    }
                },
            }
        }
        match self.peek() {
            None => {
                return Err(Stop::Error(self.error_here(MSG_EXPECTED_AFTER_FN)));
            },
            Some(c) => {
                if !(char_is_alphabetic(c) || c == '_') {
                    return Err(Stop::Error(self.error_here(MSG_UNEXPECTED_AFTER_FN)));
                }
            },
        }
        let name = self.lex_identifier();
        match self.peek() {
            None => {
                return Err(Stop::Error(self.error_here(MSG_EXPECTED_OPEN_PAREN)));
            },
            Some(c) => {
                if c == '(' {
                    self.advance();
                } else {
                    return Err(Stop::Error(self.error_here(MSG_EXPECTED_OPEN_PAREN)));
                }
            },
        }
        let mut params: Vec<FunctionParam> = Vec::new();
        let p_line = self.line;
        let p_col = self.col;
        let ghost start = self.offset();
        assert(fn_scan(s, p0) == match params_scan(s, start, start) {
            Scan::Done(_, e) => body_scan(s, e),
            Scan::Fail(a, b, m) => Scan::Fail(a, b, m),
            Scan::Stuck => Scan::Stuck,
        });
        loop
            invariant_except_break
                params_scan(s, start, start) == params_scan(s, start, self.offset()),
            invariant
                self.wf(),
                self.text() == s,
                old(self).text() == s,
                old(self).offset() == p0,
                0 <= start <= self.offset() <= s.len(),
                p_line == line_at(s, start),
                p_col == col_at(s, start),
                fn_scan(s, p0) == match params_scan(s, start, start) {
                    Scan::Done(_, e) => body_scan(s, e),
                    Scan::Fail(a, b, m) => Scan::Fail(a, b, m),
                    Scan::Stuck => Scan::Stuck,
                },
            ensures
                self.wf(),
                self.text() == s,
                params_scan(s, start, start) == Scan::<()>::Done((), self.offset()),
            decreases s.len() - self.offset(),
        {
            match self.peek() {
                None => {
                    return Err(
                        Stop::Error(
                            LexError {
                                line: p_line,
                                col: p_col,
                                message: MSG_UNCONCLUDED_PARAMETERS.to_string(),
                            },
                        ),
                    );
                },
                Some(c) => {
                    if char_is_whitespace(c) {
                        self.advance();
                    } else if c == ')' {
                        self.advance();
                        break;
                    } else if char_is_alphabetic(c) {
                        proof {
                            lemma_param_scan(s, self.offset());
                        }
                        match self.scan_param() {
                            Ok(p) => {
                                params.push(p);
                            },
                            Err(e) => {
                                return Err(e);
                            },
                        }
                    } else {
                        return Err(Stop::Error(self.error_here(MSG_UNEXPECTED_IN_PARAMETERS)));
                    }
                },
            }
        }
        Err(self.scan_body())
    }

    /// A function declaration after the word `fn`: whitespace, a name, one
    /// character the lexer steps over, an opening parenthesis, the parameters and
    /// the body. No function is ever completed: the result is always an error.
    pub fn lex_function(&mut self) -> (r: Result<Function, LexError>)
        requires
            old(self).wf(),
            !(fn_scan(old(self).text(), old(self).offset()) is Stuck),
        ensures
            final(self).wf(),
            final(self).text() == old(self).text(),
            r is Err,
            match fn_scan(old(self).text(), old(self).offset()) {
                Scan::Done(_, _) => false,
                Scan::Fail(a, b, m) => r matches Err(err) && error_is(err, old(self).text(), a, m)
                    && final(self).offset() == b,
                Scan::Stuck => false,
            },
    {
        match self.scan_function() {
            Ok(f) => Ok(f),
            Err(Stop::Error(e)) => Err(e),
            Err(Stop::Endless) => Err(self.error_here(MSG_UNCONCLUDED_FUNCTION)),
        }
    }

    /// A whole source: whitespace and, if anything is left, a word of letters
    /// ended by whitespace, which must be `fn` and start a function declaration.
    pub(crate) fn scan_main(&mut self) -> (r: Result<Lexed, Stop>)
        requires
            old(self).wf(),
        ensures
            final(self).wf(),
            final(self).text() == old(self).text(),
            match main_scan(old(self).text(), old(self).offset()) {
                Scan::Done(_, e) => r matches Ok(l) && l.structs@.len() == 0 && l.funcs@.len()
                    == 0 && final(self).offset() == e,
                Scan::Fail(a, b, m) => r matches Err(Stop::Error(err)) && error_is(
                    err,
                    old(self).text(),
                    a,
                    m,
                ) && final(self).offset() == b,
                Scan::Stuck => r matches Err(Stop::Endless),
            },
    {
        let ghost s = self.text();
        let ghost p0 = self.offset();
        let mut structs: Vec<Struct> = Vec::new();
        let mut funcs: Vec<Function> = Vec::new();
        loop
            invariant
                self.wf(),
                self.text() == s,
                old(self).text() == s,
                old(self).offset() == p0,
                0 <= p0 <= self.offset() <= s.len(),
                main_scan(s, p0) == main_scan(s, self.offset()),
                structs@.len() == 0,
                funcs@.len() == 0,
            decreases s.len() - self.offset(),
        {
            let mut ident = String::new();
            let ghost q0 = self.offset();
            proof {
                lemma_skip_ws(s, q0);
            }
            loop
                invariant
                    self.wf(),
                    self.text() == s,
                    old(self).text() == s,
                    old(self).offset() == p0,
                    0 <= q0 <= self.offset() <= skip_ws(s, q0),
                    skip_ws(s, self.offset()) == skip_ws(s, q0),
                    main_scan(s, p0) == main_scan(s, q0),
                    structs@.len() == 0,
                    funcs@.len() == 0,
                ensures
                    self.wf(),
                    self.text() == s,
                    self.offset() == skip_ws(s, q0),
                    self.offset() < s.len(),
                    is_alphabetic_char(s[self.offset()]),
                decreases s.len() - self.offset(),
            {
                match self.peek() {
                    None => {
                        return Ok(Lexed { structs, funcs });
                    },
                    Some(c) => {
                        if char_is_whitespace(c) {
                            self.advance();
                            proof {
                                lemma_skip_ws(s, self.offset());
                            }
                        } else if char_is_alphabetic(c) {
                            break;
                        } else {
                            return Err(Stop::Error(self.error_here(MSG_UNEXPECTED_CHARACTER)));
                        }
                    },
                }
            }
            let ghost q = self.offset();
            let m_line = self.line;
            let m_col = self.col;
            proof {
                lemma_alpha_end(s, q);
            }
            loop
                invariant_except_break
                    q <= self.offset() <= alpha_end(s, q),
                    alpha_end(s, self.offset()) == alpha_end(s, q),
                    ident@ == s.subrange(q, self.offset()),
                invariant
                    self.wf(),
                    self.text() == s,
                    old(self).text() == s,
                    old(self).offset() == p0,
                    0 <= q < s.len(),
                    q == skip_ws(s, q0),
                    main_scan(s, p0) == main_scan(s, q0),
                    m_line == line_at(s, q),
                    m_col == col_at(s, q),
                ensures
                    self.wf(),
                    self.text() == s,
                    self.offset() == alpha_end(s, q),
                    q <= self.offset() < s.len(),
                    is_whitespace_char(s[self.offset()]),
                    ident@ == s.subrange(q, self.offset()),
                decreases s.len() - self.offset(),
            {
                match self.peek() {
                    None => {
                        return Err(
                            Stop::Error(
                                LexError {
                                    line: m_line,
                                    col: m_col,
                                    message: MSG_UNCONCLUDED_IDENTIFIER.to_string(),
                                },
                            ),
                        );
                    },
                    Some(c) => {
                        if char_is_alphabetic(c) {
                            let ghost at = self.offset();
                            proof {
                                lemma_subrange_push(s, q, at);
                            }
                            ident.push(c);
                            proof {
                                lemma_alpha_end(s, at + 1);
                            }
                        } else if char_is_whitespace(c) {
                            break;
                        } else {
                            return Err(Stop::Error(self.error_here(MSG_UNEXPECTED_CHARACTER)));
                        }
                    },
                }
                self.advance();
            }
            if text_is(&ident, "fn") {
                proof {
                    lemma_fn_scan(s, self.offset());
                }
                match self.scan_function() {
                    Ok(f) => {
                        funcs.push(f);
                    },
                    Err(e) => {
                        return Err(e);
                    },
                }
            } else {
                return Err(
                    Stop::Error(
                        LexError {
                            line: m_line,
                            col: m_col,
                            message: MSG_UNRECOGNIZED_IDENTIFIER.to_string(),
                        },
                    ),
                );
            }
        }
    }

    /// Lexes the source from the lexer's position: whitespace and, if anything
    /// is left, a word of letters ended by whitespace, which must be `fn` and
    /// start a function declaration. Only a source of whitespace lexes without
    /// error, to nothing.
    pub fn main(&mut self) -> (r: Result<Lexed, LexError>)
        requires
            old(self).wf(),
            !(main_scan(old(self).text(), old(self).offset()) is Stuck),
        ensures
            final(self).wf(),
            final(self).text() == old(self).text(),
            match main_scan(old(self).text(), old(self).offset()) {
                Scan::Done(_, e) => r matches Ok(l) && l.structs@.len() == 0 && l.funcs@.len()
                    == 0 && final(self).offset() == e,
                Scan::Fail(a, b, m) => r matches Err(err) && error_is(err, old(self).text(), a, m)
                    && final(self).offset() == b,
                Scan::Stuck => false,
            },
    {
        match self.scan_main() {
            Ok(l) => Ok(l),
            Err(Stop::Error(e)) => Err(e),
            Err(Stop::Endless) => Err(self.error_here(MSG_UNCONCLUDED_STRING)),
        }
    }

    /// Lexes the source as `main` does where `main` returns, and gives `None`
    /// where `main` would never return (a string literal holding a character
    /// that is neither a quote nor a backslash).
    pub fn try_main(&mut self) -> (r: Option<Result<Lexed, LexError>>)
        requires
            old(self).wf(),
        ensures
            final(self).wf(),
            final(self).text() == old(self).text(),
            match main_scan(old(self).text(), old(self).offset()) {
                Scan::Done(_, e) => r matches Some(Ok(l)) && l.structs@.len() == 0
                    && l.funcs@.len() == 0 && final(self).offset() == e,
                Scan::Fail(a, b, m) => r matches Some(Err(err)) && error_is(
                    err,
                    old(self).text(),
                    a,
                    m,
                ) && final(self).offset() == b,
                Scan::Stuck => r is None,
            },
    {
        match self.scan_main() {
            Ok(l) => Some(Ok(l)),
            Err(Stop::Error(e)) => Some(Err(e)),
            Err(Stop::Endless) => None,
        }
    }
}

} // verus!
