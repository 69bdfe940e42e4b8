use script_lexer::lexer::Lexer;
use script_lexer::tokens::{ExprToken, ExprTokenKind, LexError, ParamDefault, ParamType};

fn err(e: &LexError) -> (usize, usize, &str) {
    (e.line, e.col, e.message.as_str())
}

fn describe(t: &ExprToken) -> String {
    let kind = match &t.kind {
        ExprTokenKind::Add => "+".to_string(),
        ExprTokenKind::Subtract => "-".to_string(),
        ExprTokenKind::Multiply => "*".to_string(),
        ExprTokenKind::Divide => "/".to_string(),
        ExprTokenKind::StringLit(s) => format!("str({})", s),
        ExprTokenKind::NumLit(s) => format!("num({})", s),
        ExprTokenKind::Identifier(s) => format!("id({})", s),
        ExprTokenKind::Index(v) => {
            let inner: Vec<String> = v.iter().map(describe).collect();
            format!("index[{}]", inner.join(" "))
        }
        ExprTokenKind::Entry(s) => format!("entry({})", s),
        ExprTokenKind::Call(_) => "call".to_string(),
        ExprTokenKind::Extension(s) => format!("ext({})", s),
    };
    format!("{}@{}:{}", kind, t.line, t.col)
}

fn describe_all(v: &[ExprToken]) -> Vec<String> {
    v.iter().map(describe).collect()
}

#[test]
fn peek_and_advance_walk_the_text() {
    let mut l = Lexer::new("ab");
    assert_eq!(l.peek(), Some('a'));
    assert_eq!(l.peek_ahead(1), Some('b'));
    assert_eq!(l.peek_ahead(2), None);
    assert_eq!(l.advance(), Some('a'));
    assert_eq!(l.peek(), Some('b'));
    assert_eq!(l.advance(), Some('b'));
    assert_eq!(l.peek(), None);
    assert_eq!(l.advance(), None);
    assert_eq!(l.peek(), None);
}

#[test]
fn new_reads_unicode_characters() {
    let mut l = Lexer::new("é\u{1F600}x");
    assert_eq!(l.advance(), Some('é'));
    assert_eq!(l.advance(), Some('\u{1F600}'));
    assert_eq!(l.peek(), Some('x'));
}

#[test]
fn identifier_is_longest_run_and_steps_over_one_more() {
    let mut l = Lexer::new("foo_bar baz");
    assert_eq!(l.lex_identifier(), "foo_bar");
    assert_eq!(l.peek(), Some('b'));
    let mut l = Lexer::new("abc");
    assert_eq!(l.lex_identifier(), "abc");
    assert_eq!(l.peek(), None);
    let mut l = Lexer::new("a(b");
    assert_eq!(l.lex_identifier(), "a");
    assert_eq!(l.peek(), Some('b'));
}

#[test]
fn number_literal_keeps_one_point_without_stepping_over_it() {
    let mut l = Lexer::new("123 x");
    assert_eq!(l.lex_num_lit(), "123");
    assert_eq!(l.peek(), Some('x'));
    let mut l = Lexer::new("12.5");
    assert_eq!(l.lex_num_lit(), "12.");
    assert_eq!(l.peek(), Some('5'));
    let mut l = Lexer::new("7");
    assert_eq!(l.lex_num_lit(), "7");
    assert_eq!(l.peek(), None);
}

#[test]
fn string_literal_empty() {
    let mut l = Lexer::new("\"\"x");
    assert_eq!(l.lex_string_lit().unwrap(), "");
    assert_eq!(l.peek(), Some('x'));
}

#[test]
fn string_literal_escapes() {
    // A backslash and the character after it are stepped over; an `n` after them
    // gives a line feed, a quote is taken as it stands.
    let mut l = Lexer::new("\"\\an\"");
    assert_eq!(l.lex_string_lit().unwrap(), "\n");
    assert_eq!(l.peek(), None);
    let mut l = Lexer::new("\"\\x\"");
    assert_eq!(l.lex_string_lit().unwrap(), "\"");
    assert_eq!(l.peek(), None);
    let mut l = Lexer::new("\"\\x\\y\"");
    assert_eq!(l.lex_string_lit().unwrap(), "\\\"");
}

#[test]
fn string_literal_errors() {
    let mut l = Lexer::new("\"");
    assert_eq!(err(&l.lex_string_lit().unwrap_err()), (1, 2, "Unconcluded string"));
    let mut l = Lexer::new("\"\\");
    assert_eq!(err(&l.lex_string_lit().unwrap_err()), (1, 3, "Unconcluded parameters"));
    let mut l = Lexer::new("\"\\n");
    assert_eq!(err(&l.lex_string_lit().unwrap_err()), (1, 4, "Unconcluded parameters"));
}

#[test]
fn varto_outcomes() {
    let mut l = Lexer::new("  Any");
    assert!(matches!(l.lex_varto(), Ok(ParamType::Any)));
    assert_eq!(l.peek(), Some('A'));
    let mut l = Lexer::new(" ->x");
    assert_eq!(
        err(&l.lex_varto().unwrap_err()),
        (1, 2, "Expected \">\" to continue output type declaration")
    );
    let mut l = Lexer::new("  ");
    assert_eq!(err(&l.lex_varto().unwrap_err()), (1, 3, "Unconcluded parameters"));
    let mut l = Lexer::new("1");
    assert_eq!(
        err(&l.lex_varto().unwrap_err()),
        (1, 1, "Unexpected character in parameter declaration")
    );
}

#[test]
fn param_default_outcomes() {
    let mut l = Lexer::new("42)");
    match l.lex_param_default() {
        Ok(ParamDefault::Number(n)) => assert_eq!(n, "42"),
        other => panic!("unexpected {:?}", other),
    }
    assert_eq!(l.peek(), None);
    let mut l = Lexer::new("\"\"");
    match l.lex_param_default() {
        Ok(ParamDefault::String(s)) => assert_eq!(s, ""),
        other => panic!("unexpected {:?}", other),
    }
    let mut l = Lexer::new(" 1");
    assert_eq!(
        err(&l.lex_param_default().unwrap_err()),
        (1, 1, "Unexpected character in parameter declaration")
    );
    let mut l = Lexer::new("");
    assert_eq!(err(&l.lex_param_default().unwrap_err()), (1, 1, "Unconcluded parameters"));
}

#[test]
fn expression_tokens_with_positions() {
    let mut l = Lexer::new("a + 12 - b.c");
    let toks = l.lex_expr().unwrap();
    assert_eq!(
        describe_all(&toks),
        vec!["id(a)@1:1", "+@1:3", "num(12)@1:5", "-@1:8", "id(b)@1:10", "id(c)@1:12"]
    );
    assert_eq!(l.peek(), None);
}

#[test]
fn expression_entry_operators_and_stop() {
    let mut l = Lexer::new("a .b*/\"\" ;");
    let toks = l.lex_expr().unwrap();
    assert_eq!(describe_all(&toks), vec!["id(a)@1:1", "entry(b)@1:3", "/@1:6", "str()@1:7"]);
    assert_eq!(l.peek(), Some(';'));
}

#[test]
fn expression_line_feed_moves_to_next_line() {
    let mut l = Lexer::new("a\n+\n\n 1");
    let toks = l.lex_expr().unwrap();
    assert_eq!(describe_all(&toks), vec!["id(a)@1:1", "+@2:1", "num(1)@4:2"]);
}

#[test]
fn expression_string_error_propagates() {
    let mut l = Lexer::new("a \"");
    assert_eq!(err(&l.lex_expr().unwrap_err()), (1, 4, "Unconcluded string"));
}

#[test]
fn index_stops_at_closing_bracket() {
    let mut l = Lexer::new("[a ]");
    let toks = l.lex_index().unwrap();
    assert_eq!(describe_all(&toks), vec!["id(a)@1:2"]);
    assert_eq!(l.peek(), Some(']'));
}

#[test]
fn nested_index() {
    let mut l = Lexer::new("[x [y ]]");
    let toks = l.lex_index().unwrap();
    assert_eq!(describe_all(&toks), vec!["id(x)@1:2", "index[id(y)@1:5]@1:4"]);
    assert_eq!(l.peek(), Some(']'));
}

#[test]
fn index_number_swallows_bracket() {
    let mut l = Lexer::new("[1]");
    assert_eq!(err(&l.lex_index().unwrap_err()), (1, 4, "Unconcluded index"));
    let mut l = Lexer::new("[a");
    assert_eq!(err(&l.lex_index().unwrap_err()), (1, 3, "Unconcluded index"));
}

#[test]
fn function_errors_before_parameters() {
    let mut l = Lexer::new("");
    assert_eq!(err(&l.lex_function().unwrap_err()), (1, 1, "Expected something after `fn`"));
    let mut l = Lexer::new("  1");
    assert_eq!(err(&l.lex_function().unwrap_err()), (1, 3, "Unexpected character after `fn`"));
    let mut l = Lexer::new("foo()");
    assert_eq!(err(&l.lex_function().unwrap_err()), (1, 5, "Expected opening parenthesis"));
    let mut l = Lexer::new("foo");
    assert_eq!(err(&l.lex_function().unwrap_err()), (1, 4, "Expected opening parenthesis"));
}

#[test]
fn function_errors_in_parameters() {
    let mut l = Lexer::new("foo (");
    assert_eq!(err(&l.lex_function().unwrap_err()), (1, 6, "Unconcluded parameters"));
    let mut l = Lexer::new("foo (a");
    assert_eq!(
        err(&l.lex_function().unwrap_err()),
        (1, 6, "Expected parameter type declaration")
    );
    let mut l = Lexer::new("foo (a) {");
    assert_eq!(
        err(&l.lex_function().unwrap_err()),
        (1, 7, "Unexpected character in function parameters")
    );
    let mut l = Lexer::new("foo (a:");
    assert_eq!(
        err(&l.lex_function().unwrap_err()),
        (
            1,
            8,
            "EOF is not a parameter type, and I am starting to get tired of coding all of these bizarre errors"
        )
    );
    let mut l = Lexer::new("foo (a: str");
    assert_eq!(err(&l.lex_function().unwrap_err()), (1, 12, "Unconcluded parameters"));
    let mut l = Lexer::new("foo (a: Var ->x) {");
    assert_eq!(
        err(&l.lex_function().unwrap_err()),
        (1, 13, "Expected \">\" to continue output type declaration")
    );
    let mut l = Lexer::new("foo (a: str? =x) {");
    assert_eq!(
        err(&l.lex_function().unwrap_err()),
        (1, 15, "Unexpected character in parameter declaration")
    );
    let mut l = Lexer::new("foo (1) {");
    assert_eq!(
        err(&l.lex_function().unwrap_err()),
        (1, 6, "Unexpected character in function parameters")
    );
}

#[test]
fn function_errors_in_body() {
    let mut l = Lexer::new("foo ()");
    assert_eq!(
        err(&l.lex_function().unwrap_err()),
        (1, 7, "Expected opening curly brace to begin function script")
    );
    let mut l = Lexer::new("foo () x");
    assert_eq!(
        err(&l.lex_function().unwrap_err()),
        (1, 8, "Expected opening curly brace to begin function script")
    );
    let mut l = Lexer::new("foo (){");
    assert_eq!(err(&l.lex_function().unwrap_err()), (1, 8, "Unconcluded function"));
    let mut l = Lexer::new("foo (){ x }");
    assert_eq!(err(&l.lex_function().unwrap_err()), (1, 11, "Unexpected character"));
    let mut l = Lexer::new("foo (a: str, b: number? =5 c: Var d: num ) {\n  x [y ]");
    assert_eq!(err(&l.lex_function().unwrap_err()), (2, 8, "Unexpected character"));
}

#[test]
fn main_accepts_only_whitespace() {
    let mut l = Lexer::new("");
    let lexed = l.main().unwrap();
    assert!(lexed.structs.is_empty() && lexed.funcs.is_empty());
    let mut l = Lexer::new("  \n\t ");
    let lexed = l.main().unwrap();
    assert!(lexed.structs.is_empty() && lexed.funcs.is_empty());
    assert_eq!(l.peek(), None);
}

#[test]
fn main_errors() {
    let mut l = Lexer::new("x");
    assert_eq!(
        err(&l.main().unwrap_err()),
        (1, 1, "Unconcluded Identifier or block declaration")
    );
    let mut l = Lexer::new("abc def");
    assert_eq!(err(&l.main().unwrap_err()), (1, 1, "Unrecognized identifier"));
    let mut l = Lexer::new(" 1");
    assert_eq!(err(&l.main().unwrap_err()), (1, 2, "Unexpected character"));
    let mut l = Lexer::new("ab1 ");
    assert_eq!(err(&l.main().unwrap_err()), (1, 3, "Unexpected character"));
    let mut l = Lexer::new("\n  fn foo (){ }");
    assert_eq!(err(&l.main().unwrap_err()), (2, 14, "Unexpected character"));
}

#[test]
fn try_main_matches_main_where_it_returns() {
    let mut l = Lexer::new("  ");
    assert!(matches!(l.try_main(), Some(Ok(_))));
    let mut l = Lexer::new("abc def");
    match l.try_main() {
        Some(Err(e)) => assert_eq!(err(&e), (1, 1, "Unrecognized identifier")),
        other => panic!("unexpected {:?}", other),
    }
}

#[test]
fn try_main_reports_endless_string() {
    let mut l = Lexer::new("fn f (a: str? =\"hi\" ) {");
    assert!(l.try_main().is_none());
    let mut l = Lexer::new("fn f (){ [\"a\"] }");
    assert!(l.try_main().is_none());
    let mut l = Lexer::new("fn f (){ [\"\"] }");
    match l.try_main() {
        Some(Err(e)) => assert_eq!(err(&e), (1, 13, "Unexpected character")),
        other => panic!("unexpected {:?}", other),
    }
}

#[test]
fn unicode_character_classes_decide() {
    // Alphabetic beyond ASCII
    let mut l = Lexer::new("été x");
    assert_eq!(l.lex_identifier(), "été");
    // Numeric beyond ASCII
    let mut l = Lexer::new("\u{0663}\u{0664}+");
    assert_eq!(l.lex_num_lit(), "\u{0663}\u{0664}");
    assert_eq!(l.peek(), None);
    // Whitespace beyond ASCII
    let mut l = Lexer::new("\u{2003}\u{00A0}\n");
    assert!(l.main().is_ok());
    // A character of none of the classes stops an expression
    let mut l = Lexer::new("#");
    assert!(l.lex_expr().unwrap().is_empty());
    assert_eq!(l.peek(), Some('#'));
}

#[test]
fn whitespace_is_not_alphabetic_in_identifiers() {
    let mut l = Lexer::new("ab\tc");
    assert_eq!(l.lex_identifier(), "ab");
    assert_eq!(l.peek(), Some('c'));
}
