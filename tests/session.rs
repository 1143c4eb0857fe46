use revlang::ast::{Expr, Literal, Statement};
use revlang::eval::{EvalError, NativeCall};
use revlang::module::{Item, Proc};
use revlang::parse::Parser;
use revlang::repl::{ReplLine, Scope, SessionError};
use revlang::token::Token;
use revlang::value::Value;

fn id(s: &str) -> Token {
    Token::Ident(s.to_string())
}

#[test]
fn session_lines_parse() {
    let mut p = Parser::new(vec![
        Token::Let, id("x"), Token::Assign, Token::Number("4".to_string()), Token::Newline,
    ]);
    assert_eq!(p.parse_repl_line(), Ok(ReplLine::Var("x".to_string(), Expr::Lit(Literal::Int(4)))));
    let mut p = Parser::new(vec![id("show"), id("x")]);
    assert_eq!(p.parse_repl_line(), Ok(ReplLine::Show("x".to_string())));
    let mut p = Parser::new(vec![Token::Drop, id("x")]);
    assert_eq!(p.parse_repl_line(), Ok(ReplLine::Drop("x".to_string())));
    let mut p = Parser::new(vec![Token::Skip]);
    assert_eq!(p.parse_repl_line(), Ok(ReplLine::Stmt(Statement::Skip)));
    let mut p = Parser::new(vec![Token::Let, Token::Comma]);
    assert_eq!(p.parse_repl_line().unwrap_err().expected, "variable name after `let`");
    let mut p = Parser::new(Vec::new());
    assert_eq!(p.parse_repl_line().unwrap_err().expected, "a line");
}

#[test]
fn session_runs_lines() {
    let mut s = Scope::new();
    let mut out: Vec<NativeCall> = Vec::new();
    assert_eq!(s.eval_line(ReplLine::Var("x".to_string(), Expr::Lit(Literal::Int(4))), &mut out), Ok(None));
    assert_eq!(s.get("x"), Some(&Value::Int(4)));
    let mut p = Parser::new(vec![id("x"), Token::AddAssign, Token::Number("3".to_string())]);
    let line = p.parse_repl_line().unwrap();
    assert_eq!(s.eval_line(line, &mut out), Ok(None));
    assert_eq!(s.eval_line(ReplLine::Show("x".to_string()), &mut out), Ok(Some(Value::Int(7))));
    assert_eq!(s.eval_line(ReplLine::Show("y".to_string()), &mut out), Ok(None));
    s.eval_line(
        ReplLine::Item("say".to_string(), Item::InternProc(Proc { routine: "say".to_string() }, Proc { routine: "unsay".to_string() })),
        &mut out,
    )
    .unwrap();
    let call = Statement::Do("say".to_string(), vec![Expr::Lit(Literal::Bool(true))]);
    assert_eq!(s.eval_line(ReplLine::Stmt(call), &mut out), Ok(None));
    assert_eq!(out, vec![NativeCall { routine: "say".to_string(), args: vec![Value::Bool(true)] }]);
    assert_eq!(s.eval_line(ReplLine::Drop("x".to_string()), &mut out), Ok(Some(Value::Int(7))));
    assert_eq!(s.get("x"), None);
    assert_eq!(s.eval_line(ReplLine::Drop("x".to_string()), &mut out), Err(SessionError::Unbound));
    let bad = Statement::Add(revlang::ast::LValue { id: "x".to_string(), ops: Vec::new() }, Expr::Lit(Literal::Int(1)));
    assert_eq!(s.eval_line(ReplLine::Stmt(bad), &mut out), Err(SessionError::Eval(EvalError::UnboundName("x".to_string()))));
}

#[test]
fn scope_push_pop_and_shadowing() {
    let mut s = Scope::new();
    s.push("a".to_string(), Value::Int(1));
    s.push("a".to_string(), Value::Int(2));
    assert_eq!(s.get("a"), Some(&Value::Int(2)));
    s.pop("a".to_string(), Value::Int(2));
    assert_eq!(s.get("a"), Some(&Value::Int(1)));
    assert_eq!(s.vars.len(), 1);
}
