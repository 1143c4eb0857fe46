use vstd::prelude::*;
use crate::ast::{Expr, ExprM, Statement, StmtM};
use crate::eval::{EvalError, NativeCall, stack_view, conf, run_stmt, eval_expr, lookup, FUEL};
use crate::module::{Item, Module};
use crate::parse::{ParseError, Parser, agrees_value, advanced, expr_at, fail, p_expr, p_stmt, stmt_at, text_is, tok};
use crate::token::{TokM, Token, toks_view};
use crate::value::{Val, Value};

verus! {

/// One line of an interactive session.
#[derive(Debug, PartialEq)]
pub enum ReplLine {
    /// `show NAME`
    Show(String),
    /// `let NAME := EXPR`
    Var(String, Expr),
    /// `drop NAME`
    Drop(String),
    /// An item to register.
    Item(String, Item),
    /// A statement to run.
    Stmt(Statement),
}

pub enum ReplM {
    Show(Seq<char>),
    Var(Seq<char>, ExprM),
    Drop(Seq<char>),
    Stmt(StmtM),
}

/// The model of a line that the parser can produce.
pub open spec fn repl_view(l: ReplLine) -> Option<ReplM> {
    match l {
        ReplLine::Show(n) => Some(ReplM::Show(n@)),
        ReplLine::Var(n, e) => Some(ReplM::Var(n@, e@)),
        ReplLine::Drop(n) => Some(ReplM::Drop(n@)),
        ReplLine::Item(..) => None,
        ReplLine::Stmt(s) => Some(ReplM::Stmt(s@)),
    }
}

/// A session line: `let NAME := EXPR`, `drop NAME`, `show NAME`, or a
/// statement.
pub open spec fn p_repl(ts: Seq<TokM>, p: int) -> Result<(ReplM, int), ParseError> {
    match tok(ts, p) {
        None => fail("a line", p),
        Some(TokM::Let) => match tok(ts, p + 1) {
            Some(TokM::Ident(name)) => if tok(ts, p + 2) != Some(TokM::Assign) {
                fail("`:=` after variable name", p + 2)
            } else {
                match p_expr(ts, p + 3) {
                    Ok((e, q)) => Ok((ReplM::Var(name, e), q)),
                    Err(x) => Err(x),
                }
            },
            _ => fail("variable name after `let`", p + 1),
        },
        Some(TokM::Drop) => match tok(ts, p + 1) {
            Some(TokM::Ident(name)) => Ok((ReplM::Drop(name), p + 2)),
            _ => fail("variable name after `drop`", p + 1),
        },
        Some(TokM::Ident(w)) if w == "show"@ => match tok(ts, p + 1) {
            Some(TokM::Ident(name)) => Ok((ReplM::Show(name), p + 2)),
            _ => fail("variable name after `show`", p + 1),
        },
        _ => match p_stmt(ts, p) {
            Ok((s, q)) => Ok((ReplM::Stmt(s), q)),
            Err(x) => Err(x),
        },
    }
}

impl Parser {
    /// Parses one session line: `let`, `drop`, `show` or a statement. Item
    /// definitions are not parsed here: a line starting with `fn`, `proc` or
    /// `mod` is read as a statement and fails; items reach a session as
    /// `ReplLine::Item` values built by the host.
    pub fn parse_repl_line(&mut self) -> (r: Result<ReplLine, ParseError>)
        ensures
            final(self).tokens == old(self).tokens,
            agrees_value(r, p_repl(toks_view(old(self).tokens@), old(self).pos as int), |l: ReplLine| repl_view(l)->0),
            r matches Ok(l) ==> repl_view(l) is Some,
            advanced::<ReplLine, ReplM>(old(self).pos, final(self).pos, p_repl(toks_view(old(self).tokens@), old(self).pos as int)),
    {
        let ts = &self.tokens;
        let p = self.pos;
        if p >= ts.len() {
            return Err(ParseError { expected: "a line", at: p });
        }
        let (line, q) = match &ts[p] {
            Token::Let => {
                let name = if p + 1 < ts.len() {
                    match &ts[p + 1] {
                        Token::Ident(n) => n.clone(),
                        _ => { return Err(ParseError { expected: "variable name after `let`", at: p + 1 }); },
                    }
                } else {
                    return Err(ParseError { expected: "variable name after `let`", at: p + 1 });
                };
                let assign = p + 2 < ts.len() && match &ts[p + 2] {
                    Token::Assign => true,
                    _ => false,
                };
                if !assign {
                    return Err(ParseError { expected: "`:=` after variable name", at: p + 2 });
                }
                if p + 3 > ts.len() {
                    return Err(ParseError { expected: "valid literal value", at: p + 3 });
                }
                match expr_at(ts, p + 3) {
                    Ok((e, q)) => (ReplLine::Var(name, e), q),
                    Err(x) => { return Err(x); },
                }
            },
            Token::Drop => {
                if p + 1 < ts.len() {
                    match &ts[p + 1] {
                        Token::Ident(n) => (ReplLine::Drop(n.clone()), p + 2),
                        _ => { return Err(ParseError { expected: "variable name after `drop`", at: p + 1 }); },
                    }
                } else {
                    return Err(ParseError { expected: "variable name after `drop`", at: p + 1 });
                }
            },
            Token::Ident(w) if text_is(w, "show") => {
                if p + 1 < ts.len() {
                    match &ts[p + 1] {
                        Token::Ident(n) => (ReplLine::Show(n.clone()), p + 2),
                        _ => { return Err(ParseError { expected: "variable name after `show`", at: p + 1 }); },
                    }
                } else {
                    return Err(ParseError { expected: "variable name after `show`", at: p + 1 });
                }
            },
            _ => match stmt_at(ts, p) {
                Ok((s, q)) => (ReplLine::Stmt(s), q),
                Err(x) => { return Err(x); },
            },
        };
        self.pos = q;
        Ok(line)
    }
}

/// Why a session line failed.
#[derive(Debug, PartialEq)]
pub enum SessionError {
    /// `drop` named no live binding.
    Unbound,
    /// Evaluation failed.
    Eval(EvalError),
}

/// An interactive session: the live bindings and the registered items.
pub struct Scope {
    pub vars: Vec<(String, Value)>,
    pub items: Module,
}

pub open spec fn shown(r: Result<Option<Value>, SessionError>) -> Option<Option<Val>> {
    match r {
        Ok(Some(v)) => Some(Some(v@)),
        Ok(None) => Some(None),
        Err(_) => None,
    }
}

impl Scope {
    pub fn new() -> (r: Scope)
        ensures
            r.vars@.len() == 0,
            r.items@.len() == 0,
    {
        Scope { vars: Vec::new(), items: Module::new() }
    }

    /// Opens a binding on top of the stack.
    pub fn push(&mut self, name: String, val: Value)
        ensures
            stack_view(final(self).vars@) == stack_view(old(self).vars@).push((name@, val@)),
            final(self).items == old(self).items,
    {
        let ghost before = stack_view(self.vars@);
        let ghost b = (name@, val@);
        self.vars.push((name, val));
        assert(stack_view(self.vars@) =~= before.push(b));
    }

    /// Closes the top binding, which must be `name` holding `val`.
    pub fn pop(&mut self, name: String, val: Value)
        requires
            old(self).vars@.len() > 0,
            stack_view(old(self).vars@).last() == (name@, val@),
        ensures
            stack_view(final(self).vars@) == stack_view(old(self).vars@).drop_last(),
            final(self).items == old(self).items,
    {
        let ghost before = stack_view(self.vars@);
        self.vars.pop();
        assert(stack_view(self.vars@) =~= before.drop_last());
    }

    /// The value of the most recent binding named `name`.
    pub fn get(&self, name: &str) -> (r: Option<&Value>)
        ensures
            match r {
                Some(v) => lookup(stack_view(self.vars@), name@) matches Some(k) && stack_view(self.vars@)[k].1 == v@,
                None => lookup(stack_view(self.vars@), name@) is None,
            },
    {
        let ghost st = stack_view(self.vars@);
        let mut i: usize = self.vars.len();
        while i > 0
            invariant
                i <= self.vars@.len(),
                st == stack_view(self.vars@),
                lookup(st, name@) == crate::eval::last_binding(st, name@, i as int),
            decreases i,
        {
            if text_is(&self.vars[i - 1].0, name) {
                return Some(&self.vars[i - 1].1);
            }
            i -= 1;
        }
        None
    }

    /// Runs one session line. `show` gives the value to display (none for an
    /// unbound name), `drop` gives the value it removed; native calls of a
    /// statement go to `out`.
    pub fn eval_line(&mut self, line: ReplLine, out: &mut Vec<NativeCall>) -> (r: Result<Option<Value>, SessionError>)
        ensures
            match line {
                ReplLine::Show(n) => final(self).vars == old(self).vars && final(self).items == old(self).items
                    && final(out)@ == old(out)@ && shown(r) == match lookup(stack_view(old(self).vars@), n@) {
                        Some(k) => Some(Some(stack_view(old(self).vars@)[k].1)),
                        None => Some(None::<Val>),
                    },
                ReplLine::Var(n, e) => final(self).items == old(self).items && final(out)@ == old(out)@
                    && match eval_expr(e@, stack_view(old(self).vars@)) {
                        Ok(v) => r == Ok::<Option<Value>, SessionError>(None)
                            && stack_view(final(self).vars@) == stack_view(old(self).vars@).push((n@, v)),
                        Err(x) => r matches Err(SessionError::Eval(y)) && y@ == x
                            && final(self).vars == old(self).vars,
                    },
                ReplLine::Drop(n) => final(self).items == old(self).items && final(out)@ == old(out)@
                    && match lookup(stack_view(old(self).vars@), n@) {
                        Some(k) => shown(r) == Some(Some(stack_view(old(self).vars@)[k].1))
                            && stack_view(final(self).vars@) == stack_view(old(self).vars@).remove(k),
                        None => r == Err::<Option<Value>, SessionError>(SessionError::Unbound)
                            && final(self).vars == old(self).vars,
                    },
                ReplLine::Item(n, it) => final(self).vars == old(self).vars && final(out)@ == old(out)@
                    && r == Ok::<Option<Value>, SessionError>(None)
                    && final(self).items@ == crate::module::inserted(old(self).items@, n@, it@),
                ReplLine::Stmt(s) => final(self).items == old(self).items && {
                    let (c, x) = run_stmt(s@, conf(old(self).vars@, old(out)@), old(self).items@, FUEL as nat, true);
                    &&& c == conf(final(self).vars@, final(out)@)
                    &&& match x {
                        Ok(_) => r == Ok::<Option<Value>, SessionError>(None),
                        Err(e) => r matches Err(SessionError::Eval(y)) && y@ == e,
                    }
                },
            },
    {
        match line {
            ReplLine::Show(n) => match crate::eval::find_binding(&self.vars, &n) {
                Some(k) => Ok(Some(self.vars[k].1.deep_copy())),
                None => Ok(None),
            },
            ReplLine::Var(n, e) => match e.eval(&self.vars) {
                Ok(v) => {
                    self.push(n, v);
                    Ok(None)
                },
                Err(x) => Err(SessionError::Eval(x)),
            },
            ReplLine::Drop(n) => match crate::eval::find_binding(&self.vars, &n) {
                Some(k) => {
                    let ghost before = stack_view(self.vars@);
                    let (_, v) = self.vars.remove(k);
                    assert(stack_view(self.vars@) =~= before.remove(k as int));
                    Ok(Some(v))
                },
                None => Err(SessionError::Unbound),
            },
            ReplLine::Item(n, it) => {
                self.items.insert(n, it);
                Ok(None)
            },
            ReplLine::Stmt(s) => match s.eval(&mut self.vars, &self.items, out) {
                Ok(()) => Ok(None),
                Err(x) => Err(SessionError::Eval(x)),
            },
        }
    }
}

} // verus!
