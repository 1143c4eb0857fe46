use vstd::prelude::*;
use crate::ast::{
    Deref, DerefM, Expr, ExprM, LValue, LValueM, LitM, Literal, Statement, StmtM, Type, derefs_view,
    exprs_view, names_view, stmts_view,
};
use crate::eval::UpdateOp;
use crate::token::{TokM, Token, decimal, parse_decimal, toks_view};

verus! {

/// A parse failure: what was expected, and at which token.
#[derive(Debug, Clone, Copy, PartialEq, Eq)]
pub struct ParseError {
    pub expected: &'static str,
    pub at: usize,
}

pub open spec fn fail<T>(expected: &'static str, p: int) -> Result<T, ParseError> {
    Err(ParseError { expected, at: p as usize })
}

/// The token at position `p`, if any.
pub open spec fn tok(ts: Seq<TokM>, p: int) -> Option<TokM> {
    if 0 <= p < ts.len() {
        Some(ts[p])
    } else {
        None
    }
}

pub open spec fn is_tok(ts: Seq<TokM>, p: int, t: TokM) -> bool {
    tok(ts, p) == Some(t)
}

/// `p` if no newline stands there, else the position after it.
pub open spec fn skip_newline(ts: Seq<TokM>, p: int) -> int {
    if is_tok(ts, p, TokM::Newline) {
        p + 1
    } else {
        p
    }
}

pub open spec fn word_nil() -> Seq<char> {
    "nil"@
}

pub open spec fn word_true() -> Seq<char> {
    "true"@
}

pub open spec fn word_false() -> Seq<char> {
    "false"@
}

/// The type a type name denotes.
pub open spec fn type_named(x: Seq<char>) -> Option<Type> {
    if x == "unit"@ {
        Some(Type::Unit)
    } else if x == "bool"@ {
        Some(Type::Bool)
    } else if x == "int"@ {
        Some(Type::Int)
    } else if x == "uint"@ {
        Some(Type::UInt)
    } else if x == "char"@ {
        Some(Type::Char)
    } else if x == "string"@ {
        Some(Type::String)
    } else {
        None
    }
}

// The grammar, as functions of a token sequence and a position: each gives
// the model of what it read and the position after it, or the first failure.
// Where a nested parse would not have moved forward, a definition stops with
// "a token"; a successful parse always reads a token, so this never happens,
// and it keeps every definition well-founded.

/// An expression: a literal, or a left-value when an identifier other than
/// `nil`, `true` and `false` comes first.
pub open spec fn p_expr(ts: Seq<TokM>, p: int) -> Result<(ExprM, int), ParseError>
    decreases ts.len() - p, 3int,
{
    match tok(ts, p) {
        Some(TokM::Ident(x)) if x != word_nil() && x != word_true() && x != word_false() => match p_lval(ts, p) {
            Ok((lv, q)) => Ok((ExprM::LVal(lv), q)),
            Err(e) => Err(e),
        },
        _ => match p_lit(ts, p) {
            Ok((l, q)) => Ok((ExprM::Lit(l), q)),
            Err(e) => Err(e),
        },
    }
}

/// A literal value.
pub open spec fn p_lit(ts: Seq<TokM>, p: int) -> Result<(LitM, int), ParseError>
    decreases ts.len() - p, 2int,
{
    if p < 0 {
        fail("valid literal value", p)
    } else {
        match tok(ts, p) {
            Some(TokM::Ident(x)) => if x == word_nil() {
                Ok((LitM::Nil, p + 1))
            } else if x == word_true() {
                Ok((LitM::Bool(true), p + 1))
            } else if x == word_false() {
                Ok((LitM::Bool(false), p + 1))
            } else {
                fail("valid literal value", p)
            },
            Some(TokM::Number(n)) => match decimal(n) {
                Some(v) => Ok((LitM::Int(v), p + 1)),
                None => fail("a smaller number", p),
            },
            Some(TokM::Char(c)) => Ok((LitM::Char(c), p + 1)),
            Some(TokM::Str(s)) => Ok((LitM::Str(s), p + 1)),
            Some(TokM::LBracket) => match p_elems(ts, p + 1, Seq::empty()) {
                Ok((es, q)) => Ok((LitM::Array(es), q)),
                Err(e) => Err(e),
            },
            Some(TokM::Fn) => if !is_tok(ts, p + 1, TokM::LParen) {
                fail("`(` at start of function literal", p + 1)
            } else {
                match p_params(ts, p + 2, Seq::empty()) {
                    Err(e) => Err(e),
                    Ok((ps, q)) => if !is_tok(ts, q, TokM::Colon) {
                        fail("`:` after arguments in function literal", q)
                    } else if q < p {
                        fail("a token", q)
                    } else {
                        match p_expr(ts, q + 1) {
                            Ok((b, r)) => Ok((LitM::Fn(ps, Box::new(b)), r)),
                            Err(e) => Err(e),
                        }
                    },
                }
            },
            _ => fail("valid literal value", p),
        }
    }
}

/// The elements of an array literal from `q` through the closing `]`.
pub open spec fn p_elems(ts: Seq<TokM>, q: int, acc: Seq<ExprM>) -> Result<(Seq<ExprM>, int), ParseError>
    decreases ts.len() - q, 4int,
{
    match tok(ts, q) {
        None => fail("`,` or `]` after element in array literal", q),
        Some(TokM::RBracket) => Ok((acc, q + 1)),
        Some(_) => match p_expr(ts, q) {
            Err(e) => Err(e),
            Ok((e, r)) => if r <= q || r > ts.len() {
                fail("a token", r)
            } else {
                p_elems(ts, if is_tok(ts, r, TokM::Comma) { r + 1 } else { r }, acc.push(e))
            },
        },
    }
}

/// The parameter names of a function literal through the closing `)`.
pub open spec fn p_params(ts: Seq<TokM>, q: int, acc: Seq<Seq<char>>) -> Result<(Seq<Seq<char>>, int), ParseError>
    decreases ts.len() - q,
{
    match tok(ts, q) {
        Some(TokM::RParen) => Ok((acc, q + 1)),
        Some(TokM::Ident(id)) => p_params(ts, if is_tok(ts, q + 1, TokM::Comma) { q + 2 } else { q + 1 }, acc.push(id)),
        _ => fail("`,` or `)` after argument name in function literal", q),
    }
}

/// A left-value: a name, then `!`, `.name` and `.(expr)` steps.
pub open spec fn p_lval(ts: Seq<TokM>, p: int) -> Result<(LValueM, int), ParseError>
    decreases ts.len() - p, 2int,
{
    match tok(ts, p) {
        Some(TokM::Ident(id)) => match p_ops(ts, p + 1, Seq::empty()) {
            Ok((ops, q)) => Ok((LValueM { id, ops }, q)),
            Err(e) => Err(e),
        },
        _ => fail("variable name in left-value expression", p),
    }
}

pub open spec fn p_ops(ts: Seq<TokM>, q: int, acc: Seq<DerefM>) -> Result<(Seq<DerefM>, int), ParseError>
    decreases ts.len() - q, 4int,
{
    if q < 0 {
        Ok((acc, q))
    } else {
        match tok(ts, q) {
            Some(TokM::Bang) => p_ops(ts, q + 1, acc.push(DerefM::Direct)),
            Some(TokM::Period) => match tok(ts, q + 1) {
                Some(TokM::LParen) => match p_expr(ts, q + 2) {
                    Err(e) => Err(e),
                    Ok((e, r)) => if !is_tok(ts, r, TokM::RParen) {
                        fail("`)` after index expression", r)
                    } else if r < q {
                        fail("a token", r)
                    } else {
                        p_ops(ts, r + 1, acc.push(DerefM::Index(e)))
                    },
                },
                Some(TokM::Ident(f)) => p_ops(ts, q + 2, acc.push(DerefM::Field(f))),
                _ => fail("field name or `(`", q + 1),
            },
            _ => Ok((acc, q)),
        }
    }
}

/// What closes a block of statements.
#[derive(Debug, Clone, Copy, PartialEq, Eq, Structural)]
pub enum BlockEnd {
    /// `drop`, consumed.
    Drop,
    /// `until`, consumed.
    Until,
    /// `loop`, consumed.
    Loop,
    /// `else` or `fi`, left in place.
    ElseOrFi,
    /// `fi`, left in place; the block must not be empty.
    Fi,
}

pub open spec fn ends_block(end: BlockEnd, t: TokM) -> bool {
    match end {
        BlockEnd::Drop => t is Drop,
        BlockEnd::Until => t is Until,
        BlockEnd::Loop => t is Loop,
        BlockEnd::ElseOrFi => t is Else || t is Fi,
        BlockEnd::Fi => t is Fi,
    }
}

pub open spec fn block_missing(end: BlockEnd) -> &'static str {
    match end {
        BlockEnd::Drop => "a statement or `drop`",
        BlockEnd::Until => "a statement or `until`",
        BlockEnd::Loop => "a statement or `loop`",
        BlockEnd::ElseOrFi => "a statement, `else`, or `fi`",
        BlockEnd::Fi => "a statement or `fi`",
    }
}

/// Statements from `q` up to the token that closes the block.
pub open spec fn p_block(ts: Seq<TokM>, q: int, acc: Seq<StmtM>, end: BlockEnd) -> Result<(Seq<StmtM>, int), ParseError>
    decreases ts.len() - q, 7int,
{
    match tok(ts, q) {
        None => fail(block_missing(end), q),
        Some(t) => if ends_block(end, t) {
            match end {
                BlockEnd::ElseOrFi => Ok((acc, q)),
                BlockEnd::Fi => if acc.len() == 0 {
                    fail("else-block to have at least 1 statement", q)
                } else {
                    Ok((acc, q))
                },
                _ => Ok((acc, q + 1)),
            }
        } else {
            match p_stmt(ts, q) {
                Err(e) => Err(e),
                Ok((s, r)) => if r <= q || r > ts.len() {
                    fail("a token", r)
                } else {
                    p_block(ts, r, acc.push(s), end)
                },
            }
        },
    }
}

/// Further call arguments: `, expr` up to a newline or the end.
pub open spec fn p_args(ts: Seq<TokM>, q: int, acc: Seq<ExprM>) -> Result<(Seq<ExprM>, int), ParseError>
    decreases ts.len() - q, 4int,
{
    match tok(ts, q) {
        None => Ok((acc, q)),
        Some(TokM::Newline) => Ok((acc, q)),
        Some(TokM::Comma) => match p_expr(ts, q + 1) {
            Err(e) => Err(e),
            Ok((e, r)) => if r <= q || r > ts.len() {
                fail("a token", r)
            } else {
                p_args(ts, r, acc.push(e))
            },
        },
        _ => fail("`,` or newline", q),
    }
}

/// One statement, then an optional newline.
pub open spec fn p_stmt(ts: Seq<TokM>, p: int) -> Result<(StmtM, int), ParseError>
    decreases ts.len() - p, 6int,
{
    match p_core(ts, p) {
        Ok((s, q)) => Ok((s, skip_newline(ts, q))),
        Err(e) => Err(e),
    }
}

/// The call arguments after a procedure name at `q`.
pub open spec fn p_call_args(ts: Seq<TokM>, q: int) -> Result<(Seq<ExprM>, int), ParseError>
    decreases ts.len() - q, 5int,
{
    match tok(ts, q) {
        None => Ok((Seq::empty(), q)),
        Some(TokM::Newline) => Ok((Seq::empty(), q)),
        Some(TokM::Colon) => match p_expr(ts, q + 1) {
            Err(e) => Err(e),
            Ok((e, r)) => if r <= q || r > ts.len() {
                fail("a token", r)
            } else {
                p_args(ts, r, seq![e])
            },
        },
        _ => fail("`:`, or newline", q),
    }
}

/// The statement at `p`, without its trailing newline.
pub open spec fn p_core(ts: Seq<TokM>, p: int) -> Result<(StmtM, int), ParseError>
    decreases ts.len() - p, 5int,
{
    if p < 0 {
        fail("a statement", p)
    } else {
        match tok(ts, p) {
            None => fail("a statement", p),
            Some(TokM::Skip) => Ok((StmtM::Skip, p + 1)),
            Some(TokM::Do) => match tok(ts, p + 1) {
                Some(TokM::Ident(name)) => match p_call_args(ts, p + 2) {
                    Ok((args, q)) => Ok((StmtM::Do(name, args), q)),
                    Err(e) => Err(e),
                },
                _ => fail("procedure name after `do`", p + 1),
            },
            Some(TokM::Undo) => match tok(ts, p + 1) {
                Some(TokM::Ident(name)) => match p_call_args(ts, p + 2) {
                    Ok((args, q)) => Ok((StmtM::Undo(name, args), q)),
                    Err(e) => Err(e),
                },
                _ => fail("procedure name after `undo`", p + 1),
            },
            Some(TokM::From) => p_from(ts, p),
            Some(TokM::Var) => p_var(ts, p),
            Some(TokM::If) => p_if(ts, p),
            Some(_) => match p_lval(ts, p) {
                Err(_) => fail("a valid statement", p),
                Ok((lv, q)) => if q <= p || q > ts.len() {
                    fail("a token", q)
                } else {
                    match tok(ts, q) {
                        Some(TokM::Assign) => p_update(ts, q, lv, UpdateOp::Xor),
                        Some(TokM::AddAssign) => p_update(ts, q, lv, UpdateOp::Add),
                        Some(TokM::SubAssign) => p_update(ts, q, lv, UpdateOp::Sub),
                        Some(TokM::Rol) => p_update(ts, q, lv, UpdateOp::RotLeft),
                        Some(TokM::Ror) => p_update(ts, q, lv, UpdateOp::RotRight),
                        Some(TokM::Swap) => match p_lval(ts, q + 1) {
                            Ok((rv, r)) => Ok((StmtM::Swap(lv, rv), r)),
                            Err(e) => Err(e),
                        },
                        Some(_) => fail("`:=`, `+=`, `-=`, a rotation, or `<>`", q),
                        None => fail("modifying operator", q),
                    }
                },
            },
        }
    }
}

/// `lv op expr` with the operator at `q`.
pub open spec fn p_update(ts: Seq<TokM>, q: int, lv: LValueM, op: UpdateOp) -> Result<(StmtM, int), ParseError>
    decreases ts.len() - q, 4int,
{
    match p_expr(ts, q + 1) {
        Err(e) => Err(e),
        Ok((e, r)) => Ok((
            match op {
                UpdateOp::Xor => StmtM::Xor(lv, e),
                UpdateOp::Add => StmtM::Add(lv, e),
                UpdateOp::Sub => StmtM::Sub(lv, e),
                UpdateOp::RotLeft => StmtM::RotLeft(lv, e),
                UpdateOp::RotRight => StmtM::RotRight(lv, e),
            },
            r,
        )),
    }
}

/// `from A NEWLINE body until T NEWLINE body loop`.
pub open spec fn p_from(ts: Seq<TokM>, p: int) -> Result<(StmtM, int), ParseError>
    decreases ts.len() - p, 4int,
{
    match p_expr(ts, p + 1) {
        Err(e) => Err(e),
        Ok((a, q)) => if !is_tok(ts, q, TokM::Newline) {
            fail("newline after from expression", q)
        } else if q <= p {
            fail("a token", q)
        } else {
            match p_block(ts, q + 1, Seq::empty(), BlockEnd::Until) {
                Err(e) => Err(e),
                Ok((f, r)) => if r <= p {
                    fail("a token", r)
                } else {
                    match p_expr(ts, r) {
                        Err(e) => Err(e),
                        Ok((t, r2)) => if !is_tok(ts, r2, TokM::Newline) {
                            fail("newline after until expression", r2)
                        } else if r2 <= p {
                            fail("a token", r2)
                        } else {
                            match p_block(ts, r2 + 1, Seq::empty(), BlockEnd::Loop) {
                                Err(e) => Err(e),
                                Ok((b, r3)) => if f.len() == 0 && b.len() == 0 {
                                    fail("a non-empty do-block or back-block in from-loop", r3)
                                } else {
                                    Ok((StmtM::From(a, f, b, t), r3))
                                },
                            }
                        },
                    }
                },
            }
        },
    }
}

/// `var NAME [: TYPE] := EXPR NEWLINE body drop NAME := EXPR`.
pub open spec fn p_var(ts: Seq<TokM>, p: int) -> Result<(StmtM, int), ParseError>
    decreases ts.len() - p, 4int,
{
    match tok(ts, p + 1) {
        Some(TokM::Ident(name)) => {
            let (typ, q) = if is_tok(ts, p + 2, TokM::Colon) {
                match tok(ts, p + 3) {
                    Some(TokM::Ident(x)) => match type_named(x) {
                        Some(t) => (Ok(Some(t)), p + 4),
                        None => (fail("a type name", p + 3), p + 3),
                    },
                    _ => (fail("a type name", p + 3), p + 3),
                }
            } else {
                (Ok(None), p + 2)
            };
            match typ {
                Err(e) => Err(e),
                Ok(typ) => if !is_tok(ts, q, TokM::Assign) {
                    fail("`:=`", q)
                } else {
                    match p_expr(ts, q + 1) {
                        Err(e) => Err(e),
                        Ok((init, r)) => if !is_tok(ts, r, TokM::Newline) {
                            fail("newline after variable declaration", r)
                        } else if r <= p {
                            fail("a token", r)
                        } else {
                            match p_block(ts, r + 1, Seq::empty(), BlockEnd::Drop) {
                                Err(e) => Err(e),
                                Ok((body, r2)) => if !is_tok(ts, r2, TokM::Ident(name)) {
                                    fail("same variable name as before", r2)
                                } else if !is_tok(ts, r2 + 1, TokM::Assign) {
                                    fail("`:=`", r2 + 1)
                                } else if r2 <= p {
                                    fail("a token", r2)
                                } else {
                                    match p_expr(ts, r2 + 2) {
                                        Err(e) => Err(e),
                                        Ok((dest, r3)) => Ok((StmtM::Var(name, typ, init, body, dest), r3)),
                                    }
                                },
                            }
                        },
                    }
                },
            }
        },
        _ => fail("variable name", p + 1),
    }
}

/// Whether a token can start an expression: an identifier, a number, a
/// character, a string, `[` or `fn`.
pub open spec fn starts_expr(t: TokM) -> bool {
    t is Ident || t is Number || t is Char || t is Str || t is LBracket || t is Fn
}

/// `if C NEWLINE body [else (NEWLINE body | if-statement)] fi [A]`. The
/// assertion `A` is absent when no token follows `fi` or the next one cannot
/// start an expression (a newline, `fi`, `else`, `drop`, ...); then the
/// assertion is `C` itself. So a chained `else if ... fi` is closed by the
/// outer `fi` directly.
pub open spec fn p_if(ts: Seq<TokM>, p: int) -> Result<(StmtM, int), ParseError>
    decreases ts.len() - p, 4int,
{
    match p_expr(ts, p + 1) {
        Err(e) => Err(e),
        Ok((cond, q)) => if !is_tok(ts, q, TokM::Newline) {
            fail("newline after `if` predicate", q)
        } else if q <= p {
            fail("a token", q)
        } else {
            match p_block(ts, q + 1, Seq::empty(), BlockEnd::ElseOrFi) {
                Err(e) => Err(e),
                Ok((main, r)) => if r <= p {
                    fail("a token", r)
                } else {
                    let els: Result<(Seq<StmtM>, int), ParseError> = if !is_tok(ts, r, TokM::Else) {
                        Ok((Seq::empty(), r))
                    } else if is_tok(ts, r + 1, TokM::Newline) {
                        p_block(ts, r + 2, Seq::empty(), BlockEnd::Fi)
                    } else if is_tok(ts, r + 1, TokM::If) {
                        match p_stmt(ts, r + 1) {
                            Ok((s, r2)) => Ok((seq![s], r2)),
                            Err(e) => Err(e),
                        }
                    } else {
                        fail("chaining `if` or a newline", r + 1)
                    };
                    match els {
                        Err(e) => Err(e),
                        Ok((other, r2)) => if !is_tok(ts, r2, TokM::Fi) {
                            fail("`fi` to finish `if` statement", r2)
                        } else if r2 <= p {
                            fail("a token", r2)
                        } else if !(tok(ts, r2 + 1) matches Some(t) && starts_expr(t)) {
                            Ok((StmtM::If(cond, main, other, cond), r2 + 1))
                        } else {
                            match p_expr(ts, r2 + 1) {
                                Err(e) => Err(e),
                                Ok((assert, r3)) => Ok((StmtM::If(cond, main, other, assert), r3)),
                            }
                        },
                    }
                },
            }
        },
    }
}

// ---------------------------------------------------------------------------
// Progress: every successful parse reads a token and stays in the stream

pub open spec fn reads<A>(r: Result<(A, int), ParseError>, p: int, n: int) -> bool {
    r matches Ok((_, q)) ==> p < q <= n
}

pub open spec fn reads_some<A>(r: Result<(A, int), ParseError>, p: int, n: int) -> bool {
    r matches Ok((_, q)) ==> p <= q <= n
}

pub proof fn lemma_expr_reads(ts: Seq<TokM>, p: int)
    requires
        0 <= p,
    ensures
        reads(p_expr(ts, p), p, ts.len() as int),
    decreases ts.len() - p, 3int,
{
    lemma_lval_reads(ts, p);
    lemma_lit_reads(ts, p);
}

pub proof fn lemma_lit_reads(ts: Seq<TokM>, p: int)
    requires
        0 <= p,
    ensures
        reads(p_lit(ts, p), p, ts.len() as int),
    decreases ts.len() - p, 2int,
{
    match tok(ts, p) {
        Some(TokM::LBracket) => lemma_elems_reads(ts, p + 1, Seq::empty()),
        Some(TokM::Fn) => {
            if is_tok(ts, p + 1, TokM::LParen) {
                lemma_params_reads(ts, p + 2, Seq::empty());
                if let Ok((_, q)) = p_params(ts, p + 2, Seq::empty()) {
                    if is_tok(ts, q, TokM::Colon) && q >= p {
                        lemma_expr_reads(ts, q + 1);
                    }
                }
            }
        },
        _ => {},
    }
}

pub proof fn lemma_elems_reads(ts: Seq<TokM>, q: int, acc: Seq<ExprM>)
    requires
        0 <= q,
    ensures
        reads(p_elems(ts, q, acc), q, ts.len() as int),
    decreases ts.len() - q, 4int,
{
    if let Some(t) = tok(ts, q) {
        if !(t is RBracket) {
            lemma_expr_reads(ts, q);
            if let Ok((e, r)) = p_expr(ts, q) {
                if r > q && r <= ts.len() {
                    lemma_elems_reads(ts, if is_tok(ts, r, TokM::Comma) { r + 1 } else { r }, acc.push(e));
                }
            }
        }
    }
}

pub proof fn lemma_params_reads(ts: Seq<TokM>, q: int, acc: Seq<Seq<char>>)
    requires
        0 <= q,
    ensures
        reads(p_params(ts, q, acc), q, ts.len() as int),
    decreases ts.len() - q,
{
    if let Some(TokM::Ident(id)) = tok(ts, q) {
        lemma_params_reads(ts, if is_tok(ts, q + 1, TokM::Comma) { q + 2 } else { q + 1 }, acc.push(id));
    }
}

pub proof fn lemma_lval_reads(ts: Seq<TokM>, p: int)
    requires
        0 <= p,
    ensures
        reads(p_lval(ts, p), p, ts.len() as int),
    decreases ts.len() - p, 2int,
{
    if let Some(TokM::Ident(_)) = tok(ts, p) {
        lemma_ops_reads(ts, p + 1, Seq::empty());
    }
}

pub proof fn lemma_ops_reads(ts: Seq<TokM>, q: int, acc: Seq<DerefM>)
    requires
        0 <= q <= ts.len(),
    ensures
        reads_some(p_ops(ts, q, acc), q, ts.len() as int),
    decreases ts.len() - q, 4int,
{
    match tok(ts, q) {
        Some(TokM::Bang) => lemma_ops_reads(ts, q + 1, acc.push(DerefM::Direct)),
        Some(TokM::Period) => match tok(ts, q + 1) {
            Some(TokM::LParen) => {
                lemma_expr_reads(ts, q + 2);
                if let Ok((e, r)) = p_expr(ts, q + 2) {
                    if is_tok(ts, r, TokM::RParen) && r >= q {
                        lemma_ops_reads(ts, r + 1, acc.push(DerefM::Index(e)));
                    }
                }
            },
            Some(TokM::Ident(f)) => lemma_ops_reads(ts, q + 2, acc.push(DerefM::Field(f))),
            _ => {},
        },
        _ => {},
    }
}

pub proof fn lemma_block_reads(ts: Seq<TokM>, q: int, acc: Seq<StmtM>, end: BlockEnd)
    requires
        0 <= q,
    ensures
        reads_some(p_block(ts, q, acc, end), q, ts.len() as int),
    decreases ts.len() - q, 7int,
{
    if let Some(t) = tok(ts, q) {
        if !ends_block(end, t) {
            lemma_stmt_reads(ts, q);
            if let Ok((st, r)) = p_stmt(ts, q) {
                if r > q && r <= ts.len() {
                    lemma_block_reads(ts, r, acc.push(st), end);
                }
            }
        }
    }
}

pub proof fn lemma_args_reads(ts: Seq<TokM>, q: int, acc: Seq<ExprM>)
    requires
        0 <= q <= ts.len(),
    ensures
        reads_some(p_args(ts, q, acc), q, ts.len() as int),
    decreases ts.len() - q, 4int,
{
    if let Some(TokM::Comma) = tok(ts, q) {
        lemma_expr_reads(ts, q + 1);
        if let Ok((e, r)) = p_expr(ts, q + 1) {
            if r > q && r <= ts.len() {
                lemma_args_reads(ts, r, acc.push(e));
            }
        }
    }
}

pub proof fn lemma_stmt_reads(ts: Seq<TokM>, p: int)
    requires
        0 <= p,
    ensures
        reads(p_stmt(ts, p), p, ts.len() as int),
    decreases ts.len() - p, 6int,
{
    lemma_core_reads(ts, p);
}

pub proof fn lemma_call_args_reads(ts: Seq<TokM>, q: int)
    requires
        0 <= q <= ts.len(),
    ensures
        reads_some(p_call_args(ts, q), q, ts.len() as int),
    decreases ts.len() - q, 5int,
{
    if let Some(TokM::Colon) = tok(ts, q) {
        lemma_expr_reads(ts, q + 1);
        if let Ok((e, r)) = p_expr(ts, q + 1) {
            if r > q && r <= ts.len() {
                lemma_args_reads(ts, r, seq![e]);
            }
        }
    }
}

pub proof fn lemma_core_reads(ts: Seq<TokM>, p: int)
    requires
        0 <= p,
    ensures
        reads(p_core(ts, p), p, ts.len() as int),
    decreases ts.len() - p, 5int,
{
    match tok(ts, p) {
        Some(TokM::Do) | Some(TokM::Undo) => {
            if let Some(TokM::Ident(_)) = tok(ts, p + 1) {
                lemma_call_args_reads(ts, p + 2);
            }
        },
        Some(TokM::From) => lemma_from_reads(ts, p),
        Some(TokM::Var) => lemma_var_reads(ts, p),
        Some(TokM::If) => lemma_if_reads(ts, p),
        Some(_) => {
            lemma_lval_reads(ts, p);
            if let Ok((lv, q)) = p_lval(ts, p) {
                if q > p && q <= ts.len() {
                    lemma_expr_reads(ts, q + 1);
                    lemma_lval_reads(ts, q + 1);
                }
            }
        },
        None => {},
    }
}

pub proof fn lemma_from_reads(ts: Seq<TokM>, p: int)
    requires
        0 <= p,
    ensures
        reads(p_from(ts, p), p, ts.len() as int),
    decreases ts.len() - p, 4int,
{
    lemma_expr_reads(ts, p + 1);
    if let Ok((_, q)) = p_expr(ts, p + 1) {
        if is_tok(ts, q, TokM::Newline) && q > p {
            lemma_block_reads(ts, q + 1, Seq::empty(), BlockEnd::Until);
            if let Ok((_, r)) = p_block(ts, q + 1, Seq::empty(), BlockEnd::Until) {
                if r > p {
                    lemma_expr_reads(ts, r);
                    if let Ok((_, r2)) = p_expr(ts, r) {
                        if is_tok(ts, r2, TokM::Newline) && r2 > p {
                            lemma_block_reads(ts, r2 + 1, Seq::empty(), BlockEnd::Loop);
                        }
                    }
                }
            }
        }
    }
}

pub proof fn lemma_var_reads(ts: Seq<TokM>, p: int)
    requires
        0 <= p,
    ensures
        reads(p_var(ts, p), p, ts.len() as int),
    decreases ts.len() - p, 4int,
{
    if let Some(TokM::Ident(name)) = tok(ts, p + 1) {
        let q = if is_tok(ts, p + 2, TokM::Colon) { p + 4 } else { p + 2 };
        lemma_expr_reads(ts, q + 1);
        if let Ok((_, r)) = p_expr(ts, q + 1) {
            if is_tok(ts, r, TokM::Newline) && r > p {
                lemma_block_reads(ts, r + 1, Seq::empty(), BlockEnd::Drop);
                if let Ok((_, r2)) = p_block(ts, r + 1, Seq::empty(), BlockEnd::Drop) {
                    if r2 > p {
                        lemma_expr_reads(ts, r2 + 2);
                    }
                }
            }
        }
    }
}

pub proof fn lemma_if_reads(ts: Seq<TokM>, p: int)
    requires
        0 <= p,
    ensures
        reads(p_if(ts, p), p, ts.len() as int),
    decreases ts.len() - p, 4int,
{
    lemma_expr_reads(ts, p + 1);
    if let Ok((_, q)) = p_expr(ts, p + 1) {
        if is_tok(ts, q, TokM::Newline) && q > p {
            lemma_block_reads(ts, q + 1, Seq::empty(), BlockEnd::ElseOrFi);
            if let Ok((_, r)) = p_block(ts, q + 1, Seq::empty(), BlockEnd::ElseOrFi) {
                if r > p {
                    if is_tok(ts, r + 1, TokM::Newline) {
                        lemma_block_reads(ts, r + 2, Seq::empty(), BlockEnd::Fi);
                    }
                    if is_tok(ts, r + 1, TokM::If) {
                        lemma_stmt_reads(ts, r + 1);
                    }
                    let els: Result<(Seq<StmtM>, int), ParseError> = if !is_tok(ts, r, TokM::Else) {
                        Ok((Seq::empty(), r))
                    } else if is_tok(ts, r + 1, TokM::Newline) {
                        p_block(ts, r + 2, Seq::empty(), BlockEnd::Fi)
                    } else if is_tok(ts, r + 1, TokM::If) {
                        match p_stmt(ts, r + 1) {
                            Ok((s, r2)) => Ok((seq![s], r2)),
                            Err(e) => Err(e),
                        }
                    } else {
                        fail("chaining `if` or a newline", r + 1)
                    };
                    if let Ok((_, r2)) = els {
                        if is_tok(ts, r2, TokM::Fi) && r2 > p {
                            lemma_expr_reads(ts, r2 + 1);
                        }
                    }
                }
            }
        }
    }
}

// ---------------------------------------------------------------------------
// The executable parser

/// An executable parse result agrees with the model's: the same value (under
/// `f`) and position, or the same error.
pub open spec fn agrees<A, B>(r: Result<(A, usize), ParseError>, m: Result<(B, int), ParseError>, f: spec_fn(A) -> B) -> bool {
    match (r, m) {
        (Ok((a, q)), Ok((b, qm))) => f(a) == b && q as int == qm,
        (Err(e), Err(em)) => e == em,
        _ => false,
    }
}

pub open spec fn within<A>(r: Result<(A, usize), ParseError>, n: int) -> bool {
    r matches Ok((_, q)) ==> q <= n
}

fn err<A>(expected: &'static str, at: usize) -> (r: Result<A, ParseError>)
    ensures
        r == fail::<A>(expected, at as int),
{
    Err(ParseError { expected, at })
}

fn tok_at(ts: &Vec<Token>, p: usize) -> (r: Option<&Token>)
    ensures
        ts@.len() <= usize::MAX,
        match r {
            Some(t) => p < ts@.len() && tok(toks_view(ts@), p as int) == Some(t@) && *t == ts@[p as int],
            None => tok(toks_view(ts@), p as int) == None::<TokM>,
        },
{
    if p < ts.len() {
        Some(&ts[p])
    } else {
        None
    }
}

fn is_newline(ts: &Vec<Token>, p: usize) -> (r: bool)
    ensures
        ts@.len() <= usize::MAX,
        r == is_tok(toks_view(ts@), p as int, TokM::Newline),
{
    match tok_at(ts, p) {
        Some(Token::Newline) => true,
        _ => false,
    }
}

fn is_comma(ts: &Vec<Token>, p: usize) -> (r: bool)
    ensures
        ts@.len() <= usize::MAX,
        r == is_tok(toks_view(ts@), p as int, TokM::Comma),
{
    match tok_at(ts, p) {
        Some(Token::Comma) => true,
        _ => false,
    }
}

fn is_assign(ts: &Vec<Token>, p: usize) -> (r: bool)
    ensures
        ts@.len() <= usize::MAX,
        r == is_tok(toks_view(ts@), p as int, TokM::Assign),
{
    match tok_at(ts, p) {
        Some(Token::Assign) => true,
        _ => false,
    }
}

/// Whether a string is the given word.
pub fn text_is(s: &String, w: &str) -> (r: bool)
    ensures
        r == (s@ == w@),
{
    let a = s.as_str();
    let n = a.unicode_len();
    if n != w.unicode_len() {
        return false;
    }
    let mut i: usize = 0;
    while i < n
        invariant
            n == s@.len(),
            n == w@.len(),
            a@ == s@,
            i <= n,
            forall|k: int| 0 <= k < i ==> s@[k] == w@[k],
        decreases n - i,
    {
        if a.get_char(i) != w.get_char(i) {
            return false;
        }
        i += 1;
    }
    assert(s@ =~= w@);
    true
}

fn type_of_name(x: &String) -> (r: Option<Type>)
    ensures
        r == type_named(x@),
{
    if text_is(x, "unit") {
        Some(Type::Unit)
    } else if text_is(x, "bool") {
        Some(Type::Bool)
    } else if text_is(x, "int") {
        Some(Type::Int)
    } else if text_is(x, "uint") {
        Some(Type::UInt)
    } else if text_is(x, "char") {
        Some(Type::Char)
    } else if text_is(x, "string") {
        Some(Type::String)
    } else {
        None
    }
}

/// Parses an expression at `p`.
pub fn expr_at(ts: &Vec<Token>, p: usize) -> (r: Result<(Expr, usize), ParseError>)
    requires
        p <= ts@.len(),
    ensures
        agrees(r, p_expr(toks_view(ts@), p as int), |e: Expr| e@),
        within(r, ts@.len() as int),
    decreases ts@.len() - p, 3int,
{
    let is_name = match tok_at(ts, p) {
        Some(Token::Ident(x)) => !text_is(x, "nil") && !text_is(x, "true") && !text_is(x, "false"),
        _ => false,
    };
    if is_name {
        match lval_at(ts, p) {
            Ok((lv, q)) => Ok((Expr::LVal(lv), q)),
            Err(e) => Err(e),
        }
    } else {
        match lit_at(ts, p) {
            Ok((l, q)) => Ok((Expr::Lit(l), q)),
            Err(e) => Err(e),
        }
    }
}

/// Parses a literal at `p`.
pub fn lit_at(ts: &Vec<Token>, p: usize) -> (r: Result<(Literal, usize), ParseError>)
    requires
        p <= ts@.len(),
    ensures
        agrees(r, p_lit(toks_view(ts@), p as int), |l: Literal| l@),
        within(r, ts@.len() as int),
    decreases ts@.len() - p, 2int,
{
    match tok_at(ts, p) {
        Some(Token::Ident(x)) => {
            if text_is(x, "nil") {
                Ok((Literal::Nil, p + 1))
            } else if text_is(x, "true") {
                Ok((Literal::Bool(true), p + 1))
            } else if text_is(x, "false") {
                Ok((Literal::Bool(false), p + 1))
            } else {
                err("valid literal value", p)
            }
        },
        Some(Token::Number(n)) => match parse_decimal(n) {
            Some(v) => Ok((Literal::Int(v), p + 1)),
            None => err("a smaller number", p),
        },
        Some(Token::Char(c)) => Ok((Literal::Char(*c), p + 1)),
        Some(Token::Str(st)) => Ok((Literal::String(st.clone()), p + 1)),
        Some(Token::LBracket) => match elems_at(ts, p + 1) {
            Ok((es, q)) => Ok((Literal::Array(es), q)),
            Err(e) => Err(e),
        },
        Some(Token::Fn) => {
            match tok_at(ts, p + 1) {
                Some(Token::LParen) => {},
                _ => { return err("`(` at start of function literal", p + 1); },
            }
            match params_at(ts, p + 2) {
                Err(e) => Err(e),
                Ok((ps, q)) => {
                    match tok_at(ts, q) {
                        Some(Token::Colon) => {},
                        _ => { return err("`:` after arguments in function literal", q); },
                    }
                    if q < p {
                        return err("a token", q);
                    }
                    match expr_at(ts, q + 1) {
                        Ok((b, r)) => Ok((Literal::Fn(ps, Box::new(b)), r)),
                        Err(e) => Err(e),
                    }
                },
            }
        },
        _ => err("valid literal value", p),
    }
}

/// Parses array elements from `q` through the closing `]`.
pub fn elems_at(ts: &Vec<Token>, q: usize) -> (r: Result<(Vec<Expr>, usize), ParseError>)
    requires
        q <= ts@.len(),
    ensures
        agrees(r, p_elems(toks_view(ts@), q as int, Seq::empty()), |v: Vec<Expr>| exprs_view(v@)),
        within(r, ts@.len() as int),
    decreases ts@.len() - q, 4int,
{
    let ghost tv = toks_view(ts@);
    let mut acc: Vec<Expr> = Vec::new();
    let mut i: usize = q;
    assert(exprs_view(acc@) =~= Seq::<ExprM>::empty());
    loop
        invariant
            q <= i <= ts@.len(),
            tv == toks_view(ts@),
            p_elems(tv, q as int, Seq::empty()) == p_elems(tv, i as int, exprs_view(acc@)),
        decreases ts@.len() - i,
    {
        match tok_at(ts, i) {
            None => { return err("`,` or `]` after element in array literal", i); },
            Some(Token::RBracket) => { return Ok((acc, i + 1)); },
            Some(_) => {},
        }
        match expr_at(ts, i) {
            Err(e) => { return Err(e); },
            Ok((e, r)) => {
                if r <= i {
                    return err("a token", r);
                }
                let ghost before = exprs_view(acc@);
                let ghost ev = e@;
                acc.push(e);
                assert(exprs_view(acc@) =~= before.push(ev));
                i = if is_comma(ts, r) { r + 1 } else { r };
            },
        }
    }
}

/// Parses parameter names from `q` through the closing `)`.
pub fn params_at(ts: &Vec<Token>, q: usize) -> (r: Result<(Vec<String>, usize), ParseError>)
    requires
        q <= ts@.len(),
    ensures
        agrees(r, p_params(toks_view(ts@), q as int, Seq::empty()), |v: Vec<String>| names_view(v@)),
        within(r, ts@.len() as int),
{
    let ghost tv = toks_view(ts@);
    let mut acc: Vec<String> = Vec::new();
    let mut i: usize = q;
    assert(names_view(acc@) =~= Seq::<Seq<char>>::empty());
    loop
        invariant
            q <= i <= ts@.len(),
            tv == toks_view(ts@),
            p_params(tv, q as int, Seq::empty()) == p_params(tv, i as int, names_view(acc@)),
        decreases ts@.len() - i,
    {
        match tok_at(ts, i) {
            Some(Token::RParen) => { return Ok((acc, i + 1)); },
            Some(Token::Ident(id)) => {
                let ghost before = names_view(acc@);
                acc.push(id.clone());
                assert(names_view(acc@) =~= before.push(id@));
                i = if is_comma(ts, i + 1) { i + 2 } else { i + 1 };
            },
            _ => { return err("`,` or `)` after argument name in function literal", i); },
        }
    }
}

/// Parses a left-value at `p`.
pub fn lval_at(ts: &Vec<Token>, p: usize) -> (r: Result<(LValue, usize), ParseError>)
    requires
        p <= ts@.len(),
    ensures
        agrees(r, p_lval(toks_view(ts@), p as int), |l: LValue| l@),
        within(r, ts@.len() as int),
    decreases ts@.len() - p, 2int,
{
    match tok_at(ts, p) {
        Some(Token::Ident(id)) => match ops_at(ts, p + 1) {
            Ok((ops, q)) => Ok((LValue { id: id.clone(), ops }, q)),
            Err(e) => Err(e),
        },
        _ => err("variable name in left-value expression", p),
    }
}

/// Parses projection steps from `q`.
pub fn ops_at(ts: &Vec<Token>, q: usize) -> (r: Result<(Vec<Deref>, usize), ParseError>)
    requires
        q <= ts@.len(),
    ensures
        agrees(r, p_ops(toks_view(ts@), q as int, Seq::empty()), |v: Vec<Deref>| derefs_view(v@)),
        within(r, ts@.len() as int),
    decreases ts@.len() - q, 4int,
{
    let ghost tv = toks_view(ts@);
    let mut acc: Vec<Deref> = Vec::new();
    let mut i: usize = q;
    assert(derefs_view(acc@) =~= Seq::<DerefM>::empty());
    loop
        invariant
            q <= i <= ts@.len(),
            tv == toks_view(ts@),
            p_ops(tv, q as int, Seq::empty()) == p_ops(tv, i as int, derefs_view(acc@)),
        decreases ts@.len() - i,
    {
        let ghost before = derefs_view(acc@);
        match tok_at(ts, i) {
            Some(Token::Bang) => {
                acc.push(Deref::Direct);
                assert(derefs_view(acc@) =~= before.push(DerefM::Direct));
                i = i + 1;
            },
            Some(Token::Period) => {
                match tok_at(ts, i + 1) {
                    Some(Token::LParen) => {
                        match expr_at(ts, i + 2) {
                            Err(e) => { return Err(e); },
                            Ok((e, r)) => {
                                match tok_at(ts, r) {
                                    Some(Token::RParen) => {},
                                    _ => { return err("`)` after index expression", r); },
                                }
                                if r < i {
                                    return err("a token", r);
                                }
                                let ghost ev = e@;
                                acc.push(Deref::Index(e));
                                assert(derefs_view(acc@) =~= before.push(DerefM::Index(ev)));
                                i = r + 1;
                            },
                        }
                    },
                    Some(Token::Ident(f)) => {
                        acc.push(Deref::Field(f.clone()));
                        assert(derefs_view(acc@) =~= before.push(DerefM::Field(f@)));
                        i = i + 2;
                    },
                    _ => { return err("field name or `(`", i + 1); },
                }
            },
            _ => { return Ok((acc, i)); },
        }
    }
}

fn ends_block_at(ts: &Vec<Token>, q: usize, end: BlockEnd) -> (r: bool)
    requires
        q < ts@.len(),
    ensures
        r == ends_block(end, toks_view(ts@)[q as int]),
{
    match (end, &ts[q]) {
        (BlockEnd::Drop, Token::Drop) => true,
        (BlockEnd::Until, Token::Until) => true,
        (BlockEnd::Loop, Token::Loop) => true,
        (BlockEnd::ElseOrFi, Token::Else) => true,
        (BlockEnd::ElseOrFi, Token::Fi) => true,
        (BlockEnd::Fi, Token::Fi) => true,
        _ => false,
    }
}

fn block_missing_msg(end: BlockEnd) -> (r: &'static str)
    ensures
        r == block_missing(end),
{
    match end {
        BlockEnd::Drop => "a statement or `drop`",
        BlockEnd::Until => "a statement or `until`",
        BlockEnd::Loop => "a statement or `loop`",
        BlockEnd::ElseOrFi => "a statement, `else`, or `fi`",
        BlockEnd::Fi => "a statement or `fi`",
    }
}

/// Parses statements from `q` up to the token that closes the block.
pub fn block_at(ts: &Vec<Token>, q: usize, end: BlockEnd) -> (r: Result<(Vec<Statement>, usize), ParseError>)
    requires
        q <= ts@.len(),
    ensures
        agrees(r, p_block(toks_view(ts@), q as int, Seq::empty(), end), |v: Vec<Statement>| stmts_view(v@)),
        within(r, ts@.len() as int),
    decreases ts@.len() - q, 7int,
{
    let ghost tv = toks_view(ts@);
    let mut acc: Vec<Statement> = Vec::new();
    let mut i: usize = q;
    assert(stmts_view(acc@) =~= Seq::<StmtM>::empty());
    loop
        invariant
            q <= i <= ts@.len(),
            tv == toks_view(ts@),
            p_block(tv, q as int, Seq::empty(), end) == p_block(tv, i as int, stmts_view(acc@), end),
        decreases ts@.len() - i,
    {
        if i >= ts.len() {
            return err(block_missing_msg(end), i);
        }
        if ends_block_at(ts, i, end) {
            return match end {
                BlockEnd::ElseOrFi => Ok((acc, i)),
                BlockEnd::Fi => if acc.len() == 0 {
                    err("else-block to have at least 1 statement", i)
                } else {
                    Ok((acc, i))
                },
                _ => Ok((acc, i + 1)),
            };
        }
        match stmt_at(ts, i) {
            Err(e) => { return Err(e); },
            Ok((st, r)) => {
                if r <= i {
                    return err("a token", r);
                }
                let ghost before = stmts_view(acc@);
                let ghost sv = st@;
                acc.push(st);
                assert(stmts_view(acc@) =~= before.push(sv));
                i = r;
            },
        }
    }
}

/// Parses further call arguments from `q`.
pub fn args_at(ts: &Vec<Token>, q: usize, first: Expr) -> (r: Result<(Vec<Expr>, usize), ParseError>)
    requires
        q <= ts@.len(),
    ensures
        agrees(r, p_args(toks_view(ts@), q as int, seq![first@]), |v: Vec<Expr>| exprs_view(v@)),
        within(r, ts@.len() as int),
    decreases ts@.len() - q, 4int,
{
    let ghost tv = toks_view(ts@);
    let ghost fv = first@;
    let mut acc: Vec<Expr> = Vec::new();
    acc.push(first);
    let mut i: usize = q;
    assert(exprs_view(acc@) =~= seq![fv]);
    loop
        invariant
            q <= i <= ts@.len(),
            tv == toks_view(ts@),
            fv == first@,
            p_args(tv, q as int, seq![fv]) == p_args(tv, i as int, exprs_view(acc@)),
        decreases ts@.len() - i,
    {
        match tok_at(ts, i) {
            None => { return Ok((acc, i)); },
            Some(Token::Newline) => { return Ok((acc, i)); },
            Some(Token::Comma) => {},
            _ => { return err("`,` or newline", i); },
        }
        match expr_at(ts, i + 1) {
            Err(e) => { return Err(e); },
            Ok((e, r)) => {
                if r <= i {
                    return err("a token", r);
                }
                let ghost before = exprs_view(acc@);
                let ghost ev = e@;
                acc.push(e);
                assert(exprs_view(acc@) =~= before.push(ev));
                i = r;
            },
        }
    }
}

/// Parses a statement at `p` and the newline after it, if any.
pub fn stmt_at(ts: &Vec<Token>, p: usize) -> (r: Result<(Statement, usize), ParseError>)
    requires
        p <= ts@.len(),
    ensures
        agrees(r, p_stmt(toks_view(ts@), p as int), |s: Statement| s@),
        within(r, ts@.len() as int),
    decreases ts@.len() - p, 6int,
{
    match core_at(ts, p) {
        Ok((s, q)) => Ok((s, if is_newline(ts, q) { q + 1 } else { q })),
        Err(e) => Err(e),
    }
}

/// Parses call arguments after a procedure name at `q`.
pub fn call_args_at(ts: &Vec<Token>, q: usize) -> (r: Result<(Vec<Expr>, usize), ParseError>)
    requires
        q <= ts@.len(),
    ensures
        agrees(r, p_call_args(toks_view(ts@), q as int), |v: Vec<Expr>| exprs_view(v@)),
        within(r, ts@.len() as int),
    decreases ts@.len() - q, 5int,
{
    match tok_at(ts, q) {
        None => {
            let v: Vec<Expr> = Vec::new();
            assert(exprs_view(v@) =~= Seq::<ExprM>::empty());
            Ok((v, q))
        },
        Some(Token::Newline) => {
            let v: Vec<Expr> = Vec::new();
            assert(exprs_view(v@) =~= Seq::<ExprM>::empty());
            Ok((v, q))
        },
        Some(Token::Colon) => match expr_at(ts, q + 1) {
            Err(e) => Err(e),
            Ok((e, r)) => if r <= q {
                err("a token", r)
            } else {
                args_at(ts, r, e)
            },
        },
        _ => err("`:`, or newline", q),
    }
}

/// Parses the statement at `p`, without its trailing newline.
pub fn core_at(ts: &Vec<Token>, p: usize) -> (r: Result<(Statement, usize), ParseError>)
    requires
        p <= ts@.len(),
    ensures
        agrees(r, p_core(toks_view(ts@), p as int), |s: Statement| s@),
        within(r, ts@.len() as int),
    decreases ts@.len() - p, 5int,
{
    match tok_at(ts, p) {
        None => err("a statement", p),
        Some(Token::Skip) => Ok((Statement::Skip, p + 1)),
        Some(Token::Do) => match tok_at(ts, p + 1) {
            Some(Token::Ident(name)) => match call_args_at(ts, p + 2) {
                Ok((args, q)) => Ok((Statement::Do(name.clone(), args), q)),
                Err(e) => Err(e),
            },
            _ => err("procedure name after `do`", p + 1),
        },
        Some(Token::Undo) => match tok_at(ts, p + 1) {
            Some(Token::Ident(name)) => match call_args_at(ts, p + 2) {
                Ok((args, q)) => Ok((Statement::Undo(name.clone(), args), q)),
                Err(e) => Err(e),
            },
            _ => err("procedure name after `undo`", p + 1),
        },
        Some(Token::From) => from_at(ts, p),
        Some(Token::Var) => var_at(ts, p),
        Some(Token::If) => if_at(ts, p),
        Some(_) => match lval_at(ts, p) {
            Err(_) => err("a valid statement", p),
            Ok((lv, q)) => {
                if q <= p {
                    return err("a token", q);
                }
                match tok_at(ts, q) {
                    Some(Token::Assign) => update_at(ts, q, lv, UpdateOp::Xor),
                    Some(Token::AddAssign) => update_at(ts, q, lv, UpdateOp::Add),
                    Some(Token::SubAssign) => update_at(ts, q, lv, UpdateOp::Sub),
                    Some(Token::Rol) => update_at(ts, q, lv, UpdateOp::RotLeft),
                    Some(Token::Ror) => update_at(ts, q, lv, UpdateOp::RotRight),
                    Some(Token::Swap) => match lval_at(ts, q + 1) {
                        Ok((rv, r)) => Ok((Statement::Swap(lv, rv), r)),
                        Err(e) => Err(e),
                    },
                    Some(_) => err("`:=`, `+=`, `-=`, a rotation, or `<>`", q),
                    None => err("modifying operator", q),
                }
            },
        },
    }
}

fn update_at(ts: &Vec<Token>, q: usize, lv: LValue, op: UpdateOp) -> (r: Result<(Statement, usize), ParseError>)
    requires
        ts@.len() <= usize::MAX,
        q < ts@.len(),
    ensures
        agrees(r, p_update(toks_view(ts@), q as int, lv@, op), |s: Statement| s@),
        within(r, ts@.len() as int),
    decreases ts@.len() - q, 4int,
{
    match expr_at(ts, q + 1) {
        Err(e) => Err(e),
        Ok((e, r)) => Ok((
            match op {
                UpdateOp::Xor => Statement::Xor(lv, e),
                UpdateOp::Add => Statement::Add(lv, e),
                UpdateOp::Sub => Statement::Sub(lv, e),
                UpdateOp::RotLeft => Statement::RotLeft(lv, e),
                UpdateOp::RotRight => Statement::RotRight(lv, e),
            },
            r,
        )),
    }
}

fn from_at(ts: &Vec<Token>, p: usize) -> (r: Result<(Statement, usize), ParseError>)
    requires
        ts@.len() <= usize::MAX,
        p < ts@.len(),
    ensures
        agrees(r, p_from(toks_view(ts@), p as int), |s: Statement| s@),
        within(r, ts@.len() as int),
    decreases ts@.len() - p, 4int,
{
    let (a, q) = match expr_at(ts, p + 1) {
        Err(e) => { return Err(e); },
        Ok(x) => x,
    };
    if !is_newline(ts, q) {
        return err("newline after from expression", q);
    }
    if q <= p {
        return err("a token", q);
    }
    let (f, r) = match block_at(ts, q + 1, BlockEnd::Until) {
        Err(e) => { return Err(e); },
        Ok(x) => x,
    };
    if r <= p {
        return err("a token", r);
    }
    let (t, r2) = match expr_at(ts, r) {
        Err(e) => { return Err(e); },
        Ok(x) => x,
    };
    if !is_newline(ts, r2) {
        return err("newline after until expression", r2);
    }
    if r2 <= p {
        return err("a token", r2);
    }
    let (b, r3) = match block_at(ts, r2 + 1, BlockEnd::Loop) {
        Err(e) => { return Err(e); },
        Ok(x) => x,
    };
    if f.len() == 0 && b.len() == 0 {
        return err("a non-empty do-block or back-block in from-loop", r3);
    }
    Ok((Statement::From(a, f, b, t), r3))
}

fn var_at(ts: &Vec<Token>, p: usize) -> (r: Result<(Statement, usize), ParseError>)
    requires
        ts@.len() <= usize::MAX,
        p < ts@.len(),
    ensures
        agrees(r, p_var(toks_view(ts@), p as int), |s: Statement| s@),
        within(r, ts@.len() as int),
    decreases ts@.len() - p, 4int,
{
    let name = match tok_at(ts, p + 1) {
        Some(Token::Ident(name)) => name,
        _ => { return err("variable name", p + 1); },
    };
    let mut typ: Option<Type> = None;
    let mut q = p + 2;
    match tok_at(ts, p + 2) {
        Some(Token::Colon) => {
            match tok_at(ts, p + 3) {
                Some(Token::Ident(x)) => match type_of_name(x) {
                    Some(t) => {
                        typ = Some(t);
                        q = p + 4;
                    },
                    None => { return err("a type name", p + 3); },
                },
                _ => { return err("a type name", p + 3); },
            }
        },
        _ => {},
    }
    if !is_assign(ts, q) {
        return err("`:=`", q);
    }
    let (init, r) = match expr_at(ts, q + 1) {
        Err(e) => { return Err(e); },
        Ok(x) => x,
    };
    if !is_newline(ts, r) {
        return err("newline after variable declaration", r);
    }
    if r <= p {
        return err("a token", r);
    }
    let (body, r2) = match block_at(ts, r + 1, BlockEnd::Drop) {
        Err(e) => { return Err(e); },
        Ok(x) => x,
    };
    let same = match tok_at(ts, r2) {
        Some(Token::Ident(n)) => *n == *name,
        _ => false,
    };
    if !same {
        return err("same variable name as before", r2);
    }
    if !is_assign(ts, r2 + 1) {
        return err("`:=`", r2 + 1);
    }
    if r2 <= p {
        return err("a token", r2);
    }
    match expr_at(ts, r2 + 2) {
        Err(e) => Err(e),
        Ok((dest, r3)) => Ok((Statement::Var(name.clone(), typ, init, body, dest), r3)),
    }
}

fn if_at(ts: &Vec<Token>, p: usize) -> (r: Result<(Statement, usize), ParseError>)
    requires
        ts@.len() <= usize::MAX,
        p < ts@.len(),
    ensures
        agrees(r, p_if(toks_view(ts@), p as int), |s: Statement| s@),
        within(r, ts@.len() as int),
    decreases ts@.len() - p, 4int,
{
    let ghost tv = toks_view(ts@);
    let (cond, q) = match expr_at(ts, p + 1) {
        Err(e) => { return Err(e); },
        Ok(x) => x,
    };
    if !is_newline(ts, q) {
        return err("newline after `if` predicate", q);
    }
    if q <= p {
        return err("a token", q);
    }
    let (main, r) = match block_at(ts, q + 1, BlockEnd::ElseOrFi) {
        Err(e) => { return Err(e); },
        Ok(x) => x,
    };
    if r <= p {
        return err("a token", r);
    }
    let is_else = match tok_at(ts, r) {
        Some(Token::Else) => true,
        _ => false,
    };
    let (other, r2) = if !is_else {
        let v: Vec<Statement> = Vec::new();
        assert(stmts_view(v@) =~= Seq::<StmtM>::empty());
        (v, r)
    } else if is_newline(ts, r + 1) {
        match block_at(ts, r + 2, BlockEnd::Fi) {
            Err(e) => { return Err(e); },
            Ok(x) => x,
        }
    } else {
        let chained = match tok_at(ts, r + 1) {
            Some(Token::If) => true,
            _ => false,
        };
        if !chained {
            return err("chaining `if` or a newline", r + 1);
        }
        match stmt_at(ts, r + 1) {
            Err(e) => { return Err(e); },
            Ok((s, r2)) => {
                let ghost sv = s@;
                let mut v: Vec<Statement> = Vec::new();
                v.push(s);
                assert(stmts_view(v@) =~= seq![sv]);
                (v, r2)
            },
        }
    };
    match tok_at(ts, r2) {
        Some(Token::Fi) => {},
        _ => { return err("`fi` to finish `if` statement", r2); },
    }
    if r2 <= p {
        return err("a token", r2);
    }
    let bare = match tok_at(ts, r2 + 1) {
        Some(Token::Ident(_)) => false,
        Some(Token::Number(_)) => false,
        Some(Token::Char(_)) => false,
        Some(Token::Str(_)) => false,
        Some(Token::LBracket) => false,
        Some(Token::Fn) => false,
        _ => true,
    };
    if bare {
        let assert = cond.deep_copy();
        Ok((Statement::If(cond, main, other, assert), r2 + 1))
    } else {
        match expr_at(ts, r2 + 1) {
            Err(e) => Err(e),
            Ok((assert, r3)) => Ok((Statement::If(cond, main, other, assert), r3)),
        }
    }
}

/// A token stream and a position in it.
pub struct Parser {
    pub tokens: Vec<Token>,
    pub pos: usize,
}

/// Where a parse leaves the parser: past what it read on success, where it
/// was on failure.
pub open spec fn advanced<A, B>(old_pos: usize, new_pos: usize, m: Result<(B, int), ParseError>) -> bool {
    match m {
        Ok((_, q)) => new_pos as int == q,
        Err(_) => new_pos == old_pos,
    }
}

pub open spec fn agrees_value<A, B>(r: Result<A, ParseError>, m: Result<(B, int), ParseError>, f: spec_fn(A) -> B) -> bool {
    match (r, m) {
        (Ok(a), Ok((b, _))) => f(a) == b,
        (Err(e), Err(em)) => e == em,
        _ => false,
    }
}

impl Parser {
    pub fn new(tokens: Vec<Token>) -> (r: Parser)
        ensures
            r.tokens == tokens,
            r.pos == 0,
    {
        Parser { tokens, pos: 0 }
    }

    /// Whether every token has been read.
    pub fn at_end(&self) -> (r: bool)
        ensures
            r == (self.pos >= self.tokens@.len()),
    {
        self.pos >= self.tokens.len()
    }

    /// Parses one statement and the newline after it, if any.
    pub fn parse_stmt(&mut self) -> (r: Result<Statement, ParseError>)
        ensures
            final(self).tokens == old(self).tokens,
            agrees_value(r, p_stmt(toks_view(old(self).tokens@), old(self).pos as int), |s: Statement| s@),
            advanced::<Statement, StmtM>(old(self).pos, final(self).pos, p_stmt(toks_view(old(self).tokens@), old(self).pos as int)),
    {
        if self.pos > self.tokens.len() {
            return err("a statement", self.pos);
        }
        match stmt_at(&self.tokens, self.pos) {
            Ok((s, q)) => {
                self.pos = q;
                Ok(s)
            },
            Err(e) => Err(e),
        }
    }

    /// Parses one expression.
    pub fn parse_expr(&mut self) -> (r: Result<Expr, ParseError>)
        ensures
            final(self).tokens == old(self).tokens,
            agrees_value(r, p_expr(toks_view(old(self).tokens@), old(self).pos as int), |e: Expr| e@),
            advanced::<Expr, ExprM>(old(self).pos, final(self).pos, p_expr(toks_view(old(self).tokens@), old(self).pos as int)),
    {
        if self.pos > self.tokens.len() {
            return err("valid literal value", self.pos);
        }
        match expr_at(&self.tokens, self.pos) {
            Ok((e, q)) => {
                self.pos = q;
                Ok(e)
            },
            Err(e) => Err(e),
        }
    }

    /// Parses one left-value.
    pub fn parse_lval(&mut self) -> (r: Result<LValue, ParseError>)
        ensures
            final(self).tokens == old(self).tokens,
            agrees_value(r, p_lval(toks_view(old(self).tokens@), old(self).pos as int), |l: LValue| l@),
            advanced::<LValue, LValueM>(old(self).pos, final(self).pos, p_lval(toks_view(old(self).tokens@), old(self).pos as int)),
    {
        if self.pos > self.tokens.len() {
            return err("variable name in left-value expression", self.pos);
        }
        match lval_at(&self.tokens, self.pos) {
            Ok((l, q)) => {
                self.pos = q;
                Ok(l)
            },
            Err(e) => Err(e),
        }
    }
}

impl Statement {
    /// Parses one statement from the start of `tokens`; also gives the
    /// number of tokens read.
    pub fn parse(tokens: &Vec<Token>) -> (r: Result<(Statement, usize), ParseError>)
        ensures
            agrees(r, p_stmt(toks_view(tokens@), 0), |s: Statement| s@),
    {
        stmt_at(tokens, 0)
    }
}

} // verus!
