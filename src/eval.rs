use vstd::prelude::*;
use crate::ast::{Deref, DerefM, Expr, ExprM, LValue, LValueM, LitM, Literal, copy_names, exprs_view};
use crate::ast::{Statement, StmtM, stmts_view};
use crate::module::{ItemM, Module, Item, find_callee};
use crate::value::{Kind, Val, Value, kind_of, values_view, same_kind, rotl, rotr};

verus! {

/// The construct whose boundary assertion or destination value failed.
#[derive(Debug, Clone, Copy, PartialEq, Eq, Structural)]
pub enum Construct {
    Var,
    If,
    From,
}

/// The operation that met values of kinds it does not take.
#[derive(Debug, Clone, Copy, PartialEq, Eq, Structural)]
pub enum Operation {
    /// An in-place update.
    Update(UpdateOp),
    /// An exchange of two bindings of different kinds.
    Swap,
    /// The test or assertion of a construct, which must be boolean.
    Condition(Construct),
    /// An index into a string or an array.
    Index,
    /// A field of a value.
    Field,
}

/// Why an evaluation stopped.
#[derive(Debug, PartialEq)]
pub enum EvalError {
    /// An operation met values of kinds it does not take: the operation and
    /// the kinds found (one, or two for a binary operation).
    TypeMismatch(Operation, Kind, Option<Kind>),
    /// No live binding has the name.
    UnboundName(String),
    /// An index lies outside its string or array: the container, then the
    /// index.
    IndexOutOfRange(Value, Value),
    /// Pointer-style indirection, or an update through a projection.
    UnsupportedDereference,
    /// A boundary assertion or a destination value did not hold: the
    /// construct, the value expected and the value found.
    ReversibilityViolation(Construct, Value, Value),
    /// A scope closed on a binding other than the one it opened.
    ScopeCorruption,
    /// A procedure was called with the wrong number of arguments.
    ArityMismatch,
    /// The step budget ran out (loop iterations and procedure calls).
    FuelExhausted,
}

/// The model of an evaluation error.
pub enum ErrM {
    TypeMismatch(Operation, Kind, Option<Kind>),
    UnboundName(Seq<char>),
    IndexOutOfRange(Val, Val),
    UnsupportedDereference,
    ReversibilityViolation(Construct, Val, Val),
    ScopeCorruption,
    ArityMismatch,
    FuelExhausted,
}

pub open spec fn err_view(e: EvalError) -> ErrM {
    match e {
        EvalError::TypeMismatch(o, k1, k2) => ErrM::TypeMismatch(o, k1, k2),
        EvalError::UnboundName(n) => ErrM::UnboundName(n@),
        EvalError::IndexOutOfRange(v, i) => ErrM::IndexOutOfRange(v@, i@),
        EvalError::UnsupportedDereference => ErrM::UnsupportedDereference,
        EvalError::ReversibilityViolation(k, x, y) => ErrM::ReversibilityViolation(k, x@, y@),
        EvalError::ScopeCorruption => ErrM::ScopeCorruption,
        EvalError::ArityMismatch => ErrM::ArityMismatch,
        EvalError::FuelExhausted => ErrM::FuelExhausted,
    }
}

impl View for EvalError {
    type V = ErrM;

    open spec fn view(&self) -> ErrM {
        err_view(*self)
    }
}

pub open spec fn done_view(r: Result<(), EvalError>) -> Result<(), ErrM> {
    match r {
        Ok(_) => Ok(()),
        Err(e) => Err(e@),
    }
}

pub open spec fn stack_view(t: Seq<(String, Value)>) -> Seq<(Seq<char>, Val)> {
    Seq::new(t.len(), |i: int| (t[i].0@, t[i].1@))
}

pub open spec fn res_view(r: Result<Value, EvalError>) -> Result<Val, ErrM> {
    match r {
        Ok(v) => Ok(v@),
        Err(e) => Err(e@),
    }
}

/// The index of the most recent binding named `name` among the first `n`.
pub open spec fn last_binding(st: Seq<(Seq<char>, Val)>, name: Seq<char>, n: int) -> Option<int>
    decreases n,
{
    if n <= 0 || n > st.len() {
        None
    } else if st[n - 1].0 == name {
        Some(n - 1)
    } else {
        last_binding(st, name, n - 1)
    }
}

/// The most recent binding named `name` in the whole stack.
pub open spec fn lookup(st: Seq<(Seq<char>, Val)>, name: Seq<char>) -> Option<int> {
    last_binding(st, name, st.len() as int)
}

pub open spec fn len_name() -> Seq<char> {
    seq!['l', 'e', 'n']
}

/// The element at position `i` of a string or an array.
pub open spec fn index_into(v: Val, i: Val) -> Result<Val, ErrM> {
    let k: int = match i {
        Val::Int(k) => k as int,
        Val::UInt(k) => k as int,
        _ => -1,
    };
    if !(i is Int || i is UInt) {
        Err(ErrM::TypeMismatch(Operation::Index, kind_of(v), Some(kind_of(i))))
    } else {
        match v {
            Val::Str(s) => if 0 <= k < s.len() {
                Ok(Val::Char(s[k]))
            } else {
                Err(ErrM::IndexOutOfRange(v, i))
            },
            Val::Array(a) => if 0 <= k < a.len() {
                Ok(a[k])
            } else {
                Err(ErrM::IndexOutOfRange(v, i))
            },
            _ => Err(ErrM::TypeMismatch(Operation::Index, kind_of(v), Some(kind_of(i)))),
        }
    }
}

/// The value of an expression against a scope stack.
pub open spec fn eval_expr(e: ExprM, st: Seq<(Seq<char>, Val)>) -> Result<Val, ErrM>
    decreases e, 0int,
{
    match e {
        ExprM::Lit(l) => match l {
            LitM::Nil => Ok(Val::Nil),
            LitM::Bool(b) => Ok(Val::Bool(b)),
            LitM::Int(i) => Ok(Val::Int(i)),
            LitM::UInt(u) => Ok(Val::UInt(u)),
            LitM::Char(c) => Ok(Val::Char(c)),
            LitM::Str(s) => Ok(Val::Str(s)),
            LitM::Array(es) => match eval_all(es, st, es.len() as int) {
                Ok(vs) => Ok(Val::Array(vs)),
                Err(x) => Err(x),
            },
            LitM::Fn(ps, b) => Ok(Val::Fn(ps, b)),
        },
        ExprM::LVal(lv) => resolve(lv, st),
    }
}

/// The values of the first `n` expressions, left to right; the first
/// failure wins.
pub open spec fn eval_all(es: Seq<ExprM>, st: Seq<(Seq<char>, Val)>, n: int) -> Result<Seq<Val>, ErrM>
    decreases es, n,
{
    if n <= 0 || n > es.len() {
        Ok(Seq::empty())
    } else {
        match eval_all(es, st, n - 1) {
            Err(x) => Err(x),
            Ok(vs) => match eval_expr(es[n - 1], st) {
                Err(x) => Err(x),
                Ok(v) => Ok(vs.push(v)),
            },
        }
    }
}

/// The value a left-value denotes: its most recent binding, projected by
/// each step in turn.
pub open spec fn resolve(lv: LValueM, st: Seq<(Seq<char>, Val)>) -> Result<Val, ErrM>
    decreases lv, 0int,
{
    match lookup(st, lv.id) {
        None => Err(ErrM::UnboundName(lv.id)),
        Some(k) => project_all(lv.ops, st[k].1, st, lv.ops.len() as int),
    }
}

pub open spec fn project_all(ops: Seq<DerefM>, base: Val, st: Seq<(Seq<char>, Val)>, n: int) -> Result<Val, ErrM>
    decreases ops, n,
{
    if n <= 0 || n > ops.len() {
        Ok(base)
    } else {
        match project_all(ops, base, st, n - 1) {
            Err(x) => Err(x),
            Ok(v) => project(ops[n - 1], v, st),
        }
    }
}

pub open spec fn project(d: DerefM, v: Val, st: Seq<(Seq<char>, Val)>) -> Result<Val, ErrM>
    decreases d, 0int,
{
    match d {
        DerefM::Direct => Err(ErrM::UnsupportedDereference),
        DerefM::Field(f) => if f == len_name() {
            match v {
                Val::Str(s) => Ok(Val::UInt(s.len() as u64)),
                Val::Array(a) => Ok(Val::UInt(a.len() as u64)),
                _ => Err(ErrM::TypeMismatch(Operation::Field, kind_of(v), None)),
            }
        } else {
            Err(ErrM::TypeMismatch(Operation::Field, kind_of(v), None))
        },
        DerefM::Index(e) => match eval_expr(e, st) {
            Err(x) => Err(x),
            Ok(i) => index_into(v, i),
        },
    }
}

pub proof fn lemma_last_binding_range(st: Seq<(Seq<char>, Val)>, name: Seq<char>, n: int)
    ensures
        last_binding(st, name, n) matches Some(k) ==> 0 <= k < n && k < st.len() && st[k].0 == name,
    decreases n,
{
    if n > 0 && n <= st.len() && st[n - 1].0 != name {
        lemma_last_binding_range(st, name, n - 1);
    }
}

proof fn lemma_eval_all_err(es: Seq<ExprM>, st: Seq<(Seq<char>, Val)>, i: int, j: int)
    requires
        0 <= i <= j <= es.len(),
        eval_all(es, st, i) is Err,
    ensures
        eval_all(es, st, j) == eval_all(es, st, i),
    decreases j - i,
{
    if j > i {
        lemma_eval_all_err(es, st, i, j - 1);
    }
}

proof fn lemma_project_all_err(ops: Seq<DerefM>, b: Val, st: Seq<(Seq<char>, Val)>, i: int, j: int)
    requires
        0 <= i <= j <= ops.len(),
        project_all(ops, b, st, i) is Err,
    ensures
        project_all(ops, b, st, j) == project_all(ops, b, st, i),
    decreases j - i,
{
    if j > i {
        lemma_project_all_err(ops, b, st, i, j - 1);
    }
}

// ---------------------------------------------------------------------------
// Executable expression evaluation

/// The index of the most recent binding named `name`.
pub fn find_binding(t: &Vec<(String, Value)>, name: &String) -> (r: Option<usize>)
    ensures
        match r {
            Some(k) => lookup(stack_view(t@), name@) == Some(k as int) && k < t@.len() && t@[k as int].0@ == name@,
            None => lookup(stack_view(t@), name@) == None::<int>,
        },
{
    let ghost st = stack_view(t@);
    proof {
        lemma_last_binding_range(st, name@, st.len() as int);
    }
    let mut i: usize = t.len();
    while i > 0
        invariant
            i <= t@.len(),
            st == stack_view(t@),
            lookup(st, name@) == last_binding(st, name@, i as int),
        decreases i,
    {
        if t[i - 1].0 == *name {
            return Some(i - 1);
        }
        i -= 1;
    }
    None
}

fn is_len_field(f: &String) -> (r: bool)
    ensures
        r == (f@ == len_name()),
{
    let s = f.as_str();
    let n = s.unicode_len();
    if n != 3 {
        return false;
    }
    let r = s.get_char(0) == 'l' && s.get_char(1) == 'e' && s.get_char(2) == 'n';
    assert(r ==> f@ =~= len_name());
    r
}

fn string_len(s: &String) -> (r: u64)
    ensures
        r == s@.len() as u64,
        r as int == s@.len(),
{
    s.as_str().unicode_len() as u64
}

fn index_value(v: &Value, i: &Value) -> (r: Result<Value, EvalError>)
    ensures
        res_view(r) == index_into(v@, i@),
{
    let (k, neg) = match i {
        Value::Int(k) => if *k < 0 { (0u64, true) } else { (*k as u64, false) },
        Value::UInt(k) => (*k, false),
        _ => { return Err(EvalError::TypeMismatch(Operation::Index, v.kind(), Some(i.kind()))); },
    };
    match v {
        Value::String(s) => {
            let n: usize = s.as_str().unicode_len();
            if neg || k >= n as u64 {
                Err(EvalError::IndexOutOfRange(v.deep_copy(), i.deep_copy()))
            } else {
                Ok(Value::Char(s.as_str().get_char(k as usize)))
            }
        },
        Value::Array(a) => {
            if neg || k >= a.len() as u64 {
                Err(EvalError::IndexOutOfRange(v.deep_copy(), i.deep_copy()))
            } else {
                Ok(a[k as usize].deep_copy())
            }
        },
        _ => Err(EvalError::TypeMismatch(Operation::Index, v.kind(), Some(i.kind()))),
    }
}

impl Expr {
    /// Evaluates this expression against the scope stack `t`.
    pub fn eval(&self, t: &Vec<(String, Value)>) -> (r: Result<Value, EvalError>)
        ensures
            res_view(r) == eval_expr(self@, stack_view(t@)),
        decreases self,
    {
        match self {
            Expr::Lit(l) => match l {
                Literal::Nil => Ok(Value::Nil),
                Literal::Bool(b) => Ok(Value::Bool(*b)),
                Literal::Int(i) => Ok(Value::Int(*i)),
                Literal::UInt(u) => Ok(Value::UInt(*u)),
                Literal::Char(c) => Ok(Value::Char(*c)),
                Literal::String(s) => Ok(Value::String(s.clone())),
                Literal::Array(es) => match eval_exprs(es, t) {
                    Ok(vs) => Ok(Value::Array(vs)),
                    Err(x) => Err(x),
                },
                Literal::Fn(ps, b) => Ok(Value::Fn(copy_names(ps), Box::new(b.deep_copy()))),
            },
            Expr::LVal(lv) => lv.eval(t),
        }
    }
}

/// Evaluates expressions left to right; the first failure wins.
pub fn eval_exprs(es: &Vec<Expr>, t: &Vec<(String, Value)>) -> (r: Result<Vec<Value>, EvalError>)
    ensures
        match r {
            Ok(vs) => eval_all(exprs_view(es@), stack_view(t@), es@.len() as int) == Ok::<Seq<Val>, ErrM>(values_view(vs@)),
            Err(x) => eval_all(exprs_view(es@), stack_view(t@), es@.len() as int) == Err::<Seq<Val>, ErrM>(x@),
        },
    decreases es,
{
    let ghost ems = exprs_view(es@);
    let ghost st = stack_view(t@);
    let mut vs: Vec<Value> = Vec::new();
    assert(values_view(vs@) =~= Seq::<Val>::empty());
    let mut i: usize = 0;
    while i < es.len()
        invariant
            i <= es@.len(),
            ems == exprs_view(es@),
            st == stack_view(t@),
            ems.len() == es@.len(),
            eval_all(ems, st, i as int) == Ok::<Seq<Val>, ErrM>(values_view(vs@)),
        decreases es@.len() - i,
    {
        match es[i].eval(t) {
            Err(x) => {
                assert(ems[i as int] == es@[i as int]@);
                proof {
                    lemma_eval_all_err(ems, st, i + 1, es@.len() as int);
                }
                return Err(x);
            },
            Ok(v) => {
                let ghost before = vs@;
                vs.push(v);
                assert(ems[i as int] == es@[i as int]@);
                assert(values_view(vs@) =~= values_view(before).push(v@));
            },
        }
        i += 1;
    }
    Ok(vs)
}

impl LValue {
    /// The value this left-value denotes.
    pub fn eval(&self, t: &Vec<(String, Value)>) -> (r: Result<Value, EvalError>)
        ensures
            res_view(r) == resolve(self@, stack_view(t@)),
        decreases self,
    {
        let ghost st = stack_view(t@);
        let k = match find_binding(t, &self.id) {
            None => { return Err(EvalError::UnboundName(self.id.clone())); },
            Some(k) => k,
        };
        let mut v = t[k].1.deep_copy();
        let mut i: usize = 0;
        while i < self.ops.len()
            invariant
                i <= self.ops@.len(),
                k < t@.len(),
                st == stack_view(t@),
                lookup(st, self.id@) == Some(k as int),
                project_all(self@.ops, st[k as int].1, st, i as int) == Ok::<Val, ErrM>(v@),
            decreases self.ops@.len() - i,
        {
            assert(self@.ops[i as int] == self.ops@[i as int]@);
            match self.ops[i].apply(&v, t) {
                Err(x) => {
                    proof {
                        lemma_project_all_err(self@.ops, st[k as int].1, st, i + 1, self@.ops.len() as int);
                    }
                    return Err(x);
                },
                Ok(w) => { v = w; },
            }
            i += 1;
        }
        Ok(v)
    }
}

impl Deref {
    /// Applies this projection step to `v`.
    pub fn apply(&self, v: &Value, t: &Vec<(String, Value)>) -> (r: Result<Value, EvalError>)
        ensures
            res_view(r) == project(self@, v@, stack_view(t@)),
        decreases self,
    {
        match self {
            Deref::Direct => Err(EvalError::UnsupportedDereference),
            Deref::Field(f) => {
                if is_len_field(f) {
                    match v {
                        Value::String(s) => Ok(Value::UInt(string_len(s))),
                        Value::Array(a) => Ok(Value::UInt(a.len() as u64)),
                        _ => Err(EvalError::TypeMismatch(Operation::Field, v.kind(), None)),
                    }
                } else {
                    Err(EvalError::TypeMismatch(Operation::Field, v.kind(), None))
                }
            },
            Deref::Index(e) => match e.eval(t) {
                Err(x) => Err(x),
                Ok(i) => index_value(v, &i),
            },
        }
    }
}

// ---------------------------------------------------------------------------
// Statement semantics

/// A call of a native routine, reported to the host.
#[derive(Debug, PartialEq)]
pub struct NativeCall {
    pub routine: String,
    pub args: Vec<Value>,
}

pub struct CallM {
    pub routine: Seq<char>,
    pub args: Seq<Val>,
}

pub open spec fn calls_view(o: Seq<NativeCall>) -> Seq<CallM> {
    Seq::new(o.len(), |i: int| CallM { routine: o[i].routine@, args: values_view(o[i].args@) })
}

/// What evaluation acts on: the scope stack and the calls reported so far.
pub struct Conf {
    pub stack: Seq<(Seq<char>, Val)>,
    pub calls: Seq<CallM>,
}

pub open spec fn conf(t: Seq<(String, Value)>, o: Seq<NativeCall>) -> Conf {
    Conf { stack: stack_view(t), calls: calls_view(o) }
}

/// The in-place update operators.
#[derive(Debug, Clone, Copy, PartialEq, Eq, Structural)]
pub enum UpdateOp {
    Xor,
    Add,
    Sub,
    RotLeft,
    RotRight,
}

/// The rotation amount that `r` denotes on a 64-bit word: `r` modulo 64.
pub open spec fn rot_amount_i(r: i64) -> u64 {
    ((r as u64) % 64) as u64
}

/// The result of an update operator on two values: same-kind integers only.
pub open spec fn apply_op(op: UpdateOp, l: Val, r: Val) -> Result<Val, ErrM> {
    match (l, r) {
        (Val::Int(a), Val::Int(b)) => Ok(Val::Int(match op {
            UpdateOp::Xor => a ^ b,
            UpdateOp::Add => a.wrapping_add(b),
            UpdateOp::Sub => a.wrapping_sub(b),
            UpdateOp::RotLeft => rotl(a as u64, rot_amount_i(b)) as i64,
            UpdateOp::RotRight => rotr(a as u64, rot_amount_i(b)) as i64,
        })),
        (Val::UInt(a), Val::UInt(b)) => Ok(Val::UInt(match op {
            UpdateOp::Xor => a ^ b,
            UpdateOp::Add => a.wrapping_add(b),
            UpdateOp::Sub => a.wrapping_sub(b),
            UpdateOp::RotLeft => rotl(a, (b % 64) as u64),
            UpdateOp::RotRight => rotr(a, (b % 64) as u64),
        })),
        _ => Err(ErrM::TypeMismatch(Operation::Update(op), kind_of(l), Some(kind_of(r)))),
    }
}

/// An update statement `lv op= e`. Values are updated only as whole
/// bindings: a target reached through a projection step (`x!`, `x.f`,
/// `x.(i)`) is refused with `UnsupportedDereference`.
pub open spec fn run_update(op: UpdateOp, lv: LValueM, e: ExprM, c: Conf) -> (Conf, Result<(), ErrM>) {
    if lv.ops.len() > 0 {
        (c, Err(ErrM::UnsupportedDereference))
    } else {
        match lookup(c.stack, lv.id) {
            None => (c, Err(ErrM::UnboundName(lv.id))),
            Some(k) => match eval_expr(e, c.stack) {
                Err(x) => (c, Err(x)),
                Ok(rhs) => match apply_op(op, c.stack[k].1, rhs) {
                    Err(x) => (c, Err(x)),
                    Ok(nv) => (Conf { stack: c.stack.update(k, (c.stack[k].0, nv)), ..c }, Ok(())),
                },
            },
        }
    }
}

/// `a <> b`: the two most recent bindings exchange values; names stay. As
/// for updates, an operand with a projection step is refused with
/// `UnsupportedDereference`.
pub open spec fn run_swap(a: LValueM, b: LValueM, c: Conf) -> (Conf, Result<(), ErrM>) {
    if a.ops.len() > 0 || b.ops.len() > 0 {
        (c, Err(ErrM::UnsupportedDereference))
    } else {
        match (lookup(c.stack, a.id), lookup(c.stack, b.id)) {
            (Some(ka), Some(kb)) => if !same_kind(c.stack[ka].1, c.stack[kb].1) {
                (c, Err(ErrM::TypeMismatch(Operation::Swap, kind_of(c.stack[ka].1), Some(kind_of(c.stack[kb].1)))))
            } else {
                let va = c.stack[ka].1;
                let vb = c.stack[kb].1;
                let s1 = c.stack.update(ka, (c.stack[ka].0, vb));
                (Conf { stack: s1.update(kb, (s1[kb].0, va)), ..c }, Ok(()))
            },
            (None, _) => (c, Err(ErrM::UnboundName(a.id))),
            (_, None) => (c, Err(ErrM::UnboundName(b.id))),
        }
    }
}

/// The end of a `Var` scope: pop the top binding, which must carry `n`, and
/// compare its value with `dest`, evaluated after the pop.
pub open spec fn close_var(n: Seq<char>, dest: ExprM, c: Conf) -> (Conf, Result<(), ErrM>) {
    if c.stack.len() == 0 {
        (c, Err(ErrM::ScopeCorruption))
    } else {
        let top = c.stack.last();
        let c3 = Conf { stack: c.stack.drop_last(), ..c };
        if top.0 != n {
            (c3, Err(ErrM::ScopeCorruption))
        } else {
            match eval_expr(dest, c3.stack) {
                Err(x) => (c3, Err(x)),
                Ok(d) => if top.1 == d {
                    (c3, Ok(()))
                } else {
                    (c3, Err(ErrM::ReversibilityViolation(Construct::Var, d, top.1)))
                },
            }
        }
    }
}

/// The bindings of a procedure's fresh frame.
pub open spec fn bind_params(ps: Seq<Seq<char>>, vs: Seq<Val>) -> Seq<(Seq<char>, Val)> {
    Seq::new(ps.len(), |i: int| (ps[i], vs[i]))
}

/// Runs a statement, forward when `fwd`, else as its inverse: boundary
/// expressions trade places, `Add`/`Sub` and `Do`/`Undo` trade kinds, and
/// nested bodies run backward (reversed, each statement inverted).
pub open spec fn run_stmt(s: StmtM, c: Conf, m: Seq<(Seq<char>, ItemM)>, fuel: nat, fwd: bool) -> (Conf, Result<(), ErrM>)
    decreases fuel, s, 1int, 0int,
{
    match s {
        StmtM::Skip => (c, Ok(())),
        StmtM::Var(n, _, i0, body, d0) => {
            let init = if fwd { i0 } else { d0 };
            let dest = if fwd { d0 } else { i0 };
            match eval_expr(init, c.stack) {
                Err(x) => (c, Err(x)),
                Ok(v) => {
                    let c1 = Conf { stack: c.stack.push((n, v)), ..c };
                    let (c2, r) = run_block(body, c1, m, fuel, fwd, 0);
                    if r is Err {
                        (c2, r)
                    } else {
                        close_var(n, dest, c2)
                    }
                },
            }
        },
        StmtM::If(t0, a, b, e0) => {
            let test = if fwd { t0 } else { e0 };
            let assert = if fwd { e0 } else { t0 };
            match eval_expr(test, c.stack) {
                Ok(Val::Bool(tv)) => {
                    let (c2, r) = if tv { run_block(a, c, m, fuel, fwd, 0) } else { run_block(b, c, m, fuel, fwd, 0) };
                    if r is Err {
                        (c2, r)
                    } else {
                        match eval_expr(assert, c2.stack) {
                            Err(x) => (c2, Err(x)),
                            Ok(av) => if av == Val::Bool(tv) {
                                (c2, Ok(()))
                            } else {
                                (c2, Err(ErrM::ReversibilityViolation(Construct::If, Val::Bool(tv), av)))
                            },
                        }
                    }
                },
                Ok(v) => (c, Err(ErrM::TypeMismatch(Operation::Condition(Construct::If), kind_of(v), None))),
                Err(x) => (c, Err(x)),
            }
        },
        StmtM::From(a0, _, _, t0) => {
            let assert = if fwd { a0 } else { t0 };
            match eval_expr(assert, c.stack) {
                Ok(Val::Bool(true)) => run_loop(s, c, m, fuel, fwd),
                Ok(Val::Bool(false)) => (c, Err(ErrM::ReversibilityViolation(Construct::From, Val::Bool(true), Val::Bool(false)))),
                Ok(v) => (c, Err(ErrM::TypeMismatch(Operation::Condition(Construct::From), kind_of(v), None))),
                Err(x) => (c, Err(x)),
            }
        },
        StmtM::Do(..) => run_call(s, c, m, fuel, fwd),
        StmtM::Undo(..) => run_call(s, c, m, fuel, fwd),
        StmtM::RotLeft(l, e) => run_update(UpdateOp::RotLeft, l, e, c),
        StmtM::RotRight(l, e) => run_update(UpdateOp::RotRight, l, e, c),
        StmtM::Xor(l, e) => run_update(UpdateOp::Xor, l, e, c),
        StmtM::Add(l, e) => run_update(if fwd { UpdateOp::Add } else { UpdateOp::Sub }, l, e, c),
        StmtM::Sub(l, e) => run_update(if fwd { UpdateOp::Sub } else { UpdateOp::Add }, l, e, c),
        StmtM::Swap(a, b) => run_swap(a, b, c),
    }
}

/// The iterations of a `From` loop whose entry assertion has held.
pub open spec fn run_loop(s: StmtM, c: Conf, m: Seq<(Seq<char>, ItemM)>, fuel: nat, fwd: bool) -> (Conf, Result<(), ErrM>)
    decreases fuel, s, 0int, 0int,
{
    match s {
        StmtM::From(a0, f, b, t0) => {
            let assert = if fwd { a0 } else { t0 };
            let test = if fwd { t0 } else { a0 };
            let (c1, r1) = run_block(f, c, m, fuel, fwd, 0);
            if r1 is Err {
                (c1, r1)
            } else {
                match eval_expr(test, c1.stack) {
                    Ok(Val::Bool(true)) => (c1, Ok(())),
                    Ok(Val::Bool(false)) => {
                        let (c2, r2) = run_block(b, c1, m, fuel, fwd, 0);
                        if r2 is Err {
                            (c2, r2)
                        } else {
                            match eval_expr(assert, c2.stack) {
                                Ok(Val::Bool(false)) => if fuel == 0 {
                                    (c2, Err(ErrM::FuelExhausted))
                                } else {
                                    run_loop(s, c2, m, (fuel - 1) as nat, fwd)
                                },
                                Ok(Val::Bool(true)) => (c2, Err(ErrM::ReversibilityViolation(Construct::From, Val::Bool(false), Val::Bool(true)))),
                                Ok(v) => (c2, Err(ErrM::TypeMismatch(Operation::Condition(Construct::From), kind_of(v), None))),
                                Err(x) => (c2, Err(x)),
                            }
                        }
                    },
                    Ok(v) => (c1, Err(ErrM::TypeMismatch(Operation::Condition(Construct::From), kind_of(v), None))),
                    Err(x) => (c1, Err(x)),
                }
            }
        },
        _ => (c, Ok(())),
    }
}

/// Steps `i..` of a block: forward in order, backward in reverse order.
pub open spec fn run_block(ss: Seq<StmtM>, c: Conf, m: Seq<(Seq<char>, ItemM)>, fuel: nat, fwd: bool, i: int) -> (Conf, Result<(), ErrM>)
    decreases fuel, ss, 0int, ss.len() - i,
{
    if i < 0 || i >= ss.len() {
        (c, Ok(()))
    } else {
        let k = if fwd { i } else { ss.len() - 1 - i };
        let (c1, r) = run_stmt(ss[k], c, m, fuel, fwd);
        if r is Err {
            (c1, r)
        } else {
            run_block(ss, c1, m, fuel, fwd, i + 1)
        }
    }
}

/// A `Do` (an `Undo` when run backward, and the other way round) call:
/// arguments are evaluated in the caller's scope; a native routine
/// is reported (its forward or inverse half), a procedure runs its body in a
/// fresh frame, forward or backward, and an unknown name does nothing.
pub open spec fn run_call(s: StmtM, c: Conf, m: Seq<(Seq<char>, ItemM)>, fuel: nat, dir: bool) -> (Conf, Result<(), ErrM>)
    decreases fuel, s, 0int, 0int,
{
    let (name, args, fwd) = match s {
        StmtM::Do(n, a) => (n, a, dir),
        StmtM::Undo(n, a) => (n, a, !dir),
        _ => (Seq::empty(), Seq::empty(), dir),
    };
    match eval_all(args, c.stack, args.len() as int) {
        Err(x) => (c, Err(x)),
        Ok(vals) => match find_callee(m, name, 0) {
            None => (c, Ok(())),
            Some(k) => match m[k].1 {
                ItemM::Intern(fore, back) => (
                    Conf { calls: c.calls.push(CallM { routine: if fwd { fore } else { back }, args: vals }), ..c },
                    Ok(()),
                ),
                ItemM::Proc(p) => if p.params.len() != vals.len() {
                    (c, Err(ErrM::ArityMismatch))
                } else if fuel == 0 {
                    (c, Err(ErrM::FuelExhausted))
                } else {
                    let frame = Conf { stack: bind_params(p.params, vals), calls: c.calls };
                    let (c2, r) = run_block(p.body, frame, m, (fuel - 1) as nat, fwd, 0);
                    (Conf { stack: c.stack, calls: c2.calls }, r)
                },
                ItemM::Mod(_) => (c, Ok(())),
            },
        },
    }
}

// ---------------------------------------------------------------------------
// Executable statement evaluation

pub proof fn lemma_unit_ok<E>(r: Result<(), E>)
    requires
        r is Ok,
    ensures
        r == Ok::<(), E>(()),
{
    match r {
        Ok(u) => {
            assert(u == ());
        },
        Err(_) => {},
    }
}

/// An update operator applied to two values.
pub fn apply_update(op: UpdateOp, l: &Value, r: &Value) -> (res: Result<Value, EvalError>)
    ensures
        res_view(res) == apply_op(op, l@, r@),
{
    match (l, r) {
        (Value::Int(a), Value::Int(b)) => {
            let a = *a;
            let b = *b;
            Ok(Value::Int(match op {
                UpdateOp::Xor => a ^ b,
                UpdateOp::Add => a.wrapping_add(b),
                UpdateOp::Sub => a.wrapping_sub(b),
                UpdateOp::RotLeft => crate::value::rotate_left_u64(a as u64, b as u64) as i64,
                UpdateOp::RotRight => crate::value::rotate_right_u64(a as u64, b as u64) as i64,
            }))
        },
        (Value::UInt(a), Value::UInt(b)) => {
            let a = *a;
            let b = *b;
            Ok(Value::UInt(match op {
                UpdateOp::Xor => a ^ b,
                UpdateOp::Add => a.wrapping_add(b),
                UpdateOp::Sub => a.wrapping_sub(b),
                UpdateOp::RotLeft => crate::value::rotate_left_u64(a, b),
                UpdateOp::RotRight => crate::value::rotate_right_u64(a, b),
            }))
        },
        _ => Err(EvalError::TypeMismatch(Operation::Update(op), l.kind(), Some(r.kind()))),
    }
}

fn set_value(t: &mut Vec<(String, Value)>, k: usize, v: Value)
    requires
        k < old(t)@.len(),
    ensures
        final(t)@.len() == old(t)@.len(),
        stack_view(final(t)@) == stack_view(old(t)@).update(k as int, (old(t)@[k as int].0@, v@)),
{
    let name = t[k].0.clone();
    let ghost before = stack_view(t@);
    t.set(k, (name, v));
    assert(stack_view(t@) =~= before.update(k as int, (old(t)@[k as int].0@, v@)));
}

/// Runs `lv op= e` on the scope stack `t`; a target with projection steps
/// is refused.
pub fn exec_update(op: UpdateOp, lv: &LValue, e: &Expr, t: &mut Vec<(String, Value)>, out: &Vec<NativeCall>) -> (r: Result<(), EvalError>)
    ensures
        (conf(final(t)@, out@), done_view(r)) == run_update(op, lv@, e@, conf(old(t)@, out@)),
{
    if lv.ops.len() > 0 {
        return Err(EvalError::UnsupportedDereference);
    }
    let k = match find_binding(t, &lv.id) {
        None => { return Err(EvalError::UnboundName(lv.id.clone())); },
        Some(k) => k,
    };
    let rhs = match e.eval(t) {
        Err(x) => { return Err(x); },
        Ok(v) => v,
    };
    let nv = match apply_update(op, &t[k].1, &rhs) {
        Err(x) => { return Err(x); },
        Ok(v) => v,
    };
    set_value(t, k, nv);
    Ok(())
}

/// Runs `a <> b` on the scope stack `t`; operands with projection steps are
/// refused.
pub fn exec_swap(a: &LValue, b: &LValue, t: &mut Vec<(String, Value)>, out: &Vec<NativeCall>) -> (r: Result<(), EvalError>)
    ensures
        (conf(final(t)@, out@), done_view(r)) == run_swap(a@, b@, conf(old(t)@, out@)),
{
    if a.ops.len() > 0 || b.ops.len() > 0 {
        return Err(EvalError::UnsupportedDereference);
    }
    let ka = find_binding(t, &a.id);
    let kb = find_binding(t, &b.id);
    match (ka, kb) {
        (Some(ka), Some(kb)) => {
            if !t[ka].1.same_kind(&t[kb].1) {
                return Err(EvalError::TypeMismatch(Operation::Swap, t[ka].1.kind(), Some(t[kb].1.kind())));
            }
            let va = t[ka].1.deep_copy();
            let vb = t[kb].1.deep_copy();
            set_value(t, ka, vb);
            set_value(t, kb, va);
            Ok(())
        },
        (None, _) => Err(EvalError::UnboundName(a.id.clone())),
        (_, None) => Err(EvalError::UnboundName(b.id.clone())),
    }
}

/// Closes a `Var` scope on `t`.
fn exec_close(n: &String, dest: &Expr, t: &mut Vec<(String, Value)>, out: &Vec<NativeCall>) -> (r: Result<(), EvalError>)
    ensures
        (conf(final(t)@, out@), done_view(r)) == close_var(n@, dest@, conf(old(t)@, out@)),
{
    let ghost before = stack_view(t@);
    match t.pop() {
        None => Err(EvalError::ScopeCorruption),
        Some(top) => {
            assert(stack_view(t@) =~= before.drop_last());
            if top.0 != *n {
                return Err(EvalError::ScopeCorruption);
            }
            match dest.eval(t) {
                Err(x) => Err(x),
                Ok(d) => if top.1.same(&d) {
                    Ok(())
                } else {
                    Err(EvalError::ReversibilityViolation(Construct::Var, d, top.1))
                },
            }
        },
    }
}

fn push_call(out: &mut Vec<NativeCall>, routine: &String, args: Vec<Value>)
    ensures
        calls_view(final(out)@) == calls_view(old(out)@).push(CallM { routine: routine@, args: values_view(args@) }),
{
    let ghost before = calls_view(out@);
    let ghost a = values_view(args@);
    out.push(NativeCall { routine: routine.clone(), args });
    assert(calls_view(out@) =~= before.push(CallM { routine: routine@, args: a }));
}

fn make_frame(ps: &Vec<String>, vals: &Vec<Value>) -> (r: Vec<(String, Value)>)
    requires
        ps@.len() == vals@.len(),
    ensures
        stack_view(r@) == bind_params(crate::ast::names_view(ps@), values_view(vals@)),
{
    let mut r: Vec<(String, Value)> = Vec::new();
    let mut i: usize = 0;
    while i < ps.len()
        invariant
            i <= ps@.len(),
            ps@.len() == vals@.len(),
            r@.len() == i,
            forall|k: int| 0 <= k < i ==> r@[k].0@ == ps@[k]@ && r@[k].1@ == vals@[k]@,
        decreases ps@.len() - i,
    {
        r.push((ps[i].clone(), vals[i].deep_copy()));
        i += 1;
    }
    assert(stack_view(r@) =~= bind_params(crate::ast::names_view(ps@), values_view(vals@)));
    r
}

/// A boolean, or the kind of the value that is not one.
fn as_bool(r: Result<Value, EvalError>) -> (b: Result<Result<bool, Kind>, EvalError>)
    ensures
        match r {
            Ok(Value::Bool(x)) => b == Ok::<Result<bool, Kind>, EvalError>(Ok(x)),
            Ok(v) => b == Ok::<Result<bool, Kind>, EvalError>(Err(kind_of(v@))) && !(v@ is Bool),
            Err(x) => b == Err::<Result<bool, Kind>, EvalError>(x),
        },
{
    match r {
        Ok(Value::Bool(x)) => Ok(Ok(x)),
        Ok(v) => Ok(Err(v.kind())),
        Err(x) => Err(x),
    }
}

/// The step budget of a plain evaluation.
pub const FUEL: u64 = 0xffff_ffff_ffff_ffff;

impl Statement {
    /// Runs this statement forward on the scope stack `t` against the
    /// registry `m`; native calls go to `out`.
    pub fn eval(&self, t: &mut Vec<(String, Value)>, m: &Module, out: &mut Vec<NativeCall>) -> (r: Result<(), EvalError>)
        ensures
            (conf(final(t)@, final(out)@), done_view(r)) == run_stmt(self@, conf(old(t)@, old(out)@), m@, FUEL as nat, true),
    {
        self.exec(t, m, out, FUEL, true)
    }

    /// Runs this statement on the scope stack `t` against the registry `m`,
    /// forward when `fwd` and as its inverse otherwise, with `fuel` loop
    /// iterations and procedure calls to spend; native calls go to `out`.
    pub fn exec(&self, t: &mut Vec<(String, Value)>, m: &Module, out: &mut Vec<NativeCall>, fuel: u64, fwd: bool) -> (r: Result<(), EvalError>)
        ensures
            (conf(final(t)@, final(out)@), done_view(r)) == run_stmt(self@, conf(old(t)@, old(out)@), m@, fuel as nat, fwd),
        decreases fuel, self, 1int, 0int,
    {
        match self {
            Statement::Skip => Ok(()),
            Statement::Var(..) => self.exec_var(t, m, out, fuel, fwd),
            Statement::If(..) => self.exec_if(t, m, out, fuel, fwd),
            Statement::From(a0, _, _, t0) => {
                let assert = if fwd { a0 } else { t0 };
                match as_bool(assert.eval(t)) {
                    Ok(Ok(true)) => self.exec_loop(t, m, out, fuel, fwd),
                    Ok(Ok(false)) => Err(EvalError::ReversibilityViolation(Construct::From, Value::Bool(true), Value::Bool(false))),
                    Ok(Err(k)) => Err(EvalError::TypeMismatch(Operation::Condition(Construct::From), k, None)),
                    Err(x) => Err(x),
                }
            },
            Statement::Do(..) => self.exec_call(t, m, out, fuel, fwd),
            Statement::Undo(..) => self.exec_call(t, m, out, fuel, fwd),
            Statement::RotLeft(l, e) => exec_update(UpdateOp::RotLeft, l, e, t, out),
            Statement::RotRight(l, e) => exec_update(UpdateOp::RotRight, l, e, t, out),
            Statement::Xor(l, e) => exec_update(UpdateOp::Xor, l, e, t, out),
            Statement::Add(l, e) => exec_update(if fwd { UpdateOp::Add } else { UpdateOp::Sub }, l, e, t, out),
            Statement::Sub(l, e) => exec_update(if fwd { UpdateOp::Sub } else { UpdateOp::Add }, l, e, t, out),
            Statement::Swap(a, b) => exec_swap(a, b, t, out),
        }
    }

    fn exec_var(&self, t: &mut Vec<(String, Value)>, m: &Module, out: &mut Vec<NativeCall>, fuel: u64, fwd: bool) -> (r: Result<(), EvalError>)
        requires
            self@ is Var,
        ensures
            (conf(final(t)@, final(out)@), done_view(r)) == run_stmt(self@, conf(old(t)@, old(out)@), m@, fuel as nat, fwd),
        decreases fuel, self, 0int, 0int,
    {
        match self {
            Statement::Var(n, _, i0, body, d0) => {
                let init = if fwd { i0 } else { d0 };
                let dest = if fwd { d0 } else { i0 };
                let v = match init.eval(t) {
                    Err(x) => { return Err(x); },
                    Ok(v) => v,
                };
                let ghost before = stack_view(t@);
                let ghost vv = v@;
                t.push((n.clone(), v));
                assert(stack_view(t@) =~= before.push((n@, vv)));
                match exec_block(body, t, m, out, fuel, fwd) {
                    Err(x) => Err(x),
                    Ok(()) => exec_close(n, dest, t, out),
                }
            },
            _ => Ok(()),
        }
    }

    fn exec_if(&self, t: &mut Vec<(String, Value)>, m: &Module, out: &mut Vec<NativeCall>, fuel: u64, fwd: bool) -> (r: Result<(), EvalError>)
        requires
            self@ is If,
        ensures
            (conf(final(t)@, final(out)@), done_view(r)) == run_stmt(self@, conf(old(t)@, old(out)@), m@, fuel as nat, fwd),
        decreases fuel, self, 0int, 0int,
    {
        match self {
            Statement::If(t0, a, b, e0) => {
                let test = if fwd { t0 } else { e0 };
                let assert = if fwd { e0 } else { t0 };
                let tv = match as_bool(test.eval(t)) {
                    Err(x) => { return Err(x); },
                    Ok(Err(k)) => { return Err(EvalError::TypeMismatch(Operation::Condition(Construct::If), k, None)); },
                    Ok(Ok(tv)) => tv,
                };
                let r = if tv { exec_block(a, t, m, out, fuel, fwd) } else { exec_block(b, t, m, out, fuel, fwd) };
                if let Err(x) = r {
                    return Err(x);
                }
                match assert.eval(t) {
                    Err(x) => Err(x),
                    Ok(Value::Bool(av)) if av == tv => Ok(()),
                    Ok(av) => Err(EvalError::ReversibilityViolation(Construct::If, Value::Bool(tv), av)),
                }
            },
            _ => Ok(()),
        }
    }

    /// The iterations of a `From` loop whose entry assertion has held.
    fn exec_loop(&self, t: &mut Vec<(String, Value)>, m: &Module, out: &mut Vec<NativeCall>, fuel: u64, fwd: bool) -> (r: Result<(), EvalError>)
        ensures
            (conf(final(t)@, final(out)@), done_view(r)) == run_loop(self@, conf(old(t)@, old(out)@), m@, fuel as nat, fwd),
        decreases fuel, self, 0int, 0int,
    {
        match self {
            Statement::From(a0, f, b, t0) => {
                let assert = if fwd { a0 } else { t0 };
                let test = if fwd { t0 } else { a0 };
                let mut left: u64 = fuel;
                loop
                    invariant
                        left <= fuel,
                        self@ == StmtM::From(a0@, stmts_view(f@), stmts_view(b@), t0@),
                        *f == self->From_1,
                        *b == self->From_2,
                        *test == (if fwd { *t0 } else { *a0 }),
                        *assert == (if fwd { *a0 } else { *t0 }),
                        run_loop(self@, conf(old(t)@, old(out)@), m@, fuel as nat, fwd)
                            == run_loop(self@, conf(t@, out@), m@, left as nat, fwd),
                    decreases left,
                {
                    proof {
                        assert(decreases_to!(*self => self->From_1));
                        assert(decreases_to!(fuel, *self, 0int, 0int => left, *f, 0int, 0int));
                    }
                    let rf = exec_block(f, t, m, out, left, fwd);
                    match rf {
                        Err(x) => { return Err(x); },
                        Ok(()) => {},
                    }
                    proof {
                        lemma_unit_ok(rf);
                    }
                    match as_bool(test.eval(t)) {
                        Err(x) => { return Err(x); },
                        Ok(Err(k)) => { return Err(EvalError::TypeMismatch(Operation::Condition(Construct::From), k, None)); },
                        Ok(Ok(true)) => { return Ok(()); },
                        Ok(Ok(false)) => {},
                    }
                    proof {
                        assert(decreases_to!(*self => self->From_2));
                        assert(decreases_to!(fuel, *self, 0int, 0int => left, *b, 0int, 0int));
                    }
                    if let Err(x) = exec_block(b, t, m, out, left, fwd) {
                        return Err(x);
                    }
                    match as_bool(assert.eval(t)) {
                        Err(x) => { return Err(x); },
                        Ok(Err(k)) => { return Err(EvalError::TypeMismatch(Operation::Condition(Construct::From), k, None)); },
                        Ok(Ok(true)) => {
                            return Err(EvalError::ReversibilityViolation(Construct::From, Value::Bool(false), Value::Bool(true)));
                        },
                        Ok(Ok(false)) => {},
                    }
                    if left == 0 {
                        return Err(EvalError::FuelExhausted);
                    }
                    left = left - 1;
                }
            },
            _ => Ok(()),
        }
    }

    /// A `Do` or `Undo` call.
    fn exec_call(&self, t: &mut Vec<(String, Value)>, m: &Module, out: &mut Vec<NativeCall>, fuel: u64, dir: bool) -> (r: Result<(), EvalError>)
        requires
            self@ is Do || self@ is Undo,
        ensures
            (conf(final(t)@, final(out)@), done_view(r)) == run_call(self@, conf(old(t)@, old(out)@), m@, fuel as nat, dir),
        decreases fuel, self, 0int, 0int,
    {
        let (name, args, fwd) = match self {
            Statement::Do(n, a) => (n, a, dir),
            Statement::Undo(n, a) => (n, a, !dir),
            _ => { return Ok(()); },
        };
        let vals = match eval_exprs(args, t) {
            Err(x) => { return Err(x); },
            Ok(vs) => vs,
        };
        let k = match m.find(name) {
            None => { return Ok(()); },
            Some(k) => k,
        };
        match &m.items[k].1 {
            Item::InternProc(fore, back) => {
                push_call(out, if fwd { &fore.routine } else { &back.routine }, vals);
                Ok(())
            },
            Item::Proc(p) => {
                if p.params.len() != vals.len() {
                    return Err(EvalError::ArityMismatch);
                }
                if fuel == 0 {
                    return Err(EvalError::FuelExhausted);
                }
                let mut frame = make_frame(&p.params, &vals);
                exec_block(&p.body, &mut frame, m, out, fuel - 1, fwd)
            },
            Item::Mod(_) => Ok(()),
        }
    }
}

/// Runs a block: forward in order, backward in reverse order with each
/// statement inverted.
pub fn exec_block(ss: &Vec<Statement>, t: &mut Vec<(String, Value)>, m: &Module, out: &mut Vec<NativeCall>, fuel: u64, fwd: bool) -> (r: Result<(), EvalError>)
    ensures
        (conf(final(t)@, final(out)@), done_view(r)) == run_block(stmts_view(ss@), conf(old(t)@, old(out)@), m@, fuel as nat, fwd, 0),
    decreases fuel, ss, 0int, 0int,
{
    let ghost sm = stmts_view(ss@);
    let n = ss.len();
    let mut i: usize = 0;
    while i < n
        invariant
            i <= n,
            n == ss@.len(),
            sm == stmts_view(ss@),
            sm.len() == n,
            run_block(sm, conf(old(t)@, old(out)@), m@, fuel as nat, fwd, 0)
                == run_block(sm, conf(t@, out@), m@, fuel as nat, fwd, i as int),
        decreases n - i,
    {
        let k = if fwd { i } else { n - 1 - i };
        assert(sm[k as int] == ss@[k as int]@);
        let r = ss[k].exec(t, m, out, fuel, fwd);
        if let Err(x) = r {
            return Err(x);
        }
        i += 1;
    }
    Ok(())
}

} // verus!
