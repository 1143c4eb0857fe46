use vstd::prelude::*;
use crate::ast::{DerefM, ExprM, LValueM, LitM, StmtM, Type, deep_inverse, seq_inverse};
use crate::eval::{
    Conf, ErrM, UpdateOp, apply_op, bind_params, eval_all, eval_expr, last_binding, lookup, project, project_all,
    resolve, run_block, run_call, run_loop, run_stmt, run_swap, run_update,
};
use crate::module::{ItemM, find_callee};
use crate::value::{Val, rotl, rotr};

verus! {

/// Rotating a word right and then left by the same amount gives it back.
pub proof fn lemma_rotate_round_trip(x: u64, k: u64)
    requires
        k < 64,
    ensures
        rotl(rotr(x, k), k) == x,
        rotr(rotl(x, k), k) == x,
{
    if k != 0 {
        assert((((x >> k) | (x << (64 - k) as u64)) << k) | (((x >> k) | (x << (64 - k) as u64)) >> (64 - k) as u64) == x)
            by (bit_vector)
            requires 0 < k < 64;
        assert((((x << k) | (x >> (64 - k) as u64)) >> k) | (((x << k) | (x >> (64 - k) as u64)) << (64 - k) as u64) == x)
            by (bit_vector)
            requires 0 < k < 64;
    }
}

proof fn lemma_i64_bits(a: i64, x: u64)
    ensures
        (a as u64) as i64 == a,
        (x as i64) as u64 == x,
{
    assert((a as u64) as i64 == a) by (bit_vector);
    assert((x as i64) as u64 == x) by (bit_vector);
}

/// For integers of one kind, a right rotation is undone by a left rotation by
/// the same amount, and a wrapping subtraction by a wrapping addition of the
/// same value.
pub proof fn lemma_update_round_trip(v: Val, r: Val)
    requires
        (v is Int && r is Int) || (v is UInt && r is UInt),
    ensures
        apply_op(UpdateOp::RotRight, v, r) matches Ok(w) && apply_op(UpdateOp::RotLeft, w, r) == Ok::<Val, ErrM>(v),
        apply_op(UpdateOp::Sub, v, r) matches Ok(w) && apply_op(UpdateOp::Add, w, r) == Ok::<Val, ErrM>(v),
{
    match (v, r) {
        (Val::Int(a), Val::Int(b)) => {
            let k = crate::eval::rot_amount_i(b);
            assert(k < 64);
            let w = rotr(a as u64, k);
            lemma_i64_bits(a, w);
            lemma_rotate_round_trip(a as u64, k);
            assert(a.wrapping_sub(b).wrapping_add(b) == a) by (bit_vector);
        },
        (Val::UInt(a), Val::UInt(b)) => {
            lemma_rotate_round_trip(a, (b % 64) as u64);
            assert(a.wrapping_sub(b).wrapping_add(b) == a) by (bit_vector);
        },
        _ => {},
    }
}

/// Running a statement backward is running its full inverse forward.
pub proof fn lemma_backward_is_inverse(s: StmtM, c: Conf, m: Seq<(Seq<char>, ItemM)>, fuel: nat)
    ensures
        run_stmt(s, c, m, fuel, false) == run_stmt(deep_inverse(s), c, m, fuel, true),
    decreases fuel, s, 1int, 0int,
{
    match s {
        StmtM::Var(n, _, _, body, d0) => {
            if let Ok(v) = eval_expr(d0, c.stack) {
                lemma_block_backward(body, Conf { stack: c.stack.push((n, v)), ..c }, m, fuel, 0);
            }
        },
        StmtM::If(_, a, b, e0) => {
            lemma_block_backward(a, c, m, fuel, 0);
            lemma_block_backward(b, c, m, fuel, 0);
        },
        StmtM::From(..) => {
            lemma_loop_backward(s, c, m, fuel);
        },
        _ => {},
    }
}

/// Running a block backward from step `i` is running its inverse forward
/// from step `i`.
pub proof fn lemma_block_backward(ss: Seq<StmtM>, c: Conf, m: Seq<(Seq<char>, ItemM)>, fuel: nat, i: int)
    requires
        0 <= i <= ss.len(),
    ensures
        run_block(ss, c, m, fuel, false, i) == run_block(seq_inverse(ss), c, m, fuel, true, i),
    decreases fuel, ss, 0int, ss.len() - i,
{
    if i < ss.len() {
        let k = ss.len() - 1 - i;
        lemma_backward_is_inverse(ss[k], c, m, fuel);
        let (c1, r) = run_stmt(ss[k], c, m, fuel, false);
        if r is Ok {
            lemma_block_backward(ss, c1, m, fuel, i + 1);
        }
    }
}

/// The loop of a `From` statement, run backward, is the loop of its full
/// inverse run forward.
pub proof fn lemma_loop_backward(s: StmtM, c: Conf, m: Seq<(Seq<char>, ItemM)>, fuel: nat)
    requires
        s is From,
    ensures
        run_loop(s, c, m, fuel, false) == run_loop(deep_inverse(s), c, m, fuel, true),
    decreases fuel, s, 0int, 0int,
{
    match s {
        StmtM::From(a0, f, b, t0) => {
            lemma_block_backward(f, c, m, fuel, 0);
            let (c1, r1) = run_block(f, c, m, fuel, false, 0);
            if r1 is Ok {
                lemma_block_backward(b, c1, m, fuel, 0);
                let (c2, r2) = run_block(b, c1, m, fuel, false, 0);
                if r2 is Ok && fuel > 0 {
                    lemma_loop_backward(s, c2, m, (fuel - 1) as nat);
                }
            }
        },
        _ => {},
    }
}

/// A block undoes itself: run backward from wherever a forward run ends, it
/// succeeds and gives back the scope stack the forward run started from.
pub open spec fn undoes_itself(body: Seq<StmtM>, m: Seq<(Seq<char>, ItemM)>, fuel: nat) -> bool {
    forall|ca: Conf|
        #[trigger] run_block(body, ca, m, fuel, true, 0).1 is Ok ==> {
            let (cc, x) = run_block(body, run_block(body, ca, m, fuel, true, 0).0, m, fuel, false, 0);
            x is Ok && cc.stack == ca.stack
        }
}

/// A body that adds an integer literal to a plain variable undoes itself.
pub proof fn lemma_add_literal_undoes_itself(l: LValueM, k: i64, m: Seq<(Seq<char>, ItemM)>, fuel: nat)
    ensures
        undoes_itself(seq![StmtM::Add(l, ExprM::Lit(LitM::Int(k)))], m, fuel),
{
    let body = seq![StmtM::Add(l, ExprM::Lit(LitM::Int(k)))];
    assert forall|ca: Conf| #[trigger] run_block(body, ca, m, fuel, true, 0).1 is Ok implies {
        let (cc, x) = run_block(body, run_block(body, ca, m, fuel, true, 0).0, m, fuel, false, 0);
        x is Ok && cc.stack == ca.stack
    } by {
        let (c1, r1) = run_stmt(body[0], ca, m, fuel, true);
        assert(run_block(body, ca, m, fuel, true, 0) == run_block(body, c1, m, fuel, true, 1));
        let cb = c1;
        crate::eval::lemma_last_binding_range(ca.stack, l.id, ca.stack.len() as int);
        let j = lookup(ca.stack, l.id)->Some_0;
        assert(same_names(cb.stack, ca.stack));
        lemma_lookup_same_names(cb.stack, ca.stack, l.id, ca.stack.len() as int);
        let a = ca.stack[j].1->Int_0;
        assert(a.wrapping_add(k).wrapping_sub(k) == a) by (bit_vector);
        let (cc, x) = run_stmt(body[0], cb, m, fuel, false);
        assert(cc.stack =~= ca.stack);
        assert(run_block(body, cb, m, fuel, false, 0) == run_block(body, cc, m, fuel, false, 1));
    }
}

/// A `Var` scope whose body undoes itself is undone by its inverse: running
/// its full inverse (destination and initialiser exchanged, the body reversed
/// and inverted) right after a successful forward run succeeds and restores
/// the scope stack, length and content.
pub proof fn lemma_var_round_trip(
    n: Seq<char>,
    ty: Option<Type>,
    init: ExprM,
    body: Seq<StmtM>,
    dest: ExprM,
    c0: Conf,
    m: Seq<(Seq<char>, ItemM)>,
    fuel: nat,
)
    requires
        undoes_itself(body, m, fuel),
    ensures
        ({
            let s = StmtM::Var(n, ty, init, body, dest);
            let (c1, x) = run_stmt(s, c0, m, fuel, true);
            x is Ok ==> {
                let (c2, y) = run_stmt(deep_inverse(s), c1, m, fuel, true);
                y is Ok && c2.stack == c0.stack
            }
        }),
{
    let s = StmtM::Var(n, ty, init, body, dest);
    let (c1, x) = run_stmt(s, c0, m, fuel, true);
    if x is Ok {
        let v = eval_expr(init, c0.stack)->Ok_0;
        let ca = Conf { stack: c0.stack.push((n, v)), ..c0 };
        let (cb, rb) = run_block(body, ca, m, fuel, true, 0);
        assert(rb is Ok);
        crate::eval::lemma_unit_ok(rb);
        assert(cb.stack.len() > 0);
        assert(c1.stack == cb.stack.drop_last());
        let d = eval_expr(dest, c1.stack)->Ok_0;
        assert(cb.stack.last() == (n, d));
        assert(c1.stack.push((n, d)) =~= cb.stack);
        let cb2 = Conf { stack: c1.stack.push((n, d)), ..c1 };
        assert(cb2 == cb);
        let (cc, y) = run_block(body, cb, m, fuel, false, 0);
        assert(y is Ok && cc.stack == ca.stack);
        assert(cc.stack.drop_last() =~= c0.stack);
        lemma_backward_is_inverse(s, c1, m, fuel);
    }
}

proof fn lemma_lookup_same_names(s1: Seq<(Seq<char>, Val)>, s2: Seq<(Seq<char>, Val)>, name: Seq<char>, n: int)
    requires
        s1.len() == s2.len(),
        forall|i: int| 0 <= i < s1.len() ==> #[trigger] s1[i].0 == s2[i].0,
    ensures
        last_binding(s1, name, n) == last_binding(s2, name, n),
    decreases n,
{
    if n > 0 && n <= s1.len() {
        assert(s1[n - 1].0 == s2[n - 1].0);
        lemma_lookup_same_names(s1, s2, name, n - 1);
    }
}

/// Swapping twice gives back the scope stack, whatever the operands: a swap
/// that succeeds exchanges two values and is undone by the second, and one
/// that fails (an unbound name, different kinds, a projection step) changes
/// nothing. Every binding keeps its name throughout.
pub proof fn lemma_swap_twice(a: LValueM, b: LValueM, c: Conf, m: Seq<(Seq<char>, ItemM)>, fuel: nat, fwd: bool)
    ensures
        ({
            let (c1, x) = run_stmt(StmtM::Swap(a, b), c, m, fuel, fwd);
            &&& c1.stack.len() == c.stack.len()
            &&& forall|i: int| 0 <= i < c.stack.len() ==> #[trigger] c1.stack[i].0 == c.stack[i].0
            &&& x is Err ==> c1 == c
            &&& run_stmt(StmtM::Swap(a, b), c1, m, fuel, fwd).0 == c
            &&& x is Ok ==> run_stmt(StmtM::Swap(a, b), c1, m, fuel, fwd) == (c, Ok::<(), ErrM>(()))
        }),
{
    let (c1, x) = run_swap(a, b, c);
    if x is Ok {
        let ka = lookup(c.stack, a.id)->Some_0;
        let kb = lookup(c.stack, b.id)->Some_0;
        crate::eval::lemma_last_binding_range(c.stack, a.id, c.stack.len() as int);
        crate::eval::lemma_last_binding_range(c.stack, b.id, c.stack.len() as int);
        assert forall|i: int| 0 <= i < c.stack.len() implies #[trigger] c1.stack[i].0 == c.stack[i].0 by {}
        lemma_lookup_same_names(c1.stack, c.stack, a.id, c.stack.len() as int);
        lemma_lookup_same_names(c1.stack, c.stack, b.id, c.stack.len() as int);
        let (c2, y) = run_swap(a, b, c1);
        assert(c2.stack =~= c.stack);
        assert(c2 == c);
    }
}

/// A `From` loop whose exit test holds right after the first forward body
/// runs that body exactly once and its backward body never: the outcome is
/// the forward body's.
pub proof fn lemma_from_single_pass(
    a: ExprM,
    f: Seq<StmtM>,
    b: Seq<StmtM>,
    t: ExprM,
    c: Conf,
    m: Seq<(Seq<char>, ItemM)>,
    fuel: nat,
)
    requires
        eval_expr(a, c.stack) == Ok::<Val, ErrM>(Val::Bool(true)),
        run_block(f, c, m, fuel, true, 0).1 is Ok,
        eval_expr(t, run_block(f, c, m, fuel, true, 0).0.stack) == Ok::<Val, ErrM>(Val::Bool(true)),
    ensures
        run_stmt(StmtM::From(a, f, b, t), c, m, fuel, true) == run_block(f, c, m, fuel, true, 0),
{
    crate::eval::lemma_unit_ok(run_block(f, c, m, fuel, true, 0).1);
}

proof fn lemma_expr_not_corrupt(e: ExprM, st: Seq<(Seq<char>, Val)>)
    ensures
        !(eval_expr(e, st) matches Err(ErrM::ScopeCorruption)),
    decreases e, 0int,
{
    match e {
        ExprM::Lit(LitM::Array(es)) => lemma_all_not_corrupt(es, st, es.len() as int),
        ExprM::LVal(lv) => lemma_resolve_not_corrupt(lv, st),
        _ => {},
    }
}

proof fn lemma_all_not_corrupt(es: Seq<ExprM>, st: Seq<(Seq<char>, Val)>, n: int)
    ensures
        !(eval_all(es, st, n) matches Err(ErrM::ScopeCorruption)),
    decreases es, n,
{
    if n > 0 && n <= es.len() {
        lemma_all_not_corrupt(es, st, n - 1);
        lemma_expr_not_corrupt(es[n - 1], st);
    }
}

proof fn lemma_resolve_not_corrupt(lv: LValueM, st: Seq<(Seq<char>, Val)>)
    ensures
        !(resolve(lv, st) matches Err(ErrM::ScopeCorruption)),
    decreases lv, 0int,
{
    if let Some(k) = lookup(st, lv.id) {
        lemma_project_all_not_corrupt(lv.ops, st[k].1, st, lv.ops.len() as int);
    }
}

proof fn lemma_project_all_not_corrupt(ops: Seq<DerefM>, b: Val, st: Seq<(Seq<char>, Val)>, n: int)
    ensures
        !(project_all(ops, b, st, n) matches Err(ErrM::ScopeCorruption)),
    decreases ops, n,
{
    if n > 0 && n <= ops.len() {
        lemma_project_all_not_corrupt(ops, b, st, n - 1);
        if let Ok(v) = project_all(ops, b, st, n - 1) {
            lemma_project_not_corrupt(ops[n - 1], v, st);
        }
    }
}

proof fn lemma_project_not_corrupt(d: DerefM, v: Val, st: Seq<(Seq<char>, Val)>)
    ensures
        !(project(d, v, st) matches Err(ErrM::ScopeCorruption)),
    decreases d, 0int,
{
    if let DerefM::Index(e) = d {
        lemma_expr_not_corrupt(e, st);
    }
}

proof fn lemma_update_keeps_scopes(op: UpdateOp, lv: LValueM, e: ExprM, c: Conf)
    ensures
        ({
            let (c1, r) = run_update(op, lv, e, c);
            &&& r is Ok ==> same_names(c1.stack, c.stack)
            &&& !(r matches Err(ErrM::ScopeCorruption))
        }),
{
    crate::eval::lemma_last_binding_range(c.stack, lv.id, c.stack.len() as int);
    lemma_expr_not_corrupt(e, c.stack);
    let (c1, r) = run_update(op, lv, e, c);
    if r is Ok {
        assert(same_names(c1.stack, c.stack));
    }
}

/// Two stacks hold bindings of the same names at the same positions.
pub open spec fn same_names(a: Seq<(Seq<char>, Val)>, b: Seq<(Seq<char>, Val)>) -> bool {
    &&& a.len() == b.len()
    &&& forall|i: int| 0 <= i < a.len() ==> #[trigger] a[i].0 == b[i].0
}

/// Scope discipline: a statement that succeeds, in either direction, leaves
/// the stack with the same length and the same name at every position; and
/// no statement ever ends in `ScopeCorruption`.
pub proof fn lemma_stmt_keeps_scopes(s: StmtM, c: Conf, m: Seq<(Seq<char>, ItemM)>, fuel: nat, fwd: bool)
    ensures
        ({
            let (c1, r) = run_stmt(s, c, m, fuel, fwd);
            &&& r is Ok ==> same_names(c1.stack, c.stack)
            &&& !(r matches Err(ErrM::ScopeCorruption))
        }),
    decreases fuel, s, 1int, 0int,
{
    match s {
        StmtM::Var(n, _, i0, body, d0) => {
            let init = if fwd { i0 } else { d0 };
            let dest = if fwd { d0 } else { i0 };
            lemma_expr_not_corrupt(init, c.stack);
            if let Ok(v) = eval_expr(init, c.stack) {
                let ca = Conf { stack: c.stack.push((n, v)), ..c };
                lemma_block_keeps_scopes(body, ca, m, fuel, fwd, 0);
                let (cb, rb) = run_block(body, ca, m, fuel, fwd, 0);
                if rb is Ok {
                    lemma_expr_not_corrupt(dest, cb.stack.drop_last());
                    assert(cb.stack[cb.stack.len() - 1].0 == ca.stack[ca.stack.len() - 1].0);
                    assert(same_names(cb.stack.drop_last(), c.stack)) by {
                        assert forall|i: int| 0 <= i < c.stack.len() implies #[trigger] cb.stack.drop_last()[i].0 == c.stack[i].0 by {
                            assert(cb.stack[i].0 == ca.stack[i].0);
                        }
                    }
                }
            }
        },
        StmtM::If(t0, a, b, e0) => {
            lemma_expr_not_corrupt(if fwd { t0 } else { e0 }, c.stack);
            lemma_block_keeps_scopes(a, c, m, fuel, fwd, 0);
            lemma_block_keeps_scopes(b, c, m, fuel, fwd, 0);
            let (c2, r) = run_block(a, c, m, fuel, fwd, 0);
            lemma_expr_not_corrupt(if fwd { e0 } else { t0 }, c2.stack);
            let (c3, r3) = run_block(b, c, m, fuel, fwd, 0);
            lemma_expr_not_corrupt(if fwd { e0 } else { t0 }, c3.stack);
        },
        StmtM::From(a0, _, _, t0) => {
            lemma_expr_not_corrupt(if fwd { a0 } else { t0 }, c.stack);
            lemma_loop_keeps_scopes(s, c, m, fuel, fwd);
        },
        StmtM::Do(..) | StmtM::Undo(..) => {
            lemma_call_keeps_scopes(s, c, m, fuel, fwd);
        },
        StmtM::Swap(a, b) => {
            lemma_swap_twice(a, b, c, m, fuel, fwd);
        },
        StmtM::RotLeft(l, e) => lemma_update_keeps_scopes(UpdateOp::RotLeft, l, e, c),
        StmtM::RotRight(l, e) => lemma_update_keeps_scopes(UpdateOp::RotRight, l, e, c),
        StmtM::Xor(l, e) => lemma_update_keeps_scopes(UpdateOp::Xor, l, e, c),
        StmtM::Add(l, e) => lemma_update_keeps_scopes(if fwd { UpdateOp::Add } else { UpdateOp::Sub }, l, e, c),
        StmtM::Sub(l, e) => lemma_update_keeps_scopes(if fwd { UpdateOp::Sub } else { UpdateOp::Add }, l, e, c),
        StmtM::Skip => {},
    }
}

proof fn lemma_call_keeps_scopes(s: StmtM, c: Conf, m: Seq<(Seq<char>, ItemM)>, fuel: nat, dir: bool)
    requires
        s is Do || s is Undo,
    ensures
        ({
            let (c1, r) = run_call(s, c, m, fuel, dir);
            &&& c1.stack == c.stack
            &&& !(r matches Err(ErrM::ScopeCorruption))
        }),
    decreases fuel, s, 0int, 0int,
{
    let (name, args, fwd) = match s {
        StmtM::Do(n, a) => (n, a, dir),
        StmtM::Undo(n, a) => (n, a, !dir),
        _ => (Seq::empty(), Seq::empty(), dir),
    };
    lemma_all_not_corrupt(args, c.stack, args.len() as int);
    if let Ok(vals) = eval_all(args, c.stack, args.len() as int) {
        if let Some(k) = find_callee(m, name, 0) {
            if let ItemM::Proc(p) = m[k].1 {
                if p.params.len() == vals.len() && fuel > 0 {
                    let frame = Conf { stack: bind_params(p.params, vals), calls: c.calls };
                    lemma_block_keeps_scopes(p.body, frame, m, (fuel - 1) as nat, fwd, 0);
                }
            }
        }
    }
}

proof fn lemma_block_keeps_scopes(ss: Seq<StmtM>, c: Conf, m: Seq<(Seq<char>, ItemM)>, fuel: nat, fwd: bool, i: int)
    requires
        0 <= i <= ss.len(),
    ensures
        ({
            let (c1, r) = run_block(ss, c, m, fuel, fwd, i);
            &&& r is Ok ==> same_names(c1.stack, c.stack)
            &&& !(r matches Err(ErrM::ScopeCorruption))
        }),
    decreases fuel, ss, 0int, ss.len() - i,
{
    if i < ss.len() {
        let k = if fwd { i } else { ss.len() - 1 - i };
        lemma_stmt_keeps_scopes(ss[k], c, m, fuel, fwd);
        let (c1, r) = run_stmt(ss[k], c, m, fuel, fwd);
        if r is Ok {
            lemma_block_keeps_scopes(ss, c1, m, fuel, fwd, i + 1);
        }
    }
}

proof fn lemma_loop_keeps_scopes(s: StmtM, c: Conf, m: Seq<(Seq<char>, ItemM)>, fuel: nat, fwd: bool)
    requires
        s is From,
    ensures
        ({
            let (c1, r) = run_loop(s, c, m, fuel, fwd);
            &&& r is Ok ==> same_names(c1.stack, c.stack)
            &&& !(r matches Err(ErrM::ScopeCorruption))
        }),
    decreases fuel, s, 0int, 0int,
{
    match s {
        StmtM::From(a0, f, b, t0) => {
            lemma_block_keeps_scopes(f, c, m, fuel, fwd, 0);
            let (c1, r1) = run_block(f, c, m, fuel, fwd, 0);
            if r1 is Ok {
                lemma_expr_not_corrupt(if fwd { t0 } else { a0 }, c1.stack);
                lemma_block_keeps_scopes(b, c1, m, fuel, fwd, 0);
                let (c2, r2) = run_block(b, c1, m, fuel, fwd, 0);
                if r2 is Ok {
                    lemma_expr_not_corrupt(if fwd { a0 } else { t0 }, c2.stack);
                    if fuel > 0 {
                        lemma_loop_keeps_scopes(s, c2, m, (fuel - 1) as nat, fwd);
                    }
                }
            }
        },
        _ => {},
    }
}

} // verus!
