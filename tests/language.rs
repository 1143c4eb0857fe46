use revlang::ast::{invert_sequence, Deref, Expr, LValue, Literal, Statement, Type};
use revlang::eval::{apply_update, Construct, EvalError, NativeCall, Operation, UpdateOp};
use revlang::module::{Item, Module, Proc, Procedure};
use revlang::parse::Parser;
use revlang::token::Token;
use revlang::value::{Kind, Value};

fn id(s: &str) -> Token {
    Token::Ident(s.to_string())
}

fn num(s: &str) -> Token {
    Token::Number(s.to_string())
}

fn var(name: &str) -> LValue {
    LValue { id: name.to_string(), ops: Vec::new() }
}

fn lit_int(i: i64) -> Expr {
    Expr::Lit(Literal::Int(i))
}

fn boolean(b: bool) -> Expr {
    Expr::Lit(Literal::Bool(b))
}

fn stack(bs: &[(&str, Value)]) -> Vec<(String, Value)> {
    bs.iter()
        .map(|(n, v)| (n.to_string(), copy(v)))
        .collect()
}

fn copy(v: &Value) -> Value {
    match v {
        Value::Int(i) => Value::Int(*i),
        Value::UInt(u) => Value::UInt(*u),
        Value::Bool(b) => Value::Bool(*b),
        Value::Char(c) => Value::Char(*c),
        Value::String(s) => Value::String(s.clone()),
        Value::Nil => Value::Nil,
        other => panic!("no copy for {:?}", other),
    }
}

fn run(s: &Statement, t: &mut Vec<(String, Value)>) -> Result<(), EvalError> {
    let m = Module::new();
    let mut out = Vec::new();
    s.eval(t, &m, &mut out)
}

fn parse_one(tokens: Vec<Token>) -> Statement {
    let mut p = Parser::new(tokens);
    let s = p.parse_stmt().expect("statement parses");
    assert!(p.at_end());
    s
}

#[test]
fn var_scope_parses_and_balances() {
    let s = parse_one(vec![
        Token::Var, id("x"), Token::Assign, num("5"), Token::Newline,
        id("x"), Token::AddAssign, num("3"), Token::Newline,
        Token::Drop, id("x"), Token::Assign, num("8"),
    ]);
    let mut t = Vec::new();
    assert_eq!(run(&s, &mut t), Ok(()));
    assert_eq!(t.len(), 0);
}

#[test]
fn var_scope_with_wrong_destination_is_a_violation() {
    let s = parse_one(vec![
        Token::Var, id("x"), Token::Assign, num("5"), Token::Newline,
        id("x"), Token::AddAssign, num("3"), Token::Newline,
        Token::Drop, id("x"), Token::Assign, num("9"),
    ]);
    let mut t = Vec::new();
    assert_eq!(
        run(&s, &mut t),
        Err(EvalError::ReversibilityViolation(Construct::Var, Value::Int(9), Value::Int(8)))
    );
}

#[test]
fn var_scope_needs_matching_name() {
    let mut p = Parser::new(vec![
        Token::Var, id("x"), Token::Assign, num("5"), Token::Newline,
        Token::Drop, id("y"), Token::Assign, num("5"),
    ]);
    let e = p.parse_stmt().unwrap_err();
    assert_eq!(e.expected, "same variable name as before");
    assert_eq!(e.at, 6);
    assert_eq!(p.pos, 0);
}

#[test]
fn var_scope_with_type() {
    let s = parse_one(vec![
        Token::Var, id("x"), Token::Colon, id("int"), Token::Assign, num("1"), Token::Newline,
        Token::Drop, id("x"), Token::Assign, num("1"),
    ]);
    match s {
        Statement::Var(n, t, ..) => {
            assert_eq!(n, "x");
            assert_eq!(t, Some(Type::Int));
        }
        other => panic!("unexpected {:?}", other),
    }
}

#[test]
fn if_with_true_assertion_runs_then_branch() {
    let s = parse_one(vec![
        Token::If, id("true"), Token::Newline,
        id("x"), Token::AddAssign, num("1"), Token::Newline,
        Token::Fi, id("true"),
    ]);
    let mut t = stack(&[("x", Value::Int(0))]);
    assert_eq!(run(&s, &mut t), Ok(()));
    assert_eq!(t, stack(&[("x", Value::Int(1))]));
}

#[test]
fn if_with_false_assertion_is_a_violation() {
    let s = parse_one(vec![
        Token::If, id("true"), Token::Newline,
        id("x"), Token::AddAssign, num("1"), Token::Newline,
        Token::Fi, id("false"),
    ]);
    let mut t = stack(&[("x", Value::Int(0))]);
    assert_eq!(
        run(&s, &mut t),
        Err(EvalError::ReversibilityViolation(Construct::If, Value::Bool(true), Value::Bool(false)))
    );
}

#[test]
fn if_without_assertion_asserts_its_condition() {
    let s = parse_one(vec![
        Token::If, id("c"), Token::Newline,
        id("x"), Token::AddAssign, num("1"), Token::Newline,
        Token::Else, Token::Newline,
        id("x"), Token::SubAssign, num("1"), Token::Newline,
        Token::Fi,
    ]);
    match &s {
        Statement::If(test, _, other, assert) => {
            assert_eq!(test, assert);
            assert_eq!(other.len(), 1);
        }
        other => panic!("unexpected {:?}", other),
    }
    let mut t = stack(&[("c", Value::Bool(false)), ("x", Value::Int(0))]);
    assert_eq!(run(&s, &mut t), Ok(()));
    assert_eq!(t[1].1, Value::Int(-1));
}

#[test]
fn else_block_must_not_be_empty() {
    let mut p = Parser::new(vec![
        Token::If, id("c"), Token::Newline, Token::Else, Token::Newline, Token::Fi,
    ]);
    assert_eq!(p.parse_stmt().unwrap_err().expected, "else-block to have at least 1 statement");
}

#[test]
fn non_boolean_test_is_a_type_mismatch() {
    let s = Statement::If(lit_int(1), Vec::new(), Vec::new(), lit_int(1));
    let mut t = Vec::new();
    assert_eq!(run(&s, &mut t), Err(EvalError::TypeMismatch(Operation::Condition(Construct::If), Kind::Int, None)));
}

#[test]
fn swap_of_int_and_bool_is_a_type_mismatch() {
    let s = Statement::Swap(var("a"), var("b"));
    let mut t = stack(&[("a", Value::Int(1)), ("b", Value::Bool(true))]);
    assert_eq!(run(&s, &mut t), Err(EvalError::TypeMismatch(Operation::Swap, Kind::Int, Some(Kind::Bool))));
    assert_eq!(t, stack(&[("a", Value::Int(1)), ("b", Value::Bool(true))]));
}

#[test]
fn swap_twice_restores_values_and_keeps_names() {
    let s = parse_one(vec![id("a"), Token::Swap, id("b")]);
    let mut t = stack(&[("a", Value::Int(1)), ("z", Value::Nil), ("b", Value::Int(2))]);
    assert_eq!(run(&s, &mut t), Ok(()));
    assert_eq!(t, stack(&[("a", Value::Int(2)), ("z", Value::Nil), ("b", Value::Int(1))]));
    assert_eq!(run(&s, &mut t), Ok(()));
    assert_eq!(t, stack(&[("a", Value::Int(1)), ("z", Value::Nil), ("b", Value::Int(2))]));
}

#[test]
fn swap_uses_most_recent_binding() {
    let s = Statement::Swap(var("a"), var("b"));
    let mut t = stack(&[("a", Value::Int(1)), ("b", Value::Int(2)), ("a", Value::Int(3))]);
    assert_eq!(run(&s, &mut t), Ok(()));
    assert_eq!(t, stack(&[("a", Value::Int(1)), ("b", Value::Int(3)), ("a", Value::Int(2))]));
}

#[test]
fn invert_twice_is_identity() {
    let s = parse_one(vec![
        Token::Var, id("x"), Token::Assign, num("5"), Token::Newline,
        id("x"), Token::AddAssign, num("3"), Token::Newline,
        Token::Drop, id("x"), Token::Assign, num("8"),
    ]);
    let again = parse_one(vec![
        Token::Var, id("x"), Token::Assign, num("5"), Token::Newline,
        id("x"), Token::AddAssign, num("3"), Token::Newline,
        Token::Drop, id("x"), Token::Assign, num("8"),
    ]);
    let once = s.invert();
    match &once {
        Statement::Var(_, _, init, _, dest) => {
            assert_eq!(*init, lit_int(8));
            assert_eq!(*dest, lit_int(5));
        }
        other => panic!("unexpected {:?}", other),
    }
    assert_eq!(once.invert(), again);
    let add = Statement::Add(var("x"), lit_int(2));
    assert_eq!(add.invert(), Statement::Sub(var("x"), lit_int(2)));
    assert_eq!(Statement::Sub(var("x"), lit_int(2)).invert().invert(), Statement::Sub(var("x"), lit_int(2)));
    assert_eq!(Statement::RotLeft(var("x"), lit_int(2)).invert(), Statement::RotLeft(var("x"), lit_int(2)));
    assert_eq!(
        Statement::Do("p".to_string(), vec![lit_int(1)]).invert(),
        Statement::Undo("p".to_string(), vec![lit_int(1)])
    );
    assert_eq!(
        Statement::From(boolean(true), Vec::new(), Vec::new(), boolean(false)).invert(),
        Statement::From(boolean(false), Vec::new(), Vec::new(), boolean(true))
    );
}

#[test]
fn rotations_and_wrapping_round_trip() {
    let v = Value::Int(-123456789);
    let r = Value::Int(70);
    let w = apply_update(UpdateOp::RotRight, &v, &r).unwrap();
    assert_eq!(apply_update(UpdateOp::RotLeft, &w, &r), Ok(Value::Int(-123456789)));
    let w = apply_update(UpdateOp::Sub, &Value::Int(i64::MIN), &Value::Int(5)).unwrap();
    assert_eq!(w, Value::Int(i64::MAX - 4));
    assert_eq!(apply_update(UpdateOp::Add, &w, &Value::Int(5)), Ok(Value::Int(i64::MIN)));
    let u = apply_update(UpdateOp::RotLeft, &Value::UInt(1), &Value::UInt(65)).unwrap();
    assert_eq!(u, Value::UInt(2));
    assert_eq!(apply_update(UpdateOp::RotRight, &Value::UInt(1), &Value::UInt(1)), Ok(Value::UInt(1 << 63)));
    assert_eq!(apply_update(UpdateOp::Add, &Value::UInt(u64::MAX), &Value::UInt(2)), Ok(Value::UInt(1)));
    assert_eq!(apply_update(UpdateOp::Xor, &Value::Int(6), &Value::Int(3)), Ok(Value::Int(5)));
    assert_eq!(apply_update(UpdateOp::RotLeft, &Value::Int(1), &Value::Int(-1)), Ok(Value::Int(i64::MIN)));
    assert_eq!(apply_update(UpdateOp::Add, &Value::Int(1), &Value::UInt(1)), Err(EvalError::TypeMismatch(Operation::Update(UpdateOp::Add), Kind::Int, Some(Kind::UInt))));
}

#[test]
fn var_forward_then_backward_restores_stack() {
    let s = parse_one(vec![
        Token::Var, id("y"), Token::Assign, num("2"), Token::Newline,
        id("x"), Token::AddAssign, id("y"), Token::Newline,
        id("y"), Token::AddAssign, num("4"), Token::Newline,
        Token::Drop, id("y"), Token::Assign, num("6"),
    ]);
    let m = Module::new();
    let mut out = Vec::new();
    let mut t = stack(&[("x", Value::Int(10))]);
    assert_eq!(s.exec(&mut t, &m, &mut out, 100, true), Ok(()));
    assert_eq!(t, stack(&[("x", Value::Int(12))]));
    assert_eq!(s.exec(&mut t, &m, &mut out, 100, false), Ok(()));
    assert_eq!(t, stack(&[("x", Value::Int(10))]));
}

#[test]
fn from_with_true_test_runs_forward_body_once() {
    let s = parse_one(vec![
        Token::From, id("true"), Token::Newline,
        id("x"), Token::AddAssign, num("1"), Token::Newline,
        Token::Until, id("true"), Token::Newline,
        id("y"), Token::AddAssign, num("1"), Token::Newline,
        Token::Loop,
    ]);
    let mut t = stack(&[("x", Value::Int(0)), ("y", Value::Int(0))]);
    assert_eq!(run(&s, &mut t), Ok(()));
    assert_eq!(t, stack(&[("x", Value::Int(1)), ("y", Value::Int(0))]));
}

#[test]
fn from_loop_iterates_until_budget_or_violation() {
    // first pass: `a` flips to false, the test fails, the back body runs and
    // the assertion is false, so the loop goes round again
    let s = Statement::From(
        Expr::LVal(var("a")),
        vec![Statement::Swap(var("a"), var("f")), Statement::Add(var("i"), lit_int(1))],
        vec![Statement::Add(var("n"), lit_int(1))],
        Expr::LVal(var("stop")),
    );
    let m = Module::new();
    let mut out = Vec::new();
    let fresh = || {
        vec![
            ("a".to_string(), Value::Bool(true)),
            ("f".to_string(), Value::Bool(false)),
            ("stop".to_string(), Value::Bool(false)),
            ("i".to_string(), Value::Int(0)),
            ("n".to_string(), Value::Int(0)),
        ]
    };
    let mut t = fresh();
    assert_eq!(s.exec(&mut t, &m, &mut out, 0, true), Err(EvalError::FuelExhausted));
    assert_eq!(t[3].1, Value::Int(1));
    assert_eq!(t[4].1, Value::Int(1));
    // with budget left, the second pass flips `a` back to true, and the
    // assertion catches it
    let mut t = fresh();
    assert_eq!(
        s.exec(&mut t, &m, &mut out, 5, true),
        Err(EvalError::ReversibilityViolation(Construct::From, Value::Bool(false), Value::Bool(true)))
    );
    assert_eq!(t[3].1, Value::Int(2));
    assert_eq!(t[4].1, Value::Int(2));
    // a non-boolean test
    let s = Statement::From(boolean(true), vec![Statement::Skip], Vec::new(), lit_int(0));
    let mut t = Vec::new();
    assert_eq!(run(&s, &mut t), Err(EvalError::TypeMismatch(Operation::Condition(Construct::From), Kind::Int, None)));
}

#[test]
fn from_entry_assertion_must_hold() {
    let s = Statement::From(boolean(false), vec![Statement::Skip], Vec::new(), boolean(true));
    let mut t = Vec::new();
    assert_eq!(
        run(&s, &mut t),
        Err(EvalError::ReversibilityViolation(Construct::From, Value::Bool(true), Value::Bool(false)))
    );
}

#[test]
fn from_needs_a_body() {
    let mut p = Parser::new(vec![
        Token::From, id("a"), Token::Newline, Token::Until, id("b"), Token::Newline, Token::Loop,
    ]);
    assert_eq!(p.parse_stmt().unwrap_err().expected, "a non-empty do-block or back-block in from-loop");
}

#[test]
fn unbound_name() {
    let s = Statement::Add(var("nope"), lit_int(1));
    let mut t = Vec::new();
    assert_eq!(run(&s, &mut t), Err(EvalError::UnboundName("nope".to_string())));
}

#[test]
fn projections_read_length_and_elements() {
    let mut p = Parser::new(vec![id("s"), Token::Period, id("len")]);
    let e = p.parse_expr().unwrap();
    let t = stack(&[("s", Value::String("héllo".to_string()))]);
    assert_eq!(e.eval(&t), Ok(Value::UInt(5)));
    let mut p = Parser::new(vec![id("s"), Token::Period, Token::LParen, num("1"), Token::RParen]);
    let e = p.parse_expr().unwrap();
    assert_eq!(e.eval(&t), Ok(Value::Char('é')));
    let mut p = Parser::new(vec![id("s"), Token::Period, Token::LParen, num("5"), Token::RParen]);
    let e = p.parse_expr().unwrap();
    assert_eq!(e.eval(&t), Err(EvalError::IndexOutOfRange(Value::String("héllo".to_string()), Value::Int(5))));
    let arr = Expr::Lit(Literal::Array(vec![lit_int(4), boolean(true)]));
    let t = stack(&[]);
    assert_eq!(arr.eval(&t), Ok(Value::Array(vec![Value::Int(4), Value::Bool(true)])));
    let lv = LValue { id: "a".to_string(), ops: vec![Deref::Index(lit_int(1))] };
    let t = vec![("a".to_string(), Value::Array(vec![Value::Int(4), Value::Bool(true)]))];
    assert_eq!(lv.eval(&t), Ok(Value::Bool(true)));
    let lv = LValue { id: "a".to_string(), ops: vec![Deref::Field("len".to_string())] };
    assert_eq!(lv.eval(&t), Ok(Value::UInt(2)));
    let lv = LValue { id: "a".to_string(), ops: vec![Deref::Direct] };
    assert_eq!(lv.eval(&t), Err(EvalError::UnsupportedDereference));
    let lv = LValue { id: "a".to_string(), ops: vec![Deref::Index(boolean(true))] };
    assert_eq!(lv.eval(&t), Err(EvalError::TypeMismatch(Operation::Index, Kind::Array, Some(Kind::Bool))));
    let lv = LValue { id: "a".to_string(), ops: vec![Deref::Field("size".to_string())] };
    assert_eq!(lv.eval(&t), Err(EvalError::TypeMismatch(Operation::Field, Kind::Array, None)));
}

#[test]
fn update_through_projection_is_refused() {
    let s = Statement::Add(LValue { id: "a".to_string(), ops: vec![Deref::Index(lit_int(0))] }, lit_int(1));
    let mut t = vec![("a".to_string(), Value::Array(vec![Value::Int(4)]))];
    assert_eq!(run(&s, &mut t), Err(EvalError::UnsupportedDereference));
}

#[test]
fn literals_parse() {
    let mut p = Parser::new(vec![
        Token::LBracket, num("1"), Token::Comma, Token::Char('c'), Token::Comma,
        Token::Str("s".to_string()), Token::RBracket,
    ]);
    assert_eq!(
        p.parse_expr(),
        Ok(Expr::Lit(Literal::Array(vec![
            lit_int(1),
            Expr::Lit(Literal::Char('c')),
            Expr::Lit(Literal::String("s".to_string())),
        ])))
    );
    let mut p = Parser::new(vec![
        Token::Fn, Token::LParen, id("a"), Token::Comma, id("b"), Token::RParen, Token::Colon, id("a"),
    ]);
    assert_eq!(
        p.parse_expr(),
        Ok(Expr::Lit(Literal::Fn(vec!["a".to_string(), "b".to_string()], Box::new(Expr::LVal(var("a"))))))
    );
    let mut p = Parser::new(vec![id("nil")]);
    assert_eq!(p.parse_expr(), Ok(Expr::Lit(Literal::Nil)));
    let mut p = Parser::new(vec![num("9223372036854775808")]);
    assert_eq!(p.parse_expr().unwrap_err().expected, "a smaller number");
    let mut p = Parser::new(vec![num("9223372036854775807")]);
    assert_eq!(p.parse_expr(), Ok(lit_int(i64::MAX)));
}

#[test]
fn literal_types() {
    assert_eq!(Literal::Nil.get_type(), Some(Type::Unit));
    assert_eq!(Literal::UInt(3).get_type(), Some(Type::UInt));
    assert_eq!(Literal::String("a".to_string()).get_type(), Some(Type::String));
    assert_eq!(Literal::Array(Vec::new()).get_type(), None);
}

#[test]
fn lvalue_steps_parse() {
    let mut p = Parser::new(vec![
        id("a"), Token::Bang, Token::Period, id("len"), Token::Period, Token::LParen, id("i"), Token::RParen,
    ]);
    assert_eq!(
        p.parse_lval(),
        Ok(LValue {
            id: "a".to_string(),
            ops: vec![Deref::Direct, Deref::Field("len".to_string()), Deref::Index(Expr::LVal(var("i")))],
        })
    );
    let mut p = Parser::new(vec![Token::Comma]);
    assert_eq!(p.parse_lval().unwrap_err().expected, "variable name in left-value expression");
}

#[test]
fn update_operators_parse() {
    let ops = [
        (Token::Assign, Statement::Xor(var("x"), lit_int(1))),
        (Token::AddAssign, Statement::Add(var("x"), lit_int(1))),
        (Token::SubAssign, Statement::Sub(var("x"), lit_int(1))),
        (Token::Rol, Statement::RotLeft(var("x"), lit_int(1))),
        (Token::Ror, Statement::RotRight(var("x"), lit_int(1))),
    ];
    for (tok, want) in ops {
        assert_eq!(parse_one(vec![id("x"), tok, num("1"), Token::Newline]), want);
    }
    let mut p = Parser::new(vec![id("x"), Token::Comma, num("1")]);
    assert_eq!(p.parse_stmt().unwrap_err().expected, "`:=`, `+=`, `-=`, a rotation, or `<>`");
    let mut p = Parser::new(vec![id("x")]);
    assert_eq!(p.parse_stmt().unwrap_err().expected, "modifying operator");
}

#[test]
fn calls_parse() {
    assert_eq!(parse_one(vec![Token::Do, id("f")]), Statement::Do("f".to_string(), Vec::new()));
    assert_eq!(
        parse_one(vec![Token::Undo, id("f"), Token::Colon, num("1"), Token::Comma, id("x"), Token::Newline]),
        Statement::Undo("f".to_string(), vec![lit_int(1), Expr::LVal(var("x"))])
    );
    let mut p = Parser::new(vec![Token::Do, id("f"), num("1")]);
    assert_eq!(p.parse_stmt().unwrap_err().expected, "`:`, or newline");
}

#[test]
fn statement_parse_reports_length() {
    let toks = vec![Token::Skip, Token::Newline, Token::Skip];
    assert_eq!(Statement::parse(&toks), Ok((Statement::Skip, 2)));
}

#[test]
fn native_procedures_are_reported() {
    let mut m = Module::new();
    m.add_internal_procedure(
        "print".to_string(),
        Proc { routine: "print".to_string() },
        Proc { routine: "unprint".to_string() },
    );
    let mut out: Vec<NativeCall> = Vec::new();
    let mut t = stack(&[("x", Value::Int(7))]);
    let s = Statement::Do("print".to_string(), vec![Expr::LVal(var("x"))]);
    assert_eq!(s.eval(&mut t, &m, &mut out), Ok(()));
    let u = Statement::Undo("print".to_string(), vec![lit_int(1)]);
    assert_eq!(u.eval(&mut t, &m, &mut out), Ok(()));
    assert_eq!(
        out,
        vec![
            NativeCall { routine: "print".to_string(), args: vec![Value::Int(7)] },
            NativeCall { routine: "unprint".to_string(), args: vec![Value::Int(1)] },
        ]
    );
    let missing = Statement::Do("nothing".to_string(), Vec::new());
    assert_eq!(missing.eval(&mut t, &m, &mut out), Ok(()));
    assert_eq!(out.len(), 2);
}

#[test]
fn procedures_run_in_their_own_frame() {
    let mut m = Module::new();
    m.add_internal_procedure("log".to_string(), Proc { routine: "log".to_string() }, Proc { routine: "unlog".to_string() });
    let body = vec![
        Statement::Add(var("a"), lit_int(1)),
        Statement::Do("log".to_string(), vec![Expr::LVal(var("a"))]),
        Statement::Add(var("a"), lit_int(10)),
        Statement::Do("log".to_string(), vec![Expr::LVal(var("a"))]),
    ];
    m.insert(
        "bump".to_string(),
        Item::Proc(Procedure { name: "bump".to_string(), params: vec!["a".to_string()], body }),
    );
    let mut out = Vec::new();
    let mut t = stack(&[("x", Value::Int(0))]);
    let call = Statement::Do("bump".to_string(), vec![Expr::LVal(var("x"))]);
    assert_eq!(call.eval(&mut t, &m, &mut out), Ok(()));
    assert_eq!(t, stack(&[("x", Value::Int(0))]));
    assert_eq!(out[0], NativeCall { routine: "log".to_string(), args: vec![Value::Int(1)] });
    assert_eq!(out[1], NativeCall { routine: "log".to_string(), args: vec![Value::Int(11)] });
    out.clear();
    let undo = Statement::Undo("bump".to_string(), vec![lit_int(11)]);
    assert_eq!(undo.eval(&mut t, &m, &mut out), Ok(()));
    assert_eq!(out[0], NativeCall { routine: "unlog".to_string(), args: vec![Value::Int(11)] });
    assert_eq!(out[1], NativeCall { routine: "unlog".to_string(), args: vec![Value::Int(1)] });
    let wrong = Statement::Do("bump".to_string(), Vec::new());
    assert_eq!(wrong.eval(&mut t, &m, &mut out), Err(EvalError::ArityMismatch));
}

#[test]
fn recursion_runs_out_of_fuel() {
    let mut m = Module::new();
    m.insert(
        "again".to_string(),
        Item::Proc(Procedure { name: "again".to_string(), params: Vec::new(), body: vec![Statement::Do("again".to_string(), Vec::new())] }),
    );
    let mut out = Vec::new();
    let mut t = Vec::new();
    let call = Statement::Do("again".to_string(), Vec::new());
    assert_eq!(call.exec(&mut t, &m, &mut out, 50, true), Err(EvalError::FuelExhausted));
}

#[test]
fn registry_keeps_first_entry_of_a_name() {
    let mut m = Module::new();
    m.add_internal_procedure("p".to_string(), Proc { routine: "a".to_string() }, Proc { routine: "b".to_string() });
    m.add_internal_procedure("q".to_string(), Proc { routine: "c".to_string() }, Proc { routine: "d".to_string() });
    m.add_internal_procedure("p".to_string(), Proc { routine: "e".to_string() }, Proc { routine: "f".to_string() });
    assert_eq!(m.items.len(), 2);
    assert_eq!(m.find(&"p".to_string()), Some(0));
    assert_eq!(m.items[0].1, Item::InternProc(Proc { routine: "a".to_string() }, Proc { routine: "b".to_string() }));
    assert_eq!(m.find(&"r".to_string()), None);
    // a session redefines an item in place
    m.insert("p".to_string(), Item::InternProc(Proc { routine: "e".to_string() }, Proc { routine: "f".to_string() }));
    assert_eq!(m.items.len(), 2);
    assert_eq!(m.items[0].1, Item::InternProc(Proc { routine: "e".to_string() }, Proc { routine: "f".to_string() }));
}

#[test]
fn invert_sequence_reverses_and_inverts_nested_bodies() {
    let body = vec![
        Statement::Add(var("x"), lit_int(1)),
        Statement::If(boolean(true), vec![Statement::Sub(var("x"), lit_int(2)), Statement::Skip], Vec::new(), boolean(false)),
        Statement::Do("p".to_string(), Vec::new()),
    ];
    let inv = invert_sequence(body);
    assert_eq!(
        inv,
        vec![
            Statement::Undo("p".to_string(), Vec::new()),
            Statement::If(boolean(false), vec![Statement::Skip, Statement::Add(var("x"), lit_int(2))], Vec::new(), boolean(true)),
            Statement::Sub(var("x"), lit_int(1)),
        ]
    );
    let back = invert_sequence(inv);
    assert_eq!(back[0], Statement::Add(var("x"), lit_int(1)));
    assert_eq!(back.len(), 3);
}

#[test]
fn backward_run_matches_inverse_run() {
    let make = || {
        Statement::Var(
            "y".to_string(),
            None,
            lit_int(3),
            vec![Statement::Add(var("x"), Expr::LVal(var("y"))), Statement::Swap(var("y"), var("z"))],
            lit_int(7),
        )
    };
    let m = Module::new();
    let mut out = Vec::new();
    let mut t1 = stack(&[("x", Value::Int(1)), ("z", Value::Int(3))]);
    let mut t2 = stack(&[("x", Value::Int(1)), ("z", Value::Int(3))]);
    let r1 = make().exec(&mut t1, &m, &mut out, 10, false);
    let r2 = make().invert_deep().exec(&mut t2, &m, &mut out, 10, true);
    assert_eq!(r1, r2);
    assert_eq!(t1, t2);
    assert_eq!(r1, Ok(()));
    assert_eq!(t1, stack(&[("x", Value::Int(-2)), ("z", Value::Int(7))]));
}

#[test]
fn registry_from_items_keeps_first_entry_of_a_name() {
    let m = Module::from_items(vec![
        ("p".to_string(), Item::InternProc(Proc { routine: "a".to_string() }, Proc { routine: "b".to_string() })),
        ("sub".to_string(), Item::Mod(Module::new())),
        ("p".to_string(), Item::InternProc(Proc { routine: "c".to_string() }, Proc { routine: "d".to_string() })),
    ]);
    assert_eq!(m.items.len(), 2);
    assert_eq!(m.items[0].0, "p");
    assert_eq!(m.items[0].1, Item::InternProc(Proc { routine: "a".to_string() }, Proc { routine: "b".to_string() }));
    assert_eq!(m.find(&"sub".to_string()), None);
    let mut out = Vec::new();
    let mut t = Vec::new();
    assert_eq!(Statement::Do("p".to_string(), Vec::new()).eval(&mut t, &m, &mut out), Ok(()));
    assert_eq!(out, vec![NativeCall { routine: "a".to_string(), args: Vec::new() }]);
}

#[test]
fn signed_numerals() {
    let mut p = Parser::new(vec![num("-9223372036854775808")]);
    assert_eq!(p.parse_expr(), Ok(lit_int(i64::MIN)));
    let mut p = Parser::new(vec![num("+12")]);
    assert_eq!(p.parse_expr(), Ok(lit_int(12)));
    let mut p = Parser::new(vec![num("-7")]);
    assert_eq!(p.parse_expr(), Ok(lit_int(-7)));
    let mut p = Parser::new(vec![num("-")]);
    assert_eq!(p.parse_expr().unwrap_err().expected, "a smaller number");
    let mut p = Parser::new(vec![num("-9223372036854775809")]);
    assert_eq!(p.parse_expr().unwrap_err().expected, "a smaller number");
    let mut p = Parser::new(vec![num("1-2")]);
    assert_eq!(p.parse_expr().unwrap_err().expected, "a smaller number");
}

#[test]
fn rotation_amount_wraps() {
    assert_eq!(revlang::value::rotate_left_u64(1, 64), 1);
    assert_eq!(revlang::value::rotate_left_u64(1, 65), 2);
    assert_eq!(revlang::value::rotate_right_u64(2, 129), 1);
}

#[test]
fn swap_through_projection_changes_nothing() {
    let s = Statement::Swap(LValue { id: "a".to_string(), ops: vec![Deref::Index(lit_int(0))] }, var("b"));
    let mut t = vec![("a".to_string(), Value::Array(vec![Value::Int(4)])), ("b".to_string(), Value::Int(1))];
    assert_eq!(run(&s, &mut t), Err(EvalError::UnsupportedDereference));
    assert_eq!(run(&s, &mut t), Err(EvalError::UnsupportedDereference));
    assert_eq!(t, vec![("a".to_string(), Value::Array(vec![Value::Int(4)])), ("b".to_string(), Value::Int(1))]);
}

#[test]
fn var_scope_then_its_inverse_restores_stack() {
    let tokens = || {
        vec![
            Token::Var, id("x"), Token::Assign, num("5"), Token::Newline,
            id("x"), Token::AddAssign, num("3"), Token::Newline,
            Token::Drop, id("x"), Token::Assign, num("8"),
        ]
    };
    let s = parse_one(tokens());
    let inverse = parse_one(tokens()).invert_deep();
    let mut t = stack(&[("y", Value::Bool(true))]);
    assert_eq!(run(&s, &mut t), Ok(()));
    assert_eq!(run(&inverse, &mut t), Ok(()));
    assert_eq!(t, stack(&[("y", Value::Bool(true))]));
    match inverse {
        Statement::Var(_, _, init, body, dest) => {
            assert_eq!(init, lit_int(8));
            assert_eq!(dest, lit_int(5));
            assert_eq!(body, vec![Statement::Sub(var("x"), lit_int(3))]);
        }
        other => panic!("unexpected {:?}", other),
    }
}

#[test]
fn else_if_chain_closes_on_outer_fi() {
    let s = parse_one(vec![
        Token::If, id("true"), Token::Newline,
        Token::Else, Token::If, id("true"), Token::Newline,
        Token::Skip, Token::Newline,
        Token::Fi, Token::Fi, id("true"),
    ]);
    assert_eq!(
        s,
        Statement::If(
            boolean(true),
            Vec::new(),
            vec![Statement::If(boolean(true), vec![Statement::Skip], Vec::new(), boolean(true))],
            boolean(true),
        )
    );
    let mut t = Vec::new();
    assert_eq!(run(&s, &mut t), Ok(()));
}

#[test]
fn fi_followed_by_drop_has_no_assertion() {
    let s = parse_one(vec![
        Token::Var, id("x"), Token::Assign, num("1"), Token::Newline,
        Token::If, id("c"), Token::Newline, id("x"), Token::AddAssign, num("1"), Token::Newline, Token::Fi,
        Token::Drop, id("x"), Token::Assign, num("2"),
    ]);
    match &s {
        Statement::Var(_, _, _, body, _) => {
            assert_eq!(
                body[0],
                Statement::If(Expr::LVal(var("c")), vec![Statement::Add(var("x"), lit_int(1))], Vec::new(), Expr::LVal(var("c")))
            );
        }
        other => panic!("unexpected {:?}", other),
    }
    let mut t = stack(&[("c", Value::Bool(true))]);
    assert_eq!(run(&s, &mut t), Ok(()));
}
