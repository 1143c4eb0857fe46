use vstd::prelude::*;

verus! {

/// The types that a literal can name.
#[derive(Debug, Clone, Copy, PartialEq, Eq, Structural)]
pub enum Type {
    Unit,
    Bool,
    Int,
    UInt,
    Char,
    String,
}

/// A literal value as written in source text.
#[derive(Debug, PartialEq)]
pub enum Literal {
    Nil,
    Bool(bool),
    Int(i64),
    UInt(u64),
    Char(char),
    String(String),
    Array(Vec<Expr>),
    Fn(Vec<String>, Box<Expr>),
}

/// An expression: a literal or a reference to a (projected) variable.
#[derive(Debug, PartialEq)]
pub enum Expr {
    Lit(Literal),
    LVal(LValue),
}

/// One projection step of a left-value.
#[derive(Debug, PartialEq)]
pub enum Deref {
    Direct,
    Field(String),
    Index(Expr),
}

/// A variable name followed by projection steps, applied left to right.
#[derive(Debug, PartialEq)]
pub struct LValue {
    pub id: String,
    pub ops: Vec<Deref>,
}

/// A statement of the language.
#[derive(Debug, PartialEq)]
pub enum Statement {
    Skip,
    Var(String, Option<Type>, Expr, Vec<Statement>, Expr),
    If(Expr, Vec<Statement>, Vec<Statement>, Expr),
    From(Expr, Vec<Statement>, Vec<Statement>, Expr),
    Do(String, Vec<Expr>),
    Undo(String, Vec<Expr>),
    RotLeft(LValue, Expr),
    RotRight(LValue, Expr),
    Xor(LValue, Expr),
    Add(LValue, Expr),
    Sub(LValue, Expr),
    Swap(LValue, LValue),
}

// ---------------------------------------------------------------------------
// Mathematical models: strings become `Seq<char>`, vectors become `Seq`.

pub enum LitM {
    Nil,
    Bool(bool),
    Int(i64),
    UInt(u64),
    Char(char),
    Str(Seq<char>),
    Array(Seq<ExprM>),
    Fn(Seq<Seq<char>>, Box<ExprM>),
}

pub enum ExprM {
    Lit(LitM),
    LVal(LValueM),
}

pub enum DerefM {
    Direct,
    Field(Seq<char>),
    Index(ExprM),
}

pub struct LValueM {
    pub id: Seq<char>,
    pub ops: Seq<DerefM>,
}

pub enum StmtM {
    Skip,
    Var(Seq<char>, Option<Type>, ExprM, Seq<StmtM>, ExprM),
    If(ExprM, Seq<StmtM>, Seq<StmtM>, ExprM),
    From(ExprM, Seq<StmtM>, Seq<StmtM>, ExprM),
    Do(Seq<char>, Seq<ExprM>),
    Undo(Seq<char>, Seq<ExprM>),
    RotLeft(LValueM, ExprM),
    RotRight(LValueM, ExprM),
    Xor(LValueM, ExprM),
    Add(LValueM, ExprM),
    Sub(LValueM, ExprM),
    Swap(LValueM, LValueM),
}

pub open spec fn names_view(s: Seq<String>) -> Seq<Seq<char>> {
    s.map_values(|x: String| x@)
}

pub open spec fn lit_view(l: Literal) -> LitM
    decreases l,
{
    match l {
        Literal::Nil => LitM::Nil,
        Literal::Bool(b) => LitM::Bool(b),
        Literal::Int(i) => LitM::Int(i),
        Literal::UInt(u) => LitM::UInt(u),
        Literal::Char(c) => LitM::Char(c),
        Literal::String(s) => LitM::Str(s@),
        Literal::Array(v) => LitM::Array(exprs_view(v@)),
        Literal::Fn(ps, b) => LitM::Fn(names_view(ps@), Box::new(expr_view(*b))),
    }
}

pub open spec fn expr_view(e: Expr) -> ExprM
    decreases e,
{
    match e {
        Expr::Lit(l) => ExprM::Lit(lit_view(l)),
        Expr::LVal(lv) => ExprM::LVal(lval_view(lv)),
    }
}

pub open spec fn exprs_view(s: Seq<Expr>) -> Seq<ExprM>
    decreases s,
{
    Seq::new(s.len(), |i: int| if 0 <= i < s.len() { expr_view(s[i]) } else { ExprM::Lit(LitM::Nil) })
}

pub open spec fn deref_view(d: Deref) -> DerefM
    decreases d,
{
    match d {
        Deref::Direct => DerefM::Direct,
        Deref::Field(f) => DerefM::Field(f@),
        Deref::Index(e) => DerefM::Index(expr_view(e)),
    }
}

pub open spec fn derefs_view(s: Seq<Deref>) -> Seq<DerefM>
    decreases s,
{
    Seq::new(s.len(), |i: int| if 0 <= i < s.len() { deref_view(s[i]) } else { DerefM::Direct })
}

pub open spec fn lval_view(lv: LValue) -> LValueM
    decreases lv,
{
    LValueM { id: lv.id@, ops: derefs_view(lv.ops@) }
}

pub open spec fn stmt_view(s: Statement) -> StmtM
    decreases s,
{
    match s {
        Statement::Skip => StmtM::Skip,
        Statement::Var(n, t, i, b, d) => StmtM::Var(n@, t, expr_view(i), stmts_view(b@), expr_view(d)),
        Statement::If(t, a, b, e) => StmtM::If(expr_view(t), stmts_view(a@), stmts_view(b@), expr_view(e)),
        Statement::From(a, f, b, t) => StmtM::From(expr_view(a), stmts_view(f@), stmts_view(b@), expr_view(t)),
        Statement::Do(n, args) => StmtM::Do(n@, exprs_view(args@)),
        Statement::Undo(n, args) => StmtM::Undo(n@, exprs_view(args@)),
        Statement::RotLeft(l, e) => StmtM::RotLeft(lval_view(l), expr_view(e)),
        Statement::RotRight(l, e) => StmtM::RotRight(lval_view(l), expr_view(e)),
        Statement::Xor(l, e) => StmtM::Xor(lval_view(l), expr_view(e)),
        Statement::Add(l, e) => StmtM::Add(lval_view(l), expr_view(e)),
        Statement::Sub(l, e) => StmtM::Sub(lval_view(l), expr_view(e)),
        Statement::Swap(l, r) => StmtM::Swap(lval_view(l), lval_view(r)),
    }
}

pub open spec fn stmts_view(s: Seq<Statement>) -> Seq<StmtM>
    decreases s,
{
    Seq::new(s.len(), |i: int| if 0 <= i < s.len() { stmt_view(s[i]) } else { StmtM::Skip })
}

impl View for Expr {
    type V = ExprM;

    open spec fn view(&self) -> ExprM {
        expr_view(*self)
    }
}

impl View for LValue {
    type V = LValueM;

    open spec fn view(&self) -> LValueM {
        lval_view(*self)
    }
}

impl View for Statement {
    type V = StmtM;

    open spec fn view(&self) -> StmtM {
        stmt_view(*self)
    }
}


impl View for Literal {
    type V = LitM;

    open spec fn view(&self) -> LitM {
        lit_view(*self)
    }
}

impl View for Deref {
    type V = DerefM;

    open spec fn view(&self) -> DerefM {
        deref_view(*self)
    }
}

// ---------------------------------------------------------------------------
// Literal types

/// The type a literal carries on its face; arrays and functions carry none.
pub open spec fn lit_type(l: LitM) -> Option<Type> {
    match l {
        LitM::Nil => Some(Type::Unit),
        LitM::Bool(_) => Some(Type::Bool),
        LitM::Int(_) => Some(Type::Int),
        LitM::UInt(_) => Some(Type::UInt),
        LitM::Char(_) => Some(Type::Char),
        LitM::Str(_) => Some(Type::String),
        LitM::Array(_) => None,
        LitM::Fn(..) => None,
    }
}

impl Literal {
    pub fn get_type(&self) -> (r: Option<Type>)
        ensures
            r == lit_type(self@),
    {
        match self {
            Literal::Nil => Some(Type::Unit),
            Literal::Bool(_) => Some(Type::Bool),
            Literal::Int(_) => Some(Type::Int),
            Literal::UInt(_) => Some(Type::UInt),
            Literal::Char(_) => Some(Type::Char),
            Literal::String(_) => Some(Type::String),
            Literal::Array(_) => None,
            Literal::Fn(..) => None,
        }
    }
}

// ---------------------------------------------------------------------------
// Structural inversion

/// The structural inverse of one statement: the boundary expressions of
/// `Var`, `If` and `From` trade places, `Add`/`Sub` and `Do`/`Undo` trade
/// kinds, and every other statement is its own inverse.
pub open spec fn inverse_of(s: Statement) -> Statement {
    match s {
        Statement::Var(n, t, init, body, dest) => Statement::Var(n, t, dest, body, init),
        Statement::Add(l, v) => Statement::Sub(l, v),
        Statement::Sub(l, v) => Statement::Add(l, v),
        Statement::Do(p, args) => Statement::Undo(p, args),
        Statement::Undo(p, args) => Statement::Do(p, args),
        Statement::If(test, a, b, assert) => Statement::If(assert, a, b, test),
        Statement::From(assert, f, b, test) => Statement::From(test, f, b, assert),
        _ => s,
    }
}

impl Statement {
    /// The structural inverse of this statement.
    pub fn invert(self) -> (r: Statement)
        ensures
            r == inverse_of(self),
    {
        match self {
            Statement::Var(n, t, init, body, dest) => Statement::Var(n, t, dest, body, init),
            Statement::Add(l, v) => Statement::Sub(l, v),
            Statement::Sub(l, v) => Statement::Add(l, v),
            Statement::Do(p, args) => Statement::Undo(p, args),
            Statement::Undo(p, args) => Statement::Do(p, args),
            Statement::If(test, a, b, assert) => Statement::If(assert, a, b, test),
            Statement::From(assert, f, b, test) => Statement::From(test, f, b, assert),
            other => other,
        }
    }
}

/// The full inverse of a statement model: its structural inverse with every
/// nested body replaced by the inverse of that body.
pub open spec fn deep_inverse(s: StmtM) -> StmtM
    decreases s,
{
    match s {
        StmtM::Var(n, t, init, body, dest) => StmtM::Var(n, t, dest, seq_inverse(body), init),
        StmtM::If(test, a, b, assert) => StmtM::If(assert, seq_inverse(a), seq_inverse(b), test),
        StmtM::From(assert, f, b, test) => StmtM::From(test, seq_inverse(f), seq_inverse(b), assert),
        StmtM::Add(l, v) => StmtM::Sub(l, v),
        StmtM::Sub(l, v) => StmtM::Add(l, v),
        StmtM::Do(p, args) => StmtM::Undo(p, args),
        StmtM::Undo(p, args) => StmtM::Do(p, args),
        _ => s,
    }
}

/// The inverse of a sequence of statements: reversed, each fully inverted.
pub open spec fn seq_inverse(ss: Seq<StmtM>) -> Seq<StmtM>
    decreases ss,
{
    Seq::new(
        ss.len(),
        |i: int|
            if 0 <= i < ss.len() {
                deep_inverse(ss[ss.len() - 1 - i])
            } else {
                StmtM::Skip
            },
    )
}

/// Inverting a statement twice gives back the very same statement.
pub proof fn lemma_invert_involution(s: Statement)
    ensures
        inverse_of(inverse_of(s)) == s,
{
}

/// Full inversion is an involution on statement models.
pub proof fn lemma_deep_inverse_involution(s: StmtM)
    ensures
        deep_inverse(deep_inverse(s)) == s,
    decreases s,
{
    match s {
        StmtM::Var(_, _, _, body, _) => lemma_seq_inverse_involution(body),
        StmtM::If(_, a, b, _) => {
            lemma_seq_inverse_involution(a);
            lemma_seq_inverse_involution(b);
        },
        StmtM::From(_, f, b, _) => {
            lemma_seq_inverse_involution(f);
            lemma_seq_inverse_involution(b);
        },
        _ => {},
    }
}

/// Inverting a sequence twice gives it back.
pub proof fn lemma_seq_inverse_involution(ss: Seq<StmtM>)
    ensures
        seq_inverse(seq_inverse(ss)) == ss,
    decreases ss,
{
    let n = ss.len();
    assert forall|i: int| 0 <= i < n implies #[trigger] seq_inverse(seq_inverse(ss))[i] == ss[i] by {
        lemma_deep_inverse_involution(ss[i]);
    }
    assert(seq_inverse(seq_inverse(ss)) =~= ss);
}

impl Statement {
    /// The full inverse of this statement.
    pub fn invert_deep(self) -> (r: Statement)
        ensures
            r@ == deep_inverse(self@),
        decreases self,
    {
        match self {
            Statement::Var(n, t, init, body, dest) => Statement::Var(n, t, dest, invert_sequence(body), init),
            Statement::If(test, a, b, assert) => Statement::If(assert, invert_sequence(a), invert_sequence(b), test),
            Statement::From(assert, f, b, test) => Statement::From(test, invert_sequence(f), invert_sequence(b), assert),
            Statement::Add(l, v) => Statement::Sub(l, v),
            Statement::Sub(l, v) => Statement::Add(l, v),
            Statement::Do(p, args) => Statement::Undo(p, args),
            Statement::Undo(p, args) => Statement::Do(p, args),
            other => other,
        }
    }
}

/// The inverse of a statement sequence: reversed, each statement fully
/// inverted.
pub fn invert_sequence(stmts: Vec<Statement>) -> (r: Vec<Statement>)
    ensures
        stmts_view(r@) == seq_inverse(stmts_view(stmts@)),
    decreases stmts,
{
    let ghost ov = stmts;
    let ghost orig = stmts@;
    let ghost n = stmts@.len();
    let mut v = stmts;
    let mut r: Vec<Statement> = Vec::new();
    while v.len() > 0
        invariant
            v@.len() + r@.len() == n,
            v@ == orig.subrange(0, v@.len() as int),
            n == orig.len(),
            ov@ == orig,
            ov == stmts,
            forall|i: int| 0 <= i < r@.len() ==> #[trigger] r@[i]@ == deep_inverse(orig[n - 1 - i]@),
        decreases v@.len(),
    {
        let s = v.pop().unwrap();
        proof {
            assert(s == orig[v@.len() as int]);
            assert(decreases_to!(stmts => stmts@[v@.len() as int]));
        }
        let x = s.invert_deep();
        r.push(x);
    }
    assert forall|i: int| 0 <= i < n implies #[trigger] stmts_view(r@)[i] == seq_inverse(stmts_view(orig))[i] by {
        assert(r@[i]@ == deep_inverse(orig[n - 1 - i]@));
        assert(stmts_view(orig)[n - 1 - i] == orig[n - 1 - i]@);
    }
    assert(stmts_view(r@) =~= seq_inverse(stmts_view(orig)));
    r
}

// ---------------------------------------------------------------------------
// Copies and comparisons that keep the models

pub fn copy_names(v: &Vec<String>) -> (r: Vec<String>)
    ensures
        names_view(r@) == names_view(v@),
{
    let mut r: Vec<String> = Vec::new();
    let mut i: usize = 0;
    while i < v.len()
        invariant
            i <= v@.len(),
            r@.len() == i,
            forall|k: int| 0 <= k < i ==> r@[k]@ == v@[k]@,
        decreases v@.len() - i,
    {
        r.push(v[i].clone());
        i += 1;
    }
    assert(names_view(r@) =~= names_view(v@));
    r
}

pub fn names_eq(a: &Vec<String>, b: &Vec<String>) -> (r: bool)
    ensures
        r == (names_view(a@) == names_view(b@)),
{
    if a.len() != b.len() {
        assert(names_view(a@).len() != names_view(b@).len());
        return false;
    }
    let mut i: usize = 0;
    while i < a.len()
        invariant
            i <= a@.len(),
            a@.len() == b@.len(),
            forall|k: int| 0 <= k < i ==> a@[k]@ == b@[k]@,
        decreases a@.len() - i,
    {
        if a[i] != b[i] {
            assert(names_view(a@)[i as int] != names_view(b@)[i as int]);
            return false;
        }
        i += 1;
    }
    assert(names_view(a@) =~= names_view(b@));
    true
}

impl Expr {
    /// A copy of this expression with the same model.
    pub fn deep_copy(&self) -> (r: Expr)
        ensures
            r@ == self@,
        decreases self,
    {
        match self {
            Expr::Lit(l) => Expr::Lit(l.deep_copy()),
            Expr::LVal(lv) => Expr::LVal(lv.deep_copy()),
        }
    }

    /// Structural equality of the models.
    pub fn same(&self, o: &Expr) -> (r: bool)
        ensures
            r == (self@ == o@),
        decreases self,
    {
        match (self, o) {
            (Expr::Lit(a), Expr::Lit(b)) => a.same(b),
            (Expr::LVal(a), Expr::LVal(b)) => a.same(b),
            _ => false,
        }
    }
}

pub fn copy_exprs(v: &Vec<Expr>) -> (r: Vec<Expr>)
    ensures
        exprs_view(r@) == exprs_view(v@),
    decreases v,
{
    let mut r: Vec<Expr> = Vec::new();
    let mut i: usize = 0;
    while i < v.len()
        invariant
            i <= v@.len(),
            r@.len() == i,
            forall|k: int| 0 <= k < i ==> r@[k]@ == v@[k]@,
        decreases v@.len() - i,
    {
        r.push(v[i].deep_copy());
        i += 1;
    }
    assert(exprs_view(r@) =~= exprs_view(v@));
    r
}

pub fn exprs_eq(a: &Vec<Expr>, b: &Vec<Expr>) -> (r: bool)
    ensures
        r == (exprs_view(a@) == exprs_view(b@)),
    decreases a,
{
    if a.len() != b.len() {
        assert(exprs_view(a@).len() != exprs_view(b@).len());
        return false;
    }
    let mut i: usize = 0;
    while i < a.len()
        invariant
            i <= a@.len(),
            a@.len() == b@.len(),
            forall|k: int| 0 <= k < i ==> a@[k]@ == b@[k]@,
        decreases a@.len() - i,
    {
        if !a[i].same(&b[i]) {
            assert(exprs_view(a@)[i as int] != exprs_view(b@)[i as int]);
            return false;
        }
        i += 1;
    }
    assert(exprs_view(a@) =~= exprs_view(b@));
    true
}

impl Literal {
    pub fn deep_copy(&self) -> (r: Literal)
        ensures
            r@ == self@,
        decreases self,
    {
        match self {
            Literal::Nil => Literal::Nil,
            Literal::Bool(b) => Literal::Bool(*b),
            Literal::Int(i) => Literal::Int(*i),
            Literal::UInt(u) => Literal::UInt(*u),
            Literal::Char(c) => Literal::Char(*c),
            Literal::String(s) => Literal::String(s.clone()),
            Literal::Array(v) => Literal::Array(copy_exprs(v)),
            Literal::Fn(ps, b) => Literal::Fn(copy_names(ps), Box::new(b.deep_copy())),
        }
    }

    pub fn same(&self, o: &Literal) -> (r: bool)
        ensures
            r == (self@ == o@),
        decreases self,
    {
        match (self, o) {
            (Literal::Nil, Literal::Nil) => true,
            (Literal::Bool(a), Literal::Bool(b)) => *a == *b,
            (Literal::Int(a), Literal::Int(b)) => *a == *b,
            (Literal::UInt(a), Literal::UInt(b)) => *a == *b,
            (Literal::Char(a), Literal::Char(b)) => *a == *b,
            (Literal::String(a), Literal::String(b)) => *a == *b,
            (Literal::Array(a), Literal::Array(b)) => exprs_eq(a, b),
            (Literal::Fn(pa, ba), Literal::Fn(pb, bb)) => names_eq(pa, pb) && ba.same(bb),
            _ => false,
        }
    }
}

impl Deref {
    pub fn deep_copy(&self) -> (r: Deref)
        ensures
            r@ == self@,
        decreases self,
    {
        match self {
            Deref::Direct => Deref::Direct,
            Deref::Field(f) => Deref::Field(f.clone()),
            Deref::Index(e) => Deref::Index(e.deep_copy()),
        }
    }

    pub fn same(&self, o: &Deref) -> (r: bool)
        ensures
            r == (self@ == o@),
        decreases self,
    {
        match (self, o) {
            (Deref::Direct, Deref::Direct) => true,
            (Deref::Field(a), Deref::Field(b)) => *a == *b,
            (Deref::Index(a), Deref::Index(b)) => a.same(b),
            _ => false,
        }
    }
}

impl LValue {
    pub fn deep_copy(&self) -> (r: LValue)
        ensures
            r@ == self@,
        decreases self,
    {
        let mut ops: Vec<Deref> = Vec::new();
        let mut i: usize = 0;
        while i < self.ops.len()
            invariant
                i <= self.ops@.len(),
                ops@.len() == i,
                forall|k: int| 0 <= k < i ==> ops@[k]@ == self.ops@[k]@,
            decreases self.ops@.len() - i,
        {
            ops.push(self.ops[i].deep_copy());
            i += 1;
        }
        assert(derefs_view(ops@) =~= derefs_view(self.ops@));
        LValue { id: self.id.clone(), ops }
    }

    pub fn same(&self, o: &LValue) -> (r: bool)
        ensures
            r == (self@ == o@),
        decreases self,
    {
        if self.id != o.id || self.ops.len() != o.ops.len() {
            assert(self@.id != o@.id || self@.ops.len() != o@.ops.len());
            return false;
        }
        let mut i: usize = 0;
        while i < self.ops.len()
            invariant
                i <= self.ops@.len(),
                self.ops@.len() == o.ops@.len(),
                forall|k: int| 0 <= k < i ==> self.ops@[k]@ == o.ops@[k]@,
            decreases self.ops@.len() - i,
        {
            if !self.ops[i].same(&o.ops[i]) {
                assert(self@.ops[i as int] != o@.ops[i as int]);
                return false;
            }
            i += 1;
        }
        assert(self@.ops =~= o@.ops);
        true
    }
}

} // verus!
