use vstd::prelude::*;

verus! {

/// A token of the language, as a lexer hands it over.
#[derive(Debug, PartialEq)]
pub enum Token {
    Ident(String),
    Number(String),
    Char(char),
    Str(String),
    Skip,
    Var,
    Drop,
    If,
    Else,
    Fi,
    From,
    Until,
    Loop,
    Do,
    Undo,
    Fn,
    Let,
    Proc,
    Mod,
    Assign,
    AddAssign,
    SubAssign,
    Rol,
    Ror,
    Swap,
    Comma,
    Colon,
    Period,
    Bang,
    LParen,
    RParen,
    LBracket,
    RBracket,
    Newline,
}

pub enum TokM {
    Ident(Seq<char>),
    Number(Seq<char>),
    Char(char),
    Str(Seq<char>),
    Skip,
    Var,
    Drop,
    If,
    Else,
    Fi,
    From,
    Until,
    Loop,
    Do,
    Undo,
    Fn,
    Let,
    Proc,
    Mod,
    Assign,
    AddAssign,
    SubAssign,
    Rol,
    Ror,
    Swap,
    Comma,
    Colon,
    Period,
    Bang,
    LParen,
    RParen,
    LBracket,
    RBracket,
    Newline,
}

pub open spec fn tok_view(t: Token) -> TokM {
    match t {
        Token::Ident(s) => TokM::Ident(s@),
        Token::Number(s) => TokM::Number(s@),
        Token::Char(c) => TokM::Char(c),
        Token::Str(s) => TokM::Str(s@),
        Token::Skip => TokM::Skip,
        Token::Var => TokM::Var,
        Token::Drop => TokM::Drop,
        Token::If => TokM::If,
        Token::Else => TokM::Else,
        Token::Fi => TokM::Fi,
        Token::From => TokM::From,
        Token::Until => TokM::Until,
        Token::Loop => TokM::Loop,
        Token::Do => TokM::Do,
        Token::Undo => TokM::Undo,
        Token::Fn => TokM::Fn,
        Token::Let => TokM::Let,
        Token::Proc => TokM::Proc,
        Token::Mod => TokM::Mod,
        Token::Assign => TokM::Assign,
        Token::AddAssign => TokM::AddAssign,
        Token::SubAssign => TokM::SubAssign,
        Token::Rol => TokM::Rol,
        Token::Ror => TokM::Ror,
        Token::Swap => TokM::Swap,
        Token::Comma => TokM::Comma,
        Token::Colon => TokM::Colon,
        Token::Period => TokM::Period,
        Token::Bang => TokM::Bang,
        Token::LParen => TokM::LParen,
        Token::RParen => TokM::RParen,
        Token::LBracket => TokM::LBracket,
        Token::RBracket => TokM::RBracket,
        Token::Newline => TokM::Newline,
    }
}

impl View for Token {
    type V = TokM;

    open spec fn view(&self) -> TokM {
        tok_view(*self)
    }
}

pub open spec fn toks_view(ts: Seq<Token>) -> Seq<TokM> {
    Seq::new(ts.len(), |i: int| tok_view(ts[i]))
}

// ---------------------------------------------------------------------------
// Decimal numerals

pub open spec fn is_digit(c: char) -> bool {
    '0' <= c && c <= '9'
}

pub open spec fn digit_value(c: char) -> int {
    (c as int) - ('0' as int)
}

/// The value of a string of decimal digits.
pub open spec fn digits_value(s: Seq<char>) -> int
    decreases s.len(),
{
    if s.len() == 0 {
        0
    } else {
        digits_value(s.drop_last()) * 10 + digit_value(s.last())
    }
}

/// The number of sign characters a numeral starts with: one `+` or `-`, or
/// none.
pub open spec fn sign_len(s: Seq<char>) -> int {
    if s.len() > 0 && (s[0] == '+' || s[0] == '-') {
        1
    } else {
        0
    }
}

/// The integer a numeral denotes: an optional `+` or `-`, then one or more
/// decimal digits, whose value fits a 64-bit signed integer.
pub open spec fn decimal(s: Seq<char>) -> Option<i64> {
    let ds = s.subrange(sign_len(s), s.len() as int);
    let neg = s.len() > 0 && s[0] == '-';
    let v = digits_value(ds);
    if ds.len() > 0 && (forall|i: int| 0 <= i < ds.len() ==> is_digit(#[trigger] ds[i])) && (if neg {
        v <= 0x8000_0000_0000_0000
    } else {
        v <= i64::MAX
    }) {
        Some((if neg { -v } else { v }) as i64)
    } else {
        None
    }
}

proof fn lemma_digits_nonneg(s: Seq<char>)
    requires
        forall|i: int| 0 <= i < s.len() ==> is_digit(#[trigger] s[i]),
    ensures
        digits_value(s) >= 0,
    decreases s.len(),
{
    if s.len() > 0 {
        lemma_digits_nonneg(s.drop_last());
    }
}

proof fn lemma_digits_grow(s: Seq<char>, i: int)
    requires
        0 <= i <= s.len(),
        forall|k: int| 0 <= k < s.len() ==> is_digit(#[trigger] s[k]),
    ensures
        digits_value(s.subrange(0, i)) <= digits_value(s),
    decreases s.len() - i,
{
    if i < s.len() {
        lemma_digits_grow(s, i + 1);
        let a = s.subrange(0, i + 1);
        assert(a.drop_last() =~= s.subrange(0, i));
        lemma_digits_nonneg(s.subrange(0, i));
    } else {
        assert(s.subrange(0, i) =~= s);
    }
}

/// Reads a decimal numeral with an optional sign.
pub fn parse_decimal(s: &String) -> (r: Option<i64>)
    ensures
        r == decimal(s@),
{
    let st = s.as_str();
    let n = st.unicode_len();
    let neg = n > 0 && st.get_char(0) == '-';
    let start: usize = if n > 0 && (st.get_char(0) == '+' || st.get_char(0) == '-') { 1 } else { 0 };
    let ghost ds = s@.subrange(start as int, n as int);
    if n == start {
        return None;
    }
    let limit: u64 = if neg { 0x8000_0000_0000_0000 } else { 0x7fff_ffff_ffff_ffff };
    let mut acc: u64 = 0;
    let mut i: usize = start;
    while i < n
        invariant
            n == s@.len(),
            start <= i <= n,
            start as int == sign_len(s@),
            neg == (s@.len() > 0 && s@[0] == '-'),
            limit == (if neg { 0x8000_0000_0000_0000u64 } else { 0x7fff_ffff_ffff_ffffu64 }),
            ds == s@.subrange(start as int, n as int),
            st@ == s@,
            forall|k: int| 0 <= k < i - start ==> is_digit(#[trigger] ds[k]),
            acc as int == digits_value(ds.subrange(0, i - start)),
            acc <= limit,
        decreases n - i,
    {
        let c = st.get_char(i);
        if !('0' <= c && c <= '9') {
            assert(ds[i - start] == c);
            return None;
        }
        let d = (c as u32 - '0' as u32) as u64;
        assert(ds[i - start] == c);
        assert(ds.subrange(0, i - start + 1).drop_last() =~= ds.subrange(0, i - start));
        if acc > (limit - d) / 10 {
            proof {
                assert(acc * 10 + d > limit) by (nonlinear_arith)
                    requires acc > (limit - d) / 10, 0 <= d <= 9, d <= limit;
                if forall|k: int| 0 <= k < ds.len() ==> is_digit(#[trigger] ds[k]) {
                    lemma_digits_grow(ds, i - start + 1);
                }
            }
            return None;
        }
        assert(acc * 10 + d <= limit) by (nonlinear_arith)
            requires acc <= (limit - d) / 10, 0 <= d <= 9, d <= limit;
        acc = acc * 10 + d;
        i += 1;
    }
    assert(ds.subrange(0, n - start) =~= ds);
    if neg {
        if acc == 0x8000_0000_0000_0000 {
            Some(i64::MIN)
        } else {
            Some(-(acc as i64))
        }
    } else {
        Some(acc as i64)
    }
}

} // verus!
