//! The rule engine: a sandboxed boolean expression language over the media
//! context.
//!
//! The language surface: string, numeric and boolean literals; the
//! comparisons `==`, `!=`, `<`, `<=`, `>`, `>=`; `&&`, `||`, `!`;
//! parentheses; dotted member access into `time`, `space`, `source`,
//! `type`; and dynamic `meta.<tag>` lookup. Numbers are exact rationals
//! (decimal literals carry a power-of-ten denominator), so no floating
//! point enters the evaluation.
//!
//! Failure semantics: a lex or parse fault, an unresolved identifier, or a
//! boolean operator applied to a non-boolean is an evaluation error; the
//! caller treats such a rule as non-matching. A `meta.<tag>` reference whose
//! tag is absent yields a missing value, and every comparison against a
//! missing value is false. A whole expression that evaluates to a
//! non-boolean counts as false. Expression nesting — grouping, negation and
//! boolean chaining — is capped at 64 levels to bound evaluation time;
//! deeper conditions are a rule error.

use crate::context::MediaContext;
use crate::context::MediaContextV;
use crate::context::MetaValV;
use crate::context::MetaValue;
use crate::context::meta_lookup;
use crate::template::chain_end;
use crate::template::chain_scan;
use crate::template::has_dot;
use crate::template::has_prefix;
use crate::template::has_prefix_exec;
use crate::template::is_ident_start;
use crate::text::all_digits;
use crate::text::chars_eq_str;
use crate::text::chars_to_string;
use crate::text::copy_from;
use crate::text::copy_range;
use crate::text::is_digit_char;
use crate::text::parse_u64_range;
use crate::text::spec_digits_val;
use vstd::prelude::*;

verus! {

/// Parse fuel: a coarse bound on total grammar recursion, for termination.
/// It is large enough never to bind before the nesting cap does.
pub const PARSE_FUEL: u64 = 4096;

/// The nesting cap: how many levels of grouping, negation or boolean
/// chaining one condition may use. Deeper conditions are a rule error.
pub const PARSE_DEPTH: u64 = 64;

#[derive(Clone, Copy, Debug, PartialEq, Eq, Structural)]
pub enum CmpOp {
    Eq,
    Ne,
    Lt,
    Le,
    Gt,
    Ge,
}

#[derive(Clone, Debug, PartialEq)]
pub enum Token {
    LPar,
    RPar,
    Bang,
    AndOp,
    OrOp,
    Cmp(CmpOp),
    Name(Vec<char>),
    Text(Vec<char>),
    Num(i64, u64),
    Lit(bool),
}

pub enum TokenV {
    LPar,
    RPar,
    Bang,
    AndOp,
    OrOp,
    Cmp(CmpOp),
    Name(Seq<char>),
    Text(Seq<char>),
    Num(int, int),
    Lit(bool),
}

impl View for Token {
    type V = TokenV;

    open spec fn view(&self) -> TokenV {
        match self {
            Token::LPar => TokenV::LPar,
            Token::RPar => TokenV::RPar,
            Token::Bang => TokenV::Bang,
            Token::AndOp => TokenV::AndOp,
            Token::OrOp => TokenV::OrOp,
            Token::Cmp(op) => TokenV::Cmp(*op),
            Token::Name(s) => TokenV::Name(s@),
            Token::Text(s) => TokenV::Text(s@),
            Token::Num(n, d) => TokenV::Num(*n as int, *d as int),
            Token::Lit(b) => TokenV::Lit(*b),
        }
    }
}

pub open spec fn tok_views(ts: Seq<Token>) -> Seq<TokenV> {
    ts.map(|i: int, t: Token| t@)
}

/// Position of the closing quote at or after `j`, or -1.
pub open spec fn str_close(t: Seq<char>, j: int) -> int
    decreases t.len() - j,
{
    if j < 0 || j >= t.len() {
        -1
    } else if t[j] == '"' {
        j
    } else {
        str_close(t, j + 1)
    }
}

pub proof fn lemma_str_close_range(t: Seq<char>, j: int)
    requires
        0 <= j <= t.len(),
    ensures
        str_close(t, j) == -1 || j <= str_close(t, j) < t.len(),
    decreases t.len() - j,
{
    if j < t.len() && t[j] != '"' {
        lemma_str_close_range(t, j + 1);
    }
}

/// End of the maximal digit run starting at `j`.
pub open spec fn digits_end(t: Seq<char>, j: int) -> int
    decreases t.len() - j,
{
    if 0 <= j < t.len() && is_digit_char(t[j]) {
        digits_end(t, j + 1)
    } else {
        j
    }
}

pub proof fn lemma_digits_end_range(t: Seq<char>, j: int)
    requires
        0 <= j <= t.len(),
    ensures
        j <= digits_end(t, j) <= t.len(),
        all_digits(t.subrange(j, digits_end(t, j))),
    decreases t.len() - j,
{
    if j < t.len() && is_digit_char(t[j]) {
        lemma_digits_end_range(t, j + 1);
        assert forall|k: int| 0 <= k < digits_end(t, j) - j implies is_digit_char(
            #[trigger] t.subrange(j, digits_end(t, j))[k],
        ) by {
            if k > 0 {
                assert(t.subrange(j + 1, digits_end(t, j + 1))[k - 1] == t.subrange(
                    j,
                    digits_end(t, j),
                )[k]);
            }
        }
    } else {
        assert(t.subrange(j, j) =~= Seq::<char>::empty());
    }
}

pub open spec fn pow10(k: nat) -> nat
    decreases k,
{
    if k == 0 {
        1
    } else {
        10 * pow10((k - 1) as nat)
    }
}

pub proof fn lemma_pow10_mono(a: nat, b: nat)
    requires
        a <= b,
    ensures
        pow10(a) <= pow10(b),
        pow10(a) >= 1,
    decreases b,
{
    if a == b {
        lemma_pow10_pos(a);
    } else {
        lemma_pow10_mono(a, (b - 1) as nat);
        lemma_pow10_pos((b - 1) as nat);
    }
}

pub proof fn lemma_pow10_pos(k: nat)
    ensures
        pow10(k) >= 1,
    decreases k,
{
    if k > 0 {
        lemma_pow10_pos((k - 1) as nat);
    }
}

/// The value of a digit string splits at any cut point.
pub proof fn lemma_digits_val_concat(a: Seq<char>, b: Seq<char>)
    ensures
        spec_digits_val(a + b) == spec_digits_val(a) * pow10(b.len()) + spec_digits_val(b),
    decreases b.len(),
{
    if b.len() == 0 {
        assert(a + b =~= a);
        assert(spec_digits_val(a) * 1 == spec_digits_val(a)) by (nonlinear_arith);
    } else {
        let b0 = b.drop_last();
        lemma_digits_val_concat(a, b0);
        assert((a + b).drop_last() =~= a + b0);
        assert(spec_digits_val(a + b) == spec_digits_val(a + b0) * 10 + crate::text::char_digit(
            b.last(),
        ) as nat);
        assert((spec_digits_val(a) * pow10(b0.len()) + spec_digits_val(b0)) * 10 == spec_digits_val(
            a,
        ) * (10 * pow10(b0.len())) + spec_digits_val(b0) * 10) by (nonlinear_arith);
    }
}

/// The numeric token starting at `i` (which holds a digit, or a minus sign
/// followed by a digit): `(token, next position)`, or `None` on a value that
/// does not fit the rational representation.
pub open spec fn spec_lex_num(t: Seq<char>, i: int) -> Option<(TokenV, int)> {
    let neg = t[i] == '-';
    let d0 = if neg {
        i + 1
    } else {
        i
    };
    let we = digits_end(t, d0);
    let whole = t.subrange(d0, we);
    if we < t.len() && t[we] == '.' && we + 1 < t.len() && is_digit_char(t[we + 1]) {
        let fe = digits_end(t, we + 1);
        let frac = t.subrange(we + 1, fe);
        let total = spec_digits_val(whole + frac);
        if pow10(frac.len()) > u64::MAX || total > i64::MAX {
            Option::None
        } else {
            Option::Some(
                (
                    TokenV::Num(
                        if neg {
                            -(total as int)
                        } else {
                            total as int
                        },
                        pow10(frac.len()) as int,
                    ),
                    fe,
                ),
            )
        }
    } else {
        let total = spec_digits_val(whole);
        if total > i64::MAX {
            Option::None
        } else {
            Option::Some(
                (
                    TokenV::Num(
                        if neg {
                            -(total as int)
                        } else {
                            total as int
                        },
                        1,
                    ),
                    we,
                ),
            )
        }
    }
}

pub open spec fn is_space_char(c: char) -> bool {
    c == ' ' || c == '\t' || c == '\n' || c == '\r'
}

/// The token stream of `t` from position `i`, appended to `acc`; `None` on a
/// lex fault.
pub open spec fn spec_lex_at(t: Seq<char>, i: int, acc: Seq<TokenV>) -> Option<Seq<TokenV>>
    decreases t.len() - i,
    via spec_lex_at_decreases
{
    if i < 0 || i >= t.len() {
        Option::Some(acc)
    } else {
        let c = t[i];
        if is_space_char(c) {
            spec_lex_at(t, i + 1, acc)
        } else if c == '(' {
            spec_lex_at(t, i + 1, acc.push(TokenV::LPar))
        } else if c == ')' {
            spec_lex_at(t, i + 1, acc.push(TokenV::RPar))
        } else if c == '&' {
            if i + 1 < t.len() && t[i + 1] == '&' {
                spec_lex_at(t, i + 2, acc.push(TokenV::AndOp))
            } else {
                Option::None
            }
        } else if c == '|' {
            if i + 1 < t.len() && t[i + 1] == '|' {
                spec_lex_at(t, i + 2, acc.push(TokenV::OrOp))
            } else {
                Option::None
            }
        } else if c == '=' {
            if i + 1 < t.len() && t[i + 1] == '=' {
                spec_lex_at(t, i + 2, acc.push(TokenV::Cmp(CmpOp::Eq)))
            } else {
                Option::None
            }
        } else if c == '!' {
            if i + 1 < t.len() && t[i + 1] == '=' {
                spec_lex_at(t, i + 2, acc.push(TokenV::Cmp(CmpOp::Ne)))
            } else {
                spec_lex_at(t, i + 1, acc.push(TokenV::Bang))
            }
        } else if c == '<' {
            if i + 1 < t.len() && t[i + 1] == '=' {
                spec_lex_at(t, i + 2, acc.push(TokenV::Cmp(CmpOp::Le)))
            } else {
                spec_lex_at(t, i + 1, acc.push(TokenV::Cmp(CmpOp::Lt)))
            }
        } else if c == '>' {
            if i + 1 < t.len() && t[i + 1] == '=' {
                spec_lex_at(t, i + 2, acc.push(TokenV::Cmp(CmpOp::Ge)))
            } else {
                spec_lex_at(t, i + 1, acc.push(TokenV::Cmp(CmpOp::Gt)))
            }
        } else if c == '"' {
            let e = str_close(t, i + 1);
            if e < 0 {
                Option::None
            } else {
                spec_lex_at(t, e + 1, acc.push(TokenV::Text(t.subrange(i + 1, e))))
            }
        } else if is_digit_char(c) || (c == '-' && i + 1 < t.len() && is_digit_char(t[i + 1])) {
            match spec_lex_num(t, i) {
                Option::Some((tok, next)) => spec_lex_at(t, next, acc.push(tok)),
                Option::None => Option::None,
            }
        } else if is_ident_start(c) {
            let e = chain_end(t, i, true);
            if e < 0 {
                Option::None
            } else {
                let name = t.subrange(i, e);
                if name == "true"@ {
                    spec_lex_at(t, e, acc.push(TokenV::Lit(true)))
                } else if name == "false"@ {
                    spec_lex_at(t, e, acc.push(TokenV::Lit(false)))
                } else {
                    spec_lex_at(t, e, acc.push(TokenV::Name(name)))
                }
            }
        } else {
            Option::None
        }
    }
}

#[via_fn]
proof fn spec_lex_at_decreases(t: Seq<char>, i: int, acc: Seq<TokenV>) {
    if 0 <= i < t.len() {
        let c = t[i];
        if c == '"' {
            lemma_str_close_range(t, i + 1);
        } else if is_digit_char(c) || (c == '-' && i + 1 < t.len() && is_digit_char(t[i + 1])) {
            let d0 = if t[i] == '-' {
                i + 1
            } else {
                i
            };
            lemma_digits_end_range(t, d0);
            let we = digits_end(t, d0);
            if t[i] != '-' {
                assert(digits_end(t, i) == digits_end(t, i + 1));
                lemma_digits_end_range(t, i + 1);
            }
            if we < t.len() && t[we] == '.' && we + 1 < t.len() && is_digit_char(t[we + 1]) {
                assert(digits_end(t, we + 1) == digits_end(t, we + 2));
                lemma_digits_end_range(t, we + 2);
            }
        } else if is_ident_start(c) {
            assert(chain_end(t, i, true) == chain_end(t, i + 1, false));
            crate::template::lemma_chain_end_range(t, i + 1, false);
        }
    }
}

pub open spec fn spec_lex(t: Seq<char>) -> Option<Seq<TokenV>> {
    spec_lex_at(t, 0, Seq::<TokenV>::empty())
}

/// The abstract syntax of a condition.
#[derive(Debug)]
pub enum Expr {
    Num(i64, u64),
    Text(Vec<char>),
    Truth(bool),
    Var(Vec<char>),
    Not(Box<Expr>),
    And(Box<Expr>, Box<Expr>),
    Or(Box<Expr>, Box<Expr>),
    Cmp(CmpOp, Box<Expr>, Box<Expr>),
}

pub enum ExprV {
    Num(int, int),
    Text(Seq<char>),
    Truth(bool),
    Var(Seq<char>),
    Not(Box<ExprV>),
    And(Box<ExprV>, Box<ExprV>),
    Or(Box<ExprV>, Box<ExprV>),
    Cmp(CmpOp, Box<ExprV>, Box<ExprV>),
}

pub open spec fn expr_view(e: Expr) -> ExprV
    decreases e,
{
    match e {
        Expr::Num(n, d) => ExprV::Num(n as int, d as int),
        Expr::Text(s) => ExprV::Text(s@),
        Expr::Truth(b) => ExprV::Truth(b),
        Expr::Var(s) => ExprV::Var(s@),
        Expr::Not(a) => ExprV::Not(Box::new(expr_view(*a))),
        Expr::And(a, b) => ExprV::And(Box::new(expr_view(*a)), Box::new(expr_view(*b))),
        Expr::Or(a, b) => ExprV::Or(Box::new(expr_view(*a)), Box::new(expr_view(*b))),
        Expr::Cmp(op, a, b) => ExprV::Cmp(op, Box::new(expr_view(*a)), Box::new(expr_view(*b))),
    }
}

impl View for Expr {
    type V = ExprV;

    open spec fn view(&self) -> ExprV {
        expr_view(*self)
    }
}

/// Recursive-descent grammar, lowest precedence first: `||`, `&&`,
/// comparison, `!`, primary. Each function returns the parsed expression and
/// the next position. All recursion consumes fuel.
pub open spec fn sp_or(ts: Seq<TokenV>, pos: int, fuel: nat, depth: nat) -> Option<(ExprV, int)>
    decreases fuel,
{
    if fuel == 0 {
        Option::None
    } else {
        match sp_and(ts, pos, (fuel - 1) as nat, depth) {
            Option::Some((l, p)) => {
                if p < ts.len() && ts[p] is OrOp {
                    if depth == 0 {
                        Option::None
                    } else {
                        match sp_or(ts, p + 1, (fuel - 1) as nat, (depth - 1) as nat) {
                            Option::Some((r, p2)) => Option::Some(
                                (ExprV::Or(Box::new(l), Box::new(r)), p2),
                            ),
                            Option::None => Option::None,
                        }
                    }
                } else {
                    Option::Some((l, p))
                }
            },
            Option::None => Option::None,
        }
    }
}

pub open spec fn sp_and(ts: Seq<TokenV>, pos: int, fuel: nat, depth: nat) -> Option<(ExprV, int)>
    decreases fuel,
{
    if fuel == 0 {
        Option::None
    } else {
        match sp_cmp(ts, pos, (fuel - 1) as nat, depth) {
            Option::Some((l, p)) => {
                if p < ts.len() && ts[p] is AndOp {
                    if depth == 0 {
                        Option::None
                    } else {
                        match sp_and(ts, p + 1, (fuel - 1) as nat, (depth - 1) as nat) {
                            Option::Some((r, p2)) => Option::Some(
                                (ExprV::And(Box::new(l), Box::new(r)), p2),
                            ),
                            Option::None => Option::None,
                        }
                    }
                } else {
                    Option::Some((l, p))
                }
            },
            Option::None => Option::None,
        }
    }
}

pub open spec fn sp_cmp(ts: Seq<TokenV>, pos: int, fuel: nat, depth: nat) -> Option<(ExprV, int)>
    decreases fuel,
{
    if fuel == 0 {
        Option::None
    } else {
        match sp_unary(ts, pos, (fuel - 1) as nat, depth) {
            Option::Some((l, p)) => {
                if p < ts.len() && ts[p] is Cmp {
                    let op = ts[p]->Cmp_0;
                    match sp_unary(ts, p + 1, (fuel - 1) as nat, depth) {
                        Option::Some((r, p2)) => Option::Some(
                            (ExprV::Cmp(op, Box::new(l), Box::new(r)), p2),
                        ),
                        Option::None => Option::None,
                    }
                } else {
                    Option::Some((l, p))
                }
            },
            Option::None => Option::None,
        }
    }
}

pub open spec fn sp_unary(ts: Seq<TokenV>, pos: int, fuel: nat, depth: nat) -> Option<(ExprV, int)>
    decreases fuel,
{
    if fuel == 0 {
        Option::None
    } else if 0 <= pos < ts.len() && ts[pos] is Bang {
        if depth == 0 {
            Option::None
        } else {
            match sp_unary(ts, pos + 1, (fuel - 1) as nat, (depth - 1) as nat) {
                Option::Some((a, p)) => Option::Some((ExprV::Not(Box::new(a)), p)),
                Option::None => Option::None,
            }
        }
    } else {
        sp_primary(ts, pos, (fuel - 1) as nat, depth)
    }
}

pub open spec fn sp_primary(ts: Seq<TokenV>, pos: int, fuel: nat, depth: nat) -> Option<
    (ExprV, int),
>
    decreases fuel,
{
    if fuel == 0 || pos < 0 || pos >= ts.len() {
        Option::None
    } else {
        match ts[pos] {
            TokenV::Num(n, d) => Option::Some((ExprV::Num(n, d), pos + 1)),
            TokenV::Text(s) => Option::Some((ExprV::Text(s), pos + 1)),
            TokenV::Lit(b) => Option::Some((ExprV::Truth(b), pos + 1)),
            TokenV::Name(nm) => Option::Some((ExprV::Var(nm), pos + 1)),
            TokenV::LPar => {
                if depth == 0 {
                    Option::None
                } else {
                    match sp_or(ts, pos + 1, (fuel - 1) as nat, (depth - 1) as nat) {
                        Option::Some((e, p)) => {
                            if p < ts.len() && ts[p] is RPar {
                                Option::Some((e, p + 1))
                            } else {
                                Option::None
                            }
                        },
                        Option::None => Option::None,
                    }
                }
            },
            _ => Option::None,
        }
    }
}

/// A runtime value of the expression language.
#[derive(Clone, Debug, PartialEq)]
pub enum CondValue {
    Num(i64, u64),
    Text(String),
    Truth(bool),
    Missing,
}

pub enum CondValV {
    Num(int, int),
    Text(Seq<char>),
    Truth(bool),
    Missing,
}

impl View for CondValue {
    type V = CondValV;

    open spec fn view(&self) -> CondValV {
        match self {
            CondValue::Num(n, d) => CondValV::Num(*n as int, *d as int),
            CondValue::Text(s) => CondValV::Text(s@),
            CondValue::Truth(b) => CondValV::Truth(*b),
            CondValue::Missing => CondValV::Missing,
        }
    }
}

/// Lexicographic order on character sequences, by code point.
pub open spec fn spec_str_lt(a: Seq<char>, b: Seq<char>) -> bool
    decreases a.len(),
{
    if b.len() == 0 {
        false
    } else if a.len() == 0 {
        true
    } else if a[0] != b[0] {
        a[0] < b[0]
    } else {
        spec_str_lt(a.skip(1), b.skip(1))
    }
}

pub open spec fn num_cmp(op: CmpOp, x: int, y: int) -> bool {
    match op {
        CmpOp::Eq => x == y,
        CmpOp::Ne => x != y,
        CmpOp::Lt => x < y,
        CmpOp::Le => x <= y,
        CmpOp::Gt => x > y,
        CmpOp::Ge => x >= y,
    }
}

/// Comparison is total over values. Missing values compare false; a zero
/// denominator (the model of a non-finite number) compares false; values of
/// different kinds are unequal.
pub open spec fn spec_compare(op: CmpOp, a: CondValV, b: CondValV) -> bool {
    match (a, b) {
        (CondValV::Missing, _) => false,
        (_, CondValV::Missing) => false,
        (CondValV::Num(n1, d1), CondValV::Num(n2, d2)) => {
            if d1 == 0 || d2 == 0 {
                false
            } else {
                num_cmp(op, n1 * d2, n2 * d1)
            }
        },
        (CondValV::Text(s1), CondValV::Text(s2)) => match op {
            CmpOp::Eq => s1 == s2,
            CmpOp::Ne => s1 != s2,
            CmpOp::Lt => spec_str_lt(s1, s2),
            CmpOp::Le => s1 == s2 || spec_str_lt(s1, s2),
            CmpOp::Gt => spec_str_lt(s2, s1),
            CmpOp::Ge => s1 == s2 || spec_str_lt(s2, s1),
        },
        (CondValV::Truth(b1), CondValV::Truth(b2)) => match op {
            CmpOp::Eq => b1 == b2,
            CmpOp::Ne => b1 != b2,
            _ => false,
        },
        _ => match op {
            CmpOp::Ne => true,
            _ => false,
        },
    }
}

/// The bindings in scope: the context blocks as objects, `type` as a
/// string, `meta` as a dynamic map whose absent tags are missing values.
/// `None` is an unresolved identifier.
pub open spec fn spec_var_value(name: Seq<char>, ctx: MediaContextV) -> Option<CondValV> {
    if name == "type"@ {
        Option::Some(CondValV::Text(ctx.media_type))
    } else if has_prefix(name, "time."@) {
        let f = name.skip(5);
        if f == "yyyy"@ {
            Option::Some(CondValV::Text(ctx.time.yyyy))
        } else if f == "mm"@ {
            Option::Some(CondValV::Text(ctx.time.mm))
        } else if f == "dd"@ {
            Option::Some(CondValV::Text(ctx.time.dd))
        } else if f == "hh"@ {
            Option::Some(CondValV::Text(ctx.time.hh))
        } else if f == "min"@ {
            Option::Some(CondValV::Text(ctx.time.minute))
        } else if f == "ss"@ {
            Option::Some(CondValV::Text(ctx.time.ss))
        } else if f == "month_name"@ {
            Option::Some(CondValV::Text(ctx.time.month_name))
        } else if f == "weekday"@ {
            Option::Some(CondValV::Text(ctx.time.weekday))
        } else {
            Option::None
        }
    } else if has_prefix(name, "space."@) {
        let f = name.skip(6);
        if f == "country"@ {
            Option::Some(CondValV::Text(ctx.space.country))
        } else if f == "country_code"@ {
            Option::Some(CondValV::Text(ctx.space.country_code))
        } else if f == "state"@ {
            Option::Some(CondValV::Text(ctx.space.state))
        } else if f == "city"@ {
            Option::Some(CondValV::Text(ctx.space.city))
        } else if f == "district"@ {
            Option::Some(CondValV::Text(ctx.space.district))
        } else if f == "road"@ {
            Option::Some(CondValV::Text(ctx.space.road))
        } else if f == "lat"@ {
            Option::Some(CondValV::Num(ctx.space.lat_e7, 10_000_000))
        } else if f == "lon"@ {
            Option::Some(CondValV::Num(ctx.space.lon_e7, 10_000_000))
        } else if f == "altitude"@ {
            match ctx.space.altitude_e3 {
                Option::Some(a) => Option::Some(CondValV::Num(a, 1000)),
                Option::None => Option::None,
            }
        } else {
            Option::None
        }
    } else if has_prefix(name, "source."@) {
        let f = name.skip(7);
        if f == "path"@ {
            Option::Some(CondValV::Text(ctx.source.path))
        } else if f == "name"@ {
            Option::Some(CondValV::Text(ctx.source.name))
        } else if f == "extension"@ {
            Option::Some(CondValV::Text(ctx.source.extension))
        } else if f == "original"@ {
            Option::Some(CondValV::Text(ctx.source.original))
        } else if f == "size"@ {
            if ctx.source.size > i64::MAX {
                Option::None
            } else {
                Option::Some(CondValV::Num(ctx.source.size, 1))
            }
        } else {
            Option::None
        }
    } else if has_prefix(name, "meta."@) && !has_dot(name.skip(5)) {
        match meta_lookup(ctx.meta, name.skip(5)) {
            Option::Some(MetaValV::Int(i)) => Option::Some(CondValV::Num(i, 1)),
            Option::Some(MetaValV::Rat(n, d)) => Option::Some(CondValV::Num(n, d)),
            Option::Some(MetaValV::Text(s)) => Option::Some(CondValV::Text(s)),
            Option::Some(MetaValV::Truth(b)) => Option::Some(CondValV::Truth(b)),
            Option::None => Option::Some(CondValV::Missing),
        }
    } else {
        Option::None
    }
}

/// Evaluation. `&&` and `||` short-circuit; their operands must be boolean;
/// `None` is an evaluation error.
pub open spec fn spec_eval(e: ExprV, ctx: MediaContextV) -> Option<CondValV>
    decreases e,
{
    match e {
        ExprV::Num(n, d) => Option::Some(CondValV::Num(n, d)),
        ExprV::Text(s) => Option::Some(CondValV::Text(s)),
        ExprV::Truth(b) => Option::Some(CondValV::Truth(b)),
        ExprV::Var(nm) => spec_var_value(nm, ctx),
        ExprV::Not(a) => match spec_eval(*a, ctx) {
            Option::Some(CondValV::Truth(b)) => Option::Some(CondValV::Truth(!b)),
            _ => Option::None,
        },
        ExprV::And(a, b) => match spec_eval(*a, ctx) {
            Option::Some(CondValV::Truth(false)) => Option::Some(CondValV::Truth(false)),
            Option::Some(CondValV::Truth(true)) => match spec_eval(*b, ctx) {
                Option::Some(CondValV::Truth(c)) => Option::Some(CondValV::Truth(c)),
                _ => Option::None,
            },
            _ => Option::None,
        },
        ExprV::Or(a, b) => match spec_eval(*a, ctx) {
            Option::Some(CondValV::Truth(true)) => Option::Some(CondValV::Truth(true)),
            Option::Some(CondValV::Truth(false)) => match spec_eval(*b, ctx) {
                Option::Some(CondValV::Truth(c)) => Option::Some(CondValV::Truth(c)),
                _ => Option::None,
            },
            _ => Option::None,
        },
        ExprV::Cmp(op, a, b) => match (spec_eval(*a, ctx), spec_eval(*b, ctx)) {
            (Option::Some(va), Option::Some(vb)) => Option::Some(
                CondValV::Truth(spec_compare(op, va, vb)),
            ),
            _ => Option::None,
        },
    }
}

/// The condition semantics end to end: lex, parse (whole input), evaluate;
/// a non-boolean result counts as false. `None` is a rule error.
pub open spec fn spec_evaluate_condition(s: Seq<char>, ctx: MediaContextV) -> Option<bool> {
    match spec_lex(s) {
        Option::None => Option::None,
        Option::Some(ts) => match sp_or(ts, 0, PARSE_FUEL as nat, PARSE_DEPTH as nat) {
            Option::None => Option::None,
            Option::Some((e, p)) => {
                if p != ts.len() {
                    Option::None
                } else {
                    match spec_eval(e, ctx) {
                        Option::None => Option::None,
                        Option::Some(CondValV::Truth(b)) => Option::Some(b),
                        Option::Some(_) => Option::Some(false),
                    }
                }
            },
        },
    }
}

/// Why a rule failed to evaluate.
#[derive(Clone, Copy, Debug, PartialEq, Eq, Structural)]
pub enum RuleError {
    Syntax,
    Eval,
}

impl RuleError {
    /// A short description, for logs.
    pub fn describe(&self) -> (r: String) {
        match self {
            RuleError::Syntax => String::from_str("condition could not be parsed"),
            RuleError::Eval => String::from_str("condition could not be evaluated"),
        }
    }
}

fn lex(t: &Vec<char>) -> (r: Option<Vec<Token>>)
    ensures
        match r {
            Option::Some(ts) => spec_lex(t@) == Option::Some(tok_views(ts@)),
            Option::None => spec_lex(t@) is None,
        },
{
    let n = t.len();
    let mut out: Vec<Token> = Vec::new();
    let mut i: usize = 0;
    proof {
        assert(tok_views(out@) =~= Seq::<TokenV>::empty());
    }
    while i < n
        invariant
            i <= n,
            n == t@.len(),
            spec_lex(t@) == spec_lex_at(t@, i as int, tok_views(out@)),
        decreases n - i,
    {
        let ghost acc0 = tok_views(out@);
        let c = t[i];
        if c == ' ' || c == '\t' || c == '\n' || c == '\r' {
            i += 1;
        } else if c == '(' {
            out.push(Token::LPar);
            proof {
                assert(tok_views(out@) =~= acc0.push(TokenV::LPar));
            }
            i += 1;
        } else if c == ')' {
            out.push(Token::RPar);
            proof {
                assert(tok_views(out@) =~= acc0.push(TokenV::RPar));
            }
            i += 1;
        } else if c == '&' {
            if i + 1 < n && t[i + 1] == '&' {
                out.push(Token::AndOp);
                proof {
                    assert(tok_views(out@) =~= acc0.push(TokenV::AndOp));
                }
                i += 2;
            } else {
                return Option::None;
            }
        } else if c == '|' {
            if i + 1 < n && t[i + 1] == '|' {
                out.push(Token::OrOp);
                proof {
                    assert(tok_views(out@) =~= acc0.push(TokenV::OrOp));
                }
                i += 2;
            } else {
                return Option::None;
            }
        } else if c == '=' {
            if i + 1 < n && t[i + 1] == '=' {
                out.push(Token::Cmp(CmpOp::Eq));
                proof {
                    assert(tok_views(out@) =~= acc0.push(TokenV::Cmp(CmpOp::Eq)));
                }
                i += 2;
            } else {
                return Option::None;
            }
        } else if c == '!' {
            if i + 1 < n && t[i + 1] == '=' {
                out.push(Token::Cmp(CmpOp::Ne));
                proof {
                    assert(tok_views(out@) =~= acc0.push(TokenV::Cmp(CmpOp::Ne)));
                }
                i += 2;
            } else {
                out.push(Token::Bang);
                proof {
                    assert(tok_views(out@) =~= acc0.push(TokenV::Bang));
                }
                i += 1;
            }
        } else if c == '<' {
            if i + 1 < n && t[i + 1] == '=' {
                out.push(Token::Cmp(CmpOp::Le));
                proof {
                    assert(tok_views(out@) =~= acc0.push(TokenV::Cmp(CmpOp::Le)));
                }
                i += 2;
            } else {
                out.push(Token::Cmp(CmpOp::Lt));
                proof {
                    assert(tok_views(out@) =~= acc0.push(TokenV::Cmp(CmpOp::Lt)));
                }
                i += 1;
            }
        } else if c == '>' {
            if i + 1 < n && t[i + 1] == '=' {
                out.push(Token::Cmp(CmpOp::Ge));
                proof {
                    assert(tok_views(out@) =~= acc0.push(TokenV::Cmp(CmpOp::Ge)));
                }
                i += 2;
            } else {
                out.push(Token::Cmp(CmpOp::Gt));
                proof {
                    assert(tok_views(out@) =~= acc0.push(TokenV::Cmp(CmpOp::Gt)));
                }
                i += 1;
            }
        } else if c == '"' {
            let mut j = i + 1;
            while j < n && t[j] != '"'
                invariant
                    i + 1 <= j <= n,
                    n == t@.len(),
                    str_close(t@, i + 1 as int) == str_close(t@, j as int),
                decreases n - j,
            {
                j += 1;
            }
            if j >= n {
                return Option::None;
            }
            let s = copy_range(t, i + 1, j);
            out.push(Token::Text(s));
            proof {
                assert(tok_views(out@) =~= acc0.push(
                    TokenV::Text(t@.subrange(i + 1 as int, j as int)),
                ));
            }
            i = j + 1;
        } else if is_digit_at(c) || (c == '-' && i + 1 < n && is_digit_at(t[i + 1])) {
            match lex_num(t, i) {
                Option::Some((tok, next)) => {
                    let ghost tv = tok@;
                    out.push(tok);
                    proof {
                        assert(tok_views(out@) =~= acc0.push(tv));
                    }
                    i = next;
                },
                Option::None => {
                    return Option::None;
                },
            }
        } else if is_ident_start_at(c) {
            match chain_scan(t, i) {
                Option::Some(e) => {
                    proof {
                        assert(chain_end(t@, i as int, true) == chain_end(
                            t@,
                            i + 1 as int,
                            false,
                        ));
                        crate::template::lemma_chain_end_range(t@, i + 1 as int, false);
                    }
                    let name = copy_range(t, i, e);
                    if chars_eq_str(&name, "true") {
                        out.push(Token::Lit(true));
                        proof {
                            assert(tok_views(out@) =~= acc0.push(TokenV::Lit(true)));
                        }
                    } else if chars_eq_str(&name, "false") {
                        out.push(Token::Lit(false));
                        proof {
                            assert(tok_views(out@) =~= acc0.push(TokenV::Lit(false)));
                        }
                    } else {
                        let ghost nv = name@;
                        out.push(Token::Name(name));
                        proof {
                            assert(tok_views(out@) =~= acc0.push(TokenV::Name(nv)));
                        }
                    }
                    i = e;
                },
                Option::None => {
                    return Option::None;
                },
            }
        } else {
            return Option::None;
        }
    }
    Option::Some(out)
}

fn is_digit_at(c: char) -> (r: bool)
    ensures
        r == is_digit_char(c),
{
    '0' <= c && c <= '9'
}

fn is_ident_start_at(c: char) -> (r: bool)
    ensures
        r == is_ident_start(c),
{
    ('a' <= c && c <= 'z') || ('A' <= c && c <= 'Z') || c == '_'
}

/// Reads the numeric token at `i`, mirroring `spec_lex_num`.
fn lex_num(t: &Vec<char>, i: usize) -> (r: Option<(Token, usize)>)
    requires
        i < t@.len(),
        is_digit_char(t@[i as int]) || (t@[i as int] == '-' && i + 1 < t@.len() && is_digit_char(
            t@[i + 1 as int],
        )),
    ensures
        match r {
            Option::Some((tok, next)) => spec_lex_num(t@, i as int) == Option::Some(
                (tok@, next as int),
            ) && i < next <= t@.len(),
            Option::None => spec_lex_num(t@, i as int) is None,
        },
{
    let n = t.len();
    let neg = t[i] == '-';
    let d0 = if neg {
        i + 1
    } else {
        i
    };
    let we = digits_end_exec(t, d0);
    proof {
        lemma_digits_end_range(t@, d0 as int);
        assert(digits_end(t@, d0 as int) == digits_end(t@, d0 + 1 as int));
        lemma_digits_end_range(t@, d0 + 1 as int);
        assert(we > d0);
    }
    let has_frac = we < n && t[we] == '.' && we + 1 < n && {
        let c = t[we + 1];
        '0' <= c && c <= '9'
    };
    if has_frac {
        let fe = digits_end_exec(t, we + 1);
        proof {
            lemma_digits_end_range(t@, we + 1 as int);
            assert(digits_end(t@, we + 1 as int) == digits_end(t@, we + 2 as int));
            lemma_digits_end_range(t@, we + 2 as int);
            assert(fe > we + 1);
            lemma_digits_val_concat(
                t@.subrange(d0 as int, we as int),
                t@.subrange(we + 1 as int, fe as int),
            );
        }
        let wv = match parse_u64_range(t, d0, we) {
            Option::Some(v) => v,
            Option::None => {
                proof {
                    lemma_whole_overflow(t@, d0 as int, we as int, fe as int);
                }
                return Option::None;
            },
        };
        let fv = match parse_u64_range(t, we + 1, fe) {
            Option::Some(v) => v,
            Option::None => {
                proof {
                    lemma_frac_overflow(t@, d0 as int, we as int, fe as int);
                }
                return Option::None;
            },
        };
        let k = fe - (we + 1);
        let den = match pow10_checked(k as u64) {
            Option::Some(v) => v,
            Option::None => {
                return Option::None;
            },
        };
        let total = match wv.checked_mul(den) {
            Option::Some(v) => match v.checked_add(fv) {
                Option::Some(v2) => v2,
                Option::None => {
                    return Option::None;
                },
            },
            Option::None => {
                proof {
                    assert(spec_digits_val(
                        t@.subrange(d0 as int, we as int) + t@.subrange(we + 1 as int, fe as int),
                    ) >= wv * den + 0);
                }
                return Option::None;
            },
        };
        if total > 0x7fff_ffff_ffff_ffffu64 {
            return Option::None;
        }
        let m: i64 = if neg {
            -(total as i64)
        } else {
            total as i64
        };
        Option::Some((Token::Num(m, den), fe))
    } else {
        let wv = match parse_u64_range(t, d0, we) {
            Option::Some(v) => v,
            Option::None => {
                return Option::None;
            },
        };
        if wv > 0x7fff_ffff_ffff_ffffu64 {
            return Option::None;
        }
        let m: i64 = if neg {
            -(wv as i64)
        } else {
            wv as i64
        };
        Option::Some((Token::Num(m, 1), we))
    }
}

/// If the whole part alone overflows, the combined digit value does too.
proof fn lemma_whole_overflow(t: Seq<char>, d0: int, we: int, fe: int)
    requires
        0 <= d0 <= we <= t.len(),
        we + 1 <= fe <= t.len(),
        spec_digits_val(t.subrange(d0, we)) > u64::MAX,
    ensures
        spec_digits_val(t.subrange(d0, we) + t.subrange(we + 1, fe)) > i64::MAX,
{
    let a = t.subrange(d0, we);
    let b = t.subrange(we + 1, fe);
    lemma_digits_val_concat(a, b);
    lemma_pow10_mono(0, b.len());
    assert(spec_digits_val(a) * pow10(b.len()) >= spec_digits_val(a) * 1) by (nonlinear_arith)
        requires
            pow10(b.len()) >= 1,
            spec_digits_val(a) >= 0,
    ;
}

/// If the fractional part alone overflows, the combined digit value does too.
proof fn lemma_frac_overflow(t: Seq<char>, d0: int, we: int, fe: int)
    requires
        0 <= d0 <= we <= t.len(),
        we + 1 <= fe <= t.len(),
        spec_digits_val(t.subrange(we + 1, fe)) > u64::MAX,
    ensures
        spec_digits_val(t.subrange(d0, we) + t.subrange(we + 1, fe)) > i64::MAX,
{
    let a = t.subrange(d0, we);
    let b = t.subrange(we + 1, fe);
    lemma_digits_val_concat(a, b);
    lemma_pow10_pos(b.len());
    assert(spec_digits_val(a) * pow10(b.len()) >= 0) by (nonlinear_arith)
        requires
            pow10(b.len()) >= 0,
            spec_digits_val(a) >= 0,
    ;
}

pub fn digits_end_exec(t: &Vec<char>, j: usize) -> (r: usize)
    requires
        j <= t@.len(),
    ensures
        r == digits_end(t@, j as int),
        j <= r <= t@.len(),
{
    let n = t.len();
    let mut k = j;
    while k < n && '0' <= t[k] && t[k] <= '9'
        invariant
            j <= k <= n,
            n == t@.len(),
            digits_end(t@, j as int) == digits_end(t@, k as int),
        decreases n - k,
    {
        k += 1;
    }
    k
}

fn pow10_checked(k: u64) -> (r: Option<u64>)
    ensures
        match r {
            Option::Some(v) => v == pow10(k as nat),
            Option::None => pow10(k as nat) > u64::MAX,
        },
{
    let mut acc: u64 = 1;
    let mut j: u64 = 0;
    while j < k
        invariant
            j <= k,
            acc == pow10(j as nat),
        decreases k - j,
    {
        match acc.checked_mul(10) {
            Option::Some(v) => {
                acc = v;
            },
            Option::None => {
                proof {
                    lemma_pow10_mono((j + 1) as nat, k as nat);
                }
                return Option::None;
            },
        }
        j += 1;
    }
    Option::Some(acc)
}

fn parse_or(ts: &Vec<Token>, pos: usize, fuel: u64, depth: u64) -> (r: Option<(Expr, usize)>)
    requires
        pos <= ts@.len(),
    ensures
        match r {
            Option::Some((e, p)) => sp_or(tok_views(ts@), pos as int, fuel as nat, depth as nat)
                == Option::Some((e@, p as int)) && p <= ts@.len(),
            Option::None => sp_or(tok_views(ts@), pos as int, fuel as nat, depth as nat) is None,
        },
    decreases fuel,
{
    if fuel == 0 {
        return Option::None;
    }
    match parse_and(ts, pos, fuel - 1, depth) {
        Option::Some((l, p)) => {
            if p < ts.len() && matches!(&ts[p], Token::OrOp) {
                proof {
                    assert(tok_views(ts@)[p as int] == ts@[p as int]@);
                }
                if depth == 0 {
                    return Option::None;
                }
                match parse_or(ts, p + 1, fuel - 1, depth - 1) {
                    Option::Some((rr, p2)) => Option::Some(
                        (Expr::Or(Box::new(l), Box::new(rr)), p2),
                    ),
                    Option::None => Option::None,
                }
            } else {
                proof {
                    if p < ts@.len() {
                        assert(tok_views(ts@)[p as int] == ts@[p as int]@);
                    }
                }
                Option::Some((l, p))
            }
        },
        Option::None => Option::None,
    }
}

fn parse_and(ts: &Vec<Token>, pos: usize, fuel: u64, depth: u64) -> (r: Option<(Expr, usize)>)
    requires
        pos <= ts@.len(),
    ensures
        match r {
            Option::Some((e, p)) => sp_and(tok_views(ts@), pos as int, fuel as nat, depth as nat)
                == Option::Some((e@, p as int)) && p <= ts@.len(),
            Option::None => sp_and(tok_views(ts@), pos as int, fuel as nat, depth as nat) is None,
        },
    decreases fuel,
{
    if fuel == 0 {
        return Option::None;
    }
    match parse_cmp(ts, pos, fuel - 1, depth) {
        Option::Some((l, p)) => {
            if p < ts.len() && matches!(&ts[p], Token::AndOp) {
                proof {
                    assert(tok_views(ts@)[p as int] == ts@[p as int]@);
                }
                if depth == 0 {
                    return Option::None;
                }
                match parse_and(ts, p + 1, fuel - 1, depth - 1) {
                    Option::Some((rr, p2)) => Option::Some(
                        (Expr::And(Box::new(l), Box::new(rr)), p2),
                    ),
                    Option::None => Option::None,
                }
            } else {
                proof {
                    if p < ts@.len() {
                        assert(tok_views(ts@)[p as int] == ts@[p as int]@);
                    }
                }
                Option::Some((l, p))
            }
        },
        Option::None => Option::None,
    }
}

fn parse_cmp(ts: &Vec<Token>, pos: usize, fuel: u64, depth: u64) -> (r: Option<(Expr, usize)>)
    requires
        pos <= ts@.len(),
    ensures
        match r {
            Option::Some((e, p)) => sp_cmp(tok_views(ts@), pos as int, fuel as nat, depth as nat)
                == Option::Some((e@, p as int)) && p <= ts@.len(),
            Option::None => sp_cmp(tok_views(ts@), pos as int, fuel as nat, depth as nat) is None,
        },
    decreases fuel,
{
    if fuel == 0 {
        return Option::None;
    }
    match parse_unary(ts, pos, fuel - 1, depth) {
        Option::Some((l, p)) => {
            let mut op_opt: Option<CmpOp> = Option::None;
            if p < ts.len() {
                match &ts[p] {
                    Token::Cmp(op) => {
                        op_opt = Option::Some(*op);
                    },
                    _ => {},
                }
            }
            proof {
                if p < ts@.len() {
                    assert(tok_views(ts@)[p as int] == ts@[p as int]@);
                }
            }
            match op_opt {
                Option::Some(op) => {
                    match parse_unary(ts, p + 1, fuel - 1, depth) {
                        Option::Some((rr, p2)) => Option::Some(
                            (Expr::Cmp(op, Box::new(l), Box::new(rr)), p2),
                        ),
                        Option::None => Option::None,
                    }
                },
                Option::None => Option::Some((l, p)),
            }
        },
        Option::None => Option::None,
    }
}

fn parse_unary(ts: &Vec<Token>, pos: usize, fuel: u64, depth: u64) -> (r: Option<(Expr, usize)>)
    requires
        pos <= ts@.len(),
    ensures
        match r {
            Option::Some((e, p)) => sp_unary(tok_views(ts@), pos as int, fuel as nat, depth as nat)
                == Option::Some((e@, p as int)) && p <= ts@.len(),
            Option::None => sp_unary(tok_views(ts@), pos as int, fuel as nat, depth as nat)
                is None,
        },
    decreases fuel,
{
    if fuel == 0 {
        return Option::None;
    }
    if pos < ts.len() && matches!(&ts[pos], Token::Bang) {
        proof {
            assert(tok_views(ts@)[pos as int] == ts@[pos as int]@);
        }
        if depth == 0 {
            return Option::None;
        }
        match parse_unary(ts, pos + 1, fuel - 1, depth - 1) {
            Option::Some((a, p)) => Option::Some((Expr::Not(Box::new(a)), p)),
            Option::None => Option::None,
        }
    } else {
        proof {
            if pos < ts@.len() {
                assert(tok_views(ts@)[pos as int] == ts@[pos as int]@);
            }
        }
        parse_primary(ts, pos, fuel - 1, depth)
    }
}

fn parse_primary(ts: &Vec<Token>, pos: usize, fuel: u64, depth: u64) -> (r: Option<
    (Expr, usize),
>)
    requires
        pos <= ts@.len(),
    ensures
        match r {
            Option::Some((e, p)) => sp_primary(
                tok_views(ts@),
                pos as int,
                fuel as nat,
                depth as nat,
            ) == Option::Some((e@, p as int)) && p <= ts@.len(),
            Option::None => sp_primary(tok_views(ts@), pos as int, fuel as nat, depth as nat)
                is None,
        },
    decreases fuel,
{
    if fuel == 0 || pos >= ts.len() {
        return Option::None;
    }
    proof {
        assert(tok_views(ts@)[pos as int] == ts@[pos as int]@);
    }
    match &ts[pos] {
        Token::Num(n, d) => Option::Some((Expr::Num(*n, *d), pos + 1)),
        Token::Text(s) => {
            let cp = copy_from(s, 0);
            proof {
                assert(s@.skip(0) =~= s@);
            }
            Option::Some((Expr::Text(cp), pos + 1))
        },
        Token::Lit(b) => Option::Some((Expr::Truth(*b), pos + 1)),
        Token::Name(nm) => {
            let cp = copy_from(nm, 0);
            proof {
                assert(nm@.skip(0) =~= nm@);
            }
            Option::Some((Expr::Var(cp), pos + 1))
        },
        Token::LPar => {
            if depth == 0 {
                return Option::None;
            }
            match parse_or(ts, pos + 1, fuel - 1, depth - 1) {
                Option::Some((e, p)) => {
                    if p < ts.len() && matches!(&ts[p], Token::RPar) {
                        proof {
                            assert(tok_views(ts@)[p as int] == ts@[p as int]@);
                        }
                        Option::Some((e, p + 1))
                    } else {
                        proof {
                            if p < ts@.len() {
                                assert(tok_views(ts@)[p as int] == ts@[p as int]@);
                            }
                        }
                        Option::None
                    }
                },
                Option::None => Option::None,
            }
        },
        _ => Option::None,
    }
}

fn str_lt_exec(a: &str, b: &str) -> (r: bool)
    ensures
        r == spec_str_lt(a@, b@),
{
    let an = a.unicode_len();
    let bn = b.unicode_len();
    let mut i: usize = 0;
    proof {
        assert(a@.skip(0) =~= a@);
        assert(b@.skip(0) =~= b@);
    }
    while i < an && i < bn
        invariant
            i <= an,
            i <= bn,
            an == a@.len(),
            bn == b@.len(),
            spec_str_lt(a@, b@) == spec_str_lt(a@.skip(i as int), b@.skip(i as int)),
        decreases an - i,
    {
        let ca = a.get_char(i);
        let cb = b.get_char(i);
        proof {
            assert(a@.skip(i as int)[0] == a@[i as int]);
            assert(b@.skip(i as int)[0] == b@[i as int]);
            assert(a@.skip(i as int).skip(1) =~= a@.skip(i + 1 as int));
            assert(b@.skip(i as int).skip(1) =~= b@.skip(i + 1 as int));
        }
        if ca != cb {
            return ca < cb;
        }
        i += 1;
    }
    proof {
        assert(a@.skip(i as int).len() == an - i);
        assert(b@.skip(i as int).len() == bn - i);
    }
    i >= an && i < bn
}

fn compare_values(op: CmpOp, a: &CondValue, b: &CondValue) -> (r: bool)
    ensures
        r == spec_compare(op, a@, b@),
{
    match (a, b) {
        (CondValue::Missing, _) => false,
        (_, CondValue::Missing) => false,
        (CondValue::Num(n1, d1), CondValue::Num(n2, d2)) => {
            if *d1 == 0 || *d2 == 0 {
                false
            } else {
                let a1: i128 = *n1 as i128;
                let b1: i128 = *d2 as i128;
                let a2: i128 = *n2 as i128;
                let b2: i128 = *d1 as i128;
                proof {
                    lemma_cross_mul_fits(a1 as int, b1 as int);
                    lemma_cross_mul_fits(a2 as int, b2 as int);
                }
                let x: i128 = a1 * b1;
                let y: i128 = a2 * b2;
                match op {
                    CmpOp::Eq => x == y,
                    CmpOp::Ne => x != y,
                    CmpOp::Lt => x < y,
                    CmpOp::Le => x <= y,
                    CmpOp::Gt => x > y,
                    CmpOp::Ge => x >= y,
                }
            }
        },
        (CondValue::Text(s1), CondValue::Text(s2)) => {
            match op {
                CmpOp::Eq => crate::text::str_eq(s1.as_str(), s2.as_str()),
                CmpOp::Ne => !crate::text::str_eq(s1.as_str(), s2.as_str()),
                CmpOp::Lt => str_lt_exec(s1.as_str(), s2.as_str()),
                CmpOp::Le => crate::text::str_eq(s1.as_str(), s2.as_str()) || str_lt_exec(
                    s1.as_str(),
                    s2.as_str(),
                ),
                CmpOp::Gt => str_lt_exec(s2.as_str(), s1.as_str()),
                CmpOp::Ge => crate::text::str_eq(s1.as_str(), s2.as_str()) || str_lt_exec(
                    s2.as_str(),
                    s1.as_str(),
                ),
            }
        },
        (CondValue::Truth(b1), CondValue::Truth(b2)) => {
            match op {
                CmpOp::Eq => *b1 == *b2,
                CmpOp::Ne => *b1 != *b2,
                _ => false,
            }
        },
        _ => {
            match op {
                CmpOp::Ne => true,
                _ => false,
            }
        },
    }
}

/// Resolves one variable binding, mirroring `spec_var_value`.
fn var_value(name: &Vec<char>, context: &MediaContext) -> (r: Option<CondValue>)
    ensures
        match r {
            Option::Some(v) => spec_var_value(name@, context@) == Option::Some(v@),
            Option::None => spec_var_value(name@, context@) is None,
        },
{
    proof {
        reveal_strlit("time.");
        reveal_strlit("space.");
        reveal_strlit("source.");
        reveal_strlit("meta.");
    }
    if chars_eq_str(name, "type") {
        return Option::Some(CondValue::Text(context.media_type.clone()));
    }
    if has_prefix_exec(name, "time.") {
        let f = copy_from(name, 5);
        if chars_eq_str(&f, "yyyy") {
            return Option::Some(CondValue::Text(context.time.yyyy.clone()));
        } else if chars_eq_str(&f, "mm") {
            return Option::Some(CondValue::Text(context.time.mm.clone()));
        } else if chars_eq_str(&f, "dd") {
            return Option::Some(CondValue::Text(context.time.dd.clone()));
        } else if chars_eq_str(&f, "hh") {
            return Option::Some(CondValue::Text(context.time.hh.clone()));
        } else if chars_eq_str(&f, "min") {
            return Option::Some(CondValue::Text(context.time.minute.clone()));
        } else if chars_eq_str(&f, "ss") {
            return Option::Some(CondValue::Text(context.time.ss.clone()));
        } else if chars_eq_str(&f, "month_name") {
            return Option::Some(CondValue::Text(context.time.month_name.clone()));
        } else if chars_eq_str(&f, "weekday") {
            return Option::Some(CondValue::Text(context.time.weekday.clone()));
        } else {
            return Option::None;
        }
    }
    if has_prefix_exec(name, "space.") {
        let f = copy_from(name, 6);
        if chars_eq_str(&f, "country") {
            return Option::Some(CondValue::Text(context.space.country.clone()));
        } else if chars_eq_str(&f, "country_code") {
            return Option::Some(CondValue::Text(context.space.country_code.clone()));
        } else if chars_eq_str(&f, "state") {
            return Option::Some(CondValue::Text(context.space.state.clone()));
        } else if chars_eq_str(&f, "city") {
            return Option::Some(CondValue::Text(context.space.city.clone()));
        } else if chars_eq_str(&f, "district") {
            return Option::Some(CondValue::Text(context.space.district.clone()));
        } else if chars_eq_str(&f, "road") {
            return Option::Some(CondValue::Text(context.space.road.clone()));
        } else if chars_eq_str(&f, "lat") {
            return Option::Some(CondValue::Num(context.space.lat_e7, 10_000_000));
        } else if chars_eq_str(&f, "lon") {
            return Option::Some(CondValue::Num(context.space.lon_e7, 10_000_000));
        } else if chars_eq_str(&f, "altitude") {
            match context.space.altitude_e3 {
                Option::Some(alt) => {
                    return Option::Some(CondValue::Num(alt, 1000));
                },
                Option::None => {
                    return Option::None;
                },
            }
        } else {
            return Option::None;
        }
    }
    if has_prefix_exec(name, "source.") {
        let f = copy_from(name, 7);
        if chars_eq_str(&f, "path") {
            return Option::Some(CondValue::Text(context.source.path.clone()));
        } else if chars_eq_str(&f, "name") {
            return Option::Some(CondValue::Text(context.source.name.clone()));
        } else if chars_eq_str(&f, "extension") {
            return Option::Some(CondValue::Text(context.source.extension.clone()));
        } else if chars_eq_str(&f, "original") {
            return Option::Some(CondValue::Text(context.source.original.clone()));
        } else if chars_eq_str(&f, "size") {
            if context.source.size > 0x7fff_ffff_ffff_ffffu64 {
                // the numeric domain is i64; a size beyond it cannot be
                // represented exactly
                return Option::None;
            }
            return Option::Some(CondValue::Num(context.source.size as i64, 1));
        } else {
            return Option::None;
        }
    }
    if has_prefix_exec(name, "meta.") {
        let f = copy_from(name, 5);
        if !contains_dot_local(&f) {
            let key = chars_to_string(&f);
            match context.meta.get(key.as_str()) {
                Option::Some(MetaValue::Int(i)) => {
                    return Option::Some(CondValue::Num(i, 1));
                },
                Option::Some(MetaValue::Rat(n, d)) => {
                    return Option::Some(CondValue::Num(n, d));
                },
                Option::Some(MetaValue::Text(s)) => {
                    return Option::Some(CondValue::Text(s));
                },
                Option::Some(MetaValue::Truth(b)) => {
                    return Option::Some(CondValue::Truth(b));
                },
                Option::None => {
                    return Option::Some(CondValue::Missing);
                },
            }
        } else {
            return Option::None;
        }
    }
    Option::None
}

fn contains_dot_local(v: &Vec<char>) -> (r: bool)
    ensures
        r == has_dot(v@),
{
    let mut i: usize = 0;
    let n = v.len();
    while i < n
        invariant
            i <= n,
            n == v@.len(),
            forall|j: int| 0 <= j < i ==> v@[j] != '.',
        decreases n - i,
    {
        if v[i] == '.' {
            return true;
        }
        i += 1;
    }
    false
}

fn eval_expr(e: &Expr, context: &MediaContext) -> (r: Option<CondValue>)
    ensures
        match r {
            Option::Some(v) => spec_eval(e@, context@) == Option::Some(v@),
            Option::None => spec_eval(e@, context@) is None,
        },
    decreases e,
{
    match e {
        Expr::Num(n, d) => Option::Some(CondValue::Num(*n, *d)),
        Expr::Text(s) => Option::Some(CondValue::Text(chars_to_string(s))),
        Expr::Truth(b) => Option::Some(CondValue::Truth(*b)),
        Expr::Var(nm) => var_value(nm, context),
        Expr::Not(a) => {
            match eval_expr(a, context) {
                Option::Some(CondValue::Truth(b)) => Option::Some(CondValue::Truth(!b)),
                _ => Option::None,
            }
        },
        Expr::And(a, b) => {
            match eval_expr(a, context) {
                Option::Some(CondValue::Truth(false)) => Option::Some(CondValue::Truth(false)),
                Option::Some(CondValue::Truth(true)) => {
                    match eval_expr(b, context) {
                        Option::Some(CondValue::Truth(c)) => Option::Some(CondValue::Truth(c)),
                        _ => Option::None,
                    }
                },
                _ => Option::None,
            }
        },
        Expr::Or(a, b) => {
            match eval_expr(a, context) {
                Option::Some(CondValue::Truth(true)) => Option::Some(CondValue::Truth(true)),
                Option::Some(CondValue::Truth(false)) => {
                    match eval_expr(b, context) {
                        Option::Some(CondValue::Truth(c)) => Option::Some(CondValue::Truth(c)),
                        _ => Option::None,
                    }
                },
                _ => Option::None,
            }
        },
        Expr::Cmp(op, a, b) => {
            match (eval_expr(a, context), eval_expr(b, context)) {
                (Option::Some(va), Option::Some(vb)) => Option::Some(
                    CondValue::Truth(compare_values(*op, &va, &vb)),
                ),
                _ => Option::None,
            }
        },
    }
}

/// The product of an `i64`-range value and a `u64`-range value fits an
/// `i128`.
proof fn lemma_cross_mul_fits(a: int, b: int)
    requires
        -0x8000_0000_0000_0000 <= a <= 0x7fff_ffff_ffff_ffff,
        0 <= b <= 0xffff_ffff_ffff_ffff,
    ensures
        i128::MIN <= a * b <= i128::MAX,
{
    assert(i128::MIN <= a * b <= i128::MAX) by (nonlinear_arith)
        requires
            -0x8000_0000_0000_0000 <= a <= 0x7fff_ffff_ffff_ffff,
            0 <= b <= 0xffff_ffff_ffff_ffff,
    ;
}

/// The sandboxed expression evaluator. Conditions evaluate under the
/// nesting cap `PARSE_DEPTH`; deeper conditions are a rule error.
pub struct RuleEngine {}

impl RuleEngine {
    pub fn new() -> (r: RuleEngine) {
        RuleEngine {  }
    }

    /// Evaluates one condition against a context. `Ok(b)` is the truth value
    /// (non-boolean results count as false); `Err` is the rule error the
    /// caller treats as non-matching.
    pub fn evaluate_condition(&self, condition: &str, context: &MediaContext) -> (r: Result<
        bool,
        RuleError,
    >)
        ensures
            match r {
                Result::Ok(b) => spec_evaluate_condition(condition@, context@) == Option::Some(b),
                Result::Err(_) => spec_evaluate_condition(condition@, context@) is None,
            },
    {
        let t = crate::text::str_to_chars(condition);
        let tokens = match lex(&t) {
            Option::Some(ts) => ts,
            Option::None => {
                return Result::Err(RuleError::Syntax);
            },
        };
        let parsed = match parse_or(&tokens, 0, PARSE_FUEL, PARSE_DEPTH) {
            Option::Some((e, p)) => {
                if p != tokens.len() {
                    proof {
                        assert(tok_views(tokens@).len() == tokens@.len());
                    }
                    return Result::Err(RuleError::Syntax);
                }
                e
            },
            Option::None => {
                return Result::Err(RuleError::Syntax);
            },
        };
        proof {
            assert(tok_views(tokens@).len() == tokens@.len());
        }
        match eval_expr(&parsed, context) {
            Option::Some(CondValue::Truth(b)) => Result::Ok(b),
            Option::Some(_) => Result::Ok(false),
            Option::None => Result::Err(RuleError::Eval),
        }
    }
}

} // verus!
