use vstd::prelude::*;
use crate::ast::{Expression, Statement, Type, Operand, type_keyword, operand_of};
use crate::error::{RunError, error_text};
use crate::number::decimal_of;
use crate::token::{Token, TokenType, TokenPosition};

verus! {

/// A token as plain values: kind, text and position.
pub type TokView = (TokenType, Seq<char>, TokenPosition);

/// A parse error as plain values: message and position.
pub type ParseFail = (Seq<char>, TokenPosition);

/// A parse outcome and the cursor position after it.
pub type Parsed<T> = (Result<T, ParseFail>, int);

/// An expression tree over plain values.
pub enum ExprV {
    Block(Seq<StmtV>),
    Number(Seq<u8>, Seq<u8>),
    Bool(bool),
    Str(Seq<char>),
    Identifier(Seq<char>),
    Assignment(Box<ExprV>, Box<ExprV>),
    Operation(Box<ExprV>, Operand, Box<ExprV>),
    Arm(Seq<ExprV>, Box<ExprV>),
    Call(Box<ExprV>, Seq<ExprV>),
    EOF,
}

/// A statement over plain values.
pub enum StmtV {
    Definition(Option<Type>, Seq<char>, Option<Box<ExprV>>),
    Expression(Box<ExprV>),
}

pub open spec fn tok_views(ts: Seq<Token>) -> Seq<TokView> {
    ts.map_values(|t: Token| (t.token_type, t.content@, t.position))
}

/// `e` is the tree `v`.
pub open spec fn expr_is(e: Expression, v: ExprV) -> bool
    decreases e,
{
    match e {
        Expression::Block(s) => match v {
            ExprV::Block(vs) => s@.len() == vs.len() && forall|i: int|
                0 <= i < s@.len() ==> stmt_is(#[trigger] s@[i], vs[i]),
            _ => false,
        },
        Expression::Number(d) => v == ExprV::Number(d.whole@, d.frac@),
        Expression::Bool(b) => v == ExprV::Bool(b),
        Expression::Str(s) => v == ExprV::Str(s@),
        Expression::Identifier(n) => v == ExprV::Identifier(n@),
        Expression::Assignment(a, b) => match v {
            ExprV::Assignment(va, vb) => expr_is(*a, *va) && expr_is(*b, *vb),
            _ => false,
        },
        Expression::Operation { left, op, right } => match v {
            ExprV::Operation(vl, vop, vr) => expr_is(*left, *vl) && op == vop && expr_is(*right, *vr),
            _ => false,
        },
        Expression::Arm(ps, body) => match v {
            ExprV::Arm(vps, vb) => expr_is(*body, *vb) && ps@.len() == vps.len() && forall|i: int|
                0 <= i < ps@.len() ==> expr_is(#[trigger] ps@[i], vps[i]),
            _ => false,
        },
        Expression::Call(callee, args) => match v {
            ExprV::Call(vc, vargs) => expr_is(*callee, *vc) && args@.len() == vargs.len() && forall|
                i: int,
            |
                0 <= i < args@.len() ==> expr_is(#[trigger] args@[i], vargs[i]),
            _ => false,
        },
        Expression::EOF => v == ExprV::EOF,
    }
}

/// `st` is the statement `v`.
pub open spec fn stmt_is(st: Statement, v: StmtV) -> bool
    decreases st,
{
    match st {
        Statement::Expression(e) => match v {
            StmtV::Expression(ve) => expr_is(*e, *ve),
            _ => false,
        },
        Statement::Definition(t, n, init) => match v {
            StmtV::Definition(vt, vn, vinit) => t == vt && n@ == vn && match init {
                None => vinit is None,
                Some(e) => vinit is Some && expr_is(*e, *vinit->Some_0),
            },
            _ => false,
        },
    }
}

/// The statements `ss` are the list `vs`.
pub open spec fn stmts_are(ss: Seq<Statement>, vs: Seq<StmtV>) -> bool {
    ss.len() == vs.len() && forall|i: int| 0 <= i < ss.len() ==> stmt_is(#[trigger] ss[i], vs[i])
}

/// An exec outcome agrees with a spec outcome: the same tree and final
/// position, or an error with the same message and position.
pub open spec fn expr_outcome(r: Result<Expression, RunError>, top: int, s: Parsed<ExprV>) -> bool {
    match s.0 {
        Ok(v) => r is Ok && expr_is(r->Ok_0, v) && top == s.1,
        Err(f) => r is Err && error_text(r->Err_0) == f.0 && r->Err_0.position == Some(f.1),
    }
}

pub open spec fn stmt_outcome(r: Result<Statement, RunError>, top: int, s: Parsed<StmtV>) -> bool {
    match s.0 {
        Ok(v) => r is Ok && stmt_is(r->Ok_0, v) && top == s.1,
        Err(f) => r is Err && error_text(r->Err_0) == f.0 && r->Err_0.position == Some(f.1),
    }
}

pub open spec fn list_outcome(r: Result<Vec<Statement>, RunError>, top: int, s: Parsed<Seq<StmtV>>) -> bool {
    match s.0 {
        Ok(v) => r is Ok && stmts_are(r->Ok_0@, v) && top == s.1,
        Err(f) => r is Err && error_text(r->Err_0) == f.0 && r->Err_0.position == Some(f.1),
    }
}

pub open spec fn text_at(v: Seq<TokView>, i: int) -> Seq<char> {
    v[i].1
}

pub open spec fn kind_at(v: Seq<TokView>, i: int) -> TokenType {
    v[i].0
}

pub open spec fn pos_at(v: Seq<TokView>, i: int) -> TokenPosition {
    v[i].2
}

/// The cursor after one step forward, which stops on the last token.
pub open spec fn step(v: Seq<TokView>, i: int) -> int {
    if i + 1 < v.len() {
        i + 1
    } else {
        i
    }
}

/// A blank token: a newline or the end-of-input marker.
pub open spec fn is_blank_at(v: Seq<TokView>, i: int) -> bool {
    text_at(v, i) == "\n"@ || kind_at(v, i) == TokenType::EOL
}

/// Where skipping blank tokens from `i` stops: on the first token that is
/// not blank, or where fewer than two tokens are left.
pub open spec fn blank_end(v: Seq<TokView>, i: int) -> int
    decreases v.len() - i,
{
    if 0 <= i && i + 1 < v.len() && is_blank_at(v, i) {
        if v.len() - (i + 1) < 2 {
            i + 1
        } else {
            blank_end(v, i + 1)
        }
    } else {
        i
    }
}

pub proof fn lemma_blank_end_stays(v: Seq<TokView>, i: int)
    requires
        0 <= i < v.len(),
    ensures
        i <= blank_end(v, i) < v.len(),
        blank_end(v, blank_end(v, i)) == blank_end(v, i),
    decreases v.len() - i,
{
    if i + 1 < v.len() && is_blank_at(v, i) && v.len() - (i + 1) >= 2 {
        lemma_blank_end_stays(v, i + 1);
    }
}

proof fn lemma_blank_end_from(v: Seq<TokView>, i: int)
    ensures
        i <= blank_end(v, i),
    decreases v.len() - i,
{
    if 0 <= i && i + 1 < v.len() && is_blank_at(v, i) && v.len() - (i + 1) >= 2 {
        lemma_blank_end_from(v, i + 1);
    }
}

pub open spec fn end_fail(v: Seq<TokView>, i: int) -> ParseFail {
    ("unexpected end of input"@, pos_at(v, i))
}

/// The literal or name that a token makes, for the kinds that make one.
pub open spec fn literal_of(v: Seq<TokView>, p: int) -> Option<ExprV> {
    match kind_at(v, p) {
        TokenType::IntLiteral | TokenType::FloatLiteral => Some(
            ExprV::Number(decimal_of(text_at(v, p)).unwrap().0, decimal_of(text_at(v, p)).unwrap().1),
        ),
        TokenType::BoolLiteral => Some(ExprV::Bool(text_at(v, p) == "true"@)),
        TokenType::StringLiteral => Some(ExprV::Str(text_at(v, p))),
        TokenType::Identifier => Some(ExprV::Identifier(text_at(v, p))),
        _ => None,
    }
}

/// Whether a token of this kind begins the arguments of a call.
pub open spec fn starts_argument(k: TokenType) -> bool {
    k == TokenType::IntLiteral || k == TokenType::FloatLiteral || k == TokenType::BoolLiteral || k
        == TokenType::StringLiteral || k == TokenType::Identifier
}

/// A type keyword at `i`, optionally followed by `..` for an array of it.
pub open spec fn s_types(v: Seq<TokView>, i: int) -> (Option<Type>, int) {
    if kind_at(v, i) == TokenType::Type {
        let t = type_keyword(text_at(v, i)).unwrap();
        let j = step(v, i);
        if text_at(v, j) == ".."@ {
            (Some(Type::Array(Box::new(t))), step(v, j))
        } else {
            (Some(t), j)
        }
    } else {
        (None, i)
    }
}

/// The parameters of an arm, from `j` up to the closing `|`.
pub open spec fn s_params(v: Seq<TokView>, j: int, acc: Seq<ExprV>) -> Result<(Seq<ExprV>, int), ParseFail>
    decreases v.len() - j,
{
    if text_at(v, j) == "|"@ {
        Ok((acc, j))
    } else {
        let p = blank_end(v, j);
        match literal_of(v, p) {
            None => Err(("expected identifier, str, num or bool, found: "@ + text_at(v, p), pos_at(v, p))),
            Some(e) => {
                let q = step(v, p);
                if v.len() - q < 2 || q <= j || q > v.len() {
                    Ok((acc.push(e), q))
                } else {
                    s_params(v, q, acc.push(e))
                }
            },
        }
    }
}

/// Folds the last two operands under the last operator.
pub open spec fn fold_top(operands: Seq<ExprV>, ops: Seq<(Operand, u8)>) -> (Seq<ExprV>, Seq<(Operand, u8)>) {
    let n = operands.len();
    (
        operands.subrange(0, n - 2).push(
            ExprV::Operation(Box::new(operands[n - 2]), ops.last().0, Box::new(operands[n - 1])),
        ),
        ops.drop_last(),
    )
}

/// Folds while the last operator binds at least as tight as rank `rank`.
pub open spec fn fold_while(operands: Seq<ExprV>, ops: Seq<(Operand, u8)>, rank: u8) -> (
    Seq<ExprV>,
    Seq<(Operand, u8)>,
)
    decreases ops.len(),
{
    if ops.len() > 0 && operands.len() >= 2 && ops.last().1 <= rank {
        let (a, b) = fold_top(operands, ops);
        fold_while(a, b, rank)
    } else {
        (operands, ops)
    }
}

/// Folds every operator left, innermost last pushed first.
pub open spec fn fold_all(operands: Seq<ExprV>, ops: Seq<(Operand, u8)>) -> ExprV
    decreases ops.len(),
{
    if ops.len() > 0 && operands.len() >= 2 {
        let (a, b) = fold_top(operands, ops);
        fold_all(a, b)
    } else {
        operands.last()
    }
}

/// Two operators after three operands: the second groups with what comes
/// before it when it binds no tighter than the first (equal ranks group to
/// the left), and with what follows it otherwise.
pub proof fn lemma_precedence_grouping(a: ExprV, b: ExprV, c: ExprV, o1: Operand, r1: u8, o2: Operand, r2: u8)
    ensures
        ({
            let (xs, ys) = fold_while(seq![a, b], seq![(o1, r1)], r2);
            fold_all(xs.push(c), ys.push((o2, r2)))
        }) == if r1 <= r2 {
            ExprV::Operation(
                Box::new(ExprV::Operation(Box::new(a), o1, Box::new(b))),
                o2,
                Box::new(c),
            )
        } else {
            ExprV::Operation(
                Box::new(a),
                o1,
                Box::new(ExprV::Operation(Box::new(b), o2, Box::new(c))),
            )
        },
{
    let ab = ExprV::Operation(Box::new(a), o1, Box::new(b));
    let e = Seq::<(Operand, u8)>::empty();
    if r1 <= r2 {
        let (f0, f1) = fold_top(seq![a, b], seq![(o1, r1)]);
        assert(f0 =~= seq![ab]);
        assert(f1 =~= e);
        assert(fold_while(seq![a, b], seq![(o1, r1)], r2) == fold_while(f0, f1, r2));
        assert(fold_while(seq![ab], e, r2) == (seq![ab], e));
        let xs = seq![ab].push(c);
        let ys = e.push((o2, r2));
        let abc = ExprV::Operation(Box::new(ab), o2, Box::new(c));
        let (g0, g1) = fold_top(xs, ys);
        assert(g0 =~= seq![abc]);
        assert(g1 =~= e);
        assert(fold_all(xs, ys) == fold_all(g0, g1));
        assert(fold_all(seq![abc], e) == abc);
    } else {
        assert(fold_while(seq![a, b], seq![(o1, r1)], r2) == (seq![a, b], seq![(o1, r1)]));
        let xs = seq![a, b].push(c);
        let ys = seq![(o1, r1)].push((o2, r2));
        let bc = ExprV::Operation(Box::new(b), o2, Box::new(c));
        let (g0, g1) = fold_top(xs, ys);
        assert(g0 =~= seq![a, bc]);
        assert(g1 =~= seq![(o1, r1)]);
        assert(fold_all(xs, ys) == fold_all(g0, g1));
        let abc = ExprV::Operation(Box::new(a), o1, Box::new(bc));
        let (h0, h1) = fold_top(seq![a, bc], seq![(o1, r1)]);
        assert(h0 =~= seq![abc]);
        assert(h1 =~= e);
        assert(fold_all(seq![a, bc], seq![(o1, r1)]) == fold_all(h0, h1));
        assert(fold_all(seq![abc], e) == abc);
    }
}

/// The end of a block's body from `j`: the `}` that closes `nests` open braces.
pub open spec fn block_close(v: Seq<TokView>, j: int, nests: int) -> int
    decreases v.len() - j,
{
    if 0 <= j && v.len() - j > 1 {
        if text_at(v, j) == "{"@ {
            block_close(v, j + 1, nests + 1)
        } else if text_at(v, j) == "}"@ {
            if nests == 1 {
                j
            } else {
                block_close(v, j + 1, nests - 1)
            }
        } else {
            block_close(v, j + 1, nests)
        }
    } else {
        j
    }
}

/// The tokens of a block's body from `p` to `e`, ended by a marker.
pub open spec fn block_tokens(v: Seq<TokView>, p: int, e: int) -> Seq<TokView> {
    v.subrange(p, e).push((TokenType::EOL, Seq::<char>::empty(), pos_at(v, e)))
}

/// Statements from `i` until the input is used up.
pub open spec fn s_parse_from(v: Seq<TokView>, i: int, acc: Seq<StmtV>) -> Parsed<Seq<StmtV>>
    decreases v.len() - i, 8int,
    via s_decreases_parse
{
    if v.len() - i <= 1 {
        (Ok(acc), i)
    } else {
        let p = blank_end(v, i);
        if v.len() - p < 2 {
            (Ok(acc), p)
        } else {
            let (st, j) = s_statement(v, p);
            match st {
                Err(f) => (Err(f), j),
                Ok(s) => if j <= i || j > v.len() {
                    (Ok(acc.push(s)), j)
                } else {
                    s_parse_from(v, j, acc.push(s))
                },
            }
        }
    }
}

/// A statement at `i`: a definition or an expression.
pub open spec fn s_statement(v: Seq<TokView>, i: int) -> Parsed<StmtV>
    decreases v.len() - i, 7int,
    via s_decreases_statement
{
    let p = blank_end(v, i);
    if v.len() - p < 2 {
        (Err(end_fail(v, p)), p)
    } else if kind_at(v, p) == TokenType::Identifier && text_at(v, step(v, p)) == ":"@ {
        let id = text_at(v, p);
        let (t, k) = s_types(v, step(v, step(v, p)));
        if text_at(v, k) == "="@ {
            let (e, m) = s_expression(v, step(v, k));
            match e {
                Err(f) => (Err(f), m),
                Ok(ExprV::EOF) => (Err(end_fail(v, m)), m),
                Ok(x) => (Ok(StmtV::Definition(t, id, Some(Box::new(x)))), m),
            }
        } else if t is Some {
            (Ok(StmtV::Definition(t, id, None)), k)
        } else {
            (Err(("expected '=' or type, found: "@ + text_at(v, k), pos_at(v, k))), k)
        }
    } else {
        let (e, m) = s_expression(v, p);
        match e {
            Err(f) => (Err(f), m),
            Ok(ExprV::EOF) => (Err(end_fail(v, m)), m),
            Ok(x) => (Ok(StmtV::Expression(Box::new(x))), m),
        }
    }
}

/// A term followed by operators and terms where there are any.
pub open spec fn s_expression(v: Seq<TokView>, i: int) -> Parsed<ExprV>
    decreases v.len() - i, 6int,
    via s_decreases_expression
{
    let (t, j) = s_term(v, i);
    match t {
        Err(f) => (Err(f), j),
        Ok(ExprV::EOF) => (Ok(ExprV::EOF), j),
        Ok(x) => if v.len() - j > 1 {
            let k = blank_end(v, j);
            if kind_at(v, k) == TokenType::Operator && i < k < v.len() {
                s_op_loop(v, k, seq![x], seq![])
            } else {
                (Ok(x), k)
            }
        } else {
            (Ok(x), j)
        },
    }
}

/// The operators and operands from `i`, folded by rank.
pub open spec fn s_op_loop(v: Seq<TokView>, i: int, operands: Seq<ExprV>, ops: Seq<(Operand, u8)>) -> Parsed<ExprV>
    decreases v.len() - i, 3int,
    via s_decreases_op_loop
{
    if kind_at(v, i) != TokenType::Operator {
        (Ok(fold_all(operands, ops)), i)
    } else {
        let (op, rank) = operand_of(text_at(v, i)).unwrap();
        let j = step(v, i);
        let (a, b) = fold_while(operands, ops, rank);
        if j <= i {
            (Err(end_fail(v, j)), j)
        } else {
            let (t, k) = s_term(v, j);
            match t {
                Err(f) => (Err(f), k),
                Ok(ExprV::EOF) => (Err(end_fail(v, k)), k),
                Ok(x) => if k <= i || k > v.len() {
                    (Err(end_fail(v, k)), k)
                } else {
                    s_op_loop(v, k, a.push(x), b.push((op, rank)))
                },
            }
        }
    }
}

/// The arguments of a call of `caller` from `i`: one expression, then more
/// after commas.
pub open spec fn s_call(v: Seq<TokView>, i: int, caller: ExprV) -> Parsed<ExprV>
    decreases v.len() - i, 7int,
    via s_decreases_call
{
    let (f, j) = s_expression(v, i);
    match f {
        Err(e) => (Err(e), j),
        Ok(ExprV::EOF) => (Ok(ExprV::Call(Box::new(caller), seq![])), j),
        Ok(x) => if j <= i || j > v.len() {
            (Ok(ExprV::Call(Box::new(caller), seq![x])), j)
        } else {
            match s_args(v, j, seq![x]).0 {
                Err(e) => (Err(e), s_args(v, j, seq![x]).1),
                Ok(args) => (Ok(ExprV::Call(Box::new(caller), args)), s_args(v, j, seq![x]).1),
            }
        },
    }
}

/// Further arguments, each after a comma.
pub open spec fn s_args(v: Seq<TokView>, j: int, args: Seq<ExprV>) -> Parsed<Seq<ExprV>>
    decreases v.len() - j, 7int,
    via s_decreases_args
{
    if 0 <= j && v.len() - j > 1 && text_at(v, j) == ","@ {
        let (e, m) = s_expression(v, j + 1);
        match e {
            Err(f) => (Err(f), m),
            Ok(ExprV::EOF) => (Ok(args), m),
            Ok(x) => if m <= j || m > v.len() {
                (Ok(args.push(x)), m)
            } else {
                s_args(v, m, args.push(x))
            },
        }
    } else {
        (Ok(args), j)
    }
}

/// An arm at `i`: `|` parameters `|` body.
pub open spec fn s_arm(v: Seq<TokView>, i: int) -> Parsed<ExprV>
    decreases v.len() - i, 2int,
    via s_decreases_arm
{
    if text_at(v, i) != "|"@ {
        (Err(("expected '"@ + "|"@ + "', found: "@ + text_at(v, i), pos_at(v, i))), i)
    } else {
        match s_params(v, step(v, i), seq![]) {
            Err(f) => (Err(f), i),
            Ok((ps, k)) => {
                let b = step(v, k);
                if b <= i || b > v.len() {
                    (Err(end_fail(v, b)), b)
                } else {
                    let (e, m) = s_expression(v, b);
                    match e {
                        Err(f) => (Err(f), m),
                        Ok(ExprV::EOF) => (Err(end_fail(v, m)), m),
                        Ok(x) => (Ok(ExprV::Arm(ps, Box::new(x))), m),
                    }
                }
            },
        }
    }
}

/// A block whose body starts at `i`, just after its `{`.
pub open spec fn s_block(v: Seq<TokView>, i: int) -> Parsed<ExprV>
    decreases v.len() - i, 9int,
    via s_decreases_block
{
    let p = blank_end(v, i);
    if text_at(v, p) == "}"@ {
        (Err(("illegal empty clause '{}'"@, pos_at(v, p))), p)
    } else {
        let e = block_close(v, p, 1);
        let sub = block_tokens(v, p, e);
        if sub.len() > v.len() - i || e < p {
            (Err(end_fail(v, e)), e)
        } else {
            match s_parse_from(sub, 0, seq![]).0 {
                Err(f) => (Err(f), step(v, e)),
                Ok(ss) => (Ok(ExprV::Block(ss)), step(v, e)),
            }
        }
    }
}

/// A term at `i`.
pub open spec fn s_term(v: Seq<TokView>, i: int) -> Parsed<ExprV>
    decreases v.len() - i, 5int,
    via s_decreases_term
{
    let p = blank_end(v, i);
    if v.len() - p < 2 {
        (Ok(ExprV::EOF), p)
    } else {
        let k = kind_at(v, p);
        let c = text_at(v, p);
        let q = step(v, p);
        if k == TokenType::IntLiteral || k == TokenType::FloatLiteral || k == TokenType::BoolLiteral
            || k == TokenType::StringLiteral {
            (Ok(literal_of(v, p).unwrap()), q)
        } else if k == TokenType::Symbol {
            if c == "{"@ {
                s_block(v, q)
            } else if c == "|"@ {
                s_arm(v, p)
            } else if c == "("@ {
                s_paren(v, p)
            } else {
                (Err(("unexpected symbol: "@ + c, pos_at(v, p))), p)
            }
        } else if k == TokenType::Identifier {
            s_after_name(v, q, ExprV::Identifier(c))
        } else {
            (Err(("unexpected: "@ + c, pos_at(v, p))), p)
        }
    }
}

/// A parenthesized expression whose `(` is at `p`, and what may follow it.
pub open spec fn s_paren(v: Seq<TokView>, p: int) -> Parsed<ExprV>
    decreases v.len() - p, 4int,
    via s_decreases_paren
{
    let q = step(v, p);
    if q <= p {
        (Err(end_fail(v, q)), q)
    } else if text_at(v, q) == ")"@ {
        (Err(("illegal empty clause '()'"@, pos_at(v, q))), q)
    } else {
        let (e, j) = s_expression(v, q);
        match e {
            Err(f) => (Err(f), j),
            Ok(ExprV::EOF) => (Err(end_fail(v, j)), j),
            Ok(x) => {
                let j2 = blank_end(v, j);
                if text_at(v, j2) != ")"@ {
                    (Err(("expected '"@ + ")"@ + "', found: "@ + text_at(v, j2), pos_at(v, j2))), j2)
                } else if j2 < q || j2 >= v.len() {
                    (Err(end_fail(v, j2)), j2)
                } else {
                    s_after_paren(v, step(v, j2), x)
                }
            },
        }
    }
}

/// What may follow a parenthesized expression `x`, read at `k`: arguments,
/// `!`, `=` and a value, or nothing.
pub open spec fn s_after_paren(v: Seq<TokView>, k: int, x: ExprV) -> Parsed<ExprV>
    decreases v.len() - k, 8int,
    via s_decreases_after_paren
{
    if k < 0 || k >= v.len() {
        (Ok(x), k)
    } else {
        let kk = kind_at(v, k);
        if starts_argument(kk) || (kk == TokenType::Symbol && text_at(v, k) == "("@) {
            s_call(v, k, x)
        } else if kk == TokenType::Symbol && text_at(v, k) == "!"@ {
            (Ok(ExprV::Call(Box::new(x), seq![])), step(v, k))
        } else if kk == TokenType::Symbol && text_at(v, k) == "="@ && step(v, k) > k {
            let (val, m) = s_expression(v, step(v, k));
            match val {
                Err(f) => (Err(f), m),
                Ok(ExprV::EOF) => (Err(end_fail(v, m)), m),
                Ok(y) => (Ok(ExprV::Assignment(Box::new(x), Box::new(y))), m),
            }
        } else {
            (Ok(x), k)
        }
    }
}

/// What may follow a name, read at `q`: arguments, `!`, `=` and a value,
/// or nothing.
pub open spec fn s_after_name(v: Seq<TokView>, q: int, id: ExprV) -> Parsed<ExprV>
    decreases v.len() - q, 8int,
    via s_decreases_after_name
{
    if q < 0 || v.len() - q <= 1 {
        (Ok(id), q)
    } else {
        let k = kind_at(v, q);
        let c = text_at(v, q);
        if starts_argument(k) {
            s_call(v, q, id)
        } else if k == TokenType::Symbol {
            if c == "("@ || c == "{"@ {
                s_call(v, q, id)
            } else if c == "!"@ {
                (Ok(ExprV::Call(Box::new(id), seq![])), q + 1)
            } else if c == "="@ {
                let (val, m) = s_expression(v, q + 1);
                match val {
                    Err(f) => (Err(f), m),
                    Ok(ExprV::EOF) => (Err(end_fail(v, m)), m),
                    Ok(y) => (Ok(ExprV::Assignment(Box::new(id), Box::new(y))), m),
                }
            } else if c == "\n"@ || c == "}"@ || c == "|"@ || c == ","@ || c == ")"@ {
                (Ok(id), q)
            } else {
                (Err(("unexpected: "@ + c, pos_at(v, q))), q)
            }
        } else {
            (Ok(id), q)
        }
    }
}

#[via_fn]
proof fn s_decreases_parse(v: Seq<TokView>, i: int, acc: Seq<StmtV>) {
    lemma_blank_end_from(v, i);
}

#[via_fn]
proof fn s_decreases_statement(v: Seq<TokView>, i: int) {
    lemma_blank_end_from(v, i);
}

#[via_fn]
proof fn s_decreases_expression(v: Seq<TokView>, i: int) {
}

#[via_fn]
proof fn s_decreases_op_loop(v: Seq<TokView>, i: int, operands: Seq<ExprV>, ops: Seq<(Operand, u8)>) {
}

#[via_fn]
proof fn s_decreases_call(v: Seq<TokView>, i: int, caller: ExprV) {
}

#[via_fn]
proof fn s_decreases_args(v: Seq<TokView>, j: int, args: Seq<ExprV>) {
}

#[via_fn]
proof fn s_decreases_arm(v: Seq<TokView>, i: int) {
}

#[via_fn]
proof fn s_decreases_block(v: Seq<TokView>, i: int) {
    lemma_blank_end_from(v, i);
}

#[via_fn]
proof fn s_decreases_term(v: Seq<TokView>, i: int) {
    lemma_blank_end_from(v, i);
}

#[via_fn]
proof fn s_decreases_paren(v: Seq<TokView>, p: int) {
}

#[via_fn]
proof fn s_decreases_after_paren(v: Seq<TokView>, k: int, x: ExprV) {
}

#[via_fn]
proof fn s_decreases_after_name(v: Seq<TokView>, q: int, id: ExprV) {
}

/// The statements that parsing the whole token sequence gives.
pub open spec fn parse_spec(v: Seq<TokView>) -> Parsed<Seq<StmtV>> {
    s_parse_from(v, 0, seq![])
}

} // verus!
