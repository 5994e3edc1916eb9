use vstd::prelude::*;
use crate::ast::{Expression, Statement, Type, Operand, get_type, get_operand};
use crate::error::{RunError, error_text};
use crate::grammar::{
    ExprV, StmtV, TokView, ParseFail, tok_views, expr_is, stmt_is, stmts_are, expr_outcome,
    stmt_outcome, list_outcome, pos_at, blank_end, literal_of, s_types, s_params, s_arm, s_term,
    s_paren, s_after_paren, s_after_name, s_block, s_expression, s_statement, s_call, s_args, s_op_loop,
    s_parse_from, fold_top, fold_while, fold_all, block_close, block_tokens,
};
use crate::number::Decimal;
use crate::text::push_str;
use crate::token::{Token, TokenType, TokenPosition, token_ok};
use crate::traveler::Traveler;

verus! {

/// An expression holds no end-of-input marker anywhere inside it.
pub open spec fn expr_complete(e: Expression) -> bool
    decreases e,
{
    match e {
        Expression::EOF => false,
        Expression::Block(stmts) => forall|i: int|
            0 <= i < stmts@.len() ==> stmt_complete(#[trigger] stmts@[i]),
        Expression::Assignment(target, value) => expr_complete(*target) && expr_complete(*value),
        Expression::Operation { left, op, right } => expr_complete(*left) && expr_complete(*right),
        Expression::Arm(params, body) => expr_complete(*body) && forall|i: int|
            0 <= i < params@.len() ==> expr_complete(#[trigger] params@[i]),
        Expression::Call(callee, args) => expr_complete(*callee) && forall|i: int|
            0 <= i < args@.len() ==> expr_complete(#[trigger] args@[i]),
        _ => true,
    }
}

/// A statement holds no end-of-input marker anywhere inside it.
pub open spec fn stmt_complete(st: Statement) -> bool
    decreases st,
{
    match st {
        Statement::Expression(e) => expr_complete(*e),
        Statement::Definition(_, _, init) => match init {
            Some(e) => expr_complete(*e),
            None => true,
        },
    }
}

/// A recursive-descent parser over a token cursor.
pub struct Parser {
    pub traveler: Traveler,
}

fn position_error(pos: TokenPosition, what: &str, found: &String) -> (r: RunError)
    ensures
        r.position == Some(pos),
        error_text(r) == what@ + found@,
{
    let mut msg = String::new();
    push_str(&mut msg, what);
    push_str(&mut msg, found.as_str());
    RunError::from_message(msg, Some(pos))
}

impl Parser {
    pub open spec fn wf(&self) -> bool {
        self.traveler.wf()
    }

    /// The tokens as plain values.
    pub open spec fn view_tokens(&self) -> Seq<TokView> {
        tok_views(self.traveler.tokens@)
    }

    /// The cursor position.
    pub open spec fn at_pos(&self) -> int {
        self.traveler.top as int
    }

    /// `later` is this parser further on over the same tokens.
    pub open spec fn moved_on(&self, later: &Parser) -> bool {
        &&& later.traveler.wf()
        &&& later.traveler.tokens@ == self.traveler.tokens@
        &&& self.traveler.top <= later.traveler.top
    }

    pub fn new(traveler: Traveler) -> (r: Parser)
        ensures
            r.traveler == traveler,
    {
        Parser { traveler }
    }

    /// The token under the cursor, as plain values.
    proof fn lemma_here(&self)
        requires
            self.wf(),
        ensures
            self.view_tokens().len() == self.traveler.tokens@.len(),
            self.view_tokens()[self.at_pos()] == (
                self.traveler.here().token_type,
                self.traveler.here().content@,
                self.traveler.here().position,
            ),
    {
    }

    fn end_error(&self) -> (r: RunError)
        requires
            self.wf(),
        ensures
            r.position == Some(pos_at(self.view_tokens(), self.at_pos())),
            error_text(r) == "unexpected end of input"@,
    {
        RunError::new_pos(self.traveler.current().position, "unexpected end of input")
    }

    /// Parses statements until the input is used up; the first error stops
    /// it and is returned. The outcome is the grammar's, `parse_spec`, from
    /// the cursor on.
    pub fn parse(&mut self) -> (r: Result<Vec<Statement>, RunError>)
        requires
            old(self).wf(),
        ensures
            old(self).moved_on(final(self)),
            list_outcome(r, final(self).at_pos(), s_parse_from(old(self).view_tokens(), old(self).at_pos(), seq![])),
            r is Ok ==> final(self).traveler.left() < 2,
            r is Ok ==> forall|i: int|
                0 <= i < r->Ok_0@.len() ==> stmt_complete(#[trigger] r->Ok_0@[i]),
        decreases old(self).traveler.left(), 8int,
    {
        let ghost v = self.view_tokens();
        let ghost i0 = self.at_pos();
        let ghost mut sv: Seq<StmtV> = seq![];
        let mut stack: Vec<Statement> = Vec::new();
        while self.traveler.remaining() > 1
            invariant
                old(self).moved_on(self),
                v == self.view_tokens(),
                i0 == old(self).at_pos(),
                stmts_are(stack@, sv),
                s_parse_from(v, self.at_pos(), sv) == s_parse_from(v, i0, seq![]),
                forall|i: int| 0 <= i < stack@.len() ==> stmt_complete(#[trigger] stack@[i]),
            ensures
                old(self).moved_on(self),
                self.traveler.left() < 2,
                stmts_are(stack@, sv),
                s_parse_from(v, i0, seq![]) == (Ok::<Seq<StmtV>, ParseFail>(sv), self.at_pos()),
                forall|i: int| 0 <= i < stack@.len() ==> stmt_complete(#[trigger] stack@[i]),
            decreases self.traveler.left(),
        {
            let ghost here = self.at_pos();
            self.skip_whitespace()?;
            if self.traveler.remaining() < 2 {
                break;
            }
            let ghost p = self.at_pos();
            let st = self.statement()?;
            proof {
                let sst = s_statement(v, p).0->Ok_0;
                assert(stmts_are(stack@.push(st), sv.push(sst))) by {
                    assert forall|i: int| 0 <= i < stack@.push(st).len() implies stmt_is(
                        #[trigger] stack@.push(st)[i],
                        sv.push(sst)[i],
                    ) by {
                        if i < stack@.len() {
                            assert(stmt_is(stack@[i], sv[i]));
                        }
                    }
                }
                sv = sv.push(sst);
            }
            stack.push(st);
        }
        Ok(stack)
    }

    /// A type keyword, optionally followed by `..` for an array of it.
    pub fn types(&mut self) -> (r: Result<Option<Type>, RunError>)
        requires
            old(self).wf(),
        ensures
            old(self).moved_on(final(self)),
            r == Ok::<Option<Type>, RunError>(s_types(old(self).view_tokens(), old(self).at_pos()).0),
            final(self).at_pos() == s_types(old(self).view_tokens(), old(self).at_pos()).1,
    {
        if self.traveler.kind() == TokenType::Type {
            proof {
                assert(token_ok(self.traveler.tokens@[self.traveler.top as int]));
            }
            let content = self.traveler.current_content();
            let t = get_type(content.as_str()).unwrap();
            self.traveler.next();
            if self.traveler.at("..") {
                self.traveler.next();
                return Ok(Some(Type::Array(Box::new(t))));
            }
            Ok(Some(t))
        } else {
            Ok(None)
        }
    }

    /// Moves past newlines; stops on the last real token at the latest.
    pub fn skip_whitespace(&mut self) -> (r: Result<(), RunError>)
        requires
            old(self).wf(),
        ensures
            r is Ok,
            old(self).moved_on(final(self)),
            final(self).at_pos() == blank_end(old(self).view_tokens(), old(self).at_pos()),
    {
        let ghost v = self.view_tokens();
        while self.traveler.at("\n") || self.traveler.kind() == TokenType::EOL
            invariant
                old(self).moved_on(self),
                v == self.view_tokens(),
                blank_end(v, self.at_pos()) == blank_end(v, old(self).at_pos()),
            ensures
                old(self).moved_on(self),
                self.at_pos() == blank_end(v, old(self).at_pos()),
            decreases self.traveler.left(),
        {
            self.traveler.next();
            if self.traveler.remaining() < 2 {
                break;
            }
        }
        Ok(())
    }

    /// An arm: `|` parameters `|` body. Each parameter is a name, or a
    /// number, string or boolean literal that the argument must equal.
    pub fn arm(&mut self) -> (r: Result<Expression, RunError>)
        requires
            old(self).wf(),
        ensures
            old(self).moved_on(final(self)),
            expr_outcome(r, final(self).at_pos(), s_arm(old(self).view_tokens(), old(self).at_pos())),
            r is Ok ==> expr_complete(r->Ok_0),
            r is Ok ==> old(self).traveler.top < final(self).traveler.top,
        decreases old(self).traveler.left(), 2int,
    {
        let ghost v = self.view_tokens();
        let ghost i0 = self.at_pos();
        proof {
            self.lemma_here();
        }
        self.traveler.expect_content("|")?;
        proof {
            reveal_strlit("|");
        }
        self.traveler.next();
        let ghost j0 = self.at_pos();
        let ghost mut pv: Seq<ExprV> = seq![];
        let mut params: Vec<Expression> = Vec::new();
        while !self.traveler.at("|")
            invariant_except_break
                s_params(v, self.at_pos(), pv) == s_params(v, j0, seq![]),
            invariant
                old(self).moved_on(self),
                v == self.view_tokens(),
                i0 == old(self).at_pos(),
                old(self).traveler.top < self.traveler.top,
                params@.len() == pv.len(),
                forall|i: int| 0 <= i < params@.len() ==> expr_is(#[trigger] params@[i], pv[i]),
                forall|i: int| 0 <= i < params@.len() ==> expr_complete(#[trigger] params@[i]),
                s_arm(v, i0) == match s_params(v, j0, seq![]) {
                    Err(f) => (Err(f), i0),
                    Ok((ps, k)) => {
                        let b = if k + 1 < v.len() { k + 1 } else { k };
                        if b <= i0 || b > v.len() {
                            (Err(crate::grammar::end_fail(v, b)), b)
                        } else {
                            let (e, m) = s_expression(v, b);
                            match e {
                                Err(f) => (Err(f), m),
                                Ok(ExprV::EOF) => (Err(crate::grammar::end_fail(v, m)), m),
                                Ok(x) => (Ok(ExprV::Arm(ps, Box::new(x))), m),
                            }
                        }
                    },
                },
            ensures
                old(self).moved_on(self),
                old(self).traveler.top < self.traveler.top,
                params@.len() == pv.len(),
                forall|i: int| 0 <= i < params@.len() ==> expr_is(#[trigger] params@[i], pv[i]),
                s_params(v, j0, seq![]) == Ok::<(Seq<ExprV>, int), ParseFail>((pv, self.at_pos())),
                forall|i: int| 0 <= i < params@.len() ==> expr_complete(#[trigger] params@[i]),
            decreases self.traveler.left(),
        {
            let ghost j = self.at_pos();
            self.skip_whitespace()?;
            proof {
                assert(token_ok(self.traveler.tokens@[self.traveler.top as int]));
                self.lemma_here();
            }
            let a = match self.traveler.kind() {
                TokenType::IntLiteral | TokenType::FloatLiteral => {
                    let content = self.traveler.current_content();
                    let d = Decimal::parse(content.as_str()).unwrap();
                    Expression::Number(d)
                },
                TokenType::BoolLiteral => Expression::Bool(self.traveler.at("true")),
                TokenType::StringLiteral => Expression::Str(self.traveler.current_content()),
                TokenType::Identifier => Expression::Identifier(self.traveler.current_content()),
                _ => {
                    let found = self.traveler.current_content();
                    return Err(
                        position_error(
                            self.traveler.current().position,
                            "expected identifier, str, num or bool, found: ",
                            &found,
                        ),
                    );
                },
            };
            let ghost av = literal_of(v, self.at_pos()).unwrap();
            let ghost p = self.at_pos();
            self.traveler.next();
            proof {
                assert(s_params(v, j, pv) == if v.len() - self.at_pos() < 2 || self.at_pos() <= j
                    || self.at_pos() > v.len() {
                    Ok((pv.push(av), self.at_pos()))
                } else {
                    s_params(v, self.at_pos(), pv.push(av))
                });
                let ps = params@.push(a);
                assert forall|i: int| 0 <= i < ps.len() implies expr_is(#[trigger] ps[i], pv.push(av)[i]) by {
                    if i < params@.len() {
                        assert(expr_is(params@[i], pv[i]));
                    }
                }
                pv = pv.push(av);
            }
            params.push(a);
            if self.traveler.remaining() < 2 {
                break;
            }
        }
        self.traveler.next();
        let ghost b = self.at_pos();
        let body = self.expression()?;
        if matches!(body, Expression::EOF) {
            return Err(self.end_error());
        }
        proof {
            let bv = s_expression(v, b).0->Ok_0;
            assert(expr_is(Expression::Arm(params, Box::new(body)), ExprV::Arm(pv, Box::new(bv))));
        }
        Ok(Expression::Arm(params, Box::new(body)))
    }

    /// A single term: a literal, a block, an arm, a parenthesized expression
    /// (which may be called or assigned to), or a name (which may be called,
    /// with arguments, with `!` for none, or assigned to with `=`). At the
    /// end of input it is `EOF`.
    pub fn term(&mut self) -> (r: Result<Expression, RunError>)
        requires
            old(self).wf(),
        ensures
            old(self).moved_on(final(self)),
            expr_outcome(r, final(self).at_pos(), s_term(old(self).view_tokens(), old(self).at_pos())),
            r is Ok && r->Ok_0 is EOF ==> final(self).traveler.left() < 2,
            r is Ok && !(r->Ok_0 is EOF) ==> expr_complete(r->Ok_0) && old(self).traveler.top
                < final(self).traveler.top,
        decreases old(self).traveler.left(), 5int,
    {
        let ghost v = self.view_tokens();
        self.skip_whitespace()?;
        if self.traveler.remaining() < 2 {
            return Ok(Expression::EOF);
        }
        proof {
            assert(token_ok(self.traveler.tokens@[self.traveler.top as int]));
        }
        match self.traveler.kind() {
            TokenType::IntLiteral | TokenType::FloatLiteral => {
                let content = self.traveler.current_content();
                let d = Decimal::parse(content.as_str()).unwrap();
                self.traveler.next();
                Ok(Expression::Number(d))
            },
            TokenType::BoolLiteral => {
                let b = self.traveler.at("true");
                self.traveler.next();
                Ok(Expression::Bool(b))
            },
            TokenType::StringLiteral => {
                let s = self.traveler.current_content();
                self.traveler.next();
                Ok(Expression::Str(s))
            },
            TokenType::Symbol => {
                if self.traveler.at("{") {
                    self.traveler.next();
                    self.block()
                } else if self.traveler.at("|") {
                    self.arm()
                } else if self.traveler.at("(") {
                    self.paren()
                } else {
                    let found = self.traveler.current_content();
                    Err(position_error(self.traveler.current().position, "unexpected symbol: ", &found))
                }
            },
            TokenType::Identifier => {
                let name = self.traveler.current_content();
                let ghost idv = ExprV::Identifier(name@);
                let id = Expression::Identifier(name);
                proof {
                    assert(expr_complete(id));
                    assert(expr_is(id, idv));
                }
                self.traveler.next();
                self.after_name(id, Ghost(idv))
            },
            _ => {
                let found = self.traveler.current_content();
                Err(position_error(self.traveler.current().position, "unexpected: ", &found))
            },
        }
    }

    /// A parenthesized expression, and a call of it or an assignment to it
    /// where one follows.
    fn paren(&mut self) -> (r: Result<Expression, RunError>)
        requires
            old(self).wf(),
            old(self).traveler.left() >= 2,
            old(self).traveler.here().token_type == TokenType::Symbol,
        ensures
            old(self).moved_on(final(self)),
            expr_outcome(r, final(self).at_pos(), s_paren(old(self).view_tokens(), old(self).at_pos())),
            r is Ok ==> expr_complete(r->Ok_0) && old(self).traveler.top < final(self).traveler.top,
        decreases old(self).traveler.left(), 4int,
    {
        let ghost v = self.view_tokens();
        let ghost p = self.at_pos();
        self.traveler.next();
        if self.traveler.at(")") {
            return Err(RunError::new_pos(self.traveler.current().position, "illegal empty clause '()'"));
        }
        let ghost q = self.at_pos();
        let expr = self.expression()?;
        if matches!(expr, Expression::EOF) {
            return Err(self.end_error());
        }
        let ghost xv = s_expression(v, q).0->Ok_0;
        self.skip_whitespace()?;
        self.traveler.expect_content(")")?;
        self.traveler.next();
        self.after_paren(expr, Ghost(xv))
    }

    /// What may follow a parenthesized expression: arguments, `!` for a
    /// call with none, `=` and a value, or nothing.
    fn after_paren(&mut self, expr: Expression, Ghost(xv): Ghost<ExprV>) -> (r: Result<Expression, RunError>)
        requires
            old(self).wf(),
            expr_complete(expr),
            expr_is(expr, xv),
        ensures
            old(self).moved_on(final(self)),
            expr_outcome(r, final(self).at_pos(), s_after_paren(old(self).view_tokens(), old(self).at_pos(), xv)),
            r is Ok ==> expr_complete(r->Ok_0),
        decreases old(self).traveler.left(), 8int,
    {
        let ghost v = self.view_tokens();
        proof {
            self.lemma_here();
        }
        match self.traveler.kind() {
            TokenType::IntLiteral | TokenType::FloatLiteral | TokenType::BoolLiteral
            | TokenType::StringLiteral | TokenType::Identifier => {
                return self.call(expr, Ghost(xv));
            },
            TokenType::Symbol => {
                if self.traveler.at("(") {
                    return self.call(expr, Ghost(xv));
                } else if self.traveler.at("!") {
                    self.traveler.next();
                    let none: Vec<Expression> = Vec::new();
                    proof {
                        assert(none@.len() == 0);
                    }
                    let r = Expression::Call(Box::new(expr), none);
                    proof {
                        assert(expr_is(r, ExprV::Call(Box::new(xv), seq![])));
                    }
                    return Ok(r);
                } else if self.traveler.at("=") && self.traveler.remaining() > 1 {
                    self.traveler.next();
                    let ghost m0 = self.at_pos();
                    let value = self.expression()?;
                    if matches!(value, Expression::EOF) {
                        return Err(self.end_error());
                    }
                    let r = Expression::Assignment(Box::new(expr), Box::new(value));
                    proof {
                        let yv = s_expression(v, m0).0->Ok_0;
                        assert(expr_is(r, ExprV::Assignment(Box::new(xv), Box::new(yv))));
                    }
                    return Ok(r);
                }
            },
            _ => {},
        }
        Ok(expr)
    }

    /// What may follow a name: arguments, `!` for a call with none, `=` and
    /// a value, or nothing.
    fn after_name(&mut self, id: Expression, Ghost(idv): Ghost<ExprV>) -> (r: Result<Expression, RunError>)
        requires
            old(self).wf(),
            expr_complete(id),
            expr_is(id, idv),
        ensures
            old(self).moved_on(final(self)),
            expr_outcome(r, final(self).at_pos(), s_after_name(old(self).view_tokens(), old(self).at_pos(), idv)),
            r is Ok ==> expr_complete(r->Ok_0),
        decreases old(self).traveler.left(), 8int,
    {
        let ghost v = self.view_tokens();
        if self.traveler.remaining() > 1 {
            match self.traveler.kind() {
                TokenType::IntLiteral | TokenType::FloatLiteral | TokenType::BoolLiteral
                | TokenType::StringLiteral | TokenType::Identifier => self.call(id, Ghost(idv)),
                TokenType::Symbol => {
                    if self.traveler.at("(") || self.traveler.at("{") {
                        self.call(id, Ghost(idv))
                    } else if self.traveler.at("!") {
                        self.traveler.next();
                        let r = Expression::Call(Box::new(id), Vec::new());
                        proof {
                            assert(expr_is(r, ExprV::Call(Box::new(idv), seq![])));
                        }
                        Ok(r)
                    } else if self.traveler.at("=") {
                        self.traveler.next();
                        let ghost m0 = self.at_pos();
                        let value = self.expression()?;
                        if matches!(value, Expression::EOF) {
                            return Err(self.end_error());
                        }
                        let r = Expression::Assignment(Box::new(id), Box::new(value));
                        proof {
                            let yv = s_expression(v, m0).0->Ok_0;
                            assert(expr_is(r, ExprV::Assignment(Box::new(idv), Box::new(yv))));
                        }
                        Ok(r)
                    } else if self.traveler.at("\n") || self.traveler.at("}") || self.traveler.at("|")
                        || self.traveler.at(",") || self.traveler.at(")") {
                        Ok(id)
                    } else {
                        let found = self.traveler.current_content();
                        Err(position_error(self.traveler.current().position, "unexpected: ", &found))
                    }
                },
                _ => Ok(id),
            }
        } else {
            Ok(id)
        }
    }

    /// The body of a block, up to its matching `}`, parsed on its own.
    fn block(&mut self) -> (r: Result<Expression, RunError>)
        requires
            old(self).wf(),
        ensures
            old(self).moved_on(final(self)),
            expr_outcome(r, final(self).at_pos(), s_block(old(self).view_tokens(), old(self).at_pos())),
            r is Ok ==> expr_complete(r->Ok_0) && r->Ok_0 is Block,
        decreases old(self).traveler.left(), 9int,
    {
        let ghost v = self.view_tokens();
        self.skip_whitespace()?;
        if self.traveler.at("}") {
            return Err(RunError::new_pos(self.traveler.current().position, "illegal empty clause '{}'"));
        }
        let start = self.traveler.top;
        let mut nests: usize = 1;
        let mut body: Vec<Token> = Vec::new();
        while self.traveler.remaining() > 1
            invariant
                old(self).moved_on(self),
                v == self.view_tokens(),
                start <= self.traveler.top,
                old(self).traveler.top <= start,
                body@.len() == self.traveler.top - start,
                1 <= nests <= body@.len() + 1,
                forall|i: int| 0 <= i < body@.len() ==> #[trigger] token_ok(body@[i]),
                tok_views(body@) == v.subrange(start as int, self.at_pos()),
                block_close(v, start as int, 1) == block_close(v, self.at_pos(), nests as int),
            ensures
                old(self).moved_on(self),
                start <= self.traveler.top,
                body@.len() == self.traveler.top - start,
                forall|i: int| 0 <= i < body@.len() ==> #[trigger] token_ok(body@[i]),
                tok_views(body@) == v.subrange(start as int, self.at_pos()),
                block_close(v, start as int, 1) == self.at_pos(),
            decreases self.traveler.left(),
        {
            if self.traveler.at("{") {
                let total = self.traveler.tokens.len();
                proof {
                    assert(self.traveler.top + 2 <= total);
                }
                nests = nests + 1;
            } else if self.traveler.at("}") {
                if nests == 1 {
                    break;
                }
                nests = nests - 1;
            }
            proof {
                assert(token_ok(self.traveler.tokens@[self.traveler.top as int]));
            }
            let ghost before = body@;
            body.push(self.traveler.current().copy());
            proof {
                assert(tok_views(body@) =~= v.subrange(start as int, self.at_pos() + 1));
            }
            self.traveler.next();
        }
        let ghost e = self.at_pos();
        let end = Token::new(TokenType::EOL, String::new(), self.traveler.current().position);
        self.traveler.next();
        body.push(end);
        proof {
            assert(tok_views(body@) =~= block_tokens(v, start as int, e));
        }
        let mut parser = Parser::new(Traveler::new(body));
        let stmts = parser.parse()?;
        Ok(Expression::Block(stmts))
    }

    /// A term, followed by operators and terms where there are any.
    fn expression(&mut self) -> (r: Result<Expression, RunError>)
        requires
            old(self).wf(),
        ensures
            old(self).moved_on(final(self)),
            expr_outcome(r, final(self).at_pos(), s_expression(old(self).view_tokens(), old(self).at_pos())),
            r is Ok && r->Ok_0 is EOF ==> final(self).traveler.left() < 2,
            r is Ok && !(r->Ok_0 is EOF) ==> expr_complete(r->Ok_0) && old(self).traveler.top
                < final(self).traveler.top,
        decreases old(self).traveler.left(), 6int,
    {
        let ghost v = self.view_tokens();
        let ghost i = self.at_pos();
        let expr = self.term()?;
        if matches!(expr, Expression::EOF) {
            return Ok(expr);
        }
        let ghost xv = s_term(v, i).0->Ok_0;
        if self.traveler.remaining() > 1 {
            self.skip_whitespace()?;
            if self.traveler.kind() == TokenType::Operator {
                return self.operation(expr, Ghost(xv));
            }
        }
        Ok(expr)
    }

    /// A definition `name: type = value`, `name: type`, `name := value`,
    /// or an expression.
    #[verifier::rlimit(100)]
    pub fn statement(&mut self) -> (r: Result<Statement, RunError>)
        requires
            old(self).wf(),
        ensures
            old(self).moved_on(final(self)),
            stmt_outcome(r, final(self).at_pos(), s_statement(old(self).view_tokens(), old(self).at_pos())),
            r is Ok ==> stmt_complete(r->Ok_0) && old(self).traveler.top < final(self).traveler.top,
        decreases old(self).traveler.left(), 7int,
    {
        let ghost v = self.view_tokens();
        self.skip_whitespace()?;
        if self.traveler.remaining() < 2 {
            return Err(self.end_error());
        }
        let ghost p = self.at_pos();
        match self.traveler.kind() {
            TokenType::Identifier => {
                let id = self.traveler.current_content();
                self.traveler.next();
                if self.traveler.at(":") {
                    self.traveler.next();
                    let t = self.types()?;
                    if self.traveler.at("=") {
                        self.traveler.next();
                        let ghost m0 = self.at_pos();
                        let expr = self.expression()?;
                        if matches!(expr, Expression::EOF) {
                            return Err(self.end_error());
                        }
                        let r = Statement::Definition(t, id, Some(Box::new(expr)));
                        proof {
                            let xv = s_expression(v, m0).0->Ok_0;
                            assert(stmt_is(r, StmtV::Definition(t, id@, Some(Box::new(xv)))));
                        }
                        Ok(r)
                    } else if t.is_some() {
                        Ok(Statement::Definition(t, id, None))
                    } else {
                        let found = self.traveler.current_content();
                        Err(
                            position_error(
                                self.traveler.current().position,
                                "expected '=' or type, found: ",
                                &found,
                            ),
                        )
                    }
                } else {
                    self.traveler.prev();
                    let expr = self.expression()?;
                    if matches!(expr, Expression::EOF) {
                        return Err(self.end_error());
                    }
                    Ok(Statement::Expression(Box::new(expr)))
                }
            },
            _ => {
                let expr = self.expression()?;
                if matches!(expr, Expression::EOF) {
                    return Err(self.end_error());
                }
                Ok(Statement::Expression(Box::new(expr)))
            },
        }
    }

    /// The arguments of a call of `caller`: one expression, then more after
    /// commas.
    fn call(&mut self, caller: Expression, Ghost(cv): Ghost<ExprV>) -> (r: Result<Expression, RunError>)
        requires
            old(self).wf(),
            expr_complete(caller),
            expr_is(caller, cv),
        ensures
            old(self).moved_on(final(self)),
            expr_outcome(r, final(self).at_pos(), s_call(old(self).view_tokens(), old(self).at_pos(), cv)),
            r is Ok ==> expr_complete(r->Ok_0) && r->Ok_0 is Call,
        decreases old(self).traveler.left(), 7int,
    {
        let ghost v = self.view_tokens();
        let ghost i0 = self.at_pos();
        let mut args: Vec<Expression> = Vec::new();
        let first = self.expression()?;
        if !matches!(first, Expression::EOF) {
            let ghost fv = s_expression(v, i0).0->Ok_0;
            let ghost j0 = self.at_pos();
            let ghost mut av: Seq<ExprV> = seq![fv];
            proof {
                assert(s_call(v, i0, cv) == match s_args(v, j0, seq![fv]).0 {
                    Err(e) => (Err(e), s_args(v, j0, seq![fv]).1),
                    Ok(xs) => (Ok(ExprV::Call(Box::new(cv), xs)), s_args(v, j0, seq![fv]).1),
                });
            }
            args.push(first);
            while self.traveler.remaining() > 1 && self.traveler.at(",")
                invariant
                    old(self).moved_on(self),
                    v == self.view_tokens(),
                    i0 == old(self).at_pos(),
                    s_call(v, i0, cv) == match s_args(v, j0, seq![fv]).0 {
                        Err(e) => (Err(e), s_args(v, j0, seq![fv]).1),
                        Ok(xs) => (Ok(ExprV::Call(Box::new(cv), xs)), s_args(v, j0, seq![fv]).1),
                    },
                    args@.len() == av.len(),
                    forall|i: int| 0 <= i < args@.len() ==> expr_is(#[trigger] args@[i], av[i]),
                    forall|i: int| 0 <= i < args@.len() ==> expr_complete(#[trigger] args@[i]),
                    s_args(v, self.at_pos(), av) == s_args(v, j0, seq![fv]),
                ensures
                    old(self).moved_on(self),
                    args@.len() == av.len(),
                    forall|i: int| 0 <= i < args@.len() ==> expr_is(#[trigger] args@[i], av[i]),
                    forall|i: int| 0 <= i < args@.len() ==> expr_complete(#[trigger] args@[i]),
                    s_args(v, j0, seq![fv]) == (Ok::<Seq<ExprV>, ParseFail>(av), self.at_pos()),
                decreases self.traveler.left(),
            {
                let ghost h = self.at_pos();
                self.traveler.next();
                let ghost m0 = self.at_pos();
                proof {
                    assert(m0 == h + 1);
                    assert(s_args(v, h, av) == match s_expression(v, m0).0 {
                        Err(f) => (Err(f), s_expression(v, m0).1),
                        Ok(ExprV::EOF) => (Ok(av), s_expression(v, m0).1),
                        Ok(x) => if s_expression(v, m0).1 <= h || s_expression(v, m0).1 > v.len() {
                            (Ok(av.push(x)), s_expression(v, m0).1)
                        } else {
                            s_args(v, s_expression(v, m0).1, av.push(x))
                        },
                    });
                }
                let e = self.expression()?;
                if matches!(e, Expression::EOF) {
                    break;
                }
                proof {
                    let ev = s_expression(v, m0).0->Ok_0;
                    let xs = args@.push(e);
                    assert forall|i: int| 0 <= i < xs.len() implies expr_is(#[trigger] xs[i], av.push(ev)[i]) by {
                        if i < args@.len() {
                            assert(expr_is(args@[i], av[i]));
                        }
                    }
                    av = av.push(ev);
                }
                args.push(e);
            }
            let r = Expression::Call(Box::new(caller), args);
            proof {
                assert(expr_is(r, ExprV::Call(Box::new(cv), av)));
            }
            return Ok(r);
        }
        let r = Expression::Call(Box::new(caller), args);
        proof {
            assert(expr_is(r, ExprV::Call(Box::new(cv), seq![])));
        }
        Ok(r)
    }

    /// Operators and operands after a first operand, folded by precedence:
    /// a lower rank binds tighter, and equal ranks group to the left.
    fn operation(&mut self, first: Expression, Ghost(fv): Ghost<ExprV>) -> (r: Result<Expression, RunError>)
        requires
            old(self).wf(),
            old(self).traveler.here().token_type == TokenType::Operator,
            expr_complete(first),
            expr_is(first, fv),
        ensures
            old(self).moved_on(final(self)),
            expr_outcome(
                r,
                final(self).at_pos(),
                s_op_loop(old(self).view_tokens(), old(self).at_pos(), seq![fv], seq![]),
            ),
            r is Ok ==> expr_complete(r->Ok_0) && r->Ok_0 is Operation,
        decreases old(self).traveler.left(), 3int,
    {
        let ghost v = self.view_tokens();
        let ghost i0 = self.at_pos();
        let ghost mut ov: Seq<ExprV> = seq![fv];
        let mut operands: Vec<Expression> = Vec::new();
        operands.push(first);
        let mut ops: Vec<(Operand, u8)> = Vec::new();
        while self.traveler.kind() == TokenType::Operator
            invariant
                old(self).moved_on(self),
                v == self.view_tokens(),
                i0 == old(self).at_pos(),
                operands@.len() == ops@.len() + 1,
                operands@.len() == ov.len(),
                forall|i: int| 0 <= i < operands@.len() ==> expr_is(#[trigger] operands@[i], ov[i]),
                forall|i: int| 0 <= i < operands@.len() ==> expr_complete(#[trigger] operands@[i]),
                s_op_loop(v, self.at_pos(), ov, ops@) == s_op_loop(v, i0, seq![fv], seq![]),
                self.traveler.top == old(self).traveler.top ==> self.traveler.here().token_type
                    == TokenType::Operator,
                self.traveler.top > old(self).traveler.top ==> ops@.len() >= 1,
            decreases self.traveler.left(),
        {
            proof {
                assert(token_ok(self.traveler.tokens@[self.traveler.top as int]));
            }
            let ghost here = self.at_pos();
            let ghost ov0 = ov;
            let ghost ops0 = ops@;
            proof {
                self.lemma_here();
            }
            let content = self.traveler.current_content();
            let (op, rank) = get_operand(content.as_str()).unwrap();
            self.traveler.next();
            let ghost target = fold_while(ov, ops@, rank);
            while ops.len() > 0 && ops[ops.len() - 1].1 <= rank
                invariant
                    operands@.len() == ops@.len() + 1,
                    operands@.len() == ov.len(),
                    forall|i: int| 0 <= i < operands@.len() ==> expr_is(#[trigger] operands@[i], ov[i]),
                    forall|i: int| 0 <= i < operands@.len() ==> expr_complete(#[trigger] operands@[i]),
                    fold_while(ov, ops@, rank) == target,
                decreases ops@.len(),
            {
                let ghost next_ov = fold_top(ov, ops@).0;
                proof {
                    lemma_fold_matches(operands@, ops@, ov);
                }
                fold_last(&mut operands, &mut ops);
                proof {
                    ov = next_ov;
                }
            }
            proof {
                assert(fold_while(ov, ops@, rank) == (ov, ops@));
                assert((ov, ops@) == target);
            }
            ops.push((op, rank));
            let ghost j = self.at_pos();
            proof {
                assert(j > here);
                assert(s_op_loop(v, here, ov0, ops0) == match s_term(v, j).0 {
                    Err(f) => (Err(f), s_term(v, j).1),
                    Ok(ExprV::EOF) => (Err(crate::grammar::end_fail(v, s_term(v, j).1)), s_term(v, j).1),
                    Ok(x) => if s_term(v, j).1 <= here || s_term(v, j).1 > v.len() {
                        (Err(crate::grammar::end_fail(v, s_term(v, j).1)), s_term(v, j).1)
                    } else {
                        s_op_loop(v, s_term(v, j).1, target.0.push(x), target.1.push((op, rank)))
                    },
                });
            }
            let t = self.term()?;
            if matches!(t, Expression::EOF) {
                return Err(self.end_error());
            }
            proof {
                let tv = s_term(v, j).0->Ok_0;
                let xs = operands@.push(t);
                assert forall|i: int| 0 <= i < xs.len() implies expr_is(#[trigger] xs[i], ov.push(tv)[i]) by {
                    if i < operands@.len() {
                        assert(expr_is(operands@[i], ov[i]));
                    }
                }
                ov = ov.push(tv);
            }
            operands.push(t);
        }
        let ghost target = fold_all(ov, ops@);
        while ops.len() > 0
            invariant
                operands@.len() == ops@.len() + 1,
                operands@.len() == ov.len(),
                forall|i: int| 0 <= i < operands@.len() ==> expr_is(#[trigger] operands@[i], ov[i]),
                forall|i: int| 0 <= i < operands@.len() ==> expr_complete(#[trigger] operands@[i]),
                fold_all(ov, ops@) == target,
                ops@.len() == 0 ==> operands@[0] is Operation,
            decreases ops@.len(),
        {
            let ghost next_ov = fold_top(ov, ops@).0;
            proof {
                lemma_fold_matches(operands@, ops@, ov);
            }
            fold_last(&mut operands, &mut ops);
            proof {
                ov = next_ov;
            }
        }
        proof {
            assert(expr_is(operands@[0], ov[0]));
        }
        Ok(operands.pop().unwrap())
    }
}

/// Folding the operands and folding their trees agree.
proof fn lemma_fold_matches(operands: Seq<Expression>, ops: Seq<(Operand, u8)>, ov: Seq<ExprV>)
    requires
        ops.len() > 0,
        operands.len() == ops.len() + 1,
        operands.len() == ov.len(),
        forall|i: int| 0 <= i < operands.len() ==> expr_is(#[trigger] operands[i], ov[i]),
    ensures
        ({
            let n = operands.len();
            let after = operands.subrange(0, n - 2).push(
                Expression::Operation {
                    left: Box::new(operands[n - 2]),
                    op: ops.last().0,
                    right: Box::new(operands[n - 1]),
                },
            );
            let folded = fold_top(ov, ops).0;
            after.len() == folded.len() && forall|i: int|
                0 <= i < after.len() ==> expr_is(#[trigger] after[i], folded[i])
        }),
{
    let n = operands.len();
    assert(expr_is(operands[n - 2], ov[n - 2]));
    assert(expr_is(operands[n - 1], ov[n - 1]));
}

/// Replaces the two last operands by their operation under the last operator.
fn fold_last(operands: &mut Vec<Expression>, ops: &mut Vec<(Operand, u8)>)
    requires
        old(ops)@.len() > 0,
        old(operands)@.len() == old(ops)@.len() + 1,
        forall|i: int| 0 <= i < old(operands)@.len() ==> expr_complete(#[trigger] old(operands)@[i]),
    ensures
        final(ops)@ == old(ops)@.drop_last(),
        final(operands)@.len() == final(ops)@.len() + 1,
        final(operands)@ == old(operands)@.subrange(0, old(operands)@.len() - 2).push(
            Expression::Operation {
                left: Box::new(old(operands)@[old(operands)@.len() - 2]),
                op: old(ops)@.last().0,
                right: Box::new(old(operands)@.last()),
            },
        ),
        forall|i: int| 0 <= i < final(operands)@.len() ==> expr_complete(#[trigger] final(operands)@[i]),
{
    let right = operands.pop().unwrap();
    let left = operands.pop().unwrap();
    let (op, _) = ops.pop().unwrap();
    operands.push(Expression::Operation { left: Box::new(left), op, right: Box::new(right) });
    proof {
        let o = old(operands)@;
        assert(final(operands)@ =~= o.subrange(0, o.len() - 2).push(
            Expression::Operation { left: Box::new(o[o.len() - 2]), op, right: Box::new(o.last()) },
        ));
    }
}

} // verus!
