use vstd::prelude::*;
use crate::ast::{Expression, Statement, Type, operand_lua};
use crate::number::decimal_text;
use crate::text::{push_str, push_usize, decimal_digits};

verus! {

/// Whether a block's last statement hands back its value: a plain
/// expression that is not an arm.
pub open spec fn returns_value(st: Statement) -> bool {
    match st {
        Statement::Expression(e) => !(*e is Arm),
        _ => false,
    }
}

/// The Lua text of an expression. A block becomes a function of any number
/// of arguments; an arm, a branch taken when the argument count and the
/// literal parameters match; an operation, a parenthesized infix form; a
/// call, the callee followed by its comma-joined arguments. An assignment
/// and the end marker have no text of their own.
pub open spec fn render_expr(e: Expression) -> Seq<char>
    decreases e, 0int,
{
    match e {
        Expression::Block(stmts) => "function(...) local __args = {...}\n"@ + block_lines(
            stmts@,
            stmts@.len() as int,
        ) + "end\n"@,
        Expression::Number(d) => decimal_text(d),
        Expression::Bool(b) => if b {
            "true"@
        } else {
            "false"@
        },
        Expression::Str(s) => "\""@ + s@ + "\""@,
        Expression::Identifier(n) => n@,
        Expression::Call(callee, args) => render_expr(*callee) + "("@ + args_text(
            args@,
            args@.len() as int,
        ) + ")"@,
        Expression::Arm(params, body) => "if "@ + decimal_digits(params@.len()) + " == #__args then\n"@
            + arm_bindings(params@, params@.len() as int) + arm_guards(params@, params@.len() as int)
            + body_line(*body) + arm_closers(params@, params@.len() as int) + "end\n"@,
        Expression::Operation { left, op, right } => "("@ + render_expr(*left) + " "@ + operand_lua(op)
            + " "@ + render_expr(*right) + ")"@,
        _ => Seq::<char>::empty(),
    }
}

/// The Lua text of a statement.
pub open spec fn render_stmt(st: Statement) -> Seq<char>
    decreases st, 0int,
{
    match st {
        Statement::Expression(e) => render_expr(*e),
        Statement::Definition(_, id, init) => match init {
            Some(e) => "local "@ + id@ + " = "@ + render_expr(*e),
            None => "local "@ + id@,
        },
    }
}

/// The first `k` lines of a block's body; the block's last statement
/// returns its value where it can.
pub open spec fn block_lines(s: Seq<Statement>, k: int) -> Seq<char>
    decreases s, k,
{
    if k <= 0 || k > s.len() {
        Seq::<char>::empty()
    } else {
        block_lines(s, k - 1) + (if k == s.len() && returns_value(s[k - 1]) {
            "return "@
        } else {
            Seq::<char>::empty()
        }) + render_stmt(s[k - 1]) + "\n"@
    }
}

/// The first `k` arguments, joined by commas.
pub open spec fn args_text(s: Seq<Expression>, k: int) -> Seq<char>
    decreases s, k,
{
    if k <= 0 || k > s.len() {
        Seq::<char>::empty()
    } else if k == 1 {
        render_expr(s[0])
    } else {
        args_text(s, k - 1) + ","@ + render_expr(s[k - 1])
    }
}

/// An arm's body, returned unless it is itself a block.
pub open spec fn body_line(b: Expression) -> Seq<char>
    decreases b, 1int,
{
    (if b is Block {
        Seq::<char>::empty()
    } else {
        "return "@
    }) + render_expr(b) + "\n"@
}

/// For each named parameter among the first `k`, a local bound to its argument.
pub open spec fn arm_bindings(p: Seq<Expression>, k: int) -> Seq<char>
    decreases k,
{
    if k <= 0 || k > p.len() {
        Seq::<char>::empty()
    } else {
        arm_bindings(p, k - 1) + match p[k - 1] {
            Expression::Identifier(n) => "local "@ + n@ + " = __args["@ + decimal_digits(k as nat)
                + "]\n"@,
            _ => Seq::<char>::empty(),
        }
    }
}

/// For each literal parameter among the first `k`, a guard that the
/// argument in its place equals it.
pub open spec fn arm_guards(p: Seq<Expression>, k: int) -> Seq<char>
    decreases p, k,
{
    if k <= 0 || k > p.len() {
        Seq::<char>::empty()
    } else {
        arm_guards(p, k - 1) + match p[k - 1] {
            Expression::Identifier(_) => Seq::<char>::empty(),
            other => "if "@ + render_expr(other) + " == __args["@ + decimal_digits(k as nat)
                + "] then\n"@,
        }
    }
}

/// One `end` for each guard among the first `k` parameters.
pub open spec fn arm_closers(p: Seq<Expression>, k: int) -> Seq<char>
    decreases k,
{
    if k <= 0 || k > p.len() {
        Seq::<char>::empty()
    } else {
        arm_closers(p, k - 1) + if p[k - 1] is Identifier {
            Seq::<char>::empty()
        } else {
            "end\n"@
        }
    }
}

/// A definition with an initializer renders as a local declaration of the
/// name assigned the initializer's text, whatever type was declared.
pub proof fn lemma_definition_text(declared: Option<Type>, other: Option<Type>, id: String, init: Expression)
    ensures
        render_stmt(Statement::Definition(declared, id, Some(Box::new(init)))) == "local "@ + id@
            + " = "@ + render_expr(init),
        render_stmt(Statement::Definition(declared, id, Some(Box::new(init)))) == render_stmt(
            Statement::Definition(other, id, Some(Box::new(init))),
        ),
{
}

impl Expression {
    /// The expression as Lua source text.
    pub fn lua(&self) -> (r: String)
        ensures
            r@ == render_expr(*self),
    {
        let mut out = String::new();
        self.write_lua(&mut out);
        proof {
            assert(out@ =~= render_expr(*self));
        }
        out
    }

    /// Appends the expression's Lua text.
    pub fn write_lua(&self, out: &mut String)
        ensures
            final(out)@ == old(out)@ + render_expr(*self),
        decreases self,
    {
        let ghost start = out@;
        match self {
            Expression::Block(stmts) => {
                push_str(out, "function(...) local __args = {...}\n");
                write_block(stmts, out);
                push_str(out, "end\n");
            },
            Expression::Number(d) => d.write(out),
            Expression::Bool(b) => {
                if *b {
                    push_str(out, "true");
                } else {
                    push_str(out, "false");
                }
            },
            Expression::Str(text) => {
                push_str(out, "\"");
                push_str(out, text.as_str());
                push_str(out, "\"");
            },
            Expression::Identifier(n) => push_str(out, n.as_str()),
            Expression::Call(callee, args) => {
                callee.write_lua(out);
                push_str(out, "(");
                write_args(args, out);
                push_str(out, ")");
            },
            Expression::Arm(params, body) => {
                push_str(out, "if ");
                push_usize(out, params.len());
                push_str(out, " == #__args then\n");
                let n = params.len();
                let ghost h1 = out@;
                let mut i: usize = 0;
                while i < n
                    invariant
                        i <= n,
                        n == params@.len(),
                        out@ == h1 + arm_bindings(params@, i as int),
                    decreases n - i,
                {
                    if let Expression::Identifier(name) = &params[i] {
                        push_str(out, "local ");
                        push_str(out, name.as_str());
                        push_str(out, " = __args[");
                        push_usize(out, i + 1);
                        push_str(out, "]\n");
                    }
                    proof {
                        assert(out@ =~= h1 + arm_bindings(params@, i + 1));
                    }
                    i = i + 1;
                }
                write_guards(params, out);
                let ghost h3 = out@;
                if !matches!(**body, Expression::Block(_)) {
                    push_str(out, "return ");
                }
                body.write_lua(out);
                push_str(out, "\n");
                proof {
                    assert(out@ =~= h3 + body_line(**body));
                }
                let ghost h4 = out@;
                let mut i: usize = 0;
                while i < n
                    invariant
                        i <= n,
                        n == params@.len(),
                        out@ == h4 + arm_closers(params@, i as int),
                    decreases n - i,
                {
                    if !matches!(params[i], Expression::Identifier(_)) {
                        push_str(out, "end\n");
                    }
                    proof {
                        assert(out@ =~= h4 + arm_closers(params@, i + 1));
                    }
                    i = i + 1;
                }
                push_str(out, "end\n");
            },
            Expression::Operation { left, op, right } => {
                push_str(out, "(");
                left.write_lua(out);
                push_str(out, " ");
                push_str(out, op.lua());
                push_str(out, " ");
                right.write_lua(out);
                push_str(out, ")");
            },
            _ => {},
        }
        proof {
            assert(out@ =~= start + render_expr(*self));
        }
    }
}

fn write_block(stmts: &Vec<Statement>, out: &mut String)
    ensures
        final(out)@ == old(out)@ + block_lines(stmts@, stmts@.len() as int),
    decreases stmts,
{
    let ghost head = out@;
    let n = stmts.len();
    let mut i: usize = 0;
    while i < n
        invariant
            i <= n,
            n == stmts@.len(),
            out@ == head + block_lines(stmts@, i as int),
        decreases n - i,
    {
        let ghost before = out@;
        if i + 1 == n {
            if let Statement::Expression(e) = &stmts[i] {
                if !matches!(**e, Expression::Arm(_, _)) {
                    push_str(out, "return ");
                }
            }
        }
        let ghost prefix = out@;
        stmts[i].write_lua(out);
        push_str(out, "\n");
        proof {
            let ret = if i + 1 == n && returns_value(stmts@[i as int]) {
                "return "@
            } else {
                Seq::<char>::empty()
            };
            assert(prefix =~= before + ret);
            assert(out@ =~= head + block_lines(stmts@, i + 1));
        }
        i = i + 1;
    }
}

fn write_args(args: &Vec<Expression>, out: &mut String)
    ensures
        final(out)@ == old(out)@ + args_text(args@, args@.len() as int),
    decreases args,
{
    let ghost head = out@;
    let n = args.len();
    let mut i: usize = 0;
    while i < n
        invariant
            i <= n,
            n == args@.len(),
            out@ == head + args_text(args@, i as int),
        decreases n - i,
    {
        if i > 0 {
            push_str(out, ",");
        }
        args[i].write_lua(out);
        proof {
            if i == 0 {
                assert(out@ =~= head + args_text(args@, 1));
            } else {
                assert(out@ =~= head + args_text(args@, i + 1));
            }
        }
        i = i + 1;
    }
}

fn write_guards(params: &Vec<Expression>, out: &mut String)
    ensures
        final(out)@ == old(out)@ + arm_guards(params@, params@.len() as int),
    decreases params,
{
    let ghost h2 = out@;
    let n = params.len();
    let mut i: usize = 0;
    while i < n
        invariant
            i <= n,
            n == params@.len(),
            out@ == h2 + arm_guards(params@, i as int),
        decreases n - i,
    {
        if !matches!(params[i], Expression::Identifier(_)) {
            push_str(out, "if ");
            params[i].write_lua(out);
            push_str(out, " == __args[");
            push_usize(out, i + 1);
            push_str(out, "] then\n");
        }
        proof {
            assert(out@ =~= h2 + arm_guards(params@, i + 1));
        }
        i = i + 1;
    }
}

impl Statement {
    /// The statement as Lua source text.
    pub fn lua(&self) -> (r: String)
        ensures
            r@ == render_stmt(*self),
    {
        let mut out = String::new();
        self.write_lua(&mut out);
        proof {
            assert(out@ =~= render_stmt(*self));
        }
        out
    }

    /// Appends the statement's Lua text.
    pub fn write_lua(&self, out: &mut String)
        ensures
            final(out)@ == old(out)@ + render_stmt(*self),
        decreases self,
    {
        let ghost start = out@;
        match self {
            Statement::Expression(e) => e.write_lua(out),
            Statement::Definition(_, id, init) => {
                push_str(out, "local ");
                push_str(out, id.as_str());
                if let Some(e) = init {
                    push_str(out, " = ");
                    e.write_lua(out);
                }
            },
        }
        proof {
            assert(out@ =~= start + render_stmt(*self));
        }
    }
}

} // verus!
