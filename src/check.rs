use vstd::prelude::*;
use crate::ast::{Expression, Statement, Type, types_compatible, operate_spec, operate_message, type_label};
use crate::error::{RunError, error_text};
use crate::render::render_expr;
use crate::symtab::{SymTab, resolve, declare, declared_slot};
use crate::typetab::{TypeTab, level_of};
use crate::text::push_str;

verus! {

/// The two tables describe the same scopes: as many levels, and in each
/// level a type slot for every declared name.
pub open spec fn scopes_wf(sym: Seq<Seq<Seq<char>>>, types: Seq<Seq<Type>>) -> bool {
    &&& sym.len() >= 1
    &&& sym.len() == types.len()
    &&& forall|k: int| 0 <= k < sym.len() ==> #[trigger] sym[k].len() <= types[k].len()
}

/// The type of an expression in the given scopes, or the message of the
/// error that computing it meets.
pub open spec fn expr_type(e: Expression, sym: Seq<Seq<Seq<char>>>, types: Seq<Seq<Type>>) -> Result<
    Type,
    Seq<char>,
>
    decreases e,
{
    match e {
        Expression::Number(_) => Ok(Type::Num),
        Expression::Str(_) => Ok(Type::Str),
        Expression::Bool(_) => Ok(Type::Bool),
        Expression::Identifier(n) => match resolve(sym, n@) {
            Some((i, env_index)) => Ok(level_of(types, env_index as int)[i as int]),
            None => Err("unexpected use of: "@ + n@),
        },
        Expression::Assignment(target, _) => expr_type(*target, sym, types),
        Expression::Call(callee, _) => match expr_type(*callee, sym, types) {
            Ok(Type::Any) => Ok(Type::Any),
            Ok(_) => Err(render_expr(*callee) + ": can't call non-fun"@),
            Err(m) => Err(m),
        },
        Expression::Operation { left, op, right } => match expr_type(*left, sym, types) {
            Err(m) => Err(m),
            Ok(l) => match expr_type(*right, sym, types) {
                Err(m) => Err(m),
                Ok(r) => match operate_spec(op, l, r) {
                    Some(t) => Ok(t),
                    None => Err(operate_message(op, l, r)),
                },
            },
        },
        _ => Ok(Type::Undefined),
    }
}

/// Whether the identifiers that an expression uses are declared: `None`,
/// or the message for the first one that is not.
pub open spec fn expr_visit(e: Expression, sym: Seq<Seq<Seq<char>>>) -> Option<Seq<char>>
    decreases e,
{
    match e {
        Expression::Identifier(id) => if resolve(sym, id@) is Some {
            None
        } else {
            Some(id@ + ": undeclared"@)
        },
        Expression::Operation { left, op, right } => match expr_visit(*left, sym) {
            Some(m) => Some(m),
            None => expr_visit(*right, sym),
        },
        _ => None,
    }
}

/// The scopes after `name` is bound to `t` in the current scope.
pub open spec fn bind(sym: Seq<Seq<Seq<char>>>, types: Seq<Seq<Type>>, name: Seq<char>, t: Type) -> (
    Seq<Seq<Seq<char>>>,
    Seq<Seq<Type>>,
) {
    let slot = declared_slot(sym, name);
    let cur = level_of(types, 0);
    let grown = if slot >= cur.len() {
        cur.push(Type::Undefined)
    } else {
        cur
    };
    (declare(sym, name), types.update(types.len() - 1, grown.update(slot as int, t)))
}

/// The type a definition gives its name: the declared type where there is
/// one and the initializer agrees with it, else the initializer's type.
pub open spec fn definition_type(
    declared: Option<Type>,
    id: Seq<char>,
    init: Expression,
    sym: Seq<Seq<Seq<char>>>,
    types: Seq<Seq<Type>>,
) -> Result<Type, Seq<char>> {
    match declared {
        Some(tt) => match expr_type(init, sym, types) {
            Err(m) => Err(m),
            Ok(rh) => if types_compatible(tt, rh) {
                Ok(tt)
            } else {
                Err(id + ": expected '"@ + type_label(tt) + "', got '"@ + type_label(rh) + "'"@)
            },
        },
        None => expr_type(init, sym, types),
    }
}

/// Binding `name` to `tp`, refused where the name already resolves to a
/// type that `tp` is not compatible with.
pub open spec fn rebind(sym: Seq<Seq<Seq<char>>>, types: Seq<Seq<Type>>, name: Seq<char>, tp: Type) -> Result<
    (Seq<Seq<Seq<char>>>, Seq<Seq<Type>>),
    Seq<char>,
> {
    match resolve(sym, name) {
        Some((i, env_index)) if !types_compatible(level_of(types, env_index as int)[i as int], tp) => Err(
            name + ": can't mutate type"@,
        ),
        _ => Ok(bind(sym, types, name, tp)),
    }
}

/// Checking one statement: the scopes after it, or the error's message.
/// A definition without an initializer binds its name to the declared type.
pub open spec fn stmt_check(st: Statement, sym: Seq<Seq<Seq<char>>>, types: Seq<Seq<Type>>) -> Result<
    (Seq<Seq<Seq<char>>>, Seq<Seq<Type>>),
    Seq<char>,
> {
    match st {
        Statement::Expression(e) => match expr_visit(*e, sym) {
            Some(m) => Err(m),
            None => Ok((sym, types)),
        },
        Statement::Definition(declared, id, init) => match init {
            None => match declared {
                None => Ok((sym, types)),
                Some(tt) => rebind(sym, types, id@, tt),
            },
            Some(e) => match expr_visit(*e, sym) {
                Some(m) => Err(m),
                None => match definition_type(declared, id@, *e, sym, types) {
                    Err(m) => Err(m),
                    Ok(tp) => rebind(sym, types, id@, tp),
                },
            },
        },
    }
}

/// Checking statements in order, stopping at the first error.
pub open spec fn check_all(stmts: Seq<Statement>, sym: Seq<Seq<Seq<char>>>, types: Seq<Seq<Type>>) -> Result<
    (Seq<Seq<Seq<char>>>, Seq<Seq<Type>>),
    Seq<char>,
>
    decreases stmts.len(),
{
    if stmts.len() == 0 {
        Ok((sym, types))
    } else {
        match check_all(stmts.drop_last(), sym, types) {
            Err(m) => Err(m),
            Ok((s, t)) => stmt_check(stmts.last(), s, t),
        }
    }
}


/// Binding a name keeps the two tables in step.
pub proof fn lemma_bind_wf(sym: Seq<Seq<Seq<char>>>, types: Seq<Seq<Type>>, name: Seq<char>, t: Type)
    requires
        scopes_wf(sym, types),
    ensures
        scopes_wf(bind(sym, types, name, t).0, bind(sym, types, name, t).1),
{
    crate::symtab::lemma_slot_from_bound(level_of(sym, 0), name, 0);
    let (s2, t2) = bind(sym, types, name, t);
    assert forall|k: int| 0 <= k < s2.len() implies #[trigger] s2[k].len() <= t2[k].len() by {
        assert(sym[k].len() <= types[k].len());
    }
}

/// A number, string or boolean literal has the type of its kind, in any scopes.
pub proof fn lemma_literal_types(e: Expression, sym: Seq<Seq<Seq<char>>>, types: Seq<Seq<Type>>)
    ensures
        e is Number ==> expr_type(e, sym, types) == Ok::<Type, Seq<char>>(Type::Num),
        e is Str ==> expr_type(e, sym, types) == Ok::<Type, Seq<char>>(Type::Str),
        e is Bool ==> expr_type(e, sym, types) == Ok::<Type, Seq<char>>(Type::Bool),
{
}

/// A checked statement declares at most one name, in the current scope.
pub proof fn lemma_check_growth(st: Statement, sym: Seq<Seq<Seq<char>>>, types: Seq<Seq<Type>>)
    requires
        scopes_wf(sym, types),
    ensures
        stmt_check(st, sym, types) is Ok ==> ({
            let (s2, t2) = stmt_check(st, sym, types)->Ok_0;
            &&& scopes_wf(s2, t2)
            &&& s2.len() == sym.len()
            &&& level_of(s2, 0).len() <= level_of(sym, 0).len() + 1
        }),
{
    if stmt_check(st, sym, types) is Ok {
        match st {
            Statement::Definition(declared, id, init) => {
                let tp = match init {
                    Some(e) => definition_type(declared, id@, *e, sym, types)->Ok_0,
                    None => declared->Some_0,
                };
                lemma_bind_wf(sym, types, id@, tp);
                let s2 = declare(sym, id@);
                assert(level_of(s2, 0).len() <= level_of(sym, 0).len() + 1);
            },
            _ => {},
        }
    }
}

fn push_string(out: &mut String, s: &String)
    ensures
        final(out)@ == old(out)@ + s@,
{
    push_str(out, s.as_str());
}

impl Expression {
    /// The expression's type in the given scopes: literals have their own
    /// type, a name the type it was declared with, a call is allowed only on
    /// `Any`, an operation follows its operator's rule; anything else is
    /// `Undefined`.
    pub fn get_type(&self, sym: &SymTab, env: &TypeTab) -> (r: Result<Type, RunError>)
        requires
            scopes_wf(sym@, env@),
        ensures
            expr_type(*self, sym@, env@) is Ok ==> r == Ok::<Type, RunError>(
                expr_type(*self, sym@, env@)->Ok_0,
            ),
            expr_type(*self, sym@, env@) is Err ==> r is Err && error_text(r->Err_0) == expr_type(
                *self,
                sym@,
                env@,
            )->Err_0,
            r is Err ==> r->Err_0.position is None,
        decreases self,
    {
        match self {
            Expression::Number(_) => Ok(Type::Num),
            Expression::Str(_) => Ok(Type::Str),
            Expression::Bool(_) => Ok(Type::Bool),
            Expression::Identifier(n) => match sym.get_name(n.as_str()) {
                Some((i, env_index)) => {
                    proof {
                        let k = sym@.len() - 1 - env_index;
                        assert(sym@[k].len() <= env@[k].len());
                    }
                    env.get_type(i, env_index)
                },
                None => {
                    let mut msg = String::new();
                    push_str(&mut msg, "unexpected use of: ");
                    push_string(&mut msg, n);
                    Err(RunError::from_message(msg, None))
                },
            },
            Expression::Assignment(target, _) => target.get_type(sym, env),
            Expression::Call(callee, _) => match callee.get_type(sym, env) {
                Ok(Type::Any) => Ok(Type::Any),
                Ok(_) => {
                    let mut msg = callee.lua();
                    push_str(&mut msg, ": can't call non-fun");
                    Err(RunError::from_message(msg, None))
                },
                Err(e) => Err(e),
            },
            Expression::Operation { left, op, right } => {
                let l = match left.get_type(sym, env) {
                    Ok(t) => t,
                    Err(e) => return Err(e),
                };
                let r = match right.get_type(sym, env) {
                    Ok(t) => t,
                    Err(e) => return Err(e),
                };
                op.operate((l, r))
            },
            _ => Ok(Type::Undefined),
        }
    }

    /// Checks that the names the expression uses are declared; the operands
    /// of an operation are checked in turn.
    pub fn visit(&self, sym: &SymTab, env: &TypeTab) -> (r: Result<(), RunError>)
        ensures
            expr_visit(*self, sym@) is None ==> r is Ok,
            expr_visit(*self, sym@) is Some ==> r is Err && error_text(r->Err_0) == expr_visit(
                *self,
                sym@,
            )->Some_0,
            r is Err ==> r->Err_0.position is None,
        decreases self,
    {
        match self {
            Expression::Identifier(id) => match sym.get_name(id.as_str()) {
                Some(_) => Ok(()),
                None => {
                    let mut msg = id.clone();
                    push_str(&mut msg, ": undeclared");
                    Err(RunError::from_message(msg, None))
                },
            },
            Expression::Operation { left, op, right } => {
                left.visit(sym, env)?;
                right.visit(sym, env)
            },
            _ => Ok(()),
        }
    }
}

impl Statement {
    /// Checks the statement. An expression statement has its names checked.
    /// A definition with an initializer checks it and takes the declared type
    /// (which must agree with the initializer's) or else the initializer's; one
    /// without takes the declared type. It refuses to change the type of a name
    /// already bound to an incompatible one, and binds the name in the current
    /// scope.
    pub fn visit(&self, sym: &mut SymTab, env: &mut TypeTab) -> (r: Result<(), RunError>)
        requires
            scopes_wf(old(sym)@, old(env)@),
            level_of(old(sym)@, 0).len() < usize::MAX,
        ensures
            scopes_wf(final(sym)@, final(env)@),
            stmt_check(*self, old(sym)@, old(env)@) is Ok ==> r is Ok && (final(sym)@, final(env)@)
                == stmt_check(*self, old(sym)@, old(env)@)->Ok_0,
            stmt_check(*self, old(sym)@, old(env)@) is Err ==> r is Err && error_text(r->Err_0)
                == stmt_check(*self, old(sym)@, old(env)@)->Err_0 && final(sym)@ == old(sym)@
                && final(env)@ == old(env)@,
    {
        match self {
            Statement::Expression(e) => e.visit(&*sym, &*env),
            Statement::Definition(declared, id, init) => match init {
                None => match declared {
                    None => Ok(()),
                    Some(tt) => bind_name(sym, env, id, tt.copy()),
                },
                Some(expr) => {
                    match expr.visit(&*sym, &*env) {
                        Ok(()) => {},
                        Err(e) => return Err(e),
                    }
                    let tp = match declared {
                        Some(tt) => {
                            let rh = match expr.get_type(&*sym, &*env) {
                                Ok(t) => t,
                                Err(e) => return Err(e),
                            };
                            if !tt.compare(&rh) {
                                let mut msg = id.clone();
                                push_str(&mut msg, ": expected '");
                                tt.write_name(&mut msg);
                                push_str(&mut msg, "', got '");
                                rh.write_name(&mut msg);
                                push_str(&mut msg, "'");
                                return Err(RunError::from_message(msg, None));
                            }
                            tt.copy()
                        },
                        None => match expr.get_type(&*sym, &*env) {
                            Ok(t) => t,
                            Err(e) => return Err(e),
                        },
                    };
                    bind_name(sym, env, id, tp)
                },
            },
        }
    }
}

/// Binds `id` to `tp` in the current scope, unless it already resolves to
/// an incompatible type.
fn bind_name(sym: &mut SymTab, env: &mut TypeTab, id: &String, tp: Type) -> (r: Result<(), RunError>)
    requires
        scopes_wf(old(sym)@, old(env)@),
        level_of(old(sym)@, 0).len() < usize::MAX,
    ensures
        scopes_wf(final(sym)@, final(env)@),
        rebind(old(sym)@, old(env)@, id@, tp) is Ok ==> r is Ok && (final(sym)@, final(env)@)
            == rebind(old(sym)@, old(env)@, id@, tp)->Ok_0,
        rebind(old(sym)@, old(env)@, id@, tp) is Err ==> r is Err && error_text(r->Err_0)
            == rebind(old(sym)@, old(env)@, id@, tp)->Err_0 && final(sym)@ == old(sym)@
            && final(env)@ == old(env)@,
{
    match sym.get_name(id.as_str()) {
        Some((i, env_index)) => {
            proof {
                let k = sym@.len() - 1 - env_index;
                assert(sym@[k].len() <= env@[k].len());
            }
            match env.get_type(i, env_index) {
                Ok(tp2) => {
                    if !tp2.compare(&tp) {
                        let mut msg = id.clone();
                        push_str(&mut msg, ": can't mutate type");
                        return Err(RunError::from_message(msg, None));
                    }
                },
                Err(e) => return Err(e),
            }
        },
        None => {},
    }
    let ghost s0 = sym@;
    let ghost t0 = env@;
    proof {
        lemma_bind_wf(s0, t0, id@, tp);
        crate::symtab::lemma_slot_from_bound(level_of(s0, 0), id@, 0);
        assert(level_of(s0, 0).len() <= level_of(t0, 0).len());
    }
    let index = sym.add_name(id.as_str());
    if index >= env.size() {
        env.grow();
    }
    let set = env.set_type(index, 0, tp);
    proof {
        assert(set is Ok);
        assert(env@ =~= bind(s0, t0, id@, tp).1);
    }
    Ok(())
}

/// Checks the statements in order against the given scopes, stopping at
/// the first error.
pub fn check(stmts: &Vec<Statement>, sym: &mut SymTab, env: &mut TypeTab) -> (r: Result<(), RunError>)
    requires
        scopes_wf(old(sym)@, old(env)@),
        level_of(old(sym)@, 0).len() + stmts@.len() < usize::MAX,
    ensures
        scopes_wf(final(sym)@, final(env)@),
        check_all(stmts@, old(sym)@, old(env)@) is Ok ==> r is Ok && (final(sym)@, final(env)@)
            == check_all(stmts@, old(sym)@, old(env)@)->Ok_0,
        check_all(stmts@, old(sym)@, old(env)@) is Err ==> r is Err && error_text(r->Err_0)
            == check_all(stmts@, old(sym)@, old(env)@)->Err_0,
{
    let ghost s0 = sym@;
    let ghost t0 = env@;
    let mut i: usize = 0;
    while i < stmts.len()
        invariant
            i <= stmts@.len(),
            s0 == old(sym)@,
            t0 == old(env)@,
            scopes_wf(sym@, env@),
            sym@.len() == s0.len(),
            level_of(sym@, 0).len() <= level_of(s0, 0).len() + i,
            level_of(s0, 0).len() + stmts@.len() < usize::MAX,
            check_all(stmts@.subrange(0, i as int), s0, t0) == Ok::<
                (Seq<Seq<Seq<char>>>, Seq<Seq<Type>>),
                Seq<char>,
            >((sym@, env@)),
        decreases stmts@.len() - i,
    {
        proof {
            lemma_check_growth(stmts@[i as int], sym@, env@);
            assert(stmts@.subrange(0, i + 1).drop_last() =~= stmts@.subrange(0, i as int));
        }
        let ghost sb = sym@;
        let ghost tb = env@;
        let ghost next = stmts@.subrange(0, i + 1);
        proof {
            assert(next.last() == stmts@[i as int]);
            assert(check_all(next, s0, t0) == stmt_check(stmts@[i as int], sb, tb));
        }
        let r = stmts[i].visit(sym, env);
        match r {
            Ok(()) => {},
            Err(e) => {
                proof {
                    assert(check_all(stmts@.subrange(0, i + 1), s0, t0) is Err);
                    lemma_check_stops(stmts@, s0, t0, i + 1);
                }
                return Err(e);
            },
        }
        i = i + 1;
    }
    proof {
        assert(stmts@.subrange(0, stmts@.len() as int) =~= stmts@);
    }
    Ok(())
}

/// Once a prefix fails to check, the whole list fails with the same message.
proof fn lemma_check_stops(stmts: Seq<Statement>, sym: Seq<Seq<Seq<char>>>, types: Seq<Seq<Type>>, k: int)
    requires
        0 <= k <= stmts.len(),
        check_all(stmts.subrange(0, k), sym, types) is Err,
    ensures
        check_all(stmts, sym, types) == check_all(stmts.subrange(0, k), sym, types),
    decreases stmts.len() - k,
{
    if k < stmts.len() {
        assert(stmts.subrange(0, k + 1).drop_last() =~= stmts.subrange(0, k));
        lemma_check_stops(stmts, sym, types, k + 1);
    } else {
        assert(stmts.subrange(0, k) =~= stmts);
    }
}

} // verus!
