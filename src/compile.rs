use vstd::prelude::*;
use crate::ast::{Statement, Type};
use crate::check::{check, check_all, scopes_wf, bind, lemma_bind_wf};
use crate::error::{RunError, error_text};
use crate::lexer::lexer;
use crate::parser::{Parser, stmt_complete};
use crate::grammar::{TokView, tok_views, stmts_are, parse_spec};
use crate::lexer::{lex_from, token_view};
use crate::token::{Token, TokenType, TokenPosition};
use crate::render::render_stmt;
use crate::symtab::SymTab;
use crate::text::push_str;
use crate::traveler::Traveler;
use crate::typetab::{TypeTab, level_of};

verus! {

/// The Lua text of a program: each statement's text on a line of its own.
pub open spec fn program_text(stmts: Seq<Statement>) -> Seq<char>
    decreases stmts.len(),
{
    if stmts.len() == 0 {
        Seq::<char>::empty()
    } else {
        program_text(stmts.drop_last()) + render_stmt(stmts.last()) + "\n"@
    }
}

/// The scopes after the host's functions are declared: `print`, `read`,
/// `trim` and `tostring`, each of type `Any`.
pub open spec fn with_host_functions(sym: Seq<Seq<Seq<char>>>, types: Seq<Seq<Type>>) -> (
    Seq<Seq<Seq<char>>>,
    Seq<Seq<Type>>,
) {
    let (s1, t1) = bind(sym, types, "print"@, Type::Any);
    let (s2, t2) = bind(s1, t1, "read"@, Type::Any);
    let (s3, t3) = bind(s2, t2, "trim"@, Type::Any);
    bind(s3, t3, "tostring"@, Type::Any)
}

/// The global scope that every program is checked in.
pub open spec fn host_scopes() -> (Seq<Seq<Seq<char>>>, Seq<Seq<Type>>) {
    with_host_functions(seq![Seq::<Seq<char>>::empty()], seq![Seq::<Type>::empty()])
}

/// Declares `name` with type `t` in the current scope.
pub fn add_global(sym: &mut SymTab, env: &mut TypeTab, name: &str, t: Type)
    requires
        scopes_wf(old(sym)@, old(env)@),
        level_of(old(sym)@, 0).len() < usize::MAX,
    ensures
        (final(sym)@, final(env)@) == bind(old(sym)@, old(env)@, name@, t),
        scopes_wf(final(sym)@, final(env)@),
        level_of(final(sym)@, 0).len() <= level_of(old(sym)@, 0).len() + 1,
{
    let ghost s0 = sym@;
    let ghost t0 = env@;
    proof {
        lemma_bind_wf(s0, t0, name@, t);
        crate::symtab::lemma_slot_from_bound(level_of(s0, 0), name@, 0);
    }
    let i = sym.add_name(name);
    if i >= env.size() {
        env.grow();
    }
    let set = env.set_type(i, 0, t);
    proof {
        assert(set is Ok);
        assert(env@ =~= bind(s0, t0, name@, t).1);
    }
}

/// Declares the host's functions, which programs may call.
pub fn add_lua_standard(sym: &mut SymTab, env: &mut TypeTab)
    requires
        scopes_wf(old(sym)@, old(env)@),
        level_of(old(sym)@, 0).len() + 4 < usize::MAX,
    ensures
        (final(sym)@, final(env)@) == with_host_functions(old(sym)@, old(env)@),
        scopes_wf(final(sym)@, final(env)@),
{
    add_global(sym, env, "print", Type::Any);
    add_global(sym, env, "read", Type::Any);
    add_global(sym, env, "trim", Type::Any);
    add_global(sym, env, "tostring", Type::Any);
}

/// Checks a parsed program in the host's global scope and, if it passes,
/// renders it as Lua text. The first error found is returned instead.
pub fn compile(stmts: &Vec<Statement>) -> (r: Result<String, RunError>)
    ensures
        stmts@.len() + 4 < usize::MAX ==> {
            &&& check_all(stmts@, host_scopes().0, host_scopes().1) is Ok ==> r is Ok && r->Ok_0@
                == program_text(stmts@)
            &&& check_all(stmts@, host_scopes().0, host_scopes().1) is Err ==> r is Err
                && error_text(r->Err_0) == check_all(stmts@, host_scopes().0, host_scopes().1)->Err_0
        },
        stmts@.len() + 4 >= usize::MAX ==> r is Err,
{
    if stmts.len() >= usize::MAX - 4 {
        return Err(RunError::new("program too large"));
    }
    let mut sym = SymTab::new_global();
    let mut env = TypeTab::new_global();
    proof {
        assert(scopes_wf(sym@, env@)) by {
            assert(sym@[0].len() == 0);
        }
    }
    add_lua_standard(&mut sym, &mut env);
    check(stmts, &mut sym, &mut env)?;
    let mut out = String::new();
    let mut i: usize = 0;
    while i < stmts.len()
        invariant
            i <= stmts@.len(),
            out@ == program_text(stmts@.subrange(0, i as int)),
        decreases stmts@.len() - i,
    {
        stmts[i].write_lua(&mut out);
        push_str(&mut out, "\n");
        proof {
            let next = stmts@.subrange(0, i + 1);
            assert(next.drop_last() =~= stmts@.subrange(0, i as int));
            assert(out@ =~= program_text(next));
        }
        i = i + 1;
    }
    proof {
        assert(stmts@.subrange(0, stmts@.len() as int) =~= stmts@);
    }
    Ok(out)
}

/// The tokens of source text, as plain values.
pub open spec fn lexed(src: Seq<char>) -> Seq<TokView> {
    lex_from(src, 0, 1, 1).map_values(
        |t: (TokenType, Seq<char>, int, int)|
            (t.0, t.1, TokenPosition { line: t.2 as usize, col: t.3 as usize }),
    )
}

/// Compiles source text to Lua text: lexes, parses, checks and renders it.
/// A parse error is returned as the grammar gives it. Otherwise the parsed
/// statements are checked in the host's global scope: the checker's first
/// error is returned, or the statements' Lua text.
pub fn transpile(src: &str) -> (r: Result<String, RunError>)
    requires
        src@.len() < usize::MAX,
    ensures
        parse_spec(lexed(src@)).0 is Err ==> r is Err && error_text(r->Err_0) == parse_spec(
            lexed(src@),
        ).0->Err_0.0 && r->Err_0.position == Some(parse_spec(lexed(src@)).0->Err_0.1),
        parse_spec(lexed(src@)).0 is Ok ==> exists|stmts: Seq<Statement>|
            {
                &&& #[trigger] stmts_are(stmts, parse_spec(lexed(src@)).0->Ok_0)
                &&& forall|i: int| 0 <= i < stmts.len() ==> stmt_complete(#[trigger] stmts[i])
                &&& stmts.len() + 4 < usize::MAX ==> {
                    &&& check_all(stmts, host_scopes().0, host_scopes().1) is Ok ==> r is Ok
                        && r->Ok_0@ == program_text(stmts)
                    &&& check_all(stmts, host_scopes().0, host_scopes().1) is Err ==> r is Err
                        && error_text(r->Err_0) == check_all(stmts, host_scopes().0, host_scopes().1)->Err_0
                }
            },
{
    let tokens = lexer(src);
    proof {
        let tv = tok_views(tokens@);
        let lv = lex_from(src@, 0, 1, 1);
        assert(tv.len() == lexed(src@).len());
        assert forall|i: int| 0 <= i < tv.len() implies tv[i] == lexed(src@)[i] by {
            assert(tokens@.map_values(|t: Token| token_view(t))[i] == lv[i]);
        }
        assert(tv =~= lexed(src@));
    }
    let mut parser = Parser::new(Traveler::new(tokens));
    let stmts = parser.parse()?;
    let r = compile(&stmts);
    proof {
        let sv = parse_spec(lexed(src@)).0->Ok_0;
        assert(stmts_are(stmts@, sv));
        assert(forall|i: int| 0 <= i < stmts@.len() ==> stmt_complete(#[trigger] stmts@[i]));
        assert(stmts@.len() + 4 < usize::MAX ==> {
            &&& check_all(stmts@, host_scopes().0, host_scopes().1) is Ok ==> r is Ok && r->Ok_0@
                == program_text(stmts@)
            &&& check_all(stmts@, host_scopes().0, host_scopes().1) is Err ==> r is Err && error_text(
                r->Err_0,
            ) == check_all(stmts@, host_scopes().0, host_scopes().1)->Err_0
        });
    }
    r
}

} // verus!
