use snail::ast::{get_operand, get_type, Expression, Operand, Statement, Type};
use snail::compile::{compile, transpile};
use snail::error::RunError;
use snail::lexer::lexer;
use snail::number::Decimal;
use snail::parser::Parser;
use snail::symtab::SymTab;
use snail::token::TokenType;
use snail::traveler::Traveler;
use snail::typetab::TypeTab;

fn parse(src: &str) -> Result<Vec<Statement>, RunError> {
    let mut parser = Parser::new(Traveler::new(lexer(src)));
    parser.parse()
}

fn num(text: &str) -> Expression {
    Expression::Number(Decimal::parse(text).unwrap())
}

fn ident(name: &str) -> Expression {
    Expression::Identifier(name.to_string())
}

#[test]
fn declared_number() {
    let stmts = parse("a: num = 10").unwrap();
    assert_eq!(
        stmts,
        vec![Statement::Definition(Some(Type::Num), "a".to_string(), Some(Box::new(num("10.0"))))]
    );
    assert_eq!(compile(&stmts).unwrap(), "local a = 10\n");
}

#[test]
fn rebinding_to_other_type_fails() {
    let err = transpile("a := 10\na := \"x\"").unwrap_err();
    assert_eq!(err.text(), "a: can't mutate type");
    assert!(err.position.is_none());
}

#[test]
fn rebinding_to_same_type_is_allowed() {
    assert_eq!(transpile("a := 10\na := 11").unwrap(), "local a = 10\nlocal a = 11\n");
}

#[test]
fn any_accepts_call() {
    let out = transpile("a: idc\na 1, 2, 3").unwrap();
    assert_eq!(out, "local a\na(1,2,3)\n");
    let stmts = parse("a: idc\na 1, 2, 3").unwrap();
    assert_eq!(
        stmts[1],
        Statement::Expression(Box::new(Expression::Call(
            Box::new(ident("a")),
            vec![num("1"), num("2"), num("3")]
        )))
    );
}

#[test]
fn arms_dispatch_on_arity() {
    let src = "f: idc = {\n|x y| x + y\n|x y z| x + y + z\n}\nf 1, 2";
    let out = transpile(src).unwrap();
    let expected = "local f = function(...) local __args = {...}\n\
if 2 == #__args then\nlocal x = __args[1]\nlocal y = __args[2]\nreturn (x + y)\nend\n\n\
if 3 == #__args then\nlocal x = __args[1]\nlocal y = __args[2]\nlocal z = __args[3]\nreturn ((x + y) + z)\nend\n\n\
end\n\nf(1,2)\n";
    assert_eq!(out, expected);
}

#[test]
fn literal_parameters_guard_the_arm() {
    let out = transpile("g: idc = {\n|0| 1\n|n| n * 2\n}").unwrap();
    assert_eq!(
        out,
        "local g = function(...) local __args = {...}\n\
if 1 == #__args then\nif 0 == __args[1] then\nreturn 1\nend\nend\n\n\
if 1 == #__args then\nlocal n = __args[1]\nreturn (n * 2)\nend\n\nend\n\n"
    );
}

#[test]
fn add_string_and_bool() {
    assert_eq!(Operand::Add.operate((Type::Str, Type::Bool)).unwrap(), Type::Str);
    let err = Operand::Sub.operate((Type::Str, Type::Bool)).unwrap_err();
    assert_eq!(err.text(), "failed to subtract: Str and Bool");
}

#[test]
fn ordering_rejects_strings() {
    let all = [Type::Str, Type::Num, Type::Bool, Type::Any, Type::Nil, Type::Undefined];
    for t in all.iter() {
        assert!(Operand::Lt.operate((Type::Str, t.clone())).is_err());
        assert!(Operand::Lt.operate((t.clone(), Type::Str)).is_err());
    }
    let err = Operand::Lt.operate((Type::Num, Type::Str)).unwrap_err();
    assert_eq!(err.text(), "failed to 'Num < Str'");
    assert_eq!(Operand::Lt.operate((Type::Num, Type::Any)).unwrap(), Type::Bool);
}

#[test]
fn operator_table() {
    assert_eq!(Operand::Pow.operate((Type::Str, Type::Any)).unwrap(), Type::Any);
    assert_eq!(Operand::Sub.operate((Type::Str, Type::Any)).unwrap(), Type::Any);
    assert!(Operand::Sub.operate((Type::Str, Type::Str)).is_err());
    assert_eq!(Operand::Mul.operate((Type::Str, Type::Str)).unwrap(), Type::Str);
    assert!(Operand::Mul.operate((Type::Str, Type::Any)).is_err());
    assert_eq!(Operand::Add.operate((Type::Str, Type::Str)).unwrap(), Type::Str);
    assert_eq!(Operand::Div.operate((Type::Any, Type::Num)).unwrap(), Type::Any);
    assert_eq!(Operand::Mod.operate((Type::Num, Type::Num)).unwrap(), Type::Num);
    assert_eq!(
        Operand::Div.operate((Type::Str, Type::Num)).unwrap_err().text(),
        "failed to divide: Str and Num"
    );
    assert_eq!(Operand::Equal.operate((Type::Str, Type::Num)).unwrap(), Type::Bool);
    assert_eq!(Operand::And.operate((Type::Nil, Type::Str)).unwrap(), Type::Bool);
}

#[test]
fn literals_have_their_own_type() {
    let sym = SymTab::new_global();
    let env = TypeTab::new_global();
    assert_eq!(num("1.5").get_type(&sym, &env).unwrap(), Type::Num);
    assert_eq!(Expression::Str("s".to_string()).get_type(&sym, &env).unwrap(), Type::Str);
    assert_eq!(Expression::Bool(true).get_type(&sym, &env).unwrap(), Type::Bool);
}

#[test]
fn compare_treats_any_as_wildcard() {
    let all = [Type::Str, Type::Num, Type::Bool, Type::Any, Type::Nil, Type::Undefined];
    for x in all.iter() {
        assert!(Type::Any.compare(x));
        assert!(x.compare(&Type::Any));
        for y in all.iter() {
            if *x != Type::Any && *y != Type::Any {
                assert_eq!(x.compare(y), x == y);
            }
        }
    }
    let a = Type::Array(Box::new(Type::Num));
    assert!(a.compare(&Type::Array(Box::new(Type::Num))));
    assert!(!a.compare(&Type::Array(Box::new(Type::Str))));
}

#[test]
fn rendering_a_definition_again_gives_same_text() {
    let stmts = parse("a := 1 + 2 * 3").unwrap();
    let first = stmts[0].lua();
    assert_eq!(first, "local a = (1 + (2 * 3))");
    assert_eq!(stmts[0].lua(), first);
    let typed = parse("a: num = 1 + 2 * 3").unwrap();
    assert_eq!(typed[0].lua(), first);
}

#[test]
fn checking_twice_gives_same_result() {
    let stmts = parse("x := 1\ny := x + 2\nz: str = y").unwrap();
    let first = compile(&stmts).unwrap_err().text();
    let second = compile(&stmts).unwrap_err().text();
    assert_eq!(first, "z: expected 'Str', got 'Num'");
    assert_eq!(first, second);
}

#[test]
fn undeclared_name_is_reported() {
    assert_eq!(transpile("a := b").unwrap_err().text(), "b: undeclared");
    assert_eq!(transpile("b + 1").unwrap_err().text(), "b: undeclared");
}

#[test]
fn calling_a_number_fails() {
    assert_eq!(transpile("n := 1\nm := n 2").unwrap_err().text(), "n: can't call non-fun");
}

#[test]
fn host_functions_can_be_called() {
    assert_eq!(transpile("print \"hi\"").unwrap(), "print(\"hi\")\n");
    assert_eq!(transpile("s := read!").unwrap(), "local s = read()\n");
}

#[test]
fn operator_precedence_and_grouping() {
    assert_eq!(transpile("a := 1 - 2 * 3 + 4").unwrap(), "local a = ((1 - (2 * 3)) + 4)\n");
    assert_eq!(transpile("a := 2 ^ 3 * 4").unwrap(), "local a = ((2 ^ 3) * 4)\n");
    assert_eq!(transpile("a := 1 != 2").unwrap(), "local a = (1 ~= 2)\n");
    assert_eq!(transpile("a := (1 + 2) * 3").unwrap(), "local a = ((1 + 2) * 3)\n");
}

#[test]
fn mismatched_operands_fail_the_check() {
    assert_eq!(transpile("a := true + 1").unwrap_err().text(), "failed to add: Bool and Num");
}

#[test]
fn parse_errors_carry_positions() {
    let err = parse("a := ()").unwrap_err();
    assert_eq!(err.text(), "illegal empty clause '()'");
    let p = err.position.unwrap();
    assert_eq!((p.line, p.col), (1, 7));
    assert_eq!(err.to_string(), "1:7: illegal empty clause '()'");
    let err = parse("f := {}").unwrap_err();
    assert_eq!(err.text(), "illegal empty clause '{}'");
    let err = parse("a: 5").unwrap_err();
    assert_eq!(err.text(), "expected '=' or type, found: 5");
    assert!(err.position.is_some());
}

#[test]
fn missing_operand_is_an_error() {
    assert_eq!(parse("a := 1 +").unwrap_err().text(), "unexpected end of input");
}

#[test]
fn array_type_annotation() {
    let stmts = parse("xs: num..").unwrap();
    assert_eq!(
        stmts,
        vec![Statement::Definition(Some(Type::Array(Box::new(Type::Num))), "xs".to_string(), None)]
    );
}

#[test]
fn lexer_kinds_and_positions() {
    let toks = lexer("a: num = 1.50\nb := \"hi\" <= true");
    let kinds: Vec<TokenType> = toks.iter().map(|t| t.token_type).collect();
    assert_eq!(
        kinds,
        vec![
            TokenType::Identifier,
            TokenType::Symbol,
            TokenType::Type,
            TokenType::Symbol,
            TokenType::FloatLiteral,
            TokenType::Symbol,
            TokenType::Identifier,
            TokenType::Symbol,
            TokenType::Symbol,
            TokenType::StringLiteral,
            TokenType::Operator,
            TokenType::BoolLiteral,
            TokenType::EOL,
        ]
    );
    assert_eq!(toks[4].content, "1.50");
    assert_eq!(toks[9].content, "hi");
    assert_eq!((toks[6].position.line, toks[6].position.col), (2, 1));
    assert_eq!(toks[12].content, "");
}

#[test]
fn unknown_characters_become_symbols() {
    let toks = lexer("a # b");
    assert_eq!(toks[1].token_type, TokenType::Symbol);
    assert_eq!(toks[1].content, "#");
    assert_eq!(parse("a # b").unwrap_err().text(), "unexpected: #");
}

#[test]
fn decimals_are_normalised() {
    let d = Decimal::parse("007.250").unwrap();
    assert_eq!(d.whole, vec![7]);
    assert_eq!(d.frac, vec![2, 5]);
    let mut s = String::new();
    d.write(&mut s);
    assert_eq!(s, "7.25");
    assert_eq!(Decimal::parse("10.0").unwrap(), Decimal::parse("10").unwrap());
    let mut z = String::new();
    Decimal::parse("0.0").unwrap().write(&mut z);
    assert_eq!(z, "0");
    assert!(Decimal::parse("1.").is_none());
    assert!(Decimal::parse("").is_none());
    assert!(Decimal::parse("x1").is_none());
}

#[test]
fn keywords_and_operators() {
    assert_eq!(get_type("idc"), Some(Type::Any));
    assert_eq!(get_type("num"), Some(Type::Num));
    assert_eq!(get_type("int"), None);
    assert_eq!(get_operand("<="), Some((Operand::LtEqual, 4)));
    assert_eq!(get_operand("^"), Some((Operand::Pow, 0)));
    assert_eq!(get_operand("~"), None);
    assert_eq!(Operand::NEqual.lua(), "~=");
    assert_eq!(Operand::And.lua(), "and");
}

#[test]
fn type_table_slots() {
    let mut env = TypeTab::new_global();
    assert_eq!(env.size(), 0);
    env.grow();
    assert_eq!(env.get_type(0, 0).unwrap(), Type::Undefined);
    env.set_type(0, 0, Type::Num).unwrap();
    assert_eq!(env.get_type(0, 0).unwrap(), Type::Num);
    assert_eq!(
        env.get_type(3, 0).unwrap_err().text(),
        "can't get type of invalid type index: 3"
    );
    assert_eq!(
        env.set_type(0, 2, Type::Str).unwrap_err().text(),
        "can't set type with invalid env index: 2"
    );
    let child = TypeTab::new_partial(env, &[Type::Str], 3);
    assert_eq!(child.size(), 3);
    assert_eq!(child.get_type(2, 0).unwrap(), Type::Undefined);
    assert_eq!(child.get_type(0, 1).unwrap(), Type::Num);
    assert_eq!(
        child.dump(1),
        "(0 : 0) = Num\n------------------------------\n(0 : 1) = Str\n(1 : 1) = Undefined\n(2 : 1) = Undefined\n"
    );
    let other = TypeTab::new(TypeTab::new_global(), &vec![Type::Bool]);
    assert_eq!(other.get_type(0, 0).unwrap(), Type::Bool);
}

#[test]
fn symbol_table_scopes() {
    let mut sym = SymTab::new_global();
    assert_eq!(sym.add_name("a"), 0);
    assert_eq!(sym.add_name("b"), 1);
    assert_eq!(sym.add_name("a"), 0);
    let mut child = SymTab::new(sym);
    assert_eq!(child.get_name("b"), Some((1, 1)));
    assert_eq!(child.add_name("b"), 0);
    assert_eq!(child.get_name("b"), Some((0, 0)));
    assert_eq!(child.get_name("c"), None);
}

#[test]
fn errors_show_their_position() {
    assert_eq!(RunError::new("boom").to_string(), "boom");
    let e = RunError::new_pos(snail::token::TokenPosition::new(3, 14), "bad");
    assert_eq!(e.to_string(), "3:14: bad");
}

#[test]
fn declaration_without_initializer_binds_declared_type() {
    assert_eq!(transpile("a: idc\nb := a 1").unwrap(), "local a\nlocal b = a(1)\n");
    assert_eq!(transpile("a: num\nb := a 1").unwrap_err().text(), "a: can't call non-fun");
    assert_eq!(transpile("a: num\na := \"s\"").unwrap_err().text(), "a: can't mutate type");
}

#[test]
fn any_allows_rebinding_to_other_types() {
    assert_eq!(transpile("a: idc = 1\na := \"s\"").unwrap(), "local a = 1\nlocal a = \"s\"\n");
}

#[test]
fn statements_inside_blocks() {
    let stmts = parse("f: idc = {\nx := 1\nx + 1\n}").unwrap();
    match &stmts[0] {
        Statement::Definition(Some(Type::Any), name, Some(init)) => {
            assert_eq!(name, "f");
            match &**init {
                Expression::Block(body) => assert_eq!(body.len(), 2),
                other => panic!("not a block: {:?}", other),
            }
        }
        other => panic!("not a definition: {:?}", other),
    }
    assert_eq!(
        stmts[0].lua(),
        "local f = function(...) local __args = {...}\nlocal x = 1\nreturn (x + 1)\nend\n"
    );
}

#[test]
fn assignment_and_zero_argument_calls() {
    let stmts = parse("x := 1\nx = 2\nprint!").unwrap();
    assert_eq!(
        stmts[1],
        Statement::Expression(Box::new(Expression::Assignment(Box::new(ident("x")), Box::new(num("2")))))
    );
    assert_eq!(
        stmts[2],
        Statement::Expression(Box::new(Expression::Call(Box::new(ident("print")), vec![])))
    );
}

#[test]
fn arm_parameters_must_be_names_or_literals() {
    let err = parse("f: idc = {\n|x +| x\n}").unwrap_err();
    assert_eq!(err.text(), "expected identifier, str, num or bool, found: +");
    assert!(err.position.is_some());
}

#[test]
fn stray_closing_brace_is_unexpected() {
    let err = parse("}").unwrap_err();
    assert_eq!(err.text(), "unexpected symbol: }");
    assert_eq!(parse("num").unwrap_err().text(), "unexpected: num");
}

#[test]
fn cursor_moves_and_expects() {
    let mut t = Traveler::new(lexer("a b"));
    assert_eq!(t.remaining(), 3);
    assert!(!t.prev());
    assert!(t.next());
    assert_eq!(t.current_content(), "b");
    assert!(t.expect_content("b").is_ok());
    let err = t.expect_content("c").unwrap_err();
    assert_eq!(err.text(), "expected 'c', found: b");
    assert!(t.next());
    assert!(!t.next());
    assert_eq!(t.remaining(), 1);
    assert_eq!(t.current().token_type, TokenType::EOL);
}

#[test]
fn blank_lines_are_skipped() {
    assert_eq!(parse("\n\n  a := 1\n\n").unwrap().len(), 1);
    assert_eq!(parse("\n\n").unwrap().len(), 0);
    assert_eq!(parse("").unwrap().len(), 0);
}

#[test]
fn equal_ranks_group_left_and_tighter_ranks_nest() {
    assert_eq!(transpile("a := 1 - 2 - 3").unwrap(), "local a = ((1 - 2) - 3)\n");
    assert_eq!(transpile("a := 1 + 2 * 3 ^ 4").unwrap(), "local a = (1 + (2 * (3 ^ 4)))\n");
}

#[test]
fn untyped_definition_parses_to_its_initializer() {
    let stmts = parse("a := 10").unwrap();
    assert_eq!(stmts, vec![Statement::Definition(None, "a".to_string(), Some(Box::new(num("10"))))]);
}

#[test]
fn parsing_stops_at_first_failing_statement() {
    let err = parse("a := 1\nb := ()\nc := {}").unwrap_err();
    assert_eq!(err.text(), "illegal empty clause '()'");
    assert_eq!(err.position.unwrap().line, 2);
}

#[test]
fn child_lookup_one_level_out_matches_parent() {
    let parent = TypeTab::new_global();
    let parent_err = parent.get_type(0, 1).unwrap_err().text();
    assert_eq!(parent_err, "can't get type with invalid env index: 0");
    let child = TypeTab::new_partial(TypeTab::new_global(), &[Type::Str], 2);
    assert_eq!(child.get_type(0, 2).unwrap_err().text(), parent_err);
    let mut parent = TypeTab::new_global();
    let parent_set = parent.set_type(0, 1, Type::Num).unwrap_err().text();
    assert_eq!(parent_set, "can't set type with invalid env index: 1");
    let mut child = TypeTab::new(TypeTab::new_global(), &vec![Type::Bool]);
    assert_eq!(child.set_type(0, 2, Type::Num).unwrap_err().text(), parent_set);
}

#[test]
fn parsed_decimals_keep_their_invariant() {
    let d = Decimal::parse("000.000").unwrap();
    assert!(d.whole.is_empty());
    assert!(d.frac.is_empty());
    let d = Decimal::parse("12.340").unwrap();
    assert!(d.whole.iter().chain(d.frac.iter()).all(|x| *x < 10));
    assert_ne!(d.whole[0], 0);
    assert_ne!(*d.frac.last().unwrap(), 0);
}
