use vstd::prelude::*;
use crate::error::{RunError, error_text};
use crate::text::{push_str, str_eq};
use crate::number::Decimal;

verus! {

/// The types of the source language. `Any` is the wildcard.
#[derive(Debug, PartialEq)]
pub enum Type {
    Str,
    Num,
    Bool,
    Any,
    Nil,
    Undefined,
    Array(Box<Type>),
}

/// An expression of the source language. Sub-expressions are owned and
/// never changed once built; `EOF` only signals the end of input while parsing.
#[derive(Debug, PartialEq)]
pub enum Expression {
    Block(Vec<Statement>),
    Number(Decimal),
    Bool(bool),
    Str(String),
    Identifier(String),
    Assignment(Box<Expression>, Box<Expression>),
    Operation { left: Box<Expression>, op: Operand, right: Box<Expression> },
    Arm(Vec<Expression>, Box<Expression>),
    Call(Box<Expression>, Vec<Expression>),
    EOF,
}

/// A statement: a definition with an optional declared type and an optional
/// initializer, or an expression.
#[derive(Debug, PartialEq)]
pub enum Statement {
    Definition(Option<Type>, String, Option<Box<Expression>>),
    Expression(Box<Expression>),
}

/// The binary and unary operators.
#[derive(Clone, Copy, Debug, PartialEq, Eq, Structural)]
pub enum Operand {
    Pow,
    Mul,
    Div,
    Mod,
    Add,
    Sub,
    Equal,
    NEqual,
    Lt,
    Gt,
    LtEqual,
    GtEqual,
    And,
    Or,
    Not,
}

/// Two types are compatible when either is `Any`, or when they are equal.
pub open spec fn types_compatible(a: Type, b: Type) -> bool {
    a is Any || b is Any || a == b
}

/// How a type is named in messages.
pub open spec fn type_label(t: Type) -> Seq<char>
    decreases t,
{
    match t {
        Type::Str => "Str"@,
        Type::Num => "Num"@,
        Type::Bool => "Bool"@,
        Type::Any => "Any"@,
        Type::Nil => "Nil"@,
        Type::Undefined => "Undefined"@,
        Type::Array(inner) => "Array("@ + type_label(*inner) + ")"@,
    }
}

/// The type named by a type keyword.
pub open spec fn type_keyword(s: Seq<char>) -> Option<Type> {
    if s == "str"@ {
        Some(Type::Str)
    } else if s == "num"@ {
        Some(Type::Num)
    } else if s == "bool"@ {
        Some(Type::Bool)
    } else if s == "idc"@ {
        Some(Type::Any)
    } else {
        None
    }
}

/// The operator spelled by `s`, with its binding rank (lower binds tighter).
pub open spec fn operand_of(s: Seq<char>) -> Option<(Operand, u8)> {
    if s == "^"@ {
        Some((Operand::Pow, 0u8))
    } else if s == "*"@ {
        Some((Operand::Mul, 1u8))
    } else if s == "/"@ {
        Some((Operand::Div, 1u8))
    } else if s == "%"@ {
        Some((Operand::Mod, 1u8))
    } else if s == "+"@ {
        Some((Operand::Add, 2u8))
    } else if s == "-"@ {
        Some((Operand::Sub, 2u8))
    } else if s == "=="@ {
        Some((Operand::Equal, 3u8))
    } else if s == "!="@ {
        Some((Operand::NEqual, 3u8))
    } else if s == "<"@ {
        Some((Operand::Lt, 4u8))
    } else if s == ">"@ {
        Some((Operand::Gt, 4u8))
    } else if s == "<="@ {
        Some((Operand::LtEqual, 4u8))
    } else if s == ">="@ {
        Some((Operand::GtEqual, 4u8))
    } else if s == "!"@ {
        Some((Operand::Not, 4u8))
    } else if s == "and"@ {
        Some((Operand::And, 4u8))
    } else if s == "or"@ {
        Some((Operand::Or, 4u8))
    } else {
        None
    }
}

/// The pairs that every arithmetic operator accepts: numbers, and `Any` beside a number.
pub open spec fn numeric_result(l: Type, r: Type) -> Option<Type> {
    match (l, r) {
        (Type::Num, Type::Num) => Some(Type::Num),
        (Type::Any, Type::Num) => Some(Type::Any),
        (Type::Num, Type::Any) => Some(Type::Any),
        (Type::Any, Type::Any) => Some(Type::Any),
        _ => None,
    }
}

/// The type of `l op r`, or `None` where the operator does not accept the pair.
pub open spec fn operate_spec(op: Operand, l: Type, r: Type) -> Option<Type> {
    match op {
        Operand::Div | Operand::Mod => numeric_result(l, r),
        Operand::Pow | Operand::Sub => if numeric_result(l, r) is Some {
            numeric_result(l, r)
        } else {
            match (l, r) {
                (Type::Str, Type::Num) => Some(Type::Str),
                (Type::Str, Type::Any) => Some(Type::Any),
                _ => None,
            }
        },
        Operand::Mul => if numeric_result(l, r) is Some {
            numeric_result(l, r)
        } else {
            match (l, r) {
                (Type::Str, Type::Num) => Some(Type::Str),
                (Type::Str, Type::Str) => Some(Type::Str),
                _ => None,
            }
        },
        Operand::Add => if numeric_result(l, r) is Some {
            numeric_result(l, r)
        } else {
            match (l, r) {
                (Type::Str, Type::Num) => Some(Type::Str),
                (Type::Str, Type::Str) => Some(Type::Str),
                (Type::Str, Type::Bool) => Some(Type::Str),
                _ => None,
            }
        },
        Operand::Equal | Operand::NEqual | Operand::And | Operand::Or | Operand::Not => Some(
            Type::Bool,
        ),
        Operand::Lt | Operand::Gt | Operand::LtEqual | Operand::GtEqual => if l is Bool || l is Str
            || r is Bool || r is Str {
            None
        } else {
            Some(Type::Bool)
        },
    }
}

/// The verb that names an arithmetic operator in messages.
pub open spec fn operate_verb(op: Operand) -> Seq<char> {
    match op {
        Operand::Pow => "pow"@,
        Operand::Mul => "multiply"@,
        Operand::Div => "divide"@,
        Operand::Mod => "mod"@,
        Operand::Add => "add"@,
        _ => "subtract"@,
    }
}

/// The message of a failed operation.
pub open spec fn operate_message(op: Operand, l: Type, r: Type) -> Seq<char> {
    match op {
        Operand::Lt | Operand::Gt | Operand::LtEqual | Operand::GtEqual => "failed to '"@
            + type_label(l) + " < "@ + type_label(r) + "'"@,
        _ => "failed to "@ + operate_verb(op) + ": "@ + type_label(l) + " and "@ + type_label(r),
    }
}

/// The Lua spelling of an operator.
pub open spec fn operand_lua(op: Operand) -> Seq<char> {
    match op {
        Operand::Pow => "^"@,
        Operand::Mul => "*"@,
        Operand::Div => "/"@,
        Operand::Mod => "%"@,
        Operand::Add => "+"@,
        Operand::Sub => "-"@,
        Operand::Equal => "=="@,
        Operand::NEqual => "~="@,
        Operand::Lt => "<"@,
        Operand::Gt => ">"@,
        Operand::LtEqual => "<="@,
        Operand::GtEqual => ">="@,
        Operand::And => "and"@,
        Operand::Or => "or"@,
        Operand::Not => "not"@,
    }
}

/// `Any` is compatible with every type, on either side; any other two
/// types are compatible exactly when they are equal.
pub proof fn lemma_compare_wildcard(x: Type, y: Type)
    ensures
        types_compatible(Type::Any, x),
        types_compatible(x, Type::Any),
        !(x is Any) && !(y is Any) ==> (types_compatible(x, y) <==> x == y),
{
}

/// An ordering comparison with a string on either side fails, whatever the
/// other operand's type.
pub proof fn lemma_ordering_rejects_strings(op: Operand, other: Type)
    requires
        op is Lt || op is Gt || op is LtEqual || op is GtEqual,
    ensures
        operate_spec(op, Type::Str, other) is None,
        operate_spec(op, other, Type::Str) is None,
{
}

impl Type {
    /// A copy of the type.
    pub fn copy(&self) -> (r: Type)
        ensures
            r == *self,
        decreases self,
    {
        match self {
            Type::Str => Type::Str,
            Type::Num => Type::Num,
            Type::Bool => Type::Bool,
            Type::Any => Type::Any,
            Type::Nil => Type::Nil,
            Type::Undefined => Type::Undefined,
            Type::Array(inner) => Type::Array(Box::new(inner.copy())),
        }
    }

    /// Structural equality.
    pub fn same(&self, other: &Type) -> (r: bool)
        ensures
            r == (*self == *other),
        decreases self,
    {
        match (self, other) {
            (Type::Str, Type::Str) => true,
            (Type::Num, Type::Num) => true,
            (Type::Bool, Type::Bool) => true,
            (Type::Any, Type::Any) => true,
            (Type::Nil, Type::Nil) => true,
            (Type::Undefined, Type::Undefined) => true,
            (Type::Array(a), Type::Array(b)) => a.same(b),
            _ => false,
        }
    }

    /// True when either side is `Any`, else when the types are equal.
    pub fn compare(&self, other: &Type) -> (r: bool)
        ensures
            r == types_compatible(*self, *other),
    {
        if matches!(self, Type::Any) || matches!(other, Type::Any) {
            true
        } else {
            self.same(other)
        }
    }

    /// The type's name, as messages show it.
    pub fn name(&self) -> (r: String)
        ensures
            r@ == type_label(*self),
        decreases self,
    {
        let mut out = String::new();
        self.write_name(&mut out);
        out
    }

    pub fn write_name(&self, out: &mut String)
        ensures
            final(out)@ == old(out)@ + type_label(*self),
        decreases self,
    {
        match self {
            Type::Str => push_str(out, "Str"),
            Type::Num => push_str(out, "Num"),
            Type::Bool => push_str(out, "Bool"),
            Type::Any => push_str(out, "Any"),
            Type::Nil => push_str(out, "Nil"),
            Type::Undefined => push_str(out, "Undefined"),
            Type::Array(inner) => {
                push_str(out, "Array(");
                inner.write_name(out);
                push_str(out, ")");
                proof {
                    assert(final(out)@ =~= old(out)@ + type_label(*self));
                }
            },
        }
    }
}

impl Clone for Type {
    fn clone(&self) -> Type {
        self.copy()
    }
}

/// The type named by a type keyword: `str`, `num`, `bool`, or `idc` for `Any`.
pub fn get_type(v: &str) -> (r: Option<Type>)
    ensures
        r == type_keyword(v@),
{
    if str_eq(v, "str") {
        Some(Type::Str)
    } else if str_eq(v, "num") {
        Some(Type::Num)
    } else if str_eq(v, "bool") {
        Some(Type::Bool)
    } else if str_eq(v, "idc") {
        Some(Type::Any)
    } else {
        None
    }
}

/// The operator spelled by `v`, with its binding rank.
pub fn get_operand(v: &str) -> (r: Option<(Operand, u8)>)
    ensures
        r == operand_of(v@),
{
    if str_eq(v, "^") {
        Some((Operand::Pow, 0))
    } else if str_eq(v, "*") {
        Some((Operand::Mul, 1))
    } else if str_eq(v, "/") {
        Some((Operand::Div, 1))
    } else if str_eq(v, "%") {
        Some((Operand::Mod, 1))
    } else if str_eq(v, "+") {
        Some((Operand::Add, 2))
    } else if str_eq(v, "-") {
        Some((Operand::Sub, 2))
    } else if str_eq(v, "==") {
        Some((Operand::Equal, 3))
    } else if str_eq(v, "!=") {
        Some((Operand::NEqual, 3))
    } else if str_eq(v, "<") {
        Some((Operand::Lt, 4))
    } else if str_eq(v, ">") {
        Some((Operand::Gt, 4))
    } else if str_eq(v, "<=") {
        Some((Operand::LtEqual, 4))
    } else if str_eq(v, ">=") {
        Some((Operand::GtEqual, 4))
    } else if str_eq(v, "!") {
        Some((Operand::Not, 4))
    } else if str_eq(v, "and") {
        Some((Operand::And, 4))
    } else if str_eq(v, "or") {
        Some((Operand::Or, 4))
    } else {
        None
    }
}

fn numeric(l: &Type, r: &Type) -> (res: Option<Type>)
    ensures
        res == numeric_result(*l, *r),
{
    match (l, r) {
        (Type::Num, Type::Num) => Some(Type::Num),
        (Type::Any, Type::Num) => Some(Type::Any),
        (Type::Num, Type::Any) => Some(Type::Any),
        (Type::Any, Type::Any) => Some(Type::Any),
        _ => None,
    }
}

impl Operand {
    /// The type of an operation on operands of the two types, or the error
    /// that says why the operator does not accept them.
    pub fn operate(&self, lr: (Type, Type)) -> (res: Result<Type, RunError>)
        ensures
            operate_spec(*self, lr.0, lr.1) is Some ==> res == Ok::<Type, RunError>(
                operate_spec(*self, lr.0, lr.1).unwrap(),
            ),
            operate_spec(*self, lr.0, lr.1) is None ==> res is Err && error_text(res->Err_0)
                == operate_message(*self, lr.0, lr.1) && res->Err_0.position is None,
    {
        let (l, r) = lr;
        let found: Option<Type> = match self {
            Operand::Div | Operand::Mod => numeric(&l, &r),
            Operand::Pow | Operand::Sub => match numeric(&l, &r) {
                Some(t) => Some(t),
                None => match (&l, &r) {
                    (Type::Str, Type::Num) => Some(Type::Str),
                    (Type::Str, Type::Any) => Some(Type::Any),
                    _ => None,
                },
            },
            Operand::Mul => match numeric(&l, &r) {
                Some(t) => Some(t),
                None => match (&l, &r) {
                    (Type::Str, Type::Num) => Some(Type::Str),
                    (Type::Str, Type::Str) => Some(Type::Str),
                    _ => None,
                },
            },
            Operand::Add => match numeric(&l, &r) {
                Some(t) => Some(t),
                None => match (&l, &r) {
                    (Type::Str, Type::Num) => Some(Type::Str),
                    (Type::Str, Type::Str) => Some(Type::Str),
                    (Type::Str, Type::Bool) => Some(Type::Str),
                    _ => None,
                },
            },
            Operand::Equal | Operand::NEqual | Operand::And | Operand::Or | Operand::Not => Some(
                Type::Bool,
            ),
            Operand::Lt | Operand::Gt | Operand::LtEqual | Operand::GtEqual => {
                if matches!(l, Type::Bool) || matches!(l, Type::Str) || matches!(r, Type::Bool)
                    || matches!(r, Type::Str) {
                    None
                } else {
                    Some(Type::Bool)
                }
            },
        };
        match found {
            Some(t) => Ok(t),
            None => {
                let mut msg = String::new();
                match self {
                    Operand::Lt | Operand::Gt | Operand::LtEqual | Operand::GtEqual => {
                        push_str(&mut msg, "failed to '");
                        l.write_name(&mut msg);
                        push_str(&mut msg, " < ");
                        r.write_name(&mut msg);
                        push_str(&mut msg, "'");
                    },
                    _ => {
                        push_str(&mut msg, "failed to ");
                        push_str(&mut msg, self.verb());
                        push_str(&mut msg, ": ");
                        l.write_name(&mut msg);
                        push_str(&mut msg, " and ");
                        r.write_name(&mut msg);
                    },
                }
                proof {
                    assert(msg@ =~= operate_message(*self, l, r));
                }
                Err(RunError::from_message(msg, None))
            },
        }
    }

    fn verb(&self) -> (r: &'static str)
        ensures
            r@ == operate_verb(*self),
    {
        match self {
            Operand::Pow => "pow",
            Operand::Mul => "multiply",
            Operand::Div => "divide",
            Operand::Mod => "mod",
            Operand::Add => "add",
            _ => "subtract",
        }
    }

    /// The operator's spelling in Lua.
    pub fn lua(&self) -> (r: &'static str)
        ensures
            r@ == operand_lua(*self),
    {
        match self {
            Operand::Pow => "^",
            Operand::Mul => "*",
            Operand::Div => "/",
            Operand::Mod => "%",
            Operand::Add => "+",
            Operand::Sub => "-",
            Operand::Equal => "==",
            Operand::NEqual => "~=",
            Operand::Lt => "<",
            Operand::Gt => ">",
            Operand::LtEqual => "<=",
            Operand::GtEqual => ">=",
            Operand::And => "and",
            Operand::Or => "or",
            Operand::Not => "not",
        }
    }
}

} // verus!
