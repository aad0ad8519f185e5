//! The types of the language and their names.
use vstd::prelude::*;
use vstd::string::StringExecFns;

use crate::error::{BestError, ErrorView, Loc, err_at};
use crate::text::text_eq;

verus! {

/// The types of the language.
#[derive(Debug, Clone, Copy, PartialEq, Eq, Structural)]
pub enum Type {
    Int,
    Float,
    Bool,
    Str,
    Void,
}

/// The type that a type name denotes, if any.
pub open spec fn type_named(s: Seq<char>) -> Option<Type> {
    if s == "int"@ {
        Some(Type::Int)
    } else if s == "float"@ {
        Some(Type::Float)
    } else if s == "bool"@ {
        Some(Type::Bool)
    } else if s == "str"@ {
        Some(Type::Str)
    } else if s == "void"@ {
        Some(Type::Void)
    } else {
        None
    }
}

/// The name of a type, as written in programs and messages.
pub open spec fn type_text(t: Type) -> Seq<char> {
    match t {
        Type::Int => "int"@,
        Type::Float => "float"@,
        Type::Bool => "bool"@,
        Type::Str => "str"@,
        Type::Void => "void"@,
    }
}

/// The outcome of reading a type name at a position: the type, or the
/// error `unknown type '<name>'` there.
pub open spec fn type_from_name(s: Seq<char>, loc: Loc) -> Result<Type, ErrorView> {
    match type_named(s) {
        Some(t) => Ok(t),
        None => Err(err_at("unknown type '"@ + s + "'"@, loc)),
    }
}

impl Type {
    /// The type named `s`; an unknown name is an error at `loc`.
    pub fn from_name(s: &str, loc: &Loc) -> (r: Result<Type, BestError>)
        ensures
            match r {
                Ok(t) => type_from_name(s@, *loc) == Ok::<Type, ErrorView>(t),
                Err(e) => type_from_name(s@, *loc) == Err::<Type, ErrorView>(e@),
            },
    {
        if text_eq(s, "int") {
            Ok(Type::Int)
        } else if text_eq(s, "float") {
            Ok(Type::Float)
        } else if text_eq(s, "bool") {
            Ok(Type::Bool)
        } else if text_eq(s, "str") {
            Ok(Type::Str)
        } else if text_eq(s, "void") {
            Ok(Type::Void)
        } else {
            let mut m = String::from_str("unknown type '");
            m.append(s);
            m.append("'");
            Err(BestError { message: m, loc: Some(*loc) })
        }
    }

    /// The name of this type.
    pub fn name(&self) -> (s: &'static str)
        ensures
            s@ == type_text(*self),
    {
        match self {
            Type::Int => "int",
            Type::Float => "float",
            Type::Bool => "bool",
            Type::Str => "str",
            Type::Void => "void",
        }
    }
}

/// The name of a type is read back as that type.
pub proof fn law_type_name_roundtrip(t: Type)
    ensures
        type_named(type_text(t)) == Some(t),
{
    reveal_strlit("int");
    reveal_strlit("float");
    reveal_strlit("bool");
    reveal_strlit("str");
    reveal_strlit("void");
    assert("int"@[0] == 'i');
    assert("float"@[0] == 'f');
    assert("bool"@[0] == 'b');
    assert("str"@[0] == 's');
    assert("void"@[0] == 'v');
}

} // verus!
