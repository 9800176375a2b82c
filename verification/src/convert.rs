//! Values of the host as values of the script.

use vstd::prelude::*;
use vstd::std_specs::convert::FromSpecImpl;
use crate::float::FasFloat;
use crate::types::AstType;
use vstd::string::*;
use crate::value::{FasValue, ValueModel};

verus! {

/// A type of the host that has a type of the script.
pub trait GetAstTypeTrait {
    /// The type of the script that values of this type have.
    fn get_ast_type() -> AstType;
}

impl GetAstTypeTrait for bool {
    fn get_ast_type() -> (t: AstType)
        ensures
            t == AstType::Bool,
    {
        AstType::Bool
    }
}

impl GetAstTypeTrait for FasFloat {
    fn get_ast_type() -> (t: AstType)
        ensures
            t == AstType::Float,
    {
        AstType::Float
    }
}

impl GetAstTypeTrait for i64 {
    fn get_ast_type() -> (t: AstType)
        ensures
            t == AstType::Int,
    {
        AstType::Int
    }
}

impl GetAstTypeTrait for String {
    fn get_ast_type() -> (t: AstType)
        ensures
            t == AstType::String,
    {
        AstType::String
    }
}

impl GetAstTypeTrait for &str {
    fn get_ast_type() -> (t: AstType)
        ensures
            t == AstType::String,
    {
        AstType::String
    }
}

impl GetAstTypeTrait for () {
    fn get_ast_type() -> (t: AstType)
        ensures
            t == AstType::Unknown,
    {
        AstType::Unknown
    }
}

impl From<bool> for FasValue {
    fn from(v: bool) -> (r: FasValue) {
        FasValue::Bool(v)
    }
}

impl FromSpecImpl<bool> for FasValue {
    open spec fn obeys_from_spec() -> bool {
        true
    }

    open spec fn from_spec(v: bool) -> FasValue {
        FasValue::Bool(v)
    }
}

impl From<i64> for FasValue {
    fn from(v: i64) -> (r: FasValue) {
        FasValue::Int(v)
    }
}

impl FromSpecImpl<i64> for FasValue {
    open spec fn obeys_from_spec() -> bool {
        true
    }

    open spec fn from_spec(v: i64) -> FasValue {
        FasValue::Int(v)
    }
}

impl From<FasFloat> for FasValue {
    fn from(v: FasFloat) -> (r: FasValue) {
        FasValue::Float(v)
    }
}

impl FromSpecImpl<FasFloat> for FasValue {
    open spec fn obeys_from_spec() -> bool {
        true
    }

    open spec fn from_spec(v: FasFloat) -> FasValue {
        FasValue::Float(v)
    }
}

impl From<String> for FasValue {
    fn from(v: String) -> (r: FasValue) {
        FasValue::String(v)
    }
}

impl FromSpecImpl<String> for FasValue {
    open spec fn obeys_from_spec() -> bool {
        true
    }

    open spec fn from_spec(v: String) -> FasValue {
        FasValue::String(v)
    }
}

impl From<()> for FasValue {
    fn from(v: ()) -> (r: FasValue) {
        FasValue::Null
    }
}

impl FromSpecImpl<()> for FasValue {
    open spec fn obeys_from_spec() -> bool {
        true
    }

    open spec fn from_spec(v: ()) -> FasValue {
        FasValue::Null
    }
}

impl From<&str> for FasValue {
    /// The string that holds the text.
    fn from(s: &str) -> (r: FasValue)
        ensures
            r@ == ValueModel::Str(s@),
    {
        FasValue::String(String::from_str(s))
    }
}

impl FromSpecImpl<&str> for FasValue {
    /// Two strings of one text are two values, so no one value can be
    /// named as what the conversion gives; what it gives is stated at
    /// `from`.
    open spec fn obeys_from_spec() -> bool {
        false
    }

    /// A string that holds the text.
    open spec fn from_spec(s: &str) -> FasValue {
        choose|v: FasValue| v@ == ValueModel::Str(s@)
    }
}

impl From<FasValue> for () {
    fn from(v: FasValue) -> (r: ()) {
        ()
    }
}

impl FromSpecImpl<FasValue> for () {
    open spec fn obeys_from_spec() -> bool {
        true
    }

    open spec fn from_spec(v: FasValue) -> () {
        ()
    }
}

} // verus!
