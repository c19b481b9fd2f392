use crate::peer::hex_digit;
use vstd::prelude::*;

verus! {

/// The type of a value on the script engine's stack, as the engine numbers it.
#[derive(Clone, Copy, Debug, PartialEq, Eq, Structural)]
pub enum LuaType {
    Absent,
    Nil,
    Boolean,
    LightUserdata,
    Number,
    String,
    Table,
    Function,
    Userdata,
    Thread,
    Unknown(i32),
}

/// The type that an engine type number stands for.
pub open spec fn lua_type_of(value: i32) -> LuaType {
    if value == -1 {
        LuaType::Absent
    } else if value == 0 {
        LuaType::Nil
    } else if value == 1 {
        LuaType::Boolean
    } else if value == 2 {
        LuaType::LightUserdata
    } else if value == 3 {
        LuaType::Number
    } else if value == 4 {
        LuaType::String
    } else if value == 5 {
        LuaType::Table
    } else if value == 6 {
        LuaType::Function
    } else if value == 7 {
        LuaType::Userdata
    } else if value == 8 {
        LuaType::Thread
    } else {
        LuaType::Unknown(value)
    }
}

/// The decimal digits of a natural number, most significant first.
pub open spec fn digits(n: nat) -> Seq<char>
    decreases n,
{
    if n < 10 {
        seq![hex_digit(n as int)]
    } else {
        digits(n / 10).push(hex_digit((n % 10) as int))
    }
}

/// The decimal text of an integer, with a leading minus when negative.
pub open spec fn decimal(v: int) -> Seq<char> {
    if v < 0 {
        seq!['-'] + digits((-v) as nat)
    } else {
        digits(v as nat)
    }
}

/// Relies on the `Display` of `i32`, which writes the decimal text.
#[verifier::external_body]
fn i32_text(v: i32) -> (r: String)
    ensures
        r@ == decimal(v as int),
{
    v.to_string()
}

/// The name of a type as the engine's diagnostics print it.
pub open spec fn lua_type_name(t: LuaType) -> Seq<char> {
    match t {
        LuaType::Absent => "None"@,
        LuaType::Nil => "Nil"@,
        LuaType::Boolean => "Boolean"@,
        LuaType::LightUserdata => "LightUserdata"@,
        LuaType::Number => "Number"@,
        LuaType::String => "String"@,
        LuaType::Table => "Table"@,
        LuaType::Function => "Function"@,
        LuaType::Userdata => "Userdata"@,
        LuaType::Thread => "Thread"@,
        LuaType::Unknown(v) => "Unknown("@ + decimal(v as int) + ")"@,
    }
}

impl LuaType {
    /// The type's name; an unknown type number is written out.
    pub fn name(&self) -> (r: String)
        ensures
            r@ == lua_type_name(*self),
    {
        match self {
            LuaType::Absent => String::from_str("None"),
            LuaType::Nil => String::from_str("Nil"),
            LuaType::Boolean => String::from_str("Boolean"),
            LuaType::LightUserdata => String::from_str("LightUserdata"),
            LuaType::Number => String::from_str("Number"),
            LuaType::String => String::from_str("String"),
            LuaType::Table => String::from_str("Table"),
            LuaType::Function => String::from_str("Function"),
            LuaType::Userdata => String::from_str("Userdata"),
            LuaType::Thread => String::from_str("Thread"),
            LuaType::Unknown(v) => {
                let mut text = String::from_str("Unknown(");
                let number = i32_text(*v);
                text.append(number.as_str());
                text.append(")");
                text
            },
        }
    }
}

impl From<i32> for LuaType {
    fn from(value: i32) -> (r: LuaType)
        ensures
            r == lua_type_of(value),
    {
        match value {
            -1 => LuaType::Absent,
            0 => LuaType::Nil,
            1 => LuaType::Boolean,
            2 => LuaType::LightUserdata,
            3 => LuaType::Number,
            4 => LuaType::String,
            5 => LuaType::Table,
            6 => LuaType::Function,
            7 => LuaType::Userdata,
            8 => LuaType::Thread,
            _ => LuaType::Unknown(value),
        }
    }
}

impl vstd::std_specs::convert::FromSpecImpl<i32> for LuaType {
    open spec fn obeys_from_spec() -> bool {
        true
    }

    open spec fn from_spec(v: i32) -> LuaType {
        lua_type_of(v)
    }
}

} // verus!
