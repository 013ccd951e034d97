//! The integer-valued pieces of the typed definition model: data types,
//! constant classes, datalog value kinds and setting groups.

use vstd::prelude::*;
use vstd::string::StringExecFns;
use super::Error;
use super::lex::{spec_element_count, Shape};
use crate::text::{chars_are, chars_of};

verus! {

#[derive(Debug, Clone, Copy, PartialEq, Eq, Structural)]
pub enum DataType {
    U08,
    S08,
    U16,
    S16,
    U32,
    S32,
    Ascii,
}

/// The data type a type name denotes (`U08`, `S16`, `ASCII`, ...).
pub open spec fn spec_data_type(s: Seq<char>) -> Option<DataType> {
    if s == seq!['U', '0', '8'] {
        Some(DataType::U08)
    } else if s == seq!['S', '0', '8'] {
        Some(DataType::S08)
    } else if s == seq!['U', '1', '6'] {
        Some(DataType::U16)
    } else if s == seq!['S', '1', '6'] {
        Some(DataType::S16)
    } else if s == seq!['U', '3', '2'] {
        Some(DataType::U32)
    } else if s == seq!['S', '3', '2'] {
        Some(DataType::S32)
    } else if s == seq!['A', 'S', 'C', 'I', 'I'] {
        Some(DataType::Ascii)
    } else {
        None
    }
}

/// Bytes one value of the type occupies.
pub open spec fn spec_size(t: DataType) -> u32 {
    match t {
        DataType::U08 | DataType::S08 | DataType::Ascii => 1,
        DataType::U16 | DataType::S16 => 2,
        DataType::U32 | DataType::S32 => 4,
    }
}

pub open spec fn spec_signed(t: DataType) -> bool {
    t is S08 || t is S16 || t is S32
}

impl DataType {
    /// The type named `s`; an unknown name is an error on line `num`.
    pub fn parse(s: &str, num: u32) -> (r: Result<Self, Error>)
        ensures
            match spec_data_type(s@) {
                Some(t) => r == Ok::<DataType, Error>(t),
                None => r matches Err(Error::Parse(n, _)) && n == num,
            },
    {
        proof {
            reveal_strlit("U08");
            reveal_strlit("S08");
            reveal_strlit("U16");
            reveal_strlit("S16");
            reveal_strlit("U32");
            reveal_strlit("S32");
            reveal_strlit("ASCII");
            assert("U08"@ =~= seq!['U', '0', '8']);
            assert("S08"@ =~= seq!['S', '0', '8']);
            assert("U16"@ =~= seq!['U', '1', '6']);
            assert("S16"@ =~= seq!['S', '1', '6']);
            assert("U32"@ =~= seq!['U', '3', '2']);
            assert("S32"@ =~= seq!['S', '3', '2']);
            assert("ASCII"@ =~= seq!['A', 'S', 'C', 'I', 'I']);
        }
        let w = chars_of(s);
        if chars_are(&w, "U08") {
            Ok(DataType::U08)
        } else if chars_are(&w, "S08") {
            Ok(DataType::S08)
        } else if chars_are(&w, "U16") {
            Ok(DataType::U16)
        } else if chars_are(&w, "S16") {
            Ok(DataType::S16)
        } else if chars_are(&w, "U32") {
            Ok(DataType::U32)
        } else if chars_are(&w, "S32") {
            Ok(DataType::S32)
        } else if chars_are(&w, "ASCII") {
            Ok(DataType::Ascii)
        } else {
            let mut m = String::from_str("unknown data type `");
            crate::text::append_chars(&mut m, &w);
            m.append("`");
            Err(Error::at(num, m))
        }
    }

    pub fn size(&self) -> (n: u32)
        ensures
            n == spec_size(*self),
    {
        match self {
            DataType::U08 | DataType::S08 | DataType::Ascii => 1,
            DataType::U16 | DataType::S16 => 2,
            DataType::U32 | DataType::S32 => 4,
        }
    }

    pub fn signed(&self) -> (b: bool)
        ensures
            b == spec_signed(*self),
    {
        matches!(self, DataType::S08 | DataType::S16 | DataType::S32)
    }
}

#[derive(Debug, Clone, Copy, PartialEq, Eq, Structural)]
pub enum ConstantClass {
    Scalar,
    Bits,
    Array,
    /// `name = string, ASCII, len`
    String,
}

/// Bytes a constant occupies in its page: one value for scalars and bit
/// fields, one per element for arrays (none without a shape), the declared
/// length for strings (none without one).
pub open spec fn spec_byte_size(class: ConstantClass, ty: DataType, shape: Option<Shape>, string_len: Option<u32>) -> int {
    match class {
        ConstantClass::Scalar | ConstantClass::Bits => spec_size(ty) as int,
        ConstantClass::Array => match shape {
            Some(s) => spec_element_count(s) * spec_size(ty),
            None => 0,
        },
        ConstantClass::String => match string_len {
            Some(n) => n as int,
            None => 0,
        },
    }
}

/// The page footprint of a constant of this class, type and shape.
pub fn byte_size(class: ConstantClass, ty: DataType, shape: Option<Shape>, string_len: Option<u32>) -> (n: u32)
    requires
        spec_byte_size(class, ty, shape, string_len) <= u32::MAX,
    ensures
        n == spec_byte_size(class, ty, shape, string_len),
{
    match class {
        ConstantClass::Scalar | ConstantClass::Bits => ty.size(),
        ConstantClass::Array => match shape {
            Some(s) => s.element_count() * ty.size(),
            None => 0,
        },
        ConstantClass::String => match string_len {
            Some(n) => n,
            None => 0,
        },
    }
}

#[derive(Debug, Clone, Copy, PartialEq, Eq, Structural)]
pub enum DatalogType {
    Int,
    Float,
}

#[derive(Debug, Clone)]
pub struct SettingGroup {
    pub keyword: String,
    pub display_name: String,
    /// (option symbol, label); the symbol "DEFAULT" means no symbol set.
    pub options: Vec<(String, String)>,
}

} // verus!
