//! The primitive and named types of the language.
use vstd::prelude::*;
use crate::ast::text::decimal;

verus! {

/// A type of the language.
#[derive(Debug, PartialEq, Clone)]
pub enum Type {
    Int,
    Float,
    I8,
    I16,
    I32,
    I64,
    I128,
    U8,
    U16,
    U32,
    U64,
    U128,
    ISize,
    USize,
    F32,
    F64,
    Bool,
    Char,
    Str,
    Unit,
    Struct(String),
    Generic(String),
}

/// The mathematical value of a `Type`: names are held as character sequences.
pub enum TypeModel {
    Int,
    Float,
    I8,
    I16,
    I32,
    I64,
    I128,
    U8,
    U16,
    U32,
    U64,
    U128,
    ISize,
    USize,
    F32,
    F64,
    Bool,
    Char,
    Str,
    Unit,
    Struct(Seq<char>),
    Generic(Seq<char>),
}

impl View for Type {
    type V = TypeModel;

    open spec fn view(&self) -> TypeModel {
        match self {
            Type::Int => TypeModel::Int,
            Type::Float => TypeModel::Float,
            Type::I8 => TypeModel::I8,
            Type::I16 => TypeModel::I16,
            Type::I32 => TypeModel::I32,
            Type::I64 => TypeModel::I64,
            Type::I128 => TypeModel::I128,
            Type::U8 => TypeModel::U8,
            Type::U16 => TypeModel::U16,
            Type::U32 => TypeModel::U32,
            Type::U64 => TypeModel::U64,
            Type::U128 => TypeModel::U128,
            Type::ISize => TypeModel::ISize,
            Type::USize => TypeModel::USize,
            Type::F32 => TypeModel::F32,
            Type::F64 => TypeModel::F64,
            Type::Bool => TypeModel::Bool,
            Type::Char => TypeModel::Char,
            Type::Str => TypeModel::Str,
            Type::Unit => TypeModel::Unit,
            Type::Struct(n) => TypeModel::Struct(n@),
            Type::Generic(n) => TypeModel::Generic(n@),
        }
    }
}

/// The type that a built-in type name denotes, if `name` is one.
pub open spec fn builtin_type(name: Seq<char>) -> Option<TypeModel> {
    if name == "int"@ {
        Some(TypeModel::Int)
    } else if name == "float"@ {
        Some(TypeModel::Float)
    } else if name == "i8"@ {
        Some(TypeModel::I8)
    } else if name == "i16"@ {
        Some(TypeModel::I16)
    } else if name == "i32"@ {
        Some(TypeModel::I32)
    } else if name == "i64"@ {
        Some(TypeModel::I64)
    } else if name == "i128"@ {
        Some(TypeModel::I128)
    } else if name == "u8"@ {
        Some(TypeModel::U8)
    } else if name == "u16"@ {
        Some(TypeModel::U16)
    } else if name == "u32"@ {
        Some(TypeModel::U32)
    } else if name == "u64"@ {
        Some(TypeModel::U64)
    } else if name == "u128"@ {
        Some(TypeModel::U128)
    } else if name == "isize"@ {
        Some(TypeModel::ISize)
    } else if name == "usize"@ {
        Some(TypeModel::USize)
    } else if name == "f32"@ {
        Some(TypeModel::F32)
    } else if name == "f64"@ {
        Some(TypeModel::F64)
    } else if name == "bool"@ {
        Some(TypeModel::Bool)
    } else if name == "char"@ {
        Some(TypeModel::Char)
    } else if name == "str"@ {
        Some(TypeModel::Str)
    } else if name == "()"@ {
        Some(TypeModel::Unit)
    } else {
        None
    }
}

/// The type that a type name in source text denotes: a built-in type, or
/// else a struct of that name.
pub open spec fn type_of_name(name: Seq<char>) -> TypeModel {
    match builtin_type(name) {
        Some(t) => t,
        None => TypeModel::Struct(name),
    }
}

/// How a type is written in source text.
pub open spec fn type_text(t: TypeModel) -> Seq<char> {
    match t {
        TypeModel::Int => "int"@,
        TypeModel::Float => "float"@,
        TypeModel::I8 => "i8"@,
        TypeModel::I16 => "i16"@,
        TypeModel::I32 => "i32"@,
        TypeModel::I64 => "i64"@,
        TypeModel::I128 => "i128"@,
        TypeModel::U8 => "u8"@,
        TypeModel::U16 => "u16"@,
        TypeModel::U32 => "u32"@,
        TypeModel::U64 => "u64"@,
        TypeModel::U128 => "u128"@,
        TypeModel::ISize => "isize"@,
        TypeModel::USize => "usize"@,
        TypeModel::F32 => "f32"@,
        TypeModel::F64 => "f64"@,
        TypeModel::Bool => "bool"@,
        TypeModel::Char => "char"@,
        TypeModel::Str => "str"@,
        TypeModel::Unit => "()"@,
        TypeModel::Struct(n) => n,
        TypeModel::Generic(n) => n,
    }
}

/// Integer types, of a fixed width or not.
pub open spec fn spec_is_integer(t: TypeModel) -> bool {
    match t {
        TypeModel::Int | TypeModel::I8 | TypeModel::I16 | TypeModel::I32 | TypeModel::I64
        | TypeModel::I128 | TypeModel::U8 | TypeModel::U16 | TypeModel::U32 | TypeModel::U64
        | TypeModel::U128 | TypeModel::ISize | TypeModel::USize => true,
        _ => false,
    }
}

/// Floating-point types.
pub open spec fn spec_is_float(t: TypeModel) -> bool {
    match t {
        TypeModel::Float | TypeModel::F32 | TypeModel::F64 => true,
        _ => false,
    }
}

/// Numeric types: the integer and the floating-point types.
pub open spec fn spec_is_numeric(t: TypeModel) -> bool {
    match t {
        TypeModel::Int | TypeModel::Float | TypeModel::I8 | TypeModel::I16 | TypeModel::I32
        | TypeModel::I64 | TypeModel::I128 | TypeModel::U8 | TypeModel::U16 | TypeModel::U32
        | TypeModel::U64 | TypeModel::U128 | TypeModel::ISize | TypeModel::USize
        | TypeModel::F32 | TypeModel::F64 => true,
        _ => false,
    }
}

/// Types whose values carry a sign.
pub open spec fn spec_is_signed(t: TypeModel) -> bool {
    match t {
        TypeModel::Int | TypeModel::Float | TypeModel::I8 | TypeModel::I16 | TypeModel::I32
        | TypeModel::I64 | TypeModel::I128 | TypeModel::ISize | TypeModel::F32
        | TypeModel::F64 => true,
        _ => false,
    }
}

/// A `String` holding the characters of a string literal.
fn owned(s: &str) -> (res: String)
    ensures
        res@ == s@,
{
    s.to_owned()
}

impl Type {
    /// The type that the name `s` denotes: a built-in type, or else a struct
    /// named `s`.
    pub fn from_str(s: &str) -> (res: Self)
        ensures
            res@ == type_of_name(s@),
    {
        let name = owned(s);
        if name == owned("int") {
            Type::Int
        } else if name == owned("float") {
            Type::Float
        } else if name == owned("i8") {
            Type::I8
        } else if name == owned("i16") {
            Type::I16
        } else if name == owned("i32") {
            Type::I32
        } else if name == owned("i64") {
            Type::I64
        } else if name == owned("i128") {
            Type::I128
        } else if name == owned("u8") {
            Type::U8
        } else if name == owned("u16") {
            Type::U16
        } else if name == owned("u32") {
            Type::U32
        } else if name == owned("u64") {
            Type::U64
        } else if name == owned("u128") {
            Type::U128
        } else if name == owned("isize") {
            Type::ISize
        } else if name == owned("usize") {
            Type::USize
        } else if name == owned("f32") {
            Type::F32
        } else if name == owned("f64") {
            Type::F64
        } else if name == owned("bool") {
            Type::Bool
        } else if name == owned("char") {
            Type::Char
        } else if name == owned("str") {
            Type::Str
        } else if name == owned("()") {
            Type::Unit
        } else {
            Type::Struct(name)
        }
    }

    pub fn is_numeric(&self) -> (res: bool)
        ensures
            res == spec_is_numeric(self@),
    {
        match self {
            Type::Int | Type::Float | Type::I8 | Type::I16 | Type::I32 | Type::I64 | Type::I128
            | Type::U8 | Type::U16 | Type::U32 | Type::U64 | Type::U128 | Type::ISize
            | Type::USize | Type::F32 | Type::F64 => true,
            _ => false,
        }
    }

    pub fn is_integer(&self) -> (res: bool)
        ensures
            res == spec_is_integer(self@),
    {
        match self {
            Type::Int | Type::I8 | Type::I16 | Type::I32 | Type::I64 | Type::I128 | Type::U8
            | Type::U16 | Type::U32 | Type::U64 | Type::U128 | Type::ISize | Type::USize => true,
            _ => false,
        }
    }

    pub fn is_float(&self) -> (res: bool)
        ensures
            res == spec_is_float(self@),
    {
        match self {
            Type::Float | Type::F32 | Type::F64 => true,
            _ => false,
        }
    }

    pub fn is_signed(&self) -> (res: bool)
        ensures
            res == spec_is_signed(self@),
    {
        match self {
            Type::Int | Type::Float | Type::I8 | Type::I16 | Type::I32 | Type::I64 | Type::I128
            | Type::ISize | Type::F32 | Type::F64 => true,
            _ => false,
        }
    }

    /// How the type is written in source text.
    pub fn to_string(&self) -> (res: String)
        ensures
            res@ == type_text(self@),
    {
        match self {
            Type::Int => owned("int"),
            Type::Float => owned("float"),
            Type::I8 => owned("i8"),
            Type::I16 => owned("i16"),
            Type::I32 => owned("i32"),
            Type::I64 => owned("i64"),
            Type::I128 => owned("i128"),
            Type::U8 => owned("u8"),
            Type::U16 => owned("u16"),
            Type::U32 => owned("u32"),
            Type::U64 => owned("u64"),
            Type::U128 => owned("u128"),
            Type::ISize => owned("isize"),
            Type::USize => owned("usize"),
            Type::F32 => owned("f32"),
            Type::F64 => owned("f64"),
            Type::Bool => owned("bool"),
            Type::Char => owned("char"),
            Type::Str => owned("str"),
            Type::Unit => owned("()"),
            Type::Struct(name) => name.clone(),
            Type::Generic(name) => name.clone(),
        }
    }
}

/// Every numeric type is an integer type or a floating-point type, and no
/// type is both.
pub proof fn law_numeric_is_integer_or_float(t: TypeModel)
    ensures
        spec_is_numeric(t) <==> (spec_is_integer(t) || spec_is_float(t)),
        !(spec_is_integer(t) && spec_is_float(t)),
{
}

/// Every floating-point type is signed, and every signed type is numeric.
pub proof fn law_float_is_signed(t: TypeModel)
    ensures
        spec_is_float(t) ==> spec_is_signed(t),
        spec_is_signed(t) ==> spec_is_numeric(t),
{
}

/// Reading a name as a type and writing the type back gives the name.
pub proof fn law_text_of_name(name: Seq<char>)
    ensures
        type_text(type_of_name(name)) == name,
{
}

/// Writing a type and reading the text back gives the type, for every type
/// but a generic one and a struct whose name is that of a built-in type.
pub proof fn law_name_of_text(t: TypeModel)
    requires
        match t {
            TypeModel::Generic(_) => false,
            TypeModel::Struct(n) => builtin_type(n) is None,
            _ => true,
        },
    ensures
        type_of_name(type_text(t)) == t,
{
    reveal_strlit("int");
    reveal_strlit("float");
    reveal_strlit("i8");
    reveal_strlit("i16");
    reveal_strlit("i32");
    reveal_strlit("i64");
    reveal_strlit("i128");
    reveal_strlit("u8");
    reveal_strlit("u16");
    reveal_strlit("u32");
    reveal_strlit("u64");
    reveal_strlit("u128");
    reveal_strlit("isize");
    reveal_strlit("usize");
    reveal_strlit("f32");
    reveal_strlit("f64");
    reveal_strlit("bool");
    reveal_strlit("char");
    reveal_strlit("str");
    reveal_strlit("()");
    assert("int"@.len() == 3);
    assert("float"@.len() == 5);
    assert("i8"@.len() == 2);
    assert("i16"@.len() == 3);
    assert("i32"@.len() == 3);
    assert("i64"@.len() == 3);
    assert("i128"@.len() == 4);
    assert("u8"@.len() == 2);
    assert("u16"@.len() == 3);
    assert("u32"@.len() == 3);
    assert("u64"@.len() == 3);
    assert("u128"@.len() == 4);
    assert("isize"@.len() == 5);
    assert("usize"@.len() == 5);
    assert("f32"@.len() == 3);
    assert("f64"@.len() == 3);
    assert("bool"@.len() == 4);
    assert("char"@.len() == 4);
    assert("str"@.len() == 3);
    assert("()"@.len() == 2);
    assert("int"@[1] != "i16"@[1]);
    assert("int"@[1] != "i32"@[1]);
    assert("int"@[1] != "i64"@[1]);
    assert("int"@[0] != "u16"@[0]);
    assert("int"@[0] != "u32"@[0]);
    assert("int"@[0] != "u64"@[0]);
    assert("int"@[0] != "f32"@[0]);
    assert("int"@[0] != "f64"@[0]);
    assert("int"@[0] != "str"@[0]);
    assert("float"@[0] != "isize"@[0]);
    assert("float"@[0] != "usize"@[0]);
    assert("i8"@[0] != "u8"@[0]);
    assert("i8"@[0] != "()"@[0]);
    assert("i16"@[1] != "i32"@[1]);
    assert("i16"@[1] != "i64"@[1]);
    assert("i16"@[0] != "u16"@[0]);
    assert("i16"@[0] != "u32"@[0]);
    assert("i16"@[0] != "u64"@[0]);
    assert("i16"@[0] != "f32"@[0]);
    assert("i16"@[0] != "f64"@[0]);
    assert("i16"@[0] != "str"@[0]);
    assert("i32"@[1] != "i64"@[1]);
    assert("i32"@[0] != "u16"@[0]);
    assert("i32"@[0] != "u32"@[0]);
    assert("i32"@[0] != "u64"@[0]);
    assert("i32"@[0] != "f32"@[0]);
    assert("i32"@[0] != "f64"@[0]);
    assert("i32"@[0] != "str"@[0]);
    assert("i64"@[0] != "u16"@[0]);
    assert("i64"@[0] != "u32"@[0]);
    assert("i64"@[0] != "u64"@[0]);
    assert("i64"@[0] != "f32"@[0]);
    assert("i64"@[0] != "f64"@[0]);
    assert("i64"@[0] != "str"@[0]);
    assert("i128"@[0] != "u128"@[0]);
    assert("i128"@[0] != "bool"@[0]);
    assert("i128"@[0] != "char"@[0]);
    assert("u8"@[0] != "()"@[0]);
    assert("u16"@[1] != "u32"@[1]);
    assert("u16"@[1] != "u64"@[1]);
    assert("u16"@[0] != "f32"@[0]);
    assert("u16"@[0] != "f64"@[0]);
    assert("u16"@[0] != "str"@[0]);
    assert("u32"@[1] != "u64"@[1]);
    assert("u32"@[0] != "f32"@[0]);
    assert("u32"@[0] != "f64"@[0]);
    assert("u32"@[0] != "str"@[0]);
    assert("u64"@[0] != "f32"@[0]);
    assert("u64"@[0] != "f64"@[0]);
    assert("u64"@[0] != "str"@[0]);
    assert("u128"@[0] != "bool"@[0]);
    assert("u128"@[0] != "char"@[0]);
    assert("isize"@[0] != "usize"@[0]);
    assert("f32"@[1] != "f64"@[1]);
    assert("f32"@[0] != "str"@[0]);
    assert("f64"@[0] != "str"@[0]);
    assert("bool"@[0] != "char"@[0]);
    match t {
        TypeModel::Struct(n) => {},
        _ => {},
    }
}

/// The width in bits of a fixed-width numeric type; 0 for every other type.
pub open spec fn bit_width(t: TypeModel) -> nat {
    match t {
        TypeModel::I8 | TypeModel::U8 => 8,
        TypeModel::I16 | TypeModel::U16 => 16,
        TypeModel::I32 | TypeModel::U32 | TypeModel::F32 => 32,
        TypeModel::I64 | TypeModel::U64 | TypeModel::F64 => 64,
        TypeModel::I128 | TypeModel::U128 => 128,
        _ => 0,
    }
}

/// The letter that the name of a sized numeric type starts with: `f` for a
/// float, `i` for a signed integer, `u` for an unsigned one.
pub open spec fn sign_letter(t: TypeModel) -> char {
    if spec_is_float(t) {
        'f'
    } else if spec_is_signed(t) {
        'i'
    } else {
        'u'
    }
}

/// A fixed-width numeric type is written as its sign letter followed by its
/// width in decimal, and a pointer-sized integer as its sign letter followed
/// by `size`; each such name reads back as that type.
pub proof fn law_sized_type_names(t: TypeModel)
    ensures
        bit_width(t) > 0 ==> {
            &&& type_text(t) == seq![sign_letter(t)] + decimal(bit_width(t))
            &&& type_of_name(seq![sign_letter(t)] + decimal(bit_width(t))) == t
        },
        t == TypeModel::ISize || t == TypeModel::USize ==> {
            &&& type_text(t) == seq![sign_letter(t)] + "size"@
            &&& type_of_name(seq![sign_letter(t)] + "size"@) == t
        },
{
    reveal_with_fuel(decimal, 3);
    reveal_strlit("size");
    reveal_strlit("isize");
    reveal_strlit("usize");
    reveal_strlit("i8");
    reveal_strlit("i16");
    reveal_strlit("i32");
    reveal_strlit("i64");
    reveal_strlit("i128");
    reveal_strlit("u8");
    reveal_strlit("u16");
    reveal_strlit("u32");
    reveal_strlit("u64");
    reveal_strlit("u128");
    reveal_strlit("f32");
    reveal_strlit("f64");
    assert(decimal(8) =~= seq!['8']);
    assert(decimal(16) =~= seq!['1', '6']);
    assert(decimal(32) =~= seq!['3', '2']);
    assert(decimal(64) =~= seq!['6', '4']);
    assert(decimal(12) =~= seq!['1', '2']);
    assert(decimal(128) =~= seq!['1', '2', '8']);
    let name = if bit_width(t) > 0 {
        seq![sign_letter(t)] + decimal(bit_width(t))
    } else {
        seq![sign_letter(t)] + "size"@
    };
    if bit_width(t) > 0 || t == TypeModel::ISize || t == TypeModel::USize {
        assert(name =~= type_text(t));
        law_name_of_text(t);
    }
}

/// The first letter of each numeric type's name.
proof fn lemma_first_letters()
    ensures
        "int"@.len() > 0 && "int"@[0] == 'i',
        "float"@.len() > 0 && "float"@[0] == 'f',
        "isize"@.len() > 0 && "isize"@[0] == 'i',
        "usize"@.len() > 0 && "usize"@[0] == 'u',
        "i8"@.len() > 0 && "i8"@[0] == 'i',
        "i16"@.len() > 0 && "i16"@[0] == 'i',
        "i32"@.len() > 0 && "i32"@[0] == 'i',
        "i64"@.len() > 0 && "i64"@[0] == 'i',
        "i128"@.len() > 0 && "i128"@[0] == 'i',
        "u8"@.len() > 0 && "u8"@[0] == 'u',
        "u16"@.len() > 0 && "u16"@[0] == 'u',
        "u32"@.len() > 0 && "u32"@[0] == 'u',
        "u64"@.len() > 0 && "u64"@[0] == 'u',
        "u128"@.len() > 0 && "u128"@[0] == 'u',
        "f32"@.len() > 0 && "f32"@[0] == 'f',
        "f64"@.len() > 0 && "f64"@[0] == 'f',
{
    reveal_strlit("int");
    reveal_strlit("float");
    reveal_strlit("isize");
    reveal_strlit("usize");
    reveal_strlit("i8");
    reveal_strlit("i16");
    reveal_strlit("i32");
    reveal_strlit("i64");
    reveal_strlit("i128");
    reveal_strlit("u8");
    reveal_strlit("u16");
    reveal_strlit("u32");
    reveal_strlit("u64");
    reveal_strlit("u128");
    reveal_strlit("f32");
    reveal_strlit("f64");
}

/// Among the numeric types the signed ones are exactly those whose name does
/// not start with `u`: every float and every integer type written with a
/// leading `i`. So a built-in name that starts with `u` reads as an unsigned
/// type, and any other numeric name as a signed one.
pub proof fn law_signed_names(t: TypeModel, name: Seq<char>)
    ensures
        spec_is_numeric(t) ==> (spec_is_signed(t) <==> type_text(t)[0] != 'u'),
        spec_is_signed(t) <==> (spec_is_float(t) || (spec_is_integer(t) && type_text(t)[0]
            == 'i')),
        builtin_type(name) == Some(t) && spec_is_numeric(t) ==> (spec_is_signed(t) <==> name[0]
            != 'u'),
{
    lemma_first_letters();
    if builtin_type(name) == Some(t) {
        law_text_of_name(name);
    }
}

/// Each built-in type name reads as its own type: `i32` as `I32`, `u32` as
/// `U32`, and so on through the whole list of names.
pub proof fn law_builtin_names()
    ensures
        type_of_name("int"@) == TypeModel::Int,
        type_of_name("float"@) == TypeModel::Float,
        type_of_name("i8"@) == TypeModel::I8,
        type_of_name("i16"@) == TypeModel::I16,
        type_of_name("i32"@) == TypeModel::I32,
        type_of_name("i64"@) == TypeModel::I64,
        type_of_name("i128"@) == TypeModel::I128,
        type_of_name("u8"@) == TypeModel::U8,
        type_of_name("u16"@) == TypeModel::U16,
        type_of_name("u32"@) == TypeModel::U32,
        type_of_name("u64"@) == TypeModel::U64,
        type_of_name("u128"@) == TypeModel::U128,
        type_of_name("isize"@) == TypeModel::ISize,
        type_of_name("usize"@) == TypeModel::USize,
        type_of_name("f32"@) == TypeModel::F32,
        type_of_name("f64"@) == TypeModel::F64,
        type_of_name("bool"@) == TypeModel::Bool,
        type_of_name("char"@) == TypeModel::Char,
        type_of_name("str"@) == TypeModel::Str,
        type_of_name("()"@) == TypeModel::Unit,
{
    law_name_of_text(TypeModel::Int);
    law_name_of_text(TypeModel::Float);
    law_name_of_text(TypeModel::I8);
    law_name_of_text(TypeModel::I16);
    law_name_of_text(TypeModel::I32);
    law_name_of_text(TypeModel::I64);
    law_name_of_text(TypeModel::I128);
    law_name_of_text(TypeModel::U8);
    law_name_of_text(TypeModel::U16);
    law_name_of_text(TypeModel::U32);
    law_name_of_text(TypeModel::U64);
    law_name_of_text(TypeModel::U128);
    law_name_of_text(TypeModel::ISize);
    law_name_of_text(TypeModel::USize);
    law_name_of_text(TypeModel::F32);
    law_name_of_text(TypeModel::F64);
    law_name_of_text(TypeModel::Bool);
    law_name_of_text(TypeModel::Char);
    law_name_of_text(TypeModel::Str);
    law_name_of_text(TypeModel::Unit);
}

/// The numeric types are the fixed-width ones, `int`, `float` and the two
/// pointer-sized integers; among them the floats are exactly those whose
/// name starts with `f`, and every other one is an integer type.
pub proof fn law_numeric_kinds(t: TypeModel)
    ensures
        spec_is_numeric(t) <==> (bit_width(t) > 0 || t == TypeModel::Int || t == TypeModel::Float
            || t == TypeModel::ISize || t == TypeModel::USize),
        spec_is_numeric(t) ==> (spec_is_float(t) <==> type_text(t)[0] == 'f'),
        spec_is_numeric(t) ==> (spec_is_integer(t) <==> type_text(t)[0] != 'f'),
{
    lemma_first_letters();
}

} // verus!
