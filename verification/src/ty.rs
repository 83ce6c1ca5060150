//! The value types of the shading language, and how many components and
//! slots each of them takes.

use vstd::prelude::*;
use vstd::string::StringExecFns;
use crate::cx::{name_in, LiveIdName, LiveIdNames};
use crate::live_id::LiveId;

verus! {

/// The name of a struct type.
#[derive(Clone, Copy, Debug, PartialEq, Eq, Hash, Structural)]
pub struct Ident(pub LiveId);

#[derive(Debug, Eq, Hash, PartialEq)]
pub enum Ty {
    Void,
    Bool,
    Int,
    Float,
    Bvec2,
    Bvec3,
    Bvec4,
    Ivec2,
    Ivec3,
    Ivec4,
    Vec2,
    Vec3,
    Vec4,
    Mat2,
    Mat3,
    Mat4,
    Array { elem_ty: Box<Ty>, len: usize },
    Struct { ident: Ident },
}

impl Clone for Ty {
    fn clone(&self) -> (r: Ty)
        ensures
            r == *self,
        decreases *self,
    {
        match self {
            Ty::Void => Ty::Void,
            Ty::Bool => Ty::Bool,
            Ty::Int => Ty::Int,
            Ty::Float => Ty::Float,
            Ty::Bvec2 => Ty::Bvec2,
            Ty::Bvec3 => Ty::Bvec3,
            Ty::Bvec4 => Ty::Bvec4,
            Ty::Ivec2 => Ty::Ivec2,
            Ty::Ivec3 => Ty::Ivec3,
            Ty::Ivec4 => Ty::Ivec4,
            Ty::Vec2 => Ty::Vec2,
            Ty::Vec3 => Ty::Vec3,
            Ty::Vec4 => Ty::Vec4,
            Ty::Mat2 => Ty::Mat2,
            Ty::Mat3 => Ty::Mat3,
            Ty::Mat4 => Ty::Mat4,
            Ty::Array { elem_ty, len } => Ty::Array { elem_ty: Box::new((**elem_ty).clone()), len: *len },
            Ty::Struct { ident } => Ty::Struct { ident: *ident },
        }
    }
}

impl Ty {
    /// The type of one element: of a component of a vector, of a column of a
    /// matrix, of an item of an array. Other types have no elements.
    pub open spec fn spec_elem_ty(&self) -> Option<Ty> {
        match *self {
            Ty::Bvec2 | Ty::Bvec3 | Ty::Bvec4 => Some(Ty::Bool),
            Ty::Ivec2 | Ty::Ivec3 | Ty::Ivec4 => Some(Ty::Int),
            Ty::Vec2 | Ty::Vec3 | Ty::Vec4 => Some(Ty::Float),
            Ty::Mat2 => Some(Ty::Vec2),
            Ty::Mat3 => Some(Ty::Vec3),
            Ty::Mat4 => Some(Ty::Vec4),
            Ty::Array { elem_ty, .. } => Some(*elem_ty),
            _ => None,
        }
    }

    pub fn elem_ty(&self) -> (r: Option<Ty>)
        ensures
            r == self.spec_elem_ty(),
    {
        match self {
            Ty::Bvec2 | Ty::Bvec3 | Ty::Bvec4 => Some(Ty::Bool),
            Ty::Ivec2 | Ty::Ivec3 | Ty::Ivec4 => Some(Ty::Int),
            Ty::Vec2 | Ty::Vec3 | Ty::Vec4 => Some(Ty::Float),
            Ty::Mat2 => Some(Ty::Vec2),
            Ty::Mat3 => Some(Ty::Vec3),
            Ty::Mat4 => Some(Ty::Vec4),
            Ty::Array { elem_ty, .. } => Some((**elem_ty).clone()),
            _ => None,
        }
    }

    /// The number of elements: 1 for a scalar, the number of components of a
    /// vector, of columns of a matrix, of items of an array. `Void` and struct
    /// types have none.
    pub open spec fn spec_len(&self) -> Option<usize> {
        match *self {
            Ty::Bool | Ty::Int | Ty::Float => Some(1),
            Ty::Bvec2 | Ty::Ivec2 | Ty::Vec2 | Ty::Mat2 => Some(2),
            Ty::Bvec3 | Ty::Ivec3 | Ty::Vec3 | Ty::Mat3 => Some(3),
            Ty::Bvec4 | Ty::Ivec4 | Ty::Vec4 | Ty::Mat4 => Some(4),
            Ty::Array { len, .. } => Some(len),
            _ => None,
        }
    }

    pub fn len(&self) -> (r: Option<usize>)
        ensures
            r == self.spec_len(),
    {
        match self {
            Ty::Bool | Ty::Int | Ty::Float => Some(1),
            Ty::Bvec2 | Ty::Ivec2 | Ty::Vec2 | Ty::Mat2 => Some(2),
            Ty::Bvec3 | Ty::Ivec3 | Ty::Vec3 | Ty::Mat3 => Some(3),
            Ty::Bvec4 | Ty::Ivec4 | Ty::Vec4 | Ty::Mat4 => Some(4),
            Ty::Array { len, .. } => Some(*len),
            _ => None,
        }
    }

    /// The number of scalar slots that a value of the type takes: the
    /// components of a vector or matrix, and for an array the slots of one
    /// item times the number of items. `Void` and struct types have no size,
    /// nor has an array of them.
    pub open spec fn spec_size(&self) -> Option<nat>
        decreases *self,
    {
        match *self {
            Ty::Bool | Ty::Int | Ty::Float => Some(1),
            Ty::Bvec2 | Ty::Ivec2 | Ty::Vec2 => Some(2),
            Ty::Bvec3 | Ty::Ivec3 | Ty::Vec3 => Some(3),
            Ty::Bvec4 | Ty::Ivec4 | Ty::Vec4 | Ty::Mat2 => Some(4),
            Ty::Mat3 => Some(9),
            Ty::Mat4 => Some(16),
            Ty::Array { elem_ty, len } => match elem_ty.spec_size() {
                Some(size) => Some((size * len) as nat),
                None => None,
            },
            _ => None,
        }
    }

    /// Whether the size of the type, and of every array type inside it, can
    /// be held in a `usize`.
    pub open spec fn size_fits(&self) -> bool
        decreases *self,
    {
        match *self {
            Ty::Array { elem_ty, len } => elem_ty.size_fits() && match elem_ty.spec_size() {
                Some(size) => size * len <= usize::MAX,
                None => true,
            },
            _ => true,
        }
    }

    /// Whether the size of the type, and of every array type inside it, can
    /// be held in a `usize`, so that `size` can be asked for.
    pub fn fits(&self) -> (r: bool)
        ensures
            r == self.size_fits(),
        decreases *self,
    {
        match self {
            Ty::Array { elem_ty, len } => {
                if !elem_ty.fits() {
                    return false;
                }
                match elem_ty.size() {
                    Some(size) => size.checked_mul(*len).is_some(),
                    None => true,
                }
            },
            _ => true,
        }
    }

    pub fn size(&self) -> (r: Option<usize>)
        requires
            self.size_fits(),
        ensures
            match r {
                Some(size) => self.spec_size() == Some(size as nat),
                None => self.spec_size() is None,
            },
        decreases *self,
    {
        match self {
            Ty::Bool | Ty::Int | Ty::Float => Some(1),
            Ty::Bvec2 | Ty::Ivec2 | Ty::Vec2 => Some(2),
            Ty::Bvec3 | Ty::Ivec3 | Ty::Vec3 => Some(3),
            Ty::Bvec4 | Ty::Ivec4 | Ty::Vec4 | Ty::Mat2 => Some(4),
            Ty::Mat3 => Some(9),
            Ty::Mat4 => Some(16),
            Ty::Array { elem_ty, len } => match elem_ty.size() {
                Some(size) => Some(size * *len),
                None => None,
            },
            _ => None,
        }
    }

    /// The type as the shading language writes it, with the names that ids
    /// were made from.
    pub fn text(&self, names: &LiveIdNames) -> (r: String)
        ensures
            r@ == ty_text(*self, names.entries@),
    {
        let mut out = String::new();
        self.write_text(names, &mut out);
        proof {
            assert(Seq::<char>::empty() + ty_text(*self, names.entries@) =~= ty_text(
                *self,
                names.entries@,
            ));
        }
        out
    }

    fn write_text(&self, names: &LiveIdNames, out: &mut String)
        ensures
            final(out)@ == old(out)@ + ty_text(*self, names.entries@),
        decreases *self,
    {
        match self {
            Ty::Void => out.append("void"),
            Ty::Bool => out.append("bool"),
            Ty::Int => out.append("int"),
            Ty::Float => out.append("float"),
            Ty::Bvec2 => out.append("bvec2"),
            Ty::Bvec3 => out.append("bvec3"),
            Ty::Bvec4 => out.append("bvec4"),
            Ty::Ivec2 => out.append("ivec2"),
            Ty::Ivec3 => out.append("ivec3"),
            Ty::Ivec4 => out.append("ivec4"),
            Ty::Vec2 => out.append("vec2"),
            Ty::Vec3 => out.append("vec3"),
            Ty::Vec4 => out.append("vec4"),
            Ty::Mat2 => out.append("mat2"),
            Ty::Mat3 => out.append("mat3"),
            Ty::Mat4 => out.append("mat4"),
            Ty::Array { elem_ty, len } => {
                elem_ty.write_text(names, out);
                out.append("[");
                write_decimal(*len, out);
                out.append("]");
                proof {
                    let elem = ty_text(**elem_ty, names.entries@);
                    assert(((old(out)@ + elem + "["@) + decimal(*len as nat)) + "]"@ =~= old(out)@
                        + (elem + "["@ + decimal(*len as nat) + "]"@));
                }
            },
            Ty::Struct { ident } => match names.name_of(ident.0) {
                Some(name) => out.append(name.as_str()),
                None => write_hex(ident.0.0, out),
            },
        }
    }
}

/// The character of a digit below sixteen.
pub open spec fn digit_char(d: nat) -> char {
    if d == 0 {
        '0'
    } else if d == 1 {
        '1'
    } else if d == 2 {
        '2'
    } else if d == 3 {
        '3'
    } else if d == 4 {
        '4'
    } else if d == 5 {
        '5'
    } else if d == 6 {
        '6'
    } else if d == 7 {
        '7'
    } else if d == 8 {
        '8'
    } else if d == 9 {
        '9'
    } else if d == 10 {
        'a'
    } else if d == 11 {
        'b'
    } else if d == 12 {
        'c'
    } else if d == 13 {
        'd'
    } else if d == 14 {
        'e'
    } else {
        'f'
    }
}

/// A number in decimal digits, without leading zeros.
pub open spec fn decimal(n: nat) -> Seq<char>
    decreases n,
{
    if n < 10 {
        seq![digit_char(n)]
    } else {
        decimal(n / 10) + seq![digit_char(n % 10)]
    }
}

/// The last `count` digits of a number in hexadecimal, with leading zeros
/// where the number has fewer.
pub open spec fn hex_digits(v: nat, count: nat) -> Seq<char>
    decreases count,
{
    if count == 0 {
        Seq::empty()
    } else {
        hex_digits(v / 16, (count - 1) as nat) + seq![digit_char(v % 16)]
    }
}

/// A number in sixteen hexadecimal digits.
pub open spec fn hex16(v: u64) -> Seq<char> {
    hex_digits(v as nat, 16)
}

/// A type as the shading language writes it: a plain type by its word, an
/// array as the type of its items and its length in square brackets, and a
/// struct type by the name that its id was made from, or by the id in
/// sixteen hexadecimal digits where no name is known.
pub open spec fn ty_text(ty: Ty, names: Seq<LiveIdName>) -> Seq<char>
    decreases ty,
{
    match ty {
        Ty::Void => "void"@,
        Ty::Bool => "bool"@,
        Ty::Int => "int"@,
        Ty::Float => "float"@,
        Ty::Bvec2 => "bvec2"@,
        Ty::Bvec3 => "bvec3"@,
        Ty::Bvec4 => "bvec4"@,
        Ty::Ivec2 => "ivec2"@,
        Ty::Ivec3 => "ivec3"@,
        Ty::Ivec4 => "ivec4"@,
        Ty::Vec2 => "vec2"@,
        Ty::Vec3 => "vec3"@,
        Ty::Vec4 => "vec4"@,
        Ty::Mat2 => "mat2"@,
        Ty::Mat3 => "mat3"@,
        Ty::Mat4 => "mat4"@,
        Ty::Array { elem_ty, len } => ty_text(*elem_ty, names) + "["@ + decimal(len as nat) + "]"@,
        Ty::Struct { ident } => match name_in(names, 0, ident.0) {
            Some(name) => name,
            None => hex16(ident.0.0),
        },
    }
}

fn digit_text(d: u64) -> (r: &'static str)
    requires
        d < 16,
    ensures
        r@ == seq![digit_char(d as nat)],
{
    proof {
        reveal_strlit("0");
        reveal_strlit("1");
        reveal_strlit("2");
        reveal_strlit("3");
        reveal_strlit("4");
        reveal_strlit("5");
        reveal_strlit("6");
        reveal_strlit("7");
        reveal_strlit("8");
        reveal_strlit("9");
        reveal_strlit("a");
        reveal_strlit("b");
        reveal_strlit("c");
        reveal_strlit("d");
        reveal_strlit("e");
        reveal_strlit("f");
    }
    let r = if d == 0 {
        "0"
    } else if d == 1 {
        "1"
    } else if d == 2 {
        "2"
    } else if d == 3 {
        "3"
    } else if d == 4 {
        "4"
    } else if d == 5 {
        "5"
    } else if d == 6 {
        "6"
    } else if d == 7 {
        "7"
    } else if d == 8 {
        "8"
    } else if d == 9 {
        "9"
    } else if d == 10 {
        "a"
    } else if d == 11 {
        "b"
    } else if d == 12 {
        "c"
    } else if d == 13 {
        "d"
    } else if d == 14 {
        "e"
    } else {
        "f"
    };
    proof {
        assert(r@ =~= seq![digit_char(d as nat)]);
    }
    r
}

fn write_decimal(n: usize, out: &mut String)
    ensures
        final(out)@ == old(out)@ + decimal(n as nat),
    decreases n,
{
    if n >= 10 {
        write_decimal(n / 10, out);
        out.append(digit_text((n % 10) as u64));
        proof {
            assert((old(out)@ + decimal((n / 10) as nat)) + seq![digit_char((n % 10) as nat)]
                =~= old(out)@ + (decimal((n / 10) as nat) + seq![digit_char((n % 10) as nat)]));
        }
    } else {
        out.append(digit_text(n as u64));
    }
}

fn write_hex_digits(v: u64, count: u8, out: &mut String)
    ensures
        final(out)@ == old(out)@ + hex_digits(v as nat, count as nat),
    decreases count,
{
    if count > 0 {
        write_hex_digits(v / 16, count - 1, out);
        out.append(digit_text(v % 16));
        proof {
            let front = hex_digits((v / 16) as nat, (count - 1) as nat);
            assert((old(out)@ + front) + seq![digit_char((v % 16) as nat)] =~= old(out)@ + (front
                + seq![digit_char((v % 16) as nat)]));
        }
    } else {
        proof {
            assert(old(out)@ + Seq::<char>::empty() =~= old(out)@);
        }
    }
}

fn write_hex(v: u64, out: &mut String)
    ensures
        final(out)@ == old(out)@ + hex16(v),
{
    write_hex_digits(v, 16, out);
}

} // verus!
