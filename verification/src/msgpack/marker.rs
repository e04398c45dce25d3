//! The first byte of every MessagePack token.

use crate::decimal::{int_chars, push_int};
use vstd::prelude::*;

verus! {

/// The kind of a token, with the bits that the first byte carries besides it.
#[derive(Clone, Copy, Debug, PartialEq, Eq, Structural)]
pub enum Marker {
    FixPos(u8),
    FixNeg(i8),
    Null,
    True,
    False,
    U8,
    U16,
    U32,
    U64,
    I8,
    I16,
    I32,
    I64,
    F32,
    F64,
    FixStr(u8),
    Str8,
    Str16,
    Str32,
    Bin8,
    Bin16,
    Bin32,
    FixArray(u8),
    Array16,
    Array32,
    FixMap(u8),
    Map16,
    Map32,
    FixExt1,
    FixExt2,
    FixExt4,
    FixExt8,
    FixExt16,
    Ext8,
    Ext16,
    Ext32,
    Reserved,
}

impl Marker {
    /// The marker that the byte `n` stands for.
    pub open spec fn of_byte(n: u8) -> Marker {
        if n < 0x80 {
            Marker::FixPos(n)
        } else if n < 0x90 {
            Marker::FixMap((n - 0x80) as u8)
        } else if n < 0xa0 {
            Marker::FixArray((n - 0x90) as u8)
        } else if n < 0xc0 {
            Marker::FixStr((n - 0xa0) as u8)
        } else if n == 0xc0 {
            Marker::Null
        } else if n == 0xc1 {
            Marker::Reserved
        } else if n == 0xc2 {
            Marker::False
        } else if n == 0xc3 {
            Marker::True
        } else if n == 0xc4 {
            Marker::Bin8
        } else if n == 0xc5 {
            Marker::Bin16
        } else if n == 0xc6 {
            Marker::Bin32
        } else if n == 0xc7 {
            Marker::Ext8
        } else if n == 0xc8 {
            Marker::Ext16
        } else if n == 0xc9 {
            Marker::Ext32
        } else if n == 0xca {
            Marker::F32
        } else if n == 0xcb {
            Marker::F64
        } else if n == 0xcc {
            Marker::U8
        } else if n == 0xcd {
            Marker::U16
        } else if n == 0xce {
            Marker::U32
        } else if n == 0xcf {
            Marker::U64
        } else if n == 0xd0 {
            Marker::I8
        } else if n == 0xd1 {
            Marker::I16
        } else if n == 0xd2 {
            Marker::I32
        } else if n == 0xd3 {
            Marker::I64
        } else if n == 0xd4 {
            Marker::FixExt1
        } else if n == 0xd5 {
            Marker::FixExt2
        } else if n == 0xd6 {
            Marker::FixExt4
        } else if n == 0xd7 {
            Marker::FixExt8
        } else if n == 0xd8 {
            Marker::FixExt16
        } else if n == 0xd9 {
            Marker::Str8
        } else if n == 0xda {
            Marker::Str16
        } else if n == 0xdb {
            Marker::Str32
        } else if n == 0xdc {
            Marker::Array16
        } else if n == 0xdd {
            Marker::Array32
        } else if n == 0xde {
            Marker::Map16
        } else if n == 0xdf {
            Marker::Map32
        } else {
            Marker::FixNeg((n - 256) as i8)
        }
    }

    /// The byte that stands for this marker. A count that is too wide for
    /// its marker keeps its low bits only; a positive fixed integer is taken
    /// as it is.
    pub open spec fn byte(self) -> u8 {
        match self {
            Marker::FixPos(val) => val,
            Marker::FixNeg(val) => if val < 0 {
                (val + 256) as u8
            } else {
                val as u8
            },
            Marker::Null => 0xc0,
            Marker::True => 0xc3,
            Marker::False => 0xc2,
            Marker::U8 => 0xcc,
            Marker::U16 => 0xcd,
            Marker::U32 => 0xce,
            Marker::U64 => 0xcf,
            Marker::I8 => 0xd0,
            Marker::I16 => 0xd1,
            Marker::I32 => 0xd2,
            Marker::I64 => 0xd3,
            Marker::F32 => 0xca,
            Marker::F64 => 0xcb,
            Marker::FixStr(len) => (0xa0 + len % 32) as u8,
            Marker::Str8 => 0xd9,
            Marker::Str16 => 0xda,
            Marker::Str32 => 0xdb,
            Marker::Bin8 => 0xc4,
            Marker::Bin16 => 0xc5,
            Marker::Bin32 => 0xc6,
            Marker::FixArray(len) => (0x90 + len % 16) as u8,
            Marker::Array16 => 0xdc,
            Marker::Array32 => 0xdd,
            Marker::FixMap(len) => (0x80 + len % 16) as u8,
            Marker::Map16 => 0xde,
            Marker::Map32 => 0xdf,
            Marker::FixExt1 => 0xd4,
            Marker::FixExt2 => 0xd5,
            Marker::FixExt4 => 0xd6,
            Marker::FixExt8 => 0xd7,
            Marker::FixExt16 => 0xd8,
            Marker::Ext8 => 0xc7,
            Marker::Ext16 => 0xc8,
            Marker::Ext32 => 0xc9,
            Marker::Reserved => 0xc1,
        }
    }

    /// Whether the marker is one that a byte is read as: its count or
    /// value lies in the range that its byte has bits for.
    pub open spec fn canonical(self) -> bool {
        match self {
            Marker::FixPos(val) => val < 0x80,
            Marker::FixNeg(val) => -32 <= val < 0,
            Marker::FixStr(len) => len < 32,
            Marker::FixArray(len) => len < 16,
            Marker::FixMap(len) => len < 16,
            _ => true,
        }
    }

    /// The name of the marker's kind.
    #[verifier::when_used_as_spec(name_spec)]
    pub fn name(&self) -> (s: &'static str)
        ensures
            s == self.name_spec(),
    {
        match self {
            Marker::FixPos(_) => "FixPos",
            Marker::FixNeg(_) => "FixNeg",
            Marker::Null => "Null",
            Marker::True => "True",
            Marker::False => "False",
            Marker::U8 => "U8",
            Marker::U16 => "U16",
            Marker::U32 => "U32",
            Marker::U64 => "U64",
            Marker::I8 => "I8",
            Marker::I16 => "I16",
            Marker::I32 => "I32",
            Marker::I64 => "I64",
            Marker::F32 => "F32",
            Marker::F64 => "F64",
            Marker::FixStr(_) => "FixStr",
            Marker::Str8 => "Str8",
            Marker::Str16 => "Str16",
            Marker::Str32 => "Str32",
            Marker::Bin8 => "Bin8",
            Marker::Bin16 => "Bin16",
            Marker::Bin32 => "Bin32",
            Marker::FixArray(_) => "FixArray",
            Marker::Array16 => "Array16",
            Marker::Array32 => "Array32",
            Marker::FixMap(_) => "FixMap",
            Marker::Map16 => "Map16",
            Marker::Map32 => "Map32",
            Marker::FixExt1 => "FixExt1",
            Marker::FixExt2 => "FixExt2",
            Marker::FixExt4 => "FixExt4",
            Marker::FixExt8 => "FixExt8",
            Marker::FixExt16 => "FixExt16",
            Marker::Ext8 => "Ext8",
            Marker::Ext16 => "Ext16",
            Marker::Ext32 => "Ext32",
            Marker::Reserved => "Reserved",
        }
    }

    /// The name of the marker's kind.
    pub open spec fn name_spec(&self) -> &'static str {
        match self {
            Marker::FixPos(_) => "FixPos",
            Marker::FixNeg(_) => "FixNeg",
            Marker::Null => "Null",
            Marker::True => "True",
            Marker::False => "False",
            Marker::U8 => "U8",
            Marker::U16 => "U16",
            Marker::U32 => "U32",
            Marker::U64 => "U64",
            Marker::I8 => "I8",
            Marker::I16 => "I16",
            Marker::I32 => "I32",
            Marker::I64 => "I64",
            Marker::F32 => "F32",
            Marker::F64 => "F64",
            Marker::FixStr(_) => "FixStr",
            Marker::Str8 => "Str8",
            Marker::Str16 => "Str16",
            Marker::Str32 => "Str32",
            Marker::Bin8 => "Bin8",
            Marker::Bin16 => "Bin16",
            Marker::Bin32 => "Bin32",
            Marker::FixArray(_) => "FixArray",
            Marker::Array16 => "Array16",
            Marker::Array32 => "Array32",
            Marker::FixMap(_) => "FixMap",
            Marker::Map16 => "Map16",
            Marker::Map32 => "Map32",
            Marker::FixExt1 => "FixExt1",
            Marker::FixExt2 => "FixExt2",
            Marker::FixExt4 => "FixExt4",
            Marker::FixExt8 => "FixExt8",
            Marker::FixExt16 => "FixExt16",
            Marker::Ext8 => "Ext8",
            Marker::Ext16 => "Ext16",
            Marker::Ext32 => "Ext32",
            Marker::Reserved => "Reserved",
        }
    }

    /// The number that the first byte carries besides the kind, for the
    /// kinds whose first byte carries one.
    pub open spec fn payload(self) -> Option<int> {
        match self {
            Marker::FixPos(v) => Some(v as int),
            Marker::FixNeg(v) => Some(v as int),
            Marker::FixStr(v) => Some(v as int),
            Marker::FixArray(v) => Some(v as int),
            Marker::FixMap(v) => Some(v as int),
            _ => None,
        }
    }

    /// The marker in words: the name of its kind, and in brackets the
    /// number that its first byte carries, where it carries one.
    pub open spec fn description(self) -> Seq<char> {
        match self.payload() {
            Some(n) => self.name_spec()@ + seq!['('] + int_chars(n) + seq![')'],
            None => self.name_spec()@,
        }
    }

    /// The marker in words.
    pub fn describe(&self) -> (s: String)
        ensures
            s@ == self.description(),
    {
        let mut s = self.name().to_owned();
        let payload: Option<i16> = match self {
            Marker::FixPos(v) => Some(*v as i16),
            Marker::FixNeg(v) => Some(*v as i16),
            Marker::FixStr(v) => Some(*v as i16),
            Marker::FixArray(v) => Some(*v as i16),
            Marker::FixMap(v) => Some(*v as i16),
            _ => None,
        };
        match payload {
            Some(n) => {
                proof {
                    reveal_strlit("(");
                    reveal_strlit(")");
                }
                vstd::string::StringExecFns::append(&mut s, "(");
                push_int(&mut s, n as i64);
                vstd::string::StringExecFns::append(&mut s, ")");
                assert(s@ =~= self.description());
            },
            None => {},
        }
        s
    }

    /// Reads a byte as a marker.
    pub fn from_u8(n: u8) -> (m: Marker)
        ensures
            m == Marker::of_byte(n),
    {
        if n < 0x80 {
            Marker::FixPos(n)
        } else if n < 0x90 {
            Marker::FixMap(n - 0x80)
        } else if n < 0xa0 {
            Marker::FixArray(n - 0x90)
        } else if n < 0xc0 {
            Marker::FixStr(n - 0xa0)
        } else if n >= 0xe0 {
            let low: u8 = n - 0xe0;
            let low: i8 = low as i8;
            Marker::FixNeg(low - 32)
        } else {
            match n {
                0xc0 => Marker::Null,
                0xc1 => Marker::Reserved,
                0xc2 => Marker::False,
                0xc3 => Marker::True,
                0xc4 => Marker::Bin8,
                0xc5 => Marker::Bin16,
                0xc6 => Marker::Bin32,
                0xc7 => Marker::Ext8,
                0xc8 => Marker::Ext16,
                0xc9 => Marker::Ext32,
                0xca => Marker::F32,
                0xcb => Marker::F64,
                0xcc => Marker::U8,
                0xcd => Marker::U16,
                0xce => Marker::U32,
                0xcf => Marker::U64,
                0xd0 => Marker::I8,
                0xd1 => Marker::I16,
                0xd2 => Marker::I32,
                0xd3 => Marker::I64,
                0xd4 => Marker::FixExt1,
                0xd5 => Marker::FixExt2,
                0xd6 => Marker::FixExt4,
                0xd7 => Marker::FixExt8,
                0xd8 => Marker::FixExt16,
                0xd9 => Marker::Str8,
                0xda => Marker::Str16,
                0xdb => Marker::Str32,
                0xdc => Marker::Array16,
                0xdd => Marker::Array32,
                0xde => Marker::Map16,
                _ => Marker::Map32,
            }
        }
    }

    /// The byte of a marker.
    pub fn to_u8(&self) -> (n: u8)
        ensures
            n == self.byte(),
    {
        match *self {
            Marker::FixPos(val) => val,
            Marker::FixNeg(val) => if val < 0 {
                let up: i16 = val as i16 + 256;
                up as u8
            } else {
                val as u8
            },
            Marker::Null => 0xc0,
            Marker::True => 0xc3,
            Marker::False => 0xc2,
            Marker::U8 => 0xcc,
            Marker::U16 => 0xcd,
            Marker::U32 => 0xce,
            Marker::U64 => 0xcf,
            Marker::I8 => 0xd0,
            Marker::I16 => 0xd1,
            Marker::I32 => 0xd2,
            Marker::I64 => 0xd3,
            Marker::F32 => 0xca,
            Marker::F64 => 0xcb,
            Marker::FixStr(len) => 0xa0 + len % 32,
            Marker::Str8 => 0xd9,
            Marker::Str16 => 0xda,
            Marker::Str32 => 0xdb,
            Marker::Bin8 => 0xc4,
            Marker::Bin16 => 0xc5,
            Marker::Bin32 => 0xc6,
            Marker::FixArray(len) => 0x90 + len % 16,
            Marker::Array16 => 0xdc,
            Marker::Array32 => 0xdd,
            Marker::FixMap(len) => 0x80 + len % 16,
            Marker::Map16 => 0xde,
            Marker::Map32 => 0xdf,
            Marker::FixExt1 => 0xd4,
            Marker::FixExt2 => 0xd5,
            Marker::FixExt4 => 0xd6,
            Marker::FixExt8 => 0xd7,
            Marker::FixExt16 => 0xd8,
            Marker::Ext8 => 0xc7,
            Marker::Ext16 => 0xc8,
            Marker::Ext32 => 0xc9,
            Marker::Reserved => 0xc1,
        }
    }
}

/// Every byte is read as a canonical marker, and that marker's byte is the
/// byte that was read.
pub proof fn lemma_byte_round_trip(n: u8)
    ensures
        Marker::of_byte(n).canonical(),
        Marker::of_byte(n).byte() == n,
{
}

/// A canonical marker is the one that its own byte is read as.
pub proof fn lemma_marker_round_trip(m: Marker)
    requires
        m.canonical(),
    ensures
        Marker::of_byte(m.byte()) == m,
{
}

} // verus!
