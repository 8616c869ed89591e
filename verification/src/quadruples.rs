//! Quadruples: the fixed-arity intermediate instructions, their operation
//! codes, and the segmented memory address map shared by the generator and
//! the execution engine.

use vstd::prelude::*;
use crate::numtext::{int_bytes, dec_bytes, push_i32_dec};

verus! {

/// One intermediate instruction: an operation code and up to three
/// address-valued operands. `-1` in a field means "unused".
#[derive(Debug, Clone, Copy, PartialEq, Eq, Structural)]
pub struct Quadruple {
    pub operation: i32,
    pub arg1: i32,
    pub arg2: i32,
    pub result: i32,
}

/// Operation codes for quadruples.
pub struct OpCode;

impl OpCode {
    pub const ASSIGN: i32 = 1;
    pub const ADD: i32 = 4;
    pub const SUB: i32 = 5;
    pub const MULT: i32 = 6;
    pub const DIV: i32 = 7;
    pub const GT: i32 = 8;
    pub const LT: i32 = 9;
    pub const EQ: i32 = 10;
    pub const NEQ: i32 = 11;
    pub const PRINT: i32 = 20;
    pub const GOTO: i32 = 30;
    pub const GOTOF: i32 = 31;
    pub const GOTOT: i32 = 32;
    pub const ERA: i32 = 40;
    pub const PARAM: i32 = 41;
    pub const GOSUB: i32 = 42;
    pub const ENDFUNC: i32 = 43;
    pub const HALT: i32 = 50;
}

/// Base addresses of the disjoint memory segments, one triple of segments
/// (variables, constants, temporaries) per value type. An address's segment
/// is decided by a range test alone. Each segment ends where the next one
/// begins; the topmost segments end at the `..._END` constants, so every
/// address stays below `SEGMENTS_END` and segments never overlap.
pub struct MemoryAddresses;

impl MemoryAddresses {
    pub const INT_START: i32 = 1000;
    pub const FLOAT_START: i32 = 2000;
    pub const BOOL_START: i32 = 3000;
    pub const CTE_INT_START: i32 = 4000;
    pub const CTE_FLOAT_START: i32 = 4500;
    pub const CTE_BOOL_START: i32 = 4800;
    pub const TEMP_INT_START: i32 = 5000;
    pub const TEMP_FLOAT_START: i32 = 6000;
    pub const TEMP_BOOL_START: i32 = 7000;
    pub const TEMP_BOOL_END: i32 = 8000;
    pub const STR_LIT_START: i32 = 9000;
    pub const STR_LIT_END: i32 = 10000;
}

/// The readable name of an operation code, for display.
pub open spec fn op_name(op: i32) -> Seq<char> {
    if op == OpCode::ASSIGN {
        "="@
    } else if op == OpCode::ADD {
        "+"@
    } else if op == OpCode::SUB {
        "-"@
    } else if op == OpCode::MULT {
        "*"@
    } else if op == OpCode::DIV {
        "/"@
    } else if op == OpCode::GT {
        ">"@
    } else if op == OpCode::LT {
        "<"@
    } else if op == OpCode::EQ {
        "=="@
    } else if op == OpCode::NEQ {
        "!="@
    } else if op == OpCode::PRINT {
        "PRINT"@
    } else if op == OpCode::GOTO {
        "GOTO"@
    } else if op == OpCode::GOTOF {
        "GOTOF"@
    } else if op == OpCode::GOTOT {
        "GOTOT"@
    } else if op == OpCode::ERA {
        "ERA"@
    } else if op == OpCode::PARAM {
        "PARAM"@
    } else if op == OpCode::GOSUB {
        "GOSUB"@
    } else if op == OpCode::ENDFUNC {
        "ENDFUNC"@
    } else if op == OpCode::HALT {
        "HALT"@
    } else {
        "UNKNOWN_OP"@
    }
}

impl Quadruple {
    /// Builds a quadruple from its four fields.
    pub fn new(operation: i32, arg1: i32, arg2: i32, result: i32) -> (q: Quadruple)
        ensures
            q.operation == operation,
            q.arg1 == arg1,
            q.arg2 == arg2,
            q.result == result,
    {
        Quadruple { operation, arg1, arg2, result }
    }

    /// Renders the quadruple as `(op, arg1, arg2, result)` with the
    /// operation spelled out, for display.
    pub fn to_string(&self) -> (s: String)
        ensures
            s@ == "("@ + op_name(self.operation) + ", "@ + decimal_chars(self.arg1 as int) + ", "@
                + decimal_chars(self.arg2 as int) + ", "@ + decimal_chars(self.result as int)
                + ")"@,
    {
        let op_str: &str = op_str_of(self.operation);
        let mut s = String::from_str("(");
        s.append(op_str);
        s.append(", ");
        s.append(i32_string(self.arg1).as_str());
        s.append(", ");
        s.append(i32_string(self.arg2).as_str());
        s.append(", ");
        s.append(i32_string(self.result).as_str());
        s.append(")");
        proof {
            reveal_strlit("(");
            reveal_strlit(", ");
            reveal_strlit(")");
        }
        s
    }
}

/// The decimal text of a signed value, as characters; mirrors the byte-level
/// rendering used in the object artifact.
pub open spec fn decimal_chars(i: int) -> Seq<char> {
    int_bytes(i).map_values(|b: u8| b as char)
}

/// The readable name of an operation code, as a string slice.
pub fn op_str_of(op: i32) -> (s: &'static str)
    ensures
        s@ == op_name(op),
{
    proof {
        reveal_strlit("=");
        reveal_strlit("+");
        reveal_strlit("-");
        reveal_strlit("*");
        reveal_strlit("/");
        reveal_strlit(">");
        reveal_strlit("<");
        reveal_strlit("==");
        reveal_strlit("!=");
        reveal_strlit("PRINT");
        reveal_strlit("GOTO");
        reveal_strlit("GOTOF");
        reveal_strlit("GOTOT");
        reveal_strlit("ERA");
        reveal_strlit("PARAM");
        reveal_strlit("GOSUB");
        reveal_strlit("ENDFUNC");
        reveal_strlit("HALT");
        reveal_strlit("UNKNOWN_OP");
    }
    if op == OpCode::ASSIGN {
        "="
    } else if op == OpCode::ADD {
        "+"
    } else if op == OpCode::SUB {
        "-"
    } else if op == OpCode::MULT {
        "*"
    } else if op == OpCode::DIV {
        "/"
    } else if op == OpCode::GT {
        ">"
    } else if op == OpCode::LT {
        "<"
    } else if op == OpCode::EQ {
        "=="
    } else if op == OpCode::NEQ {
        "!="
    } else if op == OpCode::PRINT {
        "PRINT"
    } else if op == OpCode::GOTO {
        "GOTO"
    } else if op == OpCode::GOTOF {
        "GOTOF"
    } else if op == OpCode::GOTOT {
        "GOTOT"
    } else if op == OpCode::ERA {
        "ERA"
    } else if op == OpCode::PARAM {
        "PARAM"
    } else if op == OpCode::GOSUB {
        "GOSUB"
    } else if op == OpCode::ENDFUNC {
        "ENDFUNC"
    } else if op == OpCode::HALT {
        "HALT"
    } else {
        "UNKNOWN_OP"
    }
}

/// The decimal text of a signed value as a `String`.
pub fn i32_string(i: i32) -> (s: String)
    ensures
        s@ == decimal_chars(i as int),
{
    let mut bytes: Vec<u8> = Vec::new();
    push_i32_dec(&mut bytes, i);
    proof {
        if i < 0 {
            crate::numtext::lemma_dec_bytes_digits((-(i as int)) as nat);
        } else {
            crate::numtext::lemma_dec_bytes_digits(i as nat);
        }
        assert forall|k: int| 0 <= k < bytes@.len() implies dec_text_byte(#[trigger] bytes@[k]) by {
            if i < 0 {
                if k > 0 {
                    assert(bytes@[k] == dec_bytes((-(i as int)) as nat)[k - 1]);
                }
            } else {
                assert(bytes@[k] == dec_bytes(i as nat)[k]);
            }
        }
    }
    ascii_bytes_to_string(&bytes)
}

/// Turns decimal-text bytes (digits and the minus sign) into the string of
/// the corresponding characters.
pub fn ascii_bytes_to_string(bytes: &Vec<u8>) -> (s: String)
    requires
        forall|i: int| 0 <= i < bytes@.len() ==> dec_text_byte(#[trigger] bytes@[i]),
    ensures
        s@ == bytes@.map_values(|b: u8| b as char),
{
    let mut s = String::new();
    let mut i: usize = 0;
    proof {
        assert(s@ =~= bytes@.map_values(|b: u8| b as char).take(0));
    }
    while i < bytes.len()
        invariant
            0 <= i <= bytes@.len(),
            forall|j: int| 0 <= j < bytes@.len() ==> dec_text_byte(#[trigger] bytes@[j]),
            s@ == bytes@.map_values(|b: u8| b as char).take(i as int),
        decreases bytes@.len() - i,
    {
        let b = bytes[i];
        let piece: &str = ascii_byte_str(b);
        s.append(piece);
        proof {
            assert(s@ =~= bytes@.map_values(|b: u8| b as char).take(i + 1));
        }
        i = i + 1;
    }
    proof {
        assert(s@ =~= bytes@.map_values(|b: u8| b as char));
    }
    s
}

/// A byte is part of decimal text: a digit or the minus sign.
pub open spec fn dec_text_byte(b: u8) -> bool {
    b == 45 || (48 <= b <= 57)
}

/// The one-character string of a decimal-text byte.
fn ascii_byte_str(b: u8) -> (s: &'static str)
    requires
        dec_text_byte(b),
    ensures
        s@ == seq![b as char],
{
    proof {
        reveal_strlit("0");
        reveal_strlit("1");
        reveal_strlit("2");
        reveal_strlit("3");
        reveal_strlit("4");
        reveal_strlit("5");
        reveal_strlit("6");
        reveal_strlit("7");
        reveal_strlit("8");
        reveal_strlit("9");
        reveal_strlit("-");
        reveal_strlit("?");
    }
    if b == 48 {
        "0"
    } else if b == 49 {
        "1"
    } else if b == 50 {
        "2"
    } else if b == 51 {
        "3"
    } else if b == 52 {
        "4"
    } else if b == 53 {
        "5"
    } else if b == 54 {
        "6"
    } else if b == 55 {
        "7"
    } else if b == 56 {
        "8"
    } else if b == 57 {
        "9"
    } else if b == 45 {
        "-"
    } else {
        "?"
    }
}

} // verus!
