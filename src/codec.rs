//! The binary form of an instruction stream: a one-byte opcode, then the
//! operands, little-endian. Strings are a `u32` byte length and UTF-8 bytes;
//! jump targets are `u16` instruction indices; numbers are the four bytes of
//! their bit pattern.
use vstd::prelude::*;
use vstd::string::StringSliceAdditionalSpecFns;
use vstd::utf8::{decode_utf8, encode_utf8, encode_utf8_decode_utf8, encode_utf8_valid_utf8, valid_utf8};
use crate::errors::CodecError;
use crate::instructions::{
    code_view, opcode_of, Instr, Instructions, ADD, DIV, EQUAL, GREATER, HALT, JUMP, JUMP_IF_FALSE,
    JUMP_IF_TRUE, LESS, LOAD_VAR, MODULO, MUL, PROCESS_EXIT, PUSH_BOOL, PUSH_NUMB, PUSH_STR,
    READ_INPUT, STORE_VAR, SUB, WRITE, WRITE_LN,
};

verus! {

pub open spec fn u16_le(x: u16) -> Seq<u8> {
    seq![(x & 0xff) as u8, (x >> 8) as u8]
}

pub open spec fn u16_from(b0: u8, b1: u8) -> u16 {
    (b0 as u16) | ((b1 as u16) << 8)
}

pub open spec fn u32_le(x: u32) -> Seq<u8> {
    seq![(x & 0xff) as u8, ((x >> 8) & 0xff) as u8, ((x >> 16) & 0xff) as u8, (x >> 24) as u8]
}

pub open spec fn u32_from(b0: u8, b1: u8, b2: u8, b3: u8) -> u32 {
    (b0 as u32) | ((b1 as u32) << 8) | ((b2 as u32) << 16) | ((b3 as u32) << 24)
}

/// A length-prefixed UTF-8 string.
pub open spec fn string_bytes(s: Seq<char>) -> Seq<u8> {
    u32_le(encode_utf8(s).len() as u32) + encode_utf8(s)
}

/// The bytes of one instruction.
pub open spec fn encode_instr(i: Instr) -> Seq<u8> {
    let op = opcode_of(i);
    match i {
        Instr::LoadVar(s) => seq![op] + string_bytes(s),
        Instr::SaveVar(s) => seq![op] + string_bytes(s),
        Instr::PushString(s) => seq![op] + string_bytes(s),
        Instr::PushBool(b) => seq![op, if b { 1u8 } else { 0u8 }],
        Instr::PushNumber(n) => seq![op] + u32_le(n),
        Instr::Jump(k) => seq![op] + u16_le(k as u16),
        Instr::JumpIfFalse(k) => seq![op] + u16_le(k as u16),
        Instr::JumpIfTrue(k) => seq![op] + u16_le(k as u16),
        _ => seq![op],
    }
}

/// The instruction fits the wire format: a target fits `u16`, a string's byte length `u32`.
pub open spec fn encodable(i: Instr) -> bool {
    match i {
        Instr::LoadVar(s) => encode_utf8(s).len() <= u32::MAX,
        Instr::SaveVar(s) => encode_utf8(s).len() <= u32::MAX,
        Instr::PushString(s) => encode_utf8(s).len() <= u32::MAX,
        Instr::Jump(k) => k <= u16::MAX,
        Instr::JumpIfFalse(k) => k <= u16::MAX,
        Instr::JumpIfTrue(k) => k <= u16::MAX,
        _ => true,
    }
}

/// The stream fits the wire format: at most 65 536 instructions, each encodable.
pub open spec fn wire_fits(code: Seq<Instr>) -> bool {
    code.len() <= 65536 && forall|i: int| 0 <= i < code.len() ==> #[trigger] encodable(code[i])
}

/// The bytes of a stream: its instructions' bytes, concatenated.
pub open spec fn encode_all(code: Seq<Instr>) -> Seq<u8>
    decreases code.len(),
{
    if code.len() == 0 {
        Seq::empty()
    } else {
        encode_instr(code[0]) + encode_all(code.subrange(1, code.len() as int))
    }
}

/// Reads one instruction at `pos` (which is in range): the instruction and
/// the position after it, or the error.
pub open spec fn decode_one(bytes: Seq<u8>, pos: int) -> Result<(Instr, int), CodecError> {
    let op = bytes[pos];
    let len = bytes.len();
    if op == ADD {
        Ok((Instr::Add, pos + 1))
    } else if op == SUB {
        Ok((Instr::Sub, pos + 1))
    } else if op == MUL {
        Ok((Instr::Mul, pos + 1))
    } else if op == DIV {
        Ok((Instr::Div, pos + 1))
    } else if op == MODULO {
        Ok((Instr::Modulo, pos + 1))
    } else if op == GREATER {
        Ok((Instr::GreaterThan, pos + 1))
    } else if op == LESS {
        Ok((Instr::LessThan, pos + 1))
    } else if op == EQUAL {
        Ok((Instr::Equal, pos + 1))
    } else if op == WRITE_LN {
        Ok((Instr::WriteLnLastOnStack, pos + 1))
    } else if op == WRITE {
        Ok((Instr::WriteLastOnStack, pos + 1))
    } else if op == READ_INPUT {
        Ok((Instr::ReadInput, pos + 1))
    } else if op == PROCESS_EXIT {
        Ok((Instr::ProcessExit, pos + 1))
    } else if op == HALT {
        Ok((Instr::Halt, pos + 1))
    } else if op == JUMP || op == JUMP_IF_FALSE || op == JUMP_IF_TRUE {
        if pos + 3 > len {
            Err(CodecError::UnexpectedEndOfStream)
        } else {
            let k = u16_from(bytes[pos + 1], bytes[pos + 2]) as nat;
            let i = if op == JUMP {
                Instr::Jump(k)
            } else if op == JUMP_IF_FALSE {
                Instr::JumpIfFalse(k)
            } else {
                Instr::JumpIfTrue(k)
            };
            Ok((i, pos + 3))
        }
    } else if op == PUSH_BOOL {
        if pos + 2 > len {
            Err(CodecError::UnexpectedEndOfStream)
        } else if bytes[pos + 1] == 0 {
            Ok((Instr::PushBool(false), pos + 2))
        } else if bytes[pos + 1] == 1 {
            Ok((Instr::PushBool(true), pos + 2))
        } else {
            Err(CodecError::InvalidBoolEncoding)
        }
    } else if op == PUSH_NUMB {
        if pos + 5 > len {
            Err(CodecError::UnexpectedEndOfStream)
        } else {
            Ok(
                (
                    Instr::PushNumber(
                        u32_from(bytes[pos + 1], bytes[pos + 2], bytes[pos + 3], bytes[pos + 4]),
                    ),
                    pos + 5,
                ),
            )
        }
    } else if op == PUSH_STR || op == LOAD_VAR || op == STORE_VAR {
        if pos + 5 > len {
            Err(CodecError::UnexpectedEndOfStream)
        } else {
            let n = u32_from(bytes[pos + 1], bytes[pos + 2], bytes[pos + 3], bytes[pos + 4]) as int;
            if pos + 5 + n > len {
                Err(CodecError::UnexpectedEndOfStream)
            } else {
                let raw = bytes.subrange(pos + 5, pos + 5 + n);
                if !valid_utf8(raw) {
                    Err(CodecError::InvalidUtf8)
                } else {
                    let s = decode_utf8(raw);
                    let i = if op == PUSH_STR {
                        Instr::PushString(s)
                    } else if op == LOAD_VAR {
                        Instr::LoadVar(s)
                    } else {
                        Instr::SaveVar(s)
                    };
                    Ok((i, pos + 5 + n))
                }
            }
        }
    } else {
        Err(CodecError::UnknownOpcode { opcode: op, position: pos as usize })
    }
}

/// Decodes the bytes from `pos` to the end; the first error wins.
pub open spec fn decode_from(bytes: Seq<u8>, pos: int) -> Result<Seq<Instr>, CodecError>
    decreases bytes.len() - pos,
{
    if pos < 0 || pos >= bytes.len() {
        Ok(Seq::empty())
    } else {
        match decode_one(bytes, pos) {
            Err(e) => Err(e),
            Ok((i, next)) => match decode_from(bytes, next) {
                Ok(rest) => Ok(seq![i] + rest),
                Err(e) => Err(e),
            },
        }
    }
}

/// Decodes a whole byte stream.
pub open spec fn decode_all(bytes: Seq<u8>) -> Result<Seq<Instr>, CodecError> {
    decode_from(bytes, 0)
}

/// Appending one instruction to a stream appends its bytes.
pub proof fn lemma_encode_push(code: Seq<Instr>, i: Instr)
    ensures
        encode_all(code.push(i)) == encode_all(code) + encode_instr(i),
    decreases code.len(),
{
    if code.len() == 0 {
        let q = code.push(i);
        assert(q.subrange(1, q.len() as int) =~= Seq::<Instr>::empty());
        assert(encode_all(q.subrange(1, q.len() as int)) == Seq::<u8>::empty());
        assert(encode_all(code) == Seq::<u8>::empty());
        assert(encode_all(q) =~= encode_all(code) + encode_instr(i));
    } else {
        let rest = code.subrange(1, code.len() as int);
        assert(code.push(i).subrange(1, code.len() + 1 as int) =~= rest.push(i));
        lemma_encode_push(rest, i);
        assert(encode_all(code.push(i)) =~= encode_all(code) + encode_instr(i));
    }
}

/// Decoding the bytes of an encodable instruction, wherever they stand, gives
/// it back, with the position after its bytes.
pub proof fn lemma_decode_one_encoded(prefix: Seq<u8>, i: Instr, suffix: Seq<u8>)
    requires
        encodable(i),
    ensures
        decode_one(prefix + encode_instr(i) + suffix, prefix.len() as int) == Ok::<
            (Instr, int),
            CodecError,
        >((i, (prefix.len() + encode_instr(i).len()) as int)),
{
    let b = prefix + encode_instr(i) + suffix;
    let p = prefix.len() as int;
    let e = encode_instr(i);
    assert(b[p] == e[0]);
    assert forall|j: int| 0 <= j < e.len() implies #[trigger] b[p + j] == e[j] by {}
    match i {
        Instr::Jump(k) | Instr::JumpIfFalse(k) | Instr::JumpIfTrue(k) => {
            let x = k as u16;
            assert(b[p + 1] == e[1] && b[p + 2] == e[2]);
            assert(((((x & 0xff) as u8) as u16) | ((((x >> 8) as u8) as u16) << 8)) == x) by (bit_vector);
        },
        Instr::PushNumber(x) => {
            assert(b[p + 1] == e[1] && b[p + 2] == e[2] && b[p + 3] == e[3] && b[p + 4] == e[4]);
            assert(((((x & 0xff) as u8) as u32) | (((((x >> 8) & 0xff) as u8) as u32) << 8) | (((((
            x >> 16) & 0xff) as u8) as u32) << 16) | ((((x >> 24) as u8) as u32) << 24)) == x)
                by (bit_vector);
        },
        Instr::PushBool(v) => {
            assert(b[p + 1] == e[1]);
        },
        Instr::LoadVar(s) | Instr::SaveVar(s) | Instr::PushString(s) => {
            let raw = encode_utf8(s);
            let x = raw.len() as u32;
            assert(b[p + 1] == e[1] && b[p + 2] == e[2] && b[p + 3] == e[3] && b[p + 4] == e[4]);
            assert(((((x & 0xff) as u8) as u32) | (((((x >> 8) & 0xff) as u8) as u32) << 8) | (((((
            x >> 16) & 0xff) as u8) as u32) << 16) | ((((x >> 24) as u8) as u32) << 24)) == x)
                by (bit_vector);
            assert(b.subrange(p + 5, p + 5 + raw.len()) =~= raw);
            encode_utf8_valid_utf8(s);
            encode_utf8_decode_utf8(s);
        },
        _ => {},
    }
}

/// Decoding the bytes of a stream of encodable instructions, placed after any
/// prefix, gives the stream back.
pub proof fn lemma_decode_encoded(prefix: Seq<u8>, code: Seq<Instr>)
    requires
        forall|i: int| 0 <= i < code.len() ==> #[trigger] encodable(code[i]),
    ensures
        decode_from(prefix + encode_all(code), prefix.len() as int) == Ok::<Seq<Instr>, CodecError>(
            code,
        ),
    decreases code.len(),
{
    if code.len() == 0 {
        assert(prefix + encode_all(code) =~= prefix);
        assert(code =~= Seq::<Instr>::empty());
    } else {
        let rest = code.subrange(1, code.len() as int);
        let e = encode_instr(code[0]);
        assert(encodable(code[0]));
        lemma_decode_one_encoded(prefix, code[0], encode_all(rest));
        assert(prefix + encode_all(code) =~= prefix + e + encode_all(rest));
        assert(prefix + e + encode_all(rest) =~= (prefix + e) + encode_all(rest));
        assert forall|i: int| 0 <= i < rest.len() implies #[trigger] encodable(rest[i]) by {
            assert(rest[i] == code[i + 1]);
        }
        lemma_decode_encoded(prefix + e, rest);
        assert(seq![code[0]] + rest =~= code);
    }
}

/// Round trip: decoding the encoding of a stream that fits the wire format gives the stream.
pub proof fn lemma_codec_round_trip(code: Seq<Instr>)
    requires
        wire_fits(code),
    ensures
        decode_all(encode_all(code)) == Ok::<Seq<Instr>, CodecError>(code),
{
    lemma_decode_encoded(Seq::empty(), code);
    assert(Seq::<u8>::empty() + encode_all(code) =~= encode_all(code));
}

fn push_u16_le(out: &mut Vec<u8>, x: u16)
    ensures
        final(out)@ == old(out)@ + u16_le(x),
{
    out.push((x & 0xff) as u8);
    out.push((x >> 8) as u8);
    assert(out@ =~= old(out)@ + u16_le(x));
}

fn push_u32_le(out: &mut Vec<u8>, x: u32)
    ensures
        final(out)@ == old(out)@ + u32_le(x),
{
    out.push((x & 0xff) as u8);
    out.push(((x >> 8) & 0xff) as u8);
    out.push(((x >> 16) & 0xff) as u8);
    out.push((x >> 24) as u8);
    assert(out@ =~= old(out)@ + u32_le(x));
}

/// Appends a length-prefixed string; false, with nothing appended, where its
/// byte length does not fit `u32`.
fn push_string(out: &mut Vec<u8>, s: &String) -> (r: bool)
    ensures
        r == (encode_utf8(s@).len() <= u32::MAX),
        r ==> final(out)@ == old(out)@ + string_bytes(s@),
        !r ==> final(out)@ == old(out)@,
{
    let bytes = s.as_str().as_bytes();
    assert(bytes@ == encode_utf8(s@));
    if bytes.len() > 0xffff_ffffusize {
        return false;
    }
    push_u32_le(out, bytes.len() as u32);
    let ghost mid = out@;
    let mut i: usize = 0;
    while i < bytes.len()
        invariant
            i <= bytes@.len(),
            out@ == mid + bytes@.subrange(0, i as int),
        decreases bytes@.len() - i,
    {
        out.push(bytes[i]);
        assert(out@ =~= mid + bytes@.subrange(0, i + 1));
        i = i + 1;
    }
    assert(bytes@.subrange(0, bytes@.len() as int) =~= bytes@);
    assert(out@ =~= old(out)@ + string_bytes(s@));
    true
}

/// Appends the bytes of one instruction; false, with nothing appended, where
/// it does not fit the wire format.
fn write_instr(out: &mut Vec<u8>, ins: &Instructions) -> (r: bool)
    ensures
        r == encodable(ins@),
        r ==> final(out)@ == old(out)@ + encode_instr(ins@),
{
    let op = ins.opcode();
    match ins {
        Instructions::LoadVar(s) | Instructions::SaveVar(s) | Instructions::PushString(s) => {
            let mut tail: Vec<u8> = Vec::new();
            if !push_string(&mut tail, s) {
                return false;
            }
            out.push(op);
            out.append(&mut tail);
            assert(out@ =~= old(out)@ + encode_instr(ins@));
        },
        Instructions::Jump(k) | Instructions::JumpIfFalse(k) | Instructions::JumpIfTrue(k) => {
            if *k > 0xffffusize {
                return false;
            }
            out.push(op);
            push_u16_le(out, *k as u16);
            assert(out@ =~= old(out)@ + encode_instr(ins@));
        },
        Instructions::PushBool(b) => {
            out.push(op);
            out.push(if *b { 1u8 } else { 0u8 });
            assert(out@ =~= old(out)@ + encode_instr(ins@));
        },
        Instructions::PushNumber(n) => {
            out.push(op);
            push_u32_le(out, *n);
            assert(out@ =~= old(out)@ + encode_instr(ins@));
        },
        _ => {
            out.push(op);
            assert(out@ =~= old(out)@ + encode_instr(ins@));
        },
    }
    true
}

/// Encodes an instruction stream; `ProgramTooLarge` exactly where it does not fit the wire format.
pub fn encode(code: &Vec<Instructions>) -> (r: Result<Vec<u8>, CodecError>)
    ensures
        match r {
            Ok(bytes) => wire_fits(code_view(code@)) && bytes@ == encode_all(code_view(code@)),
            Err(e) => !wire_fits(code_view(code@)) && e == CodecError::ProgramTooLarge,
        },
{
    let ghost cv = code_view(code@);
    if code.len() > 65536 {
        return Err(CodecError::ProgramTooLarge);
    }
    let mut out: Vec<u8> = Vec::new();
    let mut i: usize = 0;
    assert(cv.subrange(0, 0) =~= Seq::<Instr>::empty());
    while i < code.len()
        invariant
            cv == code_view(code@),
            code@.len() <= 65536,
            i <= code@.len(),
            out@ == encode_all(cv.subrange(0, i as int)),
            forall|j: int| 0 <= j < i ==> #[trigger] encodable(cv[j]),
        decreases code@.len() - i,
    {
        if !write_instr(&mut out, &code[i]) {
            assert(!encodable(cv[i as int]));
            return Err(CodecError::ProgramTooLarge);
        }
        proof {
            lemma_encode_push(cv.subrange(0, i as int), cv[i as int]);
            assert(cv.subrange(0, i as int).push(cv[i as int]) =~= cv.subrange(0, i + 1));
        }
        i = i + 1;
    }
    assert(cv.subrange(0, code@.len() as int) =~= cv);
    Ok(out)
}

/// Relies on `std::str::from_utf8`: it accepts exactly the well-formed UTF-8
/// byte sequences, and the string it gives back has the characters they encode.
#[verifier::external_body]
fn utf8_to_string(bytes: &Vec<u8>, start: usize, end: usize) -> (r: Option<String>)
    requires
        start <= end <= bytes@.len(),
    ensures
        r is Some == valid_utf8(bytes@.subrange(start as int, end as int)),
        r matches Some(s) ==> s@ == decode_utf8(bytes@.subrange(start as int, end as int)),
{
    match std::str::from_utf8(&bytes[start..end]) {
        Ok(s) => Some(s.to_string()),
        Err(_) => None,
    }
}

/// Reads an instruction stream from its bytes, front to back.
pub struct BytecodeLoader {
    bytes: Vec<u8>,
    pos: usize,
}

impl BytecodeLoader {
    /// The bytes being read.
    pub closed spec fn data(&self) -> Seq<u8> {
        self.bytes@
    }

    /// The position of the next byte to read.
    pub closed spec fn position(&self) -> int {
        self.pos as int
    }

    /// Decodes a whole byte stream.
    pub fn from_bytes(bytes: Vec<u8>) -> (r: Result<Vec<Instructions>, CodecError>)
        ensures
            match decode_all(bytes@) {
                Ok(code) => r matches Ok(v) && code_view(v@) == code,
                Err(e) => r == Err::<Vec<Instructions>, CodecError>(e),
            },
    {
        let mut loader = BytecodeLoader { bytes, pos: 0 };
        loader.parse()
    }

    fn read_u8(&mut self) -> (r: Result<u8, CodecError>)
        requires
            old(self).pos <= old(self).bytes@.len(),
        ensures
            final(self).bytes == old(self).bytes,
            final(self).pos <= final(self).bytes@.len(),
            r is Err ==> final(self).pos == old(self).pos,
            old(self).pos + 1 <= old(self).bytes@.len() ==> r == Ok::<u8, CodecError>(
                old(self).bytes@[old(self).pos as int],
            ) && final(self).pos == old(self).pos + 1,
            old(self).pos + 1 > old(self).bytes@.len() ==> r == Err::<u8, CodecError>(
                CodecError::UnexpectedEndOfStream,
            ),
    {
        if self.pos >= self.bytes.len() {
            return Err(CodecError::UnexpectedEndOfStream);
        }
        let v = self.bytes[self.pos];
        self.pos = self.pos + 1;
        Ok(v)
    }

    fn read_u16(&mut self) -> (r: Result<u16, CodecError>)
        requires
            old(self).pos <= old(self).bytes@.len(),
        ensures
            final(self).bytes == old(self).bytes,
            final(self).pos <= final(self).bytes@.len(),
            r is Err ==> final(self).pos == old(self).pos,
            old(self).pos + 2 <= old(self).bytes@.len() ==> r == Ok::<u16, CodecError>(
                u16_from(
                    old(self).bytes@[old(self).pos as int],
                    old(self).bytes@[old(self).pos + 1],
                ),
            ) && final(self).pos == old(self).pos + 2,
            old(self).pos + 2 > old(self).bytes@.len() ==> r == Err::<u16, CodecError>(
                CodecError::UnexpectedEndOfStream,
            ),
    {
        if self.bytes.len() - self.pos < 2 {
            return Err(CodecError::UnexpectedEndOfStream);
        }
        let p = self.pos;
        let v = (self.bytes[p] as u16) | ((self.bytes[p + 1] as u16) << 8);
        self.pos = p + 2;
        Ok(v)
    }

    fn read_u32(&mut self) -> (r: Result<u32, CodecError>)
        requires
            old(self).pos <= old(self).bytes@.len(),
        ensures
            final(self).bytes == old(self).bytes,
            final(self).pos <= final(self).bytes@.len(),
            r is Err ==> final(self).pos == old(self).pos,
            old(self).pos + 4 <= old(self).bytes@.len() ==> r == Ok::<u32, CodecError>(
                u32_from(
                    old(self).bytes@[old(self).pos as int],
                    old(self).bytes@[old(self).pos + 1],
                    old(self).bytes@[old(self).pos + 2],
                    old(self).bytes@[old(self).pos + 3],
                ),
            ) && final(self).pos == old(self).pos + 4,
            old(self).pos + 4 > old(self).bytes@.len() ==> r == Err::<u32, CodecError>(
                CodecError::UnexpectedEndOfStream,
            ),
    {
        if self.bytes.len() - self.pos < 4 {
            return Err(CodecError::UnexpectedEndOfStream);
        }
        let p = self.pos;
        let v = (self.bytes[p] as u32) | ((self.bytes[p + 1] as u32) << 8) | ((self.bytes[p
            + 2] as u32) << 16) | ((self.bytes[p + 3] as u32) << 24);
        self.pos = p + 4;
        Ok(v)
    }

    /// Reads `len` bytes of UTF-8.
    fn read_string(&mut self, len: usize) -> (r: Result<String, CodecError>)
        requires
            old(self).pos <= old(self).bytes@.len(),
        ensures
            final(self).bytes == old(self).bytes,
            final(self).pos <= final(self).bytes@.len(),
            r is Err ==> final(self).pos == old(self).pos,
            old(self).pos + len > old(self).bytes@.len() ==> r == Err::<String, CodecError>(
                CodecError::UnexpectedEndOfStream,
            ),
            old(self).pos + len <= old(self).bytes@.len() ==> {
                let raw = old(self).bytes@.subrange(old(self).pos as int, old(self).pos + len);
                if valid_utf8(raw) {
                    r matches Ok(s) && s@ == decode_utf8(raw) && final(self).pos == old(self).pos
                        + len
                } else {
                    r == Err::<String, CodecError>(CodecError::InvalidUtf8)
                }
            },
    {
        if self.bytes.len() - self.pos < len {
            return Err(CodecError::UnexpectedEndOfStream);
        }
        let p = self.pos;
        match utf8_to_string(&self.bytes, p, p + len) {
            Some(s) => {
                self.pos = p + len;
                Ok(s)
            },
            None => Err(CodecError::InvalidUtf8),
        }
    }

    /// Reads one instruction at the current position, which is before the end.
    fn read_instruction(&mut self) -> (r: Result<Instructions, CodecError>)
        requires
            old(self).pos < old(self).bytes@.len(),
        ensures
            final(self).bytes == old(self).bytes,
            final(self).pos <= final(self).bytes@.len(),
            match decode_one(old(self).bytes@, old(self).pos as int) {
                Ok((i, next)) => r matches Ok(ins) && ins@ == i && final(self).pos == next,
                Err(e) => r == Err::<Instructions, CodecError>(e),
            },
    {
        let start = self.pos;
        let opcode = match self.read_u8() {
            Ok(b) => b,
            Err(e) => return Err(e),
        };
        if opcode == ADD {
            Ok(Instructions::Add)
        } else if opcode == SUB {
            Ok(Instructions::Sub)
        } else if opcode == MUL {
            Ok(Instructions::Mul)
        } else if opcode == DIV {
            Ok(Instructions::Div)
        } else if opcode == MODULO {
            Ok(Instructions::Modulo)
        } else if opcode == GREATER {
            Ok(Instructions::GreaterThan)
        } else if opcode == LESS {
            Ok(Instructions::LessThan)
        } else if opcode == EQUAL {
            Ok(Instructions::Equal)
        } else if opcode == WRITE_LN {
            Ok(Instructions::WriteLnLastOnStack)
        } else if opcode == WRITE {
            Ok(Instructions::WriteLastOnStack)
        } else if opcode == READ_INPUT {
            Ok(Instructions::ReadInput)
        } else if opcode == PROCESS_EXIT {
            Ok(Instructions::ProcessExit)
        } else if opcode == HALT {
            Ok(Instructions::Halt)
        } else if opcode == JUMP || opcode == JUMP_IF_FALSE || opcode == JUMP_IF_TRUE {
            let k = match self.read_u16() {
                Ok(k) => k as usize,
                Err(e) => return Err(e),
            };
            if opcode == JUMP {
                Ok(Instructions::Jump(k))
            } else if opcode == JUMP_IF_FALSE {
                Ok(Instructions::JumpIfFalse(k))
            } else {
                Ok(Instructions::JumpIfTrue(k))
            }
        } else if opcode == PUSH_BOOL {
            let b = match self.read_u8() {
                Ok(b) => b,
                Err(e) => return Err(e),
            };
            if b == 0 {
                Ok(Instructions::PushBool(false))
            } else if b == 1 {
                Ok(Instructions::PushBool(true))
            } else {
                Err(CodecError::InvalidBoolEncoding)
            }
        } else if opcode == PUSH_NUMB {
            match self.read_u32() {
                Ok(n) => Ok(Instructions::PushNumber(n)),
                Err(e) => Err(e),
            }
        } else if opcode == PUSH_STR || opcode == LOAD_VAR || opcode == STORE_VAR {
            let n = match self.read_u32() {
                Ok(n) => n as usize,
                Err(e) => return Err(e),
            };
            let s = match self.read_string(n) {
                Ok(s) => s,
                Err(e) => return Err(e),
            };
            if opcode == PUSH_STR {
                Ok(Instructions::PushString(s))
            } else if opcode == LOAD_VAR {
                Ok(Instructions::LoadVar(s))
            } else {
                Ok(Instructions::SaveVar(s))
            }
        } else {
            Err(CodecError::UnknownOpcode { opcode, position: start })
        }
    }

    /// Reads instructions up to the end of the bytes; the first error wins.
    fn parse(&mut self) -> (r: Result<Vec<Instructions>, CodecError>)
        requires
            old(self).pos == 0,
        ensures
            r is Ok ==> final(self).pos == old(self).bytes@.len(),
            match decode_all(old(self).bytes@) {
                Ok(code) => r matches Ok(v) && code_view(v@) == code,
                Err(e) => r == Err::<Vec<Instructions>, CodecError>(e),
            },
    {
        let ghost bytes = self.bytes@;
        let mut instructions: Vec<Instructions> = Vec::new();
        assert(code_view(instructions@) =~= Seq::<Instr>::empty());
        while self.pos < self.bytes.len()
            invariant
                self.bytes@ == bytes,
                bytes == old(self).bytes@,
                self.pos <= bytes.len(),
                decode_all(bytes) == match decode_from(bytes, self.pos as int) {
                    Ok(rest) => Ok(code_view(instructions@) + rest),
                    Err(e) => Err(e),
                },
            decreases bytes.len() - self.pos,
        {
            let ghost before = code_view(instructions@);
            let ghost p = self.pos as int;
            let ins = match self.read_instruction() {
                Ok(ins) => ins,
                Err(e) => {
                    assert(decode_from(bytes, p) == Err::<Seq<Instr>, CodecError>(e));
                    return Err(e);
                },
            };
            instructions.push(ins);
            proof {
                let (i, next) = decode_one(bytes, p)->Ok_0;
                assert(code_view(instructions@) =~= before.push(i));
                if let Ok(rest) = decode_from(bytes, next) {
                    assert(before + (seq![i] + rest) =~= before.push(i) + rest);
                }
            }
        }
        assert(code_view(instructions@) + Seq::<Instr>::empty() =~= code_view(instructions@));
        Ok(instructions)
    }
}

} // verus!
