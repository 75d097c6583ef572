//! String codec: length-prefixed UTF-8 in two framings.
//!
//! The short framing prefixes the text's UTF-8 bytes with their count
//! as a 16-bit big-endian integer, so a string of more than 65535
//! bytes is rejected rather than silently truncated. The VarInt
//! framing is the same with a VarInt length prefix, offered as a
//! general primitive.

use vstd::prelude::*;

use vstd::string::StrSliceExecFns;
use vstd::utf8::decode_utf8;
use vstd::utf8::encode_utf8;
use vstd::utf8::encode_utf8_decode_utf8;
use vstd::utf8::encode_utf8_valid_utf8;
use vstd::utf8::valid_utf8;

use crate::binary::be16;
use crate::binary::de16;
use crate::binary::lemma_u16_round_trip;
use crate::binary::StreamPeerBuffer;
use crate::errors::CodecError;
use crate::varint::lemma_var_int_round_trip;
use crate::varint::trunc32;
use crate::varint::var_parse;
use crate::varint::vi_enc;
use crate::varint::VarParse;

verus! {

/// The short framing of a payload: a 16-bit big-endian byte count,
/// then the payload bytes themselves.
pub open spec fn str_short_enc(b: Seq<u8>) -> Seq<u8>
    recommends
        b.len() <= 0xffff,
{
    be16(b.len() as u16) + b
}

/// The VarInt framing of a payload: the byte count as a VarInt, then
/// the payload bytes themselves.
pub open spec fn str_var_enc(b: Seq<u8>) -> Seq<u8>
    recommends
        b.len() <= 0xffff_ffff,
{
    vi_enc(b.len()) + b
}

/// Reads a short-framed string from the front of `s`: the decoded
/// text and the bytes consumed, or the error a reader must report.
pub open spec fn str_short_parse(s: Seq<u8>) -> Result<(Seq<char>, nat), CodecError> {
    if s.len() < 2 {
        Err(CodecError::Underflow)
    } else {
        let l = de16(s) as int;
        if s.len() < 2 + l {
            Err(CodecError::Underflow)
        } else if !valid_utf8(s.subrange(2, 2 + l)) {
            Err(CodecError::InvalidEncoding)
        } else {
            Ok((decode_utf8(s.subrange(2, 2 + l)), (2 + l) as nat))
        }
    }
}

/// Reads a VarInt-framed string from the front of `s`: the decoded
/// text and the bytes consumed, or the error a reader must report.
pub open spec fn str_var_parse(s: Seq<u8>) -> Result<(Seq<char>, nat), CodecError> {
    match var_parse(s, 5) {
        VarParse::Val { value, used } => {
            let l = trunc32(value) as int;
            if s.len() < used + l {
                Err(CodecError::Underflow)
            } else if !valid_utf8(s.subrange(used as int, used as int + l)) {
                Err(CodecError::InvalidEncoding)
            } else {
                Ok((decode_utf8(s.subrange(used as int, used as int + l)), (used + l) as nat))
            }
        },
        VarParse::Short => Err(CodecError::Underflow),
        VarParse::TooLong => Err(CodecError::Overflow),
    }
}

/// The UTF-8 bytes of a string, as a fresh vector.
fn string_bytes(s: &String) -> (r: Vec<u8>)
    ensures
        r@ == encode_utf8(s@),
{
    s.as_str().as_bytes_vec()
}

/// Relies on `String::from_utf8`: it accepts exactly the byte
/// sequences that are valid UTF-8, and returns the string those bytes
/// spell.
#[verifier::external_body]
fn bytes_to_string(v: Vec<u8>) -> (r: Option<String>)
    ensures
        r is Some <==> valid_utf8(v@),
        r matches Some(s) ==> s@ == decode_utf8(v@),
{
    String::from_utf8(v).ok()
}

/// Round trip for the short framing: any text whose UTF-8 takes at
/// most 65535 bytes parses back, unmodified and untruncated, from its
/// own framing placed in front of any trailing bytes.
pub proof fn lemma_string_short_round_trip(text: Seq<char>, rest: Seq<u8>)
    requires
        encode_utf8(text).len() <= 0xffff,
    ensures
        str_short_parse(str_short_enc(encode_utf8(text)) + rest) == Ok::<
            (Seq<char>, nat),
            CodecError,
        >((text, (2 + encode_utf8(text).len()) as nat)),
{
    broadcast use encode_utf8_valid_utf8;
    broadcast use encode_utf8_decode_utf8;

    let b = encode_utf8(text);
    let s = str_short_enc(b) + rest;
    let l = b.len() as u16;
    lemma_u16_round_trip(l);
    assert(s[0] == be16(l)[0] && s[1] == be16(l)[1]);
    assert(de16(s) == de16(be16(l)));
    assert(s.subrange(2, 2 + b.len() as int) =~= b);
}

/// Round trip for the VarInt framing: any text whose UTF-8 fits the
/// 32-bit length prefix parses back, unmodified and untruncated, from
/// its own framing placed in front of any trailing bytes.
pub proof fn lemma_string_var_round_trip(text: Seq<char>, rest: Seq<u8>)
    requires
        encode_utf8(text).len() <= 0xffff_ffff,
    ensures
        str_var_parse(str_var_enc(encode_utf8(text)) + rest) == Ok::<
            (Seq<char>, nat),
            CodecError,
        >((text, (vi_enc(encode_utf8(text).len()).len() + encode_utf8(text).len()) as nat)),
{
    broadcast use encode_utf8_valid_utf8;
    broadcast use encode_utf8_decode_utf8;

    let b = encode_utf8(text);
    let l = b.len() as u32;
    lemma_var_int_round_trip(l, b + rest);
    let s = str_var_enc(b) + rest;
    assert(s =~= vi_enc(l as nat) + (b + rest));
    let used = vi_enc(l as nat).len();
    assert(s.subrange(used as int, used as int + b.len() as int) =~= b);
}

impl StreamPeerBuffer {
    /// Appends a string in the short framing: a 16-bit big-endian byte
    /// count, then the UTF-8 bytes. A string of more than 65535 UTF-8
    /// bytes is rejected with `Overflow` and nothing is written.
    pub fn put_utf8(&mut self, value: String) -> (r: Result<(), CodecError>)
        ensures
            encode_utf8(value@).len() <= 0xffff ==> (r == Ok::<(), CodecError>(()) && final(self).bytes() == old(self).bytes() + str_short_enc(encode_utf8(value@))),
            encode_utf8(value@).len() > 0xffff ==> (r == Err::<(), CodecError>(
                CodecError::Overflow,
            ) && final(self).bytes() == old(self).bytes()),
            final(self).cursor() == old(self).cursor(),
    {
        let bytes = string_bytes(&value);
        if bytes.len() > 0xffff {
            return Err(CodecError::Overflow);
        }
        self.put_u16(bytes.len() as u16);
        self.put_bytes(&bytes);
        proof {
            assert(self.bytes() =~= old(self).bytes() + str_short_enc(encode_utf8(value@)));
        }
        Ok(())
    }

    /// Appends a string in the VarInt framing: the UTF-8 byte count as
    /// a VarInt, then the UTF-8 bytes. A string whose byte count does
    /// not fit 32 bits is rejected with `Overflow` and nothing is
    /// written.
    pub fn put_utf8_var(&mut self, value: String) -> (r: Result<(), CodecError>)
        ensures
            encode_utf8(value@).len() <= 0xffff_ffff ==> (r == Ok::<(), CodecError>(()) && final(self).bytes() == old(self).bytes() + str_var_enc(encode_utf8(value@))),
            encode_utf8(value@).len() > 0xffff_ffff ==> (r == Err::<(), CodecError>(
                CodecError::Overflow,
            ) && final(self).bytes() == old(self).bytes()),
            final(self).cursor() == old(self).cursor(),
    {
        let bytes = string_bytes(&value);
        if bytes.len() > 0xffff_ffff {
            return Err(CodecError::Overflow);
        }
        self.put_var_int(bytes.len() as u32);
        self.put_bytes(&bytes);
        proof {
            assert(self.bytes() =~= old(self).bytes() + str_var_enc(encode_utf8(value@)));
        }
        Ok(())
    }

    /// Reads a short-framed string. Reports `Underflow` when the
    /// prefix or the announced bytes are missing and `InvalidEncoding`
    /// when the bytes are not UTF-8; only a successful read moves the
    /// cursor.
    pub fn get_utf8(&mut self) -> (r: Result<String, CodecError>)
        requires
            old(self).wf(),
        ensures
            final(self).bytes() == old(self).bytes(),
            final(self).wf(),
            match str_short_parse(old(self).rest()) {
                Ok((text, used)) => (r matches Ok(s) && s@ == text && final(self).cursor() == old(self).cursor() + used),
                Err(e) => r == Err::<String, CodecError>(e) && final(self).cursor() == old(self).cursor(),
            },
    {
        let l = match self.get_u16() {
            Ok(l) => l,
            Err(e) => {
                return Err(e);
            },
        };
        let buf = match self.get_bytes(l as usize) {
            Ok(b) => b,
            Err(e) => {
                self.rewind(2);
                return Err(e);
            },
        };
        proof {
            assert(buf@ =~= old(self).rest().subrange(2, 2 + l as int));
        }
        match bytes_to_string(buf) {
            Some(s) => Ok(s),
            None => {
                self.rewind(2 + l as usize);
                Err(CodecError::InvalidEncoding)
            },
        }
    }

    /// Reads a VarInt-framed string. Reports `Underflow` when the
    /// prefix or the announced bytes are missing, `Overflow` when the
    /// length prefix itself overruns, and `InvalidEncoding` when the
    /// bytes are not UTF-8; only a successful read moves the cursor.
    pub fn get_utf8_var(&mut self) -> (r: Result<String, CodecError>)
        requires
            old(self).wf(),
        ensures
            final(self).bytes() == old(self).bytes(),
            final(self).wf(),
            match str_var_parse(old(self).rest()) {
                Ok((text, used)) => (r matches Ok(s) && s@ == text && final(self).cursor() == old(self).cursor() + used),
                Err(e) => r == Err::<String, CodecError>(e) && final(self).cursor() == old(self).cursor(),
            },
    {
        let start = self.position();
        let l = match self.get_var_int() {
            Ok(l) => l,
            Err(e) => {
                return Err(e);
            },
        };
        let used = self.position() - start;
        let buf = match self.get_bytes(l as usize) {
            Ok(b) => b,
            Err(e) => {
                self.rewind(used);
                return Err(e);
            },
        };
        proof {
            assert(buf@ =~= old(self).rest().subrange(
                used as int,
                used as int + l as int,
            ));
        }
        match bytes_to_string(buf) {
            Some(s) => Ok(s),
            None => {
                proof {
                    self.lemma_cursor_fits();
                    assert(used as int + l as int <= self.cursor());
                }
                self.rewind(used + l as usize);
                Err(CodecError::InvalidEncoding)
            },
        }
    }
}

} // verus!
