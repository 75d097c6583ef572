//! Variable-length integer codec: VarInt (32-bit) and VarLong (64-bit).
//!
//! A value is emitted seven bits at a time, least-significant group
//! first; every byte except the last carries the continuation flag in
//! its high bit. A VarInt reader consumes at most five bytes and a
//! VarLong reader at most ten; running past that cap is an `Overflow`
//! error, never a silently wrong value.

use vstd::prelude::*;

use vstd::arithmetic::div_mod::lemma_fundamental_div_mod;
use vstd::arithmetic::div_mod::lemma_fundamental_div_mod_converse_mod;
use vstd::arithmetic::div_mod::lemma_mod_mod;

use crate::binary::StreamPeerBuffer;
use crate::errors::CodecError;

verus! {

/// Whether a byte carries the continuation flag (more groups follow).
pub open spec fn vi_cont(b: u8) -> bool {
    b & 0x80 == 0x80
}

/// The seven payload bits of one encoded byte.
pub open spec fn vi_group(b: u8) -> nat {
    (b & 0x7f) as nat
}

/// `128^n`, the weight of the `n`-th seven-bit group.
pub open spec fn p128(n: nat) -> nat
    decreases n,
{
    if n == 0 {
        1
    } else {
        128 * p128((n - 1) as nat)
    }
}

/// The variable-length encoding of `v`: seven bits per byte, least
/// significant group first, high bit set on every byte but the last.
/// The zero value still takes one (zero) byte.
pub open spec fn vi_enc(v: nat) -> Seq<u8>
    decreases v,
{
    if v < 128 {
        seq![v as u8]
    } else {
        seq![((v % 128) + 128) as u8] + vi_enc(v / 128)
    }
}

/// The outcome of reading a variable-length integer from the front of
/// a byte sequence, allowed to consume at most `m` bytes.
pub enum VarParse {
    /// A terminating byte was found: the decoded value and the number
    /// of bytes it occupied.
    Val { value: nat, used: nat },
    /// The bytes ran out before a terminating byte appeared.
    Short,
    /// The first `m` bytes all carry the continuation flag.
    TooLong,
}

/// Reads a variable-length integer from the front of `s`, consuming at
/// most `m` bytes. Groups accumulate least-significant first; the full
/// unbounded value is returned, truncation being the reader's business.
pub open spec fn var_parse(s: Seq<u8>, m: nat) -> VarParse
    decreases m,
{
    if m == 0 {
        VarParse::TooLong
    } else if s.len() == 0 {
        VarParse::Short
    } else if !vi_cont(s[0]) {
        VarParse::Val { value: vi_group(s[0]), used: 1 }
    } else {
        match var_parse(s.skip(1), (m - 1) as nat) {
            VarParse::Val { value, used } => VarParse::Val {
                value: vi_group(s[0]) + 128 * value,
                used: used + 1,
            },
            VarParse::Short => VarParse::Short,
            VarParse::TooLong => VarParse::TooLong,
        }
    }
}

/// `v` reduced to the 64 bits a reader's accumulator keeps.
pub open spec fn trunc64(v: nat) -> u64 {
    (v % 0x1_0000_0000_0000_0000) as u64
}

/// `v` reduced to the 32 bits a VarInt reader's accumulator keeps.
pub open spec fn trunc32(v: nat) -> u32 {
    (v % 0x1_0000_0000) as u32
}

/// What reading a variable-length integer of at most `m` bytes did to
/// the buffer and returned: the three parse outcomes map to `Ok`,
/// `Underflow` and `Overflow`, and only a successful read moves the
/// cursor.
pub open spec fn var_read_post(
    pre: StreamPeerBuffer,
    post: StreamPeerBuffer,
    m: nat,
    r: Result<u64, CodecError>,
) -> bool {
    &&& post.bytes() == pre.bytes()
    &&& post.wf()
    &&& match var_parse(pre.rest(), m) {
        VarParse::Val { value, used } => r == Ok::<u64, CodecError>(trunc64(value))
            && post.cursor() == pre.cursor() + used,
        VarParse::Short => r == Err::<u64, CodecError>(CodecError::Underflow) && post.cursor()
            == pre.cursor(),
        VarParse::TooLong => r == Err::<u64, CodecError>(CodecError::Overflow) && post.cursor()
            == pre.cursor(),
    }
}

/// Splitting off the low seven-bit group commutes with truncation to
/// 64 bits: the group is unaffected and the rest wraps at `2^57`.
proof fn lemma_chunk_mod(g: nat, v: nat)
    requires
        g < 128,
    ensures
        g + 128 * ((v % 0x1_0000_0000_0000_0000) % 0x0200_0000_0000_0000) == (g + 128 * v)
            % 0x1_0000_0000_0000_0000,
{
    let p64 = 0x1_0000_0000_0000_0000int;
    let p57 = 0x0200_0000_0000_0000int;
    lemma_mod_mod(v as int, p57, 128);
    assert(p57 * 128 == p64) by (nonlinear_arith)
        requires
            p57 == 0x0200_0000_0000_0000int && p64 == 0x1_0000_0000_0000_0000int,
    ;
    assert((v as int % p64) % p57 == v as int % p57);
    let q = v as int / p57;
    let r = v as int % p57;
    lemma_fundamental_div_mod(v as int, p57);
    assert(v == p57 * q + r);
    assert(128 * (p57 * q + r) == p64 * q + 128 * r) by (nonlinear_arith)
        requires
            p57 * 128 == p64,
    ;
    assert(0 <= 128 * r < p64 - 127) by (nonlinear_arith)
        requires
            0 <= r < p57 && p57 == 0x0200_0000_0000_0000int && p64 == 0x1_0000_0000_0000_0000int,
    ;
    assert(g + 128 * v == q * p64 + (g + 128 * r)) by (nonlinear_arith)
        requires
            g + 128 * v == g + p64 * q + 128 * r,
    ;
    lemma_fundamental_div_mod_converse_mod((g + 128 * v) as int, p64, q, g + 128 * r);
}

/// The group weights are positive.
proof fn lemma_p128_pos(n: nat)
    ensures
        p128(n) >= 1,
    decreases n,
{
    if n > 0 {
        lemma_p128_pos((n - 1) as nat);
    }
}

/// A parsed value fits in the `m` seven-bit groups the reader was
/// allowed to consume.
pub proof fn lemma_var_parse_bound(s: Seq<u8>, m: nat)
    ensures
        var_parse(s, m) matches VarParse::Val { value, used } ==> value < p128(m) && 1 <= used
            <= m && used <= s.len(),
    decreases m,
{
    if m > 0 && s.len() > 0 {
        let b = s[0];
        assert((b & 0x7f) < 128) by (bit_vector);
        lemma_p128_pos((m - 1) as nat);
        assert(p128(m) == 128 * p128((m - 1) as nat));
        if vi_cont(s[0]) {
            lemma_var_parse_bound(s.skip(1), (m - 1) as nat);
            if let VarParse::Val { value, used } = var_parse(s.skip(1), (m - 1) as nat) {
                assert(vi_group(s[0]) + 128 * value < 128 * (value + 1));
                assert(128 * (value + 1) <= 128 * p128((m - 1) as nat));
            }
        }
    }
}

/// An encoding spends one byte per seven-bit group: a value below
/// `128^n` takes at most `n` bytes, and never fewer than one.
pub proof fn lemma_vi_enc_len(v: nat, n: nat)
    requires
        n >= 1,
        v < p128(n),
    ensures
        1 <= vi_enc(v).len() <= n,
    decreases n,
{
    if v >= 128 {
        assert(p128(n) == 128 * p128((n - 1) as nat));
        if n == 1 {
            assert(p128(0) == 1);
            assert(false);
        }
        assert(v / 128 < p128((n - 1) as nat)) by (nonlinear_arith)
            requires
                v < 128 * p128((n - 1) as nat),
        ;
        lemma_vi_enc_len(v / 128, (n - 1) as nat);
    }
}

/// Parsing an encoding placed in front of any trailing bytes yields
/// exactly the encoded value and consumes exactly the encoding.
pub proof fn lemma_var_round_trip(v: nat, rest: Seq<u8>, m: nat)
    requires
        vi_enc(v).len() <= m,
    ensures
        var_parse(vi_enc(v) + rest, m) == (VarParse::Val { value: v, used: vi_enc(v).len() }),
    decreases v,
{
    let s = vi_enc(v) + rest;
    if v < 128 {
        let b = v as u8;
        assert(s[0] == b);
        assert(b < 128 ==> b & 0x80 != 0x80 && b & 0x7f == b) by (bit_vector);
    } else {
        let b = ((v % 128) + 128) as u8;
        assert(s[0] == b);
        assert(b >= 128 ==> b & 0x80 == 0x80 && (b & 0x7f) as int == b - 128) by (bit_vector);
        assert(s.skip(1) =~= vi_enc(v / 128) + rest);
        lemma_var_round_trip(v / 128, rest, (m - 1) as nat);
        lemma_fundamental_div_mod(v as int, 128);
    }
}

/// Round trip for VarInt: every 32-bit value decodes from its own
/// encoding, the encoding is one to five bytes long, and the zero
/// value takes exactly one byte.
pub proof fn lemma_var_int_round_trip(v: u32, rest: Seq<u8>)
    ensures
        1 <= vi_enc(v as nat).len() <= 5,
        v == 0 ==> vi_enc(v as nat).len() == 1,
        var_parse(vi_enc(v as nat) + rest, 5) == (VarParse::Val {
            value: v as nat,
            used: vi_enc(v as nat).len(),
        }),
        trunc32(v as nat) == v,
{
    reveal_with_fuel(p128, 6);
    lemma_vi_enc_len(v as nat, 5);
    lemma_var_round_trip(v as nat, rest, 5);
}

/// Round trip for VarLong: every 64-bit value decodes from its own
/// encoding, the encoding is one to ten bytes long, and the zero
/// value takes exactly one byte.
pub proof fn lemma_var_long_round_trip(v: u64, rest: Seq<u8>)
    ensures
        1 <= vi_enc(v as nat).len() <= 10,
        v == 0 ==> vi_enc(v as nat).len() == 1,
        var_parse(vi_enc(v as nat) + rest, 10) == (VarParse::Val {
            value: v as nat,
            used: vi_enc(v as nat).len(),
        }),
        trunc64(v as nat) == v,
{
    reveal_with_fuel(p128, 11);
    assert(p128(10) == 0x4_0000_0000_0000_0000 * 16);
    lemma_vi_enc_len(v as nat, 10);
    lemma_var_round_trip(v as nat, rest, 10);
}

impl StreamPeerBuffer {
    /// Reads one variable-length integer of at most `fuel` bytes into a
    /// 64-bit accumulator, wrapping above 64 bits as the wire format's
    /// shift-and-or accumulation does.
    fn get_var_chunks(&mut self, fuel: usize) -> (r: Result<u64, CodecError>)
        requires
            old(self).wf(),
        ensures
            var_read_post(*old(self), *final(self), fuel as nat, r),
        decreases fuel,
    {
        if fuel == 0 {
            return Err(CodecError::Overflow);
        }
        match self.peek(0) {
            None => Err(CodecError::Underflow),
            Some(b) => {
                if b & 0x80 != 0x80 {
                    self.advance(1);
                    proof {
                        assert(vi_group(b) < 128 && (b & 0x7f) == vi_group(b)) by (bit_vector);
                    }
                    Ok((b & 0x7f) as u64)
                } else {
                    self.advance(1);
                    proof {
                        assert(self.rest() =~= old(self).rest().skip(1));
                    }
                    match self.get_var_chunks(fuel - 1) {
                        Ok(inner) => {
                            let g = b & 0x7f;
                            let low = inner % 0x0200_0000_0000_0000;
                            proof {
                                assert((b & 0x7f) < 128) by (bit_vector);
                                if let VarParse::Val { value, used } = var_parse(
                                    old(self).rest().skip(1),
                                    (fuel - 1) as nat,
                                ) {
                                    lemma_chunk_mod(vi_group(b), value);
                                }
                            }
                            Ok(g as u64 + 128 * low)
                        },
                        Err(e) => {
                            self.rewind(1);
                            Err(e)
                        },
                    }
                }
            },
        }
    }

    /// Appends the variable-length encoding of `v`.
    fn put_var_chunks(&mut self, v: u64)
        ensures
            final(self).bytes() == old(self).bytes() + vi_enc(v as nat),
            final(self).cursor() == old(self).cursor(),
        decreases v,
    {
        if v < 128 {
            self.put_u8(v as u8);
            proof {
                assert(final(self).bytes() =~= old(self).bytes() + vi_enc(v as nat));
            }
        } else {
            self.put_u8((v % 128 + 128) as u8);
            self.put_var_chunks(v / 128);
            proof {
                assert(final(self).bytes() =~= old(self).bytes() + vi_enc(v as nat));
            }
        }
    }

    /// Appends the VarInt encoding of `v`: one to five bytes, exactly
    /// one zero byte for the zero value.
    pub fn put_var_int(&mut self, value: u32)
        ensures
            final(self).bytes() == old(self).bytes() + vi_enc(value as nat),
            final(self).cursor() == old(self).cursor(),
    {
        self.put_var_chunks(value as u64);
    }

    /// Appends the VarLong encoding of `v`: one to ten bytes, exactly
    /// one zero byte for the zero value.
    pub fn put_var_long(&mut self, value: u64)
        ensures
            final(self).bytes() == old(self).bytes() + vi_enc(value as nat),
            final(self).cursor() == old(self).cursor(),
    {
        self.put_var_chunks(value);
    }

    /// Reads a VarInt. Consumes at most five bytes; a fifth byte that
    /// still carries the continuation flag is an `Overflow` error, and
    /// running out of bytes first is an `Underflow` error. Only a
    /// successful read moves the cursor.
    pub fn get_var_int(&mut self) -> (r: Result<u32, CodecError>)
        requires
            old(self).wf(),
        ensures
            final(self).bytes() == old(self).bytes(),
            final(self).wf(),
            match var_parse(old(self).rest(), 5) {
                VarParse::Val { value, used } => r == Ok::<u32, CodecError>(trunc32(value))
                    && final(self).cursor() == old(self).cursor() + used,
                VarParse::Short => r == Err::<u32, CodecError>(CodecError::Underflow)
                    && final(self).cursor() == old(self).cursor(),
                VarParse::TooLong => r == Err::<u32, CodecError>(CodecError::Overflow)
                    && final(self).cursor() == old(self).cursor(),
            },
    {
        match self.get_var_chunks(5) {
            Ok(v) => {
                proof {
                    lemma_var_parse_bound(old(self).rest(), 5);
                    if let VarParse::Val { value, used } = var_parse(old(self).rest(), 5) {
                        reveal_with_fuel(p128, 6);
                        assert(p128(5) == 0x8_0000_0000);
                        assert(value < 0x1_0000_0000_0000_0000);
                        vstd::arithmetic::div_mod::lemma_small_mod(
                            value,
                            0x1_0000_0000_0000_0000,
                        );
                        assert(v == value);
                        assert(v as u32 == v % 0x1_0000_0000) by (bit_vector);
                    }
                }
                Ok(#[verifier::truncate] (v as u32))
            },
            Err(e) => Err(e),
        }
    }

    /// Reads a VarLong. Consumes at most ten bytes; a tenth byte that
    /// still carries the continuation flag is an `Overflow` error, and
    /// running out of bytes first is an `Underflow` error. Only a
    /// successful read moves the cursor.
    pub fn get_var_long(&mut self) -> (r: Result<u64, CodecError>)
        requires
            old(self).wf(),
        ensures
            var_read_post(*old(self), *final(self), 10, r),
    {
        self.get_var_chunks(10)
    }
}

} // verus!
