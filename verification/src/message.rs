//! Message framer: whole request and response messages.
//!
//! A request is one opcode byte followed by that opcode's field list;
//! a response is one status byte followed by a payload that depends on
//! the status and on the request it answers. The framer composes both
//! from the integer and string codecs and parses them back, reporting
//! every malformation as a typed error.

use vstd::prelude::*;

use vstd::utf8::encode_utf8;

use crate::binary::be32;
use crate::binary::de32;
use crate::binary::StreamPeerBuffer;
use crate::errors::CodecError;
use crate::model::env_view;
use crate::model::procs_view;
use crate::model::ControlReply;
use crate::model::ListOutcome;
use crate::model::ListReply;
use crate::model::ManagedProcess;
use crate::model::OpcodeTable;
use crate::model::Request;
use crate::model::RequestShape;
use crate::strings::str_short_enc;
use crate::strings::str_short_parse;

verus! {

/// The bytes of each element in order, under the element encoding `f`.
pub open spec fn concat_enc<T>(s: Seq<T>, f: spec_fn(T) -> Seq<u8>) -> Seq<u8>
    decreases s.len(),
{
    if s.len() == 0 {
        Seq::empty()
    } else {
        f(s[0]) + concat_enc(s.skip(1), f)
    }
}

/// Extending the element sequence by one appends that element's bytes.
pub proof fn lemma_concat_enc_snoc<T>(s: Seq<T>, f: spec_fn(T) -> Seq<u8>, i: int)
    requires
        0 <= i < s.len(),
    ensures
        concat_enc(s.take(i + 1), f) == concat_enc(s.take(i), f) + f(s[i]),
    decreases i,
{
    if i == 0 {
        assert(s.take(1) =~= seq![s[0]]);
        assert(s.take(1).skip(1) =~= Seq::<T>::empty());
        assert(s.take(0) =~= Seq::<T>::empty());
        assert(concat_enc(s.take(1), f) =~= concat_enc(s.take(0), f) + f(s[0]));
    } else {
        assert(s.take(i + 1).skip(1) =~= s.skip(1).take(i));
        assert(s.take(i).skip(1) =~= s.skip(1).take(i - 1));
        lemma_concat_enc_snoc(s.skip(1), f, i - 1);
        assert(s.take(i + 1)[0] == s[0] && s.take(i)[0] == s[0]);
        assert(s.skip(1)[i - 1] == s[i]);
        assert(concat_enc(s.take(i + 1), f) =~= concat_enc(s.take(i), f) + f(s[i]));
    }
}

/// The bytes of one environment entry: key, then value, both in the
/// short string framing.
pub open spec fn pair_enc(p: (Seq<char>, Seq<char>)) -> Seq<u8> {
    str_short_enc(encode_utf8(p.0)) + str_short_enc(encode_utf8(p.1))
}

/// The bytes of an environment block: its entries in order.
pub open spec fn env_enc(env: Seq<(Seq<char>, Seq<char>)>) -> Seq<u8> {
    concat_enc(env, |p: (Seq<char>, Seq<char>)| pair_enc(p))
}

/// The bytes of an id list: each id as a big-endian 32-bit integer.
pub open spec fn ids_enc(ids: Seq<u32>) -> Seq<u8> {
    concat_enc(ids, |i: u32| be32(i))
}

/// Whether a text fits the short string framing's 16-bit byte count.
pub open spec fn short_fits(text: Seq<char>) -> bool {
    encode_utf8(text).len() <= 0xffff
}

/// Whether every key and value of an environment block fits the short
/// string framing.
pub open spec fn env_fits(env: Seq<(Seq<char>, Seq<char>)>) -> bool {
    forall|i: int| 0 <= i < env.len() ==> short_fits(#[trigger] env[i].0) && short_fits(env[i].1)
}

/// Whether every string of a RUN request fits its framing.
pub open spec fn run_request_fits(
    command: Seq<char>,
    env: Seq<(Seq<char>, Seq<char>)>,
    cwd: Seq<char>,
) -> bool {
    short_fits(command) && env_fits(env) && short_fits(cwd)
}

/// One entry that does not fit refutes the whole block's fitting.
proof fn lemma_env_unfit(env: Seq<(Seq<char>, Seq<char>)>, i: int)
    requires
        0 <= i < env.len(),
        !short_fits(env[i].0) || !short_fits(env[i].1),
    ensures
        !env_fits(env),
{
    assert(!(short_fits(env[i].0) && short_fits(env[i].1)));
}

/// Entries checked one further extend the checked prefix.
proof fn lemma_env_fit_extend(env: Seq<(Seq<char>, Seq<char>)>, k: int)
    requires
        0 <= k < env.len(),
        forall|j: int| 0 <= j < k ==> short_fits(#[trigger] env[j].0) && short_fits(env[j].1),
        short_fits(env[k].0),
        short_fits(env[k].1),
    ensures
        forall|j: int| 0 <= j < k + 1 ==> short_fits(#[trigger] env[j].0) && short_fits(env[j].1),
{
}

/// The id field of a RUN request: a presence byte, then the id itself
/// when one was given.
pub open spec fn run_id_enc(id: Option<u32>) -> Seq<u8> {
    match id {
        Some(i) => seq![1u8] + be32(i),
        None => seq![0u8],
    }
}

/// The bytes of a whole RUN request: opcode, command, optional id,
/// environment entry count and entries, working directory.
pub open spec fn run_request_enc(
    opcode: u8,
    command: Seq<char>,
    id: Option<u32>,
    env: Seq<(Seq<char>, Seq<char>)>,
    cwd: Seq<char>,
) -> Seq<u8>
    recommends
        run_request_fits(command, env, cwd),
        env.len() <= 0xffff_ffff,
{
    seq![opcode] + (str_short_enc(encode_utf8(command)) + (run_id_enc(id) + (be32(
        env.len() as u32,
    ) + (env_enc(env) + str_short_enc(encode_utf8(cwd))))))
}

/// Builds a RUN request. Rejects with `Overflow`, writing nothing,
/// exactly when the command, the working directory, or any environment
/// key or value is too long for the 16-bit string framing.
pub fn encode_run(
    opcode: u8,
    command: String,
    id: Option<u32>,
    env: &Vec<(String, String)>,
    cwd: String,
) -> (r: Result<Vec<u8>, CodecError>)
    requires
        env@.len() <= 0xffff_ffff,
    ensures
        run_request_fits(command@, env_view(env@), cwd@) ==> (r matches Ok(v) && v@
            == run_request_enc(opcode, command@, id, env_view(env@), cwd@)),
        !run_request_fits(command@, env_view(env@), cwd@) ==> r == Err::<Vec<u8>, CodecError>(
            CodecError::Overflow,
        ),
{
    let mut buf = StreamPeerBuffer::new();
    buf.put_u8(opcode);
    match buf.put_utf8(command) {
        Ok(u) => u,
        Err(e) => {
            return Err(e);
        },
    }
    match id {
        Some(i) => {
            buf.put_u8(1);
            buf.put_u32(i);
        },
        None => {
            buf.put_u8(0);
        },
    }
    buf.put_u32(env.len() as u32);
    proof {
        assert(buf.bytes() =~= seq![opcode] + str_short_enc(encode_utf8(command@)) + run_id_enc(
            id,
        ) + be32(env@.len() as u32) + env_enc(env_view(env@).take(0)));
    }
    let ghost prefix = seq![opcode] + str_short_enc(encode_utf8(command@)) + run_id_enc(id)
        + be32(env@.len() as u32);
    let mut k: usize = 0;
    while k < env.len()
        invariant
            k <= env@.len(),
            forall|j: int| 0 <= j < k ==> short_fits(#[trigger] env_view(env@)[j].0) && short_fits(
                env_view(env@)[j].1,
            ),
            buf.bytes() == prefix + env_enc(env_view(env@).take(k as int)),
            buf.cursor() == 0,
        decreases env@.len() - k,
    {
        let key = env[k].0.clone();
        let val = env[k].1.clone();
        match buf.put_utf8(key) {
            Ok(u) => u,
            Err(e) => {
                proof {
                    assert(env_view(env@)[k as int] == (env@[k as int].0@, env@[k as int].1@));
                    assert(!short_fits(env_view(env@)[k as int].0));
                    lemma_env_unfit(env_view(env@), k as int);
                }
                return Err(e);
            },
        }
        match buf.put_utf8(val) {
            Ok(u) => u,
            Err(e) => {
                proof {
                    assert(env_view(env@)[k as int] == (env@[k as int].0@, env@[k as int].1@));
                    assert(!short_fits(env_view(env@)[k as int].1));
                    lemma_env_unfit(env_view(env@), k as int);
                }
                return Err(e);
            },
        }
        proof {
            assert(env_view(env@)[k as int] == (env@[k as int].0@, env@[k as int].1@));
            assert(short_fits(env_view(env@)[k as int].0));
            assert(short_fits(env_view(env@)[k as int].1));
            lemma_env_fit_extend(env_view(env@), k as int);
            lemma_concat_enc_snoc(
                env_view(env@),
                |p: (Seq<char>, Seq<char>)| pair_enc(p),
                k as int,
            );
            assert(buf.bytes() =~= prefix + env_enc(env_view(env@).take(k as int + 1)));
        }
        k = k + 1;
    }
    proof {
        assert(env_view(env@).take(env@.len() as int) =~= env_view(env@));
    }
    match buf.put_utf8(cwd) {
        Ok(u) => u,
        Err(e) => {
            return Err(e);
        },
    }
    proof {
        assert(buf.bytes() =~= run_request_enc(opcode, command@, id, env_view(env@), cwd@));
    }
    Ok(buf.into_data())
}

/// Builds a STOP, RESTART or DELETE request: the opcode, then each id
/// in order, with no count field; the message's end is its boundary.
pub fn encode_ids(opcode: u8, ids: &Vec<u32>) -> (r: Vec<u8>)
    ensures
        r@ == seq![opcode] + ids_enc(ids@),
{
    let mut buf = StreamPeerBuffer::new();
    buf.put_u8(opcode);
    proof {
        assert(buf.bytes() =~= seq![opcode] + ids_enc(ids@.take(0)));
    }
    let mut k: usize = 0;
    while k < ids.len()
        invariant
            k <= ids@.len(),
            buf.bytes() == seq![opcode] + ids_enc(ids@.take(k as int)),
        decreases ids@.len() - k,
    {
        buf.put_u32(ids[k]);
        proof {
            lemma_concat_enc_snoc(ids@, |i: u32| be32(i), k as int);
            assert(buf.bytes() =~= seq![opcode] + ids_enc(ids@.take(k as int + 1)));
        }
        k = k + 1;
    }
    proof {
        assert(ids@.take(ids@.len() as int) =~= ids@);
    }
    buf.into_data()
}

/// Builds a LIST request: the opcode alone.
pub fn encode_list(opcode: u8) -> (r: Vec<u8>)
    ensures
        r@ == seq![opcode],
{
    let mut buf = StreamPeerBuffer::new();
    buf.put_u8(opcode);
    proof {
        assert(buf.bytes() =~= seq![opcode]);
    }
    buf.into_data()
}

/// A transport-level frame: the payload's byte count as a big-endian
/// 32-bit integer, then the payload itself. Delimiting every message
/// this way lets a reader take exactly the bytes that were sent, so a
/// response longer than one transport read is never silently cut.
pub open spec fn frame_enc(p: Seq<u8>) -> Seq<u8>
    recommends
        p.len() <= 0xffff_ffff,
{
    be32(p.len() as u32) + p
}

/// Reads one transport-level frame from the front of `s`: the payload
/// and the bytes consumed, or the error a reader must report.
pub open spec fn frame_parse(s: Seq<u8>) -> Result<(Seq<u8>, nat), CodecError> {
    if s.len() < 4 {
        Err(CodecError::Underflow)
    } else {
        let l = de32(s) as int;
        if s.len() < 4 + l {
            Err(CodecError::Underflow)
        } else {
            Ok((s.subrange(4, 4 + l), (4 + l) as nat))
        }
    }
}

/// Round trip for a frame: the payload comes back whole from its own
/// frame placed in front of any trailing bytes.
pub proof fn lemma_frame_round_trip(p: Seq<u8>, rest: Seq<u8>)
    requires
        p.len() <= 0xffff_ffff,
    ensures
        frame_parse(frame_enc(p) + rest) == Ok::<(Seq<u8>, nat), CodecError>(
            (p, (4 + p.len()) as nat),
        ),
{
    let s = frame_enc(p) + rest;
    let n = p.len() as u32;
    crate::binary::lemma_u32_round_trip(n);
    assert(s[0] == be32(n)[0] && s[1] == be32(n)[1] && s[2] == be32(n)[2] && s[3] == be32(n)[3]);
    assert(de32(s) == de32(be32(n)));
    assert(s.subrange(4, 4 + p.len() as int) =~= p);
}

/// Wraps a whole message in a transport-level frame. A payload whose
/// byte count does not fit the 32-bit prefix is rejected with
/// `Overflow`.
pub fn frame_message(payload: Vec<u8>) -> (r: Result<Vec<u8>, CodecError>)
    ensures
        payload@.len() <= 0xffff_ffff ==> (r matches Ok(v) && v@ == frame_enc(payload@)),
        payload@.len() > 0xffff_ffff ==> r == Err::<Vec<u8>, CodecError>(CodecError::Overflow),
{
    if payload.len() > 0xffff_ffff {
        return Err(CodecError::Overflow);
    }
    let mut buf = StreamPeerBuffer::new();
    buf.put_u32(payload.len() as u32);
    buf.put_bytes(&payload);
    proof {
        assert(buf.bytes() =~= frame_enc(payload@));
    }
    Ok(buf.into_data())
}

/// Takes one framed message off the buffer: exactly the bytes its
/// length prefix announces. Reports `Underflow` when the prefix or the
/// announced bytes are missing; only a successful read moves the
/// cursor.
pub fn read_frame(buf: &mut StreamPeerBuffer) -> (r: Result<Vec<u8>, CodecError>)
    requires
        old(buf).wf(),
    ensures
        final(buf).bytes() == old(buf).bytes(),
        final(buf).wf(),
        match frame_parse(old(buf).rest()) {
            Ok((p, used)) => (r matches Ok(v) && v@ == p && final(buf).cursor() == old(
                buf,
            ).cursor() + used),
            Err(e) => r == Err::<Vec<u8>, CodecError>(e) && final(buf).cursor() == old(
                buf,
            ).cursor(),
        },
{
    let l = match buf.get_u32() {
        Ok(v) => v,
        Err(e) => {
            return Err(e);
        },
    };
    match buf.get_bytes(l as usize) {
        Ok(v) => {
            proof {
                assert(v@ =~= old(buf).rest().subrange(4, 4 + l as int));
            }
            Ok(v)
        },
        Err(e) => {
            buf.rewind(4);
            Err(e)
        },
    }
}

/// Reads a control response from the front of `s`: `None` for
/// success, the failure message for a nonzero status, or the error a
/// reader must report. Bytes past the payload are ignored, as a
/// transport may pad its reads.
pub open spec fn control_reply_parse(s: Seq<u8>) -> Result<Option<Seq<char>>, CodecError> {
    if s.len() < 1 {
        Err(CodecError::Underflow)
    } else if s[0] == 0 {
        Ok(None)
    } else {
        match str_short_parse(s.skip(1)) {
            Ok((msg, used)) => Ok(Some(msg)),
            Err(e) => Err(e),
        }
    }
}

/// Reads `n` process records from the front of `s`: each is an id, a
/// short-framed name, a pid and a running flag. Yields the records
/// and the bytes consumed, or the first error met.
pub open spec fn records_parse(s: Seq<u8>, n: nat) -> Result<
    (Seq<(u32, Seq<char>, u32, bool)>, nat),
    CodecError,
>
    decreases n,
{
    if n == 0 {
        Ok((Seq::empty(), 0))
    } else if s.len() < 4 {
        Err(CodecError::Underflow)
    } else {
        let id = de32(s);
        match str_short_parse(s.skip(4)) {
            Err(e) => Err(e),
            Ok((name, u1)) => {
                let s2 = s.skip(4 + u1 as int);
                if s2.len() < 5 {
                    Err(CodecError::Underflow)
                } else {
                    let pid = de32(s2);
                    let running = s2[4] != 0;
                    match records_parse(s2.skip(5), (n - 1) as nat) {
                        Err(e) => Err(e),
                        Ok((rs, u)) => Ok(
                            (seq![(id, name, pid, running)] + rs, (4 + u1 + 5 + u) as nat),
                        ),
                    }
                }
            },
        }
    }
}

/// Reads a LIST response from the front of `s`: a zero status, a
/// record count and that many records, or a nonzero status and a
/// failure message.
pub open spec fn list_reply_parse(s: Seq<u8>) -> Result<ListOutcome, CodecError> {
    if s.len() < 1 {
        Err(CodecError::Underflow)
    } else if s[0] != 0 {
        match str_short_parse(s.skip(1)) {
            Ok((msg, used)) => Ok(ListOutcome::Refusal(msg)),
            Err(e) => Err(e),
        }
    } else if s.len() < 5 {
        Err(CodecError::Underflow)
    } else {
        match records_parse(s.skip(5), de32(s.skip(1)) as nat) {
            Ok((rs, used)) => Ok(ListOutcome::Rows(rs)),
            Err(e) => Err(e),
        }
    }
}

/// Decodes the response to a RUN, STOP, RESTART or DELETE request.
pub fn decode_control_reply(data: Vec<u8>) -> (r: Result<ControlReply, CodecError>)
    ensures
        match control_reply_parse(data@) {
            Ok(m) => match m {
                None => r matches Ok(ControlReply::Success),
                Some(t) => (r matches Ok(ControlReply::Failure(s)) && s@ == t),
            },
            Err(e) => r == Err::<ControlReply, CodecError>(e),
        },
{
    let ghost d = data@;
    let mut buf = StreamPeerBuffer::new();
    buf.set_data_array(data);
    proof {
        assert(buf.rest() =~= d);
    }
    let status = match buf.get_u8() {
        Ok(b) => b,
        Err(e) => {
            return Err(e);
        },
    };
    if status == 0 {
        Ok(ControlReply::Success)
    } else {
        proof {
            assert(buf.rest() =~= d.skip(1));
        }
        match buf.get_utf8() {
            Ok(msg) => Ok(ControlReply::Failure(msg)),
            Err(e) => Err(e),
        }
    }
}

/// Decodes the response to a LIST request: on success, exactly the
/// records the daemon sent, in their order.
#[verifier::loop_isolation(false)]
#[verifier::rlimit(60)]
pub fn decode_list_reply(data: Vec<u8>) -> (r: Result<ListReply, CodecError>)
    ensures
        match list_reply_parse(data@) {
            Ok(o) => match o {
                ListOutcome::Rows(rs) => (r matches Ok(ListReply::Records(v)) && procs_view(v@)
                    == rs),
                ListOutcome::Refusal(t) => (r matches Ok(ListReply::Failure(s)) && s@ == t),
            },
            Err(e) => r == Err::<ListReply, CodecError>(e),
        },
{
    let ghost d = data@;
    let mut buf = StreamPeerBuffer::new();
    buf.set_data_array(data);
    proof {
        assert(buf.rest() =~= d);
    }
    let status = match buf.get_u8() {
        Ok(b) => b,
        Err(e) => {
            return Err(e);
        },
    };
    if status != 0 {
        proof {
            assert(buf.rest() =~= d.skip(1));
        }
        return match buf.get_utf8() {
            Ok(msg) => Ok(ListReply::Failure(msg)),
            Err(e) => Err(e),
        };
    }
    proof {
        assert(buf.rest() =~= d.skip(1));
    }
    let count = match buf.get_u32() {
        Ok(c) => c,
        Err(e) => {
            return Err(e);
        },
    };
    proof {
        assert(buf.rest() =~= d.skip(5));
        assert(de32(d.skip(1)) == count);
    }
    let ghost s0 = d.skip(5);
    let mut procs: Vec<ManagedProcess> = Vec::new();
    let mut i: u32 = 0;
    while i < count
        invariant
            i <= count,
            buf.wf(),
            buf.bytes() == d,
            buf.rest().len() <= s0.len(),
            records_parse(s0, count as nat) == (match records_parse(
                buf.rest(),
                (count - i) as nat,
            ) {
                Ok((rs, u)) => Ok::<(Seq<(u32, Seq<char>, u32, bool)>, nat), CodecError>(
                    (procs_view(procs@) + rs, ((s0.len() - buf.rest().len()) + u) as nat),
                ),
                Err(e) => Err::<(Seq<(u32, Seq<char>, u32, bool)>, nat), CodecError>(e),
            }),
        decreases count - i,
    {
        let ghost cur = buf.rest();
        let ghost k = (count - i) as nat;
        let id = match buf.get_u32() {
            Ok(v) => v,
            Err(e) => {
                proof {
                    assert(cur.len() < 4);
                    assert(records_parse(cur, k) == Err::<
                        (Seq<(u32, Seq<char>, u32, bool)>, nat),
                        CodecError,
                    >(CodecError::Underflow));
                }
                return Err(e);
            },
        };
        proof {
            assert(buf.rest() =~= cur.skip(4));
        }
        let name = match buf.get_utf8() {
            Ok(v) => v,
            Err(e) => {
                proof {
                    assert(str_short_parse(cur.skip(4)) == Err::<(Seq<char>, nat), CodecError>(
                        e,
                    ));
                    assert(records_parse(cur, k) == Err::<
                        (Seq<(u32, Seq<char>, u32, bool)>, nat),
                        CodecError,
                    >(e));
                }
                return Err(e);
            },
        };
        let ghost u1 = match str_short_parse(cur.skip(4)) {
            Ok((t, u)) => u,
            Err(e) => 0,
        };
        proof {
            assert(buf.rest() =~= cur.skip(4 + u1 as int));
        }
        let ghost s2 = cur.skip(4 + u1 as int);
        let pid = match buf.get_u32() {
            Ok(v) => v,
            Err(e) => {
                return Err(e);
            },
        };
        proof {
            assert(buf.rest() =~= s2.skip(4));
        }
        let rb = match buf.get_u8() {
            Ok(v) => v,
            Err(e) => {
                return Err(e);
            },
        };
        proof {
            assert(rb == s2[4]);
        }
        let ghost prev = procs@;
        let rec = ManagedProcess { id, name, pid, running: rb != 0 };
        procs.push(rec);
        proof {
            assert(buf.rest() =~= s2.skip(5));
            assert(procs_view(procs@) =~= procs_view(prev).push(rec@));
            let newrest = s2.skip(5);
            let k2 = (k - 1) as nat;
            match records_parse(newrest, k2) {
                Ok((rs, u)) => {
                    assert(records_parse(cur, k) == Ok::<
                        (Seq<(u32, Seq<char>, u32, bool)>, nat),
                        CodecError,
                    >((seq![rec@] + rs, (4 + u1 + 5 + u) as nat)));
                    assert(procs_view(prev) + (seq![rec@] + rs) =~= procs_view(procs@) + rs);
                    assert((s0.len() - cur.len()) + (4 + u1 + 5 + u) == (s0.len()
                        - newrest.len()) + u);
                },
                Err(e) => {
                    assert(records_parse(cur, k) == Err::<
                        (Seq<(u32, Seq<char>, u32, bool)>, nat),
                        CodecError,
                    >(e));
                },
            }
        }
        i = i + 1;
    }
    proof {
        assert(procs_view(procs@) + Seq::<(u32, Seq<char>, u32, bool)>::empty() =~= procs_view(
            procs@,
        ));
    }
    Ok(ListReply::Records(procs))
}

/// Reads an id list from the whole of `s`: ids repeat until the
/// message ends, with no count field, so a trailing fragment shorter
/// than one id is an `Underflow` error.
pub open spec fn ids_parse(s: Seq<u8>) -> Result<Seq<u32>, CodecError>
    decreases s.len(),
{
    if s.len() == 0 {
        Ok(Seq::empty())
    } else if s.len() < 4 {
        Err(CodecError::Underflow)
    } else {
        match ids_parse(s.skip(4)) {
            Ok(more) => Ok(seq![de32(s)] + more),
            Err(e) => Err(e),
        }
    }
}

/// Round trip for an id list: the ids written by the encoder are
/// exactly what the daemon-side parse reads back, in order.
pub proof fn lemma_ids_round_trip(ids: Seq<u32>)
    ensures
        ids_parse(ids_enc(ids)) == Ok::<Seq<u32>, CodecError>(ids),
    decreases ids.len(),
{
    if ids.len() == 0 {
        assert(ids_enc(ids) =~= Seq::<u8>::empty());
        assert(ids =~= Seq::<u32>::empty());
    } else {
        let s = ids_enc(ids);
        assert(s =~= be32(ids[0]) + ids_enc(ids.skip(1)));
        crate::binary::lemma_u32_round_trip(ids[0]);
        assert(s[0] == be32(ids[0])[0] && s[1] == be32(ids[0])[1] && s[2] == be32(ids[0])[2]
            && s[3] == be32(ids[0])[3]);
        assert(de32(s) == de32(be32(ids[0])));
        assert(s.skip(4) =~= ids_enc(ids.skip(1)));
        lemma_ids_round_trip(ids.skip(1));
        assert(seq![ids[0]] + ids.skip(1) =~= ids);
    }
}

/// Reads `n` environment entries from the front of `s`: each is a
/// short-framed key then a short-framed value. Yields the entries and
/// the bytes consumed, or the first error met.
pub open spec fn env_parse(s: Seq<u8>, n: nat) -> Result<
    (Seq<(Seq<char>, Seq<char>)>, nat),
    CodecError,
>
    decreases n,
{
    if n == 0 {
        Ok((Seq::empty(), 0))
    } else {
        match str_short_parse(s) {
            Err(e) => Err(e),
            Ok((key, u1)) => match str_short_parse(s.skip(u1 as int)) {
                Err(e) => Err(e),
                Ok((val, u2)) => match env_parse(
                    s.skip(u1 as int + u2 as int),
                    (n - 1) as nat,
                ) {
                    Err(e) => Err(e),
                    Ok((ps, u)) => Ok((seq![(key, val)] + ps, (u1 + u2 + u) as nat)),
                },
            },
        }
    }
}

/// Round trip for an environment block: the entries written by the
/// encoder are exactly what the daemon-side parse reads back, in
/// order, consuming exactly the encoding.
#[verifier::rlimit(60)]
pub proof fn lemma_env_round_trip(env: Seq<(Seq<char>, Seq<char>)>, rest: Seq<u8>)
    requires
        env_fits(env),
    ensures
        env_parse(env_enc(env) + rest, env.len()) == Ok::<
            (Seq<(Seq<char>, Seq<char>)>, nat),
            CodecError,
        >((env, env_enc(env).len())),
    decreases env.len(),
{
    if env.len() == 0 {
        assert(env_enc(env) =~= Seq::<u8>::empty());
        assert(env_enc(env) + rest =~= rest);
        assert(env =~= Seq::<(Seq<char>, Seq<char>)>::empty());
    } else {
        let key = env[0].0;
        let val = env[0].1;
        let kb = encode_utf8(key);
        let vb = encode_utf8(val);
        assert(env_enc(env) =~= pair_enc(env[0]) + env_enc(env.skip(1)));
        let s = env_enc(env) + rest;
        let tail2 = env_enc(env.skip(1)) + rest;
        let tail1 = str_short_enc(vb) + tail2;
        assert(s =~= str_short_enc(kb) + tail1);
        crate::strings::lemma_string_short_round_trip(key, tail1);
        let u1 = (2 + kb.len()) as nat;
        assert(s.skip(u1 as int) =~= tail1);
        crate::strings::lemma_string_short_round_trip(val, tail2);
        let u2 = (2 + vb.len()) as nat;
        assert(s.skip(u1 as int + u2 as int) =~= tail2);
        assert forall|i: int|
            0 <= i < env.skip(1).len() implies short_fits(#[trigger] env.skip(1)[i].0)
            && short_fits(env.skip(1)[i].1) by {
            assert(env.skip(1)[i] == env[i + 1]);
        }
        assert(env_fits(env.skip(1)));
        lemma_env_round_trip(env.skip(1), rest);
        assert(seq![(key, val)] + env.skip(1) =~= env);
    }
}

/// Reads the fields of a RUN request after its opcode byte: the
/// command, the optional id behind its presence byte, the counted
/// environment entries, and the working directory.
pub open spec fn run_fields_parse(s: Seq<u8>) -> Result<
    (Seq<char>, Option<u32>, Seq<(Seq<char>, Seq<char>)>, Seq<char>),
    CodecError,
> {
    match str_short_parse(s) {
        Err(e) => Err(e),
        Ok((command, uc)) => {
            let s1 = s.skip(uc as int);
            if s1.len() < 1 {
                Err(CodecError::Underflow)
            } else {
                let has = s1[0] != 0;
                let s2 = s1.skip(1);
                if has && s2.len() < 4 {
                    Err(CodecError::Underflow)
                } else {
                    let id = if has {
                        Some(de32(s2))
                    } else {
                        None::<u32>
                    };
                    let s3 = if has {
                        s2.skip(4)
                    } else {
                        s2
                    };
                    if s3.len() < 4 {
                        Err(CodecError::Underflow)
                    } else {
                        match env_parse(s3.skip(4), de32(s3) as nat) {
                            Err(e) => Err(e),
                            Ok((env, ue)) => match str_short_parse(s3.skip(4 + ue as int)) {
                                Err(e) => Err(e),
                                Ok((cwd, uw)) => Ok((command, id, env, cwd)),
                            },
                        }
                    }
                }
            }
        },
    }
}

/// The counted environment block and the working directory parse back
/// from their own encoding.
#[verifier::rlimit(60)]
proof fn lemma_run_tail_round_trip(env: Seq<(Seq<char>, Seq<char>)>, cwd: Seq<char>, s3: Seq<u8>)
    requires
        env_fits(env),
        short_fits(cwd),
        env.len() <= 0xffff_ffff,
        s3 == be32(env.len() as u32) + (env_enc(env) + str_short_enc(encode_utf8(cwd))),
    ensures
        s3.len() >= 4,
        de32(s3) as nat == env.len(),
        env_parse(s3.skip(4), env.len()) == Ok::<(Seq<(Seq<char>, Seq<char>)>, nat), CodecError>(
            (env, env_enc(env).len()),
        ),
        str_short_parse(s3.skip(4 + env_enc(env).len() as int)) == Ok::<
            (Seq<char>, nat),
            CodecError,
        >((cwd, (2 + encode_utf8(cwd).len()) as nat)),
{
    let wb = encode_utf8(cwd);
    let cwd_enc = str_short_enc(wb);
    let n = env.len() as u32;
    crate::binary::lemma_u32_round_trip(n);
    assert(s3[0] == be32(n)[0] && s3[1] == be32(n)[1] && s3[2] == be32(n)[2] && s3[3] == be32(
        n,
    )[3]);
    assert(de32(s3) == de32(be32(n)));
    assert(s3.skip(4) =~= env_enc(env) + cwd_enc);
    lemma_env_round_trip(env, cwd_enc);
    let ue = env_enc(env).len();
    assert(s3.skip(4 + ue as int) =~= cwd_enc);
    assert(cwd_enc =~= str_short_enc(wb) + Seq::<u8>::empty());
    crate::strings::lemma_string_short_round_trip(cwd, Seq::<u8>::empty());
}

/// The field list of a RUN request parses back from its own encoding.
#[verifier::rlimit(100)]
proof fn lemma_run_fields_round_trip(
    command: Seq<char>,
    id: Option<u32>,
    env: Seq<(Seq<char>, Seq<char>)>,
    cwd: Seq<char>,
    body: Seq<u8>,
)
    requires
        run_request_fits(command, env, cwd),
        env.len() <= 0xffff_ffff,
        body == str_short_enc(encode_utf8(command)) + (run_id_enc(id) + (be32(
            env.len() as u32,
        ) + (env_enc(env) + str_short_enc(encode_utf8(cwd))))),
    ensures
        run_fields_parse(body) == Ok::<
            (Seq<char>, Option<u32>, Seq<(Seq<char>, Seq<char>)>, Seq<char>),
            CodecError,
        >((command, id, env, cwd)),
{
    let cb = encode_utf8(command);
    let s3 = be32(env.len() as u32) + (env_enc(env) + str_short_enc(encode_utf8(cwd)));
    let rest0 = run_id_enc(id) + s3;
    crate::strings::lemma_string_short_round_trip(command, rest0);
    let uc = (2 + cb.len()) as nat;
    let s1 = body.skip(uc as int);
    assert(s1 =~= rest0);
    let s2 = s1.skip(1);
    match id {
        Some(i) => {
            assert(s1[0] == 1);
            assert(s2 =~= be32(i) + s3);
            crate::binary::lemma_u32_round_trip(i);
            assert(s2[0] == be32(i)[0] && s2[1] == be32(i)[1] && s2[2] == be32(i)[2] && s2[3]
                == be32(i)[3]);
            assert(de32(s2) == de32(be32(i)));
            assert(s2.skip(4) =~= s3);
            lemma_run_tail_round_trip(env, cwd, s2.skip(4));
        },
        None => {
            assert(s1[0] == 0);
            assert(s2 =~= s3);
            lemma_run_tail_round_trip(env, cwd, s2);
        },
    }
}

/// Round trip for a whole RUN request: the message the encoder builds
/// parses back, under any opcode table whose RUN byte it carries, to
/// exactly the command, id, environment and working directory that
/// went in.
#[verifier::rlimit(60)]
pub proof fn lemma_run_request_round_trip(
    command: Seq<char>,
    id: Option<u32>,
    env: Seq<(Seq<char>, Seq<char>)>,
    cwd: Seq<char>,
    t: OpcodeTable,
)
    requires
        run_request_fits(command, env, cwd),
        env.len() <= 0xffff_ffff,
    ensures
        request_parse(run_request_enc(t.run, command, id, env, cwd), t) == Ok::<
            RequestShape,
            CodecError,
        >((RequestShape::RunShape { command, id, env, cwd })),
{
    let s = run_request_enc(t.run, command, id, env, cwd);
    let body = str_short_enc(encode_utf8(command)) + (run_id_enc(id) + (be32(
        env.len() as u32,
    ) + (env_enc(env) + str_short_enc(encode_utf8(cwd)))));
    assert(s[0] == t.run);
    assert(s.skip(1) =~= body);
    lemma_run_fields_round_trip(command, id, env, cwd, body);
}

/// Reads a whole request from `s` under the given opcode table: the
/// opcode byte selects the field layout, and a byte matching no known
/// opcode is a `Protocol` error. Opcodes are tried in the table's
/// order, so a table with duplicate bytes resolves to the first match.
pub open spec fn request_parse(s: Seq<u8>, t: OpcodeTable) -> Result<RequestShape, CodecError> {
    if s.len() < 1 {
        Err(CodecError::Underflow)
    } else {
        let op = s[0];
        let s1 = s.skip(1);
        if op == t.run {
            match run_fields_parse(s1) {
                Ok((command, id, env, cwd)) => Ok(
                    RequestShape::RunShape { command, id, env, cwd },
                ),
                Err(e) => Err(e),
            }
        } else if op == t.stop {
            match ids_parse(s1) {
                Ok(ids) => Ok(RequestShape::StopShape { ids }),
                Err(e) => Err(e),
            }
        } else if op == t.restart {
            match ids_parse(s1) {
                Ok(ids) => Ok(RequestShape::RestartShape { ids }),
                Err(e) => Err(e),
            }
        } else if op == t.delete {
            match ids_parse(s1) {
                Ok(ids) => Ok(RequestShape::DeleteShape { ids }),
                Err(e) => Err(e),
            }
        } else if op == t.list {
            Ok(RequestShape::ListShape)
        } else {
            Err(CodecError::Protocol)
        }
    }
}

/// Reads ids until the buffer's bytes run out.
#[verifier::loop_isolation(false)]
fn read_ids(buf: &mut StreamPeerBuffer) -> (r: Result<Vec<u32>, CodecError>)
    requires
        old(buf).wf(),
    ensures
        match ids_parse(old(buf).rest()) {
            Ok(ids) => (r matches Ok(v) && v@ == ids),
            Err(e) => r == Err::<Vec<u32>, CodecError>(e),
        },
{
    let ghost s0 = buf.rest();
    let mut acc: Vec<u32> = Vec::new();
    while buf.remaining() > 0
        invariant
            buf.wf(),
            ids_parse(s0) == (match ids_parse(buf.rest()) {
                Ok(more) => Ok::<Seq<u32>, CodecError>(acc@ + more),
                Err(e) => Err::<Seq<u32>, CodecError>(e),
            }),
        decreases buf.rest().len(),
    {
        let ghost cur = buf.rest();
        let ghost prev = acc@;
        let id = match buf.get_u32() {
            Ok(v) => v,
            Err(e) => {
                return Err(e);
            },
        };
        acc.push(id);
        proof {
            assert(buf.rest() =~= cur.skip(4));
            match ids_parse(cur.skip(4)) {
                Ok(more) => {
                    assert(ids_parse(cur) == Ok::<Seq<u32>, CodecError>(seq![id] + more));
                    assert(prev + (seq![id] + more) =~= acc@ + more);
                },
                Err(e) => {
                    assert(ids_parse(cur) == Err::<Seq<u32>, CodecError>(e));
                },
            }
        }
    }
    proof {
        assert(acc@ + Seq::<u32>::empty() =~= acc@);
    }
    Ok(acc)
}

/// Reads `count` environment entries, each a short-framed key and
/// value.
#[verifier::loop_isolation(false)]
#[verifier::rlimit(80)]
fn read_env_entries(buf: &mut StreamPeerBuffer, count: u32) -> (r: Result<
    Vec<(String, String)>,
    CodecError,
>)
    requires
        old(buf).wf(),
    ensures
        final(buf).bytes() == old(buf).bytes(),
        final(buf).wf(),
        match env_parse(old(buf).rest(), count as nat) {
            Ok((ps, u)) => (r matches Ok(v) && env_view(v@) == ps && final(buf).cursor() == old(
                buf,
            ).cursor() + u),
            Err(e) => r == Err::<Vec<(String, String)>, CodecError>(e),
        },
{
    let ghost e0 = buf.rest();
    let mut env: Vec<(String, String)> = Vec::new();
    let mut i: u32 = 0;
    while i < count
        invariant
            i <= count,
            buf.wf(),
            buf.bytes() == old(buf).bytes(),
            buf.rest().len() <= e0.len(),
            buf.cursor() >= old(buf).cursor(),
            env_parse(e0, count as nat) == (match env_parse(buf.rest(), (count - i) as nat) {
                Ok((ps, u)) => Ok::<(Seq<(Seq<char>, Seq<char>)>, nat), CodecError>(
                    (env_view(env@) + ps, ((e0.len() - buf.rest().len()) + u) as nat),
                ),
                Err(e) => Err::<(Seq<(Seq<char>, Seq<char>)>, nat), CodecError>(e),
            }),
        decreases count - i,
    {
        let ghost cur = buf.rest();
        let ghost k = (count - i) as nat;
        let key = match buf.get_utf8() {
            Ok(v) => v,
            Err(e) => {
                proof {
                    assert(env_parse(cur, k) == Err::<
                        (Seq<(Seq<char>, Seq<char>)>, nat),
                        CodecError,
                    >(e));
                }
                return Err(e);
            },
        };
        let ghost u1 = match str_short_parse(cur) {
            Ok((t, u)) => u,
            Err(e) => 0,
        };
        proof {
            assert(buf.rest() =~= cur.skip(u1 as int));
        }
        let val = match buf.get_utf8() {
            Ok(v) => v,
            Err(e) => {
                proof {
                    assert(str_short_parse(cur.skip(u1 as int)) == Err::<
                        (Seq<char>, nat),
                        CodecError,
                    >(e));
                    assert(env_parse(cur, k) == Err::<
                        (Seq<(Seq<char>, Seq<char>)>, nat),
                        CodecError,
                    >(e));
                }
                return Err(e);
            },
        };
        let ghost u2 = match str_short_parse(cur.skip(u1 as int)) {
            Ok((t, u)) => u,
            Err(e) => 0,
        };
        let ghost prev = env@;
        env.push((key, val));
        proof {
            assert(buf.rest() =~= cur.skip(u1 as int + u2 as int));
            assert(env_view(env@) =~= env_view(prev).push((key@, val@)));
            let newrest = cur.skip(u1 as int + u2 as int);
            let k2 = (k - 1) as nat;
            match env_parse(newrest, k2) {
                Ok((ps, u)) => {
                    assert(env_parse(cur, k) == Ok::<
                        (Seq<(Seq<char>, Seq<char>)>, nat),
                        CodecError,
                    >((seq![(key@, val@)] + ps, (u1 + u2 + u) as nat)));
                    assert(env_view(prev) + (seq![(key@, val@)] + ps) =~= env_view(env@) + ps);
                    assert((e0.len() - cur.len()) + (u1 + u2 + u) == (e0.len() - newrest.len())
                        + u);
                },
                Err(e) => {
                    assert(env_parse(cur, k) == Err::<
                        (Seq<(Seq<char>, Seq<char>)>, nat),
                        CodecError,
                    >(e));
                },
            }
        }
        i = i + 1;
    }
    proof {
        assert(env_view(env@) + Seq::<(Seq<char>, Seq<char>)>::empty() =~= env_view(env@));
    }
    Ok(env)
}

/// Reads the fields of a RUN request from a buffer standing just past
/// the opcode byte.
#[verifier::loop_isolation(false)]
#[verifier::rlimit(100)]
fn read_run_fields(buf: &mut StreamPeerBuffer) -> (r: Result<
    (String, Option<u32>, Vec<(String, String)>, String),
    CodecError,
>)
    requires
        old(buf).wf(),
    ensures
        match run_fields_parse(old(buf).rest()) {
            Ok((command, id, env, cwd)) => (r matches Ok(t) && t.0@ == command && t.1 == id
                && env_view(t.2@) == env && t.3@ == cwd),
            Err(e) => r == Err::<
                (String, Option<u32>, Vec<(String, String)>, String),
                CodecError,
            >(e),
        },
{
    let ghost srun = buf.rest();
    {
        let command = match buf.get_utf8() {
            Ok(v) => v,
            Err(e) => {
                return Err(e);
            },
        };
        let ghost uc = match str_short_parse(srun) {
            Ok((t, u)) => u,
            Err(e) => 0,
        };
        proof {
            assert(buf.rest() =~= srun.skip(uc as int));
        }
        let ghost s1 = srun.skip(uc as int);
        let hasid = match buf.get_u8() {
            Ok(b) => b,
            Err(e) => {
                return Err(e);
            },
        };
        proof {
            assert(buf.rest() =~= s1.skip(1));
        }
        let ghost s2 = s1.skip(1);
        let id = if hasid != 0 {
            match buf.get_u32() {
                Ok(v) => Some(v),
                Err(e) => {
                    return Err(e);
                },
            }
        } else {
            None
        };
        proof {
            if hasid != 0 {
                assert(buf.rest() =~= s2.skip(4));
            }
        }
        let ghost s3 = if hasid != 0 {
            s2.skip(4)
        } else {
            s2
        };
        let count = match buf.get_u32() {
            Ok(v) => v,
            Err(e) => {
                return Err(e);
            },
        };
        proof {
            assert(buf.rest() =~= s3.skip(4));
            assert(de32(s3) == count);
        }
        let ghost e0 = s3.skip(4);
        let env = match read_env_entries(buf, count) {
            Ok(v) => v,
            Err(e) => {
                return Err(e);
            },
        };
        let ghost ue = match env_parse(e0, count as nat) {
            Ok((ps, u)) => u,
            Err(e) => 0,
        };
        proof {
            assert(buf.rest() =~= s3.skip(4 + ue as int));
        }
        let cwd = match buf.get_utf8() {
            Ok(v) => v,
            Err(e) => {
                return Err(e);
            },
        };
        Ok((command, id, env, cwd))
    }
}

/// Decodes a whole request, as the daemon must: the opcode byte picks
/// the layout, and one that the table does not name is a `Protocol`
/// error.
pub fn decode_request(data: Vec<u8>, table: &OpcodeTable) -> (r: Result<Request, CodecError>)
    ensures
        match request_parse(data@, *table) {
            Ok(shape) => match shape {
                RequestShape::RunShape { command, id, env, cwd } => (r matches Ok(
                    Request::Run { command: c, id: i, env: ev, cwd: w },
                ) && c@ == command && i == id && env_view(ev@) == env && w@ == cwd),
                RequestShape::StopShape { ids } => (r matches Ok(Request::Stop { ids: v }) && v@
                    == ids),
                RequestShape::RestartShape { ids } => (r matches Ok(Request::Restart { ids: v })
                    && v@ == ids),
                RequestShape::DeleteShape { ids } => (r matches Ok(Request::Delete { ids: v })
                    && v@ == ids),
                RequestShape::ListShape => r matches Ok(Request::List),
            },
            Err(e) => r == Err::<Request, CodecError>(e),
        },
{
    let ghost d = data@;
    let mut buf = StreamPeerBuffer::new();
    buf.set_data_array(data);
    proof {
        assert(buf.rest() =~= d);
    }
    let op = match buf.get_u8() {
        Ok(b) => b,
        Err(e) => {
            return Err(e);
        },
    };
    proof {
        assert(buf.rest() =~= d.skip(1));
    }
    if op == table.run {
        match read_run_fields(&mut buf) {
            Ok((command, id, env, cwd)) => Ok(Request::Run { command, id, env, cwd }),
            Err(e) => Err(e),
        }
    } else if op == table.stop {
        match read_ids(&mut buf) {
            Ok(ids) => Ok(Request::Stop { ids }),
            Err(e) => Err(e),
        }
    } else if op == table.restart {
        match read_ids(&mut buf) {
            Ok(ids) => Ok(Request::Restart { ids }),
            Err(e) => Err(e),
        }
    } else if op == table.delete {
        match read_ids(&mut buf) {
            Ok(ids) => Ok(Request::Delete { ids }),
            Err(e) => Err(e),
        }
    } else if op == table.list {
        Ok(Request::List)
    } else {
        Err(CodecError::Protocol)
    }
}

} // verus!
