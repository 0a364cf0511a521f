//! Dispatching commands against the store, and the per-connection loop that
//! drives decoder, dispatcher and encoder over a byte stream.
//!
//! `apply` is the mathematical transition of the whole server: one request
//! takes the store mapping to its successor and names the reply. `process`
//! extends it to a buffered byte stream: every complete frame at the front is
//! decoded, applied and answered, a partial frame is kept for the next read,
//! and a malformed frame is answered with one error reply and closes the
//! connection.

use vstd::prelude::*;
use crate::command::{
    ArgError, Command, CommandModel, DecodeOutcome, Request, RequestModel, decode_request, interp,
};
use crate::encode::{Reply, ReplyModel, encode_reply, encoded_reply, push_all};
use crate::resp::{FrameRes, lemma_frame_bounds, parse_frame};
use crate::store::{EntryModel, KvStore, fresh_entry, lookup};

verus! {

/// `PONG`.
pub open spec fn pong_text() -> Seq<u8> {
    seq![80u8, 79u8, 78u8, 71u8]
}

/// `OK`.
pub open spec fn ok_text() -> Seq<u8> {
    seq![79u8, 75u8]
}

/// `wrong number of arguments`.
pub open spec fn arity_text() -> Seq<u8> {
    seq![
        119u8, 114u8, 111u8, 110u8, 103u8, 32u8, 110u8, 117u8, 109u8, 98u8, 101u8, 114u8, 32u8,
        111u8, 102u8, 32u8, 97u8, 114u8, 103u8, 117u8, 109u8, 101u8, 110u8, 116u8, 115u8,
    ]
}

/// `value is not an integer`.
pub open spec fn bad_ttl_text() -> Seq<u8> {
    seq![
        118u8, 97u8, 108u8, 117u8, 101u8, 32u8, 105u8, 115u8, 32u8, 110u8, 111u8, 116u8, 32u8,
        97u8, 110u8, 32u8, 105u8, 110u8, 116u8, 101u8, 103u8, 101u8, 114u8,
    ]
}

/// `protocol error`.
pub open spec fn protocol_text() -> Seq<u8> {
    seq![112u8, 114u8, 111u8, 116u8, 111u8, 99u8, 111u8, 108u8, 32u8, 101u8, 114u8, 114u8, 111u8,
        114u8]
}

/// A command name as an error reply may echo it: CR and LF are dropped, so
/// a client-chosen name cannot forge a reply boundary inside the byte-exact
/// `-ERR <message>\r\n` framing.
pub open spec fn sanitized(name: Seq<u8>) -> Seq<u8> {
    name.filter(|b: u8| b != 13 && b != 10)
}

proof fn lemma_sanitized_push(s: Seq<u8>, b: u8)
    ensures
        sanitized(s.push(b)) == if b != 13 && b != 10 {
            sanitized(s).push(b)
        } else {
            sanitized(s)
        },
{
    reveal(Seq::filter);
    assert(s.push(b).drop_last() =~= s);
    assert(s.push(b).last() == b);
}

/// `unknown command '<name>'`, the name sanitized.
pub open spec fn unknown_text(name: Seq<u8>) -> Seq<u8> {
    seq![117u8, 110u8, 107u8, 110u8, 111u8, 119u8, 110u8, 32u8, 99u8, 111u8, 109u8, 109u8, 97u8,
        110u8, 100u8, 32u8, 39u8] + sanitized(name) + seq![39u8]
}

/// The bytes of `name` with CR and LF dropped.
fn sanitize(name: &[u8]) -> (v: Vec<u8>)
    ensures
        v@ == sanitized(name@),
{
    let mut v: Vec<u8> = Vec::new();
    proof {
        reveal(Seq::filter);
        assert(name@.take(0).len() == 0);
        assert(v@ == sanitized(name@.take(0)));
    }
    let mut i: usize = 0;
    while i < name.len()
        invariant
            i <= name@.len(),
            v@ == sanitized(name@.take(i as int)),
        decreases name@.len() - i,
    {
        let b = name[i];
        proof {
            assert(name@.take(i + 1) =~= name@.take(i as int).push(name@[i as int]));
            lemma_sanitized_push(name@.take(i as int), name@[i as int]);
        }
        if b != 13 && b != 10 {
            v.push(b);
        }
        i = i + 1;
    }
    proof {
        assert(name@.take(name@.len() as int) =~= name@);
    }
    v
}

fn pong_vec() -> (v: Vec<u8>)
    ensures
        v@ == pong_text(),
{
    let mut v: Vec<u8> = Vec::new();
    v.push(80);
    v.push(79);
    v.push(78);
    v.push(71);
    proof {
        assert(v@ =~= pong_text());
    }
    v
}

fn ok_vec() -> (v: Vec<u8>)
    ensures
        v@ == ok_text(),
{
    let mut v: Vec<u8> = Vec::new();
    v.push(79);
    v.push(75);
    proof {
        assert(v@ =~= ok_text());
    }
    v
}

fn arity_vec() -> (v: Vec<u8>)
    ensures
        v@ == arity_text(),
{
    let mut v: Vec<u8> = Vec::new();
    v.push(119);
    v.push(114);
    v.push(111);
    v.push(110);
    v.push(103);
    v.push(32);
    v.push(110);
    v.push(117);
    v.push(109);
    v.push(98);
    v.push(101);
    v.push(114);
    v.push(32);
    v.push(111);
    v.push(102);
    v.push(32);
    v.push(97);
    v.push(114);
    v.push(103);
    v.push(117);
    v.push(109);
    v.push(101);
    v.push(110);
    v.push(116);
    v.push(115);
    proof {
        assert(v@ =~= arity_text());
    }
    v
}

fn bad_ttl_vec() -> (v: Vec<u8>)
    ensures
        v@ == bad_ttl_text(),
{
    let mut v: Vec<u8> = Vec::new();
    v.push(118);
    v.push(97);
    v.push(108);
    v.push(117);
    v.push(101);
    v.push(32);
    v.push(105);
    v.push(115);
    v.push(32);
    v.push(110);
    v.push(111);
    v.push(116);
    v.push(32);
    v.push(97);
    v.push(110);
    v.push(32);
    v.push(105);
    v.push(110);
    v.push(116);
    v.push(101);
    v.push(103);
    v.push(101);
    v.push(114);
    proof {
        assert(v@ =~= bad_ttl_text());
    }
    v
}

fn protocol_vec() -> (v: Vec<u8>)
    ensures
        v@ == protocol_text(),
{
    let mut v: Vec<u8> = Vec::new();
    v.push(112);
    v.push(114);
    v.push(111);
    v.push(116);
    v.push(111);
    v.push(99);
    v.push(111);
    v.push(108);
    v.push(32);
    v.push(101);
    v.push(114);
    v.push(114);
    v.push(111);
    v.push(114);
    proof {
        assert(v@ =~= protocol_text());
    }
    v
}

fn unknown_vec(name: &[u8]) -> (v: Vec<u8>)
    ensures
        v@ == unknown_text(name@),
{
    let mut v: Vec<u8> = Vec::new();
    v.push(117);
    v.push(110);
    v.push(107);
    v.push(110);
    v.push(111);
    v.push(119);
    v.push(110);
    v.push(32);
    v.push(99);
    v.push(111);
    v.push(109);
    v.push(109);
    v.push(97);
    v.push(110);
    v.push(100);
    v.push(32);
    v.push(39);
    let clean = sanitize(name);
    push_all(&mut v, clean.as_slice());
    v.push(39);
    proof {
        assert(v@ =~= unknown_text(name@));
    }
    v
}

/// The server's transition: what one request replies and what it leaves in
/// the store. `PING` replies `PONG` whatever its arguments; `ECHO` replies
/// its payload; `SET` replaces the key's entry wholesale and replies `OK`;
/// `GET` replies the live value or nil; an unknown command and an argument
/// error reply an error and leave the store unchanged.
pub open spec fn apply(
    m: Map<Seq<u8>, EntryModel>,
    req: RequestModel,
    now: u64,
) -> (ReplyModel, Map<Seq<u8>, EntryModel>) {
    match req {
        RequestModel::Cmd(CommandModel::Ping) => (ReplyModel::Simple(pong_text()), m),
        RequestModel::Cmd(CommandModel::Echo(p)) => (ReplyModel::Bulk(p), m),
        RequestModel::Cmd(CommandModel::Put(k, v, t)) => (
            ReplyModel::Simple(ok_text()),
            m.insert(k, fresh_entry(v, t, now)),
        ),
        RequestModel::Cmd(CommandModel::Get(k)) => (
            match lookup(m, k, now) {
                Option::Some(v) => ReplyModel::Bulk(v),
                Option::None => ReplyModel::Nil,
            },
            m,
        ),
        RequestModel::Cmd(CommandModel::Unknown(n, _a)) => (
            ReplyModel::Error(unknown_text(n)),
            m,
        ),
        RequestModel::Invalid(ArgError::Arity) => (ReplyModel::Error(arity_text()), m),
        RequestModel::Invalid(ArgError::BadTtl) => (ReplyModel::Error(bad_ttl_text()), m),
    }
}

/// Executes one request against the store at time `now` and returns the
/// reply, exactly as [`apply`] says.
pub fn dispatch(store: &mut KvStore, req: Request, now: u64) -> (r: Reply)
    requires
        old(store).wf(),
    ensures
        final(store).wf(),
        r@ == apply(old(store)@, req@, now).0,
        final(store)@ == apply(old(store)@, req@, now).1,
{
    match req {
        Request::Cmd(Command::Ping) => Reply::Simple(pong_vec()),
        Request::Cmd(Command::Echo(p)) => Reply::Bulk(p),
        Request::Cmd(Command::Put(k, v, t)) => {
            store.set(k, v, t, now);
            Reply::Simple(ok_vec())
        },
        Request::Cmd(Command::Get(k)) => match store.get(k.as_slice(), now) {
            Option::Some(v) => Reply::Bulk(v),
            Option::None => Reply::Nil,
        },
        Request::Cmd(Command::Unknown(n, _a)) => Reply::Error(unknown_vec(n.as_slice())),
        Request::Invalid(ArgError::Arity) => Reply::Error(arity_vec()),
        Request::Invalid(ArgError::BadTtl) => Reply::Error(bad_ttl_vec()),
    }
}

/// What processing a buffer leaves behind: the reply bytes written, the store
/// mapping, the bytes retained for the next read, and whether the connection
/// is to be closed.
pub struct ProcModel {
    pub out: Seq<u8>,
    pub store: Map<Seq<u8>, EntryModel>,
    pub rest: Seq<u8>,
    pub closed: bool,
}

/// Processes every complete frame at the front of `s` against the mapping
/// `m` at time `now`. A partial frame is retained unconsumed; a malformed or
/// oversized frame is answered with one error reply and closes the
/// connection, discarding the rest of the stream.
pub open spec fn process(s: Seq<u8>, m: Map<Seq<u8>, EntryModel>, now: u64) -> ProcModel
    decreases s.len(),
{
    match parse_frame(s) {
        FrameRes::More => ProcModel { out: Seq::empty(), store: m, rest: s, closed: false },
        FrameRes::Bad => ProcModel {
            out: encoded_reply(ReplyModel::Error(protocol_text())),
            store: m,
            rest: Seq::empty(),
            closed: true,
        },
        FrameRes::Frame(args, n) => {
            proof {
                lemma_frame_bounds(s);
            }
            let (rep, m2) = apply(m, interp(args), now);
            let tail = process(s.skip(n), m2, now);
            ProcModel {
                out: encoded_reply(rep) + tail.out,
                store: tail.store,
                rest: tail.rest,
                closed: tail.closed,
            }
        },
    }
}

/// Decodes and executes every complete frame at the front of `buf`,
/// appending the replies to `out`; returns the retained bytes and whether
/// the connection is to be closed, exactly as [`process`] says.
#[verifier::loop_isolation(false)]
fn run_frames(buf: Vec<u8>, store: &mut KvStore, now: u64, out: &mut Vec<u8>) -> (r: (Vec<u8>, bool))
    requires
        old(store).wf(),
    ensures
        final(store).wf(),
        final(store)@ == process(buf@, old(store)@, now).store,
        final(out)@ == old(out)@ + process(buf@, old(store)@, now).out,
        r.0@ == process(buf@, old(store)@, now).rest,
        r.1 == process(buf@, old(store)@, now).closed,
{
    let ghost orig = buf@;
    let ghost m_orig = old(store)@;
    let ghost out0 = old(out)@;
    let mut buf = buf;
    proof {
        assert(out0.take(out0.len() as int) =~= out0);
        assert(out0.skip(out0.len() as int) + process(orig, m_orig, now).out =~= process(
            orig,
            m_orig,
            now,
        ).out);
    }
    loop
        invariant
            store.wf(),
            out0.len() <= out@.len(),
            out@.take(out0.len() as int) == out0,
            process(orig, m_orig, now).store == process(buf@, store@, now).store,
            process(orig, m_orig, now).out == out@.skip(out0.len() as int) + process(
                buf@,
                store@,
                now,
            ).out,
            process(orig, m_orig, now).rest == process(buf@, store@, now).rest,
            process(orig, m_orig, now).closed == process(buf@, store@, now).closed,
        decreases buf@.len(),
    {
        match decode_request(buf.as_slice()) {
            DecodeOutcome::NeedMoreData => {
                proof {
                    assert(out@.skip(out0.len() as int) + process(buf@, store@, now).out
                        =~= out@.skip(out0.len() as int));
                    assert(out@ =~= out0 + out@.skip(out0.len() as int));
                }
                return (buf, false);
            },
            DecodeOutcome::ProtocolError => {
                let ghost ocur = out@;
                let e = encode_reply(&Reply::Error(protocol_vec()));
                push_all(out, e.as_slice());
                let rest: Vec<u8> = Vec::new();
                proof {
                    assert(rest@ =~= process(buf@, store@, now).rest);
                    assert(ocur =~= out0 + ocur.skip(out0.len() as int));
                    assert(out@.skip(out0.len() as int) =~= ocur.skip(out0.len() as int) + e@);
                    assert(out@ =~= out0 + out@.skip(out0.len() as int));
                }
                return (rest, true);
            },
            DecodeOutcome::Parsed(req, n) => {
                let ghost bcur = buf@;
                let ghost ocur = out@;
                let rep = dispatch(store, req, now);
                let e = encode_reply(&rep);
                push_all(out, e.as_slice());
                let tail = vstd::slice::slice_to_vec(
                    vstd::slice::slice_subrange(buf.as_slice(), n, buf.len()),
                );
                buf = tail;
                proof {
                    assert(buf@ =~= bcur.skip(n as int));
                    assert(out@.take(out0.len() as int) =~= out0);
                    assert(out@.skip(out0.len() as int) =~= ocur.skip(out0.len() as int) + e@);
                    assert(ocur.skip(out0.len() as int) + (e@ + process(buf@, store@, now).out)
                        =~= (ocur.skip(out0.len() as int) + e@) + process(buf@, store@, now).out);
                }
            },
        }
    }
}

/// One client connection: the bytes received but not yet consumed by a
/// complete frame, and whether a protocol error has closed it.
pub struct Connection {
    pub buf: Vec<u8>,
    pub closed: bool,
}

impl Connection {
    /// A fresh connection: nothing buffered, open.
    pub fn new() -> (c: Connection)
        ensures
            c.buf@ == Seq::<u8>::empty(),
            !c.closed,
    {
        Connection { buf: Vec::new(), closed: false }
    }

    /// Hands the connection the bytes of one socket read and executes every
    /// complete frame now buffered, at time `now`; returns the reply bytes to
    /// write back. Unconsumed bytes stay buffered for the next read, so a
    /// frame may arrive split at any point; on a malformed frame the error
    /// reply is returned and the connection closes. A closed connection
    /// ignores its input. What stays buffered is bounded whatever arrives:
    /// see `laws::lemma_retained_buffer_bounded`.
    pub fn feed(&mut self, data: &[u8], store: &mut KvStore, now: u64) -> (out: Vec<u8>)
        requires
            old(store).wf(),
        ensures
            final(store).wf(),
            old(self).closed ==> *final(self) == *old(self) && final(store)@ == old(store)@
                && out@ == Seq::<u8>::empty(),
            !old(self).closed ==> {
                let p = process(old(self).buf@ + data@, old(store)@, now);
                &&& out@ == p.out
                &&& final(self).buf@ == p.rest
                &&& final(self).closed == p.closed
                &&& final(store)@ == p.store
            },
    {
        if self.closed {
            return Vec::new();
        }
        push_all(&mut self.buf, data);
        let mut b: Vec<u8> = Vec::new();
        core::mem::swap(&mut b, &mut self.buf);
        let mut out: Vec<u8> = Vec::new();
        let (rest, closed) = run_frames(b, store, now, &mut out);
        self.buf = rest;
        self.closed = closed;
        out
    }
}

} // verus!
