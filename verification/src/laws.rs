//! The library's laws: properties of the decoder, dispatcher and store that
//! hold for all inputs, proved from the public contracts.

use vstd::prelude::*;
use crate::command::{ArgError, CommandModel, RequestModel, interp, is_echo_name, is_ping_name};
use crate::dispatch::{ProcModel, apply, pong_text, process, unknown_text};
use crate::encode::{ReplyModel, crlf, dec_rep, encoded_reply};
use crate::resp::{
    ArgsRes, BulkRes, FrameRes, LenRes, is_digit, lemma_args_bounds, lemma_bulk_bounds,
    lemma_frame_bounds, lemma_len_bounds, lemma_len_digits_bounds, parse_args, parse_bulk,
    parse_frame, parse_len, parse_len_digits,
};
use crate::store::{EntryModel, fresh_entry, live, lookup};

verus! {

/// `PING`, with any arguments and in any case, replies exactly `+PONG\r\n`
/// and leaves the store untouched.
pub proof fn lemma_ping_always_pong(
    args: Seq<Seq<u8>>,
    m: Map<Seq<u8>, EntryModel>,
    now: u64,
)
    requires
        args.len() >= 1,
        is_ping_name(args[0]),
    ensures
        encoded_reply(apply(m, interp(args), now).0) == seq![
            43u8, 80u8, 79u8, 78u8, 71u8, 13u8, 10u8,
        ],
        apply(m, interp(args), now).1 == m,
{
    assert(apply(m, interp(args), now).0 == ReplyModel::Simple(pong_text()));
    assert(seq![43u8] + pong_text() + crlf() =~= seq![43u8, 80u8, 79u8, 78u8, 71u8, 13u8, 10u8]);
}

/// `ECHO p` replies the bulk string `p` and leaves the store untouched.
pub proof fn lemma_echo_replies_payload(
    name: Seq<u8>,
    p: Seq<u8>,
    m: Map<Seq<u8>, EntryModel>,
    now: u64,
)
    requires
        is_echo_name(name),
    ensures
        apply(m, interp(seq![name, p]), now).0 == ReplyModel::Bulk(p),
        apply(m, interp(seq![name, p]), now).1 == m,
        encoded_reply(apply(m, interp(seq![name, p]), now).0) == seq![36u8] + dec_rep(p.len())
            + crlf() + p + crlf(),
{
    let args = seq![name, p];
    assert(!is_ping_name(name));
    assert(args.len() == 2);
    assert(interp(args) == RequestModel::Cmd(CommandModel::Echo(p)));
}

/// A `SET` followed by a `GET` of the same key returns the value written, as
/// long as the entry's TTL, if one was given, has not elapsed.
pub proof fn lemma_set_then_get(
    m: Map<Seq<u8>, EntryModel>,
    k: Seq<u8>,
    v: Seq<u8>,
    ttl: Option<u64>,
    now_set: u64,
    now_get: u64,
)
    requires
        live(fresh_entry(v, ttl, now_set), now_get),
    ensures
        ({
            let m2 = apply(m, RequestModel::Cmd(CommandModel::Put(k, v, ttl)), now_set).1;
            apply(m2, RequestModel::Cmd(CommandModel::Get(k)), now_get).0 == ReplyModel::Bulk(v)
        }),
{
    let m2 = apply(m, RequestModel::Cmd(CommandModel::Put(k, v, ttl)), now_set).1;
    assert(m2 == m.insert(k, fresh_entry(v, ttl, now_set)));
    assert(lookup(m2, k, now_get) == Option::Some(v));
}

/// A `SET` with `PX t` followed by a `GET` of the same key strictly after the
/// TTL has elapsed returns nil.
pub proof fn lemma_expired_get_is_nil(
    m: Map<Seq<u8>, EntryModel>,
    k: Seq<u8>,
    v: Seq<u8>,
    t: u64,
    now_set: u64,
    now_get: u64,
)
    requires
        now_set + t <= u64::MAX,
        now_get > now_set + t,
    ensures
        ({
            let m2 = apply(m, RequestModel::Cmd(CommandModel::Put(k, v, Option::Some(t))),
                now_set).1;
            apply(m2, RequestModel::Cmd(CommandModel::Get(k)), now_get).0 == ReplyModel::Nil
        }),
{
    let m2 = apply(m, RequestModel::Cmd(CommandModel::Put(k, v, Option::Some(t))), now_set).1;
    assert(!live(m2[k], now_get));
}

/// Writes to distinct keys do not interfere: after `SET k1 v1` and `SET k2
/// v2` (in that order, `k1 != k2`, no TTL), a `GET` of each key returns the
/// value written to it.
pub proof fn lemma_distinct_keys_no_lost_update(
    m: Map<Seq<u8>, EntryModel>,
    k1: Seq<u8>,
    v1: Seq<u8>,
    k2: Seq<u8>,
    v2: Seq<u8>,
    now: u64,
)
    requires
        k1 != k2,
    ensures
        ({
            let m1 = apply(m, RequestModel::Cmd(CommandModel::Put(k1, v1, Option::None)), now).1;
            let m2 = apply(m1, RequestModel::Cmd(CommandModel::Put(k2, v2, Option::None)), now).1;
            apply(m2, RequestModel::Cmd(CommandModel::Get(k1)), now).0 == ReplyModel::Bulk(v1)
                && apply(m2, RequestModel::Cmd(CommandModel::Get(k2)), now).0
                == ReplyModel::Bulk(v2)
        }),
{
}

proof fn lemma_len_digits_prefix(s1: Seq<u8>, s2: Seq<u8>, i: int, acc: int, fuel: int)
    requires
        0 <= i,
        0 <= acc,
        0 <= fuel,
        s1.len() <= s2.len(),
        forall|j: int| 0 <= j < s1.len() ==> s1[j] == s2[j],
        parse_len_digits(s2, i, acc, fuel) is Len,
    ensures
        ({
            let nx = parse_len_digits(s2, i, acc, fuel)->1;
            parse_len_digits(s1, i, acc, fuel) == if s1.len() < nx {
                LenRes::More
            } else {
                parse_len_digits(s2, i, acc, fuel)
            }
        }),
    decreases s2.len() - i,
{
    lemma_len_digits_bounds(s2, i, acc, fuel);
    if s2[i] == 13 {
    } else {
        lemma_len_digits_prefix(s1, s2, i + 1, acc * 10 + (s2[i] - 48), fuel - 1);
    }
}

proof fn lemma_len_prefix(s1: Seq<u8>, s2: Seq<u8>, i: int)
    requires
        0 <= i,
        s1.len() <= s2.len(),
        forall|j: int| 0 <= j < s1.len() ==> s1[j] == s2[j],
        parse_len(s2, i) is Len,
    ensures
        ({
            let nx = parse_len(s2, i)->1;
            parse_len(s1, i) == if s1.len() < nx {
                LenRes::More
            } else {
                parse_len(s2, i)
            }
        }),
{
    lemma_len_bounds(s2, i);
    lemma_len_digits_prefix(s1, s2, i, 0, crate::resp::MAX_LEN_DIGITS as int);
}

proof fn lemma_bulk_prefix(s1: Seq<u8>, s2: Seq<u8>, i: int)
    requires
        0 <= i,
        s1.len() <= s2.len(),
        forall|j: int| 0 <= j < s1.len() ==> s1[j] == s2[j],
        parse_bulk(s2, i) is Bulk,
    ensures
        ({
            let j = parse_bulk(s2, i)->1;
            parse_bulk(s1, i) == if s1.len() < j {
                BulkRes::More
            } else {
                parse_bulk(s2, i)
            }
        }),
{
    lemma_bulk_bounds(s2, i);
    lemma_len_prefix(s1, s2, i + 1);
    match parse_len(s2, i + 1) {
        LenRes::Len(n, j) => {
            lemma_len_bounds(s2, i + 1);
            if s1.len() >= j + n + 2 {
                assert(s1.subrange(j, j + n) =~= s2.subrange(j, j + n));
            }
        },
        _ => {},
    }
}

proof fn lemma_args_prefix(s1: Seq<u8>, s2: Seq<u8>, i: int, k: int)
    requires
        0 <= i <= s2.len(),
        s1.len() <= s2.len(),
        forall|j: int| 0 <= j < s1.len() ==> s1[j] == s2[j],
        parse_args(s2, i, k) is Args,
        k >= 1,
    ensures
        ({
            let end = parse_args(s2, i, k)->1;
            parse_args(s1, i, k) == if s1.len() < end {
                ArgsRes::More
            } else {
                parse_args(s2, i, k)
            }
        }),
    decreases k,
{
    lemma_args_bounds(s2, i, k);
    lemma_bulk_prefix(s1, s2, i);
    match parse_bulk(s2, i) {
        BulkRes::Bulk(p, j) => {
            lemma_bulk_bounds(s2, i);
            if k >= 2 {
                lemma_args_bounds(s2, j, k - 1);
                lemma_args_prefix(s1, s2, j, k - 1);
            }
        },
        _ => {},
    }
}

/// Parsing is insensitive to how the stream is cut: while a frame is
/// incomplete the parser asks for more bytes, never errs and never yields a
/// different frame, and once the frame's bytes are all present it yields the
/// identical frame the whole delivery yields.
pub proof fn lemma_frame_prefix(s: Seq<u8>, cut: int)
    requires
        0 <= cut <= s.len(),
        parse_frame(s) is Frame,
    ensures
        ({
            let n = parse_frame(s)->1;
            parse_frame(s.take(cut)) == if cut < n {
                FrameRes::More
            } else {
                parse_frame(s)
            }
        }),
{
    lemma_frame_bounds(s);
    let s1 = s.take(cut);
    if cut == 0 {
    } else {
        assert(s1[0] == s[0]);
        lemma_len_prefix(s1, s, 1);
        match parse_len(s, 1) {
            LenRes::Len(count, j) => {
                lemma_len_bounds(s, 1);
                lemma_args_prefix(s1, s, j, count);
            },
            _ => {},
        }
    }
}

/// A frame delivered across two reads decodes to the identical command the
/// whole delivery decodes to: the bytes before the cut alone make the
/// processor retain them all and answer nothing, and together with the bytes
/// after the cut they are exactly the whole delivery.
pub proof fn lemma_split_delivery(
    s: Seq<u8>,
    cut: int,
    m: Map<Seq<u8>, EntryModel>,
    now: u64,
)
    requires
        0 <= cut <= s.len(),
        parse_frame(s) is Frame,
        cut < parse_frame(s)->1,
    ensures
        process(s.take(cut), m, now) == (ProcModel {
            out: Seq::<u8>::empty(),
            store: m,
            rest: s.take(cut),
            closed: false,
        }),
        s.take(cut) + s.skip(cut) == s,
{
    lemma_frame_prefix(s, cut);
    assert(s.take(cut) + s.skip(cut) =~= s);
}

proof fn lemma_len_digits_ext(s1: Seq<u8>, s2: Seq<u8>, i: int, acc: int, fuel: int)
    requires
        0 <= i,
        0 <= acc,
        s1.len() <= s2.len(),
        forall|j: int| 0 <= j < s1.len() ==> s1[j] == s2[j],
        !(parse_len_digits(s1, i, acc, fuel) is More),
    ensures
        parse_len_digits(s2, i, acc, fuel) == parse_len_digits(s1, i, acc, fuel),
    decreases s1.len() - i,
{
    if !(acc > crate::MAX_FRAME_BYTES as int) && i < s1.len() {
        if s1[i] == 13 {
        } else if is_digit(s1[i]) && fuel > 0 {
            lemma_len_digits_ext(s1, s2, i + 1, acc * 10 + (s1[i] - 48), fuel - 1);
        }
    }
}

proof fn lemma_len_ext(s1: Seq<u8>, s2: Seq<u8>, i: int)
    requires
        0 <= i,
        s1.len() <= s2.len(),
        forall|j: int| 0 <= j < s1.len() ==> s1[j] == s2[j],
        !(parse_len(s1, i) is More),
    ensures
        parse_len(s2, i) == parse_len(s1, i),
{
    if i < s1.len() && is_digit(s1[i]) {
        lemma_len_digits_ext(s1, s2, i, 0, crate::resp::MAX_LEN_DIGITS as int);
    }
}

proof fn lemma_bulk_ext(s1: Seq<u8>, s2: Seq<u8>, i: int)
    requires
        0 <= i,
        s1.len() <= s2.len(),
        forall|j: int| 0 <= j < s1.len() ==> s1[j] == s2[j],
        !(parse_bulk(s1, i) is More),
    ensures
        parse_bulk(s2, i) == parse_bulk(s1, i),
{
    if i < s1.len() && s1[i] == 36 {
        if !(parse_len(s1, i + 1) is More) {
            lemma_len_ext(s1, s2, i + 1);
            match parse_len(s1, i + 1) {
                LenRes::Len(n, j) => {
                    lemma_len_bounds(s1, i + 1);
                    if j + n + 2 <= s1.len() {
                        assert(s1.subrange(j, j + n) =~= s2.subrange(j, j + n));
                    }
                },
                _ => {},
            }
        }
    }
}

proof fn lemma_args_ext(s1: Seq<u8>, s2: Seq<u8>, i: int, k: int)
    requires
        0 <= i <= s1.len(),
        s1.len() <= s2.len(),
        forall|j: int| 0 <= j < s1.len() ==> s1[j] == s2[j],
        !(parse_args(s1, i, k) is More),
    ensures
        parse_args(s2, i, k) == parse_args(s1, i, k),
    decreases k,
{
    if k >= 1 {
        lemma_bulk_ext(s1, s2, i);
        match parse_bulk(s1, i) {
            BulkRes::Bulk(p, j) => {
                lemma_bulk_bounds(s1, i);
                lemma_args_ext(s1, s2, j, k - 1);
            },
            _ => {},
        }
    }
}

/// A parse verdict, once reached, is stable: a buffer that already holds a
/// complete frame, or is already malformed, parses the same however many
/// bytes arrive after it. Only `NeedMoreData` can change on a longer buffer.
pub proof fn lemma_verdict_stable(s: Seq<u8>, ext: Seq<u8>)
    requires
        !(parse_frame(s) is More),
    ensures
        parse_frame(s + ext) == parse_frame(s),
{
    let s2 = s + ext;
    if s.len() == 0 {
    } else {
        assert(s2[0] == s[0]);
        if s[0] == 42 {
            if !(parse_len(s, 1) is More) {
                lemma_len_ext(s, s2, 1);
                match parse_len(s, 1) {
                    LenRes::Len(count, j) => {
                        lemma_len_bounds(s, 1);
                        if count >= 1 {
                            lemma_args_ext(s, s2, j, count);
                        }
                    },
                    _ => {},
                }
            }
        }
    }
}

/// Processing a stream in two chunks equals processing it at once: feeding
/// `s1` and then its retained rest together with `s2` answers, in order,
/// exactly what feeding `s1 + s2` answers, and leaves the same store, buffer
/// and connection state. Hence how reads cut the byte stream never matters.
pub proof fn lemma_process_append(
    s1: Seq<u8>,
    s2: Seq<u8>,
    m: Map<Seq<u8>, EntryModel>,
    now: u64,
)
    ensures
        ({
            let head = process(s1, m, now);
            let tail = process(head.rest + s2, head.store, now);
            !head.closed ==> process(s1 + s2, m, now) == (ProcModel {
                out: head.out + tail.out,
                store: tail.store,
                rest: tail.rest,
                closed: tail.closed,
            })
        }),
    decreases s1.len(),
{
    let head = process(s1, m, now);
    match parse_frame(s1) {
        FrameRes::More => {
            assert(head.rest + s2 == s1 + s2);
            let tail = process(head.rest + s2, head.store, now);
            assert(Seq::<u8>::empty() + tail.out =~= tail.out);
        },
        FrameRes::Bad => {},
        FrameRes::Frame(args, n) => {
            lemma_frame_bounds(s1);
            lemma_verdict_stable(s1, s2);
            assert(parse_frame(s1 + s2) == FrameRes::Frame(args, n));
            let m2 = apply(m, interp(args), now).1;
            let rep = apply(m, interp(args), now).0;
            assert((s1 + s2).skip(n) =~= s1.skip(n) + s2);
            lemma_process_append(s1.skip(n), s2, m2, now);
            let tail1 = process(s1.skip(n), m2, now);
            if !tail1.closed {
                let qq = process(tail1.rest + s2, tail1.store, now);
                assert(encoded_reply(rep) + (tail1.out + qq.out) =~= (encoded_reply(rep)
                    + tail1.out) + qq.out);
            }
        },
    }
}

/// A connection's retained buffer is bounded: whatever bytes arrive, what
/// processing keeps for the next read stays within a few bytes of the frame
/// size limit, because the decoder asks for more bytes only while the front
/// of the buffer is an incomplete frame of admissible size. This is the
/// memory guard against a slow or hostile sender.
pub proof fn lemma_retained_buffer_bounded(s: Seq<u8>, m: Map<Seq<u8>, EntryModel>, now: u64)
    ensures
        process(s, m, now).rest.len() <= crate::MAX_FRAME_BYTES + crate::resp::MAX_LEN_DIGITS + 2,
    decreases s.len(),
{
    match parse_frame(s) {
        FrameRes::More => {
            crate::resp::lemma_needs_more_is_bounded(s);
        },
        FrameRes::Bad => {},
        FrameRes::Frame(args, n) => {
            lemma_frame_bounds(s);
            let m2 = apply(m, interp(args), now).1;
            lemma_retained_buffer_bounded(s.skip(n), m2, now);
        },
    }
}

/// An unknown command is answered with an error reply that names it, leaves
/// the store untouched, and does not close the connection: the bytes after
/// its frame are processed exactly as they would be on a fresh buffer.
pub proof fn lemma_unknown_keeps_connection(
    s: Seq<u8>,
    m: Map<Seq<u8>, EntryModel>,
    now: u64,
)
    requires
        parse_frame(s) is Frame,
        interp(parse_frame(s)->0) matches RequestModel::Cmd(CommandModel::Unknown(_n, _a)),
    ensures
        ({
            let args = parse_frame(s)->0;
            let n = parse_frame(s)->1;
            let tail = process(s.skip(n), m, now);
            interp(args) matches RequestModel::Cmd(CommandModel::Unknown(nm, _a2))
                ==> process(s, m, now) == (ProcModel {
                out: encoded_reply(ReplyModel::Error(unknown_text(nm))) + tail.out,
                store: tail.store,
                rest: tail.rest,
                closed: tail.closed,
            })
        }),
{
    lemma_frame_bounds(s);
}

} // verus!
