//! The incremental RESP frame decoder.
//!
//! A request frame is `*<count>\r\n` followed by `count` bulk strings, each
//! `$<len>\r\n<len bytes>\r\n`. The grammar is defined by spec functions over
//! byte sequences; the executable scanner mirrors them and is proved to return
//! exactly what they say. Every parse attempt yields one of three outcomes:
//! the frame is complete, more bytes are needed, or the input can never become
//! a well-formed frame (malformed or oversized).

use vstd::prelude::*;
use crate::MAX_FRAME_BYTES;

verus! {

/// Outcome of parsing one length line `<digits>\r\n`: the value and the index
/// just past the line, or `More` (ran off the end), or `Bad` (malformed or
/// over the size limit).
pub enum LenRes {
    More,
    Bad,
    Len(int, int),
}

/// Outcome of parsing one bulk string: its payload and the index just past
/// its trailing `\r\n`.
pub enum BulkRes {
    More,
    Bad,
    Bulk(Seq<u8>, int),
}

/// Outcome of parsing a run of bulk strings: the payloads in order and the
/// index just past the last one.
pub enum ArgsRes {
    More,
    Bad,
    Args(Seq<Seq<u8>>, int),
}

/// Outcome of parsing a whole frame: its arguments and the number of bytes
/// the frame occupies.
pub enum FrameRes {
    More,
    Bad,
    Frame(Seq<Seq<u8>>, int),
}

/// The most digits a length line may hold. Seven digits express every value
/// up to the frame size limit and more, so the cap rejects no admissible
/// value; it does bound the line itself, so that even a run of `0` digits
/// cannot make the decoder ask for more bytes forever.
pub const MAX_LEN_DIGITS: usize = 7;

pub open spec fn is_digit(b: u8) -> bool {
    48 <= b && b <= 57
}

/// Parses decimal digits starting at `i` with the value read so far in `acc`
/// and `fuel` digits still allowed, up to and including a terminating `\r\n`.
/// A value exceeding the frame size limit, or a digit beyond the allowance,
/// is malformed: both the value and the length of the line are bounded.
pub open spec fn parse_len_digits(s: Seq<u8>, i: int, acc: int, fuel: int) -> LenRes
    decreases s.len() - i,
{
    if acc > MAX_FRAME_BYTES as int {
        LenRes::Bad
    } else if i >= s.len() {
        LenRes::More
    } else if s[i] == 13 {
        if i + 1 >= s.len() {
            LenRes::More
        } else if s[i + 1] == 10 {
            LenRes::Len(acc, i + 2)
        } else {
            LenRes::Bad
        }
    } else if is_digit(s[i]) {
        if fuel <= 0 {
            LenRes::Bad
        } else {
            parse_len_digits(s, i + 1, acc * 10 + (s[i] - 48), fuel - 1)
        }
    } else {
        LenRes::Bad
    }
}

/// Parses a length line at `i`: one to [`MAX_LEN_DIGITS`] digits, then
/// `\r\n`. A leading non-digit (a minus sign included) is malformed, so
/// negative counts and lengths are rejected here.
pub open spec fn parse_len(s: Seq<u8>, i: int) -> LenRes {
    if i >= s.len() {
        LenRes::More
    } else if !is_digit(s[i]) {
        LenRes::Bad
    } else {
        parse_len_digits(s, i, 0, MAX_LEN_DIGITS as int)
    }
}

/// Parses one bulk string `$<len>\r\n<payload>\r\n` at `i`. A bulk whose end
/// would lie past `MAX_FRAME_BYTES` is malformed: this is the decoder's guard
/// against unbounded buffering.
pub open spec fn parse_bulk(s: Seq<u8>, i: int) -> BulkRes {
    if i >= s.len() {
        BulkRes::More
    } else if s[i] != 36 {
        BulkRes::Bad
    } else {
        match parse_len(s, i + 1) {
            LenRes::More => BulkRes::More,
            LenRes::Bad => BulkRes::Bad,
            LenRes::Len(n, j) => {
                if j + n + 2 > MAX_FRAME_BYTES as int {
                    BulkRes::Bad
                } else if j + n + 2 > s.len() {
                    BulkRes::More
                } else if s[j + n] == 13 && s[j + n + 1] == 10 {
                    BulkRes::Bulk(s.subrange(j, j + n), j + n + 2)
                } else {
                    BulkRes::Bad
                }
            },
        }
    }
}

/// Parses `k` consecutive bulk strings starting at `i`.
pub open spec fn parse_args(s: Seq<u8>, i: int, k: int) -> ArgsRes
    decreases k,
{
    if k <= 0 {
        ArgsRes::Args(Seq::empty(), i)
    } else {
        match parse_bulk(s, i) {
            BulkRes::More => ArgsRes::More,
            BulkRes::Bad => ArgsRes::Bad,
            BulkRes::Bulk(p, j) => match parse_args(s, j, k - 1) {
                ArgsRes::More => ArgsRes::More,
                ArgsRes::Bad => ArgsRes::Bad,
                ArgsRes::Args(rest, end) => ArgsRes::Args(seq![p] + rest, end),
            },
        }
    }
}

/// Parses a whole frame at the front of `s`: `*<count>\r\n` with `count >= 1`,
/// then `count` bulk strings. A zero count leaves no command name and is
/// malformed.
pub open spec fn parse_frame(s: Seq<u8>) -> FrameRes {
    if s.len() == 0 {
        FrameRes::More
    } else if s[0] != 42 {
        FrameRes::Bad
    } else {
        match parse_len(s, 1) {
            LenRes::More => FrameRes::More,
            LenRes::Bad => FrameRes::Bad,
            LenRes::Len(count, j) => {
                if count < 1 {
                    FrameRes::Bad
                } else {
                    match parse_args(s, j, count) {
                        ArgsRes::More => FrameRes::More,
                        ArgsRes::Bad => FrameRes::Bad,
                        ArgsRes::Args(args, end) => FrameRes::Frame(args, end),
                    }
                }
            },
        }
    }
}

/// A parsed length line lies within the input, past its start, within the
/// size limit, and within the digit allowance.
pub proof fn lemma_len_digits_bounds(s: Seq<u8>, i: int, acc: int, fuel: int)
    requires
        0 <= i,
        0 <= acc,
        0 <= fuel,
    ensures
        parse_len_digits(s, i, acc, fuel) matches LenRes::Len(v, nx) ==> i + 2 <= nx <= s.len()
            && nx <= i + fuel + 2 && 0 <= v <= MAX_FRAME_BYTES as int,
    decreases s.len() - i,
{
    if acc > MAX_FRAME_BYTES as int || i >= s.len() {
    } else if s[i] == 13 {
    } else if is_digit(s[i]) && fuel > 0 {
        lemma_len_digits_bounds(s, i + 1, acc * 10 + (s[i] - 48), fuel - 1);
    }
}

/// A length line still incomplete at the end of the input reaches at most
/// `fuel + 1` bytes past `i`: the digit allowance bounds how long the decoder
/// can keep asking for more bytes.
pub proof fn lemma_len_digits_more(s: Seq<u8>, i: int, acc: int, fuel: int)
    requires
        0 <= fuel,
    ensures
        parse_len_digits(s, i, acc, fuel) is More ==> s.len() <= i + fuel + 1,
    decreases s.len() - i,
{
    if acc > MAX_FRAME_BYTES as int || i >= s.len() {
    } else if s[i] == 13 {
    } else if is_digit(s[i]) && fuel > 0 {
        lemma_len_digits_more(s, i + 1, acc * 10 + (s[i] - 48), fuel - 1);
    }
}

/// A parsed length line lies within the input, past its start, within the
/// size limit, and within the digit allowance.
pub proof fn lemma_len_bounds(s: Seq<u8>, i: int)
    requires
        0 <= i,
    ensures
        parse_len(s, i) matches LenRes::Len(v, nx) ==> i + 3 <= nx <= s.len()
            && nx <= i + MAX_LEN_DIGITS + 2 && 0 <= v <= MAX_FRAME_BYTES as int,
{
    if i < s.len() && is_digit(s[i]) {
        assert(parse_len_digits(s, i, 0, MAX_LEN_DIGITS as int) == parse_len_digits(
            s,
            i + 1,
            (s[i] - 48) as int,
            MAX_LEN_DIGITS as int - 1,
        ));
        lemma_len_digits_bounds(s, i + 1, (s[i] - 48) as int, MAX_LEN_DIGITS as int - 1);
    }
}

/// A length line still incomplete at the end of the input reaches at most a
/// few bytes past its start.
pub proof fn lemma_len_more(s: Seq<u8>, i: int)
    requires
        0 <= i,
    ensures
        parse_len(s, i) is More ==> s.len() <= i + MAX_LEN_DIGITS + 1,
{
    if i < s.len() && is_digit(s[i]) {
        lemma_len_digits_more(s, i, 0, MAX_LEN_DIGITS as int);
    }
}

/// A parsed bulk string lies within the input and ends within the size limit.
pub proof fn lemma_bulk_bounds(s: Seq<u8>, i: int)
    requires
        0 <= i,
    ensures
        parse_bulk(s, i) matches BulkRes::Bulk(p, j) ==> i + 6 <= j <= s.len()
            && j <= MAX_FRAME_BYTES as int && p.len() <= MAX_FRAME_BYTES as int,
{
    if i < s.len() && s[i] == 36 {
        lemma_len_bounds(s, i + 1);
    }
}

/// A parsed run of bulk strings lies within the input, has exactly `k`
/// elements, and moves the position forward when `k >= 1`.
pub proof fn lemma_args_bounds(s: Seq<u8>, i: int, k: int)
    requires
        0 <= i <= s.len(),
    ensures
        parse_args(s, i, k) matches ArgsRes::Args(a, end) ==> i <= end <= s.len()
            && a.len() == if k <= 0 { 0int } else { k }
            && (k >= 1 ==> i + 6 <= end),
    decreases k,
{
    if k > 0 {
        lemma_bulk_bounds(s, i);
        match parse_bulk(s, i) {
            BulkRes::Bulk(p, j) => {
                lemma_args_bounds(s, j, k - 1);
            },
            _ => {},
        }
    }
}

/// A parsed frame occupies at least one byte and lies within the input, and
/// has at least its command name as an argument.
pub proof fn lemma_frame_bounds(s: Seq<u8>)
    ensures
        parse_frame(s) matches FrameRes::Frame(args, n) ==> 1 <= n <= s.len()
            && args.len() >= 1,
{
    if s.len() > 0 && s[0] == 42 {
        lemma_len_bounds(s, 1);
        match parse_len(s, 1) {
            LenRes::Len(count, j) => {
                if count >= 1 {
                    lemma_args_bounds(s, j, count);
                }
            },
            _ => {},
        }
    }
}

/// A bulk string still incomplete at the end of the input keeps the input
/// within the frame size limit, or within a few bytes of its own start.
pub proof fn lemma_bulk_more(s: Seq<u8>, i: int)
    requires
        0 <= i,
    ensures
        parse_bulk(s, i) is More ==> s.len() <= i + MAX_LEN_DIGITS + 2
            || s.len() < MAX_FRAME_BYTES as int,
{
    if i < s.len() && s[i] == 36 {
        lemma_len_more(s, i + 1);
        lemma_len_bounds(s, i + 1);
    }
}

/// A run of bulk strings still incomplete at the end of the input keeps the
/// input within a few bytes of the frame size limit.
pub proof fn lemma_args_more(s: Seq<u8>, i: int, k: int)
    requires
        0 <= i <= MAX_FRAME_BYTES as int,
    ensures
        parse_args(s, i, k) is More ==> s.len() <= MAX_FRAME_BYTES + MAX_LEN_DIGITS + 2,
    decreases k,
{
    if k > 0 {
        lemma_bulk_more(s, i);
        lemma_bulk_bounds(s, i);
        match parse_bulk(s, i) {
            BulkRes::Bulk(p, j) => {
                lemma_args_more(s, j, k - 1);
            },
            _ => {},
        }
    }
}

/// The decoder can ask for more bytes only while the buffer is within a few
/// bytes of the frame size limit: an incomplete frame never makes a
/// connection buffer without bound.
pub proof fn lemma_needs_more_is_bounded(s: Seq<u8>)
    ensures
        parse_frame(s) is More ==> s.len() <= MAX_FRAME_BYTES + MAX_LEN_DIGITS + 2,
{
    if s.len() > 0 && s[0] == 42 {
        lemma_len_more(s, 1);
        lemma_len_bounds(s, 1);
        match parse_len(s, 1) {
            LenRes::Len(count, j) => {
                if count >= 1 {
                    lemma_args_more(s, j, count);
                }
            },
            _ => {},
        }
    }
}

/// Executable outcome of scanning a length line.
pub enum ScanLen {
    More,
    Bad,
    Len(usize, usize),
}

/// Executable outcome of scanning one bulk string.
pub enum ScanBulk {
    More,
    Bad,
    Bulk(Vec<u8>, usize),
}

/// Executable outcome of scanning a run of bulk strings.
pub enum ScanArgs {
    More,
    Bad,
    Args(Vec<Vec<u8>>, usize),
}

/// Outcome of one attempt to decode a frame from the front of the buffer:
/// the frame's arguments with the bytes it occupied, a request for more
/// bytes, or a protocol error.
pub enum FrameOutcome {
    Parsed(Vec<Vec<u8>>, usize),
    NeedMoreData,
    ProtocolError,
}

fn scan_len_digits(s: &[u8], i: usize, acc: usize, fuel: usize) -> (r: ScanLen)
    requires
        i <= s@.len(),
        acc <= MAX_FRAME_BYTES,
    ensures
        match r {
            ScanLen::More => parse_len_digits(s@, i as int, acc as int, fuel as int) is More,
            ScanLen::Bad => parse_len_digits(s@, i as int, acc as int, fuel as int) is Bad,
            ScanLen::Len(v, nx) => parse_len_digits(s@, i as int, acc as int, fuel as int)
                == LenRes::Len(v as int, nx as int),
        },
    decreases s@.len() - i,
{
    if i >= s.len() {
        ScanLen::More
    } else {
        let b = s[i];
        if b == 13 {
            if i + 1 >= s.len() {
                ScanLen::More
            } else if s[i + 1] == 10 {
                ScanLen::Len(acc, i + 2)
            } else {
                ScanLen::Bad
            }
        } else if 48 <= b && b <= 57 {
            if fuel == 0 {
                return ScanLen::Bad;
            }
            let next: usize = acc * 10 + (b - 48) as usize;
            if next > MAX_FRAME_BYTES {
                proof {
                    assert(parse_len_digits(s@, i as int, acc as int, fuel as int)
                        == parse_len_digits(s@, i + 1, next as int, fuel as int - 1));
                    assert(parse_len_digits(s@, i + 1, next as int, fuel as int - 1) is Bad);
                }
                ScanLen::Bad
            } else {
                scan_len_digits(s, i + 1, next, fuel - 1)
            }
        } else {
            ScanLen::Bad
        }
    }
}

fn scan_len(s: &[u8], i: usize) -> (r: ScanLen)
    requires
        i <= s@.len(),
    ensures
        match r {
            ScanLen::More => parse_len(s@, i as int) is More,
            ScanLen::Bad => parse_len(s@, i as int) is Bad,
            ScanLen::Len(v, nx) => parse_len(s@, i as int) == LenRes::Len(v as int, nx as int)
                && i + 3 <= nx <= s@.len() && v <= MAX_FRAME_BYTES,
        },
{
    if i >= s.len() {
        ScanLen::More
    } else if !(48 <= s[i] && s[i] <= 57) {
        ScanLen::Bad
    } else {
        let r = scan_len_digits(s, i, 0, MAX_LEN_DIGITS);
        proof {
            lemma_len_bounds(s@, i as int);
        }
        r
    }
}

fn scan_bulk(s: &[u8], i: usize) -> (r: ScanBulk)
    requires
        i <= s@.len(),
    ensures
        match r {
            ScanBulk::More => parse_bulk(s@, i as int) is More,
            ScanBulk::Bad => parse_bulk(s@, i as int) is Bad,
            ScanBulk::Bulk(p, j) => parse_bulk(s@, i as int) == BulkRes::Bulk(p@, j as int)
                && i + 6 <= j <= s@.len() && j <= MAX_FRAME_BYTES,
        },
{
    if i >= s.len() {
        return ScanBulk::More;
    }
    if s[i] != 36 {
        return ScanBulk::Bad;
    }
    match scan_len(s, i + 1) {
        ScanLen::More => ScanBulk::More,
        ScanLen::Bad => ScanBulk::Bad,
        ScanLen::Len(n, j) => {
            if n + 2 > MAX_FRAME_BYTES || j > MAX_FRAME_BYTES - n - 2 {
                return ScanBulk::Bad;
            }
            if j + n + 2 > s.len() {
                return ScanBulk::More;
            }
            if s[j + n] == 13 && s[j + n + 1] == 10 {
                let payload = vstd::slice::slice_to_vec(vstd::slice::slice_subrange(s, j, j + n));
                ScanBulk::Bulk(payload, j + n + 2)
            } else {
                ScanBulk::Bad
            }
        },
    }
}

/// The arguments of a decoded frame, as byte sequences.
pub open spec fn arg_views(a: Seq<Vec<u8>>) -> Seq<Seq<u8>> {
    a.map_values(|v: Vec<u8>| v@)
}

#[verifier::loop_isolation(false)]
fn scan_args(s: &[u8], i: usize, k: usize) -> (r: ScanArgs)
    requires
        i <= s@.len(),
    ensures
        match r {
            ScanArgs::More => parse_args(s@, i as int, k as int) is More,
            ScanArgs::Bad => parse_args(s@, i as int, k as int) is Bad,
            ScanArgs::Args(a, end) => parse_args(s@, i as int, k as int)
                == ArgsRes::Args(arg_views(a@), end as int) && i <= end <= s@.len(),
        },
{
    let mut collected: Vec<Vec<u8>> = Vec::new();
    let mut pos: usize = i;
    let mut left: usize = k;
    proof {
        assert(arg_views(collected@) =~= Seq::<Seq<u8>>::empty());
        match parse_args(s@, i as int, k as int) {
            ArgsRes::Args(rest, end) => {
                assert(arg_views(collected@) + rest =~= rest);
            },
            _ => {},
        }
    }
    while left > 0
        invariant
            i <= pos <= s@.len(),
            parse_args(s@, i as int, k as int) == (match parse_args(s@, pos as int, left as int) {
                ArgsRes::More => ArgsRes::More,
                ArgsRes::Bad => ArgsRes::Bad,
                ArgsRes::Args(rest, end) => ArgsRes::Args(arg_views(collected@) + rest, end),
            }),
        decreases left,
    {
        match scan_bulk(s, pos) {
            ScanBulk::More => {
                return ScanArgs::More;
            },
            ScanBulk::Bad => {
                return ScanArgs::Bad;
            },
            ScanBulk::Bulk(p, j) => {
                let ghost pv = p@;
                let ghost c0 = arg_views(collected@);
                proof {
                    assert(parse_args(s@, pos as int, left as int) == (match parse_args(
                        s@,
                        j as int,
                        left as int - 1,
                    ) {
                        ArgsRes::More => ArgsRes::More,
                        ArgsRes::Bad => ArgsRes::Bad,
                        ArgsRes::Args(rest, end) => ArgsRes::Args(seq![pv] + rest, end),
                    }));
                }
                collected.push(p);
                proof {
                    assert(arg_views(collected@) =~= c0 + seq![pv]);
                    match parse_args(s@, j as int, left as int - 1) {
                        ArgsRes::Args(rest, end) => {
                            assert((c0 + seq![pv]) + rest =~= c0 + (seq![pv] + rest));
                        },
                        _ => {},
                    }
                }
                pos = j;
                left = left - 1;
            },
        }
    }
    proof {
        assert(arg_views(collected@) + Seq::<Seq<u8>>::empty() =~= arg_views(collected@));
    }
    ScanArgs::Args(collected, pos)
}

/// Attempts to decode one frame from the front of `buf`. Returns the frame's
/// arguments with the count of bytes it occupies, `NeedMoreData` when the
/// buffer holds only a prefix of a frame, or `ProtocolError` when no
/// extension of the buffer starts with a well-formed frame of admissible
/// size.
pub fn decode_frame(buf: &[u8]) -> (r: FrameOutcome)
    ensures
        match r {
            FrameOutcome::NeedMoreData => parse_frame(buf@) is More,
            FrameOutcome::ProtocolError => parse_frame(buf@) is Bad,
            FrameOutcome::Parsed(a, n) => parse_frame(buf@)
                == FrameRes::Frame(arg_views(a@), n as int) && 1 <= n <= buf@.len()
                && a@.len() >= 1,
        },
{
    if buf.len() == 0 {
        return FrameOutcome::NeedMoreData;
    }
    if buf[0] != 42 {
        return FrameOutcome::ProtocolError;
    }
    match scan_len(buf, 1) {
        ScanLen::More => FrameOutcome::NeedMoreData,
        ScanLen::Bad => FrameOutcome::ProtocolError,
        ScanLen::Len(count, j) => {
            if count < 1 {
                return FrameOutcome::ProtocolError;
            }
            match scan_args(buf, j, count) {
                ScanArgs::More => FrameOutcome::NeedMoreData,
                ScanArgs::Bad => FrameOutcome::ProtocolError,
                ScanArgs::Args(a, end) => {
                    proof {
                        lemma_args_bounds(buf@, j as int, count as int);
                    }
                    FrameOutcome::Parsed(a, end)
                },
            }
        },
    }
}

} // verus!
