//! Commands and the interpretation of a decoded frame.
//!
//! A complete frame is a non-empty list of byte-string arguments. The first
//! names the command, case-insensitively; the rest are its arguments. A
//! recognized name with the wrong arity, or a `SET` with a malformed `PX`
//! value, is an argument error; an unrecognized name is the `Unknown` command,
//! which keeps the connection alive.

use vstd::prelude::*;

verus! {

/// A fully parsed command.
pub enum Command {
    Ping,
    /// `ECHO payload`.
    Echo(Vec<u8>),
    /// The `SET` command: key, value, and optional `PX` milliseconds.
    Put(Vec<u8>, Vec<u8>, Option<u64>),
    /// `GET key`.
    Get(Vec<u8>),
    /// Any other command name, with its arguments.
    Unknown(Vec<u8>, Vec<Vec<u8>>),
}

/// Mathematical model of a [`Command`].
pub enum CommandModel {
    Ping,
    Echo(Seq<u8>),
    Put(Seq<u8>, Seq<u8>, Option<u64>),
    Get(Seq<u8>),
    Unknown(Seq<u8>, Seq<Seq<u8>>),
}

impl View for Command {
    type V = CommandModel;

    open spec fn view(&self) -> CommandModel {
        match self {
            Command::Ping => CommandModel::Ping,
            Command::Echo(p) => CommandModel::Echo(p@),
            Command::Put(k, v, t) => CommandModel::Put(k@, v@, *t),
            Command::Get(k) => CommandModel::Get(k@),
            Command::Unknown(n, a) => CommandModel::Unknown(
                n@,
                a@.map_values(|x: Vec<u8>| x@),
            ),
        }
    }
}

/// A well-formed frame whose arguments do not fit any command: wrong arity
/// for a recognized name, or a `PX` value that is not a decimal integer that
/// fits in 64 bits.
pub enum ArgError {
    Arity,
    BadTtl,
}

/// What a frame asks for: a command to dispatch, or a command-level argument
/// error that is answered with an error reply while the connection stays open.
pub enum Request {
    Cmd(Command),
    Invalid(ArgError),
}

/// Mathematical model of a [`Request`].
pub enum RequestModel {
    Cmd(CommandModel),
    Invalid(ArgError),
}

impl View for Request {
    type V = RequestModel;

    open spec fn view(&self) -> RequestModel {
        match self {
            Request::Cmd(c) => RequestModel::Cmd(c@),
            Request::Invalid(e) => RequestModel::Invalid(*e),
        }
    }
}

/// ASCII upper-casing of one byte.
pub open spec fn to_upper(b: u8) -> u8 {
    if 97 <= b && b <= 122 {
        (b - 32) as u8
    } else {
        b
    }
}

/// Whether `s` spells `PING`, case-insensitively.
pub open spec fn is_ping_name(s: Seq<u8>) -> bool {
    s.len() == 4 && to_upper(s[0]) == 80 && to_upper(s[1]) == 73 && to_upper(s[2]) == 78
        && to_upper(s[3]) == 71
}

/// Whether `s` spells `ECHO`, case-insensitively.
pub open spec fn is_echo_name(s: Seq<u8>) -> bool {
    s.len() == 4 && to_upper(s[0]) == 69 && to_upper(s[1]) == 67 && to_upper(s[2]) == 72
        && to_upper(s[3]) == 79
}

/// Whether `s` spells `SET`, case-insensitively.
pub open spec fn is_set_name(s: Seq<u8>) -> bool {
    s.len() == 3 && to_upper(s[0]) == 83 && to_upper(s[1]) == 69 && to_upper(s[2]) == 84
}

/// Whether `s` spells `GET`, case-insensitively.
pub open spec fn is_get_name(s: Seq<u8>) -> bool {
    s.len() == 3 && to_upper(s[0]) == 71 && to_upper(s[1]) == 69 && to_upper(s[2]) == 84
}

/// Whether `s` spells `PX`, case-insensitively.
pub open spec fn is_px_name(s: Seq<u8>) -> bool {
    s.len() == 2 && to_upper(s[0]) == 80 && to_upper(s[1]) == 88
}

/// The value of a run of decimal digits, read with `acc` already accumulated;
/// `None` once the value exceeds `u64::MAX` or a non-digit appears.
pub open spec fn ttl_digits(s: Seq<u8>, i: int, acc: int) -> Option<int>
    decreases s.len() - i,
{
    if acc > u64::MAX as int {
        None
    } else if i >= s.len() {
        Some(acc)
    } else if crate::resp::is_digit(s[i]) {
        ttl_digits(s, i + 1, acc * 10 + (s[i] - 48))
    } else {
        None
    }
}

/// The millisecond value of a `PX` argument: one or more decimal digits whose
/// value fits in 64 bits; anything else is malformed.
pub open spec fn ttl_value(s: Seq<u8>) -> Option<int> {
    if s.len() == 0 {
        None
    } else {
        ttl_digits(s, 0, 0)
    }
}

/// The request a frame's arguments stand for. `PING` accepts any arguments;
/// `ECHO` and `GET` take exactly one; `SET` takes a key and a value, alone or
/// followed by the `PX` option with a decimal millisecond count.
pub open spec fn interp(args: Seq<Seq<u8>>) -> RequestModel
    recommends
        args.len() >= 1,
{
    if is_ping_name(args[0]) {
        RequestModel::Cmd(CommandModel::Ping)
    } else if is_echo_name(args[0]) {
        if args.len() == 2 {
            RequestModel::Cmd(CommandModel::Echo(args[1]))
        } else {
            RequestModel::Invalid(ArgError::Arity)
        }
    } else if is_get_name(args[0]) {
        if args.len() == 2 {
            RequestModel::Cmd(CommandModel::Get(args[1]))
        } else {
            RequestModel::Invalid(ArgError::Arity)
        }
    } else if is_set_name(args[0]) {
        if args.len() == 3 {
            RequestModel::Cmd(CommandModel::Put(args[1], args[2], None))
        } else if args.len() == 5 && is_px_name(args[3]) {
            match ttl_value(args[4]) {
                Some(t) => RequestModel::Cmd(
                    CommandModel::Put(args[1], args[2], Some(t as u64)),
                ),
                None => RequestModel::Invalid(ArgError::BadTtl),
            }
        } else {
            RequestModel::Invalid(ArgError::Arity)
        }
    } else {
        RequestModel::Cmd(CommandModel::Unknown(args[0], args.skip(1)))
    }
}

/// ASCII upper-casing of one byte.
pub fn upper_byte(b: u8) -> (r: u8)
    ensures
        r == to_upper(b),
{
    if 97 <= b && b <= 122 {
        b - 32
    } else {
        b
    }
}

fn is_ping(a: &[u8]) -> (r: bool)
    ensures
        r == is_ping_name(a@),
{
    a.len() == 4 && upper_byte(a[0]) == 80 && upper_byte(a[1]) == 73 && upper_byte(a[2]) == 78
        && upper_byte(a[3]) == 71
}

fn is_echo(a: &[u8]) -> (r: bool)
    ensures
        r == is_echo_name(a@),
{
    a.len() == 4 && upper_byte(a[0]) == 69 && upper_byte(a[1]) == 67 && upper_byte(a[2]) == 72
        && upper_byte(a[3]) == 79
}

fn is_set(a: &[u8]) -> (r: bool)
    ensures
        r == is_set_name(a@),
{
    a.len() == 3 && upper_byte(a[0]) == 83 && upper_byte(a[1]) == 69 && upper_byte(a[2]) == 84
}

fn is_get(a: &[u8]) -> (r: bool)
    ensures
        r == is_get_name(a@),
{
    a.len() == 3 && upper_byte(a[0]) == 71 && upper_byte(a[1]) == 69 && upper_byte(a[2]) == 84
}

fn is_px(a: &[u8]) -> (r: bool)
    ensures
        r == is_px_name(a@),
{
    a.len() == 2 && upper_byte(a[0]) == 80 && upper_byte(a[1]) == 88
}

/// Parses a `PX` millisecond value, mirroring [`ttl_value`].
fn parse_ttl(s: &[u8]) -> (r: Option<u64>)
    ensures
        match r {
            Some(t) => ttl_value(s@) == Some(t as int),
            None => ttl_value(s@) is None,
        },
{
    if s.len() == 0 {
        return None;
    }
    let mut i: usize = 0;
    let mut acc: u64 = 0;
    while i < s.len()
        invariant
            i <= s@.len(),
            ttl_digits(s@, 0, 0) == ttl_digits(s@, i as int, acc as int),
        decreases s@.len() - i,
    {
        let b = s[i];
        if !(48 <= b && b <= 57) {
            return None;
        }
        let d = (b - 48) as u64;
        if acc > (u64::MAX - d) / 10 {
            proof {
                assert(acc * 10 + d > u64::MAX) by (nonlinear_arith)
                    requires
                        acc > (u64::MAX - d) / 10,
                        d <= 9,
                ;
                assert(ttl_digits(s@, i + 1, acc as int * 10 + d) is None);
            }
            return None;
        }
        acc = acc * 10 + d;
        i = i + 1;
    }
    Some(acc)
}

/// Interprets a decoded frame's arguments as a request, as [`interp`] says.
pub fn interpret(args: Vec<Vec<u8>>) -> (r: Request)
    requires
        args@.len() >= 1,
    ensures
        r@ == interp(crate::resp::arg_views(args@)),
{
    let ghost av = crate::resp::arg_views(args@);
    let mut args = args;
    if is_ping(args[0].as_slice()) {
        Request::Cmd(Command::Ping)
    } else if is_echo(args[0].as_slice()) {
        if args.len() == 2 {
            let p = args.remove(1);
            Request::Cmd(Command::Echo(p))
        } else {
            Request::Invalid(ArgError::Arity)
        }
    } else if is_get(args[0].as_slice()) {
        if args.len() == 2 {
            let k = args.remove(1);
            Request::Cmd(Command::Get(k))
        } else {
            Request::Invalid(ArgError::Arity)
        }
    } else if is_set(args[0].as_slice()) {
        if args.len() == 3 {
            let v = args.remove(2);
            let k = args.remove(1);
            Request::Cmd(Command::Put(k, v, None))
        } else if args.len() == 5 && is_px(args[3].as_slice()) {
            match parse_ttl(args[4].as_slice()) {
                Some(t) => {
                    let v = args.remove(2);
                    let k = args.remove(1);
                    Request::Cmd(Command::Put(k, v, Some(t)))
                },
                None => Request::Invalid(ArgError::BadTtl),
            }
        } else {
            Request::Invalid(ArgError::Arity)
        }
    } else {
        let n = args.remove(0);
        proof {
            assert(args@.map_values(|x: Vec<u8>| x@) =~= av.skip(1));
        }
        Request::Cmd(Command::Unknown(n, args))
    }
}

/// Outcome of one attempt to decode a request from the front of the buffer:
/// a request with the bytes its frame occupied, a request for more bytes, or
/// a protocol error.
pub enum DecodeOutcome {
    Parsed(Request, usize),
    NeedMoreData,
    ProtocolError,
}

/// Attempts to decode one request from the front of `buf`: a complete frame
/// interpreted as [`interp`] says, `NeedMoreData` when the buffer holds only
/// a prefix of a frame (the caller keeps it and reads on), or
/// `ProtocolError` when no extension of the buffer starts with a well-formed
/// frame of admissible size.
pub fn decode_request(buf: &[u8]) -> (r: DecodeOutcome)
    ensures
        match r {
            DecodeOutcome::NeedMoreData => crate::resp::parse_frame(buf@) is More,
            DecodeOutcome::ProtocolError => crate::resp::parse_frame(buf@) is Bad,
            DecodeOutcome::Parsed(req, n) => crate::resp::parse_frame(buf@)
                matches crate::resp::FrameRes::Frame(args, used) && used == n
                && req@ == interp(args) && 1 <= n <= buf@.len(),
        },
{
    match crate::resp::decode_frame(buf) {
        crate::resp::FrameOutcome::NeedMoreData => DecodeOutcome::NeedMoreData,
        crate::resp::FrameOutcome::ProtocolError => DecodeOutcome::ProtocolError,
        crate::resp::FrameOutcome::Parsed(args, n) => DecodeOutcome::Parsed(interpret(args), n),
    }
}

} // verus!
