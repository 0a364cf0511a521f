//! Reply values and their byte-exact wire encoding.

use vstd::prelude::*;

verus! {

/// The result of dispatching one command, before serialization.
pub enum Reply {
    /// A simple string reply, `+<text>\r\n`. The text holds no CR or LF.
    Simple(Vec<u8>),
    /// A bulk string reply, `$<len>\r\n<bytes>\r\n`.
    Bulk(Vec<u8>),
    /// The nil bulk reply, `$-1\r\n`, for an absent or expired key.
    Nil,
    /// An error reply, `-ERR <message>\r\n`.
    Error(Vec<u8>),
}

/// Mathematical model of a [`Reply`].
pub enum ReplyModel {
    Simple(Seq<u8>),
    Bulk(Seq<u8>),
    Nil,
    Error(Seq<u8>),
}

impl View for Reply {
    type V = ReplyModel;

    open spec fn view(&self) -> ReplyModel {
        match self {
            Reply::Simple(t) => ReplyModel::Simple(t@),
            Reply::Bulk(p) => ReplyModel::Bulk(p@),
            Reply::Nil => ReplyModel::Nil,
            Reply::Error(m) => ReplyModel::Error(m@),
        }
    }
}

/// The decimal digits of `n`, most significant first.
pub open spec fn dec_rep(n: nat) -> Seq<u8>
    decreases n,
{
    if n < 10 {
        seq![(48 + n) as u8]
    } else {
        dec_rep(n / 10).push((48 + n % 10) as u8)
    }
}

/// `\r\n`, the line terminator of every wire element.
pub open spec fn crlf() -> Seq<u8> {
    seq![13u8, 10u8]
}

/// The exact wire bytes of a reply: `+text\r\n`, `$len\r\npayload\r\n`,
/// `$-1\r\n` or `-ERR message\r\n`.
pub open spec fn encoded_reply(r: ReplyModel) -> Seq<u8> {
    match r {
        ReplyModel::Simple(t) => seq![43u8] + t + crlf(),
        ReplyModel::Bulk(p) => seq![36u8] + dec_rep(p.len()) + crlf() + p + crlf(),
        ReplyModel::Nil => seq![36u8, 45u8, 49u8, 13u8, 10u8],
        ReplyModel::Error(m) => seq![45u8, 69u8, 82u8, 82u8, 32u8] + m + crlf(),
    }
}

/// The decimal digits of `n`, as bytes.
pub fn u64_dec(n: u64) -> (v: Vec<u8>)
    ensures
        v@ == dec_rep(n as nat),
    decreases n,
{
    if n < 10 {
        let mut v: Vec<u8> = Vec::new();
        v.push(48 + n as u8);
        v
    } else {
        let mut v = u64_dec(n / 10);
        v.push(48 + (n % 10) as u8);
        v
    }
}

/// Appends every byte of `s` to `v`.
pub fn push_all(v: &mut Vec<u8>, s: &[u8])
    ensures
        final(v)@ == old(v)@ + s@,
{
    let mut i: usize = 0;
    while i < s.len()
        invariant
            i <= s@.len(),
            v@ == old(v)@ + s@.subrange(0, i as int),
        decreases s@.len() - i,
    {
        v.push(s[i]);
        i = i + 1;
        proof {
            assert(v@ == old(v)@ + s@.subrange(0, i as int));
        }
    }
    proof {
        assert(s@.subrange(0, s@.len() as int) == s@);
    }
}

/// Serializes a reply into its exact wire bytes.
pub fn encode_reply(r: &Reply) -> (v: Vec<u8>)
    ensures
        v@ == encoded_reply(r@),
{
    let mut v: Vec<u8> = Vec::new();
    match r {
        Reply::Simple(t) => {
            v.push(43);
            push_all(&mut v, t.as_slice());
            v.push(13);
            v.push(10);
        },
        Reply::Bulk(p) => {
            v.push(36);
            let len = p.len();
            proof {
                assert(len as u64 as nat == p@.len());
            }
            let digits = u64_dec(len as u64);
            push_all(&mut v, digits.as_slice());
            v.push(13);
            v.push(10);
            push_all(&mut v, p.as_slice());
            v.push(13);
            v.push(10);
        },
        Reply::Nil => {
            v.push(36);
            v.push(45);
            v.push(49);
            v.push(13);
            v.push(10);
        },
        Reply::Error(m) => {
            v.push(45);
            v.push(69);
            v.push(82);
            v.push(82);
            v.push(32);
            push_all(&mut v, m.as_slice());
            v.push(13);
            v.push(10);
        },
    }
    proof {
        assert(v@ =~= encoded_reply(r@));
    }
    v
}

} // verus!
