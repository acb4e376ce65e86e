use vstd::prelude::*;

verus! {

/// The LEB128 encoding of `v`: seven bits per byte, least significant group
/// first, the high bit set on every byte but the last.
pub open spec fn varint(v: nat) -> Seq<u8>
    decreases v,
{
    if v < 128 {
        seq![v as u8]
    } else {
        seq![(v % 128 + 128) as u8] + varint(v / 128)
    }
}

/// The LEB128 number at the start of `b`, with the number of bytes it takes.
pub open spec fn leb128_prefix(b: Seq<u8>) -> Option<(nat, nat)>
    decreases b.len(),
{
    if b.len() == 0 {
        None
    } else if b[0] < 128 {
        Some((b[0] as nat, 1))
    } else {
        match leb128_prefix(b.drop_first()) {
            Some((v, n)) => Some(((b[0] - 128) as nat + 128 * v, n + 1)),
            None => None,
        }
    }
}

/// The length delimiter at the start of `b`, as prost reads it: a LEB128
/// number of at most ten bytes that fits in 64 bits and in a `usize`.
pub open spec fn length_delimiter(b: Seq<u8>) -> Option<(nat, nat)> {
    match leb128_prefix(b) {
        Some((v, n)) => if n <= 10 && v <= u64::MAX && v <= usize::MAX {
            Some((v, n))
        } else {
            None
        },
        None => None,
    }
}

/// A length-delimited frame at the start of `b`: the body it delimits and the
/// bytes that follow it.
pub open spec fn split_frame(b: Seq<u8>) -> Option<(Seq<u8>, Seq<u8>)> {
    match length_delimiter(b) {
        Some((n, k)) => if k + n <= b.len() {
            Some((b.subrange(k as int, (k + n) as int), b.skip((k + n) as int)))
        } else {
            None
        },
        None => None,
    }
}

/// Calls `prost::encoding::encode_varint` on a vector. Claimed: the LEB128
/// encoding of `value` is appended (the function's documented format; a vector
/// grows as needed).
#[verifier::external_body]
fn encode_varint(value: u64, buf: &mut Vec<u8>)
    ensures
        final(buf)@ == old(buf)@ + varint(value as nat),
{
    prost::encoding::encode_varint(value, buf)
}

#[verifier::external_type_specification]
#[verifier::external_body]
pub struct ExDecodeError(prost::DecodeError);

/// Calls `prost::decode_length_delimiter` on a slice, which it advances past
/// the delimiter. Claimed: it succeeds exactly when the slice starts with a
/// LEB128 number of at most ten bytes below 2^64 that fits in a `usize`
/// (`length_delimiter`), returns that number, and leaves the bytes after it.
#[verifier::external_body]
fn decode_length_delimiter<'a>(buf: &'a [u8]) -> (res: Result<(usize, &'a [u8]), prost::DecodeError>)
    ensures
        match res {
            Ok((n, rest)) => length_delimiter(buf@) matches Some((v, k)) && v == n && rest@
                == buf@.skip(k as int),
            Err(_) => length_delimiter(buf@) is None,
        },
{
    let mut rest = buf;
    match prost::decode_length_delimiter(&mut rest) {
        Ok(n) => Ok((n, rest)),
        Err(e) => Err(e),
    }
}

/// Frames a message body for a pipe: its length as a LEB128 delimiter, then
/// the body.
pub fn encode_length_delimited(body: &[u8]) -> (res: Vec<u8>)
    ensures
        res@ == varint(body@.len()) + body@,
{
    let mut buf: Vec<u8> = Vec::new();
    encode_varint(body.len() as u64, &mut buf);
    let ghost head = buf@;
    let mut i: usize = 0;
    while i < body.len()
        invariant
            i <= body.len(),
            head == varint(body@.len()),
            buf@ == head + body@.subrange(0, i as int),
        decreases body.len() - i,
    {
        buf.push(body[i]);
        i = i + 1;
        assert(buf@ =~= head + body@.subrange(0, i as int));
    }
    assert(body@.subrange(0, body@.len() as int) =~= body@);
    buf
}

/// Reads one length-delimited frame from the start of `frame`: the body and
/// the bytes after it. `None` when the delimiter is invalid or the body is cut
/// short.
pub fn decode_length_delimited(frame: &[u8]) -> (res: Option<(Vec<u8>, Vec<u8>)>)
    ensures
        match res {
            Some((body, rest)) => split_frame(frame@) == Some((body@, rest@)),
            None => split_frame(frame@) is None,
        },
{
    let (n, after) = match decode_length_delimiter(frame) {
        Ok(r) => r,
        Err(_) => {
            return None;
        },
    };
    let ghost k: int = match length_delimiter(frame@) {
        Some((_, kk)) => kk as int,
        None => 0,
    };
    proof {
        lemma_leb128_prefix_len(frame@);
    }
    assert(after@ == frame@.skip(k) && 0 <= k <= frame@.len());
    if after.len() < n {
        return None;
    }
    let mut body: Vec<u8> = Vec::new();
    let mut i: usize = 0;
    while i < n
        invariant
            i <= n <= after@.len(),
            after@ == frame@.skip(k),
            0 <= k <= frame@.len(),
            body@ == after@.subrange(0, i as int),
        decreases n - i,
    {
        body.push(after[i]);
        i = i + 1;
        assert(body@ =~= after@.subrange(0, i as int));
    }
    let mut rest: Vec<u8> = Vec::new();
    let mut j: usize = n;
    while j < after.len()
        invariant
            n <= j <= after@.len(),
            after@ == frame@.skip(k),
            0 <= k <= frame@.len(),
            rest@ == after@.subrange(n as int, j as int),
        decreases after.len() - j,
    {
        rest.push(after[j]);
        j = j + 1;
        assert(rest@ =~= after@.subrange(n as int, j as int));
    }
    proof {
        assert(body@ =~= frame@.subrange(k, k + n));
        assert(rest@ =~= frame@.skip(k + n));
    }
    Some((body, rest))
}

/// A LEB128 number takes at least one byte and no more bytes than there are.
proof fn lemma_leb128_prefix_len(b: Seq<u8>)
    ensures
        leb128_prefix(b) matches Some((v, n)) ==> 1 <= n <= b.len(),
    decreases b.len(),
{
    if b.len() > 0 && b[0] >= 128 {
        lemma_leb128_prefix_len(b.drop_first());
    }
}

/// A value below 128^k takes at most k bytes.
proof fn lemma_varint_len(v: nat, k: nat, bound: nat)
    requires
        k >= 1,
        bound == pow128(k),
        v < bound,
    ensures
        varint(v).len() <= k,
    decreases k,
{
    if v >= 128 {
        assert(k >= 2) by {
            if k == 1 {
                assert(pow128(1) == 128 * pow128(0));
            }
        }
        assert(pow128(k) == 128 * pow128((k - 1) as nat));
        lemma_varint_len(v / 128, (k - 1) as nat, pow128((k - 1) as nat));
    }
}

/// 128 to the power `k`.
pub open spec fn pow128(k: nat) -> nat
    decreases k,
{
    if k == 0 {
        1
    } else {
        128 * pow128((k - 1) as nat)
    }
}

/// The LEB128 encoding of `v` reads back as `v`, whatever follows it.
proof fn lemma_varint_reads_back(v: nat, tail: Seq<u8>)
    ensures
        leb128_prefix(varint(v) + tail) == Some((v, varint(v).len())),
    decreases v,
{
    let b = varint(v) + tail;
    if v < 128 {
        assert(b[0] == v as u8);
    } else {
        lemma_varint_reads_back(v / 128, tail);
        assert(b[0] == (v % 128 + 128) as u8);
        assert(b.drop_first() =~= varint(v / 128) + tail);
    }
}

/// Reading the frame of a body back gives that body and the bytes that follow
/// the frame.
pub proof fn lemma_frame_round_trip(body: Seq<u8>, tail: Seq<u8>)
    requires
        body.len() <= u64::MAX,
        body.len() <= usize::MAX,
    ensures
        split_frame(varint(body.len()) + body + tail) == Some((body, tail)),
{
    let n = body.len();
    let d = varint(n);
    let frame = d + body + tail;
    assert(frame =~= d + (body + tail));
    lemma_varint_reads_back(n, body + tail);
    assert(pow128(10) == 1180591620717411303424nat) by {
        reveal_with_fuel(pow128, 11);
    }
    lemma_varint_len(n, 10, pow128(10));
    assert(frame.subrange(d.len() as int, (d.len() + n) as int) =~= body);
    assert(frame.skip((d.len() + n) as int) =~= tail);
}

} // verus!
