//! Decoding of fixed-width primitives: big-endian unsigned integers and
//! one-byte booleans, with their round-trip and truncation laws.

use crate::decode::{Cursor, Decode, Error};
use crate::source::ByteSource;
use std::convert::Infallible;
use vstd::prelude::*;

verus! {

/// `256` raised to the power `n`.
pub open spec fn pow256(n: nat) -> nat
    decreases n,
{
    if n == 0 {
        1
    } else {
        256 * pow256((n - 1) as nat)
    }
}

/// The unsigned number that `s` spells, most significant byte first.
pub open spec fn be_value(s: Seq<u8>) -> nat
    decreases s.len(),
{
    if s.len() == 0 {
        0
    } else {
        be_value(s.drop_last()) * 256 + s.last() as nat
    }
}

/// The `n` bytes that spell `v`, most significant byte first.
pub open spec fn be_bytes(v: nat, n: nat) -> Seq<u8>
    decreases n,
{
    if n == 0 {
        Seq::empty()
    } else {
        be_bytes(v / 256, (n - 1) as nat).push((v % 256) as u8)
    }
}

proof fn lemma_pow256_monotone(a: nat, b: nat)
    requires
        a <= b,
    ensures
        pow256(a) <= pow256(b),
    decreases b,
{
    if a < b {
        lemma_pow256_monotone(a, (b - 1) as nat);
    }
}

proof fn lemma_be_value_bound(s: Seq<u8>)
    ensures
        be_value(s) < pow256(s.len()),
    decreases s.len(),
{
    if s.len() > 0 {
        lemma_be_value_bound(s.drop_last());
    }
}

/// Spelling a number that fits in `n` bytes as `n` big-endian bytes and
/// reading those bytes back gives the number again.
pub proof fn lemma_be_round_trip(v: nat, n: nat)
    requires
        v < pow256(n),
    ensures
        be_bytes(v, n).len() == n,
        be_value(be_bytes(v, n)) == v,
    decreases n,
{
    if n > 0 {
        assert(v / 256 < pow256((n - 1) as nat));
        lemma_be_round_trip(v / 256, (n - 1) as nat);
        assert(be_bytes(v, n).drop_last() == be_bytes(v / 256, (n - 1) as nat));
    }
}

/// Reads `width` bytes and returns the number they spell, most significant
/// byte first; `UnexpectedEnd` where fewer than `width` bytes remain.
fn read_be<T, E>(cursor: &mut Cursor<T>, width: usize) -> (r: Result<u64, Error<E>>) where
    T: ByteSource,

    requires
        1 <= width <= 8,
    ensures
        final(cursor).source() == old(cursor).source(),
        old(cursor).pos() <= final(cursor).pos() <= final(cursor).source().len(),
        old(cursor).remaining().len() < width ==> r == Err::<u64, Error<E>>(Error::UnexpectedEnd),
        old(cursor).remaining().len() >= width ==> r is Ok && r->Ok_0 as nat == be_value(
            old(cursor).remaining().take(width as int),
        ) && final(cursor).pos() == old(cursor).pos() + width,
{
    let mut buf: Vec<u8> = vec![0u8; width];
    let n = cursor.read(buf.as_mut_slice());
    if n < width {
        return Err(Error::unexpected_end());
    }
    proof {
        assert(buf@ =~= old(cursor).remaining().take(width as int));
        reveal_with_fuel(pow256, 9);
        assert(pow256(8) == 18446744073709551616);
    }
    let mut v: u64 = 0;
    let mut i: usize = 0;
    while i < width
        invariant
            i <= width <= 8,
            buf@.len() == width,
            v as nat == be_value(buf@.take(i as int)),
            pow256(8) == 18446744073709551616,
        decreases width - i,
    {
        proof {
            lemma_be_value_bound(buf@.take(i as int));
            lemma_pow256_monotone((i + 1) as nat, 8);
            assert(buf@.take(i + 1).drop_last() =~= buf@.take(i as int));
        }
        v = v * 256 + buf[i] as u64;
        i = i + 1;
    }
    proof {
        assert(buf@.take(width as int) =~= buf@);
    }
    Ok(v)
}


impl Decode for u8 {
    type Error = Infallible;

    /// One byte.
    open spec fn spec_decode(bytes: Seq<u8>) -> Result<(u8, nat), Error<Infallible>> {
        if bytes.len() < 1 {
            Err(Error::UnexpectedEnd)
        } else {
            Ok((be_value(bytes.take(1)) as u8, 1))
        }
    }

    fn decode<T>(cursor: &mut Cursor<T>) -> (r: Result<u8, Error<Infallible>>) where
        T: ByteSource,
    {
        match read_be(cursor, 1) {
            Ok(v) => {
                proof {
                    lemma_be_value_bound(old(cursor).remaining().take(1));
                    reveal_with_fuel(pow256, 2);
                }
                Ok(v as u8)
            },
            Err(e) => Err(e),
        }
    }
}

impl Decode for u16 {
    type Error = Infallible;

    /// 2 bytes, most significant first.
    open spec fn spec_decode(bytes: Seq<u8>) -> Result<(u16, nat), Error<Infallible>> {
        if bytes.len() < 2 {
            Err(Error::UnexpectedEnd)
        } else {
            Ok((be_value(bytes.take(2)) as u16, 2))
        }
    }

    fn decode<T>(cursor: &mut Cursor<T>) -> (r: Result<u16, Error<Infallible>>) where
        T: ByteSource,
    {
        match read_be(cursor, 2) {
            Ok(v) => {
                proof {
                    lemma_be_value_bound(old(cursor).remaining().take(2));
                    reveal_with_fuel(pow256, 3);
                }
                Ok(v as u16)
            },
            Err(e) => Err(e),
        }
    }
}

impl Decode for u32 {
    type Error = Infallible;

    /// 4 bytes, most significant first.
    open spec fn spec_decode(bytes: Seq<u8>) -> Result<(u32, nat), Error<Infallible>> {
        if bytes.len() < 4 {
            Err(Error::UnexpectedEnd)
        } else {
            Ok((be_value(bytes.take(4)) as u32, 4))
        }
    }

    fn decode<T>(cursor: &mut Cursor<T>) -> (r: Result<u32, Error<Infallible>>) where
        T: ByteSource,
    {
        match read_be(cursor, 4) {
            Ok(v) => {
                proof {
                    lemma_be_value_bound(old(cursor).remaining().take(4));
                    reveal_with_fuel(pow256, 5);
                }
                Ok(v as u32)
            },
            Err(e) => Err(e),
        }
    }
}

impl Decode for u64 {
    type Error = Infallible;

    /// 8 bytes, most significant first.
    open spec fn spec_decode(bytes: Seq<u8>) -> Result<(u64, nat), Error<Infallible>> {
        if bytes.len() < 8 {
            Err(Error::UnexpectedEnd)
        } else {
            Ok((be_value(bytes.take(8)) as u64, 8))
        }
    }

    fn decode<T>(cursor: &mut Cursor<T>) -> (r: Result<u64, Error<Infallible>>) where
        T: ByteSource,
    {
        match read_be(cursor, 8) {
            Ok(v) => {
                proof {
                    lemma_be_value_bound(old(cursor).remaining().take(8));
                    reveal_with_fuel(pow256, 9);
                }
                Ok(v)
            },
            Err(e) => Err(e),
        }
    }
}

/// A tag byte that names no value of the type being decoded.
#[derive(Clone, Copy, Debug, PartialEq, Eq, Structural)]
pub struct InvalidTag {
    /// The byte that was read.
    pub tag: u8,
}

impl Decode for bool {
    type Error = InvalidTag;

    /// One byte: `0` for `false`, `1` for `true`; any other byte is an invalid tag.
    open spec fn spec_decode(bytes: Seq<u8>) -> Result<(bool, nat), Error<InvalidTag>> {
        if bytes.len() < 1 {
            Err(Error::UnexpectedEnd)
        } else if bytes[0] == 0 {
            Ok((false, 1))
        } else if bytes[0] == 1 {
            Ok((true, 1))
        } else {
            Err(Error::Deserialize(InvalidTag { tag: bytes[0] }))
        }
    }

    fn decode<T>(cursor: &mut Cursor<T>) -> (r: Result<bool, Error<InvalidTag>>) where
        T: ByteSource,
    {
        let ghost rem = cursor.remaining();
        proof {
            if rem.len() >= 1 {
                assert(rem.take(1).drop_last() =~= Seq::<u8>::empty());
                reveal_with_fuel(be_value, 2);
                assert(be_value(rem.take(1)) == rem[0] as nat);
            }
        }
        let tag = match cursor.decode::<u8>() {
            Ok(b) => b,
            Err(_) => return Err(Error::unexpected_end()),
        };
        if tag == 0 {
            Ok(false)
        } else if tag == 1 {
            Ok(true)
        } else {
            Err(Error::deserialize(InvalidTag { tag }))
        }
    }
}

/// Reading the first `n` bytes of `be_bytes(v, n) + rest` gives `v` back.
proof fn lemma_be_prefix(v: nat, n: nat, rest: Seq<u8>)
    requires
        v < pow256(n),
    ensures
        (be_bytes(v, n) + rest).len() >= n,
        be_value((be_bytes(v, n) + rest).take(n as int)) == v,
{
    lemma_be_round_trip(v, n);
    assert((be_bytes(v, n) + rest).take(n as int) =~= be_bytes(v, n));
}

/// Decoding the big-endian bytes of an integer, whatever follows them, gives
/// the integer back and consumes exactly its width.
pub proof fn lemma_round_trip_integers(a: u8, b: u16, c: u32, d: u64, rest: Seq<u8>)
    ensures
        u8::spec_decode(be_bytes(a as nat, 1) + rest) == Ok::<(u8, nat), Error<Infallible>>((a, 1)),
        u16::spec_decode(be_bytes(b as nat, 2) + rest)
            == Ok::<(u16, nat), Error<Infallible>>((b, 2)),
        u32::spec_decode(be_bytes(c as nat, 4) + rest)
            == Ok::<(u32, nat), Error<Infallible>>((c, 4)),
        u64::spec_decode(be_bytes(d as nat, 8) + rest)
            == Ok::<(u64, nat), Error<Infallible>>((d, 8)),
{
    reveal_with_fuel(pow256, 9);
    lemma_be_prefix(a as nat, 1, rest);
    lemma_be_prefix(b as nat, 2, rest);
    lemma_be_prefix(c as nat, 4, rest);
    lemma_be_prefix(d as nat, 8, rest);
}

/// The byte that spells a `bool`.
pub open spec fn bool_byte(v: bool) -> u8 {
    if v {
        1
    } else {
        0
    }
}

/// Decoding the byte of a `bool`, whatever follows it, gives the `bool` back
/// and consumes that one byte.
pub proof fn lemma_round_trip_bool(v: bool, rest: Seq<u8>)
    ensures
        bool::spec_decode(seq![bool_byte(v)] + rest)
            == Ok::<(bool, nat), Error<InvalidTag>>((v, 1)),
{
    assert((seq![bool_byte(v)] + rest)[0] == bool_byte(v));
}

/// A source shorter than a type's width decodes to `UnexpectedEnd`, never to
/// a value.
pub proof fn lemma_truncated_source(bytes: Seq<u8>)
    ensures
        bytes.len() < 1 ==> u8::spec_decode(bytes)
            == Err::<(u8, nat), Error<Infallible>>(Error::UnexpectedEnd),
        bytes.len() < 1 ==> bool::spec_decode(bytes)
            == Err::<(bool, nat), Error<InvalidTag>>(Error::UnexpectedEnd),
        bytes.len() < 2 ==> u16::spec_decode(bytes)
            == Err::<(u16, nat), Error<Infallible>>(Error::UnexpectedEnd),
        bytes.len() < 4 ==> u32::spec_decode(bytes)
            == Err::<(u32, nat), Error<Infallible>>(Error::UnexpectedEnd),
        bytes.len() < 8 ==> u64::spec_decode(bytes)
            == Err::<(u64, nat), Error<Infallible>>(Error::UnexpectedEnd),
{
}

/// A source long enough for a `bool` whose tag byte is neither `0` nor `1`
/// decodes to a `Deserialize` error that carries that byte, not to
/// `UnexpectedEnd`.
pub proof fn lemma_invalid_bool_tag(bytes: Seq<u8>)
    requires
        bytes.len() >= 1,
        bytes[0] > 1,
    ensures
        bool::spec_decode(bytes) == Err::<(bool, nat), Error<InvalidTag>>(
            Error::Deserialize(InvalidTag { tag: bytes[0] }),
        ),
{
}

} // verus!
