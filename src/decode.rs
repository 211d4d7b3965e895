//! The byte cursor, the decode error taxonomy and the decode contract.

use crate::source::ByteSource;
use vstd::math::min;
use vstd::prelude::*;

verus! {

/// The binary cursor.
///
/// The `Cursor` reads a sequence of bytes sequentially. Its position never
/// passes the end of its source and only ever moves forward.
pub struct Cursor<T> where T: ByteSource {
    inner: T,
    cursor: usize,
}

impl<T> Cursor<T> where T: ByteSource {
    #[verifier::type_invariant]
    spec fn inv(self) -> bool {
        self.cursor <= self.inner.bytes().len()
    }

    /// The bytes the cursor reads from.
    pub closed spec fn source(&self) -> Seq<u8> {
        self.inner.bytes()
    }

    /// How many bytes have been consumed.
    pub closed spec fn pos(&self) -> nat {
        self.cursor as nat
    }

    /// The bytes not yet consumed.
    pub open spec fn remaining(&self) -> Seq<u8> {
        self.source().subrange(self.pos() as int, self.source().len() as int)
    }

    /// Create a new binary cursor.
    pub fn new(inner: T) -> (r: Cursor<T>)
        ensures
            r.source() == inner.bytes(),
            r.pos() == 0,
    {
        Cursor { inner, cursor: 0 }
    }

    /// How many bytes have been consumed.
    pub fn position(&self) -> (r: usize)
        ensures
            r == self.pos(),
            r <= self.source().len(),
    {
        proof {
            use_type_invariant(self);
        }
        self.cursor
    }

    /// Reads a sequence of bytes.
    ///
    /// Copies `min(buf.len(), remaining)` bytes from the current position into
    /// the front of `buf`, advances past them, and returns how many were copied.
    /// Running out of bytes is no error here: it shows as a short count.
    pub fn read(&mut self, buf: &mut [u8]) -> (n: usize)
        ensures
            n as int == min(old(buf)@.len() as int, old(self).remaining().len() as int),
            final(buf)@ == old(self).remaining().take(n as int) + old(buf)@.skip(n as int),
            final(self).source() == old(self).source(),
            final(self).pos() == old(self).pos() + n,
            final(self).pos() <= final(self).source().len(),
            final(self).remaining() == old(self).remaining().skip(n as int),
            old(self).pos() == old(self).source().len() ==> n == 0 && final(self).pos()
                == old(self).pos(),
    {
        proof {
            use_type_invariant(&*self);
        }
        let inner = self.inner.as_bytes();
        let start = self.cursor;
        let len = inner.len();
        let avail = len - start;
        let n: usize = if buf.len() < avail {
            buf.len()
        } else {
            avail
        };
        let ghost src = inner@;
        let ghost buf0 = buf@;
        let mut i: usize = 0;
        while i < n
            invariant
                i <= n,
                n <= buf.len(),
                start + n <= src.len(),
                src.len() == len,
                inner@ == src,
                buf@.len() == buf0.len(),
                forall|j: int| 0 <= j < i ==> buf@[j] == src[start + j],
                forall|j: int| i <= j < buf0.len() ==> buf@[j] == buf0[j],
            decreases n - i,
        {
            buf[i] = inner[start + i];
            i = i + 1;
        }
        self.cursor = start + n;
        proof {
            assert(buf@ =~= src.subrange(start as int, src.len() as int).take(n as int) + buf0.skip(
                n as int,
            ));
            assert(src.subrange(start + n, src.len() as int) =~= src.subrange(
                start as int,
                src.len() as int,
            ).skip(n as int));
        }
        n
    }

    /// Decode a type from the `Cursor`.
    ///
    /// The outcome is the one that `U::spec_decode` gives on the remaining bytes.
    pub fn decode<U>(&mut self) -> (r: Result<U, Error<U::Error>>) where U: Decode
        ensures
            final(self).source() == old(self).source(),
            old(self).pos() <= final(self).pos() <= final(self).source().len(),
            (match U::spec_decode(old(self).remaining()) {
                Ok((v, k)) => r == Ok::<U, Error<U::Error>>(v) && final(self).pos()
                    == old(self).pos() + k,
                Err(e) => r == Err::<U, Error<U::Error>>(e),
            }),
    {
        U::decode(self)
    }
}

/// An error that can occur during decoding.
#[derive(Clone, Debug, PartialEq, Eq)]
pub enum Error<T> {
    /// An unexpected end to the bytes was reached.
    UnexpectedEnd,
    /// An error occurring during deserialization from bytes.
    Deserialize(T),
}

impl<T> Error<T> {
    /// Create a new unexpected end error.
    pub fn unexpected_end() -> (r: Error<T>)
        ensures
            r == Error::<T>::UnexpectedEnd,
    {
        Error::UnexpectedEnd
    }

    /// Create a new deserialization error.
    pub fn deserialize(error: T) -> (r: Error<T>)
        ensures
            r == Error::Deserialize(error),
    {
        Error::Deserialize(error)
    }
}

/// A type that can be decoded from a [`Cursor`].
///
/// An implementer states its wire format as `spec_decode`, and its `decode`
/// must agree with it.
pub trait Decode: Sized {
    /// Deserialization error type.
    type Error;

    /// What decoding from the front of `bytes` gives: the value and the number
    /// of bytes it occupies, or the error.
    spec fn spec_decode(bytes: Seq<u8>) -> Result<(Self, nat), Error<Self::Error>>;

    /// Begin the deserialization.
    fn decode<T>(cursor: &mut Cursor<T>) -> (r: Result<Self, Error<Self::Error>>) where
        T: ByteSource,

        ensures
            final(cursor).source() == old(cursor).source(),
            old(cursor).pos() <= final(cursor).pos() <= final(cursor).source().len(),
            (match Self::spec_decode(old(cursor).remaining()) {
                Ok((v, k)) => r == Ok::<Self, Error<Self::Error>>(v) && final(cursor).pos()
                    == old(cursor).pos() + k,
                Err(e) => r == Err::<Self, Error<Self::Error>>(e),
            }),
    ;
}

} // verus!
