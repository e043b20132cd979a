//! A big-endian byte cursor and a lazily decoded array of fixed-size records.
use vstd::prelude::*;
use vstd::slice::slice_subrange;

use crate::Error;

verus! {

/// The unsigned 16-bit integer that two bytes encode, most significant first.
pub open spec fn be_u16(hi: u8, lo: u8) -> u16 {
    (hi as int * 0x100 + lo as int) as u16
}

/// The two's-complement 16-bit integer that two bytes encode, most significant first.
pub open spec fn be_i16(hi: u8, lo: u8) -> i16 {
    let u = hi as int * 0x100 + lo as int;
    (if u >= 0x8000 { u - 0x10000 } else { u }) as i16
}

/// The unsigned 32-bit integer that four bytes encode, most significant first.
pub open spec fn be_u32(b0: u8, b1: u8, b2: u8, b3: u8) -> u32 {
    (b0 as int * 0x100_0000 + b1 as int * 0x1_0000 + b2 as int * 0x100 + b3 as int) as u32
}

/// The `u16` stored at offset `i` of `b`.
pub open spec fn u16_at(b: Seq<u8>, i: int) -> u16 {
    be_u16(b[i], b[i + 1])
}

/// The `i16` stored at offset `i` of `b`.
pub open spec fn i16_at(b: Seq<u8>, i: int) -> i16 {
    be_i16(b[i], b[i + 1])
}

/// The `u32` stored at offset `i` of `b`.
pub open spec fn u32_at(b: Seq<u8>, i: int) -> u32 {
    be_u32(b[i], b[i + 1], b[i + 2], b[i + 3])
}

/// A value with a fixed-size big-endian encoding.
pub trait FromData: Sized {
    /// How many bytes one encoded value takes.
    spec fn spec_size() -> nat;

    /// The value that the first `spec_size()` bytes of `data` encode.
    spec fn spec_parse(data: Seq<u8>) -> Self;

    fn size() -> (r: usize)
        ensures
            r == Self::spec_size(),
            0 < r <= 16,
    ;

    /// Decodes a value from the start of `data`; `None` when `data` is too short.
    fn parse(data: &[u8]) -> (r: Option<Self>)
        ensures
            r is Some <==> data@.len() >= Self::spec_size(),
            r matches Some(v) ==> v == Self::spec_parse(data@),
    ;
}

impl FromData for u16 {
    open spec fn spec_size() -> nat {
        2
    }

    open spec fn spec_parse(data: Seq<u8>) -> u16 {
        u16_at(data, 0)
    }

    fn size() -> (r: usize) {
        2
    }

    fn parse(data: &[u8]) -> (r: Option<u16>) {
        if data.len() < 2 {
            None
        } else {
            Some((data[0] as u16) * 0x100 + data[1] as u16)
        }
    }
}

impl FromData for i16 {
    open spec fn spec_size() -> nat {
        2
    }

    open spec fn spec_parse(data: Seq<u8>) -> i16 {
        i16_at(data, 0)
    }

    fn size() -> (r: usize) {
        2
    }

    fn parse(data: &[u8]) -> (r: Option<i16>) {
        if data.len() < 2 {
            None
        } else {
            let u: u16 = (data[0] as u16) * 0x100 + data[1] as u16;
            if u >= 0x8000 {
                Some((u as i32 - 0x1_0000) as i16)
            } else {
                Some(u as i16)
            }
        }
    }
}

impl FromData for u32 {
    open spec fn spec_size() -> nat {
        4
    }

    open spec fn spec_parse(data: Seq<u8>) -> u32 {
        u32_at(data, 0)
    }

    fn size() -> (r: usize) {
        4
    }

    fn parse(data: &[u8]) -> (r: Option<u32>) {
        if data.len() < 4 {
            None
        } else {
            Some(
                (data[0] as u32) * 0x100_0000 + (data[1] as u32) * 0x1_0000 + (data[2] as u32)
                    * 0x100 + data[3] as u32,
            )
        }
    }
}

/// The records that `bytes` holds one after another, `count` of them.
pub open spec fn records<T: FromData>(bytes: Seq<u8>, count: nat) -> Seq<T> {
    Seq::new(
        count,
        |i: int| T::spec_parse(bytes.subrange(i * T::spec_size(), (i + 1) * T::spec_size())),
    )
}

proof fn lemma_record_in_bounds(i: int, count: int, size: int)
    requires
        0 <= i < count,
        0 < size,
    ensures
        0 <= i * size,
        (i + 1) * size <= count * size,
        i * size + size == (i + 1) * size,
{
    assert(0 <= i * size) by (nonlinear_arith)
        requires
            0 <= i,
            0 < size,
    ;
    assert((i + 1) * size <= count * size) by (nonlinear_arith)
        requires
            i + 1 <= count,
            0 < size,
    ;
    assert(i * size + size == (i + 1) * size) by (nonlinear_arith);
}

/// A sequential reader of big-endian values over a byte slice.
///
/// Its view is the sequence of bytes not read yet.
pub struct Stream<'a> {
    data: &'a [u8],
    offset: usize,
}

impl<'a> View for Stream<'a> {
    type V = Seq<u8>;

    closed spec fn view(&self) -> Seq<u8> {
        self.data@.subrange(self.offset as int, self.data@.len() as int)
    }
}

impl<'a> Stream<'a> {
    #[verifier::type_invariant]
    spec fn offset_in_bounds(&self) -> bool {
        self.offset <= self.data@.len()
    }

    pub fn new(data: &'a [u8]) -> (s: Stream<'a>)
        ensures
            s@ == data@,
    {
        let s = Stream { data, offset: 0 };
        assert(s@ =~= data@);
        s
    }

    /// Takes the next `n` bytes.
    fn take_bytes(&mut self, n: usize) -> (r: Result<&'a [u8], Error>)
        ensures
            n <= old(self)@.len() ==> (r matches Ok(b) && b@ == old(self)@.take(n as int))
                && final(self)@ == old(self)@.skip(n as int),
            n > old(self)@.len() ==> r == Err::<&'a [u8], Error>(Error::UnexpectedEof)
                && final(self)@ == old(self)@,
    {
        proof {
            use_type_invariant(&*self);
        }
        if n > self.data.len() - self.offset {
            return Err(Error::UnexpectedEof);
        }
        let start = self.offset;
        let b = slice_subrange(self.data, start, start + n);
        self.offset = start + n;
        assert(b@ =~= old(self)@.take(n as int));
        assert(self@ =~= old(self)@.skip(n as int));
        Ok(b)
    }

    /// Decodes the next value.
    pub fn read<T: FromData>(&mut self) -> (r: Result<T, Error>)
        ensures
            T::spec_size() <= old(self)@.len() ==> r == Ok::<T, Error>(
                T::spec_parse(old(self)@.take(T::spec_size() as int)),
            ) && final(self)@ == old(self)@.skip(T::spec_size() as int),
            T::spec_size() > old(self)@.len() ==> r == Err::<T, Error>(Error::UnexpectedEof)
                && final(self)@ == old(self)@,
    {
        let b = self.take_bytes(T::size())?;
        match T::parse(b) {
            Some(v) => Ok(v),
            None => Err(Error::UnexpectedEof),
        }
    }

    /// Steps over the next value without decoding it.
    pub fn skip<T: FromData>(&mut self) -> (r: Result<(), Error>)
        ensures
            T::spec_size() <= old(self)@.len() ==> r is Ok && final(self)@ == old(self)@.skip(
                T::spec_size() as int,
            ),
            T::spec_size() > old(self)@.len() ==> r == Err::<(), Error>(Error::UnexpectedEof)
                && final(self)@ == old(self)@,
    {
        self.take_bytes(T::size())?;
        Ok(())
    }

    /// Takes the next `count` records as an array that decodes each on access.
    fn read_records<T: FromData>(&mut self, count: usize) -> (r: Result<LazyArray<'a, T>, Error>)
        ensures
            count * T::spec_size() <= old(self)@.len() ==> (r matches Ok(a) && a@
                == records::<T>(old(self)@.take(count * T::spec_size()), count as nat))
                && final(self)@ == old(self)@.skip(count * T::spec_size()),
            count * T::spec_size() > old(self)@.len() ==> (r matches Err(e) && e
                == Error::UnexpectedEof) && final(self)@ == old(self)@,
    {
        proof {
            use_type_invariant(&*self);
            assert(self.data.len() == self.data@.len());
        }
        let size = T::size();
        let n = match count.checked_mul(size) {
            Some(n) => n,
            None => return Err(Error::UnexpectedEof),
        };
        let data = self.take_bytes(n)?;
        Ok(LazyArray { data, len: count, item: core::marker::PhantomData })
    }

    /// Takes the next `count` records, for a 16-bit count.
    pub fn read_array<T: FromData>(&mut self, count: u16) -> (r: Result<LazyArray<'a, T>, Error>)
        ensures
            count * T::spec_size() <= old(self)@.len() ==> (r matches Ok(a) && a@
                == records::<T>(old(self)@.take(count * T::spec_size()), count as nat))
                && final(self)@ == old(self)@.skip(count * T::spec_size()),
            count * T::spec_size() > old(self)@.len() ==> (r matches Err(e) && e
                == Error::UnexpectedEof) && final(self)@ == old(self)@,
    {
        self.read_records(count as usize)
    }

    /// Takes the next `count` records, for a 32-bit count.
    pub fn read_array32<T: FromData>(&mut self, count: u32) -> (r: Result<LazyArray<'a, T>, Error>)
        ensures
            count * T::spec_size() <= old(self)@.len() ==> (r matches Ok(a) && a@
                == records::<T>(old(self)@.take(count * T::spec_size()), count as nat))
                && final(self)@ == old(self)@.skip(count * T::spec_size()),
            count * T::spec_size() > old(self)@.len() ==> (r matches Err(e) && e
                == Error::UnexpectedEof) && final(self)@ == old(self)@,
    {
        self.read_records(count as usize)
    }
}

/// Fixed-size records laid out back to back in a byte slice, decoded one at a time
/// on access.
///
/// Its view is the sequence of decoded records.
pub struct LazyArray<'a, T: FromData> {
    data: &'a [u8],
    len: usize,
    item: core::marker::PhantomData<T>,
}

impl<'a, T: FromData> View for LazyArray<'a, T> {
    type V = Seq<T>;

    closed spec fn view(&self) -> Seq<T> {
        records::<T>(self.data@, self.len as nat)
    }
}

impl<'a, T: FromData> LazyArray<'a, T> {
    #[verifier::type_invariant]
    spec fn exact_fit(&self) -> bool {
        self.data@.len() == self.len * T::spec_size()
    }

    /// The number of records.
    pub fn len(&self) -> (r: usize)
        ensures
            r == self@.len(),
    {
        self.len
    }

    /// The record at `index`, or `None` past the end.
    pub fn get(&self, index: usize) -> (r: Option<T>)
        ensures
            index < self@.len() ==> r == Some(self@[index as int]),
            index >= self@.len() ==> r is None,
    {
        if index >= self.len {
            return None;
        }
        proof {
            use_type_invariant(self);
        }
        let size = T::size();
        proof {
            lemma_record_in_bounds(index as int, self.len as int, size as int);
            assert(self.data.len() == self.data@.len());
        }
        let start = index * size;
        let b = slice_subrange(self.data, start, start + size);
        T::parse(b)
    }

    /// The last record, or `None` when there is none.
    pub fn last(&self) -> (r: Option<T>)
        ensures
            self@.len() == 0 ==> r is None,
            self@.len() > 0 ==> r == Some(self@[self@.len() - 1]),
    {
        if self.len == 0 {
            None
        } else {
            self.get(self.len - 1)
        }
    }
}

} // verus!
