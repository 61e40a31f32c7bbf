//! Length-prefixed little-endian primitive encoder and decoder.

use vstd::prelude::*;
use vstd::bytes::*;
use vstd::slice::slice_subrange;
use vstd::utf8::*;

verus! {

broadcast use {encode_utf8_valid_utf8, encode_utf8_decode_utf8};

/// Why a decode could not produce a value.
#[derive(Debug, Clone, Copy, PartialEq, Eq, Structural)]
pub enum BinaryDecodeError {
    UnexpectedEof,
    Utf8,
    LengthOverflow,
}

/// One primitive value of the wire format.
pub enum Prim {
    U8(u8),
    U32(u32),
    U64(u64),
    Bytes(Seq<u8>),
    Str(Seq<char>),
}

/// The shape of a primitive, which is what a reader asks for.
pub enum PrimKind {
    U8,
    U32,
    U64,
    Bytes,
    Str,
}

pub open spec fn kind_of(p: Prim) -> PrimKind {
    match p {
        Prim::U8(_) => PrimKind::U8,
        Prim::U32(_) => PrimKind::U32,
        Prim::U64(_) => PrimKind::U64,
        Prim::Bytes(_) => PrimKind::Bytes,
        Prim::Str(_) => PrimKind::Str,
    }
}

/// A primitive can be written when its length prefix fits in a `u32`.
pub open spec fn encodable(p: Prim) -> bool {
    match p {
        Prim::Bytes(b) => b.len() <= u32::MAX,
        Prim::Str(s) => encode_utf8(s).len() <= u32::MAX,
        _ => true,
    }
}

/// Length prefix followed by the raw octets.
pub open spec fn encode_blob(b: Seq<u8>) -> Seq<u8> {
    spec_u32_to_le_bytes(b.len() as u32) + b
}

/// The wire form of one primitive.
pub open spec fn encode_prim(p: Prim) -> Seq<u8> {
    match p {
        Prim::U8(v) => seq![v],
        Prim::U32(v) => spec_u32_to_le_bytes(v),
        Prim::U64(v) => spec_u64_to_le_bytes(v),
        Prim::Bytes(b) => encode_blob(b),
        Prim::Str(s) => encode_blob(encode_utf8(s)),
    }
}

/// The wire form of a sequence of primitives, written in order.
pub open spec fn encode_all(ps: Seq<Prim>) -> Seq<u8>
    decreases ps.len(),
{
    if ps.len() == 0 {
        Seq::empty()
    } else {
        encode_prim(ps[0]) + encode_all(ps.drop_first())
    }
}

pub open spec fn kinds_of(ps: Seq<Prim>) -> Seq<PrimKind> {
    ps.map_values(|p: Prim| kind_of(p))
}

/// Claiming `n` bytes at offset `at` of `all`: the new offset, or why not.
pub open spec fn take_step(all: Seq<u8>, at: int, n: int) -> Result<int, BinaryDecodeError> {
    if at + n > usize::MAX {
        Err(BinaryDecodeError::LengthOverflow)
    } else if at + n > all.len() {
        Err(BinaryDecodeError::UnexpectedEof)
    } else {
        Ok(at + n)
    }
}

/// Reading a length-prefixed blob at `at`: the blob or the error, and the offset after.
pub open spec fn decode_blob(all: Seq<u8>, at: int) -> (Result<Seq<u8>, BinaryDecodeError>, int) {
    match take_step(all, at, 4) {
        Err(e) => (Err(e), at),
        Ok(at1) => {
            let n = spec_u32_from_le_bytes(all.subrange(at, at1)) as int;
            match take_step(all, at1, n) {
                Err(e) => (Err(e), at1),
                Ok(at2) => (Ok(all.subrange(at1, at2)), at2),
            }
        },
    }
}

/// Reading one primitive of kind `k` at offset `at` of `all`: the value or the
/// error, and the offset the reader stands at afterwards.
pub open spec fn decode_prim(k: PrimKind, all: Seq<u8>, at: int) -> (Result<Prim, BinaryDecodeError>, int) {
    match k {
        PrimKind::U8 => match take_step(all, at, 1) {
            Err(e) => (Err(e), at),
            Ok(end) => (Ok(Prim::U8(all[at])), end),
        },
        PrimKind::U32 => match take_step(all, at, 4) {
            Err(e) => (Err(e), at),
            Ok(end) => (Ok(Prim::U32(spec_u32_from_le_bytes(all.subrange(at, end)))), end),
        },
        PrimKind::U64 => match take_step(all, at, 8) {
            Err(e) => (Err(e), at),
            Ok(end) => (Ok(Prim::U64(spec_u64_from_le_bytes(all.subrange(at, end)))), end),
        },
        PrimKind::Bytes => match decode_blob(all, at) {
            (Err(e), end) => (Err(e), end),
            (Ok(b), end) => (Ok(Prim::Bytes(b)), end),
        },
        PrimKind::Str => match decode_blob(all, at) {
            (Err(e), end) => (Err(e), end),
            (Ok(b), end) => if valid_utf8(b) {
                (Ok(Prim::Str(decode_utf8(b))), end)
            } else {
                (Err(BinaryDecodeError::Utf8), end)
            },
        },
    }
}

/// Reading the kinds `ks` in order from offset `at`: all values, or the first error.
pub open spec fn decode_all(ks: Seq<PrimKind>, all: Seq<u8>, at: int) -> Result<Seq<Prim>, BinaryDecodeError>
    decreases ks.len(),
{
    if ks.len() == 0 {
        Ok(Seq::empty())
    } else {
        match decode_prim(ks[0], all, at) {
            (Err(e), _) => Err(e),
            (Ok(p), next) => match decode_all(ks.drop_first(), all, next) {
                Err(e) => Err(e),
                Ok(rest) => Ok(seq![p] + rest),
            },
        }
    }
}

pub proof fn lemma_decode_one(p: Prim, pre: Seq<u8>, post: Seq<u8>)
    requires
        encodable(p),
        pre.len() + encode_prim(p).len() + post.len() <= usize::MAX,
    ensures
        decode_prim(kind_of(p), pre + encode_prim(p) + post, pre.len() as int) == (
        Ok::<Prim, BinaryDecodeError>(p), (pre.len() + encode_prim(p).len()) as int),
{
    lemma_auto_spec_u32_to_from_le_bytes();
    lemma_auto_spec_u64_to_from_le_bytes();
    let e = encode_prim(p);
    let all = pre + e + post;
    let at = pre.len() as int;
    assert(all.subrange(at, at + e.len()) =~= e);
    match p {
        Prim::U8(v) => {
            assert(all[at] == v);
        },
        Prim::U32(v) => {},
        Prim::U64(v) => {},
        Prim::Bytes(b) => {
            assert(all.subrange(at, at + 4) =~= spec_u32_to_le_bytes(b.len() as u32));
            assert(all.subrange(at + 4, at + 4 + b.len()) =~= b);
        },
        Prim::Str(c) => {
            let b = encode_utf8(c);
            assert(all.subrange(at, at + 4) =~= spec_u32_to_le_bytes(b.len() as u32));
            assert(all.subrange(at + 4, at + 4 + b.len()) =~= b);
        },
    }
}

proof fn lemma_decode_all_at(ps: Seq<Prim>, pre: Seq<u8>, post: Seq<u8>)
    requires
        forall|i: int| 0 <= i < ps.len() ==> encodable(#[trigger] ps[i]),
        pre.len() + encode_all(ps).len() + post.len() <= usize::MAX,
    ensures
        decode_all(kinds_of(ps), pre + encode_all(ps) + post, pre.len() as int) == Ok::<
            Seq<Prim>,
            BinaryDecodeError,
        >(ps),
    decreases ps.len(),
{
    if ps.len() == 0 {
        assert(kinds_of(ps) =~= Seq::<PrimKind>::empty());
        assert(ps =~= Seq::<Prim>::empty());
    } else {
        let e0 = encode_prim(ps[0]);
        let rest = ps.drop_first();
        let er = encode_all(rest);
        let all = pre + encode_all(ps) + post;
        assert(all =~= pre + e0 + (er + post));
        assert(all =~= (pre + e0) + er + post);
        assert(encodable(ps[0]));
        lemma_decode_one(ps[0], pre, er + post);
        assert forall|i: int| 0 <= i < rest.len() implies encodable(#[trigger] rest[i]) by {
            assert(rest[i] == ps[i + 1]);
        }
        lemma_decode_all_at(rest, pre + e0, post);
        let ks = kinds_of(ps);
        assert(ks.len() == ps.len());
        assert(ks[0] == kind_of(ps[0]));
        assert(ks.drop_first() =~= kinds_of(rest));
        assert((pre + e0).len() == pre.len() + e0.len());
        assert(decode_all(ks.drop_first(), all, (pre.len() + e0.len()) as int) == Ok::<Seq<Prim>, BinaryDecodeError>(rest));
        assert(decode_prim(ks[0], all, pre.len() as int) == (Ok::<Prim, BinaryDecodeError>(ps[0]), (pre.len() + e0.len()) as int));
        assert(seq![ps[0]] + rest =~= ps);
    }
}

/// Decoding what an encoder wrote, asking for the same kinds in the same
/// order, gives back exactly the primitives that were written.
pub proof fn lemma_codec_round_trip(ps: Seq<Prim>)
    requires
        forall|i: int| 0 <= i < ps.len() ==> encodable(#[trigger] ps[i]),
        encode_all(ps).len() <= usize::MAX,
    ensures
        decode_all(kinds_of(ps), encode_all(ps), 0) == Ok::<Seq<Prim>, BinaryDecodeError>(ps),
{
    lemma_decode_all_at(ps, Seq::empty(), Seq::empty());
    assert(Seq::<u8>::empty() + encode_all(ps) + Seq::<u8>::empty() =~= encode_all(ps));
}

/// Appends primitives to a growing byte buffer.
pub struct BinaryEncoder {
    out: Vec<u8>,
}

impl View for BinaryEncoder {
    type V = Seq<u8>;

    closed spec fn view(&self) -> Seq<u8> {
        self.out@
    }
}

impl BinaryEncoder {
    pub fn new() -> (r: Self)
        ensures
            r@ == Seq::<u8>::empty(),
    {
        BinaryEncoder { out: Vec::new() }
    }

    pub fn put_u8(&mut self, v: u8)
        ensures
            final(self)@ == old(self)@ + encode_prim(Prim::U8(v)),
    {
        self.out.push(v);
        assert(self.out@ =~= old(self)@ + encode_prim(Prim::U8(v)));
    }

    pub fn put_u32(&mut self, v: u32)
        ensures
            final(self)@ == old(self)@ + encode_prim(Prim::U32(v)),
    {
        let b = u32_to_le_bytes(v);
        self.out.extend_from_slice(b.as_slice());
    }

    pub fn put_u64(&mut self, v: u64)
        ensures
            final(self)@ == old(self)@ + encode_prim(Prim::U64(v)),
    {
        let b = u64_to_le_bytes(v);
        self.out.extend_from_slice(b.as_slice());
    }

    pub fn put_bytes(&mut self, b: &[u8])
        requires
            b@.len() <= u32::MAX,
        ensures
            final(self)@ == old(self)@ + encode_prim(Prim::Bytes(b@)),
    {
        self.put_u32(b.len() as u32);
        self.out.extend_from_slice(b);
        assert(self.out@ =~= old(self)@ + encode_prim(Prim::Bytes(b@)));
    }

    pub fn put_string(&mut self, s: &str)
        requires
            encode_utf8(s@).len() <= u32::MAX,
        ensures
            final(self)@ == old(self)@ + encode_prim(Prim::Str(s@)),
    {
        self.put_bytes(s.as_bytes());
    }

    pub fn finish(self) -> (r: Vec<u8>)
        ensures
            r@ == self@,
    {
        self.out
    }
}

/// Reads primitives from a borrowed byte buffer, front to back.
pub struct BinaryDecoder<'a> {
    bytes: &'a [u8],
    at: usize,
}

impl<'a> View for BinaryDecoder<'a> {
    /// The whole buffer and the offset of the next unread byte.
    type V = (Seq<u8>, int);

    closed spec fn view(&self) -> (Seq<u8>, int) {
        (self.bytes@, self.at as int)
    }
}

impl<'a> BinaryDecoder<'a> {
    #[verifier::type_invariant]
    spec fn inv(&self) -> bool {
        self.at <= self.bytes@.len()
    }

    pub fn new(bytes: &'a [u8]) -> (r: Self)
        ensures
            r@ == (bytes@, 0int),
    {
        BinaryDecoder { bytes, at: 0 }
    }

    pub fn get_u8(&mut self) -> (r: Result<u8, BinaryDecodeError>)
        ensures
            ({
                let (res, next) = decode_prim(PrimKind::U8, old(self)@.0, old(self)@.1);
                &&& final(self)@ == (old(self)@.0, next)
                &&& match r {
                    Ok(v) => res == Ok::<Prim, BinaryDecodeError>(Prim::U8(v)),
                    Err(e) => res == Err::<Prim, BinaryDecodeError>(e),
                }
            }),
    {
        let b = self.take(1)?;
        Ok(b[0])
    }

    pub fn get_u32(&mut self) -> (r: Result<u32, BinaryDecodeError>)
        ensures
            ({
                let (res, next) = decode_prim(PrimKind::U32, old(self)@.0, old(self)@.1);
                &&& final(self)@ == (old(self)@.0, next)
                &&& match r {
                    Ok(v) => res == Ok::<Prim, BinaryDecodeError>(Prim::U32(v)),
                    Err(e) => res == Err::<Prim, BinaryDecodeError>(e),
                }
            }),
    {
        let b = self.take(4)?;
        Ok(u32_from_le_bytes(b))
    }

    pub fn get_u64(&mut self) -> (r: Result<u64, BinaryDecodeError>)
        ensures
            ({
                let (res, next) = decode_prim(PrimKind::U64, old(self)@.0, old(self)@.1);
                &&& final(self)@ == (old(self)@.0, next)
                &&& match r {
                    Ok(v) => res == Ok::<Prim, BinaryDecodeError>(Prim::U64(v)),
                    Err(e) => res == Err::<Prim, BinaryDecodeError>(e),
                }
            }),
    {
        let b = self.take(8)?;
        Ok(u64_from_le_bytes(b))
    }

    pub fn get_bytes(&mut self) -> (r: Result<Vec<u8>, BinaryDecodeError>)
        ensures
            ({
                let (res, next) = decode_prim(PrimKind::Bytes, old(self)@.0, old(self)@.1);
                &&& final(self)@ == (old(self)@.0, next)
                &&& match r {
                    Ok(v) => res == Ok::<Prim, BinaryDecodeError>(Prim::Bytes(v@)),
                    Err(e) => res == Err::<Prim, BinaryDecodeError>(e),
                }
            }),
    {
        let len = self.get_u32()? as usize;
        let b = self.take(len)?;
        Ok(vstd::slice::slice_to_vec(b))
    }

    pub fn get_string(&mut self) -> (r: Result<String, BinaryDecodeError>)
        ensures
            ({
                let (res, next) = decode_prim(PrimKind::Str, old(self)@.0, old(self)@.1);
                &&& final(self)@ == (old(self)@.0, next)
                &&& match r {
                    Ok(v) => res == Ok::<Prim, BinaryDecodeError>(Prim::Str(v@)),
                    Err(e) => res == Err::<Prim, BinaryDecodeError>(e),
                }
            }),
    {
        let bytes = self.get_bytes()?;
        match string_from_utf8(bytes) {
            Some(s) => Ok(s),
            None => Err(BinaryDecodeError::Utf8),
        }
    }

    fn take(&mut self, len: usize) -> (r: Result<&'a [u8], BinaryDecodeError>)
        ensures
            match take_step(old(self)@.0, old(self)@.1, len as int) {
                Ok(end) => r matches Ok(s) && s@ == old(self)@.0.subrange(old(self)@.1, end)
                    && final(self)@ == (old(self)@.0, end),
                Err(e) => r == Err::<&'a [u8], BinaryDecodeError>(e) && final(self)@ == old(self)@,
            },
    {
        proof {
            use_type_invariant(&*self);
        }
        let end = match self.at.checked_add(len) {
            Some(e) => e,
            None => return Err(BinaryDecodeError::LengthOverflow),
        };
        if end > self.bytes.len() {
            return Err(BinaryDecodeError::UnexpectedEof);
        }
        let s = slice_subrange(self.bytes, self.at, end);
        self.at = end;
        Ok(s)
    }
}

/// Relies on `String::from_utf8`: it accepts exactly the well-formed UTF-8
/// byte sequences and returns the characters they encode.
#[verifier::external_body]
fn string_from_utf8(b: Vec<u8>) -> (r: Option<String>)
    ensures
        match r {
            Some(s) => valid_utf8(b@) && s@ == decode_utf8(b@),
            None => !valid_utf8(b@),
        },
{
    String::from_utf8(b).ok()
}

} // verus!
