//! The MV2S container: header, table of contents and footer pages, and the
//! validation that picks the live header when a container is opened.

use vstd::prelude::*;
use vstd::bytes::*;
use vstd::slice::slice_subrange;

verus! {

pub const SPEC_MAJOR: u16 = 1;
pub const SPEC_MINOR: u16 = 0;
pub const WAL_RECORD_HEADER_SIZE: usize = 48;
pub const MAX_STRING_BYTES: usize = 64 * 1024 * 1024;
pub const MAX_BLOB_BYTES: usize = 256 * 1024 * 1024;

/// Size in bytes of a header page.
pub const HEADER_SIZE: usize = 32;
/// Size in bytes of a table-of-contents page.
pub const TOC_SIZE: usize = 16;
/// Size in bytes of the footer page.
pub const FOOTER_SIZE: usize = 24;
/// The table of contents can never start before this offset.
pub const MIN_TOC_OFFSET: u64 = 32;

/// The format version, as (major, minor).
pub fn spec_version() -> (r: (u16, u16))
    ensures
        r == (SPEC_MAJOR, SPEC_MINOR),
{
    (SPEC_MAJOR, SPEC_MINOR)
}

#[derive(Debug, Clone, Copy, PartialEq, Eq, Structural)]
pub enum FormatError {
    InvalidLength,
    InvalidMagic,
    ChecksumMismatch,
    NoValidHeader,
    GenerationMismatch,
    TocOffsetMismatch,
    TocOffsetOutOfRange,
}

/// What a successful open settles on.
#[derive(Debug, Clone, Copy, PartialEq, Eq, Structural)]
pub struct OpenState {
    pub generation: u64,
    pub toc_offset: u64,
}

/// Additive checksum of `b`, wrapping at 2^32.
pub open spec fn checksum_of(b: Seq<u8>) -> u32
    decreases b.len(),
{
    if b.len() == 0 {
        0
    } else {
        let s = checksum_of(b.drop_last()) as int + b.last() as int;
        if s > u32::MAX {
            (s - 0x1_0000_0000) as u32
        } else {
            s as u32
        }
    }
}

/// Wrapping sum of all bytes, as a `u32`.
pub fn checksum(bytes: &[u8]) -> (r: u32)
    ensures
        r == checksum_of(bytes@),
{
    let mut acc: u32 = 0;
    let mut i: usize = 0;
    while i < bytes.len()
        invariant
            i <= bytes@.len(),
            acc == checksum_of(bytes@.subrange(0, i as int)),
        decreases bytes@.len() - i,
    {
        assert(bytes@.subrange(0, i as int + 1).drop_last() =~= bytes@.subrange(0, i as int));
        acc = acc.wrapping_add(bytes[i] as u32);
        i += 1;
    }
    assert(bytes@.subrange(0, i as int) =~= bytes@);
    acc
}

pub open spec fn header_magic() -> Seq<u8> {
    seq![0x4du8, 0x56u8, 0x32u8, 0x48u8]
}

pub open spec fn toc_magic() -> Seq<u8> {
    seq![0x4du8, 0x56u8, 0x32u8, 0x54u8]
}

pub open spec fn footer_magic() -> Seq<u8> {
    seq![0x4du8, 0x56u8, 0x32u8, 0x46u8]
}

/// A page body followed by its checksum.
pub open spec fn sealed(body: Seq<u8>) -> Seq<u8> {
    body + spec_u32_to_le_bytes(checksum_of(body))
}

/// Decoding a fixed-size page: length, magic and checksum are checked in that order.
pub open spec fn check_page(b: Seq<u8>, size: nat, magic: Seq<u8>) -> Result<(), FormatError> {
    if b.len() != size {
        Err(FormatError::InvalidLength)
    } else if b.subrange(0, 4) != magic {
        Err(FormatError::InvalidMagic)
    } else if checksum_of(b.subrange(0, size - 4)) != spec_u32_from_le_bytes(
        b.subrange(size - 4, size as int),
    ) {
        Err(FormatError::ChecksumMismatch)
    } else {
        Ok(())
    }
}

pub open spec fn u64_at(b: Seq<u8>, at: int) -> u64 {
    spec_u64_from_le_bytes(b.subrange(at, at + 8))
}

/// Checks length, magic and checksum of a page.
fn check_page_exec(bytes: &[u8], size: usize, m3: u8) -> (r: Result<(), FormatError>)
    requires
        8 <= size,
    ensures
        r == check_page(bytes@, size as nat, seq![0x4du8, 0x56u8, 0x32u8, m3]),
{
    if bytes.len() != size {
        return Err(FormatError::InvalidLength);
    }
    let magic_ok = bytes[0] == 0x4d && bytes[1] == 0x56 && bytes[2] == 0x32 && bytes[3] == m3;
    proof {
        let m = seq![0x4du8, 0x56u8, 0x32u8, m3];
        if magic_ok {
            assert(bytes@.subrange(0, 4) =~= m);
        } else {
            assert(bytes@.subrange(0, 4)[0] == bytes@[0]);
            assert(bytes@.subrange(0, 4)[1] == bytes@[1]);
            assert(bytes@.subrange(0, 4)[2] == bytes@[2]);
            assert(bytes@.subrange(0, 4)[3] == bytes@[3]);
            assert(bytes@.subrange(0, 4) != m);
        }
    }
    if !magic_ok {
        return Err(FormatError::InvalidMagic);
    }
    let expected = checksum(slice_subrange(bytes, 0, size - 4));
    let actual = u32_from_le_bytes(slice_subrange(bytes, size - 4, size));
    if expected != actual {
        return Err(FormatError::ChecksumMismatch);
    }
    Ok(())
}

/// Appends the checksum of everything in `out` to `out`.
fn seal(out: &mut Vec<u8>)
    ensures
        final(out)@ == sealed(old(out)@),
{
    let c = checksum(out.as_slice());
    let tail = u32_to_le_bytes(c);
    out.extend_from_slice(tail.as_slice());
}

/// Appends a little-endian `u64`.
fn push_u64(out: &mut Vec<u8>, v: u64)
    ensures
        final(out)@ == old(out)@ + spec_u64_to_le_bytes(v),
{
    let b = u64_to_le_bytes(v);
    out.extend_from_slice(b.as_slice());
}

/// Appends a four-byte magic `M V 2 m3`.
fn push_magic(out: &mut Vec<u8>, m3: u8)
    ensures
        final(out)@ == old(out)@ + seq![0x4du8, 0x56u8, 0x32u8, m3],
{
    out.push(0x4d);
    out.push(0x56);
    out.push(0x32);
    out.push(m3);
    assert(out@ =~= old(out)@ + seq![0x4du8, 0x56u8, 0x32u8, m3]);
}

/// A header page: generation and TOC offset.
#[derive(Debug, Clone, Copy, PartialEq, Eq, Structural)]
pub struct MV2SHeader {
    pub generation: u64,
    pub toc_offset: u64,
}

/// Header page: magic, generation, toc_offset, a reserved zero `u64`, checksum.
pub open spec fn header_bytes(generation: u64, toc_offset: u64) -> Seq<u8> {
    sealed(
        header_magic() + spec_u64_to_le_bytes(generation) + spec_u64_to_le_bytes(toc_offset)
            + spec_u64_to_le_bytes(0),
    )
}

pub open spec fn header_decode(b: Seq<u8>) -> Result<MV2SHeader, FormatError> {
    match check_page(b, 32, header_magic()) {
        Err(e) => Err(e),
        Ok(_) => Ok(MV2SHeader { generation: u64_at(b, 4), toc_offset: u64_at(b, 12) }),
    }
}

impl MV2SHeader {
    pub fn encode(&self) -> (r: Vec<u8>)
        ensures
            r@ == header_bytes(self.generation, self.toc_offset),
    {
        let mut out: Vec<u8> = Vec::new();
        push_magic(&mut out, 0x48);
        push_u64(&mut out, self.generation);
        push_u64(&mut out, self.toc_offset);
        push_u64(&mut out, 0);
        seal(&mut out);
        out
    }

    pub fn decode(bytes: &[u8]) -> (r: Result<Self, FormatError>)
        ensures
            r == header_decode(bytes@),
    {
        check_page_exec(bytes, HEADER_SIZE, 0x48)?;
        Ok(MV2SHeader {
            generation: u64_from_le_bytes(slice_subrange(bytes, 4, 12)),
            toc_offset: u64_from_le_bytes(slice_subrange(bytes, 12, 20)),
        })
    }
}

/// A sealed page whose body starts with the expected magic passes the page checks.
proof fn lemma_sealed_page_checks(body: Seq<u8>, magic: Seq<u8>)
    requires
        body.len() >= 4,
        magic.len() == 4,
        body.subrange(0, 4) == magic,
    ensures
        check_page(sealed(body), body.len() + 4, magic) == Ok::<(), FormatError>(()),
{
    lemma_auto_spec_u32_to_from_le_bytes();
    let b = sealed(body);
    let n = body.len() as int;
    assert(b.subrange(0, n) =~= body);
    assert(b.subrange(0, 4) =~= body.subrange(0, 4));
    assert(b.subrange(n, n + 4) =~= spec_u32_to_le_bytes(checksum_of(body)));
}

/// The `u64` written at offset `at` of a page body reads back from the sealed page.
proof fn lemma_sealed_u64(pre: Seq<u8>, v: u64, post: Seq<u8>)
    ensures
        u64_at(sealed(pre + spec_u64_to_le_bytes(v) + post), pre.len() as int) == v,
{
    lemma_auto_spec_u64_to_from_le_bytes();
    let b = sealed(pre + spec_u64_to_le_bytes(v) + post);
    let at = pre.len() as int;
    assert(b.subrange(at, at + 8) =~= spec_u64_to_le_bytes(v));
}

/// An encoded header decodes to the same generation and TOC offset.
pub proof fn lemma_header_round_trip(generation: u64, toc_offset: u64)
    ensures
        header_decode(header_bytes(generation, toc_offset)) == Ok::<MV2SHeader, FormatError>(
            MV2SHeader { generation, toc_offset },
        ),
{
    lemma_auto_spec_u64_to_from_le_bytes();
    let g = spec_u64_to_le_bytes(generation);
    let t = spec_u64_to_le_bytes(toc_offset);
    let z = spec_u64_to_le_bytes(0);
    let body = header_magic() + g + t + z;
    assert(body.subrange(0, 4) =~= header_magic());
    lemma_sealed_page_checks(body, header_magic());
    assert(body =~= header_magic() + g + (t + z));
    lemma_sealed_u64(header_magic(), generation, t + z);
    assert(body =~= (header_magic() + g) + t + z);
    lemma_sealed_u64(header_magic() + g, toc_offset, z);
}

/// The table-of-contents page.
#[derive(Debug, Clone, Copy, PartialEq, Eq, Structural)]
pub struct MV2SToc {
    pub frame_count: u64,
}

/// TOC page: magic, frame_count, checksum.
pub open spec fn toc_bytes(frame_count: u64) -> Seq<u8> {
    sealed(toc_magic() + spec_u64_to_le_bytes(frame_count))
}

pub open spec fn toc_decode(b: Seq<u8>) -> Result<MV2SToc, FormatError> {
    match check_page(b, 16, toc_magic()) {
        Err(e) => Err(e),
        Ok(_) => Ok(MV2SToc { frame_count: u64_at(b, 4) }),
    }
}

impl MV2SToc {
    pub fn encode(&self) -> (r: Vec<u8>)
        ensures
            r@ == toc_bytes(self.frame_count),
    {
        let mut out: Vec<u8> = Vec::new();
        push_magic(&mut out, 0x54);
        push_u64(&mut out, self.frame_count);
        seal(&mut out);
        out
    }

    pub fn decode(bytes: &[u8]) -> (r: Result<Self, FormatError>)
        ensures
            r == toc_decode(bytes@),
    {
        check_page_exec(bytes, TOC_SIZE, 0x54)?;
        Ok(MV2SToc { frame_count: u64_from_le_bytes(slice_subrange(bytes, 4, 12)) })
    }
}

/// An encoded TOC page decodes to the same frame count.
pub proof fn lemma_toc_round_trip(frame_count: u64)
    ensures
        toc_decode(toc_bytes(frame_count)) == Ok::<MV2SToc, FormatError>(MV2SToc { frame_count }),
{
    lemma_auto_spec_u64_to_from_le_bytes();
    let body = toc_magic() + spec_u64_to_le_bytes(frame_count);
    assert(body.subrange(0, 4) =~= toc_magic());
    lemma_sealed_page_checks(body, toc_magic());
    assert(body =~= toc_magic() + spec_u64_to_le_bytes(frame_count) + Seq::<u8>::empty());
    lemma_sealed_u64(toc_magic(), frame_count, Seq::<u8>::empty());
}

/// The footer page, which repeats the live header's generation and TOC offset.
#[derive(Debug, Clone, Copy, PartialEq, Eq, Structural)]
pub struct MV2SFooter {
    pub generation: u64,
    pub toc_offset: u64,
}

/// Footer page: magic, generation, toc_offset, checksum.
pub open spec fn footer_bytes(generation: u64, toc_offset: u64) -> Seq<u8> {
    sealed(footer_magic() + spec_u64_to_le_bytes(generation) + spec_u64_to_le_bytes(toc_offset))
}

pub open spec fn footer_decode(b: Seq<u8>) -> Result<MV2SFooter, FormatError> {
    match check_page(b, 24, footer_magic()) {
        Err(e) => Err(e),
        Ok(_) => Ok(MV2SFooter { generation: u64_at(b, 4), toc_offset: u64_at(b, 12) }),
    }
}

impl MV2SFooter {
    pub fn encode(&self) -> (r: Vec<u8>)
        ensures
            r@ == footer_bytes(self.generation, self.toc_offset),
    {
        let mut out: Vec<u8> = Vec::new();
        push_magic(&mut out, 0x46);
        push_u64(&mut out, self.generation);
        push_u64(&mut out, self.toc_offset);
        seal(&mut out);
        out
    }

    pub fn decode(bytes: &[u8]) -> (r: Result<Self, FormatError>)
        ensures
            r == footer_decode(bytes@),
    {
        check_page_exec(bytes, FOOTER_SIZE, 0x46)?;
        Ok(MV2SFooter {
            generation: u64_from_le_bytes(slice_subrange(bytes, 4, 12)),
            toc_offset: u64_from_le_bytes(slice_subrange(bytes, 12, 20)),
        })
    }
}

/// An encoded footer decodes to the same generation and TOC offset.
pub proof fn lemma_footer_round_trip(generation: u64, toc_offset: u64)
    ensures
        footer_decode(footer_bytes(generation, toc_offset)) == Ok::<MV2SFooter, FormatError>(
            MV2SFooter { generation, toc_offset },
        ),
{
    lemma_auto_spec_u64_to_from_le_bytes();
    let g = spec_u64_to_le_bytes(generation);
    let t = spec_u64_to_le_bytes(toc_offset);
    let body = footer_magic() + g + t;
    assert(body.subrange(0, 4) =~= footer_magic());
    lemma_sealed_page_checks(body, footer_magic());
    assert(body =~= footer_magic() + g + t);
    lemma_sealed_u64(footer_magic(), generation, t);
    assert(body =~= (footer_magic() + g) + t + Seq::<u8>::empty());
    lemma_sealed_u64(footer_magic() + g, toc_offset, Seq::<u8>::empty());
}

/// The header an open settles on: the valid one of larger generation
/// (ties go to `a`), the only valid one, or none.
pub open spec fn select_header(a: Seq<u8>, b: Seq<u8>) -> Option<MV2SHeader> {
    match (header_decode(a), header_decode(b)) {
        (Ok(x), Ok(y)) => if x.generation >= y.generation {
            Some(x)
        } else {
            Some(y)
        },
        (Ok(x), Err(_)) => Some(x),
        (Err(_), Ok(y)) => Some(y),
        (Err(_), Err(_)) => None,
    }
}

/// Checking the selected header against the footer.
pub open spec fn open_against(h: MV2SHeader, f: MV2SFooter) -> Result<OpenState, FormatError> {
    if f.generation != h.generation {
        Err(FormatError::GenerationMismatch)
    } else if f.toc_offset != h.toc_offset {
        Err(FormatError::TocOffsetMismatch)
    } else if h.toc_offset < MIN_TOC_OFFSET {
        Err(FormatError::TocOffsetOutOfRange)
    } else {
        Ok(OpenState { generation: h.generation, toc_offset: h.toc_offset })
    }
}

/// The outcome of opening a container from its two header pages and its footer.
pub open spec fn open_outcome(a: Seq<u8>, b: Seq<u8>, footer: Seq<u8>) -> Result<OpenState, FormatError> {
    match select_header(a, b) {
        None => Err(FormatError::NoValidHeader),
        Some(h) => match footer_decode(footer) {
            Err(e) => Err(e),
            Ok(f) => open_against(h, f),
        },
    }
}

/// Validates the two header pages against the footer and returns the live state.
pub fn validate_open(page_a: &[u8], page_b: &[u8], footer: &[u8]) -> (r: Result<OpenState, FormatError>)
    ensures
        r == open_outcome(page_a@, page_b@, footer@),
{
    let a = MV2SHeader::decode(page_a);
    let b = MV2SHeader::decode(page_b);
    let selected = match (a, b) {
        (Ok(x), Ok(y)) => if x.generation >= y.generation {
            x
        } else {
            y
        },
        (Ok(x), Err(_)) => x,
        (Err(_), Ok(y)) => y,
        (Err(_), Err(_)) => return Err(FormatError::NoValidHeader),
    };
    let foot = MV2SFooter::decode(footer)?;
    if foot.generation != selected.generation {
        return Err(FormatError::GenerationMismatch);
    }
    if foot.toc_offset != selected.toc_offset {
        return Err(FormatError::TocOffsetMismatch);
    }
    if selected.toc_offset < MIN_TOC_OFFSET {
        return Err(FormatError::TocOffsetOutOfRange);
    }
    Ok(OpenState { generation: selected.generation, toc_offset: selected.toc_offset })
}

/// Two valid headers of different generations: the newer one is selected, and
/// the footer is checked against it, each mismatch giving its own error.
pub proof fn lemma_open_prefers_newer(a: MV2SHeader, b: MV2SHeader, f: MV2SFooter)
    requires
        a.generation > b.generation,
    ensures
        open_outcome(
            header_bytes(a.generation, a.toc_offset),
            header_bytes(b.generation, b.toc_offset),
            footer_bytes(f.generation, f.toc_offset),
        ) == open_against(a, f),
        open_outcome(
            header_bytes(b.generation, b.toc_offset),
            header_bytes(a.generation, a.toc_offset),
            footer_bytes(f.generation, f.toc_offset),
        ) == open_against(a, f),
        f.generation != a.generation ==> open_against(a, f) == Err::<OpenState, FormatError>(
            FormatError::GenerationMismatch,
        ),
        f.generation == a.generation && f.toc_offset != a.toc_offset ==> open_against(a, f)
            == Err::<OpenState, FormatError>(FormatError::TocOffsetMismatch),
        f.generation == a.generation && f.toc_offset == a.toc_offset && a.toc_offset >= MIN_TOC_OFFSET
            ==> open_against(a, f) == Ok::<OpenState, FormatError>(
            OpenState { generation: a.generation, toc_offset: a.toc_offset },
        ),
{
    lemma_header_round_trip(a.generation, a.toc_offset);
    lemma_header_round_trip(b.generation, b.toc_offset);
    lemma_footer_round_trip(f.generation, f.toc_offset);
}

} // verus!
