//! Native LZOP (`.lzo`) stream decoder.
//!
//! An lzop stream is a 9-byte magic, a header, and a sequence of blocks. A
//! block whose uncompressed size is zero ends the stream; in a multipart
//! stream another magic and header may follow it. Each block is stored or
//! LZO1X-compressed, optionally protected by CRC-32 or Adler-32 checksums of
//! its compressed and uncompressed bytes. Raw LZO1X block decompression is
//! done by the `lzo` crate.
use crate::checksum::{adler32, adler32_of, crc32, crc32_ieee};
use crate::text::{chars_of, concat_chars, string_from_chars};
use vstd::prelude::*;

verus! {

/// lzop container magic (`\x89LZO\0\r\n\x1a\n`).
pub const LZOP_HEADER_MAGIC: [u8; 9] = [0x89, 0x4c, 0x5a, 0x4f, 0x00, 0x0d, 0x0a, 0x1a, 0x0a];

/// Header flag: stored uncompressed-data checksum is ADLER32.
pub const FLAG_ADLER32_UNCOMPRESSED: u32 = 0x0001;
/// Header flag: stored compressed-data checksum is ADLER32.
pub const FLAG_ADLER32_COMPRESSED: u32 = 0x0002;
/// Header flag: an extra field follows the header checksum.
pub const FLAG_EXTRA_FIELD: u32 = 0x0040;
/// Header flag: a filter name field is present.
pub const FLAG_FILTER: u32 = 0x0800;
/// Header flag: stored uncompressed-data checksum is CRC32.
pub const FLAG_CRC32_UNCOMPRESSED: u32 = 0x0100;
/// Header flag: stored compressed-data checksum is CRC32.
pub const FLAG_CRC32_COMPRESSED: u32 = 0x0200;
/// Header flag: the header checksum is CRC32 (else ADLER32).
pub const FLAG_CRC32_HEADER: u32 = 0x1000;

/// Largest accepted block size (64 MiB), a guard against allocation bombs in
/// hostile input.
pub const MAX_BLOCK_SIZE: usize = 67108864;

/// The LZO1X decompression of `src` into at most `max_len` bytes, as
/// computed by `lzo::decompress`; `None` when it fails.
pub uninterp spec fn lzo1x_decompressed(src: Seq<u8>, max_len: nat) -> Option<Seq<u8>>;

/// Calls `lzo::decompress`. The contract says that the result is the named
/// decompression of `src` (a function of `src` and `max_len` alone) and, as
/// the crate's documentation states, holds at most `max_len` bytes; the
/// error text (the `lzo::Error` display) is not stated.
#[verifier::external_body]
fn lzo_decompress(src: &[u8], max_len: usize) -> (r: Result<Vec<u8>, String>)
    ensures
        match r {
            Ok(d) => lzo1x_decompressed(src@, max_len as nat) == Some(d@) && d@.len() <= max_len,
            Err(_) => lzo1x_decompressed(src@, max_len as nat) is None,
        },
{
    lzo::decompress(src, max_len).map_err(|error| error.to_string())
}

/// Why an lzop stream was rejected.
#[derive(Debug, Clone, Copy, PartialEq, Eq, Structural)]
pub enum LzopFailure {
    NotLzop,
    Truncated,
    UnsupportedVersion,
    UnsupportedMethod,
    InvalidLevel,
    CorruptedHeader,
    BlockTooLarge,
    CorruptedBlock,
    DecompressionFailed,
    UnexpectedSize,
}

/// The error message of a failure (a decompression failure's message goes
/// on with the decompressor's own text).
pub open spec fn failure_message(f: LzopFailure) -> Seq<char> {
    match f {
        LzopFailure::NotLzop => "not an lzop stream"@,
        LzopFailure::Truncated => "truncated lzop stream"@,
        LzopFailure::UnsupportedVersion => "lzop stream requires an unsupported version"@,
        LzopFailure::UnsupportedMethod => "lzop stream uses an unsupported compression method"@,
        LzopFailure::InvalidLevel => "lzop stream uses an invalid compression level"@,
        LzopFailure::CorruptedHeader => "corrupted lzop header"@,
        LzopFailure::BlockTooLarge => "lzop block exceeds the 64 MiB limit"@,
        LzopFailure::CorruptedBlock => "corrupted lzop block"@,
        LzopFailure::DecompressionFailed => "lzop block decompression failed: "@,
        LzopFailure::UnexpectedSize => "lzop block decompressed to an unexpected size"@,
    }
}

/// Kind of an lzop decoding error.
#[derive(Debug, Clone, Copy, PartialEq, Eq, Structural)]
pub enum LzopErrorKind {
    /// The input is not a valid lzop stream.
    InvalidData,
}

/// An lzop decoding error.
#[derive(Debug, Clone)]
pub struct LzopError {
    pub failure: LzopFailure,
    pub message: String,
}

impl LzopError {
    /// The error's kind: every decoding error is invalid data.
    pub fn kind(&self) -> (r: LzopErrorKind)
        ensures
            r == LzopErrorKind::InvalidData,
    {
        LzopErrorKind::InvalidData
    }
}

pub open spec fn magic_spec() -> Seq<u8> {
    seq![0x89u8, 0x4cu8, 0x5au8, 0x4fu8, 0x00u8, 0x0du8, 0x0au8, 0x1au8, 0x0au8]
}

/// Big-endian 16-bit value at `i`.
pub open spec fn be16(s: Seq<u8>, i: int) -> int {
    s[i] * 256 + s[i + 1]
}

/// Big-endian 32-bit value at `i`.
pub open spec fn be32(s: Seq<u8>, i: int) -> u32 {
    (s[i] * 16777216 + s[i + 1] * 65536 + s[i + 2] * 256 + s[i + 3]) as u32
}

/// The checksum a header or block flag selects.
pub open spec fn checksum_of(use_crc: bool, data: Seq<u8>) -> u32 {
    if use_crc {
        crc32_ieee(data)
    } else {
        adler32_of(data)
    }
}

/// The header that follows a magic at `p`: its flags and the position after
/// it. Fields are read in order (version, library version, required version
/// from format 0x0940 on, method, level from 0x0940 on, flags, filter when
/// flagged, mode, mtime of 8 bytes from 0x0940 on and 4 before, file name
/// length and name, checksum of everything since the magic, extra field
/// when flagged); running out of input is a truncation.
pub open spec fn header_spec(s: Seq<u8>, p: int) -> Result<(u32, int), LzopFailure> {
    if p < 0 || p + 4 > s.len() {
        Err(LzopFailure::Truncated)
    } else {
        let new_fmt = be16(s, p) >= 0x0940;
        if new_fmt && p + 6 > s.len() {
            Err(LzopFailure::Truncated)
        } else if new_fmt && be16(s, p + 4) < 0x0900 {
            Err(LzopFailure::UnsupportedVersion)
        } else {
            let m = if new_fmt {
                p + 6
            } else {
                p + 4
            };
            if m + 1 > s.len() {
                Err(LzopFailure::Truncated)
            } else if !(1 <= s[m] <= 3) {
                Err(LzopFailure::UnsupportedMethod)
            } else if new_fmt && m + 2 > s.len() {
                Err(LzopFailure::Truncated)
            } else if new_fmt && s[m + 1] > 9 {
                Err(LzopFailure::InvalidLevel)
            } else {
                let f = if new_fmt {
                    m + 2
                } else {
                    m + 1
                };
                if f + 4 > s.len() {
                    Err(LzopFailure::Truncated)
                } else {
                    let flags = be32(s, f);
                    let mode = if flags & FLAG_FILTER != 0 {
                        f + 8
                    } else {
                        f + 4
                    };
                    let name_len = mode + 4 + if new_fmt {
                        8int
                    } else {
                        4int
                    };
                    if name_len + 1 > s.len() {
                        Err(LzopFailure::Truncated)
                    } else {
                        let cks = name_len + 1 + s[name_len];
                        if cks + 4 > s.len() {
                            Err(LzopFailure::Truncated)
                        } else if be32(s, cks) != checksum_of(flags & FLAG_CRC32_HEADER != 0, s.subrange(p, cks)) {
                            Err(LzopFailure::CorruptedHeader)
                        } else {
                            let after = cks + 4;
                            if flags & FLAG_EXTRA_FIELD != 0 {
                                if after + 4 > s.len() {
                                    Err(LzopFailure::Truncated)
                                } else if after + 4 + be32(s, after) > s.len() {
                                    Err(LzopFailure::Truncated)
                                } else {
                                    Ok((flags, after + 4 + be32(s, after)))
                                }
                            } else {
                                Ok((flags, after))
                            }
                        }
                    }
                }
            }
        }
    }
}

/// The stream's first header: its flags and where the first block starts.
pub open spec fn stream_start(s: Seq<u8>) -> Result<(u32, int), LzopFailure> {
    if s.len() < 9 {
        Err(LzopFailure::Truncated)
    } else if s.subrange(0, 9) != magic_spec() {
        Err(LzopFailure::NotLzop)
    } else {
        header_spec(s, 9)
    }
}

/// One step of block decoding.
pub enum BlockStep {
    /// The stream ended.
    End,
    /// A block decoded to `bytes`; the next one starts at `next`, governed
    /// by `flags`.
    Data { bytes: Seq<u8>, next: int, flags: u32 },
    /// Decoding failed.
    Fail(LzopFailure),
}

/// The block at `p` under the header `flags`. A zero uncompressed size
/// ends the stream unless a further magic and header follow it (a
/// multipart stream), in which case decoding goes on after that header.
pub open spec fn block_spec(s: Seq<u8>, p: int, flags: u32) -> BlockStep
    decreases s.len() - p,
{
    if p < 0 || p + 4 > s.len() {
        BlockStep::Fail(LzopFailure::Truncated)
    } else {
        let usize_ = be32(s, p);
        if usize_ == 0 {
            let q = p + 4;
            if q + 9 <= s.len() && s.subrange(q, q + 9) == magic_spec() {
                match header_spec(s, q + 9) {
                    Err(e) => BlockStep::Fail(e),
                    Ok((f2, p2)) => if p < p2 <= s.len() {
                        block_spec(s, p2, f2)
                    } else {
                        BlockStep::End
                    },
                }
            } else {
                BlockStep::End
            }
        } else if usize_ > MAX_BLOCK_SIZE {
            BlockStep::Fail(LzopFailure::BlockTooLarge)
        } else if p + 8 > s.len() {
            BlockStep::Fail(LzopFailure::Truncated)
        } else {
            let csize = be32(s, p + 4);
            if csize > usize_ {
                BlockStep::Fail(LzopFailure::CorruptedBlock)
            } else {
                let has_u = flags & (FLAG_CRC32_UNCOMPRESSED | FLAG_ADLER32_UNCOMPRESSED) != 0;
                let has_c = flags & (FLAG_CRC32_COMPRESSED | FLAG_ADLER32_COMPRESSED) != 0 && csize < usize_;
                let c_at = if has_u {
                    p + 12
                } else {
                    p + 8
                };
                let d = c_at + if has_c {
                    4int
                } else {
                    0int
                };
                if d + csize > s.len() {
                    BlockStep::Fail(LzopFailure::Truncated)
                } else {
                    let data = s.subrange(d, d + csize);
                    if has_c && be32(s, c_at) != checksum_of(flags & FLAG_CRC32_COMPRESSED != 0, data) {
                        BlockStep::Fail(LzopFailure::CorruptedBlock)
                    } else {
                        let decoded = if csize == usize_ {
                            Some(data)
                        } else {
                            lzo1x_decompressed(data, usize_ as nat)
                        };
                        match decoded {
                            None => BlockStep::Fail(LzopFailure::DecompressionFailed),
                            Some(out) => if out.len() != usize_ {
                                BlockStep::Fail(LzopFailure::UnexpectedSize)
                            } else if has_u && be32(s, p + 8) != checksum_of(flags & FLAG_CRC32_UNCOMPRESSED != 0, out) {
                                BlockStep::Fail(LzopFailure::CorruptedBlock)
                            } else {
                                BlockStep::Data { bytes: out, next: d + csize, flags }
                            },
                        }
                    }
                }
            }
        }
    }
}

/// The bytes decoded from the block at `p` on, and the failure that stopped
/// decoding, if any.
pub open spec fn decode_from(s: Seq<u8>, p: int, flags: u32) -> (Seq<u8>, Option<LzopFailure>)
    decreases s.len() - p,
{
    match block_spec(s, p, flags) {
        BlockStep::End => (Seq::empty(), None),
        BlockStep::Fail(e) => (Seq::empty(), Some(e)),
        BlockStep::Data { bytes, next, flags: f } => if p < next <= s.len() {
            let (rest, e) = decode_from(s, next, f);
            (bytes + rest, e)
        } else {
            (bytes, None)
        },
    }
}

/// The decoded content of a whole lzop stream, or the failure that stopped
/// decoding (with the bytes decoded before it).
pub open spec fn lzop_decode(s: Seq<u8>) -> (Seq<u8>, Option<LzopFailure>) {
    match stream_start(s) {
        Err(e) => (Seq::empty(), Some(e)),
        Ok((flags, p)) => decode_from(s, p, flags),
    }
}

/// A stored block round-trips: when the header asks for an uncompressed
/// checksum and the block at `p` stores its `n` bytes as they are (equal
/// sizes), with the CRC-32 of those bytes when the CRC-32 flag is set and
/// their Adler-32 otherwise, the block decodes to exactly those bytes and
/// the next block starts right after them.
pub proof fn lemma_stored_block_round_trips(s: Seq<u8>, p: int, flags: u32)
    requires
        0 <= p,
        p + 12 <= s.len(),
        flags & (FLAG_CRC32_UNCOMPRESSED | FLAG_ADLER32_UNCOMPRESSED) != 0,
        0 < be32(s, p) <= MAX_BLOCK_SIZE,
        be32(s, p + 4) == be32(s, p),
        p + 12 + be32(s, p) <= s.len(),
        be32(s, p + 8) == (if flags & FLAG_CRC32_UNCOMPRESSED != 0 {
            crc32_ieee(s.subrange(p + 12, p + 12 + be32(s, p)))
        } else {
            adler32_of(s.subrange(p + 12, p + 12 + be32(s, p)))
        }),
    ensures
        block_spec(s, p, flags) == (BlockStep::Data {
            bytes: s.subrange(p + 12, p + 12 + be32(s, p)),
            next: p + 12 + be32(s, p),
            flags,
        }),
{
    let n = be32(s, p);
    let data = s.subrange(p + 12, p + 12 + n);
    assert(data.len() == n);
    if flags & FLAG_CRC32_UNCOMPRESSED != 0 {
        assert(checksum_of(flags & FLAG_CRC32_UNCOMPRESSED != 0, data) == crc32_ieee(data));
    } else {
        assert(checksum_of(flags & FLAG_CRC32_UNCOMPRESSED != 0, data) == adler32_of(data));
    }
}

/// Decoding round-trips a stream of one stored block: a stream whose header
/// asks for an uncompressed checksum (the lzop default asks for Adler-32),
/// holding one stored block with the right checksum and then the zero end
/// marker, decodes to the block's bytes without failure.
pub proof fn lemma_single_stored_block_stream_decodes(s: Seq<u8>, flags: u32, p: int)
    requires
        stream_start(s) == Ok::<(u32, int), LzopFailure>((flags, p)),
        0 <= p,
        p + 12 <= s.len(),
        flags & (FLAG_CRC32_UNCOMPRESSED | FLAG_ADLER32_UNCOMPRESSED) != 0,
        0 < be32(s, p) <= MAX_BLOCK_SIZE,
        be32(s, p + 4) == be32(s, p),
        s.len() == p + 12 + be32(s, p) + 4,
        be32(s, p + 12 + be32(s, p)) == 0,
        be32(s, p + 8) == (if flags & FLAG_CRC32_UNCOMPRESSED != 0 {
            crc32_ieee(s.subrange(p + 12, p + 12 + be32(s, p)))
        } else {
            adler32_of(s.subrange(p + 12, p + 12 + be32(s, p)))
        }),
    ensures
        lzop_decode(s) == (s.subrange(p + 12, p + 12 + be32(s, p)), None::<LzopFailure>),
{
    lemma_stored_block_round_trips(s, p, flags);
    let next = p + 12 + be32(s, p);
    assert(block_spec(s, next, flags) is End);
    assert(decode_from(s, next, flags) == (Seq::<u8>::empty(), None::<LzopFailure>));
    let data = s.subrange(p + 12, next);
    assert(data + Seq::<u8>::empty() =~= data);
}

} // verus!

verus! {

fn be16_at(s: &[u8], i: usize) -> (r: u32)
    requires
        i + 2 <= s@.len(),
    ensures
        r == be16(s@, i as int),
{
    (s[i] as u32) * 256 + (s[i + 1] as u32)
}

fn be32_at(s: &[u8], i: usize) -> (r: u32)
    requires
        i + 4 <= s@.len(),
    ensures
        r == be32(s@, i as int),
{
    let v: u64 = (s[i] as u64) * 16777216 + (s[i + 1] as u64) * 65536 + (s[i + 2] as u64) * 256 + (s[i + 3] as u64);
    v as u32
}

fn checksum(use_crc: bool, data: &[u8]) -> (r: u32)
    ensures
        r == checksum_of(use_crc, data@),
{
    if use_crc {
        crc32(data)
    } else {
        adler32(data)
    }
}

fn is_magic(w: &[u8]) -> (r: bool)
    requires
        w@.len() == 9,
    ensures
        r == (w@ == magic_spec()),
{
    let m = LZOP_HEADER_MAGIC;
    let mut i: usize = 0;
    while i < 9
        invariant
            i <= 9,
            w@.len() == 9,
            m@ == magic_spec(),
            forall|j: int| 0 <= j < i ==> w@[j] == magic_spec()[j],
        decreases 9 - i,
    {
        if w[i] != m[i] {
            return false;
        }
        i += 1;
    }
    assert(w@ =~= magic_spec());
    true
}

/// Parses the header that follows a magic at `p`.
fn parse_header(s: &[u8], p: usize) -> (r: Result<(u32, usize), LzopFailure>)
    requires
        p <= s@.len(),
    ensures
        match r {
            Ok((flags, q)) => header_spec(s@, p as int) == Ok::<(u32, int), LzopFailure>((flags, q as int)) && p < q <= s@.len(),
            Err(e) => header_spec(s@, p as int) == Err::<(u32, int), LzopFailure>(e),
        },
{
    let len = s.len();
    if len - p < 4 {
        return Err(LzopFailure::Truncated);
    }
    let new_fmt = be16_at(s, p) >= 0x0940;
    if new_fmt && len - p < 6 {
        return Err(LzopFailure::Truncated);
    }
    if new_fmt && be16_at(s, p + 4) < 0x0900 {
        return Err(LzopFailure::UnsupportedVersion);
    }
    let m = if new_fmt {
        p + 6
    } else {
        p + 4
    };
    if len - m < 1 {
        return Err(LzopFailure::Truncated);
    }
    if !(1 <= s[m] && s[m] <= 3) {
        return Err(LzopFailure::UnsupportedMethod);
    }
    if new_fmt && len - m < 2 {
        return Err(LzopFailure::Truncated);
    }
    if new_fmt && s[m + 1] > 9 {
        return Err(LzopFailure::InvalidLevel);
    }
    let f = if new_fmt {
        m + 2
    } else {
        m + 1
    };
    if len - f < 4 {
        return Err(LzopFailure::Truncated);
    }
    let flags = be32_at(s, f);
    let mode = if flags & FLAG_FILTER != 0 {
        f as u128 + 8
    } else {
        f as u128 + 4
    };
    let name_len: u128 = mode + 4 + if new_fmt {
        8
    } else {
        4
    };
    if name_len + 1 > len as u128 {
        return Err(LzopFailure::Truncated);
    }
    let nl = name_len as usize;
    let cks: u128 = name_len + 1 + s[nl] as u128;
    if cks + 4 > len as u128 {
        return Err(LzopFailure::Truncated);
    }
    let c = cks as usize;
    let header = &s[p..c];
    let computed = checksum(flags & FLAG_CRC32_HEADER != 0, header);
    if be32_at(s, c) != computed {
        return Err(LzopFailure::CorruptedHeader);
    }
    let after = c + 4;
    if flags & FLAG_EXTRA_FIELD != 0 {
        if len - after < 4 {
            return Err(LzopFailure::Truncated);
        }
        let extra = be32_at(s, after) as u128;
        if after as u128 + 4 + extra > len as u128 {
            return Err(LzopFailure::Truncated);
        }
        Ok((flags, (after as u128 + 4 + extra) as usize))
    } else {
        Ok((flags, after))
    }
}

/// Where the first header of a stream ends: its flags and position.
fn parse_stream_start(s: &[u8]) -> (r: Result<(u32, usize), LzopFailure>)
    ensures
        match r {
            Ok((flags, q)) => stream_start(s@) == Ok::<(u32, int), LzopFailure>((flags, q as int)) && q <= s@.len(),
            Err(e) => stream_start(s@) == Err::<(u32, int), LzopFailure>(e),
        },
{
    if s.len() < 9 {
        return Err(LzopFailure::Truncated);
    }
    if !is_magic(&s[0..9]) {
        return Err(LzopFailure::NotLzop);
    }
    parse_header(s, 9)
}

/// One decoded block step, with the decompressor's message on failure.
enum BlockOutcome {
    End,
    Data { bytes: Vec<u8>, next: usize, flags: u32 },
    Fail(LzopFailure, String),
}

fn copy_bytes(s: &[u8], start: usize, end: usize) -> (r: Vec<u8>)
    requires
        start <= end <= s@.len(),
    ensures
        r@ == s@.subrange(start as int, end as int),
{
    let mut out: Vec<u8> = Vec::new();
    let mut i = start;
    while i < end
        invariant
            start <= i <= end,
            end <= s@.len(),
            out@ == s@.subrange(start as int, i as int),
        decreases end - i,
    {
        out.push(s[i]);
        i += 1;
        assert(out@ =~= s@.subrange(start as int, i as int));
    }
    out
}

/// Decodes the block at `p`.
fn next_block(s: &[u8], p: usize, flags: u32) -> (r: BlockOutcome)
    requires
        p <= s@.len(),
    ensures
        match r {
            BlockOutcome::End => block_spec(s@, p as int, flags) is End,
            BlockOutcome::Data { bytes, next, flags: f } => block_spec(s@, p as int, flags) == (BlockStep::Data {
                bytes: bytes@,
                next: next as int,
                flags: f,
            }) && p < next <= s@.len() && bytes@.len() > 0,
            BlockOutcome::Fail(e, m) => block_spec(s@, p as int, flags) == BlockStep::Fail(e) && (e
                != LzopFailure::DecompressionFailed ==> m@.len() == 0),
        },
    decreases s@.len() - p,
{
    let len = s.len();
    if len - p < 4 {
        return BlockOutcome::Fail(LzopFailure::Truncated, String::new());
    }
    let usize_ = be32_at(s, p);
    if usize_ == 0 {
        let q = p + 4;
        if len - q >= 9 && is_magic(&s[q..q + 9]) {
            return match parse_header(s, q + 9) {
                Err(e) => BlockOutcome::Fail(e, String::new()),
                Ok((f2, p2)) => next_block(s, p2, f2),
            };
        }
        return BlockOutcome::End;
    }
    if usize_ as u64 > MAX_BLOCK_SIZE as u64 {
        return BlockOutcome::Fail(LzopFailure::BlockTooLarge, String::new());
    }
    if len - p < 8 {
        return BlockOutcome::Fail(LzopFailure::Truncated, String::new());
    }
    let csize = be32_at(s, p + 4);
    if csize > usize_ {
        return BlockOutcome::Fail(LzopFailure::CorruptedBlock, String::new());
    }
    let has_u = flags & (FLAG_CRC32_UNCOMPRESSED | FLAG_ADLER32_UNCOMPRESSED) != 0;
    let has_c = flags & (FLAG_CRC32_COMPRESSED | FLAG_ADLER32_COMPRESSED) != 0 && csize < usize_;
    let c_at: u128 = if has_u {
        p as u128 + 12
    } else {
        p as u128 + 8
    };
    let d: u128 = c_at + if has_c {
        4
    } else {
        0
    };
    if d + csize as u128 > len as u128 {
        return BlockOutcome::Fail(LzopFailure::Truncated, String::new());
    }
    let d = d as usize;
    let c_at = c_at as usize;
    let end = d + csize as usize;
    let data = &s[d..end];
    if has_c && be32_at(s, c_at) != checksum(flags & FLAG_CRC32_COMPRESSED != 0, data) {
        return BlockOutcome::Fail(LzopFailure::CorruptedBlock, String::new());
    }
    let decoded = if csize == usize_ {
        copy_bytes(s, d, end)
    } else {
        match lzo_decompress(data, usize_ as usize) {
            Ok(out) => out,
            Err(message) => {
                return BlockOutcome::Fail(LzopFailure::DecompressionFailed, message);
            },
        }
    };
    if decoded.len() != usize_ as usize {
        return BlockOutcome::Fail(LzopFailure::UnexpectedSize, String::new());
    }
    if has_u && be32_at(s, p + 8) != checksum(flags & FLAG_CRC32_UNCOMPRESSED != 0, decoded.as_slice()) {
        return BlockOutcome::Fail(LzopFailure::CorruptedBlock, String::new());
    }
    BlockOutcome::Data { bytes: decoded, next: end, flags }
}

fn failure_text(f: LzopFailure) -> (r: &'static str)
    ensures
        r@ == failure_message(f),
{
    match f {
        LzopFailure::NotLzop => "not an lzop stream",
        LzopFailure::Truncated => "truncated lzop stream",
        LzopFailure::UnsupportedVersion => "lzop stream requires an unsupported version",
        LzopFailure::UnsupportedMethod => "lzop stream uses an unsupported compression method",
        LzopFailure::InvalidLevel => "lzop stream uses an invalid compression level",
        LzopFailure::CorruptedHeader => "corrupted lzop header",
        LzopFailure::BlockTooLarge => "lzop block exceeds the 64 MiB limit",
        LzopFailure::CorruptedBlock => "corrupted lzop block",
        LzopFailure::DecompressionFailed => "lzop block decompression failed: ",
        LzopFailure::UnexpectedSize => "lzop block decompressed to an unexpected size",
    }
}

fn lzop_error(f: LzopFailure, detail: &str) -> (r: LzopError)
    ensures
        r.failure == f,
        r.message@ == failure_message(f) + detail@,
{
    let a = chars_of(failure_text(f));
    let b = chars_of(detail);
    let c = concat_chars(&a, &b);
    LzopError { failure: f, message: string_from_chars(&c) }
}

/// The error reported for failure `f`: its message, followed for a
/// decompression failure by the decompressor's own text.
pub open spec fn error_for(e: LzopError, f: LzopFailure) -> bool {
    &&& e.failure == f
    &&& failure_message(f).len() <= e.message@.len()
    &&& e.message@.subrange(0, failure_message(f).len() as int) == failure_message(f)
    &&& f != LzopFailure::DecompressionFailed ==> e.message@ == failure_message(f)
}

proof fn lemma_error_for(f: LzopFailure, detail: Seq<char>, e: LzopError)
    requires
        e.failure == f,
        e.message@ == failure_message(f) + detail,
        f != LzopFailure::DecompressionFailed ==> detail.len() == 0,
    ensures
        error_for(e, f),
{
    assert(e.message@.subrange(0, failure_message(f).len() as int) =~= failure_message(f));
    if f != LzopFailure::DecompressionFailed {
        assert(e.message@ =~= failure_message(f));
    }
}

/// Abstract value of an [`LzopReader`]: the input, where the next block
/// starts and under which flags, the decoded bytes not yet handed out, and
/// whether the stream has ended.
pub struct ReaderView {
    pub input: Seq<u8>,
    pub pos: int,
    pub flags: u32,
    pub pending: Seq<u8>,
    pub finished: bool,
}

/// Everything a reader still yields, and the failure that will stop it.
pub open spec fn remaining_output(v: ReaderView) -> (Seq<u8>, Option<LzopFailure>) {
    if v.finished {
        (v.pending, None)
    } else {
        let (d, e) = decode_from(v.input, v.pos, v.flags);
        (v.pending + d, e)
    }
}

/// Streaming decoder for an lzop-compressed byte stream.
#[derive(Debug)]
pub struct LzopReader {
    input: Vec<u8>,
    pos: usize,
    flags: u32,
    out: Vec<u8>,
    out_pos: usize,
    finished: bool,
}

impl View for LzopReader {
    type V = ReaderView;

    closed spec fn view(&self) -> ReaderView {
        ReaderView {
            input: self.input@,
            pos: self.pos as int,
            flags: self.flags,
            pending: self.out@.subrange(self.out_pos as int, self.out@.len() as int),
            finished: self.finished,
        }
    }
}

impl LzopReader {
    pub closed spec fn wf(&self) -> bool {
        &&& self.pos <= self.input@.len()
        &&& self.out_pos <= self.out@.len()
    }

    /// Reads and validates the lzop magic and header, or fails when the
    /// stream does not begin with one.
    pub fn new(input: Vec<u8>) -> (r: Result<LzopReader, LzopError>)
        ensures
            match stream_start(input@) {
                Ok((flags, p)) => r matches Ok(reader) && reader.wf() && reader@ == (ReaderView {
                    input: input@,
                    pos: p,
                    flags,
                    pending: Seq::empty(),
                    finished: false,
                }),
                Err(f) => r matches Err(e) && error_for(e, f),
            },
    {
        match parse_stream_start(input.as_slice()) {
            Ok((flags, p)) => {
                let reader = LzopReader { input, pos: p, flags, out: Vec::new(), out_pos: 0, finished: false };
                assert(reader@.pending =~= Seq::<u8>::empty());
                Ok(reader)
            },
            Err(f) => {
                let e = lzop_error(f, "");
                proof {
                    reveal_strlit("");
                    lemma_error_for(f, ""@, e);
                }
                Err(e)
            },
        }
    }

    /// Hands out up to `max` further decoded bytes: first those left from
    /// the current block, then the next block's. An empty result means the
    /// stream has ended (or `max` is zero).
    pub fn read(&mut self, max: usize) -> (r: Result<Vec<u8>, LzopError>)
        requires
            old(self).wf(),
        ensures
            final(self).wf(),
            final(self)@.input == old(self)@.input,
            match r {
                Ok(chunk) => {
                    let (before, e) = remaining_output(old(self)@);
                    let (after, e2) = remaining_output(final(self)@);
                    &&& chunk@.len() <= max
                    &&& before == chunk@ + after
                    &&& e2 == e
                    &&& (chunk@.len() == 0 && max > 0) ==> before.len() == 0
                },
                Err(err) => {
                    let (before, e) = remaining_output(old(self)@);
                    &&& before.len() == 0
                    &&& e matches Some(f) && error_for(err, f)
                },
            },
    {
        let ghost old_view = self@;
        if self.out_pos < self.out.len() {
            return Ok(self.take_pending(max));
        }
        proof {
            assert(self@.pending =~= Seq::<u8>::empty());
        }
        if self.finished {
            let empty: Vec<u8> = Vec::new();
            assert(remaining_output(self@).0 =~= Seq::<u8>::empty());
            return Ok(empty);
        }
        match next_block(self.input.as_slice(), self.pos, self.flags) {
            BlockOutcome::End => {
                self.finished = true;
                let empty: Vec<u8> = Vec::new();
                assert(self@.pending =~= Seq::<u8>::empty());
                assert(remaining_output(old_view).0 =~= Seq::<u8>::empty());
                Ok(empty)
            },
            BlockOutcome::Fail(f, message) => {
                let e = lzop_error(f, message.as_str());
                proof {
                    lemma_error_for(f, message@, e);
                    assert(remaining_output(old_view).0 =~= Seq::<u8>::empty());
                }
                Err(e)
            },
            BlockOutcome::Data { bytes, next, flags } => {
                self.out = bytes;
                self.out_pos = 0;
                self.pos = next;
                self.flags = flags;
                proof {
                    assert(self@.pending =~= self.out@);
                    assert(remaining_output(old_view).0 =~= self.out@ + remaining_output(self@).0.subrange(
                        self.out@.len() as int,
                        remaining_output(self@).0.len() as int,
                    ));
                }
                Ok(self.take_pending(max))
            },
        }
    }

    fn take_pending(&mut self, max: usize) -> (r: Vec<u8>)
        requires
            old(self).wf(),
        ensures
            final(self).wf(),
            final(self)@.input == old(self)@.input,
            final(self)@.pos == old(self)@.pos,
            final(self)@.flags == old(self)@.flags,
            final(self)@.finished == old(self)@.finished,
            r@.len() <= max,
            old(self)@.pending == r@ + final(self)@.pending,
            (r@.len() == 0 && max > 0) ==> old(self)@.pending.len() == 0,
    {
        let ghost before = self@.pending;
        let available = self.out.len() - self.out_pos;
        let take = if available < max {
            available
        } else {
            max
        };
        let start = self.out_pos;
        let chunk = copy_bytes(self.out.as_slice(), start, start + take);
        self.out_pos = start + take;
        assert(before =~= chunk@ + self@.pending);
        chunk
    }
}

/// Decodes a whole lzop stream.
pub fn decode_lzop(input: &[u8]) -> (r: Result<Vec<u8>, LzopError>)
    ensures
        match lzop_decode(input@) {
            (bytes, None) => r matches Ok(d) && d@ == bytes,
            (_, Some(f)) => r matches Err(e) && error_for(e, f),
        },
{
    let (flags0, p0) = match parse_stream_start(input) {
        Ok(start) => start,
        Err(f) => {
            let e = lzop_error(f, "");
            proof {
                reveal_strlit("");
                lemma_error_for(f, ""@, e);
            }
            return Err(e);
        },
    };
    let mut out: Vec<u8> = Vec::new();
    let mut pos = p0;
    let mut flags = flags0;
    loop
        invariant
            pos <= input@.len(),
            stream_start(input@) == Ok::<(u32, int), LzopFailure>((flags0, p0 as int)),
            ({
                let (all, e) = decode_from(input@, p0 as int, flags0);
                let (rest, e2) = decode_from(input@, pos as int, flags);
                all == out@ + rest && e == e2
            }),
        decreases input@.len() - pos,
    {
        match next_block(input, pos, flags) {
            BlockOutcome::End => {
                assert(out@ + Seq::<u8>::empty() =~= out@);
                return Ok(out);
            },
            BlockOutcome::Fail(f, message) => {
                let e = lzop_error(f, message.as_str());
                proof {
                    lemma_error_for(f, message@, e);
                }
                return Err(e);
            },
            BlockOutcome::Data { bytes, next, flags: f } => {
                let ghost old_out = out@;
                let ghost rest_after = decode_from(input@, next as int, f).0;
                let mut i: usize = 0;
                while i < bytes.len()
                    invariant
                        i <= bytes@.len(),
                        out@ == old_out + bytes@.subrange(0, i as int),
                    decreases bytes@.len() - i,
                {
                    out.push(bytes[i]);
                    i += 1;
                    assert(out@ =~= old_out + bytes@.subrange(0, i as int));
                }
                assert(bytes@.subrange(0, bytes@.len() as int) =~= bytes@);
                assert(old_out + (bytes@ + rest_after) =~= out@ + rest_after);
                pos = next;
                flags = f;
            },
        }
    }
}

} // verus!
