//! CRC-32 (IEEE) and Adler-32 checksums, computed by the `crc32fast` and
//! `adler2` crates.
use vstd::prelude::*;

verus! {

/// One bit step of the reflected CRC-32 register: shift right, and fold in
/// the polynomial `0xEDB88320` when the dropped bit was set.
pub open spec fn crc32_bit(c: u32) -> u32 {
    if c % 2 == 1 {
        ((c / 2) as u32 ^ 0xEDB8_8320u32) as u32
    } else {
        (c / 2) as u32
    }
}

/// The register after `n` bit steps.
pub open spec fn crc32_bits(c: u32, n: nat) -> u32
    decreases n,
{
    if n == 0 {
        c
    } else {
        crc32_bit(crc32_bits(c, (n - 1) as nat))
    }
}

/// The register after feeding `data` into register `c`, one byte at a
/// time: the byte is xored into the low bits, then eight bit steps.
pub open spec fn crc32_register(c: u32, data: Seq<u8>) -> u32
    decreases data.len(),
{
    if data.len() == 0 {
        c
    } else {
        crc32_bits((crc32_register(c, data.drop_last()) ^ (data.last() as u32)) as u32, 8)
    }
}

/// The CRC-32 (IEEE 802.3, reflected, as in zlib and PNG) of `data`: the
/// register starts all ones and is complemented at the end.
pub open spec fn crc32_ieee(data: Seq<u8>) -> u32 {
    (crc32_register(0xFFFF_FFFFu32, data) ^ 0xFFFF_FFFFu32) as u32
}

/// The two Adler-32 sums of `data`: one plus the sum of the bytes, and the
/// sum of the first sum after each byte, both modulo 65521.
pub open spec fn adler32_sums(data: Seq<u8>) -> (int, int)
    decreases data.len(),
{
    if data.len() == 0 {
        (1, 0)
    } else {
        let (a, b) = adler32_sums(data.drop_last());
        let a2 = (a + data.last()) % 65521;
        (a2, (b + a2) % 65521)
    }
}

/// The Adler-32 checksum of `data`: the second sum in the high half, the
/// first in the low half.
pub open spec fn adler32_of(data: Seq<u8>) -> u32 {
    (adler32_sums(data).1 * 65536 + adler32_sums(data).0) as u32
}

/// Calls `crc32fast::Hasher::new`, `update` and `finalize`; the contract
/// says that the result is the CRC-32 of `data` as defined above.
#[verifier::external_body]
pub(crate) fn crc32(data: &[u8]) -> (r: u32)
    ensures
        r == crc32_ieee(data@),
{
    let mut hasher = crc32fast::Hasher::new();
    hasher.update(data);
    hasher.finalize()
}

/// Calls `adler2::adler32_slice`; the contract says that the result is the
/// Adler-32 checksum of `data` as defined above.
#[verifier::external_body]
pub(crate) fn adler32(data: &[u8]) -> (r: u32)
    ensures
        r == adler32_of(data@),
{
    adler2::adler32_slice(data)
}

} // verus!
