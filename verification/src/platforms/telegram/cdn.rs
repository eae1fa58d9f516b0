//! Downloading a file through a content delivery network: encrypted chunks that may
//! have to be uploaded again first.

use cipher::{KeyIvInit, StreamCipher};
use vstd::prelude::*;

use crate::text::{decimal, decimal_text, joined};

verus! {

/// How many bytes are asked for at a time.
pub const PART_SIZE: i32 = 524_288;

/// How long one request may take.
pub const CHUNK_TIMEOUT_SECS: u64 = 15;

/// How many times one chunk is uploaded again.
pub const REUPLOAD_RETRY_LIMIT: u32 = 3;

/// How many chunks are asked for where the size of the file is not known.
pub const MAX_UNSIZED_CHUNKS: u64 = 4096;

/// How many chunks beyond its size are asked for of a file.
pub const SPARE_CHUNKS: u64 = 4;

// ------------------------------------------------------------ decryption

/// What AES-256 in counter mode, with a counter of 64 bits in big-endian order at the
/// end of the initial block, makes of some bytes.
pub uninterp spec fn aes256_ctr64(key: Seq<u8>, iv: Seq<u8>, data: Seq<u8>) -> Seq<u8>;

/// `apply_keystream` of `ctr::Ctr64BE<aes::Aes256>`: the result depends on the key, the
/// initial block and the bytes alone, has as many bytes, and gives the bytes back when
/// it goes through once more, for the keystream is added to them without carry.
#[verifier::external_body]
fn apply_aes256_ctr64(key: &Vec<u8>, iv: &Vec<u8>, data: Vec<u8>) -> (r: Vec<u8>)
    requires
        key@.len() == 32,
        iv@.len() == 16,
    ensures
        r@ == aes256_ctr64(key@, iv@, data@),
        r@.len() == data@.len(),
        aes256_ctr64(key@, iv@, r@) == data@,
{
    let mut cipher = ctr::Ctr64BE::<aes::Aes256>::new(key.as_slice().into(), iv.as_slice().into());
    let mut buf = data;
    cipher.apply_keystream(buf.as_mut_slice());
    buf
}

/// The number that bytes stand for, the highest first.
pub open spec fn be_value(s: Seq<u8>) -> int
    decreases s.len(),
{
    if s.len() == 0 {
        0
    } else {
        256 * be_value(s.drop_last()) + s.last()
    }
}

/// The lowest `count` bytes of a number, the highest first.
pub open spec fn be_bytes(n: int, count: nat) -> Seq<u8>
    decreases count,
{
    if count == 0 {
        Seq::empty()
    } else {
        be_bytes(n / 256, (count - 1) as nat).push((n % 256) as u8)
    }
}

/// The initial block for the chunk that begins `blocks` blocks into the file: the sum
/// of the two numbers, in 128 bits.
pub open spec fn counter_block(iv: Seq<u8>, blocks: int) -> Seq<u8> {
    be_bytes(be_value(iv) + blocks, 16)
}

/// The initial block for a chunk.
pub fn advance_counter(base_iv: &Vec<u8>, blocks: u64) -> (r: Vec<u8>)
    requires
        base_iv@.len() == 16,
    ensures
        r@ == counter_block(base_iv@, blocks as int),
        r@.len() == 16,
{
    let ghost iv = base_iv@;
    let ghost whole = be_value(iv) + blocks;
    let mut out = base_iv.clone();
    let mut rest: u64 = blocks;
    let mut carry: u64 = 0;
    let mut i: usize = 16;
    proof {
        assert(iv.take(16) =~= iv);
        assert(out@.skip(16) =~= Seq::empty());
        assert(be_bytes(whole, 16) + out@.skip(16) =~= be_bytes(whole, 16));
    }
    while i > 0
        invariant
            i <= 16,
            base_iv@ == iv,
            iv.len() == 16,
            out@.len() == 16,
            out@.take(i as int) =~= iv.take(i as int),
            carry <= 1,
            be_bytes(whole, 16) == be_bytes(
                be_value(iv.take(i as int)) + rest + carry,
                i as nat,
            ) + out@.skip(i as int),
        decreases i,
    {
        let ghost before = out@;
        let ghost at = be_value(iv.take(i as int)) + rest + carry;
        i = i - 1;
        proof {
            assert(out@.take(i + 1)[i as int] == iv.take(i + 1)[i as int]);
            assert(iv.take(i + 1).drop_last() =~= iv.take(i as int));
        }
        let total: u64 = out[i] as u64 + rest % 256 + carry;
        let byte: u8 = (total % 256) as u8;
        out.set(i, byte);
        carry = total / 256;
        rest = rest / 256;
        proof {
            assert(at % 256 == byte);
            assert(at / 256 == be_value(iv.take(i as int)) + rest + carry);
            assert(out@.take(i as int) =~= iv.take(i as int));
            let high = be_bytes(at / 256, i as nat);
            assert(high.push(byte) + before.skip(i + 1) =~= high + out@.skip(i as int));
        }
    }
    proof {
        assert(out@.skip(0) =~= out@);
        assert(be_bytes(be_value(iv.take(0)) + rest + carry, 0) + out@ =~= out@);
    }
    out
}

proof fn lemma_be_bytes(n: int, count: nat)
    requires
        0 <= n,
    ensures
        be_bytes(n, count).len() == count,
        be_value(be_bytes(n, count)) == n % vstd::arithmetic::power::pow(256, count),
    decreases count,
{
    broadcast use vstd::arithmetic::power::lemma_pow_positive;

    reveal(vstd::arithmetic::power::pow);
    if count > 0 {
        let rest = (count - 1) as nat;
        let p = vstd::arithmetic::power::pow(256, rest);
        lemma_be_bytes(n / 256, rest);
        assert(be_bytes(n, count).drop_last() =~= be_bytes(n / 256, rest));
        assert(n % (256 * p) == 256 * ((n / 256) % p) + n % 256) by {
            vstd::arithmetic::div_mod::lemma_breakdown(n, 256, p);
        }
    }
}

/// The counter of a chunk is the sum of the two numbers modulo 2 to the power of 128.
pub proof fn lemma_counter_is_a_sum(iv: Seq<u8>, blocks: int)
    requires
        0 <= be_value(iv) + blocks,
    ensures
        counter_block(iv, blocks).len() == 16,
        be_value(counter_block(iv, blocks)) == (be_value(iv) + blocks)
            % 0x1_0000_0000_0000_0000_0000_0000_0000_0000int,
{
    lemma_be_bytes(be_value(iv) + blocks, 16);
    assert(vstd::arithmetic::power::pow(256, 16)
        == 0x1_0000_0000_0000_0000_0000_0000_0000_0000int) by {
        reveal_with_fuel(vstd::arithmetic::power::pow, 17);
    }
}

/// What a chunk says once decrypted, given what the cipher makes of it.
pub open spec fn decrypted(key: Seq<u8>, base_iv: Seq<u8>, offset: u64, data: Seq<u8>) -> Seq<u8> {
    aes256_ctr64(key, counter_block(base_iv, offset as int / 16), data)
}

/// Decrypts the chunk that begins at `offset`, which must be a whole number of blocks.
pub fn decrypt_cdn_chunk(ciphertext: Vec<u8>, key: &Vec<u8>, base_iv: &Vec<u8>, offset: u64) -> (r:
    Result<Vec<u8>, String>)
    requires
        key@.len() == 32,
        base_iv@.len() == 16,
    ensures
        match r {
            Ok(plain) => {
                &&& offset % 16 == 0
                &&& plain@ == decrypted(key@, base_iv@, offset, ciphertext@)
                &&& plain@.len() == ciphertext@.len()
                &&& decrypted(key@, base_iv@, offset, plain@) == ciphertext@
            },
            Err(e) => offset % 16 != 0 && e@ == "CDN chunk offset must be 16-byte aligned, got "@
                + decimal(offset as nat),
        },
{
    if offset % 16 != 0 {
        let number = decimal_text(offset);
        return Err(
            joined("CDN chunk offset must be 16-byte aligned, got ", number.as_str()),
        );
    }
    let iv = advance_counter(base_iv, offset / 16);
    Ok(apply_aes256_ctr64(key, &iv, ciphertext))
}

// ------------------------------------------------------------ the download

/// A download through the network.
pub struct CdnDownload {
    pub key: Vec<u8>,
    pub iv: Vec<u8>,
    pub expected_total: u64,
    /// What was decrypted so far.
    pub data: Vec<u8>,
    pub chunks: u64,
    pub max_chunks: u64,
    /// How many times the chunk at hand was uploaded again.
    pub reuploads: u32,
}

/// How many chunks are asked for at most.
pub open spec fn chunk_limit(expected_total: u64) -> int {
    if expected_total > 0 {
        (expected_total + PART_SIZE - 1) / (PART_SIZE as int) + SPARE_CHUNKS
    } else {
        MAX_UNSIZED_CHUNKS as int
    }
}

impl CdnDownload {
    pub open spec fn well_formed(self) -> bool {
        &&& self.key@.len() == 32
        &&& self.iv@.len() == 16
        &&& self.max_chunks == chunk_limit(self.expected_total)
        &&& self.chunks <= self.max_chunks
        &&& self.reuploads <= REUPLOAD_RETRY_LIMIT
    }
}

/// Begins a download. Key and initial block have fixed sizes.
pub fn download_via_cdn(key: Vec<u8>, iv: Vec<u8>, expected_total: u64) -> (r: Result<
    CdnDownload,
    String,
>)
    requires
        key@.len() == 32 && iv@.len() == 16 ==> expected_total <= u64::MAX - PART_SIZE,
    ensures
        match r {
            Ok(d) => {
                &&& key@.len() == 32
                &&& iv@.len() == 16
                &&& d.well_formed()
                &&& d.key == key
                &&& d.iv == iv
                &&& d.expected_total == expected_total
                &&& d.data@.len() == 0
                &&& d.chunks == 0
                &&& d.reuploads == 0
            },
            Err(e) => if key@.len() != 32 {
                e@ == "CDN encryption_key has wrong size: "@ + decimal(key@.len())
            } else {
                iv@.len() != 16 && e@ == "CDN encryption_iv has wrong size: "@ + decimal(iv@.len())
            },
        },
{
    if key.len() != 32 {
        let number = decimal_text(key.len() as u64);
        return Err(joined("CDN encryption_key has wrong size: ", number.as_str()));
    }
    if iv.len() != 16 {
        let number = decimal_text(iv.len() as u64);
        return Err(joined("CDN encryption_iv has wrong size: ", number.as_str()));
    }
    let part: u64 = PART_SIZE as u64;
    let max_chunks: u64 = if expected_total > 0 {
        (expected_total + part - 1) / part + SPARE_CHUNKS
    } else {
        MAX_UNSIZED_CHUNKS
    };
    Ok(
        CdnDownload {
            key,
            iv,
            expected_total,
            data: Vec::new(),
            chunks: 0,
            max_chunks,
            reuploads: 0,
        },
    )
}

/// What a chunk leads to.
pub enum CdnStep {
    /// Ask for the next chunk.
    More,
    /// The file is complete.
    Done,
    Fail(String),
}

/// What follows the request to upload a chunk again.
pub enum ReuploadStep {
    /// Have the chunk uploaded again, then ask for it once more.
    Reupload,
    Fail(String),
}

impl CdnDownload {
    /// Where the next chunk begins, unless the file is complete or enough chunks were
    /// asked for.
    pub fn next_offset(&self) -> (r: Option<u64>)
        ensures
            r == (if self.chunks >= self.max_chunks || (self.expected_total > 0 && self.data@.len()
                >= self.expected_total) {
                None
            } else {
                Some(self.data@.len() as u64)
            }),
    {
        let at: u64 = self.data.len() as u64;
        if self.chunks >= self.max_chunks || (self.expected_total > 0 && at >= self.expected_total) {
            None
        } else {
            Some(at)
        }
    }

    /// The chunk has to be uploaded again before it can be had.
    pub fn needs_reupload(&mut self) -> (r: ReuploadStep)
        requires
            old(self).well_formed(),
        ensures
            final(self).well_formed(),
            *final(self) == (CdnDownload { reuploads: final(self).reuploads, ..*old(self) }),
            if old(self).reuploads >= REUPLOAD_RETRY_LIMIT {
                &&& r matches ReuploadStep::Fail(e) && e@
                    == "upload.GetCdnFile reupload retry limit exceeded"@
                &&& final(self).reuploads == old(self).reuploads
            } else {
                r is Reupload && final(self).reuploads == old(self).reuploads + 1
            },
            r is Reupload <==> old(self).reuploads < 3,
    {
        if self.reuploads >= REUPLOAD_RETRY_LIMIT {
            return ReuploadStep::Fail(
                "upload.GetCdnFile reupload retry limit exceeded".to_owned(),
            );
        }
        self.reuploads = self.reuploads + 1;
        ReuploadStep::Reupload
    }

    /// Decrypts a chunk that came and appends it. A short chunk is the last one.
    pub fn take_chunk(&mut self, bytes: Vec<u8>) -> (r: CdnStep)
        requires
            old(self).well_formed(),
            old(self).chunks < old(self).max_chunks,
            bytes@.len() <= i32::MAX,
        ensures
            final(self).well_formed(),
            final(self).key == old(self).key,
            final(self).iv == old(self).iv,
            final(self).expected_total == old(self).expected_total,
            ({
                let at = old(self).data@.len() as u64;
                if bytes@.len() == 0 {
                    r is Done && final(self).data@ == old(self).data@
                } else if at % 16 != 0 {
                    &&& r matches CdnStep::Fail(e) && e@
                        == "CDN chunk offset must be 16-byte aligned, got "@ + decimal(at as nat)
                    &&& final(self).data@ == old(self).data@
                } else {
                    &&& final(self).data@ == old(self).data@ + decrypted(
                        old(self).key@,
                        old(self).iv@,
                        at,
                        bytes@,
                    )
                    &&& final(self).data@.len() == old(self).data@.len() + bytes@.len()
                    &&& if bytes@.len() < PART_SIZE {
                        r is Done
                    } else {
                        r is More && final(self).chunks == old(self).chunks + 1
                            && final(self).reuploads == 0
                    }
                }
            }),
    {
        let len = bytes.len();
        if len == 0 {
            return CdnStep::Done;
        }
        let at: u64 = self.data.len() as u64;
        match decrypt_cdn_chunk(bytes, &self.key, &self.iv, at) {
            Err(e) => CdnStep::Fail(e),
            Ok(plain) => {
                let mut more = plain;
                self.data.append(&mut more);
                if len < PART_SIZE as usize {
                    return CdnStep::Done;
                }
                self.chunks = self.chunks + 1;
                self.reuploads = 0;
                CdnStep::More
            },
        }
    }
}

/// Whole chunks keep the download at a whole number of blocks, so that no chunk that
/// follows them is refused.
pub proof fn lemma_whole_chunks_stay_aligned(at: int)
    requires
        at % 16 == 0,
    ensures
        (at + PART_SIZE) % 16 == 0,
{
}

/// Bytes stand for a number with the highest first, and sixteen of them that are written for
/// a number read back as it.
pub proof fn lemma_bytes_read_back(s: Seq<u8>, b: u8, n: int)
    requires
        0 <= n < 0x1_0000_0000_0000_0000_0000_0000_0000_0000int,
    ensures
        be_value(s.push(b)) == 256 * be_value(s) + b,
        be_value(Seq::empty()) == 0,
        be_bytes(n, 16).len() == 16,
        be_value(be_bytes(n, 16)) == n,
{
    assert(s.push(b).drop_last() =~= s);
    lemma_be_bytes(n, 16);
    assert(vstd::arithmetic::power::pow(256, 16)
        == 0x1_0000_0000_0000_0000_0000_0000_0000_0000int) by {
        reveal_with_fuel(vstd::arithmetic::power::pow, 17);
    }
    assert(n % 0x1_0000_0000_0000_0000_0000_0000_0000_0000int == n) by {
        vstd::arithmetic::div_mod::lemma_small_mod(
            n as nat,
            0x1_0000_0000_0000_0000_0000_0000_0000_0000nat,
        );
    }
}

/// A chunk is decrypted with the key and with a counter that lies one further for every
/// sixteen bytes before it.
pub proof fn lemma_chunk_counter(key: Seq<u8>, iv: Seq<u8>, offset: u64, data: Seq<u8>)
    requires
        0 <= be_value(iv),
    ensures
        exists|block: Seq<u8>|
            {
                &&& block.len() == 16
                &&& be_value(block) == (be_value(iv) + offset as int / 16)
                    % 0x1_0000_0000_0000_0000_0000_0000_0000_0000int
                &&& decrypted(key, iv, offset, data) == #[trigger] aes256_ctr64(key, block, data)
            },
{
    lemma_counter_is_a_sum(iv, offset as int / 16);
    let block = counter_block(iv, offset as int / 16);
    assert(decrypted(key, iv, offset, data) == aes256_ctr64(key, block, data));
}

/// As many chunks are asked for as the file has, and four more; 4096 where its size is not
/// known.
pub proof fn lemma_chunks_suffice(expected_total: u64)
    ensures
        expected_total > 0 ==> {
            let whole = (chunk_limit(expected_total) - 4) * 524288;
            expected_total <= whole < expected_total + 524288
        },
        expected_total == 0 ==> chunk_limit(expected_total) == 4096,
{
}

} // verus!
