//! UF2 block-stream decoding.
//!
//! A UF2 image is a sequence of 512-byte records. Each record starts with two
//! magic words, carries eight little-endian 32-bit fields and a 476-byte data
//! area, and ends with a third magic word. A record is a valid block exactly
//! when all three magics match their sentinels; anything else in the stream is
//! skipped at a fixed 512-byte stride.

use vstd::prelude::*;

verus! {

pub const MAGIC_START0: u32 = 0x0A324655;
pub const MAGIC_START1: u32 = 0x9E5D5157;
pub const MAGIC_END: u32 = 0x0AB16F30;

/// Bit of `flags` that marks `file_size` as holding a device-family id.
pub const FAMILY_ID_PRESENT_FLAG: u32 = 0x00002000;

/// The 32-bit value stored little-endian in `b[off .. off + 4]`.
pub open spec fn le32_at(b: Seq<u8>, off: int) -> u32 {
    (b[off] + b[off + 1] * 0x100 + b[off + 2] * 0x1_0000 + b[off + 3] * 0x100_0000) as u32
}

/// A 512-byte window whose three magic words match their sentinels.
pub open spec fn spec_valid_frame(b: Seq<u8>) -> bool {
    &&& b.len() == 512
    &&& le32_at(b, 0) == MAGIC_START0
    &&& le32_at(b, 4) == MAGIC_START1
    &&& le32_at(b, 508) == MAGIC_END
}

/// The family id carried by a block, as a function of its raw fields: present
/// exactly when the family-id flag bit is set, and then equal to the raw
/// `file_size` field.
pub open spec fn spec_family_id(flags: u32, file_size: u32) -> Option<u32> {
    if flags & FAMILY_ID_PRESENT_FLAG != 0 {
        Some(file_size)
    } else {
        None
    }
}

/// One decoded 512-byte UF2 record.
///
/// `file_size` holds either an informational total file size or a device
/// family id; `family_id` tells the two apart. Only the first `payload_size`
/// bytes of `data` are meaningful.
#[derive(Debug, PartialEq, Eq)]
pub struct UF2Block {
    pub magic_start0: u32,
    pub magic_start1: u32,
    pub flags: u32,
    pub target_addr: u32,
    pub payload_size: u32,
    pub block_no: u32,
    pub num_blocks: u32,
    pub file_size: u32,
    pub data: Vec<u8>,
    pub magic_end: u32,
}

impl UF2Block {
    /// The data area always spans the 476 bytes between the fixed fields.
    pub open spec fn wf(self) -> bool {
        self.data@.len() == 476
    }

    /// All three magic words match their sentinels.
    pub open spec fn spec_valid(self) -> bool {
        &&& self.magic_start0 == MAGIC_START0
        &&& self.magic_start1 == MAGIC_START1
        &&& self.magic_end == MAGIC_END
    }

    /// The block's fields are the little-endian interpretation of `b`.
    pub open spec fn decodes(self, b: Seq<u8>) -> bool {
        &&& self.magic_start0 == le32_at(b, 0)
        &&& self.magic_start1 == le32_at(b, 4)
        &&& self.flags == le32_at(b, 8)
        &&& self.target_addr == le32_at(b, 12)
        &&& self.payload_size == le32_at(b, 16)
        &&& self.block_no == le32_at(b, 20)
        &&& self.num_blocks == le32_at(b, 24)
        &&& self.file_size == le32_at(b, 28)
        &&& self.data@ == b.subrange(32, 508)
        &&& self.magic_end == le32_at(b, 508)
    }

    /// Decode one 512-byte window, field by field, little-endian throughout.
    /// No validity check happens here: the caller inspects the magics.
    pub fn from_bytes(buf: &Vec<u8>) -> (r: UF2Block)
        requires
            buf@.len() == 512,
        ensures
            r.wf(),
            r.decodes(buf@),
    {
        let mut data: Vec<u8> = Vec::new();
        let mut i: usize = 32;
        while i < 508
            invariant
                32 <= i <= 508,
                buf@.len() == 512,
                data@ == buf@.subrange(32, i as int),
            decreases 508 - i,
        {
            data.push(buf[i]);
            assert(buf@.subrange(32, i + 1 as int) =~= buf@.subrange(32, i as int).push(
                buf@[i as int],
            ));
            i = i + 1;
        }
        UF2Block {
            magic_start0: read_le_u32(buf, 0),
            magic_start1: read_le_u32(buf, 4),
            flags: read_le_u32(buf, 8),
            target_addr: read_le_u32(buf, 12),
            payload_size: read_le_u32(buf, 16),
            block_no: read_le_u32(buf, 20),
            num_blocks: read_le_u32(buf, 24),
            file_size: read_le_u32(buf, 28),
            data,
            magic_end: read_le_u32(buf, 508),
        }
    }

    /// The device family id, present exactly when bit
    /// `FAMILY_ID_PRESENT_FLAG` of `flags` is set; the raw field must never be
    /// read as a family id otherwise.
    pub fn family_id(&self) -> (r: Option<u32>)
        ensures
            r == spec_family_id(self.flags, self.file_size),
            r is Some <==> self.flags & FAMILY_ID_PRESENT_FLAG != 0,
            r matches Some(f) ==> f == self.file_size,
    {
        if self.flags & FAMILY_ID_PRESENT_FLAG != 0 {
            Some(self.file_size)
        } else {
            None
        }
    }

    /// Runtime counterpart of `spec_valid`.
    pub fn is_valid(&self) -> (r: bool)
        ensures
            r == self.spec_valid(),
    {
        self.magic_start0 == MAGIC_START0 && self.magic_start1 == MAGIC_START1 && self.magic_end
            == MAGIC_END
    }
}

/// Read the little-endian 32-bit value at `buf[off .. off + 4]`.
fn read_le_u32(buf: &Vec<u8>, off: usize) -> (r: u32)
    requires
        off + 4 <= buf@.len(),
    ensures
        r == le32_at(buf@, off as int),
{
    let n: usize = buf.len();
    assert(off + 4 <= n);
    (buf[off] as u32) + (buf[off + 1] as u32) * 0x100 + (buf[off + 2] as u32) * 0x1_0000 + (buf[off
        + 3] as u32) * 0x100_0000
}

/// Declares `std::io::Error` as an opaque type, so that the error a source
/// fails with can be handed through to the consumer untouched.
#[verifier::external_type_specification]
#[verifier::external_body]
pub struct ExIoError(std::io::Error);

/// Why a pull on the block sequence failed. Bad magics are not an error: such
/// frames are skipped silently.
#[derive(Debug)]
pub enum Uf2Error {
    /// The underlying source failed; fatal to the sequence.
    Io(std::io::Error),
    /// The source ended inside a frame: more than zero but fewer than 512
    /// bytes were read. Fatal to the sequence.
    MalformedStream,
}

/// Relies on `std::io::Read::read`: it fills a prefix of the buffer and
/// returns `Ok(n)` with `0 <= n <= buf.len()` bytes read (`Ok(0)` at end of
/// stream), or the source's error. Nothing is assumed about which prefix a
/// given source hands back.
#[verifier::external_body]
fn read_frame_bytes<R: std::io::Read>(read: &mut R) -> (r: Result<(Vec<u8>, usize), std::io::Error>)
    ensures
        r matches Ok(p) ==> p.0@.len() == 512 && p.1 <= 512,
{
    let mut buf = vec![0u8; 512];
    match read.read(&mut buf) {
        Ok(n) => Ok((buf, n)),
        Err(e) => Err(e),
    }
}

/// What one read attempt means for the block sequence.
pub enum FrameStep {
    /// The source was exhausted at a frame boundary: the sequence ends,
    /// cleanly and without an error.
    End,
    /// The frame's magics are valid: this block is yielded.
    Yield(UF2Block),
    /// The frame's magics do not match: it is skipped silently, and the next
    /// frame is tried.
    Skip,
    /// The source ended inside a frame: fatal, reported as `MalformedStream`.
    Malformed,
}

/// Decide what one read attempt yields: `n` is how many of the 512 bytes of
/// `buf` the source filled. The four outcomes partition the inputs: zero
/// bytes end the sequence, a cut-short frame is fatal, and a full frame is
/// yielded or skipped by its magics alone.
pub fn classify_frame(buf: &Vec<u8>, n: usize) -> (r: FrameStep)
    requires
        buf@.len() == 512,
        n <= 512,
    ensures
        (r is End) <==> n == 0,
        (r is Malformed) <==> 0 < n < 512,
        (r is Yield) <==> (n == 512 && spec_valid_frame(buf@)),
        (r is Skip) <==> (n == 512 && !spec_valid_frame(buf@)),
        r matches FrameStep::Yield(b) ==> b.wf() && b.spec_valid() && b.decodes(buf@),
{
    if n == 0 {
        FrameStep::End
    } else if n != 512 {
        FrameStep::Malformed
    } else {
        let block = UF2Block::from_bytes(buf);
        if block.is_valid() {
            FrameStep::Yield(block)
        } else {
            FrameStep::Skip
        }
    }
}

/// A lazy, pull-based sequence of valid blocks over a byte source. Each pull
/// reads one 512-byte frame; frames with bad magics are skipped. Consuming the
/// sequence drains the source: it is not restartable.
pub struct U2FBlockIter<R> {
    read: R,
}

impl<R> U2FBlockIter<R> {
    /// The wrapped byte source.
    pub closed spec fn source(self) -> R {
        self.read
    }
}

/// Adapter from a byte source to its block sequence.
pub trait IntoU2FBlockIter<R>: Sized {
    fn u2f_block_iter(self) -> U2FBlockIter<R>;
}

impl<R> IntoU2FBlockIter<R> for R {
    fn u2f_block_iter(self) -> (r: U2FBlockIter<R>)
        ensures
            r.source() == self,
    {
        U2FBlockIter { read: self }
    }
}

impl<R: std::io::Read> U2FBlockIter<R> {
    /// Pull the next valid block.
    ///
    /// Reads 512-byte frames from the source until one with valid magics
    /// appears (yielded), the source is exhausted at a frame boundary
    /// (`None`), a frame is cut short (`MalformedStream`), or the source
    /// fails (`Io`). What each read outcome means is pinned by
    /// `classify_frame`'s contract; this loop maps its steps one-to-one onto
    /// returns, pulling again only on `Skip`. Every yielded block is
    /// well-formed, decodes some 512-byte frame, and carries valid magics: an
    /// invalid record is never surfaced. A source that hands back
    /// `usize::MAX` invalid frames in a row without ending is given up on as
    /// malformed; no finite source can reach that bound.
    pub fn next(&mut self) -> (r: Option<Result<UF2Block, Uf2Error>>)
        ensures
            r matches Some(Ok(b)) ==> b.wf() && b.spec_valid() && (exists|frame: Seq<u8>|
                #[trigger] b.decodes(frame) && spec_valid_frame(frame)),
    {
        let mut skipped: usize = 0;
        while skipped < usize::MAX
            decreases usize::MAX - skipped,
        {
            match read_frame_bytes(&mut self.read) {
                Err(e) => return Some(Err(Uf2Error::Io(e))),
                Ok((buf, n)) => match classify_frame(&buf, n) {
                    FrameStep::End => return None,
                    FrameStep::Malformed => return Some(Err(Uf2Error::MalformedStream)),
                    FrameStep::Yield(block) => {
                        assert(block.decodes(buf@) && spec_valid_frame(buf@));
                        return Some(Ok(block));
                    },
                    FrameStep::Skip => {},
                },
            }
            skipped = skipped + 1;
        }
        Some(Err(Uf2Error::MalformedStream))
    }
}

/// Does this block carry a family id that is one of `ids`? False exactly when
/// the family-id flag bit is clear or the present id is not in the list.
pub fn block_matches_family(block: &UF2Block, ids: &Vec<u32>) -> (r: bool)
    ensures
        r <==> (spec_family_id(block.flags, block.file_size) matches Some(f) && ids@.contains(f)),
{
    match block.family_id() {
        None => false,
        Some(f) => {
            let mut j: usize = 0;
            while j < ids.len()
                invariant
                    j <= ids@.len(),
                    spec_family_id(block.flags, block.file_size) == Some(f),
                    forall|k: int| 0 <= k < j ==> ids@[k] != f,
                decreases ids@.len() - j,
            {
                if ids[j] == f {
                    assert(ids@.contains(f)) by {
                        assert(ids@[j as int] == f);
                    }
                    return true;
                }
                j = j + 1;
            }
            assert(!ids@.contains(f));
            false
        },
    }
}

/// Scan a block sequence for the first valid block whose family id is one of
/// `ids`.
///
/// Returns `Ok(Some(block))` on a match, `Ok(None)` when the source ends
/// without one, and the sequence's error if a pull fails. Whether a block
/// matches is pinned by `block_matches_family`'s contract; the first pulled
/// block for which it holds is returned. Any block handed back is
/// well-formed, carries valid magics, and has a present family id that is one
/// of `ids`. Like `next`, it gives up after `usize::MAX` pulls, a bound no
/// finite source reaches; the give-up reports no match.
pub fn find_block_with_family<R: std::io::Read>(
    blocks: &mut U2FBlockIter<R>,
    ids: &Vec<u32>,
) -> (r: Result<Option<UF2Block>, Uf2Error>)
    ensures
        r matches Ok(Some(b)) ==> b.wf() && b.spec_valid() && (spec_family_id(
            b.flags,
            b.file_size,
        ) matches Some(f) && ids@.contains(f)),
{
    let mut pulls: usize = 0;
    while pulls < usize::MAX
        decreases usize::MAX - pulls,
    {
        match blocks.next() {
            None => return Ok(None),
            Some(Err(e)) => return Err(e),
            Some(Ok(block)) => {
                if block_matches_family(&block, ids) {
                    return Ok(Some(block));
                }
            },
        }
        pulls = pulls + 1;
    }
    Ok(None)
}

/// The frames a byte stream yields when it is cut into 512-byte windows at a
/// fixed stride: every window whose magics are valid, in order. Windows with
/// bad magics are dropped; a trailing partial window yields nothing (the
/// decoder reports it as an error instead).
pub open spec fn valid_frames(bytes: Seq<u8>) -> Seq<Seq<u8>>
    decreases bytes.len(),
{
    if bytes.len() < 512 {
        Seq::empty()
    } else {
        let frame = bytes.subrange(0, 512);
        let rest = bytes.subrange(512, bytes.len() as int);
        if spec_valid_frame(frame) {
            seq![frame] + valid_frames(rest)
        } else {
            valid_frames(rest)
        }
    }
}

/// A buffer that is exactly one well-formed 512-byte frame decodes to exactly
/// that one frame: no more, no less.
pub proof fn lemma_single_valid_frame(bytes: Seq<u8>)
    requires
        bytes.len() == 512,
        spec_valid_frame(bytes),
    ensures
        valid_frames(bytes) == seq![bytes],
{
    assert(bytes.subrange(0, 512) =~= bytes);
    assert(valid_frames(bytes.subrange(512, 512)) =~= Seq::<Seq<u8>>::empty());
    assert(valid_frames(bytes) =~= seq![bytes]);
}

/// A leading window with corrupted magics is excluded from the yielded
/// sequence, and decoding continues at the next 512-byte window.
pub proof fn lemma_invalid_frame_skipped(bytes: Seq<u8>)
    requires
        bytes.len() >= 512,
        !spec_valid_frame(bytes.subrange(0, 512)),
    ensures
        valid_frames(bytes) == valid_frames(bytes.subrange(512, bytes.len() as int)),
{
}

/// Every frame the stream yields has valid magics: an invalid record is never
/// surfaced.
pub proof fn lemma_frames_all_valid(bytes: Seq<u8>)
    ensures
        forall|i: int|
            0 <= i < valid_frames(bytes).len() ==> spec_valid_frame(
                #[trigger] valid_frames(bytes)[i],
            ),
    decreases bytes.len(),
{
    if bytes.len() >= 512 {
        let frame = bytes.subrange(0, 512);
        let rest = bytes.subrange(512, bytes.len() as int);
        lemma_frames_all_valid(rest);
        assert forall|i: int| 0 <= i < valid_frames(bytes).len() implies spec_valid_frame(
            valid_frames(bytes)[i],
        ) by {
            if spec_valid_frame(frame) {
                assert(valid_frames(bytes) == seq![frame] + valid_frames(rest));
                if i == 0 {
                    assert(valid_frames(bytes)[0] == frame);
                } else {
                    assert(valid_frames(bytes)[i] == valid_frames(rest)[i - 1]);
                }
            } else {
                assert(valid_frames(bytes) == valid_frames(rest));
                assert(spec_valid_frame(valid_frames(rest)[i]));
            }
        }
    } else {
        assert(valid_frames(bytes) =~= Seq::<Seq<u8>>::empty());
    }
}

/// The four bytes that store `x` little-endian.
pub open spec fn le_bytes(x: u32) -> Seq<u8> {
    seq![
        (x % 0x100) as u8,
        ((x / 0x100) % 0x100) as u8,
        ((x / 0x1_0000) % 0x100) as u8,
        ((x / 0x100_0000) % 0x100) as u8,
    ]
}

/// The canonical 512-byte encoding of a block: magics, the six little-endian
/// fields, the 476-byte data area, the end magic.
pub open spec fn spec_encode(
    flags: u32,
    target_addr: u32,
    payload_size: u32,
    block_no: u32,
    num_blocks: u32,
    file_size: u32,
    data: Seq<u8>,
) -> Seq<u8> {
    le_bytes(MAGIC_START0) + le_bytes(MAGIC_START1) + le_bytes(flags) + le_bytes(target_addr)
        + le_bytes(payload_size) + le_bytes(block_no) + le_bytes(num_blocks) + le_bytes(file_size)
        + data + le_bytes(MAGIC_END)
}

/// `x` is recovered from its four little-endian bytes.
proof fn lemma_le32_decompose(x: u32)
    ensures
        x as int == (x as int) % 0x100 + ((x as int) / 0x100 % 0x100) * 0x100 + ((x as int)
            / 0x1_0000 % 0x100) * 0x1_0000 + ((x as int) / 0x100_0000 % 0x100) * 0x100_0000,
{
    let xi = x as int;
    vstd::arithmetic::div_mod::lemma_fundamental_div_mod(xi, 0x100);
    vstd::arithmetic::div_mod::lemma_fundamental_div_mod(xi / 0x100, 0x100);
    vstd::arithmetic::div_mod::lemma_div_denominator(xi, 0x100, 0x100);
    vstd::arithmetic::div_mod::lemma_fundamental_div_mod(xi / 0x1_0000, 0x100);
    vstd::arithmetic::div_mod::lemma_div_denominator(xi, 0x1_0000, 0x100);
    vstd::arithmetic::div_mod::lemma_small_mod((xi / 0x100_0000) as nat, 0x100);
}

/// Reading four bytes little-endian undoes `le_bytes`.
proof fn lemma_le32_at_le_bytes(b: Seq<u8>, off: int, x: u32)
    requires
        0 <= off,
        off + 4 <= b.len(),
        b.subrange(off, off + 4) == le_bytes(x),
    ensures
        le32_at(b, off) == x,
{
    assert(b[off] == le_bytes(x)[0]);
    assert(b[off + 1] == le_bytes(x)[1]);
    assert(b[off + 2] == le_bytes(x)[2]);
    assert(b[off + 3] == le_bytes(x)[3]);
    lemma_le32_decompose(x);
}

/// Round trip: the canonical encoding of any field values is one valid frame,
/// and decoding it yields the same values field for field.
pub proof fn lemma_encode_decode_round_trip(
    flags: u32,
    target_addr: u32,
    payload_size: u32,
    block_no: u32,
    num_blocks: u32,
    file_size: u32,
    data: Seq<u8>,
)
    requires
        data.len() == 476,
    ensures
        ({
            let bytes = spec_encode(
                flags,
                target_addr,
                payload_size,
                block_no,
                num_blocks,
                file_size,
                data,
            );
            &&& bytes.len() == 512
            &&& spec_valid_frame(bytes)
            &&& valid_frames(bytes) == seq![bytes]
            &&& le32_at(bytes, 8) == flags
            &&& le32_at(bytes, 12) == target_addr
            &&& le32_at(bytes, 16) == payload_size
            &&& le32_at(bytes, 20) == block_no
            &&& le32_at(bytes, 24) == num_blocks
            &&& le32_at(bytes, 28) == file_size
            &&& bytes.subrange(32, 508) == data
        }),
{
    let bytes = spec_encode(flags, target_addr, payload_size, block_no, num_blocks, file_size, data);
    assert(bytes.len() == 512);
    assert(bytes.subrange(0, 4) =~= le_bytes(MAGIC_START0));
    assert(bytes.subrange(4, 8) =~= le_bytes(MAGIC_START1));
    assert(bytes.subrange(8, 12) =~= le_bytes(flags));
    assert(bytes.subrange(12, 16) =~= le_bytes(target_addr));
    assert(bytes.subrange(16, 20) =~= le_bytes(payload_size));
    assert(bytes.subrange(20, 24) =~= le_bytes(block_no));
    assert(bytes.subrange(24, 28) =~= le_bytes(num_blocks));
    assert(bytes.subrange(28, 32) =~= le_bytes(file_size));
    assert(bytes.subrange(32, 508) =~= data);
    assert(bytes.subrange(508, 512) =~= le_bytes(MAGIC_END));
    lemma_le32_at_le_bytes(bytes, 0, MAGIC_START0);
    lemma_le32_at_le_bytes(bytes, 4, MAGIC_START1);
    lemma_le32_at_le_bytes(bytes, 8, flags);
    lemma_le32_at_le_bytes(bytes, 12, target_addr);
    lemma_le32_at_le_bytes(bytes, 16, payload_size);
    lemma_le32_at_le_bytes(bytes, 20, block_no);
    lemma_le32_at_le_bytes(bytes, 24, num_blocks);
    lemma_le32_at_le_bytes(bytes, 28, file_size);
    lemma_le32_at_le_bytes(bytes, 508, MAGIC_END);
    lemma_single_valid_frame(bytes);
}

} // verus!
