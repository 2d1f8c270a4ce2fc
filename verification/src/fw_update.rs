//! Firmware update over UART - no BOOTSEL button, no USB access required.
//!
//! The JetKVM sends `FW_UPDATE\n`, then streams the new application image.
//! The image is written to the DFU partition, CRC-checked end to end, marked,
//! and the device resets; the bootloader then swaps it into ACTIVE.
//!
//! Wire protocol (device responses in caps):
//!
//! ```text
//! -> "FW_UPDATE\n"
//! <- "OK\n"
//! -> u32 LE image length
//! <- "RECV\n"            (or "ERR:size\n")
//! loop per 4 KiB chunk:
//!   -> chunk bytes (last chunk may be short)
//!   <- "ACK\n"           each chunk is written to the DFU partition before
//!                         the ACK, so the sender's wait provides flow control
//! -> u32 LE CRC-32 (IEEE, reflected - zlib)
//! <- "CRCOK\n"           (or "ERR:crc\n" / "ERR:verify\n" / "ERR:flash\n")
//! <- "FLASH\n"           then the device marks the update and resets
//! ```
//!
//! [`FwUpdate`] holds the protocol's decisions: the firmware feeds it what each
//! UART read, flash operation and bootloader-state access produced
//! ([`UpdateEvent`]) and performs what it asks next ([`UpdateAction`]). The
//! session records every chunk exactly as it arrived, with the CRC register
//! over those bytes; each phase changes only the part of that record it owns.
//! A failed or interrupted transfer changes nothing: the update is only
//! marked after the recorded image and the staged copy read back from flash
//! both match the sender's CRC.

use vstd::prelude::*;

verus! {

/// Maximum accepted image size: the ACTIVE partition.
pub const MAX_IMAGE_SIZE: u32 = 256 * 1024;
/// DFU partition flash offset - where the staged image is read back from.
pub const DFU_OFFSET: u32 = 0x10_0000;
/// Bytes received (and acknowledged) per chunk.
pub const CHUNK_SIZE: usize = 4096;
/// Erase unit of the DFU partition.
pub const SECTOR_SIZE: usize = 4096;
/// CRC-32 (IEEE 802.3, reflected) polynomial.
pub const CRC32_POLY: u32 = 0xEDB8_8320;

/// One bit step of the reflected CRC-32 shift register.
pub open spec fn crc32_bit(c: u32) -> u32 {
    if c & 1 == 1 {
        (c >> 1) ^ CRC32_POLY
    } else {
        c >> 1
    }
}

/// `k` bit steps of the shift register.
pub open spec fn crc32_bits(c: u32, k: nat) -> u32
    decreases k,
{
    if k == 0 {
        c
    } else {
        crc32_bit(crc32_bits(c, (k - 1) as nat))
    }
}

/// The register after absorbing one byte.
pub open spec fn crc32_byte(c: u32, b: u8) -> u32 {
    crc32_bits(c ^ (b as u32), 8)
}

/// The register after absorbing `data`, starting from `c`.
pub open spec fn crc32_fold(c: u32, data: Seq<u8>) -> u32
    decreases data.len(),
{
    if data.len() == 0 {
        c
    } else {
        crc32_byte(crc32_fold(c, data.drop_last()), data.last())
    }
}

/// CRC-32 of a byte string as zlib computes it: initial value and final
/// XOR 0xFFFFFFFF.
pub open spec fn crc32(data: Seq<u8>) -> u32 {
    !crc32_fold(0xFFFF_FFFF, data)
}

/// CRC-32 (IEEE 802.3, reflected) register update over `data`.
pub fn crc32_update(crc: u32, data: &[u8]) -> (r: u32)
    ensures
        r == crc32_fold(crc, data@),
        r == crc_of_bits(crc, message_bits(data@)),
{
    let mut crc = crc;
    let ghost start = crc;
    let mut i: usize = 0;
    while i < data.len()
        invariant
            i <= data@.len(),
            crc == crc32_fold(start, data@.take(i as int)),
        decreases data@.len() - i,
    {
        let byte = data[i];
        assert(data@.take(i as int + 1).drop_last() =~= data@.take(i as int));
        let ghost after_xor = crc ^ (byte as u32);
        crc ^= byte as u32;
        let mut k: usize = 0;
        while k < 8
            invariant
                k <= 8,
                crc == crc32_bits(after_xor, k as nat),
            decreases 8 - k,
        {
            assert((crc & 1) == 0u32 || (crc & 1) == 1u32) by (bit_vector);
            let mask = 0u32.wrapping_sub(crc & 1);
            let next = (crc >> 1) ^ (CRC32_POLY & mask);
            assert(next == crc32_bit(crc)) by (bit_vector)
                requires
                    mask == (if crc & 1 == 1 { 0xFFFF_FFFFu32 } else { 0u32 }),
                    next == (crc >> 1) ^ (0xEDB8_8320u32 & mask),
            ;
            crc = next;
            k = k + 1;
        }
        i = i + 1;
    }
    assert(data@.take(data@.len() as int) =~= data@);
    proof {
        lemma_crc32_fold_is_division(start, data@);
    }
    crc
}

/// Streaming law: absorbing `a` and then `b` is absorbing `a ++ b`, so the
/// CRC of an image received in chunks is the CRC of the whole image.
pub proof fn lemma_crc32_fold_concat(c: u32, a: Seq<u8>, b: Seq<u8>)
    ensures
        crc32_fold(c, a + b) == crc32_fold(crc32_fold(c, a), b),
    decreases b.len(),
{
    if b.len() == 0 {
        assert(a + b =~= a);
    } else {
        assert((a + b).drop_last() =~= a + b.drop_last());
        assert((a + b).last() == b.last());
        lemma_crc32_fold_concat(c, a, b.drop_last());
    }
}

/// CRC-32/ISO-HDLC (zlib) as polynomial division one message bit at a time:
/// the register shifts right, and the reflected polynomial 0xEDB88320 is
/// added when the bit leaving the register differs from the message bit.
pub open spec fn crc_bit_step(c: u32, bit: bool) -> u32 {
    if ((c & 1) == 1) != bit {
        (c >> 1) ^ 0xEDB8_8320u32
    } else {
        c >> 1
    }
}

/// The message bits of a byte, least significant first (the bit order of
/// the reflected CRC).
pub open spec fn byte_bits(b: u8) -> Seq<bool> {
    Seq::new(8, |i: int| (b >> (i as u8)) & 1 == 1)
}

/// The message bits of a byte string, byte after byte.
pub open spec fn message_bits(data: Seq<u8>) -> Seq<bool>
    decreases data.len(),
{
    if data.len() == 0 {
        Seq::empty()
    } else {
        message_bits(data.drop_last()) + byte_bits(data.last())
    }
}

/// The register after dividing in `bits`, starting from `c`.
pub open spec fn crc_of_bits(c: u32, bits: Seq<bool>) -> u32
    decreases bits.len(),
{
    if bits.len() == 0 {
        c
    } else {
        crc_bit_step(crc_of_bits(c, bits.drop_last()), bits.last())
    }
}

/// One register step with a byte still folded into its low bits is the
/// message-bit step with that byte's lowest bit, the rest of the byte moving
/// down with the register.
proof fn lemma_bit_step_with_byte(s: u32, x: u32)
    by (bit_vector)
    requires
        x < 256,
    ensures
        crc32_bit(s ^ x) == crc_bit_step(s, (x & 1) == 1) ^ (x >> 1),
{
}

/// The first `k` message bits of a byte: register steps with the byte folded
/// in agree with dividing in the byte's bits one by one.
proof fn lemma_byte_prefix(c: u32, b: u8, k: nat)
    requires
        k <= 8,
    ensures
        crc32_bits(c ^ (b as u32), k) == crc_of_bits(c, byte_bits(b).take(k as int)) ^ ((
        b as u32) >> (k as u32)),
    decreases k,
{
    if k == 0 {
        assert(byte_bits(b).take(0) =~= Seq::<bool>::empty());
        assert(((b as u32) >> 0u32) == b as u32) by (bit_vector);
    } else {
        let j = (k - 1) as nat;
        lemma_byte_prefix(c, b, j);
        let s = crc_of_bits(c, byte_bits(b).take(j as int));
        let jw: u32 = j as u32;
        let kw: u32 = k as u32;
        let jj: u8 = j as u8;
        let x = (b as u32) >> jw;
        assert(x < 256) by (bit_vector)
            requires
                x == (b as u32) >> jw,
        ;
        lemma_bit_step_with_byte(s, x);
        assert(byte_bits(b).take(k as int).drop_last() =~= byte_bits(b).take(j as int));
        assert(byte_bits(b).take(k as int).last() == ((b >> jj) & 1 == 1));
        assert(((x & 1) == 1) == (((b >> jj) & 1) == 1)) by (bit_vector)
            requires
                x == (b as u32) >> jw,
                jj as u32 == jw,
                jw < 8,
        ;
        assert(x >> 1 == (b as u32) >> kw) by (bit_vector)
            requires
                x == (b as u32) >> jw,
                kw == jw + 1,
                kw <= 8,
        ;
    }
}

/// The register update absorbs all eight bits of every byte: folding bytes
/// into the register is dividing in their message bits, least significant
/// bit of each byte first.
pub proof fn lemma_crc32_fold_is_division(c: u32, data: Seq<u8>)
    ensures
        crc32_fold(c, data) == crc_of_bits(c, message_bits(data)),
    decreases data.len(),
{
    if data.len() > 0 {
        let d = data.drop_last();
        let b = data.last();
        lemma_crc32_fold_is_division(c, d);
        let s = crc32_fold(c, d);
        lemma_byte_prefix(s, b, 8);
        assert(byte_bits(b).take(8) =~= byte_bits(b));
        assert(((b as u32) >> 8u32) == 0) by (bit_vector);
        let r = crc_of_bits(s, byte_bits(b));
        assert(r ^ 0u32 == r) by (bit_vector);
        assert(crc32_byte(s, b) == r);
        lemma_crc_of_bits_concat(c, message_bits(d), byte_bits(b));
        assert(message_bits(data) == message_bits(d) + byte_bits(b));
    }
}

/// Dividing in two bit strings one after the other.
proof fn lemma_crc_of_bits_concat(c: u32, a: Seq<bool>, b: Seq<bool>)
    ensures
        crc_of_bits(c, a + b) == crc_of_bits(crc_of_bits(c, a), b),
    decreases b.len(),
{
    if b.len() == 0 {
        assert(a + b =~= a);
    } else {
        assert((a + b).drop_last() =~= a + b.drop_last());
        assert((a + b).last() == b.last());
        lemma_crc_of_bits_concat(c, a, b.drop_last());
    }
}

/// The CRC-32 of a byte string is zlib's: initial register and final XOR
/// 0xFFFFFFFF around the bitwise division of its message bits.
pub proof fn lemma_crc32_is_zlib_crc(data: Seq<u8>)
    ensures
        crc32(data) == !crc_of_bits(0xFFFF_FFFF, message_bits(data)),
{
    lemma_crc32_fold_is_division(0xFFFF_FFFF, data);
}

/// Little-endian value of four bytes.
pub open spec fn le_u32(b: Seq<u8>) -> int {
    b[0] + b[1] * 256 + b[2] * 65536 + b[3] * 16777216
}

/// Decode a little-endian `u32` from four bytes.
pub fn u32_from_le_bytes(b: &[u8]) -> (r: u32)
    requires
        b@.len() == 4,
    ensures
        r == le_u32(b@),
{
    (b[0] as u32) + (b[1] as u32) * 256 + (b[2] as u32) * 65536 + (b[3] as u32) * 16777216
}

/// Bootloader state as read from the state partition.
#[derive(Clone, Copy, PartialEq, Eq, Debug, Structural)]
pub enum BootState {
    /// Ready to boot the active partition.
    Boot,
    /// Swapped the active and DFU partitions and attempting boot.
    Swap,
    /// Reverted a swap and attempting boot.
    Revert,
    /// Asked to reboot into DFU mode.
    DfuDetach,
}

/// States from which an update may start (not mid-swap).
pub open spec fn may_start_update(s: BootState) -> bool {
    s == BootState::Boot || s == BootState::Revert || s == BootState::DfuDetach
}

/// Device responses of the update protocol.
#[derive(Clone, Copy, PartialEq, Eq, Debug, Structural)]
pub enum Reply {
    Started,
    Recv,
    Ack,
    CrcOkFlash,
    ErrTimeout,
    ErrSize,
    ErrFlash,
    ErrCrc,
    ErrVerify,
}

/// Text sent on the wire for each response.
pub open spec fn reply_text(r: Reply) -> Seq<char> {
    match r {
        Reply::Started => "OK\n"@,
        Reply::Recv => "RECV\n"@,
        Reply::Ack => "ACK\n"@,
        Reply::CrcOkFlash => "CRCOK\nFLASH\n"@,
        Reply::ErrTimeout => "ERR:timeout\n"@,
        Reply::ErrSize => "ERR:size\n"@,
        Reply::ErrFlash => "ERR:flash\n"@,
        Reply::ErrCrc => "ERR:crc\n"@,
        Reply::ErrVerify => "ERR:verify\n"@,
    }
}

impl Reply {
    /// The text this response is sent as.
    pub fn text(&self) -> (t: &'static str)
        ensures
            t@ == reply_text(*self),
    {
        match self {
            Reply::Started => "OK\n",
            Reply::Recv => "RECV\n",
            Reply::Ack => "ACK\n",
            Reply::CrcOkFlash => "CRCOK\nFLASH\n",
            Reply::ErrTimeout => "ERR:timeout\n",
            Reply::ErrSize => "ERR:size\n",
            Reply::ErrFlash => "ERR:flash\n",
            Reply::ErrCrc => "ERR:crc\n",
            Reply::ErrVerify => "ERR:verify\n",
        }
    }
}

/// Where the update transaction stands.
#[derive(Clone, Copy, PartialEq, Eq, Debug, Structural)]
pub enum Phase {
    AwaitLength,
    AwaitBootState,
    AwaitChunk,
    Erasing,
    Programming,
    AwaitCrc,
    Verifying,
    Marking,
    Done,
}

/// What the firmware has to do next.
#[derive(Clone, Copy, PartialEq, Eq, Debug, Structural)]
pub enum UpdateStep {
    /// Read exactly this many raw bytes from the UART, within the receive timeout.
    Receive(usize),
    /// Read the bootloader state.
    CheckBootState,
    /// Erase the DFU sector that starts at this partition offset.
    Erase(u32),
    /// Program the current chunk at this DFU partition offset.
    Program(u32),
    /// Read back this many bytes from the start of the DFU partition.
    ReadBack(u32),
    /// Mark the staged update for the bootloader.
    MarkUpdated,
    /// Drain the UART and reset into the bootloader.
    Reset,
    /// The transaction is over without an update; return to the command loop.
    Abort,
}

/// The next action: an optional response to send first, whether to feed the
/// watchdog, then the step to perform.
#[derive(Clone, Copy, PartialEq, Eq, Debug, Structural)]
pub struct UpdateAction {
    pub reply: Option<Reply>,
    pub feed_watchdog: bool,
    pub step: UpdateStep,
}

/// What the last step produced.
pub enum UpdateEvent<'a> {
    /// The bytes a `Receive` step asked for, or `None` if the sender went quiet.
    Received(Option<Vec<u8>>),
    /// The bootloader state, or `None` if it could not be read.
    BootStateRead(Option<BootState>),
    /// Whether the requested erase succeeded.
    Erased(bool),
    /// Whether programming the chunk succeeded.
    Programmed(bool),
    /// The bytes read back from the DFU partition (the memory-mapped flash).
    ReadBack(&'a [u8]),
    /// Whether marking the update succeeded.
    Marked(bool),
}

/// An action with no response.
pub open spec fn quiet(step: UpdateStep) -> UpdateAction {
    UpdateAction { reply: None, feed_watchdog: false, step }
}

/// An action that ends the transaction with an error response.
pub open spec fn fail(r: Reply) -> UpdateAction {
    UpdateAction { reply: Some(r), feed_watchdog: false, step: UpdateStep::Abort }
}

/// Size of the chunk that starts at `offset` of an image of `len` bytes.
pub open spec fn chunk_len(len: int, offset: int) -> int {
    if len - offset < 4096 {
        len - offset
    } else {
        4096
    }
}

/// `x` rounded up to a whole number of 4 KiB sectors.
pub open spec fn sector_round_up(x: int) -> int {
    (x + 4095) / 4096 * 4096
}

/// One update transaction.
pub struct FwUpdate {
    /// Where the transaction stands.
    pub phase: Phase,
    /// Image length announced by the sender.
    pub len: u32,
    /// Image bytes received and programmed so far.
    pub offset: usize,
    /// The DFU partition is erased below this offset.
    pub erased_to: usize,
    /// CRC register over the image bytes received so far.
    pub crc: u32,
    /// CRC the sender announced for the image.
    pub expected_crc: u32,
    /// The chunk being staged.
    pub chunk: Vec<u8>,
    /// All image bytes received so far.
    pub received: Ghost<Seq<u8>>,
}

impl FwUpdate {
    /// The bookkeeping agrees with what was received.
    pub open spec fn wf(&self) -> bool {
        &&& self.len <= MAX_IMAGE_SIZE
        &&& self.offset <= self.len
        &&& self.erased_to % 4096 == 0
        &&& self.erased_to <= MAX_IMAGE_SIZE + 4096
        &&& (self.phase == Phase::AwaitChunk || self.phase == Phase::AwaitCrc
            || self.phase == Phase::Verifying || self.phase == Phase::Marking) ==> self.offset
            <= self.erased_to
        &&& self.phase != Phase::Done ==> self.received@.len() == self.offset + (if self.phase == Phase::Erasing || self.phase
            == Phase::Programming {
            self.chunk@.len() as int
        } else {
            0
        })
        &&& self.crc == crc32_fold(0xFFFF_FFFF, self.received@)
        &&& (self.phase == Phase::Erasing || self.phase == Phase::Programming) ==> {
            &&& self.chunk@.len() == chunk_len(self.len as int, self.offset as int)
            &&& self.offset < self.len
            &&& self.received@.subrange(self.offset as int, self.offset + self.chunk@.len())
                == self.chunk@
        }
        &&& self.phase == Phase::Programming ==> self.offset + self.chunk@.len() <= self.erased_to
        // Sectors are erased one at a time, in order, just ahead of the data:
        // between chunks exactly the sectors the received bytes need are erased.
        &&& (self.phase == Phase::AwaitChunk || self.phase == Phase::AwaitCrc || self.phase
            == Phase::Verifying || self.phase == Phase::Marking) ==> self.erased_to
            == sector_round_up(self.offset as int)
        &&& (self.phase == Phase::Erasing || self.phase == Phase::Programming) ==> {
            &&& sector_round_up(self.offset as int) <= self.erased_to
            &&& self.erased_to <= sector_round_up(self.offset + self.chunk@.len())
        }
        &&& self.phase == Phase::Erasing ==> self.erased_to < self.offset + self.chunk@.len()
        &&& (self.phase == Phase::AwaitLength || self.phase == Phase::AwaitBootState) ==> {
            &&& self.offset == 0
            &&& self.erased_to == 0
        }
        &&& (self.phase == Phase::AwaitBootState || self.phase == Phase::Erasing || self.phase
            == Phase::Programming || self.phase == Phase::AwaitChunk || self.phase == Phase::AwaitCrc || self.phase
            == Phase::Verifying || self.phase == Phase::Marking) ==> self.len > 0
        &&& self.phase == Phase::AwaitChunk ==> self.offset < self.len
        &&& (self.phase == Phase::AwaitCrc || self.phase == Phase::Verifying || self.phase
            == Phase::Marking) ==> self.offset == self.len
        &&& (self.phase == Phase::Verifying || self.phase == Phase::Marking)
            ==> self.image_verified()
    }

    /// The whole announced image has arrived and matches the sender's CRC.
    pub open spec fn image_verified(&self) -> bool {
        &&& 0 < self.len <= MAX_IMAGE_SIZE
        &&& self.received@.len() == self.len
        &&& crc32(self.received@) == self.expected_crc
    }

    /// Start a transaction: answer `OK` and wait for the image length.
    pub fn new() -> (r: (Self, UpdateAction))
        ensures
            r.0.wf(),
            r.0.phase == Phase::AwaitLength,
            r.0.received@ == Seq::<u8>::empty(),
            r.1 == (UpdateAction {
                reply: Some(Reply::Started),
                feed_watchdog: false,
                step: UpdateStep::Receive(4),
            }),
    {
        let s = FwUpdate {
            phase: Phase::AwaitLength,
            len: 0,
            offset: 0,
            erased_to: 0,
            crc: 0xFFFF_FFFF,
            expected_crc: 0,
            chunk: Vec::new(),
            received: Ghost(Seq::empty()),
        };
        (s, UpdateAction { reply: Some(Reply::Started), feed_watchdog: false, step: UpdateStep::Receive(4) })
    }

    /// Size of the next chunk.
    fn next_chunk_len(&self) -> (n: usize)
        requires
            self.offset < self.len,
        ensures
            n == chunk_len(self.len as int, self.offset as int),
    {
        let rest = self.len as usize - self.offset;
        if rest < CHUNK_SIZE {
            rest
        } else {
            CHUNK_SIZE
        }
    }

    /// The step after a chunk arrived or a sector was erased: erase the next
    /// sector if the chunk does not fit below `erased_to` yet, else program it.
    fn erase_or_program(&mut self, feed_watchdog: bool) -> (a: UpdateAction)
        requires
            old(self).offset + old(self).chunk@.len() <= MAX_IMAGE_SIZE,
            old(self).erased_to <= MAX_IMAGE_SIZE + 4096,
        ensures
            final(self).phase == (if old(self).erased_to < old(self).offset + old(self).chunk@.len() {
                Phase::Erasing
            } else {
                Phase::Programming
            }),
            a == (UpdateAction {
                reply: None,
                feed_watchdog,
                step: if old(self).erased_to < old(self).offset + old(self).chunk@.len() {
                    UpdateStep::Erase(old(self).erased_to as u32)
                } else {
                    UpdateStep::Program(old(self).offset as u32)
                },
            }),
            final(self).len == old(self).len,
            final(self).offset == old(self).offset,
            final(self).erased_to == old(self).erased_to,
            final(self).crc == old(self).crc,
            final(self).expected_crc == old(self).expected_crc,
            final(self).chunk == old(self).chunk,
            final(self).received == old(self).received,
    {
        if self.erased_to < self.offset + self.chunk.len() {
            self.phase = Phase::Erasing;
            UpdateAction {
                reply: None,
                feed_watchdog,
                step: UpdateStep::Erase(self.erased_to as u32),
            }
        } else {
            self.phase = Phase::Programming;
            UpdateAction { reply: None, feed_watchdog, step: UpdateStep::Program(self.offset as u32) }
        }
    }

    /// End the transaction, sending `reply` if there is one.
    fn finish(&mut self, reply: Option<Reply>) -> (a: UpdateAction)
        ensures
            final(self).phase == Phase::Done,
            a == (UpdateAction { reply, feed_watchdog: false, step: UpdateStep::Abort }),
            final(self).len == old(self).len,
            final(self).offset == old(self).offset,
            final(self).erased_to == old(self).erased_to,
            final(self).crc == old(self).crc,
            final(self).expected_crc == old(self).expected_crc,
            final(self).chunk == old(self).chunk,
            final(self).received == old(self).received,
    {
        self.phase = Phase::Done;
        UpdateAction { reply, feed_watchdog: false, step: UpdateStep::Abort }
    }

    /// Take what the last step produced and decide the next action. An event
    /// that does not answer the step last asked for ends the transaction
    /// without a response.
    pub fn handle(&mut self, event: UpdateEvent<'_>) -> (a: UpdateAction)
        requires
            old(self).wf(),
        ensures
            final(self).wf(),
            final(self).len == old(self).len || (old(self).phase == Phase::AwaitLength
                && final(self).phase == Phase::AwaitBootState),
            // The session's record changes only in the phase that owns it: the
            // erased mark when a sector is erased, the image, its CRC register
            // and the staged chunk when a chunk arrives, the offset when a
            // chunk has been programmed.
            old(self).phase != Phase::Erasing ==> final(self).erased_to == old(self).erased_to,
            old(self).phase != Phase::AwaitChunk ==> {
                &&& final(self).received == old(self).received
                &&& final(self).crc == old(self).crc
                &&& final(self).chunk@ == old(self).chunk@
            },
            old(self).phase != Phase::Programming ==> final(self).offset == old(self).offset,
            // The update is only marked once the whole image arrived and both it
            // and its staged copy match the sender's CRC.
            a.step == UpdateStep::MarkUpdated ==> {
                &&& old(self).phase == Phase::Verifying
                &&& final(self).image_verified()
                &&& event matches UpdateEvent::ReadBack(v) && crc32(v@) == final(self).expected_crc
            },
            a.step == UpdateStep::Reset ==> old(self).phase == Phase::Marking
                && final(self).image_verified(),
            // A chunk is acknowledged only after it was programmed.
            a.reply == Some(Reply::Ack) ==> old(self).phase == Phase::Programming
                && event matches UpdateEvent::Programmed(true),
            // A chunk is programmed only where the partition was erased, at
            // the place its bytes have in the image.
            a.step matches UpdateStep::Program(o) ==> {
                &&& o + final(self).chunk@.len() <= final(self).erased_to
                &&& o == final(self).offset
                &&& final(self).received@.subrange(o as int, o + final(self).chunk@.len())
                    == final(self).chunk@
            },
            // Sectors are erased in order: each erase is of the sector at the
            // erased mark, which the chunk being staged still needs.
            a.step matches UpdateStep::Erase(o) ==> {
                &&& o % 4096 == 0
                &&& o == final(self).erased_to
                &&& o < final(self).offset + final(self).chunk@.len()
                &&& final(self).phase == Phase::Erasing
            },
            final(self).expected_crc == old(self).expected_crc || (old(self).phase
                == Phase::AwaitCrc && final(self).phase == Phase::Verifying),
            // Waiting for the image length.
            old(self).phase == Phase::AwaitLength ==> match event {
                UpdateEvent::Received(None) => a == fail(Reply::ErrTimeout) && final(self).phase
                    == Phase::Done,
                UpdateEvent::Received(Some(v)) => if v@.len() != 4 {
                    a == quiet(UpdateStep::Abort) && final(self).phase == Phase::Done
                } else if le_u32(v@) == 0 || le_u32(v@) > MAX_IMAGE_SIZE {
                    a == fail(Reply::ErrSize) && final(self).phase == Phase::Done
                } else {
                    &&& a == quiet(UpdateStep::CheckBootState)
                    &&& final(self).phase == Phase::AwaitBootState
                    &&& final(self).len == le_u32(v@)
                    &&& final(self).received@ == old(self).received@
                },
                _ => a == quiet(UpdateStep::Abort) && final(self).phase == Phase::Done,
            },
            // Waiting for the bootloader state.
            old(self).phase == Phase::AwaitBootState ==> match event {
                UpdateEvent::BootStateRead(Some(s)) => if may_start_update(s) {
                    &&& a == (UpdateAction {
                        reply: Some(Reply::Recv),
                        feed_watchdog: false,
                        step: UpdateStep::Receive(
                            chunk_len(old(self).len as int, 0) as usize,
                        ),
                    })
                    &&& final(self).phase == Phase::AwaitChunk
                    &&& final(self).offset == 0
                } else {
                    a == fail(Reply::ErrFlash) && final(self).phase == Phase::Done
                },
                UpdateEvent::BootStateRead(None) => a == fail(Reply::ErrFlash) && final(self).phase == Phase::Done,
                _ => a == quiet(UpdateStep::Abort) && final(self).phase == Phase::Done,
            },
            // Waiting for a chunk of the image.
            old(self).phase == Phase::AwaitChunk ==> match event {
                UpdateEvent::Received(None) => a == fail(Reply::ErrTimeout) && final(self).phase
                    == Phase::Done,
                UpdateEvent::Received(Some(v)) => if v@.len() != chunk_len(
                    old(self).len as int,
                    old(self).offset as int,
                ) {
                    a == quiet(UpdateStep::Abort) && final(self).phase == Phase::Done
                } else {
                    &&& final(self).chunk@ == v@
                    &&& final(self).received@ == old(self).received@ + v@
                    &&& final(self).crc == crc32_fold(old(self).crc, v@)
                    &&& final(self).offset == old(self).offset
                    &&& a.reply is None
                    &&& a.feed_watchdog
                    &&& if old(self).erased_to < old(self).offset + v@.len() {
                        a.step == UpdateStep::Erase(old(self).erased_to as u32)
                            && final(self).phase == Phase::Erasing
                    } else {
                        a.step == UpdateStep::Program(old(self).offset as u32)
                            && final(self).phase == Phase::Programming
                    }
                },
                _ => a == quiet(UpdateStep::Abort) && final(self).phase == Phase::Done,
            },
            // Erasing the sectors a chunk needs.
            old(self).phase == Phase::Erasing ==> match event {
                UpdateEvent::Erased(true) => {
                    let e = old(self).erased_to + 4096;
                    &&& final(self).erased_to == e
                    &&& final(self).offset == old(self).offset
                    &&& final(self).chunk == old(self).chunk
                    &&& if e < old(self).offset + old(self).chunk@.len() {
                        a == quiet(UpdateStep::Erase(e as u32)) && final(self).phase
                            == Phase::Erasing
                    } else {
                        a == quiet(UpdateStep::Program(old(self).offset as u32)) && final(self).phase == Phase::Programming
                    }
                },
                UpdateEvent::Erased(false) => a == fail(Reply::ErrFlash) && final(self).phase
                    == Phase::Done,
                _ => a == quiet(UpdateStep::Abort) && final(self).phase == Phase::Done,
            },
            // Programming a chunk.
            old(self).phase == Phase::Programming ==> match event {
                UpdateEvent::Programmed(true) => {
                    let o = old(self).offset + old(self).chunk@.len();
                    &&& final(self).offset == o
                    &&& if o < old(self).len {
                        &&& a == (UpdateAction {
                            reply: Some(Reply::Ack),
                            feed_watchdog: false,
                            step: UpdateStep::Receive(
                                chunk_len(old(self).len as int, o) as usize,
                            ),
                        })
                        &&& final(self).phase == Phase::AwaitChunk
                    } else {
                        &&& a == (UpdateAction {
                            reply: Some(Reply::Ack),
                            feed_watchdog: false,
                            step: UpdateStep::Receive(4),
                        })
                        &&& final(self).phase == Phase::AwaitCrc
                    }
                },
                UpdateEvent::Programmed(false) => a == fail(Reply::ErrFlash) && final(self).phase
                    == Phase::Done,
                _ => a == quiet(UpdateStep::Abort) && final(self).phase == Phase::Done,
            },
            // Waiting for the sender's CRC.
            old(self).phase == Phase::AwaitCrc ==> match event {
                UpdateEvent::Received(None) => a == fail(Reply::ErrTimeout) && final(self).phase
                    == Phase::Done,
                UpdateEvent::Received(Some(v)) => if v@.len() != 4 {
                    a == quiet(UpdateStep::Abort) && final(self).phase == Phase::Done
                } else if crc32(old(self).received@) != le_u32(v@) {
                    a == fail(Reply::ErrCrc) && final(self).phase == Phase::Done
                } else {
                    &&& a == (UpdateAction {
                        reply: None,
                        feed_watchdog: true,
                        step: UpdateStep::ReadBack(old(self).len),
                    })
                    &&& final(self).phase == Phase::Verifying
                    &&& final(self).expected_crc == le_u32(v@)
                },
                _ => a == quiet(UpdateStep::Abort) && final(self).phase == Phase::Done,
            },
            // Checking the staged copy.
            old(self).phase == Phase::Verifying ==> match event {
                UpdateEvent::ReadBack(v) => if v@.len() != old(self).len {
                    a == quiet(UpdateStep::Abort) && final(self).phase == Phase::Done
                } else if crc32(v@) != old(self).expected_crc {
                    a == fail(Reply::ErrVerify) && final(self).phase == Phase::Done
                } else {
                    &&& a == (UpdateAction {
                        reply: None,
                        feed_watchdog: true,
                        step: UpdateStep::MarkUpdated,
                    })
                    &&& final(self).phase == Phase::Marking
                },
                _ => a == quiet(UpdateStep::Abort) && final(self).phase == Phase::Done,
            },
            // Marking the update.
            old(self).phase == Phase::Marking ==> match event {
                UpdateEvent::Marked(true) => a == (UpdateAction {
                    reply: Some(Reply::CrcOkFlash),
                    feed_watchdog: false,
                    step: UpdateStep::Reset,
                }) && final(self).phase == Phase::Done,
                UpdateEvent::Marked(false) => a == fail(Reply::ErrFlash) && final(self).phase
                    == Phase::Done,
                _ => a == quiet(UpdateStep::Abort) && final(self).phase == Phase::Done,
            },
            old(self).phase == Phase::Done ==> a == quiet(UpdateStep::Abort) && final(self).phase
                == Phase::Done,
    {
        match self.phase {
            Phase::AwaitLength => match event {
                UpdateEvent::Received(None) => self.finish(Some(Reply::ErrTimeout)),
                UpdateEvent::Received(Some(word)) => {
                    if word.len() != 4 {
                        return self.finish(None);
                    }
                    let len = u32_from_le_bytes(word.as_slice());
                    if len == 0 || len > MAX_IMAGE_SIZE {
                        self.finish(Some(Reply::ErrSize))
                    } else {
                        self.len = len;
                        self.phase = Phase::AwaitBootState;
                        UpdateAction {
                            reply: None,
                            feed_watchdog: false,
                            step: UpdateStep::CheckBootState,
                        }
                    }
                },
                _ => self.finish(None),
            },
            Phase::AwaitBootState => match event {
                UpdateEvent::BootStateRead(Some(s)) => {
                    match s {
                        BootState::Boot | BootState::Revert | BootState::DfuDetach => {
                            self.phase = Phase::AwaitChunk;
                            let n = self.next_chunk_len();
                            UpdateAction {
                                reply: Some(Reply::Recv),
                                feed_watchdog: false,
                                step: UpdateStep::Receive(n),
                            }
                        },
                        BootState::Swap => self.finish(Some(Reply::ErrFlash)),
                    }
                },
                UpdateEvent::BootStateRead(None) => self.finish(Some(Reply::ErrFlash)),
                _ => self.finish(None),
            },
            Phase::AwaitChunk => match event {
                UpdateEvent::Received(None) => self.finish(Some(Reply::ErrTimeout)),
                UpdateEvent::Received(Some(data)) => {
                    let n = self.next_chunk_len();
                    if data.len() != n {
                        return self.finish(None);
                    }
                    self.crc = crc32_update(self.crc, data.as_slice());
                    proof {
                        lemma_crc32_fold_concat(0xFFFF_FFFF, self.received@, data@);
                    }
                    self.received = Ghost(self.received@ + data@);
                    assert(self.received@.subrange(self.offset as int, self.offset + data@.len())
                        =~= data@);
                    self.chunk = data;
                    self.erase_or_program(true)
                },
                _ => self.finish(None),
            },
            Phase::Erasing => match event {
                UpdateEvent::Erased(true) => {
                    self.erased_to = self.erased_to + SECTOR_SIZE;
                    self.erase_or_program(false)
                },
                UpdateEvent::Erased(false) => self.finish(Some(Reply::ErrFlash)),
                _ => self.finish(None),
            },
            Phase::Programming => match event {
                UpdateEvent::Programmed(true) => {
                    self.offset = self.offset + self.chunk.len();
                    if self.offset < self.len as usize {
                        self.phase = Phase::AwaitChunk;
                        let n = self.next_chunk_len();
                        UpdateAction {
                            reply: Some(Reply::Ack),
                            feed_watchdog: false,
                            step: UpdateStep::Receive(n),
                        }
                    } else {
                        self.phase = Phase::AwaitCrc;
                        UpdateAction {
                            reply: Some(Reply::Ack),
                            feed_watchdog: false,
                            step: UpdateStep::Receive(4),
                        }
                    }
                },
                UpdateEvent::Programmed(false) => self.finish(Some(Reply::ErrFlash)),
                _ => self.finish(None),
            },
            Phase::AwaitCrc => match event {
                UpdateEvent::Received(None) => self.finish(Some(Reply::ErrTimeout)),
                UpdateEvent::Received(Some(word)) => {
                    if word.len() != 4 {
                        return self.finish(None);
                    }
                    let received_crc = !self.crc;
                    let expected_crc = u32_from_le_bytes(word.as_slice());
                    if received_crc != expected_crc {
                        self.finish(Some(Reply::ErrCrc))
                    } else {
                        self.expected_crc = expected_crc;
                        self.phase = Phase::Verifying;
                        UpdateAction {
                            reply: None,
                            feed_watchdog: true,
                            step: UpdateStep::ReadBack(self.len),
                        }
                    }
                },
                _ => self.finish(None),
            },
            Phase::Verifying => match event {
                UpdateEvent::ReadBack(staged) => {
                    if staged.len() != self.len as usize {
                        return self.finish(None);
                    }
                    let staged_crc = !crc32_update(0xFFFF_FFFF, staged);
                    if staged_crc != self.expected_crc {
                        self.finish(Some(Reply::ErrVerify))
                    } else {
                        self.phase = Phase::Marking;
                        UpdateAction {
                            reply: None,
                            feed_watchdog: true,
                            step: UpdateStep::MarkUpdated,
                        }
                    }
                },
                _ => self.finish(None),
            },
            Phase::Marking => match event {
                UpdateEvent::Marked(true) => {
                    self.phase = Phase::Done;
                    UpdateAction {
                        reply: Some(Reply::CrcOkFlash),
                        feed_watchdog: false,
                        step: UpdateStep::Reset,
                    }
                },
                UpdateEvent::Marked(false) => self.finish(Some(Reply::ErrFlash)),
                _ => self.finish(None),
            },
            Phase::Done => self.finish(None),
        }
    }
}

} // verus!
