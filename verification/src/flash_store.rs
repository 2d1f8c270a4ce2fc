//! Persistent power state and restore mode, kept as a log in one flash sector.
//!
//! The sector holds up to sixteen entries, one per 256-byte flash page. An entry
//! is two bytes (power state, restore mode); the rest of its page stays erased
//! (0xFF). A new entry goes to the first page whose first byte is still erased;
//! when every page is used the sector is erased and the log starts again at
//! page 0. On start-up the last valid entry wins.
//!
//! The store keeps an exact image of the settings sector. Every change it makes
//! to that image is also returned as a [`SectorWrite`], which the firmware
//! replays on the real flash (erase, then program one page). Programming NOR
//! flash can only clear bits, so the image models a program as a bitwise AND of
//! the old contents with the page data.

use vstd::prelude::*;
use crate::config::FLASH_TARGET_OFFSET;

verus! {

/// Total flash size of the RP2040 board (2 MiB).
pub const FLASH_SIZE: usize = 2 * 1024 * 1024;
/// Flash page size: the unit of programming, and the size of one log slot.
pub const FLASH_PAGE_SIZE: usize = 256;
/// Flash sector size: the unit of erasing.
pub const FLASH_SECTOR_SIZE: usize = 4096;
/// Number of log slots in the settings sector.
pub const ENTRIES_PER_SECTOR: usize = 16;
/// Value of an erased flash byte.
pub const INVALID_BYTE: u8 = 0xFF;

/// Power state values.
#[derive(Clone, Copy, PartialEq, Eq, Debug, Structural)]
pub enum PowerState {
    Off,
    On,
}

/// Restore mode values: what the output does after a power-up.
#[derive(Clone, Copy, PartialEq, Eq, Debug, Structural)]
pub enum RestoreMode {
    Off,
    On,
    LastState,
}

/// Byte that encodes a power state in flash and on the wire.
pub open spec fn power_state_code(s: PowerState) -> u8 {
    match s {
        PowerState::Off => 0,
        PowerState::On => 1,
    }
}

/// Byte that encodes a restore mode in flash and on the wire.
pub open spec fn restore_mode_code(m: RestoreMode) -> u8 {
    match m {
        RestoreMode::Off => 0,
        RestoreMode::On => 1,
        RestoreMode::LastState => 2,
    }
}

/// The power state a byte stands for, if any.
pub open spec fn power_state_of_byte(b: u8) -> Option<PowerState> {
    if b == 0 {
        Some(PowerState::Off)
    } else if b == 1 {
        Some(PowerState::On)
    } else {
        None
    }
}

/// The restore mode a byte stands for, if any.
pub open spec fn restore_mode_of_byte(b: u8) -> Option<RestoreMode> {
    if b == 0 {
        Some(RestoreMode::Off)
    } else if b == 1 {
        Some(RestoreMode::On)
    } else if b == 2 {
        Some(RestoreMode::LastState)
    } else {
        None
    }
}

impl PowerState {
    /// Decode a power state byte (0 = off, 1 = on).
    pub fn from_byte(b: u8) -> (r: Option<Self>)
        ensures
            r == power_state_of_byte(b),
    {
        match b {
            0 => Some(Self::Off),
            1 => Some(Self::On),
            _ => None,
        }
    }

    /// The byte that encodes this state.
    pub fn as_u8(self) -> (r: u8)
        ensures
            r == power_state_code(self),
    {
        match self {
            Self::Off => 0,
            Self::On => 1,
        }
    }
}

impl RestoreMode {
    /// Decode a restore mode byte (0 = off, 1 = on, 2 = last state).
    pub fn from_byte(b: u8) -> (r: Option<Self>)
        ensures
            r == restore_mode_of_byte(b),
    {
        match b {
            0 => Some(Self::Off),
            1 => Some(Self::On),
            2 => Some(Self::LastState),
            _ => None,
        }
    }

    /// The byte that encodes this mode.
    pub fn as_u8(self) -> (r: u8)
        ensures
            r == restore_mode_code(self),
    {
        match self {
            Self::Off => 0,
            Self::On => 1,
            Self::LastState => 2,
        }
    }
}

/// Encoding and decoding agree: every state and mode survives a round trip
/// through its byte, and a byte that decodes is the code of what it decodes to.
pub proof fn lemma_codes_round_trip(s: PowerState, m: RestoreMode, b: u8)
    ensures
        power_state_of_byte(power_state_code(s)) == Some(s),
        restore_mode_of_byte(restore_mode_code(m)) == Some(m),
        power_state_of_byte(b) matches Some(x) ==> power_state_code(x) == b,
        restore_mode_of_byte(b) matches Some(x) ==> restore_mode_code(x) == b,
{
}

/// One log entry: the settings as they were written.
#[derive(Clone, Copy, PartialEq, Eq, Debug, Structural)]
pub struct FlashEntry {
    pub power_state: PowerState,
    pub restore_mode: RestoreMode,
}

/// The entry used when the sector holds no valid entry.
pub open spec fn default_entry() -> FlashEntry {
    FlashEntry { power_state: PowerState::Off, restore_mode: RestoreMode::Off }
}

impl Default for FlashEntry {
    fn default() -> (r: Self)
        ensures
            r == default_entry(),
    {
        Self { power_state: PowerState::Off, restore_mode: RestoreMode::Off }
    }
}

/// First byte of log slot `i` (its power state byte).
pub open spec fn slot_b0(s: Seq<u8>, i: int) -> u8 {
    s[i * 256]
}

/// Second byte of log slot `i` (its restore mode byte).
pub open spec fn slot_b1(s: Seq<u8>, i: int) -> u8 {
    s[i * 256 + 1]
}

/// The entry stored in slot `i`, if both of its bytes decode.
pub open spec fn decode_slot(s: Seq<u8>, i: int) -> Option<FlashEntry> {
    match (power_state_of_byte(slot_b0(s, i)), restore_mode_of_byte(slot_b1(s, i))) {
        (Some(p), Some(r)) => Some(FlashEntry { power_state: p, restore_mode: r }),
        _ => None,
    }
}

/// The entry of the highest valid slot below `n`, or the default entry.
pub open spec fn last_entry_before(s: Seq<u8>, n: int) -> FlashEntry
    decreases n,
{
    if n <= 0 {
        default_entry()
    } else if decode_slot(s, n - 1) is Some {
        decode_slot(s, n - 1).unwrap()
    } else {
        last_entry_before(s, n - 1)
    }
}

/// The settings a sector holds: its last valid entry, or the default entry.
pub open spec fn last_entry(s: Seq<u8>) -> FlashEntry {
    last_entry_before(s, 16)
}

/// The first slot at or after `i` whose first byte is erased, or 16.
pub open spec fn first_free_from(s: Seq<u8>, i: int) -> int
    decreases 16 - i,
{
    if i >= 16 {
        16
    } else if slot_b0(s, i) == 0xFF {
        i
    } else {
        first_free_from(s, i + 1)
    }
}

/// The first free slot of a sector, or 16 when every slot is used.
pub open spec fn first_free(s: Seq<u8>) -> int {
    first_free_from(s, 0)
}

/// The slot the next entry goes to: the first free slot, or slot 0 of the
/// freshly erased sector when the sector is full.
pub open spec fn write_slot(s: Seq<u8>) -> int {
    if first_free(s) >= 16 {
        0
    } else {
        first_free(s)
    }
}

/// A sector after an erase.
pub open spec fn erased_sector() -> Seq<u8> {
    Seq::new(4096, |i: int| 0xFFu8)
}

/// The page programmed for an entry: its two bytes, the rest left erased.
pub open spec fn entry_page(e: FlashEntry) -> Seq<u8> {
    Seq::new(
        256,
        |i: int|
            if i == 0 {
                power_state_code(e.power_state)
            } else if i == 1 {
                restore_mode_code(e.restore_mode)
            } else {
                0xFFu8
            },
    )
}

/// NOR programming: each programmed byte becomes the AND of what it held and
/// the new data (bits can only be cleared); other bytes are unchanged.
pub open spec fn nor_program(mem: Seq<u8>, off: int, data: Seq<u8>) -> Seq<u8> {
    Seq::new(
        mem.len(),
        |a: int| if off <= a < off + data.len() { mem[a] & data[a - off] } else { mem[a] },
    )
}

/// The sector after the store appends entry `e` to it.
pub open spec fn sector_after_write(s: Seq<u8>, e: FlashEntry) -> Seq<u8> {
    let base = if first_free(s) >= 16 { erased_sector() } else { s };
    nor_program(base, write_slot(s) * 256, entry_page(e))
}

/// A sector whose log is in the shape the store keeps it in: once a slot's
/// first byte is erased, the first two bytes of it and of every later slot are.
pub open spec fn sector_well_formed(s: Seq<u8>) -> bool {
    &&& s.len() == 4096
    &&& forall|i: int, j: int|
        #![trigger slot_b0(s, i), slot_b0(s, j)]
        0 <= i <= j < 16 && slot_b0(s, i) == 0xFF ==> slot_b0(s, j) == 0xFF && slot_b1(s, j)
            == 0xFF
}

/// The flash operations that append one entry: erase the settings sector
/// first if `erase_first`, then program `page` at flash offset `offset`.
pub struct SectorWrite {
    pub erase_first: bool,
    pub offset: u32,
    pub page: Vec<u8>,
}

/// `w` is exactly the flash work that turns sector `s` into
/// `sector_after_write(s, e)`.
pub open spec fn describes_write(w: SectorWrite, s: Seq<u8>, e: FlashEntry) -> bool {
    &&& w.erase_first == (first_free(s) >= 16)
    &&& w.offset == FLASH_TARGET_OFFSET + write_slot(s) * 256
    &&& w.page@ == entry_page(e)
}

/// Flash store for persistent state.
pub struct FlashStore {
    sector: Vec<u8>,
    current_entry: FlashEntry,
}

impl FlashStore {
    /// The sector image has the size of a flash sector.
    pub closed spec fn wf(&self) -> bool {
        self.sector@.len() == 4096
    }

    /// Image of the settings sector as the store last left it.
    pub closed spec fn sector(&self) -> Seq<u8> {
        self.sector@
    }

    /// The settings currently in effect.
    pub closed spec fn entry(&self) -> FlashEntry {
        self.current_entry
    }

    /// Initialize the store from the contents of the settings sector, taking
    /// the last valid entry (or the default entry when there is none).
    pub fn new(sector: Vec<u8>) -> (r: Self)
        requires
            sector@.len() == FLASH_SECTOR_SIZE,
        ensures
            r.wf(),
            r.sector() == sector@,
            r.entry() == last_entry(sector@),
    {
        let mut store = Self { sector, current_entry: FlashEntry::default() };
        let entry = store.read_last_entry();
        store.current_entry = entry;
        store
    }

    /// Read the last valid entry of the sector, scanning backwards.
    pub fn read_last_entry(&self) -> (r: FlashEntry)
        requires
            self.wf(),
        ensures
            r == last_entry(self.sector()),
    {
        let mut i: usize = ENTRIES_PER_SECTOR;
        while i > 0
            invariant
                i <= 16,
                self.sector@.len() == 4096,
                last_entry(self.sector@) == last_entry_before(self.sector@, i as int),
            decreases i,
        {
            i = i - 1;
            let offset = i * FLASH_PAGE_SIZE;
            let b0 = self.sector[offset];
            let b1 = self.sector[offset + 1];
            if b0 != INVALID_BYTE {
                match (PowerState::from_byte(b0), RestoreMode::from_byte(b1)) {
                    (Some(power_state), Some(restore_mode)) => {
                        return FlashEntry { power_state, restore_mode };
                    },
                    _ => {},
                }
            }
        }
        FlashEntry::default()
    }

    /// Index of the first free slot, or 16 when the sector is full.
    fn next_free_slot(&self) -> (r: usize)
        requires
            self.wf(),
        ensures
            r == first_free(self.sector@),
    {
        let mut i: usize = 0;
        while i < ENTRIES_PER_SECTOR
            invariant
                i <= 16,
                self.sector@.len() == 4096,
                first_free(self.sector@) == first_free_from(self.sector@, i as int),
            decreases 16 - i,
        {
            if self.sector[i * FLASH_PAGE_SIZE] == INVALID_BYTE {
                return i;
            }
            i = i + 1;
        }
        i
    }

    /// Append an entry to the log: erase the sector if it is full, then
    /// program the entry's page into the first free slot.
    pub fn write_entry(&mut self, power_state: PowerState, restore_mode: RestoreMode) -> (w:
        SectorWrite)
        requires
            old(self).wf(),
        ensures
            final(self).wf(),
            final(self).sector() == sector_after_write(
                old(self).sector(),
                FlashEntry { power_state, restore_mode },
            ),
            final(self).entry() == old(self).entry(),
            describes_write(w, old(self).sector(), FlashEntry { power_state, restore_mode }),
    {
        let ghost old_sector = self.sector@;
        let mut entry_index = self.next_free_slot();
        let erase_first = entry_index >= ENTRIES_PER_SECTOR;
        // Sector full - erase and reset
        if erase_first {
            self.sector = vec![INVALID_BYTE; FLASH_SECTOR_SIZE];
            entry_index = 0;
        }
        // One flash page per entry
        let mut write_buf: Vec<u8> = vec![INVALID_BYTE; FLASH_PAGE_SIZE];
        write_buf.set(0, power_state.as_u8());
        write_buf.set(1, restore_mode.as_u8());
        let offset = entry_index * FLASH_PAGE_SIZE;
        let ghost base = self.sector@;
        program_page(&mut self.sector, offset, &write_buf);
        proof {
            let e = FlashEntry { power_state, restore_mode };
            assert(base == (if first_free(old_sector) >= 16 { erased_sector() } else { old_sector }));
            assert(write_buf@ =~= entry_page(e));
        }
        SectorWrite {
            erase_first,
            offset: FLASH_TARGET_OFFSET + (offset as u32),
            page: write_buf,
        }
    }

    /// Current power state.
    pub fn power_state(&self) -> (r: PowerState)
        ensures
            r == self.entry().power_state,
    {
        self.current_entry.power_state
    }

    /// Set the power state and persist it, but only on an actual change.
    /// Returns the flash work that persists it.
    pub fn set_power_state(&mut self, state: PowerState) -> (w: Option<SectorWrite>)
        requires
            old(self).wf(),
        ensures
            final(self).wf(),
            old(self).entry().power_state == state ==> {
                &&& w is None
                &&& final(self).entry() == old(self).entry()
                &&& final(self).sector() == old(self).sector()
            },
            old(self).entry().power_state != state ==> {
                let e = FlashEntry {
                    power_state: state,
                    restore_mode: old(self).entry().restore_mode,
                };
                &&& final(self).entry() == e
                &&& final(self).sector() == sector_after_write(old(self).sector(), e)
                &&& w matches Some(x) && describes_write(x, old(self).sector(), e)
            },
    {
        if self.current_entry.power_state != state {
            self.current_entry = FlashEntry {
                power_state: state,
                restore_mode: self.current_entry.restore_mode,
            };
            Some(self.persist())
        } else {
            None
        }
    }

    /// Current restore mode.
    pub fn restore_mode(&self) -> (r: RestoreMode)
        ensures
            r == self.entry().restore_mode,
    {
        self.current_entry.restore_mode
    }

    /// Set the restore mode and persist it, but only on an actual change.
    /// Returns the flash work that persists it.
    pub fn set_restore_mode(&mut self, mode: RestoreMode) -> (w: Option<SectorWrite>)
        requires
            old(self).wf(),
        ensures
            final(self).wf(),
            old(self).entry().restore_mode == mode ==> {
                &&& w is None
                &&& final(self).entry() == old(self).entry()
                &&& final(self).sector() == old(self).sector()
            },
            old(self).entry().restore_mode != mode ==> {
                let e = FlashEntry {
                    power_state: old(self).entry().power_state,
                    restore_mode: mode,
                };
                &&& final(self).entry() == e
                &&& final(self).sector() == sector_after_write(old(self).sector(), e)
                &&& w matches Some(x) && describes_write(x, old(self).sector(), e)
            },
    {
        if self.current_entry.restore_mode != mode {
            self.current_entry = FlashEntry {
                power_state: self.current_entry.power_state,
                restore_mode: mode,
            };
            Some(self.persist())
        } else {
            None
        }
    }

    /// Persist the current in-memory entry.
    fn persist(&mut self) -> (w: SectorWrite)
        requires
            old(self).wf(),
        ensures
            final(self).wf(),
            final(self).entry() == old(self).entry(),
            final(self).sector() == sector_after_write(old(self).sector(), old(self).entry()),
            describes_write(w, old(self).sector(), old(self).entry()),
    {
        let entry = self.current_entry;
        self.write_entry(entry.power_state, entry.restore_mode)
    }
}

/// Every byte survives an AND with the erased value.
proof fn lemma_and_erased(b: u8)
    ensures
        0xFFu8 & b == b,
        b & 0xFFu8 == b,
{
    assert(0xFFu8 & b == b && b & 0xFFu8 == b) by (bit_vector);
}

/// What `first_free_from` finds: slots from `i` up to it are used, and it is
/// free unless it is 16.
proof fn lemma_first_free_from(s: Seq<u8>, i: int)
    requires
        0 <= i <= 16,
    ensures
        i <= first_free_from(s, i) <= 16,
        forall|j: int| i <= j < first_free_from(s, i) ==> slot_b0(s, j) != 0xFF,
        first_free_from(s, i) < 16 ==> slot_b0(s, first_free_from(s, i)) == 0xFF,
    decreases 16 - i,
{
    if i < 16 && slot_b0(s, i) != 0xFF {
        lemma_first_free_from(s, i + 1);
    }
}

/// The first free slot: every slot below it is in use, and it is free itself
/// unless the sector is full.
pub proof fn lemma_first_free(s: Seq<u8>)
    ensures
        0 <= first_free(s) <= 16,
        forall|j: int| 0 <= j < first_free(s) ==> slot_b0(s, j) != 0xFF,
        first_free(s) < 16 ==> slot_b0(s, first_free(s)) == 0xFF,
        first_free(s) == 16 <==> forall|j: int| 0 <= j < 16 ==> slot_b0(s, j) != 0xFF,
{
    lemma_first_free_from(s, 0);
}

/// Slots that hold no valid entry do not change which entry is last.
proof fn lemma_last_entry_skips_invalid(s: Seq<u8>, m: int, n: int)
    requires
        0 <= m <= n,
        forall|j: int| m <= j < n ==> decode_slot(s, j) is None,
    ensures
        last_entry_before(s, n) == last_entry_before(s, m),
    decreases n - m,
{
    if n > m {
        lemma_last_entry_skips_invalid(s, m, n - 1);
    }
}

/// Programming an entry into the first free slot of a well-formed sector
/// keeps it well formed and makes that entry the last one.
proof fn lemma_program_first_free(s: Seq<u8>, e: FlashEntry)
    requires
        sector_well_formed(s),
        first_free(s) < 16,
    ensures
        sector_well_formed(nor_program(s, first_free(s) * 256, entry_page(e))),
        last_entry(nor_program(s, first_free(s) * 256, entry_page(e))) == e,
{
    let k = first_free(s);
    let t = nor_program(s, k * 256, entry_page(e));
    lemma_first_free(s);
    assert(slot_b0(s, k) == 0xFF);
    assert(slot_b1(s, k) == 0xFF);
    assert forall|i: int| 0 <= i < 16 && i != k implies slot_b0(t, i) == slot_b0(s, i) && slot_b1(
        t,
        i,
    ) == slot_b1(s, i) by {
        if i < k {
            assert(i * 256 + 256 <= k * 256);
        } else {
            assert(k * 256 + 256 <= i * 256);
        }
    }
    lemma_and_erased(power_state_code(e.power_state));
    lemma_and_erased(restore_mode_code(e.restore_mode));
    assert(slot_b0(t, k) == power_state_code(e.power_state));
    assert(slot_b1(t, k) == restore_mode_code(e.restore_mode));
    lemma_codes_round_trip(e.power_state, e.restore_mode, 0);
    assert(decode_slot(t, k) == Some(e));
    assert forall|j: int| k + 1 <= j < 16 implies decode_slot(t, j) is None by {
        assert(slot_b0(s, k) == 0xFF && slot_b0(s, j) == 0xFF);
    }
    lemma_last_entry_skips_invalid(t, k + 1, 16);
    assert forall|i: int, j: int|
        #![trigger slot_b0(t, i), slot_b0(t, j)]
        0 <= i <= j < 16 && slot_b0(t, i) == 0xFF implies slot_b0(t, j) == 0xFF && slot_b1(t, j)
        == 0xFF by {
        assert(i != k);
        if i < k {
            assert(slot_b0(s, i) != 0xFF);
        } else {
            assert(slot_b0(s, i) == 0xFF && slot_b0(s, j) == 0xFF);
        }
    }
}

/// An erased sector is well formed, has slot 0 free, and reads as the
/// default settings (power off, restore mode off).
pub proof fn lemma_erased_sector()
    ensures
        sector_well_formed(erased_sector()),
        first_free(erased_sector()) == 0,
        last_entry(erased_sector()) == default_entry(),
{
    let s = erased_sector();
    assert(slot_b0(s, 0) == 0xFF);
    assert forall|j: int| 0 <= j < 16 implies decode_slot(s, j) is None by {
        assert(slot_b0(s, j) == 0xFF);
    }
    lemma_last_entry_skips_invalid(s, 0, 16);
}

/// Persistence: after the store appends an entry to a well-formed sector, a
/// store started from the resulting sector (after a power cycle) reads back
/// exactly that entry, and the sector is still well formed. This holds also
/// when the sector was full and had to be erased first.
pub proof fn lemma_reload_after_write(s: Seq<u8>, e: FlashEntry)
    requires
        sector_well_formed(s),
    ensures
        sector_well_formed(sector_after_write(s, e)),
        last_entry(sector_after_write(s, e)) == e,
{
    lemma_first_free(s);
    if first_free(s) >= 16 {
        lemma_erased_sector();
        lemma_program_first_free(erased_sector(), e);
    } else {
        lemma_program_first_free(s, e);
    }
}

/// The shape of a sector the store has only ever appended to: the used
/// slots (those before the first free one) all hold valid entries, and
/// everything from the first free slot on is erased.
pub open spec fn sector_log_shape(s: Seq<u8>) -> bool {
    &&& s.len() == 4096
    &&& forall|i: int| 0 <= i < first_free(s) ==> #[trigger] decode_slot(s, i) is Some
    &&& forall|a: int| first_free(s) * 256 <= a < 4096 ==> #[trigger] s[a] == 0xFF
}

/// The first free slot is `k` when the slots below it are used and slot `k`
/// is free (or `k` is 16).
proof fn lemma_first_free_is(s: Seq<u8>, i: int, k: int)
    requires
        0 <= i <= k <= 16,
        forall|j: int| i <= j < k ==> slot_b0(s, j) != 0xFF,
        k < 16 ==> slot_b0(s, k) == 0xFF,
    ensures
        first_free_from(s, i) == k,
    decreases k - i,
{
    if i < k {
        lemma_first_free_is(s, i + 1, k);
    }
}

/// A sector in log shape is well formed.
pub proof fn lemma_log_shape_well_formed(s: Seq<u8>)
    requires
        sector_log_shape(s),
    ensures
        sector_well_formed(s),
{
    lemma_first_free(s);
    let k = first_free(s);
    assert forall|i: int, j: int|
        #![trigger slot_b0(s, i), slot_b0(s, j)]
        0 <= i <= j < 16 && slot_b0(s, i) == 0xFF implies slot_b0(s, j) == 0xFF && slot_b1(s, j)
        == 0xFF by {
        if i < k {
            assert(slot_b0(s, i) != 0xFF);
        }
        assert(k * 256 <= j * 256);
        assert(s[j * 256] == 0xFF);
        assert(s[j * 256 + 1] == 0xFF);
    }
}

/// Appending to the first free slot of a sector in log shape keeps the shape.
proof fn lemma_program_first_free_shape(s: Seq<u8>, e: FlashEntry)
    requires
        sector_log_shape(s),
        first_free(s) < 16,
    ensures
        sector_log_shape(nor_program(s, first_free(s) * 256, entry_page(e))),
{
    let k = first_free(s);
    let t = nor_program(s, k * 256, entry_page(e));
    lemma_first_free(s);
    lemma_log_shape_well_formed(s);
    lemma_program_first_free(s, e);
    assert forall|i: int| 0 <= i < k implies slot_b0(t, i) == slot_b0(s, i) && slot_b1(t, i)
        == slot_b1(s, i) by {
        assert(i * 256 + 256 <= k * 256);
    }
    lemma_and_erased(power_state_code(e.power_state));
    lemma_and_erased(restore_mode_code(e.restore_mode));
    assert(slot_b0(t, k) == power_state_code(e.power_state));
    assert(slot_b1(t, k) == restore_mode_code(e.restore_mode));
    assert(decode_slot(t, k) == Some(e)) by {
        lemma_codes_round_trip(e.power_state, e.restore_mode, 0);
    }
    if k + 1 < 16 {
        assert(slot_b0(t, k + 1) == 0xFF) by {
            assert(s[(k + 1) * 256] == 0xFF);
        }
    }
    lemma_first_free_is(t, 0, k + 1);
    assert forall|i: int| 0 <= i < first_free(t) implies #[trigger] decode_slot(t, i) is Some by {
        if i < k {
            assert(decode_slot(s, i) is Some);
        }
    }
    assert forall|a: int| first_free(t) * 256 <= a < 4096 implies #[trigger] t[a] == 0xFF by {
        assert(s[a] == 0xFF);
    }
}

/// The log shape survives every append, also when the full sector is erased
/// first, and the sector then reads back the entry appended.
pub proof fn lemma_log_shape_after_write(s: Seq<u8>, e: FlashEntry)
    requires
        sector_log_shape(s),
    ensures
        sector_log_shape(sector_after_write(s, e)),
        last_entry(sector_after_write(s, e)) == e,
{
    lemma_log_shape_well_formed(s);
    lemma_reload_after_write(s, e);
    lemma_first_free(s);
    if first_free(s) >= 16 {
        let z = erased_sector();
        lemma_erased_sector();
        assert(sector_log_shape(z));
        lemma_program_first_free_shape(z, e);
    } else {
        lemma_program_first_free_shape(s, e);
    }
}

/// The store keeps its sector in log shape: if the sector is in log shape
/// and the settings in effect are the ones it reads as, both still hold after
/// a setter has run.
pub proof fn lemma_store_shape_after_set(before: &FlashStore, after: &FlashStore)
    requires
        before.wf(),
        sector_log_shape(before.sector()),
        before.entry() == last_entry(before.sector()),
        after.sector() == before.sector() || after.sector() == sector_after_write(
            before.sector(),
            after.entry(),
        ),
        after.sector() == before.sector() ==> after.entry() == before.entry(),
    ensures
        sector_log_shape(after.sector()),
        after.entry() == last_entry(after.sector()),
{
    if after.sector() != before.sector() {
        lemma_log_shape_after_write(before.sector(), after.entry());
    }
}

/// The sector after appending a series of entries in order.
pub open spec fn sector_after_writes(s: Seq<u8>, es: Seq<FlashEntry>) -> Seq<u8>
    decreases es.len(),
{
    if es.len() == 0 {
        s
    } else {
        sector_after_write(sector_after_writes(s, es.drop_last()), es.last())
    }
}

/// Any number of appended entries (wrapping around the sector as often as
/// needed) leave a well-formed sector that reads back the last entry written.
pub proof fn lemma_reload_after_writes(s: Seq<u8>, es: Seq<FlashEntry>)
    requires
        sector_well_formed(s),
        es.len() > 0,
    ensures
        sector_well_formed(sector_after_writes(s, es)),
        last_entry(sector_after_writes(s, es)) == es.last(),
    decreases es.len(),
{
    if es.len() > 1 {
        lemma_reload_after_writes(s, es.drop_last());
    }
    lemma_reload_after_write(sector_after_writes(s, es.drop_last()), es.last());
}

/// The store stays in step with its sector: if the settings in effect are the
/// ones the well-formed sector reads as, that is still so after a setter runs,
/// so restarting from the sector restores the settings last set.
pub proof fn lemma_store_in_sync_after_set(before: &FlashStore, after: &FlashStore)
    requires
        before.wf(),
        sector_well_formed(before.sector()),
        before.entry() == last_entry(before.sector()),
        after.sector() == before.sector() || after.sector() == sector_after_write(
            before.sector(),
            after.entry(),
        ),
        after.sector() == before.sector() ==> after.entry() == before.entry(),
    ensures
        sector_well_formed(after.sector()),
        after.entry() == last_entry(after.sector()),
{
    if after.sector() != before.sector() {
        lemma_reload_after_write(before.sector(), after.entry());
    }
}

/// Program `page` into `sector` at `start`, NOR style.
fn program_page(sector: &mut Vec<u8>, start: usize, page: &Vec<u8>)
    requires
        start + page@.len() <= old(sector)@.len(),
    ensures
        final(sector)@ == nor_program(old(sector)@, start as int, page@),
{
    let n = sector.len();
    let mut j: usize = 0;
    while j < page.len()
        invariant
            n == sector@.len(),
            j <= page@.len(),
            start + page@.len() <= sector@.len(),
            sector@.len() == old(sector)@.len(),
            forall|a: int|
                0 <= a < sector@.len() ==> #[trigger] sector@[a] == (if start <= a < start + j {
                    old(sector)@[a] & page@[a - start]
                } else {
                    old(sector)@[a]
                }),
        decreases page@.len() - j,
    {
        let pos = start + j;
        let b = sector[pos] & page[j];
        sector.set(pos, b);
        j = j + 1;
    }
    assert(sector@ =~= nor_program(old(sector)@, start as int, page@));
}

} // verus!
