//! Memory address space of a Game Boy-class machine.
//!
//! A 16-bit bus is routed onto five owned storage regions: video RAM,
//! a switchable external RAM bank, internal work RAM (visible a second
//! time through a partial echo window), sprite attribute memory, and the
//! single interrupt-enable register. Byte, word and double-word accesses
//! decode the address, reject everything unmapped, and compose multi-byte
//! values little-endian.

use vstd::prelude::*;

verus! {

/// Error returned when an address falls outside every mapped region.
#[derive(Clone, Copy, Debug, PartialEq, Eq, Structural)]
pub struct OutOfBounds;

/// The five physical storage regions behind the bus.
#[derive(Clone, Copy, Debug, PartialEq, Eq, Structural)]
pub enum Region {
    Vram,
    Bank,
    Internal,
    Oam,
    InterruptEnable,
}

/// An address is mapped when it falls in one of the declared windows:
/// video RAM (0x8000..=0x9FFF), the switchable bank (0xA000..=0xBFFF),
/// internal RAM (0xC000..=0xDFFF), its echo (0xE000..=0xFDFF), sprite
/// attribute memory (0xFE00..=0xFE9F), or the interrupt-enable register
/// (0xFFFF). Everything else is unmapped and rejected.
pub open spec fn mapped(addr: u16) -> bool {
    (0x8000 <= addr <= 0x9FFF)
    || (0xA000 <= addr <= 0xBFFF)
    || (0xC000 <= addr <= 0xDFFF)
    || (0xE000 <= addr <= 0xFDFF)
    || (0xFE00 <= addr <= 0xFE9F)
    || addr == 0xFFFF
}

/// The physical region a mapped address falls in; the echo window belongs
/// to the internal RAM it aliases.
pub open spec fn region(addr: u16) -> Region {
    if 0x8000 <= addr <= 0x9FFF {
        Region::Vram
    } else if 0xA000 <= addr <= 0xBFFF {
        Region::Bank
    } else if 0xC000 <= addr <= 0xFDFF {
        Region::Internal
    } else if 0xFE00 <= addr <= 0xFE9F {
        Region::Oam
    } else {
        Region::InterruptEnable
    }
}

/// The storage cell a mapped address decodes to, with the cells of all
/// regions numbered consecutively: 0x0000..0x2000 video RAM, 0x2000..0x4000
/// switchable bank, 0x4000..0x6000 internal RAM, 0x6000..0x60A0 OAM, and
/// 0x60A0 the interrupt-enable register. The echo window lands in the
/// internal cells at offset `addr - 0xE000`, so it aliases only the lower
/// 7680 bytes of that region.
pub open spec fn cell(addr: u16) -> int {
    if 0x8000 <= addr <= 0x9FFF {
        addr - 0x8000
    } else if 0xA000 <= addr <= 0xBFFF {
        0x2000 + (addr - 0xA000)
    } else if 0xC000 <= addr <= 0xDFFF {
        0x4000 + (addr - 0xC000)
    } else if 0xE000 <= addr <= 0xFDFF {
        0x4000 + (addr - 0xE000)
    } else if 0xFE00 <= addr <= 0xFE9F {
        0x6000 + (addr - 0xFE00)
    } else {
        0x60A0
    }
}

/// The low-order byte of a word, the one stored first (little-endian).
pub open spec fn word_lo(w: u16) -> u8 {
    (w & 0xFF) as u8
}

/// The high-order byte of a word, stored second.
pub open spec fn word_hi(w: u16) -> u8 {
    ((w >> 8) & 0xFF) as u8
}

/// Little-endian composition of two bytes into a word.
pub open spec fn word_of(lo: u8, hi: u8) -> u16 {
    (lo + 0x100 * hi) as u16
}

/// Byte `k` (0..=3) of a double word, counted from the least significant.
pub open spec fn dword_byte(d: u32, k: int) -> u8 {
    if k == 0 {
        (d & 0xFF) as u8
    } else if k == 1 {
        ((d >> 8) & 0xFF) as u8
    } else if k == 2 {
        ((d >> 16) & 0xFF) as u8
    } else {
        ((d >> 24) & 0xFF) as u8
    }
}

/// Little-endian composition of four bytes into a double word.
pub open spec fn dword_of(b0: u8, b1: u8, b2: u8, b3: u8) -> u32 {
    (b0 + 0x100 * b1 + 0x1_0000 * b2 + 0x100_0000 * b3) as u32
}

/// Bus address arithmetic: `addr + k` wrapped modulo 2^16, the address a
/// caller that steps past 0xFFFF ends up at.
pub open spec fn addr_plus(addr: u16, k: u16) -> u16 {
    ((addr + k) % 0x1_0000) as u16
}

/// The address space: every region owned by value, zeroed at construction.
pub struct Memory {
    vram: [u8; 8192],
    bank: [u8; 8192],
    internal: [u8; 8192],
    oam: [u8; 160],
    ier: u8,
}

impl View for Memory {
    type V = Map<int, u8>;

    /// The abstract state: one byte per storage cell, keyed as `cell` numbers
    /// them.
    closed spec fn view(&self) -> Map<int, u8> {
        Map::new(
            |c: int| 0 <= c <= 0x60A0,
            |c: int|
                if c < 0x2000 {
                    self.vram@[c]
                } else if c < 0x4000 {
                    self.bank@[c - 0x2000]
                } else if c < 0x6000 {
                    self.internal@[c - 0x4000]
                } else if c < 0x60A0 {
                    self.oam@[c - 0x6000]
                } else {
                    self.ier
                },
        )
    }
}

impl Memory {
    /// The byte a mapped address currently holds.
    pub open spec fn spec_read(self, addr: u16) -> u8 {
        self@[cell(addr)]
    }

    /// A fresh address space: every region zero-filled.
    pub fn new() -> (r: Memory)
        ensures
            forall|a: u16| mapped(a) ==> r.spec_read(a) == 0u8,
    {
        Memory {
            vram: [0u8; 8192],
            bank: [0u8; 8192],
            internal: [0u8; 8192],
            oam: [0u8; 160],
            ier: 0u8,
        }
    }

    /// Stores one byte at a mapped address; an unmapped address is rejected
    /// with the state unchanged.
    pub fn write(&mut self, addr: u16, value: u8) -> (r: Result<(), OutOfBounds>)
        ensures
            mapped(addr) ==> r == Ok::<(), OutOfBounds>(()) && final(self)@ == old(self)@.insert(
                cell(addr),
                value,
            ),
            !mapped(addr) ==> r == Err::<(), OutOfBounds>(OutOfBounds)
                && *final(self) == *old(self),
    {
        if 0x8000 <= addr && addr <= 0x9FFF {
            self.vram[(addr - 0x8000) as usize] = value;
            Ok(())
        } else if 0xA000 <= addr && addr <= 0xBFFF {
            self.bank[(addr - 0xA000) as usize] = value;
            Ok(())
        } else if 0xC000 <= addr && addr <= 0xDFFF {
            self.internal[(addr - 0xC000) as usize] = value;
            Ok(())
        } else if 0xE000 <= addr && addr <= 0xFDFF {
            self.internal[(addr - 0xE000) as usize] = value;
            Ok(())
        } else if 0xFE00 <= addr && addr <= 0xFE9F {
            self.oam[(addr - 0xFE00) as usize] = value;
            Ok(())
        } else if addr == 0xFFFF {
            self.ier = value;
            Ok(())
        } else {
            Err(OutOfBounds)
        }
    }

    /// Loads the byte at a mapped address; an unmapped address is rejected.
    pub fn read(&self, addr: u16) -> (r: Result<u8, OutOfBounds>)
        ensures
            mapped(addr) ==> r == Ok::<u8, OutOfBounds>(self.spec_read(addr)),
            !mapped(addr) ==> r == Err::<u8, OutOfBounds>(OutOfBounds),
    {
        if 0x8000 <= addr && addr <= 0x9FFF {
            Ok(self.vram[(addr - 0x8000) as usize])
        } else if 0xA000 <= addr && addr <= 0xBFFF {
            Ok(self.bank[(addr - 0xA000) as usize])
        } else if 0xC000 <= addr && addr <= 0xDFFF {
            Ok(self.internal[(addr - 0xC000) as usize])
        } else if 0xE000 <= addr && addr <= 0xFDFF {
            Ok(self.internal[(addr - 0xE000) as usize])
        } else if 0xFE00 <= addr && addr <= 0xFE9F {
            Ok(self.oam[(addr - 0xFE00) as usize])
        } else if addr == 0xFFFF {
            Ok(self.ier)
        } else {
            Err(OutOfBounds)
        }
    }

    /// Stores a word little-endian: the low byte at `addr`, the high byte at
    /// `addr + 1` (wrapping modulo 2^16). The two byte writes happen in that
    /// order with no rollback: when only `addr` is mapped, the low byte has
    /// already landed by the time the high byte is rejected.
    pub fn write_word(&mut self, addr: u16, word: u16) -> (r: Result<(), OutOfBounds>)
        ensures
            mapped(addr) && mapped(addr_plus(addr, 1)) ==> r == Ok::<(), OutOfBounds>(())
                && final(self)@ == old(self)@.insert(cell(addr), word_lo(word)).insert(
                cell(addr_plus(addr, 1)),
                word_hi(word),
            ),
            mapped(addr) && !mapped(addr_plus(addr, 1)) ==> r == Err::<(), OutOfBounds>(OutOfBounds)
                && final(self)@ == old(self)@.insert(cell(addr), word_lo(word)),
            !mapped(addr) ==> r == Err::<(), OutOfBounds>(OutOfBounds)
                && *final(self) == *old(self),
    {
        let lo: u8 = (word & 0xFF) as u8;
        let hi: u8 = ((word >> 8) & 0xFF) as u8;
        match self.write(addr, lo) {
            Ok(()) => {},
            Err(e) => {
                return Err(e);
            },
        }
        self.write(addr.wrapping_add(1), hi)
    }

    /// Stores a double word little-endian at `addr..addr + 3` (wrapping
    /// modulo 2^16), least-significant byte first, one byte at a time in
    /// address order with no rollback: the bytes before the first unmapped
    /// address have already landed when that address is rejected.
    pub fn write_dword(&mut self, addr: u16, dword: u32) -> (r: Result<(), OutOfBounds>)
        ensures
            mapped(addr) && mapped(addr_plus(addr, 1)) && mapped(addr_plus(addr, 2)) && mapped(
                addr_plus(addr, 3),
            ) ==> r == Ok::<(), OutOfBounds>(()) && final(self)@ == old(self)@.insert(
                cell(addr),
                dword_byte(dword, 0),
            ).insert(cell(addr_plus(addr, 1)), dword_byte(dword, 1)).insert(
                cell(addr_plus(addr, 2)),
                dword_byte(dword, 2),
            ).insert(cell(addr_plus(addr, 3)), dword_byte(dword, 3)),
            mapped(addr) && mapped(addr_plus(addr, 1)) && mapped(addr_plus(addr, 2)) && !mapped(
                addr_plus(addr, 3),
            ) ==> r == Err::<(), OutOfBounds>(OutOfBounds) && final(self)@ == old(self)@.insert(
                cell(addr),
                dword_byte(dword, 0),
            ).insert(cell(addr_plus(addr, 1)), dword_byte(dword, 1)).insert(
                cell(addr_plus(addr, 2)),
                dword_byte(dword, 2),
            ),
            mapped(addr) && mapped(addr_plus(addr, 1)) && !mapped(addr_plus(addr, 2)) ==> r
                == Err::<(), OutOfBounds>(OutOfBounds) && final(self)@ == old(self)@.insert(
                cell(addr),
                dword_byte(dword, 0),
            ).insert(cell(addr_plus(addr, 1)), dword_byte(dword, 1)),
            mapped(addr) && !mapped(addr_plus(addr, 1)) ==> r == Err::<(), OutOfBounds>(OutOfBounds)
                && final(self)@ == old(self)@.insert(cell(addr), dword_byte(dword, 0)),
            !mapped(addr) ==> r == Err::<(), OutOfBounds>(OutOfBounds)
                && *final(self) == *old(self),
    {
        let b0: u8 = (dword & 0xFF) as u8;
        let b1: u8 = ((dword >> 8) & 0xFF) as u8;
        let b2: u8 = ((dword >> 16) & 0xFF) as u8;
        let b3: u8 = ((dword >> 24) & 0xFF) as u8;
        match self.write(addr, b0) {
            Ok(()) => {},
            Err(e) => {
                return Err(e);
            },
        }
        match self.write(addr.wrapping_add(1), b1) {
            Ok(()) => {},
            Err(e) => {
                return Err(e);
            },
        }
        match self.write(addr.wrapping_add(2), b2) {
            Ok(()) => {},
            Err(e) => {
                return Err(e);
            },
        }
        self.write(addr.wrapping_add(3), b3)
    }

    /// Loads a word little-endian from `addr` and `addr + 1` (wrapping modulo
    /// 2^16): low byte plus high byte times 0x100. Rejected as soon as either
    /// address is unmapped.
    pub fn read_word(&self, addr: u16) -> (r: Result<u16, OutOfBounds>)
        ensures
            mapped(addr) && mapped(addr_plus(addr, 1)) ==> r == Ok::<u16, OutOfBounds>(
                word_of(self.spec_read(addr), self.spec_read(addr_plus(addr, 1))),
            ),
            !(mapped(addr) && mapped(addr_plus(addr, 1))) ==> r == Err::<u16, OutOfBounds>(
                OutOfBounds,
            ),
    {
        let lo: u8 = match self.read(addr) {
            Ok(b) => b,
            Err(e) => {
                return Err(e);
            },
        };
        let hi: u8 = match self.read(addr.wrapping_add(1)) {
            Ok(b) => b,
            Err(e) => {
                return Err(e);
            },
        };
        Ok(lo as u16 + 0x100 * hi as u16)
    }

    /// Loads a double word little-endian from `addr..addr + 3` (wrapping
    /// modulo 2^16): byte k weighted by 0x100^k. Rejected as soon as any of
    /// the four addresses is unmapped.
    pub fn read_dword(&self, addr: u16) -> (r: Result<u32, OutOfBounds>)
        ensures
            mapped(addr) && mapped(addr_plus(addr, 1)) && mapped(addr_plus(addr, 2)) && mapped(
                addr_plus(addr, 3),
            ) ==> r == Ok::<u32, OutOfBounds>(
                dword_of(
                    self.spec_read(addr),
                    self.spec_read(addr_plus(addr, 1)),
                    self.spec_read(addr_plus(addr, 2)),
                    self.spec_read(addr_plus(addr, 3)),
                ),
            ),
            !(mapped(addr) && mapped(addr_plus(addr, 1)) && mapped(addr_plus(addr, 2)) && mapped(
                addr_plus(addr, 3),
            )) ==> r == Err::<u32, OutOfBounds>(OutOfBounds),
    {
        let b0: u8 = match self.read(addr) {
            Ok(b) => b,
            Err(e) => {
                return Err(e);
            },
        };
        let b1: u8 = match self.read(addr.wrapping_add(1)) {
            Ok(b) => b,
            Err(e) => {
                return Err(e);
            },
        };
        let b2: u8 = match self.read(addr.wrapping_add(2)) {
            Ok(b) => b,
            Err(e) => {
                return Err(e);
            },
        };
        let b3: u8 = match self.read(addr.wrapping_add(3)) {
            Ok(b) => b,
            Err(e) => {
                return Err(e);
            },
        };
        Ok(b0 as u32 + 0x100 * b1 as u32 + 0x1_0000 * b2 as u32 + 0x100_0000 * b3 as u32)
    }
}

/// Splitting a word into its little-endian bytes and composing them again
/// gives the word back.
pub proof fn lemma_word_bytes_compose(w: u16)
    ensures
        word_of(word_lo(w), word_hi(w)) == w,
{
    assert(((w & 0xFF) as u8) + 0x100 * (((w >> 8) & 0xFF) as u8) == w) by (bit_vector);
}

/// Splitting a double word into its little-endian bytes and composing them
/// again gives the double word back.
pub proof fn lemma_dword_bytes_compose(d: u32)
    ensures
        dword_of(dword_byte(d, 0), dword_byte(d, 1), dword_byte(d, 2), dword_byte(d, 3)) == d,
{
    assert(((d & 0xFF) as u8) + 0x100 * (((d >> 8) & 0xFF) as u8) + 0x1_0000 * (((d >> 16)
        & 0xFF) as u8) + 0x100_0000 * (((d >> 24) & 0xFF) as u8) == d) by (bit_vector);
}

/// Address decoding is injective up to the echo alias: two distinct mapped
/// addresses share a storage cell only when they are an internal-RAM /
/// echo-window pair 0x2000 apart, with the internal offset below 7680.
pub proof fn lemma_cell_injective(a: u16, b: u16)
    requires
        mapped(a),
        mapped(b),
        a != b,
        cell(a) == cell(b),
    ensures
        (0xC000 <= a <= 0xDDFF && b == a + 0x2000) || (0xC000 <= b <= 0xDDFF && a == b + 0x2000),
{
}

/// Writing a byte at a mapped address and then reading the same address
/// yields that byte.
pub proof fn lemma_write_then_read(m0: Memory, m1: Memory, addr: u16, value: u8)
    requires
        mapped(addr),
        m1@ == m0@.insert(cell(addr), value),
    ensures
        m1.spec_read(addr) == value,
{
}

/// A byte write leaves every mapped address that decodes to a different
/// storage cell unchanged.
pub proof fn lemma_write_preserves_others(m0: Memory, m1: Memory, addr: u16, other: u16, value: u8)
    requires
        mapped(addr),
        mapped(other),
        cell(other) != cell(addr),
        m1@ == m0@.insert(cell(addr), value),
    ensures
        m1.spec_read(other) == m0.spec_read(other),
{
}

/// Echo mirror: a byte written through the internal-RAM window at
/// `0xC000 + k`, for `k < 7680`, is read back through the echo window at
/// `0xE000 + k`.
pub proof fn lemma_echo_mirror(m0: Memory, m1: Memory, k: u16, value: u8)
    requires
        k < 7680,
        m1@ == m0@.insert(cell((0xC000 + k) as u16), value),
    ensures
        m1.spec_read((0xE000 + k) as u16) == value,
{
}

/// The internal-RAM tail is not mirrored: a write at `0xC000 + k` with
/// `7680 <= k < 8192` leaves every byte seen through the echo window
/// unchanged.
pub proof fn lemma_echo_tail_not_mirrored(m0: Memory, m1: Memory, k: u16, a: u16, value: u8)
    requires
        7680 <= k < 8192,
        0xE000 <= a <= 0xFDFF,
        m1@ == m0@.insert(cell((0xC000 + k) as u16), value),
    ensures
        m1.spec_read(a) == m0.spec_read(a),
{
}

/// Region disjointness: a byte write to an address of one physical region
/// leaves every address of a different region unchanged.
pub proof fn lemma_regions_disjoint(m0: Memory, m1: Memory, a: u16, b: u16, value: u8)
    requires
        mapped(a),
        mapped(b),
        region(a) != region(b),
        m1@ == m0@.insert(cell(a), value),
    ensures
        m1.spec_read(b) == m0.spec_read(b),
{
}

/// Word round trip: after a word is stored little-endian at two mapped
/// addresses `addr` and `addr + 1`, reading a word back from `addr`
/// recomposes it.
pub proof fn lemma_word_round_trip(m0: Memory, m1: Memory, addr: u16, w: u16)
    requires
        mapped(addr),
        mapped(addr_plus(addr, 1)),
        m1@ == m0@.insert(cell(addr), word_lo(w)).insert(cell(addr_plus(addr, 1)), word_hi(w)),
    ensures
        word_of(m1.spec_read(addr), m1.spec_read(addr_plus(addr, 1))) == w,
{
    let a1 = addr_plus(addr, 1);
    assert(a1 == addr + 1) by {
        if addr == 0xFFFF {
            assert(addr_plus(0xFFFF, 1) == 0);
        }
    }
    if cell(addr) == cell(a1) {
        lemma_cell_injective(addr, a1);
    }
    lemma_word_bytes_compose(w);
}

/// Double-word round trip: after a double word is stored little-endian at
/// four mapped addresses `addr..addr + 3`, reading a double word back from
/// `addr` recomposes it.
pub proof fn lemma_dword_round_trip(m0: Memory, m1: Memory, addr: u16, d: u32)
    requires
        mapped(addr),
        mapped(addr_plus(addr, 1)),
        mapped(addr_plus(addr, 2)),
        mapped(addr_plus(addr, 3)),
        m1@ == m0@.insert(cell(addr), dword_byte(d, 0)).insert(
            cell(addr_plus(addr, 1)),
            dword_byte(d, 1),
        ).insert(cell(addr_plus(addr, 2)), dword_byte(d, 2)).insert(
            cell(addr_plus(addr, 3)),
            dword_byte(d, 3),
        ),
    ensures
        dword_of(
            m1.spec_read(addr),
            m1.spec_read(addr_plus(addr, 1)),
            m1.spec_read(addr_plus(addr, 2)),
            m1.spec_read(addr_plus(addr, 3)),
        ) == d,
{
    let a1 = addr_plus(addr, 1);
    let a2 = addr_plus(addr, 2);
    let a3 = addr_plus(addr, 3);
    assert(a1 == addr + 1 && a2 == addr + 2 && a3 == addr + 3) by {
        if addr >= 0xFFFD {
            assert(!mapped(addr_plus(addr, 3)) || !mapped(addr_plus(addr, 2)) || !mapped(
                addr_plus(addr, 1),
            ));
        }
    }
    if cell(addr) == cell(a1) {
        lemma_cell_injective(addr, a1);
    }
    if cell(addr) == cell(a2) {
        lemma_cell_injective(addr, a2);
    }
    if cell(addr) == cell(a3) {
        lemma_cell_injective(addr, a3);
    }
    if cell(a1) == cell(a2) {
        lemma_cell_injective(a1, a2);
    }
    if cell(a1) == cell(a3) {
        lemma_cell_injective(a1, a3);
    }
    if cell(a2) == cell(a3) {
        lemma_cell_injective(a2, a3);
    }
    lemma_dword_bytes_compose(d);
}

} // verus!
