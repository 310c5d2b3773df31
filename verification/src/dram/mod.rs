//! DRAM row decay model for the compact Macs.
//!
//! Real hardware has no dedicated refresh counter: refresh is a side effect of
//! the video fetches, which cycle the row address through every value many times
//! per frame. But the video path sweeps only RA0..RA8; RA9 is held at a fixed
//! value for the whole scan.
//!
//! On a board with 256K chips the chips ignore RA9, so video refresh is
//! complete. On a board with 1M chips RA9 is a real row bit, A19, and video
//! cannot refresh the half of the rows whose A19 differs from the value RA9 is
//! parked at. Those rows are refreshed only by CPU accesses; a program that does
//! not touch them for long enough finds bits of them flipped.

pub mod laws;

use crate::settings;
use crate::settings::{flag, positive_num};
use vstd::prelude::*;

verus! {

/// Row-address bits swept by the video path (RA0..RA8 = A1..A9).
pub const VIDEO_ROW_BITS: usize = 9;

/// Rows reachable by the video sweep alone.
pub const VIDEO_ROWS: usize = 512;

/// Rows on a 1M-chip board, where RA9 (= A19) is also a row bit.
pub const TOTAL_ROWS: usize = 1024;

/// Smallest RAM size that implies 1M chips.
pub const ONE_MEG_CHIP_THRESHOLD: usize = 2 * 1024 * 1024;

/// Where the stream of random numbers starts. It is fixed: weak cells leak the
/// same way every run on real hardware.
pub const SEED: u64 = 0x2026_0814_DEAD_BEEF;

/// The multiplier of the random number generator (xorshift64*).
pub const MULTIPLIER: u64 = 0x2545_F491_4F6C_DD1D;

/// The model.
pub struct DramDecay {
    /// Frame number each row was last refreshed on.
    pub last_refresh: Vec<u32>,
    /// Frames elapsed (VBlanks seen).
    pub frame: u32,
    /// Frames a row may go unrefreshed before it starts losing bits.
    pub retention_frames: u32,
    /// 1-in-N chance per frame that a given stale row loses a bit.
    pub decay_odds: u32,
    /// True when the board has 1M chips, so that RA9 is a row bit and video
    /// refresh covers only half the array.
    pub ra9_is_row_bit: bool,
    pub rng: u64,
    /// Bits flipped so far, for reporting.
    pub corrupted: u64,
}

/// The settings of the model, as the environment gives them.
pub struct DramEnv {
    /// `SNOW_DRAM_DECAY`: `1` enables the model.
    pub enable: Option<String>,
    /// `SNOW_DRAM_DECAY_FRAMES`: frames without refresh before decay (default
    /// 60).
    pub frames: Option<String>,
    /// `SNOW_DRAM_DECAY_ODDS`: 1-in-N chance per frame per stale row (default
    /// 4).
    pub odds: Option<String>,
}

/// The state of the model.
#[verifier::ext_equal]
pub struct DramState {
    pub last_refresh: Seq<u32>,
    pub frame: u32,
    pub retention_frames: u32,
    pub decay_odds: u32,
    pub ra9_is_row_bit: bool,
    pub rng: u64,
    pub corrupted: int,
}

impl View for DramDecay {
    type V = DramState;

    open spec fn view(&self) -> DramState {
        DramState {
            last_refresh: self.last_refresh@,
            frame: self.frame,
            retention_frames: self.retention_frames,
            decay_odds: self.decay_odds,
            ra9_is_row_bit: self.ra9_is_row_bit,
            rng: self.rng,
            corrupted: self.corrupted as int,
        }
    }
}

/// DRAM row selected by an address: RA0..RA8 = A1..A9, RA9 = A19.
pub open spec fn row(addr: int) -> int {
    (addr / 2) % 512 + 512 * ((addr / 0x8_0000) % 2)
}

/// The state of the random number generator that follows `x`.
pub open spec fn next_state(x: u64) -> u64 {
    let a = x ^ (x >> 12u64);
    let b = a ^ (a << 25u64);
    b ^ (b >> 27u64)
}

/// The number drawn on reaching state `x` of the generator.
pub open spec fn drawn(x: u64) -> u64 {
    ((x * MULTIPLIER) % 0x1_0000_0000_0000_0000) as u64
}

/// The address in `row` with the column bits (A0, A10..A18 and A20..A21) that
/// the low bits of `r` give.
pub open spec fn address(row: int, r: u64) -> int {
    r % 2 + 2 * (row % 512) + 0x400 * ((r / 2) % 512) + 0x8_0000 * ((row / 512) % 2) + 0x10_0000 * ((
    r / 0x400) % 4)
}

/// The bit of a cell that the number `r` picks.
pub open spec fn picked_bit(r: u64) -> u8 {
    1u8 << ((r % 8) as u8)
}

/// What decay has done so far in one frame: the generator, the memory, the count
/// of bits flipped and the indices of the bytes they are in.
#[verifier::ext_equal]
pub struct Decay {
    pub rng: u64,
    pub ram: Seq<u8>,
    pub corrupted: int,
    pub dirty: Seq<usize>,
}

impl DramState {
    /// What holds of every state: there is a time for each row, and neither the
    /// retention nor the odds are zero.
    pub open spec fn wf(self) -> bool {
        &&& self.last_refresh.len() == TOTAL_ROWS
        &&& 0 < self.retention_frames
        &&& 0 < self.decay_odds
    }

    /// The state after an access to `addr`.
    pub open spec fn touched(self, addr: int) -> DramState {
        DramState { last_refresh: self.last_refresh.update(row(addr), self.frame), ..self }
    }

    /// Whether the video scan refreshes row `r`.
    pub open spec fn swept(self, r: int) -> bool {
        r < VIDEO_ROWS || !self.ra9_is_row_bit
    }

    /// The state after another frame has been scanned out.
    pub open spec fn scanned(self) -> DramState {
        let frame = ((self.frame + 1) % 0x1_0000_0000) as u32;
        DramState {
            frame,
            last_refresh: Seq::new(
                self.last_refresh.len(),
                |r: int|
                    if self.swept(r) {
                        frame
                    } else {
                        self.last_refresh[r]
                    },
            ),
            ..self
        }
    }

    /// Frames since row `r` was last refreshed.
    pub open spec fn age(self, r: int) -> int {
        (self.frame - self.last_refresh[r]) % 0x1_0000_0000
    }

    /// Whether row `r` has gone unrefreshed for too long.
    pub open spec fn stale(self, r: int) -> bool {
        self.age(r) >= self.retention_frames
    }

    /// What row `r` adds to the decay: a stale row loses, with the odds given, a
    /// bit of a random cell, which drifts from 0 to 1. A cell that is already 1,
    /// or that is not fitted, stays.
    pub open spec fn row_decayed(self, d: Decay, r: int, ram_mask: usize) -> Decay {
        let s1 = next_state(d.rng);
        let s2 = next_state(s1);
        let s3 = next_state(s2);
        let idx = (address(r, drawn(s2)) as usize) & ram_mask;
        let bit = picked_bit(drawn(s3));
        if !self.stale(r) {
            d
        } else if drawn(s1) % (self.decay_odds as u64) != 0 {
            Decay { rng: s1, ..d }
        } else if idx >= d.ram.len() {
            Decay { rng: s2, ..d }
        } else if d.ram[idx as int] & bit != 0 {
            Decay { rng: s3, ..d }
        } else {
            Decay {
                rng: s3,
                ram: d.ram.update(idx as int, d.ram[idx as int] | bit),
                corrupted: d.corrupted + 1,
                dirty: d.dirty.push(idx),
            }
        }
    }

    /// What row `r` does to a frame that has come as far as this state.
    pub open spec fn decaying(
        self,
        ram: Seq<u8>,
        dirty: Seq<usize>,
        r: int,
        ram_mask: usize,
    ) -> Decay {
        self.row_decayed(
            Decay { rng: self.rng, ram, corrupted: self.corrupted, dirty },
            r,
            ram_mask,
        )
    }

    /// The decay of the first `n` rows, in order.
    pub open spec fn decayed(self, ram: Seq<u8>, ram_mask: usize, n: int) -> Decay
        decreases n,
    {
        if n <= 0 {
            Decay { rng: self.rng, ram, corrupted: self.corrupted, dirty: Seq::empty() }
        } else {
            self.row_decayed(self.decayed(ram, ram_mask, n - 1), n - 1, ram_mask)
        }
    }

    /// What decays in the next frame.
    pub open spec fn frame_decay(self, ram: Seq<u8>, ram_mask: usize) -> Decay {
        self.scanned().decayed(ram, ram_mask, TOTAL_ROWS as int)
    }

    /// The state after the next frame.
    pub open spec fn after_vblank(self, ram: Seq<u8>, ram_mask: usize) -> DramState {
        let decay = self.frame_decay(ram, ram_mask);
        DramState { rng: decay.rng, corrupted: decay.corrupted, ..self.scanned() }
    }
}

impl DramEnv {
    /// The state that these settings ask for, with `ram_size` bytes fitted.
    pub open spec fn configured(self, ram_size: int) -> DramState {
        DramState {
            last_refresh: Seq::new(TOTAL_ROWS as nat, |r: int| 0u32),
            frame: 0,
            retention_frames: settings::positive(settings::text(self.frames), 60) as u32,
            decay_odds: settings::positive(settings::text(self.odds), 4) as u32,
            ra9_is_row_bit: ram_size >= ONE_MEG_CHIP_THRESHOLD,
            rng: SEED,
            corrupted: 0,
        }
    }

    /// The state of the model, if the settings ask for one.
    pub open spec fn model(self, ram_size: int) -> Option<DramState> {
        if settings::switched_on(settings::text(self.enable)) {
            Some(self.configured(ram_size))
        } else {
            None
        }
    }
}

impl DramDecay {
    /// Builds the model that the settings ask for, or `None` if it is not
    /// enabled.
    pub fn from_env(ram_size: usize, env: &DramEnv) -> (r: Option<DramDecay>)
        ensures
            r is Some <==> settings::switched_on(settings::text(env.enable)),
            r matches Some(m) ==> m@ == env.configured(ram_size as int) && m@.wf(),
            env.model(ram_size as int) == (match r {
                Some(m) => Some(m@),
                None => None,
            }),
    {
        if !flag(&env.enable) {
            return None;
        }
        let last_refresh: Vec<u32> = vec![0u32; TOTAL_ROWS];
        assert(last_refresh@ =~= Seq::new(TOTAL_ROWS as nat, |r: int| 0u32));
        Some(
            DramDecay {
                last_refresh,
                frame: 0,
                retention_frames: positive_num(&env.frames, 60),
                decay_odds: positive_num(&env.odds, 4),
                ra9_is_row_bit: ram_size >= ONE_MEG_CHIP_THRESHOLD,
                rng: SEED,
                corrupted: 0,
            },
        )
    }

    /// Whether the model is well formed, as any model is that was built by
    /// `from_env`.
    pub fn is_wf(&self) -> (r: bool)
        ensures
            r == self@.wf(),
    {
        self.last_refresh.len() == TOTAL_ROWS && 0 < self.retention_frames && 0 < self.decay_odds
    }

    /// DRAM row selected by a CPU address.
    pub fn row_of(addr: usize) -> (r: usize)
        ensures
            r == row(addr as int),
            r < TOTAL_ROWS,
    {
        assert((((addr >> 1usize) & 511usize) | (((addr >> 19usize) & 1usize) << 9usize)) == (addr
            / 2) % 512 + 512 * ((addr / 0x8_0000) % 2)) by (bit_vector);
        ((addr >> 1) & (VIDEO_ROWS - 1)) | (((addr >> 19) & 1) << VIDEO_ROW_BITS)
    }

    /// Records that a CPU access strobed /RAS for this address' row. /RAS is
    /// common to all four SIMMs, so one access refreshes that row everywhere.
    pub fn touch(&mut self, addr: usize)
        requires
            old(self)@.wf(),
        ensures
            final(self)@ == old(self)@.touched(addr as int),
            final(self)@.wf(),
            forall|ram: Seq<u8>, mask: usize|
                #[trigger] laws::leads(
                    laws::Moment { state: old(self)@, ram, dirty: Seq::empty() },
                    laws::Step::Access(addr),
                    laws::Moment { state: final(self)@, ram, dirty: Seq::empty() },
                    mask,
                ),
    {
        let row: usize = Self::row_of(addr);
        self.last_refresh[row] = self.frame;
    }

    /// Draws the next random number (xorshift64*).
    pub fn next_rand(&mut self) -> (r: u64)
        ensures
            final(self)@ == (DramState { rng: next_state(old(self)@.rng), ..old(self)@ }),
            r == drawn(final(self)@.rng),
    {
        self.rng = self.rng ^ (self.rng >> 12u64);
        self.rng = self.rng ^ (self.rng << 25u64);
        self.rng = self.rng ^ (self.rng >> 27u64);
        self.rng.wrapping_mul(MULTIPLIER)
    }

    /// Picks a random byte address belonging to `row`.
    pub fn addr_in_row(&mut self, row: usize, ram_mask: usize) -> (addr: usize)
        ensures
            final(self)@ == (DramState { rng: next_state(old(self)@.rng), ..old(self)@ }),
            addr == (address(row as int, drawn(final(self)@.rng)) as usize) & ram_mask,
    {
        let r: u64 = self.next_rand();
        let a0: usize = (r % 2) as usize;
        let mid: usize = ((r / 2) % 512) as usize;  // A10..A18
        let high: usize = ((r / 0x400) % 4) as usize;  // A20..A21 (up to 4MB)
        let addr: usize = a0 + 2 * (row % VIDEO_ROWS) + 0x400 * mid + 0x8_0000 * ((row / VIDEO_ROWS)
            % 2) + 0x10_0000 * high;
        addr & ram_mask
    }

    /// Counts a frame and applies the refresh of its video scan.
    ///
    /// The scan sweeps RA0..RA8 many times per frame, but RA9 is held static, so
    /// it refreshes only the rows on that side. On a 256K-chip board RA9 is not a
    /// row bit at all, so every row is covered.
    fn scan(&mut self)
        requires
            old(self)@.wf(),
        ensures
            final(self)@ == old(self)@.scanned(),
    {
        let ghost before = self@;
        let ghost scanned = before.scanned();
        self.frame = self.frame.wrapping_add(1);
        assert(self.frame == scanned.frame);
        let mut r: usize = 0;
        while r < VIDEO_ROWS
            invariant
                r <= VIDEO_ROWS,
                before.wf(),
                scanned == before.scanned(),
                self@ == (DramState {
                    frame: scanned.frame,
                    last_refresh: self@.last_refresh,
                    ..before
                }),
                self@.last_refresh.len() == TOTAL_ROWS,
                forall|s: int|
                    0 <= s < TOTAL_ROWS ==> #[trigger] self@.last_refresh[s] == (if s < r || (
                    VIDEO_ROWS <= s < VIDEO_ROWS + r && !before.ra9_is_row_bit) {
                        scanned.frame
                    } else {
                        before.last_refresh[s]
                    }),
            decreases VIDEO_ROWS - r,
        {
            self.last_refresh[r] = self.frame;
            if !self.ra9_is_row_bit {
                self.last_refresh[VIDEO_ROWS + r] = self.frame;
            }
            r = r + 1;
        }
        assert(self@ =~= scanned);
    }

    /// Lets one row decay if it is stale.
    fn decay_row(&mut self, ram: &mut [u8], row: usize, ram_mask: usize, dirty: &mut Vec<usize>)
        requires
            old(self)@.wf(),
            row < TOTAL_ROWS,
            old(self)@.decaying(old(ram)@, old(dirty)@, row as int, ram_mask).corrupted <= u64::MAX,
        ensures
            ({
                let d = old(self)@.decaying(old(ram)@, old(dirty)@, row as int, ram_mask);
                &&& final(self)@ == (DramState {
                    rng: d.rng,
                    corrupted: d.corrupted,
                    ..old(self)@
                })
                &&& final(ram)@ == d.ram
                &&& final(dirty)@ == d.dirty
            }),
    {
        let age: u32 = self.frame.wrapping_sub(self.last_refresh[row]);
        assert(age == self@.age(row as int));
        if age < self.retention_frames {
            return;
        }
        let roll: u64 = self.next_rand();
        if roll % (self.decay_odds as u64) != 0 {
            return;
        }
        let idx: usize = self.addr_in_row(row, ram_mask);
        if idx >= ram.len() {
            return;
        }
        // A leaking cell drifts to its discharged state: a 0 bit reads back as 1,
        // always in that direction.
        let pick: u64 = self.next_rand();
        let bit: u8 = 1u8 << ((pick % 8) as u8);
        if ram[idx] & bit == 0 {
            ram[idx] = ram[idx] | bit;
            self.corrupted = self.corrupted + 1;
            dirty.push(idx);
        }
    }

    /// Called once per VBlank. Applies the video scan's partial refresh, then
    /// decays any row that has gone too long without a RAS.
    ///
    /// Returns the byte indices corrupted this frame, so that the caller can
    /// mark them dirty for the display.
    pub fn vblank(&mut self, ram: &mut [u8], ram_mask: usize) -> (dirty: Vec<usize>)
        requires
            old(self)@.wf(),
            old(self)@.corrupted + TOTAL_ROWS <= u64::MAX || old(self)@.after_vblank(
                old(ram)@,
                ram_mask,
            ).corrupted <= u64::MAX,
        ensures
            final(self)@ == old(self)@.after_vblank(old(ram)@, ram_mask),
            final(self)@.wf(),
            final(ram)@ == old(self)@.frame_decay(old(ram)@, ram_mask).ram,
            dirty@ == old(self)@.frame_decay(old(ram)@, ram_mask).dirty,
            laws::leads(
                laws::Moment { state: old(self)@, ram: old(ram)@, dirty: Seq::empty() },
                laws::Step::Frame,
                laws::Moment { state: final(self)@, ram: final(ram)@, dirty: dirty@ },
                ram_mask,
            ),
    {
        let ghost scanned = self@.scanned();
        let ghost before = ram@;
        proof {
            lemma_decay_counts(scanned, before, ram_mask, TOTAL_ROWS as int);
        }
        self.scan();
        let mut dirty: Vec<usize> = Vec::new();
        let mut row: usize = 0;
        while row < TOTAL_ROWS
            invariant
                row <= TOTAL_ROWS,
                scanned.wf(),
                scanned.decayed(before, ram_mask, TOTAL_ROWS as int).corrupted <= u64::MAX,
                self@ == ({
                    let d = scanned.decayed(before, ram_mask, row as int);
                    DramState { rng: d.rng, corrupted: d.corrupted, ..scanned }
                }),
                ram@ == scanned.decayed(before, ram_mask, row as int).ram,
                dirty@ == scanned.decayed(before, ram_mask, row as int).dirty,
            decreases TOTAL_ROWS - row,
        {
            proof {
                lemma_decay_step(scanned, self@, before, ram_mask, row as int);
                lemma_decay_grows(scanned, before, ram_mask, row + 1, TOTAL_ROWS as int);
            }
            self.decay_row(ram, row, ram_mask, &mut dirty);
            row = row + 1;
        }
        dirty
    }
}

/// The decay of one more row, seen from the state that the rows before it have
/// led to.
proof fn lemma_decay_step(s: DramState, now: DramState, ram: Seq<u8>, ram_mask: usize, n: int)
    requires
        0 <= n,
        now == ({
            let d = s.decayed(ram, ram_mask, n);
            DramState { rng: d.rng, corrupted: d.corrupted, ..s }
        }),
    ensures
        ({
            let d = s.decayed(ram, ram_mask, n);
            now.decaying(d.ram, d.dirty, n, ram_mask) == s.decayed(ram, ram_mask, n + 1)
        }),
{
}

/// The count of bits flipped grows with the rows, by one per byte reported.
proof fn lemma_decay_counts(s: DramState, ram: Seq<u8>, ram_mask: usize, n: int)
    requires
        0 <= n,
    ensures
        ({
            let d = s.decayed(ram, ram_mask, n);
            &&& d.corrupted == s.corrupted + d.dirty.len()
            &&& d.dirty.len() <= n
            &&& d.ram.len() == ram.len()
        }),
    decreases n,
{
    if n > 0 {
        lemma_decay_counts(s, ram, ram_mask, n - 1);
    }
}

proof fn lemma_decay_grows(s: DramState, ram: Seq<u8>, ram_mask: usize, n: int, m: int)
    requires
        0 <= n <= m,
    ensures
        s.decayed(ram, ram_mask, n).corrupted <= s.decayed(ram, ram_mask, m).corrupted,
    decreases m - n,
{
    if n < m {
        lemma_decay_grows(s, ram, ram_mask, n, m - 1);
    }
}

} // verus!
