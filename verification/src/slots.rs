//! The palette slots of the high-color encoder.
//!
//! A pass of the encoder gives each color that it meets a palette slot, for
//! as long as it finds one. A color is known by its key: the upper five bits
//! of each channel. A slot that a pass assigned or used stays as it is for
//! the rest of the pass.

use vstd::prelude::*;

verus! {

/// The number of color keys.
pub const COLOR_KEYS: usize = 32768;

/// The number of slots that can be assigned: the last of the 256 palette
/// slots stands for a pixel without a slot.
pub const ASSIGNABLE: usize = 255;

/// The palette index of a pixel without a slot.
pub const UNRESOLVED: u8 = 255;

/// The state of a slot that the pass has used for a color known before.
pub const PALETTE_HIT: i32 = 1;

/// The state of a slot that the pass has assigned.
pub const PALETTE_CHANGE: i32 = 2;

/// The key of a color: the upper five bits of each channel.
pub open spec fn color_key(r: u8, g: u8, b: u8) -> int {
    ((((r & 0xf8) as u32) << 7) | (((g & 0xf8) as u32) << 2) | (((b >> 3) & 0x1f) as u32)) as int
}

/// A key is one of `COLOR_KEYS`.
pub proof fn lemma_color_key(r: u8, g: u8, b: u8)
    ensures
        0 <= color_key(r, g, b) < COLOR_KEYS,
{
    assert(((((r & 0xf8) as u32) << 7) | (((g & 0xf8) as u32) << 2) | (((b >> 3) & 0x1f) as u32))
        < 32768u32) by (bit_vector);
}

/// Computes the key of a color.
pub fn key_of(r: u8, g: u8, b: u8) -> (k: usize)
    ensures
        k == color_key(r, g, b),
        k < COLOR_KEYS,
{
    let k: u32 = (((r & 0xf8) as u32) << 7) | (((g & 0xf8) as u32) << 2) | (((b >> 3) & 0x1f) as u32);
    assert(((((r & 0xf8) as u32) << 7) | (((g & 0xf8) as u32) << 2) | (((b >> 3) & 0x1f) as u32))
        < 32768u32) by (bit_vector);
    k as usize
}

/// The slots of a pass, as plain values.
pub struct Slots {
    /// Whether a key has a slot.
    pub rgbhit: Seq<bool>,
    /// The slot of a key.
    pub rgb2pal: Seq<u8>,
    /// The state of a slot in this pass: 0, `PALETTE_HIT` or
    /// `PALETTE_CHANGE`.
    pub palstate: Seq<i32>,
    /// How often a slot was used, up to 255.
    pub palhitcount: Seq<i32>,
    /// The slot at which the search for a free slot goes on.
    pub nextpal: int,
    /// The number of uses up to which a slot is given to a new color.
    pub threshold: int,
    /// Whether a pixel of this pass found no slot.
    pub dirty: bool,
    /// Whether a slot that is assigned may have held a color before.
    pub recycling: bool,
}

/// The threshold after `threshold`: 1, then 9, then 255.
pub open spec fn next_threshold(threshold: int) -> int {
    if threshold == 1 {
        9
    } else {
        255
    }
}

/// How many thresholds come after `threshold`.
pub open spec fn thresholds_left(threshold: int) -> nat {
    if threshold >= 255 {
        0
    } else if threshold == 1 {
        2
    } else {
        1
    }
}

impl Slots {
    /// The invariant of the slots: the tables have their sizes, the counts
    /// stay within 0 and 255, and a key with a slot has one that can be
    /// assigned.
    pub open spec fn wf(self) -> bool {
        &&& self.rgbhit.len() == COLOR_KEYS
        &&& self.rgb2pal.len() == COLOR_KEYS
        &&& self.palstate.len() == 256
        &&& self.palhitcount.len() == 256
        &&& 0 <= self.nextpal <= ASSIGNABLE
        &&& forall|s: int| 0 <= s < 256 ==> 0 <= #[trigger] self.palhitcount[s] <= 255
        &&& forall|k: int|
            0 <= k < COLOR_KEYS && #[trigger] self.rgbhit[k] ==> self.rgb2pal[k] < ASSIGNABLE
    }

    /// Whether slot `s` is free for a new color: the pass has not used it,
    /// and it was used no more than `threshold` times.
    pub open spec fn free(self, s: int, threshold: int) -> bool {
        self.palstate[s] == 0 && self.palhitcount[s] <= threshold
    }

    /// The first free slot at or after `from`, or `ASSIGNABLE` if there is
    /// none.
    pub open spec fn first_free(self, from: int, threshold: int) -> int
        decreases ASSIGNABLE - from,
    {
        if from >= ASSIGNABLE || from < 0 {
            ASSIGNABLE as int
        } else if self.free(from, threshold) {
            from
        } else {
            self.first_free(from + 1, threshold)
        }
    }

    /// The search for a slot: the first free slot at or after `from`; where
    /// there is none, the search starts again at slot 0 with the next
    /// threshold, until the threshold is 255. The result holds the slot, or
    /// `ASSIGNABLE` if none was found, and the threshold reached.
    pub open spec fn search(self, from: int, threshold: int) -> (int, int)
        decreases thresholds_left(threshold),
    {
        let s = self.first_free(from, threshold);
        if s < ASSIGNABLE || threshold >= 255 {
            (s, threshold)
        } else {
            self.search(0, next_threshold(threshold))
        }
    }

    /// The slots of an encoder that has met no color yet.
    pub open spec fn initial() -> Slots {
        Slots {
            rgbhit: Seq::new(COLOR_KEYS as nat, |k: int| false),
            rgb2pal: Seq::new(COLOR_KEYS as nat, |k: int| 0u8),
            palstate: Seq::new(256, |s: int| 0i32),
            palhitcount: Seq::new(256, |s: int| 0i32),
            nextpal: 0,
            threshold: 1,
            dirty: false,
            recycling: false,
        }
    }

    /// The slots at the start of a pass: no slot is used, no pixel is
    /// without a slot, and the search starts at slot 0 with threshold 1.
    pub open spec fn pass_begun(self) -> Slots {
        Slots {
            palstate: Seq::new(256, |s: int| 0i32),
            nextpal: 0,
            threshold: 1,
            dirty: false,
            ..self
        }
    }

    /// Whether the pass has not touched the slots yet.
    pub open spec fn fresh(self) -> bool {
        &&& self.nextpal == 0
        &&& self.threshold == 1
        &&& !self.dirty
        &&& forall|s: int| 0 <= s < 256 ==> #[trigger] self.palstate[s] == 0
    }

    /// What a pixel of color `(r, g, b)` does to the slots and the palette,
    /// and the palette index that it gets.
    ///
    /// A color whose key has a slot gets that slot; the slot counts one more
    /// use and is marked as hit if the pass has not used it. Else the search
    /// finds a slot: the slot takes the color and is marked as changed, with
    /// one use, and the search goes on behind it. While recycling, the key of
    /// the color that the slot held has no slot any more. Where the search
    /// finds nothing the pixel stays unresolved and the pass is dirty.
    pub open spec fn resolved(self, palette: Seq<u8>, r: u8, g: u8, b: u8) -> (Slots, Seq<u8>, u8) {
        let k = color_key(r, g, b);
        if !self.rgbhit[k] {
            let (s, t) = self.search(self.nextpal, self.threshold);
            if s >= ASSIGNABLE {
                (Slots { nextpal: s, threshold: t, dirty: true, ..self }, palette, UNRESOLVED)
            } else {
                let old_key = color_key(palette[3 * s], palette[3 * s + 1], palette[3 * s + 2]);
                let hit = self.rgbhit.update(k, true);
                (
                    Slots {
                        rgbhit: if self.recycling {
                            hit.update(old_key, false)
                        } else {
                            hit
                        },
                        rgb2pal: self.rgb2pal.update(k, s as u8),
                        palstate: self.palstate.update(s, PALETTE_CHANGE),
                        palhitcount: self.palhitcount.update(s, 1i32),
                        nextpal: s + 1,
                        threshold: t,
                        ..self
                    },
                    palette.update(3 * s, r).update(3 * s + 1, g).update(3 * s + 2, b),
                    s as u8,
                )
            }
        } else {
            let s = self.rgb2pal[k] as int;
            (
                Slots {
                    palstate: if self.palstate[s] == 0 {
                        self.palstate.update(s, PALETTE_HIT)
                    } else {
                        self.palstate
                    },
                    palhitcount: if self.palhitcount[s] < 255 {
                        self.palhitcount.update(s, (self.palhitcount[s] + 1) as i32)
                    } else {
                        self.palhitcount
                    },
                    ..self
                },
                palette,
                s as u8,
            )
        }
    }

    /// The first free slot lies between the start of the search and
    /// `ASSIGNABLE`, and is free if it is a slot.
    pub proof fn lemma_first_free(self, from: int, threshold: int)
        requires
            0 <= from <= ASSIGNABLE,
        ensures
            from <= self.first_free(from, threshold) <= ASSIGNABLE,
            self.first_free(from, threshold) < ASSIGNABLE ==> self.free(
                self.first_free(from, threshold),
                threshold,
            ),
        decreases ASSIGNABLE - from,
    {
        if from < ASSIGNABLE && !self.free(from, threshold) {
            self.lemma_first_free(from + 1, threshold);
        }
    }

    /// The search ends at a slot that the pass has not used, or at
    /// `ASSIGNABLE` with threshold 255 or above.
    pub proof fn lemma_search(self, from: int, threshold: int)
        requires
            0 <= from <= ASSIGNABLE,
        ensures
            0 <= self.search(from, threshold).0 <= ASSIGNABLE,
            self.search(from, threshold).0 < ASSIGNABLE ==> self.palstate[self.search(
                from,
                threshold,
            ).0] == 0,
            self.search(from, threshold).0 >= ASSIGNABLE ==> self.search(from, threshold).1 >= 255,
        decreases thresholds_left(threshold),
    {
        self.lemma_first_free(from, threshold);
        let s = self.first_free(from, threshold);
        if !(s < ASSIGNABLE || threshold >= 255) {
            self.lemma_search(0, next_threshold(threshold));
        }
    }

    /// A pixel leaves the slots well formed, and has a slot that can be
    /// assigned or none. A pixel without a slot makes the pass dirty; a pixel
    /// with a slot leaves the slot in use by the pass. The slots in use by the
    /// pass are never more than `ASSIGNABLE`.
    pub proof fn lemma_resolved(self, palette: Seq<u8>, r: u8, g: u8, b: u8)
        requires
            self.wf(),
        ensures
            self.resolved(palette, r, g, b).0.wf(),
            self.resolved(palette, r, g, b).2 == UNRESOLVED ==> self.resolved(
                palette,
                r,
                g,
                b,
            ).0.dirty,
            self.resolved(palette, r, g, b).2 != UNRESOLVED ==> {
                &&& self.resolved(palette, r, g, b).2 < ASSIGNABLE
                &&& self.resolved(palette, r, g, b).0.palstate[self.resolved(
                    palette,
                    r,
                    g,
                    b,
                ).2 as int] != 0
                &&& self.resolved(palette, r, g, b).0.dirty == self.dirty
            },
            self.fresh() ==> self.resolved(palette, r, g, b).2 != UNRESOLVED,
    {
        let k = color_key(r, g, b);
        lemma_color_key(r, g, b);
        self.lemma_search(self.nextpal, self.threshold);
        if self.fresh() {
            self.lemma_unused_slots_are_found(0, 1);
        }
        if !self.rgbhit[k] {
            let (s, t) = self.search(self.nextpal, self.threshold);
            if s < ASSIGNABLE {
                lemma_color_key(palette[3 * s], palette[3 * s + 1], palette[3 * s + 2]);
                let after = self.resolved(palette, r, g, b).0;
                assert forall|j: int| 0 <= j < COLOR_KEYS && #[trigger] after.rgbhit[j] implies after.rgb2pal[j]
                    < ASSIGNABLE by {
                    if j != k {
                        assert(self.rgbhit[j]);
                    }
                }
            }
        }
    }

    /// Whether the slots agree with the palette: the color of the slot of a
    /// key has that key. Before slots are recycled, the slot of a key is
    /// moreover in use by the pass.
    pub open spec fn coherent(self, palette: Seq<u8>) -> bool {
        forall|k: int|
            0 <= k < COLOR_KEYS && #[trigger] self.rgbhit[k] ==> {
                let s = self.rgb2pal[k] as int;
                &&& color_key(palette[3 * s], palette[3 * s + 1], palette[3 * s + 2]) == k
                &&& self.recycling || self.palstate[s] != 0
            }
    }

    /// A pixel with a slot has a slot whose color has the pixel's key, and the
    /// slots go on agreeing with the palette.
    pub proof fn lemma_resolved_color(self, palette: Seq<u8>, r: u8, g: u8, b: u8)
        requires
            self.wf(),
            self.coherent(palette),
            palette.len() >= 3 * ASSIGNABLE,
        ensures
            self.resolved(palette, r, g, b).0.coherent(self.resolved(palette, r, g, b).1),
            self.resolved(palette, r, g, b).2 != UNRESOLVED ==> ({
                let after = self.resolved(palette, r, g, b).1;
                let s = self.resolved(palette, r, g, b).2 as int;
                color_key(after[3 * s], after[3 * s + 1], after[3 * s + 2]) == color_key(r, g, b)
            }),
    {
        let k = color_key(r, g, b);
        lemma_color_key(r, g, b);
        self.lemma_search(self.nextpal, self.threshold);
        self.lemma_resolved(palette, r, g, b);
        let after = self.resolved(palette, r, g, b).0;
        let colors = self.resolved(palette, r, g, b).1;
        if !self.rgbhit[k] {
            let (s, t) = self.search(self.nextpal, self.threshold);
            if s < ASSIGNABLE {
                lemma_color_key(palette[3 * s], palette[3 * s + 1], palette[3 * s + 2]);
                assert forall|j: int| 0 <= j < COLOR_KEYS && #[trigger] after.rgbhit[j] implies ({
                    let sj = after.rgb2pal[j] as int;
                    &&& color_key(colors[3 * sj], colors[3 * sj + 1], colors[3 * sj + 2]) == j
                    &&& after.recycling || after.palstate[sj] != 0
                }) by {
                    if j != k {
                        assert(self.rgbhit[j]);
                        let sj = self.rgb2pal[j] as int;
                        assert(sj != s);
                    }
                }
            }
        } else {
            assert forall|j: int| 0 <= j < COLOR_KEYS && #[trigger] after.rgbhit[j] implies ({
                let sj = after.rgb2pal[j] as int;
                &&& color_key(colors[3 * sj], colors[3 * sj + 1], colors[3 * sj + 2]) == j
                &&& after.recycling || after.palstate[sj] != 0
            }) by {
                assert(self.rgbhit[j]);
            }
        }
    }

    /// Where no slot is used by the pass, a slot is found from any threshold
    /// up to 255.
    pub proof fn lemma_unused_slots_are_found(self, from: int, threshold: int)
        requires
            self.wf(),
            from == 0,
            threshold <= 255,
            forall|s: int| 0 <= s < 256 ==> #[trigger] self.palstate[s] == 0,
        ensures
            self.search(from, threshold).0 < ASSIGNABLE,
        decreases thresholds_left(threshold),
    {
        self.lemma_first_free(0, threshold);
        let s = self.first_free(0, threshold);
        if threshold >= 255 {
            assert(self.free(0, threshold));
        } else if s >= ASSIGNABLE {
            self.lemma_unused_slots_are_found(0, next_threshold(threshold));
        }
    }
}

/// The slots of the high-color encoder.
#[derive(Debug)]
pub struct SlotTable {
    /// Whether a key has a slot.
    pub rgbhit: Vec<bool>,
    /// The slot of a key.
    pub rgb2pal: Vec<u8>,
    /// The state of a slot in this pass.
    pub palstate: Vec<i32>,
    /// How often a slot was used, up to 255.
    pub palhitcount: Vec<i32>,
    /// The slot at which the search for a free slot goes on.
    pub nextpal: usize,
    /// The number of uses up to which a slot is given to a new color.
    pub threshold: i32,
    /// Whether a pixel of this pass found no slot.
    pub dirty: bool,
    /// Whether a slot that is assigned may have held a color before.
    pub recycling: bool,
}

impl View for SlotTable {
    type V = Slots;

    open spec fn view(&self) -> Slots {
        Slots {
            rgbhit: self.rgbhit@,
            rgb2pal: self.rgb2pal@,
            palstate: self.palstate@,
            palhitcount: self.palhitcount@,
            nextpal: self.nextpal as int,
            threshold: self.threshold as int,
            dirty: self.dirty,
            recycling: self.recycling,
        }
    }
}

impl SlotTable {
    /// Creates the slots of an encoder that has met no color yet.
    pub fn new() -> (table: Self)
        ensures
            table@ == Slots::initial(),
            table@.wf(),
    {
        let table = SlotTable {
            rgbhit: vec![false; COLOR_KEYS],
            rgb2pal: vec![0u8; COLOR_KEYS],
            palstate: vec![0i32; 256],
            palhitcount: vec![0i32; 256],
            nextpal: 0,
            threshold: 1,
            dirty: false,
            recycling: false,
        };
        assert(table@.rgbhit =~= Slots::initial().rgbhit);
        assert(table@.rgb2pal =~= Slots::initial().rgb2pal);
        assert(table@.palstate =~= Slots::initial().palstate);
        assert(table@.palhitcount =~= Slots::initial().palhitcount);
        table
    }

    /// Starts a pass.
    pub fn begin_pass(&mut self)
        requires
            old(self)@.wf(),
        ensures
            final(self)@ == old(self)@.pass_begun(),
            final(self)@.wf(),
            final(self)@.fresh(),
    {
        self.palstate = vec![0i32; 256];
        self.nextpal = 0;
        self.threshold = 1;
        self.dirty = false;
        assert(self.palstate@ =~= Seq::new(256, |s: int| 0i32));
    }

    /// Searches a slot for a new color.
    fn find_slot(&mut self)
        requires
            old(self)@.wf(),
        ensures
            final(self)@ == (Slots {
                nextpal: old(self)@.search(old(self)@.nextpal, old(self)@.threshold).0,
                threshold: old(self)@.search(old(self)@.nextpal, old(self)@.threshold).1,
                ..old(self)@
            }),
            final(self)@.wf(),
    {
        let ghost goal = self@.search(self@.nextpal, self@.threshold);
        let ghost v = self@;
        proof {
            v.lemma_search(v.nextpal, v.threshold);
        }
        loop
            invariant
                self@.wf(),
                self@ == (Slots { nextpal: self@.nextpal, threshold: self@.threshold, ..v }),
                v.search(self@.nextpal, self@.threshold) == goal,
            ensures
                self@.wf(),
                self@ == (Slots { nextpal: goal.0, threshold: goal.1, ..v }),
            decreases thresholds_left(self@.threshold), ASSIGNABLE - self@.nextpal,
        {
            if self.nextpal >= ASSIGNABLE {
                if self.threshold >= 255 {
                    break;
                } else {
                    self.threshold = if self.threshold == 1 {
                        9
                    } else {
                        255
                    };
                    self.nextpal = 0;
                }
            } else if self.palstate[self.nextpal] != 0 || self.palhitcount[self.nextpal]
                > self.threshold {
                self.nextpal = self.nextpal + 1;
                proof {
                    // The search from the next slot finds what the search from
                    // this slot finds.
                    v.lemma_first_free(self@.nextpal, self@.threshold);
                }
            } else {
                break;
            }
        }
    }

    /// Gives a pixel of color `(r, g, b)` its palette index.
    pub fn resolve(&mut self, palette: &mut Vec<u8>, r: u8, g: u8, b: u8) -> (index: u8)
        requires
            old(self)@.wf(),
            old(palette)@.len() >= 3 * ASSIGNABLE,
        ensures
            final(self)@ == old(self)@.resolved(old(palette)@, r, g, b).0,
            final(palette)@ == old(self)@.resolved(old(palette)@, r, g, b).1,
            index == old(self)@.resolved(old(palette)@, r, g, b).2,
            final(self)@.wf(),
            final(palette)@.len() == old(palette)@.len(),
    {
        let k: usize = key_of(r, g, b);
        if !self.rgbhit[k] {
            self.find_slot();
            if self.nextpal >= ASSIGNABLE {
                self.dirty = true;
                UNRESOLVED
            } else {
                let s: usize = self.nextpal;
                let at: usize = s * 3;
                self.rgbhit.set(k, true);
                if self.recycling {
                    let old_key: usize = key_of(palette[at], palette[at + 1], palette[at + 2]);
                    self.rgbhit.set(old_key, false);
                }
                self.rgb2pal.set(k, s as u8);
                self.nextpal = s + 1;
                self.palstate.set(s, PALETTE_CHANGE);
                self.palhitcount.set(s, 1);
                palette.set(at, r);
                palette.set(at + 1, g);
                palette.set(at + 2, b);
                s as u8
            }
        } else {
            let s: usize = self.rgb2pal[k] as usize;
            if self.palstate[s] == 0 {
                self.palstate.set(s, PALETTE_HIT);
            }
            if self.palhitcount[s] < 255 {
                let count: i32 = self.palhitcount[s];
                self.palhitcount.set(s, count + 1);
            }
            s as u8
        }
    }
}

} // verus!
