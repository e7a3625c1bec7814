//! The built-in palettes.

use vstd::prelude::*;

verus! {

/// Black, then white.
pub open spec fn mono_dark() -> Seq<u8> {
    seq![0x00u8, 0x00u8, 0x00u8, 0xffu8, 0xffu8, 0xffu8]
}

/// White, then black.
pub open spec fn mono_light() -> Seq<u8> {
    seq![0xffu8, 0xffu8, 0xffu8, 0x00u8, 0x00u8, 0x00u8]
}

/// The gray ramp of `levels` steps from black to white, `levels` being 2, 4,
/// 16 or 256: slot `i` has the value `i * 255 / (levels - 1)` in each
/// channel.
pub open spec fn gray_ramp(levels: int) -> Seq<u8> {
    Seq::new((3 * levels) as nat, |i: int| (((i / 3) * 255) / (levels - 1)) as u8)
}

/// The sixteen gray levels of the VT340, in the order in which the terminal
/// loads them.
pub open spec fn vt340_level(slot: int) -> u8 {
    let k = slot % 8;
    if k == 0 {
        0x21u8
    } else if k == 1 {
        0x42u8
    } else if k == 2 {
        0x66u8
    } else if k == 3 {
        0x0Fu8
    } else if k == 4 {
        0x33u8
    } else if k == 5 {
        0x54u8
    } else if k == 6 {
        0x75u8
    } else {
        0x00u8
    }
}

/// The VT340 palette: sixteen slots, each a gray of `vt340_level`.
pub open spec fn vt340() -> Seq<u8> {
    Seq::new(48, |i: int| vt340_level(i / 3))
}

/// One level of the xterm color cube, for a coordinate of 0 to 5.
pub open spec fn cube_level(v: int) -> u8 {
    if v == 0 {
        0u8
    } else {
        (55 + 40 * v) as u8
    }
}

/// Channel `ch` (0 red, 1 green, 2 blue) of slot `slot` of the xterm palette
/// of 256 colors: eight dim and eight bright system colors, a cube of six
/// levels per channel, and a ramp of 24 grays.
pub open spec fn xterm_channel(slot: int, ch: int) -> u8 {
    if slot < 16 {
        if slot == 7 {
            0xc0u8
        } else if slot == 8 {
            0x80u8
        } else {
            let on = ((slot % 8) / (if ch == 0 {
                1int
            } else if ch == 1 {
                2int
            } else {
                4int
            })) % 2 == 1;
            if !on {
                0u8
            } else if slot < 8 {
                0x80u8
            } else {
                0xffu8
            }
        }
    } else if slot < 232 {
        let c = slot - 16;
        cube_level(
            if ch == 0 {
                c / 36
            } else if ch == 1 {
                (c / 6) % 6
            } else {
                c % 6
            },
        )
    } else {
        (8 + 10 * (slot - 232)) as u8
    }
}

/// The xterm palette of 256 colors.
pub open spec fn xterm256() -> Seq<u8> {
    Seq::new(768, |i: int| xterm_channel(i / 3, i % 3))
}

/// Builds the palette of black and white.
pub fn pal_mono_dark() -> (p: Vec<u8>)
    ensures
        p@ == mono_dark(),
{
    let mut p: Vec<u8> = Vec::new();
    p.push(0x00);
    p.push(0x00);
    p.push(0x00);
    p.push(0xff);
    p.push(0xff);
    p.push(0xff);
    assert(p@ =~= mono_dark());
    p
}

/// Builds the palette of white and black.
pub fn pal_mono_light() -> (p: Vec<u8>)
    ensures
        p@ == mono_light(),
{
    let mut p: Vec<u8> = Vec::new();
    p.push(0xff);
    p.push(0xff);
    p.push(0xff);
    p.push(0x00);
    p.push(0x00);
    p.push(0x00);
    assert(p@ =~= mono_light());
    p
}

/// Builds the gray ramp of `levels` steps.
pub fn pal_gray(levels: usize) -> (p: Vec<u8>)
    requires
        levels == 2 || levels == 4 || levels == 16 || levels == 256,
    ensures
        p@ == gray_ramp(levels as int),
{
    let mut p: Vec<u8> = Vec::new();
    let mut slot: usize = 0;
    while slot < levels
        invariant
            slot <= levels,
            levels == 2 || levels == 4 || levels == 16 || levels == 256,
            p@.len() == 3 * slot,
            forall|i: int|
                0 <= i < 3 * slot ==> #[trigger] p@[i] == (((i / 3) * 255) / (levels - 1)) as u8,
        decreases levels - slot,
    {
        let v: u8 = ((slot * 255) / (levels - 1)) as u8;
        p.push(v);
        p.push(v);
        p.push(v);
        slot = slot + 1;
    }
    assert(p@ =~= gray_ramp(levels as int));
    p
}

/// Builds the VT340 palette.
pub fn pal_vt340() -> (p: Vec<u8>)
    ensures
        p@ == vt340(),
{
    let mut p: Vec<u8> = Vec::new();
    let mut slot: usize = 0;
    while slot < 16
        invariant
            slot <= 16,
            p@.len() == 3 * slot,
            forall|i: int| 0 <= i < 3 * slot ==> #[trigger] p@[i] == vt340_level(i / 3),
        decreases 16 - slot,
    {
        let k: usize = slot % 8;
        let v: u8 = if k == 0 {
            0x21
        } else if k == 1 {
            0x42
        } else if k == 2 {
            0x66
        } else if k == 3 {
            0x0F
        } else if k == 4 {
            0x33
        } else if k == 5 {
            0x54
        } else if k == 6 {
            0x75
        } else {
            0x00
        };
        p.push(v);
        p.push(v);
        p.push(v);
        slot = slot + 1;
    }
    assert(p@ =~= vt340());
    p
}

/// Computes one channel of one slot of the xterm palette.
fn xterm_value(slot: usize, ch: usize) -> (v: u8)
    requires
        slot < 256,
        ch < 3,
    ensures
        v == xterm_channel(slot as int, ch as int),
{
    if slot < 16 {
        if slot == 7 {
            0xc0
        } else if slot == 8 {
            0x80
        } else {
            let bit: usize = if ch == 0 {
                1
            } else if ch == 1 {
                2
            } else {
                4
            };
            let on: bool = ((slot % 8) / bit) % 2 == 1;
            if !on {
                0
            } else if slot < 8 {
                0x80
            } else {
                0xff
            }
        }
    } else if slot < 232 {
        let c: usize = slot - 16;
        let coordinate: usize = if ch == 0 {
            c / 36
        } else if ch == 1 {
            (c / 6) % 6
        } else {
            c % 6
        };
        if coordinate == 0 {
            0
        } else {
            (55 + 40 * coordinate) as u8
        }
    } else {
        (8 + 10 * (slot - 232)) as u8
    }
}

/// Builds the xterm palette of 256 colors.
pub fn pal_xterm256() -> (p: Vec<u8>)
    ensures
        p@ == xterm256(),
{
    let mut p: Vec<u8> = Vec::new();
    let mut slot: usize = 0;
    while slot < 256
        invariant
            slot <= 256,
            p@.len() == 3 * slot,
            forall|i: int| 0 <= i < 3 * slot ==> #[trigger] p@[i] == xterm_channel(i / 3, i % 3),
        decreases 256 - slot,
    {
        let r: u8 = xterm_value(slot, 0);
        let g: u8 = xterm_value(slot, 1);
        let b: u8 = xterm_value(slot, 2);
        p.push(r);
        p.push(g);
        p.push(b);
        slot = slot + 1;
    }
    assert(p@ =~= xterm256());
    p
}

} // verus!
