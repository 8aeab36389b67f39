use crate::text::equals;
use vstd::prelude::*;

verus! {

/// An 8-bit-per-channel color with straight (unmultiplied) alpha.
#[derive(Clone, Copy, Debug, PartialEq, Eq, Structural)]
pub struct Rgba {
    pub r: u8,
    pub g: u8,
    pub b: u8,
    pub a: u8,
}

pub open spec fn rgb(r: u8, g: u8, b: u8) -> Rgba {
    Rgba { r, g, b, a: 255 }
}

/// The base hue of a group key.
pub open spec fn theme_of(key: Seq<char>) -> Rgba {
    if key == "cpu"@ {
        rgb(220, 30, 30)
    } else if key == "gpu"@ {
        rgb(30, 160, 220)
    } else if key == "ram"@ {
        rgb(20, 180, 90)
    } else if key == "vram"@ {
        rgb(150, 60, 180)
    } else if key == "ssd"@ {
        rgb(200, 160, 30)
    } else if key == "wifi"@ {
        rgb(64, 180, 180)
    } else if key == "eth"@ {
        rgb(200, 110, 0)
    } else if key == "chipset"@ {
        rgb(150, 60, 180)
    } else {
        rgb(220, 220, 220)
    }
}

/// The blend factor toward white, in hundredths, for the item at `i`: six steps
/// from 15 to 75.
pub open spec fn tint_percent(i: int) -> int {
    15 + 12 * (i % 6)
}

/// One channel blended toward white by `pct` hundredths, rounded down.
pub open spec fn blend_channel(c: u8, pct: int) -> int {
    c + (255 - c) * pct / 100
}

/// The color of the item at position `i` of a group whose base hue is `base`.
pub open spec fn tint_of(base: Rgba, i: int) -> Rgba {
    Rgba {
        r: blend_channel(base.r, tint_percent(i)) as u8,
        g: blend_channel(base.g, tint_percent(i)) as u8,
        b: blend_channel(base.b, tint_percent(i)) as u8,
        a: base.a,
    }
}

fn rgb_exec(r: u8, g: u8, b: u8) -> (c: Rgba)
    ensures
        c == rgb(r, g, b),
{
    Rgba { r, g, b, a: 255 }
}

/// The base hue of a group key; keys without a hue of their own get a pale
/// grey (220, 220, 220).
pub fn theme_color(key: &str) -> (c: Rgba)
    ensures
        c == theme_of(key@),
{
    if equals(key, "cpu") {
        rgb_exec(220, 30, 30)
    } else if equals(key, "gpu") {
        rgb_exec(30, 160, 220)
    } else if equals(key, "ram") {
        rgb_exec(20, 180, 90)
    } else if equals(key, "vram") {
        rgb_exec(150, 60, 180)
    } else if equals(key, "ssd") {
        rgb_exec(200, 160, 30)
    } else if equals(key, "wifi") {
        rgb_exec(64, 180, 180)
    } else if equals(key, "eth") {
        rgb_exec(200, 110, 0)
    } else if equals(key, "chipset") {
        rgb_exec(150, 60, 180)
    } else {
        rgb_exec(220, 220, 220)
    }
}

fn blend(c: u8, pct: u32) -> (r: u8)
    requires
        pct <= 100,
    ensures
        r == blend_channel(c, pct as int),
{
    let room = 255 - c as u32;
    assert(room * pct <= 25500) by (nonlinear_arith)
        requires room <= 255, pct <= 100;
    let add = room * pct / 100;
    assert(add <= room) by (nonlinear_arith)
        requires add == room * pct / 100, pct <= 100, room <= 255;
    (c as u32 + add) as u8
}

/// The color of the item at position `i` of a group whose base hue is `base`.
pub fn tint(base: Rgba, i: usize) -> (c: Rgba)
    ensures
        c == tint_of(base, i as int),
{
    let pct = 15 + 12 * ((i % 6) as u32);
    Rgba { r: blend(base.r, pct), g: blend(base.g, pct), b: blend(base.b, pct), a: base.a }
}

/// One tint of the group's hue per item, `n` of them (one when `n` is zero).
pub fn group_palette(key: &str, n: usize) -> (out: Vec<Rgba>)
    ensures
        n > 0 ==> out@.len() == n,
        n == 0 ==> out@ == seq![theme_of(key@)],
        forall|i: int| 0 <= i < n ==> out@[i] == tint_of(theme_of(key@), i),
{
    let base = theme_color(key);
    let mut out: Vec<Rgba> = Vec::new();
    let mut i: usize = 0;
    while i < n
        invariant
            i <= n,
            base == theme_of(key@),
            out@.len() == i,
            forall|k: int| 0 <= k < i ==> out@[k] == tint_of(base, k),
        decreases n - i,
    {
        out.push(tint(base, i));
        i = i + 1;
    }
    if n == 0 {
        out.push(base);
        assert(out@ =~= seq![base]);
    }
    out
}

/// A fixed set of distinct hues.
pub fn palette() -> (out: Vec<Rgba>)
    ensures
        out@ == seq![
            rgb(220, 30, 30),
            rgb(30, 160, 220),
            rgb(20, 180, 90),
            rgb(200, 110, 0),
            rgb(150, 60, 180),
            rgb(200, 160, 30),
            rgb(64, 180, 180),
            rgb(180, 80, 120),
        ],
{
    let out = vec![
        rgb_exec(220, 30, 30),
        rgb_exec(30, 160, 220),
        rgb_exec(20, 180, 90),
        rgb_exec(200, 110, 0),
        rgb_exec(150, 60, 180),
        rgb_exec(200, 160, 30),
        rgb_exec(64, 180, 180),
        rgb_exec(180, 80, 120),
    ];
    assert(out@ =~= seq![
        rgb(220, 30, 30),
        rgb(30, 160, 220),
        rgb(20, 180, 90),
        rgb(200, 110, 0),
        rgb(150, 60, 180),
        rgb(200, 160, 30),
        rgb(64, 180, 180),
        rgb(180, 80, 120),
    ]);
    out
}

} // verus!
