use vstd::prelude::*;

verus! {

/// Number of fixed-point units per CIE-Lab unit: channels are stored in hundredths.
pub const LAB_SCALE: u32 = 100;

/// An 8-bit sRGB color.
#[derive(Debug, Clone, Copy, PartialEq, Eq, Structural)]
pub struct ColorRgb {
    pub r: u8,
    pub g: u8,
    pub b: u8,
}

impl ColorRgb {
    pub fn new(r: u8, g: u8, b: u8) -> (c: ColorRgb)
        ensures
            c == (ColorRgb { r, g, b }),
    {
        ColorRgb { r, g, b }
    }

    pub fn r(&self) -> (v: u8)
        ensures
            v == self.r,
    {
        self.r
    }

    pub fn g(&self) -> (v: u8)
        ensures
            v == self.g,
    {
        self.g
    }

    pub fn b(&self) -> (v: u8)
        ensures
            v == self.b,
    {
        self.b
    }

    pub fn values(&self) -> (v: (u8, u8, u8))
        ensures
            v == (self.r, self.g, self.b),
    {
        (self.r, self.g, self.b)
    }
}

/// A CIE-Lab color in fixed point: each channel counts hundredths of a Lab unit
/// (`l == 5025` stands for L* = 50.25).
#[derive(Debug, Clone, Copy, PartialEq, Eq, Structural)]
pub struct ColorCieLab {
    pub l: i32,
    pub a: i32,
    pub b: i32,
}

impl ColorCieLab {
    pub fn new(l: i32, a: i32, b: i32) -> (c: ColorCieLab)
        ensures
            c == (ColorCieLab { l, a, b }),
    {
        ColorCieLab { l, a, b }
    }

    pub fn l(&self) -> (v: i32)
        ensures
            v == self.l,
    {
        self.l
    }

    pub fn a(&self) -> (v: i32)
        ensures
            v == self.a,
    {
        self.a
    }

    pub fn b(&self) -> (v: i32)
        ensures
            v == self.b,
    {
        self.b
    }

    pub fn values(&self) -> (v: (i32, i32, i32))
        ensures
            v == (self.l, self.a, self.b),
    {
        (self.l, self.a, self.b)
    }
}

} // verus!
