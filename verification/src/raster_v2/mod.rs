use vstd::prelude::*;
use vulkano::format::Format;

pub mod gpu;

pub use gpu::ImtRasterGpu;

verus! {

/// How many samples are taken in each subpixel, or in each pixel where
/// subpixels are not used: the square of the number in the name.
#[derive(Debug, Clone, Copy, PartialEq, Eq, Structural)]
pub enum ImtSSAA {
    /// 1 sample
    X1,
    /// 4 samples
    X2,
    /// 9 samples
    X3,
    /// 16 samples
    X4,
    /// 25 samples
    X5,
    /// 36 samples
    X6,
    /// 49 samples
    X7,
    /// 64 samples
    X8,
}

impl ImtSSAA {
    /// The samples along one side.
    pub open spec fn side(self) -> nat {
        match self {
            ImtSSAA::X1 => 1,
            ImtSSAA::X2 => 2,
            ImtSSAA::X3 => 3,
            ImtSSAA::X4 => 4,
            ImtSSAA::X5 => 5,
            ImtSSAA::X6 => 6,
            ImtSSAA::X7 => 7,
            ImtSSAA::X8 => 8,
        }
    }

    /// `side`, computed.
    pub fn as_uint(self) -> (n: u32)
        ensures
            n == self.side(),
    {
        match self {
            Self::X1 => 1,
            Self::X2 => 2,
            Self::X3 => 3,
            Self::X4 => 4,
            Self::X5 => 5,
            Self::X6 => 6,
            Self::X7 => 7,
            Self::X8 => 8,
        }
    }
}

impl Default for ImtSSAA {
    fn default() -> (s: Self)
        ensures
            s == ImtSSAA::X4,
    {
        ImtSSAA::X4
    }
}

/// How the subpixels of a pixel are laid out.
#[derive(Debug, Clone, Copy, PartialEq, Eq, Structural)]
pub enum ImtSubPixel {
    /// No subpixels are used.
    Off,
    /// The common layout.
    RGB,
    /// A display turned clockwise.
    VRGB,
    /// A display upside down.
    BGR,
    /// A display turned counter-clockwise.
    VBGR,
}

impl ImtSubPixel {
    /// The number that stands for the layout in a shader.
    pub open spec fn code(self) -> nat {
        match self {
            ImtSubPixel::Off => 0,
            ImtSubPixel::RGB => 1,
            ImtSubPixel::VRGB => 2,
            ImtSubPixel::BGR => 3,
            ImtSubPixel::VBGR => 4,
        }
    }

    /// `code`, computed.
    pub fn as_uint(self) -> (n: u32)
        ensures
            n == self.code(),
    {
        match self {
            Self::Off => 0,
            Self::RGB => 1,
            Self::VRGB => 2,
            Self::BGR => 3,
            Self::VBGR => 4,
        }
    }

    /// By how much the layout multiplies the samples across and down.
    pub open spec fn spread(self) -> (nat, nat) {
        match self {
            ImtSubPixel::Off => (1, 1),
            ImtSubPixel::RGB | ImtSubPixel::BGR => (3, 1),
            ImtSubPixel::VRGB | ImtSubPixel::VBGR => (1, 3),
        }
    }
}

impl Default for ImtSubPixel {
    fn default() -> (s: Self)
        ensures
            s == ImtSubPixel::RGB,
    {
        ImtSubPixel::RGB
    }
}

/// The choices that govern rasterizing by stencil.
#[derive(Debug, Clone, Copy, PartialEq)]
pub struct ImtRasterOps {
    pub ssaa: ImtSSAA,
    pub subpixel: ImtSubPixel,
    /// The format of the image of a bitmap.
    pub bitmap_format: Format,
}

impl ImtRasterOps {
    /// The size of the stencil for a bitmap of `width` by `height` pixels:
    /// each pixel holds `ssaa` samples across and down, three times as many
    /// in the direction in which its subpixels lie. `None` where a side does
    /// not fit 32 bits.
    pub fn stencil_extent(&self, width: u32, height: u32) -> (r: Option<[u32; 2]>)
        ensures
            ({
                let w = width * self.ssaa.side() * self.subpixel.spread().0;
                let h = height * self.ssaa.side() * self.subpixel.spread().1;
                &&& r is Some <==> w <= u32::MAX && h <= u32::MAX
                &&& r matches Some(e) ==> e[0] == w && e[1] == h
            }),
    {
        let ssaa = self.ssaa.as_uint() as u64;
        let (across, down): (u64, u64) = match self.subpixel {
            ImtSubPixel::Off => (1, 1),
            ImtSubPixel::RGB | ImtSubPixel::BGR => (3, 1),
            ImtSubPixel::VRGB | ImtSubPixel::VBGR => (1, 3),
        };
        assert(width * ssaa * across <= 0xffff_ffff * 24 && height * ssaa * down <= 0xffff_ffff
            * 24) by (nonlinear_arith)
            requires
                width <= 0xffff_ffff,
                height <= 0xffff_ffff,
                ssaa <= 8,
                across <= 3,
                down <= 3,
        ;
        let w: u64 = width as u64 * ssaa * across;
        let h: u64 = height as u64 * ssaa * down;
        if w <= u32::MAX as u64 && h <= u32::MAX as u64 {
            Some([w as u32, h as u32])
        } else {
            None
        }
    }
}

} // verus!
