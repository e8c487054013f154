use vstd::prelude::*;

verus! {

/// How a finished image is encoded for a character terminal.
#[derive(Debug, Clone, Copy, PartialEq, Eq, Structural)]
pub enum OutputMode {
    /// Braille patterns: a 2 by 4 dot matrix per character cell.
    Braille,
    /// One full block per pixel in 24-bit color.
    TrueColor,
    /// Half blocks: two pixels stacked in one cell.
    HalfBlock,
    /// A grayscale density ramp of ASCII characters.
    Ascii,
}

/// The operator that compresses high-dynamic-range radiance into [0, 1].
#[derive(Debug, Clone, Copy, PartialEq, Eq, Structural)]
pub enum ToneMapOp {
    /// No compression: channels are only clamped when quantized.
    Clamp,
    /// Reinhard's global operator, `x / (1 + x)` per channel.
    Reinhard,
    /// The ACES filmic curve, `x(2.51x + 0.03) / (x(2.43x + 0.59) + 0.14)`, clamped.
    Aces,
}

/// The built-in scenes.
#[derive(Debug, Clone, Copy, PartialEq, Eq, Structural)]
pub enum ScenePreset {
    /// Diffuse, metal and glass spheres scattered over a checkered ground.
    Showcase,
    /// A box of colored walls lit by an area light.
    Cornell,
    /// One reflective sphere on a ground plane.
    Minimal,
    /// Every kind of primitive and material side by side.
    Gallery,
    /// Many small random objects, to exercise the hierarchy.
    Stress,
}

/// The settings that stay fixed for the whole of one render.
#[derive(Debug, Clone, Copy, PartialEq, Eq, Structural)]
pub struct RenderConfig {
    pub width: u32,
    pub height: u32,
    pub samples_per_pixel: u32,
    pub max_bounces: u32,
    pub output_mode: OutputMode,
    pub gamma: bool,
    pub tone_map: ToneMapOp,
}

impl Default for RenderConfig {
    fn default() -> (r: RenderConfig)
        ensures
            r == (RenderConfig {
                width: 160,
                height: 80,
                samples_per_pixel: 50,
                max_bounces: 12,
                output_mode: OutputMode::TrueColor,
                gamma: true,
                tone_map: ToneMapOp::Clamp,
            }),
    {
        RenderConfig {
            width: 160,
            height: 80,
            samples_per_pixel: 50,
            max_bounces: 12,
            output_mode: OutputMode::TrueColor,
            gamma: true,
            tone_map: ToneMapOp::Clamp,
        }
    }
}

/// Number of primary rays a render with this configuration shoots.
pub open spec fn spec_total_rays(c: RenderConfig) -> int {
    c.width as int * c.height as int * c.samples_per_pixel as int
}

impl RenderConfig {
    /// Pixels in the image.
    pub fn pixel_count(&self) -> (r: u64)
        ensures
            r == self.width as int * self.height as int,
    {
        let w = self.width as u64;
        let h = self.height as u64;
        assert(w * h <= 0xffff_ffffu64 * 0xffff_ffffu64) by (nonlinear_arith)
            requires
                w <= 0xffff_ffffu64,
                h <= 0xffff_ffffu64,
        ;
        w * h
    }

    /// Primary rays of the whole render: one per sample of each pixel.
    pub fn total_rays(&self) -> (r: u64)
        requires
            spec_total_rays(*self) <= u64::MAX,
        ensures
            r == spec_total_rays(*self),
    {
        let p = self.pixel_count();
        p * (self.samples_per_pixel as u64)
    }
}

impl OutputMode {
    /// The name under which the mode is announced before a render.
    pub fn label(self) -> (r: &'static str)
        ensures
            r@ == output_mode_label(self),
    {
        match self {
            OutputMode::Braille => "Braille (2\u{d7}4 subpixel)",
            OutputMode::TrueColor => "TrueColor (24-bit)",
            OutputMode::HalfBlock => "HalfBlock (2\u{d7} vertical)",
            OutputMode::Ascii => "ASCII grayscale",
        }
    }
}

/// The announced name of each output mode.
pub open spec fn output_mode_label(m: OutputMode) -> Seq<char> {
    match m {
        OutputMode::Braille => "Braille (2\u{d7}4 subpixel)"@,
        OutputMode::TrueColor => "TrueColor (24-bit)"@,
        OutputMode::HalfBlock => "HalfBlock (2\u{d7} vertical)"@,
        OutputMode::Ascii => "ASCII grayscale"@,
    }
}

impl ToneMapOp {
    /// The name under which the operator is announced before a render.
    pub fn label(self) -> (r: &'static str)
        ensures
            r@ == tone_map_label(self),
    {
        match self {
            ToneMapOp::Clamp => "None (clamp)",
            ToneMapOp::Reinhard => "Reinhard",
            ToneMapOp::Aces => "ACES Filmic",
        }
    }
}

/// The announced name of each tone-mapping operator.
pub open spec fn tone_map_label(t: ToneMapOp) -> Seq<char> {
    match t {
        ToneMapOp::Clamp => "None (clamp)"@,
        ToneMapOp::Reinhard => "Reinhard"@,
        ToneMapOp::Aces => "ACES Filmic"@,
    }
}

} // verus!
