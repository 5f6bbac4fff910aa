use crate::error::ProcreateError;
use vstd::prelude::*;

verus! {

/// How a layer is combined with what lies under it.
#[derive(Debug, Clone, Copy, PartialEq, Eq, Structural)]
pub enum BlendingMode {
    Normal,
    Multiply,
    Screen,
    Add,
    Lighten,
    Exclusion,
    Difference,
    Subtract,
    LinearBurn,
    ColorDodge,
    ColorBurn,
    Overlay,
    HardLight,
    Color,
    Luminosity,
    Hue,
    Saturation,
    SoftLight,
    Darken,
    HardMix,
    VividLight,
    LinearLight,
    PinLight,
    LighterColor,
    DarkerColor,
    Divide,
}

/// The code under which a mode is stored in a document.
pub open spec fn blend_code(m: BlendingMode) -> u32 {
    match m {
        BlendingMode::Normal => 0,
        BlendingMode::Multiply => 1,
        BlendingMode::Screen => 2,
        BlendingMode::Add => 3,
        BlendingMode::Lighten => 4,
        BlendingMode::Exclusion => 5,
        BlendingMode::Difference => 6,
        BlendingMode::Subtract => 7,
        BlendingMode::LinearBurn => 8,
        BlendingMode::ColorDodge => 9,
        BlendingMode::ColorBurn => 10,
        BlendingMode::Overlay => 11,
        BlendingMode::HardLight => 12,
        BlendingMode::Color => 13,
        BlendingMode::Luminosity => 14,
        BlendingMode::Hue => 15,
        BlendingMode::Saturation => 16,
        BlendingMode::SoftLight => 17,
        BlendingMode::Darken => 19,
        BlendingMode::HardMix => 20,
        BlendingMode::VividLight => 21,
        BlendingMode::LinearLight => 22,
        BlendingMode::PinLight => 23,
        BlendingMode::LighterColor => 24,
        BlendingMode::DarkerColor => 25,
        BlendingMode::Divide => 26,
    }
}

/// The codes that name a mode: 0 to 26, without the reserved 18.
pub open spec fn is_blend_code(c: u32) -> bool {
    c <= 26 && c != 18
}

/// The human-readable name of a mode.
pub open spec fn blend_name(m: BlendingMode) -> Seq<char> {
    match m {
        BlendingMode::Normal => "Normal"@,
        BlendingMode::Multiply => "Multiply"@,
        BlendingMode::Screen => "Screen"@,
        BlendingMode::Add => "Add"@,
        BlendingMode::Lighten => "Lighten"@,
        BlendingMode::Exclusion => "Exclusion"@,
        BlendingMode::Difference => "Difference"@,
        BlendingMode::Subtract => "Subtract"@,
        BlendingMode::LinearBurn => "Linear Burn"@,
        BlendingMode::ColorDodge => "Color Dodge"@,
        BlendingMode::ColorBurn => "Color Burn"@,
        BlendingMode::Overlay => "Overlay"@,
        BlendingMode::HardLight => "Hard Light"@,
        BlendingMode::Color => "Color"@,
        BlendingMode::Luminosity => "Luminosity"@,
        BlendingMode::Hue => "Hue"@,
        BlendingMode::Saturation => "Saturation"@,
        BlendingMode::SoftLight => "Soft Light"@,
        BlendingMode::Darken => "Darken"@,
        BlendingMode::HardMix => "Hard Mix"@,
        BlendingMode::VividLight => "Vivid Light"@,
        BlendingMode::LinearLight => "Linear Light"@,
        BlendingMode::PinLight => "Pin Light"@,
        BlendingMode::LighterColor => "Lighter Color"@,
        BlendingMode::DarkerColor => "Darker Color"@,
        BlendingMode::Divide => "Divide"@,
    }
}

impl BlendingMode {
    pub fn as_str(&self) -> (r: &'static str)
        ensures
            r@ == blend_name(*self),
    {
        match self {
            BlendingMode::Normal => "Normal",
            BlendingMode::Multiply => "Multiply",
            BlendingMode::Screen => "Screen",
            BlendingMode::Add => "Add",
            BlendingMode::Lighten => "Lighten",
            BlendingMode::Exclusion => "Exclusion",
            BlendingMode::Difference => "Difference",
            BlendingMode::Subtract => "Subtract",
            BlendingMode::LinearBurn => "Linear Burn",
            BlendingMode::ColorDodge => "Color Dodge",
            BlendingMode::ColorBurn => "Color Burn",
            BlendingMode::Overlay => "Overlay",
            BlendingMode::HardLight => "Hard Light",
            BlendingMode::Color => "Color",
            BlendingMode::Luminosity => "Luminosity",
            BlendingMode::Hue => "Hue",
            BlendingMode::Saturation => "Saturation",
            BlendingMode::SoftLight => "Soft Light",
            BlendingMode::Darken => "Darken",
            BlendingMode::HardMix => "Hard Mix",
            BlendingMode::VividLight => "Vivid Light",
            BlendingMode::LinearLight => "Linear Light",
            BlendingMode::PinLight => "Pin Light",
            BlendingMode::LighterColor => "Lighter Color",
            BlendingMode::DarkerColor => "Darker Color",
            BlendingMode::Divide => "Divide",
        }
    }

    /// Reads a stored code; the reserved 18 and anything above 26 are rejected.
    pub fn from_u32(blend: u32) -> (r: Result<Self, ProcreateError>)
        ensures
            r is Ok <==> is_blend_code(blend),
            r matches Ok(m) ==> blend_code(m) == blend,
            r matches Err(e) ==> e is InvalidValue,
    {
        match blend {
            0 => Ok(BlendingMode::Normal),
            1 => Ok(BlendingMode::Multiply),
            2 => Ok(BlendingMode::Screen),
            3 => Ok(BlendingMode::Add),
            4 => Ok(BlendingMode::Lighten),
            5 => Ok(BlendingMode::Exclusion),
            6 => Ok(BlendingMode::Difference),
            7 => Ok(BlendingMode::Subtract),
            8 => Ok(BlendingMode::LinearBurn),
            9 => Ok(BlendingMode::ColorDodge),
            10 => Ok(BlendingMode::ColorBurn),
            11 => Ok(BlendingMode::Overlay),
            12 => Ok(BlendingMode::HardLight),
            13 => Ok(BlendingMode::Color),
            14 => Ok(BlendingMode::Luminosity),
            15 => Ok(BlendingMode::Hue),
            16 => Ok(BlendingMode::Saturation),
            17 => Ok(BlendingMode::SoftLight),
            19 => Ok(BlendingMode::Darken),
            20 => Ok(BlendingMode::HardMix),
            21 => Ok(BlendingMode::VividLight),
            22 => Ok(BlendingMode::LinearLight),
            23 => Ok(BlendingMode::PinLight),
            24 => Ok(BlendingMode::LighterColor),
            25 => Ok(BlendingMode::DarkerColor),
            26 => Ok(BlendingMode::Divide),
            _ => Err(ProcreateError::InvalidValue),
        }
    }

    pub fn to_u32(self) -> (r: u32)
        ensures
            r == blend_code(self),
            is_blend_code(r),
    {
        match self {
            BlendingMode::Normal => 0,
            BlendingMode::Multiply => 1,
            BlendingMode::Screen => 2,
            BlendingMode::Add => 3,
            BlendingMode::Lighten => 4,
            BlendingMode::Exclusion => 5,
            BlendingMode::Difference => 6,
            BlendingMode::Subtract => 7,
            BlendingMode::LinearBurn => 8,
            BlendingMode::ColorDodge => 9,
            BlendingMode::ColorBurn => 10,
            BlendingMode::Overlay => 11,
            BlendingMode::HardLight => 12,
            BlendingMode::Color => 13,
            BlendingMode::Luminosity => 14,
            BlendingMode::Hue => 15,
            BlendingMode::Saturation => 16,
            BlendingMode::SoftLight => 17,
            BlendingMode::Darken => 19,
            BlendingMode::HardMix => 20,
            BlendingMode::VividLight => 21,
            BlendingMode::LinearLight => 22,
            BlendingMode::PinLight => 23,
            BlendingMode::LighterColor => 24,
            BlendingMode::DarkerColor => 25,
            BlendingMode::Divide => 26,
        }
    }
}

/// Reading back the code of a mode gives the same mode.
pub proof fn lemma_blend_code_round_trip(m: BlendingMode)
    ensures
        is_blend_code(blend_code(m)),
        forall|n: BlendingMode| blend_code(n) == blend_code(m) ==> n == m,
{
}

} // verus!
