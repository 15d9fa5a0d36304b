//! Enumerations of the graphics pipe and their hardware codes.

use vstd::prelude::*;

verus! {

/// Primitive topology of a draw.
#[derive(Clone, Copy, PartialEq, Eq, Structural)]
pub enum Primitive {
    Quads,
    Triangles,
    TriangleStrip,
    TriangleFan,
    Lines,
    LineStrip,
    Points,
}

impl Primitive {
    /// The code the hardware takes.
    pub open spec fn spec_code(self) -> u8 {
        match self {
            Primitive::Quads => 0x80,
            Primitive::Triangles => 0x90,
            Primitive::TriangleStrip => 0x98,
            Primitive::TriangleFan => 0xa0,
            Primitive::Lines => 0xa8,
            Primitive::LineStrip => 0xb0,
            Primitive::Points => 0xb8,
        }
    }

    /// The code the hardware takes.
    pub fn code(self) -> (r: u8)
        ensures
            r == self.spec_code(),
    {
        match self {
            Primitive::Quads => 0x80,
            Primitive::Triangles => 0x90,
            Primitive::TriangleStrip => 0x98,
            Primitive::TriangleFan => 0xa0,
            Primitive::Lines => 0xa8,
            Primitive::LineStrip => 0xb0,
            Primitive::Points => 0xb8,
        }
    }
}

/// Each primitive's code is its GX draw opcode (quads 0x80, triangles
/// 0x90, triangle strip 0x98, triangle fan 0xA0, lines 0xA8, line strip
/// 0xB0, points 0xB8): distinct primitives have distinct codes, and the low
/// three bits are left free for the vertex format.
pub proof fn primitive_code_law(p: Primitive, q: Primitive)
    ensures
        p.spec_code() & 7 == 0,
        p != q ==> p.spec_code() != q.spec_code(),
        p == Primitive::Quads ==> p.spec_code() == 0x80,
        p == Primitive::Triangles ==> p.spec_code() == 0x90,
        p == Primitive::TriangleStrip ==> p.spec_code() == 0x98,
        p == Primitive::TriangleFan ==> p.spec_code() == 0xA0,
        p == Primitive::Lines ==> p.spec_code() == 0xA8,
        p == Primitive::LineStrip ==> p.spec_code() == 0xB0,
        p == Primitive::Points ==> p.spec_code() == 0xB8,
{
    let c = p.spec_code();
    assert(c & 7 == 0) by (bit_vector)
        requires
            c == 0x80 || c == 0x90 || c == 0x98 || c == 0xa0 || c == 0xa8 || c == 0xb0 || c == 0xb8,
    ;
}

/// Each vertex format's code is its slot number, 0 to 7.
pub proof fn vtx_fmt_code_law(f: VtxFmt, g: VtxFmt)
    ensures
        f.spec_code() < 8,
        f != g ==> f.spec_code() != g.spec_code(),
        f == VtxFmt::Fmt0 ==> f.spec_code() == 0,
        f == VtxFmt::Fmt7 ==> f.spec_code() == 7,
{
}

/// Vertex format slot.
#[derive(Clone, Copy, PartialEq, Eq, Structural)]
pub enum VtxFmt {
    Fmt0,
    Fmt1,
    Fmt2,
    Fmt3,
    Fmt4,
    Fmt5,
    Fmt6,
    Fmt7,
}

impl VtxFmt {
    /// The code the hardware takes.
    pub open spec fn spec_code(self) -> u8 {
        match self {
            VtxFmt::Fmt0 => 0,
            VtxFmt::Fmt1 => 1,
            VtxFmt::Fmt2 => 2,
            VtxFmt::Fmt3 => 3,
            VtxFmt::Fmt4 => 4,
            VtxFmt::Fmt5 => 5,
            VtxFmt::Fmt6 => 6,
            VtxFmt::Fmt7 => 7,
        }
    }

    /// The code the hardware takes.
    pub fn code(self) -> (r: u8)
        ensures
            r == self.spec_code(),
    {
        match self {
            VtxFmt::Fmt0 => 0,
            VtxFmt::Fmt1 => 1,
            VtxFmt::Fmt2 => 2,
            VtxFmt::Fmt3 => 3,
            VtxFmt::Fmt4 => 4,
            VtxFmt::Fmt5 => 5,
            VtxFmt::Fmt6 => 6,
            VtxFmt::Fmt7 => 7,
        }
    }
}

/// How a vertex attribute is supplied (absent, inline, or by 8- or 16-bit index).
#[derive(Clone, Copy, PartialEq, Eq, Structural)]
pub enum AttrType {
    Absent,
    Direct,
    Index8,
    Index16,
}

impl AttrType {
    /// The code the hardware takes.
    pub open spec fn spec_code(self) -> u8 {
        match self {
            AttrType::Absent => 0,
            AttrType::Direct => 1,
            AttrType::Index8 => 2,
            AttrType::Index16 => 3,
        }
    }

    /// The code the hardware takes.
    pub fn code(self) -> (r: u8)
        ensures
            r == self.spec_code(),
    {
        match self {
            AttrType::Absent => 0,
            AttrType::Direct => 1,
            AttrType::Index8 => 2,
            AttrType::Index16 => 3,
        }
    }
}

/// Components of a position or normal.
#[derive(Clone, Copy, PartialEq, Eq, Structural)]
pub enum PosComp {
    Xy,
    Xyz,
}

impl PosComp {
    /// The code the hardware takes.
    pub open spec fn spec_code(self) -> u8 {
        match self {
            PosComp::Xy => 0,
            PosComp::Xyz => 1,
        }
    }

    /// The code the hardware takes.
    pub fn code(self) -> (r: u8)
        ensures
            r == self.spec_code(),
    {
        match self {
            PosComp::Xy => 0,
            PosComp::Xyz => 1,
        }
    }
}

/// Scalar type of a vertex component.
#[derive(Clone, Copy, PartialEq, Eq, Structural)]
pub enum CompType {
    U8,
    S8,
    U16,
    S16,
    F32,
}

impl CompType {
    /// The code the hardware takes.
    pub open spec fn spec_code(self) -> u8 {
        match self {
            CompType::U8 => 0,
            CompType::S8 => 1,
            CompType::U16 => 2,
            CompType::S16 => 3,
            CompType::F32 => 4,
        }
    }

    /// The code the hardware takes.
    pub fn code(self) -> (r: u8)
        ensures
            r == self.spec_code(),
    {
        match self {
            CompType::U8 => 0,
            CompType::S8 => 1,
            CompType::U16 => 2,
            CompType::S16 => 3,
            CompType::F32 => 4,
        }
    }
}

/// Colour component format.
#[derive(Clone, Copy, PartialEq, Eq, Structural)]
pub enum ColorFmt {
    Rgb565,
    Rgb8,
    Rgbx8,
    Rgba4,
    Rgba6,
    Rgba8,
}

impl ColorFmt {
    /// The code the hardware takes.
    pub open spec fn spec_code(self) -> u8 {
        match self {
            ColorFmt::Rgb565 => 0,
            ColorFmt::Rgb8 => 1,
            ColorFmt::Rgbx8 => 2,
            ColorFmt::Rgba4 => 3,
            ColorFmt::Rgba6 => 4,
            ColorFmt::Rgba8 => 5,
        }
    }

    /// The code the hardware takes.
    pub fn code(self) -> (r: u8)
        ensures
            r == self.spec_code(),
    {
        match self {
            ColorFmt::Rgb565 => 0,
            ColorFmt::Rgb8 => 1,
            ColorFmt::Rgbx8 => 2,
            ColorFmt::Rgba4 => 3,
            ColorFmt::Rgba6 => 4,
            ColorFmt::Rgba8 => 5,
        }
    }
}

/// Which faces are culled.
#[derive(Clone, Copy, PartialEq, Eq, Structural)]
pub enum CullMode {
    Off,
    Front,
    Back,
    All,
}

impl CullMode {
    /// The code the hardware takes.
    pub open spec fn spec_code(self) -> u8 {
        match self {
            CullMode::Off => 0,
            CullMode::Front => 1,
            CullMode::Back => 2,
            CullMode::All => 3,
        }
    }

    /// The code the hardware takes.
    pub fn code(self) -> (r: u8)
        ensures
            r == self.spec_code(),
    {
        match self {
            CullMode::Off => 0,
            CullMode::Front => 1,
            CullMode::Back => 2,
            CullMode::All => 3,
        }
    }
}

/// Depth-test comparison.
#[derive(Clone, Copy, PartialEq, Eq, Structural)]
pub enum Compare {
    Never,
    Less,
    Equal,
    LEqual,
    Greater,
    NEqual,
    GEqual,
    Always,
}

impl Compare {
    /// The code the hardware takes.
    pub open spec fn spec_code(self) -> u8 {
        match self {
            Compare::Never => 0,
            Compare::Less => 1,
            Compare::Equal => 2,
            Compare::LEqual => 3,
            Compare::Greater => 4,
            Compare::NEqual => 5,
            Compare::GEqual => 6,
            Compare::Always => 7,
        }
    }

    /// The code the hardware takes.
    pub fn code(self) -> (r: u8)
        ensures
            r == self.spec_code(),
    {
        match self {
            Compare::Never => 0,
            Compare::Less => 1,
            Compare::Equal => 2,
            Compare::LEqual => 3,
            Compare::Greater => 4,
            Compare::NEqual => 5,
            Compare::GEqual => 6,
            Compare::Always => 7,
        }
    }
}

/// Blending mode.
#[derive(Clone, Copy, PartialEq, Eq, Structural)]
pub enum BlendMode {
    Off,
    Blend,
    Logic,
    Subtract,
}

impl BlendMode {
    /// The code the hardware takes.
    pub open spec fn spec_code(self) -> u8 {
        match self {
            BlendMode::Off => 0,
            BlendMode::Blend => 1,
            BlendMode::Logic => 2,
            BlendMode::Subtract => 3,
        }
    }

    /// The code the hardware takes.
    pub fn code(self) -> (r: u8)
        ensures
            r == self.spec_code(),
    {
        match self {
            BlendMode::Off => 0,
            BlendMode::Blend => 1,
            BlendMode::Logic => 2,
            BlendMode::Subtract => 3,
        }
    }
}

/// Blend factor.
#[derive(Clone, Copy, PartialEq, Eq, Structural)]
pub enum BlendFactor {
    Zero,
    One,
    SrcColor,
    InvSrcColor,
    SrcAlpha,
    InvSrcAlpha,
    DstAlpha,
    InvDstAlpha,
}

impl BlendFactor {
    /// The code the hardware takes.
    pub open spec fn spec_code(self) -> u8 {
        match self {
            BlendFactor::Zero => 0,
            BlendFactor::One => 1,
            BlendFactor::SrcColor => 2,
            BlendFactor::InvSrcColor => 3,
            BlendFactor::SrcAlpha => 4,
            BlendFactor::InvSrcAlpha => 5,
            BlendFactor::DstAlpha => 6,
            BlendFactor::InvDstAlpha => 7,
        }
    }

    /// The code the hardware takes.
    pub fn code(self) -> (r: u8)
        ensures
            r == self.spec_code(),
    {
        match self {
            BlendFactor::Zero => 0,
            BlendFactor::One => 1,
            BlendFactor::SrcColor => 2,
            BlendFactor::InvSrcColor => 3,
            BlendFactor::SrcAlpha => 4,
            BlendFactor::InvSrcAlpha => 5,
            BlendFactor::DstAlpha => 6,
            BlendFactor::InvDstAlpha => 7,
        }
    }
}

/// Embedded framebuffer pixel format.
#[derive(Clone, Copy, PartialEq, Eq, Structural)]
pub enum PixelFmt {
    Rgb8Z24,
    Rgba6Z24,
    Rgb565Z16,
    Z24,
    Y8,
}

impl PixelFmt {
    /// The code the hardware takes.
    pub open spec fn spec_code(self) -> u8 {
        match self {
            PixelFmt::Rgb8Z24 => 0,
            PixelFmt::Rgba6Z24 => 1,
            PixelFmt::Rgb565Z16 => 2,
            PixelFmt::Z24 => 3,
            PixelFmt::Y8 => 4,
        }
    }

    /// The code the hardware takes.
    pub fn code(self) -> (r: u8)
        ensures
            r == self.spec_code(),
    {
        match self {
            PixelFmt::Rgb8Z24 => 0,
            PixelFmt::Rgba6Z24 => 1,
            PixelFmt::Rgb565Z16 => 2,
            PixelFmt::Z24 => 3,
            PixelFmt::Y8 => 4,
        }
    }
}

/// Projection kind.
#[derive(Clone, Copy, PartialEq, Eq, Structural)]
pub enum ProjType {
    Perspective,
    Orthographic,
}

impl ProjType {
    /// The code the hardware takes.
    pub open spec fn spec_code(self) -> u32 {
        match self {
            ProjType::Perspective => 0,
            ProjType::Orthographic => 1,
        }
    }

    /// The code the hardware takes.
    pub fn code(self) -> (r: u32)
        ensures
            r == self.spec_code(),
    {
        match self {
            ProjType::Perspective => 0,
            ProjType::Orthographic => 1,
        }
    }
}

/// Texture-environment stage.
#[derive(Clone, Copy, PartialEq, Eq, Structural)]
pub enum TevStage {
    Stage0,
    Stage1,
    Stage2,
    Stage3,
    Stage4,
    Stage5,
    Stage6,
    Stage7,
    Stage8,
    Stage9,
    Stage10,
    Stage11,
    Stage12,
    Stage13,
    Stage14,
    Stage15,
}

impl TevStage {
    /// The code the hardware takes.
    pub open spec fn spec_code(self) -> u8 {
        match self {
            TevStage::Stage0 => 0,
            TevStage::Stage1 => 1,
            TevStage::Stage2 => 2,
            TevStage::Stage3 => 3,
            TevStage::Stage4 => 4,
            TevStage::Stage5 => 5,
            TevStage::Stage6 => 6,
            TevStage::Stage7 => 7,
            TevStage::Stage8 => 8,
            TevStage::Stage9 => 9,
            TevStage::Stage10 => 0xa,
            TevStage::Stage11 => 0xb,
            TevStage::Stage12 => 0xc,
            TevStage::Stage13 => 0xd,
            TevStage::Stage14 => 0xe,
            TevStage::Stage15 => 0xf,
        }
    }

    /// The code the hardware takes.
    pub fn code(self) -> (r: u8)
        ensures
            r == self.spec_code(),
    {
        match self {
            TevStage::Stage0 => 0,
            TevStage::Stage1 => 1,
            TevStage::Stage2 => 2,
            TevStage::Stage3 => 3,
            TevStage::Stage4 => 4,
            TevStage::Stage5 => 5,
            TevStage::Stage6 => 6,
            TevStage::Stage7 => 7,
            TevStage::Stage8 => 8,
            TevStage::Stage9 => 9,
            TevStage::Stage10 => 0xa,
            TevStage::Stage11 => 0xb,
            TevStage::Stage12 => 0xc,
            TevStage::Stage13 => 0xd,
            TevStage::Stage14 => 0xe,
            TevStage::Stage15 => 0xf,
        }
    }
}

/// Colour-input register codes of a texture-environment stage.
pub const CC_CPREV: u8 = 0;
pub const CC_APREV: u8 = 1;
pub const CC_C0: u8 = 2;
pub const CC_A0: u8 = 3;
pub const CC_C1: u8 = 4;
pub const CC_A1: u8 = 5;
pub const CC_C2: u8 = 6;
pub const CC_A2: u8 = 7;
pub const CC_TEXC: u8 = 8;
pub const CC_TEXA: u8 = 9;
pub const CC_RASC: u8 = 10;
pub const CC_RASA: u8 = 11;
pub const CC_ONE: u8 = 12;
pub const CC_HALF: u8 = 13;
pub const CC_KONST: u8 = 14;
pub const CC_ZERO: u8 = 15;

/// Alpha-input register codes of a texture-environment stage.
pub const CA_APREV: u8 = 0;
pub const CA_A0: u8 = 1;
pub const CA_A1: u8 = 2;
pub const CA_A2: u8 = 3;
pub const CA_TEXA: u8 = 4;
pub const CA_RASA: u8 = 5;
pub const CA_KONST: u8 = 6;
pub const CA_ZERO: u8 = 7;

/// Largest 24-bit depth value.
pub const GX_MAX_Z24: u32 = 0x00FF_FFFF;


/// The hardware numbers of the vertex attribute input modes: Absent 0, Direct 1, Index8 2, Index16 3; distinct
/// values have distinct numbers.
pub proof fn attr_type_code_law(a: AttrType, b: AttrType)
    ensures
        a != b ==> a.spec_code() != b.spec_code(),
        a == AttrType::Absent ==> a.spec_code() == 0,
        a == AttrType::Direct ==> a.spec_code() == 1,
        a == AttrType::Index8 ==> a.spec_code() == 2,
        a == AttrType::Index16 ==> a.spec_code() == 3,
{
}

/// The hardware numbers of the position component counts: Xy 0, Xyz 1; distinct
/// values have distinct numbers.
pub proof fn pos_comp_code_law(a: PosComp, b: PosComp)
    ensures
        a != b ==> a.spec_code() != b.spec_code(),
        a == PosComp::Xy ==> a.spec_code() == 0,
        a == PosComp::Xyz ==> a.spec_code() == 1,
{
}

/// The hardware numbers of the component scalar types: U8 0, S8 1, U16 2, S16 3, F32 4; distinct
/// values have distinct numbers.
pub proof fn comp_type_code_law(a: CompType, b: CompType)
    ensures
        a != b ==> a.spec_code() != b.spec_code(),
        a == CompType::U8 ==> a.spec_code() == 0,
        a == CompType::S8 ==> a.spec_code() == 1,
        a == CompType::U16 ==> a.spec_code() == 2,
        a == CompType::S16 ==> a.spec_code() == 3,
        a == CompType::F32 ==> a.spec_code() == 4,
{
}

/// The hardware numbers of the colour component formats: Rgb565 0, Rgb8 1, Rgbx8 2, Rgba4 3, Rgba6 4, Rgba8 5; distinct
/// values have distinct numbers.
pub proof fn color_fmt_code_law(a: ColorFmt, b: ColorFmt)
    ensures
        a != b ==> a.spec_code() != b.spec_code(),
        a == ColorFmt::Rgb565 ==> a.spec_code() == 0,
        a == ColorFmt::Rgb8 ==> a.spec_code() == 1,
        a == ColorFmt::Rgbx8 ==> a.spec_code() == 2,
        a == ColorFmt::Rgba4 ==> a.spec_code() == 3,
        a == ColorFmt::Rgba6 ==> a.spec_code() == 4,
        a == ColorFmt::Rgba8 ==> a.spec_code() == 5,
{
}

/// The hardware numbers of the cull modes: Off 0, Front 1, Back 2, All 3; distinct
/// values have distinct numbers.
pub proof fn cull_mode_code_law(a: CullMode, b: CullMode)
    ensures
        a != b ==> a.spec_code() != b.spec_code(),
        a == CullMode::Off ==> a.spec_code() == 0,
        a == CullMode::Front ==> a.spec_code() == 1,
        a == CullMode::Back ==> a.spec_code() == 2,
        a == CullMode::All ==> a.spec_code() == 3,
{
}

/// The hardware numbers of the depth comparisons: Never 0, Less 1, Equal 2, LEqual 3, Greater 4, NEqual 5, GEqual 6, Always 7; distinct
/// values have distinct numbers.
pub proof fn compare_code_law(a: Compare, b: Compare)
    ensures
        a != b ==> a.spec_code() != b.spec_code(),
        a == Compare::Never ==> a.spec_code() == 0,
        a == Compare::Less ==> a.spec_code() == 1,
        a == Compare::Equal ==> a.spec_code() == 2,
        a == Compare::LEqual ==> a.spec_code() == 3,
        a == Compare::Greater ==> a.spec_code() == 4,
        a == Compare::NEqual ==> a.spec_code() == 5,
        a == Compare::GEqual ==> a.spec_code() == 6,
        a == Compare::Always ==> a.spec_code() == 7,
{
}

/// The hardware numbers of the blend modes: Off 0, Blend 1, Logic 2, Subtract 3; distinct
/// values have distinct numbers.
pub proof fn blend_mode_code_law(a: BlendMode, b: BlendMode)
    ensures
        a != b ==> a.spec_code() != b.spec_code(),
        a == BlendMode::Off ==> a.spec_code() == 0,
        a == BlendMode::Blend ==> a.spec_code() == 1,
        a == BlendMode::Logic ==> a.spec_code() == 2,
        a == BlendMode::Subtract ==> a.spec_code() == 3,
{
}

/// The hardware numbers of the blend factors: Zero 0, One 1, SrcColor 2, InvSrcColor 3, SrcAlpha 4, InvSrcAlpha 5, DstAlpha 6, InvDstAlpha 7; distinct
/// values have distinct numbers.
pub proof fn blend_factor_code_law(a: BlendFactor, b: BlendFactor)
    ensures
        a != b ==> a.spec_code() != b.spec_code(),
        a == BlendFactor::Zero ==> a.spec_code() == 0,
        a == BlendFactor::One ==> a.spec_code() == 1,
        a == BlendFactor::SrcColor ==> a.spec_code() == 2,
        a == BlendFactor::InvSrcColor ==> a.spec_code() == 3,
        a == BlendFactor::SrcAlpha ==> a.spec_code() == 4,
        a == BlendFactor::InvSrcAlpha ==> a.spec_code() == 5,
        a == BlendFactor::DstAlpha ==> a.spec_code() == 6,
        a == BlendFactor::InvDstAlpha ==> a.spec_code() == 7,
{
}

/// The hardware numbers of the embedded framebuffer pixel formats: Rgb8Z24 0, Rgba6Z24 1, Rgb565Z16 2, Z24 3, Y8 4; distinct
/// values have distinct numbers.
pub proof fn pixel_fmt_code_law(a: PixelFmt, b: PixelFmt)
    ensures
        a != b ==> a.spec_code() != b.spec_code(),
        a == PixelFmt::Rgb8Z24 ==> a.spec_code() == 0,
        a == PixelFmt::Rgba6Z24 ==> a.spec_code() == 1,
        a == PixelFmt::Rgb565Z16 ==> a.spec_code() == 2,
        a == PixelFmt::Z24 ==> a.spec_code() == 3,
        a == PixelFmt::Y8 ==> a.spec_code() == 4,
{
}

/// The hardware numbers of the TEV stages: Stage0 0, Stage1 1, Stage2 2, Stage3 3, Stage4 4, Stage5 5, Stage6 6, Stage7 7, Stage8 8, Stage9 9, Stage10 0xa, Stage11 0xb, Stage12 0xc, Stage13 0xd, Stage14 0xe, Stage15 0xf; distinct
/// values have distinct numbers.
pub proof fn tev_stage_code_law(a: TevStage, b: TevStage)
    ensures
        a != b ==> a.spec_code() != b.spec_code(),
        a == TevStage::Stage0 ==> a.spec_code() == 0,
        a == TevStage::Stage1 ==> a.spec_code() == 1,
        a == TevStage::Stage2 ==> a.spec_code() == 2,
        a == TevStage::Stage3 ==> a.spec_code() == 3,
        a == TevStage::Stage4 ==> a.spec_code() == 4,
        a == TevStage::Stage5 ==> a.spec_code() == 5,
        a == TevStage::Stage6 ==> a.spec_code() == 6,
        a == TevStage::Stage7 ==> a.spec_code() == 7,
        a == TevStage::Stage8 ==> a.spec_code() == 8,
        a == TevStage::Stage9 ==> a.spec_code() == 9,
        a == TevStage::Stage10 ==> a.spec_code() == 0xa,
        a == TevStage::Stage11 ==> a.spec_code() == 0xb,
        a == TevStage::Stage12 ==> a.spec_code() == 0xc,
        a == TevStage::Stage13 ==> a.spec_code() == 0xd,
        a == TevStage::Stage14 ==> a.spec_code() == 0xe,
        a == TevStage::Stage15 ==> a.spec_code() == 0xf,
{
}

} // verus!
