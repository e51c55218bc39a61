//! Plain descriptions of render state: blend factors, texture parameters and
//! vertex attribute layouts. Handing them to the graphics driver is the
//! renderer's job.
use vstd::prelude::*;

verus! {

/// A blend factor.
#[derive(Clone, Copy, PartialEq, Eq, Debug, Structural)]
pub enum Blend {
    Zero,
    One,
    SrcColor,
    DstColor,
    OneMinusSrcColor,
    OneMinusDstColor,
    OneMinusSrcAlpha,
    OneMinusDstAlpha,
    SrcAlpha,
    DstAlpha,
    ConstColor,
    ConstAlpha,
}

/// A named blending mode.
#[derive(Clone, Copy, PartialEq, Eq, Debug, Structural)]
pub enum ConstBlend {
    /// The source replaces the destination.
    SrcOnly,
    /// Source alpha over one minus source alpha.
    Normal,
    /// Source colour added to the destination.
    Additive,
    /// Source colour times destination colour.
    Multiply,
    /// One minus the product of the inverted colours.
    Screen,
    /// Multiply or screen, by the destination.
    Overlay,
    /// Premultiplied alpha.
    Premultiplied,
    /// Source and destination factors given directly.
    Custom(Blend, Blend),
}

impl ConstBlend {
    /// The (source, destination) factors of this mode.
    pub open spec fn factors(self) -> (Blend, Blend) {
        match self {
            ConstBlend::Normal => (Blend::SrcAlpha, Blend::OneMinusSrcAlpha),
            ConstBlend::Additive => (Blend::SrcAlpha, Blend::One),
            ConstBlend::Multiply => (Blend::DstColor, Blend::Zero),
            ConstBlend::Screen => (Blend::One, Blend::OneMinusSrcColor),
            ConstBlend::Overlay => (Blend::One, Blend::OneMinusSrcAlpha),
            ConstBlend::Premultiplied => (Blend::One, Blend::OneMinusSrcAlpha),
            ConstBlend::Custom(src, dst) => (src, dst),
            ConstBlend::SrcOnly => (Blend::One, Blend::Zero),
        }
    }

    /// The (source, destination) factors of this mode.
    pub fn blend(self) -> (r: (Blend, Blend))
        ensures
            r == self.factors(),
    {
        match self {
            ConstBlend::Normal => (Blend::SrcAlpha, Blend::OneMinusSrcAlpha),
            ConstBlend::Additive => (Blend::SrcAlpha, Blend::One),
            ConstBlend::Multiply => (Blend::DstColor, Blend::Zero),
            ConstBlend::Screen => (Blend::One, Blend::OneMinusSrcColor),
            ConstBlend::Overlay => (Blend::One, Blend::OneMinusSrcAlpha),
            ConstBlend::Premultiplied => (Blend::One, Blend::OneMinusSrcAlpha),
            ConstBlend::Custom(src, dst) => (src, dst),
            ConstBlend::SrcOnly => (Blend::One, Blend::Zero),
        }
    }
}

/// The factors the renderer enables for the mode `b`.
pub fn const_blend(b: ConstBlend) -> (r: (Blend, Blend))
    ensures
        r == b.factors(),
{
    b.blend()
}

/// A texture sampling filter.
#[derive(Clone, Copy, PartialEq, Eq, Debug, Structural)]
pub enum Filter {
    Linear,
    Nearest,
}

/// How texture coordinates outside [0, 1] are resolved.
#[derive(Clone, Copy, PartialEq, Eq, Debug, Structural)]
pub enum TextureWarpMode {
    Repeat,
    MirroredRepeat,
    ClampBorder,
    ClampEdge,
}

/// Parameters of a texture upload.
#[derive(Clone, Copy, PartialEq, Eq, Debug, Structural)]
pub struct TextureParm {
    pub min_filter: Filter,
    pub mag_filter: Filter,
    pub wrap_s: TextureWarpMode,
    pub wrap_t: TextureWarpMode,
    /// Row alignment of the pixel data, in bytes.
    pub once_load_size: i32,
}

impl TextureParm {
    /// Nearest filtering, clamped to the border, rows aligned to 4 bytes.
    pub fn new() -> (r: Self)
        ensures
            r == (TextureParm {
                min_filter: Filter::Nearest,
                mag_filter: Filter::Nearest,
                wrap_s: TextureWarpMode::ClampBorder,
                wrap_t: TextureWarpMode::ClampBorder,
                once_load_size: 4,
            }),
    {
        TextureParm {
            min_filter: Filter::Nearest,
            mag_filter: Filter::Nearest,
            wrap_s: TextureWarpMode::ClampBorder,
            wrap_t: TextureWarpMode::ClampBorder,
            once_load_size: 4,
        }
    }

    pub fn min_filter(self, value: Filter) -> (r: Self)
        ensures
            r == (TextureParm { min_filter: value, ..self }),
    {
        TextureParm { min_filter: value, ..self }
    }

    pub fn mag_filter(self, value: Filter) -> (r: Self)
        ensures
            r == (TextureParm { mag_filter: value, ..self }),
    {
        TextureParm { mag_filter: value, ..self }
    }

    pub fn wrap_s(self, value: TextureWarpMode) -> (r: Self)
        ensures
            r == (TextureParm { wrap_s: value, ..self }),
    {
        TextureParm { wrap_s: value, ..self }
    }

    pub fn wrap_t(self, value: TextureWarpMode) -> (r: Self)
        ensures
            r == (TextureParm { wrap_t: value, ..self }),
    {
        TextureParm { wrap_t: value, ..self }
    }

    pub fn once_load_size(self, value: i32) -> (r: Self)
        ensures
            r == (TextureParm { once_load_size: value, ..self }),
    {
        TextureParm { once_load_size: value, ..self }
    }
}

/// The layout of one vertex attribute in a buffer.
#[derive(Clone, Copy, PartialEq, Eq, Debug, Structural)]
pub struct VertexArrayAttribPointerGen {
    pub index: u32,
    /// Components per vertex.
    pub len: i32,
    pub is_normalized: bool,
    /// Bytes from one vertex to the next.
    pub stride_size: i32,
    /// Byte offset of the first component.
    pub pointer: usize,
}

impl VertexArrayAttribPointerGen {
    /// A tightly packed, unnormalized attribute of `len` components of
    /// `type_size` bytes each.
    pub fn new_size(index: u32, len: i32, type_size: i32) -> (r: Self)
        requires
            i32::MIN <= len * type_size <= i32::MAX,
        ensures
            r == (VertexArrayAttribPointerGen {
                index,
                len,
                is_normalized: false,
                stride_size: (len * type_size) as i32,
                pointer: 0,
            }),
    {
        VertexArrayAttribPointerGen {
            index,
            len,
            is_normalized: false,
            stride_size: len * type_size,
            pointer: 0,
        }
    }
}

/// Where a floating element sits in its parent.
#[derive(Clone, Copy, PartialEq, Eq, Debug, Hash, Structural)]
pub enum LayoutPos {
    Bottom,
    Top,
    Left,
    Right,
    Center,
    Round,
}

} // verus!
