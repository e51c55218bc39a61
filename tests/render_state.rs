use bone_static::gl_define::{
    const_blend, Blend, ConstBlend, Filter, LayoutPos, TextureParm, TextureWarpMode,
    VertexArrayAttribPointerGen,
};

#[test]
fn blend_factors() {
    assert_eq!(ConstBlend::Normal.blend(), (Blend::SrcAlpha, Blend::OneMinusSrcAlpha));
    assert_eq!(ConstBlend::Additive.blend(), (Blend::SrcAlpha, Blend::One));
    assert_eq!(ConstBlend::Multiply.blend(), (Blend::DstColor, Blend::Zero));
    assert_eq!(ConstBlend::Screen.blend(), (Blend::One, Blend::OneMinusSrcColor));
    assert_eq!(ConstBlend::SrcOnly.blend(), (Blend::One, Blend::Zero));
    assert_eq!(
        ConstBlend::Custom(Blend::ConstColor, Blend::DstAlpha).blend(),
        (Blend::ConstColor, Blend::DstAlpha)
    );
    assert_eq!(const_blend(ConstBlend::Premultiplied), (Blend::One, Blend::OneMinusSrcAlpha));
}

#[test]
fn texture_parm_defaults_and_setters() {
    let p = TextureParm::new();
    assert_eq!(p.min_filter, Filter::Nearest);
    assert_eq!(p.wrap_t, TextureWarpMode::ClampBorder);
    assert_eq!(p.once_load_size, 4);
    let q = p.once_load_size(1).mag_filter(Filter::Linear).wrap_s(TextureWarpMode::Repeat);
    assert_eq!(q.once_load_size, 1);
    assert_eq!(q.mag_filter, Filter::Linear);
    assert_eq!(q.wrap_s, TextureWarpMode::Repeat);
    assert_eq!(q.min_filter, Filter::Nearest);
}

#[test]
fn attribute_stride() {
    let a = VertexArrayAttribPointerGen::new_size(3, 4, 4);
    assert_eq!(a.stride_size, 16);
    assert_eq!(a.index, 3);
    assert_eq!(a.len, 4);
    assert!(!a.is_normalized);
    assert_eq!(a.pointer, 0);
    assert_ne!(LayoutPos::Top, LayoutPos::Bottom);
}
