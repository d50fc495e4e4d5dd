//! Layer model: pixels, optional mask, blend mode, opacity, visibility, lock.

use vstd::prelude::*;
use crate::color::Rgba8;
use crate::pixel_buffer::{Image, PixelBuffer};

verus! {

pub type LayerId = u32;

/// The opacity of a fully opaque layer.
pub const OPAQUE: u16 = 65535;

/// Blend mode: the Photoshop-equivalent list.
#[derive(Debug, Clone, Copy, PartialEq, Eq, Structural)]
pub enum BlendMode {
    Normal,
    Multiply,
    Screen,
    Overlay,
    Darken,
    Lighten,
    ColorDodge,
    ColorBurn,
    SoftLight,
    HardLight,
    Difference,
    Exclusion,
    Hue,
    Saturation,
    Color,
    Luminosity,
    Add,
    Subtract,
}

impl Default for BlendMode {
    fn default() -> (m: BlendMode)
        ensures
            m == BlendMode::Normal,
    {
        BlendMode::Normal
    }
}

/// The menu label of each blend mode.
pub open spec fn blend_label(m: BlendMode) -> Seq<char> {
    match m {
        BlendMode::Normal => "Normal"@,
        BlendMode::Multiply => "Multiply"@,
        BlendMode::Screen => "Screen"@,
        BlendMode::Overlay => "Overlay"@,
        BlendMode::Darken => "Darken"@,
        BlendMode::Lighten => "Lighten"@,
        BlendMode::ColorDodge => "Color Dodge"@,
        BlendMode::ColorBurn => "Color Burn"@,
        BlendMode::SoftLight => "Soft Light"@,
        BlendMode::HardLight => "Hard Light"@,
        BlendMode::Difference => "Difference"@,
        BlendMode::Exclusion => "Exclusion"@,
        BlendMode::Hue => "Hue"@,
        BlendMode::Saturation => "Saturation"@,
        BlendMode::Color => "Color"@,
        BlendMode::Luminosity => "Luminosity"@,
        BlendMode::Add => "Add"@,
        BlendMode::Subtract => "Subtract"@,
    }
}

/// Every blend mode, in menu order.
pub open spec fn all_blend_modes() -> Seq<BlendMode> {
    seq![
        BlendMode::Normal, BlendMode::Multiply, BlendMode::Screen, BlendMode::Overlay,
        BlendMode::Darken, BlendMode::Lighten, BlendMode::ColorDodge, BlendMode::ColorBurn,
        BlendMode::SoftLight, BlendMode::HardLight, BlendMode::Difference, BlendMode::Exclusion,
        BlendMode::Hue, BlendMode::Saturation, BlendMode::Color, BlendMode::Luminosity,
        BlendMode::Add, BlendMode::Subtract,
    ]
}

impl BlendMode {
    pub fn label(&self) -> (s: &'static str)
        ensures
            s@ == blend_label(*self),
    {
        match self {
            BlendMode::Normal => "Normal",
            BlendMode::Multiply => "Multiply",
            BlendMode::Screen => "Screen",
            BlendMode::Overlay => "Overlay",
            BlendMode::Darken => "Darken",
            BlendMode::Lighten => "Lighten",
            BlendMode::ColorDodge => "Color Dodge",
            BlendMode::ColorBurn => "Color Burn",
            BlendMode::SoftLight => "Soft Light",
            BlendMode::HardLight => "Hard Light",
            BlendMode::Difference => "Difference",
            BlendMode::Exclusion => "Exclusion",
            BlendMode::Hue => "Hue",
            BlendMode::Saturation => "Saturation",
            BlendMode::Color => "Color",
            BlendMode::Luminosity => "Luminosity",
            BlendMode::Add => "Add",
            BlendMode::Subtract => "Subtract",
        }
    }

    pub fn all() -> (modes: Vec<BlendMode>)
        ensures
            modes@ == all_blend_modes(),
    {
        let modes = vec![
            BlendMode::Normal, BlendMode::Multiply, BlendMode::Screen, BlendMode::Overlay,
            BlendMode::Darken, BlendMode::Lighten, BlendMode::ColorDodge, BlendMode::ColorBurn,
            BlendMode::SoftLight, BlendMode::HardLight, BlendMode::Difference, BlendMode::Exclusion,
            BlendMode::Hue, BlendMode::Saturation, BlendMode::Color, BlendMode::Luminosity,
            BlendMode::Add, BlendMode::Subtract,
        ];
        assert(modes@ =~= all_blend_modes());
        modes
    }
}

/// What a layer draws: currently always a raster pixel buffer.
#[derive(Debug)]
pub enum LayerKind {
    Pixel(PixelBuffer),
}

impl Clone for LayerKind {
    fn clone(&self) -> (res: Self)
        ensures
            res@ == self@,
    {
        match self {
            LayerKind::Pixel(p) => LayerKind::Pixel(p.clone()),
        }
    }
}

impl View for LayerKind {
    type V = Image;

    open spec fn view(&self) -> Image {
        match self {
            LayerKind::Pixel(p) => p@,
        }
    }
}

/// What a layer holds, with buffers seen as images.
pub struct LayerView {
    pub id: LayerId,
    pub name: Seq<char>,
    pub visible: bool,
    pub locked: bool,
    pub opacity: u16,
    pub blend: BlendMode,
    pub mask: Option<Image>,
    pub pixels: Image,
}

/// A layer. `opacity` is a fixed-point fraction: `0` is fully transparent and `OPAQUE`
/// (65535) fully opaque.
#[derive(Debug)]
pub struct Layer {
    pub id: LayerId,
    pub name: String,
    pub visible: bool,
    pub locked: bool,
    pub opacity: u16,
    pub blend: BlendMode,
    /// Optional layer mask (RGBA where alpha = mask strength).
    pub mask: Option<PixelBuffer>,
    pub kind: LayerKind,
}

/// The layer's buffers are well formed.
pub open spec fn layer_view_wf(v: LayerView) -> bool {
    &&& v.pixels.wf()
    &&& (v.mask matches Some(m) ==> m.wf())
}

pub open spec fn opt_image(m: Option<PixelBuffer>) -> Option<Image> {
    match m {
        Some(p) => Some(p@),
        None => None,
    }
}

impl View for Layer {
    type V = LayerView;

    open spec fn view(&self) -> LayerView {
        LayerView {
            id: self.id,
            name: self.name@,
            visible: self.visible,
            locked: self.locked,
            opacity: self.opacity,
            blend: self.blend,
            mask: opt_image(self.mask),
            pixels: self.kind@,
        }
    }
}

impl Clone for Layer {
    fn clone(&self) -> (res: Self)
        ensures
            res@ == self@,
    {
        let mask = match &self.mask {
            Some(m) => Some(m.clone()),
            None => None,
        };
        Layer {
            id: self.id,
            name: self.name.clone(),
            visible: self.visible,
            locked: self.locked,
            opacity: self.opacity,
            blend: self.blend,
            mask,
            kind: self.kind.clone(),
        }
    }
}

/// The views of a sequence of layers.
pub open spec fn layer_views(ls: Seq<Layer>) -> Seq<LayerView> {
    ls.map_values(|l: Layer| l@)
}

/// No two layers share an id, and every id is below `next`, the next id to be given.
pub open spec fn ids_ok(ls: Seq<LayerView>, next: u32) -> bool {
    &&& forall|i: int, j: int| 0 <= i < j < ls.len() ==> (#[trigger] ls[i]).id != (#[trigger] ls[j]).id
    &&& forall|i: int| 0 <= i < ls.len() ==> (#[trigger] ls[i]).id < next
}

/// Every layer's buffers are well formed and the ids are as `ids_ok` says.
pub open spec fn layers_ok(ls: Seq<LayerView>, next: u32) -> bool {
    &&& ids_ok(ls, next)
    &&& forall|i: int| 0 <= i < ls.len() ==> layer_view_wf(#[trigger] ls[i])
}

/// A copy of every layer, in order.
pub fn clone_layers(v: &Vec<Layer>) -> (r: Vec<Layer>)
    ensures
        layer_views(r@) == layer_views(v@),
{
    let mut r: Vec<Layer> = Vec::new();
    let mut i: usize = 0;
    while i < v.len()
        invariant
            i <= v@.len(),
            r@.len() == i,
            forall|j: int| 0 <= j < i ==> (#[trigger] r@[j])@ == v@[j]@,
        decreases v@.len() - i,
    {
        r.push(v[i].clone());
        i = i + 1;
    }
    assert(layer_views(r@) =~= layer_views(v@));
    r
}

impl Layer {
    /// Every buffer of the layer is well formed.
    pub open spec fn wf(&self) -> bool {
        layer_view_wf(self@)
    }

    /// A visible, unlocked, opaque, normal-blended pixel layer of `w * h` pixels all `bg`.
    pub fn new_pixel(name: String, w: u32, h: u32, bg: Rgba8) -> (l: Layer)
        requires
            w * h * 4 <= u32::MAX,
        ensures
            l.wf(),
            l.id == 0,
            l.name@ == name@,
            l.visible,
            !l.locked,
            l.opacity == OPAQUE,
            l.blend == BlendMode::Normal,
            l.mask is None,
            l.kind@.width == w,
            l.kind@.height == h,
            forall|x: int, y: int| l.kind@.in_bounds(x, y) ==> #[trigger] l.kind@.px(x, y) == bg,
    {
        let mut buf = PixelBuffer::new(w, h);
        buf.clear(bg);
        assert forall|x: int, y: int| buf@.in_bounds(x, y) implies #[trigger] buf@.px(x, y) == bg by {
            assert(buf.px(x, y) == bg);
        }
        Layer {
            id: 0,
            name,
            visible: true,
            locked: false,
            opacity: OPAQUE,
            blend: BlendMode::Normal,
            mask: None,
            kind: LayerKind::Pixel(buf),
        }
    }

    pub fn as_pixel(&self) -> (p: Option<&PixelBuffer>)
        ensures
            p matches Some(b) && b@ == self.kind@,
    {
        match &self.kind {
            LayerKind::Pixel(p) => Some(p),
        }
    }

    /// The pixel buffer, writable in place.
    pub fn as_pixel_mut(&mut self) -> (p: Option<&mut PixelBuffer>)
        ensures
            p matches Some(b) && b@ == old(self).kind@ && final(self)@ == (LayerView {
                pixels: final(b)@,
                ..old(self)@
            }),
    {
        match &mut self.kind {
            LayerKind::Pixel(p) => Some(p),
        }
    }

    /// The mask, writable in place.
    pub fn mask_mut(&mut self) -> (m: Option<&mut PixelBuffer>)
        ensures
            old(self).mask is None ==> m is None && final(self)@ == old(self)@,
            old(self).mask matches Some(m0) ==> (m matches Some(b) && b@ == m0@ && final(self)@ == (LayerView {
                mask: Some(final(b)@),
                ..old(self)@
            })),
    {
        self.mask.as_mut()
    }

    pub fn width(&self) -> (w: u32)
        ensures
            w == self.kind@.width,
    {
        match &self.kind {
            LayerKind::Pixel(p) => p.width(),
        }
    }

    pub fn height(&self) -> (h: u32)
        ensures
            h == self.kind@.height,
    {
        match &self.kind {
            LayerKind::Pixel(p) => p.height(),
        }
    }

    pub fn mask(&self) -> (m: Option<&PixelBuffer>)
        ensures
            opt_image(match m { Some(b) => Some(*b), None => None }) == opt_image(self.mask),
    {
        self.mask.as_ref()
    }

    /// Adds a fully opaque white mask of the layer's size; a layer with a mask keeps it.
    pub fn add_mask(&mut self)
        requires
            old(self).wf(),
        ensures
            final(self).wf(),
            final(self).kind@ == old(self).kind@,
            old(self).mask is Some ==> final(self)@ == old(self)@,
            old(self).mask is None ==> (final(self).mask matches Some(m) && m.spec_width() == old(
                self,
            ).kind@.width && m.spec_height() == old(self).kind@.height && forall|x: int, y: int|
                m.in_bounds(x, y) ==> #[trigger] m.px(x, y) == Rgba8 { r: 255, g: 255, b: 255, a: 255 }),
            final(self).id == old(self).id,
            final(self).name@ == old(self).name@,
            final(self).visible == old(self).visible,
            final(self).locked == old(self).locked,
            final(self).opacity == old(self).opacity,
            final(self).blend == old(self).blend,
    {
        if self.mask.is_some() {
            return;
        }
        let w = self.width();
        let h = self.height();
        let mut m = PixelBuffer::new(w, h);
        m.clear(Rgba8::white());
        self.mask = Some(m);
    }

    pub fn remove_mask(&mut self)
        ensures
            final(self).mask is None,
            final(self).kind@ == old(self).kind@,
            final(self).id == old(self).id,
            final(self).name@ == old(self).name@,
            final(self).visible == old(self).visible,
            final(self).locked == old(self).locked,
            final(self).opacity == old(self).opacity,
            final(self).blend == old(self).blend,
    {
        self.mask = None;
    }
}

} // verus!
