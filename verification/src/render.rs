//! Geometry, the glyph cache and the per-frame batches handed to the GPU.

use crate::fixed::Fixed;
use vstd::prelude::*;

verus! {

/// The pixel size of the window, packed into one word: the width in the low
/// half, the height in the high half.
pub struct Dimensions {
    inner: u64,
}

impl View for Dimensions {
    type V = (u32, u32);

    /// The `(width, height)` pair that the word holds.
    closed spec fn view(&self) -> (u32, u32) {
        ((self.inner & 0xffff_ffff) as u32, (self.inner >> 32) as u32)
    }
}

/// Packing a width and a height and unpacking them again gives them back.
proof fn lemma_pack_unpack(width: u32, height: u32)
    ensures
        ((width as u64 | ((height as u64) << 32)) & 0xffff_ffff) as u32 == width,
        ((width as u64 | ((height as u64) << 32)) >> 32) as u32 == height,
{
    assert(((width as u64 | ((height as u64) << 32)) & 0xffff_ffff) as u32 == width)
        by (bit_vector);
    assert(((width as u64 | ((height as u64) << 32)) >> 32) as u32 == height) by (bit_vector);
}

impl Dimensions {
    /// Packs `width` and `height`.
    pub fn new(width: u32, height: u32) -> (d: Self)
        ensures
            d@ == (width, height),
    {
        proof {
            lemma_pack_unpack(width, height);
        }
        Self { inner: width as u64 | ((height as u64) << 32) }
    }

    /// The `(width, height)` pair last stored.
    pub fn get(&self) -> (r: (u32, u32))
        ensures
            r == self@,
    {
        let val: u64 = self.inner;
        ((val & 0xffff_ffff) as u32, (val >> 32) as u32)
    }

    /// Replaces the stored pair.
    pub fn set(&mut self, width: u32, height: u32)
        ensures
            final(self)@ == (width, height),
    {
        proof {
            lemma_pack_unpack(width, height);
        }
        let val: u64 = width as u64 | ((height as u64) << 32);
        self.inner = val;
    }
}

/// Names one glyph in a [`Renderer`]'s cache. An id is handed out once and
/// never again.
#[derive(Debug)]
pub struct GlyphId(usize);

impl View for GlyphId {
    type V = usize;

    closed spec fn view(&self) -> usize {
        self.0
    }
}

impl GlyphId {
    /// The number behind the id.
    #[inline(always)]
    pub fn as_raw(&self) -> (r: usize)
        ensures
            r == self@,
    {
        self.0
    }
}

impl From<GlyphId> for usize {
    #[inline(always)]
    fn from(id: GlyphId) -> (r: usize) {
        id.0
    }
}

impl vstd::std_specs::convert::FromSpecImpl<GlyphId> for usize {
    open spec fn obeys_from_spec() -> bool {
        true
    }

    open spec fn from_spec(id: GlyphId) -> usize {
        id@
    }
}

/// One corner of a triangle, tagged by the pipeline that draws it.
#[derive(Copy, Clone, Debug, PartialEq, Eq)]
pub enum Vertex {
    GenericColor { pos: [Fixed; 2], color: [Fixed; 4] },
    CircleColor { pos: [Fixed; 2], color: [Fixed; 4], radius: Fixed, border_thickness: Fixed },
}

/// A vertex of the generic-colour pipeline, as it is laid out in its buffer.
#[derive(Copy, Clone, Debug, PartialEq, Eq)]
pub struct GenericColorVertex {
    pub pos: [Fixed; 2],
    pub color: [Fixed; 4],
}

/// A vertex of the circle-colour pipeline, as it is laid out in its buffer.
#[derive(Copy, Clone, Debug, PartialEq, Eq)]
pub struct CircleColorVertex {
    pub pos: [Fixed; 2],
    pub color: [Fixed; 4],
    pub radius: Fixed,
    pub border_thickness: Fixed,
}

/// The geometry of one component: a flat list of vertices, three per triangle.
#[derive(Debug, PartialEq, Eq)]
pub struct Model {
    pub vertices: Vec<Vertex>,
}

impl View for Model {
    type V = Seq<Vertex>;

    open spec fn view(&self) -> Seq<Vertex> {
        self.vertices@
    }
}

impl Clone for Model {
    fn clone(&self) -> (r: Self)
        ensures
            r@ == self@,
    {
        let mut vertices: Vec<Vertex> = Vec::with_capacity(self.vertices.len());
        let mut i: usize = 0;
        while i < self.vertices.len()
            invariant
                i <= self.vertices.len(),
                vertices@ == self.vertices@.take(i as int),
            decreases self.vertices.len() - i,
        {
            vertices.push(self.vertices[i]);
            i += 1;
        }
        Model { vertices }
    }
}

/// All vertices of `models`, in order.
pub open spec fn flatten(models: Seq<Model>) -> Seq<Vertex>
    decreases models.len(),
{
    if models.len() == 0 {
        Seq::empty()
    } else {
        flatten(models.drop_last()) + models.last()@
    }
}

/// The generic-colour vertices among `vertices`, in order.
pub open spec fn generic_of(vertices: Seq<Vertex>) -> Seq<GenericColorVertex>
    decreases vertices.len(),
{
    if vertices.len() == 0 {
        Seq::empty()
    } else {
        let rest = generic_of(vertices.drop_last());
        match vertices.last() {
            Vertex::GenericColor { pos, color } => rest.push(GenericColorVertex { pos, color }),
            Vertex::CircleColor { .. } => rest,
        }
    }
}

/// The circle-colour vertices among `vertices`, in order.
pub open spec fn circle_of(vertices: Seq<Vertex>) -> Seq<CircleColorVertex>
    decreases vertices.len(),
{
    if vertices.len() == 0 {
        Seq::empty()
    } else {
        let rest = circle_of(vertices.drop_last());
        match vertices.last() {
            Vertex::GenericColor { .. } => rest,
            Vertex::CircleColor { pos, color, radius, border_thickness } => rest.push(
                CircleColorVertex { pos, color, radius, border_thickness },
            ),
        }
    }
}

/// `glyphon::AttrsOwned`, the attributes of a piece of text: font family,
/// weight, style and the like. The toolkit carries them and reads nothing
/// of them.
#[verifier::external_type_specification]
#[verifier::external_body]
pub struct ExAttrsOwned(glyphon::AttrsOwned);

/// `glyphon::Shaping`, the strategy by which text is shaped. The toolkit
/// carries it and reads nothing of it.
#[verifier::external_type_specification]
#[verifier::external_body]
pub struct ExShaping(glyphon::Shaping);

/// `glyphon::Buffer`, a piece of text that has been laid out. The toolkit
/// caches it and reads nothing of it.
#[verifier::external_type_specification]
#[verifier::external_body]
pub struct ExBuffer(glyphon::Buffer);

/// The colour of a piece of text: alpha, red, green and blue, eight bits
/// each, packed into one word from the highest byte down.
#[derive(Copy, Clone, Debug, PartialEq, Eq, Structural)]
pub struct TextColor(pub u32);

impl TextColor {
    /// The packed word of four channels.
    pub open spec fn pack(r: u8, g: u8, b: u8, a: u8) -> u32 {
        ((a as u32) << 24) | ((r as u32) << 16) | ((g as u32) << 8) | (b as u32)
    }

    /// The opaque colour with the given channels.
    pub fn rgb(r: u8, g: u8, b: u8) -> (c: TextColor)
        ensures
            c.0 == Self::pack(r, g, b, 0xFF),
    {
        Self::rgba(r, g, b, 0xFF)
    }

    /// The colour with the given channels.
    pub fn rgba(r: u8, g: u8, b: u8, a: u8) -> (c: TextColor)
        ensures
            c.0 == Self::pack(r, g, b, a),
    {
        TextColor(((a as u32) << 24) | ((r as u32) << 16) | ((g as u32) << 8) | (b as u32))
    }

    /// The channels in the order red, green, blue, alpha.
    pub fn as_rgba(self) -> (r: [u8; 4])
        ensures
            Self::pack(r[0], r[1], r[2], r[3]) == self.0,
    {
        let w: u32 = self.0;
        let red: u8 = ((w >> 16) & 0xFF) as u8;
        let green: u8 = ((w >> 8) & 0xFF) as u8;
        let blue: u8 = (w & 0xFF) as u8;
        let alpha: u8 = ((w >> 24) & 0xFF) as u8;
        assert(((((w >> 24) & 0xFF) as u8 as u32) << 24) | ((((w >> 16) & 0xFF) as u8 as u32) << 16)
            | ((((w >> 8) & 0xFF) as u8 as u32) << 8) | ((w & 0xFF) as u8 as u32) == w)
            by (bit_vector);
        [red, green, blue, alpha]
    }
}

/// `Clone::clone` of `glyphon::AttrsOwned`, which its crate derives: the copy
/// is made field by field, so it is the same set of attributes.
pub assume_specification[ <glyphon::AttrsOwned as Clone>::clone ](
    attrs: &glyphon::AttrsOwned,
) -> (copy: glyphon::AttrsOwned)
    ensures
        copy == *attrs,
;

/// Calls `glyphon::AttrsOwned::new` on `glyphon::Attrs::new()`: the owned form
/// of the default text attributes. Nothing is claimed of the value.
#[verifier::external_body]
fn default_attrs() -> glyphon::AttrsOwned {
    glyphon::AttrsOwned::new(glyphon::Attrs::new())
}

/// Gives `glyphon::Shaping::Basic`. Nothing is claimed of the value.
#[verifier::external_body]
fn basic_shaping() -> glyphon::Shaping {
    glyphon::Shaping::Basic
}

/// What to draw as one piece of text and where: the text and its style, and a
/// box inside the viewport given by fractions of the viewport's size.
pub struct GlyphInfo {
    /// Where the text starts inside its box. The horizontal part is a fraction
    /// of the viewport's width, the vertical part a multiple of `y_offset`.
    pub in_bounds_off: (Fixed, Fixed),
    /// Width and height of the box.
    pub size: (Fixed, Fixed),
    pub text: String,
    pub attrs: glyphon::AttrsOwned,
    pub shaping: glyphon::Shaping,
    pub color: TextColor,
    pub scale: Fixed,
    /// Left edge of the box.
    pub x_offset: Fixed,
    /// Top edge of the box.
    pub y_offset: Fixed,
}

impl Clone for GlyphInfo {
    fn clone(&self) -> (copy: Self)
        ensures
            copy == *self,
    {
        GlyphInfo {
            in_bounds_off: self.in_bounds_off,
            size: self.size,
            text: self.text.clone(),
            attrs: self.attrs.clone(),
            shaping: self.shaping,
            color: self.color,
            scale: self.scale,
            x_offset: self.x_offset,
            y_offset: self.y_offset,
        }
    }
}

/// Builds a [`GlyphInfo`] step by step and registers it with a renderer.
pub struct GlyphBuilder {
    glyph_info: GlyphInfo,
}

impl View for GlyphBuilder {
    type V = GlyphInfo;

    /// The description built so far.
    closed spec fn view(&self) -> GlyphInfo {
        self.glyph_info
    }
}

/// Lays text out for a window of a given pixel size. The application
/// implements it over the text-shaping engine and its fonts.
pub trait TextShaper: Send + Sync {
    /// Lays out `info.text` in a box of `info.size` times the window's size.
    fn shape(&self, info: &GlyphInfo, width: u32, height: u32) -> glyphon::Buffer;
}

/// Whether `buffer` is a layout that `shaper` gives of `info` for a window of
/// `size`: what a call of [`TextShaper::shape`] on them can return.
pub open spec fn laid_out<T: TextShaper + ?Sized>(
    shaper: &T,
    info: GlyphInfo,
    size: (u32, u32),
    buffer: glyphon::Buffer,
) -> bool {
    call_ensures(T::shape, (shaper, &info, size.0, size.1), buffer)
}

/// Has `shaper` lay `info` out for a window of `width` by `height` pixels.
fn shape_with<T: TextShaper + ?Sized>(
    shaper: &T,
    info: &GlyphInfo,
    width: u32,
    height: u32,
) -> (buffer: glyphon::Buffer)
    ensures
        laid_out(shaper, *info, (width, height), buffer),
{
    shaper.shape(info, width, height)
}

impl GlyphBuilder {
    /// Starts a description of `text` in the box whose lower left corner is
    /// at `pos`, measured from the bottom of the viewport, and whose extent is
    /// `size`. The text is black, unscaled, and starts at the corner of its box.
    pub fn new(text: String, pos: (Fixed, Fixed), size: (Fixed, Fixed)) -> (r: Self)
        ensures
            r@.text == text,
            r@.size == size,
            r@.x_offset == pos.0,
            r@.y_offset == (Fixed { raw: crate::fixed::ONE_RAW }).spec_minus(pos.1).spec_minus(
                size.1,
            ),
            r@.in_bounds_off == (Fixed { raw: 0 }, Fixed { raw: 0 }),
            r@.scale == (Fixed { raw: crate::fixed::ONE_RAW }),
            r@.color == TextColor(0xFF00_0000),
    {
        assert(((0xFFu8 as u32) << 24) | ((0u8 as u32) << 16) | ((0u8 as u32) << 8) | (0u8 as u32)
            == 0xFF00_0000u32) by (bit_vector);
        Self {
            glyph_info: GlyphInfo {
                size,
                text,
                attrs: default_attrs(),
                shaping: basic_shaping(),
                color: TextColor::rgb(0, 0, 0),
                scale: Fixed::one(),
                x_offset: pos.0,
                y_offset: Fixed::one().minus(pos.1).minus(size.1),
                in_bounds_off: (Fixed::zero(), Fixed::zero()),
            },
        }
    }

    /// Moves the start of the text inside its box.
    pub fn in_bounds_off(self, in_bounds_off: (Fixed, Fixed)) -> (r: Self)
        ensures
            r@ == (GlyphInfo { in_bounds_off, ..self@ }),
    {
        let mut glyph_info = self.glyph_info;
        glyph_info.in_bounds_off = in_bounds_off;
        Self { glyph_info }
    }

    /// Replaces the text attributes.
    pub fn attrs(self, attrs: glyphon::AttrsOwned) -> (r: Self)
        ensures
            r@ == (GlyphInfo { attrs, ..self@ }),
    {
        let mut glyph_info = self.glyph_info;
        glyph_info.attrs = attrs;
        Self { glyph_info }
    }

    /// Replaces the shaping strategy.
    pub fn shaping(self, shaping: glyphon::Shaping) -> (r: Self)
        ensures
            r@ == (GlyphInfo { shaping, ..self@ }),
    {
        let mut glyph_info = self.glyph_info;
        glyph_info.shaping = shaping;
        Self { glyph_info }
    }

    /// Replaces the scale.
    pub fn scale(self, scale: Fixed) -> (r: Self)
        ensures
            r@ == (GlyphInfo { scale, ..self@ }),
    {
        let mut glyph_info = self.glyph_info;
        glyph_info.scale = scale;
        Self { glyph_info }
    }

    /// Replaces the colour.
    pub fn color(self, color: TextColor) -> (r: Self)
        ensures
            r@ == (GlyphInfo { color, ..self@ }),
    {
        let mut glyph_info = self.glyph_info;
        glyph_info.color = color;
        Self { glyph_info }
    }
}

/// A clipping rectangle in whole pixels.
#[derive(Copy, Clone, Debug, PartialEq, Eq, Structural)]
pub struct TextBounds {
    pub left: i32,
    pub top: i32,
    pub right: i32,
    pub bottom: i32,
}

/// Where one cached glyph is drawn this frame, in pixels of the window.
pub struct TextArea {
    /// The id of the glyph whose laid-out buffer is drawn.
    pub glyph: usize,
    /// Left edge of the text, in fixed-point pixels.
    pub left: Fixed,
    /// Top edge of the text, in fixed-point pixels.
    pub top: Fixed,
    pub scale: Fixed,
    pub bounds: TextBounds,
    pub default_color: TextColor,
}

/// Everything one frame draws: the text areas of the cached glyphs and the
/// vertices of the frame's models, split by pipeline.
pub struct Frame {
    pub text_areas: Vec<TextArea>,
    pub generic_color: Vec<GenericColorVertex>,
    pub circle_color: Vec<CircleColorVertex>,
}

/// The text area of the glyph `id` described by `info` in a window of
/// `width` by `height` pixels: every fraction times the pixel dimension.
pub open spec fn text_area_of(id: usize, info: GlyphInfo, width: u32, height: u32) -> TextArea {
    TextArea {
        glyph: id,
        left: info.x_offset.spec_plus(info.in_bounds_off.0).spec_scaled(width),
        top: info.y_offset.spec_plus(info.in_bounds_off.1.spec_times(info.y_offset)).spec_scaled(
            height,
        ),
        scale: info.size.0.spec_max(info.size.1),
        bounds: TextBounds {
            left: info.x_offset.spec_to_pixel(width),
            top: info.y_offset.spec_to_pixel(height),
            right: info.x_offset.spec_plus(info.size.0).spec_to_pixel(width),
            bottom: info.y_offset.spec_plus(info.size.1).spec_to_pixel(height),
        },
        default_color: info.color,
    }
}

/// Computes [`text_area_of`].
pub fn text_area(id: usize, info: &GlyphInfo, width: u32, height: u32) -> (r: TextArea)
    ensures
        r == text_area_of(id, *info, width, height),
{
    TextArea {
        glyph: id,
        left: info.x_offset.plus(info.in_bounds_off.0).scaled(width),
        top: info.y_offset.plus(info.in_bounds_off.1.times(info.y_offset)).scaled(height),
        scale: info.size.0.max(info.size.1),
        bounds: TextBounds {
            left: info.x_offset.to_pixel(width),
            top: info.y_offset.to_pixel(height),
            right: info.x_offset.plus(info.size.0).to_pixel(width),
            bottom: info.y_offset.plus(info.size.1).to_pixel(height),
        },
        default_color: info.color,
    }
}

/// Splits the vertices of `models` by pipeline, keeping their order.
pub fn partition_vertices(models: &Vec<Model>) -> (r: (
    Vec<GenericColorVertex>,
    Vec<CircleColorVertex>,
))
    ensures
        r.0@ == generic_of(flatten(models@)),
        r.1@ == circle_of(flatten(models@)),
{
    let mut generic: Vec<GenericColorVertex> = Vec::new();
    let mut circle: Vec<CircleColorVertex> = Vec::new();
    let mut m: usize = 0;
    while m < models.len()
        invariant
            m <= models.len(),
            generic@ == generic_of(flatten(models@.take(m as int))),
            circle@ == circle_of(flatten(models@.take(m as int))),
        decreases models.len() - m,
    {
        let model = &models[m];
        let ghost before = flatten(models@.take(m as int));
        let mut v: usize = 0;
        while v < model.vertices.len()
            invariant
                v <= model.vertices.len(),
                generic@ == generic_of(before + model@.take(v as int)),
                circle@ == circle_of(before + model@.take(v as int)),
            decreases model.vertices.len() - v,
        {
            proof {
                let next = before + model@.take(v as int + 1);
                assert(next.drop_last() == before + model@.take(v as int));
                assert(next.last() == model@[v as int]);
            }
            match model.vertices[v] {
                Vertex::GenericColor { pos, color } => {
                    generic.push(GenericColorVertex { pos, color });
                },
                Vertex::CircleColor { pos, color, radius, border_thickness } => {
                    circle.push(CircleColorVertex { pos, color, radius, border_thickness });
                },
            }
            v += 1;
        }
        proof {
            assert(model@.take(v as int) == model@);
            let upto = models@.take(m as int + 1);
            assert(upto.drop_last() == models@.take(m as int));
            assert(upto.last() == models@[m as int]);
        }
        m += 1;
    }
    proof {
        assert(models@.take(m as int) == models@);
    }
    (generic, circle)
}

/// One cached glyph: its id, its laid-out text and the description that the
/// layout was made from.
struct CompiledGlyph {
    id: usize,
    buffer: glyphon::Buffer,
    info: GlyphInfo,
}

/// One step in the life of a glyph cache.
pub enum GlyphOp {
    /// A glyph is added and gets a new id.
    Add,
    /// The glyph with this id is removed, if it is there.
    Remove(usize),
    /// All glyphs are removed.
    Clear,
    /// All glyphs are laid out again.
    Rescale,
}

/// The number of ids handed out after `op`, when `issued` were handed out
/// before it. Only adding a glyph hands one out.
pub open spec fn issued_after(issued: nat, op: GlyphOp) -> nat {
    match op {
        GlyphOp::Add => issued + 1,
        _ => issued,
    }
}

/// The number of ids handed out after all of `ops`, in order.
pub open spec fn issued_after_all(issued: nat, ops: Seq<GlyphOp>) -> nat
    decreases ops.len(),
{
    if ops.len() == 0 {
        issued
    } else {
        issued_after(issued_after_all(issued, ops.drop_last()), ops.last())
    }
}

/// The id that the step at `index` of `ops` returns, where that step adds a
/// glyph: the number of ids handed out before it.
pub open spec fn id_returned_at(issued: nat, ops: Seq<GlyphOp>, index: int) -> nat
    recommends
        0 <= index < ops.len(),
        ops[index] is Add,
{
    issued_after_all(issued, ops.take(index))
}

/// Handing out ids never takes one back.
pub proof fn lemma_issued_grows(issued: nat, ops: Seq<GlyphOp>, shorter: int)
    requires
        0 <= shorter <= ops.len(),
    ensures
        issued_after_all(issued, ops.take(shorter)) <= issued_after_all(issued, ops),
    decreases ops.len(),
{
    if shorter == ops.len() {
        assert(ops.take(shorter) == ops);
    } else {
        assert(ops.drop_last().take(shorter) == ops.take(shorter));
        lemma_issued_grows(issued, ops.drop_last(), shorter);
    }
}

/// No id is handed out twice: whatever steps lie between two additions of a
/// glyph, removals included, the later addition returns a larger id.
pub proof fn lemma_glyph_ids_unique(issued: nat, ops: Seq<GlyphOp>, first: int, second: int)
    requires
        0 <= first < second < ops.len(),
        ops[first] is Add,
        ops[second] is Add,
    ensures
        id_returned_at(issued, ops, first) < id_returned_at(issued, ops, second),
{
    let upto = ops.take(second);
    let step = upto.take(first + 1);
    assert(step.drop_last() == ops.take(first));
    assert(step.last() == ops[first]);
    lemma_issued_grows(issued, upto, first + 1);
}

/// The glyph cache, the window size that frames are laid out for, and the
/// shaper that lays text out.
///
/// The cache is always in order: ids ascend, each was handed out, and the
/// count of ids handed out has not passed the half of its range by more
/// than one.
pub struct Renderer {
    dimensions: Dimensions,
    glyphs: Vec<CompiledGlyph>,
    glyph_id_cnt: usize,
    shaper: Box<dyn TextShaper>,
}

impl Renderer {
    /// The ids of the cached glyphs, oldest first.
    pub closed spec fn ids(&self) -> Seq<usize> {
        self.glyphs@.map_values(|g: CompiledGlyph| g.id)
    }

    /// The descriptions of the cached glyphs, in the order of [`Self::ids`].
    pub closed spec fn infos(&self) -> Seq<GlyphInfo> {
        self.glyphs@.map_values(|g: CompiledGlyph| g.info)
    }

    /// The laid-out texts of the cached glyphs, in the order of
    /// [`Self::ids`].
    pub closed spec fn buffers(&self) -> Seq<glyphon::Buffer> {
        self.glyphs@.map_values(|g: CompiledGlyph| g.buffer)
    }

    /// Whether `buffer` is a layout that this renderer's shaper gives of
    /// `info` for a window of `size`.
    pub closed spec fn lays_out(
        &self,
        info: GlyphInfo,
        size: (u32, u32),
        buffer: glyphon::Buffer,
    ) -> bool {
        laid_out::<dyn TextShaper>(&*self.shaper, info, size, buffer)
    }

    /// Whether this renderer and `other` lay text out with the same shaper.
    pub closed spec fn same_shaper(&self, other: &Self) -> bool {
        self.shaper == other.shaper
    }

    /// Whether `after` is this renderer with its glyph cache emptied.
    pub open spec fn cleared_to(&self, after: &Self) -> bool {
        &&& after.ids() == Seq::<usize>::empty()
        &&& after.infos() == Seq::<GlyphInfo>::empty()
        &&& after.buffers() == Seq::<glyphon::Buffer>::empty()
        &&& after.same_shaper(self)
        &&& after.issued() == self.issued()
        &&& after.size() == self.size()
    }

    /// Renderers with the same shaper give the same layouts.
    pub proof fn lemma_same_shaper(&self, other: &Self)
        requires
            self.same_shaper(other),
        ensures
            other.same_shaper(self),
            forall|info: GlyphInfo, size: (u32, u32), buffer: glyphon::Buffer|
                self.lays_out(info, size, buffer) == #[trigger] other.lays_out(
                    info,
                    size,
                    buffer,
                ),
    {
    }

    /// The pixel size of the window, as `(width, height)`.
    pub closed spec fn size(&self) -> (u32, u32) {
        self.dimensions@
    }

    /// How many ids were handed out so far; also the next id.
    pub closed spec fn issued(&self) -> nat {
        self.glyph_id_cnt as nat
    }

    /// The cache is in order. This holds of every renderer at all times.
    #[verifier::type_invariant]
    pub closed spec fn wf(&self) -> bool {
        &&& self.glyph_id_cnt <= usize::MAX / 2 + 1
        &&& forall|i: int| 0 <= i < self.glyphs@.len() ==> (#[trigger] self.glyphs@[i]).id
            < self.glyph_id_cnt
        &&& forall|i: int, j: int|
            0 <= i < j < self.glyphs@.len() ==> (#[trigger] self.glyphs@[i]).id < (
            #[trigger] self.glyphs@[j]).id
    }

    /// The text areas of all cached glyphs for a window of the given size.
    pub open spec fn text_areas(&self, width: u32, height: u32) -> Seq<TextArea> {
        Seq::new(
            self.ids().len(),
            |i: int| text_area_of(self.ids()[i], self.infos()[i], width, height),
        )
    }

    /// Ids and descriptions go in pairs; every cached id was handed out, and
    /// none occurs twice.
    pub proof fn lemma_ids(&self)
        requires
            self.wf(),
        ensures
            self.ids().len() == self.infos().len(),
            self.ids().len() == self.buffers().len(),
            forall|i: int| 0 <= i < self.ids().len() ==> (#[trigger] self.ids()[i]) < self.issued(),
            forall|i: int, j: int|
                0 <= i < j < self.ids().len() ==> (#[trigger] self.ids()[i]) < (
                #[trigger] self.ids()[j]),
            self.issued() <= usize::MAX / 2 + 1,
    {
    }

    /// An empty cache for a window of `width` by `height` pixels, with
    /// `shaper` to lay text out.
    pub fn new(width: u32, height: u32, shaper: Box<dyn TextShaper>) -> (r: Self)
        ensures
            r.wf(),
            r.ids() == Seq::<usize>::empty(),
            r.infos() == Seq::<GlyphInfo>::empty(),
            r.buffers() == Seq::<glyphon::Buffer>::empty(),
            r.issued() == 0,
            r.size() == (width, height),
    {
        let r = Self {
            dimensions: Dimensions::new(width, height),
            glyphs: Vec::new(),
            glyph_id_cnt: 0,
            shaper,
        };
        assert(r.ids() =~= Seq::<usize>::empty());
        assert(r.infos() =~= Seq::<GlyphInfo>::empty());
        assert(r.buffers() =~= Seq::<glyphon::Buffer>::empty());
        r
    }

    /// The pixel size of the window.
    pub fn dimensions(&self) -> (r: &Dimensions)
        ensures
            r@ == self.size(),
    {
        &self.dimensions
    }

    /// Records a new pixel size of the window. The cached glyphs keep the
    /// layout of the old size until they are rescaled.
    pub fn set_dimensions(&mut self, width: u32, height: u32)
        ensures
            final(self).size() == (width, height),
            final(self).ids() == old(self).ids(),
            final(self).infos() == old(self).infos(),
            final(self).buffers() == old(self).buffers(),
            final(self).same_shaper(old(self)),
            final(self).issued() == old(self).issued(),
    {
        proof {
            use_type_invariant(&*self);
        }
        self.dimensions = Dimensions::new(width, height);
    }

    /// Whether another id can be handed out.
    pub fn can_add_glyph(&self) -> (r: bool)
        ensures
            r == (self.issued() <= usize::MAX / 2),
    {
        self.glyph_id_cnt <= usize::MAX / 2
    }

    /// The number of cached glyphs.
    pub fn glyph_count(&self) -> (r: usize)
        ensures
            r == self.ids().len(),
    {
        self.glyphs.len()
    }

    /// The laid-out text of the glyph at `index` in [`Self::ids`].
    pub fn glyph_buffer(&self, index: usize) -> (r: &glyphon::Buffer)
        requires
            index < self.ids().len(),
        ensures
            index < self.buffers().len(),
            *r == self.buffers()[index as int],
    {
        &self.glyphs[index].buffer
    }

    /// Takes the cache out of the renderer, to change it, and leaves an empty
    /// one.
    fn take_glyphs(&mut self) -> (glyphs: Vec<CompiledGlyph>)
        ensures
            glyphs == old(self).glyphs,
            final(self).glyphs@.len() == 0,
            final(self).glyph_id_cnt == old(self).glyph_id_cnt,
            final(self).dimensions == old(self).dimensions,
            final(self).shaper == old(self).shaper,
    {
        proof {
            use_type_invariant(&*self);
        }
        let mut glyphs: Vec<CompiledGlyph> = Vec::new();
        std::mem::swap(&mut self.glyphs, &mut glyphs);
        glyphs
    }

    /// Puts a cache into the renderer that has none.
    fn put_glyphs(&mut self, glyphs: Vec<CompiledGlyph>)
        requires
            old(self).glyphs@.len() == 0,
            forall|i: int| 0 <= i < glyphs@.len() ==> (#[trigger] glyphs@[i]).id < old(
                self,
            ).glyph_id_cnt,
            forall|i: int, j: int|
                0 <= i < j < glyphs@.len() ==> (#[trigger] glyphs@[i]).id < (
                #[trigger] glyphs@[j]).id,
        ensures
            final(self).glyphs == glyphs,
            final(self).glyph_id_cnt == old(self).glyph_id_cnt,
            final(self).dimensions == old(self).dimensions,
            final(self).shaper == old(self).shaper,
    {
        proof {
            use_type_invariant(&*self);
        }
        let mut glyphs = glyphs;
        std::mem::swap(&mut self.glyphs, &mut glyphs);
    }

    /// The next id; it is then used up.
    fn gen_glyph_id(&mut self) -> (r: usize)
        requires
            old(self).issued() <= usize::MAX / 2,
        ensures
            r == old(self).issued(),
            final(self).issued() == old(self).issued() + 1,
            final(self).glyphs == old(self).glyphs,
            final(self).dimensions == old(self).dimensions,
            final(self).shaper == old(self).shaper,
    {
        proof {
            use_type_invariant(&*self);
        }
        let gen: usize = self.glyph_id_cnt;
        self.glyph_id_cnt = gen + 1;
        gen
    }

    /// Lays `glyph_info` out for the current window size, caches it under a
    /// new id and returns that id. The id is the count of ids handed out
    /// before; past the half of the id range no id is left to hand out.
    pub fn add_glyph(&mut self, glyph_info: GlyphInfo) -> (id: GlyphId)
        requires
            old(self).issued() <= usize::MAX / 2,
        ensures
            id@ == old(self).issued(),
            final(self).issued() == issued_after(old(self).issued(), GlyphOp::Add),
            final(self).ids() == old(self).ids().push(id@),
            final(self).infos() == old(self).infos().push(glyph_info),
            final(self).buffers().len() == old(self).buffers().len() + 1,
            final(self).buffers().drop_last() == old(self).buffers(),
            old(self).lays_out(glyph_info, old(self).size(), final(self).buffers().last()),
            final(self).same_shaper(old(self)),
            final(self).size() == old(self).size(),
    {
        proof {
            use_type_invariant(&*self);
        }
        let (width, height) = self.dimensions.get();
        let buffer = shape_with::<dyn TextShaper>(&*self.shaper, &glyph_info, width, height);
        let id: usize = self.gen_glyph_id();
        let mut glyphs = self.take_glyphs();
        glyphs.push(CompiledGlyph { id, buffer, info: glyph_info });
        self.put_glyphs(glyphs);
        assert(self.ids() =~= old(self).ids().push(id));
        assert(self.infos() =~= old(self).infos().push(glyph_info));
        assert(self.buffers().drop_last() =~= old(self).buffers());
        assert(self.buffers().last() == buffer);
        GlyphId(id)
    }

    /// Removes the glyph `glyph_id` if it is cached, and says whether it was.
    /// The other glyphs keep their order.
    pub fn remove_glyph(&mut self, glyph_id: GlyphId) -> (r: bool)
        ensures
            r == old(self).ids().contains(glyph_id@),
            r ==> final(self).ids() == old(self).ids().remove(old(self).ids().index_of(glyph_id@))
                && final(self).infos() == old(self).infos().remove(
                old(self).ids().index_of(glyph_id@),
            ),
            r ==> final(self).buffers() == old(self).buffers().remove(
                old(self).ids().index_of(glyph_id@),
            ),
            !r ==> final(self).ids() == old(self).ids() && final(self).infos() == old(self).infos()
                && final(self).buffers() == old(self).buffers(),
            final(self).same_shaper(old(self)),
            final(self).issued() == issued_after(old(self).issued(), GlyphOp::Remove(glyph_id@)),
            final(self).size() == old(self).size(),
    {
        proof {
            use_type_invariant(&*self);
        }
        let wanted: usize = glyph_id.0;
        let mut i: usize = 0;
        while i < self.glyphs.len()
            invariant
                i <= self.glyphs.len(),
                *self == *old(self),
                self.wf(),
                wanted == glyph_id@,
                forall|k: int| 0 <= k < i ==> (#[trigger] self.glyphs@[k]).id != wanted,
            decreases self.glyphs.len() - i,
        {
            if self.glyphs[i].id == wanted {
                let ghost at = i as int;
                proof {
                    let ids = self.ids();
                    assert(ids[at] == wanted);
                    assert(ids.contains(wanted));
                    let found = ids.index_of(wanted);
                    assert(ids[found] == wanted);
                    assert(found == at) by {
                        if found < at {
                            assert(self.glyphs@[found].id < self.glyphs@[at].id);
                        } else if at < found {
                            assert(self.glyphs@[at].id < self.glyphs@[found].id);
                        }
                    }
                }
                let mut glyphs = self.take_glyphs();
                glyphs.remove(i);
                self.put_glyphs(glyphs);
                assert(self.ids() =~= old(self).ids().remove(at));
                assert(self.infos() =~= old(self).infos().remove(at));
                assert(self.buffers() =~= old(self).buffers().remove(at));
                return true;
            }
            i += 1;
        }
        proof {
            let ids = self.ids();
            if ids.contains(wanted) {
                let k = choose|k: int| 0 <= k < ids.len() && ids[k] == wanted;
                assert(self.glyphs@[k].id == wanted);
            }
        }
        false
    }

    /// Drops all cached glyphs. Ids already handed out stay used up.
    pub fn clear_glyphs(&mut self)
        ensures
            final(self).ids() == Seq::<usize>::empty(),
            final(self).infos() == Seq::<GlyphInfo>::empty(),
            final(self).buffers() == Seq::<glyphon::Buffer>::empty(),
            final(self).same_shaper(old(self)),
            final(self).issued() == issued_after(old(self).issued(), GlyphOp::Clear),
            final(self).size() == old(self).size(),
    {
        let mut glyphs = self.take_glyphs();
        glyphs.clear();
        assert(self.ids() =~= Seq::<usize>::empty());
        assert(self.infos() =~= Seq::<GlyphInfo>::empty());
        assert(self.buffers() =~= Seq::<glyphon::Buffer>::empty());
    }

    /// Lays every cached glyph out again for the current window size: each
    /// cached layout is then one that the shaper gives of the glyph's
    /// description for that size. Ids and descriptions stay as they are.
    pub fn rescale_glyphs(&mut self)
        ensures
            final(self).ids() == old(self).ids(),
            final(self).infos() == old(self).infos(),
            final(self).buffers().len() == old(self).buffers().len(),
            forall|i: int|
                0 <= i < final(self).buffers().len() ==> old(self).lays_out(
                    old(self).infos()[i],
                    old(self).size(),
                    #[trigger] final(self).buffers()[i],
                ),
            final(self).same_shaper(old(self)),
            final(self).issued() == issued_after(old(self).issued(), GlyphOp::Rescale),
            final(self).size() == old(self).size(),
    {
        proof {
            use_type_invariant(&*self);
        }
        let (width, height) = self.dimensions.get();
        let mut glyphs = self.take_glyphs();
        let ghost before = glyphs@;
        let mut i: usize = 0;
        while i < glyphs.len()
            invariant
                i <= glyphs.len(),
                glyphs@.len() == before.len(),
                self.shaper == old(self).shaper,
                forall|k: int|
                    0 <= k < glyphs@.len() ==> (#[trigger] glyphs@[k]).id == before[k].id
                        && glyphs@[k].info == before[k].info,
                forall|k: int|
                    0 <= k < i ==> laid_out::<dyn TextShaper>(
                        &*self.shaper,
                        before[k].info,
                        (width, height),
                        (#[trigger] glyphs@[k]).buffer,
                    ),
            decreases glyphs.len() - i,
        {
            let buffer = shape_with::<dyn TextShaper>(
                &*self.shaper,
                &glyphs[i].info,
                width,
                height,
            );
            glyphs[i].buffer = buffer;
            i += 1;
        }
        self.put_glyphs(glyphs);
        assert(self.ids() =~= old(self).ids());
        assert(self.infos() =~= old(self).infos());
        assert forall|k: int| 0 <= k < self.buffers().len() implies old(self).lays_out(
            old(self).infos()[k],
            old(self).size(),
            #[trigger] self.buffers()[k],
        ) by {
            assert(self.buffers()[k] == self.glyphs@[k].buffer);
            assert(old(self).infos()[k] == before[k].info);
        }
    }

    /// Prepares one frame: a text area for every cached glyph, laid out for
    /// the current window size, and the vertices of `models` split by
    /// pipeline, each part in the order of `models`.
    pub fn render(&self, models: Vec<Model>) -> (frame: Frame)
        ensures
            frame.text_areas@ == self.text_areas(self.size().0, self.size().1),
            frame.generic_color@ == generic_of(flatten(models@)),
            frame.circle_color@ == circle_of(flatten(models@)),
    {
        let (width, height) = self.dimensions.get();
        let mut text_areas: Vec<TextArea> = Vec::with_capacity(self.glyphs.len());
        let mut i: usize = 0;
        while i < self.glyphs.len()
            invariant
                i <= self.glyphs.len(),
                text_areas@ == self.text_areas(width, height).take(i as int),
            decreases self.glyphs.len() - i,
        {
            let glyph = &self.glyphs[i];
            text_areas.push(text_area(glyph.id, &glyph.info, width, height));
            assert(text_areas@ =~= self.text_areas(width, height).take(i as int + 1));
            i += 1;
        }
        assert(text_areas@ =~= self.text_areas(width, height));
        let (generic_color, circle_color) = partition_vertices(&models);
        Frame { text_areas, generic_color, circle_color }
    }
}

impl GlyphBuilder {
    /// Registers the description with `renderer`: it is laid out, cached
    /// under a new id, and the id is returned.
    #[inline(always)]
    pub fn build(self, renderer: &mut Renderer) -> (id: GlyphId)
        requires
            old(renderer).issued() <= usize::MAX / 2,
        ensures
            id@ == old(renderer).issued(),
            final(renderer).issued() == issued_after(old(renderer).issued(), GlyphOp::Add),
            final(renderer).ids() == old(renderer).ids().push(id@),
            final(renderer).infos() == old(renderer).infos().push(self@),
            final(renderer).buffers().len() == old(renderer).buffers().len() + 1,
            final(renderer).buffers().drop_last() == old(renderer).buffers(),
            old(renderer).lays_out(self@, old(renderer).size(), final(renderer).buffers().last()),
            final(renderer).same_shaper(old(renderer)),
            final(renderer).size() == old(renderer).size(),
    {
        renderer.add_glyph(self.glyph_info)
    }
}

} // verus!
