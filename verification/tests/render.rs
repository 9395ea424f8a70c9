use glyphon::{Attrs, AttrsOwned, Buffer, Metrics, Shaping, Weight};
use hcal_ui::fixed::Fixed;
use std::sync::{Arc, Mutex};
use hcal_ui::render::{
    partition_vertices, text_area, CircleColorVertex, Dimensions, GenericColorVertex, GlyphBuilder,
    GlyphId, GlyphInfo, Model, Renderer, TextBounds, TextColor, TextShaper, Vertex,
};

fn fx(v: f64) -> Fixed {
    Fixed::from_raw((v * 65536.0).round() as i64)
}

type Calls = Arc<Mutex<Vec<(String, u32, u32)>>>;

/// Records what it is asked to lay out and hands back empty buffers whose
/// metrics tell the window size that they were made for.
struct FakeShaper {
    calls: Calls,
}

impl TextShaper for FakeShaper {
    fn shape(&self, info: &GlyphInfo, width: u32, height: u32) -> Buffer {
        self.calls.lock().unwrap().push((info.text.clone(), width, height));
        Buffer::new_empty(Metrics::new(width as f32 + 1.0, height as f32 + 1.0))
    }
}

fn new_renderer(width: u32, height: u32) -> Renderer {
    observed(width, height).0
}

fn observed(width: u32, height: u32) -> (Renderer, Calls) {
    let calls: Calls = Arc::new(Mutex::new(Vec::new()));
    (Renderer::new(width, height, Box::new(FakeShaper { calls: calls.clone() })), calls)
}

fn glyph(text: &str) -> GlyphBuilder {
    GlyphBuilder::new(text.to_string(), (fx(0.25), fx(0.25)), (fx(0.5), fx(0.125)))
}

fn generic(x: f64, y: f64) -> Vertex {
    Vertex::GenericColor { pos: [fx(x), fx(y)], color: [fx(1.0), fx(0.0), fx(0.0), fx(1.0)] }
}

fn circle(x: f64, y: f64) -> Vertex {
    Vertex::CircleColor {
        pos: [fx(x), fx(y)],
        color: [fx(0.0), fx(1.0), fx(0.0), fx(1.0)],
        radius: fx(0.5),
        border_thickness: fx(0.125),
    }
}

#[test]
fn dimensions_hold_width_and_height() {
    let mut dims = Dimensions::new(800, 600);
    assert_eq!(dims.get(), (800, 600));
    dims.set(1920, 1080);
    assert_eq!(dims.get(), (1920, 1080));
}

#[test]
fn dimensions_keep_the_halves_apart() {
    let mut dims = Dimensions::new(u32::MAX, 0);
    assert_eq!(dims.get(), (u32::MAX, 0));
    dims.set(0, u32::MAX);
    assert_eq!(dims.get(), (0, u32::MAX));
    dims.set(u32::MAX, u32::MAX);
    assert_eq!(dims.get(), (u32::MAX, u32::MAX));
    dims.set(1, 2);
    assert_eq!(dims.get(), (1, 2));
}

#[test]
fn text_colour_packs_alpha_red_green_blue() {
    assert_eq!(TextColor::rgb(0, 0, 0), TextColor(0xFF00_0000));
    assert_eq!(TextColor::rgb(0x12, 0x34, 0x56), TextColor(0xFF12_3456));
    assert_eq!(TextColor::rgba(0x12, 0x34, 0x56, 0x78), TextColor(0x7812_3456));
    assert_eq!(TextColor(0x7812_3456).as_rgba(), [0x12, 0x34, 0x56, 0x78]);
    assert_eq!(TextColor::rgb(1, 2, 3).0, glyphon::Color::rgb(1, 2, 3).0);
    assert_eq!(TextColor::rgba(9, 8, 7, 6).0, glyphon::Color::rgba(9, 8, 7, 6).0);
}

#[test]
fn builder_starts_with_black_unscaled_text_measured_from_the_bottom() {
    let mut renderer = new_renderer(100, 100);
    let id = glyph("hello").build(&mut renderer);
    assert_eq!(id.as_raw(), 0);
    let frame = renderer.render(vec![]);
    assert_eq!(frame.text_areas.len(), 1);
    let area = &frame.text_areas[0];
    assert_eq!(area.default_color, TextColor(0xFF00_0000));
    // x_offset = 0.25, y_offset = 1 - 0.25 - 0.125 = 0.625
    assert_eq!(area.left, Fixed::from_int(25));
    assert_eq!(area.top, fx(62.5));
    assert_eq!(area.scale, fx(0.5));
    assert_eq!(area.bounds, TextBounds { left: 25, top: 62, right: 75, bottom: 75 });
}

/// Keeps the descriptions that it is asked to lay out.
struct KeepingShaper {
    seen: Arc<Mutex<Vec<(AttrsOwned, Shaping, String)>>>,
}

impl TextShaper for KeepingShaper {
    fn shape(&self, info: &GlyphInfo, _width: u32, _height: u32) -> Buffer {
        self.seen.lock().unwrap().push((info.attrs.clone(), info.shaping, info.text.clone()));
        Buffer::new_empty(Metrics::new(1.0, 1.0))
    }
}

#[test]
fn builder_starts_with_default_attributes_and_basic_shaping() {
    let seen = Arc::new(Mutex::new(Vec::new()));
    let mut renderer = Renderer::new(10, 10, Box::new(KeepingShaper { seen: seen.clone() }));
    glyph("plain").build(&mut renderer);
    let bold = AttrsOwned::new(Attrs::new().weight(Weight::BOLD));
    glyph("bold").attrs(bold.clone()).shaping(Shaping::Advanced).build(&mut renderer);
    assert_eq!(
        *seen.lock().unwrap(),
        vec![
            (AttrsOwned::new(Attrs::new()), Shaping::Basic, "plain".to_string()),
            (bold, Shaping::Advanced, "bold".to_string()),
        ]
    );
}

#[test]
fn builder_steps_replace_one_field_each() {
    let attrs = AttrsOwned::new(Attrs::new().weight(Weight::BOLD));
    let info_area = |builder: GlyphBuilder| {
        let mut renderer = new_renderer(200, 100);
            builder.build(&mut renderer);
        renderer.render(vec![]).text_areas.remove(0)
    };
    let plain = info_area(glyph("a"));
    let moved = info_area(glyph("a").in_bounds_off((fx(0.125), fx(0.5))));
    // left = 200 * (0.25 + 0.125), top = 100 * (0.625 + 0.5 * 0.625)
    assert_eq!(plain.left, Fixed::from_int(50));
    assert_eq!(moved.left, Fixed::from_int(75));
    assert_eq!(moved.top, fx(93.75));
    assert_eq!(moved.bounds, plain.bounds);
    let coloured = info_area(glyph("a").color(TextColor::rgb(255, 0, 0)));
    assert_eq!(coloured.default_color, TextColor(0xFFFF_0000));
    let styled = info_area(
        glyph("a").attrs(attrs).shaping(Shaping::Advanced).scale(fx(2.0)),
    );
    assert_eq!(styled.left, plain.left);
    assert_eq!(styled.bounds, plain.bounds);
}

#[test]
fn text_area_is_every_fraction_times_the_pixel_dimension() {
    let info = GlyphInfo {
        in_bounds_off: (fx(0.0), fx(0.0)),
        size: (fx(0.25), fx(0.5)),
        text: "x".to_string(),
        attrs: AttrsOwned::new(Attrs::new()),
        shaping: Shaping::Basic,
        color: TextColor::rgb(1, 2, 3),
        scale: fx(1.0),
        x_offset: fx(0.5),
        y_offset: fx(0.25),
    };
    let area = text_area(7, &info, 640, 480);
    assert_eq!(area.glyph, 7);
    assert_eq!(area.left, Fixed::from_int(320));
    assert_eq!(area.top, Fixed::from_int(120));
    assert_eq!(area.scale, fx(0.5));
    assert_eq!(area.bounds, TextBounds { left: 320, top: 120, right: 480, bottom: 360 });
    assert_eq!(area.default_color, TextColor::rgb(1, 2, 3));
}

#[test]
fn text_area_saturates_far_outside_the_window() {
    let far = Fixed::from_raw(i64::MAX);
    let info = GlyphInfo {
        in_bounds_off: (far, fx(0.0)),
        size: (far, fx(0.5)),
        text: "x".to_string(),
        attrs: AttrsOwned::new(Attrs::new()),
        shaping: Shaping::Basic,
        color: TextColor::rgb(0, 0, 0),
        scale: fx(1.0),
        x_offset: far,
        y_offset: Fixed::from_raw(i64::MIN),
    };
    let area = text_area(0, &info, 640, 480);
    assert_eq!(area.left, far);
    assert_eq!(area.top, Fixed::from_raw(i64::MIN));
    assert_eq!(area.scale, far);
    assert_eq!(
        area.bounds,
        TextBounds { left: i32::MAX, top: i32::MIN, right: i32::MAX, bottom: i32::MIN }
    );
}

#[test]
fn a_window_without_extent_puts_every_text_area_at_the_origin() {
    let mut renderer = new_renderer(0, 0);
    glyph("a").build(&mut renderer);
    let area = renderer.render(vec![]).text_areas.remove(0);
    assert_eq!(area.left, Fixed::zero());
    assert_eq!(area.top, Fixed::zero());
    assert_eq!(area.bounds, TextBounds { left: 0, top: 0, right: 0, bottom: 0 });
}

#[test]
fn a_glyph_description_clones_field_by_field() {
    let info = GlyphInfo {
        in_bounds_off: (fx(0.125), fx(0.25)),
        size: (fx(0.25), fx(0.5)),
        text: "x".to_string(),
        attrs: AttrsOwned::new(Attrs::new().weight(Weight::BOLD)),
        shaping: Shaping::Advanced,
        color: TextColor::rgb(1, 2, 3),
        scale: fx(2.0),
        x_offset: fx(0.5),
        y_offset: fx(0.75),
    };
    let copy = info.clone();
    assert_eq!(copy.in_bounds_off, info.in_bounds_off);
    assert_eq!(copy.size, info.size);
    assert_eq!(copy.text, "x");
    assert_eq!(copy.attrs, AttrsOwned::new(Attrs::new().weight(Weight::BOLD)));
    assert_eq!(copy.shaping, Shaping::Advanced);
    assert_eq!(copy.color, TextColor::rgb(1, 2, 3));
    assert_eq!(copy.scale, fx(2.0));
    assert_eq!((copy.x_offset, copy.y_offset), (fx(0.5), fx(0.75)));
}

#[test]
fn add_glyph_lays_out_for_the_current_window_size() {
    let (mut renderer, calls) = observed(640, 480);
    glyph("first").build(&mut renderer);
    renderer.set_dimensions(800, 600);
    glyph("second").build(&mut renderer);
    assert_eq!(
        *calls.lock().unwrap(),
        vec![("first".to_string(), 640, 480), ("second".to_string(), 800, 600)]
    );
    assert_eq!(renderer.glyph_count(), 2);
    assert_eq!(renderer.glyph_buffer(0).metrics(), Metrics::new(641.0, 481.0));
    assert_eq!(renderer.glyph_buffer(1).metrics(), Metrics::new(801.0, 601.0));
    assert_eq!(renderer.dimensions().get(), (800, 600));
}

#[test]
fn glyph_ids_count_up_and_are_never_used_again() {
    let mut renderer = new_renderer(100, 100);
    let a = glyph("a").build(&mut renderer);
    let b = glyph("b").build(&mut renderer);
    assert_eq!(a.as_raw(), 0);
    assert_eq!(b.as_raw(), 1);
    assert!(renderer.remove_glyph(a));
    assert!(renderer.remove_glyph(b));
    let c = glyph("c").build(&mut renderer);
    assert_eq!(c.as_raw(), 2);
    renderer.clear_glyphs();
    let d = glyph("d").build(&mut renderer);
    assert_eq!(d.as_raw(), 3);
    renderer.rescale_glyphs();
    let e = glyph("e").build(&mut renderer);
    assert_eq!(e.as_raw(), 4);
    assert!(renderer.can_add_glyph());
}

#[test]
fn glyph_id_converts_into_its_number() {
    let mut renderer = new_renderer(100, 100);
    glyph("a").build(&mut renderer);
    let id: GlyphId = glyph("b").build(&mut renderer);
    assert_eq!(id.as_raw(), 1);
    let raw: usize = id.into();
    assert_eq!(raw, 1);
}

#[test]
fn remove_glyph_says_whether_the_glyph_was_there() {
    let mut renderer = new_renderer(100, 100);
    let a = glyph("a").build(&mut renderer);
    let b = glyph("b").build(&mut renderer);
    let c = glyph("c").build(&mut renderer);
    assert_eq!(b.as_raw(), 1);
    assert!(renderer.remove_glyph(b));
    assert_eq!(renderer.glyph_count(), 2);
    let ids: Vec<usize> = renderer.render(vec![]).text_areas.iter().map(|t| t.glyph).collect();
    assert_eq!(ids, vec![0, 2]);
    assert!(renderer.remove_glyph(a));
    assert!(renderer.remove_glyph(c));
    assert_eq!(renderer.glyph_count(), 0);
    let mut other = new_renderer(100, 100);
    let stranger = glyph("x").build(&mut other);
    assert!(!renderer.remove_glyph(stranger));
    assert_eq!(renderer.glyph_count(), 0);
}

#[test]
fn clear_glyphs_empties_the_cache() {
    let mut renderer = new_renderer(100, 100);
    let a = glyph("a").build(&mut renderer);
    glyph("b").build(&mut renderer);
    renderer.clear_glyphs();
    assert_eq!(renderer.glyph_count(), 0);
    assert!(renderer.render(vec![]).text_areas.is_empty());
    assert!(!renderer.remove_glyph(a));
}

#[test]
fn rescale_glyphs_lays_every_glyph_out_again() {
    let (mut renderer, calls) = observed(640, 480);
    glyph("a").build(&mut renderer);
    glyph("b").build(&mut renderer);
    renderer.set_dimensions(1280, 960);
    assert_eq!(renderer.glyph_buffer(0).metrics(), Metrics::new(641.0, 481.0));
    calls.lock().unwrap().clear();
    renderer.rescale_glyphs();
    assert_eq!(
        *calls.lock().unwrap(),
        vec![("a".to_string(), 1280, 960), ("b".to_string(), 1280, 960)]
    );
    assert_eq!(renderer.glyph_buffer(0).metrics(), Metrics::new(1281.0, 961.0));
    assert_eq!(renderer.glyph_buffer(1).metrics(), Metrics::new(1281.0, 961.0));
    let ids: Vec<usize> = renderer.render(vec![]).text_areas.iter().map(|t| t.glyph).collect();
    assert_eq!(ids, vec![0, 1]);
}

#[test]
fn glyph_buffer_gives_the_layout_of_the_glyph_at_that_place() {
    let (mut renderer, _calls) = observed(10, 20);
    let first = glyph("a").build(&mut renderer);
    renderer.set_dimensions(30, 40);
    glyph("b").build(&mut renderer);
    assert_eq!(renderer.glyph_buffer(0).metrics(), Metrics::new(11.0, 21.0));
    assert_eq!(renderer.glyph_buffer(1).metrics(), Metrics::new(31.0, 41.0));
    assert!(renderer.remove_glyph(first));
    assert_eq!(renderer.glyph_buffer(0).metrics(), Metrics::new(31.0, 41.0));
}

#[test]
fn text_areas_follow_the_window_size() {
    let mut renderer = new_renderer(100, 100);
    glyph("a").build(&mut renderer);
    let small = renderer.render(vec![]).text_areas.remove(0);
    assert_eq!(small.bounds, TextBounds { left: 25, top: 62, right: 75, bottom: 75 });
    renderer.set_dimensions(200, 400);
    let large = renderer.render(vec![]).text_areas.remove(0);
    assert_eq!(large.bounds, TextBounds { left: 50, top: 250, right: 150, bottom: 300 });
    assert_eq!(large.left, Fixed::from_int(50));
    assert_eq!(large.top, Fixed::from_int(250));
}

#[test]
fn render_splits_vertices_by_pipeline_in_order() {
    let renderer = new_renderer(100, 100);
    let models = vec![
        Model { vertices: vec![generic(0.0, 0.0), circle(1.0, 1.0), generic(2.0, 2.0)] },
        Model { vertices: vec![] },
        Model { vertices: vec![circle(3.0, 3.0), generic(4.0, 4.0)] },
    ];
    let frame = renderer.render(models);
    let red = [fx(1.0), fx(0.0), fx(0.0), fx(1.0)];
    let green = [fx(0.0), fx(1.0), fx(0.0), fx(1.0)];
    assert_eq!(
        frame.generic_color,
        vec![
            GenericColorVertex { pos: [fx(0.0), fx(0.0)], color: red },
            GenericColorVertex { pos: [fx(2.0), fx(2.0)], color: red },
            GenericColorVertex { pos: [fx(4.0), fx(4.0)], color: red },
        ]
    );
    assert_eq!(
        frame.circle_color,
        vec![
            CircleColorVertex {
                pos: [fx(1.0), fx(1.0)],
                color: green,
                radius: fx(0.5),
                border_thickness: fx(0.125),
            },
            CircleColorVertex {
                pos: [fx(3.0), fx(3.0)],
                color: green,
                radius: fx(0.5),
                border_thickness: fx(0.125),
            },
        ]
    );
    assert!(frame.text_areas.is_empty());
}

#[test]
fn partition_of_no_models_is_empty() {
    let (generic_part, circle_part) = partition_vertices(&vec![]);
    assert!(generic_part.is_empty());
    assert!(circle_part.is_empty());
}

#[test]
fn a_model_clones_its_vertices() {
    let model = Model { vertices: vec![generic(0.0, 1.0), circle(0.5, 0.5)] };
    let copy = model.clone();
    assert_eq!(copy, model);
    assert_eq!(copy.vertices.len(), 2);
}
