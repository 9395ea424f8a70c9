use glyphon::{Buffer, Metrics};
use hcal_ui::fixed::Fixed;
use hcal_ui::render::{GlyphBuilder, GlyphInfo, Model, Renderer, TextShaper, Vertex};
use hcal_ui::ui::{
    AppCtx, Button, ClickAction, Color, ColorBox, Component, Container, DirtyState, HoverMode,
    TextBox,
};
use std::sync::atomic::{AtomicUsize, Ordering};
use std::sync::Arc;

fn fx(v: f64) -> Fixed {
    Fixed::from_raw((v * 65536.0).round() as i64)
}

fn ctx() -> Arc<AppCtx> {
    Arc::new(())
}

fn grey(level: f64) -> Color {
    Color { r: fx(level), g: fx(level), b: fx(level), a: fx(1.0) }
}

fn shades() -> [Color; 6] {
    [grey(0.0), grey(0.125), grey(0.25), grey(0.375), grey(0.5), grey(0.625)]
}

fn quad(x: f64, y: f64, w: f64, h: f64) -> ColorBox {
    ColorBox { pos: (fx(x), fx(y)), width: fx(w), height: fx(h), coloring: shades() }
}

/// Converts a pointer position in pixels into fractions of the window.
fn pointer(pixel: (f64, f64), window: (u32, u32)) -> (Fixed, Fixed) {
    (fx(pixel.0 / window.0 as f64), fx(pixel.1 / window.1 as f64))
}

/// A box that counts how often it is asked for its model and how often it is
/// clicked. Its model has as many vertices as it has had clicks.
struct Probe {
    area: ColorBox,
    builds: Arc<AtomicUsize>,
    clicks: Arc<AtomicUsize>,
    renders: Arc<AtomicUsize>,
}

impl Probe {
    fn new(x: f64, y: f64, w: f64, h: f64) -> Self {
        Probe {
            area: quad(x, y, w, h),
            builds: Arc::new(AtomicUsize::new(0)),
            clicks: Arc::new(AtomicUsize::new(0)),
            renders: Arc::new(AtomicUsize::new(0)),
        }
    }
}

impl Component for Probe {
    fn build_model(&self) -> Model {
        self.builds.fetch_add(1, Ordering::SeqCst);
        let corner = Vertex::GenericColor {
            pos: [self.area.pos.0, self.area.pos.1],
            color: grey(0.5).into_array(),
        };
        Model { vertices: vec![corner; self.clicks.load(Ordering::SeqCst)] }
    }

    fn do_render(&self, _client: &Arc<AppCtx>, _renderer: &mut Renderer) {
        self.renders.fetch_add(1, Ordering::SeqCst);
    }

    fn pos(&self) -> (Fixed, Fixed) {
        self.area.pos
    }

    fn dims(&self) -> (Fixed, Fixed) {
        (self.area.width, self.area.height)
    }

    fn on_click(&mut self, _client: &Arc<AppCtx>, _renderer: &mut Renderer) {
        self.clicks.fetch_add(1, Ordering::SeqCst);
    }

    fn on_scroll(&mut self, _client: &Arc<AppCtx>, _renderer: &mut Renderer) {}

    fn on_hover(&mut self, _client: &Arc<AppCtx>, _renderer: &mut Renderer, _mode: HoverMode) {}
}

struct FakeShaper;

impl TextShaper for FakeShaper {
    fn shape(&self, _info: &GlyphInfo, _width: u32, _height: u32) -> Buffer {
        Buffer::new_empty(Metrics::new(1.0, 1.0))
    }
}

fn renderer() -> Renderer {
    Renderer::new(100, 100, Box::new(FakeShaper))
}

fn text(t: &str) -> GlyphBuilder {
    GlyphBuilder::new(t.to_string(), (fx(0.0), fx(0.0)), (fx(0.5), fx(0.5)))
}

#[test]
fn colour_gives_its_channels_in_order() {
    let colour = Color { r: fx(0.125), g: fx(0.25), b: fx(0.5), a: fx(1.0) };
    assert_eq!(colour.into_array(), [fx(0.125), fx(0.25), fx(0.5), fx(1.0)]);
}

#[test]
fn a_quad_is_two_triangles_in_device_space() {
    let model = quad(0.0, 0.0, 0.5, 0.5).build_model();
    let c = shades();
    let at = |x: f64, y: f64, colour: Color| Vertex::GenericColor {
        pos: [fx(x), fx(y)],
        color: colour.into_array(),
    };
    assert_eq!(
        model.vertices,
        vec![
            at(-1.0, -1.0, c[0]),
            at(0.0, -1.0, c[1]),
            at(0.0, 0.0, c[2]),
            at(-1.0, -1.0, c[3]),
            at(-1.0, 0.0, c[4]),
            at(0.0, 0.0, c[5]),
        ]
    );
}

#[test]
fn a_quad_away_from_the_corner() {
    let model = quad(0.25, 0.5, 0.5, 0.25).build_model();
    let positions: Vec<[Fixed; 2]> = model
        .vertices
        .iter()
        .map(|v| match v {
            Vertex::GenericColor { pos, .. } => *pos,
            Vertex::CircleColor { pos, .. } => *pos,
        })
        .collect();
    assert_eq!(
        positions,
        vec![
            [fx(-0.5), fx(0.0)],
            [fx(0.5), fx(0.0)],
            [fx(0.5), fx(0.5)],
            [fx(-0.5), fx(0.0)],
            [fx(-0.5), fx(0.5)],
            [fx(0.5), fx(0.5)],
        ]
    );
}

#[test]
fn a_text_box_has_the_geometry_of_its_box() {
    let text_box = TextBox {
        pos: (fx(0.25), fx(0.5)),
        width: fx(0.5),
        height: fx(0.25),
        coloring: shades(),
        texts: vec![],
    };
    assert_eq!(text_box.build_model(), quad(0.25, 0.5, 0.5, 0.25).build_model());
    assert_eq!(text_box.pos(), (fx(0.25), fx(0.5)));
    assert_eq!(text_box.dims(), (fx(0.5), fx(0.25)));
    let plain = quad(0.25, 0.5, 0.5, 0.25);
    assert_eq!(plain.pos(), (fx(0.25), fx(0.5)));
    assert_eq!(plain.dims(), (fx(0.5), fx(0.25)));
}

#[test]
fn add_builds_the_model_at_once_and_build_models_returns_the_cache() {
    let probe = Probe::new(0.0, 0.0, 0.5, 0.5);
    let builds = probe.builds.clone();
    let renders = probe.renders.clone();
    let mut container = Container::new();
    container.add(probe);
    assert_eq!(builds.load(Ordering::SeqCst), 1);
    let first = container.build_models(&ctx(), &mut renderer());
    let second = container.build_models(&ctx(), &mut renderer());
    let third = container.build_models(&ctx(), &mut renderer());
    assert_eq!(builds.load(Ordering::SeqCst), 1);
    assert_eq!(first, second);
    assert_eq!(second, third);
    assert_eq!(first.len(), 1);
    assert_eq!(first[0].vertices.len(), 0);
    assert_eq!(renders.load(Ordering::SeqCst), 3);
}

#[test]
fn a_click_makes_the_next_build_rebuild_once() {
    let probe = Probe::new(0.0, 0.0, 0.5, 0.5);
    let builds = probe.builds.clone();
    let clicks = probe.clicks.clone();
    let mut container = Container::new();
    container.add(probe);
    container.on_mouse_click(&ctx(), &mut renderer(), (fx(0.25), fx(0.25)));
    assert_eq!(clicks.load(Ordering::SeqCst), 1);
    assert_eq!(builds.load(Ordering::SeqCst), 1);
    let rebuilt = container.build_models(&ctx(), &mut renderer());
    assert_eq!(builds.load(Ordering::SeqCst), 2);
    assert_eq!(rebuilt[0].vertices.len(), 1);
    let again = container.build_models(&ctx(), &mut renderer());
    assert_eq!(builds.load(Ordering::SeqCst), 2);
    assert_eq!(again, rebuilt);
}

#[test]
fn build_models_keeps_insertion_order() {
    let mut container = Container::new();
    container.add(quad(0.0, 0.0, 0.25, 0.25));
    container.add(quad(0.5, 0.5, 0.25, 0.25));
    let models = container.build_models(&ctx(), &mut renderer());
    assert_eq!(models.len(), 2);
    assert_eq!(models[0], quad(0.0, 0.0, 0.25, 0.25).build_model());
    assert_eq!(models[1], quad(0.5, 0.5, 0.25, 0.25).build_model());
}

#[test]
fn clear_empties_the_container() {
    let mut container = Container::new();
    container.add(quad(0.0, 0.0, 0.25, 0.25));
    container.add(quad(0.5, 0.5, 0.25, 0.25));
    container.clear();
    assert!(container.build_models(&ctx(), &mut renderer()).is_empty());
    container.add(quad(0.5, 0.5, 0.25, 0.25));
    assert_eq!(container.build_models(&ctx(), &mut renderer()).len(), 1);
}

#[test]
fn a_click_on_an_overlap_goes_to_the_component_added_first() {
    let a = Probe::new(0.0, 0.0, 0.5, 0.5);
    let b = Probe::new(0.25, 0.25, 0.5, 0.5);
    let (a_clicks, b_clicks) = (a.clicks.clone(), b.clicks.clone());
    let (a_builds, b_builds) = (a.builds.clone(), b.builds.clone());
    let mut container = Container::new();
    container.add(a);
    container.add(b);
    container.on_mouse_click(&ctx(), &mut renderer(), (fx(0.375), fx(0.375)));
    assert_eq!(a_clicks.load(Ordering::SeqCst), 1);
    assert_eq!(b_clicks.load(Ordering::SeqCst), 0);
    container.build_models(&ctx(), &mut renderer());
    assert_eq!(a_builds.load(Ordering::SeqCst), 2);
    assert_eq!(b_builds.load(Ordering::SeqCst), 1);
}

#[test]
fn a_click_beside_the_first_component_goes_to_the_second() {
    let a = Probe::new(0.0, 0.0, 0.5, 0.5);
    let b = Probe::new(0.25, 0.25, 0.5, 0.5);
    let (a_clicks, b_clicks) = (a.clicks.clone(), b.clicks.clone());
    let mut container = Container::new();
    container.add(a);
    container.add(b);
    container.on_mouse_click(&ctx(), &mut renderer(), (fx(0.625), fx(0.625)));
    assert_eq!(a_clicks.load(Ordering::SeqCst), 0);
    assert_eq!(b_clicks.load(Ordering::SeqCst), 1);
}

#[test]
fn a_click_outside_the_window_reaches_no_component() {
    let probe = Probe::new(0.0, 0.0, 0.5, 0.5);
    let clicks = probe.clicks.clone();
    let builds = probe.builds.clone();
    let mut container = Container::new();
    container.add(probe);
    let pos = pointer((300.0, 300.0), (200, 200));
    assert_eq!(pos, (fx(1.5), fx(1.5)));
    container.on_mouse_click(&ctx(), &mut renderer(), pos);
    assert_eq!(clicks.load(Ordering::SeqCst), 0);
    container.build_models(&ctx(), &mut renderer());
    assert_eq!(builds.load(Ordering::SeqCst), 1);
}

#[test]
fn the_edges_of_a_component_belong_to_it() {
    let hits = |x: f64, y: f64| {
        let probe = Probe::new(0.25, 0.25, 0.5, 0.25);
        let clicks = probe.clicks.clone();
        let mut container = Container::new();
        container.add(probe);
        container.on_mouse_click(&ctx(), &mut renderer(), (fx(x), fx(y)));
        clicks.load(Ordering::SeqCst) == 1
    };
    assert!(hits(0.25, 0.25));
    assert!(hits(0.75, 0.5));
    assert!(hits(0.25, 0.5));
    assert!(hits(0.5, 0.375));
    assert!(!hits(0.2, 0.3));
    assert!(!hits(0.8, 0.3));
    assert!(!hits(0.5, 0.2));
    assert!(!hits(0.5, 0.6));
}

#[test]
fn a_default_container_is_empty() {
    let mut container: Container<ColorBox> = Container::default();
    assert!(container.build_models(&ctx(), &mut renderer()).is_empty());
    container.add(quad(0.0, 0.0, 0.25, 0.25));
    assert_eq!(container.build_models(&ctx(), &mut renderer()).len(), 1);
}

#[test]
fn a_click_on_an_empty_container_does_nothing() {
    let mut container: Container<ColorBox> = Container::new();
    container.on_mouse_click(&ctx(), &mut renderer(), (fx(0.5), fx(0.5)));
    assert!(container.build_models(&ctx(), &mut renderer()).is_empty());
}

#[test]
fn dirty_state_is_claimed_once_and_keeps_a_late_mark() {
    let mut state = DirtyState::Clean;
    assert!(!state.claim());
    assert_eq!(state, DirtyState::Clean);
    state.mark();
    assert_eq!(state, DirtyState::Dirty);
    assert!(state.claim());
    assert_eq!(state, DirtyState::Rebuilding);
    assert!(!state.claim());
    state.settle();
    assert_eq!(state, DirtyState::Clean);
    state.settle();
    assert_eq!(state, DirtyState::Clean);

    state.mark();
    assert!(state.claim());
    state.mark();
    state.settle();
    assert_eq!(state, DirtyState::Dirty);
    assert!(state.claim());
}

#[test]
fn release_glyphs_removes_the_boxes_text_and_no_other() {
    let mut renderer = renderer();
    let first = text("a").build(&mut renderer);
    let other = text("b").build(&mut renderer);
    let second = text("c").build(&mut renderer);
    let mut text_box = TextBox {
        pos: (fx(0.0), fx(0.0)),
        width: fx(0.5),
        height: fx(0.5),
        coloring: shades(),
        texts: vec![first, second],
    };
    text_box.release_glyphs(&mut renderer);
    assert!(text_box.texts.is_empty());
    assert_eq!(renderer.glyph_count(), 1);
    let left: Vec<usize> = renderer.render(vec![]).text_areas.iter().map(|t| t.glyph).collect();
    assert_eq!(left, vec![1]);
    assert!(renderer.remove_glyph(other));
    text_box.release_glyphs(&mut renderer);
    assert_eq!(renderer.glyph_count(), 0);
}

/// Widens the button by a quarter of the window and gives it one more piece
/// of text.
struct Widen;

impl ClickAction<u32> for Widen {
    fn run(
        &self,
        inner_box: &mut TextBox,
        data: &mut u32,
        _ctx: &Arc<AppCtx>,
        renderer: &mut Renderer,
    ) {
        inner_box.width = inner_box.width.plus(Fixed::from_raw(16384));
        inner_box.texts.push(text("more").build(renderer));
        *data += 1;
    }
}

#[test]
fn a_button_runs_its_action_on_a_click_and_is_rebuilt() {
    let button = Button {
        inner_box: TextBox {
            pos: (fx(0.0), fx(0.0)),
            width: fx(0.25),
            height: fx(0.25),
            coloring: shades(),
            texts: vec![],
        },
        data: 0u32,
        on_click: Arc::new(Box::new(Widen)),
    };
    assert_eq!(button.pos(), (fx(0.0), fx(0.0)));
    assert_eq!(button.dims(), (fx(0.25), fx(0.25)));
    let mut container = Container::new();
    container.add(button);
    let before = container.build_models(&ctx(), &mut renderer());
    assert_eq!(before[0], quad(0.0, 0.0, 0.25, 0.25).build_model());
    container.on_mouse_click(&ctx(), &mut renderer(), (fx(0.125), fx(0.125)));
    let after = container.build_models(&ctx(), &mut renderer());
    assert_eq!(after[0], quad(0.0, 0.0, 0.5, 0.25).build_model());
    // The button is wider now: a click that missed before hits.
    container.on_mouse_click(&ctx(), &mut renderer(), (fx(0.375), fx(0.125)));
    let last = container.build_models(&ctx(), &mut renderer());
    assert_eq!(last[0], quad(0.0, 0.0, 0.75, 0.25).build_model());
}

#[test]
fn a_button_handles_a_click_directly() {
    let mut button = Button {
        inner_box: TextBox {
            pos: (fx(0.0), fx(0.0)),
            width: fx(0.25),
            height: fx(0.25),
            coloring: shades(),
            texts: vec![],
        },
        data: 7u32,
        on_click: Arc::new(Box::new(Widen)),
    };
    let mut renderer = renderer();
    button.on_click(&ctx(), &mut renderer);
    button.on_scroll(&ctx(), &mut renderer);
    button.on_hover(&ctx(), &mut renderer, HoverMode::Enter);
    button.on_hover(&ctx(), &mut renderer, HoverMode::Exit);
    assert_eq!(button.data, 8);
    assert_eq!(button.inner_box.width, fx(0.5));
    assert_eq!(renderer.glyph_count(), 1);
    assert_eq!(button.inner_box.texts.len(), 1);
    button.do_render(&ctx(), &mut renderer);
    assert_eq!(renderer.glyph_count(), 1);
    assert_eq!(button.data, 8);
    button.inner_box.release_glyphs(&mut renderer);
    assert_eq!(renderer.glyph_count(), 0);
}
