use glyphon::{Buffer, Metrics};
use hcal_ui::fixed::Fixed;
use hcal_ui::render::{GlyphBuilder, GlyphId, GlyphInfo, Renderer, TextShaper};
use hcal_ui::screen_sys::{
    center_of, cover, escape_released, retire, start, Key, Navigation, Screen, ScreenSystem,
    ScreenType,
};
use hcal_ui::ui::{AppCtx, Color, ColorBox, Component, Container};
use std::sync::{Arc, Mutex};

fn fx(v: f64) -> Fixed {
    Fixed::from_raw((v * 65536.0).round() as i64)
}

fn ctx() -> Arc<AppCtx> {
    Arc::new(())
}

fn quad(x: f64) -> ColorBox {
    let white = Color { r: fx(1.0), g: fx(1.0), b: fx(1.0), a: fx(1.0) };
    ColorBox { pos: (fx(x), fx(0.0)), width: fx(0.125), height: fx(0.125), coloring: [white; 6] }
}

type Log = Arc<Mutex<Vec<String>>>;

/// A screen that writes every call into a log shared with the test.
struct Page {
    name: &'static str,
    log: Log,
    closable: bool,
    tick_always: bool,
    transparent: bool,
    in_game: bool,
    close_on: Option<Key>,
    with_text: bool,
    text: Option<GlyphId>,
    content: Container<ColorBox>,
}

impl Page {
    fn new(name: &'static str, log: &Log, boxes: &[f64]) -> Self {
        let mut content = Container::new();
        for x in boxes {
            content.add(quad(*x));
        }
        Page {
            name,
            log: log.clone(),
            closable: false,
            tick_always: false,
            transparent: false,
            in_game: false,
            close_on: None,
            with_text: false,
            text: None,
            content,
        }
    }

    fn with_text(mut self) -> Self {
        self.with_text = true;
        self
    }

    fn closable(mut self) -> Self {
        self.closable = true;
        self
    }

    fn tick_always(mut self) -> Self {
        self.tick_always = true;
        self
    }

    fn transparent(mut self) -> Self {
        self.transparent = true;
        self
    }

    fn in_game(mut self) -> Self {
        self.in_game = true;
        self
    }

    fn note(&self, what: &str) {
        self.log.lock().unwrap().push(format!("{}:{}", self.name, what));
    }
}

impl Screen for Page {
    type Item = ColorBox;

    fn closable(&self) -> bool {
        self.closable
    }

    fn tick_always(&self) -> bool {
        self.tick_always
    }

    fn transparent(&self) -> bool {
        self.transparent
    }

    fn kind(&self) -> ScreenType {
        self.ty()
    }

    fn content(&self) -> Container<ColorBox> {
        unreachable!("only contracts speak of a screen's content by value")
    }

    fn init(&mut self, _ctx: &Arc<AppCtx>, renderer: &mut Renderer) {
        self.note("init");
        if self.with_text {
            self.text = Some(text("title").build(renderer));
        }
    }

    fn deinit(&mut self, _ctx: &Arc<AppCtx>, renderer: &mut Renderer) {
        self.note("deinit");
        if let Some(id) = self.text.take() {
            renderer.remove_glyph(id);
        }
    }

    fn on_active(&mut self, _ctx: &Arc<AppCtx>, _renderer: &mut Renderer) {
        self.note("active");
    }

    fn on_deactive(&mut self, _ctx: &Arc<AppCtx>, _renderer: &mut Renderer) {
        self.note("deactive");
    }

    fn tick(&mut self, _ctx: &Arc<AppCtx>, _renderer: &mut Renderer) {
        self.note("tick");
    }

    fn on_scroll(&mut self, x: Fixed, y: Fixed) {
        self.note(&format!("scroll {} {}", x.raw(), y.raw()));
    }

    fn on_resize(&mut self, _ctx: &Arc<AppCtx>, _renderer: &mut Renderer) {
        self.note("resize");
    }

    fn on_key_press(&mut self, key: Key, down: bool) -> Navigation<Self> {
        self.note(&format!("key {:?} {}", key, down));
        if down {
            return Navigation::Stay;
        }
        match key {
            key if self.close_on == Some(key) => Navigation::Pop,
            Key::Other(100) => Navigation::Push(bare("pushed", &self.log)),
            Key::Other(101) => Navigation::Replace(bare("replacement", &self.log)),
            Key::Other(102) => Navigation::CloseClosable,
            _ => Navigation::Stay,
        }
    }

    fn on_char_receive(&mut self, received: char) {
        self.note(&format!("char {}", received));
    }

    fn is_closable(&self) -> bool {
        self.closable
    }

    fn is_tick_always(&self) -> bool {
        self.tick_always
    }

    fn is_transparent(&self) -> bool {
        self.transparent
    }

    fn ty(&self) -> ScreenType {
        if self.in_game {
            ScreenType::InGame
        } else {
            ScreenType::Other(self.name.to_string())
        }
    }

    fn container(&self) -> &Container<ColorBox> {
        &self.content
    }

    fn container_mut(&mut self) -> &mut Container<ColorBox> {
        &mut self.content
    }

    fn clone_screen(&self) -> Self {
        let mut content = Container::new();
        for model in 0..self.boxes() {
            content.add(quad(self.first_box() + model as f64));
        }
        Page {
            name: self.name,
            log: self.log.clone(),
            closable: self.closable,
            tick_always: self.tick_always,
            transparent: self.transparent,
            in_game: self.in_game,
            close_on: self.close_on,
            with_text: self.with_text,
            text: None,
            content,
        }
    }
}

impl Page {
    /// How many boxes the page shows. Pages are made with boxes at
    /// consecutive whole offsets, so the name gives them away.
    fn boxes(&self) -> usize {
        match self.name {
            "S1" => 1,
            "S2" => 2,
            "HUD" => 1,
            _ => 0,
        }
    }

    fn first_box(&self) -> f64 {
        match self.name {
            "S1" => 1.0,
            "S2" => 2.0,
            "HUD" => 9.0,
            _ => 0.0,
        }
    }
}

fn s1(log: &Log) -> Page {
    Page::new("S1", log, &[1.0])
}

fn s2(log: &Log) -> Page {
    Page::new("S2", log, &[2.0, 3.0])
}

fn hud(log: &Log) -> Page {
    Page::new("HUD", log, &[9.0]).tick_always()
}

fn bare(name: &'static str, log: &Log) -> Page {
    Page::new(name, log, &[])
}

fn taken(log: &Log) -> Vec<String> {
    std::mem::take(&mut *log.lock().unwrap())
}

fn log() -> Log {
    Arc::new(Mutex::new(Vec::new()))
}

struct FakeShaper;

impl TextShaper for FakeShaper {
    fn shape(&self, _info: &GlyphInfo, _width: u32, _height: u32) -> Buffer {
        Buffer::new_empty(Metrics::new(1.0, 1.0))
    }
}

fn text(t: &str) -> GlyphBuilder {
    GlyphBuilder::new(t.to_string(), (fx(0.0), fx(0.0)), (fx(0.5), fx(0.5)))
}

fn window(width: u32, height: u32) -> Renderer {
    Renderer::new(width, height, Box::new(FakeShaper))
}

fn with_one_glyph(width: u32, height: u32) -> Renderer {
    let mut renderer = window(width, height);
    text("text").build(&mut renderer);
    renderer
}

fn glyph_ids(renderer: &Renderer) -> Vec<usize> {
    renderer.render(vec![]).text_areas.iter().map(|area| area.glyph).collect()
}

#[test]
fn first_tick_initialises_and_activates_the_pushed_screen() {
    let log = log();
    let mut renderer = window(800, 600);
    let mut system = ScreenSystem::new();
    system.push_screen(s1(&log));
    assert!(taken(&log).is_empty());
    let out = system.tick(&ctx(), &mut renderer);
    assert_eq!(taken(&log), vec!["S1:init", "S1:active", "S1:tick"]);
    assert_eq!(out.models, vec![quad(1.0).build_model()]);
}

#[test]
fn a_screen_pushed_on_top_takes_over() {
    let log = log();
    let mut renderer = window(800, 600);
    let mut system = ScreenSystem::new();
    system.push_screen(s1(&log));
    system.tick(&ctx(), &mut renderer);
    taken(&log);
    system.push_screen(s2(&log));
    let out = system.tick(&ctx(), &mut renderer);
    assert_eq!(taken(&log), vec!["S1:deactive", "S2:init", "S2:active", "S2:tick"]);
    assert_eq!(out.models, vec![quad(2.0).build_model(), quad(3.0).build_model()]);
    let next = system.tick(&ctx(), &mut renderer);
    assert_eq!(taken(&log), vec!["S2:tick"]);
    assert_eq!(next.models, out.models);
}

#[test]
fn popping_the_top_deinitialises_it_and_reactivates_the_screen_beneath() {
    let log = log();
    let mut renderer = window(800, 600);
    let mut system = ScreenSystem::new();
    system.push_screen(s1(&log));
    system.push_screen(s2(&log));
    system.tick(&ctx(), &mut renderer);
    assert_eq!(
        taken(&log),
        vec!["S1:init", "S1:active", "S1:deactive", "S2:init", "S2:active", "S2:tick"]
    );
    system.pop_screen();
    assert!(taken(&log).is_empty());
    let out = system.tick(&ctx(), &mut renderer);
    assert_eq!(taken(&log), vec!["S2:deactive", "S2:deinit", "S1:active", "S1:tick"]);
    assert_eq!(out.models, vec![quad(1.0).build_model()]);
}

#[test]
fn a_screen_beneath_the_top_is_deinitialised_without_deactivation() {
    let log = log();
    let mut renderer = window(800, 600);
    let mut system = ScreenSystem::new();
    system.push_screen(s1(&log));
    system.push_screen(s2(&log));
    system.tick(&ctx(), &mut renderer);
    taken(&log);
    system.pop_screen();
    system.pop_screen();
    let out = system.tick(&ctx(), &mut renderer);
    assert_eq!(taken(&log), vec!["S2:deactive", "S2:deinit", "S1:deinit"]);
    assert!(out.models.is_empty());
}

#[test]
fn popping_an_empty_stack_does_nothing() {
    let log = log();
    let mut renderer = window(800, 600);
    let mut system: ScreenSystem<Page> = ScreenSystem::new();
    system.pop_screen();
    system.pop_screen();
    system.pop_screen();
    assert!(!system.is_current_closable());
    let out = system.tick(&ctx(), &mut renderer);
    assert!(out.models.is_empty());
    system.push_screen(s1(&log));
    let out = system.tick(&ctx(), &mut renderer);
    assert_eq!(taken(&log), vec!["S1:init", "S1:active", "S1:tick"]);
    assert_eq!(out.models.len(), 1);
}

#[test]
fn a_default_stack_is_empty() {
    let log = log();
    let mut renderer = window(800, 600);
    let mut system: ScreenSystem<Page> = ScreenSystem::default();
    assert!(system.tick(&ctx(), &mut renderer).models.is_empty());
    assert!(!system.is_any_ingame());
    system.push_screen(s1(&log));
    assert_eq!(system.tick(&ctx(), &mut renderer).models.len(), 1);
}

#[test]
fn a_tick_without_screens_returns_no_models() {
    let mut renderer = window(800, 600);
    let mut system: ScreenSystem<Page> = ScreenSystem::new();
    let out = system.tick(&ctx(), &mut renderer);
    assert!(out.models.is_empty());
    assert_eq!(out.pointer, None);
}

#[test]
fn a_push_and_a_pop_between_two_ticks_cancel_out() {
    let log = log();
    let mut renderer = window(800, 600);
    let mut system = ScreenSystem::new();
    system.push_screen(s1(&log));
    system.tick(&ctx(), &mut renderer);
    taken(&log);
    system.push_screen(s2(&log));
    system.pop_screen();
    let out = system.tick(&ctx(), &mut renderer);
    assert_eq!(taken(&log), vec!["S1:tick"]);
    assert_eq!(out.models, vec![quad(1.0).build_model()]);
}

#[test]
fn a_pop_and_a_push_between_two_ticks_replace_the_top() {
    let log = log();
    let mut renderer = window(800, 600);
    let mut system = ScreenSystem::new();
    system.push_screen(bare("base", &log));
    system.push_screen(s1(&log));
    system.tick(&ctx(), &mut renderer);
    taken(&log);
    system.replace_screen(s2(&log));
    let out = system.tick(&ctx(), &mut renderer);
    assert_eq!(
        taken(&log),
        vec!["S1:deactive", "S1:deinit", "S2:init", "S2:active", "S2:tick"]
    );
    assert_eq!(out.models.len(), 2);
}

#[test]
fn several_pushes_commit_in_order_and_only_the_last_stays_active() {
    let log = log();
    let mut renderer = window(800, 600);
    let mut system = ScreenSystem::new();
    system.push_screen(bare("a", &log));
    system.push_screen(bare("b", &log));
    system.push_screen(bare("c", &log));
    system.tick(&ctx(), &mut renderer);
    assert_eq!(
        taken(&log),
        vec![
            "a:init", "a:active", "a:deactive", "b:init", "b:active", "b:deactive", "c:init",
            "c:active", "c:tick"
        ]
    );
}

#[test]
fn a_tick_always_screen_keeps_ticking_beneath_the_top() {
    let log = log();
    let mut renderer = window(800, 600);
    let mut system = ScreenSystem::new();
    system.push_screen(hud(&log));
    system.push_screen(s2(&log));
    let out = system.tick(&ctx(), &mut renderer);
    assert_eq!(
        taken(&log),
        vec!["HUD:init", "HUD:active", "HUD:deactive", "S2:init", "S2:active", "HUD:tick", "S2:tick"]
    );
    assert_eq!(
        out.models,
        vec![quad(9.0).build_model(), quad(2.0).build_model(), quad(3.0).build_model()]
    );
}

#[test]
fn covering_a_screen_drops_the_glyphs_unless_it_ticks_always() {
    let log = log();
    let mut system = ScreenSystem::new();
    let mut renderer = with_one_glyph(800, 600);
    system.push_screen(s1(&log));
    system.tick(&ctx(), &mut renderer);
    assert_eq!(renderer.glyph_count(), 1);
    system.push_screen(s2(&log));
    system.tick(&ctx(), &mut renderer);
    assert_eq!(renderer.glyph_count(), 0);

    let mut system = ScreenSystem::new();
    let mut renderer = with_one_glyph(800, 600);
    system.push_screen(hud(&log));
    system.tick(&ctx(), &mut renderer);
    system.push_screen(s2(&log));
    system.tick(&ctx(), &mut renderer);
    assert_eq!(renderer.glyph_count(), 1);

    // Uncovering a screen drops nothing.
    let mut system = ScreenSystem::new();
    let mut renderer = window(800, 600);
    system.push_screen(s1(&log));
    system.push_screen(s2(&log));
    system.tick(&ctx(), &mut renderer);
    text("late").build(&mut renderer);
    system.pop_screen();
    system.tick(&ctx(), &mut renderer);
    assert_eq!(renderer.glyph_count(), 1);
}

#[test]
fn a_new_top_makes_its_text_after_the_glyphs_of_the_covered_screen_are_dropped() {
    let log = log();
    let mut renderer = window(800, 600);
    let mut system = ScreenSystem::new();
    system.push_screen(s1(&log).with_text());
    system.tick(&ctx(), &mut renderer);
    assert_eq!(glyph_ids(&renderer), vec![0]);
    system.push_screen(s2(&log).with_text());
    system.tick(&ctx(), &mut renderer);
    assert_eq!(glyph_ids(&renderer), vec![1]);
    system.pop_screen();
    system.tick(&ctx(), &mut renderer);
    assert!(glyph_ids(&renderer).is_empty());
    assert_eq!(
        taken(&log),
        vec![
            "S1:init", "S1:active", "S1:tick", "S1:deactive", "S2:init", "S2:active", "S2:tick",
            "S2:deactive", "S2:deinit", "S1:active", "S1:tick"
        ]
    );
}

#[test]
fn a_tick_uses_the_window_size_of_its_beginning() {
    let log = log();
    let mut renderer = window(800, 600);
    let mut system = ScreenSystem::new();
    system.push_screen(s1(&log));
    assert_eq!(system.tick(&ctx(), &mut renderer).pointer, Some((400, 300)));
    renderer.set_dimensions(200, 100);
    system.push_screen(s2(&log));
    assert_eq!(system.tick(&ctx(), &mut renderer).pointer, Some((100, 50)));
}

#[test]
fn covering_tells_an_active_screen_and_empties_the_cache_unless_it_ticks_always() {
    let log = log();
    let mut renderer = with_one_glyph(800, 600);
    let mut idle = s1(&log);
    cover(&mut idle, false, &ctx(), &mut renderer);
    assert!(taken(&log).is_empty());
    assert_eq!(renderer.glyph_count(), 1);

    let mut persistent = hud(&log);
    cover(&mut persistent, true, &ctx(), &mut renderer);
    assert_eq!(taken(&log), vec!["HUD:deactive"]);
    assert_eq!(renderer.glyph_count(), 1);

    let mut plain = s1(&log);
    cover(&mut plain, true, &ctx(), &mut renderer);
    assert_eq!(taken(&log), vec!["S1:deactive"]);
    assert_eq!(renderer.glyph_count(), 0);
}

#[test]
fn retiring_deactivates_an_active_screen_and_then_deinitialises_it() {
    let log = log();
    let mut renderer = window(800, 600);
    let mut active = s1(&log).with_text();
    start(&mut active, &ctx(), &mut renderer);
    assert_eq!(taken(&log), vec!["S1:init", "S1:active"]);
    assert_eq!(glyph_ids(&renderer), vec![0]);
    retire(&mut active, true, &ctx(), &mut renderer);
    assert_eq!(taken(&log), vec!["S1:deactive", "S1:deinit"]);
    assert!(glyph_ids(&renderer).is_empty());
    let mut idle = s2(&log);
    retire(&mut idle, false, &ctx(), &mut renderer);
    assert_eq!(taken(&log), vec!["S2:deinit"]);
}

#[test]
fn dropped_glyphs_leave_their_ids_used_up() {
    let log = log();
    let mut system = ScreenSystem::new();
    let mut renderer = with_one_glyph(800, 600);
    system.push_screen(s1(&log));
    system.push_screen(s2(&log));
    system.tick(&ctx(), &mut renderer);
    assert_eq!(renderer.glyph_count(), 0);
    let id = text("next").build(&mut renderer);
    assert_eq!(id.as_raw(), 1);
}

#[test]
fn the_pointer_is_centred_after_a_change_unless_the_old_top_was_closable() {
    let log = log();
    let mut renderer = window(801, 600);
    let mut system = ScreenSystem::new();
    system.push_screen(s1(&log));
    assert_eq!(system.tick(&ctx(), &mut renderer).pointer, Some((400, 300)));
    assert_eq!(system.tick(&ctx(), &mut renderer).pointer, None);
    system.push_screen(s2(&log).closable());
    assert_eq!(system.tick(&ctx(), &mut renderer).pointer, Some((400, 300)));
    system.pop_screen();
    assert_eq!(system.tick(&ctx(), &mut renderer).pointer, None);
    system.push_screen(s2(&log));
    assert_eq!(system.tick(&ctx(), &mut renderer).pointer, Some((400, 300)));
    assert_eq!(center_of(801, 600), (400, 300));
    assert_eq!(center_of(u32::MAX, 0), (i32::MAX, 0));
}

#[test]
fn a_new_window_size_reaches_the_top_on_the_frame_after_its_first() {
    let log = log();
    let mut renderer = window(800, 600);
    let mut system = ScreenSystem::new();
    system.push_screen(bare("low", &log));
    system.push_screen(s1(&log));
    system.tick(&ctx(), &mut renderer);
    taken(&log);
    system.tick(&ctx(), &mut renderer);
    assert_eq!(taken(&log), vec!["S1:tick"]);
    renderer.set_dimensions(1024, 768);
    system.tick(&ctx(), &mut renderer);
    assert_eq!(taken(&log), vec!["S1:resize", "S1:tick"]);
    system.tick(&ctx(), &mut renderer);
    assert_eq!(taken(&log), vec!["S1:tick"]);
}

#[test]
fn a_new_window_size_reaches_tick_always_screens_and_the_one_beneath_a_transparent_top() {
    let log = log();
    let mut renderer = window(800, 600);
    let mut system = ScreenSystem::new();
    system.push_screen(hud(&log));
    system.push_screen(bare("low", &log));
    system.push_screen(bare("mid", &log));
    system.push_screen(bare("top", &log).transparent());
    system.tick(&ctx(), &mut renderer);
    taken(&log);
    renderer.set_dimensions(1024, 768);
    system.tick(&ctx(), &mut renderer);
    assert_eq!(
        taken(&log),
        vec!["HUD:resize", "mid:resize", "top:resize", "HUD:tick", "top:tick"]
    );
}

#[test]
fn a_screen_that_comes_back_to_the_top_is_told_of_the_size_that_it_missed() {
    let log = log();
    let mut renderer = window(800, 600);
    let mut system = ScreenSystem::new();
    system.push_screen(bare("low", &log));
    system.tick(&ctx(), &mut renderer);
    system.push_screen(bare("top", &log));
    system.tick(&ctx(), &mut renderer);
    renderer.set_dimensions(1024, 768);
    system.tick(&ctx(), &mut renderer);
    taken(&log);
    system.pop_screen();
    system.tick(&ctx(), &mut renderer);
    assert_eq!(
        taken(&log),
        vec!["top:deactive", "top:deinit", "low:active", "low:resize", "low:tick"]
    );
}

#[test]
fn a_screen_beneath_an_opaque_top_is_not_told_of_a_new_window_size() {
    let log = log();
    let mut renderer = window(800, 600);
    let mut system = ScreenSystem::new();
    system.push_screen(bare("mid", &log));
    system.push_screen(bare("top", &log));
    system.tick(&ctx(), &mut renderer);
    taken(&log);
    renderer.set_dimensions(1024, 768);
    system.tick(&ctx(), &mut renderer);
    assert_eq!(taken(&log), vec!["top:resize", "top:tick"]);
}

#[test]
fn input_goes_to_the_top_committed_screen_only() {
    let log = log();
    let mut renderer = window(800, 600);
    let mut system = ScreenSystem::new();
    system.push_screen(hud(&log));
    system.push_screen(s1(&log));
    system.receive_char('x');
    system.on_scroll(fx(1.0), fx(-0.5));
    system.press_key(Key::Other(30), true);
    assert!(taken(&log).is_empty());
    system.tick(&ctx(), &mut renderer);
    taken(&log);
    system.receive_char('x');
    system.on_scroll(fx(1.0), fx(-0.5));
    system.press_key(Key::Other(30), true);
    system.press_key(Key::Escape, false);
    assert_eq!(
        taken(&log),
        vec!["S1:char x", "S1:scroll 65536 -32768", "S1:key Other(30) true", "S1:key Escape false"]
    );
}

#[test]
fn releasing_escape_pops_a_closable_top_without_handing_the_key_on() {
    let log = log();
    let mut renderer = window(800, 600);
    let mut system = ScreenSystem::new();
    system.push_screen(s1(&log));
    system.push_screen(s2(&log).closable());
    system.tick(&ctx(), &mut renderer);
    taken(&log);
    system.press_key(Key::Escape, true);
    assert_eq!(taken(&log), vec!["S2:key Escape true"]);
    assert!(system.is_current_closable());
    system.press_key(Key::Escape, false);
    assert!(taken(&log).is_empty());
    assert!(!system.is_current_closable());
    system.tick(&ctx(), &mut renderer);
    assert_eq!(taken(&log), vec!["S2:deactive", "S2:deinit", "S1:active", "S1:tick"]);
}

#[test]
fn a_screen_that_asks_for_it_is_popped_after_it_had_the_key() {
    let log = log();
    let mut renderer = window(800, 600);
    let mut system = ScreenSystem::new();
    let mut closing = s2(&log);
    closing.close_on = Some(Key::Other(16));
    system.push_screen(s1(&log));
    system.push_screen(closing);
    system.tick(&ctx(), &mut renderer);
    taken(&log);
    system.press_key(Key::Other(16), false);
    assert_eq!(taken(&log), vec!["S2:key Other(16) false"]);
    system.tick(&ctx(), &mut renderer);
    assert_eq!(taken(&log), vec!["S2:deactive", "S2:deinit", "S1:active", "S1:tick"]);
}

/// A closable screen that leaves the reaction to keys as it comes.
struct Plain {
    closable: bool,
    content: Container<ColorBox>,
}

impl Screen for Plain {
    type Item = ColorBox;

    fn closable(&self) -> bool {
        self.closable
    }

    fn tick_always(&self) -> bool {
        false
    }

    fn transparent(&self) -> bool {
        false
    }

    fn kind(&self) -> ScreenType {
        ScreenType::Chat
    }

    fn content(&self) -> Container<ColorBox> {
        unreachable!("only contracts speak of a screen's content by value")
    }

    fn on_active(&mut self, _ctx: &Arc<AppCtx>, _renderer: &mut Renderer) {}

    fn on_deactive(&mut self, _ctx: &Arc<AppCtx>, _renderer: &mut Renderer) {}

    fn tick(&mut self, _ctx: &Arc<AppCtx>, _renderer: &mut Renderer) {}

    fn is_closable(&self) -> bool {
        self.closable
    }

    fn is_tick_always(&self) -> bool {
        false
    }

    fn is_transparent(&self) -> bool {
        false
    }

    fn ty(&self) -> ScreenType {
        ScreenType::Chat
    }

    fn container(&self) -> &Container<ColorBox> {
        &self.content
    }

    fn container_mut(&mut self) -> &mut Container<ColorBox> {
        &mut self.content
    }

    fn clone_screen(&self) -> Self {
        Plain { closable: self.closable, content: Container::new() }
    }
}

#[test]
fn a_screen_can_ask_for_any_navigation_in_answer_to_a_key() {
    let log = log();
    let mut renderer = window(800, 600);
    let mut system = ScreenSystem::new();
    system.push_screen(bare("base", &log));
    system.push_screen(bare("a", &log).closable());
    system.tick(&ctx(), &mut renderer);
    taken(&log);

    system.press_key(Key::Other(100), false);
    assert_eq!(system.current_screen_ty(), ScreenType::Other("pushed".to_string()));
    system.tick(&ctx(), &mut renderer);
    assert_eq!(
        taken(&log),
        vec!["a:key Other(100) false", "a:deactive", "pushed:init", "pushed:active", "pushed:tick"]
    );

    system.press_key(Key::Other(101), false);
    assert_eq!(system.current_screen_ty(), ScreenType::Other("replacement".to_string()));
    system.tick(&ctx(), &mut renderer);
    assert_eq!(
        taken(&log),
        vec![
            "pushed:key Other(101) false",
            "pushed:deactive",
            "pushed:deinit",
            "replacement:init",
            "replacement:active",
            "replacement:tick"
        ]
    );

    system.pop_screen();
    system.tick(&ctx(), &mut renderer);
    taken(&log);
    system.press_key(Key::Other(102), false);
    assert_eq!(system.current_screen_ty(), ScreenType::Other("base".to_string()));
    system.press_key(Key::Other(7), false);
    system.press_key(Key::Other(100), true);
    assert_eq!(system.current_screen_ty(), ScreenType::Other("base".to_string()));
}

#[test]
fn navigate_does_what_is_asked() {
    let log = log();
    let mut system = ScreenSystem::new();
    system.navigate(Navigation::Push(bare("a", &log).closable()));
    system.navigate(Navigation::Stay);
    assert_eq!(system.current_screen_ty(), ScreenType::Other("a".to_string()));
    system.navigate(Navigation::Replace(bare("b", &log)));
    assert_eq!(system.current_screen_ty(), ScreenType::Other("b".to_string()));
    system.navigate(Navigation::Push(bare("c", &log).closable()));
    system.navigate(Navigation::Push(bare("d", &log).closable()));
    system.navigate(Navigation::CloseClosable);
    assert_eq!(system.current_screen_ty(), ScreenType::Other("b".to_string()));
    system.navigate(Navigation::Pop);
    system.navigate(Navigation::Pop);
    assert_eq!(system.current_screen_ty(), ScreenType::Other(String::new()));
}

#[test]
fn by_default_a_screen_asks_to_be_closed_on_a_release_of_escape_if_closable() {
    let mut closable = Plain { closable: true, content: Container::new() };
    assert!(matches!(closable.on_key_press(Key::Escape, false), Navigation::Pop));
    assert!(matches!(closable.on_key_press(Key::Escape, true), Navigation::Stay));
    assert!(matches!(closable.on_key_press(Key::Other(1), false), Navigation::Stay));
    let mut fixed = Plain { closable: false, content: Container::new() };
    assert!(matches!(fixed.on_key_press(Key::Escape, false), Navigation::Stay));
    assert!(escape_released(Key::Escape, false));
    assert!(!escape_released(Key::Escape, true));
    assert!(!escape_released(Key::Other(1), false));
}

#[test]
fn kinds_of_the_desired_stack() {
    let log = log();
    let mut system = ScreenSystem::new();
    assert_eq!(system.current_screen_ty(), ScreenType::Other(String::new()));
    assert!(!system.is_current_ingame());
    assert!(!system.is_any_ingame());
    system.push_screen(bare("game", &log).in_game());
    assert_eq!(system.current_screen_ty(), ScreenType::InGame);
    assert!(system.is_current_ingame());
    assert!(system.is_any_ingame());
    system.push_screen(bare("menu", &log));
    assert_eq!(system.current_screen_ty(), ScreenType::Other("menu".to_string()));
    assert!(!system.is_current_ingame());
    assert!(system.is_any_ingame());
    let mut chat: ScreenSystem<Plain> = ScreenSystem::new();
    chat.push_screen(Plain { closable: false, content: Container::new() });
    assert_eq!(chat.current_screen_ty(), ScreenType::Chat);
}

#[test]
fn close_closable_screens_pops_down_to_the_first_that_is_not_closable() {
    let log = log();
    let mut renderer = window(800, 600);
    let mut system = ScreenSystem::new();
    system.push_screen(bare("a", &log).closable());
    system.push_screen(bare("base", &log));
    system.push_screen(bare("b", &log).closable());
    system.push_screen(bare("c", &log).closable());
    system.tick(&ctx(), &mut renderer);
    taken(&log);
    assert!(system.is_current_closable());
    system.close_closable_screens();
    assert!(!system.is_current_closable());
    assert_eq!(system.current_screen_ty(), ScreenType::Other("base".to_string()));
    system.tick(&ctx(), &mut renderer);
    assert_eq!(
        taken(&log),
        vec!["c:deactive", "c:deinit", "b:deinit", "base:active", "base:tick"]
    );
    system.close_closable_screens();
    system.tick(&ctx(), &mut renderer);
    assert_eq!(taken(&log), vec!["base:tick"]);
}

#[test]
fn close_closable_screens_can_empty_the_stack() {
    let log = log();
    let mut system = ScreenSystem::new();
    system.push_screen(bare("a", &log).closable());
    system.push_screen(bare("b", &log).closable());
    system.close_closable_screens();
    assert!(!system.is_current_closable());
    assert_eq!(system.current_screen_ty(), ScreenType::Other(String::new()));
}

/// A screen whose one box counts its clicks.
struct Clicky {
    clicks: Arc<Mutex<Vec<&'static str>>>,
    content: Container<Target>,
}

struct Target {
    name: &'static str,
    area: ColorBox,
    clicks: Arc<Mutex<Vec<&'static str>>>,
}

impl Component for Target {
    fn build_model(&self) -> hcal_ui::render::Model {
        self.area.build_model()
    }

    fn pos(&self) -> (Fixed, Fixed) {
        self.area.pos
    }

    fn dims(&self) -> (Fixed, Fixed) {
        (self.area.width, self.area.height)
    }

    fn on_click(&mut self, _client: &Arc<AppCtx>, _renderer: &mut Renderer) {
        self.clicks.lock().unwrap().push(self.name);
    }

    fn on_scroll(&mut self, _client: &Arc<AppCtx>, _renderer: &mut Renderer) {}

    fn on_hover(
        &mut self,
        _client: &Arc<AppCtx>,
        _renderer: &mut Renderer,
        _mode: hcal_ui::ui::HoverMode,
    ) {
    }
}

impl Clicky {
    fn new(clicks: &Arc<Mutex<Vec<&'static str>>>) -> Self {
        let mut content = Container::new();
        let white = Color { r: fx(1.0), g: fx(1.0), b: fx(1.0), a: fx(1.0) };
        for (name, x) in [("left", 0.0), ("right", 0.25)] {
            content.add(Target {
                name,
                area: ColorBox {
                    pos: (fx(x), fx(0.0)),
                    width: fx(0.5),
                    height: fx(0.5),
                    coloring: [white; 6],
                },
                clicks: clicks.clone(),
            });
        }
        Clicky { clicks: clicks.clone(), content }
    }
}

impl Screen for Clicky {
    type Item = Target;

    fn closable(&self) -> bool {
        false
    }

    fn tick_always(&self) -> bool {
        false
    }

    fn transparent(&self) -> bool {
        false
    }

    fn kind(&self) -> ScreenType {
        ScreenType::Chat
    }

    fn content(&self) -> Container<Target> {
        unreachable!("only contracts speak of a screen's content by value")
    }

    fn on_active(&mut self, _ctx: &Arc<AppCtx>, _renderer: &mut Renderer) {}

    fn on_deactive(&mut self, _ctx: &Arc<AppCtx>, _renderer: &mut Renderer) {}

    fn tick(&mut self, _ctx: &Arc<AppCtx>, _renderer: &mut Renderer) {}

    fn is_closable(&self) -> bool {
        false
    }

    fn is_tick_always(&self) -> bool {
        false
    }

    fn is_transparent(&self) -> bool {
        false
    }

    fn ty(&self) -> ScreenType {
        ScreenType::Chat
    }

    fn container(&self) -> &Container<Target> {
        &self.content
    }

    fn container_mut(&mut self) -> &mut Container<Target> {
        &mut self.content
    }

    fn clone_screen(&self) -> Self {
        Clicky::new(&self.clicks)
    }
}

#[test]
fn a_click_goes_to_the_first_component_of_the_top_screen_under_the_pointer() {
    let clicks = Arc::new(Mutex::new(Vec::new()));
    let mut renderer = window(800, 600);
    let mut system = ScreenSystem::new();
    system.push_screen(Clicky::new(&clicks));
    system.on_mouse_click(&ctx(), &mut renderer, (fx(0.375), fx(0.25)));
    assert!(clicks.lock().unwrap().is_empty());
    system.tick(&ctx(), &mut renderer);
    system.on_mouse_click(&ctx(), &mut renderer, (fx(0.375), fx(0.25)));
    system.on_mouse_click(&ctx(), &mut renderer, (fx(0.625), fx(0.25)));
    system.on_mouse_click(&ctx(), &mut renderer, (fx(0.875), fx(0.25)));
    assert_eq!(*clicks.lock().unwrap(), vec!["left", "right"]);
    assert_eq!(system.tick(&ctx(), &mut renderer).models.len(), 2);
}
