//! The stack of screens and its per-frame tick.

use crate::fixed::Fixed;
use crate::render::{GlyphInfo, Model, Renderer, Vertex};
use crate::stack::StackModel;
pub use crate::ui::AppCtx;
use crate::ui::{views, Component, Container};
use std::sync::Arc;
use vstd::prelude::*;

verus! {

/// What kind of page a screen is.
#[derive(Debug, PartialEq, Eq)]
pub enum ScreenType {
    Other(String),
    Chat,
    InGame,
}

/// A key as the screens see it: the one key that the stack itself reacts to,
/// or any other key by the number that the windowing layer gives it.
#[derive(Copy, Clone, Debug, PartialEq, Eq, Structural)]
pub enum Key {
    Escape,
    Other(u32),
}

/// What a screen asks of the stack in answer to a key.
pub enum Navigation<S> {
    /// Nothing.
    Stay,
    /// To take the top off the desired stack.
    Pop,
    /// To put a screen on top of the desired stack.
    Push(S),
    /// To pop, then to push a screen.
    Replace(S),
    /// To pop for as long as the top of the desired stack is closable.
    CloseClosable,
}

/// One page of the application, with its own components and its own
/// reactions to the stack's life-cycle calls and to input.
///
/// The five spec functions name what the getters return, so that contracts
/// can speak of them; an implementation says what they are. In code that is
/// not verified they are never called. Nothing is assumed of what the calls
/// that take `&mut self` do to a screen or to the renderer that they are
/// handed.
pub trait Screen: Send + Sync + Sized {
    /// The type of the screen's components.
    type Item: Component;

    /// What [`Self::is_closable`] returns.
    spec fn closable(&self) -> bool;

    /// What [`Self::is_tick_always`] returns.
    spec fn tick_always(&self) -> bool;

    /// What [`Self::is_transparent`] returns.
    spec fn transparent(&self) -> bool;

    /// What [`Self::ty`] returns.
    spec fn kind(&self) -> ScreenType;

    /// What [`Self::container`] returns.
    spec fn content(&self) -> Container<Self::Item>;

    /// Called once, when the screen goes onto the committed stack.
    fn init(&mut self, _ctx: &Arc<AppCtx>, _renderer: &mut Renderer) {
    }

    /// Called once, when the screen leaves the committed stack.
    fn deinit(&mut self, _ctx: &Arc<AppCtx>, _renderer: &mut Renderer) {
    }

    /// Called whenever the screen becomes the active one.
    fn on_active(&mut self, ctx: &Arc<AppCtx>, renderer: &mut Renderer);

    /// Called whenever the screen stops being the active one.
    fn on_deactive(&mut self, ctx: &Arc<AppCtx>, renderer: &mut Renderer);

    /// Called once per frame while the screen takes part in the frame.
    fn tick(&mut self, ctx: &Arc<AppCtx>, renderer: &mut Renderer);

    fn on_scroll(&mut self, _x: Fixed, _y: Fixed) {
    }

    fn on_resize(&mut self, _ctx: &Arc<AppCtx>, _renderer: &mut Renderer) {
    }

    /// Hands a key to the screen. The screen answers what the stack is to
    /// do. Unless a screen decides otherwise, the key leaves it as it is,
    /// and it asks to be popped where it is closable and the key is a
    /// release of Escape, and for nothing else.
    fn on_key_press(&mut self, key: Key, down: bool) -> (request: Navigation<Self>)
        default_ensures
            *final(self) == *old(self),
            closes(key, down, old(self).closable()) ==> request is Pop,
            !closes(key, down, old(self).closable()) ==> request is Stay,
    {
        if escape_released(key, down) && self.is_closable() {
            Navigation::Pop
        } else {
            Navigation::Stay
        }
    }

    fn on_char_receive(&mut self, _received: char) {
    }

    /// Whether a release of Escape closes the screen.
    fn is_closable(&self) -> (r: bool)
        ensures
            r == self.closable(),
    ;

    /// Whether the screen takes part in every frame, also beneath others.
    fn is_tick_always(&self) -> (r: bool)
        ensures
            r == self.tick_always(),
    ;

    /// Whether the screen beneath this one stays visible.
    fn is_transparent(&self) -> (r: bool)
        ensures
            r == self.transparent(),
    ;

    fn ty(&self) -> (r: ScreenType)
        ensures
            r == self.kind(),
    ;

    /// The screen's components.
    fn container(&self) -> (c: &Container<Self::Item>)
        ensures
            *c == self.content(),
    ;

    /// The screen's components, to change them.
    fn container_mut(&mut self) -> (c: &mut Container<Self::Item>)
        ensures
            *c == old(self).content(),
            final(self).content() == *final(c),
    ;

    /// A copy of the screen, as it goes onto the committed stack.
    fn clone_screen(&self) -> Self;
}

/// What a tick hands back: the frame's models, and where the pointer is to
/// be put, if anywhere.
pub struct TickOutput {
    pub models: Vec<Model>,
    pub pointer: Option<(i32, i32)>,
}

/// A screen on the committed stack.
struct ScreenInfo<S: Screen> {
    screen: S,
    active: bool,
    last_size: Option<(u32, u32)>,
    ticket: Ghost<nat>,
}

/// The stack of screens.
///
/// Navigation changes the desired stack at once and the committed stack at
/// the next tick. Only committed screens get life-cycle calls and input.
pub struct ScreenSystem<S: Screen> {
    screens: Vec<ScreenInfo<S>>,
    pre_computed_screens: Vec<S>,
    lowest_offset: Option<usize>,
    tickets: Ghost<Seq<nat>>,
    next_ticket: Ghost<nat>,
}

impl<S: Screen> ScreenSystem<S> {
    /// The desired stack, bottom first.
    pub closed spec fn desired(&self) -> Seq<S> {
        self.pre_computed_screens@
    }

    /// The screens of the committed stack, bottom first.
    pub closed spec fn committed(&self) -> Seq<S> {
        self.screens@.map_values(|info: ScreenInfo<S>| info.screen)
    }

    /// For each committed screen, whether it is the active one.
    pub closed spec fn active(&self) -> Seq<bool> {
        self.screens@.map_values(|info: ScreenInfo<S>| info.active)
    }

    /// For each committed screen, the window size that it last saw.
    pub closed spec fn last_sizes(&self) -> Seq<Option<(u32, u32)>> {
        self.screens@.map_values(|info: ScreenInfo<S>| info.last_size)
    }

    /// The bookkeeping of the two stacks.
    pub closed spec fn model(&self) -> StackModel {
        StackModel {
            desired: self.tickets@,
            committed: self.screens@.map_values(|info: ScreenInfo<S>| info.ticket@),
            lowest: match self.lowest_offset {
                Some(k) => Some(k as nat),
                None => None,
            },
            next: self.next_ticket@,
        }
    }

    /// The bookkeeping fits the stacks and is well-formed, and no committed
    /// screen beneath the top is active.
    pub closed spec fn wf(&self) -> bool {
        &&& self.tickets@.len() == self.pre_computed_screens@.len()
        &&& self.model().wf()
        &&& forall|i: int|
            0 <= i < self.screens@.len() - 1 ==> !(#[trigger] self.screens@[i]).active
    }

    /// What the accessors have in common.
    pub proof fn lemma_shape(&self)
        requires
            self.wf(),
        ensures
            self.model().wf(),
            self.model().desired.len() == self.desired().len(),
            self.model().committed.len() == self.committed().len(),
            self.active().len() == self.committed().len(),
            self.last_sizes().len() == self.committed().len(),
            forall|i: int| 0 <= i < self.committed().len() - 1 ==> !(#[trigger] self.active()[i]),
    {
    }

    /// Whether the committed stack of `after` is that of this stack, in
    /// every respect.
    pub open spec fn same_committed(&self, after: &Self) -> bool {
        &&& after.committed() == self.committed()
        &&& after.active() == self.active()
        &&& after.last_sizes() == self.last_sizes()
    }

    /// Whether `after` differs from this stack only by a push of `screen`.
    pub open spec fn pushed_to(&self, after: &Self, screen: S) -> bool {
        &&& after.model() == self.model().push()
        &&& after.desired() == self.desired().push(screen)
        &&& self.same_committed(after)
    }

    /// Whether `after` differs from this stack only by a pop.
    pub open spec fn popped_to(&self, after: &Self) -> bool {
        &&& after.model() == self.model().pop()
        &&& after.desired() == if self.desired().len() == 0 {
            self.desired()
        } else {
            self.desired().drop_last()
        }
        &&& self.same_committed(after)
    }

    /// Whether `after` differs from this stack only by a pop and a push of
    /// `screen`.
    pub open spec fn replaced_to(&self, after: &Self, screen: S) -> bool {
        &&& after.model() == self.model().pop().push()
        &&& after.desired() == (if self.desired().len() == 0 {
            self.desired()
        } else {
            self.desired().drop_last()
        }).push(screen)
        &&& self.same_committed(after)
    }

    /// The number of closable screens on top of the first `len` screens of
    /// `desired`, down to the first that is not closable.
    pub open spec fn closable_run(desired: Seq<S>, len: nat) -> nat
        decreases len,
    {
        if len == 0 || len > desired.len() || !desired[len - 1].closable() {
            0
        } else {
            1 + Self::closable_run(desired, (len - 1) as nat)
        }
    }

    /// Whether `after` differs from this stack only by the pops that take
    /// the closable screens off the top of the desired stack.
    pub open spec fn closed_to(&self, after: &Self) -> bool {
        let run = Self::closable_run(self.desired(), self.desired().len());
        &&& after.model() == self.model().pop_times(run)
        &&& after.desired() == self.desired().take(self.desired().len() - run)
        &&& self.same_committed(after)
    }

    /// Whether `after` is what the stack makes of `request`.
    pub open spec fn navigates_to(&self, after: &Self, request: Navigation<S>) -> bool {
        match request {
            Navigation::Stay => after.same_as(self),
            Navigation::Pop => self.popped_to(after),
            Navigation::Push(screen) => self.pushed_to(after, screen),
            Navigation::Replace(screen) => self.replaced_to(after, screen),
            Navigation::CloseClosable => self.closed_to(after),
        }
    }

    /// A stack without screens.
    pub fn new() -> (r: Self)
        ensures
            r.wf(),
            r.model() == StackModel::empty(),
            r.desired() == Seq::<S>::empty(),
            r.committed() == Seq::<S>::empty(),
    {
        let r = ScreenSystem {
            screens: Vec::new(),
            pre_computed_screens: Vec::new(),
            lowest_offset: None,
            tickets: Ghost(Seq::empty()),
            next_ticket: Ghost(0),
        };
        assert(r.model().committed =~= Seq::<nat>::empty());
        assert(r.committed() =~= Seq::<S>::empty());
        r
    }

    /// Puts `screen` on top of the desired stack. Where no reconciliation is
    /// pending, the dirty offset is set to the new screen's index.
    pub fn push_screen(&mut self, screen: S)
        requires
            old(self).wf(),
        ensures
            final(self).wf(),
            old(self).pushed_to(final(self), screen),
    {
        let new_offset: usize = self.pre_computed_screens.len();
        proof {
            old(self).model().lemma_push_wf();
        }
        self.pre_computed_screens.push(screen);
        self.tickets = Ghost(self.tickets@.push(self.next_ticket@));
        self.next_ticket = Ghost(self.next_ticket@ + 1);
        if self.lowest_offset.is_none() {
            self.lowest_offset = Some(new_offset);
        }
    }

    /// Takes the top off the desired stack and lowers the dirty offset to
    /// the new length. On an empty stack this does nothing.
    pub fn pop_screen(&mut self)
        requires
            old(self).wf(),
        ensures
            final(self).wf(),
            old(self).popped_to(final(self)),
    {
        proof {
            old(self).model().lemma_pop_wf();
        }
        if self.pre_computed_screens.len() > 0 {
            self.pre_computed_screens.pop();
            self.tickets = Ghost(self.tickets@.drop_last());
            let new_offset: usize = self.pre_computed_screens.len();
            let lower = match self.lowest_offset {
                None => true,
                Some(curr_offset) => new_offset < curr_offset,
            };
            if lower {
                self.lowest_offset = Some(new_offset);
            }
        }
    }

    /// Pops, then pushes `screen`.
    pub fn replace_screen(&mut self, screen: S)
        requires
            old(self).wf(),
        ensures
            final(self).wf(),
            old(self).replaced_to(final(self), screen),
    {
        self.pop_screen();
        self.push_screen(screen);
    }

    /// Whether the top of the desired stack is closable.
    pub fn is_current_closable(&self) -> (r: bool)
        ensures
            r == (self.desired().len() > 0 && self.desired().last().closable()),
    {
        let len: usize = self.pre_computed_screens.len();
        if len > 0 {
            return self.pre_computed_screens[len - 1].is_closable();
        }
        false
    }

    /// Whether the top of the desired stack is an in-game screen.
    pub fn is_current_ingame(&self) -> (r: bool)
        ensures
            r == (self.desired().len() > 0 && self.desired().last().kind() is InGame),
    {
        let len: usize = self.pre_computed_screens.len();
        if len > 0 {
            return match self.pre_computed_screens[len - 1].ty() {
                ScreenType::InGame => true,
                _ => false,
            };
        }
        false
    }

    /// Whether any screen of the desired stack is an in-game screen.
    pub fn is_any_ingame(&self) -> (r: bool)
        ensures
            r == (exists|i: int|
                0 <= i < self.desired().len() && (#[trigger] self.desired()[i]).kind() is InGame),
    {
        let mut i: usize = self.pre_computed_screens.len();
        while i > 0
            invariant
                i <= self.pre_computed_screens.len(),
                forall|k: int|
                    i <= k < self.desired().len() ==> !((
                    #[trigger] self.desired()[k]).kind() is InGame),
            decreases i,
        {
            i -= 1;
            let ingame = match self.pre_computed_screens[i].ty() {
                ScreenType::InGame => true,
                _ => false,
            };
            if ingame {
                return true;
            }
        }
        false
    }

    /// The kind of the top of the desired stack; of an empty stack, the
    /// unnamed kind.
    pub fn current_screen_ty(&self) -> (r: ScreenType)
        ensures
            self.desired().len() > 0 ==> r == self.desired().last().kind(),
            self.desired().len() == 0 ==> (r matches ScreenType::Other(name) && name@.len() == 0),
    {
        let len: usize = self.pre_computed_screens.len();
        if len > 0 {
            return self.pre_computed_screens[len - 1].ty();
        }
        ScreenType::Other(String::new())
    }

    /// Pops for as long as the top of the desired stack is closable.
    pub fn close_closable_screens(&mut self)
        requires
            old(self).wf(),
        ensures
            final(self).wf(),
            old(self).closed_to(final(self)),
            !(final(self).desired().len() > 0 && final(self).desired().last().closable()),
    {
        let ghost all = self.desired();
        let ghost mut popped: nat = 0;
        assert(all.take(all.len() as int) =~= all);
        while self.is_current_closable()
            invariant
                self.wf(),
                all == old(self).desired(),
                popped <= all.len(),
                self.desired() == all.take(all.len() - popped),
                Self::closable_run(all, all.len()) == popped + Self::closable_run(
                    all,
                    (all.len() - popped) as nat,
                ),
                old(self).model().pop_times(popped) == self.model(),
                self.committed() == old(self).committed(),
                self.active() == old(self).active(),
                self.last_sizes() == old(self).last_sizes(),
            decreases self.desired().len(),
        {
            proof {
                lemma_pop_times_step(old(self).model(), popped);
                assert(self.model().desired.len() == self.desired().len());
            }
            self.pop_screen();
            proof {
                popped = popped + 1;
                assert(self.desired() =~= all.take(all.len() - popped));
            }
        }
    }

    /// Whether `after` differs from this stack at most in the state of the
    /// top committed screen.
    pub open spec fn only_top_differs(&self, after: &Self) -> bool {
        &&& after.model() == self.model()
        &&& after.desired() == self.desired()
        &&& after.active() == self.active()
        &&& after.last_sizes() == self.last_sizes()
        &&& after.committed().len() == self.committed().len()
        &&& forall|i: int|
            0 <= i < self.committed().len() - 1 ==> (#[trigger] after.committed()[i])
                == self.committed()[i]
    }

    /// Hands a character to the top committed screen: that screen is then
    /// what its `on_char_receive` made of it. Without a committed screen
    /// nothing happens.
    pub fn receive_char(&mut self, received: char)
        requires
            old(self).wf(),
        ensures
            final(self).wf(),
            old(self).only_top_differs(final(self)),
            old(self).committed().len() == 0 ==> final(self).committed() == old(self).committed(),
            old(self).committed().len() > 0 ==> exists|top: &mut S|
                mut_ref_current(top) == old(self).committed().last() && mut_ref_future(top)
                    == final(self).committed().last() && #[trigger] call_ensures(
                    S::on_char_receive,
                    (top, received),
                    (),
                ),
    {
        let len: usize = self.screens.len();
        if len > 0 {
            self.screens[len - 1].screen.on_char_receive(received);
            proof {
                self.lemma_top_changed(old(self));
            }
        } else {
            assert(self.committed() =~= old(self).committed());
        }
    }

    /// Hands a scroll to the top committed screen: that screen is then what
    /// its `on_scroll` made of it. Without a committed screen nothing
    /// happens.
    pub fn on_scroll(&mut self, x: Fixed, y: Fixed)
        requires
            old(self).wf(),
        ensures
            final(self).wf(),
            old(self).only_top_differs(final(self)),
            old(self).committed().len() == 0 ==> final(self).committed() == old(self).committed(),
            old(self).committed().len() > 0 ==> exists|top: &mut S|
                mut_ref_current(top) == old(self).committed().last() && mut_ref_future(top)
                    == final(self).committed().last() && #[trigger] call_ensures(
                    S::on_scroll,
                    (top, x, y),
                    (),
                ),
    {
        let len: usize = self.screens.len();
        if len > 0 {
            self.screens[len - 1].screen.on_scroll(x, y);
            proof {
                self.lemma_top_changed(old(self));
            }
        } else {
            assert(self.committed() =~= old(self).committed());
        }
    }

    /// Hands a click at `pos` to the components of the top committed screen.
    /// There the first component under `pos` gets it: that component and
    /// the renderer are then what its `on_click` made of them. Without a
    /// screen or without a component under `pos` the renderer stays as it
    /// is.
    pub fn on_mouse_click(
        &mut self,
        ctx: &Arc<AppCtx>,
        renderer: &mut Renderer,
        pos: (Fixed, Fixed),
    )
        requires
            old(self).wf(),
        ensures
            final(self).wf(),
            old(self).only_top_differs(final(self)),
            old(self).committed().len() == 0 ==> final(self).committed() == old(self).committed(),
            old(self).committed().len() > 0 ==> old(self).committed().last().content().clicks_to(
                &final(self).committed().last().content(),
                pos,
            ),
            old(self).committed().len() == 0 || old(self).committed().last().content().first_hit(
                pos,
            ) is None ==> *final(renderer) == *old(renderer),
            old(self).committed().len() > 0 && old(self).committed().last().content().first_hit(
                pos,
            ) is Some ==> exists|c: &mut S::Item, r: &mut Renderer|
                mut_ref_current(c) == old(self).committed().last().content().slots()[old(
                    self,
                ).committed().last().content().first_hit(pos)->0].component()
                    && mut_ref_future(c) == final(self).committed().last().content().slots()[old(
                    self,
                ).committed().last().content().first_hit(pos)->0].component()
                    && mut_ref_current(r) == *old(renderer)
                    && mut_ref_future(r) == *final(renderer)
                    && #[trigger] call_ensures(
                    <S::Item as Component>::on_click,
                    (c, ctx, r),
                    (),
                ),
    {
        let len: usize = self.screens.len();
        if len > 0 {
            self.screens[len - 1].screen.container_mut().on_mouse_click(ctx, renderer, pos);
            proof {
                self.lemma_top_changed(old(self));
            }
        } else {
            assert(self.committed() =~= old(self).committed());
        }
    }

    /// Does what `request` asks for.
    pub fn navigate(&mut self, request: Navigation<S>)
        requires
            old(self).wf(),
        ensures
            final(self).wf(),
            old(self).navigates_to(final(self), request),
    {
        match request {
            Navigation::Stay => {},
            Navigation::Pop => {
                self.pop_screen();
            },
            Navigation::Push(screen) => {
                self.push_screen(screen);
            },
            Navigation::Replace(screen) => {
                self.replace_screen(screen);
            },
            Navigation::CloseClosable => {
                self.close_closable_screens();
            },
        }
    }

    /// Hands a key to the top committed screen. A release of Escape on a
    /// closable screen is not handed on: it pops. Any other key is handed
    /// on: the top screen is then what its `on_key_press` made of it, and the
    /// stack does what that call asked for.
    pub fn press_key(&mut self, key: Key, down: bool)
        requires
            old(self).wf(),
        ensures
            final(self).wf(),
            old(self).committed().len() == 0 ==> final(self).same_as(old(self)),
            old(self).committed().len() > 0 && closes(
                key,
                down,
                old(self).committed().last().closable(),
            ) ==> old(self).popped_to(final(self)),
            old(self).committed().len() > 0 && !closes(
                key,
                down,
                old(self).committed().last().closable(),
            ) ==> exists|handled: Self, request: Navigation<S>, top: &mut S|
                #![trigger
                    old(self).handles_key(&handled, request, final(self)),
                    call_ensures(S::on_key_press, (top, key, down), request),
                ]
                old(self).handles_key(&handled, request, final(self)) && mut_ref_current(top)
                    == old(self).committed().last() && mut_ref_future(top)
                    == handled.committed().last() && call_ensures(
                    S::on_key_press,
                    (top, key, down),
                    request,
                ),
    {
        let len: usize = self.screens.len();
        if len > 0 {
            let closable = self.screens[len - 1].screen.is_closable();
            assert(closable == old(self).committed().last().closable());
            if escape_released(key, down) && closable {
                self.pop_screen();
                return ;
            }
            let request = self.screens[len - 1].screen.on_key_press(key, down);
            proof {
                self.lemma_top_changed(old(self));
            }
            let ghost handled = *self;
            self.navigate(request);
            assert(old(self).handles_key(&handled, request, self));
        }
    }

    /// Whether `after` is what a key that is handed on makes of this stack:
    /// the top committed screen has had the key, which left `handled`, and
    /// the stack has done what the screen asked for with `request`.
    pub open spec fn handles_key(
        &self,
        handled: &Self,
        request: Navigation<S>,
        after: &Self,
    ) -> bool {
        self.only_top_differs(handled) && handled.navigates_to(after, request)
    }

    /// The dirty offset, where one is set.
    pub open spec fn offset(&self) -> int {
        self.model().lowest->0 as int
    }

    /// The number of committed screens from the dirty offset up: those that
    /// reconciliation retires.
    pub open spec fn retiring(&self) -> int {
        self.committed().len() - self.offset()
    }

    /// Whether the reconciliation of this stack takes the active state from
    /// the committed screen at `index`: the screen is the active top that
    /// survives beneath new screens, or it is a new screen beneath the new top.
    pub open spec fn covered(&self, index: int) -> bool {
        let k = self.model().lowest->0 as int;
        let n = self.desired().len() as int;
        &&& self.model().lowest is Some
        &&& k < n
        &&& (index == k - 1 && index >= 0 && self.active()[index]) || (k <= index < n - 1)
    }

    /// Whether `after` and `pointer` are what reconciliation makes of this
    /// stack in a window of `size`.
    ///
    /// Without a dirty offset nothing happens. With the offset `k`:
    /// - the committed screens from `k` up are gone, and for each desired
    ///   screen from `k` up a copy is committed, without a window size;
    /// - where screens were committed, only the new top is active;
    /// - the committed screens beneath `k` are as they were, but for a
    ///   covered one, which was told that it is no longer active;
    /// - unless the old top was closable, `pointer` is the window's centre.
    pub open spec fn reconciles_to(
        &self,
        after: &Self,
        size: (u32, u32),
        pointer: Option<(i32, i32)>,
    ) -> bool {
        match self.model().lowest {
            None => {
                &&& after.same_as(self)
                &&& pointer is None
            },
            Some(offset) => {
                let k = offset as int;
                let n = self.desired().len() as int;
                &&& after.model() == self.model().settle()
                &&& after.desired() == self.desired()
                &&& after.committed().len() == n
                &&& after.last_sizes() == Seq::new(
                    n as nat,
                    |i: int|
                        if i < k {
                            self.last_sizes()[i]
                        } else {
                            None
                        },
                )
                &&& after.active() == Seq::new(
                    n as nat,
                    |i: int|
                        if k < n {
                            i == n - 1
                        } else {
                            self.active()[i]
                        },
                )
                &&& forall|i: int|
                    0 <= i < k && !self.covered(i) ==> (#[trigger] after.committed()[i])
                        == self.committed()[i]
                &&& pointer == if self.committed().len() > 0 && self.committed().last().closable() {
                    None
                } else {
                    Some(pointer_center(size))
                }
            },
        }
    }

    /// Brings the committed stack in line with the desired one, for a window
    /// of `width` by `height` pixels.
    ///
    /// Every committed screen from the dirty offset up is retired, see
    /// [`retire`]. Then a copy of every desired screen from the offset up is
    /// committed: the screen beneath it is covered, see [`cover`], and the
    /// copy is started, see [`start`]. So a committed screen from the offset
    /// up is what `clone_screen` made of the desired screen at its index,
    /// then `init`, then `on_active`, and, beneath the top, `on_deactive`.
    ///
    /// The renderer goes through these calls from hand to hand. In the
    /// contract `handed` holds it as it was at first, then after each
    /// retiring, from the top screen down, then for each new screen after
    /// the covering of the screen beneath it and after its start.
    pub fn reconcile(
        &mut self,
        app_ctx: &Arc<AppCtx>,
        renderer: &mut Renderer,
        width: u32,
        height: u32,
    ) -> (pointer: Option<(i32, i32)>)
        requires
            old(self).wf(),
        ensures
            final(self).wf(),
            old(self).reconciles_to(final(self), (width, height), pointer),
            old(self).model().lowest is None ==> *final(renderer) == *old(renderer),
            old(self).model().lowest is Some ==> exists|handed: Seq<Renderer>|
                #![trigger handed.len()]
                {
                    &&& handed.len()
                        == old(self).retiring() + 2 * (old(self).desired().len() - old(self).offset()) + 1
                    &&& handed[0] == *old(renderer)
                    &&& handed.last() == *final(renderer)
                    &&& forall|i: int|
                        old(self).offset() <= i < old(self).committed().len() ==>
                            if (#[trigger] old(self).active()[i]) {
                            exists|s1: &mut S, r1: &mut Renderer, s2: &mut S, r2: &mut Renderer|
                                #![trigger
                                    call_ensures(S::on_deactive, (s1, app_ctx, r1), ()),
                                    call_ensures(S::deinit, (s2, app_ctx, r2), ()),
                                ]
                                mut_ref_current(s1) == old(self).committed()[i]
                                    && mut_ref_current(r1)
                                        == handed[old(self).committed().len() - 1 - i]
                                    && call_ensures(S::on_deactive, (s1, app_ctx, r1), ())
                                    && mut_ref_current(s2) == mut_ref_future(s1)
                                    && mut_ref_current(r2) == mut_ref_future(r1)
                                    && call_ensures(S::deinit, (s2, app_ctx, r2), ())
                                    && mut_ref_future(r2) == handed[old(self).committed().len() - i]
                        } else {
                            exists|s2: &mut S, r2: &mut Renderer|
                                mut_ref_current(s2) == old(self).committed()[i]
                                    && mut_ref_current(r2)
                                        == handed[old(self).committed().len() - 1 - i]
                                    && #[trigger] call_ensures(S::deinit, (s2, app_ctx, r2), ())
                                    && mut_ref_future(r2) == handed[old(self).committed().len() - i]
                        }
                    &&& forall|j: int|
                        old(self).offset() <= j < old(self).desired().len() - 1 ==>
                            (#[trigger] final(self).last_sizes()[j]) is None && exists|
                            c0: S,
                            s1: &mut S,
                            r1: &mut Renderer,
                            s2: &mut S,
                            r2: &mut Renderer,
                            s3: &mut S,
                            r3: &mut Renderer,
                        |
                            #![trigger
                                call_ensures(S::clone_screen, (&old(self).desired()[j],), c0),
                                call_ensures(S::init, (s1, app_ctx, r1), ()),
                                call_ensures(S::on_active, (s2, app_ctx, r2), ()),
                                call_ensures(S::on_deactive, (s3, app_ctx, r3), ()),
                            ]
                            call_ensures(S::clone_screen, (&old(self).desired()[j],), c0)
                                && mut_ref_current(s1) == c0
                                && mut_ref_current(r1)
                                    == handed[old(self).retiring() + 2 * (j - old(self).offset()) + 1]
                                && call_ensures(S::init, (s1, app_ctx, r1), ())
                                && mut_ref_current(s2) == mut_ref_future(s1)
                                && mut_ref_current(r2) == mut_ref_future(r1)
                                && call_ensures(S::on_active, (s2, app_ctx, r2), ())
                                && mut_ref_future(r2)
                                    == handed[old(self).retiring() + 2 * (j - old(self).offset()) + 2]
                                && mut_ref_current(s3) == mut_ref_future(s2)
                                && mut_ref_current(r3)
                                    == handed[old(self).retiring() + 2 * (j - old(self).offset()) + 2]
                                && call_ensures(S::on_deactive, (s3, app_ctx, r3), ())
                                && mut_ref_future(s3) == final(self).committed()[j]
                                && (if final(self).committed()[j].tick_always() {
                                    mut_ref_future(r3)
                                        == handed[old(self).retiring() + 2 * (j - old(self).offset()) + 3]
                                } else {
                                    mut_ref_future(r3).cleared_to(&handed[old(self).retiring() + 2 * (j - old(self).offset()) + 3])
                                })
                    &&& old(self).offset() < old(self).desired().len() ==> exists|
                        c0: S,
                        s1: &mut S,
                        r1: &mut Renderer,
                        s2: &mut S,
                        r2: &mut Renderer,
                    |
                            #![trigger
                                call_ensures(S::clone_screen, (&old(self).desired().last(),), c0),
                                call_ensures(S::init, (s1, app_ctx, r1), ()),
                                call_ensures(S::on_active, (s2, app_ctx, r2), ()),
                            ]
                            call_ensures(S::clone_screen, (&old(self).desired().last(),), c0)
                                && mut_ref_current(s1) == c0
                                && mut_ref_current(r1) == handed[handed.len() - 2]
                                && call_ensures(S::init, (s1, app_ctx, r1), ())
                                && mut_ref_current(s2) == mut_ref_future(s1)
                                && mut_ref_current(r2) == mut_ref_future(r1)
                                && call_ensures(S::on_active, (s2, app_ctx, r2), ())
                                && mut_ref_future(s2) == final(self).committed().last()
                                && mut_ref_future(r2) == handed[handed.len() - 1]
                    &&& old(self).offset() < old(self).desired().len()
                        && !old(self).covered(old(self).offset() - 1) ==>
                            handed[old(self).retiring() + 1] == handed[old(self).retiring()]
                    &&& old(self).covered(old(self).offset() - 1) ==> exists|
                        s: &mut S,
                        r: &mut Renderer,
                    |
                            mut_ref_current(s) == old(self).committed()[old(self).offset() - 1]
                                && mut_ref_future(s)
                                    == final(self).committed()[old(self).offset() - 1]
                                && mut_ref_current(r) == handed[old(self).retiring()]
                                && #[trigger] call_ensures(S::on_deactive, (s, app_ctx, r), ())
                                && (if final(self).committed()[old(self).offset() - 1].tick_always() {
                                    mut_ref_future(r) == handed[old(self).retiring() + 1]
                                } else {
                                    mut_ref_future(r).cleared_to(&handed[old(self).retiring() + 1])
                                })
                },
    {
        let lowest: usize = match self.lowest_offset {
            None => {
                return None;
            },
            Some(k) => k,
        };
        let ghost old0 = old(self).screens@;
        let ghost tickets = self.tickets@;
        proof {
            assert(old(self).model().committed.len() == old0.len());
        }
        let screens_len: usize = self.screens.len();
        let was_closable = if screens_len > 0 {
            self.screens[screens_len - 1].screen.is_closable()
        } else {
            false
        };
        assert(was_closable == (old(self).committed().len() > 0 && old(
            self,
        ).committed().last().closable()));
        let ghost mut chain: Seq<Renderer> = seq![*renderer];
        while self.screens.len() > lowest
            invariant
                lowest <= self.screens@.len() <= old0.len(),
                self.screens@ == old0.take(self.screens@.len() as int),
                self.pre_computed_screens == old(self).pre_computed_screens,
                self.lowest_offset == old(self).lowest_offset,
                self.tickets == old(self).tickets,
                self.next_ticket == old(self).next_ticket,
                chain.len() == old0.len() - self.screens@.len() + 1,
                chain[0] == *old(renderer),
                chain.last() == *renderer,
                forall|i: int|
                    self.screens@.len() <= i < old0.len() ==> if (#[trigger] old0[i]).active {
                        exists|s1: &mut S, r1: &mut Renderer, s2: &mut S, r2: &mut Renderer|
                            #![trigger
                                call_ensures(S::on_deactive, (s1, app_ctx, r1), ()),
                                call_ensures(S::deinit, (s2, app_ctx, r2), ()),
                            ]
                            mut_ref_current(s1) == old0[i].screen
                                && mut_ref_current(r1) == chain[old0.len() - 1 - i]
                                && call_ensures(S::on_deactive, (s1, app_ctx, r1), ())
                                && mut_ref_current(s2) == mut_ref_future(s1)
                                && mut_ref_current(r2) == mut_ref_future(r1)
                                && call_ensures(S::deinit, (s2, app_ctx, r2), ())
                                && mut_ref_future(r2) == chain[old0.len() - i]
                    } else {
                        exists|s2: &mut S, r2: &mut Renderer|
                            mut_ref_current(s2) == old0[i].screen
                                && mut_ref_current(r2) == chain[old0.len() - 1 - i]
                                && #[trigger] call_ensures(S::deinit, (s2, app_ctx, r2), ())
                                && mut_ref_future(r2) == chain[old0.len() - i]
                    },
            decreases self.screens@.len(),
        {
            let ghost at = self.screens@.len() - 1;
            let ghost earlier = chain;
            let mut info = self.screens.pop().unwrap();
            assert(info == old0[at]);
            retire(&mut info.screen, info.active, app_ctx, renderer);
            assert(self.screens@ =~= old0.take(self.screens@.len() as int));
            proof {
                chain = chain.push(*renderer);
                assert forall|i: int| at <= i < old0.len() implies if (#[trigger] old0[i]).active {
                    exists|s1: &mut S, r1: &mut Renderer, s2: &mut S, r2: &mut Renderer|
                        #![trigger
                            call_ensures(S::on_deactive, (s1, app_ctx, r1), ()),
                            call_ensures(S::deinit, (s2, app_ctx, r2), ()),
                        ]
                        mut_ref_current(s1) == old0[i].screen
                            && mut_ref_current(r1) == chain[old0.len() - 1 - i]
                            && call_ensures(S::on_deactive, (s1, app_ctx, r1), ())
                            && mut_ref_current(s2) == mut_ref_future(s1)
                            && mut_ref_current(r2) == mut_ref_future(r1)
                            && call_ensures(S::deinit, (s2, app_ctx, r2), ())
                            && mut_ref_future(r2) == chain[old0.len() - i]
                } else {
                    exists|s2: &mut S, r2: &mut Renderer|
                        mut_ref_current(s2) == old0[i].screen
                            && mut_ref_current(r2) == chain[old0.len() - 1 - i]
                            && #[trigger] call_ensures(S::deinit, (s2, app_ctx, r2), ())
                            && mut_ref_future(r2) == chain[old0.len() - i]
                } by {
                    if i > at {
                        assert(earlier[old0.len() - 1 - i] == chain[old0.len() - 1 - i]);
                        assert(earlier[old0.len() - i] == chain[old0.len() - i]);
                    } else {
                        assert(chain[old0.len() - 1 - i] == earlier.last());
                        assert(chain[old0.len() - i] == *renderer);
                    }
                }
            }
        }
        let k: usize = lowest;
        let n: usize = self.pre_computed_screens.len();
        proof {
            let m = old(self).model();
            assert(m.desired.take(k as int) == m.committed.take(k as int));
            assert forall|i: int| 0 <= i < k implies (#[trigger] self.screens@[i]).ticket@
                == tickets[i] by {
                assert(m.committed.take(k as int)[i] == m.committed[i]);
                assert(m.desired.take(k as int)[i] == m.desired[i]);
            }
        }
        let ghost left = old0.len() - k;
        let mut j: usize = k;
        while j < n
            invariant
                k <= j <= n,
                k <= old0.len(),
                n == self.pre_computed_screens@.len(),
                tickets.len() == n,
                old0 == old(self).screens@,
                old(self).wf(),
                self.screens@.len() == j,
                self.pre_computed_screens == old(self).pre_computed_screens,
                self.lowest_offset == old(self).lowest_offset,
                self.tickets == old(self).tickets,
                tickets == self.tickets@,
                self.next_ticket == old(self).next_ticket,
                forall|i: int| 0 <= i < j ==> (#[trigger] self.screens@[i]).ticket@ == tickets[i],
                forall|i: int|
                    0 <= i < k ==> (#[trigger] self.screens@[i]).last_size == old0[i].last_size,
                forall|i: int| k <= i < j ==> (#[trigger] self.screens@[i]).last_size is None,
                j == k ==> self.screens@ == old0.take(k as int),
                j > k ==> self.screens@[j - 1].active,
                j > k ==> forall|i: int| 0 <= i < j - 1 ==> !(#[trigger] self.screens@[i]).active,
                forall|i: int|
                    0 <= i < k && !(i == k - 1 && old0[i].active) ==> (
                    #[trigger] self.screens@[i]).screen == old0[i].screen,
                left == old0.len() - k,
                chain.len() == left + 2 * (j - k) + 1,
                chain[0] == *old(renderer),
                chain.last() == *renderer,
                forall|i: int|
                    k <= i < j - 1 ==> (#[trigger] self.screens@[i]).last_size is None && exists|
                        c0: S,
                        s1: &mut S,
                        r1: &mut Renderer,
                        s2: &mut S,
                        r2: &mut Renderer,
                        s3: &mut S,
                        r3: &mut Renderer,
                    |
                        #![trigger
                            call_ensures(S::clone_screen, (&self.pre_computed_screens@[i],), c0),
                            call_ensures(S::init, (s1, app_ctx, r1), ()),
                            call_ensures(S::on_active, (s2, app_ctx, r2), ()),
                            call_ensures(S::on_deactive, (s3, app_ctx, r3), ()),
                        ]
                        call_ensures(S::clone_screen, (&self.pre_computed_screens@[i],), c0)
                            && mut_ref_current(s1) == c0
                            && mut_ref_current(r1) == chain[left + 2 * (i - k) + 1]
                            && call_ensures(S::init, (s1, app_ctx, r1), ())
                            && mut_ref_current(s2) == mut_ref_future(s1)
                            && mut_ref_current(r2) == mut_ref_future(r1)
                            && call_ensures(S::on_active, (s2, app_ctx, r2), ())
                            && mut_ref_future(r2) == chain[left + 2 * (i - k) + 2]
                            && mut_ref_current(s3) == mut_ref_future(s2)
                            && mut_ref_current(r3) == chain[left + 2 * (i - k) + 2]
                            && call_ensures(S::on_deactive, (s3, app_ctx, r3), ())
                            && mut_ref_future(s3) == self.screens@[i].screen
                            && (if self.screens@[i].screen.tick_always() {
                                mut_ref_future(r3) == chain[left + 2 * (i - k) + 3]
                            } else {
                                mut_ref_future(r3).cleared_to(&chain[left + 2 * (i - k) + 3])
                            }),
                j > k ==> exists|
                    c0: S,
                    s1: &mut S,
                    r1: &mut Renderer,
                    s2: &mut S,
                    r2: &mut Renderer,
                |
                        #![trigger
                            call_ensures(S::clone_screen, (&self.pre_computed_screens@[j - 1],), c0),
                            call_ensures(S::init, (s1, app_ctx, r1), ()),
                            call_ensures(S::on_active, (s2, app_ctx, r2), ()),
                        ]
                        call_ensures(S::clone_screen, (&self.pre_computed_screens@[j - 1],), c0)
                            && mut_ref_current(s1) == c0
                            && mut_ref_current(r1) == chain[chain.len() - 2]
                            && call_ensures(S::init, (s1, app_ctx, r1), ())
                            && mut_ref_current(s2) == mut_ref_future(s1)
                            && mut_ref_current(r2) == mut_ref_future(r1)
                            && call_ensures(S::on_active, (s2, app_ctx, r2), ())
                            && mut_ref_future(s2) == self.screens@[j - 1].screen
                            && mut_ref_future(r2) == chain[chain.len() - 1],
                j > k && !(k >= 1 && old0[k - 1].active) ==> chain[left + 1] == chain[left],
                j > k && k >= 1 && old0[k - 1].active ==> exists|s: &mut S, r: &mut Renderer|
                        mut_ref_current(s) == old0[k - 1].screen
                            && mut_ref_future(s) == self.screens@[k - 1].screen
                            && mut_ref_current(r) == chain[left]
                            && #[trigger] call_ensures(S::on_deactive, (s, app_ctx, r), ())
                            && (if self.screens@[k - 1].screen.tick_always() {
                                mut_ref_future(r) == chain[left + 1]
                            } else {
                                mut_ref_future(r).cleared_to(&chain[left + 1])
                            }),
                forall|i: int|
                    k <= i < old0.len() ==> if (#[trigger] old0[i]).active {
                        exists|s1: &mut S, r1: &mut Renderer, s2: &mut S, r2: &mut Renderer|
                            #![trigger
                                call_ensures(S::on_deactive, (s1, app_ctx, r1), ()),
                                call_ensures(S::deinit, (s2, app_ctx, r2), ()),
                            ]
                            mut_ref_current(s1) == old0[i].screen
                                && mut_ref_current(r1) == chain[old0.len() - 1 - i]
                                && call_ensures(S::on_deactive, (s1, app_ctx, r1), ())
                                && mut_ref_current(s2) == mut_ref_future(s1)
                                && mut_ref_current(r2) == mut_ref_future(r1)
                                && call_ensures(S::deinit, (s2, app_ctx, r2), ())
                                && mut_ref_future(r2) == chain[old0.len() - i]
                    } else {
                        exists|s2: &mut S, r2: &mut Renderer|
                            mut_ref_current(s2) == old0[i].screen
                                && mut_ref_current(r2) == chain[old0.len() - 1 - i]
                                && #[trigger] call_ensures(S::deinit, (s2, app_ctx, r2), ())
                                && mut_ref_future(r2) == chain[old0.len() - i]
                    },
            decreases n - j,
        {
            let ghost before = self.screens@;
            let ghost earlier = chain;
            let idx: usize = if self.screens.len() > 0 {
                self.screens.len() - 1
            } else {
                0
            };
            let copy = self.pre_computed_screens[j].clone_screen();
            self.screens.push(
                ScreenInfo {
                    screen: copy,
                    active: false,
                    last_size: None,
                    ticket: Ghost(tickets[j as int]),
                },
            );
            let was_active = self.screens[idx].active;
            proof {
                if was_active {
                    assert(idx < j);
                    assert(before[idx as int].active);
                    if j == k {
                        assert(before[idx as int] == old0[idx as int]);
                    }
                }
            }
            self.screens[idx].active = false;
            let ghost copied = self.screens@[j as int].screen;
            let ghost beneath = self.screens@[idx as int].screen;
            cover(&mut self.screens[idx].screen, was_active, app_ctx, renderer);
            let ghost covered_on = *renderer;
            let ghost covered = self.screens@[idx as int].screen;
            let cur: usize = self.screens.len() - 1;
            assert(self.screens@[cur as int].screen == copied);
            self.screens[cur].active = true;
            start(&mut self.screens[cur].screen, app_ctx, renderer);
            proof {
                chain = chain.push(covered_on).push(*renderer);
                let after = self.screens@;
                assert(after.len() == j + 1);
                assert(chain.len() == earlier.len() + 2);
                assert(chain[earlier.len() as int] == covered_on);
                assert(chain[earlier.len() as int + 1] == *renderer);
                assert(forall|x: int| 0 <= x < earlier.len() ==> chain[x] == earlier[x]);
                assert forall|i: int| 0 <= i < j && i != idx implies (#[trigger] after[i])
                    == before[i] by {}
                assert(call_ensures(
                    S::clone_screen,
                    (&self.pre_computed_screens@[j as int],),
                    copied,
                ));
                assert(exists|c0: S, s1: &mut S, r1: &mut Renderer, s2: &mut S, r2: &mut Renderer|
                    #![trigger
                        call_ensures(S::clone_screen, (&self.pre_computed_screens@[j as int],), c0),
                        call_ensures(S::init, (s1, app_ctx, r1), ()),
                        call_ensures(S::on_active, (s2, app_ctx, r2), ()),
                    ]
                    call_ensures(S::clone_screen, (&self.pre_computed_screens@[j as int],), c0)
                        && mut_ref_current(s1) == c0
                        && mut_ref_current(r1) == chain[chain.len() - 2]
                        && call_ensures(S::init, (s1, app_ctx, r1), ())
                        && mut_ref_current(s2) == mut_ref_future(s1)
                        && mut_ref_current(r2) == mut_ref_future(r1)
                        && call_ensures(S::on_active, (s2, app_ctx, r2), ())
                        && mut_ref_future(s2) == after[j as int].screen
                        && mut_ref_future(r2) == chain[chain.len() - 1]);
                if j > k {
                    assert(idx == j - 1);
                    assert(was_active);
                    assert(beneath == before[j - 1].screen);
                    assert(covered == after[j - 1].screen);
                    assert(earlier[earlier.len() - 2] == chain[left + 2 * (j - 1 - k) + 1]);
                    assert(earlier[earlier.len() - 1] == chain[left + 2 * (j - 1 - k) + 2]);
                    assert(covered_on == chain[left + 2 * (j - 1 - k) + 3]);
                    assert(exists|
                        c0: S,
                        s1: &mut S,
                        r1: &mut Renderer,
                        s2: &mut S,
                        r2: &mut Renderer,
                        s3: &mut S,
                        r3: &mut Renderer,
                    |
                        #![trigger
                            call_ensures(S::clone_screen, (&self.pre_computed_screens@[j - 1],), c0),
                            call_ensures(S::init, (s1, app_ctx, r1), ()),
                            call_ensures(S::on_active, (s2, app_ctx, r2), ()),
                            call_ensures(S::on_deactive, (s3, app_ctx, r3), ()),
                        ]
                        call_ensures(S::clone_screen, (&self.pre_computed_screens@[j - 1],), c0)
                            && mut_ref_current(s1) == c0
                            && mut_ref_current(r1) == chain[left + 2 * (j - 1 - k) + 1]
                            && call_ensures(S::init, (s1, app_ctx, r1), ())
                            && mut_ref_current(s2) == mut_ref_future(s1)
                            && mut_ref_current(r2) == mut_ref_future(r1)
                            && call_ensures(S::on_active, (s2, app_ctx, r2), ())
                            && mut_ref_future(r2) == chain[left + 2 * (j - 1 - k) + 2]
                            && mut_ref_current(s3) == mut_ref_future(s2)
                            && mut_ref_current(r3) == chain[left + 2 * (j - 1 - k) + 2]
                            && call_ensures(S::on_deactive, (s3, app_ctx, r3), ())
                            && mut_ref_future(s3) == after[j - 1].screen
                            && (if after[j - 1].screen.tick_always() {
                                mut_ref_future(r3) == chain[left + 2 * (j - 1 - k) + 3]
                            } else {
                                mut_ref_future(r3).cleared_to(&chain[left + 2 * (j - 1 - k) + 3])
                            }));
                }
                assert forall|i: int| k <= i < j implies (#[trigger] after[i]).last_size is None
                    && exists|
                        c0: S,
                        s1: &mut S,
                        r1: &mut Renderer,
                        s2: &mut S,
                        r2: &mut Renderer,
                        s3: &mut S,
                        r3: &mut Renderer,
                    |
                        #![trigger
                            call_ensures(S::clone_screen, (&self.pre_computed_screens@[i],), c0),
                            call_ensures(S::init, (s1, app_ctx, r1), ()),
                            call_ensures(S::on_active, (s2, app_ctx, r2), ()),
                            call_ensures(S::on_deactive, (s3, app_ctx, r3), ()),
                        ]
                        call_ensures(S::clone_screen, (&self.pre_computed_screens@[i],), c0)
                            && mut_ref_current(s1) == c0
                            && mut_ref_current(r1) == chain[left + 2 * (i - k) + 1]
                            && call_ensures(S::init, (s1, app_ctx, r1), ())
                            && mut_ref_current(s2) == mut_ref_future(s1)
                            && mut_ref_current(r2) == mut_ref_future(r1)
                            && call_ensures(S::on_active, (s2, app_ctx, r2), ())
                            && mut_ref_future(r2) == chain[left + 2 * (i - k) + 2]
                            && mut_ref_current(s3) == mut_ref_future(s2)
                            && mut_ref_current(r3) == chain[left + 2 * (i - k) + 2]
                            && call_ensures(S::on_deactive, (s3, app_ctx, r3), ())
                            && mut_ref_future(s3) == after[i].screen
                            && (if after[i].screen.tick_always() {
                                mut_ref_future(r3) == chain[left + 2 * (i - k) + 3]
                            } else {
                                mut_ref_future(r3).cleared_to(&chain[left + 2 * (i - k) + 3])
                            }) by {
                    if i < j - 1 {
                        assert(after[i] == before[i]);
                        assert(earlier[left + 2 * (i - k) + 1] == chain[left + 2 * (i - k) + 1]);
                        assert(earlier[left + 2 * (i - k) + 2] == chain[left + 2 * (i - k) + 2]);
                        assert(earlier[left + 2 * (i - k) + 3] == chain[left + 2 * (i - k) + 3]);
                    }
                }
                if j == k {
                    assert(chain[left] == earlier.last());
                    assert(chain[left + 1] == covered_on);
                    assert forall|i: int| 0 <= i < j implies !(#[trigger] after[i]).active by {
                        if i != idx {
                            assert(after[i] == old0[i]);
                            assert(old(self).screens@[i] == old0[i]);
                        }
                    }
                    if k >= 1 && old0[k - 1].active {
                        assert(idx == k - 1 && was_active);
                        assert(beneath == old0[k - 1].screen);
                        assert(covered == after[k - 1].screen);
                    }
                } else {
                    assert(chain[left] == earlier[left]);
                    assert(chain[left + 1] == earlier[left + 1]);
                    if k >= 1 && old0[k - 1].active {
                        assert(after[k - 1] == before[k - 1]);
                    }
                }
                assert forall|i: int| k <= i < old0.len() implies if (#[trigger] old0[i]).active {
                    exists|s1: &mut S, r1: &mut Renderer, s2: &mut S, r2: &mut Renderer|
                        #![trigger
                            call_ensures(S::on_deactive, (s1, app_ctx, r1), ()),
                            call_ensures(S::deinit, (s2, app_ctx, r2), ()),
                        ]
                        mut_ref_current(s1) == old0[i].screen
                            && mut_ref_current(r1) == chain[old0.len() - 1 - i]
                            && call_ensures(S::on_deactive, (s1, app_ctx, r1), ())
                            && mut_ref_current(s2) == mut_ref_future(s1)
                            && mut_ref_current(r2) == mut_ref_future(r1)
                            && call_ensures(S::deinit, (s2, app_ctx, r2), ())
                            && mut_ref_future(r2) == chain[old0.len() - i]
                } else {
                    exists|s2: &mut S, r2: &mut Renderer|
                        mut_ref_current(s2) == old0[i].screen
                            && mut_ref_current(r2) == chain[old0.len() - 1 - i]
                            && #[trigger] call_ensures(S::deinit, (s2, app_ctx, r2), ())
                            && mut_ref_future(r2) == chain[old0.len() - i]
                } by {
                    assert(earlier[old0.len() - 1 - i] == chain[old0.len() - 1 - i]);
                    assert(earlier[old0.len() - i] == chain[old0.len() - i]);
                }
            }
            j += 1;
        }
        self.lowest_offset = None;
        proof {
            let m = old(self).model();
            assert(self.model().committed =~= m.desired);
            assert(self.model() == m.settle());
            m.lemma_settle_wf();
            assert(self.last_sizes() =~= Seq::new(
                n as nat,
                |i: int|
                    if i < k {
                        old(self).last_sizes()[i]
                    } else {
                        None
                    },
            ));
            assert(self.active() =~= Seq::new(
                n as nat,
                |i: int|
                    if k < n {
                        i == n - 1
                    } else {
                        old(self).active()[i]
                    },
            ));
            assert forall|i: int| 0 <= i < k && !old(self).covered(i) implies (
            #[trigger] self.committed()[i]) == old(self).committed()[i] by {
                assert(self.screens@[i].screen == old0[i].screen);
            }
            assert(old(self).offset() == k);
            assert(old(self).desired().len() == n);
            assert(chain.len() == old(self).committed().len() - k + 2 * (n - k) + 1);
            assert forall|i: int| k <= i < old(self).committed().len() implies if (#[trigger] old(self).active()[i]) {
                exists|s1: &mut S, r1: &mut Renderer, s2: &mut S, r2: &mut Renderer|
                    #![trigger
                        call_ensures(S::on_deactive, (s1, app_ctx, r1), ()),
                        call_ensures(S::deinit, (s2, app_ctx, r2), ()),
                    ]
                    mut_ref_current(s1) == old(self).committed()[i]
                        && mut_ref_current(r1) == chain[old(self).committed().len() - 1 - i]
                        && call_ensures(S::on_deactive, (s1, app_ctx, r1), ())
                        && mut_ref_current(s2) == mut_ref_future(s1)
                        && mut_ref_current(r2) == mut_ref_future(r1)
                        && call_ensures(S::deinit, (s2, app_ctx, r2), ())
                        && mut_ref_future(r2) == chain[old(self).committed().len() - i]
            } else {
                exists|s2: &mut S, r2: &mut Renderer|
                    mut_ref_current(s2) == old(self).committed()[i]
                        && mut_ref_current(r2) == chain[old(self).committed().len() - 1 - i]
                        && #[trigger] call_ensures(S::deinit, (s2, app_ctx, r2), ())
                        && mut_ref_future(r2) == chain[old(self).committed().len() - i]
            } by {
                assert(old0[i].active == old(self).active()[i]);
                assert(old0[i].screen == old(self).committed()[i]);
            }
            assert forall|i: int| k <= i < n - 1 implies (#[trigger] self.last_sizes()[i]) is None
                && exists|
                c0: S,
                s1: &mut S,
                r1: &mut Renderer,
                s2: &mut S,
                r2: &mut Renderer,
                s3: &mut S,
                r3: &mut Renderer,
            |
                #![trigger
                    call_ensures(S::clone_screen, (&old(self).desired()[i],), c0),
                    call_ensures(S::init, (s1, app_ctx, r1), ()),
                    call_ensures(S::on_active, (s2, app_ctx, r2), ()),
                    call_ensures(S::on_deactive, (s3, app_ctx, r3), ()),
                ]
                call_ensures(S::clone_screen, (&old(self).desired()[i],), c0)
                    && mut_ref_current(s1) == c0
                    && mut_ref_current(r1)
                        == chain[(old(self).committed().len() - k) + 2 * (i - k) + 1]
                    && call_ensures(S::init, (s1, app_ctx, r1), ())
                    && mut_ref_current(s2) == mut_ref_future(s1)
                    && mut_ref_current(r2) == mut_ref_future(r1)
                    && call_ensures(S::on_active, (s2, app_ctx, r2), ())
                    && mut_ref_future(r2)
                        == chain[(old(self).committed().len() - k) + 2 * (i - k) + 2]
                    && mut_ref_current(s3) == mut_ref_future(s2)
                    && mut_ref_current(r3)
                        == chain[(old(self).committed().len() - k) + 2 * (i - k) + 2]
                    && call_ensures(S::on_deactive, (s3, app_ctx, r3), ())
                    && mut_ref_future(s3) == self.committed()[i]
                    && (if self.committed()[i].tick_always() {
                        mut_ref_future(r3)
                            == chain[(old(self).committed().len() - k) + 2 * (i - k) + 3]
                    } else {
                        mut_ref_future(r3).cleared_to(&chain[(old(self).committed().len() - k) + 2 * (i - k) + 3])
                    }) by {
                assert(self.screens@[i].last_size is None);
                assert(self.screens@[i].screen == self.committed()[i]);
            }
            if k < n {
                assert(self.screens@[n - 1].screen == self.committed().last());
                assert(old(self).desired().last() == self.pre_computed_screens@[n - 1]);
            }
            if old(self).covered(k - 1) {
                assert(old0[k - 1].active == old(self).active()[k - 1]);
                assert(old0[k - 1].screen == old(self).committed()[k - 1]);
                assert(self.screens@[k - 1].screen == self.committed()[k - 1]);
            }
            if k >= 1 {
                assert(old0[k - 1].active == old(self).active()[k - 1]);
            }
        }
        if !was_closable {
            Some(center_of(width, height))
        } else {
            None
        }
    }

    /// Whether `after` is what the activation of the top makes of this
    /// stack: a top that was not active is now, and has been told so; nothing
    /// else differs.
    pub open spec fn activates_to(&self, after: &Self) -> bool {
        if self.committed().len() == 0 || self.active().last() {
            after.same_as(self)
        } else {
            &&& after.model() == self.model()
            &&& after.desired() == self.desired()
            &&& after.last_sizes() == self.last_sizes()
            &&& after.active() == self.active().update(self.committed().len() - 1, true)
            &&& after.committed().len() == self.committed().len()
            &&& forall|i: int|
                0 <= i < self.committed().len() - 1 ==> (#[trigger] after.committed()[i])
                    == self.committed()[i]
        }
    }

    /// Whether `after` shows the same stacks and bookkeeping as this one.
    pub open spec fn same_as(&self, other: &Self) -> bool {
        &&& self.model() == other.model()
        &&& self.desired() == other.desired()
        &&& self.committed() == other.committed()
        &&& self.active() == other.active()
        &&& self.last_sizes() == other.last_sizes()
    }

    /// Makes sure that the top committed screen is active: a top that was
    /// not is told that it is, and it and the renderer are then what its
    /// `on_active` made of them. Else nothing happens.
    pub fn activate_top(&mut self, app_ctx: &Arc<AppCtx>, renderer: &mut Renderer)
        requires
            old(self).wf(),
        ensures
            final(self).wf(),
            old(self).activates_to(final(self)),
            old(self).committed().len() == 0 || old(self).active().last() ==> *final(renderer)
                == *old(renderer),
            old(self).committed().len() > 0 && !old(self).active().last() ==> exists|
                top: &mut S,
                r: &mut Renderer,
            |
                mut_ref_current(top) == old(self).committed().last()
                    && mut_ref_future(top) == final(self).committed().last()
                    && mut_ref_current(r) == *old(renderer)
                    && mut_ref_future(r) == *final(renderer)
                    && #[trigger] call_ensures(S::on_active, (top, app_ctx, r), ()),
    {
        let len: usize = self.screens.len();
        if len > 0 && !self.screens[len - 1].active {
            self.screens[len - 1].active = true;
            self.screens[len - 1].screen.on_active(app_ctx, renderer);
            proof {
                assert(self.model().committed =~= old(self).model().committed);
                assert(self.last_sizes() =~= old(self).last_sizes());
                assert(self.active() =~= old(self).active().update(len - 1, true));
            }
        }
    }

    /// Whether the committed screen at `index` is told of a new window size:
    /// it is the top, or it takes part in every frame, or it lies right
    /// beneath a transparent top.
    pub open spec fn resized(&self, index: int) -> bool {
        let len = self.committed().len();
        ||| self.committed()[index].tick_always()
        ||| index == len - 1
        ||| (self.committed()[len - 1].transparent() && index == len - 2)
    }

    /// Whether `after` is what a window of `size` makes of this stack.
    /// - Where the top has seen `size` already, nothing happens.
    /// - Where the top has seen no size yet, it only records `size`.
    /// - Else every screen that [`Self::resized`] names is told and records
    ///   `size`; the others stay as they are.
    pub open spec fn resizes_to(&self, after: &Self, size: (u32, u32)) -> bool {
        let len = self.committed().len() as int;
        if len == 0 || self.last_sizes()[len - 1] == Some(size) {
            after.same_as(self)
        } else if self.last_sizes()[len - 1] is None {
            &&& after.model() == self.model()
            &&& after.desired() == self.desired()
            &&& after.committed() == self.committed()
            &&& after.active() == self.active()
            &&& after.last_sizes() == self.last_sizes().update(len - 1, Some(size))
        } else {
            &&& after.model() == self.model()
            &&& after.desired() == self.desired()
            &&& after.active() == self.active()
            &&& after.committed().len() == len
            &&& after.last_sizes().len() == len
            &&& forall|i: int|
                0 <= i < len ==> if self.resized(i) {
                    (#[trigger] after.last_sizes()[i]) == Some(size)
                } else {
                    &&& after.last_sizes()[i] == self.last_sizes()[i]
                    &&& after.committed()[i] == self.committed()[i]
                }
        }
    }

    /// Whether a window of `size` is news to this stack: the top committed
    /// screen has seen a size, and another one.
    pub open spec fn resize_due(&self, size: (u32, u32)) -> bool {
        let len = self.committed().len() as int;
        len > 0 && self.last_sizes()[len - 1] is Some && self.last_sizes()[len - 1] != Some(size)
    }

    /// Tells the committed screens of the window's size where it is new to
    /// the top. Every screen that [`Self::resized`] names is then what its
    /// `on_resize` made of it, and the renderer goes through those calls
    /// from hand to hand, in stack order. Where the size is not news, no
    /// screen is told and the renderer stays as it is.
    pub fn propagate_resize(
        &mut self,
        app_ctx: &Arc<AppCtx>,
        renderer: &mut Renderer,
        width: u32,
        height: u32,
    )
        requires
            old(self).wf(),
        ensures
            final(self).wf(),
            old(self).resizes_to(final(self), (width, height)),
            !old(self).resize_due((width, height)) ==> *final(renderer) == *old(renderer),
            old(self).resize_due((width, height)) ==> exists|handed: Seq<Renderer>|
                #![trigger handed.len()]
                {
                    &&& handed.len() == old(self).committed().len() + 1
                    &&& handed[0] == *old(renderer)
                    &&& handed.last() == *final(renderer)
                    &&& forall|i: int|
                        0 <= i < old(self).committed().len() ==> (
                        #[trigger] final(self).last_sizes()[i]) == (if old(self).resized(i) {
                            Some((width, height))
                        } else {
                            old(self).last_sizes()[i]
                        }) && (!old(self).resized(i) ==> handed[i + 1] == handed[i]) && (old(
                            self,
                        ).resized(i) ==> exists|s: &mut S, r: &mut Renderer|
                            mut_ref_current(s) == old(self).committed()[i]
                                && mut_ref_future(s) == final(self).committed()[i]
                                && mut_ref_current(r) == handed[i]
                                && mut_ref_future(r) == handed[i + 1]
                                && #[trigger] call_ensures(S::on_resize, (s, app_ctx, r), ()))
                },
    {
        let len: usize = self.screens.len();
        if len == 0 {
            return ;
        }
        let last_transparent = self.screens[len - 1].screen.is_transparent();
        let seen = self.screens[len - 1].last_size;
        let same = match seen {
            Some(size) => size.0 == width && size.1 == height,
            None => false,
        };
        if same {
            return ;
        }
        if seen.is_none() {
            self.screens[len - 1].last_size = Some((width, height));
            proof {
                assert(self.model().committed =~= old(self).model().committed);
                assert(self.committed() =~= old(self).committed());
                assert(self.active() =~= old(self).active());
                assert(self.last_sizes() =~= old(self).last_sizes().update(
                    len - 1,
                    Some((width, height)),
                ));
            }
            return ;
        }
        assert(old(self).resize_due((width, height)));
        let ghost mut chain: Seq<Renderer> = seq![*renderer];
        let mut i: usize = 0;
        while i < len
            invariant
                i <= len,
                len == old(self).screens@.len(),
                self.screens@.len() == len,
                self.pre_computed_screens == old(self).pre_computed_screens,
                self.lowest_offset == old(self).lowest_offset,
                self.tickets == old(self).tickets,
                self.next_ticket == old(self).next_ticket,
                last_transparent == old(self).committed()[len - 1].transparent(),
                chain.len() == i + 1,
                chain[0] == *old(renderer),
                chain.last() == *renderer,
                forall|k: int|
                    0 <= k < i ==> (#[trigger] self.screens@[k]).active == old(
                        self,
                    ).screens@[k].active && (!old(self).resized(k) ==> chain[k + 1] == chain[k])
                        && (old(self).resized(k) ==> exists|s: &mut S, r: &mut Renderer|
                        mut_ref_current(s) == old(self).committed()[k]
                            && mut_ref_future(s) == self.screens@[k].screen
                            && mut_ref_current(r) == chain[k]
                            && mut_ref_future(r) == chain[k + 1]
                            && #[trigger] call_ensures(S::on_resize, (s, app_ctx, r), ())),
                forall|k: int|
                    0 <= k < len ==> {
                        &&& (#[trigger] self.screens@[k]).active == old(self).screens@[k].active
                        &&& self.screens@[k].ticket == old(self).screens@[k].ticket
                    },
                forall|k: int|
                    i <= k < len ==> (#[trigger] self.screens@[k]) == old(self).screens@[k],
                forall|k: int|
                    0 <= k < i ==> if old(self).resized(k) {
                        (#[trigger] self.screens@[k]).last_size == Some((width, height))
                    } else {
                        self.screens@[k] == old(self).screens@[k]
                    },
            decreases len - i,
        {
            assert(self.screens@[i as int].screen == old(self).committed()[i as int]);
            let ghost before = self.screens@;
            let ghost earlier = chain;
            let always = self.screens[i].screen.is_tick_always();
            if always || i == len - 1 || (last_transparent && i + 2 == len) {
                self.screens[i].screen.on_resize(app_ctx, renderer);
                self.screens[i].last_size = Some((width, height));
            }
            proof {
                chain = chain.push(*renderer);
                assert forall|k: int| 0 <= k < i + 1 implies (#[trigger] self.screens@[k]).active
                    == old(self).screens@[k].active && (!old(self).resized(k) ==> chain[k + 1]
                    == chain[k]) && (old(self).resized(k) ==> exists|
                    s: &mut S,
                    r: &mut Renderer,
                |
                    mut_ref_current(s) == old(self).committed()[k]
                        && mut_ref_future(s) == self.screens@[k].screen
                        && mut_ref_current(r) == chain[k]
                        && mut_ref_future(r) == chain[k + 1]
                        && #[trigger] call_ensures(S::on_resize, (s, app_ctx, r), ())) by {
                    if k < i {
                        assert(self.screens@[k] == before[k]);
                        assert(earlier[k] == chain[k]);
                        assert(earlier[k + 1] == chain[k + 1]);
                    } else {
                        assert(chain[k] == earlier.last());
                    }
                }
            }
            i += 1;
        }
        proof {
            assert(self.model().committed =~= old(self).model().committed);
            assert(self.active() =~= old(self).active());
            assert forall|k: int| 0 <= k < len implies if old(self).resized(k) {
                (#[trigger] self.last_sizes()[k]) == Some((width, height))
            } else {
                &&& self.last_sizes()[k] == old(self).last_sizes()[k]
                &&& self.committed()[k] == old(self).committed()[k]
            } by {
                assert(self.screens@[k].active == old(self).screens@[k].active);
            }
            assert forall|k: int| 0 <= k < len implies (#[trigger] self.last_sizes()[k]) == (if old(
                self,
            ).resized(k) {
                Some((width, height))
            } else {
                old(self).last_sizes()[k]
            }) && (!old(self).resized(k) ==> chain[k + 1] == chain[k]) && (old(self).resized(k)
                ==> exists|s: &mut S, r: &mut Renderer|
                mut_ref_current(s) == old(self).committed()[k]
                    && mut_ref_future(s) == self.committed()[k]
                    && mut_ref_current(r) == chain[k]
                    && mut_ref_future(r) == chain[k + 1]
                    && #[trigger] call_ensures(S::on_resize, (s, app_ctx, r), ())) by {
                assert(self.screens@[k].screen == self.committed()[k]);
            }
            assert(chain.len() == old(self).committed().len() + 1);
        }
    }

    /// Whether the committed screen at `index` takes part in a frame: it is
    /// the top, or it takes part in every frame.
    pub open spec fn ticked(&self, index: int) -> bool {
        self.committed()[index].tick_always() || index == self.committed().len() - 1
    }

    /// The cached models of the first `upto` screens of `after` that take
    /// part in the frame of this stack, bottom screen first.
    pub open spec fn gathered(&self, after: &Self, upto: int) -> Seq<Seq<Vertex>>
        decreases upto,
    {
        if upto <= 0 {
            Seq::empty()
        } else if self.ticked(upto - 1) {
            self.gathered(after, upto - 1) + after.committed()[upto - 1].content().cached()
        } else {
            self.gathered(after, upto - 1)
        }
    }

    /// Whether `after` and `models` are what a frame makes of this stack:
    /// every screen that [`Self::ticked`] names has been ticked and its
    /// components built, `models` holds their models in stack order, and no
    /// other screen has changed.
    pub open spec fn collects_to(&self, after: &Self, models: Seq<Seq<Vertex>>) -> bool {
        &&& after.model() == self.model()
        &&& after.desired() == self.desired()
        &&& after.active() == self.active()
        &&& after.last_sizes() == self.last_sizes()
        &&& after.committed().len() == self.committed().len()
        &&& forall|i: int|
            0 <= i < self.committed().len() ==> if self.ticked(i) {
                (#[trigger] after.committed()[i]).content().built()
                    == after.committed()[i].content().cached()
            } else {
                after.committed()[i] == self.committed()[i]
            }
        &&& models == self.gathered(after, self.committed().len() as int)
    }

    /// Ticks every committed screen that takes part in the frame and
    /// returns the models of their components, in stack order. Each such
    /// screen is first handed the renderer as the screens before it left it
    /// and is what its `tick` made of it; then its components are built.
    pub fn collect_models(&mut self, app_ctx: &Arc<AppCtx>, renderer: &mut Renderer) -> (models:
        Vec<Model>)
        requires
            old(self).wf(),
        ensures
            final(self).wf(),
            old(self).collects_to(final(self), views(models@)),
            exists|handed: Seq<Renderer>|
                #![trigger handed.len()]
                {
                    &&& handed.len() == old(self).committed().len() + 1
                    &&& handed[0] == *old(renderer)
                    &&& handed.last() == *final(renderer)
                    &&& forall|i: int|
                        0 <= i < old(self).committed().len() ==> (
                        #[trigger] final(self).last_sizes()[i]) == old(self).last_sizes()[i] && (
                        !old(self).ticked(i) ==> handed[i + 1] == handed[i]) && (old(self).ticked(
                            i,
                        ) ==> exists|s: &mut S, r: &mut Renderer|
                            mut_ref_current(s) == old(self).committed()[i]
                                && mut_ref_current(r) == handed[i]
                                && #[trigger] call_ensures(S::tick, (s, app_ctx, r), ())
                                && mut_ref_future(s).content().builds_to(
                                &final(self).committed()[i].content(),
                                final(self).committed()[i].content().cached(),
                            )
                                && exists|hooks: Seq<Renderer>|
                                    #![trigger hooks.len()]
                                    {
                                        &&& hooks.len() == final(self).committed()[i].content().slots().len() + 1
                                        &&& hooks[0] == mut_ref_future(r)
                                        &&& hooks.last() == handed[i + 1]
                                        &&& forall|slot: int|
                                            0 <= slot < final(self).committed()[i].content().slots().len()
                                                ==> final(self).committed()[i].content().slots()[slot].component() == (
                                            #[trigger] mut_ref_future(s).content().slots()[slot]).component() && exists|
                                                hook: &mut Renderer,
                                            |
                                                mut_ref_current(hook) == hooks[slot]
                                                    && mut_ref_future(hook) == hooks[slot + 1]
                                                    && #[trigger] call_ensures(
                                                    <S::Item as Component>::do_render,
                                                    (&mut_ref_future(s).content().slots()[slot].component(), app_ctx, hook),
                                                    (),
                                                )
                                    })
                },
    {
        let len: usize = self.screens.len();
        let mut models: Vec<Model> = Vec::new();
        let mut i: usize = 0;
        assert(views(models@) =~= old(self).gathered(self, 0));
        let ghost mut chain: Seq<Renderer> = seq![*renderer];
        while i < len
            invariant
                i <= len,
                len == old(self).screens@.len(),
                self.screens@.len() == len,
                self.pre_computed_screens == old(self).pre_computed_screens,
                self.lowest_offset == old(self).lowest_offset,
                self.tickets == old(self).tickets,
                self.next_ticket == old(self).next_ticket,
                forall|k: int|
                    0 <= k < len ==> {
                        &&& (#[trigger] self.screens@[k]).active == old(self).screens@[k].active
                        &&& self.screens@[k].ticket == old(self).screens@[k].ticket
                        &&& self.screens@[k].last_size == old(self).screens@[k].last_size
                    },
                chain.len() == i + 1,
                chain[0] == *old(renderer),
                chain.last() == *renderer,
                forall|k: int|
                    0 <= k < i ==> (#[trigger] self.screens@[k]).last_size == old(
                        self,
                    ).screens@[k].last_size && (!old(self).ticked(k) ==> chain[k + 1] == chain[k])
                        && (old(self).ticked(k) ==> exists|s: &mut S, r: &mut Renderer|
                        mut_ref_current(s) == old(self).committed()[k]
                            && mut_ref_current(r) == chain[k]
                            && #[trigger] call_ensures(S::tick, (s, app_ctx, r), ())
                            && mut_ref_future(s).content().builds_to(
                            &self.screens@[k].screen.content(),
                            self.screens@[k].screen.content().cached(),
                        )
                            && exists|hooks: Seq<Renderer>|
                                #![trigger hooks.len()]
                                {
                                    &&& hooks.len() == self.screens@[k].screen.content().slots().len() + 1
                                    &&& hooks[0] == mut_ref_future(r)
                                    &&& hooks.last() == chain[k + 1]
                                    &&& forall|slot: int|
                                        0 <= slot < self.screens@[k].screen.content().slots().len()
                                            ==> self.screens@[k].screen.content().slots()[slot].component() == (
                                        #[trigger] mut_ref_future(s).content().slots()[slot]).component() && exists|
                                            hook: &mut Renderer,
                                        |
                                            mut_ref_current(hook) == hooks[slot]
                                                && mut_ref_future(hook) == hooks[slot + 1]
                                                && #[trigger] call_ensures(
                                                <S::Item as Component>::do_render,
                                                (&mut_ref_future(s).content().slots()[slot].component(), app_ctx, hook),
                                                (),
                                            )
                                }),
                forall|k: int|
                    i <= k < len ==> (#[trigger] self.screens@[k]) == old(self).screens@[k],
                forall|k: int|
                    0 <= k < i ==> if old(self).ticked(k) {
                        (#[trigger] self.screens@[k]).screen.content().built()
                            == self.screens@[k].screen.content().cached()
                    } else {
                        self.screens@[k] == old(self).screens@[k]
                    },
                views(models@) == old(self).gathered(self, i as int),
            decreases len - i,
        {
            assert(self.screens@[i as int].screen == old(self).committed()[i as int]);
            let ghost before = *self;
            let ghost earlier = chain;
            let ghost so_far = views(models@);
            let always = self.screens[i].screen.is_tick_always();
            if always || i == len - 1 {
                self.screens[i].screen.tick(app_ctx, renderer);
                let ghost ticked = self.screens@[i as int].screen;
                let ghost ticked_on = *renderer;
                assert(exists|s: &mut S, r: &mut Renderer|
                    mut_ref_current(s) == old(self).committed()[i as int] && mut_ref_future(s)
                        == ticked && mut_ref_current(r) == earlier.last() && mut_ref_future(r)
                        == ticked_on && #[trigger] call_ensures(S::tick, (s, app_ctx, r), ()));
                let mut screen_models = self.screens[i].screen.container_mut().build_models(
                    app_ctx,
                    renderer,
                );
                let ghost built = views(screen_models@);
                models.append(&mut screen_models);
                proof {
                    let content = self.screens@[i as int].screen.content();
                    assert(built == content.cached());
                    assert(ticked.content().builds_to(&content, content.cached()));
                    lemma_build_settles(content);
                    assert(views(models@) =~= so_far + built);
                }
            }
            proof {
                old(self).lemma_gathered_frame(&before, self, i as int);
                assert(self.committed()[i as int] == self.screens@[i as int].screen);
                chain = chain.push(*renderer);
                assert forall|k: int| 0 <= k < i + 1 implies (#[trigger] self.screens@[k]).last_size
                    == old(self).screens@[k].last_size && (!old(self).ticked(k) ==> chain[k + 1]
                    == chain[k]) && (old(self).ticked(k) ==> exists|s: &mut S, r: &mut Renderer|
                    mut_ref_current(s) == old(self).committed()[k]
                        && mut_ref_current(r) == chain[k]
                        && #[trigger] call_ensures(S::tick, (s, app_ctx, r), ())
                        && mut_ref_future(s).content().builds_to(
                        &self.screens@[k].screen.content(),
                        self.screens@[k].screen.content().cached(),
                    )
                        && exists|hooks: Seq<Renderer>|
                            #![trigger hooks.len()]
                            {
                                &&& hooks.len() == self.screens@[k].screen.content().slots().len() + 1
                                &&& hooks[0] == mut_ref_future(r)
                                &&& hooks.last() == chain[k + 1]
                                &&& forall|slot: int|
                                    0 <= slot < self.screens@[k].screen.content().slots().len()
                                        ==> self.screens@[k].screen.content().slots()[slot].component() == (
                                    #[trigger] mut_ref_future(s).content().slots()[slot]).component() && exists|
                                        hook: &mut Renderer,
                                    |
                                        mut_ref_current(hook) == hooks[slot]
                                            && mut_ref_future(hook) == hooks[slot + 1]
                                            && #[trigger] call_ensures(
                                            <S::Item as Component>::do_render,
                                            (&mut_ref_future(s).content().slots()[slot].component(), app_ctx, hook),
                                            (),
                                        )
                            }) by {
                    if k < i {
                        assert(self.screens@[k] == before.screens@[k]);
                        assert(earlier[k] == chain[k]);
                        assert(earlier[k + 1] == chain[k + 1]);
                    } else {
                        assert(chain[k] == earlier.last());
                    }
                }
            }
            i += 1;
        }
        proof {
            assert(self.model().committed =~= old(self).model().committed);
            assert(self.active() =~= old(self).active());
            assert(self.last_sizes() =~= old(self).last_sizes());
            assert forall|k: int| 0 <= k < len implies if old(self).ticked(k) {
                (#[trigger] self.committed()[k]).content().built()
                    == self.committed()[k].content().cached()
            } else {
                self.committed()[k] == old(self).committed()[k]
            } by {
                assert(self.screens@[k].active == old(self).screens@[k].active);
            }
            assert forall|k: int| 0 <= k < len implies (#[trigger] self.last_sizes()[k]) == old(
                self,
            ).last_sizes()[k] && (!old(self).ticked(k) ==> chain[k + 1] == chain[k]) && (old(
                self,
            ).ticked(k) ==> exists|s: &mut S, r: &mut Renderer|
                mut_ref_current(s) == old(self).committed()[k]
                    && mut_ref_current(r) == chain[k]
                    && #[trigger] call_ensures(S::tick, (s, app_ctx, r), ())
                    && mut_ref_future(s).content().builds_to(
                    &self.committed()[k].content(),
                    self.committed()[k].content().cached(),
                )
                    && exists|hooks: Seq<Renderer>|
                        #![trigger hooks.len()]
                        {
                            &&& hooks.len() == self.committed()[k].content().slots().len() + 1
                            &&& hooks[0] == mut_ref_future(r)
                            &&& hooks.last() == chain[k + 1]
                            &&& forall|slot: int|
                                0 <= slot < self.committed()[k].content().slots().len()
                                    ==> self.committed()[k].content().slots()[slot].component() == (
                                #[trigger] mut_ref_future(s).content().slots()[slot]).component() && exists|
                                    hook: &mut Renderer,
                                |
                                    mut_ref_current(hook) == hooks[slot]
                                        && mut_ref_future(hook) == hooks[slot + 1]
                                        && #[trigger] call_ensures(
                                        <S::Item as Component>::do_render,
                                        (&mut_ref_future(s).content().slots()[slot].component(), app_ctx, hook),
                                        (),
                                    )
                        }) by {
                assert(self.screens@[k].screen == self.committed()[k]);
                assert(self.screens@[k].last_size == old(self).screens@[k].last_size);
            }
            assert(chain.len() == old(self).committed().len() + 1);
        }
        models
    }

    /// Whether a tick in a window of `size` leads from this stack to `after`
    /// by way of the three stacks in between: reconciled, then with an
    /// active top, then told of the window's size, then ticked.
    pub open spec fn ticks_via(
        &self,
        reconciled: &Self,
        activated: &Self,
        resized: &Self,
        after: &Self,
        size: (u32, u32),
        models: Seq<Seq<Vertex>>,
        pointer: Option<(i32, i32)>,
    ) -> bool {
        &&& self.reconciles_to(reconciled, size, pointer)
        &&& reconciled.activates_to(activated)
        &&& activated.resizes_to(resized, size)
        &&& resized.collects_to(after, models)
    }

    /// Whether `after`, `models` and `pointer` are what a tick in a window of
    /// `size` makes of this stack: the four steps of [`Self::ticks_via`], one
    /// after the other.
    pub open spec fn ticks_to(
        &self,
        after: &Self,
        size: (u32, u32),
        models: Seq<Seq<Vertex>>,
        pointer: Option<(i32, i32)>,
    ) -> bool {
        exists|reconciled: Self, activated: Self, resized: Self| #[trigger]
            self.ticks_via(&reconciled, &activated, &resized, after, size, models, pointer)
    }

    /// The one call per frame. It reconciles the committed stack with the
    /// desired one, makes sure that the top is active, tells the screens of
    /// a new window size, ticks the screens that take part in the frame and
    /// returns their models in stack order. With no screen committed it
    /// returns no model. The window's size is the one that `renderer` holds
    /// when the tick begins.
    ///
    /// The contract names the stacks in between (`a` reconciled, `b` with an
    /// active top, `c` told of the size) and the renderer in between, and
    /// says of every call on a screen which screen it was handed and what
    /// the screen was afterwards: see [`Self::reconcile`],
    /// [`Self::activate_top`], [`Self::propagate_resize`] and
    /// [`Self::collect_models`].
    pub fn tick(&mut self, app_ctx: &Arc<AppCtx>, renderer: &mut Renderer) -> (out: TickOutput)
        requires
            old(self).wf(),
        ensures
            final(self).wf(),
            old(self).ticks_to(final(self), old(renderer).size(), views(out.models@), out.pointer),
            exists|a: Self, b: Self, c: Self, between: Seq<Renderer>|
                #![trigger
                    old(self).ticks_via(
                        &a,
                        &b,
                        &c,
                        final(self),
                        old(renderer).size(),
                        views(out.models@),
                        out.pointer,
                    ),
                    between.len(),
                ]
                {
                    &&& old(self).ticks_via(
                        &a,
                        &b,
                        &c,
                        final(self),
                        old(renderer).size(),
                        views(out.models@),
                        out.pointer,
                    )
                    &&& between.len() == 3
                    &&& old(self).model().lowest is None ==> between[0] == *old(renderer)
                    &&& old(self).model().lowest is Some ==> exists|retired: Seq<Renderer>|
                        #![trigger retired.len()]
                        {
                            &&& retired.len()
                                == old(self).retiring() + 2 * (old(self).desired().len() - old(self).offset()) + 1
                            &&& retired[0] == *old(renderer)
                            &&& retired.last() == between[0]
                            &&& forall|i: int|
                                old(self).offset() <= i < old(self).committed().len() ==>
                                    if (#[trigger] old(self).active()[i]) {
                                    exists|
                                        s1: &mut S,
                                        r1: &mut Renderer,
                                        s2: &mut S,
                                        r2: &mut Renderer,
                                    |
                                        #![trigger
                                            call_ensures(S::on_deactive, (s1, app_ctx, r1), ()),
                                            call_ensures(S::deinit, (s2, app_ctx, r2), ()),
                                        ]
                                        mut_ref_current(s1) == old(self).committed()[i]
                                            && mut_ref_current(r1)
                                                == retired[old(self).committed().len() - 1 - i]
                                            && call_ensures(S::on_deactive, (s1, app_ctx, r1), ())
                                            && mut_ref_current(s2) == mut_ref_future(s1)
                                            && mut_ref_current(r2) == mut_ref_future(r1)
                                            && call_ensures(S::deinit, (s2, app_ctx, r2), ())
                                            && mut_ref_future(r2)
                                                == retired[old(self).committed().len() - i]
                                } else {
                                    exists|s2: &mut S, r2: &mut Renderer|
                                        mut_ref_current(s2) == old(self).committed()[i]
                                            && mut_ref_current(r2)
                                                == retired[old(self).committed().len() - 1 - i]
                                            && #[trigger] call_ensures(S::deinit, (s2, app_ctx, r2), ())
                                            && mut_ref_future(r2)
                                                == retired[old(self).committed().len() - i]
                                }
                            &&& forall|j: int|
                                old(self).offset() <= j < old(self).desired().len() - 1 ==>
                                    (#[trigger] a.last_sizes()[j]) is None && exists|
                                    c0: S,
                                    s1: &mut S,
                                    r1: &mut Renderer,
                                    s2: &mut S,
                                    r2: &mut Renderer,
                                    s3: &mut S,
                                    r3: &mut Renderer,
                                |
                                    #![trigger
                                        call_ensures(S::clone_screen, (&old(self).desired()[j],), c0),
                                        call_ensures(S::init, (s1, app_ctx, r1), ()),
                                        call_ensures(S::on_active, (s2, app_ctx, r2), ()),
                                        call_ensures(S::on_deactive, (s3, app_ctx, r3), ()),
                                    ]
                                    call_ensures(S::clone_screen, (&old(self).desired()[j],), c0)
                                        && mut_ref_current(s1) == c0
                                        && mut_ref_current(r1)
                                            == retired[old(self).retiring() + 2 * (j - old(self).offset()) + 1]
                                        && call_ensures(S::init, (s1, app_ctx, r1), ())
                                        && mut_ref_current(s2) == mut_ref_future(s1)
                                        && mut_ref_current(r2) == mut_ref_future(r1)
                                        && call_ensures(S::on_active, (s2, app_ctx, r2), ())
                                        && mut_ref_future(r2)
                                            == retired[old(self).retiring() + 2 * (j - old(self).offset()) + 2]
                                        && mut_ref_current(s3) == mut_ref_future(s2)
                                        && mut_ref_current(r3)
                                            == retired[old(self).retiring() + 2 * (j - old(self).offset()) + 2]
                                        && call_ensures(S::on_deactive, (s3, app_ctx, r3), ())
                                        && mut_ref_future(s3) == a.committed()[j]
                                        && (if a.committed()[j].tick_always() {
                                            mut_ref_future(r3)
                                                == retired[old(self).retiring() + 2 * (j - old(self).offset()) + 3]
                                        } else {
                                            mut_ref_future(r3).cleared_to(&retired[old(self).retiring() + 2 * (j - old(self).offset()) + 3])
                                        })
                            &&& old(self).offset() < old(self).desired().len() ==> exists|
                                c0: S,
                                s1: &mut S,
                                r1: &mut Renderer,
                                s2: &mut S,
                                r2: &mut Renderer,
                            |
                                    #![trigger
                                        call_ensures(S::clone_screen, (&old(self).desired().last(),), c0),
                                        call_ensures(S::init, (s1, app_ctx, r1), ()),
                                        call_ensures(S::on_active, (s2, app_ctx, r2), ()),
                                    ]
                                    call_ensures(S::clone_screen, (&old(self).desired().last(),), c0)
                                        && mut_ref_current(s1) == c0
                                        && mut_ref_current(r1) == retired[retired.len() - 2]
                                        && call_ensures(S::init, (s1, app_ctx, r1), ())
                                        && mut_ref_current(s2) == mut_ref_future(s1)
                                        && mut_ref_current(r2) == mut_ref_future(r1)
                                        && call_ensures(S::on_active, (s2, app_ctx, r2), ())
                                        && mut_ref_future(s2) == a.committed().last()
                                        && mut_ref_future(r2) == retired[retired.len() - 1]
                            &&& old(self).offset() < old(self).desired().len()
                                && !old(self).covered(old(self).offset() - 1) ==>
                                    retired[old(self).retiring() + 1]
                                        == retired[old(self).retiring()]
                            &&& old(self).covered(old(self).offset() - 1) ==> exists|
                                s: &mut S,
                                r: &mut Renderer,
                            |
                                    mut_ref_current(s)
                                        == old(self).committed()[old(self).offset() - 1]
                                        && mut_ref_future(s)
                                            == a.committed()[old(self).offset() - 1]
                                        && mut_ref_current(r) == retired[old(self).retiring()]
                                        && #[trigger] call_ensures(S::on_deactive, (s, app_ctx, r), ())
                                        && (if a.committed()[old(self).offset() - 1].tick_always() {
                                            mut_ref_future(r) == retired[old(self).retiring() + 1]
                                        } else {
                                            mut_ref_future(r).cleared_to(&retired[old(self).retiring() + 1])
                                        })
                        }
                    &&& a.committed().len() == 0 || a.active().last() ==> between[1] == between[0]
                    &&& a.committed().len() > 0 && !a.active().last() ==> exists|
                        top: &mut S,
                        r: &mut Renderer,
                    |
                        mut_ref_current(top) == a.committed().last()
                            && mut_ref_future(top) == b.committed().last()
                            && mut_ref_current(r) == between[0]
                            && mut_ref_future(r) == between[1]
                            && #[trigger] call_ensures(S::on_active, (top, app_ctx, r), ())
                    &&& !b.resize_due(old(renderer).size()) ==> between[2] == between[1]
                    &&& b.resize_due(old(renderer).size()) ==> exists|handed: Seq<Renderer>|
                        #![trigger handed.len()]
                        {
                            &&& handed.len() == b.committed().len() + 1
                            &&& handed[0] == between[1]
                            &&& handed.last() == between[2]
                            &&& forall|i: int|
                                0 <= i < b.committed().len() ==> (#[trigger] c.last_sizes()[i]) == (
                                if b.resized(i) {
                                    Some(old(renderer).size())
                                } else {
                                    b.last_sizes()[i]
                                }) && (!b.resized(i) ==> handed[i + 1] == handed[i]) && (
                                b.resized(i) ==> exists|s: &mut S, r: &mut Renderer|
                                    mut_ref_current(s) == b.committed()[i]
                                        && mut_ref_future(s) == c.committed()[i]
                                        && mut_ref_current(r) == handed[i]
                                        && mut_ref_future(r) == handed[i + 1]
                                        && #[trigger] call_ensures(
                                        S::on_resize,
                                        (s, app_ctx, r),
                                        (),
                                    ))
                        }
                    &&& exists|handed: Seq<Renderer>|
                        #![trigger handed.len()]
                        {
                            &&& handed.len() == c.committed().len() + 1
                            &&& handed[0] == between[2]
                            &&& handed.last() == *final(renderer)
                            &&& forall|i: int|
                                0 <= i < c.committed().len() ==> (
                                #[trigger] final(self).last_sizes()[i]) == c.last_sizes()[i] && (
                                !c.ticked(i) ==> handed[i + 1] == handed[i]) && (c.ticked(i)
                                    ==> exists|s: &mut S, r: &mut Renderer|
                                    mut_ref_current(s) == c.committed()[i]
                                        && mut_ref_current(r) == handed[i]
                                        && #[trigger] call_ensures(S::tick, (s, app_ctx, r), ())
                                        && mut_ref_future(s).content().builds_to(
                                        &final(self).committed()[i].content(),
                                        final(self).committed()[i].content().cached(),
                                    )
                                        && exists|hooks: Seq<Renderer>|
                                            #![trigger hooks.len()]
                                            {
                                                &&& hooks.len() == final(self).committed()[i].content().slots().len() + 1
                                                &&& hooks[0] == mut_ref_future(r)
                                                &&& hooks.last() == handed[i + 1]
                                                &&& forall|slot: int|
                                                    0 <= slot < final(self).committed()[i].content().slots().len()
                                                        ==> final(self).committed()[i].content().slots()[slot].component() == (
                                                    #[trigger] mut_ref_future(s).content().slots()[slot]).component() && exists|
                                                        hook: &mut Renderer,
                                                    |
                                                        mut_ref_current(hook) == hooks[slot]
                                                            && mut_ref_future(hook) == hooks[slot + 1]
                                                            && #[trigger] call_ensures(
                                                            <S::Item as Component>::do_render,
                                                            (&mut_ref_future(s).content().slots()[slot].component(), app_ctx, hook),
                                                            (),
                                                        )
                                            })
                        }
                },
            final(self).model() == old(self).model().settle(),
            final(self).desired() == old(self).desired(),
            final(self).committed().len() == old(self).desired().len(),
            forall|i: int|
                0 <= i < final(self).committed().len() ==> (#[trigger] final(self).active()[i])
                    == (i == final(self).committed().len() - 1),
            final(self).committed().len() > 0 ==> final(self).last_sizes().last() == Some(
                old(renderer).size(),
            ),
            final(self).committed().len() == 0 ==> out.models@.len() == 0,
    {
        proof {
            old(self).lemma_shape();
        }
        let (width, height) = renderer.dimensions().get();
        let pointer = self.reconcile(app_ctx, renderer, width, height);
        let ghost reconciled = *self;
        let ghost handed_on = *renderer;
        proof {
            reconciled.lemma_shape();
            let m = old(self).model();
            if m.lowest is None {
                assert(m.settle() == m);
            }
        }
        let len: usize = self.screens.len();
        if len == 0 {
            proof {
                assert(reconciled.gathered(&reconciled, 0) =~= Seq::<Seq<Vertex>>::empty());
                assert(views(Seq::<Model>::empty()) =~= Seq::<Seq<Vertex>>::empty());
                assert(old(self).ticks_via(
                    &reconciled,
                    &reconciled,
                    &reconciled,
                    self,
                    (width, height),
                    views(Seq::<Model>::empty()),
                    pointer,
                ));
                let between = seq![handed_on, handed_on, handed_on];
                assert(between.len() == 3);
                let handed = seq![handed_on];
                assert(handed.len() == 1 && handed[0] == handed_on);
                assert({
                    &&& old(self).ticks_via(
                        &reconciled,
                        &reconciled,
                        &reconciled,
                        self,
                        old(renderer).size(),
                        views(Seq::<Model>::empty()),
                        pointer,
                    )
                    &&& between.len() == 3
                    &&& old(self).model().lowest is None ==> between[0] == *old(renderer)
                    &&& old(self).model().lowest is Some ==> exists|retired: Seq<Renderer>|
                        #![trigger retired.len()]
                        {
                            &&& retired.len()
                                == old(self).retiring() + 2 * (old(self).desired().len() - old(self).offset()) + 1
                            &&& retired[0] == *old(renderer)
                            &&& retired.last() == between[0]
                            &&& forall|i: int|
                                old(self).offset() <= i < old(self).committed().len() ==>
                                    if (#[trigger] old(self).active()[i]) {
                                    exists|
                                        s1: &mut S,
                                        r1: &mut Renderer,
                                        s2: &mut S,
                                        r2: &mut Renderer,
                                    |
                                        #![trigger
                                            call_ensures(S::on_deactive, (s1, app_ctx, r1), ()),
                                            call_ensures(S::deinit, (s2, app_ctx, r2), ()),
                                        ]
                                        mut_ref_current(s1) == old(self).committed()[i]
                                            && mut_ref_current(r1)
                                                == retired[old(self).committed().len() - 1 - i]
                                            && call_ensures(S::on_deactive, (s1, app_ctx, r1), ())
                                            && mut_ref_current(s2) == mut_ref_future(s1)
                                            && mut_ref_current(r2) == mut_ref_future(r1)
                                            && call_ensures(S::deinit, (s2, app_ctx, r2), ())
                                            && mut_ref_future(r2)
                                                == retired[old(self).committed().len() - i]
                                } else {
                                    exists|s2: &mut S, r2: &mut Renderer|
                                        mut_ref_current(s2) == old(self).committed()[i]
                                            && mut_ref_current(r2)
                                                == retired[old(self).committed().len() - 1 - i]
                                            && #[trigger] call_ensures(S::deinit, (s2, app_ctx, r2), ())
                                            && mut_ref_future(r2)
                                                == retired[old(self).committed().len() - i]
                                }
                            &&& forall|j: int|
                                old(self).offset() <= j < old(self).desired().len() - 1 ==>
                                    (#[trigger] reconciled.last_sizes()[j]) is None && exists|
                                    c0: S,
                                    s1: &mut S,
                                    r1: &mut Renderer,
                                    s2: &mut S,
                                    r2: &mut Renderer,
                                    s3: &mut S,
                                    r3: &mut Renderer,
                                |
                                    #![trigger
                                        call_ensures(S::clone_screen, (&old(self).desired()[j],), c0),
                                        call_ensures(S::init, (s1, app_ctx, r1), ()),
                                        call_ensures(S::on_active, (s2, app_ctx, r2), ()),
                                        call_ensures(S::on_deactive, (s3, app_ctx, r3), ()),
                                    ]
                                    call_ensures(S::clone_screen, (&old(self).desired()[j],), c0)
                                        && mut_ref_current(s1) == c0
                                        && mut_ref_current(r1)
                                            == retired[old(self).retiring() + 2 * (j - old(self).offset()) + 1]
                                        && call_ensures(S::init, (s1, app_ctx, r1), ())
                                        && mut_ref_current(s2) == mut_ref_future(s1)
                                        && mut_ref_current(r2) == mut_ref_future(r1)
                                        && call_ensures(S::on_active, (s2, app_ctx, r2), ())
                                        && mut_ref_future(r2)
                                            == retired[old(self).retiring() + 2 * (j - old(self).offset()) + 2]
                                        && mut_ref_current(s3) == mut_ref_future(s2)
                                        && mut_ref_current(r3)
                                            == retired[old(self).retiring() + 2 * (j - old(self).offset()) + 2]
                                        && call_ensures(S::on_deactive, (s3, app_ctx, r3), ())
                                        && mut_ref_future(s3) == reconciled.committed()[j]
                                        && (if reconciled.committed()[j].tick_always() {
                                            mut_ref_future(r3)
                                                == retired[old(self).retiring() + 2 * (j - old(self).offset()) + 3]
                                        } else {
                                            mut_ref_future(r3).cleared_to(&retired[old(self).retiring() + 2 * (j - old(self).offset()) + 3])
                                        })
                            &&& old(self).offset() < old(self).desired().len() ==> exists|
                                c0: S,
                                s1: &mut S,
                                r1: &mut Renderer,
                                s2: &mut S,
                                r2: &mut Renderer,
                            |
                                    #![trigger
                                        call_ensures(S::clone_screen, (&old(self).desired().last(),), c0),
                                        call_ensures(S::init, (s1, app_ctx, r1), ()),
                                        call_ensures(S::on_active, (s2, app_ctx, r2), ()),
                                    ]
                                    call_ensures(S::clone_screen, (&old(self).desired().last(),), c0)
                                        && mut_ref_current(s1) == c0
                                        && mut_ref_current(r1) == retired[retired.len() - 2]
                                        && call_ensures(S::init, (s1, app_ctx, r1), ())
                                        && mut_ref_current(s2) == mut_ref_future(s1)
                                        && mut_ref_current(r2) == mut_ref_future(r1)
                                        && call_ensures(S::on_active, (s2, app_ctx, r2), ())
                                        && mut_ref_future(s2) == reconciled.committed().last()
                                        && mut_ref_future(r2) == retired[retired.len() - 1]
                            &&& old(self).offset() < old(self).desired().len()
                                && !old(self).covered(old(self).offset() - 1) ==>
                                    retired[old(self).retiring() + 1]
                                        == retired[old(self).retiring()]
                            &&& old(self).covered(old(self).offset() - 1) ==> exists|
                                s: &mut S,
                                r: &mut Renderer,
                            |
                                    mut_ref_current(s)
                                        == old(self).committed()[old(self).offset() - 1]
                                        && mut_ref_future(s)
                                            == reconciled.committed()[old(self).offset() - 1]
                                        && mut_ref_current(r) == retired[old(self).retiring()]
                                        && #[trigger] call_ensures(S::on_deactive, (s, app_ctx, r), ())
                                        && (if reconciled.committed()[old(self).offset() - 1].tick_always() {
                                            mut_ref_future(r) == retired[old(self).retiring() + 1]
                                        } else {
                                            mut_ref_future(r).cleared_to(&retired[old(self).retiring() + 1])
                                        })
                        }
                    &&& reconciled.committed().len() == 0 || reconciled.active().last() ==>
                        between[1] == between[0]
                    &&& reconciled.committed().len() > 0 && !reconciled.active().last() ==> exists|
                        top: &mut S,
                        r: &mut Renderer,
                    |
                        mut_ref_current(top) == reconciled.committed().last()
                            && mut_ref_future(top) == reconciled.committed().last()
                            && mut_ref_current(r) == between[0]
                            && mut_ref_future(r) == between[1]
                            && #[trigger] call_ensures(S::on_active, (top, app_ctx, r), ())
                    &&& !reconciled.resize_due(old(renderer).size()) ==> between[2] == between[1]
                    &&& reconciled.resize_due(old(renderer).size()) ==> exists|
                        handed: Seq<Renderer>,
                    |
                        #![trigger handed.len()]
                        {
                            &&& handed.len() == reconciled.committed().len() + 1
                            &&& handed[0] == between[1]
                            &&& handed.last() == between[2]
                            &&& forall|i: int|
                                0 <= i < reconciled.committed().len() ==>
                                    (#[trigger] reconciled.last_sizes()[i]) == (
                                if reconciled.resized(i) {
                                    Some(old(renderer).size())
                                } else {
                                    reconciled.last_sizes()[i]
                                }) && (!reconciled.resized(i) ==> handed[i + 1] == handed[i]) && (
                                reconciled.resized(i) ==> exists|s: &mut S, r: &mut Renderer|
                                    mut_ref_current(s) == reconciled.committed()[i]
                                        && mut_ref_future(s) == reconciled.committed()[i]
                                        && mut_ref_current(r) == handed[i]
                                        && mut_ref_future(r) == handed[i + 1]
                                        && #[trigger] call_ensures(
                                        S::on_resize,
                                        (s, app_ctx, r),
                                        (),
                                    ))
                        }
                    &&& exists|handed: Seq<Renderer>|
                        #![trigger handed.len()]
                        {
                            &&& handed.len() == reconciled.committed().len() + 1
                            &&& handed[0] == between[2]
                            &&& handed.last() == *renderer
                            &&& forall|i: int|
                                0 <= i < reconciled.committed().len() ==> (
                                #[trigger] self.last_sizes()[i]) == reconciled.last_sizes()[i] && (
                                !reconciled.ticked(i) ==> handed[i + 1] == handed[i])
                                    && (reconciled.ticked(i)
                                    ==> exists|s: &mut S, r: &mut Renderer|
                                    mut_ref_current(s) == reconciled.committed()[i]
                                        && mut_ref_current(r) == handed[i]
                                        && #[trigger] call_ensures(S::tick, (s, app_ctx, r), ())
                                        && mut_ref_future(s).content().builds_to(
                                        &self.committed()[i].content(),
                                        self.committed()[i].content().cached(),
                                    )
                                        && exists|hooks: Seq<Renderer>|
                                            #![trigger hooks.len()]
                                            {
                                                &&& hooks.len() == self.committed()[i].content().slots().len() + 1
                                                &&& hooks[0] == mut_ref_future(r)
                                                &&& hooks.last() == handed[i + 1]
                                                &&& forall|slot: int|
                                                    0 <= slot < self.committed()[i].content().slots().len()
                                                        ==> self.committed()[i].content().slots()[slot].component() == (
                                                    #[trigger] mut_ref_future(s).content().slots()[slot]).component() && exists|
                                                        hook: &mut Renderer,
                                                    |
                                                        mut_ref_current(hook) == hooks[slot]
                                                            && mut_ref_future(hook) == hooks[slot + 1]
                                                            && #[trigger] call_ensures(
                                                            <S::Item as Component>::do_render,
                                                            (&mut_ref_future(s).content().slots()[slot].component(), app_ctx, hook),
                                                            (),
                                                        )
                                            })
                        }
                });
            }
            return TickOutput { models: Vec::new(), pointer };
        }
        self.activate_top(app_ctx, renderer);
        let ghost activated = *self;
        let ghost active_on = *renderer;
        self.propagate_resize(app_ctx, renderer, width, height);
        let ghost resized = *self;
        let ghost resized_on = *renderer;
        let models = self.collect_models(app_ctx, renderer);
        proof {
            let between = seq![handed_on, active_on, resized_on];
            assert(between.len() == 3 && between[0] == handed_on && between[1] == active_on
                && between[2] == resized_on);
            activated.lemma_shape();
            resized.lemma_shape();
            self.lemma_shape();
            assert(old(self).ticks_via(
                &reconciled,
                &activated,
                &resized,
                self,
                (width, height),
                views(models@),
                pointer,
            ));
            assert({
                    &&& old(self).ticks_via(
                        &reconciled,
                        &activated,
                        &resized,
                        self,
                        old(renderer).size(),
                        views(models@),
                        pointer,
                    )
                    &&& between.len() == 3
                    &&& old(self).model().lowest is None ==> between[0] == *old(renderer)
                    &&& old(self).model().lowest is Some ==> exists|retired: Seq<Renderer>|
                        #![trigger retired.len()]
                        {
                            &&& retired.len()
                                == old(self).retiring() + 2 * (old(self).desired().len() - old(self).offset()) + 1
                            &&& retired[0] == *old(renderer)
                            &&& retired.last() == between[0]
                            &&& forall|i: int|
                                old(self).offset() <= i < old(self).committed().len() ==>
                                    if (#[trigger] old(self).active()[i]) {
                                    exists|
                                        s1: &mut S,
                                        r1: &mut Renderer,
                                        s2: &mut S,
                                        r2: &mut Renderer,
                                    |
                                        #![trigger
                                            call_ensures(S::on_deactive, (s1, app_ctx, r1), ()),
                                            call_ensures(S::deinit, (s2, app_ctx, r2), ()),
                                        ]
                                        mut_ref_current(s1) == old(self).committed()[i]
                                            && mut_ref_current(r1)
                                                == retired[old(self).committed().len() - 1 - i]
                                            && call_ensures(S::on_deactive, (s1, app_ctx, r1), ())
                                            && mut_ref_current(s2) == mut_ref_future(s1)
                                            && mut_ref_current(r2) == mut_ref_future(r1)
                                            && call_ensures(S::deinit, (s2, app_ctx, r2), ())
                                            && mut_ref_future(r2)
                                                == retired[old(self).committed().len() - i]
                                } else {
                                    exists|s2: &mut S, r2: &mut Renderer|
                                        mut_ref_current(s2) == old(self).committed()[i]
                                            && mut_ref_current(r2)
                                                == retired[old(self).committed().len() - 1 - i]
                                            && #[trigger] call_ensures(S::deinit, (s2, app_ctx, r2), ())
                                            && mut_ref_future(r2)
                                                == retired[old(self).committed().len() - i]
                                }
                            &&& forall|j: int|
                                old(self).offset() <= j < old(self).desired().len() - 1 ==>
                                    (#[trigger] reconciled.last_sizes()[j]) is None && exists|
                                    c0: S,
                                    s1: &mut S,
                                    r1: &mut Renderer,
                                    s2: &mut S,
                                    r2: &mut Renderer,
                                    s3: &mut S,
                                    r3: &mut Renderer,
                                |
                                    #![trigger
                                        call_ensures(S::clone_screen, (&old(self).desired()[j],), c0),
                                        call_ensures(S::init, (s1, app_ctx, r1), ()),
                                        call_ensures(S::on_active, (s2, app_ctx, r2), ()),
                                        call_ensures(S::on_deactive, (s3, app_ctx, r3), ()),
                                    ]
                                    call_ensures(S::clone_screen, (&old(self).desired()[j],), c0)
                                        && mut_ref_current(s1) == c0
                                        && mut_ref_current(r1)
                                            == retired[old(self).retiring() + 2 * (j - old(self).offset()) + 1]
                                        && call_ensures(S::init, (s1, app_ctx, r1), ())
                                        && mut_ref_current(s2) == mut_ref_future(s1)
                                        && mut_ref_current(r2) == mut_ref_future(r1)
                                        && call_ensures(S::on_active, (s2, app_ctx, r2), ())
                                        && mut_ref_future(r2)
                                            == retired[old(self).retiring() + 2 * (j - old(self).offset()) + 2]
                                        && mut_ref_current(s3) == mut_ref_future(s2)
                                        && mut_ref_current(r3)
                                            == retired[old(self).retiring() + 2 * (j - old(self).offset()) + 2]
                                        && call_ensures(S::on_deactive, (s3, app_ctx, r3), ())
                                        && mut_ref_future(s3) == reconciled.committed()[j]
                                        && (if reconciled.committed()[j].tick_always() {
                                            mut_ref_future(r3)
                                                == retired[old(self).retiring() + 2 * (j - old(self).offset()) + 3]
                                        } else {
                                            mut_ref_future(r3).cleared_to(&retired[old(self).retiring() + 2 * (j - old(self).offset()) + 3])
                                        })
                            &&& old(self).offset() < old(self).desired().len() ==> exists|
                                c0: S,
                                s1: &mut S,
                                r1: &mut Renderer,
                                s2: &mut S,
                                r2: &mut Renderer,
                            |
                                    #![trigger
                                        call_ensures(S::clone_screen, (&old(self).desired().last(),), c0),
                                        call_ensures(S::init, (s1, app_ctx, r1), ()),
                                        call_ensures(S::on_active, (s2, app_ctx, r2), ()),
                                    ]
                                    call_ensures(S::clone_screen, (&old(self).desired().last(),), c0)
                                        && mut_ref_current(s1) == c0
                                        && mut_ref_current(r1) == retired[retired.len() - 2]
                                        && call_ensures(S::init, (s1, app_ctx, r1), ())
                                        && mut_ref_current(s2) == mut_ref_future(s1)
                                        && mut_ref_current(r2) == mut_ref_future(r1)
                                        && call_ensures(S::on_active, (s2, app_ctx, r2), ())
                                        && mut_ref_future(s2) == reconciled.committed().last()
                                        && mut_ref_future(r2) == retired[retired.len() - 1]
                            &&& old(self).offset() < old(self).desired().len()
                                && !old(self).covered(old(self).offset() - 1) ==>
                                    retired[old(self).retiring() + 1]
                                        == retired[old(self).retiring()]
                            &&& old(self).covered(old(self).offset() - 1) ==> exists|
                                s: &mut S,
                                r: &mut Renderer,
                            |
                                    mut_ref_current(s)
                                        == old(self).committed()[old(self).offset() - 1]
                                        && mut_ref_future(s)
                                            == reconciled.committed()[old(self).offset() - 1]
                                        && mut_ref_current(r) == retired[old(self).retiring()]
                                        && #[trigger] call_ensures(S::on_deactive, (s, app_ctx, r), ())
                                        && (if reconciled.committed()[old(self).offset() - 1].tick_always() {
                                            mut_ref_future(r) == retired[old(self).retiring() + 1]
                                        } else {
                                            mut_ref_future(r).cleared_to(&retired[old(self).retiring() + 1])
                                        })
                        }
                    &&& reconciled.committed().len() == 0 || reconciled.active().last() ==>
                        between[1] == between[0]
                    &&& reconciled.committed().len() > 0 && !reconciled.active().last() ==> exists|
                        top: &mut S,
                        r: &mut Renderer,
                    |
                        mut_ref_current(top) == reconciled.committed().last()
                            && mut_ref_future(top) == activated.committed().last()
                            && mut_ref_current(r) == between[0]
                            && mut_ref_future(r) == between[1]
                            && #[trigger] call_ensures(S::on_active, (top, app_ctx, r), ())
                    &&& !activated.resize_due(old(renderer).size()) ==> between[2] == between[1]
                    &&& activated.resize_due(old(renderer).size()) ==> exists|handed: Seq<Renderer>|
                        #![trigger handed.len()]
                        {
                            &&& handed.len() == activated.committed().len() + 1
                            &&& handed[0] == between[1]
                            &&& handed.last() == between[2]
                            &&& forall|i: int|
                                0 <= i < activated.committed().len() ==>
                                    (#[trigger] resized.last_sizes()[i]) == (
                                if activated.resized(i) {
                                    Some(old(renderer).size())
                                } else {
                                    activated.last_sizes()[i]
                                }) && (!activated.resized(i) ==> handed[i + 1] == handed[i]) && (
                                activated.resized(i) ==> exists|s: &mut S, r: &mut Renderer|
                                    mut_ref_current(s) == activated.committed()[i]
                                        && mut_ref_future(s) == resized.committed()[i]
                                        && mut_ref_current(r) == handed[i]
                                        && mut_ref_future(r) == handed[i + 1]
                                        && #[trigger] call_ensures(
                                        S::on_resize,
                                        (s, app_ctx, r),
                                        (),
                                    ))
                        }
                    &&& exists|handed: Seq<Renderer>|
                        #![trigger handed.len()]
                        {
                            &&& handed.len() == resized.committed().len() + 1
                            &&& handed[0] == between[2]
                            &&& handed.last() == *renderer
                            &&& forall|i: int|
                                0 <= i < resized.committed().len() ==> (
                                #[trigger] self.last_sizes()[i]) == resized.last_sizes()[i] && (
                                !resized.ticked(i) ==> handed[i + 1] == handed[i])
                                    && (resized.ticked(i)
                                    ==> exists|s: &mut S, r: &mut Renderer|
                                    mut_ref_current(s) == resized.committed()[i]
                                        && mut_ref_current(r) == handed[i]
                                        && #[trigger] call_ensures(S::tick, (s, app_ctx, r), ())
                                        && mut_ref_future(s).content().builds_to(
                                        &self.committed()[i].content(),
                                        self.committed()[i].content().cached(),
                                    )
                                        && exists|hooks: Seq<Renderer>|
                                            #![trigger hooks.len()]
                                            {
                                                &&& hooks.len() == self.committed()[i].content().slots().len() + 1
                                                &&& hooks[0] == mut_ref_future(r)
                                                &&& hooks.last() == handed[i + 1]
                                                &&& forall|slot: int|
                                                    0 <= slot < self.committed()[i].content().slots().len()
                                                        ==> self.committed()[i].content().slots()[slot].component() == (
                                                    #[trigger] mut_ref_future(s).content().slots()[slot]).component() && exists|
                                                        hook: &mut Renderer,
                                                    |
                                                        mut_ref_current(hook) == hooks[slot]
                                                            && mut_ref_future(hook) == hooks[slot + 1]
                                                            && #[trigger] call_ensures(
                                                            <S::Item as Component>::do_render,
                                                            (&mut_ref_future(s).content().slots()[slot].component(), app_ctx, hook),
                                                            (),
                                                        )
                                            })
                        }
                });
        }
        TickOutput { models, pointer }
    }

    /// What was gathered from the first `upto` screens does not depend on
    /// the screens above them.
    proof fn lemma_gathered_frame(&self, first: &Self, second: &Self, upto: int)
        requires
            0 <= upto <= first.committed().len(),
            first.committed().len() == second.committed().len(),
            forall|k: int|
                0 <= k < upto ==> (#[trigger] first.committed()[k]) == second.committed()[k],
        ensures
            self.gathered(first, upto) == self.gathered(second, upto),
        decreases upto,
    {
        if upto > 0 {
            self.lemma_gathered_frame(first, second, upto - 1);
            assert(first.committed()[upto - 1] == second.committed()[upto - 1]);
        }
    }

    /// After a call on the top committed screen that left the rest of
    /// `before` alone, at most the state of that screen differs.
    proof fn lemma_top_changed(&self, before: &Self)
        requires
            before.wf(),
            before.screens@.len() > 0,
            self.screens@.len() == before.screens@.len(),
            self.pre_computed_screens == before.pre_computed_screens,
            self.lowest_offset == before.lowest_offset,
            self.tickets == before.tickets,
            self.next_ticket == before.next_ticket,
            forall|i: int|
                0 <= i < before.screens@.len() - 1 ==> (#[trigger] self.screens@[i])
                    == before.screens@[i],
            self.screens@.last().active == before.screens@.last().active,
            self.screens@.last().last_size == before.screens@.last().last_size,
            self.screens@.last().ticket == before.screens@.last().ticket,
        ensures
            self.wf(),
            before.only_top_differs(self),
    {
        assert(self.model().committed =~= before.model().committed);
        assert(self.active() =~= before.active());
        assert(self.last_sizes() =~= before.last_sizes());
    }
}

/// Tells `screen`, which leaves the committed stack, that it is no longer
/// active, if it was, and deinitialises it: the screen and the renderer are
/// then what these calls, one after the other, made of them.
pub fn retire<S: Screen>(
    screen: &mut S,
    was_active: bool,
    app_ctx: &Arc<AppCtx>,
    renderer: &mut Renderer,
)
    ensures
        was_active ==> exists|s1: &mut S, r1: &mut Renderer, s2: &mut S, r2: &mut Renderer|
            #![trigger
                call_ensures(S::on_deactive, (s1, app_ctx, r1), ()),
                call_ensures(S::deinit, (s2, app_ctx, r2), ()),
            ]
            mut_ref_current(s1) == *old(screen) && mut_ref_current(r1) == *old(renderer)
                && call_ensures(S::on_deactive, (s1, app_ctx, r1), ())
                && mut_ref_current(s2) == mut_ref_future(s1)
                && mut_ref_current(r2) == mut_ref_future(r1)
                && call_ensures(S::deinit, (s2, app_ctx, r2), ())
                && mut_ref_future(s2) == *final(screen)
                && mut_ref_future(r2) == *final(renderer),
        !was_active ==> exists|s2: &mut S, r2: &mut Renderer|
            mut_ref_current(s2) == *old(screen) && mut_ref_current(r2) == *old(renderer)
                && #[trigger] call_ensures(S::deinit, (s2, app_ctx, r2), ())
                && mut_ref_future(s2) == *final(screen)
                && mut_ref_future(r2) == *final(renderer),
{
    if was_active {
        screen.on_deactive(app_ctx, renderer);
    }
    screen.deinit(app_ctx, renderer);
}

/// Initialises `screen`, which has come onto the committed stack, and tells
/// it that it is active: the screen and the renderer are then what these
/// calls, one after the other, made of them.
pub fn start<S: Screen>(screen: &mut S, app_ctx: &Arc<AppCtx>, renderer: &mut Renderer)
    ensures
        exists|s1: &mut S, r1: &mut Renderer, s2: &mut S, r2: &mut Renderer|
            #![trigger
                call_ensures(S::init, (s1, app_ctx, r1), ()),
                call_ensures(S::on_active, (s2, app_ctx, r2), ()),
            ]
            mut_ref_current(s1) == *old(screen) && mut_ref_current(r1) == *old(renderer)
                && call_ensures(S::init, (s1, app_ctx, r1), ())
                && mut_ref_current(s2) == mut_ref_future(s1)
                && mut_ref_current(r2) == mut_ref_future(r1)
                && call_ensures(S::on_active, (s2, app_ctx, r2), ())
                && mut_ref_future(s2) == *final(screen)
                && mut_ref_future(r2) == *final(renderer),
{
    screen.init(app_ctx, renderer);
    screen.on_active(app_ctx, renderer);
}

/// Tells `screen`, which a new screen covers, that it is no longer active, if
/// it was: the screen is then what its `on_deactive` made of it. Where it was
/// active and does not take part in every frame, the glyph cache that the
/// call left is emptied, so that the new screen starts with none.
pub fn cover<S: Screen>(
    screen: &mut S,
    was_active: bool,
    app_ctx: &Arc<AppCtx>,
    renderer: &mut Renderer,
)
    ensures
        !was_active ==> *final(screen) == *old(screen) && *final(renderer) == *old(renderer),
        was_active && !final(screen).tick_always() ==> final(renderer).ids() == Seq::<
            usize,
        >::empty() && final(renderer).infos() == Seq::<GlyphInfo>::empty(),
        was_active ==> exists|s: &mut S, r: &mut Renderer|
            mut_ref_current(s) == *old(screen) && mut_ref_future(s) == *final(screen)
                && mut_ref_current(r) == *old(renderer) && #[trigger] call_ensures(
                S::on_deactive,
                (s, app_ctx, r),
                (),
            ) && if final(screen).tick_always() {
                mut_ref_future(r) == *final(renderer)
            } else {
                mut_ref_future(r).cleared_to(final(renderer))
            },
{
    if was_active {
        screen.on_deactive(app_ctx, renderer);
        if !screen.is_tick_always() {
            renderer.clear_glyphs();
        }
    }
}

/// The centre of a window of the given size, in whole pixels.
pub open spec fn pointer_center(size: (u32, u32)) -> (i32, i32) {
    ((size.0 / 2) as i32, (size.1 / 2) as i32)
}

/// Computes [`pointer_center`].
pub fn center_of(width: u32, height: u32) -> (r: (i32, i32))
    ensures
        r == pointer_center((width, height)),
{
    ((width / 2) as i32, (height / 2) as i32)
}

/// Where no screen beneath the top takes part in every frame, the models of
/// a frame are exactly those of the top screen's components.
pub proof fn lemma_only_top_shows<S: Screen>(
    before: ScreenSystem<S>,
    after: ScreenSystem<S>,
    models: Seq<Seq<Vertex>>,
)
    requires
        before.collects_to(&after, models),
        before.committed().len() > 0,
        forall|i: int|
            0 <= i < before.committed().len() - 1 ==> !(
            #[trigger] before.committed()[i]).tick_always(),
    ensures
        models == after.committed().last().content().cached(),
{
    let top = before.committed().len() - 1;
    lemma_none_gathered(before, after, top);
    assert(before.ticked(top));
    assert(before.gathered(&after, top + 1) == before.gathered(&after, top)
        + after.committed()[top].content().cached());
    assert(models =~= after.committed().last().content().cached());
}

/// From screens that take no part in the frame nothing is gathered.
proof fn lemma_none_gathered<S: Screen>(before: ScreenSystem<S>, after: ScreenSystem<S>, upto: int)
    requires
        0 <= upto < before.committed().len(),
        forall|i: int|
            0 <= i < before.committed().len() - 1 ==> !(
            #[trigger] before.committed()[i]).tick_always(),
    ensures
        before.gathered(&after, upto) == Seq::<Seq<Vertex>>::empty(),
    decreases upto,
{
    if upto > 0 {
        lemma_none_gathered(before, after, upto - 1);
        assert(!before.committed()[upto - 1].tick_always());
        assert(!before.ticked(upto - 1));
    }
}

/// A container whose cache is what a build returned has nothing left to
/// build: its cached models are the ones due.
pub proof fn lemma_build_settles<C: Component>(content: Container<C>)
    requires
        forall|i: int|
            0 <= i < content.slots().len() ==> !((#[trigger] content.slots()[i]).state() is Dirty),
    ensures
        content.built() == content.cached(),
{
    assert(content.built() =~= content.cached());
}

/// Whether the key event is a release of Escape.
pub open spec fn is_escape_release(key: Key, down: bool) -> bool {
    key is Escape && !down
}

/// Whether a key event closes a screen without being handed to it: it is a
/// release of Escape and the screen is closable.
pub open spec fn closes(key: Key, down: bool, closable: bool) -> bool {
    is_escape_release(key, down) && closable
}

/// Computes [`is_escape_release`].
pub fn escape_released(key: Key, down: bool) -> (r: bool)
    ensures
        r == is_escape_release(key, down),
{
    match key {
        Key::Escape => !down,
        Key::Other(_) => false,
    }
}

impl<S: Screen> Default for ScreenSystem<S> {
    fn default() -> (r: Self)
        ensures
            r.wf(),
            r.model() == StackModel::empty(),
            r.desired() == Seq::<S>::empty(),
            r.committed() == Seq::<S>::empty(),
    {
        ScreenSystem::new()
    }
}

/// One more pop after `count` pops is `count + 1` pops.
pub proof fn lemma_pop_times_step(model: StackModel, count: nat)
    ensures
        model.pop_times(count + 1) == model.pop_times(count).pop(),
    decreases count,
{
    assert(model.pop_times(count + 1) == model.pop().pop_times(count));
    if count > 0 {
        lemma_pop_times_step(model.pop(), (count - 1) as nat);
        assert(model.pop_times(count) == model.pop().pop_times((count - 1) as nat));
    } else {
        assert(model.pop().pop_times(0) == model.pop());
    }
}

} // verus!
