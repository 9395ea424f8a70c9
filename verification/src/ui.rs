//! Components and the container that caches their geometry.

use crate::fixed::Fixed;
use crate::render::{GlyphId, Model, Renderer, Vertex};
use std::sync::Arc;
use vstd::prelude::*;

verus! {

/// What the application hands to every callback.
pub type AppCtx = ();

/// Whether the pointer came onto a component or left it.
#[derive(Copy, Clone, Debug, PartialEq, Eq, Structural)]
pub enum HoverMode {
    Enter,
    Exit,
}

/// One thing on a screen: it has a place, a geometry and reactions to input.
///
/// The three spec functions name what the getters return, so that contracts
/// can speak of a component's place and geometry. An implementation says what
/// they are; nothing is assumed of how the reactions change a component or
/// the renderer that they are handed.
pub trait Component: Send + Sync {
    /// The geometry that [`Self::build_model`] returns.
    open spec fn model(&self) -> Seq<Vertex> {
        Seq::empty()
    }

    /// The corner that [`Self::pos`] returns.
    open spec fn position(&self) -> (Fixed, Fixed) {
        (Fixed { raw: 0 }, Fixed { raw: 0 })
    }

    /// The extent that [`Self::dims`] returns.
    open spec fn extent(&self) -> (Fixed, Fixed) {
        (Fixed { raw: 0 }, Fixed { raw: 0 })
    }

    /// The component's geometry as it is now.
    fn build_model(&self) -> (m: Model)
        ensures
            m@ == self.model(),
    ;

    /// Called after the component's model went into a frame.
    fn do_render(&self, _client: &Arc<AppCtx>, _renderer: &mut Renderer) {
    }

    /// The corner with the smallest coordinates, as fractions of the viewport.
    fn pos(&self) -> (p: (Fixed, Fixed))
        ensures
            p == self.position(),
    ;

    /// Width and height, as fractions of the viewport.
    fn dims(&self) -> (d: (Fixed, Fixed))
        ensures
            d == self.extent(),
    ;

    fn on_click(&mut self, client: &Arc<AppCtx>, renderer: &mut Renderer);

    fn on_scroll(&mut self, client: &Arc<AppCtx>, renderer: &mut Renderer);

    fn on_hover(&mut self, client: &Arc<AppCtx>, renderer: &mut Renderer, mode: HoverMode);
}

/// Whether `point` lies in the axis-aligned box that starts at `corner` and
/// spans `extent`, edges included.
pub open spec fn in_bounds(
    corner: (Fixed, Fixed),
    extent: (Fixed, Fixed),
    point: (Fixed, Fixed),
) -> bool {
    &&& point.0@ >= corner.0@
    &&& point.1@ >= corner.1@
    &&& point.0@ <= corner.0.spec_plus(extent.0)@
    &&& point.1@ <= corner.1.spec_plus(extent.1)@
}

/// Where a cached value stands: usable, stale, or being recomputed.
#[derive(Copy, Clone, Debug, PartialEq, Eq, Structural)]
pub enum DirtyState {
    /// The cached value is up to date.
    Clean,
    /// The cached value is stale.
    Dirty,
    /// A rebuild was claimed and has not ended.
    Rebuilding,
}

impl DirtyState {
    /// The state after a change to the component: stale, whatever it was.
    pub open spec fn spec_mark(self) -> DirtyState {
        DirtyState::Dirty
    }

    /// The state after an attempt to claim a rebuild: only a stale value is
    /// claimed.
    pub open spec fn spec_claim(self) -> DirtyState {
        match self {
            DirtyState::Dirty => DirtyState::Rebuilding,
            other => other,
        }
    }

    /// The state after a claimed rebuild has ended: up to date, unless a
    /// change came in meanwhile.
    pub open spec fn spec_settle(self) -> DirtyState {
        match self {
            DirtyState::Rebuilding => DirtyState::Clean,
            other => other,
        }
    }

    /// The state after a build: a stale value was claimed, rebuilt and
    /// settled; any other is left as it is.
    pub open spec fn spec_rebuilt(self) -> DirtyState {
        if self is Dirty {
            self.spec_claim().spec_settle()
        } else {
            self
        }
    }

    /// Records a change.
    pub fn mark(&mut self)
        ensures
            *final(self) == old(self).spec_mark(),
    {
        *self = DirtyState::Dirty;
    }

    /// Claims the rebuild of a stale value; says whether the caller has to
    /// rebuild.
    pub fn claim(&mut self) -> (claimed: bool)
        ensures
            *final(self) == old(self).spec_claim(),
            claimed == (*old(self) is Dirty),
    {
        match *self {
            DirtyState::Dirty => {
                *self = DirtyState::Rebuilding;
                true
            },
            _ => false,
        }
    }

    /// Ends a claimed rebuild.
    pub fn settle(&mut self)
        ensures
            *final(self) == old(self).spec_settle(),
    {
        match *self {
            DirtyState::Rebuilding => {
                *self = DirtyState::Clean;
            },
            _ => {},
        }
    }
}

/// A change that comes in while a rebuild is under way is not lost: after the
/// rebuild ends the value is still stale, and the next claim succeeds.
pub proof fn lemma_mark_during_rebuild_is_kept(state: DirtyState)
    requires
        state is Dirty,
    ensures
        state.spec_claim().spec_mark().spec_settle() is Dirty,
        state.spec_claim().spec_settle() is Clean,
{
}

/// A component with its cached model.
pub struct InnerUIComponent<C: Component> {
    inner: C,
    precomputed_model: Model,
    dirty: DirtyState,
}

impl<C: Component> InnerUIComponent<C> {
    /// The component itself.
    pub closed spec fn component(&self) -> C {
        self.inner
    }

    /// The cached model.
    pub closed spec fn cached(&self) -> Seq<Vertex> {
        self.precomputed_model@
    }

    /// Where the cached model stands.
    pub closed spec fn state(&self) -> DirtyState {
        self.dirty
    }

    /// The model that the next build returns: the cached one, or a new one
    /// where the cached one is stale.
    pub open spec fn built(&self) -> Seq<Vertex> {
        if self.state() is Dirty {
            self.component().model()
        } else {
            self.cached()
        }
    }

    /// The cache can be trusted: no rebuild is under way, and a cached model
    /// that is not stale is the component's model.
    pub open spec fn valid(&self) -> bool {
        &&& !(self.state() is Rebuilding)
        &&& self.state() is Clean ==> self.cached() == self.component().model()
    }

    fn new(component: C) -> (r: Self)
        ensures
            r.component() == component,
            r.cached() == component.model(),
            r.state() is Clean,
    {
        let model = component.build_model();
        InnerUIComponent { inner: component, precomputed_model: model, dirty: DirtyState::Clean }
    }

    fn build_model(&mut self) -> (m: Model)
        ensures
            m@ == old(self).built(),
            final(self).cached() == old(self).built(),
            final(self).state() == old(self).state().spec_rebuilt(),
            final(self).component() == old(self).component(),
    {
        if self.dirty.claim() {
            let model = self.inner.build_model();
            self.precomputed_model = model.clone();
            self.dirty.settle();
            model
        } else {
            self.precomputed_model.clone()
        }
    }

    /// Marks the cached model as stale.
    pub fn make_dirty(&mut self)
        ensures
            final(self).state() is Dirty,
            final(self).cached() == old(self).cached(),
            final(self).component() == old(self).component(),
    {
        self.dirty.mark();
    }
}

/// A component as a container holds it.
pub struct UIComponent<C: Component> {
    inner: InnerUIComponent<C>,
}

impl<C: Component> View for UIComponent<C> {
    type V = InnerUIComponent<C>;

    closed spec fn view(&self) -> InnerUIComponent<C> {
        self.inner
    }
}

impl<C: Component> UIComponent<C> {
    /// The component's model: the cached one while it is up to date, else a
    /// new one, which is then cached.
    pub fn build_model(&mut self) -> (m: Model)
        ensures
            m@ == old(self)@.built(),
            final(self)@.cached() == old(self)@.built(),
            final(self)@.state() == old(self)@.state().spec_rebuilt(),
            final(self)@.component() == old(self)@.component(),
    {
        self.inner.build_model()
    }

    /// Hands a click to the component and marks its cached model as stale:
    /// the component and the renderer are then what the component's
    /// `on_click` made of them.
    pub fn on_mouse_click(&mut self, client: &Arc<AppCtx>, renderer: &mut Renderer)
        ensures
            final(self)@.state() is Dirty,
            final(self)@.cached() == old(self)@.cached(),
            exists|c: &mut C, r: &mut Renderer|
                mut_ref_current(c) == old(self)@.component()
                    && mut_ref_future(c) == final(self)@.component()
                    && mut_ref_current(r) == *old(renderer)
                    && mut_ref_future(r) == *final(renderer)
                    && #[trigger] call_ensures(C::on_click, (c, client, r), ()),
    {
        self.inner.inner.on_click(client, renderer);
        self.inner.make_dirty();
    }

    /// Whether `pos` lies on the component, edges included.
    pub fn is_inbounds(&self, pos: (Fixed, Fixed)) -> (r: bool)
        ensures
            r == in_bounds(self@.component().position(), self@.component().extent(), pos),
    {
        let dims = self.inner.inner.dims();
        let inner_pos = self.inner.inner.pos();
        let bounds = (inner_pos.0.plus(dims.0), inner_pos.1.plus(dims.1));
        (pos.0.ge(inner_pos.0) && pos.1.ge(inner_pos.1)) && (pos.0.le(bounds.0) && pos.1.le(
            bounds.1,
        ))
    }
}

/// An RGBA colour, each channel a fraction between zero and one.
#[derive(Copy, Clone, Debug, PartialEq, Eq, Structural)]
pub struct Color {
    pub r: Fixed,
    pub g: Fixed,
    pub b: Fixed,
    pub a: Fixed,
}

impl Color {
    /// The channels in the order red, green, blue, alpha.
    pub open spec fn channels(self) -> [Fixed; 4] {
        [self.r, self.g, self.b, self.a]
    }

    /// The channels in the order red, green, blue, alpha.
    pub fn into_array(self) -> (r: [Fixed; 4])
        ensures
            r == self.channels(),
    {
        [self.r, self.g, self.b, self.a]
    }
}

/// How far a container's content can be scrolled, and how far it is.
pub struct ScrollData {
    min_y: Fixed,
    max_y: Fixed,
    min_x: Fixed,
    max_x: Fixed,
    offset_x: Fixed,
    offset_y: Fixed,
}

impl ScrollData {
    /// The least offset, as `(x, y)`.
    pub closed spec fn min(&self) -> (Fixed, Fixed) {
        (self.min_x, self.min_y)
    }

    /// The greatest offset, as `(x, y)`.
    pub closed spec fn max(&self) -> (Fixed, Fixed) {
        (self.max_x, self.max_y)
    }

    /// The offset, as `(x, y)`.
    pub closed spec fn offset(&self) -> (Fixed, Fixed) {
        (self.offset_x, self.offset_y)
    }
}

impl Default for ScrollData {
    /// Nothing to scroll, and nothing scrolled.
    fn default() -> (r: Self)
        ensures
            r.min() == (Fixed { raw: 0 }, Fixed { raw: 0 }),
            r.max() == (Fixed { raw: 0 }, Fixed { raw: 0 }),
            r.offset() == (Fixed { raw: 0 }, Fixed { raw: 0 }),
    {
        ScrollData {
            min_y: Fixed::zero(),
            max_y: Fixed::zero(),
            min_x: Fixed::zero(),
            max_x: Fixed::zero(),
            offset_x: Fixed::zero(),
            offset_y: Fixed::zero(),
        }
    }
}

/// The models of `models`, each as its sequence of vertices.
pub open spec fn views(models: Seq<Model>) -> Seq<Seq<Vertex>> {
    models.map_values(|m: Model| m@)
}

/// The components of one screen, in the order in which they were added. That
/// order is the order of their models in a frame and the order in which a
/// click looks for its target.
pub struct Container<C: Component> {
    components: Vec<UIComponent<C>>,
    scroll_data: ScrollData,
}

impl<C: Component> Container<C> {
    /// The components with their caches, in insertion order.
    pub closed spec fn slots(&self) -> Seq<InnerUIComponent<C>> {
        self.components@.map_values(|u: UIComponent<C>| u@)
    }

    /// The models that the next build returns, one per component.
    pub open spec fn built(&self) -> Seq<Seq<Vertex>> {
        Seq::new(self.slots().len(), |i: int| self.slots()[i].built())
    }

    /// The cached models, one per component.
    pub open spec fn cached(&self) -> Seq<Seq<Vertex>> {
        Seq::new(self.slots().len(), |i: int| self.slots()[i].cached())
    }

    /// Whether `pos` lies on the component at `index`.
    pub open spec fn hits(&self, index: int, pos: (Fixed, Fixed)) -> bool {
        in_bounds(
            self.slots()[index].component().position(),
            self.slots()[index].component().extent(),
            pos,
        )
    }

    /// The first component at or after `start` that `pos` lies on.
    pub open spec fn first_hit_from(&self, pos: (Fixed, Fixed), start: int) -> Option<int>
        decreases self.slots().len() - start,
    {
        if start < 0 || start >= self.slots().len() {
            None
        } else if self.hits(start, pos) {
            Some(start)
        } else {
            self.first_hit_from(pos, start + 1)
        }
    }

    /// The component that a click at `pos` goes to: the first one in
    /// insertion order that `pos` lies on, if there is one.
    pub open spec fn first_hit(&self, pos: (Fixed, Fixed)) -> Option<int> {
        self.first_hit_from(pos, 0)
    }

    /// Every component's cache can be trusted.
    pub open spec fn valid(&self) -> bool {
        forall|i: int| 0 <= i < self.slots().len() ==> (#[trigger] self.slots()[i]).valid()
    }

    /// Whether `after` and `models` are what a build makes of this
    /// container: the models are those that were due, they are now the
    /// cache, no component has changed, and what was stale is up to date.
    pub open spec fn builds_to(&self, after: &Self, models: Seq<Seq<Vertex>>) -> bool {
        &&& models == self.built()
        &&& after.cached() == self.built()
        &&& after.slots().len() == self.slots().len()
        &&& forall|i: int|
            0 <= i < self.slots().len() ==> {
                &&& (#[trigger] after.slots()[i]).component() == self.slots()[i].component()
                &&& after.slots()[i].state() == self.slots()[i].state().spec_rebuilt()
            }
    }

    /// Whether `after` is what a click at `pos` makes of this container:
    /// the first component under `pos` has had the click and its cached
    /// model is stale, and nothing else has changed.
    pub open spec fn clicks_to(&self, after: &Self, pos: (Fixed, Fixed)) -> bool {
        &&& after.slots().len() == self.slots().len()
        &&& self.first_hit(pos) is None ==> after.slots() == self.slots()
        &&& forall|i: int|
            0 <= i < self.slots().len() && self.first_hit(pos) != Some(i) ==> (
            #[trigger] after.slots()[i]) == self.slots()[i]
        &&& self.first_hit(pos) matches Some(h) ==> {
            &&& 0 <= h < self.slots().len()
            &&& self.hits(h, pos)
            &&& after.slots()[h].state() is Dirty
            &&& after.slots()[h].cached() == self.slots()[h].cached()
        }
    }

    /// A container without components.
    pub fn new() -> (r: Self)
        ensures
            r.slots() == Seq::<InnerUIComponent<C>>::empty(),
            r.valid(),
    {
        let r = Container { components: Vec::new(), scroll_data: ScrollData::default() };
        assert(r.slots() =~= Seq::<InnerUIComponent<C>>::empty());
        r
    }

    /// Appends `component`. Its model is built at once and cached.
    pub fn add(&mut self, component: C)
        ensures
            final(self).slots().len() == old(self).slots().len() + 1,
            final(self).slots().drop_last() == old(self).slots(),
            final(self).slots().last().component() == component,
            final(self).slots().last().cached() == component.model(),
            final(self).slots().last().state() is Clean,
            old(self).valid() ==> final(self).valid(),
    {
        let inner = InnerUIComponent::new(component);
        self.components.push(UIComponent { inner });
        assert(self.slots().drop_last() =~= old(self).slots());
        assert forall|i: int| 0 <= i < self.slots().len() && old(self).valid() implies (
        #[trigger] self.slots()[i]).valid() by {
            if i < old(self).slots().len() {
                assert(self.slots()[i] == self.slots().drop_last()[i]);
            }
        }
    }

    /// Removes all components.
    pub fn clear(&mut self)
        ensures
            final(self).slots() == Seq::<InnerUIComponent<C>>::empty(),
            final(self).valid(),
    {
        self.components.clear();
        assert(self.slots() =~= Seq::<InnerUIComponent<C>>::empty());
    }

    /// The model of every component, in insertion order: the cached model
    /// where it is up to date, else a new one, which is cached. Afterwards
    /// no cached model is stale. After a component's model is taken, its
    /// render hook runs: the renderer goes through the hooks from hand to
    /// hand, in insertion order.
    pub fn build_models(&mut self, ctx: &Arc<AppCtx>, renderer: &mut Renderer) -> (models: Vec<
        Model,
    >)
        ensures
            old(self).builds_to(final(self), views(models@)),
            old(self).valid() ==> final(self).valid(),
            exists|handed: Seq<Renderer>|
                #![trigger handed.len()]
                {
                    &&& handed.len() == old(self).slots().len() + 1
                    &&& handed[0] == *old(renderer)
                    &&& handed.last() == *final(renderer)
                    &&& forall|k: int|
                        0 <= k < old(self).slots().len() ==> final(self).slots()[k].component() == (
                        #[trigger] old(self).slots()[k]).component() && exists|r: &mut Renderer|
                            mut_ref_current(r) == handed[k] && mut_ref_future(r) == handed[k + 1]
                                && #[trigger] call_ensures(
                                C::do_render,
                                (&old(self).slots()[k].component(), ctx, r),
                                (),
                            )
                },
    {
        let mut models: Vec<Model> = Vec::new();
        let mut i: usize = 0;
        let ghost mut chain: Seq<Renderer> = seq![*renderer];
        while i < self.components.len()
            invariant
                i <= self.components.len(),
                chain.len() == i + 1,
                chain[0] == *old(renderer),
                chain.last() == *renderer,
                forall|k: int|
                    0 <= k < i ==> self.slots()[k].component() == (
                    #[trigger] old(self).slots()[k]).component() && exists|r: &mut Renderer|
                        mut_ref_current(r) == chain[k] && mut_ref_future(r) == chain[k + 1]
                            && #[trigger] call_ensures(
                            C::do_render,
                            (&old(self).slots()[k].component(), ctx, r),
                            (),
                        ),
                self.slots().len() == old(self).slots().len(),
                models@.len() == i,
                forall|k: int|
                    0 <= k < i ==> (#[trigger] models@[k])@ == old(self).slots()[k].built(),
                forall|k: int|
                    0 <= k < i ==> {
                        &&& (#[trigger] self.slots()[k]).cached() == old(self).slots()[k].built()
                        &&& self.slots()[k].component() == old(self).slots()[k].component()
                        &&& self.slots()[k].state() == old(self).slots()[k].state().spec_rebuilt()
                    },
                forall|k: int|
                    i <= k < self.slots().len() ==> (#[trigger] self.slots()[k]) == old(
                        self,
                    ).slots()[k],
            decreases self.components.len() - i,
        {
            let ghost before = self.slots();
            assert(before[i as int] == old(self).slots()[i as int]);
            assert(before[i as int] == self.components@[i as int]@);
            let model = self.components[i].build_model();
            models.push(model);
            let ghost hook_before = *renderer;
            let ghost component = self.components@[i as int]@.component();
            assert(component == old(self).slots()[i as int].component());
            self.components[i].inner.inner.do_render(ctx, renderer);
            proof {
                assert(exists|r: &mut Renderer|
                    mut_ref_current(r) == hook_before && mut_ref_future(r) == *renderer
                        && #[trigger] call_ensures(C::do_render, (&component, ctx, r), ()));
                let ghost earlier = chain;
                chain = chain.push(*renderer);
                assert(self.slots()[i as int] == self.components@[i as int]@);
                assert forall|k: int| 0 <= k < self.slots().len() && k != i implies (
                #[trigger] self.slots()[k]) == before[k] by {}
                assert forall|k: int| 0 <= k < i + 1 implies self.slots()[k].component() == (
                #[trigger] old(self).slots()[k]).component() && exists|r: &mut Renderer|
                    mut_ref_current(r) == chain[k] && mut_ref_future(r) == chain[k + 1]
                        && #[trigger] call_ensures(
                        C::do_render,
                        (&old(self).slots()[k].component(), ctx, r),
                        (),
                    ) by {
                    if k < i {
                        assert(earlier[k] == chain[k]);
                        assert(earlier[k + 1] == chain[k + 1]);
                    } else {
                        assert(chain[k] == hook_before);
                        assert(chain[k + 1] == *renderer);
                    }
                }
                assert(self.slots()[i as int] == self.components@[i as int]@);
                assert forall|k: int| 0 <= k < self.slots().len() && k != i implies (
                #[trigger] self.slots()[k]) == before[k] by {}
            }
            i += 1;
        }
        assert(views(models@) =~= old(self).built());
        assert(self.cached() =~= old(self).built());
        assert(chain.len() == old(self).slots().len() + 1 && chain[0] == *old(renderer)
            && chain.last() == *renderer);
        models
    }

    /// Hands a click at `pos` to the first component that `pos` lies on and
    /// marks that component's cached model as stale. No other component is
    /// touched, and without a target nothing changes.
    pub fn on_mouse_click(
        &mut self,
        ctx: &Arc<AppCtx>,
        renderer: &mut Renderer,
        pos: (Fixed, Fixed),
    )
        ensures
            old(self).clicks_to(final(self), pos),
            old(self).valid() ==> final(self).valid(),
            old(self).first_hit(pos) is None ==> *final(renderer) == *old(renderer),
            old(self).first_hit(pos) matches Some(h) ==> exists|c: &mut C, r: &mut Renderer|
                mut_ref_current(c) == old(self).slots()[h].component()
                    && mut_ref_future(c) == final(self).slots()[h].component()
                    && mut_ref_current(r) == *old(renderer)
                    && mut_ref_future(r) == *final(renderer)
                    && #[trigger] call_ensures(C::on_click, (c, ctx, r), ()),
    {
        let mut i: usize = 0;
        while i < self.components.len()
            invariant
                i <= self.components.len(),
                *self == *old(self),
                *renderer == *old(renderer),
                self.first_hit(pos) == self.first_hit_from(pos, i as int),
            decreases self.components.len() - i,
        {
            if self.components[i].is_inbounds(pos) {
                let ghost before = self.slots();
                assert(self.first_hit(pos) == Some(i as int));
                self.components[i].on_mouse_click(ctx, renderer);
                proof {
                    assert forall|k: int| 0 <= k < self.slots().len() && k != i implies (
                    #[trigger] self.slots()[k]) == before[k] by {}
                }
                return ;
            }
            i += 1;
        }
        assert(self.slots() =~= old(self).slots());
    }
}

impl<C: Component> Default for Container<C> {
    fn default() -> (r: Self)
        ensures
            r.slots() == Seq::<InnerUIComponent<C>>::empty(),
    {
        Container::new()
    }
}

/// A click goes to the first component under the pointer: where the pointer
/// lies on two components, the one that was added later is not the target.
pub proof fn lemma_first_match_wins<C: Component>(
    container: Container<C>,
    pos: (Fixed, Fixed),
    earlier: int,
    later: int,
)
    requires
        0 <= earlier < later < container.slots().len(),
        container.hits(earlier, pos),
        container.hits(later, pos),
    ensures
        container.first_hit(pos) is Some,
        container.first_hit(pos)->0 <= earlier,
        container.first_hit(pos) != Some(later),
{
    lemma_first_hit_bound(container, pos, 0, earlier);
}

/// A scan that starts at or before a component under the pointer ends at or
/// before that component, on a component under the pointer.
pub proof fn lemma_first_hit_bound<C: Component>(
    container: Container<C>,
    pos: (Fixed, Fixed),
    start: int,
    target: int,
)
    requires
        0 <= start <= target < container.slots().len(),
        container.hits(target, pos),
    ensures
        container.first_hit_from(pos, start) matches Some(h) && start <= h <= target
            && container.hits(h, pos),
    decreases target - start,
{
    if !container.hits(start, pos) {
        lemma_first_hit_bound(container, pos, start + 1, target);
    }
}

/// The two triangles of the axis-aligned box that starts at `pos` and spans
/// `width` by `height`, in device space, with one colour per corner: the
/// lower right triangle first, then the upper left one, both starting at the
/// box's first corner.
pub open spec fn quad_model(
    pos: (Fixed, Fixed),
    width: Fixed,
    height: Fixed,
    coloring: [Color; 6],
) -> Seq<Vertex> {
    let zero = Fixed { raw: 0 };
    let x0 = pos.0.spec_to_device(zero);
    let x1 = pos.0.spec_to_device(width);
    let y0 = pos.1.spec_to_device(zero);
    let y1 = pos.1.spec_to_device(height);
    seq![
        Vertex::GenericColor { pos: [x0, y0], color: coloring[0].channels() },
        Vertex::GenericColor { pos: [x1, y0], color: coloring[1].channels() },
        Vertex::GenericColor { pos: [x1, y1], color: coloring[2].channels() },
        Vertex::GenericColor { pos: [x0, y0], color: coloring[3].channels() },
        Vertex::GenericColor { pos: [x0, y1], color: coloring[4].channels() },
        Vertex::GenericColor { pos: [x1, y1], color: coloring[5].channels() },
    ]
}

/// Builds [`quad_model`].
fn build_quad(pos: (Fixed, Fixed), width: Fixed, height: Fixed, coloring: &[Color; 6]) -> (m:
    Model)
    ensures
        m@ == quad_model(pos, width, height, *coloring),
{
    let x0 = pos.0.to_device(Fixed::zero());
    let x1 = pos.0.to_device(width);
    let y0 = pos.1.to_device(Fixed::zero());
    let y1 = pos.1.to_device(height);
    let mut ret: Vec<Vertex> = Vec::with_capacity(6);
    ret.push(Vertex::GenericColor { pos: [x0, y0], color: coloring[0].into_array() });
    ret.push(Vertex::GenericColor { pos: [x1, y0], color: coloring[1].into_array() });
    ret.push(Vertex::GenericColor { pos: [x1, y1], color: coloring[2].into_array() });
    ret.push(Vertex::GenericColor { pos: [x0, y0], color: coloring[3].into_array() });
    ret.push(Vertex::GenericColor { pos: [x0, y1], color: coloring[4].into_array() });
    ret.push(Vertex::GenericColor { pos: [x1, y1], color: coloring[5].into_array() });
    assert(ret@ =~= quad_model(pos, width, height, *coloring));
    Model { vertices: ret }
}

/// A box filled with colour.
pub struct ColorBox {
    pub pos: (Fixed, Fixed),
    pub width: Fixed,
    pub height: Fixed,
    pub coloring: [Color; 6],
}

impl Component for ColorBox {
    open spec fn model(&self) -> Seq<Vertex> {
        quad_model(self.pos, self.width, self.height, self.coloring)
    }

    open spec fn position(&self) -> (Fixed, Fixed) {
        self.pos
    }

    open spec fn extent(&self) -> (Fixed, Fixed) {
        (self.width, self.height)
    }

    fn build_model(&self) -> (m: Model) {
        build_quad(self.pos, self.width, self.height, &self.coloring)
    }

    fn pos(&self) -> (p: (Fixed, Fixed)) {
        self.pos
    }

    fn dims(&self) -> (d: (Fixed, Fixed)) {
        (self.width, self.height)
    }

    fn on_click(&mut self, _client: &Arc<AppCtx>, _renderer: &mut Renderer)
        ensures
            *final(self) == *old(self),
            *final(_renderer) == *old(_renderer),
    {
    }

    fn on_scroll(&mut self, _client: &Arc<AppCtx>, _renderer: &mut Renderer)
        ensures
            *final(self) == *old(self),
            *final(_renderer) == *old(_renderer),
    {
    }

    fn on_hover(&mut self, _client: &Arc<AppCtx>, _renderer: &mut Renderer, _mode: HoverMode)
        ensures
            *final(self) == *old(self),
            *final(_renderer) == *old(_renderer),
    {
    }
}

/// A box filled with colour that owns pieces of text in a renderer's cache.
pub struct TextBox {
    pub pos: (Fixed, Fixed),
    pub width: Fixed,
    pub height: Fixed,
    pub coloring: [Color; 6],
    pub texts: Vec<GlyphId>,
}

impl Component for TextBox {
    open spec fn model(&self) -> Seq<Vertex> {
        quad_model(self.pos, self.width, self.height, self.coloring)
    }

    open spec fn position(&self) -> (Fixed, Fixed) {
        self.pos
    }

    open spec fn extent(&self) -> (Fixed, Fixed) {
        (self.width, self.height)
    }

    fn build_model(&self) -> (m: Model) {
        build_quad(self.pos, self.width, self.height, &self.coloring)
    }

    fn do_render(&self, _client: &Arc<AppCtx>, _renderer: &mut Renderer)
        ensures
            *final(_renderer) == *old(_renderer),
    {
    }

    fn pos(&self) -> (p: (Fixed, Fixed)) {
        self.pos
    }

    fn dims(&self) -> (d: (Fixed, Fixed)) {
        (self.width, self.height)
    }

    fn on_click(&mut self, _client: &Arc<AppCtx>, _renderer: &mut Renderer)
        ensures
            *final(self) == *old(self),
            *final(_renderer) == *old(_renderer),
    {
    }

    fn on_scroll(&mut self, _client: &Arc<AppCtx>, _renderer: &mut Renderer)
        ensures
            *final(self) == *old(self),
            *final(_renderer) == *old(_renderer),
    {
    }

    fn on_hover(&mut self, _client: &Arc<AppCtx>, _renderer: &mut Renderer, _mode: HoverMode)
        ensures
            *final(self) == *old(self),
            *final(_renderer) == *old(_renderer),
    {
    }
}

impl TextBox {
    /// Gives up the box's pieces of text: each one is removed from
    /// `renderer`'s cache, and the box owns none afterwards. To be called
    /// before the box is dropped.
    pub fn release_glyphs(&mut self, renderer: &mut Renderer)
        ensures
            final(self).texts@.len() == 0,
            final(self).pos == old(self).pos,
            final(self).width == old(self).width,
            final(self).height == old(self).height,
            final(self).coloring == old(self).coloring,
            forall|k: int|
                0 <= k < old(self).texts@.len() ==> !final(renderer).ids().contains(
                    (#[trigger] old(self).texts@[k])@,
                ),
            forall|id: usize|
                final(renderer).ids().contains(id) ==> old(renderer).ids().contains(id),
            forall|id: usize|
                old(renderer).ids().contains(id) && !(exists|k: int|
                    0 <= k < old(self).texts@.len() && (#[trigger] old(self).texts@[k])@ == id)
                    ==> final(renderer).ids().contains(id),
            final(renderer).issued() == old(renderer).issued(),
            final(renderer).size() == old(renderer).size(),
    {
        let ghost all = self.texts@;
        while self.texts.len() > 0
            invariant
                self.texts@.len() <= all.len(),
                self.texts@ == all.take(self.texts@.len() as int),
                all == old(self).texts@,
                self.pos == old(self).pos,
                self.width == old(self).width,
                self.height == old(self).height,
                self.coloring == old(self).coloring,
                renderer.issued() == old(renderer).issued(),
                renderer.size() == old(renderer).size(),
                forall|k: int|
                    self.texts@.len() <= k < all.len() ==> !renderer.ids().contains(
                        (#[trigger] all[k])@,
                    ),
                forall|id: usize| renderer.ids().contains(id) ==> old(renderer).ids().contains(id),
                forall|id: usize|
                    old(renderer).ids().contains(id) && !(exists|k: int|
                        0 <= k < all.len() && (#[trigger] all[k])@ == id)
                        ==> renderer.ids().contains(id),
            decreases self.texts@.len(),
        {
            let ghost before = renderer.ids();
            proof {
                use_type_invariant(&*renderer);
                renderer.lemma_ids();
            }
            let glyph = self.texts.pop().unwrap();
            let ghost gone = glyph@;
            let ghost at = self.texts@.len() as int;
            assert(all[at] == glyph);
            renderer.remove_glyph(glyph);
            proof {
                lemma_remove_keeps_others(before, gone);
                assert forall|id: usize| renderer.ids().contains(id) implies before.contains(
                    id,
                ) by {}
                assert forall|k: int|
                    self.texts@.len() <= k < all.len() implies !renderer.ids().contains(
                    (#[trigger] all[k])@,
                ) by {
                    if k != at {
                        assert(!before.contains(all[k]@));
                    }
                }
            }
        }
    }
}

/// Taking `gone` out of ascending `ids` leaves every other id in, adds none,
/// and leaves `gone` out.
proof fn lemma_remove_keeps_others(ids: Seq<usize>, gone: usize)
    requires
        forall|i: int, j: int| 0 <= i < j < ids.len() ==> (#[trigger] ids[i]) < (#[trigger] ids[j]),
    ensures
        ids.contains(gone) ==> {
            let rest = ids.remove(ids.index_of(gone));
            &&& forall|id: usize| rest.contains(id) ==> ids.contains(id)
            &&& forall|id: usize| ids.contains(id) && id != gone ==> rest.contains(id)
            &&& !rest.contains(gone)
        },
{
    if ids.contains(gone) {
        let at = ids.index_of(gone);
        let rest = ids.remove(at);
        assert forall|id: usize| rest.contains(id) implies ids.contains(id) by {
            let k = choose|k: int| 0 <= k < rest.len() && rest[k] == id;
            if k < at {
                assert(ids[k] == id);
            } else {
                assert(ids[k + 1] == id);
            }
        }
        if rest.contains(gone) {
            let k = choose|k: int| 0 <= k < rest.len() && rest[k] == gone;
            if k < at {
                assert(ids[k] < ids[at]);
            } else {
                assert(ids[at] < ids[k + 1]);
            }
        }
        assert forall|id: usize| ids.contains(id) && id != gone implies rest.contains(id) by {
            let k = choose|k: int| 0 <= k < ids.len() && ids[k] == id;
            if k < at {
                assert(rest[k] == id);
            } else {
                assert(rest[k - 1] == id);
            }
        }
    }
}

/// What a [`Button`] does when it is clicked. It may change the button's box,
/// the data that the button carries, and the renderer's glyphs.
pub trait ClickAction<T>: Send + Sync {
    fn run(
        &self,
        inner_box: &mut TextBox,
        data: &mut T,
        ctx: &Arc<AppCtx>,
        renderer: &mut Renderer,
    );
}

/// Whether a call of `action` is handed what `inner_box`, `data` and
/// `renderer` hold at first and leaves what they hold in the end.
pub open spec fn runs<T, A: ClickAction<T> + ?Sized>(
    action: &A,
    inner_box: &mut TextBox,
    data: &mut T,
    ctx: &Arc<AppCtx>,
    renderer: &mut Renderer,
) -> bool {
    call_ensures(A::run, (action, inner_box, data, ctx, renderer), ())
}

/// Runs `action` on the box, the data and the renderer.
fn run_action<T, A: ClickAction<T> + ?Sized>(
    action: &A,
    inner_box: &mut TextBox,
    data: &mut T,
    ctx: &Arc<AppCtx>,
    renderer: &mut Renderer,
)
    ensures
        exists|b: &mut TextBox, d: &mut T, r: &mut Renderer|
            mut_ref_current(b) == *old(inner_box) && mut_ref_future(b) == *final(inner_box)
                && mut_ref_current(d) == *old(data) && mut_ref_future(d) == *final(data)
                && mut_ref_current(r) == *old(renderer) && mut_ref_future(r) == *final(renderer)
                && #[trigger] runs(action, b, d, ctx, r),
{
    action.run(inner_box, data, ctx, renderer);
    proof {
        let (b, d, r) = choose|b: &mut TextBox, d: &mut T, r: &mut Renderer|
            mut_ref_current(b) == *old(inner_box) && mut_ref_future(b) == *inner_box
                && mut_ref_current(d) == *old(data) && mut_ref_future(d) == *data
                && mut_ref_current(r) == *old(renderer) && mut_ref_future(r) == *renderer
                && #[trigger] call_ensures(A::run, (action, b, d, ctx, r), ());
        assert(runs(action, b, d, ctx, r));
    }
}

/// A text box that reacts to a click.
#[verifier::reject_recursive_types(T)]
pub struct Button<T: Send + Sync = ()> {
    pub inner_box: TextBox,
    pub data: T,
    pub on_click: Arc<Box<dyn ClickAction<T>>>,
}

impl<T: Send + Sync> Component for Button<T> {
    open spec fn model(&self) -> Seq<Vertex> {
        self.inner_box.model()
    }

    open spec fn position(&self) -> (Fixed, Fixed) {
        self.inner_box.position()
    }

    open spec fn extent(&self) -> (Fixed, Fixed) {
        self.inner_box.extent()
    }

    fn build_model(&self) -> (m: Model) {
        self.inner_box.build_model()
    }

    /// The render hook of the button's box, which leaves the renderer as
    /// it is.
    fn do_render(&self, client: &Arc<AppCtx>, renderer: &mut Renderer)
        ensures
            *final(renderer) == *old(renderer),
    {
        self.inner_box.do_render(client, renderer)
    }

    fn pos(&self) -> (p: (Fixed, Fixed)) {
        self.inner_box.pos()
    }

    fn dims(&self) -> (d: (Fixed, Fixed)) {
        self.inner_box.dims()
    }

    /// Runs the button's action: the box, the data and the renderer are
    /// then what the action made of them. The action itself stays.
    fn on_click(&mut self, ctx: &Arc<AppCtx>, renderer: &mut Renderer)
        ensures
            final(self).on_click == old(self).on_click,
            exists|b: &mut TextBox, d: &mut T, r: &mut Renderer|
                mut_ref_current(b) == old(self).inner_box
                    && mut_ref_future(b) == final(self).inner_box
                    && mut_ref_current(d) == old(self).data
                    && mut_ref_future(d) == final(self).data
                    && mut_ref_current(r) == *old(renderer)
                    && mut_ref_future(r) == *final(renderer)
                    && #[trigger] runs::<T, dyn ClickAction<T>>(
                    &**old(self).on_click,
                    b,
                    d,
                    ctx,
                    r,
                ),
    {
        run_action::<T, dyn ClickAction<T>>(
            &**self.on_click,
            &mut self.inner_box,
            &mut self.data,
            ctx,
            renderer,
        );
    }

    fn on_scroll(&mut self, _ctx: &Arc<AppCtx>, _renderer: &mut Renderer)
        ensures
            *final(self) == *old(self),
            *final(_renderer) == *old(_renderer),
    {
    }

    fn on_hover(&mut self, _ctx: &Arc<AppCtx>, _renderer: &mut Renderer, _mode: HoverMode)
        ensures
            *final(self) == *old(self),
            *final(_renderer) == *old(_renderer),
    {
    }
}

/// A build of a container whose caches can be trusted returns the model of
/// every component as the component is at the time, and the caches can be
/// trusted afterwards.
pub proof fn lemma_build_is_current<C: Component>(
    before: Container<C>,
    after: Container<C>,
    models: Seq<Seq<Vertex>>,
)
    requires
        before.valid(),
        before.builds_to(&after, models),
    ensures
        after.valid(),
        models.len() == before.slots().len(),
        forall|i: int|
            0 <= i < before.slots().len() ==> (#[trigger] models[i])
                == before.slots()[i].component().model(),
{
    assert forall|i: int| 0 <= i < after.slots().len() implies (
    #[trigger] after.slots()[i]).valid() by {
        assert(before.slots()[i].valid());
        assert(after.cached()[i] == before.built()[i]);
    }
    assert forall|i: int| 0 <= i < before.slots().len() implies (#[trigger] models[i])
        == before.slots()[i].component().model() by {
        assert(before.slots()[i].valid());
        assert(models[i] == before.built()[i]);
    }
}

/// As long as nothing is clicked, building again returns the same models
/// and leaves the cache as it is.
pub proof fn lemma_build_is_stable<C: Component>(
    first: Container<C>,
    second: Container<C>,
    third: Container<C>,
    models: Seq<Seq<Vertex>>,
    again: Seq<Seq<Vertex>>,
)
    requires
        first.builds_to(&second, models),
        second.builds_to(&third, again),
    ensures
        again == models,
        third.cached() == second.cached(),
{
    assert forall|i: int| 0 <= i < second.slots().len() implies second.built()[i]
        == first.built()[i] by {
        assert(second.slots()[i].state() == first.slots()[i].state().spec_rebuilt());
        assert(second.cached()[i] == first.built()[i]);
    }
    assert(second.built() =~= first.built());
}

/// The first build after a click rebuilds the clicked component: at the
/// click's target it returns the component's model as it is after the click,
/// not the cached one.
pub proof fn lemma_click_forces_rebuild<C: Component>(
    before: Container<C>,
    clicked: Container<C>,
    after: Container<C>,
    pos: (Fixed, Fixed),
    models: Seq<Seq<Vertex>>,
)
    requires
        before.clicks_to(&clicked, pos),
        clicked.builds_to(&after, models),
        before.first_hit(pos) is Some,
    ensures
        models[before.first_hit(pos)->0] == clicked.slots()[before.first_hit(
            pos,
        )->0].component().model(),
        after.slots()[before.first_hit(pos)->0].state() is Clean,
{
}

} // verus!
