use vstd::prelude::*;
use vstd::string::*;
use std::collections::HashSet;
use crate::action::{Action, Event, EventKind, MouseButton, KEY_ESCAPE};
use crate::action_bus::{ActionBus, ActionPriv};
use crate::geometry::Rect;
use crate::layout_manager::{
    anchored, laid_out, lemma_anchor_has_node, lemma_prune_nothing, lemma_prune_step, refusal,
    taffy_style, BoxStyle, LayoutError, LayoutManager, NodeId,
};
use crate::renderer::{DrawCommand, Renderer};
use crate::scene::{
    lemma_descendants_not_below, lemma_kept_places, lemma_node_of, lemma_same_place, DispatchStop,
    Drawn, Scene, SceneID, SceneStack, StackState, MAX_LAY,
};

verus! {

/// An identifier that the bus promises when a creation is pushed.
#[derive(Clone, Copy, Debug, PartialEq, Eq, Structural)]
pub enum HamID {
    SceneID(SceneID),
    SpriteID(usize),
}

/// What is left to do outside the engine once it has handled an action.
pub enum Effect {
    /// Nothing is left to do.
    Done,
    /// The action is of a kind that the engine does not handle. It was
    /// dropped.
    Unhandled,
    /// Render `text` in the font `font_key` into a new sprite, no wider than
    /// `max_width` where that is not 0: the widest that the nearest place in
    /// the layout, from the asking scene up, may be. The sprite was promised
    /// the identifier `sprite_id`.
    CreateText { font_key: String, text: String, max_width: u32, sprite_id: usize },
    StartMusic { track: String, loops: i32 },
    StopMusic,
    StartSfx { track: String, channel: i32 },
    /// Give the scene its place in the layout, with this style.
    ApplyLayout { scene: SceneID, style: BoxStyle },
}

/// A breach of the rules between the scenes, the bus and the engine. None
/// can be mended: the application is to stop.
#[derive(Clone, Copy, Debug, PartialEq, Eq, Structural)]
pub enum EngineError {
    /// A creation came without the identifier that the bus promised for it.
    MissingPromise,
    /// The scene to create was promised one identifier, and the stack would
    /// give it another.
    IdMismatch { promised: SceneID, next: SceneID },
    /// The stack has no such layer.
    NoSuchLayer { layer: usize },
    /// Every identifier has been given.
    IdsExhausted,
    /// A text was promised one sprite identifier, and the store gave its
    /// sprite another.
    SpriteMismatch { expected: usize, created: usize },
}

/// Holds the sprite that the store made for a text against the one that the
/// bus promised for it.
pub fn kept_sprite_promise(promised: usize, created: usize) -> (kept: Result<(), EngineError>)
    ensures
        kept == if promised == created {
            Ok::<(), EngineError>(())
        } else {
            Err::<(), EngineError>(EngineError::SpriteMismatch { expected: promised, created })
        },
{
    if promised == created {
        Ok(())
    } else {
        Err(EngineError::SpriteMismatch { expected: promised, created })
    }
}

/// Why a scene cannot enter the stack on `layer` under the identifier `id`;
/// nothing where it can.
pub open spec fn registration_breach(stack: StackState, layer: usize, id: SceneID) -> Option<
    EngineError,
> {
    if layer >= MAX_LAY {
        Some(EngineError::NoSuchLayer { layer })
    } else if stack.next_scene_id == u64::MAX {
        Some(EngineError::IdsExhausted)
    } else if id != stack.next_scene_id {
        Some(EngineError::IdMismatch { promised: id, next: stack.next_scene_id })
    } else {
        None
    }
}

/// Why the engine cannot handle an action; nothing where it can.
pub open spec fn breach(stack: StackState, action_p: ActionPriv) -> Option<EngineError> {
    match action_p.action {
        Action::Scene { layer, .. } | Action::ImmediateUI { layer, .. } => match action_p.back_id {
            Some(HamID::SceneID(id)) => registration_breach(stack, layer, id),
            _ => Some(EngineError::MissingPromise),
        },
        Action::CreateText { .. } => match action_p.back_id {
            Some(HamID::SpriteID(_)) => None,
            _ => Some(EngineError::MissingPromise),
        },
        _ => None,
    }
}

/// What the engine did with an input event.
#[derive(Clone, Copy, Debug, PartialEq, Eq, Structural)]
pub enum InputOutcome {
    /// The event asks to leave the main loop.
    Quit,
    /// The event was handed to the scenes; the dispatch ended this way.
    Dispatched(DispatchStop),
    /// The window has a new size: the root of the layout was given it.
    Resized,
    /// The event is of no concern to the engine.
    Ignored,
}

/// Where a kind of input event goes.
#[derive(Clone, Copy, Debug, PartialEq, Eq, Structural)]
pub enum InputRoute {
    Quit,
    /// To the scenes, under this mask of kinds.
    Dispatch(EventKind),
    /// To the layout, as the new size of the window.
    Resize(u32, u32),
    Ignore,
}

/// A side of the window as the platform reports it: never below 0.
pub open spec fn side(v: i32) -> u32 {
    if v < 0 {
        0
    } else {
        v as u32
    }
}

/// Where an input event goes: a request to quit, or the escape key going
/// down, leaves the loop; the left button going down or up goes to the
/// scenes as a click; a new size of the window goes to the layout; nothing
/// else is of concern.
pub open spec fn route_of(event: Event) -> InputRoute {
    match event {
        Event::Quit => InputRoute::Quit,
        Event::KeyDown { keycode: Some(key) } => if key == KEY_ESCAPE {
            InputRoute::Quit
        } else {
            InputRoute::Ignore
        },
        Event::MouseButtonDown { mouse_btn: MouseButton::Left, .. } => InputRoute::Dispatch(
            EventKind { bits: crate::action::SDL_MOUSE_CLICK },
        ),
        Event::MouseButtonUp { mouse_btn: MouseButton::Left, .. } => InputRoute::Dispatch(
            EventKind { bits: crate::action::SDL_MOUSE_CLICK },
        ),
        Event::WindowResized { w, h } => InputRoute::Resize(side(w), side(h)),
        _ => InputRoute::Ignore,
    }
}

/// Where an input event goes.
pub fn classify_input(event: &Event) -> (route: InputRoute)
    ensures
        route == route_of(*event),
{
    match event {
        Event::Quit => InputRoute::Quit,
        Event::KeyDown { keycode: Some(key) } => {
            if *key == KEY_ESCAPE {
                InputRoute::Quit
            } else {
                InputRoute::Ignore
            }
        },
        Event::MouseButtonDown { mouse_btn: MouseButton::Left, .. } => InputRoute::Dispatch(
            EventKind::sdl_mouse_click(),
        ),
        Event::MouseButtonUp { mouse_btn: MouseButton::Left, .. } => InputRoute::Dispatch(
            EventKind::sdl_mouse_click(),
        ),
        Event::WindowResized { w, h } => {
            let width: u32 = if *w < 0 {
                0
            } else {
                *w as u32
            };
            let height: u32 = if *h < 0 {
                0
            } else {
                *h as u32
            };
            InputRoute::Resize(width, height)
        },
        _ => InputRoute::Ignore,
    }
}

/// How long to sleep at the end of a frame, and whether the frame took
/// longer than it may.
#[derive(Clone, Copy, Debug, PartialEq, Eq, Structural)]
pub struct Pace {
    pub sleep_micros: u64,
    pub overran: bool,
}

/// The pause that brings a frame of `frame_micros` microseconds to
/// `target_micros`: what is missing; nothing, with the flag set, where the
/// frame took longer than the target.
pub fn pace(frame_micros: u64, target_micros: u64) -> (p: Pace)
    ensures
        p.sleep_micros == if frame_micros < target_micros {
            target_micros - frame_micros
        } else {
            0
        },
        p.overran == (frame_micros > target_micros),
{
    if frame_micros < target_micros {
        Pace { sleep_micros: target_micros - frame_micros, overran: false }
    } else {
        Pace { sleep_micros: 0, overran: frame_micros > target_micros }
    }
}

/// The steps of a frame, in their order.
#[derive(Clone, Copy, Debug, PartialEq, Eq, Structural)]
pub enum FramePhase {
    /// Poll the input and hand it to the engine.
    Input,
    /// Take the deferred queue once and handle what it held.
    Deferred,
    /// Drain the priority queue until it is empty.
    PriorityAfterDeferred,
    /// Have every scene take its step.
    Update,
    /// Drain the priority queue until it is empty, again.
    PriorityAfterUpdate,
    /// Run the solver where the layout waits for it, and tell the scenes.
    Layout,
    /// Clear the screen, have every scene draw, and present.
    Render,
    /// Sleep until the frame has lasted as long as it should.
    Pace,
}

impl FramePhase {
    /// The step that follows `self`; after the last one the first one of the
    /// next frame.
    pub open spec fn following(self) -> FramePhase {
        match self {
            FramePhase::Input => FramePhase::Deferred,
            FramePhase::Deferred => FramePhase::PriorityAfterDeferred,
            FramePhase::PriorityAfterDeferred => FramePhase::Update,
            FramePhase::Update => FramePhase::PriorityAfterUpdate,
            FramePhase::PriorityAfterUpdate => FramePhase::Layout,
            FramePhase::Layout => FramePhase::Render,
            FramePhase::Render => FramePhase::Pace,
            FramePhase::Pace => FramePhase::Input,
        }
    }

    pub fn next(self) -> (phase: FramePhase)
        ensures
            phase == self.following(),
    {
        match self {
            FramePhase::Input => FramePhase::Deferred,
            FramePhase::Deferred => FramePhase::PriorityAfterDeferred,
            FramePhase::PriorityAfterDeferred => FramePhase::Update,
            FramePhase::Update => FramePhase::PriorityAfterUpdate,
            FramePhase::PriorityAfterUpdate => FramePhase::Layout,
            FramePhase::Layout => FramePhase::Render,
            FramePhase::Render => FramePhase::Pace,
            FramePhase::Pace => FramePhase::Input,
        }
    }
}

/// The engine: the scenes, the bus between them and the engine, the layout,
/// and what the scenes have drawn.
pub struct HamGraph {
    pub renderer: Renderer,
    pub scene_stack: SceneStack,
    pub action_bus: ActionBus,
    pub layout_manager: LayoutManager,
    pub window_dim: (u32, u32),
}

impl HamGraph {
    /// The stack and the layout are well formed, the layout holds every node
    /// that the stack records, and every scene with a node hangs there under
    /// its parent.
    pub open spec fn wf(&self) -> bool {
        &&& self.scene_stack@.wf()
        &&& self.layout_manager@.wf()
        &&& anchored(self.scene_stack@, self.layout_manager@)
    }

    /// `after` is `self` after the scene `id` was closed, and `removed` says
    /// whether a scene left. The engine's root is never closed. Any other
    /// scene leaves the stack with all that descends from it, and the layout
    /// nodes of all the scenes that leave, leave the layout.
    pub open spec fn closed(&self, after: &HamGraph, id: SceneID, removed: bool) -> bool {
        if id == 0 {
            &&& !removed
            &&& after.scene_stack@ == self.scene_stack@
            &&& after.layout_manager@ == self.layout_manager@
        } else {
            let doomed = self.scene_stack@.descendants(id);
            &&& removed == self.scene_stack@.holds_any(doomed)
            &&& after.scene_stack@ == self.scene_stack@.without(doomed)
            &&& self.layout_manager@.pruned(
                after.layout_manager@,
                self.scene_stack@.nodes_of(doomed),
            )
        }
    }

    /// An engine for a window of the size `window_dim` and a sprite store
    /// that holds `sprite_count` sprites, with `root_scene` as the root scene
    /// of the application. The root scene has set itself up.
    pub fn new(root_scene: Box<dyn Scene>, window_dim: (u32, u32), sprite_count: usize) -> (engine:
        HamGraph)
        ensures
            engine.wf(),
            engine.scene_stack@ == StackState::initial(engine.layout_manager@.root),
            engine.layout_manager@.parents == Map::<u64, Option<u64>>::empty().insert(
                engine.layout_manager@.root.raw,
                None,
            ),
            engine.layout_manager@.needs_recompute(),
            engine.layout_manager@.root_asks(window_dim),
            engine.scene_stack.nodes(0)[1].told(),
            engine.renderer@ == Seq::<DrawCommand>::empty(),
            engine.window_dim == window_dim,
    {
        let mut action_bus = ActionBus::new(sprite_count);
        let layout_manager = LayoutManager::new(window_dim);
        let mut scene_stack = SceneStack::new(root_scene, layout_manager.root_node_id());
        proof {
            assert(scene_stack@.has(0, 1) && scene_stack@.layers[0][1].id == 1);
            lemma_node_of(scene_stack@, 0, 1);
        }
        action_bus.prepare(1, scene_stack.next_scene_id());
        scene_stack.init(1, &mut action_bus);
        HamGraph { renderer: Renderer::new(), scene_stack, action_bus, layout_manager, window_dim }
    }

    /// Whether a scene can enter the stack on `layer` under the identifier
    /// `id`, and why not.
    pub fn can_register(&self, layer: usize, id: SceneID) -> (can: Result<(), EngineError>)
        ensures
            can == match registration_breach(self.scene_stack@, layer, id) {
                Some(error) => Err::<(), EngineError>(error),
                None => Ok::<(), EngineError>(()),
            },
    {
        if layer >= MAX_LAY {
            return Err(EngineError::NoSuchLayer { layer });
        }
        let next = self.scene_stack.next_scene_id();
        if next == u64::MAX {
            return Err(EngineError::IdsExhausted);
        }
        if id != next {
            return Err(EngineError::IdMismatch { promised: id, next });
        }
        Ok(())
    }

    /// Brings a scene into the stack under the identifier that the bus
    /// promised for it, as a child of `parent`, and has it set itself up,
    /// with the bus telling it that it is the scene that pushes. Where the
    /// parent has left the stack the scene stands alone: it is the child of
    /// no scene, and no removal of another scene takes it along.
    ///
    /// The identifier is the one that the stack gives next, and the layer is
    /// one of the stack: anything else is a breach that `can_register`
    /// tells, and is not to be handed in.
    pub fn register_scene(
        &mut self,
        layer: usize,
        scene: Box<dyn Scene>,
        id: SceneID,
        parent: SceneID,
    )
        requires
            old(self).wf(),
            registration_breach(old(self).scene_stack@, layer, id) is None,
        ensures
            final(self).wf(),
            final(self).layout_manager@ == old(self).layout_manager@,
            final(self).window_dim == old(self).window_dim,
            final(self).renderer@ == old(self).renderer@,
            final(self).scene_stack@ == old(self).scene_stack@.pushed(layer as int, parent),
            final(self).scene_stack.nodes(layer as int).last().told(),
    {
        let ghost before = self.scene_stack@;
        self.scene_stack.push(layer, scene, parent);
        proof {
            crate::layout_manager::lemma_anchored_push(
                before,
                self.layout_manager@,
                layer as int,
                parent,
            );
            let after = self.scene_stack@;
            assert(after.has(layer as int, before.layers[layer as int].len() as int));
            assert(after.layers[layer as int][before.layers[layer as int].len() as int].id == id);
            assert forall|l: int, i: int| after.has(l, i) && before.has(l, i) implies (
            #[trigger] after.layers[l][i]).node == before.layers[l][i].node by {}
        }
        let forecast = self.scene_stack.next_scene_id();
        let promised = self.action_bus.future_scene_id();
        self.action_bus.prepare(
            id,
            if promised > forecast {
                promised
            } else {
                forecast
            },
        );
        self.scene_stack.init(id, &mut self.action_bus);
        proof {
            lemma_node_of(
                self.scene_stack@,
                layer as int,
                before.layers[layer as int].len() as int,
            );
            crate::scene::lemma_nodes_len(&self.scene_stack, layer as int);
        }
    }

    /// Brings a scene into the stack as `register_scene` does, where that
    /// can be done; where not, changes nothing and says why.
    pub fn try_register_scene(
        &mut self,
        layer: usize,
        scene: Box<dyn Scene>,
        id: SceneID,
        parent: SceneID,
    ) -> (done: Result<(), EngineError>)
        requires
            old(self).wf(),
        ensures
            final(self).wf(),
            final(self).layout_manager@ == old(self).layout_manager@,
            final(self).window_dim == old(self).window_dim,
            final(self).renderer@ == old(self).renderer@,
            match registration_breach(old(self).scene_stack@, layer, id) {
                Some(error) => {
                    &&& done == Err::<(), EngineError>(error)
                    &&& final(self).scene_stack@ == old(self).scene_stack@
                    &&& final(self).action_bus@ == old(self).action_bus@
                },
                None => {
                    &&& done is Ok
                    &&& final(self).scene_stack@ == old(self).scene_stack@.pushed(layer as int, parent)
                    &&& final(self).scene_stack.nodes(layer as int).last().told()
                },
            },
    {
        match self.can_register(layer, id) {
            Ok(()) => {
                self.register_scene(layer, scene, id, parent);
                Ok(())
            },
            Err(error) => Err(error),
        }
    }

    /// Takes the scene with the identifier out of the stack, with all that
    /// descends from it, and the layout nodes of all of them out of the
    /// layout. The engine's root stays. Returns whether a scene left.
    pub fn close_scene(&mut self, id: SceneID) -> (removed: bool)
        requires
            old(self).wf(),
        ensures
            final(self).wf(),
            final(self).window_dim == old(self).window_dim,
            final(self).action_bus@ == old(self).action_bus@,
            final(self).renderer@ == old(self).renderer@,
            old(self).closed(final(self), id, removed),
    {
        broadcast use vstd::std_specs::hash::group_hash_axioms;

        if id == 0 {
            return false;
        }
        let ghost before = *self;
        let ghost old_stack = before.scene_stack@;
        let ghost old_layout = before.layout_manager@;
        let ghost doomed = old_stack.descendants(id);
        let leaving = self.scene_stack.doomed_nodes(id);
        let mut taken: HashSet<u64> = HashSet::new();
        proof {
            lemma_prune_nothing(old_layout);
            assert(taken@ =~= Set::<u64>::empty());
        }
        let mut k: usize = 0;
        while k < leaving.len()
            invariant
                before.wf(),
                id != 0,
                old_stack == before.scene_stack@,
                old_layout == before.layout_manager@,
                doomed == old_stack.descendants(id),
                self.scene_stack == before.scene_stack,
                self.action_bus == before.action_bus,
                self.renderer == before.renderer,
                self.window_dim == before.window_dim,
                self.layout_manager@.wf(),
                old_layout.pruned(self.layout_manager@, taken@),
                k <= leaving@.len(),
                forall|j: int|
                    0 <= j < leaving@.len() ==> old_stack.is_node_of_any(doomed, #[trigger] leaving@[j]),
                forall|raw: u64|
                    taken@.contains(raw) <==> exists|j: int|
                        0 <= j < k && (#[trigger] leaving@[j]).raw == raw,
            decreases leaving@.len() - k,
        {
            let node = leaving[k];
            if !taken.contains(&node.raw) {
                let ghost cur = self.layout_manager@;
                proof {
                    let (l, i) = choose|l: int, i: int|
                        old_stack.has(l, i) && doomed.contains((#[trigger] old_stack.layers[l][i]).id)
                            && old_stack.layers[l][i].node == Some(node);
                    assert(old_layout.has_node(node));
                    if node == old_layout.root {
                        lemma_same_place(old_stack, l, i, 0, 0);
                        lemma_descendants_not_below(old_stack, id, 0);
                    }
                }
                self.layout_manager.remove_layout(node);
                let ghost was = taken@;
                taken.insert(node.raw);
                proof {
                    lemma_prune_step(old_layout, cur, self.layout_manager@, was, node.raw);
                    assert(taken@ =~= was.insert(node.raw));
                }
            }
            proof {
                assert forall|raw: u64| taken@.contains(raw) <==> exists|j: int|
                    0 <= j < k + 1 && (#[trigger] leaving@[j]).raw == raw by {
                    if taken@.contains(raw) {
                        if raw == node.raw {
                            assert(leaving@[k as int].raw == raw);
                        } else {
                            let j = choose|j: int| 0 <= j < k && (#[trigger] leaving@[j]).raw == raw;
                            assert(0 <= j < k + 1 && leaving@[j].raw == raw);
                        }
                    }
                    if exists|j: int| 0 <= j < k + 1 && (#[trigger] leaving@[j]).raw == raw {
                        let j = choose|j: int| 0 <= j < k + 1 && (#[trigger] leaving@[j]).raw == raw;
                        if j < k {
                            assert(0 <= j < k && leaving@[j].raw == raw);
                        }
                    }
                }
            }
            k += 1;
        }
        proof {
            assert(taken@ =~= old_stack.nodes_of(doomed)) by {
                assert forall|raw: u64| taken@.contains(raw) == old_stack.nodes_of(doomed).contains(
                    raw,
                ) by {
                    if taken@.contains(raw) {
                        let j = choose|j: int| 0 <= j < k && (#[trigger] leaving@[j]).raw == raw;
                        assert(old_stack.is_node_of_any(doomed, leaving@[j]));
                        assert(leaving@[j] == (NodeId { raw }));
                    }
                    if old_stack.nodes_of(doomed).contains(raw) {
                        let node = NodeId { raw };
                        assert(leaving@.contains(node));
                        let j = choose|j: int| 0 <= j < leaving@.len() && leaving@[j] == node;
                        assert(0 <= j < k && leaving@[j].raw == raw);
                    }
                }
            }
        }
        let removed = self.scene_stack.remove_scene(id);
        proof {
            lemma_kept_places(&before.scene_stack, &self.scene_stack, doomed);
            let new_stack = self.scene_stack@;
            let gone = old_stack.nodes_of(doomed);
            assert forall|l: int, i: int|
                new_stack.has(l, i) && (#[trigger] new_stack.layers[l][i]).node is Some implies self.layout_manager@.has_node(
                new_stack.layers[l][i].node->Some_0,
            ) by {
                let o = crate::scene::kept_origin(before.scene_stack.nodes(l), doomed, i);
                assert(new_stack.layers[l][i] == old_stack.layers[l][o]);
                let node = old_stack.layers[l][o].node->Some_0;
                if gone.contains(node.raw) {
                    assert(old_stack.is_node_of_any(doomed, NodeId { raw: node.raw }));
                    let (m, j) = choose|m: int, j: int|
                        old_stack.has(m, j) && doomed.contains((#[trigger] old_stack.layers[m][j]).id)
                            && old_stack.layers[m][j].node == Some(node);
                    assert(m == l && j == o);
                }
            }
            assert forall|l: int, i: int, m: int, j: int|
                new_stack.has(l, i) && new_stack.has(m, j) && (
                #[trigger] new_stack.layers[l][i]).node is Some && (
                #[trigger] new_stack.layers[m][j]).node == new_stack.layers[l][i].node implies l
                == m && i == j by {
                let o = crate::scene::kept_origin(before.scene_stack.nodes(l), doomed, i);
                let p = crate::scene::kept_origin(before.scene_stack.nodes(m), doomed, j);
                assert(new_stack.layers[l][i] == old_stack.layers[l][o]);
                assert(new_stack.layers[m][j] == old_stack.layers[m][p]);
                assert(l == m && o == p);
                if i < j {
                    assert(crate::scene::kept_origin(before.scene_stack.nodes(l), doomed, i)
                        < crate::scene::kept_origin(before.scene_stack.nodes(l), doomed, j));
                }
                if j < i {
                    assert(crate::scene::kept_origin(before.scene_stack.nodes(l), doomed, j)
                        < crate::scene::kept_origin(before.scene_stack.nodes(l), doomed, i));
                }
            }
            assert(!doomed.contains(0)) by {
                if doomed.contains(0) {
                    lemma_descendants_not_below(old_stack, id, 0);
                }
            }
            assert forall|l: int, i: int|
                new_stack.has(l, i) && (#[trigger] new_stack.layers[l][i]).node is Some
                    && new_stack.layers[l][i].id != 0 implies crate::layout_manager::mirrored(
                new_stack,
                self.layout_manager@,
                l,
                i,
            ) by {
                let o = crate::scene::kept_origin(before.scene_stack.nodes(l), doomed, i);
                assert(new_stack.layers[l][i] == old_stack.layers[l][o]);
                crate::layout_manager::lemma_mirrored_after_close(
                    old_stack,
                    old_layout,
                    self.layout_manager@,
                    id,
                    l,
                    i,
                    o,
                );
            }
        }
        removed
    }

    /// Gives the scene its place in the layout, or changes it, with a style
    /// in the solver's own form: a scene that has a node gets the style, and
    /// a scene whose parent has one gets a new node under it. Any other
    /// scene is a breach that `LayoutManager::can_set_layout` tells, and is
    /// not to be handed in.
    pub fn apply_layout(&mut self, scene: SceneID, style: taffy::Style)
        requires
            old(self).wf(),
            refusal(old(self).scene_stack@, scene, style) is None,
        ensures
            final(self).wf(),
            final(self).window_dim == old(self).window_dim,
            final(self).action_bus@ == old(self).action_bus@,
            final(self).renderer@ == old(self).renderer@,
            old(self).scene_stack.same_scenes(&final(self).scene_stack),
            laid_out(
                old(self).layout_manager@,
                old(self).scene_stack@,
                final(self).layout_manager@,
                final(self).scene_stack@,
                scene,
                style,
            ),
            final(self).layout_manager@.needs_recompute(),
    {
        self.layout_manager.set_layout(scene, &mut self.scene_stack, style)
    }

    /// Gives the scene its place in the layout as `apply_layout` does, where
    /// that can be done; where not, changes nothing and says why.
    pub fn try_apply_layout(&mut self, scene: SceneID, style: taffy::Style) -> (done: Result<
        (),
        LayoutError,
    >)
        requires
            old(self).wf(),
        ensures
            final(self).wf(),
            final(self).window_dim == old(self).window_dim,
            final(self).action_bus@ == old(self).action_bus@,
            final(self).renderer@ == old(self).renderer@,
            old(self).scene_stack.same_scenes(&final(self).scene_stack),
            match refusal(old(self).scene_stack@, scene, style) {
                Some(error) => {
                    &&& done == Err::<(), LayoutError>(error)
                    &&& final(self).layout_manager@ == old(self).layout_manager@
                    &&& final(self).scene_stack@ == old(self).scene_stack@
                },
                None => {
                    &&& done is Ok
                    &&& laid_out(
                        old(self).layout_manager@,
                        old(self).scene_stack@,
                        final(self).layout_manager@,
                        final(self).scene_stack@,
                        scene,
                        style,
                    )
                    &&& final(self).layout_manager@.needs_recompute()
                },
            },
    {
        self.layout_manager.try_set_layout(scene, &mut self.scene_stack, style)
    }

    /// Whether the engine can handle an action, and why not: a creation
    /// must bear the promise of its kind, and a scene must be promised the
    /// identifier that the stack gives next, on a layer of the stack.
    pub fn vet(&self, action_p: &ActionPriv) -> (can: Result<(), EngineError>)
        ensures
            can == match breach(self.scene_stack@, *action_p) {
                Some(error) => Err::<(), EngineError>(error),
                None => Ok::<(), EngineError>(()),
            },
    {
        match &action_p.action {
            Action::Scene { layer, .. } | Action::ImmediateUI { layer, .. } => {
                match action_p.back_id {
                    Some(HamID::SceneID(id)) => self.can_register(*layer, id),
                    _ => Err(EngineError::MissingPromise),
                }
            },
            Action::CreateText { .. } => {
                match action_p.back_id {
                    Some(HamID::SpriteID(_)) => Ok(()),
                    _ => Err(EngineError::MissingPromise),
                }
            },
            _ => Ok(()),
        }
    }

    /// `after` is `self` after the engine handled `action_p`, and `done` is
    /// what it left to the outside.
    pub open spec fn handled(&self, after: &HamGraph, action_p: ActionPriv, done: Effect) -> bool {
        match action_p.action {
            Action::Scene { layer, .. } | Action::ImmediateUI { layer, .. } => {
                &&& action_p.back_id matches Some(HamID::SceneID(id))
                &&& after.scene_stack@ == self.scene_stack@.pushed(
                    layer as int,
                    action_p.source_scene,
                )
                &&& after.scene_stack.nodes(layer as int).last().told()
                &&& after.layout_manager@ == self.layout_manager@
                &&& match action_p.action {
                    Action::ImmediateUI { layout, .. } => done matches Effect::ApplyLayout {
                        scene,
                        style,
                    } && Some(HamID::SceneID(scene)) == action_p.back_id && style
                        == crate::layout_manager::style_of(layout),
                    _ => done is Done,
                }
            },
            Action::CreateText { font, size, text } => {
                &&& after.scene_stack@ == self.scene_stack@
                &&& after.layout_manager@ == self.layout_manager@
                &&& after.action_bus@ == self.action_bus@
                &&& done matches Effect::CreateText { font_key, text: told, max_width, sprite_id }
                    && font_key@ == font@ + "_"@ + size@ && told@ == text@ && Some(
                    HamID::SpriteID(sprite_id),
                ) == action_p.back_id && max_width == self.layout_manager@.max_width_of(
                    match self.scene_stack@.anchor(action_p.source_scene) {
                        Some(anchor) => anchor.1.raw,
                        None => self.layout_manager@.root.raw,
                    },
                )
            },
            Action::CloseCurrentScene => {
                &&& done is Done
                &&& after.action_bus@ == self.action_bus@
                &&& exists|removed: bool| self.closed(after, action_p.source_scene, removed)
            },
            Action::CloseScene { target_id } => {
                &&& done is Done
                &&& after.action_bus@ == self.action_bus@
                &&& exists|removed: bool| self.closed(after, target_id, removed)
            },
            Action::StartMusic { track, loops } => {
                &&& done matches Effect::StartMusic { track: name, loops: times } && name@
                    == track@ && times == loops
                &&& after.action_bus@ == self.action_bus@
                &&& after.scene_stack@ == self.scene_stack@
                &&& after.layout_manager@ == self.layout_manager@
            },
            Action::StopMusic => {
                &&& done is StopMusic
                &&& after.action_bus@ == self.action_bus@
                &&& after.scene_stack@ == self.scene_stack@
                &&& after.layout_manager@ == self.layout_manager@
            },
            Action::StartSfx { track, channel } => {
                &&& done matches Effect::StartSfx { track: name, channel: on } && name@ == track@
                    && on == channel
                &&& after.action_bus@ == self.action_bus@
                &&& after.scene_stack@ == self.scene_stack@
                &&& after.layout_manager@ == self.layout_manager@
            },
            Action::RequestLayout(layout) => {
                &&& done matches Effect::ApplyLayout { scene, style } && scene
                    == action_p.source_scene && style == crate::layout_manager::style_of(layout)
                &&& after.action_bus@ == self.action_bus@
                &&& after.scene_stack@ == self.scene_stack@
                &&& after.layout_manager@ == self.layout_manager@
            },
            Action::ButtonPressed => {
                &&& done is Done
                &&& exists|stop: DispatchStop|
                    self.scene_stack.dispatched(&after.scene_stack, None, None, stop)
                &&& after.layout_manager@ == self.layout_manager@
            },
            Action::SdlEvent(_) | Action::SceneMsg { .. } => {
                &&& done is Unhandled
                &&& after.action_bus@ == self.action_bus@
                &&& after.scene_stack@ == self.scene_stack@
                &&& after.layout_manager@ == self.layout_manager@
            },
        }
    }

    /// Handles one action that a scene pushed. What the engine can do itself
    /// is done; what is left for the outside is returned.
    ///
    /// A creation of a scene brings the scene into the stack, under the
    /// identifier that was promised and as a child of the scene that asked,
    /// and has it set itself up. A close takes the scene out with its
    /// descendants, and their layout nodes with them. A pressed button is
    /// told to the scenes. A text, music, a sound and a layout request are
    /// left to the outside. Every other kind is dropped.
    ///
    /// A creation without the promise of its kind, or with another
    /// identifier than the stack gives next, is a breach that `vet` tells,
    /// and is not to be handed in.
    pub fn handle_user_action(&mut self, action_p: ActionPriv) -> (done: Effect)
        requires
            old(self).wf(),
            breach(old(self).scene_stack@, action_p) is None,
        ensures
            final(self).wf(),
            final(self).window_dim == old(self).window_dim,
            final(self).renderer@ == old(self).renderer@,
            old(self).handled(final(self), action_p, done),
    {
        let ActionPriv { source_scene, back_id, action } = action_p;
        match action {
            Action::Scene { scene, layer } => {
                match back_id {
                    Some(HamID::SceneID(scid)) => {
                        self.register_scene(layer, scene.into_scene(), scid, source_scene);
                        Effect::Done
                    },
                    _ => Effect::Unhandled,
                }
            },
            Action::ImmediateUI { scene, layout, layer } => {
                match back_id {
                    Some(HamID::SceneID(scid)) => {
                        self.register_scene(layer, scene.into_scene(), scid, source_scene);
                        Effect::ApplyLayout { scene: scid, style: taffy_style(&layout) }
                    },
                    _ => Effect::Unhandled,
                }
            },
            Action::CreateText { font, size, text } => {
                match back_id {
                    Some(HamID::SpriteID(sprite_id)) => {
                        let (_id_layout, nodeid_layout) = self.scene_stack.get_first_with_layout(
                            source_scene,
                        );
                        proof {
                            if self.scene_stack@.anchor(source_scene) is Some {
                                lemma_anchor_has_node(
                                    self.scene_stack@,
                                    source_scene,
                                    self.scene_stack@.next_scene_id as nat,
                                );
                            }
                        }
                        let max_width = self.layout_manager.max_width(nodeid_layout);
                        let font_key = font.concat("_").concat(size.as_str());
                        Effect::CreateText { font_key, text, max_width, sprite_id }
                    },
                    _ => Effect::Unhandled,
                }
            },
            Action::CloseCurrentScene => {
                self.close_scene(source_scene);
                Effect::Done
            },
            Action::CloseScene { target_id } => {
                self.close_scene(target_id);
                Effect::Done
            },
            Action::StartMusic { track, loops } => Effect::StartMusic { track, loops },
            Action::StartSfx { track, channel } => Effect::StartSfx { track, channel },
            Action::StopMusic => Effect::StopMusic,
            Action::ButtonPressed => {
                self.scene_stack.propagate_ham_to_subscribers(
                    &mut self.action_bus,
                    ActionPriv { source_scene, back_id, action: Action::ButtonPressed },
                );
                Effect::Done
            },
            Action::RequestLayout(lay) => Effect::ApplyLayout {
                scene: source_scene,
                style: taffy_style(&lay),
            },
            _ => Effect::Unhandled,
        }
    }

    /// Handles one action as `handle_user_action` does, where that can be
    /// done; where not, changes nothing and says why.
    pub fn try_handle_user_action(&mut self, action_p: ActionPriv) -> (done: Result<
        Effect,
        EngineError,
    >)
        requires
            old(self).wf(),
        ensures
            final(self).wf(),
            final(self).window_dim == old(self).window_dim,
            final(self).renderer@ == old(self).renderer@,
            match breach(old(self).scene_stack@, action_p) {
                Some(error) => {
                    &&& done == Err::<Effect, EngineError>(error)
                    &&& final(self).scene_stack@ == old(self).scene_stack@
                    &&& final(self).layout_manager@ == old(self).layout_manager@
                    &&& final(self).action_bus@ == old(self).action_bus@
                },
                None => done matches Ok(effect) && old(self).handled(final(self), action_p, effect),
            },
    {
        match self.vet(&action_p) {
            Ok(()) => Ok(self.handle_user_action(action_p)),
            Err(error) => Err(error),
        }
    }

    /// Hands an input event to where it goes: to the scenes, to the layout,
    /// or nowhere.
    pub fn dispatch_input(&mut self, event: Event) -> (outcome: InputOutcome)
        requires
            old(self).wf(),
        ensures
            final(self).wf(),
            final(self).scene_stack@ == old(self).scene_stack@,
            match route_of(event) {
                InputRoute::Quit => outcome == InputOutcome::Quit && final(self).layout_manager@
                    == old(self).layout_manager@ && final(self).window_dim == old(self).window_dim
                    && final(self).action_bus@ == old(self).action_bus@,
                InputRoute::Ignore => outcome == InputOutcome::Ignored && final(self).layout_manager@
                    == old(self).layout_manager@ && final(self).window_dim == old(self).window_dim
                    && final(self).action_bus@ == old(self).action_bus@,
                InputRoute::Resize(w, h) => {
                    &&& outcome == InputOutcome::Resized
                    &&& final(self).action_bus@ == old(self).action_bus@
                    &&& final(self).window_dim == (w, h)
                    &&& final(self).layout_manager@.needs_recompute()
                    &&& old(self).layout_manager@.restyled(
                        final(self).layout_manager@,
                        old(self).layout_manager@.root.raw,
                        final(self).layout_manager@.styles[old(self).layout_manager@.root.raw],
                    )
                    &&& final(self).layout_manager@.root_asks((w, h))
                },
                InputRoute::Dispatch(kinds) => {
                    &&& outcome matches InputOutcome::Dispatched(stop) && old(self).scene_stack.dispatched(
                        &final(self).scene_stack,
                        Action::SdlEvent(event).press_point(),
                        Some(kinds),
                        stop,
                    )
                    &&& final(self).layout_manager@ == old(self).layout_manager@
                    &&& final(self).window_dim == old(self).window_dim
                },
            },
    {
        match classify_input(&event) {
            InputRoute::Quit => InputOutcome::Quit,
            InputRoute::Ignore => InputOutcome::Ignored,
            InputRoute::Resize(w, h) => {
                let ghost before = self.layout_manager@;
                self.layout_manager.set_new_window_size((w, h));
                proof {
                    crate::layout_manager::lemma_anchored_frame(
                        self.scene_stack@,
                        before,
                        self.layout_manager@,
                    );
                }
                self.window_dim = (w, h);
                InputOutcome::Resized
            },
            InputRoute::Dispatch(kinds) => {
                let stop = self.scene_stack.propagate_sdl2_to_subscribers(
                    &mut self.action_bus,
                    Action::SdlEvent(event),
                    kinds,
                );
                InputOutcome::Dispatched(stop)
            },
        }
    }

    /// Has every scene take a step of `delta_time` microseconds. Returns the
    /// identifiers of the scenes in the order of their steps.
    pub fn update(&mut self, delta_time: u64) -> (visited: Vec<SceneID>)
        requires
            old(self).wf(),
        ensures
            final(self).wf(),
            final(self).scene_stack@ == old(self).scene_stack@,
            final(self).layout_manager@ == old(self).layout_manager@,
            final(self).window_dim == old(self).window_dim,
            visited@ == crate::scene::ids_bottom_up(old(self).scene_stack@.layers, MAX_LAY as int),
    {
        self.scene_stack.update_all(delta_time, &mut self.action_bus)
    }

    /// Runs the solver where the layout waits for it, and then tells every
    /// scene with a layout node its rectangle on the screen. Returns what was
    /// told, from the bottom layer up; nothing where the solver did not run.
    pub fn relayout(&mut self) -> (told: Option<Vec<(SceneID, Rect)>>)
        requires
            old(self).wf(),
        ensures
            final(self).wf(),
            final(self).scene_stack@ == old(self).scene_stack@,
            final(self).window_dim == old(self).window_dim,
            told is Some == old(self).layout_manager@.needs_recompute(),
            told is None ==> final(self).layout_manager@ == old(self).layout_manager@,
            told matches Some(rects) ==> rects@ == crate::scene::rects_bottom_up(
                old(self).scene_stack@.layers,
                final(self).layout_manager@,
                MAX_LAY as int,
            ),
    {
        let ghost before = self.layout_manager@;
        if self.layout_manager.update_layout() {
            proof {
                crate::layout_manager::lemma_anchored_frame(
                    self.scene_stack@,
                    before,
                    self.layout_manager@,
                );
            }
            Some(self.scene_stack.update_layout(&self.layout_manager))
        } else {
            None
        }
    }

    /// Has every scene draw itself into the renderer, from the bottom layer
    /// up, an immediate scene through the toolkit too. Returns the scenes in
    /// the order of their drawing, each immediate one with the rectangle that
    /// the toolkit used.
    pub fn render(&mut self) -> (drawn: Vec<Drawn>)
        requires
            old(self).wf(),
        ensures
            final(self).wf(),
            final(self).scene_stack@ == old(self).scene_stack@,
            final(self).layout_manager@ == old(self).layout_manager@,
            final(self).window_dim == old(self).window_dim,
            drawn@.len() == old(self).scene_stack.draw_plan(MAX_LAY as int).len(),
            forall|k: int|
                0 <= k < drawn@.len() ==> {
                    let planned = old(self).scene_stack.draw_plan(MAX_LAY as int)[k];
                    &&& (#[trigger] drawn@[k]).id == planned.0
                    &&& drawn@[k].immediate == planned.1
                    &&& !planned.1 ==> drawn@[k].used is None
                },
    {
        self.scene_stack.render_all(&mut self.renderer, &mut self.action_bus)
    }
}

} // verus!
