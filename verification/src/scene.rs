use vstd::prelude::*;
use std::collections::HashSet;
use crate::action::{Action, Event, EventKind};
use crate::action_bus::{ActionBus, ActionPriv};
use crate::geometry::Rect;
use crate::layout_manager::{anchored, LayoutManager, LayoutState, NodeId};
use crate::renderer::Renderer;
use crate::utils::is_point_in_rect;

verus! {

/// The identifier of a scene. 0 is the engine's own root, 1 the root scene of
/// the application; every other scene gets the next free number, and no
/// number is given twice.
pub type SceneID = u64;

/// The number of layers of a stack. Layer 0 is the bottom.
pub const MAX_LAY: usize = 10;

/// A unit of the user interface. The stack owns it and calls it back. Every
/// callback does nothing, and every declaration declares nothing, unless the
/// scene defines it.
///
/// The stack asks a scene for its four declarations (`subscriptions`,
/// `left_click_zone`, `is_modal`, `is_immediate`) when the scene enters it
/// and after every callback that may change the scene, and goes by what it
/// was last told.
pub trait Scene {
    /// Called once, when the scene has entered the stack.
    fn init(&mut self, action_bus: &mut ActionBus) {
    }

    /// Called once per frame, with the time since the last frame in
    /// microseconds.
    fn update(&mut self, delta_time: u64, action_bus: &mut ActionBus) {
    }

    /// Called after `render` where the scene is immediate. Returns the
    /// rectangle that the toolkit used. A scene that does not define it
    /// draws nothing, pushes nothing and has used no rectangle.
    fn immediate(&mut self, renderer: &mut Renderer, action_bus: &mut ActionBus) -> (used: Option<
        Rect,
    >)
        default_ensures
            used is None,
            final(renderer)@ == old(renderer)@,
            final(action_bus)@ == old(action_bus)@,
    {
        None
    }

    fn render(&self, renderer: &mut Renderer) {
    }

    /// Whether the scene keeps every input from the scenes below it. A scene
    /// that does not define it is not modal.
    fn is_modal(&self) -> (modal: bool)
        default_ensures
            !modal,
    {
        false
    }

    /// Hands the scene an event. Returns whether the scene consumed it. A
    /// scene that does not define it consumes nothing and pushes nothing.
    fn handle_action(
        &mut self,
        action: &Action,
        origin: Option<SceneID>,
        action_bus: &mut ActionBus,
    ) -> (consumed: bool)
        default_ensures
            !consumed,
            final(action_bus)@ == old(action_bus)@,
    {
        false
    }

    /// Where a press of the pointer counts as a press on the scene. A scene
    /// that does not define it has no such zone.
    fn left_click_zone(&self) -> (zone: Option<Rect>)
        default_ensures
            zone is None,
    {
        None
    }

    /// Tells the scene its rectangle on the screen.
    fn pos_changed(&mut self, pos: Rect) {
    }

    /// The kinds of events that the scene wants to be handed. A scene that
    /// does not define it wants none.
    fn subscriptions(&self) -> (kinds: EventKind)
        default_ensures
            kinds.bits == 0,
    {
        EventKind::not_an_event()
    }

    /// The name of the scene. A scene that does not define it is called
    /// "Unknown".
    fn name(&self) -> (name: &str)
        default_ensures
            name@ == "Unknown"@,
    {
        "Unknown"
    }

    /// Whether the scene draws through the immediate-mode toolkit. A scene
    /// that does not define it does not.
    fn is_immediate(&self) -> (immediate: bool)
        default_ensures
            !immediate,
    {
        false
    }
}

/// What a scene declares of itself, as the stack was last told.
#[derive(Clone, Copy, Debug, PartialEq, Eq)]
pub struct Declared {
    /// The kinds of events that the scene wants to be handed.
    pub subscriptions: EventKind,
    /// Where a press of the pointer counts as a press on the scene.
    pub click_zone: Option<Rect>,
    /// Whether the scene keeps every input from the scenes below it.
    pub modal: bool,
    /// Whether the scene draws through the immediate-mode toolkit.
    pub immediate: bool,
}

impl Declared {
    /// What a scene declares that declares nothing.
    pub fn nothing() -> (declared: Declared)
        ensures
            declared == (Declared {
                subscriptions: EventKind { bits: 0 },
                click_zone: None,
                modal: false,
                immediate: false,
            }),
    {
        Declared {
            subscriptions: EventKind::not_an_event(),
            click_zone: None,
            modal: false,
            immediate: false,
        }
    }
}

/// `told` is what `scene` answers to the four questions of the stack: each
/// of its fields is an answer of the scene's own method.
pub open spec fn answers<S: Scene + ?Sized>(scene: &S, told: Declared) -> bool {
    &&& call_ensures(S::subscriptions, (scene,), told.subscriptions)
    &&& call_ensures(S::left_click_zone, (scene,), told.click_zone)
    &&& call_ensures(S::is_modal, (scene,), told.modal)
    &&& call_ensures(S::is_immediate, (scene,), told.immediate)
}

/// Asks a scene of any kind for its declarations.
fn ask<S: Scene + ?Sized>(scene: &S) -> (told: Declared)
    ensures
        answers(scene, told),
{
    Declared {
        subscriptions: scene.subscriptions(),
        click_zone: scene.left_click_zone(),
        modal: scene.is_modal(),
        immediate: scene.is_immediate(),
    }
}

/// Asks a scene for its declarations.
fn declare(scene: &Box<dyn Scene>) -> (told: Declared)
    ensures
        answers::<dyn Scene>(&**scene, told),
{
    ask::<dyn Scene>(&**scene)
}

/// A boxed scene on its way through the bus. The verifier does not look
/// inside: a scene's callbacks take the bus that carries the box.
#[verifier::external_body]
pub struct SceneBox {
    scene: Box<dyn Scene>,
}

impl SceneBox {
    /// Boxes a scene for the bus. The body only moves the scene in.
    #[verifier::external_body]
    pub fn new(scene: Box<dyn Scene>) -> SceneBox {
        SceneBox { scene }
    }

    /// Takes the scene out again. The body only moves the scene out.
    #[verifier::external_body]
    pub fn into_scene(self) -> Box<dyn Scene> {
        self.scene
    }
}

/// The scene at the bottom of every stack. It draws nothing and hears nothing.
pub struct RootScene {}

impl RootScene {
    pub fn new() -> Self {
        Self {  }
    }
}

impl Scene for RootScene {
}

/// What the stack keeps about a scene, as contracts see it.
pub struct NodeState {
    pub id: SceneID,
    pub parent: SceneID,
    /// The scenes pushed with this one as their parent, oldest first.
    pub children: Seq<SceneID>,
    /// The node of the layout tree that stands for the scene, if it has one.
    pub node: Option<NodeId>,
}

/// A scene with what the stack keeps about it.
pub struct ScenePriv {
    id: SceneID,
    taffy_id: Option<NodeId>,
    parent: SceneID,
    children: Vec<SceneID>,
    declared: Declared,
    scene: Box<dyn Scene>,
}

impl View for ScenePriv {
    type V = NodeState;

    closed spec fn view(&self) -> NodeState {
        NodeState {
            id: self.id,
            parent: self.parent,
            children: self.children@,
            node: self.taffy_id,
        }
    }
}

impl ScenePriv {
    /// The kinds of events that the scene wants to be handed.
    pub closed spec fn subscribed(&self) -> EventKind {
        self.declared.subscriptions
    }

    /// Where a press of the pointer counts as a press on the scene.
    pub closed spec fn click_zone(&self) -> Option<Rect> {
        self.declared.click_zone
    }

    /// Whether the scene keeps every input from the scenes below it.
    pub closed spec fn modal(&self) -> bool {
        self.declared.modal
    }

    /// Whether the scene draws through the immediate-mode toolkit.
    pub closed spec fn immediate_mode(&self) -> bool {
        self.declared.immediate
    }

    /// Whether what the stack keeps as the declarations of the scene is what
    /// the scene, as it is, answers.
    pub closed spec fn told(&self) -> bool {
        answers::<dyn Scene>(&*self.scene, self.declared)
    }

    /// Whether the node holds `scene`, as it is.
    pub closed spec fn holds(&self, scene: Box<dyn Scene>) -> bool {
        self.scene == scene
    }

    /// Whether the two hold the same scene, in the same state.
    pub closed spec fn same_scene(&self, other: &ScenePriv) -> bool {
        self.scene == other.scene
    }

    /// A node for a scene that enters the stack: without children and
    /// without a place in the layout, with what the scene declares.
    pub fn new(id: SceneID, parent: SceneID, scene: Box<dyn Scene>) -> (node: ScenePriv)
        ensures
            node@ == (NodeState { id, parent, children: Seq::empty(), node: None }),
            node.told(),
            node.holds(scene),
    {
        let nothing = Declared::nothing();
        let mut node = Self {
            id,
            taffy_id: None,
            parent,
            children: Vec::new(),
            declared: nothing,
            scene,
        };
        let declared = declare(&node.scene);
        node.declared = declared;
        node
    }

    pub fn get_id(&self) -> (id: SceneID)
        ensures
            id == self@.id,
    {
        self.id
    }

    pub fn get_parent_id(&self) -> (parent: SceneID)
        ensures
            parent == self@.parent,
    {
        self.parent
    }

    pub fn get_nodeid(&self) -> (node: Option<NodeId>)
        ensures
            node == self@.node,
    {
        self.taffy_id
    }
}

/// A stack of scenes, as contracts see it: the layers from the bottom up,
/// each from its oldest scene to its newest.
pub struct StackState {
    pub layers: Seq<Seq<NodeState>>,
    /// The identifier that the next pushed scene will bear.
    pub next_scene_id: SceneID,
}

impl StackState {
    /// Whether `(l, i)` is a place in the stack.
    pub open spec fn has(self, l: int, i: int) -> bool {
        0 <= l < self.layers.len() && 0 <= i < self.layers[l].len()
    }

    /// Whether a scene with the identifier is in the stack.
    pub open spec fn live(self, id: SceneID) -> bool {
        exists|l: int, i: int| self.has(l, i) && (#[trigger] self.layers[l][i]).id == id
    }

    /// A place that holds the scene with the identifier.
    pub open spec fn place_of(self, id: SceneID) -> (int, int) {
        choose|p: (int, int)| self.has(p.0, p.1) && (#[trigger] self.layers[p.0][p.1]).id == id
    }

    /// What the stack keeps about the scene with the identifier.
    pub open spec fn node_of(self, id: SceneID) -> NodeState {
        self.layers[self.place_of(id).0][self.place_of(id).1]
    }

    /// What the stack keeps about `n` once `child` was pushed with `parent`
    /// as its parent: the child is the youngest of the parent's children.
    pub open spec fn adopt(n: NodeState, parent: SceneID, child: SceneID) -> NodeState {
        if n.id == parent {
            NodeState { children: n.children.push(child), ..n }
        } else {
            n
        }
    }

    /// The stack after a push on `layer` that names `parent`: the new scene
    /// bears the next identifier and is the newest of its layer, and the
    /// parent, if it is in the stack, has it as a child.
    pub open spec fn pushed(self, layer: int, parent: SceneID) -> StackState {
        let fresh = NodeState {
            id: self.next_scene_id,
            parent,
            children: Seq::empty(),
            node: None,
        };
        let adopted = Seq::new(
            self.layers.len(),
            |l: int|
                Seq::new(
                    self.layers[l].len(),
                    |i: int| Self::adopt(self.layers[l][i], parent, self.next_scene_id),
                ),
        );
        StackState {
            layers: adopted.update(layer, adopted[layer].push(fresh)),
            next_scene_id: (self.next_scene_id + 1) as SceneID,
        }
    }

    /// The stack of a new engine: the engine's root, with the root node of
    /// the layout, and the root scene of the application as its only child
    /// in name; both on the bottom layer, and nothing above.
    pub open spec fn initial(root_node: NodeId) -> StackState {
        StackState {
            layers: Seq::new(
                MAX_LAY as nat,
                |l: int|
                    if l == 0 {
                        seq![
                            NodeState {
                                id: 0,
                                parent: u64::MAX,
                                children: Seq::empty(),
                                node: Some(root_node),
                            },
                            NodeState { id: 1, parent: 0, children: Seq::empty(), node: None },
                        ]
                    } else {
                        Seq::empty()
                    },
            ),
            next_scene_id: 2,
        }
    }

    /// The node under which the scene `id` gets its place in the layout: the
    /// node of its parent, where the parent is in the stack and has a node,
    /// and is the engine's root or has the scene among its children.
    pub open spec fn anchor_of(self, id: SceneID) -> Option<NodeId> {
        let parent = self.node_of(id).parent;
        if self.live(parent) && (parent == 0 || self.node_of(parent).children.contains(id)) {
            self.node_of(parent).node
        } else {
            None
        }
    }

    /// The nearest scene with a layout node, from the scene `id` up by the
    /// parents, within `fuel` steps: the scene and its node.
    pub open spec fn anchor_from(self, id: SceneID, fuel: nat) -> Option<(SceneID, NodeId)>
        decreases fuel,
    {
        if !self.live(id) {
            None
        } else if self.node_of(id).node is Some {
            Some((id, self.node_of(id).node->Some_0))
        } else if fuel == 0 {
            None
        } else {
            self.anchor_from(self.node_of(id).parent, (fuel - 1) as nat)
        }
    }

    /// The nearest scene with a layout node, from the scene `id` up by the
    /// parents: the scene and its node. None where the way up leaves the
    /// stack, or turns in a circle, before it comes to one.
    pub open spec fn anchor(self, id: SceneID) -> Option<(SceneID, NodeId)> {
        self.anchor_from(id, self.next_scene_id as nat)
    }

    /// The stack with the layout node of the scene `id` set to `node`.
    pub open spec fn with_node(self, id: SceneID, node: NodeId) -> StackState {
        StackState {
            layers: Seq::new(
                self.layers.len(),
                |l: int|
                    Seq::new(
                        self.layers[l].len(),
                        |i: int|
                            if self.layers[l][i].id == id {
                                NodeState { node: Some(node), ..self.layers[l][i] }
                            } else {
                                self.layers[l][i]
                            },
                    ),
            ),
            ..self
        }
    }

    /// The children of the scene with the identifier; none where no such
    /// scene is in the stack.
    pub open spec fn children_of(self, id: SceneID) -> Seq<SceneID> {
        if self.live(id) {
            self.node_of(id).children
        } else {
            Seq::empty()
        }
    }

    /// How far the identifier is from the next one.
    pub open spec fn gap(self, id: SceneID) -> nat {
        if id < self.next_scene_id {
            (self.next_scene_id - id) as nat
        } else {
            0
        }
    }

    /// The scene `id` with all that descends from it by the lists of
    /// children: its children, their children, and so on.
    pub open spec fn descendants(self, id: SceneID) -> Set<SceneID>
        decreases self.gap(id), self.children_of(id).len() + 1,
    {
        self.descendants_among(id, self.children_of(id)).insert(id)
    }

    /// What descends from the scenes `kids`, children of `id`, themselves
    /// among them.
    pub open spec fn descendants_among(self, id: SceneID, kids: Seq<SceneID>) -> Set<SceneID>
        decreases self.gap(id), kids.len(),
    {
        if kids.len() == 0 {
            Set::empty()
        } else {
            let rest = self.descendants_among(id, kids.drop_last());
            if id < kids.last() < self.next_scene_id {
                rest.union(self.descendants(kids.last()))
            } else {
                rest
            }
        }
    }

    /// The stack without the scenes whose identifiers are in `doomed`. The
    /// scenes that stay keep their layer and their order.
    pub open spec fn without(self, doomed: Set<SceneID>) -> StackState {
        StackState {
            layers: Seq::new(self.layers.len(), |l: int| kept_states(self.layers[l], doomed)),
            ..self
        }
    }

    /// Whether `node` is the layout node of a scene that bears an identifier
    /// of `doomed`.
    pub open spec fn is_node_of_any(self, doomed: Set<SceneID>, node: NodeId) -> bool {
        exists|l: int, i: int|
            self.has(l, i) && doomed.contains((#[trigger] self.layers[l][i]).id)
                && self.layers[l][i].node == Some(node)
    }

    /// The layout nodes of the scenes that bear an identifier of `doomed`.
    pub open spec fn nodes_of(self, doomed: Set<SceneID>) -> Set<u64> {
        Set::new(|raw: u64| self.is_node_of_any(doomed, NodeId { raw }))
    }

    /// Whether a scene of the stack bears an identifier of `doomed`.
    pub open spec fn holds_any(self, doomed: Set<SceneID>) -> bool {
        exists|l: int, i: int| self.has(l, i) && doomed.contains((#[trigger] self.layers[l][i]).id)
    }

    /// The stack is well formed: it has its layers; the engine's root is the
    /// oldest scene of the bottom layer and has a layout node; no identifier
    /// occurs twice, none has reached the next one; each child is younger
    /// than its parent; and a child that is in the stack names as its parent
    /// the scene that has it as a child.
    pub open spec fn wf(self) -> bool {
        &&& self.layers.len() == MAX_LAY
        &&& self.has(0, 0)
        &&& self.layers[0][0].id == 0
        &&& self.layers[0][0].node is Some
        &&& forall|l: int, i: int|
            self.has(l, i) ==> (#[trigger] self.layers[l][i]).id < self.next_scene_id
        &&& forall|l: int, i: int, m: int, j: int|
            self.has(l, i) && self.has(m, j) && (#[trigger] self.layers[l][i]).id == (
            #[trigger] self.layers[m][j]).id ==> l == m && i == j
        &&& forall|l: int, i: int, k: int|
            self.has(l, i) && 0 <= k < self.layers[l][i].children.len() ==> self.layers[l][i].id
                < (#[trigger] self.layers[l][i].children[k]) < self.next_scene_id
        &&& forall|l: int, i: int, k: int, m: int, j: int|
            self.has(l, i) && 0 <= k < self.layers[l][i].children.len() && self.has(m, j) && (
            #[trigger] self.layers[m][j]).id == (#[trigger] self.layers[l][i].children[k])
                ==> self.layers[m][j].parent == self.layers[l][i].id
    }
}

/// The scenes of a layer whose identifiers are not in `doomed`, in order.
pub open spec fn kept_states(layer: Seq<NodeState>, doomed: Set<SceneID>) -> Seq<NodeState>
    decreases layer.len(),
{
    if layer.len() == 0 {
        Seq::empty()
    } else if doomed.contains(layer.last().id) {
        kept_states(layer.drop_last(), doomed)
    } else {
        kept_states(layer.drop_last(), doomed).push(layer.last())
    }
}

/// The scenes of a layer whose identifiers are not in `doomed`, in order.
pub open spec fn kept_nodes(layer: Seq<ScenePriv>, doomed: Set<SceneID>) -> Seq<ScenePriv>
    decreases layer.len(),
{
    if layer.len() == 0 {
        Seq::empty()
    } else if doomed.contains(layer.last()@.id) {
        kept_nodes(layer.drop_last(), doomed)
    } else {
        kept_nodes(layer.drop_last(), doomed).push(layer.last())
    }
}

/// What the dispatch does with a scene that it comes to.
#[derive(Clone, Copy, Debug, PartialEq, Eq, Structural)]
pub enum Gate {
    /// The scene is passed over; the dispatch goes on below it.
    Skip,
    /// The scene is passed over, and nothing below it is handed the event.
    Block,
    /// The scene is handed the event.
    Deliver,
}

/// What the dispatch does with a scene, from what the scene declares.
///
/// With a `mask`, a scene whose subscriptions share no kind with it is
/// skipped. A press of the pointer is for the scene whose clickable zone
/// holds the point; a scene without a zone, or with a zone that the point
/// misses, blocks the dispatch when it is modal and is skipped when it is
/// not. Anything else is delivered.
pub open spec fn gate_of(
    subscribed: EventKind,
    zone: Option<Rect>,
    modal: bool,
    press: Option<(i32, i32)>,
    mask: Option<EventKind>,
) -> Gate {
    if mask is Some && !subscribed.meets(mask->Some_0) {
        Gate::Skip
    } else {
        match press {
            Some((x, y)) => {
                if zone is Some && zone->Some_0.contains(x as int, y as int) {
                    Gate::Deliver
                } else if modal {
                    Gate::Block
                } else {
                    Gate::Skip
                }
            },
            None => Gate::Deliver,
        }
    }
}

/// What the dispatch does with a scene, from what the scene declares.
pub fn gate(declared: &Declared, press: Option<(i32, i32)>, mask: Option<EventKind>) -> (verdict:
    Gate)
    ensures
        verdict == gate_of(
            declared.subscriptions,
            declared.click_zone,
            declared.modal,
            press,
            mask,
        ),
{
    let subscribed = match mask {
        Some(kinds) => declared.subscriptions.intersects(kinds),
        None => true,
    };
    if !subscribed {
        return Gate::Skip;
    }
    match press {
        Some((x, y)) => {
            let clickable = match declared.click_zone {
                Some(rect) => is_point_in_rect(&rect, x, y),
                None => false,
            };
            if clickable {
                Gate::Deliver
            } else if declared.modal {
                Gate::Block
            } else {
                Gate::Skip
            }
        },
        None => Gate::Deliver,
    }
}

/// How the dispatch goes on after the scene `id` was handed the event: it
/// ends where the scene consumed the event, and where the scene, as it is
/// afterwards, is modal; else it goes on to the next scene.
pub open spec fn stop_after(id: SceneID, consumed: bool, modal: bool) -> Option<DispatchStop> {
    if consumed {
        Some(DispatchStop::Consumed(id))
    } else if modal {
        Some(DispatchStop::Barrier(id))
    } else {
        None
    }
}

/// How the dispatch goes on after the scene `id` was handed the event and
/// answered `consumed`, and declares afterwards whether it is `modal`.
pub fn after_delivery(id: SceneID, consumed: bool, modal: bool) -> (stop: Option<DispatchStop>)
    ensures
        stop == stop_after(id, consumed, modal),
{
    if consumed {
        Some(DispatchStop::Consumed(id))
    } else if modal {
        Some(DispatchStop::Barrier(id))
    } else {
        None
    }
}

/// Whether place `a` is dispatched to before place `b`: a higher layer comes
/// first, and within a layer the newer scene.
pub open spec fn above(a: (int, int), b: (int, int)) -> bool {
    a.0 > b.0 || (a.0 == b.0 && a.1 > b.1)
}

/// How a dispatch ended.
#[derive(Clone, Copy, Debug, PartialEq, Eq, Structural)]
pub enum DispatchStop {
    /// Every scene was come to; none stopped the dispatch.
    Exhausted,
    /// The scene was handed the event and consumed it.
    Consumed(SceneID),
    /// The scene was handed the event, did not consume it, and is modal.
    Barrier(SceneID),
    /// The scene is modal and the press missed it: it was handed nothing.
    Blocked(SceneID),
}

/// The identifiers of the scenes of a layer, oldest first.
pub open spec fn ids_of(layer: Seq<NodeState>) -> Seq<SceneID> {
    Seq::new(layer.len(), |i: int| layer[i].id)
}

/// The identifiers of the scenes of the layers below `upto`, from the bottom
/// layer up, each layer from its oldest scene to its newest.
pub open spec fn ids_bottom_up(layers: Seq<Seq<NodeState>>, upto: int) -> Seq<SceneID>
    decreases upto,
{
    if upto <= 0 {
        Seq::empty()
    } else {
        ids_bottom_up(layers, upto - 1) + ids_of(layers[upto - 1])
    }
}

/// A scene that has drawn itself.
#[derive(Clone, Copy, Debug, PartialEq, Eq)]
pub struct Drawn {
    pub id: SceneID,
    /// Whether the scene then drew through the immediate-mode toolkit.
    pub immediate: bool,
    /// The rectangle that the toolkit used, as the scene told it; none for a
    /// scene that is not immediate.
    pub used: Option<Rect>,
}

/// The scenes of a layer in the order of their drawing, oldest first, each
/// with whether it is immediate.
pub open spec fn plan_in(layer: Seq<ScenePriv>) -> Seq<(SceneID, bool)> {
    Seq::new(layer.len(), |i: int| (layer[i]@.id, layer[i].immediate_mode()))
}

/// The scenes of a layer that have a layout node, oldest first, each with
/// the rectangle of its node on the screen.
pub open spec fn rects_in(layer: Seq<NodeState>, layout: LayoutState) -> Seq<(SceneID, Rect)>
    decreases layer.len(),
{
    if layer.len() == 0 {
        Seq::empty()
    } else if layer.last().node is Some {
        rects_in(layer.drop_last(), layout).push(
            (layer.last().id, layout.abs_rect(layer.last().node->Some_0.raw)),
        )
    } else {
        rects_in(layer.drop_last(), layout)
    }
}

/// The scenes with a layout node of the layers below `upto`, from the bottom
/// layer up, each with the rectangle of its node on the screen.
pub open spec fn rects_bottom_up(layers: Seq<Seq<NodeState>>, layout: LayoutState, upto: int) -> Seq<
    (SceneID, Rect),
>
    decreases upto,
{
    if upto <= 0 {
        Seq::empty()
    } else {
        rects_bottom_up(layers, layout, upto - 1) + rects_in(layers[upto - 1], layout)
    }
}

/// The layout nodes of the scenes of a layer that bear an identifier of
/// `doomed`, oldest first.
pub open spec fn nodes_in(layer: Seq<NodeState>, doomed: Set<SceneID>) -> Seq<NodeId>
    decreases layer.len(),
{
    if layer.len() == 0 {
        Seq::empty()
    } else if doomed.contains(layer.last().id) && layer.last().node is Some {
        nodes_in(layer.drop_last(), doomed).push(layer.last().node->Some_0)
    } else {
        nodes_in(layer.drop_last(), doomed)
    }
}

/// The layout nodes of the scenes of the layers below `upto` that bear an
/// identifier of `doomed`, from the bottom layer up.
pub open spec fn nodes_bottom_up(layers: Seq<Seq<NodeState>>, doomed: Set<SceneID>, upto: int) -> Seq<
    NodeId,
>
    decreases upto,
{
    if upto <= 0 {
        Seq::empty()
    } else {
        nodes_bottom_up(layers, doomed, upto - 1) + nodes_in(layers[upto - 1], doomed)
    }
}

/// The scenes of an interface, in layers. The stack owns every scene from
/// the push that brings it in to the removal that takes it out.
pub struct SceneStack {
    scenes_priv: Vec<Vec<ScenePriv>>,
    next_scene_id: SceneID,
}

impl View for SceneStack {
    type V = StackState;

    closed spec fn view(&self) -> StackState {
        StackState {
            layers: Seq::new(
                self.scenes_priv@.len(),
                |l: int| Seq::new(self.scenes_priv@[l]@.len(), |i: int| self.scenes_priv@[l]@[i]@),
            ),
            next_scene_id: self.next_scene_id,
        }
    }
}

impl SceneStack {
    /// Every scene of `self` stands at its place in `after` too, in the state
    /// in which it is in `self`.
    pub closed spec fn same_scenes(&self, after: &SceneStack) -> bool {
        forall|l: int, i: int|
            0 <= l < self.scenes_priv@.len() && 0 <= i < self.scenes_priv@[l]@.len() ==> {
                &&& l < after.scenes_priv@.len()
                &&& i < after.scenes_priv@[l]@.len()
                &&& (#[trigger] after.scenes_priv@[l]@[i]).scene == self.scenes_priv@[l]@[i].scene
            }
    }

    /// The scenes of the layers below `upto` in the order of their drawing,
    /// from the bottom layer up, each with whether it is immediate.
    pub open spec fn draw_plan(&self, upto: int) -> Seq<(SceneID, bool)>
        decreases upto,
    {
        if upto <= 0 {
            Seq::empty()
        } else {
            self.draw_plan(upto - 1) + plan_in(self.nodes(upto - 1))
        }
    }

    /// The scenes of a layer, oldest first, each with what the stack keeps
    /// about it.
    pub closed spec fn nodes(&self, l: int) -> Seq<ScenePriv> {
        self.scenes_priv@[l]@
    }

    /// A stack that holds the engine's root, with the root node of the layout
    /// tree, and the root scene of the application.
    pub fn new(user_root_scene: Box<dyn Scene>, engine_root_node_id: NodeId) -> (stack: SceneStack)
        ensures
            stack@.wf(),
            stack@ == StackState::initial(engine_root_node_id),
            stack.nodes(0)[1].told(),
            stack.nodes(0)[1].holds(user_root_scene),
    {
        let mut scenes_priv: Vec<Vec<ScenePriv>> = Vec::new();
        let mut l: usize = 0;
        while l < MAX_LAY
            invariant
                l <= MAX_LAY,
                scenes_priv@.len() == l,
                forall|k: int| 0 <= k < l ==> (#[trigger] scenes_priv@[k])@.len() == 0,
            decreases MAX_LAY - l,
        {
            scenes_priv.push(Vec::new());
            l += 1;
        }
        let mut engine_root = ScenePriv::new(0, u64::MAX, Box::new(RootScene::new()));
        engine_root.taffy_id = Some(engine_root_node_id);
        scenes_priv[0].push(engine_root);
        let mut user_root = ScenePriv {
            id: 1,
            taffy_id: None,
            parent: 0,
            children: Vec::new(),
            declared: Declared::nothing(),
            scene: user_root_scene,
        };
        let declared = declare(&user_root.scene);
        user_root.declared = declared;
        assert(user_root.holds(user_root_scene));
        let ghost made = user_root;
        scenes_priv[0].push(user_root);
        let stack = Self { scenes_priv, next_scene_id: 2 };
        proof {
            let want = StackState::initial(engine_root_node_id);
            assert forall|l: int| 0 <= l < MAX_LAY implies #[trigger] stack@.layers[l]
                =~= want.layers[l] by {}
            assert(stack@.layers =~= want.layers);
        }
        stack
    }

    /// The identifier that the next pushed scene will bear.
    pub fn next_scene_id(&self) -> (id: SceneID)
        ensures
            id == self@.next_scene_id,
    {
        self.next_scene_id
    }

    /// Where the scene with the identifier stands: the layer and the place in
    /// it. The layers are searched from the bottom up.
    pub fn find(&self, id: SceneID) -> (place: Option<(usize, usize)>)
        ensures
            match place {
                Some((l, i)) => self@.has(l as int, i as int) && self@.layers[l as int][i as int].id
                    == id,
                None => !self@.live(id),
            },
    {
        let mut l: usize = 0;
        while l < self.scenes_priv.len()
            invariant
                l <= self.scenes_priv@.len(),
                forall|m: int, j: int|
                    0 <= m < l && self@.has(m, j) ==> (#[trigger] self@.layers[m][j]).id != id,
            decreases self.scenes_priv@.len() - l,
        {
            let layer = &self.scenes_priv[l];
            let mut i: usize = 0;
            while i < layer.len()
                invariant
                    l < self.scenes_priv@.len(),
                    layer == self.scenes_priv@[l as int],
                    i <= layer@.len(),
                    forall|j: int| 0 <= j < i ==> (#[trigger] self@.layers[l as int][j]).id != id,
                decreases layer@.len() - i,
            {
                if layer[i].id == id {
                    return Some((l, i));
                }
                i += 1;
            }
            l += 1;
        }
        None
    }

    /// The scene with the identifier, if it is in the stack.
    pub fn get_scene(&self, id: SceneID) -> (found: Option<&ScenePriv>)
        ensures
            match found {
                Some(node) => node@.id == id && exists|l: int, i: int|
                    self@.has(l, i) && #[trigger] self@.layers[l][i] == node@,
                None => !self@.live(id),
            },
    {
        match self.find(id) {
            Some((l, i)) => {
                let node = &self.scenes_priv[l][i];
                assert(self@.layers[l as int][i as int] == node@);
                Some(node)
            },
            None => None,
        }
    }

    /// Brings a scene into the stack, on top of `layer`, under the next
    /// identifier. Where `parent` is in the stack the scene becomes its
    /// child; where it is not, the scene stands alone: no removal of another
    /// scene will take it along.
    pub fn push(&mut self, layer: usize, scene: Box<dyn Scene>, parent: SceneID)
        requires
            old(self)@.wf(),
            layer < MAX_LAY,
            old(self)@.next_scene_id < u64::MAX,
        ensures
            final(self)@.wf(),
            final(self)@ == old(self)@.pushed(layer as int, parent),
            old(self).same_scenes(final(self)),
            final(self).nodes(layer as int).last().told(),
            final(self).nodes(layer as int).last().holds(scene),
    {
        let new_scene_id = self.next_scene_id;
        match self.find(parent) {
            Some((pl, pi)) => {
                self.scenes_priv[pl][pi].children.push(new_scene_id);
            },
            None => {},
        }
        proof {
            assert forall|l: int, i: int| old(self)@.has(l, i) implies #[trigger] self@.layers[l][i]
                == StackState::adopt(old(self)@.layers[l][i], parent, new_scene_id) by {
                if old(self)@.layers[l][i].id == parent {
                    assert(old(self)@.live(parent));
                }
            }
        }
        // The node is made here, where the scene is at hand: what is known
        // of a boxed scene does not pass through a call.
        let mut node = ScenePriv {
            id: new_scene_id,
            taffy_id: None,
            parent,
            children: Vec::new(),
            declared: Declared::nothing(),
            scene,
        };
        let declared = declare(&node.scene);
        node.declared = declared;
        assert(node.holds(scene));
        let ghost made = node;
        self.scenes_priv[layer].push(node);
        assert(self.nodes(layer as int).last() == made);
        self.next_scene_id += 1;
        proof {
            let want = old(self)@.pushed(layer as int, parent);
            assert(self@.layers.len() == want.layers.len());
            assert forall|l: int| 0 <= l < want.layers.len() implies #[trigger] self@.layers[l]
                =~= want.layers[l] by {}
            assert(self@.layers =~= want.layers);
        }
    }

    /// Adds to `descendants` the scene `scene_id` and all that descends from
    /// it by the lists of children.
    fn collect_descendants(&self, scene_id: SceneID, descendants: &mut HashSet<SceneID>)
        requires
            self@.wf(),
        ensures
            final(descendants)@ == old(descendants)@.union(self@.descendants(scene_id)),
        decreases self@.gap(scene_id),
    {
        broadcast use vstd::std_specs::hash::group_hash_axioms;

        descendants.insert(scene_id);
        match self.find(scene_id) {
            Some((l, i)) => {
                proof {
                    lemma_node_of(self@, l as int, i as int);
                }
                let node = &self.scenes_priv[l][i];
                let ghost kids = self@.children_of(scene_id);
                assert(kids == node.children@);
                let mut k: usize = 0;
                while k < node.children.len()
                    invariant
                        self@.wf(),
                        self@.has(l as int, i as int),
                        self@.layers[l as int][i as int].id == scene_id,
                        node == self.scenes_priv@[l as int]@[i as int],
                        kids == node.children@,
                        k <= kids.len(),
                        descendants@ == old(descendants)@.insert(scene_id).union(
                            self@.descendants_among(scene_id, kids.take(k as int)),
                        ),
                    decreases kids.len() - k,
                {
                    let kid = node.children[k];
                    proof {
                        assert(kid == self@.layers[l as int][i as int].children[k as int]);
                        assert(kids.take(k + 1).drop_last() =~= kids.take(k as int));
                        assert(kids.take(k + 1).last() == kid);
                    }
                    self.collect_descendants(kid, descendants);
                    k += 1;
                    assert(descendants@ =~= old(descendants)@.insert(scene_id).union(
                        self@.descendants_among(scene_id, kids.take(k as int)),
                    ));
                }
                proof {
                    assert(kids.take(k as int) =~= kids);
                    assert(descendants@ =~= old(descendants)@.union(
                        self@.descendants(scene_id),
                    ));
                }
            },
            None => {
                proof {
                    assert(self@.children_of(scene_id) =~= Seq::empty());
                    assert(descendants@ =~= old(descendants)@.union(
                        self@.descendants(scene_id),
                    ));
                }
            },
        }
    }

    /// The layout nodes of the scene with the identifier and of all that
    /// descends from it: the nodes that leave the layout when the scene is
    /// removed, from the bottom layer up and in each layer from the oldest
    /// scene to the newest.
    pub fn doomed_nodes(&self, id: SceneID) -> (nodes: Vec<NodeId>)
        requires
            self@.wf(),
        ensures
            nodes@ == nodes_bottom_up(self@.layers, self@.descendants(id), MAX_LAY as int),
            forall|k: int|
                0 <= k < nodes@.len() ==> self@.is_node_of_any(
                    self@.descendants(id),
                    #[trigger] nodes@[k],
                ),
            forall|node: NodeId|
                self@.is_node_of_any(self@.descendants(id), node) ==> nodes@.contains(node),
    {
        broadcast use vstd::std_specs::hash::group_hash_axioms;

        let mut doomed_ids: HashSet<SceneID> = HashSet::new();
        self.collect_descendants(id, &mut doomed_ids);
        let ghost doomed = self@.descendants(id);
        assert(doomed_ids@ =~= doomed);
        let mut nodes: Vec<NodeId> = Vec::new();
        let mut l: usize = 0;
        while l < self.scenes_priv.len()
            invariant
                self@.wf(),
                doomed_ids@ == doomed,
                l <= MAX_LAY,
                nodes@ == nodes_bottom_up(self@.layers, doomed, l as int),
                forall|k: int|
                    0 <= k < nodes@.len() ==> self@.is_node_of_any(doomed, #[trigger] nodes@[k]),
                forall|m: int, j: int|
                    self@.has(m, j) && m < l && doomed.contains((#[trigger] self@.layers[m][j]).id)
                        && self@.layers[m][j].node is Some ==> nodes@.contains(
                        self@.layers[m][j].node->Some_0,
                    ),
            decreases MAX_LAY - l,
        {
            let ghost layer = self@.layers[l as int];
            let mut i: usize = 0;
            while i < self.scenes_priv[l].len()
                invariant
                    self@.wf(),
                    doomed_ids@ == doomed,
                    l < MAX_LAY,
                    i <= self@.layers[l as int].len(),
                    layer == self@.layers[l as int],
                    nodes@ == nodes_bottom_up(self@.layers, doomed, l as int) + nodes_in(
                        layer.take(i as int),
                        doomed,
                    ),
                    forall|k: int|
                        0 <= k < nodes@.len() ==> self@.is_node_of_any(doomed, #[trigger] nodes@[k]),
                    forall|m: int, j: int|
                        self@.has(m, j) && (m < l || (m == l && j < i)) && doomed.contains(
                            (#[trigger] self@.layers[m][j]).id,
                        ) && self@.layers[m][j].node is Some ==> nodes@.contains(
                            self@.layers[m][j].node->Some_0,
                        ),
                decreases self@.layers[l as int].len() - i,
            {
                let ghost before = nodes@;
                let node = &self.scenes_priv[l][i];
                assert(node@ == self@.layers[l as int][i as int]);
                proof {
                    assert(layer.take(i + 1).drop_last() =~= layer.take(i as int));
                    assert(layer.take(i + 1).last() == layer[i as int]);
                }
                if doomed_ids.contains(&node.id) {
                    if let Some(handle) = node.taffy_id {
                        nodes.push(handle);
                        proof {
                            assert(self@.has(l as int, i as int));
                            assert(self@.is_node_of_any(doomed, handle));
                            assert(nodes@[before.len() as int] == handle);
                        }
                    }
                }
                proof {
                    assert(nodes@ =~= nodes_bottom_up(self@.layers, doomed, l as int) + nodes_in(
                        layer.take(i + 1),
                        doomed,
                    ));
                    assert forall|m: int, j: int|
                        self@.has(m, j) && (m < l || (m == l && j < i + 1)) && doomed.contains(
                            (#[trigger] self@.layers[m][j]).id,
                        ) && self@.layers[m][j].node is Some implies nodes@.contains(
                        self@.layers[m][j].node->Some_0,
                    ) by {
                        let h = self@.layers[m][j].node->Some_0;
                        if m == l && j == i {
                            assert(nodes@[before.len() as int] == h);
                        } else {
                            assert(before.contains(h));
                            let k = choose|k: int| 0 <= k < before.len() && before[k] == h;
                            assert(nodes@[k] == h);
                        }
                    }
                }
                i += 1;
            }
            proof {
                assert(layer.take(i as int) =~= layer);
            }
            l += 1;
        }
        proof {
            assert forall|node: NodeId| self@.is_node_of_any(doomed, node) implies nodes@.contains(
                node,
            ) by {
                let (m, j) = choose|m: int, j: int|
                    self@.has(m, j) && doomed.contains((#[trigger] self@.layers[m][j]).id)
                        && self@.layers[m][j].node == Some(node);
                assert(self@.layers[m][j].node->Some_0 == node);
            }
        }
        nodes
    }

    /// Takes the scene with the identifier out of the stack, and with it all
    /// that descends from it. Every other scene stays where it is. The
    /// engine's root cannot be removed. Returns whether a scene left.
    pub fn remove_scene(&mut self, id: SceneID) -> (removed: bool)
        requires
            old(self)@.wf(),
        ensures
            final(self)@.wf(),
            id == 0 ==> !removed && final(self)@ == old(self)@ && forall|l: int|
                0 <= l < MAX_LAY ==> #[trigger] final(self).nodes(l) == old(self).nodes(l),
            id != 0 ==> {
                let doomed = old(self)@.descendants(id);
                &&& removed == old(self)@.holds_any(doomed)
                &&& final(self)@ == old(self)@.without(doomed)
                &&& forall|l: int|
                    0 <= l < MAX_LAY ==> #[trigger] final(self).nodes(l) == kept_nodes(
                        old(self).nodes(l),
                        doomed,
                    )
            },
    {
        broadcast use vstd::std_specs::hash::group_hash_axioms;

        if id == 0 {
            return false;
        }
        let mut ids_to_remove: HashSet<SceneID> = HashSet::new();
        self.collect_descendants(id, &mut ids_to_remove);
        let ghost doomed = self@.descendants(id);
        assert(ids_to_remove@ =~= doomed);
        let mut found = false;
        let mut l: usize = 0;
        while l < self.scenes_priv.len()
            invariant
                old(self)@.wf(),
                ids_to_remove@ == doomed,
                self.next_scene_id == old(self).next_scene_id,
                self.scenes_priv@.len() == MAX_LAY,
                l <= MAX_LAY,
                forall|m: int| 0 <= m < l ==> #[trigger] self.nodes(m) == kept_nodes(old(self).nodes(m), doomed),
                forall|m: int| l <= m < MAX_LAY ==> #[trigger] self.nodes(m) == old(self).nodes(m),
                found == exists|m: int, j: int|
                    0 <= m < l && old(self)@.has(m, j) && doomed.contains(
                        (#[trigger] old(self)@.layers[m][j]).id,
                    ),
            decreases MAX_LAY - l,
        {
            let ghost before = old(self).nodes(l as int);
            let ghost found_below = found;
            let mut i: usize = 0;
            let ghost mut j: int = 0;
            while i < self.scenes_priv[l].len()
                invariant
                    old(self)@.wf(),
                    ids_to_remove@ == doomed,
                    self.next_scene_id == old(self).next_scene_id,
                    self.scenes_priv@.len() == MAX_LAY,
                    l < MAX_LAY,
                    before == old(self).nodes(l as int),
                    forall|m: int| 0 <= m < l ==> #[trigger] self.nodes(m) == kept_nodes(old(self).nodes(m), doomed),
                    forall|m: int| l < m < MAX_LAY ==> #[trigger] self.nodes(m) == old(self).nodes(m),
                    0 <= j <= before.len(),
                    i == kept_nodes(before.take(j), doomed).len(),
                    self.nodes(l as int) == kept_nodes(before.take(j), doomed) + before.skip(j),
                    found == (found_below || exists|k: int|
                        0 <= k < j && doomed.contains((#[trigger] before[k])@.id)),
                decreases before.len() - j,
            {
                proof {
                    assert(self.nodes(l as int)[i as int] == before[j]);
                    assert(before.take(j + 1).drop_last() =~= before.take(j));
                    assert(before.take(j + 1).last() == before[j]);
                }
                let ghost prev = *self;
                if ids_to_remove.contains(&self.scenes_priv[l][i].id) {
                    found = true;
                    let _gone = self.scenes_priv[l].remove(i);
                    proof {
                        assert forall|m: int| 0 <= m < MAX_LAY && m != l implies #[trigger] self.nodes(m)
                            == prev.nodes(m) by {}
                        assert(self.nodes(l as int) =~= kept_nodes(before.take(j + 1), doomed)
                            + before.skip(j + 1));
                        j = j + 1;
                    }
                } else {
                    i += 1;
                    proof {
                        assert(self.nodes(l as int) =~= kept_nodes(before.take(j + 1), doomed)
                            + before.skip(j + 1));
                        j = j + 1;
                    }
                }
            }
            proof {
                assert(j == before.len()) by {
                    assert(self.nodes(l as int).len() == i + before.skip(j).len());
                }
                assert(before.take(j) =~= before);
                assert(self.nodes(l as int) =~= kept_nodes(before, doomed));
                assert forall|k: int| 0 <= k < before.len() implies (#[trigger] before[k])@
                    == old(self)@.layers[l as int][k] by {}
            }
            l += 1;
        }
        proof {
            lemma_removal(*old(self), *self, id);
        }
        found
    }

    /// What a dispatch of `press` under `mask` does with the scene at a place.
    pub open spec fn verdict(
        &self,
        l: int,
        i: int,
        press: Option<(i32, i32)>,
        mask: Option<EventKind>,
    ) -> Gate {
        gate_of(
            self.nodes(l)[i].subscribed(),
            self.nodes(l)[i].click_zone(),
            self.nodes(l)[i].modal(),
            press,
            mask,
        )
    }

    /// The dispatch went past the scene at a place of `self`, the stack
    /// before it, and left it as it is in `after`: the scene did not block;
    /// where it was skipped it is unchanged; where it was handed the event it
    /// was asked anew for its declarations and is not modal now.
    pub open spec fn passed(
        &self,
        after: &SceneStack,
        l: int,
        i: int,
        press: Option<(i32, i32)>,
        mask: Option<EventKind>,
    ) -> bool {
        match self.verdict(l, i, press, mask) {
            Gate::Block => false,
            Gate::Skip => after.nodes(l)[i] == self.nodes(l)[i],
            Gate::Deliver => after.nodes(l)[i].told() && !after.nodes(l)[i].modal(),
        }
    }

    /// The dispatch ended at the scene at a place of `self`, the stack before
    /// it, in the way that `stop` tells.
    pub open spec fn stopped(
        &self,
        after: &SceneStack,
        l: int,
        i: int,
        press: Option<(i32, i32)>,
        mask: Option<EventKind>,
        stop: DispatchStop,
    ) -> bool {
        match stop {
            DispatchStop::Exhausted => false,
            DispatchStop::Consumed(id) => self@.layers[l][i].id == id && self.verdict(
                l,
                i,
                press,
                mask,
            ) == Gate::Deliver && after.nodes(l)[i].told(),
            DispatchStop::Barrier(id) => self@.layers[l][i].id == id && self.verdict(
                l,
                i,
                press,
                mask,
            ) == Gate::Deliver && after.nodes(l)[i].told() && after.nodes(l)[i].modal(),
            DispatchStop::Blocked(id) => self@.layers[l][i].id == id && self.verdict(
                l,
                i,
                press,
                mask,
            ) == Gate::Block && after.nodes(l)[i] == self.nodes(l)[i],
        }
    }

    /// `after` is `self` after a dispatch of `press` under `mask` that ended
    /// as `stop` tells. The scenes are come to from the top layer down, in
    /// each layer from the newest to the oldest. Every scene before the one
    /// that stopped the dispatch was passed; every scene after it is
    /// untouched; and the stack keeps about each scene what it kept.
    pub open spec fn dispatched(
        &self,
        after: &SceneStack,
        press: Option<(i32, i32)>,
        mask: Option<EventKind>,
        stop: DispatchStop,
    ) -> bool {
        &&& after@ == self@
        &&& match stop {
            DispatchStop::Exhausted => forall|l: int, i: int|
                self@.has(l, i) ==> #[trigger] self.passed(after, l, i, press, mask),
            DispatchStop::Consumed(id) | DispatchStop::Barrier(id) | DispatchStop::Blocked(id) => {
                let at = self@.place_of(id);
                &&& self@.has(at.0, at.1)
                &&& self.stopped(after, at.0, at.1, press, mask, stop)
                &&& forall|l: int, i: int|
                    self@.has(l, i) && above((l, i), at) ==> #[trigger] self.passed(
                        after,
                        l,
                        i,
                        press,
                        mask,
                    )
                &&& forall|l: int, i: int|
                    self@.has(l, i) && above(at, (l, i)) ==> #[trigger] after.nodes(l)[i]
                        == self.nodes(l)[i]
            },
        }
    }

    /// The identifier that a bus may promise next: the next one of the stack,
    /// or the one that the bus has come to by what it promised already.
    fn forecast(&self, action_bus: &ActionBus) -> (id: SceneID)
        ensures
            id == if action_bus@.future_scene_id > self@.next_scene_id {
                action_bus@.future_scene_id
            } else {
                self@.next_scene_id
            },
    {
        let promised = action_bus.future_scene_id();
        if promised > self.next_scene_id {
            promised
        } else {
            self.next_scene_id
        }
    }

    /// Hands `action` to the scenes, from the top layer down and in each
    /// layer from the newest scene to the oldest, until one stops it.
    fn dispatch(
        &mut self,
        action_bus: &mut ActionBus,
        action: &Action,
        origin: Option<SceneID>,
        mask: Option<EventKind>,
        filter_press: bool,
    ) -> (stop: DispatchStop)
        requires
            old(self)@.wf(),
        ensures
            old(self).dispatched(
                final(self),
                if filter_press {
                    action.press_point()
                } else {
                    None
                },
                mask,
                stop,
            ),
    {
        let ghost press = if filter_press {
            action.press_point()
        } else {
            None
        };
        let pressed = if filter_press {
            action.pressed_at()
        } else {
            None
        };
        let mut l: usize = self.scenes_priv.len();
        while l > 0
            invariant
                old(self)@.wf(),
                self@ == old(self)@,
                l <= MAX_LAY,
                press == if filter_press {
                    action.press_point()
                } else {
                    None::<(i32, i32)>
                },
                pressed == press,
                forall|m: int, j: int|
                    self@.has(m, j) && m >= l ==> #[trigger] old(self).passed(self, m, j, press, mask),
                forall|m: int, j: int|
                    self@.has(m, j) && m < l ==> #[trigger] self.nodes(m)[j] == old(self).nodes(m)[j],
            decreases l,
        {
            l -= 1;
            let mut i: usize = self.scenes_priv[l].len();
            while i > 0
                invariant
                    old(self)@.wf(),
                    self@ == old(self)@,
                    l < MAX_LAY,
                    i <= self@.layers[l as int].len(),
                    press == if filter_press {
                        action.press_point()
                    } else {
                        None::<(i32, i32)>
                    },
                    pressed == press,
                    forall|m: int, j: int|
                        self@.has(m, j) && (m > l || (m == l && j >= i)) ==> #[trigger] old(self).passed(self, m, j, press, mask),
                    forall|m: int, j: int|
                        self@.has(m, j) && (m < l || (m == l && j < i)) ==> #[trigger] self.nodes(
                            m,
                        )[j] == old(self).nodes(m)[j],
                decreases i,
            {
                i -= 1;
                let ghost before = *self;
                assert(self.nodes(l as int)[i as int] == old(self).nodes(l as int)[i as int]);
                let id = self.scenes_priv[l][i].id;
                match gate(&self.scenes_priv[l][i].declared, pressed, mask) {
                    Gate::Skip => {},
                    Gate::Block => {
                        proof {
                            lemma_dispatch_ends(
                                old(self),
                                &before,
                                self,
                                l as int,
                                i as int,
                                press,
                                mask,
                                DispatchStop::Blocked(id),
                            );
                        }
                        return DispatchStop::Blocked(id);
                    },
                    Gate::Deliver => {
                        let next = self.forecast(action_bus);
                        action_bus.prepare(id, next);
                        let consumed = self.scenes_priv[l][i].scene.handle_action(
                            action,
                            origin,
                            action_bus,
                        );
                        let declared = declare(&self.scenes_priv[l][i].scene);
                        self.scenes_priv[l][i].declared = declared;
                        proof {
                            assert forall|m: int| 0 <= m < MAX_LAY implies #[trigger] self@.layers[m]
                                =~= before@.layers[m] by {}
                            assert(self@.layers =~= before@.layers);
                            assert forall|m: int, j: int|
                                before@.has(m, j) && !(m == l && j == i) implies #[trigger] self.nodes(
                                m,
                            )[j] == before.nodes(m)[j] by {}
                        }
                        match after_delivery(id, consumed, declared.modal) {
                            Some(stop) => {
                                proof {
                                    lemma_dispatch_ends(
                                        old(self),
                                        &before,
                                        self,
                                        l as int,
                                        i as int,
                                        press,
                                        mask,
                                        stop,
                                    );
                                }
                                return stop;
                            },
                            None => {
                                proof {
                                    assert forall|m: int, j: int|
                                        self@.has(m, j) && (m > l || (m == l && j >= i)) implies #[trigger] old(self).passed(self, m, j, press, mask) by {
                                        if !(m == l && j == i) {
                                            assert(old(self).passed(&before, m, j, press, mask));
                                            assert(self.nodes(m)[j] == before.nodes(m)[j]);
                                        }
                                    }
                                }
                            },
                        }
                    },
                }
            }
        }
        DispatchStop::Exhausted
    }

    /// Hands an input event to the scenes that subscribed to its kind.
    ///
    /// The scenes are come to from the top layer down, in each layer from the
    /// newest to the oldest. A scene that did not subscribe to a kind of
    /// `event_kind` is skipped. A press of the pointer goes to a scene only
    /// where its clickable zone holds the point; a modal scene that the press
    /// misses stops the dispatch, another one is skipped. A scene that
    /// consumes the event stops the dispatch, and so does a modal scene that
    /// was handed it.
    pub fn propagate_sdl2_to_subscribers(
        &mut self,
        action_bus: &mut ActionBus,
        action: Action,
        event_kind: EventKind,
    ) -> (stop: DispatchStop)
        requires
            old(self)@.wf(),
        ensures
            final(self)@.wf(),
            old(self).dispatched(final(self), action.press_point(), Some(event_kind), stop),
    {
        self.dispatch(action_bus, &action, None, Some(event_kind), true)
    }

    /// Hands a message of the engine to the scenes, in the order of an input
    /// event and with its rules for stopping, to every scene that is come to.
    pub fn propagate_ham_to_subscribers(&mut self, action_bus: &mut ActionBus, action_p: ActionPriv) -> (stop:
        DispatchStop)
        requires
            old(self)@.wf(),
        ensures
            final(self)@.wf(),
            old(self).dispatched(final(self), None, None, stop),
    {
        self.dispatch(action_bus, &action_p.action, Some(action_p.source_scene), None, false)
    }

    /// The node under which the scene with the identifier gets its place in
    /// the layout.
    pub fn anchor_of(&self, id: SceneID) -> (anchor: Option<NodeId>)
        requires
            self@.wf(),
            self@.live(id),
        ensures
            anchor == self@.anchor_of(id),
    {
        let parent = self.parent(id);
        match self.find(parent) {
            Some((l, i)) => {
                proof {
                    lemma_node_of(self@, l as int, i as int);
                }
                let node = &self.scenes_priv[l][i];
                assert(node@ == self@.node_of(parent));
                if parent == 0 {
                    return node.taffy_id;
                }
                let mut k: usize = 0;
                while k < node.children.len()
                    invariant
                        k <= node.children@.len(),
                        node@ == self@.node_of(parent),
                        self@.live(parent),
                        parent != 0,
                        parent == self@.node_of(id).parent,
                        forall|j: int| 0 <= j < k ==> node.children@[j] != id,
                    decreases node.children@.len() - k,
                {
                    if node.children[k] == id {
                        assert(node@.children[k as int] == id);
                        return node.taffy_id;
                    }
                    k += 1;
                }
                None
            },
            None => None,
        }
    }

    /// The nearest scene with a layout node, from the scene `id` up by the
    /// parents.
    pub fn nearest_anchor(&self, id: SceneID) -> (found: Option<(SceneID, NodeId)>)
        requires
            self@.wf(),
        ensures
            found == self@.anchor(id),
    {
        let mut current_id = id;
        let mut fuel: u64 = self.next_scene_id;
        loop
            invariant
                self@.wf(),
                self@.anchor(id) == self@.anchor_from(current_id, fuel as nat),
            decreases fuel,
        {
            match self.find(current_id) {
                Some((l, i)) => {
                    proof {
                        lemma_node_of(self@, l as int, i as int);
                    }
                    match self.scenes_priv[l][i].taffy_id {
                        Some(node) => {
                            return Some((current_id, node));
                        },
                        None => {
                            if fuel == 0 {
                                return None;
                            }
                            current_id = self.scenes_priv[l][i].parent;
                            fuel -= 1;
                        },
                    }
                },
                None => {
                    return None;
                },
            }
        }
    }

    /// The nearest scene with a layout node, from the scene `id` up by the
    /// parents; the engine's root where there is none.
    pub fn get_first_with_layout(&self, id: SceneID) -> (found: (SceneID, NodeId))
        requires
            self@.wf(),
        ensures
            found == match self@.anchor(id) {
                Some(anchor) => anchor,
                None => (0, self@.layers[0][0].node->Some_0),
            },
    {
        match self.nearest_anchor(id) {
            Some(anchor) => anchor,
            None => {
                match self.scenes_priv[0][0].taffy_id {
                    Some(node) => (0, node),
                    None => (0, NodeId::new(0)),
                }
            },
        }
    }

    /// Has the scene with the identifier set itself up, and asks it anew
    /// for its declarations. Whatever the scene does, the stack keeps its
    /// shape, every other scene is untouched, and what the stack keeps as
    /// the declarations of the scene is what the scene answers afterwards.
    pub fn init(&mut self, id: SceneID, action_bus: &mut ActionBus)
        requires
            old(self)@.wf(),
            old(self)@.live(id),
        ensures
            final(self)@ == old(self)@,
            forall|l: int, i: int|
                old(self)@.has(l, i) && old(self)@.layers[l][i].id != id ==> #[trigger] final(self).nodes(l)[i] == old(self).nodes(l)[i],
            final(self).nodes(old(self)@.place_of(id).0)[old(self)@.place_of(id).1].told(),
    {
        match self.find(id) {
            Some((l, i)) => {
                proof {
                    lemma_node_of(self@, l as int, i as int);
                }
                self.scenes_priv[l][i].scene.init(action_bus);
                let declared = declare(&self.scenes_priv[l][i].scene);
                self.scenes_priv[l][i].declared = declared;
                proof {
                    assert forall|m: int| 0 <= m < MAX_LAY implies #[trigger] self@.layers[m]
                        =~= old(self)@.layers[m] by {}
                    assert(self@.layers =~= old(self)@.layers);
                    assert(self.nodes(l as int)[i as int].told());
                }
            },
            None => {},
        }
    }

    /// Has every scene take a step of `delta_time` microseconds, from the
    /// bottom layer up and in each layer from the oldest scene to the
    /// newest, and asks each anew for its declarations. Returns the
    /// identifiers of the scenes in the order of their steps.
    pub fn update_all(&mut self, delta_time: u64, action_bus: &mut ActionBus) -> (visited: Vec<
        SceneID,
    >)
        requires
            old(self)@.wf(),
        ensures
            final(self)@ == old(self)@,
            visited@ == ids_bottom_up(old(self)@.layers, MAX_LAY as int),
            forall|l: int, i: int| old(self)@.has(l, i) ==> (#[trigger] final(self).nodes(l)[i]).told(),
    {
        let mut visited: Vec<SceneID> = Vec::new();
        let mut l: usize = 0;
        while l < self.scenes_priv.len()
            invariant
                self@ == old(self)@,
                old(self)@.wf(),
                l <= MAX_LAY,
                visited@ == ids_bottom_up(old(self)@.layers, l as int),
                forall|m: int, j: int|
                    old(self)@.has(m, j) && m < l ==> (#[trigger] self.nodes(m)[j]).told(),
            decreases MAX_LAY - l,
        {
            let mut i: usize = 0;
            while i < self.scenes_priv[l].len()
                invariant
                    self@ == old(self)@,
                    old(self)@.wf(),
                    l < MAX_LAY,
                    i <= self@.layers[l as int].len(),
                    visited@ == ids_bottom_up(old(self)@.layers, l as int) + ids_of(
                        old(self)@.layers[l as int],
                    ).take(i as int),
                    forall|m: int, j: int|
                        old(self)@.has(m, j) && (m < l || (m == l && j < i)) ==> (
                        #[trigger] self.nodes(m)[j]).told(),
                decreases self@.layers[l as int].len() - i,
            {
                let ghost before = *self;
                let id = self.scenes_priv[l][i].id;
                let next = self.forecast(action_bus);
                action_bus.prepare(id, next);
                self.scenes_priv[l][i].scene.update(delta_time, action_bus);
                let declared = declare(&self.scenes_priv[l][i].scene);
                self.scenes_priv[l][i].declared = declared;
                visited.push(id);
                proof {
                    assert forall|m: int| 0 <= m < MAX_LAY implies #[trigger] self@.layers[m]
                        =~= before@.layers[m] by {}
                    assert(self@.layers =~= before@.layers);
                    assert(self.nodes(l as int)[i as int].told());
                    assert forall|m: int, j: int|
                        old(self)@.has(m, j) && (m < l || (m == l && j < i + 1)) implies (
                    #[trigger] self.nodes(m)[j]).told() by {
                        if !(m == l && j == i) {
                            assert(self.nodes(m)[j] == before.nodes(m)[j]);
                        }
                    }
                    assert(visited@ =~= ids_bottom_up(old(self)@.layers, l as int) + ids_of(
                        old(self)@.layers[l as int],
                    ).take(i + 1));
                }
                i += 1;
            }
            proof {
                assert(ids_of(old(self)@.layers[l as int]).take(i as int) =~= ids_of(
                    old(self)@.layers[l as int],
                ));
            }
            l += 1;
        }
        visited
    }

    /// Has every scene draw itself, from the bottom layer up and in each
    /// layer from the oldest scene to the newest. An immediate scene then
    /// draws through the toolkit, before the next scene draws. Returns the
    /// scenes in the order of their drawing, each immediate one with the
    /// rectangle that the toolkit used.
    pub fn render_all(&mut self, renderer: &mut Renderer, action_bus: &mut ActionBus) -> (drawn: Vec<
        Drawn,
    >)
        requires
            old(self)@.wf(),
        ensures
            final(self)@ == old(self)@,
            drawn@.len() == old(self).draw_plan(MAX_LAY as int).len(),
            forall|k: int|
                0 <= k < drawn@.len() ==> {
                    let planned = old(self).draw_plan(MAX_LAY as int)[k];
                    &&& (#[trigger] drawn@[k]).id == planned.0
                    &&& drawn@[k].immediate == planned.1
                    &&& !planned.1 ==> drawn@[k].used is None
                },
            forall|l: int, i: int|
                old(self)@.has(l, i) && !old(self).nodes(l)[i].immediate_mode() ==> #[trigger] final(self).nodes(l)[i] == old(self).nodes(l)[i],
            forall|l: int, i: int|
                old(self)@.has(l, i) && old(self).nodes(l)[i].immediate_mode() ==> (
                #[trigger] final(self).nodes(l)[i]).told(),
    {
        let mut drawn: Vec<Drawn> = Vec::new();
        let ghost mut plan: Seq<(SceneID, bool)> = Seq::empty();
        let mut l: usize = 0;
        while l < self.scenes_priv.len()
            invariant
                self@ == old(self)@,
                old(self)@.wf(),
                l <= MAX_LAY,
                plan == old(self).draw_plan(l as int),
                drawn@.len() == plan.len(),
                forall|k: int|
                    0 <= k < drawn@.len() ==> (#[trigger] drawn@[k]).id == plan[k].0 && drawn@[k].immediate
                        == plan[k].1 && (!plan[k].1 ==> drawn@[k].used is None),
                forall|m: int, j: int|
                    old(self)@.has(m, j) && m >= l ==> #[trigger] self.nodes(m)[j] == old(self).nodes(m)[j],
                forall|m: int, j: int|
                    old(self)@.has(m, j) && !old(self).nodes(m)[j].immediate_mode()
                        ==> #[trigger] self.nodes(m)[j] == old(self).nodes(m)[j],
                forall|m: int, j: int|
                    old(self)@.has(m, j) && m < l && old(self).nodes(m)[j].immediate_mode() ==> (
                    #[trigger] self.nodes(m)[j]).told(),
            decreases MAX_LAY - l,
        {
            let ghost below = plan;
            let ghost layer = old(self).nodes(l as int);
            let mut i: usize = 0;
            while i < self.scenes_priv[l].len()
                invariant
                    self@ == old(self)@,
                    old(self)@.wf(),
                    l < MAX_LAY,
                    i <= self@.layers[l as int].len(),
                    layer == old(self).nodes(l as int),
                    layer.len() == self@.layers[l as int].len(),
                    below == old(self).draw_plan(l as int),
                    plan == below + plan_in(layer).take(i as int),
                    drawn@.len() == plan.len(),
                    forall|k: int|
                        0 <= k < drawn@.len() ==> (#[trigger] drawn@[k]).id == plan[k].0
                            && drawn@[k].immediate == plan[k].1 && (!plan[k].1 ==> drawn@[k].used is None),
                    forall|m: int, j: int|
                        old(self)@.has(m, j) && (m > l || (m == l && j >= i))
                            ==> #[trigger] self.nodes(m)[j] == old(self).nodes(m)[j],
                    forall|m: int, j: int|
                        old(self)@.has(m, j) && !old(self).nodes(m)[j].immediate_mode()
                            ==> #[trigger] self.nodes(m)[j] == old(self).nodes(m)[j],
                    forall|m: int, j: int|
                        old(self)@.has(m, j) && (m < l || (m == l && j < i)) && old(self).nodes(
                            m,
                        )[j].immediate_mode() ==> (#[trigger] self.nodes(m)[j]).told(),
                decreases self@.layers[l as int].len() - i,
            {
                let ghost before = *self;
                proof {
                    assert(self.nodes(l as int)[i as int] == layer[i as int]);
                }
                let id = self.scenes_priv[l][i].id;
                self.scenes_priv[l][i].scene.render(renderer);
                let immediate = self.scenes_priv[l][i].declared.immediate;
                let mut used: Option<Rect> = None;
                if immediate {
                    let next = self.forecast(action_bus);
                    action_bus.prepare(id, next);
                    used = self.scenes_priv[l][i].scene.immediate(renderer, action_bus);
                    let declared = declare(&self.scenes_priv[l][i].scene);
                    self.scenes_priv[l][i].declared = declared;
                    proof {
                        assert forall|m: int| 0 <= m < MAX_LAY implies #[trigger] self@.layers[m]
                            =~= before@.layers[m] by {}
                        assert(self@.layers =~= before@.layers);
                        assert forall|m: int, j: int|
                            old(self)@.has(m, j) && !(m == l && j == i) implies #[trigger] self.nodes(
                            m,
                        )[j] == before.nodes(m)[j] by {}
                        assert(self.nodes(l as int)[i as int].told());
                    }
                }
                drawn.push(Drawn { id, immediate, used });
                proof {
                    plan = plan.push((id, immediate));
                    assert(plan_in(layer).take(i + 1) =~= plan_in(layer).take(i as int).push(
                        (id, immediate),
                    ));
                    assert(plan =~= below + plan_in(layer).take(i + 1));
                    assert forall|m: int, j: int|
                        old(self)@.has(m, j) && (m < l || (m == l && j < i + 1)) && old(self).nodes(
                            m,
                        )[j].immediate_mode() implies (#[trigger] self.nodes(m)[j]).told() by {
                        if !(m == l && j == i) {
                            assert(self.nodes(m)[j] == before.nodes(m)[j]);
                        }
                    }
                }
                i += 1;
            }
            proof {
                assert(plan_in(layer).take(i as int) =~= plan_in(layer));
            }
            l += 1;
        }
        drawn
    }

    /// Tells every scene that has a layout node the rectangle of its node on
    /// the screen, from the bottom layer up and in each layer from the
    /// oldest scene to the newest. Returns what was told, in that order.
    pub fn update_layout(&mut self, layout_mgr: &LayoutManager) -> (told: Vec<(SceneID, Rect)>)
        requires
            old(self)@.wf(),
            layout_mgr@.wf(),
            anchored(old(self)@, layout_mgr@),
        ensures
            final(self)@ == old(self)@,
            told@ == rects_bottom_up(old(self)@.layers, layout_mgr@, MAX_LAY as int),
            forall|l: int, i: int|
                old(self)@.has(l, i) && old(self)@.layers[l][i].node is None ==> #[trigger] final(self).nodes(l)[i] == old(self).nodes(l)[i],
            forall|l: int, i: int|
                old(self)@.has(l, i) && old(self)@.layers[l][i].node is Some ==> (
                #[trigger] final(self).nodes(l)[i]).told(),
    {
        let mut told: Vec<(SceneID, Rect)> = Vec::new();
        let mut l: usize = 0;
        while l < self.scenes_priv.len()
            invariant
                self@ == old(self)@,
                old(self)@.wf(),
                layout_mgr@.wf(),
                anchored(old(self)@, layout_mgr@),
                l <= MAX_LAY,
                told@ == rects_bottom_up(old(self)@.layers, layout_mgr@, l as int),
                forall|m: int, j: int|
                    old(self)@.has(m, j) && old(self)@.layers[m][j].node is None
                        ==> #[trigger] self.nodes(m)[j] == old(self).nodes(m)[j],
                forall|m: int, j: int|
                    old(self)@.has(m, j) && m < l && old(self)@.layers[m][j].node is Some ==> (
                    #[trigger] self.nodes(m)[j]).told(),
            decreases MAX_LAY - l,
        {
            let ghost layer = old(self)@.layers[l as int];
            let mut i: usize = 0;
            while i < self.scenes_priv[l].len()
                invariant
                    self@ == old(self)@,
                    old(self)@.wf(),
                    layout_mgr@.wf(),
                    anchored(old(self)@, layout_mgr@),
                    l < MAX_LAY,
                    i <= self@.layers[l as int].len(),
                    layer == old(self)@.layers[l as int],
                    told@ == rects_bottom_up(old(self)@.layers, layout_mgr@, l as int) + rects_in(
                        layer.take(i as int),
                        layout_mgr@,
                    ),
                    forall|m: int, j: int|
                        old(self)@.has(m, j) && old(self)@.layers[m][j].node is None
                            ==> #[trigger] self.nodes(m)[j] == old(self).nodes(m)[j],
                    forall|m: int, j: int|
                        old(self)@.has(m, j) && (m < l || (m == l && j < i)) && old(self)@.layers[m][j].node is Some ==> (#[trigger] self.nodes(m)[j]).told(),
                decreases self@.layers[l as int].len() - i,
            {
                let ghost before = *self;
                proof {
                    assert(self@.layers[l as int][i as int] == layer[i as int]);
                    assert(layer.take(i + 1).drop_last() =~= layer.take(i as int));
                    assert(layer.take(i + 1).last() == layer[i as int]);
                }
                if let Some(taffy_id) = self.scenes_priv[l][i].taffy_id {
                    let id = self.scenes_priv[l][i].id;
                    let rect = layout_mgr.abs_layout(taffy_id);
                    self.scenes_priv[l][i].scene.pos_changed(rect);
                    let declared = declare(&self.scenes_priv[l][i].scene);
                    self.scenes_priv[l][i].declared = declared;
                    told.push((id, rect));
                    proof {
                        assert forall|m: int| 0 <= m < MAX_LAY implies #[trigger] self@.layers[m]
                            =~= before@.layers[m] by {}
                        assert(self@.layers =~= before@.layers);
                        assert forall|m: int, j: int|
                            old(self)@.has(m, j) && !(m == l && j == i) implies #[trigger] self.nodes(
                            m,
                        )[j] == before.nodes(m)[j] by {}
                        assert(self.nodes(l as int)[i as int].told());
                    }
                }
                proof {
                    assert(told@ =~= rects_bottom_up(old(self)@.layers, layout_mgr@, l as int)
                        + rects_in(layer.take(i + 1), layout_mgr@));
                    assert forall|m: int, j: int|
                        old(self)@.has(m, j) && (m < l || (m == l && j < i + 1)) && old(self)@.layers[m][j].node is Some implies (#[trigger] self.nodes(m)[j]).told() by {
                        if !(m == l && j == i) {
                            assert(self.nodes(m)[j] == before.nodes(m)[j]);
                        }
                    }
                }
                i += 1;
            }
            proof {
                assert(layer.take(i as int) =~= layer);
            }
            l += 1;
        }
        told
    }

    /// The parent that the scene with the identifier was pushed with.
    pub fn parent(&self, id: SceneID) -> (parent: SceneID)
        requires
            self@.wf(),
            self@.live(id),
        ensures
            parent == self@.node_of(id).parent,
    {
        match self.find(id) {
            Some((l, i)) => {
                proof {
                    lemma_node_of(self@, l as int, i as int);
                }
                self.scenes_priv[l][i].parent
            },
            None => 0,
        }
    }

    /// The layout node of the scene with the identifier; none where the
    /// scene has none, and none where no such scene is in the stack.
    pub fn nodeid(&self, id: SceneID) -> (node: Option<NodeId>)
        requires
            self@.wf(),
        ensures
            node == if self@.live(id) {
                self@.node_of(id).node
            } else {
                None
            },
    {
        match self.find(id) {
            Some((l, i)) => {
                proof {
                    lemma_node_of(self@, l as int, i as int);
                }
                self.scenes_priv[l][i].taffy_id
            },
            None => None,
        }
    }

    /// Records the layout node of the scene with the identifier.
    pub fn set_nodeid(&mut self, id: SceneID, node_id: NodeId)
        requires
            old(self)@.wf(),
            old(self)@.live(id),
        ensures
            final(self)@.wf(),
            final(self)@ == old(self)@.with_node(id, node_id),
            old(self).same_scenes(final(self)),
    {
        match self.find(id) {
            Some((l, i)) => {
                self.scenes_priv[l][i].taffy_id = Some(node_id);
                proof {
                    let want = old(self)@.with_node(id, node_id);
                    assert forall|m: int| 0 <= m < want.layers.len() implies #[trigger] self@.layers[m]
                        =~= want.layers[m] by {
                        assert forall|j: int| 0 <= j < want.layers[m].len() implies #[trigger] self@.layers[m][j]
                            == want.layers[m][j] by {
                            if old(self)@.layers[m][j].id == id {
                                lemma_same_place(old(self)@, l as int, i as int, m, j);
                            }
                        }
                    }
                    assert(self@.layers =~= want.layers);
                }
            },
            None => {},
        }
    }
}

/// A layer of a stack has as many scenes as the stack's state shows for it.
pub proof fn lemma_nodes_len(stack: &SceneStack, l: int)
    requires
        0 <= l < stack@.layers.len(),
    ensures
        stack.nodes(l).len() == stack@.layers[l].len(),
{
}

/// A stack holds the same scenes as itself.
pub proof fn lemma_same_scenes_refl(stack: &SceneStack)
    ensures
        stack.same_scenes(stack),
{
}

/// Where the scenes of `after` stood in `before`, when `after` holds of each
/// layer of `before` the scenes that bear no doomed identifier: each at the
/// place that `kept_origin` names, with all that was kept about it, and in
/// the order in which they stood.
pub proof fn lemma_kept_places(before: &SceneStack, after: &SceneStack, doomed: Set<SceneID>)
    requires
        before@.layers.len() == MAX_LAY,
        after@.layers.len() == MAX_LAY,
        forall|l: int|
            0 <= l < MAX_LAY ==> #[trigger] after.nodes(l) == kept_nodes(before.nodes(l), doomed),
    ensures
        forall|l: int, i: int|
            after@.has(l, i) ==> {
                let o = kept_origin(before.nodes(l), doomed, i);
                &&& before@.has(l, o)
                &&& #[trigger] after@.layers[l][i] == before@.layers[l][o]
                &&& !doomed.contains(after@.layers[l][i].id)
            },
        forall|l: int, i: int, j: int|
            #![trigger kept_origin(before.nodes(l), doomed, i), kept_origin(before.nodes(l), doomed, j)]
            after@.has(l, i) && after@.has(l, j) && i < j ==> kept_origin(
                before.nodes(l),
                doomed,
                i,
            ) < kept_origin(before.nodes(l), doomed, j),
{
    assert forall|l: int, i: int| after@.has(l, i) implies {
        let o = kept_origin(before.nodes(l), doomed, i);
        &&& before@.has(l, o)
        &&& #[trigger] after@.layers[l][i] == before@.layers[l][o]
        &&& !doomed.contains(after@.layers[l][i].id)
    } by {
        assert(after.nodes(l) == kept_nodes(before.nodes(l), doomed));
        lemma_kept_origin(before.nodes(l), doomed, i);
    }
    assert forall|l: int, i: int, j: int|
        #![trigger kept_origin(before.nodes(l), doomed, i), kept_origin(before.nodes(l), doomed, j)]
        after@.has(l, i) && after@.has(l, j) && i < j implies kept_origin(
        before.nodes(l),
        doomed,
        i,
    ) < kept_origin(before.nodes(l), doomed, j) by {
        assert(after.nodes(l) == kept_nodes(before.nodes(l), doomed));
        lemma_kept_origin(before.nodes(l), doomed, j);
    }
}

/// A scene that is in the stack has a place in it.
pub proof fn lemma_live_place(s: StackState, id: SceneID)
    requires
        s.live(id),
    ensures
        s.has(s.place_of(id).0, s.place_of(id).1),
        s.layers[s.place_of(id).0][s.place_of(id).1].id == id,
{
    let (l, i) = choose|l: int, i: int| s.has(l, i) && (#[trigger] s.layers[l][i]).id == id;
    let q = (l, i);
    assert(s.has(q.0, q.1) && s.layers[q.0][q.1].id == id);
}

/// In a well-formed stack an identifier has one place.
pub proof fn lemma_same_place(s: StackState, l: int, i: int, m: int, j: int)
    requires
        s.wf(),
        s.has(l, i),
        s.has(m, j),
        s.layers[l][i].id == s.layers[m][j].id,
    ensures
        l == m && i == j,
{
}

/// In a well-formed stack the scene with an identifier is the one at any
/// place that bears the identifier.
pub proof fn lemma_node_of(s: StackState, l: int, i: int)
    requires
        s.wf(),
        s.has(l, i),
    ensures
        s.live(s.layers[l][i].id),
        s.place_of(s.layers[l][i].id) == (l, i),
        s.node_of(s.layers[l][i].id) == s.layers[l][i],
{
    let id = s.layers[l][i].id;
    let p = s.place_of(id);
    assert(s.has(p.0, p.1) && s.layers[p.0][p.1].id == id) by {
        let q = (l, i);
        assert(s.has(q.0, q.1) && s.layers[q.0][q.1].id == id);
    }
    lemma_same_place(s, l, i, p.0, p.1);
}

/// Nothing that descends from a scene is older than the scene.
pub proof fn lemma_descendants_not_below(s: StackState, id: SceneID, m: SceneID)
    requires
        s.descendants(id).contains(m),
    ensures
        id <= m,
    decreases s.gap(id), s.children_of(id).len() + 1,
{
    if m != id {
        lemma_descendants_among_above(s, id, s.children_of(id), m);
    }
}

/// What descends from the children of a scene is younger than the scene.
pub proof fn lemma_descendants_among_above(s: StackState, id: SceneID, kids: Seq<SceneID>, m: SceneID)
    requires
        s.descendants_among(id, kids).contains(m),
    ensures
        id < m,
    decreases s.gap(id), kids.len(),
{
    if kids.len() > 0 {
        if s.descendants_among(id, kids.drop_last()).contains(m) {
            lemma_descendants_among_above(s, id, kids.drop_last(), m);
        } else {
            lemma_descendants_not_below(s, kids.last(), m);
        }
    }
}

/// The place in a layer of the scene that stands at place `j` of what is
/// kept of it.
pub open spec fn kept_origin(layer: Seq<ScenePriv>, doomed: Set<SceneID>, j: int) -> int
    decreases layer.len(),
{
    if layer.len() == 0 {
        0
    } else if !doomed.contains(layer.last()@.id) && j == kept_nodes(layer.drop_last(), doomed).len() {
        layer.len() - 1
    } else {
        kept_origin(layer.drop_last(), doomed, j)
    }
}

/// Each scene that is kept of a layer was in the layer, bears no doomed
/// identifier, and stands after the scenes that stood before it.
pub proof fn lemma_kept_origin(layer: Seq<ScenePriv>, doomed: Set<SceneID>, j: int)
    requires
        0 <= j < kept_nodes(layer, doomed).len(),
    ensures
        0 <= kept_origin(layer, doomed, j) < layer.len(),
        layer[kept_origin(layer, doomed, j)] == kept_nodes(layer, doomed)[j],
        !doomed.contains(kept_nodes(layer, doomed)[j]@.id),
        forall|k: int|
            0 <= k < j ==> kept_origin(layer, doomed, k) < kept_origin(layer, doomed, j),
        kept_nodes(layer, doomed).len() <= layer.len(),
    decreases layer.len(),
{
    if layer.len() > 0 {
        let front = layer.drop_last();
        if !doomed.contains(layer.last()@.id) && j == kept_nodes(front, doomed).len() {
            assert forall|k: int| 0 <= k < j implies kept_origin(layer, doomed, k) < kept_origin(
                layer,
                doomed,
                j,
            ) by {
                lemma_kept_origin(front, doomed, k);
            }
            if j > 0 {
                lemma_kept_origin(front, doomed, j - 1);
            }
        } else {
            lemma_kept_origin(front, doomed, j);
            assert forall|k: int| 0 <= k < j implies kept_origin(layer, doomed, k) < kept_origin(
                layer,
                doomed,
                j,
            ) by {
                assert(kept_origin(layer, doomed, k) == kept_origin(front, doomed, k));
                assert(kept_origin(layer, doomed, j) == kept_origin(front, doomed, j));
            }
        }
    }
}

/// A scene of a layer that bears no doomed identifier is kept, and the
/// scenes kept before it are those kept of what stood before it.
pub proof fn lemma_kept_has(layer: Seq<ScenePriv>, doomed: Set<SceneID>, i: int)
    requires
        0 <= i < layer.len(),
        !doomed.contains(layer[i]@.id),
    ensures
        kept_nodes(layer.take(i), doomed).len() < kept_nodes(layer, doomed).len(),
        kept_nodes(layer, doomed)[kept_nodes(layer.take(i), doomed).len() as int] == layer[i],
    decreases layer.len(),
{
    let front = layer.drop_last();
    if i == layer.len() - 1 {
        assert(layer.take(i) =~= front);
    } else {
        lemma_kept_has(front, doomed, i);
        assert(front.take(i) =~= layer.take(i));
    }
}

/// What the stack keeps about the scenes kept of a layer is what is kept of
/// what it keeps about the scenes of the layer.
pub proof fn lemma_kept_views(layer: Seq<ScenePriv>, doomed: Set<SceneID>)
    ensures
        Seq::new(kept_nodes(layer, doomed).len(), |i: int| kept_nodes(layer, doomed)[i]@)
            == kept_states(Seq::new(layer.len(), |i: int| layer[i]@), doomed),
    decreases layer.len(),
{
    let views = Seq::new(layer.len(), |i: int| layer[i]@);
    let kept = kept_nodes(layer, doomed);
    let kept_views = Seq::new(kept.len(), |i: int| kept[i]@);
    if layer.len() == 0 {
        assert(kept_views =~= kept_states(views, doomed));
    } else {
        let front = layer.drop_last();
        lemma_kept_views(front, doomed);
        let front_views = Seq::new(front.len(), |i: int| front[i]@);
        assert(views.drop_last() =~= front_views);
        assert(views.last() == layer.last()@);
        let front_kept = kept_nodes(front, doomed);
        let front_kept_views = Seq::new(front_kept.len(), |i: int| front_kept[i]@);
        if doomed.contains(layer.last()@.id) {
            assert(kept_views =~= front_kept_views);
        } else {
            assert(kept_views =~= front_kept_views.push(layer.last()@));
        }
    }
}

proof fn lemma_removal(before: SceneStack, after: SceneStack, id: SceneID)
    requires
        before@.wf(),
        id != 0,
        after.next_scene_id == before.next_scene_id,
        after.scenes_priv@.len() == MAX_LAY,
        forall|m: int|
            0 <= m < MAX_LAY ==> #[trigger] after.nodes(m) == kept_nodes(
                before.nodes(m),
                before@.descendants(id),
            ),
    ensures
        after@.wf(),
        after@ == before@.without(before@.descendants(id)),
{
    let doomed = before@.descendants(id);
    let want = before@.without(doomed);
    assert forall|l: int| 0 <= l < MAX_LAY implies #[trigger] after@.layers[l] == want.layers[l] by {
        lemma_kept_views(before.nodes(l), doomed);
        assert(after.nodes(l) == kept_nodes(before.nodes(l), doomed));
        assert(before@.layers[l] =~= Seq::new(before.nodes(l).len(), |i: int| before.nodes(l)[i]@));
        assert(after@.layers[l] =~= Seq::new(after.nodes(l).len(), |i: int| after.nodes(l)[i]@));
    }
    assert(after@.layers =~= want.layers);
    // Every scene that stays was in the stack, at a place that keeps the order.
    assert forall|l: int, i: int| after@.has(l, i) implies {
        let o = kept_origin(before.nodes(l), doomed, i);
        &&& before@.has(l, o)
        &&& #[trigger] after@.layers[l][i] == before@.layers[l][o]
    } by {
        assert(after.nodes(l) == kept_nodes(before.nodes(l), doomed));
        lemma_kept_origin(before.nodes(l), doomed, i);
    }
    assert forall|l: int, i: int, m: int, j: int|
        after@.has(l, i) && after@.has(m, j) && (#[trigger] after@.layers[l][i]).id == (
        #[trigger] after@.layers[m][j]).id implies l == m && i == j by {
        let o = kept_origin(before.nodes(l), doomed, i);
        let p = kept_origin(before.nodes(m), doomed, j);
        assert(after.nodes(l) == kept_nodes(before.nodes(l), doomed));
        assert(after.nodes(m) == kept_nodes(before.nodes(m), doomed));
        lemma_kept_origin(before.nodes(l), doomed, i);
        lemma_kept_origin(before.nodes(m), doomed, j);
        assert(before@.layers[l][o].id == before@.layers[m][p].id);
        lemma_same_place(before@, l, o, m, p);
    }
    assert(!doomed.contains(0)) by {
        if doomed.contains(0) {
            lemma_descendants_not_below(before@, id, 0);
        }
    }
    assert(after.nodes(0) == kept_nodes(before.nodes(0), doomed));
    lemma_kept_has(before.nodes(0), doomed, 0);
    assert(before.nodes(0).take(0) =~= Seq::empty());
    assert forall|l: int, i: int, k: int|
        after@.has(l, i) && 0 <= k < after@.layers[l][i].children.len() implies after@.layers[l][i].id
        < (#[trigger] after@.layers[l][i].children[k]) < after@.next_scene_id by {
        let o = kept_origin(before.nodes(l), doomed, i);
        assert(after@.layers[l][i] == before@.layers[l][o]);
        assert(before@.has(l, o));
    }
}

/// A dispatch that has gone past every scene above a place, and ends at the
/// scene at the place, has ended as `stop` tells. `start` is the stack before
/// the dispatch, `before` the stack when the dispatch came to the place, and
/// `now` the stack at its end.
proof fn lemma_dispatch_ends(
    start: &SceneStack,
    before: &SceneStack,
    now: &SceneStack,
    l: int,
    i: int,
    press: Option<(i32, i32)>,
    mask: Option<EventKind>,
    stop: DispatchStop,
)
    requires
        start@.wf(),
        before@ == start@,
        now@ == start@,
        start@.has(l, i),
        start.stopped(now, l, i, press, mask, stop),
        forall|m: int, j: int|
            start@.has(m, j) && above((m, j), (l, i)) ==> #[trigger] start.passed(
                before,
                m,
                j,
                press,
                mask,
            ),
        forall|m: int, j: int|
            start@.has(m, j) && !above((m, j), (l, i)) ==> #[trigger] before.nodes(m)[j]
                == start.nodes(m)[j],
        forall|m: int, j: int|
            start@.has(m, j) && !(m == l && j == i) ==> #[trigger] now.nodes(m)[j] == before.nodes(
                m,
            )[j],
    ensures
        start.dispatched(now, press, mask, stop),
{
    lemma_node_of(start@, l, i);
    let at = start@.place_of(start@.layers[l][i].id);
    assert(at == (l, i));
    assert forall|m: int, j: int| start@.has(m, j) && above((m, j), at) implies #[trigger] start.passed(
        now,
        m,
        j,
        press,
        mask,
    ) by {
        assert(start.passed(before, m, j, press, mask));
        assert(now.nodes(m)[j] == before.nodes(m)[j]);
    }
    assert forall|m: int, j: int| start@.has(m, j) && above(at, (m, j)) implies #[trigger] now.nodes(
        m,
    )[j] == start.nodes(m)[j] by {
        assert(now.nodes(m)[j] == before.nodes(m)[j]);
    }
}

/// A modal scene that a press of the pointer misses keeps the press from
/// every scene that the dispatch would come to after it: each of them is
/// after the dispatch what it was before, whether the modal scene has a
/// clickable zone that the point is outside of, or has none.
pub proof fn lemma_missed_modal_blocks(
    before: &SceneStack,
    after: &SceneStack,
    press: (i32, i32),
    mask: EventKind,
    stop: DispatchStop,
    modal: (int, int),
    below: (int, int),
)
    requires
        before@.wf(),
        before.dispatched(after, Some(press), Some(mask), stop),
        before@.has(modal.0, modal.1),
        before@.has(below.0, below.1),
        above(modal, below),
        before.nodes(modal.0)[modal.1].subscribed().meets(mask),
        before.nodes(modal.0)[modal.1].modal(),
        match before.nodes(modal.0)[modal.1].click_zone() {
            Some(zone) => !zone.contains(press.0 as int, press.1 as int),
            None => true,
        },
    ensures
        after.nodes(below.0)[below.1] == before.nodes(below.0)[below.1],
        stop != DispatchStop::Exhausted,
        stop != DispatchStop::Consumed(before@.layers[below.0][below.1].id),
        stop != DispatchStop::Barrier(before@.layers[below.0][below.1].id),
        stop != DispatchStop::Blocked(before@.layers[below.0][below.1].id),
{
    assert(before.verdict(modal.0, modal.1, Some(press), Some(mask)) == Gate::Block);
    match stop {
        DispatchStop::Exhausted => {
            assert(before.passed(after, modal.0, modal.1, Some(press), Some(mask)));
        },
        DispatchStop::Consumed(id) | DispatchStop::Barrier(id) | DispatchStop::Blocked(id) => {
            let at = before@.place_of(id);
            if above(modal, at) {
                assert(before.passed(after, modal.0, modal.1, Some(press), Some(mask)));
            }
            assert(above(at, below));
            assert(after.nodes(below.0)[below.1] == before.nodes(below.0)[below.1]);
            if before@.layers[below.0][below.1].id == id {
                lemma_same_place(before@, at.0, at.1, below.0, below.1);
            }
        },
    }
}

/// A scene that is not modal and declares no clickable zone is never handed
/// a press of the pointer, whatever it subscribed to: it is after the
/// dispatch what it was before, and the dispatch did not end at it.
pub proof fn lemma_zoneless_never_pressed(
    before: &SceneStack,
    after: &SceneStack,
    press: (i32, i32),
    mask: EventKind,
    stop: DispatchStop,
    l: int,
    i: int,
)
    requires
        before@.wf(),
        before.dispatched(after, Some(press), Some(mask), stop),
        before@.has(l, i),
        !before.nodes(l)[i].modal(),
        before.nodes(l)[i].click_zone() is None,
    ensures
        after.nodes(l)[i] == before.nodes(l)[i],
        stop != DispatchStop::Consumed(before@.layers[l][i].id),
        stop != DispatchStop::Barrier(before@.layers[l][i].id),
        stop != DispatchStop::Blocked(before@.layers[l][i].id),
{
    assert(before.verdict(l, i, Some(press), Some(mask)) == Gate::Skip);
    match stop {
        DispatchStop::Exhausted => {
            assert(before.passed(after, l, i, Some(press), Some(mask)));
        },
        DispatchStop::Consumed(id) | DispatchStop::Barrier(id) | DispatchStop::Blocked(id) => {
            let at = before@.place_of(id);
            if before@.layers[l][i].id == id {
                lemma_same_place(before@, at.0, at.1, l, i);
            }
            if above((l, i), at) {
                assert(before.passed(after, l, i, Some(press), Some(mask)));
            } else if at != (l, i) {
                assert(above(at, (l, i)));
            }
        },
    }
}

/// An event that is no press of the pointer is for every scene that
/// subscribed to a kind of it, with or without a clickable zone, modal or
/// not. Such a scene that the dispatch goes past is handed the event, and is
/// not modal afterwards, or the dispatch would have ended at it.
pub proof fn lemma_subscriber_receives(
    before: &SceneStack,
    after: &SceneStack,
    mask: EventKind,
    stop: DispatchStop,
    l: int,
    i: int,
)
    requires
        before@.wf(),
        before.dispatched(after, None, Some(mask), stop),
        before@.has(l, i),
        before.nodes(l)[i].subscribed().meets(mask),
    ensures
        before.verdict(l, i, None, Some(mask)) == Gate::Deliver,
        stop == DispatchStop::Exhausted ==> !after.nodes(l)[i].modal(),
        stop != DispatchStop::Blocked(before@.layers[l][i].id),
{
    match stop {
        DispatchStop::Exhausted => {
            assert(before.passed(after, l, i, None, Some(mask)));
        },
        DispatchStop::Consumed(id) | DispatchStop::Barrier(id) | DispatchStop::Blocked(id) => {
            let at = before@.place_of(id);
            if before@.layers[l][i].id == id {
                lemma_same_place(before@, at.0, at.1, l, i);
            }
        },
    }
}

/// A scene that does not descend from the removed one stays in the stack,
/// with all that the stack keeps about it.
pub proof fn lemma_removal_spares(s: StackState, removed: SceneID, l: int, i: int)
    requires
        s.wf(),
        s.has(l, i),
        !s.descendants(removed).contains(s.layers[l][i].id),
    ensures
        s.without(s.descendants(removed)).live(s.layers[l][i].id),
        exists|j: int|
            s.without(s.descendants(removed)).has(l, j) && #[trigger] s.without(
                s.descendants(removed),
            ).layers[l][j] == s.layers[l][i],
{
    let doomed = s.descendants(removed);
    lemma_kept_state(s.layers[l], doomed, i);
    let j = kept_states(s.layers[l].take(i), doomed).len() as int;
    assert(s.without(doomed).has(l, j));
    assert(s.without(doomed).layers[l][j] == s.layers[l][i]);
}

/// A scene of a layer that bears no doomed identifier is kept: it stands
/// after what is kept of the scenes before it.
pub proof fn lemma_kept_state(layer: Seq<NodeState>, doomed: Set<SceneID>, i: int)
    requires
        0 <= i < layer.len(),
        !doomed.contains(layer[i].id),
    ensures
        kept_states(layer.take(i), doomed).len() < kept_states(layer, doomed).len(),
        kept_states(layer, doomed)[kept_states(layer.take(i), doomed).len() as int] == layer[i],
    decreases layer.len(),
{
    let front = layer.drop_last();
    if i == layer.len() - 1 {
        assert(layer.take(i) =~= front);
    } else {
        lemma_kept_state(front, doomed, i);
        assert(front.take(i) =~= layer.take(i));
    }
}

/// The scene that has the removed scene among its children stays: a parent
/// does not descend from its child.
pub proof fn lemma_parent_spared(s: StackState, l: int, i: int, k: int)
    requires
        s.wf(),
        s.has(l, i),
        0 <= k < s.layers[l][i].children.len(),
    ensures
        !s.descendants(s.layers[l][i].children[k]).contains(s.layers[l][i].id),
{
    if s.descendants(s.layers[l][i].children[k]).contains(s.layers[l][i].id) {
        lemma_descendants_not_below(s, s.layers[l][i].children[k], s.layers[l][i].id);
    }
}

/// The engine's root is in every well-formed stack, and descends from no
/// other scene: no removal takes it out.
pub proof fn lemma_root_stays(s: StackState, removed: SceneID)
    requires
        s.wf(),
        removed != 0,
    ensures
        s.live(0),
        !s.descendants(removed).contains(0),
        s.without(s.descendants(removed)).live(0),
{
    assert(s.has(0, 0) && s.layers[0][0].id == 0);
    if s.descendants(removed).contains(0) {
        lemma_descendants_not_below(s, removed, 0);
    }
    lemma_removal_spares(s, removed, 0, 0);
}

/// What descends from a child of a scene descends from the scene.
pub proof fn lemma_child_descends(s: StackState, id: SceneID, kids: Seq<SceneID>, k: int, m: SceneID)
    requires
        0 <= k < kids.len(),
        id < kids[k] < s.next_scene_id,
        s.descendants(kids[k]).contains(m),
    ensures
        s.descendants_among(id, kids).contains(m),
    decreases kids.len(),
{
    if k < kids.len() - 1 {
        lemma_child_descends(s, id, kids.drop_last(), k, m);
    }
}

/// Whether the scene at a place has `child` among its children.
pub open spec fn lists(s: StackState, l: int, i: int, child: SceneID) -> bool {
    s.has(l, i) && s.layers[l][i].children.contains(child)
}

/// Whatever descends from a scene, the scene itself apart, is the child of a
/// scene that descends from it or is it.
pub proof fn lemma_descendant_is_listed(s: StackState, id: SceneID, m: SceneID)
    requires
        s.wf(),
        s.descendants(id).contains(m),
        m != id,
    ensures
        exists|l: int, i: int| #[trigger]
            lists(s, l, i, m) && s.descendants(id).contains(s.layers[l][i].id),
    decreases s.gap(id), s.children_of(id).len() + 1,
{
    assert(s.children_of(id) =~= s.children_of(id).take(s.children_of(id).len() as int));
    lemma_listed_among(s, id, s.children_of(id), m);
}

/// Whatever descends from the first children of a scene is the child of a
/// scene that descends from the scene or is it.
pub proof fn lemma_listed_among(s: StackState, id: SceneID, kids: Seq<SceneID>, m: SceneID)
    requires
        s.wf(),
        kids.len() <= s.children_of(id).len(),
        kids == s.children_of(id).take(kids.len() as int),
        s.descendants_among(id, kids).contains(m),
    ensures
        exists|l: int, i: int| #[trigger]
            lists(s, l, i, m) && s.descendants(id).contains(s.layers[l][i].id),
    decreases s.gap(id), kids.len(),
{
    if kids.len() > 0 {
        let front = kids.drop_last();
        assert(front =~= s.children_of(id).take(front.len() as int));
        if s.descendants_among(id, front).contains(m) {
            lemma_listed_among(s, id, front, m);
        } else {
            let kid = kids.last();
            let k = kids.len() - 1;
            assert(kid == s.children_of(id)[k]);
            assert(s.live(id));
            lemma_live_place(s, id);
            let at = s.place_of(id);
            if m == kid {
                assert(s.layers[at.0][at.1].children[k] == m);
                assert(lists(s, at.0, at.1, m));
                assert(s.descendants(id).contains(s.layers[at.0][at.1].id));
            } else {
                lemma_descendant_is_listed(s, kid, m);
                let (l, i) = choose|l: int, i: int| #[trigger]
                    lists(s, l, i, m) && s.descendants(kid).contains(s.layers[l][i].id);
                lemma_child_descends(s, id, s.children_of(id), k, s.layers[l][i].id);
                assert(lists(s, l, i, m) && s.descendants(id).contains(s.layers[l][i].id));
            }
        }
    }
}

/// A removal spares the brothers and sisters of the removed scene: another
/// child of its parent, if it is in the stack, does not descend from it.
pub proof fn lemma_sibling_spared(s: StackState, l: int, i: int, removed: SceneID, other: SceneID)
    requires
        s.wf(),
        s.has(l, i),
        s.layers[l][i].children.contains(removed),
        s.layers[l][i].children.contains(other),
        other != removed,
        s.live(other),
    ensures
        !s.descendants(removed).contains(other),
{
    if s.descendants(removed).contains(other) {
        lemma_descendant_is_listed(s, removed, other);
        let (m, j) = choose|m: int, j: int| #[trigger]
            lists(s, m, j, other) && s.descendants(removed).contains(s.layers[m][j].id);
        lemma_live_place(s, other);
        let at = s.place_of(other);
        let k1 = choose|k: int| 0 <= k < s.layers[l][i].children.len() && s.layers[l][i].children[k] == other;
        let k2 = choose|k: int| 0 <= k < s.layers[m][j].children.len() && s.layers[m][j].children[k] == other;
        assert(s.layers[at.0][at.1].id == s.layers[l][i].children[k1]);
        assert(s.layers[at.0][at.1].id == s.layers[m][j].children[k2]);
        assert(s.layers[m][j].id == s.layers[l][i].id);
        let k0 = choose|k: int| 0 <= k < s.layers[l][i].children.len() && s.layers[l][i].children[k] == removed;
        assert(s.layers[l][i].id < s.layers[l][i].children[k0]);
        lemma_descendants_not_below(s, removed, s.layers[m][j].id);
    }
}

/// The places of a stack after a push: every scene that was in the stack
/// stands where it stood, the parent with one child more; and the new
/// scene is the last of its layer.
pub proof fn lemma_pushed_places(s: StackState, layer: int, parent: SceneID)
    requires
        s.wf(),
        0 <= layer < MAX_LAY,
    ensures
        forall|l: int, i: int|
            s.has(l, i) ==> s.pushed(layer, parent).has(l, i) && #[trigger] s.pushed(
                layer,
                parent,
            ).layers[l][i] == StackState::adopt(s.layers[l][i], parent, s.next_scene_id),
        forall|l: int, i: int|
            s.pushed(layer, parent).has(l, i) && !s.has(l, i) ==> l == layer && i
                == s.layers[layer].len() && (#[trigger] s.pushed(layer, parent).layers[l][i]).node is None,
{
}

/// The children of a scene that descends from the scene `id`, or is it,
/// descend from it too.
pub proof fn lemma_descendants_closed(s: StackState, id: SceneID, m: int, j: int, k: int)
    requires
        s.wf(),
        s.has(m, j),
        s.descendants(id).contains(s.layers[m][j].id),
        0 <= k < s.layers[m][j].children.len(),
    ensures
        s.descendants(id).contains(s.layers[m][j].children[k]),
    decreases s.gap(id), s.children_of(id).len() + 1,
{
    lemma_node_of(s, m, j);
    let child = s.layers[m][j].children[k];
    if s.layers[m][j].id == id {
        assert(s.descendants(child).contains(child));
        lemma_child_descends(s, id, s.children_of(id), k, child);
    } else {
        assert(s.children_of(id) =~= s.children_of(id).take(s.children_of(id).len() as int));
        lemma_closed_among(s, id, s.children_of(id), m, j, k);
    }
}

/// The children of a scene that descends from the first children of the
/// scene `id` descend from `id`.
pub proof fn lemma_closed_among(s: StackState, id: SceneID, kids: Seq<SceneID>, m: int, j: int, k: int)
    requires
        s.wf(),
        kids.len() <= s.children_of(id).len(),
        kids == s.children_of(id).take(kids.len() as int),
        s.has(m, j),
        s.descendants_among(id, kids).contains(s.layers[m][j].id),
        0 <= k < s.layers[m][j].children.len(),
    ensures
        s.descendants(id).contains(s.layers[m][j].children[k]),
    decreases s.gap(id), kids.len(),
{
    if kids.len() > 0 {
        let front = kids.drop_last();
        assert(front =~= s.children_of(id).take(front.len() as int));
        if s.descendants_among(id, front).contains(s.layers[m][j].id) {
            lemma_closed_among(s, id, front, m, j, k);
        } else {
            let kid = kids.last();
            let at = kids.len() - 1;
            assert(kid == s.children_of(id)[at]);
            lemma_descendants_closed(s, kid, m, j, k);
            lemma_child_descends(s, id, s.children_of(id), at, s.layers[m][j].children[k]);
        }
    }
}

} // verus!
