use vstd::prelude::*;
use crate::geometry::Rect;
use crate::scene::{
    lemma_descendants_closed, lemma_descendants_not_below, lemma_live_place, lemma_node_of,
    lemma_pushed_places, lemma_removal_spares, lemma_same_place, lemma_same_scenes_refl, SceneID,
    SceneStack, StackState, MAX_LAY,
};

verus! {

/// The handle of a node of the layout tree.
#[derive(Clone, Copy, Debug, PartialEq, Eq, Structural)]
pub struct NodeId {
    pub raw: u64,
}

impl NodeId {
    pub fn new(val: u64) -> (id: NodeId)
        ensures
            id.raw == val,
    {
        NodeId { raw: val }
    }
}

/// Bit of `BoxFlags`: lay the items out along a row.
pub const ITEMS_IN_ROW: u64 = 0b0000_0001;

/// Bit of `BoxFlags`: lay the items out along a column.
pub const ITEMS_IN_COL: u64 = 0b0000_0010;

/// Bit of `BoxFlags`: reverse the direction of the main axis.
pub const ITEMS_DIR_REVERSED: u64 = 0b0000_0100;

/// Bit of `BoxFlags`: wrap the items onto further lines.
pub const WRAP_ITEMS: u64 = 0b0000_1000;

/// Bit of `BoxFlags`: wrap the items, lines stacked in reverse.
pub const WRAP_ITEMS_REVERSED: u64 = 0b0001_0000;

/// Bit of `BoxFlags`: keep the items on one line.
pub const NO_WRAP: u64 = 0b0010_0000;

/// A set of container flags: direction and wrapping of a flex box.
#[derive(Clone, Copy, Debug, PartialEq, Eq, Structural)]
pub struct BoxFlags {
    pub bits: u64,
}

impl BoxFlags {
    /// Whether every bit of `flag` is set in `self`.
    pub open spec fn has(self, flag: u64) -> bool {
        self.bits & flag == flag
    }

    /// The empty set: a row that wraps.
    pub fn default_box() -> (f: BoxFlags)
        ensures
            f.bits == 0,
    {
        BoxFlags { bits: 0 }
    }

    pub fn from_bits(bits: u64) -> (f: BoxFlags)
        ensures
            f.bits == bits,
    {
        BoxFlags { bits }
    }

    pub fn bits(&self) -> (b: u64)
        ensures
            b == self.bits,
    {
        self.bits
    }

    /// The flags of both sets.
    pub fn union(self, other: BoxFlags) -> (f: BoxFlags)
        ensures
            f.bits == self.bits | other.bits,
    {
        BoxFlags { bits: self.bits | other.bits }
    }

    /// Whether every flag of `other` is in `self`.
    pub fn contains(&self, other: BoxFlags) -> (r: bool)
        ensures
            r == self.has(other.bits),
    {
        self.bits & other.bits == other.bits
    }
}

/// How items are placed along the cross axis.
#[derive(Clone, Copy, Debug, PartialEq, Eq, Structural)]
pub enum AlignItems {
    Start,
    End,
    FlexStart,
    FlexEnd,
    Center,
    Baseline,
    Stretch,
}

/// How lines, or items along the main axis, share the free space.
#[derive(Clone, Copy, Debug, PartialEq, Eq, Structural)]
pub enum AlignContent {
    Start,
    End,
    FlexStart,
    FlexEnd,
    Center,
    Stretch,
    SpaceBetween,
    SpaceEvenly,
    SpaceAround,
}

pub type JustifyContent = AlignContent;

pub type AlignSelf = AlignItems;

/// The main axis of a flex container.
#[derive(Clone, Copy, Debug, PartialEq, Eq, Structural)]
pub enum FlexDirection {
    Row,
    Column,
    RowReverse,
    ColumnReverse,
}

/// Whether a flex container wraps its items.
#[derive(Clone, Copy, Debug, PartialEq, Eq, Structural)]
pub enum FlexWrap {
    NoWrap,
    Wrap,
    WrapReverse,
}

/// One side of a box: left to the solver, or a share of the parent's side in
/// thousandths.
#[derive(Clone, Copy, Debug, PartialEq, Eq, Structural)]
pub enum Dimension {
    Auto,
    Percent(u32),
}

/// What a scene asks of the layout.
///
/// Sizes and gaps are shares of the parent container, in thousandths (500 is
/// one half). The grow factor is in thousandths too (1000 is a factor of one).
#[derive(Clone, Copy, Debug, PartialEq, Eq)]
pub struct Layout {
    /// Width and height; `None` leaves the side to the solver.
    pub size: (Option<u32>, Option<u32>),
    /// Direction and wrapping of the scene as a container.
    pub flex: BoxFlags,
    pub justify_content: JustifyContent,
    pub align_items: AlignItems,
    pub align_content: Option<AlignContent>,
    /// Horizontal and vertical gap between the items.
    pub gap: (u32, u32),
    /// How much of the free space the scene takes as an item.
    pub grow: u32,
    pub align_self: Option<AlignSelf>,
}

impl Layout {
    /// The request made when a scene states nothing: automatic size, a row
    /// that wraps, items stretched, a gap of a tenth, a grow factor of one.
    pub open spec fn spec_default() -> Layout {
        Layout {
            size: (None, None),
            flex: BoxFlags { bits: 0 },
            justify_content: AlignContent::FlexStart,
            align_items: AlignItems::Stretch,
            align_content: None,
            gap: (100, 100),
            grow: 1000,
            align_self: None,
        }
    }
}

impl Default for Layout {
    fn default() -> (l: Layout)
        ensures
            l == Layout::spec_default(),
    {
        Layout {
            size: (None, None),
            flex: BoxFlags::default_box(),
            justify_content: AlignContent::FlexStart,
            align_items: AlignItems::Stretch,
            align_content: None,
            gap: (100, 100),
            grow: 1000,
            align_self: None,
        }
    }
}

/// The style of one layout node, as the solver is to receive it.
#[derive(Clone, Copy, Debug, PartialEq, Eq)]
pub struct BoxStyle {
    pub width: Dimension,
    pub height: Dimension,
    pub flex_direction: FlexDirection,
    pub flex_wrap: FlexWrap,
    pub justify_content: Option<JustifyContent>,
    pub align_items: Option<AlignItems>,
    pub align_content: Option<AlignContent>,
    /// Horizontal and vertical gap, in thousandths of the container.
    pub gap: (u32, u32),
    /// Grow factor, in thousandths.
    pub flex_grow: u32,
    pub align_self: Option<AlignSelf>,
}

/// The side of a box that a request gives.
pub open spec fn side_of(share: Option<u32>) -> Dimension {
    match share {
        Some(s) => Dimension::Percent(s),
        None => Dimension::Auto,
    }
}

/// The main axis that a set of flags asks for. A row wins over a column; with
/// neither flag the axis stays a row.
pub open spec fn direction_of(flex: BoxFlags) -> FlexDirection {
    if flex.bits == 0 {
        FlexDirection::Row
    } else if flex.has(ITEMS_IN_ROW) {
        if flex.has(ITEMS_DIR_REVERSED) {
            FlexDirection::RowReverse
        } else {
            FlexDirection::Row
        }
    } else if flex.has(ITEMS_IN_COL) {
        if flex.has(ITEMS_DIR_REVERSED) {
            FlexDirection::ColumnReverse
        } else {
            FlexDirection::Column
        }
    } else {
        FlexDirection::Row
    }
}

/// The wrapping that a set of flags asks for. Reversed wrapping wins over no
/// wrapping; with neither flag the items wrap.
pub open spec fn wrap_of(flex: BoxFlags) -> FlexWrap {
    if flex.bits == 0 {
        FlexWrap::Wrap
    } else if flex.has(WRAP_ITEMS_REVERSED) {
        FlexWrap::WrapReverse
    } else if flex.has(NO_WRAP) {
        FlexWrap::NoWrap
    } else {
        FlexWrap::Wrap
    }
}

/// The style that a request stands for.
pub open spec fn style_of(opts: Layout) -> BoxStyle {
    BoxStyle {
        width: side_of(opts.size.0),
        height: side_of(opts.size.1),
        flex_direction: direction_of(opts.flex),
        flex_wrap: wrap_of(opts.flex),
        justify_content: Some(opts.justify_content),
        align_items: Some(opts.align_items),
        align_content: opts.align_content,
        gap: opts.gap,
        flex_grow: opts.grow,
        align_self: opts.align_self,
    }
}

/// Turns a layout request into the style of its node.
pub fn taffy_style(opts: &Layout) -> (style: BoxStyle)
    ensures
        style == style_of(*opts),
{
    let width = match opts.size.0 {
        Some(x) => Dimension::Percent(x),
        None => Dimension::Auto,
    };
    let height = match opts.size.1 {
        Some(y) => Dimension::Percent(y),
        None => Dimension::Auto,
    };
    let mut flex_direction = FlexDirection::Row;
    let mut flex_wrap = FlexWrap::Wrap;
    if opts.flex.bits != 0 {
        if opts.flex.contains(BoxFlags { bits: ITEMS_IN_ROW }) {
            if opts.flex.contains(BoxFlags { bits: ITEMS_DIR_REVERSED }) {
                flex_direction = FlexDirection::RowReverse;
            }
        } else if opts.flex.contains(BoxFlags { bits: ITEMS_IN_COL }) {
            if opts.flex.contains(BoxFlags { bits: ITEMS_DIR_REVERSED }) {
                flex_direction = FlexDirection::ColumnReverse;
            } else {
                flex_direction = FlexDirection::Column;
            }
        }
        if opts.flex.contains(BoxFlags { bits: WRAP_ITEMS_REVERSED }) {
            flex_wrap = FlexWrap::WrapReverse;
        } else if opts.flex.contains(BoxFlags { bits: NO_WRAP }) {
            flex_wrap = FlexWrap::NoWrap;
        }
    }
    BoxStyle {
        width,
        height,
        flex_direction,
        flex_wrap,
        justify_content: Some(opts.justify_content),
        align_items: Some(opts.align_items),
        align_content: opts.align_content,
        gap: opts.gap,
        flex_grow: opts.grow,
        align_self: opts.align_self,
    }
}

/// The flex-box solver's tree of nodes. The verifier does not look inside.
#[verifier::external_type_specification]
#[verifier::external_body]
#[verifier::reject_recursive_types(NodeContext)]
pub struct ExTaffyTree<NodeContext>(taffy::TaffyTree<NodeContext>);

/// A style in the solver's own form. The verifier does not look inside.
#[verifier::external_type_specification]
#[verifier::external_body]
pub struct ExTaffyStyle(taffy::Style);

/// The nodes that a solver's tree holds, each with its parent.
pub uninterp spec fn tree_parents(tree: taffy::TaffyTree<()>) -> Map<u64, Option<u64>>;

/// The nodes that a solver's tree holds, each with its children, in their
/// order.
pub uninterp spec fn tree_children(tree: taffy::TaffyTree<()>) -> Map<u64, Seq<u64>>;

/// The nodes of a solver's tree that wait for a pass of the solver.
pub uninterp spec fn tree_dirty(tree: taffy::TaffyTree<()>) -> Set<u64>;

/// The rectangle that the solver's last pass gave each node, relative to the
/// node's parent, its numbers cut to integers.
pub uninterp spec fn tree_frames(tree: taffy::TaffyTree<()>) -> Map<u64, Rect>;

/// The nodes that a solver's tree holds, each with the style that it was
/// last given.
pub uninterp spec fn tree_styles(tree: taffy::TaffyTree<()>) -> Map<u64, taffy::Style>;

/// A side of a box as a style of the solver holds it.
#[derive(Clone, Copy, Debug, PartialEq, Eq, Structural)]
pub enum SolverSide {
    /// So many units, cut to an integer.
    Length(u32),
    /// A share of the parent's side; the bits of the solver's number.
    Percent(u32),
    /// Left to the solver.
    Auto,
}

/// The widest that a style of the solver lets a node be: its
/// `max_size.width`.
pub uninterp spec fn style_width_cap(style: taffy::Style) -> SolverSide;

/// The width and the height that a style of the solver asks for: the two
/// sides of its `size`.
pub uninterp spec fn style_size(style: taffy::Style) -> (SolverSide, SolverSide);

/// The factor by which a style of the solver has a node take the free
/// space: its `flex_grow`, cut to an integer.
pub uninterp spec fn style_grow(style: taffy::Style) -> u32;

/// How a style of the solver has a node lay out what is in it.
#[derive(Clone, Copy, Debug, PartialEq, Eq, Structural)]
pub enum SolverDisplay {
    /// As a block.
    Block,
    /// As a flex box.
    Flex,
    /// As a grid.
    Grid,
    /// Not at all: the node and what is in it are hidden.
    Hidden,
}

/// How a style of the solver has a node lay out what is in it: its
/// `display`.
pub uninterp spec fn style_display(style: taffy::Style) -> SolverDisplay;

/// Whether the layout takes a style: one of a flex box or of a hidden node.
/// The layout hands the solver no grid and no block.
pub open spec fn flexible(style: taffy::Style) -> bool {
    style_display(style) is Flex || style_display(style) is Hidden
}

/// Whether every node of a tree has a style that the layout takes.
pub open spec fn all_flexible(parents: Map<u64, Option<u64>>, styles: Map<u64, taffy::Style>) -> bool {
    forall|n: u64| parents.dom().contains(n) ==> flexible(#[trigger] styles[n])
}

/// The largest side that the solver's numbers hold to the unit.
pub const EXACT_SIDE: u32 = 0x100_0000;

/// The factor by which the root takes the free space.
pub const ROOT_GROW: u8 = 1;

/// Whether `to` is reached from `from` by at most `steps` steps from a node
/// to its parent.
pub open spec fn climbs(parents: Map<u64, Option<u64>>, from: u64, to: u64, steps: nat) -> bool
    decreases steps,
{
    from == to || (steps > 0 && parents.dom().contains(from) && parents[from] is Some && climbs(
        parents,
        parents[from]->Some_0,
        to,
        (steps - 1) as nat,
    ))
}

/// A node with all its ancestors.
pub open spec fn lineage(parents: Map<u64, Option<u64>>, node: u64) -> Set<u64> {
    Set::new(|a: u64| exists|steps: nat| climbs(parents, node, a, steps))
}

/// `depth` shows that the tree has no cycle: each parent is in the tree and
/// less deep than its child.
pub open spec fn ranked(parents: Map<u64, Option<u64>>, depth: Map<u64, nat>) -> bool {
    forall|n: u64|
        parents.dom().contains(n) && (#[trigger] parents[n]) is Some ==> parents.dom().contains(
            parents[n]->Some_0,
        ) && depth[parents[n]->Some_0] < depth[n]
}

/// The tree has no cycle, and every parent is in it.
pub open spec fn forest(parents: Map<u64, Option<u64>>) -> bool {
    exists|depth: Map<u64, nat>| ranked(parents, depth)
}

/// The parents of a tree once `node` has left it: its children have no
/// parent any more.
pub open spec fn parents_without(parents: Map<u64, Option<u64>>, node: u64) -> Map<
    u64,
    Option<u64>,
> {
    Map::new(
        |n: u64| parents.dom().contains(n) && n != node,
        |n: u64|
            if parents[n] == Some(node) {
                None
            } else {
                parents[n]
            },
    )
}

/// The lists of children and the parents tell the same: both know the same
/// nodes, each child of a node is in the tree and has the node as its
/// parent, and each node with a parent has its parent in the tree and is
/// among the children of that parent.
pub open spec fn linked(parents: Map<u64, Option<u64>>, children: Map<u64, Seq<u64>>) -> bool {
    &&& forall|n: u64| children.dom().contains(n) == parents.dom().contains(n)
    &&& forall|p: u64, k: int|
        parents.dom().contains(p) && 0 <= k < children[p].len() ==> parents.dom().contains(
            #[trigger] children[p][k],
        ) && parents[children[p][k]] == Some(p)
    &&& forall|c: u64|
        parents.dom().contains(c) && (#[trigger] parents[c]) is Some ==> parents.dom().contains(
            parents[c]->Some_0,
        ) && children[parents[c]->Some_0].contains(c)
}

/// Whether a node is another one than `node`.
pub open spec fn other_than(node: u64) -> spec_fn(u64) -> bool {
    |c: u64| c != node
}

/// Whether a node is none of `gone`.
pub open spec fn outside(gone: Set<u64>) -> spec_fn(u64) -> bool {
    |c: u64| !gone.contains(c)
}

/// The lists of children of a tree once `node` has left it: the node has no
/// list any more and stands in none.
pub open spec fn children_without(children: Map<u64, Seq<u64>>, node: u64) -> Map<u64, Seq<u64>> {
    Map::new(
        |n: u64| children.dom().contains(n) && n != node,
        |n: u64| children[n].filter(other_than(node)),
    )
}

/// `TaffyTree::new`: a tree without nodes.
#[verifier::external_body]
fn tree_new() -> (made: taffy::TaffyTree<()>)
    ensures
        tree_parents(made) =~= Map::empty(),
        tree_children(made) =~= Map::empty(),
{
    taffy::TaffyTree::new()
}

/// A style of the solver that asks for `w` by `h` units and takes the free
/// space with the factor `grow`, every other property as the solver's
/// default has it, which is a flex box and sets no widest length. A side above `EXACT_SIDE`
/// may lose its last digits. The body only fills the record in.
#[verifier::external_body]
fn sized_style(w: u32, h: u32, grow: u8) -> (made: taffy::Style)
    ensures
        style_width_cap(made) is Auto,
        style_display(made) is Flex,
        style_grow(made) == grow,
        w <= EXACT_SIDE ==> style_size(made).0 == SolverSide::Length(w),
        h <= EXACT_SIDE ==> style_size(made).1 == SolverSide::Length(h),
{
    taffy::Style {
        size: taffy::Size {
            width: taffy::Dimension::Length(w as _),
            height: taffy::Dimension::Length(h as _),
        },
        flex_grow: grow.into(),
        ..Default::default()
    }
}

/// `TaffyTree::new_leaf`: adds a node without parent and without children,
/// under a key that no node of the tree bears, with the style given. The
/// new node waits for a pass; nothing else changes. The method returns `Ok`
/// on every path.
#[verifier::external_body]
fn tree_new_leaf(tree: &mut taffy::TaffyTree<()>, style: taffy::Style) -> (id: u64)
    ensures
        !tree_parents(*old(tree)).dom().contains(id),
        tree_parents(*final(tree)) == tree_parents(*old(tree)).insert(id, None),
        tree_children(*final(tree)) == tree_children(*old(tree)).insert(id, Seq::empty()),
        tree_dirty(*final(tree)) == tree_dirty(*old(tree)).insert(id),
        tree_styles(*final(tree)) == tree_styles(*old(tree)).insert(id, style),
        forall|n: u64|
            tree_parents(*old(tree)).dom().contains(n) ==> #[trigger] tree_frames(*final(tree))[n]
                == tree_frames(*old(tree))[n],
{
    u64::from(tree.new_leaf(style).unwrap())
}

/// `TaffyTree::add_child`: makes `child` the last child of `parent`, and has
/// `parent` and its ancestors wait for a pass. No style changes. The method
/// indexes both nodes and walks up from `parent`, so both are in the tree
/// and the tree has no cycle. It does not take `child` out of another list,
/// so `child` has no parent yet; and `child`, which has no child of its own,
/// is not `parent`.
#[verifier::external_body]
fn tree_add_child(tree: &mut taffy::TaffyTree<()>, parent: u64, child: u64)
    requires
        tree_parents(*old(tree)).dom().contains(parent),
        tree_parents(*old(tree)).dom().contains(child),
        tree_parents(*old(tree))[child] is None,
        parent != child,
        forest(tree_parents(*old(tree))),
        forall|n: u64|
            tree_parents(*old(tree)).dom().contains(n) ==> #[trigger] tree_parents(*old(tree))[n]
                != Some(child),
    ensures
        tree_parents(*final(tree)) == tree_parents(*old(tree)).insert(child, Some(parent)),
        tree_children(*final(tree)) == tree_children(*old(tree)).insert(
            parent,
            tree_children(*old(tree))[parent].push(child),
        ),
        tree_dirty(*final(tree)) == tree_dirty(*old(tree)).union(
            lineage(tree_parents(*old(tree)), parent),
        ),
        tree_styles(*final(tree)) == tree_styles(*old(tree)),
        forall|n: u64|
            tree_parents(*old(tree)).dom().contains(n) ==> #[trigger] tree_frames(*final(tree))[n]
                == tree_frames(*old(tree))[n],
{
    let _ = tree.add_child(taffy::NodeId::from(parent), taffy::NodeId::from(child));
}

/// `TaffyTree::set_style`: replaces the style of `node`, and has `node` and
/// its ancestors wait for a pass. The method indexes the node and walks up
/// from it, so the node is in the tree and the tree has no cycle.
#[verifier::external_body]
fn tree_set_style(tree: &mut taffy::TaffyTree<()>, node: u64, style: taffy::Style)
    requires
        tree_parents(*old(tree)).dom().contains(node),
        forest(tree_parents(*old(tree))),
    ensures
        tree_parents(*final(tree)) == tree_parents(*old(tree)),
        tree_children(*final(tree)) == tree_children(*old(tree)),
        tree_dirty(*final(tree)) == tree_dirty(*old(tree)).union(
            lineage(tree_parents(*old(tree)), node),
        ),
        tree_frames(*final(tree)) == tree_frames(*old(tree)),
        tree_styles(*final(tree)) == tree_styles(*old(tree)).insert(node, style),
{
    let _ = tree.set_style(taffy::NodeId::from(node), style);
}

/// `TaffyTree::remove`: takes `node` out of the tree and out of the list of
/// its parent. The nodes of its own list stay, without parent, and every
/// node that stays keeps its style. The method indexes the node, so the node
/// is in the tree; it goes by the lists of children, so these tell the same
/// as the parents.
#[verifier::external_body]
fn tree_remove(tree: &mut taffy::TaffyTree<()>, node: u64)
    requires
        tree_parents(*old(tree)).dom().contains(node),
        linked(tree_parents(*old(tree)), tree_children(*old(tree))),
    ensures
        tree_parents(*final(tree)) == parents_without(tree_parents(*old(tree)), node),
        tree_children(*final(tree)) == children_without(tree_children(*old(tree)), node),
        tree_dirty(*final(tree)) == tree_dirty(*old(tree)).remove(node),
        tree_styles(*final(tree)) == tree_styles(*old(tree)).remove(node),
        forall|n: u64|
            tree_parents(*final(tree)).dom().contains(n) ==> #[trigger] tree_frames(*final(tree))[n]
                == tree_frames(*old(tree))[n],
{
    let _ = tree.remove(taffy::NodeId::from(node));
}

/// `TaffyTree::dirty`: whether `node` waits for a pass. The method indexes
/// the node, so the node is in the tree.
#[verifier::external_body]
fn tree_is_dirty(tree: &taffy::TaffyTree<()>, node: u64) -> (dirty: bool)
    requires
        tree_parents(*tree).dom().contains(node),
    ensures
        dirty == tree_dirty(*tree).contains(node),
{
    tree.dirty(taffy::NodeId::from(node)).unwrap()
}

/// `TaffyTree::compute_layout`, with no limit on the space: a pass of the
/// solver from `root` down. It gives the nodes new rectangles, leaves the
/// shape of the tree and the styles alone, and keeps what it found for the
/// root, so that the root waits no longer. The pass descends from the root
/// by the lists of children, so the root is in the tree, the tree has no
/// cycle, and the lists tell the same as the parents. On a grid the pass
/// counts tracks in numbers that may run over, and nothing is claimed of a
/// block: every node is a flex box or hidden.
#[verifier::external_body]
fn tree_compute(tree: &mut taffy::TaffyTree<()>, root: u64)
    requires
        tree_parents(*old(tree)).dom().contains(root),
        forest(tree_parents(*old(tree))),
        linked(tree_parents(*old(tree)), tree_children(*old(tree))),
        all_flexible(tree_parents(*old(tree)), tree_styles(*old(tree))),
    ensures
        tree_parents(*final(tree)) == tree_parents(*old(tree)),
        tree_children(*final(tree)) == tree_children(*old(tree)),
        tree_styles(*final(tree)) == tree_styles(*old(tree)),
        !tree_dirty(*final(tree)).contains(root),
{
    let _ = tree.compute_layout(taffy::NodeId::from(root), taffy::style_helpers::max_content());
}

/// `TaffyTree::parent`: the parent of `node`. The method indexes the node,
/// so the node is in the tree.
#[verifier::external_body]
fn tree_parent(tree: &taffy::TaffyTree<()>, node: u64) -> (parent: Option<u64>)
    requires
        tree_parents(*tree).dom().contains(node),
    ensures
        parent == tree_parents(*tree)[node],
{
    tree.parent(taffy::NodeId::from(node)).map(u64::from)
}

/// `TaffyTree::layout`: the rectangle that the last pass gave `node`,
/// relative to its parent, its numbers cut to integers. The method indexes
/// the node, so the node is in the tree.
#[verifier::external_body]
fn tree_frame(tree: &taffy::TaffyTree<()>, node: u64) -> (frame: Rect)
    requires
        tree_parents(*tree).dom().contains(node),
    ensures
        frame == tree_frames(*tree)[node],
{
    let layout = tree.layout(taffy::NodeId::from(node)).unwrap();
    Rect {
        x: layout.location.x as i32,
        y: layout.location.y as i32,
        w: layout.size.width as u32,
        h: layout.size.height as u32,
    }
}

/// `TaffyTree::style`: the style that `node` was last given. The method
/// indexes the node, so the node is in the tree.
#[verifier::external_body]
fn tree_style(tree: &taffy::TaffyTree<()>, node: u64) -> (style: &taffy::Style)
    requires
        tree_parents(*tree).dom().contains(node),
    ensures
        *style == tree_styles(*tree)[node],
{
    tree.style(taffy::NodeId::from(node)).unwrap()
}

/// `display` of a style of the solver. The body only tells the variants
/// apart.
#[verifier::external_body]
fn style_display_of(style: &taffy::Style) -> (display: SolverDisplay)
    ensures
        display == style_display(*style),
{
    match style.display {
        taffy::Display::Block => SolverDisplay::Block,
        taffy::Display::Flex => SolverDisplay::Flex,
        taffy::Display::Grid => SolverDisplay::Grid,
        taffy::Display::None => SolverDisplay::Hidden,
    }
}

/// `max_size.width` of a style of the solver. The body only tells the
/// variants apart and hands their numbers on.
#[verifier::external_body]
fn style_max_width(style: &taffy::Style) -> (cap: SolverSide)
    ensures
        cap == style_width_cap(*style),
{
    match style.max_size.width {
        taffy::Dimension::Length(width) => SolverSide::Length(width as u32),
        taffy::Dimension::Percent(share) => SolverSide::Percent(share.to_bits()),
        taffy::Dimension::Auto => SolverSide::Auto,
    }
}

/// The layout tree, as contracts see it.
pub struct LayoutState {
    /// The nodes of the tree, each with its parent.
    pub parents: Map<u64, Option<u64>>,
    /// The nodes of the tree, each with its children, oldest first.
    pub children: Map<u64, Seq<u64>>,
    /// The rectangle of each node, relative to its parent, as the last pass
    /// of the solver left it.
    pub frames: Map<u64, Rect>,
    /// The nodes that wait for a pass of the solver.
    pub dirty: Set<u64>,
    /// The style that each node was last given, in the solver's own form.
    pub styles: Map<u64, taffy::Style>,
    /// How deep each node was put in: a parent is less deep than its child.
    pub depth: Map<u64, nat>,
    /// The node that stands for the window.
    pub root: NodeId,
}

/// `v`, or the bound of `i32` that it has passed.
pub open spec fn saturated(v: int) -> i32 {
    if v > i32::MAX {
        i32::MAX
    } else if v < i32::MIN {
        i32::MIN
    } else {
        v as i32
    }
}

/// The sum of two coordinates, stopped at the bounds of `i32`.
pub fn saturating_sum(a: i32, b: i32) -> (sum: i32)
    ensures
        sum == saturated(a + b),
{
    let wide: i64 = a as i64 + b as i64;
    if wide > i32::MAX as i64 {
        i32::MAX
    } else if wide < i32::MIN as i64 {
        i32::MIN
    } else {
        wide as i32
    }
}

impl LayoutState {
    /// The root is in the tree, the tree has no cycle, the lists of children
    /// tell the same as the parents, and every node is a flex box or hidden.
    pub open spec fn wf(self) -> bool {
        &&& self.parents.dom().contains(self.root.raw)
        &&& ranked(self.parents, self.depth)
        &&& linked(self.parents, self.children)
        &&& all_flexible(self.parents, self.styles)
    }

    pub open spec fn has_node(self, node: NodeId) -> bool {
        self.parents.dom().contains(node.raw)
    }

    /// Whether the root waits for a pass of the solver.
    pub open spec fn needs_recompute(self) -> bool {
        self.dirty.contains(self.root.raw)
    }

    /// The root asks for the size `wdim`, sets no widest length and takes
    /// the free space with the factor of a root. A side above `EXACT_SIDE`
    /// is left open.
    pub open spec fn root_asks(self, wdim: (u32, u32)) -> bool {
        let style = self.styles[self.root.raw];
        &&& style_width_cap(style) is Auto
        &&& style_grow(style) == ROOT_GROW
        &&& wdim.0 <= EXACT_SIDE ==> style_size(style).0 == SolverSide::Length(wdim.0)
        &&& wdim.1 <= EXACT_SIDE ==> style_size(style).1 == SolverSide::Length(wdim.1)
    }

    /// The widest that a node may be; 0 where its style sets no such length.
    pub open spec fn max_width_of(self, node: u64) -> u32 {
        match style_width_cap(self.styles[node]) {
            SolverSide::Length(width) => width,
            _ => 0,
        }
    }

    /// `after` is `self` with `style` as the new style of `node`: the node
    /// and its ancestors wait for a pass, and nothing else has changed.
    pub open spec fn restyled(self, after: LayoutState, node: u64, style: taffy::Style) -> bool {
        &&& after.parents == self.parents
        &&& after.children == self.children
        &&& after.frames == self.frames
        &&& after.depth == self.depth
        &&& after.root == self.root
        &&& after.dirty == self.dirty.union(lineage(self.parents, node))
        &&& after.styles == self.styles.insert(node, style)
    }

    /// `after` is `self` with the new node `fresh` as the last child of
    /// `anchor`, with the style `style`: the new node, the anchor and the
    /// anchor's ancestors wait for a pass, and the rectangles and the styles
    /// of the other nodes have not changed.
    pub open spec fn attached(
        self,
        after: LayoutState,
        anchor: u64,
        fresh: u64,
        style: taffy::Style,
    ) -> bool {
        &&& !self.parents.dom().contains(fresh)
        &&& after.parents == self.parents.insert(fresh, Some(anchor))
        &&& after.children == self.children.insert(fresh, Seq::empty()).insert(
            anchor,
            self.children[anchor].push(fresh),
        )
        &&& after.styles == self.styles.insert(fresh, style)
        &&& after.depth == self.depth.insert(fresh, self.depth[anchor] + 1)
        &&& after.root == self.root
        &&& after.dirty == self.dirty.insert(fresh).union(lineage(self.parents, anchor))
        &&& forall|n: u64|
            self.parents.dom().contains(n) ==> #[trigger] after.frames[n] == self.frames[n]
    }

    /// `after` is `self` without `node`: the node has left the tree and the
    /// list of its parent, its children have no parent any more, and every
    /// node that stays keeps its style and its rectangle.
    pub open spec fn detached(self, after: LayoutState, node: u64) -> bool {
        &&& after.parents == parents_without(self.parents, node)
        &&& after.children == children_without(self.children, node)
        &&& after.dirty == self.dirty.remove(node)
        &&& after.styles == self.styles.remove(node)
        &&& after.depth == self.depth
        &&& after.root == self.root
        &&& forall|n: u64|
            after.parents.dom().contains(n) ==> #[trigger] after.frames[n] == self.frames[n]
    }

    /// `after` is `self` without the nodes `gone`: they have left the tree
    /// and the lists of children, what hung under them has no parent any
    /// more, and every node that stays keeps its style and its rectangle.
    pub open spec fn pruned(self, after: LayoutState, gone: Set<u64>) -> bool {
        &&& after.parents == Map::new(
            |n: u64| self.parents.dom().contains(n) && !gone.contains(n),
            |n: u64|
                if self.parents[n] is Some && gone.contains(self.parents[n]->Some_0) {
                    None
                } else {
                    self.parents[n]
                },
        )
        &&& after.children == Map::new(
            |n: u64| self.children.dom().contains(n) && !gone.contains(n),
            |n: u64| self.children[n].filter(outside(gone)),
        )
        &&& after.dirty == self.dirty.difference(gone)
        &&& after.styles == self.styles.remove_keys(gone)
        &&& after.depth == self.depth
        &&& after.root == self.root
        &&& forall|n: u64|
            after.parents.dom().contains(n) ==> #[trigger] after.frames[n] == self.frames[n]
    }

    /// The corner `acc` moved by the corners of the ancestors of `cur`, the
    /// nearest first. Each sum stops at the bounds of `i32`.
    pub open spec fn origin_from(self, cur: u64, acc: (i32, i32)) -> (i32, i32)
        decreases self.depth[cur],
    {
        if self.parents.dom().contains(cur) && self.parents[cur] is Some
            && self.depth[self.parents[cur]->Some_0] < self.depth[cur] {
            let p = self.parents[cur]->Some_0;
            self.origin_from(
                p,
                (saturated(acc.0 + self.frames[p].x), saturated(acc.1 + self.frames[p].y)),
            )
        } else {
            acc
        }
    }

    /// The rectangle of a node on the screen: its extent as the solver gave
    /// it, its corner moved by the corners of all its ancestors.
    pub open spec fn abs_rect(self, node: u64) -> Rect {
        let frame = self.frames[node];
        let origin = self.origin_from(node, (frame.x, frame.y));
        Rect { x: origin.0, y: origin.1, w: frame.w, h: frame.h }
    }
}

/// The scene at a place of the stack hangs in the layout under its parent:
/// the parent is in the stack, is the engine's root or has the scene among
/// its children, and has a node, which is the parent of the scene's node.
#[verifier::opaque]
pub open spec fn mirrored(stack: StackState, layout: LayoutState, l: int, i: int) -> bool {
    exists|m: int, j: int|
        stack.has(m, j) && (#[trigger] stack.layers[m][j]).id == stack.layers[l][i].parent && (
        stack.layers[m][j].id == 0 || stack.layers[m][j].children.contains(stack.layers[l][i].id))
            && stack.layers[m][j].node is Some && layout.parents[stack.layers[l][i].node->Some_0.raw]
            == Some(stack.layers[m][j].node->Some_0.raw)
}

/// Every layout node that the stack records is in the tree, no two scenes
/// record the same one, the node of the engine's root is the root, and
/// every other scene with a node hangs in the layout under its parent.
pub open spec fn anchored(stack: StackState, layout: LayoutState) -> bool {
    &&& stack.layers[0][0].node == Some(layout.root)
    &&& forall|l: int, i: int|
        stack.has(l, i) && (#[trigger] stack.layers[l][i]).node is Some ==> layout.has_node(
            stack.layers[l][i].node->Some_0,
        )
    &&& forall|l: int, i: int, m: int, j: int|
        stack.has(l, i) && stack.has(m, j) && (#[trigger] stack.layers[l][i]).node is Some && (
        #[trigger] stack.layers[m][j]).node == stack.layers[l][i].node ==> l == m && i == j
    &&& forall|l: int, i: int|
        stack.has(l, i) && (#[trigger] stack.layers[l][i]).node is Some && stack.layers[l][i].id
            != 0 ==> mirrored(stack, layout, l, i)
}

/// Why a scene got no place in the layout.
#[derive(Clone, Copy, Debug, PartialEq, Eq, Structural)]
pub enum LayoutError {
    /// No scene with the identifier is in the stack.
    UnknownScene,
    /// The parent of the scene is not in the stack, or does not have the
    /// scene among its children, or has no layout node.
    NoAnchor,
    /// The style asks for a grid or a block: the layout takes flex boxes
    /// and hidden nodes only.
    Unsupported,
}

/// Why the layout refuses to give the scene `requesting` a place with
/// `style`; nothing where it does not refuse. A scene must be in the stack;
/// a style must be one that the layout takes; and a scene without a node
/// must be the child of a scene that has one. The root scene of the
/// application is the child of the engine's root.
pub open spec fn refusal(stack: StackState, requesting: SceneID, style: taffy::Style) -> Option<
    LayoutError,
> {
    if !stack.live(requesting) {
        Some(LayoutError::UnknownScene)
    } else if !flexible(style) {
        Some(LayoutError::Unsupported)
    } else if stack.node_of(requesting).node is None && stack.anchor_of(requesting) is None {
        Some(LayoutError::NoAnchor)
    } else {
        None
    }
}

/// The scene `requesting` was given its place with `style`: a scene that
/// had a node has kept it, with the new style; a scene that had none has a
/// new one, the last child of the node of its parent.
pub open spec fn laid_out(
    layout: LayoutState,
    stack: StackState,
    layout_after: LayoutState,
    stack_after: StackState,
    requesting: SceneID,
    style: taffy::Style,
) -> bool {
    match stack.node_of(requesting).node {
        Some(node) => {
            &&& stack_after == stack
            &&& layout.restyled(layout_after, node.raw, style)
        },
        None => {
            let anchor = stack.anchor_of(requesting);
            &&& anchor is Some
            &&& exists|fresh: u64|
                {
                    &&& #[trigger] layout.attached(layout_after, anchor->Some_0.raw, fresh, style)
                    &&& stack_after == stack.with_node(requesting, NodeId { raw: fresh })
                }
        },
    }
}

/// Keeps the layout tree: one node for each scene that asked for a place,
/// under the node of its parent.
pub struct LayoutManager {
    taffy_tree: taffy::TaffyTree<()>,
    root_node_id: NodeId,
    depth: Ghost<Map<u64, nat>>,
}

impl View for LayoutManager {
    type V = LayoutState;

    closed spec fn view(&self) -> LayoutState {
        LayoutState {
            parents: tree_parents(self.taffy_tree),
            children: tree_children(self.taffy_tree),
            frames: tree_frames(self.taffy_tree),
            dirty: tree_dirty(self.taffy_tree),
            styles: tree_styles(self.taffy_tree),
            depth: self.depth@,
            root: self.root_node_id,
        }
    }
}

impl LayoutManager {
    /// A tree with one node, the root, which asks for the size of the window
    /// and takes the free space with a factor of one. The root waits for a
    /// pass.
    pub fn new(wdim: (u32, u32)) -> (manager: LayoutManager)
        ensures
            manager@.wf(),
            manager@.parents == Map::<u64, Option<u64>>::empty().insert(manager@.root.raw, None),
            manager@.children == Map::<u64, Seq<u64>>::empty().insert(
                manager@.root.raw,
                Seq::empty(),
            ),
            manager@.needs_recompute(),
            manager@.root_asks(wdim),
    {
        let mut taffy_tree = tree_new();
        let root = tree_new_leaf(&mut taffy_tree, sized_style(wdim.0, wdim.1, ROOT_GROW));
        let manager = LayoutManager {
            taffy_tree,
            root_node_id: NodeId { raw: root },
            depth: Ghost(Map::empty().insert(root, 0nat)),
        };
        proof {
            assert(manager@.parents =~= Map::<u64, Option<u64>>::empty().insert(root, None));
            assert(manager@.children =~= Map::<u64, Seq<u64>>::empty().insert(root, Seq::empty()));
        }
        manager
    }

    /// The node that stands for the window.
    pub fn root_node_id(&self) -> (root: NodeId)
        ensures
            root == self@.root,
    {
        self.root_node_id
    }

    /// Runs a pass of the solver where the root waits for one. Returns
    /// whether it did. The root waits no longer afterwards: a second call
    /// with nothing changed in between runs no pass.
    pub fn update_layout(&mut self) -> (recomputed: bool)
        requires
            old(self)@.wf(),
        ensures
            final(self)@.wf(),
            recomputed == old(self)@.needs_recompute(),
            !final(self)@.needs_recompute(),
            !recomputed ==> final(self)@ == old(self)@,
            final(self)@.parents == old(self)@.parents,
            final(self)@.children == old(self)@.children,
            final(self)@.styles == old(self)@.styles,
            final(self)@.depth == old(self)@.depth,
            final(self)@.root == old(self)@.root,
    {
        if tree_is_dirty(&self.taffy_tree, self.root_node_id.raw) {
            proof {
                assert(ranked(self@.parents, self@.depth));
            }
            tree_compute(&mut self.taffy_tree, self.root_node_id.raw);
            return true;
        }
        false
    }

    /// The rectangle of a node on the screen.
    pub fn abs_layout(&self, node: NodeId) -> (rect: Rect)
        requires
            self@.wf(),
            self@.has_node(node),
        ensures
            rect == self@.abs_rect(node.raw),
    {
        let frame = tree_frame(&self.taffy_tree, node.raw);
        let mut x: i32 = frame.x;
        let mut y: i32 = frame.y;
        let mut cur: u64 = node.raw;
        let mut par = tree_parent(&self.taffy_tree, cur);
        while par.is_some()
            invariant
                self@.wf(),
                self@.parents.dom().contains(cur),
                par == self@.parents[cur],
                self@.abs_rect(node.raw) == (Rect {
                    x: self@.origin_from(cur, (x, y)).0,
                    y: self@.origin_from(cur, (x, y)).1,
                    w: frame.w,
                    h: frame.h,
                }),
            decreases self@.depth[cur],
        {
            let p = par.unwrap();
            let pframe = tree_frame(&self.taffy_tree, p);
            x = saturating_sum(x, pframe.x);
            y = saturating_sum(y, pframe.y);
            cur = p;
            par = tree_parent(&self.taffy_tree, cur);
        }
        Rect { x, y, w: frame.w, h: frame.h }
    }

    /// Whether the scene `requesting` can be given a place with `style`, and
    /// why not.
    pub fn can_set_layout(requesting: SceneID, scene_stack: &SceneStack, style: &taffy::Style) -> (can:
        Result<(), LayoutError>)
        requires
            scene_stack@.wf(),
        ensures
            can == match refusal(scene_stack@, requesting, *style) {
                Some(error) => Err::<(), LayoutError>(error),
                None => Ok::<(), LayoutError>(()),
            },
    {
        let place = scene_stack.find(requesting);
        if place.is_none() {
            return Err(LayoutError::UnknownScene);
        }
        match style_display_of(style) {
            SolverDisplay::Flex => {},
            SolverDisplay::Hidden => {},
            _ => {
                return Err(LayoutError::Unsupported);
            },
        }
        if scene_stack.nodeid(requesting).is_none() && scene_stack.anchor_of(requesting).is_none() {
            return Err(LayoutError::NoAnchor);
        }
        Ok(())
    }

    /// Gives the scene `requesting` its place in the layout, or changes it.
    ///
    /// A scene that has a node keeps it, with the new style. A scene that
    /// has none gets a new one, as the last child of the node of its parent.
    /// A scene may ask for a place only after its parent has: a scene that
    /// is not in the stack, or is the child of no scene there, or whose
    /// parent has no node, is not to be handed in. `can_set_layout` tells.
    pub fn set_layout(
        &mut self,
        requesting: SceneID,
        scene_stack: &mut SceneStack,
        style: taffy::Style,
    )
        requires
            old(self)@.wf(),
            old(scene_stack)@.wf(),
            anchored(old(scene_stack)@, old(self)@),
            refusal(old(scene_stack)@, requesting, style) is None,
        ensures
            final(self)@.wf(),
            final(scene_stack)@.wf(),
            anchored(final(scene_stack)@, final(self)@),
            old(scene_stack).same_scenes(final(scene_stack)),
            laid_out(
                old(self)@,
                old(scene_stack)@,
                final(self)@,
                final(scene_stack)@,
                requesting,
                style,
            ),
            final(self)@.needs_recompute(),
    {
        proof {
            lemma_same_scenes_refl(scene_stack);
            lemma_live_place(scene_stack@, requesting);
            assert(ranked(self@.parents, self@.depth));
        }
        match scene_stack.nodeid(requesting) {
            Some(node) => {
                let ghost before = self@;
                proof {
                    let at = scene_stack@.place_of(requesting);
                    lemma_reaches_root(scene_stack@, before, at.0, at.1);
                }
                tree_set_style(&mut self.taffy_tree, node.raw, style);
                proof {
                    lemma_anchored_frame(scene_stack@, before, self@);
                    assert(lineage(before.parents, node.raw).contains(before.root.raw));
                }
            },
            None => {
                match scene_stack.anchor_of(requesting) {
                    Some(anchor_node) => {
                        let ghost stack_before = scene_stack@;
                        proof {
                            lemma_live_place(scene_stack@, scene_stack@.node_of(requesting).parent);
                            let up = scene_stack@.place_of(scene_stack@.node_of(requesting).parent);
                            lemma_reaches_root(scene_stack@, self@, up.0, up.1);
                        }
                        let ghost before = self@;
                        let new_nodeid = tree_new_leaf(&mut self.taffy_tree, style);
                        let ghost grown = self@;
                        proof {
                            assert(ranked(self@.parents, before.depth.insert(new_nodeid, 0nat)));
                            lemma_lineage_ignores_leaf(
                                before.parents,
                                before.depth,
                                new_nodeid,
                                anchor_node.raw,
                            );
                        }
                        tree_add_child(&mut self.taffy_tree, anchor_node.raw, new_nodeid);
                        proof {
                            self.depth@ = before.depth.insert(
                                new_nodeid,
                                before.depth[anchor_node.raw] + 1,
                            );
                            assert(self@.parents =~= before.parents.insert(
                                new_nodeid,
                                Some(anchor_node.raw),
                            ));
                            assert(grown.children[anchor_node.raw] == before.children[anchor_node.raw]);
                            lemma_attach_keeps_link(before, self@, anchor_node.raw, new_nodeid);
                        }
                        scene_stack.set_nodeid(requesting, NodeId { raw: new_nodeid });
                        proof {
                            assert(before.attached(self@, anchor_node.raw, new_nodeid, style));
                            lemma_anchored_attach(
                                stack_before,
                                before,
                                self@,
                                requesting,
                                anchor_node,
                                new_nodeid,
                            );
                            assert(lineage(before.parents, anchor_node.raw).contains(before.root.raw));
                        }
                    },
                    None => {},
                }
            },
        }
    }

    /// Gives the scene `requesting` its place in the layout, or changes it,
    /// where that can be done; where not, changes nothing and says why.
    pub fn try_set_layout(
        &mut self,
        requesting: SceneID,
        scene_stack: &mut SceneStack,
        style: taffy::Style,
    ) -> (done: Result<(), LayoutError>)
        requires
            old(self)@.wf(),
            old(scene_stack)@.wf(),
            anchored(old(scene_stack)@, old(self)@),
        ensures
            final(self)@.wf(),
            final(scene_stack)@.wf(),
            anchored(final(scene_stack)@, final(self)@),
            old(scene_stack).same_scenes(final(scene_stack)),
            match refusal(old(scene_stack)@, requesting, style) {
                Some(error) => {
                    &&& done == Err::<(), LayoutError>(error)
                    &&& final(self)@ == old(self)@
                    &&& final(scene_stack)@ == old(scene_stack)@
                },
                None => {
                    &&& done is Ok
                    &&& laid_out(
                        old(self)@,
                        old(scene_stack)@,
                        final(self)@,
                        final(scene_stack)@,
                        requesting,
                        style,
                    )
                    &&& final(self)@.needs_recompute()
                },
            },
    {
        match Self::can_set_layout(requesting, scene_stack, &style) {
            Ok(()) => {
                self.set_layout(requesting, scene_stack, style);
                Ok(())
            },
            Err(error) => {
                proof {
                    lemma_same_scenes_refl(scene_stack);
                }
                Err(error)
            },
        }
    }

    /// Takes a node out of the tree. Its children stay, without parent.
    pub fn remove_layout(&mut self, node_id: NodeId)
        requires
            old(self)@.wf(),
            old(self)@.has_node(node_id),
            node_id != old(self)@.root,
        ensures
            final(self)@.wf(),
            old(self)@.detached(final(self)@, node_id.raw),
    {
        let ghost before = self@;
        tree_remove(&mut self.taffy_tree, node_id.raw);
        proof {
            lemma_detach_keeps_link(before.parents, before.children, node_id.raw);
        }
    }

    /// Has the root ask for the size of the window. The root waits for a
    /// pass from then on.
    pub fn set_new_window_size(&mut self, wdim: (u32, u32))
        requires
            old(self)@.wf(),
        ensures
            final(self)@.wf(),
            final(self)@.needs_recompute(),
            old(self)@.restyled(
                final(self)@,
                old(self)@.root.raw,
                final(self)@.styles[old(self)@.root.raw],
            ),
            final(self)@.root_asks(wdim),
    {
        proof {
            assert(ranked(self@.parents, self@.depth));
            assert(climbs(self@.parents, self@.root.raw, self@.root.raw, 0));
        }
        tree_set_style(
            &mut self.taffy_tree,
            self.root_node_id.raw,
            sized_style(wdim.0, wdim.1, ROOT_GROW),
        );
    }

    /// The style of a node, in the solver's own form: the style that the
    /// node was last given.
    pub fn get_style(&self, node_id: NodeId) -> (style: &taffy::Style)
        requires
            self@.has_node(node_id),
        ensures
            *style == self@.styles[node_id.raw],
    {
        tree_style(&self.taffy_tree, node_id.raw)
    }

    /// The widest that the style of a node lets the node be; 0 where the
    /// style sets no such length.
    pub fn max_width(&self, node_id: NodeId) -> (width: u32)
        requires
            self@.has_node(node_id),
        ensures
            width == self@.max_width_of(node_id.raw),
    {
        match style_max_width(tree_style(&self.taffy_tree, node_id.raw)) {
            SolverSide::Length(width) => width,
            _ => 0,
        }
    }
}

/// A new leaf hung under a node as its last child leaves the lists of
/// children telling the same as the parents.
proof fn lemma_attach_keeps_link(before: LayoutState, after: LayoutState, anchor: u64, fresh: u64)
    requires
        linked(before.parents, before.children),
        ranked(before.parents, before.depth),
        before.parents.dom().contains(anchor),
        !before.parents.dom().contains(fresh),
        after.parents == before.parents.insert(fresh, Some(anchor)),
        after.children == before.children.insert(fresh, Seq::empty()).insert(
            anchor,
            before.children[anchor].push(fresh),
        ),
    ensures
        linked(after.parents, after.children),
{
    assert forall|p: u64, k: int|
        after.parents.dom().contains(p) && 0 <= k < after.children[p].len() implies after.parents.dom().contains(
        #[trigger] after.children[p][k],
    ) && after.parents[after.children[p][k]] == Some(p) by {
        if p == anchor {
            if k < before.children[anchor].len() {
                assert(after.children[p][k] == before.children[p][k]);
            }
        } else if p != fresh {
            assert(after.children[p][k] == before.children[p][k]);
        }
    }
    assert forall|c: u64|
        after.parents.dom().contains(c) && (#[trigger] after.parents[c]) is Some implies after.parents.dom().contains(
        after.parents[c]->Some_0,
    ) && after.children[after.parents[c]->Some_0].contains(c) by {
        let p = after.parents[c]->Some_0;
        if c == fresh {
            assert(after.children[anchor][before.children[anchor].len() as int] == fresh);
        } else {
            assert(before.parents[c] is Some);
            assert(before.children[p].contains(c));
            let k = choose|k: int| 0 <= k < before.children[p].len() && before.children[p][k] == c;
            if p == anchor {
                assert(after.children[p][k] == c);
            } else {
                assert(after.children[p] == before.children[p]);
            }
        }
    }
}

/// A node taken out of a tree, its children left without parent, leaves the
/// lists of children telling the same as the parents.
proof fn lemma_detach_keeps_link(
    parents: Map<u64, Option<u64>>,
    children: Map<u64, Seq<u64>>,
    node: u64,
)
    requires
        linked(parents, children),
        parents.dom().contains(node),
    ensures
        linked(parents_without(parents, node), children_without(children, node)),
{
    let after_parents = parents_without(parents, node);
    let after_children = children_without(children, node);
    let keep = other_than(node);
    assert forall|p: u64, k: int|
        after_parents.dom().contains(p) && 0 <= k < after_children[p].len() implies after_parents.dom().contains(
        #[trigger] after_children[p][k],
    ) && after_parents[after_children[p][k]] == Some(p) by {
        let kept = children[p].filter(keep);
        let c = kept[k];
        assert(kept.contains(c));
        children[p].lemma_filter_pred(keep, k);
        children[p].lemma_filter_contains_rev(keep, c);
        assert(children[p].contains(c) && c != node);
        let j = choose|j: int| 0 <= j < children[p].len() && children[p][j] == c;
        assert(parents[children[p][j]] == Some(p));
    }
    assert forall|c: u64|
        after_parents.dom().contains(c) && (#[trigger] after_parents[c]) is Some implies after_parents.dom().contains(
        after_parents[c]->Some_0,
    ) && after_children[after_parents[c]->Some_0].contains(c) by {
        let p = after_parents[c]->Some_0;
        assert(parents[c] == Some(p));
        assert(children[p].contains(c));
        let j = choose|j: int| 0 <= j < children[p].len() && children[p][j] == c;
        children[p].lemma_filter_contains(keep, j);
    }
    assert forall|n: u64| after_children.dom().contains(n) == after_parents.dom().contains(n) by {}
}

/// The scene that an anchor names is in the stack, and the node that it
/// names is the node of that scene.
pub proof fn lemma_anchor_has_node(stack: StackState, id: SceneID, fuel: nat)
    requires
        stack.wf(),
        stack.anchor_from(id, fuel) is Some,
    ensures
        stack.live(stack.anchor_from(id, fuel)->Some_0.0),
        stack.node_of(stack.anchor_from(id, fuel)->Some_0.0).node == Some(
            stack.anchor_from(id, fuel)->Some_0.1,
        ),
        stack.has(
            stack.place_of(stack.anchor_from(id, fuel)->Some_0.0).0,
            stack.place_of(stack.anchor_from(id, fuel)->Some_0.0).1,
        ),
    decreases fuel,
{
    if stack.live(id) && stack.node_of(id).node is None && fuel > 0 {
        lemma_anchor_has_node(stack, stack.node_of(id).parent, (fuel - 1) as nat);
    } else {
        lemma_live_place(stack, id);
    }
}

/// A node without parent and without children, put into a tree, is on the
/// way up from no node of the tree.
pub proof fn lemma_lineage_ignores_leaf(
    parents: Map<u64, Option<u64>>,
    depth: Map<u64, nat>,
    fresh: u64,
    node: u64,
)
    requires
        ranked(parents, depth),
        !parents.dom().contains(fresh),
        parents.dom().contains(node),
    ensures
        lineage(parents.insert(fresh, None), node) == lineage(parents, node),
{
    let grown = parents.insert(fresh, None);
    assert forall|a: u64| lineage(grown, node).contains(a) == lineage(parents, node).contains(
        a,
    ) by {
        if lineage(grown, node).contains(a) {
            let steps = choose|steps: nat| climbs(grown, node, a, steps);
            lemma_climbs_ignores_leaf(parents, depth, fresh, node, a, steps);
        }
        if lineage(parents, node).contains(a) {
            let steps = choose|steps: nat| climbs(parents, node, a, steps);
            lemma_climbs_ignores_leaf(parents, depth, fresh, node, a, steps);
        }
    }
    assert(lineage(grown, node) =~= lineage(parents, node));
}

proof fn lemma_climbs_ignores_leaf(
    parents: Map<u64, Option<u64>>,
    depth: Map<u64, nat>,
    fresh: u64,
    from: u64,
    to: u64,
    steps: nat,
)
    requires
        ranked(parents, depth),
        !parents.dom().contains(fresh),
        parents.dom().contains(from),
    ensures
        climbs(parents.insert(fresh, None), from, to, steps) == climbs(parents, from, to, steps),
    decreases steps,
{
    if from != to && steps > 0 && parents[from] is Some {
        lemma_climbs_ignores_leaf(
            parents,
            depth,
            fresh,
            parents[from]->Some_0,
            to,
            (steps - 1) as nat,
        );
    }
}

/// What is kept of a sequence by one test and then by another is what is
/// kept of it by both at once.
pub proof fn lemma_filter_twice(
    s: Seq<u64>,
    first: spec_fn(u64) -> bool,
    second: spec_fn(u64) -> bool,
    both: spec_fn(u64) -> bool,
)
    requires
        forall|x: u64| #[trigger] both(x) == (first(x) && second(x)),
    ensures
        s.filter(first).filter(second) == s.filter(both),
    decreases s.len(),
{
    reveal(Seq::filter);
    if s.len() > 0 {
        let front = s.drop_last();
        lemma_filter_twice(front, first, second, both);
        if first(s.last()) {
            let kept = front.filter(first);
            assert(kept.push(s.last()).drop_last() =~= kept);
        }
    } else {
        assert(s.filter(first) =~= s);
    }
}

/// A layout without some nodes, and then without one more, is the layout
/// without all of them.
pub proof fn lemma_prune_step(
    before: LayoutState,
    cur: LayoutState,
    next: LayoutState,
    gone: Set<u64>,
    node: u64,
)
    requires
        before.pruned(cur, gone),
        cur.parents.dom().contains(node),
        cur.detached(next, node),
        forall|n: u64| before.children.dom().contains(n) == before.parents.dom().contains(n),
    ensures
        before.pruned(next, gone.insert(node)),
{
    let more = gone.insert(node);
    assert(next.parents =~= Map::new(
        |n: u64| before.parents.dom().contains(n) && !more.contains(n),
        |n: u64|
            if before.parents[n] is Some && more.contains(before.parents[n]->Some_0) {
                None
            } else {
                before.parents[n]
            },
    ));
    assert forall|n: u64| before.children.dom().contains(n) && !more.contains(n) implies #[trigger] next.children[n]
        == before.children[n].filter(outside(more)) by {
        lemma_filter_twice(before.children[n], outside(gone), other_than(node), outside(more));
    }
    assert(next.children =~= Map::new(
        |n: u64| before.children.dom().contains(n) && !more.contains(n),
        |n: u64| before.children[n].filter(outside(more)),
    ));
    assert(next.dirty =~= before.dirty.difference(more));
    assert(next.styles =~= before.styles.remove_keys(more));
}

/// A layout without no node is the layout.
pub proof fn lemma_prune_nothing(layout: LayoutState)
    requires
        forall|n: u64| layout.children.dom().contains(n) == layout.parents.dom().contains(n),
    ensures
        layout.pruned(layout, Set::empty()),
{
    let none = Set::<u64>::empty();
    assert(layout.parents =~= Map::new(
        |n: u64| layout.parents.dom().contains(n) && !none.contains(n),
        |n: u64|
            if layout.parents[n] is Some && none.contains(layout.parents[n]->Some_0) {
                None
            } else {
                layout.parents[n]
            },
    ));
    assert forall|n: u64| layout.children.dom().contains(n) implies #[trigger] layout.children[n]
        == layout.children[n].filter(outside(none)) by {
        lemma_keep_all(layout.children[n], outside(none));
    }
    assert(layout.children =~= Map::new(
        |n: u64| layout.children.dom().contains(n) && !none.contains(n),
        |n: u64| layout.children[n].filter(outside(none)),
    ));
    assert(layout.dirty =~= layout.dirty.difference(none));
    assert(layout.styles =~= layout.styles.remove_keys(none));
}

/// A test that every number passes keeps a whole sequence.
pub proof fn lemma_keep_all(s: Seq<u64>, test: spec_fn(u64) -> bool)
    requires
        forall|x: u64| #[trigger] test(x),
    ensures
        s.filter(test) == s,
    decreases s.len(),
{
    reveal(Seq::filter);
    if s.len() > 0 {
        lemma_keep_all(s.drop_last(), test);
        assert(s.drop_last().push(s.last()) =~= s);
    }
}

/// What holds between a stack and a layout holds between the stack and a
/// layout with the same nodes, parents and root.
pub proof fn lemma_anchored_frame(stack: StackState, layout: LayoutState, after: LayoutState)
    requires
        anchored(stack, layout),
        after.parents == layout.parents,
        after.root == layout.root,
    ensures
        anchored(stack, after),
{
    reveal(mirrored);
    assert forall|l: int, i: int|
        stack.has(l, i) && (#[trigger] stack.layers[l][i]).node is Some && stack.layers[l][i].id
            != 0 implies mirrored(stack, after, l, i) by {
        assert(mirrored(stack, layout, l, i));
    }
}

/// A push keeps what holds between the stack and the layout: the new scene
/// has no node yet.
pub proof fn lemma_anchored_push(stack: StackState, layout: LayoutState, layer: int, parent: SceneID)
    requires
        stack.wf(),
        0 <= layer < MAX_LAY,
        anchored(stack, layout),
    ensures
        anchored(stack.pushed(layer, parent), layout),
{
    let after = stack.pushed(layer, parent);
    lemma_pushed_places(stack, layer, parent);
    assert(stack.has(0, 0));
    assert(after.layers[0][0] == StackState::adopt(stack.layers[0][0], parent, stack.next_scene_id));
    assert forall|l: int, i: int|
        after.has(l, i) && (#[trigger] after.layers[l][i]).node is Some implies stack.has(l, i)
        && after.layers[l][i].node == stack.layers[l][i].node && after.layers[l][i].id
        == stack.layers[l][i].id && after.layers[l][i].parent == stack.layers[l][i].parent by {
        if stack.has(l, i) {
            assert(after.layers[l][i] == StackState::adopt(
                stack.layers[l][i],
                parent,
                stack.next_scene_id,
            ));
        }
    }
    assert forall|l: int, i: int|
        after.has(l, i) && (#[trigger] after.layers[l][i]).node is Some && after.layers[l][i].id
            != 0 implies mirrored(after, layout, l, i) by {
        reveal(mirrored);
        assert(stack.has(l, i));
        assert(mirrored(stack, layout, l, i));
        let (m, j) = choose|m: int, j: int|
            stack.has(m, j) && (#[trigger] stack.layers[m][j]).id == stack.layers[l][i].parent && (
            stack.layers[m][j].id == 0 || stack.layers[m][j].children.contains(
                stack.layers[l][i].id,
            )) && stack.layers[m][j].node is Some
                && layout.parents[stack.layers[l][i].node->Some_0.raw] == Some(
                stack.layers[m][j].node->Some_0.raw,
            );
        assert(after.layers[m][j] == StackState::adopt(
            stack.layers[m][j],
            parent,
            stack.next_scene_id,
        ));
        let kid = stack.layers[l][i].id;
        if stack.layers[m][j].children.contains(kid) {
            let k = choose|k: int|
                0 <= k < stack.layers[m][j].children.len() && stack.layers[m][j].children[k] == kid;
            assert(after.layers[m][j].children[k] == kid);
        }
        assert(after.has(m, j) && after.layers[m][j].id == after.layers[l][i].parent && (
        after.layers[m][j].id == 0 || after.layers[m][j].children.contains(after.layers[l][i].id))
            && after.layers[m][j].node is Some);
    }
}

/// What the stack keeps about the scenes once the scene `id` has the node
/// `node`: every other scene as before.
pub proof fn lemma_with_node_places(stack: StackState, id: SceneID, node: NodeId)
    ensures
        stack.with_node(id, node).layers.len() == stack.layers.len(),
        forall|l: int, i: int|
            stack.has(l, i) ==> stack.with_node(id, node).has(l, i) && #[trigger] stack.with_node(
                id,
                node,
            ).layers[l][i] == (if stack.layers[l][i].id == id {
                crate::scene::NodeState { node: Some(node), ..stack.layers[l][i] }
            } else {
                stack.layers[l][i]
            }),
        forall|l: int, i: int| stack.with_node(id, node).has(l, i) ==> stack.has(l, i),
{
}

/// A new node for a scene, hung under the node of its parent, keeps what
/// holds between the stack and the layout.
pub proof fn lemma_anchored_attach(
    stack: StackState,
    layout: LayoutState,
    after: LayoutState,
    requesting: SceneID,
    anchor: NodeId,
    fresh: u64,
)
    requires
        stack.wf(),
        anchored(stack, layout),
        stack.live(requesting),
        stack.node_of(requesting).node is None,
        stack.anchor_of(requesting) == Some(anchor),
        !layout.parents.dom().contains(fresh),
        after.parents == layout.parents.insert(fresh, Some(anchor.raw)),
        after.root == layout.root,
    ensures
        anchored(stack.with_node(requesting, NodeId { raw: fresh }), after),
{
    let grown = stack.with_node(requesting, NodeId { raw: fresh });
    lemma_with_node_places(stack, requesting, NodeId { raw: fresh });
    lemma_live_place(stack, requesting);
    let at = stack.place_of(requesting);
    let parent = stack.node_of(requesting).parent;
    lemma_live_place(stack, parent);
    let up = stack.place_of(parent);
    assert(stack.has(0, 0));
    if requesting == 0 {
        lemma_same_place(stack, at.0, at.1, 0, 0);
    }
    assert forall|l: int, i: int|
        grown.has(l, i) && (#[trigger] grown.layers[l][i]).node is Some implies after.has_node(
        grown.layers[l][i].node->Some_0,
    ) by {
        if stack.layers[l][i].id != requesting {
            assert(stack.layers[l][i].node is Some);
        }
    }
    assert forall|l: int, i: int, m: int, j: int|
        grown.has(l, i) && grown.has(m, j) && (#[trigger] grown.layers[l][i]).node is Some && (
        #[trigger] grown.layers[m][j]).node == grown.layers[l][i].node implies l == m && i == j by {
        if stack.layers[l][i].id == requesting {
            if stack.layers[m][j].id != requesting {
                assert(stack.layers[m][j].node is Some);
                assert(layout.has_node(stack.layers[m][j].node->Some_0));
            } else {
                lemma_same_place(stack, l, i, m, j);
            }
        } else {
            assert(stack.layers[l][i].node is Some);
            assert(layout.has_node(stack.layers[l][i].node->Some_0));
            if stack.layers[m][j].id == requesting {
            } else {
                assert(stack.layers[m][j].node == stack.layers[l][i].node);
            }
        }
    }
    assert forall|l: int, i: int|
        grown.has(l, i) && (#[trigger] grown.layers[l][i]).node is Some && grown.layers[l][i].id
            != 0 implies mirrored(grown, after, l, i) by {
        reveal(mirrored);
        if stack.layers[l][i].id == requesting {
            lemma_same_place(stack, l, i, at.0, at.1);
            assert(grown.layers[up.0][up.1] == stack.layers[up.0][up.1]);
            if parent == requesting {
                lemma_same_place(stack, up.0, up.1, at.0, at.1);
            }
            assert(grown.layers[up.0][up.1] == stack.layers[up.0][up.1]);
            assert(grown.has(up.0, up.1) && grown.layers[up.0][up.1].id == grown.layers[l][i].parent
                && (grown.layers[up.0][up.1].id == 0 || grown.layers[up.0][up.1].children.contains(
                grown.layers[l][i].id,
            )) && grown.layers[up.0][up.1].node is Some);
        } else {
            assert(stack.layers[l][i].node is Some);
            assert(mirrored(stack, layout, l, i));
            let (m, j) = choose|m: int, j: int|
                stack.has(m, j) && (#[trigger] stack.layers[m][j]).id == stack.layers[l][i].parent
                    && (stack.layers[m][j].id == 0 || stack.layers[m][j].children.contains(
                    stack.layers[l][i].id,
                )) && stack.layers[m][j].node is Some
                    && layout.parents[stack.layers[l][i].node->Some_0.raw] == Some(
                    stack.layers[m][j].node->Some_0.raw,
                );
            if stack.layers[m][j].id == requesting {
                lemma_same_place(stack, m, j, at.0, at.1);
            }
            assert(grown.layers[m][j] == stack.layers[m][j]);
            assert(layout.has_node(stack.layers[l][i].node->Some_0));
            assert(grown.has(m, j) && grown.layers[m][j].id == grown.layers[l][i].parent && (
            grown.layers[m][j].id == 0 || grown.layers[m][j].children.contains(
                grown.layers[l][i].id,
            )) && grown.layers[m][j].node is Some);
        }
    }
}

/// From the node of a scene the way up comes to the root of the layout.
pub proof fn lemma_reaches_root(stack: StackState, layout: LayoutState, l: int, i: int)
    requires
        stack.wf(),
        anchored(stack, layout),
        stack.has(l, i),
        stack.layers[l][i].node is Some,
    ensures
        exists|steps: nat|
            climbs(layout.parents, stack.layers[l][i].node->Some_0.raw, layout.root.raw, steps),
    decreases stack.layers[l][i].id,
{
    let node = stack.layers[l][i].node->Some_0.raw;
    if stack.layers[l][i].id == 0 {
        assert(stack.has(0, 0));
        lemma_same_place(stack, l, i, 0, 0);
        assert(climbs(layout.parents, node, layout.root.raw, 0));
    } else {
        assert(mirrored(stack, layout, l, i));
        reveal(mirrored);
        let (m, j) = choose|m: int, j: int|
            stack.has(m, j) && (#[trigger] stack.layers[m][j]).id == stack.layers[l][i].parent && (
            stack.layers[m][j].id == 0 || stack.layers[m][j].children.contains(
                stack.layers[l][i].id,
            )) && stack.layers[m][j].node is Some && layout.parents[node] == Some(
                stack.layers[m][j].node->Some_0.raw,
            );
        if stack.layers[m][j].id != 0 {
            let k = choose|k: int|
                0 <= k < stack.layers[m][j].children.len() && stack.layers[m][j].children[k]
                    == stack.layers[l][i].id;
            assert(stack.layers[m][j].id < stack.layers[m][j].children[k]);
        }
        lemma_reaches_root(stack, layout, m, j);
        let up = stack.layers[m][j].node->Some_0.raw;
        let steps = choose|steps: nat| climbs(layout.parents, up, layout.root.raw, steps);
        assert(layout.has_node(stack.layers[l][i].node->Some_0));
        assert(climbs(layout.parents, node, layout.root.raw, steps + 1));
    }
}

/// Where a scene has left with all that descends from it, and the layout
/// has lost the nodes of those that left, a scene that stays still hangs in
/// the layout under its parent, which stays too.
pub proof fn lemma_mirrored_after_close(
    stack: StackState,
    layout: LayoutState,
    after: LayoutState,
    id: SceneID,
    l: int,
    i: int,
    o: int,
)
    requires
        stack.wf(),
        anchored(stack, layout),
        id != 0,
        layout.pruned(after, stack.nodes_of(stack.descendants(id))),
        stack.has(l, o),
        !stack.descendants(id).contains(stack.layers[l][o].id),
        stack.layers[l][o].node is Some,
        stack.layers[l][o].id != 0,
        stack.without(stack.descendants(id)).has(l, i),
        stack.without(stack.descendants(id)).layers[l][i] == stack.layers[l][o],
    ensures
        mirrored(stack.without(stack.descendants(id)), after, l, i),
{
    reveal(mirrored);
    let doomed = stack.descendants(id);
    let gone = stack.nodes_of(doomed);
    let rest = stack.without(doomed);
    let node = stack.layers[l][o].node->Some_0;
    assert(mirrored(stack, layout, l, o));
    let (m, j) = choose|m: int, j: int|
        stack.has(m, j) && (#[trigger] stack.layers[m][j]).id == stack.layers[l][o].parent && (
        stack.layers[m][j].id == 0 || stack.layers[m][j].children.contains(stack.layers[l][o].id))
            && stack.layers[m][j].node is Some && layout.parents[node.raw] == Some(
            stack.layers[m][j].node->Some_0.raw,
        );
    let up = stack.layers[m][j].node->Some_0;
    if doomed.contains(stack.layers[m][j].id) {
        if stack.layers[m][j].id == 0 {
            lemma_descendants_not_below(stack, id, 0);
        } else {
            let k = choose|k: int|
                0 <= k < stack.layers[m][j].children.len() && stack.layers[m][j].children[k]
                    == stack.layers[l][o].id;
            lemma_descendants_closed(stack, id, m, j, k);
        }
    }
    lemma_removal_spares(stack, id, m, j);
    let p = choose|p: int| rest.has(m, p) && #[trigger] rest.layers[m][p] == stack.layers[m][j];
    if gone.contains(up.raw) {
        assert(stack.is_node_of_any(doomed, NodeId { raw: up.raw }));
        let (a, b) = choose|a: int, b: int|
            stack.has(a, b) && doomed.contains((#[trigger] stack.layers[a][b]).id)
                && stack.layers[a][b].node == Some(up);
        assert(a == m && b == j);
    }
    if gone.contains(node.raw) {
        assert(stack.is_node_of_any(doomed, NodeId { raw: node.raw }));
        let (a, b) = choose|a: int, b: int|
            stack.has(a, b) && doomed.contains((#[trigger] stack.layers[a][b]).id)
                && stack.layers[a][b].node == Some(node);
        assert(a == l && b == o);
    }
    assert(layout.has_node(node));
    assert(after.parents.dom().contains(node.raw));
    assert(after.parents[node.raw] == Some(up.raw));
    assert(rest.has(m, p) && rest.layers[m][p].id == rest.layers[l][i].parent && (
    rest.layers[m][p].id == 0 || rest.layers[m][p].children.contains(rest.layers[l][i].id))
        && rest.layers[m][p].node is Some && after.parents[rest.layers[l][i].node->Some_0.raw] == Some(
        rest.layers[m][p].node->Some_0.raw,
    ));
}

} // verus!
