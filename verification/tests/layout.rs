use hamgraph::geometry::Rect;
use hamgraph::layout_manager::{
    saturating_sum, taffy_style, AlignContent, AlignItems, BoxFlags, BoxStyle, Dimension, FlexDirection, FlexWrap,
    Layout, LayoutError, LayoutManager, ITEMS_DIR_REVERSED, ITEMS_IN_COL, ITEMS_IN_ROW, NO_WRAP, WRAP_ITEMS,
    WRAP_ITEMS_REVERSED,
};
use hamgraph::scene::{Scene, SceneStack};

struct Blank {}

impl Scene for Blank {}

fn share(width: f32, height: f32) -> taffy::Style {
    taffy::Style {
        size: taffy::Size { width: taffy::Dimension::Percent(width), height: taffy::Dimension::Percent(height) },
        ..Default::default()
    }
}

fn setup(wdim: (u32, u32)) -> (LayoutManager, SceneStack) {
    let manager = LayoutManager::new(wdim);
    let stack = SceneStack::new(Box::new(Blank {}), manager.root_node_id());
    (manager, stack)
}

#[test]
fn the_default_request_is_a_wrapping_row_that_grows() {
    let layout = Layout::default();
    assert_eq!(layout.size, (None, None));
    assert_eq!(layout.flex, BoxFlags::default_box());
    assert_eq!(layout.justify_content, AlignContent::FlexStart);
    assert_eq!(layout.align_items, AlignItems::Stretch);
    assert_eq!(layout.align_content, None);
    assert_eq!(layout.gap, (100, 100));
    assert_eq!(layout.grow, 1000);
    assert_eq!(layout.align_self, None);
    assert_eq!(
        taffy_style(&layout),
        BoxStyle {
            width: Dimension::Auto,
            height: Dimension::Auto,
            flex_direction: FlexDirection::Row,
            flex_wrap: FlexWrap::Wrap,
            justify_content: Some(AlignContent::FlexStart),
            align_items: Some(AlignItems::Stretch),
            align_content: None,
            gap: (100, 100),
            flex_grow: 1000,
            align_self: None,
        }
    );
}

#[test]
fn a_request_hands_its_numbers_and_alignments_on() {
    let layout = Layout {
        size: (Some(500), None),
        flex: BoxFlags::default_box(),
        justify_content: AlignContent::SpaceBetween,
        align_items: AlignItems::Center,
        align_content: Some(AlignContent::End),
        gap: (10, 20),
        grow: 0,
        align_self: Some(AlignItems::Baseline),
    };
    let style = taffy_style(&layout);
    assert_eq!(style.width, Dimension::Percent(500));
    assert_eq!(style.height, Dimension::Auto);
    assert_eq!(style.justify_content, Some(AlignContent::SpaceBetween));
    assert_eq!(style.align_items, Some(AlignItems::Center));
    assert_eq!(style.align_content, Some(AlignContent::End));
    assert_eq!(style.gap, (10, 20));
    assert_eq!(style.flex_grow, 0);
    assert_eq!(style.align_self, Some(AlignItems::Baseline));
}

fn axes(bits: u64) -> (FlexDirection, FlexWrap) {
    let style = taffy_style(&Layout { flex: BoxFlags::from_bits(bits), ..Layout::default() });
    (style.flex_direction, style.flex_wrap)
}

#[test]
fn the_flags_choose_the_direction_and_the_wrapping() {
    assert_eq!(axes(0), (FlexDirection::Row, FlexWrap::Wrap));
    assert_eq!(axes(ITEMS_IN_ROW), (FlexDirection::Row, FlexWrap::Wrap));
    assert_eq!(axes(ITEMS_IN_COL), (FlexDirection::Column, FlexWrap::Wrap));
    assert_eq!(axes(ITEMS_IN_ROW | ITEMS_DIR_REVERSED), (FlexDirection::RowReverse, FlexWrap::Wrap));
    assert_eq!(axes(ITEMS_IN_COL | ITEMS_DIR_REVERSED), (FlexDirection::ColumnReverse, FlexWrap::Wrap));
    // A row wins over a column, and a reversal alone turns nothing.
    assert_eq!(axes(ITEMS_IN_ROW | ITEMS_IN_COL), (FlexDirection::Row, FlexWrap::Wrap));
    assert_eq!(axes(ITEMS_DIR_REVERSED), (FlexDirection::Row, FlexWrap::Wrap));
    assert_eq!(axes(NO_WRAP), (FlexDirection::Row, FlexWrap::NoWrap));
    assert_eq!(axes(WRAP_ITEMS), (FlexDirection::Row, FlexWrap::Wrap));
    assert_eq!(axes(WRAP_ITEMS_REVERSED), (FlexDirection::Row, FlexWrap::WrapReverse));
    // Reversed wrapping wins over no wrapping.
    assert_eq!(axes(WRAP_ITEMS_REVERSED | NO_WRAP), (FlexDirection::Row, FlexWrap::WrapReverse));
    assert_eq!(axes(ITEMS_IN_COL | NO_WRAP), (FlexDirection::Column, FlexWrap::NoWrap));
}

#[test]
fn box_flags_are_sets_of_bits() {
    let flags = BoxFlags::from_bits(ITEMS_IN_COL).union(BoxFlags::from_bits(NO_WRAP));
    assert_eq!(flags.bits(), 0b10_0010);
    assert!(flags.contains(BoxFlags::from_bits(ITEMS_IN_COL)));
    assert!(!flags.contains(BoxFlags::from_bits(ITEMS_IN_ROW)));
    assert!(!flags.contains(BoxFlags::from_bits(ITEMS_IN_COL | ITEMS_IN_ROW)));
    assert!(flags.contains(BoxFlags::default_box()));
}

#[test]
fn sums_of_coordinates_stop_at_the_bounds() {
    assert_eq!(saturating_sum(3, 4), 7);
    assert_eq!(saturating_sum(-3, 1), -2);
    assert_eq!(saturating_sum(i32::MAX, 1), i32::MAX);
    assert_eq!(saturating_sum(i32::MIN, -1), i32::MIN);
    assert_eq!(saturating_sum(i32::MAX, i32::MIN), -1);
}

#[test]
fn a_new_tree_waits_for_its_first_pass() {
    let (mut manager, _stack) = setup((800, 600));
    assert!(manager.update_layout());
    assert_eq!(manager.abs_layout(manager.root_node_id()), Rect::new(0, 0, 800, 600));
    // Nothing has changed since: no second pass.
    assert!(!manager.update_layout());
}

#[test]
fn a_scene_gets_a_node_under_the_node_of_its_parent() {
    let (mut manager, mut stack) = setup((800, 600));
    assert_eq!(manager.try_set_layout(1, &mut stack, share(0.5, 1.0)), Ok(()));
    let node = stack.nodeid(1).expect("scene 1 has no node");
    assert_ne!(node, manager.root_node_id());
    assert!(manager.update_layout());
    assert_eq!(manager.abs_layout(node), Rect::new(0, 0, 400, 600));
}

#[test]
fn a_scene_that_has_a_node_keeps_it_and_gets_the_new_style() {
    let (mut manager, mut stack) = setup((800, 600));
    assert_eq!(manager.try_set_layout(1, &mut stack, share(0.5, 1.0)), Ok(()));
    let node = stack.nodeid(1).unwrap();
    assert!(manager.update_layout());
    assert_eq!(manager.try_set_layout(1, &mut stack, share(0.25, 0.5)), Ok(()));
    assert_eq!(stack.nodeid(1), Some(node));
    // The new style has the tree wait for a pass again.
    assert!(manager.update_layout());
    assert_eq!(manager.abs_layout(node), Rect::new(0, 0, 200, 300));
}

#[test]
fn a_scene_whose_parent_never_asked_for_a_place_gets_none() {
    let (mut manager, mut stack) = setup((800, 600));
    stack.push(1, Box::new(Blank {}), 1); // 2, never asks for a place
    stack.push(1, Box::new(Blank {}), 2); // 3
    assert_eq!(manager.try_set_layout(1, &mut stack, share(0.5, 1.0)), Ok(()));
    // Scene 1, further up, has a node; the parent of scene 3 has none.
    assert_eq!(manager.try_set_layout(3, &mut stack, share(0.5, 0.5)), Err(LayoutError::NoAnchor));
    assert_eq!(stack.nodeid(3), None);
    assert_eq!(stack.nodeid(2), None);
    // Once the parent has its place the scene gets one under it.
    assert_eq!(manager.try_set_layout(2, &mut stack, share(0.5, 1.0)), Ok(()));
    assert_eq!(manager.try_set_layout(3, &mut stack, share(0.5, 0.5)), Ok(()));
    assert!(manager.update_layout());
    assert_eq!(manager.abs_layout(stack.nodeid(3).unwrap()), Rect::new(0, 0, 100, 300));
}

#[test]
fn a_scene_without_a_scene_with_a_node_above_it_gets_no_place() {
    let (mut manager, mut stack) = setup((800, 600));
    stack.push(1, Box::new(Blank {}), 50); // 2, its parent was never there
    stack.push(1, Box::new(Blank {}), 2); // 3, its parent never asked for a place
    assert_eq!(manager.try_set_layout(3, &mut stack, share(0.5, 0.5)), Err(LayoutError::NoAnchor));
    assert_eq!(manager.try_set_layout(2, &mut stack, share(0.5, 0.5)), Err(LayoutError::NoAnchor));
    assert_eq!(stack.nodeid(3), None);
    assert_eq!(stack.nodeid(2), None);
}

#[test]
fn a_scene_that_is_not_in_the_stack_gets_no_place() {
    let (mut manager, mut stack) = setup((800, 600));
    assert_eq!(manager.try_set_layout(9, &mut stack, share(0.5, 0.5)), Err(LayoutError::UnknownScene));
}

#[test]
fn the_corners_of_the_ancestors_add_up() {
    let (mut manager, mut stack) = setup((800, 600));
    stack.push(1, Box::new(Blank {}), 1); // 2
    stack.push(1, Box::new(Blank {}), 1); // 3
    stack.push(2, Box::new(Blank {}), 3); // 4
    stack.push(2, Box::new(Blank {}), 3); // 5
    let whole = taffy::Style {
        size: taffy::Size { width: taffy::Dimension::Percent(1.0), height: taffy::Dimension::Percent(1.0) },
        flex_wrap: taffy::FlexWrap::NoWrap,
        ..Default::default()
    };
    assert_eq!(manager.try_set_layout(1, &mut stack, whole), Ok(()));
    assert_eq!(manager.try_set_layout(2, &mut stack, share(0.25, 1.0)), Ok(()));
    let right = taffy::Style { flex_wrap: taffy::FlexWrap::NoWrap, ..share(0.75, 1.0) };
    assert_eq!(manager.try_set_layout(3, &mut stack, right), Ok(()));
    assert_eq!(manager.try_set_layout(4, &mut stack, share(0.5, 0.5)), Ok(()));
    assert_eq!(manager.try_set_layout(5, &mut stack, share(0.5, 0.5)), Ok(()));
    assert!(manager.update_layout());
    assert_eq!(manager.abs_layout(stack.nodeid(2).unwrap()), Rect::new(0, 0, 200, 600));
    assert_eq!(manager.abs_layout(stack.nodeid(3).unwrap()), Rect::new(200, 0, 600, 600));
    assert_eq!(manager.abs_layout(stack.nodeid(4).unwrap()), Rect::new(200, 0, 300, 300));
    // 200 for scene 3, and 300 for scene 4 beside it.
    assert_eq!(manager.abs_layout(stack.nodeid(5).unwrap()), Rect::new(500, 0, 300, 300));
}

#[test]
fn a_wider_window_widens_what_holds_a_share_of_it() {
    struct Framed {
        seen: std::rc::Rc<std::cell::RefCell<Vec<(u8, Rect)>>>,
        tag: u8,
    }
    impl Scene for Framed {
        fn pos_changed(&mut self, pos: Rect) {
            self.seen.borrow_mut().push((self.tag, pos));
        }
    }
    let seen = std::rc::Rc::new(std::cell::RefCell::new(Vec::new()));
    let framed = |tag: u8| Box::new(Framed { seen: std::rc::Rc::clone(&seen), tag });
    let mut manager = LayoutManager::new((800, 600));
    let mut stack = SceneStack::new(framed(1), manager.root_node_id());
    stack.push(4, framed(2), 1); // 2, on a higher layer
    stack.push(2, framed(3), 1); // 3
    stack.push(2, framed(4), 1); // 4, never asks for a place
    let whole = taffy::Style { flex_wrap: taffy::FlexWrap::NoWrap, ..share(1.0, 1.0) };
    assert_eq!(manager.try_set_layout(1, &mut stack, whole), Ok(()));
    assert_eq!(manager.try_set_layout(2, &mut stack, share(0.5, 1.0)), Ok(()));
    assert_eq!(manager.try_set_layout(3, &mut stack, share(0.25, 0.5)), Ok(()));
    assert!(manager.update_layout());
    let told = stack.update_layout(&manager);
    assert_eq!(
        told,
        vec![
            (0, Rect::new(0, 0, 800, 600)),
            (1, Rect::new(0, 0, 800, 600)),
            (3, Rect::new(400, 0, 200, 300)),
            (2, Rect::new(0, 0, 400, 600)),
        ]
    );
    // From the bottom layer up; the engine's own root hears nothing of it.
    assert_eq!(
        *seen.borrow(),
        vec![
            (1, Rect::new(0, 0, 800, 600)),
            (3, Rect::new(400, 0, 200, 300)),
            (2, Rect::new(0, 0, 400, 600)),
        ]
    );
    seen.borrow_mut().clear();

    manager.set_new_window_size((1200, 600));
    assert!(manager.update_layout());
    let told = stack.update_layout(&manager);
    assert_eq!(
        told,
        vec![
            (0, Rect::new(0, 0, 1200, 600)),
            (1, Rect::new(0, 0, 1200, 600)),
            (3, Rect::new(600, 0, 300, 300)),
            (2, Rect::new(0, 0, 600, 600)),
        ]
    );
    assert_eq!(seen.borrow().len(), 3);
    assert_eq!(seen.borrow()[2], (2, Rect::new(0, 0, 600, 600)));
}

#[test]
fn a_removed_node_leaves_its_children_behind_without_parent() {
    let (mut manager, mut stack) = setup((800, 600));
    stack.push(1, Box::new(Blank {}), 1); // 2
    stack.push(1, Box::new(Blank {}), 1); // 3
    stack.push(1, Box::new(Blank {}), 3); // 4
    let fixed = |width: f32, height: f32| taffy::Style {
        size: taffy::Size { width: taffy::Dimension::Length(width), height: taffy::Dimension::Length(height) },
        flex_shrink: 0.0,
        ..Default::default()
    };
    let padded = taffy::Style {
        padding: taffy::Rect {
            left: taffy::LengthPercentage::Length(30.0),
            right: taffy::LengthPercentage::Length(0.0),
            top: taffy::LengthPercentage::Length(20.0),
            bottom: taffy::LengthPercentage::Length(0.0),
        },
        ..fixed(400.0, 300.0)
    };
    let row = taffy::Style { flex_wrap: taffy::FlexWrap::NoWrap, ..share(1.0, 1.0) };
    assert_eq!(manager.try_set_layout(1, &mut stack, row), Ok(()));
    assert_eq!(manager.try_set_layout(2, &mut stack, fixed(100.0, 50.0)), Ok(()));
    assert_eq!(manager.try_set_layout(3, &mut stack, padded), Ok(()));
    assert_eq!(manager.try_set_layout(4, &mut stack, fixed(10.0, 10.0)), Ok(()));
    assert!(manager.update_layout());
    let parent = stack.nodeid(3).unwrap();
    let child = stack.nodeid(4).unwrap();
    assert_eq!(manager.abs_layout(parent), Rect::new(100, 0, 400, 300));
    assert_eq!(manager.abs_layout(child), Rect::new(130, 20, 10, 10));
    manager.remove_layout(parent);
    // The child has no parent any more: its own corner is all that counts.
    assert_eq!(manager.abs_layout(child), Rect::new(30, 20, 10, 10));
    // The node beside the removed one is where it was.
    assert_eq!(manager.abs_layout(stack.nodeid(2).unwrap()), Rect::new(0, 0, 100, 50));
}

#[test]
fn a_style_without_a_widest_length_has_none() {
    let (mut manager, mut stack) = setup((800, 600));
    assert_eq!(manager.max_width(manager.root_node_id()), 0);
    let capped = taffy::Style {
        max_size: taffy::Size { width: taffy::Dimension::Length(320.0), height: taffy::Dimension::Auto },
        ..Default::default()
    };
    assert_eq!(manager.try_set_layout(1, &mut stack, capped), Ok(()));
    assert_eq!(manager.max_width(stack.nodeid(1).unwrap()), 320);
    assert_eq!(manager.get_style(stack.nodeid(1).unwrap()).max_size.width, taffy::Dimension::Length(320.0));
    // The root keeps its own style, which sets no such length.
    assert_eq!(manager.max_width(manager.root_node_id()), 0);
    assert_eq!(manager.get_style(manager.root_node_id()).max_size.width, taffy::Dimension::Auto);
    assert_eq!(manager.get_style(manager.root_node_id()).size.width, taffy::Dimension::Length(800.0));
    // A new style takes the place of the old one.
    assert_eq!(manager.try_set_layout(1, &mut stack, taffy::Style::default()), Ok(()));
    assert_eq!(manager.max_width(stack.nodeid(1).unwrap()), 0);
}

#[test]
fn the_layout_tells_whether_a_scene_can_have_a_place() {
    let (mut manager, mut stack) = setup((800, 600));
    stack.push(1, Box::new(Blank {}), 1); // 2
    let style = share(0.5, 0.5);
    assert_eq!(LayoutManager::can_set_layout(1, &stack, &style), Ok(()));
    assert_eq!(LayoutManager::can_set_layout(0, &stack, &style), Ok(()));
    assert_eq!(LayoutManager::can_set_layout(2, &stack, &style), Err(LayoutError::NoAnchor));
    assert_eq!(LayoutManager::can_set_layout(3, &stack, &style), Err(LayoutError::UnknownScene));
    let grid = taffy::Style { display: taffy::Display::Grid, ..Default::default() };
    assert_eq!(LayoutManager::can_set_layout(1, &stack, &grid), Err(LayoutError::Unsupported));
    manager.set_layout(1, &mut stack, style.clone());
    assert_eq!(LayoutManager::can_set_layout(2, &stack, &style), Ok(()));
    manager.set_layout(2, &mut stack, style);
    assert!(stack.nodeid(2).is_some());
    assert!(manager.update_layout());
    assert_eq!(manager.abs_layout(stack.nodeid(2).unwrap()), Rect::new(0, 0, 200, 150));
}

#[test]
fn a_new_place_or_a_new_style_has_the_root_wait_for_a_pass() {
    let (mut manager, mut stack) = setup((800, 600));
    assert!(manager.update_layout());
    assert!(!manager.update_layout());
    stack.push(1, Box::new(Blank {}), 1); // 2
    stack.push(2, Box::new(Blank {}), 2); // 3
    assert_eq!(manager.try_set_layout(1, &mut stack, share(1.0, 1.0)), Ok(()));
    assert!(manager.update_layout());
    assert_eq!(manager.try_set_layout(2, &mut stack, share(1.0, 1.0)), Ok(()));
    assert!(manager.update_layout());
    // A new node three levels below the root.
    assert_eq!(manager.try_set_layout(3, &mut stack, share(0.5, 0.5)), Ok(()));
    assert!(manager.update_layout());
    assert!(!manager.update_layout());
    // A new style on it.
    assert_eq!(manager.try_set_layout(3, &mut stack, share(0.25, 0.5)), Ok(()));
    assert!(manager.update_layout());
    assert_eq!(manager.abs_layout(stack.nodeid(3).unwrap()), Rect::new(0, 0, 200, 300));
}
