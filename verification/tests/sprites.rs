use hamgraph::action::{Action, Event, MouseButton};
use hamgraph::action_bus::ActionBus;
use hamgraph::button_scene::ButtonScene;
use hamgraph::geometry::{Color, Rect};
use hamgraph::layout_manager::{Layout, NodeId};
use hamgraph::renderer::{DrawCommand, Renderer};
use hamgraph::scene::{RootScene, Scene, SceneStack};
use hamgraph::sprite::{Placement, Sprite, SpriteJsonRep, SpriteSheetJsonRep, SpriteStore};
use hamgraph::text_scene::TextScene;
use hamgraph::utils::is_point_in_rect;
use hamgraph::HamID;

fn described(name: &str, x: i32, y: i32, w: u32, h: u32) -> SpriteJsonRep {
    SpriteJsonRep { name: name.to_string(), x, y, w, h, make_alone: None }
}

fn sheets() -> Vec<SpriteSheetJsonRep> {
    vec![
        SpriteSheetJsonRep {
            file: "hero.png".to_string(),
            sprites: vec![described("idle", 0, 0, 16, 32), described("run", 16, 0, 16, 32)],
        },
        SpriteSheetJsonRep { file: "empty.png".to_string(), sprites: vec![] },
        SpriteSheetJsonRep { file: "tiles.png".to_string(), sprites: vec![described("grass", 8, 8, 8, 8)] },
    ]
}

#[test]
fn the_store_holds_the_sprites_sheet_after_sheet() {
    let store = SpriteStore::new(&sheets());
    assert_eq!(store.shared_len(), 3);
    let idle = store.render(0, 0, 0).unwrap();
    assert_eq!(idle.texture_id, 0);
    assert_eq!(idle.src_rect, Rect::new(0, 0, 16, 32));
    let run = store.render(1, 0, 0).unwrap();
    assert_eq!((run.texture_id, run.src_rect), (0, Rect::new(16, 0, 16, 32)));
    let grass = store.render(2, 0, 0).unwrap();
    assert_eq!((grass.texture_id, grass.src_rect), (2, Rect::new(8, 8, 8, 8)));
    assert_eq!(SpriteStore::new(&Vec::new()).shared_len(), 0);
}

#[test]
fn a_sprite_lands_at_the_asked_corner_in_its_own_size() {
    let store = SpriteStore::new(&sheets());
    assert_eq!(
        store.render(1, -40, 70),
        Some(Placement { texture_id: 0, src_rect: Rect::new(16, 0, 16, 32), dest_rect: Rect::new(-40, 70, 16, 32) })
    );
    assert_eq!(store.render(3, 0, 0), None);
    assert_eq!(store.render(usize::MAX, 0, 0), None);
}

#[test]
fn the_sprite_of_a_text_shows_its_whole_texture() {
    let mut store = SpriteStore::new(&sheets());
    assert_eq!(store.commit_ttf_texture(120, 24, 3), 3);
    assert_eq!(store.shared_len(), 4);
    assert_eq!(
        store.render(3, 5, 6),
        Some(Placement { texture_id: 3, src_rect: Rect::new(0, 0, 120, 24), dest_rect: Rect::new(5, 6, 120, 24) })
    );
    assert_eq!(store.commit_ttf_texture(1, 1, 9), 4);
    assert_eq!(Sprite::new(Rect::new(1, 2, 3, 4), 5), Sprite { src_rect: Rect::new(1, 2, 3, 4), texture_id: 5 });
}

#[test]
fn a_point_is_in_a_rectangle_up_to_its_right_and_bottom_edges() {
    let rect = Rect::new(10, 20, 30, 40);
    assert!(is_point_in_rect(&rect, 10, 20));
    assert!(is_point_in_rect(&rect, 39, 59));
    assert!(!is_point_in_rect(&rect, 40, 59));
    assert!(!is_point_in_rect(&rect, 39, 60));
    assert!(!is_point_in_rect(&rect, 9, 20));
    assert!(!is_point_in_rect(&rect, 10, 19));
    assert!(!is_point_in_rect(&Rect::new(0, 0, 0, 10), 0, 0));
    // No sum runs over.
    let huge = Rect::new(i32::MAX - 1, i32::MIN, u32::MAX, u32::MAX);
    assert!(is_point_in_rect(&huge, i32::MAX, i32::MAX - 1));
    assert!(!is_point_in_rect(&huge, i32::MAX, i32::MAX));
    assert!(!is_point_in_rect(&huge, i32::MAX - 2, 0));
    assert!(is_point_in_rect(&Rect::new(-5, -5, 10, 10), -1, 4));
    assert!(!is_point_in_rect(&Rect::new(-5, -5, 10, 10), 5, 4));
}

#[test]
fn colours_are_opaque_unless_told() {
    assert_eq!(Color::RGB(1, 2, 3), Color { r: 1, g: 2, b: 3, a: 255 });
}

#[test]
fn a_text_scene_asks_for_its_texture_and_draws_the_sprite_it_was_promised() {
    let mut scene = TextScene::new("hello".to_string(), "big".to_string());
    let mut bus = ActionBus::new(9);
    bus.prepare(4, 5);
    scene.init(&mut bus);
    let texts = bus.take_prioritary();
    assert_eq!(texts.len(), 1);
    assert_eq!(texts[0].source_scene, 4);
    assert_eq!(texts[0].back_id, Some(HamID::SpriteID(9)));
    match &texts[0].action {
        Action::CreateText { font, size, text } => {
            assert_eq!((font.as_str(), size.as_str(), text.as_str()), ("VcrOsdMono", "big", "hello"));
        }
        _ => panic!("not a text"),
    }
    let places = bus.take_all();
    assert_eq!(places.len(), 1);
    assert!(matches!(places[0].action, Action::RequestLayout(layout) if layout == Layout::default()));

    let mut renderer = Renderer::new();
    scene.render(&mut renderer);
    scene.pos_changed(Rect::new(300, 200, 50, 10));
    scene.render(&mut renderer);
    assert_eq!(
        renderer.take_commands(),
        vec![
            DrawCommand::Sprite { sprite_id: 9, x: 25, y: 25, alpha: None },
            DrawCommand::Sprite { sprite_id: 9, x: 300, y: 200, alpha: None },
        ]
    );
    assert_eq!(scene.subscriptions().bits(), 0);
    assert_eq!(scene.left_click_zone(), None);
}

#[test]
fn a_text_scene_on_a_full_bus_asks_for_nothing() {
    let mut scene = TextScene::new("hello".to_string(), "big".to_string());
    let mut bus = ActionBus::new(usize::MAX);
    scene.init(&mut bus);
    assert!(bus.take_prioritary().is_empty());
    assert!(bus.take_all().is_empty());
}

#[test]
fn a_button_is_pressed_and_released() {
    let mut button = ButtonScene::new("go", Color::RGB(9, 9, 9), Layout::default());
    let mut bus = ActionBus::new(0);
    let down = Action::SdlEvent(Event::MouseButtonDown { mouse_btn: MouseButton::Left, x: 5, y: 5 });
    let up_inside = Action::SdlEvent(Event::MouseButtonUp { mouse_btn: MouseButton::Left, x: 5, y: 5 });
    let up_outside = Action::SdlEvent(Event::MouseButtonUp { mouse_btn: MouseButton::Left, x: 50, y: 5 });
    let right = Action::SdlEvent(Event::MouseButtonDown { mouse_btn: MouseButton::Right, x: 5, y: 5 });

    // Without a place the button hears nothing.
    assert_eq!(button.left_click_zone(), None);
    assert!(!button.handle_action(&down, None, &mut bus));
    button.pos_changed(Rect::new(0, 0, 10, 10));
    assert_eq!(button.left_click_zone(), Some(Rect::new(0, 0, 10, 10)));
    assert_eq!(button.name(), "go");
    assert_eq!(button.subscriptions().bits(), 1);
    assert!(!button.is_modal());

    // A release without a press is not for the button.
    assert!(!button.handle_action(&up_inside, None, &mut bus));
    assert!(!button.handle_action(&right, None, &mut bus));
    assert!(!button.handle_action(&Action::ButtonPressed, None, &mut bus));
    assert!(bus.take_all().is_empty());

    assert!(button.handle_action(&down, None, &mut bus));
    assert!(button.handle_action(&up_inside, None, &mut bus));
    let pushed = bus.take_all();
    assert_eq!(pushed.len(), 1);
    assert!(matches!(pushed[0].action, Action::ButtonPressed));

    // Released beside the button: consumed, and nothing is told.
    assert!(button.handle_action(&down, None, &mut bus));
    assert!(button.handle_action(&up_outside, None, &mut bus));
    assert!(bus.take_all().is_empty());
    assert!(!button.handle_action(&up_inside, None, &mut bus));
}

#[test]
fn a_scene_that_defines_nothing_declares_nothing_and_does_nothing() {
    struct Blank {}
    impl Scene for Blank {}
    let mut blank = Blank {};
    assert_eq!(blank.subscriptions().bits(), 0);
    assert_eq!(blank.left_click_zone(), None);
    assert!(!blank.is_modal());
    assert!(!blank.is_immediate());
    assert_eq!(blank.name(), "Unknown");
    let mut bus = ActionBus::new(0);
    let mut renderer = Renderer::new();
    assert_eq!(blank.immediate(&mut renderer, &mut bus), None);
    let down = Action::SdlEvent(Event::MouseButtonDown { mouse_btn: MouseButton::Left, x: 1, y: 1 });
    assert!(!blank.handle_action(&down, Some(3), &mut bus));
    assert!(!blank.handle_action(&Action::ButtonPressed, None, &mut bus));
    blank.init(&mut bus);
    blank.update(16, &mut bus);
    blank.render(&mut renderer);
    blank.pos_changed(Rect::new(1, 2, 3, 4));
    assert!(bus.take_all().is_empty());
    assert!(bus.take_prioritary().is_empty());
    assert!(renderer.take_commands().is_empty());
}

#[test]
fn a_text_and_a_button_declare_what_they_are() {
    let text = TextScene::new("hello".to_string(), "big".to_string());
    assert_eq!(text.subscriptions().bits(), 0);
    assert_eq!(text.left_click_zone(), None);
    assert!(!text.is_modal());
    assert!(!text.is_immediate());
    assert_eq!(text.name(), "Unknown");
    let mut button = ButtonScene::new("go", Color::RGB(9, 9, 9), Layout::default());
    assert_eq!(button.subscriptions().bits(), 1);
    assert_eq!(button.left_click_zone(), None);
    assert!(!button.is_modal());
    assert!(!button.is_immediate());
    assert_eq!(button.name(), "go");
    button.pos_changed(Rect::new(4, 5, 6, 7));
    assert_eq!(button.left_click_zone(), Some(Rect::new(4, 5, 6, 7)));
    assert_eq!(ButtonScene::new("", Color::RGB(0, 0, 0), Layout::default()).name(), "");
}

#[test]
fn the_engine_root_declares_nothing() {
    let root = RootScene::new();
    assert_eq!(root.subscriptions().bits(), 0);
    assert_eq!(root.left_click_zone(), None);
    assert!(!root.is_modal());
    assert!(!root.is_immediate());
    assert_eq!(root.name(), "Unknown");
    let stack = SceneStack::new(Box::new(RootScene::new()), NodeId::new(3));
    assert_eq!(stack.get_scene(0).unwrap().get_nodeid(), Some(NodeId::new(3)));
}
