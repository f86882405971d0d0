use hamgraph::action::{Action, Event, EventKind, MouseButton, SceneMessage};
use hamgraph::action_bus::{
    drain_to_fixed_point, ActionBus, ActionPriv, Consumer, DrainReport, DrainStep, FixedPoint,
};
use hamgraph::layout_manager::Layout;
use hamgraph::scene::{Scene, SceneBox};
use hamgraph::HamID;

struct Blank {}

impl Scene for Blank {}

fn new_scene(layer: usize) -> Action {
    Action::Scene { scene: SceneBox::new(Box::new(Blank {})), layer }
}

fn new_text(text: &str) -> Action {
    Action::CreateText { font: "VcrOsdMono".to_string(), size: "big".to_string(), text: text.to_string() }
}

#[test]
fn created_scenes_are_promised_identifiers_that_go_up_by_one() {
    let mut bus = ActionBus::new(0);
    bus.prepare(1, 2);
    let mut promised = Vec::new();
    for _ in 0..50 {
        match bus.push(new_scene(0)) {
            Some(HamID::SceneID(id)) => promised.push(id),
            other => panic!("no scene identifier: {:?}", other),
        }
    }
    let expected: Vec<u64> = (2..52).collect();
    assert_eq!(promised, expected);
    assert_eq!(bus.future_scene_id(), 52);
}

#[test]
fn an_immediate_scene_is_promised_a_scene_identifier_too() {
    let mut bus = ActionBus::new(0);
    bus.prepare(1, 7);
    let panel = Action::ImmediateUI { scene: SceneBox::new(Box::new(Blank {})), layout: Layout::default(), layer: 5 };
    assert_eq!(bus.push(panel), Some(HamID::SceneID(7)));
    assert_eq!(bus.push(new_scene(0)), Some(HamID::SceneID(8)));
    let taken = bus.take_all();
    assert_eq!(taken.len(), 2);
    assert_eq!(taken[0].back_id, Some(HamID::SceneID(7)));
    assert_eq!(taken[1].back_id, Some(HamID::SceneID(8)));
}

#[test]
fn other_pushes_do_not_use_up_scene_identifiers() {
    let mut bus = ActionBus::new(0);
    bus.prepare(1, 2);
    assert_eq!(bus.push(new_scene(0)), Some(HamID::SceneID(2)));
    assert_eq!(bus.push(Action::StopMusic), None);
    assert_eq!(bus.push(new_text("a")), Some(HamID::SpriteID(0)));
    assert_eq!(bus.push(new_scene(0)), Some(HamID::SceneID(3)));
}

#[test]
fn requests_without_a_creation_return_no_identifier() {
    let mut bus = ActionBus::new(3);
    bus.prepare(4, 9);
    assert_eq!(bus.push(Action::CloseCurrentScene), None);
    assert_eq!(bus.push(Action::CloseScene { target_id: 2 }), None);
    assert_eq!(bus.push(Action::StartMusic { track: "intro.mp3".to_string(), loops: -1 }), None);
    assert_eq!(bus.push(Action::StopMusic), None);
    assert_eq!(bus.push(Action::StartSfx { track: "hit.ogg".to_string(), channel: 2 }), None);
    assert_eq!(bus.push(Action::RequestLayout(Layout::default())), None);
    assert_eq!(bus.push(Action::ButtonPressed), None);
    assert_eq!(bus.push(Action::SceneMsg { target_id: 1, msg: SceneMessage::IncrementCounter(3) }), None);
    assert_eq!(bus.push(Action::SdlEvent(Event::Quit)), None);
    let taken = bus.take_all();
    assert_eq!(taken.len(), 9);
    assert!(taken.iter().all(|envelope| envelope.source_scene == 4 && envelope.back_id.is_none()));
    assert!(matches!(taken[0].action, Action::CloseCurrentScene));
    assert!(matches!(taken[8].action, Action::SdlEvent(Event::Quit)));
    assert!(bus.take_prioritary().is_empty());
    assert_eq!(bus.future_scene_id(), 9);
}

#[test]
fn texts_are_promised_sprites_after_those_of_the_store_and_go_to_the_priority_queue() {
    let mut bus = ActionBus::new(12);
    bus.prepare(3, 4);
    assert_eq!(bus.push(new_text("one")), Some(HamID::SpriteID(12)));
    assert_eq!(bus.push(new_text("two")), Some(HamID::SpriteID(13)));
    assert!(bus.take_all().is_empty());
    let taken = bus.take_prioritary();
    assert_eq!(taken.len(), 2);
    assert_eq!(taken[0].source_scene, 3);
    assert_eq!(taken[0].back_id, Some(HamID::SpriteID(12)));
    assert_eq!(taken[1].back_id, Some(HamID::SpriteID(13)));
    match &taken[1].action {
        Action::CreateText { font, size, text } => {
            assert_eq!(font, "VcrOsdMono");
            assert_eq!(size, "big");
            assert_eq!(text, "two");
        }
        _ => panic!("not a text"),
    }
    // The store has taken the two sprites in and publishes its new length.
    bus.sync_sprite_count(14);
    assert_eq!(bus.push(new_text("three")), Some(HamID::SpriteID(14)));
}

#[test]
fn taking_a_queue_empties_it() {
    let mut bus = ActionBus::new(0);
    bus.prepare(1, 2);
    bus.push(Action::ButtonPressed);
    bus.push(new_text("x"));
    assert_eq!(bus.take_all().len(), 1);
    assert_eq!(bus.take_all().len(), 0);
    assert_eq!(bus.take_prioritary().len(), 1);
    assert_eq!(bus.take_prioritary().len(), 0);
}

#[test]
fn deferred_actions_come_out_in_the_order_of_their_pushes() {
    let mut bus = ActionBus::new(0);
    bus.prepare(1, 2);
    bus.push(Action::StartSfx { track: "a".to_string(), channel: 1 });
    bus.prepare(2, 2);
    bus.push(Action::StartSfx { track: "b".to_string(), channel: 2 });
    bus.prepare(3, 2);
    bus.push(Action::StartSfx { track: "c".to_string(), channel: 3 });
    let order: Vec<(u64, i32)> = bus
        .take_all()
        .iter()
        .map(|envelope| match &envelope.action {
            Action::StartSfx { channel, .. } => (envelope.source_scene, *channel),
            _ => panic!("not a sound"),
        })
        .collect();
    assert_eq!(order, vec![(1, 1), (2, 2), (3, 3)]);
}

#[test]
fn a_bus_at_the_last_identifier_has_no_room_for_a_scene() {
    let mut bus = ActionBus::new(usize::MAX);
    bus.prepare(1, u64::MAX);
    assert!(!bus.has_room(&new_scene(0)));
    assert!(!bus.has_room(&new_text("x")));
    assert!(bus.has_room(&Action::ButtonPressed));
    bus.prepare(1, u64::MAX - 1);
    assert!(bus.has_room(&new_scene(0)));
    assert_eq!(bus.push(new_scene(0)), Some(HamID::SceneID(u64::MAX - 1)));
    assert!(!bus.has_room(&new_scene(0)));
}

#[test]
fn a_drain_ends_when_the_consumer_stops_pushing() {
    let mut bus = ActionBus::new(0);
    bus.prepare(1, 2);
    bus.push(new_text("seed"));
    let depth = 5;
    let mut handled = 0;
    let mut rounds = 0;
    let mut drain = FixedPoint::new(16);
    loop {
        match drain.step(&mut bus) {
            DrainStep::Batch(batch) => {
                rounds += 1;
                for _envelope in batch {
                    handled += 1;
                    if handled < depth {
                        bus.push(new_text("more"));
                    }
                }
            }
            DrainStep::Drained => break,
            DrainStep::Overrun => panic!("the drain did not end"),
        }
    }
    assert_eq!(handled, 5);
    assert_eq!(rounds, 5);
    assert!(bus.take_prioritary().is_empty());
}

#[test]
fn a_drain_that_never_ends_is_stopped_at_its_limit() {
    let mut bus = ActionBus::new(0);
    bus.prepare(1, 2);
    bus.push(new_text("seed"));
    let mut drain = FixedPoint::new(8);
    let mut rounds = 0;
    let overran = loop {
        match drain.step(&mut bus) {
            DrainStep::Batch(batch) => {
                rounds += 1;
                for _envelope in batch {
                    bus.push(new_text("again"));
                }
            }
            DrainStep::Drained => break false,
            DrainStep::Overrun => break true,
        }
    };
    assert!(overran);
    assert_eq!(rounds, 8);
    // What the drain could not take is still in the queue.
    assert_eq!(bus.take_prioritary().len(), 1);
}

#[test]
fn a_drain_of_an_empty_queue_is_done_at_once() {
    let mut bus = ActionBus::new(0);
    let mut drain = FixedPoint::new(0);
    assert!(matches!(drain.step(&mut bus), DrainStep::Drained));
    bus.push(new_text("x"));
    assert!(matches!(drain.step(&mut bus), DrainStep::Overrun));
}

#[test]
fn a_drain_takes_the_sprite_count_back_to_the_published_length() {
    let mut bus = ActionBus::new(4);
    bus.push(new_text("a"));
    bus.push(new_text("b"));
    let mut drain = FixedPoint::new(4);
    match drain.step(&mut bus) {
        DrainStep::Batch(batch) => assert_eq!(batch.len(), 2),
        _ => panic!("no batch"),
    }
    bus.sync_sprite_count(6);
    assert_eq!(bus.push(new_text("c")), Some(HamID::SpriteID(6)));
}

#[test]
fn the_kind_of_an_action_follows_its_event() {
    let down = Action::SdlEvent(Event::MouseButtonDown { mouse_btn: MouseButton::Right, x: 1, y: 2 });
    let up = Action::SdlEvent(Event::MouseButtonUp { mouse_btn: MouseButton::Left, x: 1, y: 2 });
    assert_eq!(down.event_kind(), EventKind::sdl_mouse_click());
    assert_eq!(up.event_kind(), EventKind::sdl_mouse_click());
    assert_eq!(Action::SdlEvent(Event::KeyDown { keycode: None }).event_kind(), EventKind::sdl_keyboard());
    assert_eq!(Action::SdlEvent(Event::KeyUp { keycode: Some(3) }).event_kind(), EventKind::sdl_keyboard());
    assert_eq!(Action::SdlEvent(Event::MouseMotion { x: 1, y: 1 }).event_kind(), EventKind::sdl_misc());
    assert_eq!(Action::SdlEvent(Event::Quit).event_kind(), EventKind::sdl_misc());
    assert_eq!(Action::ButtonPressed.event_kind(), EventKind::button_pressed());
    let msg = Action::SceneMsg { target_id: 1, msg: SceneMessage::HideCharacter(2) };
    assert_eq!(msg.event_kind(), EventKind::scene_msg());
    assert_eq!(Action::StopMusic.event_kind(), EventKind::not_an_event());
    assert_eq!(new_scene(1).event_kind(), EventKind::not_an_event());
}

#[test]
fn kinds_of_events_are_sets_of_bits() {
    assert_eq!(EventKind::not_an_event().bits(), 0);
    assert_eq!(EventKind::sdl_mouse_click().bits(), 1);
    assert_eq!(EventKind::sdl_mouse_hover().bits(), 2);
    assert_eq!(EventKind::sdl_keyboard().bits(), 4);
    assert_eq!(EventKind::sdl_misc().bits(), 8);
    assert_eq!(EventKind::button_pressed().bits(), 16);
    assert_eq!(EventKind::scene_msg().bits(), 32);
    assert_eq!(EventKind::misc().bits(), 64);
    let both = EventKind::sdl_mouse_click().union(EventKind::sdl_keyboard());
    assert_eq!(both, EventKind::from_bits(5));
    assert!(both.intersects(EventKind::sdl_keyboard()));
    assert!(!both.intersects(EventKind::sdl_misc()));
    assert!(!both.intersects(EventKind::not_an_event()));
    assert!(both.contains(EventKind::sdl_mouse_click()));
    assert!(!EventKind::sdl_mouse_click().contains(both));
    assert!(both.contains(EventKind::not_an_event()));
}

struct Chain {
    depth: usize,
    handled: Vec<Option<HamID>>,
}

impl Consumer for Chain {
    fn consume(&mut self, envelope: ActionPriv, action_bus: &mut ActionBus) {
        self.handled.push(envelope.back_id);
        if self.handled.len() < self.depth {
            action_bus.push(new_text("more"));
            action_bus.push(Action::StopMusic);
        }
    }
}

#[test]
fn a_drain_to_the_fixed_point_leaves_the_priority_queue_empty() {
    let mut bus = ActionBus::new(0);
    bus.prepare(1, 2);
    bus.push(new_text("seed"));
    let mut chain = Chain { depth: 6, handled: Vec::new() };
    let report = drain_to_fixed_point(&mut bus, &mut chain, 32);
    assert_eq!(report, DrainReport { rounds: 6, drained: true });
    assert_eq!(chain.handled.len(), 6);
    assert!(bus.take_prioritary().is_empty());
    // What went to the deferred queue on the way is still there.
    assert_eq!(bus.take_all().len(), 5);
}

#[test]
fn a_drain_hands_a_batch_over_oldest_first() {
    let mut bus = ActionBus::new(10);
    bus.push(new_text("a"));
    bus.push(new_text("b"));
    bus.push(new_text("c"));
    let mut chain = Chain { depth: 0, handled: Vec::new() };
    let report = drain_to_fixed_point(&mut bus, &mut chain, 4);
    assert_eq!(report, DrainReport { rounds: 1, drained: true });
    assert_eq!(
        chain.handled,
        vec![Some(HamID::SpriteID(10)), Some(HamID::SpriteID(11)), Some(HamID::SpriteID(12))]
    );
}

#[test]
fn a_drain_to_the_fixed_point_gives_up_at_its_limit() {
    let mut bus = ActionBus::new(0);
    bus.push(new_text("seed"));
    let mut chain = Chain { depth: usize::MAX, handled: Vec::new() };
    let report = drain_to_fixed_point(&mut bus, &mut chain, 10);
    assert_eq!(report, DrainReport { rounds: 10, drained: false });
    assert_eq!(chain.handled.len(), 10);
    assert_eq!(bus.take_prioritary().len(), 1);
}

#[test]
fn a_drain_of_nothing_takes_no_round() {
    let mut bus = ActionBus::new(0);
    let mut chain = Chain { depth: 3, handled: Vec::new() };
    assert_eq!(drain_to_fixed_point(&mut bus, &mut chain, 0), DrainReport { rounds: 0, drained: true });
    bus.push(new_text("x"));
    assert_eq!(drain_to_fixed_point(&mut bus, &mut chain, 0), DrainReport { rounds: 0, drained: false });
}
