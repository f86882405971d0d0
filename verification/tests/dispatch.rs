use std::cell::RefCell;
use std::rc::Rc;

use hamgraph::action::{Action, Event, EventKind, MouseButton};
use hamgraph::action_bus::{ActionBus, ActionPriv};
use hamgraph::geometry::Rect;
use hamgraph::layout_manager::NodeId;
use hamgraph::renderer::Renderer;
use hamgraph::scene::{
    after_delivery, gate, Declared, DispatchStop, Drawn, Gate, Scene, SceneID, SceneStack,
};

type Log = Rc<RefCell<Vec<(&'static str, String)>>>;

struct Probe {
    tag: &'static str,
    log: Log,
    subscriptions: EventKind,
    zone: Option<Rect>,
    modal: bool,
    consumes: bool,
    immediate: bool,
}

impl Probe {
    fn new(tag: &'static str, log: &Log) -> Probe {
        Probe {
            tag,
            log: Rc::clone(log),
            subscriptions: EventKind::sdl_mouse_click().union(EventKind::sdl_keyboard()),
            zone: Some(Rect::new(0, 0, 100, 100)),
            modal: false,
            consumes: false,
            immediate: false,
        }
    }

    fn zone(mut self, zone: Option<Rect>) -> Probe {
        self.zone = zone;
        self
    }

    fn modal(mut self) -> Probe {
        self.modal = true;
        self
    }

    fn consuming(mut self) -> Probe {
        self.consumes = true;
        self
    }

    fn subscribed(mut self, kinds: EventKind) -> Probe {
        self.subscriptions = kinds;
        self
    }

    fn immediate(mut self) -> Probe {
        self.immediate = true;
        self
    }

    fn note(&self, what: String) {
        self.log.borrow_mut().push((self.tag, what));
    }
}

impl Scene for Probe {
    fn update(&mut self, delta_time: u64, _action_bus: &mut ActionBus) {
        self.note(format!("update {}", delta_time));
    }

    fn immediate(&mut self, _renderer: &mut Renderer, _action_bus: &mut ActionBus) -> Option<Rect> {
        self.note("immediate".to_string());
        Some(Rect::new(1, 2, 3, 4))
    }

    fn render(&self, _renderer: &mut Renderer) {
        self.note("render".to_string());
    }

    fn is_modal(&self) -> bool {
        self.modal
    }

    fn handle_action(&mut self, action: &Action, origin: Option<SceneID>, _action_bus: &mut ActionBus) -> bool {
        let what = match action {
            Action::SdlEvent(Event::MouseButtonDown { .. }) => "down",
            Action::SdlEvent(Event::MouseButtonUp { .. }) => "up",
            Action::SdlEvent(Event::KeyDown { .. }) => "key",
            Action::ButtonPressed => "pressed",
            _ => "other",
        };
        self.note(format!("{} from {:?}", what, origin));
        self.consumes
    }

    fn left_click_zone(&self) -> Option<Rect> {
        self.zone
    }

    fn subscriptions(&self) -> EventKind {
        self.subscriptions
    }

    fn is_immediate(&self) -> bool {
        self.immediate
    }
}

fn log() -> Log {
    Rc::new(RefCell::new(Vec::new()))
}

fn tags(log: &Log) -> Vec<&'static str> {
    log.borrow().iter().map(|entry| entry.0).collect()
}

fn press(x: i32, y: i32) -> Action {
    Action::SdlEvent(Event::MouseButtonDown { mouse_btn: MouseButton::Left, x, y })
}

fn key() -> Action {
    Action::SdlEvent(Event::KeyDown { keycode: Some(65) })
}

#[test]
fn input_goes_from_the_top_layer_down_and_from_the_newest_scene_to_the_oldest() {
    let log = log();
    let mut stack = SceneStack::new(Box::new(Probe::new("root", &log)), NodeId::new(1));
    stack.push(0, Box::new(Probe::new("low", &log)), 1); // 2
    stack.push(3, Box::new(Probe::new("old", &log)), 1); // 3
    stack.push(3, Box::new(Probe::new("new", &log)), 1); // 4
    stack.push(7, Box::new(Probe::new("top", &log)), 1); // 5
    let mut bus = ActionBus::new(0);
    let stop = stack.propagate_sdl2_to_subscribers(&mut bus, press(10, 10), EventKind::sdl_mouse_click());
    assert_eq!(stop, DispatchStop::Exhausted);
    assert_eq!(tags(&log), vec!["top", "new", "old", "low", "root"]);
    assert!(log.borrow().iter().all(|entry| entry.1 == "down from None"));
}

#[test]
fn a_scene_that_did_not_subscribe_is_passed_over() {
    let log = log();
    let mut stack = SceneStack::new(Box::new(Probe::new("root", &log)), NodeId::new(1));
    stack.push(1, Box::new(Probe::new("keys", &log).subscribed(EventKind::sdl_keyboard())), 1);
    stack.push(2, Box::new(Probe::new("none", &log).subscribed(EventKind::not_an_event())), 1);
    let mut bus = ActionBus::new(0);
    let stop = stack.propagate_sdl2_to_subscribers(&mut bus, press(10, 10), EventKind::sdl_mouse_click());
    assert_eq!(stop, DispatchStop::Exhausted);
    assert_eq!(tags(&log), vec!["root"]);
}

#[test]
fn a_consumed_event_goes_no_further() {
    let log = log();
    let mut stack = SceneStack::new(Box::new(Probe::new("root", &log)), NodeId::new(1));
    stack.push(1, Box::new(Probe::new("eater", &log).consuming()), 1); // 2
    stack.push(2, Box::new(Probe::new("top", &log)), 1); // 3
    let mut bus = ActionBus::new(0);
    let stop = stack.propagate_sdl2_to_subscribers(&mut bus, press(10, 10), EventKind::sdl_mouse_click());
    assert_eq!(stop, DispatchStop::Consumed(2));
    assert_eq!(tags(&log), vec!["top", "eater"]);
}

#[test]
fn a_modal_scene_that_was_handed_the_event_ends_the_dispatch() {
    let log = log();
    let mut stack = SceneStack::new(Box::new(Probe::new("root", &log)), NodeId::new(1));
    stack.push(1, Box::new(Probe::new("below", &log)), 1); // 2
    stack.push(2, Box::new(Probe::new("dialog", &log).modal()), 1); // 3
    let mut bus = ActionBus::new(0);
    let stop = stack.propagate_sdl2_to_subscribers(&mut bus, press(10, 10), EventKind::sdl_mouse_click());
    assert_eq!(stop, DispatchStop::Barrier(3));
    assert_eq!(tags(&log), vec!["dialog"]);
}

#[test]
fn a_modal_scene_that_the_press_misses_blocks_every_scene_below() {
    let log = log();
    let mut stack = SceneStack::new(Box::new(Probe::new("root", &log)), NodeId::new(1));
    stack.push(1, Box::new(Probe::new("below", &log)), 1); // 2
    stack.push(2, Box::new(Probe::new("dialog", &log).modal().zone(Some(Rect::new(200, 200, 50, 50)))), 1); // 3
    stack.push(2, Box::new(Probe::new("beside", &log)), 1); // 4, newer on the same layer
    stack.push(5, Box::new(Probe::new("above", &log)), 1); // 5
    let mut bus = ActionBus::new(0);
    let stop = stack.propagate_sdl2_to_subscribers(&mut bus, press(10, 10), EventKind::sdl_mouse_click());
    assert_eq!(stop, DispatchStop::Blocked(3));
    // The dialog itself was handed nothing, and nothing below it was.
    assert_eq!(tags(&log), vec!["above", "beside"]);
}

#[test]
fn a_modal_scene_without_a_zone_blocks_a_press_too() {
    let log = log();
    let mut stack = SceneStack::new(Box::new(Probe::new("root", &log)), NodeId::new(1));
    stack.push(2, Box::new(Probe::new("dialog", &log).modal().zone(None)), 1); // 2
    let mut bus = ActionBus::new(0);
    let stop = stack.propagate_sdl2_to_subscribers(&mut bus, press(10, 10), EventKind::sdl_mouse_click());
    assert_eq!(stop, DispatchStop::Blocked(2));
    assert!(tags(&log).is_empty());
}

#[test]
fn a_scene_without_a_zone_gets_no_press_but_gets_the_keys() {
    let log = log();
    let mut stack = SceneStack::new(Box::new(Probe::new("root", &log)), NodeId::new(1));
    stack.push(2, Box::new(Probe::new("zoneless", &log).zone(None)), 1); // 2
    let mut bus = ActionBus::new(0);
    let stop = stack.propagate_sdl2_to_subscribers(&mut bus, press(10, 10), EventKind::sdl_mouse_click());
    assert_eq!(stop, DispatchStop::Exhausted);
    assert_eq!(tags(&log), vec!["root"]);
    log.borrow_mut().clear();
    let stop = stack.propagate_sdl2_to_subscribers(&mut bus, key(), EventKind::sdl_keyboard());
    assert_eq!(stop, DispatchStop::Exhausted);
    assert_eq!(tags(&log), vec!["zoneless", "root"]);
    assert_eq!(log.borrow()[0].1, "key from None");
}

#[test]
fn a_press_outside_the_zone_of_a_plain_scene_falls_through() {
    let log = log();
    let mut stack = SceneStack::new(Box::new(Probe::new("root", &log)), NodeId::new(1));
    stack.push(2, Box::new(Probe::new("small", &log).zone(Some(Rect::new(0, 0, 5, 5)))), 1);
    let mut bus = ActionBus::new(0);
    let stop = stack.propagate_sdl2_to_subscribers(&mut bus, press(5, 5), EventKind::sdl_mouse_click());
    assert_eq!(stop, DispatchStop::Exhausted);
    assert_eq!(tags(&log), vec!["root"]);
    log.borrow_mut().clear();
    stack.propagate_sdl2_to_subscribers(&mut bus, press(4, 4), EventKind::sdl_mouse_click());
    assert_eq!(tags(&log), vec!["small", "root"]);
}

#[test]
fn the_release_of_a_button_is_not_held_to_the_zone() {
    let log = log();
    let mut stack = SceneStack::new(Box::new(Probe::new("root", &log)), NodeId::new(1));
    stack.push(2, Box::new(Probe::new("dialog", &log).modal().zone(None)), 1); // 2
    let mut bus = ActionBus::new(0);
    let up = Action::SdlEvent(Event::MouseButtonUp { mouse_btn: MouseButton::Left, x: 900, y: 900 });
    let stop = stack.propagate_sdl2_to_subscribers(&mut bus, up, EventKind::sdl_mouse_click());
    assert_eq!(stop, DispatchStop::Barrier(2));
    assert_eq!(tags(&log), vec!["dialog"]);
}

#[test]
fn the_bus_names_the_scene_that_is_handed_the_event() {
    struct Asker {
        seen: Rc<RefCell<Vec<SceneID>>>,
    }
    impl Scene for Asker {
        fn handle_action(&mut self, _action: &Action, _origin: Option<SceneID>, action_bus: &mut ActionBus) -> bool {
            action_bus.push(Action::StopMusic);
            self.seen.borrow_mut().push(action_bus.future_scene_id());
            false
        }
        fn subscriptions(&self) -> EventKind {
            EventKind::sdl_keyboard()
        }
    }
    let seen = Rc::new(RefCell::new(Vec::new()));
    let mut stack = SceneStack::new(Box::new(Asker { seen: Rc::clone(&seen) }), NodeId::new(1));
    stack.push(4, Box::new(Asker { seen: Rc::clone(&seen) }), 1); // 2
    let mut bus = ActionBus::new(0);
    stack.propagate_sdl2_to_subscribers(&mut bus, key(), EventKind::sdl_keyboard());
    let sources: Vec<SceneID> = bus.take_all().iter().map(|envelope| envelope.source_scene).collect();
    assert_eq!(sources, vec![2, 1]);
    assert_eq!(*seen.borrow(), vec![3, 3]);
}

#[test]
fn a_message_of_the_engine_goes_to_every_scene_until_one_stops_it() {
    let log = log();
    let mut stack = SceneStack::new(Box::new(Probe::new("root", &log)), NodeId::new(1));
    stack.push(1, Box::new(Probe::new("deaf", &log).subscribed(EventKind::not_an_event()).zone(None)), 1);
    stack.push(2, Box::new(Probe::new("top", &log)), 1);
    let mut bus = ActionBus::new(0);
    let envelope = ActionPriv { source_scene: 9, back_id: None, action: Action::ButtonPressed };
    let stop = stack.propagate_ham_to_subscribers(&mut bus, envelope);
    assert_eq!(stop, DispatchStop::Exhausted);
    assert_eq!(tags(&log), vec!["top", "deaf", "root"]);
    assert!(log.borrow().iter().all(|entry| entry.1 == "pressed from Some(9)"));
}

#[test]
fn a_message_of_the_engine_stops_at_a_modal_scene() {
    let log = log();
    let mut stack = SceneStack::new(Box::new(Probe::new("root", &log)), NodeId::new(1));
    stack.push(1, Box::new(Probe::new("dialog", &log).modal()), 1); // 2
    let mut bus = ActionBus::new(0);
    let envelope = ActionPriv { source_scene: 1, back_id: None, action: Action::ButtonPressed };
    assert_eq!(stack.propagate_ham_to_subscribers(&mut bus, envelope), DispatchStop::Barrier(2));
    assert_eq!(tags(&log), vec!["dialog"]);
}

#[test]
fn updates_go_from_the_bottom_layer_up() {
    let log = log();
    let mut stack = SceneStack::new(Box::new(Probe::new("root", &log)), NodeId::new(1));
    stack.push(6, Box::new(Probe::new("top", &log)), 1); // 2
    stack.push(2, Box::new(Probe::new("old", &log)), 1); // 3
    stack.push(2, Box::new(Probe::new("new", &log)), 1); // 4
    let mut bus = ActionBus::new(0);
    let visited = stack.update_all(16_000, &mut bus);
    assert_eq!(visited, vec![0, 1, 3, 4, 2]);
    assert_eq!(tags(&log), vec!["root", "old", "new", "top"]);
    assert!(log.borrow().iter().all(|entry| entry.1 == "update 16000"));
}

#[test]
fn drawing_goes_from_the_bottom_layer_up_and_an_immediate_scene_draws_twice() {
    let log = log();
    let mut stack = SceneStack::new(Box::new(Probe::new("root", &log)), NodeId::new(1));
    stack.push(6, Box::new(Probe::new("panel", &log).immediate()), 1); // 2
    stack.push(2, Box::new(Probe::new("plain", &log)), 1); // 3
    let mut bus = ActionBus::new(0);
    let mut renderer = Renderer::new();
    let drawn = stack.render_all(&mut renderer, &mut bus);
    assert_eq!(
        drawn,
        vec![
            Drawn { id: 0, immediate: false, used: None },
            Drawn { id: 1, immediate: false, used: None },
            Drawn { id: 3, immediate: false, used: None },
            Drawn { id: 2, immediate: true, used: Some(Rect::new(1, 2, 3, 4)) },
        ]
    );
    let entries: Vec<(&'static str, String)> = log.borrow().clone();
    assert_eq!(
        entries,
        vec![
            ("root", "render".to_string()),
            ("plain", "render".to_string()),
            ("panel", "render".to_string()),
            ("panel", "immediate".to_string()),
        ]
    );
}

#[test]
fn a_scene_that_turns_modal_while_it_handles_an_event_ends_the_dispatch() {
    struct Turncoat {
        modal: bool,
    }
    impl Scene for Turncoat {
        fn handle_action(&mut self, _action: &Action, _origin: Option<SceneID>, _bus: &mut ActionBus) -> bool {
            self.modal = true;
            false
        }
        fn is_modal(&self) -> bool {
            self.modal
        }
        fn subscriptions(&self) -> EventKind {
            EventKind::sdl_keyboard()
        }
    }
    let log = log();
    let mut stack = SceneStack::new(Box::new(Probe::new("root", &log)), NodeId::new(1));
    stack.push(3, Box::new(Turncoat { modal: false }), 1); // 2
    let mut bus = ActionBus::new(0);
    let stop = stack.propagate_sdl2_to_subscribers(&mut bus, key(), EventKind::sdl_keyboard());
    assert_eq!(stop, DispatchStop::Barrier(2));
    assert!(tags(&log).is_empty());
}

#[test]
fn what_a_scene_declares_after_it_set_itself_up_is_what_counts() {
    struct Late {
        ready: bool,
        heard: Rc<RefCell<Vec<&'static str>>>,
    }
    impl Scene for Late {
        fn init(&mut self, _action_bus: &mut ActionBus) {
            self.ready = true;
        }
        fn handle_action(&mut self, _action: &Action, _origin: Option<SceneID>, _bus: &mut ActionBus) -> bool {
            self.heard.borrow_mut().push("late");
            true
        }
        fn subscriptions(&self) -> EventKind {
            if self.ready {
                EventKind::sdl_keyboard()
            } else {
                EventKind::not_an_event()
            }
        }
    }
    let heard = Rc::new(RefCell::new(Vec::new()));
    let log = log();
    let mut stack = SceneStack::new(Box::new(Probe::new("root", &log)), NodeId::new(1));
    stack.push(3, Box::new(Late { ready: false, heard: Rc::clone(&heard) }), 1); // 2
    let mut bus = ActionBus::new(0);
    // Before it has set itself up the scene wants nothing.
    let stop = stack.propagate_sdl2_to_subscribers(&mut bus, key(), EventKind::sdl_keyboard());
    assert_eq!(stop, DispatchStop::Exhausted);
    assert!(heard.borrow().is_empty());
    stack.init(2, &mut bus);
    let stop = stack.propagate_sdl2_to_subscribers(&mut bus, key(), EventKind::sdl_keyboard());
    assert_eq!(stop, DispatchStop::Consumed(2));
    assert_eq!(*heard.borrow(), vec!["late"]);
}

#[test]
fn a_scene_that_sets_itself_up_may_push() {
    struct Asker {}
    impl Scene for Asker {
        fn init(&mut self, action_bus: &mut ActionBus) {
            action_bus.push(Action::StopMusic);
        }
    }
    let mut stack = SceneStack::new(Box::new(Asker {}), NodeId::new(1));
    let mut bus = ActionBus::new(0);
    bus.prepare(1, 2);
    stack.init(1, &mut bus);
    stack.init(0, &mut bus);
    let pushed = bus.take_all();
    assert_eq!(pushed.len(), 1);
    assert_eq!(pushed[0].source_scene, 1);
    assert_eq!(stack.next_scene_id(), 2);
}

#[test]
fn the_gate_goes_by_what_a_scene_declares() {
    let zone = Some(Rect::new(0, 0, 10, 10));
    let clicks = EventKind::sdl_mouse_click();
    let declared = |click_zone: Option<Rect>, modal: bool| Declared {
        subscriptions: clicks,
        click_zone,
        modal,
        immediate: false,
    };
    let inside = Some((5, 5));
    let outside = Some((10, 5));
    assert_eq!(gate(&declared(zone, false), inside, Some(clicks)), Gate::Deliver);
    assert_eq!(gate(&declared(zone, true), inside, Some(clicks)), Gate::Deliver);
    assert_eq!(gate(&declared(zone, false), outside, Some(clicks)), Gate::Skip);
    assert_eq!(gate(&declared(zone, true), outside, Some(clicks)), Gate::Block);
    assert_eq!(gate(&declared(None, false), inside, Some(clicks)), Gate::Skip);
    assert_eq!(gate(&declared(None, true), inside, Some(clicks)), Gate::Block);
    // What is no press is held to no zone.
    assert_eq!(gate(&declared(None, true), None, Some(clicks)), Gate::Deliver);
    assert_eq!(gate(&declared(None, false), None, Some(clicks)), Gate::Deliver);
    // A scene that did not subscribe is skipped, modal or not.
    assert_eq!(gate(&declared(zone, true), inside, Some(EventKind::sdl_keyboard())), Gate::Skip);
    assert_eq!(gate(&declared(None, true), None, Some(EventKind::sdl_keyboard())), Gate::Skip);
    // Without a mask nothing is asked of the subscriptions.
    assert_eq!(gate(&declared(None, false), None, None), Gate::Deliver);
    let deaf = Declared { subscriptions: EventKind::not_an_event(), click_zone: None, modal: false, immediate: false };
    assert_eq!(gate(&deaf, None, None), Gate::Deliver);
    assert_eq!(gate(&deaf, None, Some(clicks)), Gate::Skip);
}

#[test]
fn a_dispatch_ends_after_a_consumed_event_or_at_a_modal_scene() {
    assert_eq!(after_delivery(4, true, false), Some(DispatchStop::Consumed(4)));
    assert_eq!(after_delivery(4, true, true), Some(DispatchStop::Consumed(4)));
    assert_eq!(after_delivery(4, false, true), Some(DispatchStop::Barrier(4)));
    assert_eq!(after_delivery(4, false, false), None);
}

#[test]
fn only_a_press_has_a_point() {
    assert_eq!(press(3, -4).pressed_at(), Some((3, -4)));
    assert_eq!(key().pressed_at(), None);
    let up = Action::SdlEvent(Event::MouseButtonUp { mouse_btn: MouseButton::Left, x: 1, y: 2 });
    assert_eq!(up.pressed_at(), None);
    assert_eq!(Action::ButtonPressed.pressed_at(), None);
}
