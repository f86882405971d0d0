use vstd::prelude::*;
use crate::action::Action;
use crate::hg::HamID;
use crate::scene::SceneID;

verus! {

/// An action in its envelope: who pushed it, and what was promised for it.
pub struct ActionPriv {
    pub source_scene: SceneID,
    /// The identifier that `push` returned for the action. What the engine
    /// creates for the action must bear it.
    pub back_id: Option<HamID>,
    pub action: Action,
}

/// The state of a bus, as contracts see it.
pub struct BusState {
    /// The scene whose callback runs: the source of what is pushed.
    pub source: SceneID,
    /// The identifier that the next created scene will bear.
    pub future_scene_id: SceneID,
    /// The length that the sprite store last published.
    pub sprite_base: usize,
    /// How many sprites were promised since the priority queue was last taken.
    pub sprite_offset: usize,
    /// The deferred queue, oldest first.
    pub deferred: Seq<ActionPriv>,
    /// The priority queue, oldest first.
    pub prioritary: Seq<ActionPriv>,
}

impl BusState {
    /// Whether the counters leave room to promise an identifier for `action`.
    pub open spec fn has_room(self, action: Action) -> bool {
        &&& action.creates_scene() ==> self.future_scene_id < u64::MAX
        &&& action is CreateText ==> self.sprite_base + self.sprite_offset < usize::MAX
    }

    /// The identifier promised for `action`: the next scene identifier for a
    /// scene, the next sprite identifier for a text, none otherwise.
    pub open spec fn promise(self, action: Action) -> Option<HamID> {
        if action.creates_scene() {
            Some(HamID::SceneID(self.future_scene_id))
        } else if action is CreateText {
            Some(HamID::SpriteID((self.sprite_base + self.sprite_offset) as usize))
        } else {
            None
        }
    }

    /// The envelope that a push of `action` queues.
    pub open spec fn envelope(self, action: Action) -> ActionPriv {
        ActionPriv { source_scene: self.source, back_id: self.promise(action), action }
    }

    /// The bus after a push of `action`: a text goes to the priority queue,
    /// everything else to the deferred queue, and the counter that gave an
    /// identifier moves on by one.
    pub open spec fn pushed(self, action: Action) -> BusState {
        if action is CreateText {
            BusState {
                prioritary: self.prioritary.push(self.envelope(action)),
                sprite_offset: (self.sprite_offset + 1) as usize,
                ..self
            }
        } else if action.creates_scene() {
            BusState {
                deferred: self.deferred.push(self.envelope(action)),
                future_scene_id: (self.future_scene_id + 1) as SceneID,
                ..self
            }
        } else {
            BusState { deferred: self.deferred.push(self.envelope(action)), ..self }
        }
    }

    /// The bus after the pushes of `actions`, first to last.
    pub open spec fn pushed_all(self, actions: Seq<Action>) -> BusState
        decreases actions.len(),
    {
        if actions.len() == 0 {
            self
        } else {
            self.pushed_all(actions.drop_last()).pushed(actions.last())
        }
    }
}

/// The mailbox between the scenes and the engine. A scene pushes what it asks
/// for; the engine takes the queues between the phases of a frame.
pub struct ActionBus {
    cur_processed_scene: SceneID,
    next_sprite_id: usize,
    sprite_id_offset: usize,
    actions_priv: Vec<ActionPriv>,
    prioritary: Vec<ActionPriv>,
    future_scene_id: SceneID,
}

impl View for ActionBus {
    type V = BusState;

    closed spec fn view(&self) -> BusState {
        BusState {
            source: self.cur_processed_scene,
            future_scene_id: self.future_scene_id,
            sprite_base: self.next_sprite_id,
            sprite_offset: self.sprite_id_offset,
            deferred: self.actions_priv@,
            prioritary: self.prioritary@,
        }
    }
}

impl ActionBus {
    /// An empty bus, for a sprite store that holds `sprite_count` sprites.
    pub fn new(sprite_count: usize) -> (bus: ActionBus)
        ensures
            bus@ == (BusState {
                source: 0,
                future_scene_id: 0,
                sprite_base: sprite_count,
                sprite_offset: 0,
                deferred: Seq::empty(),
                prioritary: Seq::empty(),
            }),
    {
        ActionBus {
            cur_processed_scene: 0,
            next_sprite_id: sprite_count,
            sprite_id_offset: 0,
            actions_priv: Vec::new(),
            prioritary: Vec::new(),
            future_scene_id: 0,
        }
    }

    /// States which scene is about to run and which identifier the next
    /// created scene will bear.
    pub fn prepare(&mut self, cur_processed_scene: SceneID, next_scene_id: SceneID)
        ensures
            final(self)@ == (BusState {
                source: cur_processed_scene,
                future_scene_id: next_scene_id,
                ..old(self)@
            }),
    {
        self.cur_processed_scene = cur_processed_scene;
        self.future_scene_id = next_scene_id;
    }

    /// Publishes the length of the sprite store: the identifier of the next
    /// sprite that is created.
    pub fn sync_sprite_count(&mut self, sprite_count: usize)
        ensures
            final(self)@ == (BusState { sprite_base: sprite_count, ..old(self)@ }),
    {
        self.next_sprite_id = sprite_count;
    }

    /// The identifier that the next created scene will bear.
    pub fn future_scene_id(&self) -> (id: SceneID)
        ensures
            id == self@.future_scene_id,
    {
        self.future_scene_id
    }

    /// Whether a push of `action` finds room in the counters.
    pub fn has_room(&self, action: &Action) -> (r: bool)
        ensures
            r == self@.has_room(*action),
    {
        match action {
            Action::Scene { .. } | Action::ImmediateUI { .. } => self.future_scene_id < u64::MAX,
            Action::CreateText { .. } => self.sprite_id_offset < usize::MAX - self.next_sprite_id,
            _ => true,
        }
    }

    /// Queues an action. For a creation the identifier of what will be
    /// created is returned at once; the engine creates it later in the frame.
    pub fn push(&mut self, action: Action) -> (ret: Option<HamID>)
        requires
            old(self)@.has_room(action),
        ensures
            ret == old(self)@.promise(action),
            final(self)@ == old(self)@.pushed(action),
    {
        let mut ret: Option<HamID> = None;
        match action {
            Action::Scene { .. } | Action::ImmediateUI { .. } => {
                ret = Some(HamID::SceneID(self.future_scene_id));
                self.future_scene_id += 1;
            },
            Action::CreateText { .. } => {
                ret = Some(HamID::SpriteID(self.next_sprite_id + self.sprite_id_offset));
                self.prioritary.push(
                    ActionPriv { source_scene: self.cur_processed_scene, back_id: ret, action },
                );
                self.sprite_id_offset += 1;
                assert(self@ =~= old(self)@.pushed(action));
                return ret;
            },
            _ => {},
        }
        self.actions_priv.push(
            ActionPriv { source_scene: self.cur_processed_scene, back_id: ret, action },
        );
        assert(self@ =~= old(self)@.pushed(action));
        ret
    }

    /// Empties the deferred queue and returns what it held, oldest first.
    pub fn take_all(&mut self) -> (taken: Vec<ActionPriv>)
        ensures
            taken@ == old(self)@.deferred,
            final(self)@ == (BusState { deferred: Seq::empty(), ..old(self)@ }),
    {
        let mut taken: Vec<ActionPriv> = Vec::new();
        std::mem::swap(&mut self.actions_priv, &mut taken);
        taken
    }

    /// Empties the priority queue and returns what it held, oldest first.
    /// Sprite identifiers are promised from the published length again.
    pub fn take_prioritary(&mut self) -> (taken: Vec<ActionPriv>)
        ensures
            taken@ == old(self)@.prioritary,
            final(self)@ == (BusState {
                prioritary: Seq::empty(),
                sprite_offset: 0,
                ..old(self)@
            }),
    {
        self.sprite_id_offset = 0;
        let mut taken: Vec<ActionPriv> = Vec::new();
        std::mem::swap(&mut self.prioritary, &mut taken);
        taken
    }
}

/// The count of the rounds of one drain of the priority queue. Handling an
/// action of the queue may push more of them, so the queue is taken again
/// and again until it is found empty; the count stops a drain that would
/// never end.
pub struct FixedPoint {
    rounds: u32,
    limit: u32,
}

/// One step of a drain of the priority queue.
pub enum DrainStep {
    /// The queue held these actions, oldest first. It is empty now.
    Batch(Vec<ActionPriv>),
    /// The queue was empty: the drain is done.
    Drained,
    /// The queue still holds actions after as many rounds as the drain may
    /// take. Nothing was taken.
    Overrun,
}

impl FixedPoint {
    /// The rounds that the drain has taken.
    pub closed spec fn rounds(&self) -> nat {
        self.rounds as nat
    }

    /// The rounds that the drain may take.
    pub closed spec fn limit(&self) -> nat {
        self.limit as nat
    }

    /// A drain that may take `limit` rounds and has taken none.
    pub fn new(limit: u32) -> (drain: FixedPoint)
        ensures
            drain.rounds() == 0,
            drain.limit() == limit,
    {
        FixedPoint { rounds: 0, limit }
    }

    /// Takes the next batch of the priority queue.
    ///
    /// An empty queue ends the drain. A queue that holds actions is taken as
    /// a whole, and a round is counted, while the drain has rounds left; when
    /// it has none the queue is left as it is. A drain therefore ends after
    /// no more batches than its limit.
    pub fn step(&mut self, bus: &mut ActionBus) -> (next: DrainStep)
        ensures
            final(self).limit() == old(self).limit(),
            match next {
                DrainStep::Drained => {
                    &&& old(bus)@.prioritary.len() == 0
                    &&& final(bus)@ == old(bus)@
                    &&& final(self).rounds() == old(self).rounds()
                },
                DrainStep::Overrun => {
                    &&& old(bus)@.prioritary.len() > 0
                    &&& old(self).rounds() >= old(self).limit()
                    &&& final(bus)@ == old(bus)@
                    &&& final(self).rounds() == old(self).rounds()
                },
                DrainStep::Batch(batch) => {
                    &&& batch@ == old(bus)@.prioritary
                    &&& batch@.len() > 0
                    &&& old(self).rounds() < old(self).limit()
                    &&& final(self).rounds() == old(self).rounds() + 1
                    &&& final(bus)@ == (BusState {
                        prioritary: Seq::empty(),
                        sprite_offset: 0,
                        ..old(bus)@
                    })
                },
            },
    {
        if bus.prioritary.len() == 0 {
            return DrainStep::Drained;
        }
        if self.rounds >= self.limit {
            return DrainStep::Overrun;
        }
        self.rounds += 1;
        DrainStep::Batch(bus.take_prioritary())
    }
}

/// What handles the actions of the priority queue during a drain. It may
/// push further actions while it handles one.
pub trait Consumer {
    fn consume(&mut self, envelope: ActionPriv, action_bus: &mut ActionBus);
}

/// How a drain of the priority queue ended.
#[derive(Clone, Copy, Debug, PartialEq, Eq, Structural)]
pub struct DrainReport {
    /// The batches that were taken and handled.
    pub rounds: u32,
    /// Whether the queue was found empty. Where it was not, the drain has
    /// taken as many batches as it may.
    pub drained: bool,
}

/// Drains the priority queue: takes it and hands `consumer` what it held,
/// oldest first, again and again, until the queue is found empty or `limit`
/// batches were handled. However much the consumer pushes, the drain ends;
/// and where it reports that it drained the queue, the queue is empty. A
/// drain that finds the queue empty, or may take no round, takes nothing.
pub fn drain_to_fixed_point<C: Consumer>(action_bus: &mut ActionBus, consumer: &mut C, limit: u32) -> (report:
    DrainReport)
    ensures
        report.rounds <= limit,
        report.drained <==> final(action_bus)@.prioritary.len() == 0,
        !report.drained ==> report.rounds == limit,
        old(action_bus)@.prioritary.len() > 0 && limit > 0 ==> report.rounds >= 1,
        old(action_bus)@.prioritary.len() == 0 || limit == 0 ==> {
            &&& report.rounds == 0
            &&& final(action_bus)@ == old(action_bus)@
            &&& *final(consumer) == *old(consumer)
        },
{
    let mut drain = FixedPoint::new(limit);
    let mut rounds: u32 = 0;
    loop
        invariant
            drain.limit() == limit,
            drain.rounds() == rounds,
            rounds <= limit,
            rounds == 0 ==> action_bus@ == old(action_bus)@ && *consumer == *old(consumer),
            rounds > 0 ==> old(action_bus)@.prioritary.len() > 0 && limit > 0,
        decreases limit - rounds,
    {
        match drain.step(action_bus) {
            DrainStep::Batch(batch) => {
                rounds += 1;
                let mut batch = batch;
                while batch.len() > 0
                    decreases batch.len(),
                {
                    let envelope = batch.remove(0);
                    consumer.consume(envelope, action_bus);
                }
            },
            DrainStep::Drained => {
                return DrainReport { rounds, drained: true };
            },
            DrainStep::Overrun => {
                return DrainReport { rounds, drained: false };
            },
        }
    }
}

/// Creations pushed one after the other are promised identifiers that go up
/// by one from the identifier that the bus held before the first push.
pub proof fn lemma_creation_ids_consecutive(bus: BusState, actions: Seq<Action>, i: int)
    requires
        forall|j: int| 0 <= j < actions.len() ==> (#[trigger] actions[j]).creates_scene(),
        bus.future_scene_id + actions.len() <= u64::MAX,
        0 <= i < actions.len(),
    ensures
        bus.pushed_all(actions.take(i)).future_scene_id == bus.future_scene_id + i,
        bus.pushed_all(actions.take(i)).has_room(actions[i]),
        bus.pushed_all(actions.take(i)).promise(actions[i]) == Some(
            HamID::SceneID((bus.future_scene_id + i) as SceneID),
        ),
    decreases i,
{
    if i > 0 {
        lemma_creation_ids_consecutive(bus, actions, i - 1);
        assert(actions.take(i).drop_last() =~= actions.take(i - 1));
        assert(actions.take(i).last() == actions[i - 1]);
    }
}

} // verus!
