use vstd::prelude::*;

use crate::enemy::{count_live_enemies, live_count, Enemy, EnemyType, SpawnEnemyEvent};
use crate::item::{ItemType, SpawnItemEvent};
use crate::timer::Timer;

verus! {

/// One spawn request of a wave: what to spawn and how many.
#[derive(Clone, Copy, PartialEq, Eq, Structural, Debug)]
pub enum WaveEntry {
    Mierda { count: usize },
    Pizza { count: usize },
    Pendejo { count: usize },
    Biboran { count: usize },
    Boss { count: usize },
}

/// A wave: its entries, the spacing between dispatches and the time until
/// the next wave begins (both in milliseconds).
#[derive(Debug)]
pub struct Wave {
    pub events: Vec<WaveEntry>,
    pub event_duration: u64,
    pub wave_duration: u64,
}

/// The mathematical content of a `Wave`.
pub struct WaveModel {
    pub events: Seq<WaveEntry>,
    pub event_duration: u64,
    pub wave_duration: u64,
}

impl View for Wave {
    type V = WaveModel;

    open spec fn view(&self) -> WaveModel {
        WaveModel {
            events: self.events@,
            event_duration: self.event_duration,
            wave_duration: self.wave_duration,
        }
    }
}

/// The wave table of the first level.
pub open spec fn level_1_table() -> Seq<WaveModel> {
    seq![
        WaveModel {
            events: seq![WaveEntry::Mierda { count: 100 }],
            event_duration: 10_000,
            wave_duration: 10_000,
        },
        WaveModel {
            events: seq![
                WaveEntry::Mierda { count: 100 },
                WaveEntry::Pizza { count: 5 },
                WaveEntry::Mierda { count: 100 },
                WaveEntry::Biboran { count: 5 },
                WaveEntry::Mierda { count: 100 },
            ],
            event_duration: 10_000,
            wave_duration: 40_000,
        },
        WaveModel {
            events: seq![
                WaveEntry::Pendejo { count: 100 },
                WaveEntry::Pizza { count: 3 },
                WaveEntry::Pendejo { count: 100 },
                WaveEntry::Pizza { count: 3 },
                WaveEntry::Pendejo { count: 100 },
                WaveEntry::Pizza { count: 3 },
            ],
            event_duration: 5_000,
            wave_duration: 60_000,
        },
        WaveModel {
            events: seq![WaveEntry::Boss { count: 1 }],
            event_duration: 5_000,
            wave_duration: 120_000,
        },
    ]
}

/// The wave table of a level, for the levels that have one.
pub open spec fn level_table(level_id: Option<usize>) -> Option<Seq<WaveModel>> {
    match level_id {
        Some(id) => if id == 1 { Some(level_1_table()) } else { None },
        None => None,
    }
}

/// Every wave of the first level has at least one entry.
pub proof fn lemma_level_1_waves_nonempty()
    ensures
        level_1_table().len() == 4,
        forall|i: int| 0 <= i < 4 ==> #[trigger] level_1_table()[i].events.len() > 0,
{
    assert(level_1_table()[0].events.len() == 1);
    assert(level_1_table()[1].events.len() == 5);
    assert(level_1_table()[2].events.len() == 6);
    assert(level_1_table()[3].events.len() == 1);
}

fn wave(events: Vec<WaveEntry>, event_duration: u64, wave_duration: u64) -> (r: Wave)
    ensures
        r@ == (WaveModel { events: events@, event_duration, wave_duration }),
{
    Wave { events, event_duration, wave_duration }
}

pub fn get_level_1_waves() -> (r: Vec<Wave>)
    ensures
        r@.len() == level_1_table().len(),
        forall|i: int| 0 <= i < r@.len() ==> #[trigger] r@[i]@ == level_1_table()[i],
{
    let mut waves: Vec<Wave> = Vec::new();
    waves.push(wave(vec![WaveEntry::Mierda { count: 100 }], 10_000, 10_000));
    waves.push(wave(
        vec![
            WaveEntry::Mierda { count: 100 },
            WaveEntry::Pizza { count: 5 },
            WaveEntry::Mierda { count: 100 },
            WaveEntry::Biboran { count: 5 },
            WaveEntry::Mierda { count: 100 },
        ],
        10_000,
        40_000,
    ));
    waves.push(wave(
        vec![
            WaveEntry::Pendejo { count: 100 },
            WaveEntry::Pizza { count: 3 },
            WaveEntry::Pendejo { count: 100 },
            WaveEntry::Pizza { count: 3 },
            WaveEntry::Pendejo { count: 100 },
            WaveEntry::Pizza { count: 3 },
        ],
        5_000,
        60_000,
    ));
    waves.push(wave(vec![WaveEntry::Boss { count: 1 }], 5_000, 120_000));
    assert(waves@[0]@.events =~= level_1_table()[0].events);
    assert(waves@[1]@.events =~= level_1_table()[1].events);
    assert(waves@[2]@.events =~= level_1_table()[2].events);
    assert(waves@[3]@.events =~= level_1_table()[3].events);
    waves
}

/// The director's state for the level being played.
#[derive(Debug)]
pub struct GameplayState {
    pub wave_number: Option<usize>,
    pub current_level_id: Option<usize>,
    pub event_queue: Vec<WaveEntry>,
    pub wave_timer: Timer,
    pub wave_event_timer: Timer,
}

/// A dispatch of one wave entry.
#[derive(Clone, Copy, PartialEq, Eq, Structural, Debug)]
pub struct WaveEvent {
    pub wave_number: usize,
    pub wave_entry: WaveEntry,
}

/// Relies on rand::thread_rng and rand::Rng::gen_range: a value drawn from
/// the range `0..n`, which is not empty.
#[verifier::external_body]
fn random_below(n: usize) -> (r: usize)
    requires
        n > 0,
    ensures
        r < n,
{
    rand::Rng::gen_range(&mut rand::thread_rng(), 0..n)
}

impl GameplayState {
    /// The wave table of the loaded level.
    pub open spec fn level_waves(&self) -> Option<Seq<WaveModel>> {
        level_table(self.current_level_id)
    }

    /// The wave being played, if a level with a wave table is loaded and
    /// the wave number points into it.
    pub open spec fn wave_spec(&self) -> Option<WaveModel> {
        match self.level_waves() {
            Some(waves) => match self.wave_number {
                Some(n) => if n < waves.len() { Some(waves[n as int]) } else { None },
                None => None,
            },
            None => None,
        }
    }

    /// The director's invariant: a loaded level has a valid wave number,
    /// and the queue only ever holds what is left of the current wave.
    pub open spec fn wf(&self) -> bool {
        &&& match self.level_waves() {
            Some(waves) => match self.wave_number {
                Some(n) => n < waves.len(),
                None => false,
            },
            None => true,
        }
        &&& match self.wave_spec() {
            Some(w) => self.event_queue@.len() <= w.events.len(),
            None => self.event_queue@.len() == 0,
        }
    }

    /// `t` is `s` with only the event queue changed.
    pub open spec fn same_but_queue(s: GameplayState, t: GameplayState) -> bool {
        &&& t.wave_number == s.wave_number
        &&& t.current_level_id == s.current_level_id
        &&& t.wave_timer == s.wave_timer
        &&& t.wave_event_timer == s.wave_event_timer
    }

    /// `t` is `s` with only the event timer changed.
    pub open spec fn same_but_event_timer(s: GameplayState, t: GameplayState) -> bool {
        &&& t.wave_number == s.wave_number
        &&& t.current_level_id == s.current_level_id
        &&& t.event_queue@ == s.event_queue@
        &&& t.wave_timer == s.wave_timer
    }

    /// Taking the entry at `index` moves `s` to `t` and yields `r`: the
    /// queue loses its element at `index`, and the entry returned is the
    /// one at `index` in the wave's own list.
    pub open spec fn selected(s: GameplayState, index: int, t: GameplayState, r: Option<WaveEntry>) -> bool {
        &&& GameplayState::same_but_queue(s, t)
        &&& match s.wave_spec() {
            Some(w) => if 0 <= index < s.event_queue@.len() && index < w.events.len() {
                &&& r == Some(w.events[index])
                &&& t.event_queue@ == s.event_queue@.remove(index)
            } else {
                &&& r.is_none()
                &&& t.event_queue@ == s.event_queue@
            },
            None => {
                &&& r.is_none()
                &&& t.event_queue@ == s.event_queue@
            },
        }
    }

    pub fn current_level_waves(&self) -> (r: Option<Vec<Wave>>)
        ensures
            r.is_some() == self.level_waves().is_some(),
            r.is_some() ==> {
                &&& r.unwrap()@.len() == self.level_waves().unwrap().len()
                &&& forall|i: int| 0 <= i < r.unwrap()@.len() ==> #[trigger] r.unwrap()@[i]@ == self.level_waves().unwrap()[i]
            },
    {
        match self.current_level_id {
            Some(id) => if id == 1 { Some(get_level_1_waves()) } else { None },
            None => None,
        }
    }

    pub fn current_wave(&self) -> (r: Option<Wave>)
        ensures
            r.is_some() == self.wave_spec().is_some(),
            r.is_some() ==> r.unwrap()@ == self.wave_spec().unwrap(),
    {
        match self.current_level_waves() {
            Some(mut waves) => match self.wave_number {
                Some(n) => if n < waves.len() { Some(waves.remove(n)) } else { None },
                None => None,
            },
            None => None,
        }
    }

    /// Takes the entry at `index`: removes that position from the queue and
    /// returns the entry at the same position in the current wave's list.
    pub fn select_wave_entry_at(&mut self, index: usize) -> (r: Option<WaveEntry>)
        ensures
            GameplayState::selected(*old(self), index as int, *final(self), r),
    {
        match self.current_wave() {
            Some(w) => {
                if index < self.event_queue.len() && index < w.events.len() {
                    self.event_queue.remove(index);
                    Some(w.events[index])
                } else {
                    None
                }
            },
            None => None,
        }
    }

    /// Takes an entry at a random position of the queue; `None` when there
    /// is no current wave or nothing is left to dispatch.
    pub fn select_random_wave_entry(&mut self) -> (r: Option<WaveEntry>)
        ensures
            old(self).wave_spec().is_some() && old(self).event_queue@.len() > 0 ==> exists|i: int|
                0 <= i < old(self).event_queue@.len() && GameplayState::selected(*old(self), i, *final(self), r),
            old(self).wave_spec().is_none() || old(self).event_queue@.len() == 0 ==> {
                &&& r.is_none()
                &&& GameplayState::same_but_queue(*old(self), *final(self))
                &&& final(self).event_queue@ == old(self).event_queue@
            },
    {
        match self.current_wave() {
            Some(_) => {
                if self.event_queue.len() == 0 {
                    return None;
                }
                let index = random_below(self.event_queue.len());
                self.select_wave_entry_at(index)
            },
            None => None,
        }
    }
}

impl Default for GameplayState {
    /// No level loaded, nothing queued, both timers zero-length.
    fn default() -> (r: GameplayState)
        ensures
            r.wave_number.is_none(),
            r.current_level_id.is_none(),
            r.event_queue@.len() == 0,
            r.wave_timer == Timer::fresh(0),
            r.wave_event_timer == Timer::fresh(0),
            r.wf(),
    {
        GameplayState {
            wave_number: None,
            current_level_id: None,
            event_queue: Vec::new(),
            wave_timer: Timer::new(0),
            wave_event_timer: Timer::new(0),
        }
    }
}

/// The index of the wave being played (the first one before any is set).
pub open spec fn wave_index(s: GameplayState) -> nat {
    match s.wave_number {
        Some(n) => n as nat,
        None => 0,
    }
}

/// Whether the tick of `delta` milliseconds ends the current wave and a
/// next one exists.
pub open spec fn advances(s: GameplayState, delta: u64) -> bool {
    &&& s.wave_timer.ticked(delta).just_finished
    &&& s.level_waves().is_some()
    &&& wave_index(s) + 1 < s.level_waves().unwrap().len()
}

/// One run of `handle_timers` moves `s` to `t` and dispatches `out`.
///
/// Both timers advance by `delta`. When the wave timer runs out and a next
/// wave exists, the director moves to it, refills the queue from it,
/// restarts the wave timer with its duration and makes one dispatch; when
/// the event timer runs out it makes one more. A dispatch happens as long
/// as the queue has entries, and each one takes one entry off the queue.
pub open spec fn timers_step(s: GameplayState, delta: u64, t: GameplayState, out: Seq<WaveEvent>) -> bool {
    let adv = advances(s, delta);
    let next = wave_index(s) + 1;
    let available = if adv {
        s.level_waves().unwrap()[next as int].events.len()
    } else {
        s.event_queue@.len()
    };
    let tries: nat = (if adv { 1nat } else { 0nat }) + (if s.wave_event_timer.ticked(delta).just_finished { 1nat } else { 0nat });
    &&& t.current_level_id == s.current_level_id
    &&& t.wave_number == if adv { Some(next as usize) } else { s.wave_number }
    &&& t.wave_timer == if adv {
        Timer::fresh(s.level_waves().unwrap()[next as int].wave_duration)
    } else {
        s.wave_timer.ticked(delta)
    }
    &&& t.wave_event_timer == s.wave_event_timer.ticked(delta)
    &&& out.len() == if tries < available { tries } else { available }
    &&& t.event_queue@.len() + out.len() == available
    &&& forall|k: int| 0 <= k < out.len() ==> {
        &&& t.wave_number == Some(#[trigger] out[k].wave_number)
        &&& t.wave_spec().unwrap().events.contains(out[k].wave_entry)
    }
    &&& t.wf()
}

/// Starts a level. Level 1 resets the director to its first wave, fills the
/// queue from that wave, dispatches one entry and starts the wave timer;
/// the event of that opening dispatch carries the number 1. Other levels
/// have no wave table and leave the state as it is.
pub fn event_on_level_change(gameplay_state: &mut GameplayState, level_id: usize) -> (r: Option<WaveEvent>)
    ensures
        level_id == 1 ==> {
            &&& final(gameplay_state).wave_number == Some(0usize)
            &&& final(gameplay_state).current_level_id == Some(1usize)
            &&& final(gameplay_state).event_queue@.len() == 0
            &&& final(gameplay_state).wave_timer == Timer::fresh(level_1_table()[0].wave_duration)
            &&& final(gameplay_state).wave_event_timer == Timer::fresh(0)
            &&& r == Some(WaveEvent { wave_number: 1, wave_entry: level_1_table()[0].events[0] })
        },
        level_id != 1 ==> r.is_none() && *final(gameplay_state) == *old(gameplay_state),
        level_id == 1 || old(gameplay_state).wf() ==> final(gameplay_state).wf(),
{
    if level_id != 1 {
        return None;
    }
    let mut waves = get_level_1_waves();
    let first = waves.remove(0);
    *gameplay_state = GameplayState {
        wave_number: Some(0),
        current_level_id: Some(1),
        event_queue: first.events,
        wave_timer: Timer::new(0),
        wave_event_timer: Timer::new(0),
    };
    proof {
        lemma_level_1_waves_nonempty();
    }
    assert(first@ == level_1_table()[0]);
    assert(gameplay_state.wave_spec() == Some(level_1_table()[0]));
    let ghost s0 = *gameplay_state;
    let entry = gameplay_state.select_random_wave_entry();
    proof {
        let i = choose|i: int| 0 <= i < s0.event_queue@.len() && GameplayState::selected(s0, i, *gameplay_state, entry);
        lemma_selected_in_wf(s0, i, *gameplay_state, entry);
    }
    gameplay_state.wave_timer = Timer::new(first.wave_duration);
    match entry {
        Some(e) => Some(WaveEvent { wave_number: 1, wave_entry: e }),
        None => None,
    }
}

/// Taking a position of a well-formed, non-empty queue always yields an
/// entry of the current wave and shrinks the queue by one.
proof fn lemma_selected_in_wf(s: GameplayState, i: int, t: GameplayState, r: Option<WaveEntry>)
    requires
        s.wf(),
        s.wave_spec().is_some(),
        0 <= i < s.event_queue@.len(),
        GameplayState::selected(s, i, t, r),
    ensures
        r.is_some(),
        s.wave_spec().unwrap().events.contains(r.unwrap()),
        t.event_queue@.len() + 1 == s.event_queue@.len(),
        t.wave_spec() == s.wave_spec(),
        t.wf(),
{
    assert(s.wave_spec().unwrap().events[i] == r.unwrap());
}

/// Makes one dispatch, if the queue has an entry left, and appends it to
/// `out` with the current wave number.
fn dispatch_one(gameplay_state: &mut GameplayState, out: &mut Vec<WaveEvent>)
    ensures
        GameplayState::same_but_queue(*old(gameplay_state), *final(gameplay_state)),
        old(gameplay_state).wf() ==> {
            let due = old(gameplay_state).event_queue@.len() > 0;
            &&& final(gameplay_state).wf()
            &&& final(out)@.len() == old(out)@.len() + if due { 1int } else { 0int }
            &&& final(gameplay_state).event_queue@.len() + (if due { 1int } else { 0int }) == old(gameplay_state).event_queue@.len()
            &&& forall|k: int| old(out)@.len() <= k < final(out)@.len() ==> {
                &&& old(gameplay_state).wave_number == Some(#[trigger] final(out)@[k].wave_number)
                &&& old(gameplay_state).wave_spec().unwrap().events.contains(final(out)@[k].wave_entry)
            }
        },
        final(out)@.subrange(0, old(out)@.len() as int) == old(out)@,
{
    let ghost s0 = *gameplay_state;
    let picked = gameplay_state.select_random_wave_entry();
    proof {
        if s0.wf() && s0.event_queue@.len() > 0 {
            let i = choose|i: int| 0 <= i < s0.event_queue@.len() && GameplayState::selected(s0, i, *gameplay_state, picked);
            lemma_selected_in_wf(s0, i, *gameplay_state, picked);
        }
    }
    match picked {
        Some(e) => match gameplay_state.wave_number {
            Some(n) => {
                out.push(WaveEvent { wave_number: n, wave_entry: e });
            },
            None => {},
        },
        None => {},
    }
    assert(out@.subrange(0, old(out)@.len() as int) =~= old(out)@);
}

/// Advances both timers by `delta` milliseconds and makes the dispatches
/// that fall due.
pub fn handle_timers(gameplay_state: &mut GameplayState, delta: u64) -> (r: Vec<WaveEvent>)
    ensures
        old(gameplay_state).wf() ==> timers_step(*old(gameplay_state), delta, *final(gameplay_state), r@),
{
    proof {
        lemma_level_1_waves_nonempty();
    }
    let mut out: Vec<WaveEvent> = Vec::new();
    let ghost s0 = *gameplay_state;
    gameplay_state.wave_timer.tick(delta);
    gameplay_state.wave_event_timer.tick(delta);
    if gameplay_state.wave_timer.just_finished() {
        match gameplay_state.current_level_waves() {
            Some(mut waves) => {
                let current: usize = match gameplay_state.wave_number {
                    Some(n) => n,
                    None => 0,
                };
                if current < waves.len() && waves.len() - current > 1 {
                    let next: usize = current + 1;
                    let w = waves.remove(next);
                    assert(w@ == level_1_table()[next as int]);
                    gameplay_state.wave_number = Some(next);
                    gameplay_state.event_queue = w.events;
                    gameplay_state.wave_timer = Timer::new(w.wave_duration);
                    assert(gameplay_state.wave_spec() == Some(level_1_table()[next as int]));
                    assert(gameplay_state.wf());
                    dispatch_one(gameplay_state, &mut out);
                }
            },
            None => {},
        }
    }
    let ghost s1 = *gameplay_state;
    let ghost out1 = out@;
    if gameplay_state.wave_event_timer.just_finished() {
        dispatch_one(gameplay_state, &mut out);
        proof {
            if s0.wf() {
                assert forall|k: int| 0 <= k < out@.len() implies {
                    &&& gameplay_state.wave_number == Some(#[trigger] out@[k].wave_number)
                    &&& gameplay_state.wave_spec().unwrap().events.contains(out@[k].wave_entry)
                } by {
                    if k < out1.len() {
                        assert(out@[k] == out@.subrange(0, out1.len() as int)[k]);
                    }
                }
            }
        }
    }
    out
}

/// The spawn requests one wave entry turns into.
#[derive(Debug)]
pub struct SpawnOrders {
    pub enemies: Vec<SpawnEnemyEvent>,
    pub items: Vec<SpawnItemEvent>,
}

/// The enemy requests of an entry; a boss is both of its phases.
pub open spec fn enemy_orders(entry: WaveEntry) -> Seq<SpawnEnemyEvent> {
    match entry {
        WaveEntry::Mierda { count } => seq![SpawnEnemyEvent { count: count as u32, enemy_type: EnemyType::Mierda }],
        WaveEntry::Pendejo { count } => seq![SpawnEnemyEvent { count: count as u32, enemy_type: EnemyType::Pendejo }],
        WaveEntry::Boss { count } => seq![
            SpawnEnemyEvent { count: count as u32, enemy_type: EnemyType::Psychiatrist1 },
            SpawnEnemyEvent { count: count as u32, enemy_type: EnemyType::Psychiatrist2 },
        ],
        _ => seq![],
    }
}

/// The item requests of an entry.
pub open spec fn item_orders(entry: WaveEntry) -> Seq<SpawnItemEvent> {
    match entry {
        WaveEntry::Pizza { count } => seq![SpawnItemEvent { count: count as u32, item_type: ItemType::Pizza }],
        WaveEntry::Biboran { count } => seq![SpawnItemEvent { count: count as u32, item_type: ItemType::Biboran }],
        _ => seq![],
    }
}

/// Turns a dispatched entry into spawn requests and restarts the event
/// timer with the current wave's spacing.
pub fn event_wave(gameplay_state: &mut GameplayState, event: WaveEvent) -> (r: SpawnOrders)
    ensures
        r.enemies@ == enemy_orders(event.wave_entry),
        r.items@ == item_orders(event.wave_entry),
        GameplayState::same_but_event_timer(*old(gameplay_state), *final(gameplay_state)),
        final(gameplay_state).wave_event_timer == match old(gameplay_state).wave_spec() {
            Some(w) => Timer::fresh(w.event_duration),
            None => old(gameplay_state).wave_event_timer,
        },
        old(gameplay_state).wf() ==> final(gameplay_state).wf(),
{
    let mut enemies: Vec<SpawnEnemyEvent> = Vec::new();
    let mut items: Vec<SpawnItemEvent> = Vec::new();
    match event.wave_entry {
        WaveEntry::Mierda { count } => {
            enemies.push(SpawnEnemyEvent { count: count as u32, enemy_type: EnemyType::Mierda });
        },
        WaveEntry::Pendejo { count } => {
            enemies.push(SpawnEnemyEvent { count: count as u32, enemy_type: EnemyType::Pendejo });
        },
        WaveEntry::Pizza { count } => {
            items.push(SpawnItemEvent { count: count as u32, item_type: ItemType::Pizza });
        },
        WaveEntry::Biboran { count } => {
            items.push(SpawnItemEvent { count: count as u32, item_type: ItemType::Biboran });
        },
        WaveEntry::Boss { count } => {
            enemies.push(SpawnEnemyEvent { count: count as u32, enemy_type: EnemyType::Psychiatrist1 });
            enemies.push(SpawnEnemyEvent { count: count as u32, enemy_type: EnemyType::Psychiatrist2 });
        },
    }
    match gameplay_state.current_wave() {
        Some(w) => {
            gameplay_state.wave_event_timer = Timer::new(w.event_duration);
        },
        None => {},
    }
    assert(enemies@ =~= enemy_orders(event.wave_entry));
    assert(items@ =~= item_orders(event.wave_entry));
    SpawnOrders { enemies, items }
}

/// Whether the game is won: the last wave of the level is being played
/// and no simulated enemy is left.
pub open spec fn game_won(s: GameplayState, enemies: Seq<Enemy>) -> bool {
    &&& s.wave_spec().is_some()
    &&& wave_index(s) + 1 == s.level_waves().unwrap().len()
    &&& live_count(enemies) == 0
}

pub fn check_game_won_or_lost(gameplay_state: &GameplayState, enemies: &Vec<Enemy>) -> (won: bool)
    ensures
        won == game_won(*gameplay_state, enemies@),
{
    match gameplay_state.current_level_waves() {
        Some(waves) => match gameplay_state.wave_number {
            Some(n) => n < waves.len() && n + 1 == waves.len() && count_live_enemies(enemies) == 0,
            None => false,
        },
        None => false,
    }
}

/// The wave to show (counted from one) and the whole seconds left in it.
pub fn wave_info(gameplay_state: &GameplayState) -> (r: (usize, u64))
    ensures
        r.0 == if wave_index(*gameplay_state) < usize::MAX { wave_index(*gameplay_state) + 1 } else { usize::MAX as nat },
        r.1 == gameplay_state.wave_timer.remaining_spec() / 1000,
{
    let shown: usize = match gameplay_state.wave_number {
        Some(n) => if n < usize::MAX { n + 1 } else { n },
        None => 1,
    };
    (shown, gameplay_state.wave_timer.remaining() / 1000)
}

/// `states` is a run of `handle_timers`: each state follows from the one
/// before by a tick of `deltas[i]` that dispatched `outs[i]`.
pub open spec fn timers_run(states: Seq<GameplayState>, deltas: Seq<u64>, outs: Seq<Seq<WaveEvent>>) -> bool {
    &&& states.len() == deltas.len() + 1
    &&& outs.len() == deltas.len()
    &&& forall|i: int| #![trigger deltas[i]] 0 <= i < deltas.len() ==> timers_step(states[i], deltas[i], states[i + 1], outs[i])
}

/// How many entries a run dispatched in all.
pub open spec fn total_dispatched(outs: Seq<Seq<WaveEvent>>) -> nat
    decreases outs.len(),
{
    if outs.len() == 0 {
        0
    } else {
        total_dispatched(outs.drop_last()) + outs.last().len()
    }
}

/// A tick never lowers the wave number, never takes it past the last wave
/// of the level, and keeps the director well formed.
pub proof fn lemma_wave_number_step(s: GameplayState, delta: u64, t: GameplayState, out: Seq<WaveEvent>)
    requires
        s.wf(),
        timers_step(s, delta, t, out),
    ensures
        wave_index(s) <= wave_index(t),
        wave_index(t) <= wave_index(s) + 1,
        t.level_waves().is_some() ==> wave_index(t) + 1 <= t.level_waves().unwrap().len(),
        t.wf(),
{
}

proof fn lemma_run_prefix(states: Seq<GameplayState>, deltas: Seq<u64>, outs: Seq<Seq<WaveEvent>>, k: int)
    requires
        timers_run(states, deltas, outs),
        0 <= k < states.len(),
        states[0].wf(),
    ensures
        states[k].wf(),
        wave_index(states[0]) <= wave_index(states[k]),
    decreases k,
{
    if k > 0 {
        lemma_run_prefix(states, deltas, outs, k - 1);
        lemma_wave_number_step(states[k - 1], deltas[k - 1], states[k], outs[k - 1]);
    }
}

/// Over any run of ticks within a level, the wave number only increases
/// and never exceeds the index of the level's last wave.
pub proof fn lemma_wave_number_monotone(states: Seq<GameplayState>, deltas: Seq<u64>, outs: Seq<Seq<WaveEvent>>)
    requires
        timers_run(states, deltas, outs),
        states[0].wf(),
    ensures
        forall|i: int, j: int| 0 <= i <= j < states.len() ==> wave_index(#[trigger] states[i]) <= wave_index(#[trigger] states[j]),
        forall|i: int| 0 <= i < states.len() && (#[trigger] states[i]).level_waves().is_some() ==>
            wave_index(states[i]) + 1 <= states[i].level_waves().unwrap().len(),
{
    assert forall|i: int, j: int| 0 <= i <= j < states.len() implies wave_index(#[trigger] states[i]) <= wave_index(#[trigger] states[j]) by {
        lemma_run_prefix(states, deltas, outs, i);
        let sub_states = states.subrange(i, states.len() as int);
        let sub_deltas = deltas.subrange(i, deltas.len() as int);
        let sub_outs = outs.subrange(i, outs.len() as int);
        assert forall|m: int| #![trigger sub_deltas[m]] 0 <= m < sub_deltas.len() implies timers_step(sub_states[m], sub_deltas[m], sub_states[m + 1], sub_outs[m]) by {
            assert(timers_step(states[i + m], deltas[i + m], states[i + m + 1], outs[i + m]));
        }
        lemma_run_prefix(sub_states, sub_deltas, sub_outs, j - i);
    }
    assert forall|i: int| 0 <= i < states.len() && (#[trigger] states[i]).level_waves().is_some() implies
        wave_index(states[i]) + 1 <= states[i].level_waves().unwrap().len() by {
        lemma_run_prefix(states, deltas, outs, i);
    }
}

proof fn lemma_wave_dispatch_prefix(states: Seq<GameplayState>, deltas: Seq<u64>, outs: Seq<Seq<WaveEvent>>, k: int)
    requires
        timers_run(states, deltas, outs),
        states[0].wf(),
        forall|i: int| 1 <= i < deltas.len() ==> !advances(#[trigger] states[i], deltas[i]),
        1 <= k < states.len(),
    ensures
        states[k].wf(),
        states[k].wave_spec() == states[1].wave_spec(),
        total_dispatched(outs.subrange(0, k)) + states[k].event_queue@.len() == if advances(states[0], deltas[0]) {
            states[1].wave_spec().unwrap().events.len()
        } else {
            states[0].event_queue@.len()
        },
    decreases k,
{
    assert(timers_step(states[0], deltas[0], states[1], outs[0]));
    if k == 1 {
        assert(outs.subrange(0, 1).drop_last() =~= outs.subrange(0, 0));
    } else {
        lemma_wave_dispatch_prefix(states, deltas, outs, k - 1);
        assert(timers_step(states[k - 1], deltas[k - 1], states[k], outs[k - 1]));
        assert(!advances(states[k - 1], deltas[k - 1]));
        assert(outs.subrange(0, k).drop_last() =~= outs.subrange(0, k - 1));
    }
}

/// Within one wave's lifetime (a run whose ticks, after the first, move to
/// no new wave) the director never dispatches more entries than the wave
/// lists: what was dispatched and what is still queued add up to the
/// queue the wave started with.
pub proof fn lemma_dispatches_bounded_by_wave(states: Seq<GameplayState>, deltas: Seq<u64>, outs: Seq<Seq<WaveEvent>>)
    requires
        timers_run(states, deltas, outs),
        states[0].wf(),
        states[0].wave_spec().is_some(),
        deltas.len() >= 1,
        forall|i: int| 1 <= i < deltas.len() ==> !advances(#[trigger] states[i], deltas[i]),
    ensures
        states.last().wave_spec() == states[1].wave_spec(),
        total_dispatched(outs) <= states.last().wave_spec().unwrap().events.len(),
{
    let k = states.len() - 1;
    lemma_wave_dispatch_prefix(states, deltas, outs, k);
    assert(outs.subrange(0, k) =~= outs);
    assert(timers_step(states[0], deltas[0], states[1], outs[0]));
    lemma_wave_number_step(states[0], deltas[0], states[1], outs[0]);
    if !advances(states[0], deltas[0]) {
        assert(states[1].wave_spec() == states[0].wave_spec());
    }
}

} // verus!
