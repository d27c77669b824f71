use vstd::prelude::*;

use crate::scoring::Score;
use crate::timer::{firings, lemma_timer_fires_once, total_time, Timer};

verus! {

/// Health of a freshly spawned enemy.
pub const ENEMY_MAX_HEALTH: u8 = 100;

/// How long a hit staggers an enemy and makes it flash, in milliseconds.
pub const HIT_COOLDOWN: u64 = 200;

/// Time between death and removal, for the death animation.
pub const DESPAWN_DELAY: u64 = 300;

/// Time between two retargets toward the player.
pub const RETARGET_INTERVAL: u64 = 5_000;

/// The kinds of enemy; the boss comes in two phases.
#[derive(Clone, Copy, PartialEq, Eq, Structural, Debug)]
pub enum EnemyType {
    Mierda,
    Pendejo,
    Psychiatrist1,
    Psychiatrist2,
}

/// A request to the enemy factory: spawn `count` enemies of one type.
#[derive(Clone, Copy, PartialEq, Eq, Structural, Debug)]
pub struct SpawnEnemyEvent {
    pub count: u32,
    pub enemy_type: EnemyType,
}

/// A hit on the enemy at index `entity` of the enemy list.
#[derive(Clone, Copy, PartialEq, Eq, Structural, Debug)]
pub struct EnemyHitEvent {
    pub entity: usize,
    pub damage: u8,
}

/// The bookkeeping state of one enemy. Templates (`is_dummy`) are clone
/// sources and never simulated.
#[derive(Clone, Copy, PartialEq, Eq, Structural, Debug)]
pub struct Enemy {
    pub enemy_type: EnemyType,
    pub health: u8,
    pub hit_at: Option<Timer>,
    pub is_dummy: bool,
    pub marked_for_despawn: bool,
    pub despawn_timer: Option<Timer>,
}

/// The retarget timer of an enemy.
#[derive(Clone, Copy, PartialEq, Eq, Structural, Debug)]
pub struct DirectionUpdateTime {
    pub timer: Timer,
}

/// Points awarded for killing an enemy of the given type.
pub open spec fn kill_score_spec(enemy_type: EnemyType) -> u32 {
    match enemy_type {
        EnemyType::Pendejo => 50,
        _ => 100,
    }
}

pub fn kill_score(enemy_type: EnemyType) -> (r: u32)
    ensures
        r == kill_score_spec(enemy_type),
{
    match enemy_type {
        EnemyType::Pendejo => 50,
        _ => 100,
    }
}

impl Enemy {
    /// A new enemy at full health, not hit, not dying.
    pub open spec fn fresh(enemy_type: EnemyType, is_dummy: bool) -> Enemy {
        Enemy {
            enemy_type,
            health: ENEMY_MAX_HEALTH,
            hit_at: None,
            is_dummy,
            marked_for_despawn: false,
            despawn_timer: None,
        }
    }

    /// The enemy after a hit of `damage`: health drops by the damage but not
    /// below zero, and the hit cooldown restarts.
    pub open spec fn hit_spec(self, damage: u8) -> Enemy {
        Enemy {
            health: (self.health - if damage < self.health { damage } else { self.health }) as u8,
            hit_at: Some(Timer::fresh(HIT_COOLDOWN)),
            ..self
        }
    }

    /// Whether the enemy is dead and not yet marked for removal.
    pub open spec fn due_for_despawn(self) -> bool {
        self.health == 0 && !self.marked_for_despawn
    }

    /// The enemy once marked: flagged, with its removal countdown started.
    pub open spec fn marked_spec(self) -> Enemy {
        Enemy { marked_for_despawn: true, despawn_timer: Some(Timer::fresh(DESPAWN_DELAY)), ..self }
    }

    pub fn new(enemy_type: EnemyType, is_dummy: bool) -> (r: Enemy)
        ensures
            r == Enemy::fresh(enemy_type, is_dummy),
    {
        Enemy {
            enemy_type,
            health: ENEMY_MAX_HEALTH,
            hit_at: None,
            is_dummy,
            marked_for_despawn: false,
            despawn_timer: None,
        }
    }

    /// Applies a hit and returns the damage to show above the enemy.
    pub fn handle_enemy_hit(&mut self, damage: u8) -> (shown: u8)
        ensures
            shown == damage,
            *final(self) == old(self).hit_spec(damage),
    {
        self.hit_at = Some(Timer::new(HIT_COOLDOWN));
        let taken: u8 = if damage < self.health { damage } else { self.health };
        self.health = self.health - taken;
        damage
    }

    /// Advances the hit cooldown. Returns whether the enemy is still
    /// staggered and must not move this tick; the cooldown is cleared on the
    /// tick it runs out.
    pub fn tick_hit_cooldown(&mut self, delta: u64) -> (staggered: bool)
        ensures
            match old(self).hit_at {
                None => !staggered && *final(self) == *old(self),
                Some(t) => {
                    &&& staggered == !t.ticked(delta).finished
                    &&& final(self).hit_at == if staggered { Some(t.ticked(delta)) } else { None }
                    &&& *final(self) == (Enemy { hit_at: final(self).hit_at, ..*old(self) })
                },
            },
    {
        match self.hit_at {
            Some(t) => {
                let mut t = t;
                t.tick(delta);
                if !t.finished() {
                    self.hit_at = Some(t);
                    true
                } else {
                    self.hit_at = None;
                    false
                }
            },
            None => false,
        }
    }

    /// Marks a dead enemy for removal, once. Returns the points its death
    /// is worth the first time, `None` afterwards and for a living enemy.
    pub fn mark_if_dead(&mut self) -> (points: Option<u32>)
        ensures
            old(self).due_for_despawn() ==> {
                &&& points == Some(kill_score_spec(old(self).enemy_type))
                &&& *final(self) == old(self).marked_spec()
            },
            !old(self).due_for_despawn() ==> points.is_none() && *final(self) == *old(self),
    {
        if self.health != 0 || self.marked_for_despawn {
            return None;
        }
        self.marked_for_despawn = true;
        self.despawn_timer = Some(Timer::new(DESPAWN_DELAY));
        Some(kill_score(self.enemy_type))
    }

    /// The enemy after its removal countdown has run for `delta` more
    /// milliseconds.
    pub open spec fn despawn_ticked(self, delta: u64) -> Enemy {
        match self.despawn_timer {
            Some(t) => Enemy { despawn_timer: Some(t.ticked(delta)), ..self },
            None => self,
        }
    }

    /// Whether that tick is the one at which the enemy is removed.
    pub open spec fn removed_on_tick(self, delta: u64) -> bool {
        match self.despawn_timer {
            Some(t) => t.ticked(delta).just_finished,
            None => false,
        }
    }

    /// Advances the removal countdown of a marked enemy. Returns `true` on
    /// the one tick at which the enemy is to be removed.
    pub fn tick_despawn(&mut self, delta: u64) -> (remove: bool)
        ensures
            remove == old(self).removed_on_tick(delta),
            *final(self) == old(self).despawn_ticked(delta),
    {
        match self.despawn_timer {
            Some(t) => {
                let mut t = t;
                t.tick(delta);
                self.despawn_timer = Some(t);
                t.just_finished()
            },
            None => false,
        }
    }
}

impl DirectionUpdateTime {
    pub fn new() -> (r: DirectionUpdateTime)
        ensures
            r.timer == Timer::fresh(RETARGET_INTERVAL),
    {
        DirectionUpdateTime { timer: Timer::new(RETARGET_INTERVAL) }
    }

    /// Advances the retarget timer and says whether the enemy must aim at
    /// the player again: when the timer has run out, or whenever it has no
    /// direction at all.
    pub fn retarget_due(&mut self, delta: u64, direction_is_zero: bool) -> (due: bool)
        ensures
            final(self).timer == old(self).timer.ticked(delta),
            due == (final(self).timer.finished || direction_is_zero),
    {
        self.timer.tick(delta);
        self.timer.finished() || direction_is_zero
    }
}

/// A hit lowers health by the damage, never below zero and never above
/// what it was, so health stays within `[0, ENEMY_MAX_HEALTH]`.
pub proof fn lemma_hit_health_clamped(e: Enemy, damage: u8)
    ensures
        e.hit_spec(damage).health == e.health - if damage < e.health { damage } else { e.health },
        e.hit_spec(damage).health <= e.health,
        e.health <= ENEMY_MAX_HEALTH ==> e.hit_spec(damage).health <= ENEMY_MAX_HEALTH,
        damage >= e.health ==> e.hit_spec(damage).health == 0,
{
}

/// A dead enemy is marked for removal once: once marked it is never due
/// again, whatever hits it takes, and its removal countdown fires on
/// exactly one tick, the one by which `DESPAWN_DELAY` has passed.
pub proof fn lemma_despawn_exactly_once(e: Enemy, damage: u8, deltas: Seq<u64>)
    requires
        e.due_for_despawn(),
    ensures
        !e.marked_spec().due_for_despawn(),
        !e.marked_spec().hit_spec(damage).due_for_despawn(),
        firings(e.marked_spec().despawn_timer.unwrap(), deltas) == if total_time(deltas) >= DESPAWN_DELAY {
            1nat
        } else {
            0nat
        },
{
    lemma_timer_fires_once(e.marked_spec().despawn_timer.unwrap(), deltas);
}

/// The number of simulated (not template) enemies in a slice.
pub open spec fn live_count(enemies: Seq<Enemy>) -> nat
    decreases enemies.len(),
{
    if enemies.len() == 0 {
        0
    } else {
        live_count(enemies.drop_last()) + if enemies.last().is_dummy { 0nat } else { 1nat }
    }
}

proof fn lemma_live_count_bound(enemies: Seq<Enemy>)
    ensures
        live_count(enemies) <= enemies.len(),
    decreases enemies.len(),
{
    if enemies.len() > 0 {
        lemma_live_count_bound(enemies.drop_last());
    }
}

pub fn count_live_enemies(enemies: &Vec<Enemy>) -> (r: usize)
    ensures
        r == live_count(enemies@),
{
    let mut n: usize = 0;
    let mut i: usize = 0;
    while i < enemies.len()
        invariant
            i <= enemies@.len(),
            n == live_count(enemies@.subrange(0, i as int)),
        decreases enemies@.len() - i,
    {
        proof {
            assert(enemies@.subrange(0, i as int + 1).drop_last() =~= enemies@.subrange(0, i as int));
            lemma_live_count_bound(enemies@.subrange(0, i as int));
        }
        if !enemies[i].is_dummy {
            n = n + 1;
        }
        i = i + 1;
    }
    assert(enemies@.subrange(0, i as int) =~= enemies@);
    n
}

/// The points for the enemies of a slice that are dead and not yet marked.
pub open spec fn despawn_points(enemies: Seq<Enemy>) -> nat
    decreases enemies.len(),
{
    if enemies.len() == 0 {
        0
    } else {
        despawn_points(enemies.drop_last()) + if enemies.last().due_for_despawn() {
            kill_score_spec(enemies.last().enemy_type) as nat
        } else {
            0nat
        }
    }
}

/// `a + b`, or the largest score where that does not fit.
pub open spec fn capped_score(a: int, b: int) -> int {
    if a + b > u32::MAX { u32::MAX as int } else { a + b }
}

/// Marks every dead enemy for removal and adds the points for each newly
/// marked one to the score.
pub fn despawn_dead_enemies(enemies: &mut Vec<Enemy>, score: &mut Score)
    ensures
        final(enemies)@.len() == old(enemies)@.len(),
        forall|i: int| 0 <= i < old(enemies)@.len() ==> #[trigger] final(enemies)@[i] == if old(enemies)@[i].due_for_despawn() {
            old(enemies)@[i].marked_spec()
        } else {
            old(enemies)@[i]
        },
        final(score).score == capped_score(old(score).score as int, despawn_points(old(enemies)@) as int),
{
    let mut i: usize = 0;
    while i < enemies.len()
        invariant
            i <= enemies@.len(),
            enemies@.len() == old(enemies)@.len(),
            forall|j: int| 0 <= j < i ==> #[trigger] enemies@[j] == if old(enemies)@[j].due_for_despawn() {
                old(enemies)@[j].marked_spec()
            } else {
                old(enemies)@[j]
            },
            forall|j: int| i <= j < enemies@.len() ==> #[trigger] enemies@[j] == old(enemies)@[j],
            score.score == capped_score(old(score).score as int, despawn_points(old(enemies)@.subrange(0, i as int)) as int),
        decreases enemies@.len() - i,
    {
        assert(old(enemies)@.subrange(0, i as int + 1).drop_last() =~= old(enemies)@.subrange(0, i as int));
        let mut e = enemies[i];
        let points = e.mark_if_dead();
        enemies.set(i, e);
        match points {
            Some(p) => score.award(p),
            None => {},
        }
        i = i + 1;
    }
    assert(old(enemies)@.subrange(0, i as int) =~= old(enemies)@);
}

/// What stays of one enemy after a removal tick: the ticked enemy, or
/// nothing when this tick removes it.
pub open spec fn survivor(delta: u64, e: Enemy) -> Option<Enemy> {
    if e.removed_on_tick(delta) {
        None
    } else {
        Some(e.despawn_ticked(delta))
    }
}

/// Advances the removal countdowns and takes out the enemies whose
/// countdown ran out on this tick, keeping the others in order. Returns
/// how many were removed.
pub fn remove_despawned(enemies: &mut Vec<Enemy>, delta: u64) -> (removed: usize)
    ensures
        final(enemies)@ == old(enemies)@.filter_map(|e: Enemy| survivor(delta, e)),
        final(enemies)@.len() + removed == old(enemies)@.len(),
{
    let mut kept: Vec<Enemy> = Vec::new();
    let mut removed: usize = 0;
    let mut i: usize = 0;
    while i < enemies.len()
        invariant
            i <= enemies@.len(),
            kept@.len() + removed == i,
            kept@ == enemies@.subrange(0, i as int).filter_map(|e: Enemy| survivor(delta, e)),
        decreases enemies@.len() - i,
    {
        assert(enemies@.subrange(0, i as int + 1).drop_last() =~= enemies@.subrange(0, i as int));
        let mut e = enemies[i];
        if e.tick_despawn(delta) {
            removed = removed + 1;
        } else {
            kept.push(e);
        }
        i = i + 1;
    }
    assert(enemies@.subrange(0, i as int) =~= enemies@);
    *enemies = kept;
    removed
}

/// How many templates of the given type a slice holds.
pub open spec fn template_count(enemies: Seq<Enemy>, enemy_type: EnemyType) -> nat
    decreases enemies.len(),
{
    if enemies.len() == 0 {
        0
    } else {
        template_count(enemies.drop_last(), enemy_type) + if enemies.last().is_dummy && enemies.last().enemy_type == enemy_type {
            1nat
        } else {
            0nat
        }
    }
}

/// `n` new simulated enemies of one type.
pub open spec fn spawned(enemy_type: EnemyType, n: nat) -> Seq<Enemy> {
    Seq::new(n, |_i: int| Enemy::fresh(enemy_type, false))
}

/// Spawns `count` enemies per template of the requested type: each is a
/// simulated copy at full health, appended after the existing enemies.
pub fn handle_spawn_enemy(enemies: &mut Vec<Enemy>, event: &SpawnEnemyEvent)
    ensures
        final(enemies)@ == old(enemies)@ + spawned(
            event.enemy_type,
            event.count as nat * template_count(old(enemies)@, event.enemy_type),
        ),
{
    let ghost start = enemies@;
    let ghost k = template_count(start, event.enemy_type);
    let n: usize = enemies.len();
    let mut round: u32 = 0;
    while round < event.count
        invariant
            n == start.len(),
            k == template_count(start, event.enemy_type),
            round <= event.count,
            enemies@ =~= start + spawned(event.enemy_type, round as nat * k),
        decreases event.count - round,
    {
        let mut j: usize = 0;
        while j < n
            invariant
                n == start.len(),
                k == template_count(start, event.enemy_type),
                j <= n,
                round < event.count,
                enemies@ =~= start + spawned(event.enemy_type, round as nat * k + template_count(start.subrange(0, j as int), event.enemy_type)),
            decreases n - j,
        {
            assert(start.subrange(0, j as int + 1).drop_last() =~= start.subrange(0, j as int));
            assert(enemies@[j as int] == start[j as int]);
            let template = enemies[j];
            if template.is_dummy && template.enemy_type == event.enemy_type {
                enemies.push(Enemy::new(event.enemy_type, false));
            }
            j = j + 1;
        }
        assert(start.subrange(0, n as int) =~= start);
        let ghost before = round as nat * k;
        assert(before + k == (round as nat + 1) * k) by (nonlinear_arith)
            requires
                before == round as nat * k,
        ;
        assert(enemies@ =~= start + spawned(event.enemy_type, (round as nat + 1) * k));
        round = round + 1;
    }
}


/// The hits of an attack on the first `n` enemies: one per simulated enemy
/// that the attack reaches, in list order.
pub open spec fn attack_hits(enemies: Seq<Enemy>, reached: Seq<bool>, damage: u8, n: nat) -> Seq<EnemyHitEvent>
    decreases n,
{
    if n == 0 {
        Seq::empty()
    } else {
        let rest = attack_hits(enemies, reached, damage, (n - 1) as nat);
        if !enemies[n - 1].is_dummy && reached[n - 1] {
            rest.push(EnemyHitEvent { entity: (n - 1) as usize, damage })
        } else {
            rest
        }
    }
}

/// Resolves a player attack: every simulated enemy that the swing reaches
/// (`reached[i]`: within range and on the side the player faces) takes a
/// hit of `damage`.
pub fn event_player_attack(enemies: &Vec<Enemy>, reached: &Vec<bool>, damage: u8) -> (hits: Vec<EnemyHitEvent>)
    requires
        reached@.len() == enemies@.len(),
    ensures
        hits@ == attack_hits(enemies@, reached@, damage, enemies@.len() as nat),
{
    let mut hits: Vec<EnemyHitEvent> = Vec::new();
    let mut i: usize = 0;
    while i < enemies.len()
        invariant
            reached@.len() == enemies@.len(),
            i <= enemies@.len(),
            hits@ == attack_hits(enemies@, reached@, damage, i as nat),
        decreases enemies@.len() - i,
    {
        if !enemies[i].is_dummy && reached[i] {
            hits.push(EnemyHitEvent { entity: i, damage });
        }
        i = i + 1;
    }
    hits
}

} // verus!
