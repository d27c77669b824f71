use legend_of_mierda::enemy::{
    count_live_enemies, despawn_dead_enemies, event_player_attack, handle_spawn_enemy, kill_score,
    remove_despawned, DirectionUpdateTime, Enemy, EnemyHitEvent, EnemyType, SpawnEnemyEvent,
    DESPAWN_DELAY, HIT_COOLDOWN,
};
use legend_of_mierda::item::{ItemType, SpawnItemEvent};
use legend_of_mierda::player::Player;
use legend_of_mierda::scoring::Score;
use legend_of_mierda::timer::Timer;
use legend_of_mierda::waves::{
    check_game_won_or_lost, event_on_level_change, event_wave, get_level_1_waves, handle_timers,
    wave_info, GameplayState, WaveEntry, WaveEvent,
};

fn level_1_state() -> GameplayState {
    let mut state = GameplayState::default();
    event_on_level_change(&mut state, 1);
    state
}

#[test]
fn timer_finishes_once() {
    let mut t = Timer::new(300);
    t.tick(200);
    assert!(!t.finished());
    assert!(!t.just_finished());
    assert_eq!(t.remaining(), 100);
    t.tick(150);
    assert!(t.finished());
    assert!(t.just_finished());
    assert_eq!(t.elapsed, 300);
    t.tick(10);
    assert!(t.finished());
    assert!(!t.just_finished());
}

#[test]
fn default_timer_fires_on_first_tick() {
    let mut t = Timer::default();
    assert!(!t.finished());
    t.tick(0);
    assert!(t.just_finished());
}

#[test]
fn level_1_table_matches() {
    let waves = get_level_1_waves();
    assert_eq!(waves.len(), 4);
    assert_eq!(waves[0].events, vec![WaveEntry::Mierda { count: 100 }]);
    assert_eq!(waves[1].events.len(), 5);
    assert_eq!(waves[2].events.len(), 6);
    assert_eq!(waves[3].events, vec![WaveEntry::Boss { count: 1 }]);
    assert_eq!(waves[2].event_duration, 5_000);
    assert_eq!(waves[3].wave_duration, 120_000);
}

#[test]
fn level_start_dispatches_one_mierda_wave() {
    let mut state = GameplayState::default();
    let ev = event_on_level_change(&mut state, 1);
    assert_eq!(
        ev,
        Some(WaveEvent { wave_number: 1, wave_entry: WaveEntry::Mierda { count: 100 } })
    );
    assert_eq!(state.wave_number, Some(0));
    assert_eq!(state.current_level_id, Some(1));
    assert!(state.event_queue.is_empty());
    assert_eq!(state.wave_timer, Timer::new(10_000));
    let orders = event_wave(&mut state, ev.unwrap());
    assert_eq!(
        orders.enemies,
        vec![SpawnEnemyEvent { count: 100, enemy_type: EnemyType::Mierda }]
    );
    assert!(orders.items.is_empty());
    assert_eq!(state.wave_event_timer, Timer::new(10_000));
}

#[test]
fn unknown_level_changes_nothing() {
    let mut state = level_1_state();
    let before = state.event_queue.clone();
    assert_eq!(event_on_level_change(&mut state, 7), None);
    assert_eq!(state.current_level_id, Some(1));
    assert_eq!(state.event_queue, before);
}

#[test]
fn single_entry_wave_then_advance_at_ten_seconds() {
    let mut state = level_1_state();
    let ev = event_on_level_change(&mut state, 1).unwrap();
    event_wave(&mut state, ev);
    // nothing more within the first wave
    let out = handle_timers(&mut state, 9_999);
    assert!(out.is_empty());
    assert_eq!(state.wave_number, Some(0));
    // at ten seconds the wave ends: one dispatch for the new wave and one
    // for the event timer that ran out at the same time
    let out = handle_timers(&mut state, 1);
    assert_eq!(state.wave_number, Some(1));
    assert_eq!(out.len(), 2);
    assert_eq!(state.event_queue.len(), 3);
    assert_eq!(state.wave_timer, Timer::new(40_000));
    for e in &out {
        assert_eq!(e.wave_number, 1);
    }
}

#[test]
fn last_wave_stays_terminal() {
    let mut state = level_1_state();
    state.wave_number = Some(3);
    state.event_queue = vec![];
    state.wave_timer = Timer::new(120_000);
    state.wave_event_timer = Timer::new(5_000);
    let out = handle_timers(&mut state, 200_000);
    assert!(out.is_empty());
    assert_eq!(state.wave_number, Some(3));
    let out = handle_timers(&mut state, 200_000);
    assert!(out.is_empty());
    assert_eq!(state.wave_number, Some(3));
}

#[test]
fn wave_number_only_increases_over_a_level() {
    let mut state = level_1_state();
    let mut last = 0usize;
    let mut per_wave = [0usize; 4];
    per_wave[0] = 1;
    for _ in 0..600 {
        let out = handle_timers(&mut state, 1_000);
        let n = state.wave_number.unwrap();
        assert!(n >= last);
        assert!(n <= 3);
        last = n;
        for e in out {
            per_wave[e.wave_number] += 1;
            event_wave(&mut state, e);
        }
    }
    assert_eq!(last, 3);
    let waves = get_level_1_waves();
    for i in 0..4 {
        assert!(per_wave[i] <= waves[i].events.len());
    }
    assert_eq!(per_wave[3], 1);
}

#[test]
fn select_at_index_uses_wave_list_position() {
    let mut state = level_1_state();
    state.wave_number = Some(1);
    state.event_queue = vec![WaveEntry::Pizza { count: 5 }, WaveEntry::Biboran { count: 5 }];
    // the queue loses its first element; the entry comes from the wave's own list
    let r = state.select_wave_entry_at(0);
    assert_eq!(r, Some(WaveEntry::Mierda { count: 100 }));
    assert_eq!(state.event_queue, vec![WaveEntry::Biboran { count: 5 }]);
    assert_eq!(state.select_wave_entry_at(1), None);
    assert_eq!(state.event_queue.len(), 1);
}

#[test]
fn random_selection_takes_from_queue() {
    let mut state = level_1_state();
    state.wave_number = Some(2);
    state.event_queue = get_level_1_waves().remove(2).events;
    let mut seen = 0;
    while let Some(e) = state.select_random_wave_entry() {
        seen += 1;
        assert!(get_level_1_waves()[2].events.contains(&e));
        assert_eq!(state.event_queue.len(), 6 - seen);
    }
    assert_eq!(seen, 6);
    assert_eq!(state.select_random_wave_entry(), None);
}

#[test]
fn no_level_selects_nothing() {
    let mut state = GameplayState::default();
    assert_eq!(state.select_random_wave_entry(), None);
    assert!(state.current_wave().is_none());
    assert!(state.current_level_waves().is_none());
    assert!(handle_timers(&mut state, 1_000).is_empty());
}

#[test]
fn boss_entry_orders_both_phases() {
    let mut state = level_1_state();
    let orders = event_wave(&mut state, WaveEvent { wave_number: 3, wave_entry: WaveEntry::Boss { count: 1 } });
    assert_eq!(
        orders.enemies,
        vec![
            SpawnEnemyEvent { count: 1, enemy_type: EnemyType::Psychiatrist1 },
            SpawnEnemyEvent { count: 1, enemy_type: EnemyType::Psychiatrist2 },
        ]
    );
    let orders = event_wave(&mut state, WaveEvent { wave_number: 1, wave_entry: WaveEntry::Pizza { count: 5 } });
    assert!(orders.enemies.is_empty());
    assert_eq!(orders.items, vec![SpawnItemEvent { count: 5, item_type: ItemType::Pizza }]);
    let orders = event_wave(&mut state, WaveEvent { wave_number: 1, wave_entry: WaveEntry::Biboran { count: 2 } });
    assert_eq!(orders.items, vec![SpawnItemEvent { count: 2, item_type: ItemType::Biboran }]);
    let orders = event_wave(&mut state, WaveEvent { wave_number: 2, wave_entry: WaveEntry::Pendejo { count: 100 } });
    assert_eq!(orders.enemies, vec![SpawnEnemyEvent { count: 100, enemy_type: EnemyType::Pendejo }]);
}

#[test]
fn game_won_only_on_last_wave_without_live_enemies() {
    let mut state = level_1_state();
    let dummy = Enemy::new(EnemyType::Mierda, true);
    let live = Enemy::new(EnemyType::Mierda, false);
    assert!(!check_game_won_or_lost(&state, &vec![dummy]));
    state.wave_number = Some(3);
    assert!(check_game_won_or_lost(&state, &vec![dummy]));
    assert!(!check_game_won_or_lost(&state, &vec![dummy, live]));
    assert!(!check_game_won_or_lost(&GameplayState::default(), &vec![]));
}

#[test]
fn wave_info_counts_from_one() {
    let mut state = level_1_state();
    assert_eq!(wave_info(&state), (1, 10));
    handle_timers(&mut state, 2_500);
    assert_eq!(wave_info(&state), (1, 7));
}

#[test]
fn two_big_hits_saturate_at_zero() {
    let mut e = Enemy::new(EnemyType::Mierda, false);
    e.health = 30;
    assert_eq!(e.handle_enemy_hit(100), 100);
    assert_eq!(e.health, 0);
    assert_eq!(e.hit_at, Some(Timer::new(HIT_COOLDOWN)));
    e.hit_at = None;
    assert_eq!(e.handle_enemy_hit(100), 100);
    assert_eq!(e.health, 0);
    assert_eq!(e.hit_at, Some(Timer::new(HIT_COOLDOWN)));
}

#[test]
fn small_hit_subtracts() {
    let mut e = Enemy::new(EnemyType::Pendejo, false);
    e.handle_enemy_hit(5);
    assert_eq!(e.health, 95);
}

#[test]
fn hit_cooldown_staggers_then_clears() {
    let mut e = Enemy::new(EnemyType::Mierda, false);
    assert!(!e.tick_hit_cooldown(16));
    e.handle_enemy_hit(50);
    assert!(e.tick_hit_cooldown(100));
    assert!(e.hit_at.is_some());
    assert!(!e.tick_hit_cooldown(100));
    assert_eq!(e.hit_at, None);
}

#[test]
fn zero_direction_forces_retarget() {
    let mut d = DirectionUpdateTime::new();
    assert!(d.retarget_due(16, true));
    assert!(!d.retarget_due(16, false));
    assert!(d.retarget_due(5_000, false));
}

#[test]
fn dead_enemy_marked_once_and_removed_once() {
    let mut e = Enemy::new(EnemyType::Mierda, false);
    e.handle_enemy_hit(100);
    assert_eq!(e.mark_if_dead(), Some(100));
    assert!(e.marked_for_despawn);
    assert_eq!(e.mark_if_dead(), None);
    assert!(!e.tick_despawn(200));
    assert!(e.tick_despawn(DESPAWN_DELAY - 200));
    assert!(!e.tick_despawn(1_000));
}

#[test]
fn living_enemy_is_not_marked() {
    let mut e = Enemy::new(EnemyType::Pendejo, false);
    assert_eq!(e.mark_if_dead(), None);
    assert!(!e.tick_despawn(1_000));
}

#[test]
fn despawn_awards_score_and_removes_after_delay() {
    let mut mierda = Enemy::new(EnemyType::Mierda, false);
    mierda.health = 0;
    let mut pendejo = Enemy::new(EnemyType::Pendejo, false);
    pendejo.health = 0;
    let alive = Enemy::new(EnemyType::Pendejo, false);
    let mut enemies = vec![mierda, alive, pendejo];
    let mut score = Score::new();
    despawn_dead_enemies(&mut enemies, &mut score);
    assert_eq!(score.score, 150);
    despawn_dead_enemies(&mut enemies, &mut score);
    assert_eq!(score.score, 150);
    assert_eq!(remove_despawned(&mut enemies, 100), 0);
    assert_eq!(enemies.len(), 3);
    assert_eq!(remove_despawned(&mut enemies, 200), 2);
    assert_eq!(enemies, vec![alive]);
}

#[test]
fn kill_scores() {
    assert_eq!(kill_score(EnemyType::Mierda), 100);
    assert_eq!(kill_score(EnemyType::Pendejo), 50);
}

#[test]
fn score_saturates() {
    let mut s = Score { score: u32::MAX - 10 };
    s.award(100);
    assert_eq!(s.score, u32::MAX);
}

#[test]
fn spawn_copies_each_matching_template() {
    let mut enemies = vec![
        Enemy::new(EnemyType::Mierda, true),
        Enemy::new(EnemyType::Pendejo, true),
        Enemy::new(EnemyType::Mierda, false),
    ];
    handle_spawn_enemy(&mut enemies, &SpawnEnemyEvent { count: 3, enemy_type: EnemyType::Mierda });
    assert_eq!(enemies.len(), 6);
    for e in &enemies[3..] {
        assert_eq!(*e, Enemy::new(EnemyType::Mierda, false));
    }
    assert_eq!(count_live_enemies(&enemies), 4);
    handle_spawn_enemy(&mut enemies, &SpawnEnemyEvent { count: 2, enemy_type: EnemyType::Psychiatrist1 });
    assert_eq!(enemies.len(), 6);
}

#[test]
fn player_hits_and_game_over() {
    let mut p = Player::new();
    assert_eq!(p.health, 100);
    assert!(!p.event_player_hit());
    assert_eq!(p.health, 99);
    assert_eq!(p.health_bar_percent(), 99);
    p.health = 0;
    assert!(p.event_player_hit());
    assert_eq!(p.health, 0);
}

#[test]
fn pizza_heals_up_to_max() {
    let mut p = Player { health: 50 };
    p.event_on_pizza_step_over();
    assert_eq!(p.health, 60);
    p.health = 95;
    p.event_on_pizza_step_over();
    assert_eq!(p.health, 100);
}

#[test]
fn attack_hits_reached_live_enemies_only() {
    let enemies = vec![
        Enemy::new(EnemyType::Mierda, false),
        Enemy::new(EnemyType::Mierda, true),
        Enemy::new(EnemyType::Pendejo, false),
        Enemy::new(EnemyType::Pendejo, false),
    ];
    let reached = vec![true, true, false, true];
    assert_eq!(
        event_player_attack(&enemies, &reached, 100),
        vec![
            EnemyHitEvent { entity: 0, damage: 100 },
            EnemyHitEvent { entity: 3, damage: 100 },
        ]
    );
    assert!(event_player_attack(&enemies, &vec![false; 4], 50).is_empty());
}
