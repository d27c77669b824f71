use legend_of_mierda::controls::{control_character, CharacterAnimation, ControlEvent, ControlOutcome};
use legend_of_mierda::sprites::{
    advance_animation_frame, get_animation_indices, AnimationDirection, AnimationIndices,
    AnimationType,
};

fn held(up: bool, down: bool, left: bool, right: bool, attack: bool) -> ControlEvent {
    ControlEvent { up, down, left, right, attack }
}

#[test]
fn animation_indices_per_direction() {
    assert_eq!(
        get_animation_indices(AnimationType::Walk, AnimationDirection::Right),
        AnimationIndices { first: 144, last: 151 }
    );
    assert_eq!(
        get_animation_indices(AnimationType::Walk, AnimationDirection::Up),
        AnimationIndices { first: 105, last: 112 }
    );
    assert_eq!(
        get_animation_indices(AnimationType::Stand, AnimationDirection::Left),
        AnimationIndices { first: 117, last: 117 }
    );
    assert_eq!(
        get_animation_indices(AnimationType::Stand, AnimationDirection::Down),
        AnimationIndices { first: 130, last: 130 }
    );
    assert_eq!(
        get_animation_indices(AnimationType::Attack, AnimationDirection::Up),
        AnimationIndices { first: 0, last: 5 }
    );
    assert_eq!(
        get_animation_indices(AnimationType::Attack, AnimationDirection::Right),
        AnimationIndices { first: 18, last: 23 }
    );
}

#[test]
fn frames_advance_and_wrap() {
    assert_eq!(
        advance_animation_frame(AnimationType::Walk, AnimationDirection::Right, 144),
        (145, AnimationType::Walk)
    );
    assert_eq!(
        advance_animation_frame(AnimationType::Walk, AnimationDirection::Right, 151),
        (144, AnimationType::Walk)
    );
    assert_eq!(
        advance_animation_frame(AnimationType::Walk, AnimationDirection::Right, 3),
        (144, AnimationType::Walk)
    );
}

#[test]
fn finished_attack_returns_to_standing() {
    assert_eq!(
        advance_animation_frame(AnimationType::Attack, AnimationDirection::Down, 17),
        (130, AnimationType::Stand)
    );
    assert_eq!(
        advance_animation_frame(AnimationType::Attack, AnimationDirection::Down, 12),
        (13, AnimationType::Attack)
    );
}

#[test]
fn attack_press_starts_attack_and_blocks_input() {
    let mut a = CharacterAnimation { direction: AnimationDirection::Left, animation_type: AnimationType::Stand };
    let r = control_character(&mut a, held(false, false, false, false, true));
    assert_eq!(r, ControlOutcome::Attack { first_frame: 6 });
    assert_eq!(a.animation_type, AnimationType::Attack);
    let r = control_character(&mut a, held(true, false, false, false, false));
    assert_eq!(r, ControlOutcome::Ignored);
    assert_eq!(a.direction, AnimationDirection::Left);
}

#[test]
fn walking_turns_toward_movement() {
    let mut a = CharacterAnimation { direction: AnimationDirection::Left, animation_type: AnimationType::Stand };
    // a standing character starts walking but keeps facing
    let r = control_character(&mut a, held(true, false, false, false, false));
    assert_eq!(r, ControlOutcome::Move { x: 0, y: 1, switch_sheet: true });
    assert_eq!(a, CharacterAnimation { direction: AnimationDirection::Left, animation_type: AnimationType::Walk });
    // once walking it turns; horizontal wins
    let r = control_character(&mut a, held(true, false, false, true, false));
    assert_eq!(r, ControlOutcome::Move { x: 1, y: 1, switch_sheet: false });
    assert_eq!(a.direction, AnimationDirection::Right);
    // opposite buttons cancel out and the character stands
    let r = control_character(&mut a, held(false, false, true, true, false));
    assert_eq!(r, ControlOutcome::Move { x: 0, y: 0, switch_sheet: false });
    assert_eq!(a, CharacterAnimation { direction: AnimationDirection::Right, animation_type: AnimationType::Stand });
}
