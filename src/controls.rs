use vstd::prelude::*;

use crate::sprites::{animation_indices, get_animation_indices, AnimationDirection, AnimationType};

verus! {

/// The buttons held during one frame.
#[derive(Clone, Copy, PartialEq, Eq, Structural, Debug)]
pub struct ControlEvent {
    pub up: bool,
    pub down: bool,
    pub left: bool,
    pub right: bool,
    pub attack: bool,
}

/// The animation a character is playing.
#[derive(Clone, Copy, PartialEq, Eq, Structural, Debug)]
pub struct CharacterAnimation {
    pub direction: AnimationDirection,
    pub animation_type: AnimationType,
}

/// What the caller has to do after a control event.
#[derive(Clone, Copy, PartialEq, Eq, Structural, Debug)]
pub enum ControlOutcome {
    /// An attack is playing; the input is ignored.
    Ignored,
    /// An attack starts: stop, show `first_frame` of the attack sheet and
    /// strike once the swing lands.
    Attack { first_frame: usize },
    /// Move along `(x, y)`, each -1, 0 or 1 (to be normalized); switch to
    /// the walking sheet when `switch_sheet` is set.
    Move { x: i8, y: i8, switch_sheet: bool },
}

/// The axis value of a pair of opposite buttons.
pub open spec fn axis(positive: bool, negative: bool) -> i8 {
    ((if positive { 1int } else { 0int }) - (if negative { 1int } else { 0int })) as i8
}

/// The way a walking character faces after moving along `(x, y)`:
/// horizontal movement wins over vertical, and no movement keeps it.
pub open spec fn facing_after(direction: AnimationDirection, x: i8, y: i8) -> AnimationDirection {
    if x > 0 {
        AnimationDirection::Right
    } else if x < 0 {
        AnimationDirection::Left
    } else if y > 0 {
        AnimationDirection::Up
    } else if y < 0 {
        AnimationDirection::Down
    } else {
        direction
    }
}

fn axis_of(positive: bool, negative: bool) -> (r: i8)
    ensures
        r == axis(positive, negative),
{
    let p: i8 = if positive { 1 } else { 0 };
    let n: i8 = if negative { 1 } else { 0 };
    p - n
}

/// Applies one control event to the player's animation.
///
/// During an attack nothing changes. An attack press starts the attack
/// animation. Otherwise the held directions give the movement; a character
/// that was already walking turns toward it, and the animation becomes
/// walking or standing as the character moves or not.
pub fn control_character(animation: &mut CharacterAnimation, control: ControlEvent) -> (r: ControlOutcome)
    ensures
        old(animation).animation_type == AnimationType::Attack ==> r == ControlOutcome::Ignored && *final(animation) == *old(animation),
        old(animation).animation_type != AnimationType::Attack && control.attack ==> {
            &&& *final(animation) == (CharacterAnimation { animation_type: AnimationType::Attack, ..*old(animation) })
            &&& r == (ControlOutcome::Attack {
                first_frame: animation_indices(AnimationType::Attack, old(animation).direction).first,
            })
        },
        old(animation).animation_type != AnimationType::Attack && !control.attack ==> {
            let x = axis(control.right, control.left);
            let y = axis(control.up, control.down);
            &&& r == (ControlOutcome::Move { x, y, switch_sheet: old(animation).animation_type != AnimationType::Walk })
            &&& final(animation).direction == if old(animation).animation_type == AnimationType::Walk {
                facing_after(old(animation).direction, x, y)
            } else {
                old(animation).direction
            }
            &&& final(animation).animation_type == if x == 0 && y == 0 {
                AnimationType::Stand
            } else {
                AnimationType::Walk
            }
        },
{
    if animation.animation_type == AnimationType::Attack {
        return ControlOutcome::Ignored;
    }
    if control.attack {
        animation.animation_type = AnimationType::Attack;
        let indices = get_animation_indices(AnimationType::Attack, animation.direction);
        return ControlOutcome::Attack { first_frame: indices.first };
    }
    let x = axis_of(control.right, control.left);
    let y = axis_of(control.up, control.down);
    let was_walking = animation.animation_type == AnimationType::Walk;
    if was_walking {
        if x > 0 {
            animation.direction = AnimationDirection::Right;
        } else if x < 0 {
            animation.direction = AnimationDirection::Left;
        } else if y > 0 {
            animation.direction = AnimationDirection::Up;
        } else if y < 0 {
            animation.direction = AnimationDirection::Down;
        }
    }
    animation.animation_type = if x == 0 && y == 0 {
        AnimationType::Stand
    } else {
        AnimationType::Walk
    };
    ControlOutcome::Move { x, y, switch_sheet: !was_walking }
}

} // verus!
