use vstd::prelude::*;

verus! {

pub const SHEET_1_COLUMNS: usize = 13;
pub const SHEET_1_ROWS: usize = 21;
pub const SHEET_2_COLUMNS: usize = 6;
pub const SHEET_2_ROWS: usize = 4;
pub const N_FRAMES_WALK: usize = 8;
pub const N_FRAMES_ATTACK: usize = 5;

/// The way a character faces.
#[derive(Clone, Copy, PartialEq, Eq, Structural, Debug)]
pub enum AnimationDirection {
    Left,
    Right,
    Up,
    Down,
}

/// What a character is doing.
#[derive(Clone, Copy, PartialEq, Eq, Structural, Debug)]
pub enum AnimationType {
    Walk,
    Stand,
    Attack,
}

/// The frames of one animation: sprite-sheet indices `first..=last`.
#[derive(Clone, Copy, PartialEq, Eq, Structural, Debug)]
pub struct AnimationIndices {
    pub first: usize,
    pub last: usize,
}

/// The row of the walking sheet that holds a direction's frames.
pub open spec fn walk_row(direction: AnimationDirection) -> usize {
    match direction {
        AnimationDirection::Up => 8,
        AnimationDirection::Left => 9,
        AnimationDirection::Down => 10,
        AnimationDirection::Right => 11,
    }
}

/// The row of the attack sheet that holds a direction's frames.
pub open spec fn attack_row(direction: AnimationDirection) -> usize {
    match direction {
        AnimationDirection::Up => 0,
        AnimationDirection::Left => 1,
        AnimationDirection::Down => 2,
        AnimationDirection::Right => 3,
    }
}

/// Walking plays the frames after the row's first one, standing shows the
/// row's first frame, attacking plays the attack sheet's row.
pub open spec fn animation_indices(animation_type: AnimationType, direction: AnimationDirection) -> AnimationIndices {
    match animation_type {
        AnimationType::Walk => AnimationIndices {
            first: (SHEET_1_COLUMNS * walk_row(direction) + 1) as usize,
            last: (SHEET_1_COLUMNS * walk_row(direction) + N_FRAMES_WALK) as usize,
        },
        AnimationType::Stand => AnimationIndices {
            first: (SHEET_1_COLUMNS * walk_row(direction)) as usize,
            last: (SHEET_1_COLUMNS * walk_row(direction)) as usize,
        },
        AnimationType::Attack => AnimationIndices {
            first: (SHEET_2_COLUMNS * attack_row(direction)) as usize,
            last: (SHEET_2_COLUMNS * attack_row(direction) + N_FRAMES_ATTACK) as usize,
        },
    }
}

pub fn get_animation_indices(animation_type: AnimationType, animation_direction: AnimationDirection) -> (r: AnimationIndices)
    ensures
        r == animation_indices(animation_type, animation_direction),
{
    let row: usize = match animation_type {
        AnimationType::Attack => match animation_direction {
            AnimationDirection::Up => 0,
            AnimationDirection::Left => 1,
            AnimationDirection::Down => 2,
            AnimationDirection::Right => 3,
        },
        _ => match animation_direction {
            AnimationDirection::Up => 8,
            AnimationDirection::Left => 9,
            AnimationDirection::Down => 10,
            AnimationDirection::Right => 11,
        },
    };
    match animation_type {
        AnimationType::Walk => AnimationIndices {
            first: SHEET_1_COLUMNS * row + 1,
            last: SHEET_1_COLUMNS * row + N_FRAMES_WALK,
        },
        AnimationType::Stand => AnimationIndices { first: SHEET_1_COLUMNS * row, last: SHEET_1_COLUMNS * row },
        AnimationType::Attack => AnimationIndices {
            first: SHEET_2_COLUMNS * row,
            last: SHEET_2_COLUMNS * row + N_FRAMES_ATTACK,
        },
    }
}

/// The frame shown and the animation played after one animation step.
/// Inside its range the frame advances by one; at or past the end, or
/// before the start, it goes back to the first frame, and a finished
/// attack turns into standing.
pub open spec fn next_frame(animation_type: AnimationType, direction: AnimationDirection, index: usize) -> (usize, AnimationType) {
    let range = animation_indices(animation_type, direction);
    if index >= range.last || index < range.first {
        if animation_type == AnimationType::Attack && index >= range.last {
            (animation_indices(AnimationType::Stand, direction).first, AnimationType::Stand)
        } else {
            (range.first, animation_type)
        }
    } else {
        ((index + 1) as usize, animation_type)
    }
}

/// One step of a character's animation, taken when its frame timer fires.
pub fn advance_animation_frame(animation_type: AnimationType, direction: AnimationDirection, index: usize) -> (r: (usize, AnimationType))
    ensures
        r == next_frame(animation_type, direction, index),
{
    let indices = get_animation_indices(animation_type, direction);
    if index >= indices.last || index < indices.first {
        if animation_type == AnimationType::Attack && index >= indices.last {
            let standing = get_animation_indices(AnimationType::Stand, direction);
            (standing.first, AnimationType::Stand)
        } else {
            (indices.first, animation_type)
        }
    } else {
        (index + 1, animation_type)
    }
}

/// An animation step keeps the frame within the range of the animation
/// that is played afterwards.
pub proof fn lemma_next_frame_in_range(animation_type: AnimationType, direction: AnimationDirection, index: usize)
    ensures
        ({
            let (i, t) = next_frame(animation_type, direction, index);
            animation_indices(t, direction).first <= i <= animation_indices(t, direction).last
        }),
{
}

} // verus!
