use vstd::prelude::*;

verus! {

/// The most health the player can have.
pub const PLAYER_MAX_HEALTH: u8 = 100;

/// Health a pizza restores.
pub const PIZZA_HEALTH: u8 = 10;

/// The player character's health.
#[derive(Clone, Copy, PartialEq, Eq, Structural, Debug)]
pub struct Player {
    pub health: u8,
}

impl Player {
    pub fn new() -> (r: Player)
        ensures
            r.health == PLAYER_MAX_HEALTH,
    {
        Player { health: PLAYER_MAX_HEALTH }
    }

    /// The player after one hit: one point less, or unchanged at zero.
    pub open spec fn hit_spec(self) -> Player {
        if self.health == 0 {
            self
        } else {
            Player { health: (self.health - 1) as u8 }
        }
    }

    /// The player after eating a pizza.
    pub open spec fn healed_spec(self) -> Player {
        Player {
            health: if self.health + PIZZA_HEALTH > PLAYER_MAX_HEALTH {
                PLAYER_MAX_HEALTH
            } else {
                (self.health + PIZZA_HEALTH) as u8
            },
        }
    }

    /// Handles one hit taken. A hit at zero health ends the game (the
    /// result is `true`); any other hit costs one point of health.
    pub fn event_player_hit(&mut self) -> (game_over: bool)
        ensures
            game_over == (old(self).health == 0),
            *final(self) == old(self).hit_spec(),
    {
        if self.health == 0 {
            true
        } else {
            self.health = self.health - 1;
            false
        }
    }

    /// Eating a pizza restores some health, up to the maximum.
    pub fn event_on_pizza_step_over(&mut self)
        ensures
            *final(self) == old(self).healed_spec(),
    {
        if self.health >= PLAYER_MAX_HEALTH - PIZZA_HEALTH {
            self.health = PLAYER_MAX_HEALTH;
        } else {
            self.health = self.health + PIZZA_HEALTH;
        }
    }

    /// The width of the health bar, in percent of its full length.
    pub fn health_bar_percent(&self) -> (r: u8)
        ensures
            r == self.health,
    {
        self.health
    }
}

impl Default for Player {
    fn default() -> (r: Player)
        ensures
            r.health == PLAYER_MAX_HEALTH,
    {
        Player::new()
    }
}

/// Player health stays within `[0, PLAYER_MAX_HEALTH]` under hits and
/// pizzas, and a hit never takes more than one point.
pub proof fn lemma_player_health_in_range(p: Player)
    requires
        p.health <= PLAYER_MAX_HEALTH,
    ensures
        p.hit_spec().health <= PLAYER_MAX_HEALTH,
        p.hit_spec().health <= p.health <= p.hit_spec().health + 1,
        p.healed_spec().health <= PLAYER_MAX_HEALTH,
        p.healed_spec().health >= p.health,
{
}

} // verus!
