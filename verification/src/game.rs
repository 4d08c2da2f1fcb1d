//! Gameplay rules of the neon road: lives, countdown, scoring, combos,
//! difficulty and the traffic generator.
//!
//! The positions of the car and of the oncoming obstacle are real numbers
//! animated by the front end; what this module decides is what happens to
//! the run once the front end has reported, for a frame, whether the
//! obstacle touched the car, brushed past it, or left the road.
use vstd::prelude::*;
use std::time::{Duration, SystemTime, SystemTimeError};

verus! {

/// Frames per second of the simulation.
pub const FPS: u64 = 60;

/// Length of the "3, 2, 1, GO" countdown, in frames (three and a half seconds).
pub const COUNTDOWN_TOTAL: u16 = 210;

/// Lives at the start of a run.
pub const STARTING_LIVES: u8 = 3;

/// Frames of invulnerability granted after a hit (a second and a half).
pub const INVULNERABLE_FRAMES: u64 = 90;

/// Highest combo multiplier that still adds bonus points.
pub const MAX_COMBO_BONUS: u32 = 5;

/// The two lanes of the road.
#[derive(Clone, Copy, Debug, PartialEq, Eq, Structural)]
pub enum Lane {
    Left,
    Right,
}

pub open spec fn lane_direction(lane: Lane) -> int {
    match lane {
        Lane::Left => -1,
        Lane::Right => 1,
    }
}

impl Lane {
    /// The sign of the lane's offset from the road's centre line.
    pub fn direction(self) -> (d: i32)
        ensures
            d == lane_direction(self),
    {
        match self {
            Lane::Left => -1,
            Lane::Right => 1,
        }
    }
}

/// What the run reports to the sound and display layers.
#[derive(Clone, Copy, Debug, PartialEq, Eq, Structural)]
pub enum GameEvent {
    Countdown,
    Go,
    Score,
    NearMiss,
    Hit,
    Crash,
}

impl GameEvent {
    /// Whether the event sends a fresh obstacle down the road.
    pub fn respawns_traffic(self) -> (r: bool)
        ensures
            r == (self == GameEvent::Score || self == GameEvent::NearMiss || self
                == GameEvent::Hit),
    {
        match self {
            GameEvent::Score | GameEvent::NearMiss | GameEvent::Hit => true,
            _ => false,
        }
    }
}

/// How an obstacle moves down the road.
#[derive(Clone, Copy, Debug, PartialEq, Eq, Structural)]
pub enum ObstaclePattern {
    Straight,
    Crossing,
}

/// What the front end observed after moving the obstacle for one frame.
#[derive(Clone, Copy, Debug, PartialEq, Eq, Structural)]
pub struct Contact {
    /// The obstacle overlaps the car.
    pub collides: bool,
    /// The obstacle passes the car with a gap of 1 to 14 pixels.
    pub near_miss: bool,
    /// The obstacle has left the bottom of the road.
    pub passed: bool,
}

impl Contact {
    /// A frame in which nothing touched, brushed or left.
    pub fn clear_road() -> (c: Contact)
        ensures
            !c.collides && !c.near_miss && !c.passed,
    {
        Contact { collides: false, near_miss: false, passed: false }
    }
}

/// Out of twelve spawns, how many cross lanes, after `dodges` dodged obstacles.
pub open spec fn spec_crossing_slots(dodges: u32) -> u32 {
    if dodges < 8 {
        0
    } else if 1 + dodges / 40 < 2 {
        (1 + dodges / 40) as u32
    } else {
        2
    }
}

/// Out of twelve spawns, how many cross lanes: none during the first
/// eight dodges, then one, and two from forty dodges on.
pub fn crossing_slots(dodges: u32) -> (slots: u32)
    ensures
        slots == spec_crossing_slots(dodges),
{
    if dodges < 8 {
        0
    } else {
        let slots = 1 + dodges / 40;
        if slots < 2 {
            slots
        } else {
            2
        }
    }
}

/// One step of the xorshift generator that chooses lanes and patterns.
pub open spec fn xorshift(x: u32) -> u32 {
    let a = x ^ (x << 13u32);
    let b = a ^ (a >> 17u32);
    b ^ (b << 5u32)
}

/// The lane a fresh obstacle takes for a random draw: the draw's top bit.
pub open spec fn spawn_lane(random: u32) -> Lane {
    if random >> 31u32 == 0 {
        Lane::Left
    } else {
        Lane::Right
    }
}

/// The pattern a fresh obstacle follows for a random draw.
pub open spec fn spawn_pattern(random: u32, dodges: u32) -> ObstaclePattern {
    if (random >> 8u32) % 12 < spec_crossing_slots(dodges) {
        ObstaclePattern::Crossing
    } else {
        ObstaclePattern::Straight
    }
}

/// The cue the countdown gives when `remaining` frames are left.
pub open spec fn countdown_cue(remaining: u16) -> Option<GameEvent> {
    if remaining == 150 || remaining == 90 {
        Some(GameEvent::Countdown)
    } else if remaining == 30 {
        Some(GameEvent::Go)
    } else {
        None
    }
}

/// Points a dodge earns: one, plus the combo (up to five) on a near miss.
pub open spec fn dodge_points(near_miss: bool, combo: u32) -> int {
    if !near_miss {
        1
    } else if combo < MAX_COMBO_BONUS {
        1 + combo
    } else {
        1 + MAX_COMBO_BONUS
    }
}

/// The state of a run.
pub struct Game {
    pub car_lane: Lane,
    pub donkey_lane: Lane,
    pub obstacle_pattern: ObstaclePattern,
    pub city_tick: u64,
    pub crash_started_at: u64,
    pub countdown_ticks: u16,
    pub invulnerable_until: u64,
    pub near_miss_started_at: u64,
    pub score: u32,
    pub dodges: u32,
    pub best_score: u32,
    pub new_high_score: bool,
    pub combo: u32,
    pub lives: u8,
    pub near_miss_qualified: bool,
    pub over: bool,
    pub paused: bool,
    pub started: bool,
    pub sound_on: bool,
    /// State of the xorshift generator that draws lanes and patterns (never zero).
    pub rng: u32,
}

impl Game {
    /// The run is in play: started, not over, not paused.
    pub open spec fn is_running(self) -> bool {
        self.started && !self.over && !self.paused
    }

    /// The obstacle moves this frame: running and past the countdown.
    pub open spec fn spec_traffic_moves(self) -> bool {
        self.is_running() && self.countdown_ticks == 0
    }

    /// A run that is not over has a life left.
    pub open spec fn lives_consistent(self) -> bool {
        !self.over ==> self.lives > 0
    }

    /// The invariant of every run: a run that is not over has a life left, the score
    /// never exceeds the best score, and the generator is never zero.
    pub open spec fn well_formed(self) -> bool {
        &&& self.lives_consistent()
        &&& self.score <= self.best_score
        &&& self.rng != 0
    }

    /// The game as it is after a fresh obstacle has been drawn.
    pub open spec fn spawned(self) -> Game {
        let random = xorshift(self.rng);
        Game {
            rng: random,
            donkey_lane: spawn_lane(random),
            obstacle_pattern: spawn_pattern(random, self.dodges),
            near_miss_qualified: false,
            ..self
        }
    }

    /// The frame counts a hit would lose a life on.
    pub open spec fn hit_lands(self, contact: Contact) -> bool {
        self.spec_traffic_moves() && self.city_tick >= self.invulnerable_until && contact.collides
    }

    /// The obstacle qualifies as a near miss by the end of this frame.
    pub open spec fn qualifies(self, contact: Contact) -> bool {
        self.near_miss_qualified || contact.near_miss
    }

    /// The frame in which a dodge is scored.
    pub open spec fn dodge_lands(self, contact: Contact) -> bool {
        self.spec_traffic_moves() && !self.hit_lands(contact) && contact.passed
    }

    /// No counter of the run leaves its type on this frame.
    pub open spec fn update_in_range(self, contact: Contact) -> bool {
        &&& self.hit_lands(contact) ==> self.lives >= 1
        &&& self.hit_lands(contact) && self.lives >= 2 ==> self.city_tick + INVULNERABLE_FRAMES
            <= u64::MAX
        &&& self.dodge_lands(contact) ==> self.dodges < u32::MAX
        &&& self.dodge_lands(contact) && self.qualifies(contact) ==> self.combo < u32::MAX
            && self.score + dodge_points(true, (self.combo + 1) as u32) <= u32::MAX
        &&& self.dodge_lands(contact) && !self.qualifies(contact) ==> self.score < u32::MAX
    }

    /// The run after one frame, and the event it reports.
    pub open spec fn after_update(self, contact: Contact) -> (Game, Option<GameEvent>) {
        if !self.is_running() {
            (self, None)
        } else if self.countdown_ticks > 0 {
            let remaining = (self.countdown_ticks - 1) as u16;
            (Game { countdown_ticks: remaining, ..self }, countdown_cue(remaining))
        } else if self.hit_lands(contact) {
            let lives = (self.lives - 1) as u8;
            let hit = Game { combo: 0, lives, crash_started_at: self.city_tick, ..self };
            if lives == 0 {
                (Game { over: true, ..hit }, Some(GameEvent::Crash))
            } else {
                (
                    Game {
                        invulnerable_until: (self.city_tick + INVULNERABLE_FRAMES) as u64,
                        ..hit
                    }.spawned(),
                    Some(GameEvent::Hit),
                )
            }
        } else if contact.passed {
            let near = self.qualifies(contact);
            let combo: u32 = if near {
                (self.combo + 1) as u32
            } else {
                0
            };
            let score = (self.score + dodge_points(near, combo)) as u32;
            let scored = Game {
                dodges: (self.dodges + 1) as u32,
                combo,
                score,
                near_miss_started_at: if near {
                    self.city_tick
                } else {
                    self.near_miss_started_at
                },
                best_score: if score > self.best_score {
                    score
                } else {
                    self.best_score
                },
                new_high_score: self.new_high_score || score > self.best_score,
                ..self
            };
            (
                scored.spawned(),
                Some(
                    if near {
                        GameEvent::NearMiss
                    } else {
                        GameEvent::Score
                    },
                ),
            )
        } else {
            (Game { near_miss_qualified: self.qualifies(contact), ..self }, None)
        }
    }

    /// A fresh run, not yet started, seeded with `seed` (zero counts as one).
    pub fn new(seed: u32) -> (game: Game)
        ensures
            game == Game::spec_new(seed),
            game.car_lane == Lane::Left,
            game.donkey_lane == Lane::Right,
            game.obstacle_pattern == ObstaclePattern::Straight,
            game.city_tick == 0,
            game.crash_started_at == 0,
            game.countdown_ticks == 0,
            game.invulnerable_until == 0,
            game.near_miss_started_at == 0,
            game.score == 0,
            game.dodges == 0,
            game.best_score == 0,
            !game.new_high_score,
            game.combo == 0,
            game.lives == STARTING_LIVES,
            !game.near_miss_qualified,
            !game.over,
            !game.paused,
            !game.started,
            game.sound_on,
            game.rng == (if seed == 0 {
                1
            } else {
                seed
            }),
    {
        Game {
            car_lane: Lane::Left,
            donkey_lane: Lane::Right,
            obstacle_pattern: ObstaclePattern::Straight,
            city_tick: 0,
            crash_started_at: 0,
            countdown_ticks: 0,
            invulnerable_until: 0,
            near_miss_started_at: 0,
            score: 0,
            dodges: 0,
            best_score: 0,
            new_high_score: false,
            combo: 0,
            lives: STARTING_LIVES,
            near_miss_qualified: false,
            over: false,
            paused: false,
            started: false,
            sound_on: true,
            rng: if seed == 0 {
                1
            } else {
                seed
            },
        }
    }

    /// Draws the next number from the xorshift generator.
    fn next_u32(&mut self) -> (random: u32)
        ensures
            random == xorshift(old(self).rng),
            *final(self) == (Game { rng: random, ..*old(self) }),
    {
        self.rng = self.rng ^ (self.rng << 13u32);
        self.rng = self.rng ^ (self.rng >> 17u32);
        self.rng = self.rng ^ (self.rng << 5u32);
        self.rng
    }

    /// Sends a fresh obstacle down the road: its lane is the top bit of the
    /// next random draw, and it crosses lanes when bits 8 and up of the draw,
    /// taken modulo twelve, fall below the crossing slots for the dodges so far.
    pub fn spawn_donkey(&mut self)
        ensures
            *final(self) == old(self).spawned(),
            final(self).rng == xorshift(old(self).rng),
            final(self).donkey_lane == spawn_lane(final(self).rng),
            final(self).obstacle_pattern == spawn_pattern(
                final(self).rng,
                old(self).dodges,
            ),
            !final(self).near_miss_qualified,
    {
        let random = self.next_u32();
        self.donkey_lane = if random >> 31u32 == 0 {
            Lane::Left
        } else {
            Lane::Right
        };
        self.obstacle_pattern = if (random >> 8u32) % 12 < crossing_slots(self.dodges) {
            ObstaclePattern::Crossing
        } else {
            ObstaclePattern::Straight
        };
        self.near_miss_qualified = false;
    }

    /// The level shown on screen: one, plus one for every five dodges.
    pub fn level(&self) -> (level: u32)
        ensures
            level == 1 + self.dodges / 5,
    {
        1 + self.dodges / 5
    }

    /// Starts the run: the countdown begins and the first obstacle is drawn.
    pub fn start(&mut self)
        ensures
            *final(self) == (Game {
                started: true,
                countdown_ticks: COUNTDOWN_TOTAL,
                ..*old(self)
            }).spawned(),
    {
        self.started = true;
        self.countdown_ticks = COUNTDOWN_TOTAL;
        self.spawn_donkey();
    }

    /// Starts a fresh run seeded with `seed`, keeping the sound setting, the
    /// city's clock and the best score.
    pub fn reset(&mut self, seed: u32)
        ensures
            *final(self) == (Game {
                sound_on: old(self).sound_on,
                city_tick: old(self).city_tick,
                best_score: old(self).best_score,
                started: true,
                countdown_ticks: COUNTDOWN_TOTAL,
                ..Game::spec_new(seed)
            }).spawned(),
    {
        let sound_on = self.sound_on;
        let city_tick = self.city_tick;
        let best_score = self.best_score;
        *self = Game::new(seed);
        self.sound_on = sound_on;
        self.city_tick = city_tick;
        self.best_score = best_score;
        self.start();
    }

    /// The fresh run that `new` builds.
    pub open spec fn spec_new(seed: u32) -> Game {
        Game {
            car_lane: Lane::Left,
            donkey_lane: Lane::Right,
            obstacle_pattern: ObstaclePattern::Straight,
            city_tick: 0,
            crash_started_at: 0,
            countdown_ticks: 0,
            invulnerable_until: 0,
            near_miss_started_at: 0,
            score: 0,
            dodges: 0,
            best_score: 0,
            new_high_score: false,
            combo: 0,
            lives: STARTING_LIVES,
            near_miss_qualified: false,
            over: false,
            paused: false,
            started: false,
            sound_on: true,
            rng: if seed == 0 {
                1
            } else {
                seed
            },
        }
    }

    /// Whether the obstacle moves this frame, so that the front end knows
    /// whether to animate it before calling `update`.
    pub fn traffic_moves(&self) -> (r: bool)
        ensures
            r == self.spec_traffic_moves(),
    {
        self.started && !self.over && !self.paused && self.countdown_ticks == 0
    }

    /// Whether the countdown is running this frame (the road then scrolls
    /// while the traffic waits).
    pub fn counting_down(&self) -> (r: bool)
        ensures
            r == (self.is_running() && self.countdown_ticks > 0),
    {
        self.started && !self.over && !self.paused && self.countdown_ticks > 0
    }

    /// Advances the run by one frame, given what the obstacle did.
    ///
    /// Nothing happens unless the run is in play. During the countdown the
    /// traffic waits and cues sound at 150, 90 (`Countdown`) and 30 (`Go`)
    /// frames from the end. After it, a collision outside the
    /// invulnerability window costs a life and the combo (`Hit`, or `Crash`
    /// when it was the last life); a near miss qualifies the obstacle for a
    /// combo bonus; an obstacle that leaves the road scores a dodge
    /// (`NearMiss` with the bonus, `Score` without) and raises the best
    /// score when beaten.
    pub fn update(&mut self, contact: Contact) -> (event: Option<GameEvent>)
        requires
            old(self).update_in_range(contact),
        ensures
            (*final(self), event) == old(self).after_update(contact),
    {
        if !self.started || self.over || self.paused {
            return None;
        }
        if self.countdown_ticks > 0 {
            self.countdown_ticks = self.countdown_ticks - 1;
            return match self.countdown_ticks {
                150 | 90 => Some(GameEvent::Countdown),
                30 => Some(GameEvent::Go),
                _ => None,
            };
        }
        if self.city_tick >= self.invulnerable_until && contact.collides {
            self.combo = 0;
            self.lives = self.lives - 1;
            self.crash_started_at = self.city_tick;
            if self.lives == 0 {
                self.over = true;
                return Some(GameEvent::Crash);
            }
            self.invulnerable_until = self.city_tick + INVULNERABLE_FRAMES;
            self.spawn_donkey();
            return Some(GameEvent::Hit);
        }
        if contact.near_miss {
            self.near_miss_qualified = true;
        }
        if contact.passed {
            self.dodges = self.dodges + 1;
            let event = if self.near_miss_qualified {
                self.combo = self.combo + 1;
                let bonus = if self.combo < MAX_COMBO_BONUS {
                    self.combo
                } else {
                    MAX_COMBO_BONUS
                };
                self.score = self.score + 1 + bonus;
                self.near_miss_started_at = self.city_tick;
                GameEvent::NearMiss
            } else {
                self.combo = 0;
                self.score = self.score + 1;
                GameEvent::Score
            };
            if self.score > self.best_score {
                self.best_score = self.score;
                self.new_high_score = true;
            }
            self.spawn_donkey();
            return Some(event);
        }
        None
    }
}

/// The level shown on screen for a number of dodges.
pub open spec fn spec_level(dodges: u32) -> int {
    1 + dodges / 5
}

/// The score never exceeds the best score.
pub open spec fn score_consistent(game: Game) -> bool {
    game.score <= game.best_score
}

/// The generator never stalls: a nonzero state steps to a nonzero state.
pub proof fn law_xorshift_never_stalls(x: u32)
    requires
        x != 0,
    ensures
        xorshift(x) != 0,
{
    assert(x != 0 ==> (x ^ (x << 13u32)) != 0) by (bit_vector);
    let a = x ^ (x << 13u32);
    assert(a != 0 ==> (a ^ (a >> 17u32)) != 0) by (bit_vector);
    let b = a ^ (a >> 17u32);
    assert(b != 0 ==> (b ^ (b << 5u32)) != 0) by (bit_vector);
}

/// A fresh run's generator is never zero, and no frame makes it zero.
pub proof fn law_generator_stays_nonzero(seed: u32, game: Game, contact: Contact)
    requires
        game.rng != 0,
    ensures
        Game::spec_new(seed).rng != 0,
        game.spawned().rng != 0,
        game.after_update(contact).0.rng != 0,
{
    law_xorshift_never_stalls(game.rng);
}

/// Crossing obstacles remain uncommon: none before eight dodges, never more
/// than two in twelve, and never fewer as the dodges grow.
pub proof fn law_crossing_stays_uncommon(dodges: u32, later: u32)
    requires
        dodges <= later,
    ensures
        spec_crossing_slots(dodges) <= 2,
        dodges < 8 ==> spec_crossing_slots(dodges) == 0,
        spec_crossing_slots(dodges) <= spec_crossing_slots(later),
{
}

/// Difficulty never drops and grows without bound: the level never falls as
/// dodges grow, and every level is reached.
pub proof fn law_level_grows_forever(dodges: u32, later: u32, level: u32)
    requires
        dodges <= later,
        level < 0x3333_3333,
    ensures
        spec_level(dodges) <= spec_level(later),
        spec_level((5 * level) as u32) == level + 1,
{
}

/// Pause freezes gameplay: a run that is paused, over or not yet started is
/// left exactly as it was and reports nothing.
pub proof fn law_frozen_run_stays_put(game: Game, contact: Contact)
    requires
        !game.is_running(),
    ensures
        game.after_update(contact) == (game, None::<GameEvent>),
{
}

/// The countdown holds the traffic: only the countdown moves, by one frame,
/// and the cue depends only on the frames left.
pub proof fn law_countdown_holds_traffic(game: Game, contact: Contact)
    requires
        game.is_running(),
        game.countdown_ticks > 0,
    ensures
        game.after_update(contact).0 == (Game {
            countdown_ticks: (game.countdown_ticks - 1) as u16,
            ..game
        }),
        game.after_update(contact).1 == countdown_cue((game.countdown_ticks - 1) as u16),
{
}

/// The best score follows the score: it is the larger of the previous best
/// and the new score, the score never falls, and the high-score flag is
/// raised exactly when the previous best is beaten, and then stays raised.
pub proof fn law_best_score_follows_score(game: Game, contact: Contact)
    requires
        game.update_in_range(contact),
        score_consistent(game),
    ensures
        ({
            let next = game.after_update(contact).0;
            &&& next.best_score == (if next.score > game.best_score {
                next.score
            } else {
                game.best_score
            })
            &&& next.score >= game.score
            &&& next.new_high_score == (game.new_high_score || next.score > game.best_score)
            &&& score_consistent(next)
        }),
{
}

/// Collisions consume lives before ending the run: a frame costs at most one
/// life, exactly when it reports `Hit` or `Crash` (and the combo goes with
/// it); `Crash` is reported exactly when the run ends, on its last life; a
/// run that is not over keeps at least one life.
pub proof fn law_lives_before_crash(game: Game, contact: Contact)
    requires
        game.update_in_range(contact),
    ensures
        ({
            let (next, event) = game.after_update(contact);
            &&& (event == Some(GameEvent::Hit) || event == Some(GameEvent::Crash)) ==> next.lives
                == game.lives - 1 && next.combo == 0
            &&& !(event == Some(GameEvent::Hit) || event == Some(GameEvent::Crash))
                ==> next.lives == game.lives
            &&& event == Some(GameEvent::Crash) <==> (next.over && !game.over)
            &&& event == Some(GameEvent::Crash) ==> next.lives == 0
            &&& event == Some(GameEvent::Hit) ==> next.lives > 0 && !next.over
            &&& game.lives_consistent() ==> next.lives_consistent()
        }),
{
}

/// After a hit the car is safe: no hit lands while the city's clock is
/// before the end of the invulnerability window, and a hit opens a window
/// of a second and a half from the moment it lands.
pub proof fn law_invulnerable_after_hit(game: Game, contact: Contact)
    requires
        game.update_in_range(contact),
    ensures
        game.city_tick < game.invulnerable_until ==> game.after_update(contact).1 != Some(
            GameEvent::Hit,
        ) && game.after_update(contact).1 != Some(GameEvent::Crash)
            && game.after_update(contact).0.lives == game.lives,
        game.after_update(contact).1 == Some(GameEvent::Hit) ==> game.after_update(
            contact,
        ).0.invulnerable_until == game.city_tick + INVULNERABLE_FRAMES,
{
}

/// Near misses build a combo and award bonus points: every dodge counts
/// once; a plain dodge earns one point and breaks the combo; a near miss
/// extends the combo and earns one point plus the combo, capped at five
/// (so two to six points).
pub proof fn law_dodge_scoring(game: Game, contact: Contact)
    requires
        game.update_in_range(contact),
    ensures
        ({
            let (next, event) = game.after_update(contact);
            &&& event == Some(GameEvent::Score) ==> next.dodges == game.dodges + 1 && next.combo
                == 0 && next.score == game.score + 1
            &&& event == Some(GameEvent::NearMiss) ==> next.dodges == game.dodges + 1
                && next.combo == game.combo + 1 && next.score == game.score + dodge_points(
                true,
                next.combo,
            ) && 2 <= next.score - game.score <= 6
            &&& !(event == Some(GameEvent::Score) || event == Some(GameEvent::NearMiss))
                ==> next.dodges == game.dodges && next.score == game.score
        }),
{
}

/// A dodge or a hit sends exactly one fresh obstacle down the road: the
/// obstacle is redrawn (and loses its near-miss qualification) on `Hit`,
/// `Score` and `NearMiss`, and stays as it was otherwise.
pub proof fn law_traffic_respawns_on_dodge_or_hit(game: Game, contact: Contact)
    requires
        game.update_in_range(contact),
    ensures
        ({
            let (next, event) = game.after_update(contact);
            &&& (event == Some(GameEvent::Score) || event == Some(GameEvent::NearMiss) || event
                == Some(GameEvent::Hit)) ==> next.rng == xorshift(game.rng) && next.donkey_lane
                == spawn_lane(next.rng) && next.obstacle_pattern == spawn_pattern(
                next.rng,
                next.dodges,
            ) && !next.near_miss_qualified
            &&& !(event == Some(GameEvent::Score) || event == Some(GameEvent::NearMiss) || event
                == Some(GameEvent::Hit)) ==> next.rng == game.rng && next.donkey_lane
                == game.donkey_lane && next.obstacle_pattern == game.obstacle_pattern
        }),
{
}

/// A fresh or reset run is consistent: it has lives, and its score does not
/// exceed its best score.
pub proof fn law_fresh_runs_are_consistent(seed: u32, game: Game)
    requires
        score_consistent(game),
    ensures
        Game::spec_new(seed).lives_consistent(),
        score_consistent(Game::spec_new(seed)),
        (Game {
            sound_on: game.sound_on,
            city_tick: game.city_tick,
            best_score: game.best_score,
            started: true,
            countdown_ticks: COUNTDOWN_TOTAL,
            ..Game::spec_new(seed)
        }).spawned().lives_consistent(),
        score_consistent(
            (Game {
                sound_on: game.sound_on,
                city_tick: game.city_tick,
                best_score: game.best_score,
                started: true,
                countdown_ticks: COUNTDOWN_TOTAL,
                ..Game::spec_new(seed)
            }).spawned(),
        ),
{
}

/// std's `SystemTime`, carried through opaquely.
#[verifier::external_type_specification]
#[verifier::external_body]
pub struct ExSystemTime(std::time::SystemTime);

/// std's `SystemTimeError`, carried through opaquely.
#[verifier::external_type_specification]
#[verifier::external_body]
pub struct ExSystemTimeError(std::time::SystemTimeError);

/// std's `SystemTime::now`: the system clock's reading; nothing is promised
/// of it.
#[verifier::external_body]
fn clock_now() -> SystemTime {
    SystemTime::now()
}

/// std's `SystemTime::duration_since(UNIX_EPOCH)`: the time elapsed since
/// the Unix epoch, or an error when the clock reads earlier; nothing is
/// promised of which.
#[verifier::external_body]
fn since_unix_epoch(now: &SystemTime) -> Result<Duration, SystemTimeError> {
    now.duration_since(std::time::UNIX_EPOCH)
}

/// std's `Duration::subsec_nanos`: the fractional part of the duration in
/// nanoseconds, which std documents as always less than one billion.
#[verifier::external_body]
fn subsec_nanos(duration: &Duration) -> (nanos: u32)
    ensures
        nanos < 1_000_000_000,
{
    duration.subsec_nanos()
}

/// The seed made of a clock reading: the nanoseconds within the current
/// second since the Unix epoch, or `0xC0FFEE` when the clock reads before it.
pub fn seed_from(nanos_since_epoch: Option<u32>) -> (seed: u32)
    ensures
        seed == (match nanos_since_epoch {
            Some(nanos) => nanos,
            None => 0xC0FFEE,
        }),
{
    match nanos_since_epoch {
        Some(nanos) => nanos,
        None => 0xC0FFEE,
    }
}

/// A seed taken from the system clock: the nanoseconds within the current
/// second, or `0xC0FFEE` when the clock reads before the Unix epoch. What
/// the clock reads is not known in advance; the seed is always below one
/// billion.
pub fn seed_now() -> (seed: u32)
    ensures
        seed < 1_000_000_000,
{
    let now = clock_now();
    let reading = match since_unix_epoch(&now) {
        Ok(duration) => Some(subsec_nanos(&duration)),
        Err(_) => None,
    };
    seed_from(reading)
}

/// Three lives: a run in play with three lives, hit each time the car is
/// no longer invulnerable, reports `Hit`, `Hit`, then `Crash`, and is over
/// after the third hit.
pub proof fn law_three_hits_end_a_run(game: Game, later: u64, last: u64)
    requires
        game.spec_traffic_moves(),
        game.lives == STARTING_LIVES,
        game.city_tick >= game.invulnerable_until,
        game.city_tick + INVULNERABLE_FRAMES <= later,
        later + INVULNERABLE_FRAMES <= last,
        last <= u64::MAX,
    ensures
        ({
            let hit = Contact { collides: true, near_miss: false, passed: false };
            let (first, e1) = game.after_update(hit);
            let (second, e2) = (Game { city_tick: later, ..first }).after_update(hit);
            let (third, e3) = (Game { city_tick: last, ..second }).after_update(hit);
            &&& e1 == Some(GameEvent::Hit) && first.lives == 2 && !first.over
            &&& e2 == Some(GameEvent::Hit) && second.lives == 1 && !second.over
            &&& e3 == Some(GameEvent::Crash) && third.lives == 0 && third.over
        }),
{
}

/// Every run is well formed: fresh runs are, starting, drawing an obstacle
/// and playing a frame keep it so, and so does a reset.
pub proof fn law_runs_stay_well_formed(seed: u32, game: Game, contact: Contact)
    ensures
        Game::spec_new(seed).well_formed(),
        game.well_formed() ==> game.spawned().well_formed(),
        game.well_formed() ==> (Game {
            started: true,
            countdown_ticks: COUNTDOWN_TOTAL,
            ..game
        }).spawned().well_formed(),
        game.well_formed() && game.update_in_range(contact) ==> game.after_update(
            contact,
        ).0.well_formed(),
        game.well_formed() ==> (Game {
            sound_on: game.sound_on,
            city_tick: game.city_tick,
            best_score: game.best_score,
            started: true,
            countdown_ticks: COUNTDOWN_TOTAL,
            ..Game::spec_new(seed)
        }).spawned().well_formed(),
{
    if game.rng != 0 {
        law_xorshift_never_stalls(game.rng);
    }
    let fresh = Game::spec_new(seed);
    law_xorshift_never_stalls(fresh.rng);
    if game.well_formed() && game.update_in_range(contact) {
        law_lives_before_crash(game, contact);
        law_best_score_follows_score(game, contact);
        law_generator_stays_nonzero(seed, game, contact);
    }
}

/// Width of the car in pixels.
pub const CAR_W: i32 = 32;

/// The obstacle at `donkey_x`, `donkey_width` wide, overlaps the car at
/// `car_x` (on rows they share), ignoring four pixels at each side of both.
pub open spec fn spec_overlaps(donkey_x: int, donkey_width: int, car_x: int) -> bool {
    donkey_x + donkey_width - 4 >= car_x + 4 && donkey_x + 4 <= car_x + CAR_W - 4
}

/// The horizontal gap between the obstacle and the car.
pub open spec fn contact_gap(donkey_x: int, donkey_width: int, car_x: int) -> int {
    if donkey_x > car_x {
        donkey_x - (car_x + CAR_W)
    } else {
        car_x - (donkey_x + donkey_width)
    }
}

/// The obstacle brushes past the car: a gap of one to fourteen pixels.
pub open spec fn spec_brushes_past(donkey_x: int, donkey_width: int, car_x: int) -> bool {
    1 <= contact_gap(donkey_x, donkey_width, car_x) <= 14
}

pub open spec fn fits_i32(v: int) -> bool {
    i32::MIN <= v <= i32::MAX
}

/// Whether the obstacle, on rows it shares with the car, runs into it.
pub fn overlaps_car(donkey_x: i32, donkey_width: i32, car_x: i32) -> (hit: bool)
    requires
        fits_i32(donkey_x + donkey_width),
        fits_i32(donkey_x + donkey_width - 4),
        fits_i32(car_x + 4),
        donkey_x + donkey_width - 4 >= car_x + 4 ==> fits_i32(donkey_x + 4) && fits_i32(
            car_x + CAR_W,
        ),
    ensures
        hit == spec_overlaps(donkey_x as int, donkey_width as int, car_x as int),
{
    donkey_x + donkey_width - 4 >= car_x + 4 && donkey_x + 4 <= car_x + CAR_W - 4
}

/// Whether the obstacle, on rows it shares with the car, passes it with a
/// gap of one to fourteen pixels.
pub fn brushes_past_car(donkey_x: i32, donkey_width: i32, car_x: i32) -> (near: bool)
    requires
        donkey_x > car_x ==> fits_i32(car_x + CAR_W) && fits_i32(donkey_x - (car_x + CAR_W)),
        donkey_x <= car_x ==> fits_i32(donkey_x + donkey_width) && fits_i32(
            car_x - (donkey_x + donkey_width),
        ),
    ensures
        near == spec_brushes_past(donkey_x as int, donkey_width as int, car_x as int),
{
    let gap = if donkey_x > car_x {
        donkey_x - (car_x + CAR_W)
    } else {
        car_x - (donkey_x + donkey_width)
    };
    1 <= gap && gap <= 14
}

/// A near miss is never a collision: an obstacle that brushes past the car
/// does not overlap it.
pub proof fn law_near_miss_is_no_collision(donkey_x: int, donkey_width: int, car_x: int)
    ensures
        spec_brushes_past(donkey_x, donkey_width, car_x) ==> !spec_overlaps(
            donkey_x,
            donkey_width,
            car_x,
        ),
{
}

/// Dodges are scored by the combo: an obstacle that leaves the road after a
/// near miss extends the combo by one and earns one point plus the new
/// combo, at most five bonus points (so a combo going from 1 to 2 earns
/// three); one that leaves without a near miss earns one point and breaks
/// the combo.
pub proof fn law_dodge_points_follow_the_combo(game: Game, contact: Contact)
    requires
        game.started && !game.over && !game.paused && game.countdown_ticks == 0,
        !(contact.collides && game.city_tick >= game.invulnerable_until),
        contact.passed,
        game.dodges < u32::MAX,
        game.combo < u32::MAX,
        game.score + 6 <= u32::MAX,
    ensures
        ({
            let (next, event) = game.after_update(contact);
            let c = game.combo + 1;
            &&& (game.near_miss_qualified || contact.near_miss) ==> {
                &&& next.combo == c
                &&& next.score == game.score + 1 + (if c < 5 {
                    c
                } else {
                    5
                })
                &&& event == Some(GameEvent::NearMiss)
            }
            &&& !(game.near_miss_qualified || contact.near_miss) ==> {
                &&& next.combo == 0
                &&& next.score == game.score + 1
                &&& event == Some(GameEvent::Score)
            }
            &&& next.dodges == game.dodges + 1
        }),
{
}

/// One call a front end makes on a run.
pub enum Call {
    Start,
    SpawnDonkey,
    Update(Contact),
}

/// The run after `call`, and the event it reports, as the contracts of
/// `start`, `spawn_donkey` and `update` give them.
pub open spec fn after_call(game: Game, call: Call) -> (Game, Option<GameEvent>) {
    match call {
        Call::Start => ((Game { started: true, countdown_ticks: COUNTDOWN_TOTAL, ..game }).spawned(), None),
        Call::SpawnDonkey => (game.spawned(), None),
        Call::Update(contact) => game.after_update(contact),
    }
}

/// The run after `calls`, made one after another from `game`.
pub open spec fn replay(game: Game, calls: Seq<Call>) -> Game
    decreases calls.len(),
{
    if calls.len() == 0 {
        game
    } else {
        after_call(replay(game, calls.drop_last()), calls.last()).0
    }
}

/// Seed zero behaves as seed one: the generator is never started at zero,
/// so both seeds give the same fresh run, and any sequence of the same
/// calls leaves the two runs equal and reporting the same events at every
/// step.
pub proof fn law_seed_zero_is_seed_one(calls: Seq<Call>)
    ensures
        Game::spec_new(0) == Game::spec_new(1),
        Game::spec_new(0).rng == 1,
        forall|n: int|
            0 <= n <= calls.len() ==> #[trigger] replay(Game::spec_new(0), calls.take(n)) == replay(
                Game::spec_new(1),
                calls.take(n),
            ),
        forall|n: int|
            0 <= n < calls.len() ==> #[trigger] after_call(replay(Game::spec_new(0), calls.take(n)), calls[n])
                == after_call(replay(Game::spec_new(1), calls.take(n)), calls[n]),
{
}

} // verus!
