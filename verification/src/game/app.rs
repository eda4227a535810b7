use super::app_errors::{AppError, AppResult};
use super::game_state::{GameState, ASTEROID_DESTROYED_POINTS};
use crate::components::drawable::{
    can_update_position, next_location, rated_axis, Drawable, DrawableState, DrawableType,
    Identity,
};
use crate::components::health::Health;
use crate::display::display_controller::{
    digits_of, entity_steps, game_state_steps, hidden_identities, lemma_digits_are_few,
    score_box_start, score_fits, shown_score, DisplayController, DrawStep, DIGIT_SPACING,
    GAME_DETAILS_BOX_WIDTH,
};
use crate::display::display_controller_error::DisplayControllerError;
use crate::display::element::Element;
use crate::display::layout::filled_grid;
use crate::display::point::{fits_i64, Point};
use crate::entities::asteroid::Asteroid;
use crate::entities::borders::{border_result, Borders};
use crate::entities::bullet::{is_basic_bullet, is_spread_bullet, Bullet};
use crate::entities::controller::{Controller, Key};
use crate::entities::player::Player;
use crate::helpers::maps::keys_of;
use crate::systems::asteroid_controller::{is_spawned_asteroid, AsteroidController};
use crate::systems::collision_detection::{
    capped_summary, consistent_identities, frame_outcomes, get_capped_collision_summary,
    has_outcome, involves, is_involved, lemma_resolved_outcomes_are_between_items,
    overlap_groups, resolves, results_view, run_collision_detection, CollisionOutcome,
    CollisionSummary, Summary,
};
use crate::systems::entity_controller::{lists_states_of, EntityController};
use vstd::prelude::*;

verus! {

/// A game in progress: the player, the asteroids, the border of the arena,
/// and the composition of what is shown.
pub struct App {
    pub display_controller: DisplayController,
    pub borders: Borders,
    pub player: Player,
    pub asteroid_controller: AsteroidController,
    pub dimensions: Point,
}

/// What a game starts with.
pub struct InitialGameState {
    pub player_health: u32,
}

/// The rows at the top of the screen that frame the arena.
pub const HUD_HEIGHT: i64 = 10;

/// How often an asteroid is spawned, in milliseconds.
pub const SPAWN_RATE: u128 = 100;

/// Whether every entity is kept under the identity that its state carries.
pub open spec fn keyed_by_identity<T: Drawable>(entities: Map<Identity, T>) -> bool {
    forall|uuid: Identity| #[trigger]
        entities.contains_key(uuid) ==> entities[uuid].drawable_state().uuid == uuid
}

/// The arena of a screen of the given dimensions: what is left below the
/// rows that frame it.
pub open spec fn arena_of(dimensions: Point) -> Point {
    Point { width: dimensions.width, height: (dimensions.height - HUD_HEIGHT) as i64 }
}

impl App {
    /// The asteroids that are alive.
    pub open spec fn asteroids(&self) -> Map<Identity, Asteroid> {
        self.asteroid_controller.entity_controller@
    }

    /// The bullets that are alive.
    pub open spec fn bullets(&self) -> Map<Identity, Bullet> {
        self.player.bullet_entity_controller@
    }

    /// Whether the layout is a rectangle of the dimensions of the screen and
    /// every asteroid and bullet is kept under the identity that its state
    /// carries.
    pub open spec fn is_well_formed(&self) -> bool {
        &&& self.display_controller.layout.is_rectangular()
        &&& self.display_controller.layout.dimensions == self.dimensions
        &&& keyed_by_identity(self.asteroids())
        &&& keyed_by_identity(self.bullets())
    }

    /// Sets up a game on a screen of the given dimensions: an empty layout,
    /// the border around the arena, the player at its default position with
    /// the health it starts with, and no asteroids yet. Fails where the
    /// border cannot be drawn: where the arena has columns but no row, or
    /// rows but no column.
    ///
    /// * `screen_size` - the size of the terminal
    pub fn new(dimensions: Point, init_game_state: InitialGameState, screen_size: Point) -> (result:
        AppResult<App>)
        requires
            0 <= dimensions.width <= usize::MAX,
            HUD_HEIGHT <= dimensions.height <= usize::MAX,
        ensures
            result is Ok <==> ((dimensions.width >= 1 && dimensions.height > HUD_HEIGHT) || (
            dimensions.width == 0 && dimensions.height == HUD_HEIGHT)),
            match result {
                Ok(app) => {
                    &&& border_result(arena_of(dimensions)).1
                    &&& app.is_well_formed()
                    &&& app.dimensions == dimensions
                    &&& app.display_controller.layout.dimensions == dimensions
                    &&& app.display_controller.layout.grid() == filled_grid(
                        dimensions.width as int,
                        dimensions.height as int,
                        None::<Element>,
                    )
                    &&& app.display_controller.entity_drawable_offset == (Point {
                        width: 0,
                        height: HUD_HEIGHT,
                    })
                    &&& app.display_controller.screen_size == screen_size
                    &&& app.borders.drawable.layout.grid() == border_result(arena_of(dimensions)).0
                    &&& app.borders.drawable.location == (Point { width: 0, height: 0 })
                    &&& app.borders.drawable.drawable_type == DrawableType::Border
                    &&& app.player.health == init_game_state.player_health
                    &&& app.player.drawable.location == (Point { width: 5, height: 5 })
                    &&& app.player.drawable.velocity == (Point { width: 0, height: 0 })
                    &&& app.player.drawable.drawable_type == DrawableType::Player
                    &&& app.bullets() == Map::<Identity, Bullet>::empty()
                    &&& app.asteroids() == Map::<Identity, Asteroid>::empty()
                    &&& app.asteroid_controller.spawn_rate == SPAWN_RATE
                    &&& app.asteroid_controller.time_elapsed_since_spawn == 0
                    &&& app.asteroid_controller.dimensions == arena_of(dimensions)
                },
                Err(error) => !border_result(arena_of(dimensions)).1 && error
                    == AppError::DisplayControllerError(
                    DisplayControllerError::PositionOutOfRange,
                ),
            },
    {
        let game_screen_size = dimensions.sub_height(HUD_HEIGHT);
        let game_display_controller = match DisplayController::new(
            dimensions,
            Point::new(0, HUD_HEIGHT),
            screen_size,
        ) {
            Ok(controller) => controller,
            Err(error) => {
                return Err(AppError::DisplayControllerError(error));
            },
        };
        let borders = match Borders::new(&game_screen_size) {
            Ok(borders) => borders,
            Err(error) => {
                return Err(AppError::from(error));
            },
        };
        let mut player = Player::new(None);
        player.health = init_game_state.player_health;
        Ok(
            App {
                display_controller: game_display_controller,
                borders,
                player,
                asteroid_controller: AsteroidController::new(SPAWN_RATE, game_screen_size),
                dimensions,
            },
        )
    }

    /// Clears the layout for the next frame.
    pub fn reset(&mut self)
        requires
            old(self).display_controller.layout.is_rectangular(),
        ensures
            *final(self) == (App {
                display_controller: final(self).display_controller,
                ..*old(self)
            }),
            final(self).display_controller.entity_drawable_offset == old(
                self,
            ).display_controller.entity_drawable_offset,
            final(self).display_controller.screen_size == old(self).display_controller.screen_size,
            final(self).display_controller.layout.dimensions == old(
                self,
            ).display_controller.layout.dimensions,
            final(self).display_controller.layout.default_element == old(
                self,
            ).display_controller.layout.default_element,
            final(self).display_controller.layout.is_rectangular(),
            final(self).display_controller.layout.grid() == filled_grid(
                old(self).display_controller.layout.dimensions.width as int,
                old(self).display_controller.layout.dimensions.height as int,
                old(self).display_controller.layout.default_element,
            ),
    {
        self.display_controller.layout.reset();
    }

    /// Hands the key of the frame, if there was one, to the player.
    pub fn handle_keyboard(&mut self, keyboard_input: Option<&Key>) -> (result: AppResult<()>)
        requires
            keyboard_input matches Some(event) ==> (!(*event is Up || *event is Down || *event is Left
                || *event is Right) ==> old(self).player.can_handle_additional(*event)),
        ensures
            result is Ok,
            *final(self) == (App { player: final(self).player, ..*old(self) }),
            match keyboard_input {
                Some(Key::Up) => final(self).player == old(self).player.moved_up(),
                Some(Key::Down) => final(self).player == old(self).player.moved_down(),
                Some(Key::Left) => final(self).player == old(self).player.moved_left(),
                Some(Key::Right) => final(self).player == old(self).player.moved_right(),
                Some(event) => old(self).player.handled_additional(*event, final(self).player),
                None => final(self).player == old(self).player,
            },
    {
        if let Some(event) = keyboard_input {
            self.player.handle_event(event);
        }
        Ok(())
    }

    /// Whether every entity can be moved by a frame of `duration`
    /// milliseconds.
    pub open spec fn can_update_positions(&self, duration: int) -> bool {
        &&& can_update_position(self.player.drawable, Some(self.dimensions), duration)
        &&& forall|uuid: Identity| #[trigger]
            self.bullets().contains_key(uuid) ==> can_update_position(
                self.bullets()[uuid].drawable,
                None,
                duration,
            )
        &&& forall|uuid: Identity| #[trigger]
            self.asteroids().contains_key(uuid) ==> can_update_position(
                self.asteroids()[uuid].drawable,
                None,
                duration,
            )
    }

    /// Moves every entity by one frame of `game_loop_duration` milliseconds.
    /// The player is kept inside the screen; bullets and asteroids are not.
    pub fn update_positions(&mut self, game_loop_duration: u128) -> (ret: &mut Self)
        requires
            old(self).can_update_positions(game_loop_duration as int),
        ensures
            ret.display_controller == old(self).display_controller,
            ret.borders == old(self).borders,
            ret.dimensions == old(self).dimensions,
            ret.asteroid_controller.spawn_rate == old(self).asteroid_controller.spawn_rate,
            ret.asteroid_controller.time_elapsed_since_spawn == old(
                self,
            ).asteroid_controller.time_elapsed_since_spawn,
            ret.asteroid_controller.dimensions == old(self).asteroid_controller.dimensions,
            ret.player.health == old(self).player.health,
            ret.player.drawable == (DrawableState {
                location: next_location(
                    old(self).player.drawable,
                    Some(old(self).dimensions),
                    game_loop_duration as int,
                ),
                ..old(self).player.drawable
            }),
            ret.bullets().dom() == old(self).bullets().dom(),
            forall|uuid: Identity| #[trigger]
                old(self).bullets().contains_key(uuid) ==> ret.bullets()[uuid] == old(
                    self,
                ).bullets()[uuid].with_position(
                    next_location(old(self).bullets()[uuid].drawable, None, game_loop_duration as int),
                ),
            ret.asteroids().dom() == old(self).asteroids().dom(),
            forall|uuid: Identity| #[trigger]
                old(self).asteroids().contains_key(uuid) ==> ret.asteroids()[uuid] == old(
                    self,
                ).asteroids()[uuid].with_position(
                    next_location(
                        old(self).asteroids()[uuid].drawable,
                        None,
                        game_loop_duration as int,
                    ),
                ),
            old(self).is_well_formed() ==> ret.is_well_formed(),
            *final(self) == *final(ret),
    {
        let dimensions = self.dimensions;
        self.player.update_position(Some(&dimensions), game_loop_duration);
        self.player.bullet_entity_controller.update_entity_positions(game_loop_duration);
        self.asteroid_controller.entity_controller.update_entity_positions(game_loop_duration);
        self
    }

    /// Whether `states` lists the state of the player, then the states of
    /// the asteroids under `asteroid_keys`, then those of the bullets under
    /// `bullet_keys`.
    pub open spec fn lists_all_states(
        &self,
        states: Seq<&DrawableState>,
        asteroid_keys: Seq<Identity>,
        bullet_keys: Seq<Identity>,
    ) -> bool {
        &&& states.len() == 1 + asteroid_keys.len() + bullet_keys.len()
        &&& *states[0] == self.player.drawable
        &&& lists_states_of(
            states.subrange(1, 1 + asteroid_keys.len() as int),
            self.asteroids(),
            asteroid_keys,
        )
        &&& lists_states_of(
            states.subrange(1 + asteroid_keys.len() as int, states.len() as int),
            self.bullets(),
            bullet_keys,
        )
    }

    /// The state of the player, of every asteroid and of every bullet.
    pub fn get_all_drawable_states(&self) -> (states: Vec<&DrawableState>)
        ensures
            exists|asteroid_keys: Seq<Identity>, bullet_keys: Seq<Identity>|
                self.lists_all_states(states@, asteroid_keys, bullet_keys),
    {
        let mut drawable_items: Vec<&DrawableState> = Vec::new();
        drawable_items.push(self.player.get_drawable_state());
        let mut asteroid_states = self.asteroid_controller.entity_controller.get_all_drawable_states();
        let ghost asteroid_keys = choose|keys: Seq<Identity>|
            lists_states_of(asteroid_states@, self.asteroids(), keys);
        let ghost listed_asteroids = asteroid_states@;
        drawable_items.append(&mut asteroid_states);
        let mut bullet_states = self.player.bullet_entity_controller.get_all_drawable_states();
        let ghost bullet_keys = choose|keys: Seq<Identity>|
            lists_states_of(bullet_states@, self.bullets(), keys);
        let ghost listed_bullets = bullet_states@;
        drawable_items.append(&mut bullet_states);
        proof {
            let states = drawable_items@;
            assert(states.subrange(1, 1 + asteroid_keys.len() as int) =~= listed_asteroids);
            assert(states.subrange(1 + asteroid_keys.len() as int, states.len() as int) =~= listed_bullets);
            assert(self.lists_all_states(states, asteroid_keys, bullet_keys));
        }
        drawable_items
    }
}

/// The entities after each that the summary names has taken the damage
/// that the summary holds for it. Those that are left without health are
/// gone.
pub open spec fn damaged_population<T: Health>(
    entities: Map<Identity, T>,
    summary: Map<Identity, Summary>,
) -> Map<Identity, T> {
    Map::new(
        |uuid: Identity|
            entities.contains_key(uuid) && !(summary.contains_key(uuid) && entities[uuid].damaged(
                summary[uuid].damage,
            ).health() == 0),
        |uuid: Identity|
            if summary.contains_key(uuid) {
                entities[uuid].damaged(summary[uuid].damage)
            } else {
                entities[uuid]
            },
    )
}

/// The entities that the damage of the summary leaves without health.
pub open spec fn destroyed_by<T: Health>(
    entities: Map<Identity, T>,
    summary: Map<Identity, Summary>,
) -> Set<Identity> {
    Set::new(
        |uuid: Identity|
            entities.contains_key(uuid) && summary.contains_key(uuid) && entities[uuid].damaged(
                summary[uuid].damage,
            ).health() == 0,
    )
}

/// Whether the summary holds each damage under the identity that it is for.
pub open spec fn is_keyed_summary(summary: Map<Identity, Summary>) -> bool {
    forall|uuid: Identity| #[trigger] summary.contains_key(uuid) ==> summary[uuid].uuid == uuid
}

impl App {
    /// Whether the summary holds damage for the player. An identity under
    /// which an asteroid or a bullet is kept is taken for that entity.
    pub open spec fn is_player_hit(&self, summary: Map<Identity, Summary>) -> bool {
        &&& summary.contains_key(self.player.drawable.uuid)
        &&& !self.asteroids().contains_key(self.player.drawable.uuid)
        &&& !self.bullets().contains_key(self.player.drawable.uuid)
    }

    /// The player after the damage of the summary.
    pub open spec fn player_after(&self, summary: Map<Identity, Summary>) -> Player {
        if self.is_player_hit(summary) {
            self.player.damaged(summary[self.player.drawable.uuid].damage)
        } else {
            self.player
        }
    }

    /// The score after the damage of the summary: each asteroid that is
    /// destroyed adds to it.
    pub open spec fn score_after(&self, score: u64, summary: Map<Identity, Summary>) -> int {
        score + ASTEROID_DESTROYED_POINTS * destroyed_by(self.asteroids(), summary).len()
    }

    /// The state of the game after the damage of the summary: the game is
    /// over once the player is hit and left without health.
    pub open spec fn game_state_after(
        &self,
        game_state: GameState,
        summary: Map<Identity, Summary>,
    ) -> GameState {
        let score = self.score_after(game_state.score, summary) as u64;
        if self.is_player_hit(summary) && self.player_after(summary).health == 0 {
            GameState { running: false, game_over: true, score, ..game_state }
        } else {
            GameState { score, ..game_state }
        }
    }

    /// Whether `after` is this game once the damage of the summary has been
    /// applied: to the asteroids first, then to the bullets that share no
    /// identity with an asteroid, then to the player.
    pub open spec fn damaged_by(&self, after: App, summary: Map<Identity, Summary>) -> bool {
        &&& after.display_controller == self.display_controller
        &&& after.borders == self.borders
        &&& after.dimensions == self.dimensions
        &&& after.asteroid_controller.spawn_rate == self.asteroid_controller.spawn_rate
        &&& after.asteroid_controller.time_elapsed_since_spawn
            == self.asteroid_controller.time_elapsed_since_spawn
        &&& after.asteroid_controller.dimensions == self.asteroid_controller.dimensions
        &&& after.asteroids() == damaged_population(self.asteroids(), summary)
        &&& after.bullets() == damaged_population(
            self.bullets(),
            summary.remove_keys(self.asteroids().dom()),
        )
        &&& after.player.drawable == self.player.drawable
        &&& after.player.health == self.player_after(summary).health
    }

    /// Whether the summary names no identity but those of the asteroids, the
    /// bullets and the player.
    pub open spec fn knows_all_of(&self, summary: Map<Identity, Summary>) -> bool {
        forall|uuid: Identity| #[trigger]
            summary.contains_key(uuid) ==> (self.asteroids().contains_key(uuid)
                || self.bullets().contains_key(uuid) || self.player.drawable.uuid == uuid)
    }

    /// Applies the damage of a frame. Each asteroid, each bullet and the
    /// player takes the damage that the summary holds for its identity;
    /// what is left without health is removed. A destroyed asteroid adds to
    /// the score, and a player left without health ends the game.
    pub fn apply_collision_summary(
        &mut self,
        collision_results: &CollisionSummary,
        game_state: &mut GameState,
    )
        requires
            is_keyed_summary(collision_results@),
            old(self).knows_all_of(collision_results@),
            old(self).score_after(old(game_state).score, collision_results@) <= u64::MAX,
        ensures
            old(self).damaged_by(*final(self), collision_results@),
            *final(game_state) == old(self).game_state_after(*old(game_state), collision_results@),
            old(self).is_well_formed() ==> final(self).is_well_formed(),
    {
        broadcast use vstd::std_specs::hash::group_hash_axioms;

        let ghost start = *self;
        let ghost state_at_start = *game_state;
        let ghost summary = collision_results@;
        let keys = keys_of(collision_results);
        let mut index: usize = 0;
        proof {
            assert(keys@.take(0).to_set() =~= Set::<Identity>::empty());
            let none = summary.restrict(Set::<Identity>::empty());
            assert(damaged_population(start.asteroids(), none) =~= start.asteroids());
            assert(damaged_population(
                start.bullets(),
                none.remove_keys(start.asteroids().dom()),
            ) =~= start.bullets());
            assert(destroyed_by(start.asteroids(), none) =~= Set::<Identity>::empty());
        }
        while index < keys.len()
            invariant
                index <= keys.len(),
                summary == collision_results@,
                keys@.no_duplicates(),
                keys@.to_set() == summary.dom(),
                is_keyed_summary(summary),
                start.knows_all_of(summary),
                start.score_after(state_at_start.score, summary) <= u64::MAX,
                start.damaged_by(*self, summary.restrict(keys@.take(index as int).to_set())),
                *game_state == start.game_state_after(
                    state_at_start,
                    summary.restrict(keys@.take(index as int).to_set()),
                ),
                destroyed_by(
                    start.asteroids(),
                    summary.restrict(keys@.take(index as int).to_set()),
                ).finite(),
                start.is_well_formed() ==> self.is_well_formed(),
            decreases keys.len() - index,
        {
            let uuid = keys[index];
            let ghost done = keys@.take(index as int).to_set();
            let ghost done_now = keys@.take(index + 1).to_set();
            let ghost seen = summary.restrict(done);
            let ghost seen_now = summary.restrict(done_now);
            proof {
                assert(keys@.to_set().contains(uuid));
                assert(done_now =~= done.insert(uuid)) by {
                    let taken = keys@.take(index as int);
                    let taken_now = keys@.take(index + 1);
                    assert(taken_now =~= taken.push(uuid));
                    assert forall|other: Identity|
                        done_now.contains(other) <==> done.insert(uuid).contains(other) by {
                        if taken_now.contains(other) {
                            let at = choose|at: int|
                                0 <= at < taken_now.len() && taken_now[at] == other;
                            if at < taken.len() {
                                assert(taken[at] == other);
                            }
                        }
                        if taken.contains(other) {
                            let at = choose|at: int| 0 <= at < taken.len() && taken[at] == other;
                            assert(taken_now[at] == other);
                        }
                        if other == uuid {
                            assert(taken_now[index as int] == other);
                        }
                    }
                }
                assert(!done.contains(uuid)) by {
                    let taken = keys@.take(index as int);
                    if taken.contains(uuid) {
                        let at = choose|at: int| 0 <= at < taken.len() && taken[at] == uuid;
                        assert(keys@[at] == keys@[index as int]);
                    }
                }
                assert(seen_now =~= seen.insert(uuid, summary[uuid]));
            }
            let found = collision_results.get(&uuid);
            assert(found is Some);
            let collision = *found.unwrap();
            if self.asteroid_controller.entity_controller.has_entity(collision.uuid) {
                let destroyed = self.asteroid_controller.entity_controller.apply_entity_damage(
                    uuid,
                    collision.damage,
                );
                proof {
                    let before = destroyed_by(start.asteroids(), seen);
                    let now = destroyed_by(start.asteroids(), seen_now);
                    let all = destroyed_by(start.asteroids(), summary);
                    assert(self.asteroids() =~= damaged_population(start.asteroids(), seen_now));
                    assert(seen_now.remove_keys(start.asteroids().dom()) =~= seen.remove_keys(
                        start.asteroids().dom(),
                    ));
                    if destroyed {
                        assert(now =~= before.insert(uuid));
                        assert(all.contains(uuid));
                    } else {
                        assert(now =~= before);
                    }
                    assert(now.subset_of(all));
                    assert(all.subset_of(summary.dom()));
                    vstd::set_lib::lemma_len_subset(all, summary.dom());
                    vstd::set_lib::lemma_len_subset(now, all);
                    assert(ASTEROID_DESTROYED_POINTS * now.len() <= ASTEROID_DESTROYED_POINTS
                        * all.len()) by (nonlinear_arith)
                        requires
                            now.len() <= all.len(),
                    ;
                }
                if destroyed {
                    game_state.score = game_state.score + ASTEROID_DESTROYED_POINTS;
                }
            } else if self.player.bullet_entity_controller.has_entity(uuid) {
                self.player.bullet_entity_controller.apply_entity_damage(uuid, collision.damage);
                proof {
                    assert(damaged_population(start.asteroids(), seen_now) =~= damaged_population(
                        start.asteroids(),
                        seen,
                    ));
                    assert(destroyed_by(start.asteroids(), seen_now) =~= destroyed_by(
                        start.asteroids(),
                        seen,
                    ));
                    assert(seen_now.remove_keys(start.asteroids().dom()) =~= seen.remove_keys(
                        start.asteroids().dom(),
                    ).insert(uuid, summary[uuid]));
                    assert(self.bullets() =~= damaged_population(
                        start.bullets(),
                        seen_now.remove_keys(start.asteroids().dom()),
                    ));
                }
            } else {
                self.player.apply_damage(collision.damage);
                if self.player.get_health() == 0 {
                    game_state.handle_game_over();
                }
                proof {
                    assert(damaged_population(start.asteroids(), seen_now) =~= damaged_population(
                        start.asteroids(),
                        seen,
                    ));
                    assert(destroyed_by(start.asteroids(), seen_now) =~= destroyed_by(
                        start.asteroids(),
                        seen,
                    ));
                    assert(damaged_population(
                        start.bullets(),
                        seen_now.remove_keys(start.asteroids().dom()),
                    ) =~= damaged_population(
                        start.bullets(),
                        seen.remove_keys(start.asteroids().dom()),
                    ));
                }
            }
            index = index + 1;
        }
        proof {
            assert(keys@.take(keys@.len() as int) =~= keys@);
            assert(summary.restrict(summary.dom()) =~= summary);
        }
    }
}

impl App {
    /// Whether `after` and `state_after` are this game and its state once
    /// the damage of `outcomes` has been applied, where `outcomes` are the
    /// outcomes of the collisions among `states`, and `states` lists the
    /// player, the asteroids and the bullets.
    pub open spec fn collided_through(
        &self,
        after: App,
        state_before: GameState,
        state_after: GameState,
        states: Seq<&DrawableState>,
        asteroid_keys: Seq<Identity>,
        bullet_keys: Seq<Identity>,
        outcomes: Map<Identity, Map<Identity, CollisionOutcome>>,
    ) -> bool {
        &&& self.lists_all_states(states, asteroid_keys, bullet_keys)
        &&& resolves(outcomes, overlap_groups(states, self.dimensions))
        &&& consistent_identities(states) ==> outcomes == frame_outcomes(states, self.dimensions)
        &&& self.damaged_by(after, capped_summary(outcomes))
        &&& state_after == self.game_state_after(state_before, capped_summary(outcomes))
    }

    /// Whether `after` and `state_after` are this game and its state once
    /// the collisions of a frame have been found and their damage applied.
    /// Collisions are sought among the player, the asteroids and the bullets
    /// on the whole screen. Where each entity has an identity of its own the
    /// outcomes are those of `frame_outcomes`.
    pub open spec fn collided(
        &self,
        after: App,
        state_before: GameState,
        state_after: GameState,
    ) -> bool {
        exists|
            states: Seq<&DrawableState>,
            asteroid_keys: Seq<Identity>,
            bullet_keys: Seq<Identity>,
            outcomes: Map<Identity, Map<Identity, CollisionOutcome>>,
        |
            self.collided_through(
                after,
                state_before,
                state_after,
                states,
                asteroid_keys,
                bullet_keys,
                outcomes,
            )
    }

    /// Every identity that the outcomes of a frame involve is that of an
    /// asteroid, of a bullet or of the player.
    proof fn lemma_knows_all_outcomes(
        &self,
        states: Seq<&DrawableState>,
        asteroid_keys: Seq<Identity>,
        bullet_keys: Seq<Identity>,
        outcomes: Map<Identity, Map<Identity, CollisionOutcome>>,
    )
        requires
            self.is_well_formed(),
            self.lists_all_states(states, asteroid_keys, bullet_keys),
            resolves(outcomes, overlap_groups(states, self.dimensions)),
        ensures
            self.knows_all_of(capped_summary(outcomes)),
    {
        let summary = capped_summary(outcomes);
        assert forall|uuid: Identity| #[trigger] summary.contains_key(uuid) implies (
        self.asteroids().contains_key(uuid) || self.bullets().contains_key(uuid)
            || self.player.drawable.uuid == uuid) by {
            assert(is_involved(outcomes, uuid));
            let (affected, enemy) = choose|affected: Identity, enemy: Identity|
                has_outcome(outcomes, affected, enemy) && #[trigger] involves(
                    affected,
                    outcomes[affected][enemy],
                    uuid,
                );
            lemma_resolved_outcomes_are_between_items(
                outcomes,
                states,
                self.dimensions,
                affected,
                enemy,
            );
            let i = choose|i: int| 0 <= i < states.len() && (#[trigger] states[i]).uuid == uuid;
            self.lemma_state_is_known(states, asteroid_keys, bullet_keys, i);
        }
    }

    /// Every listed state carries the identity of an asteroid, of a bullet
    /// or of the player.
    proof fn lemma_state_is_known(
        &self,
        states: Seq<&DrawableState>,
        asteroid_keys: Seq<Identity>,
        bullet_keys: Seq<Identity>,
        i: int,
    )
        requires
            self.is_well_formed(),
            self.lists_all_states(states, asteroid_keys, bullet_keys),
            0 <= i < states.len(),
        ensures
            self.asteroids().contains_key(states[i].uuid) || self.bullets().contains_key(
                states[i].uuid,
            ) || self.player.drawable.uuid == states[i].uuid,
    {
        let asteroid_states = states.subrange(1, 1 + asteroid_keys.len() as int);
        let bullet_states = states.subrange(1 + asteroid_keys.len() as int, states.len() as int);
        if i == 0 {
        } else if i < 1 + asteroid_keys.len() {
            assert(asteroid_states[i - 1] == states[i]);
            assert(asteroid_keys.to_set().contains(asteroid_keys[i - 1]));
        } else {
            let place = i - 1 - asteroid_keys.len();
            assert(bullet_states[place] == states[i]);
            assert(bullet_keys.to_set().contains(bullet_keys[place]));
        }
    }

    /// Finds the collisions of the frame and applies their damage: what is
    /// left without health is removed, a destroyed asteroid adds to the
    /// score, and a player left without health ends the game.
    pub fn handle_collisions(&mut self, game_state: &mut GameState) -> (result: AppResult<&mut Self>)
        requires
            old(self).is_well_formed(),
            old(game_state).score + ASTEROID_DESTROYED_POINTS * old(self).asteroids().len()
                <= u64::MAX,
        ensures
            result matches Ok(ret) && old(self).collided(*ret, *old(game_state), *final(game_state))
                && ret.is_well_formed() && *final(self) == *final(ret),
    {
        let ghost start = *self;
        let ghost state_at_start = *game_state;
        let drawable_states = self.get_all_drawable_states();
        let ghost states = drawable_states@;
        let ghost (asteroid_keys, bullet_keys) = choose|
            asteroid_keys: Seq<Identity>,
            bullet_keys: Seq<Identity>,
        | start.lists_all_states(states, asteroid_keys, bullet_keys);
        let collisions = run_collision_detection(drawable_states, &self.dimensions);
        let ghost outcomes = results_view(collisions);
        let collision_results = get_capped_collision_summary(&collisions);
        proof {
            start.lemma_knows_all_outcomes(states, asteroid_keys, bullet_keys, outcomes);
            let destroyed = destroyed_by(start.asteroids(), collision_results@);
            start.asteroid_controller.entity_controller.lemma_is_finite();
            assert(destroyed.subset_of(start.asteroids().dom()));
            vstd::set_lib::lemma_len_subset(destroyed, start.asteroids().dom());
            assert(ASTEROID_DESTROYED_POINTS * destroyed.len() <= ASTEROID_DESTROYED_POINTS
                * start.asteroids().len()) by (nonlinear_arith)
                requires
                    destroyed.len() <= start.asteroids().len(),
            ;
        }
        self.apply_collision_summary(&collision_results, game_state);
        proof {
            assert(start.collided_through(
                *self,
                state_at_start,
                *game_state,
                states,
                asteroid_keys,
                bullet_keys,
                outcomes,
            ));
        }
        Ok(self)
    }

    /// The steps that draw a frame: the player, the bullets under
    /// `bullet_keys`, the asteroids under `asteroid_keys`, the border, and
    /// around them the lives and the score.
    pub open spec fn frame_steps(
        &self,
        game_state: GameState,
        bullet_keys: Seq<Identity>,
        asteroid_keys: Seq<Identity>,
    ) -> Seq<DrawStep> {
        seq![self.display_controller.drawable_step(self.player.drawable)] + entity_steps(
            self.display_controller,
            self.bullets(),
            bullet_keys,
        ) + entity_steps(self.display_controller, self.asteroids(), asteroid_keys)
            + seq![self.display_controller.drawable_step(self.borders.drawable)] + game_state_steps(
            self.player.health,
            shown_score(game_state.score),
            self.display_controller.screen_size.width,
        )
    }

    /// Whether every entity has a place on the layout, and the score one on
    /// the screen.
    pub open spec fn can_draw_all_entities(&self, game_state: GameState) -> bool {
        &&& self.display_controller.can_place(self.player.drawable)
        &&& self.display_controller.can_place(self.borders.drawable)
        &&& forall|uuid: Identity| #[trigger]
            self.bullets().contains_key(uuid) ==> self.display_controller.can_place(
                self.bullets()[uuid].drawable,
            )
        &&& forall|uuid: Identity| #[trigger]
            self.asteroids().contains_key(uuid) ==> self.display_controller.can_place(
                self.asteroids()[uuid].drawable,
            )
        &&& score_fits(shown_score(game_state.score), self.display_controller.screen_size.width)
    }

    /// Whether `after` is this game once a frame has been drawn: the layout
    /// holds the frame, drawn in the order of `frame_steps` up to the first
    /// step that has no place, and the bullets and asteroids of which
    /// nothing is shown are gone. `done` tells whether all was drawn.
    pub open spec fn drawn(&self, after: App, game_state: GameState, done: bool) -> bool {
        &&& after.borders == self.borders
        &&& after.dimensions == self.dimensions
        &&& after.player.drawable == self.player.drawable
        &&& after.player.health == self.player.health
        &&& after.asteroid_controller.spawn_rate == self.asteroid_controller.spawn_rate
        &&& after.asteroid_controller.time_elapsed_since_spawn
            == self.asteroid_controller.time_elapsed_since_spawn
        &&& after.asteroid_controller.dimensions == self.asteroid_controller.dimensions
        &&& after.bullets() == self.bullets().remove_keys(
            hidden_identities(self.display_controller, self.bullets()),
        )
        &&& after.asteroids() == self.asteroids().remove_keys(
            hidden_identities(self.display_controller, self.asteroids()),
        )
        &&& exists|bullet_keys: Seq<Identity>, asteroid_keys: Seq<Identity>|
            {
                &&& bullet_keys.no_duplicates()
                &&& bullet_keys.to_set() == self.bullets().dom()
                &&& asteroid_keys.no_duplicates()
                &&& asteroid_keys.to_set() == self.asteroids().dom()
                &&& self.display_controller.drew(
                    after.display_controller,
                    #[trigger] self.frame_steps(game_state, bullet_keys, asteroid_keys),
                    done,
                )
            }
    }

    /// Draws the frame on the layout: the player, the bullets, the
    /// asteroids, the border, the lives and the score. Bullets and asteroids
    /// of which nothing is shown have left the visible area and are removed.
    pub fn draw_all_entities(&mut self, game_state: &mut GameState) -> (result: AppResult<&mut Self>)
        requires
            old(self).is_well_formed(),
            old(self).can_draw_all_entities(*old(game_state)),
        ensures
            *final(game_state) == *old(game_state),
            match result {
                Ok(ret) => old(self).drawn(*ret, *old(game_state), true) && ret.is_well_formed()
                    && *final(self) == *final(ret),
                Err(error) => old(self).drawn(*final(self), *old(game_state), false)
                    && final(self).is_well_formed() && error == AppError::DisplayControllerError(
                    DisplayControllerError::PositionOutOfRange,
                ),
            },
    {
        let ghost start = *self;
        let ghost controller = self.display_controller;
        let ghost player_step = seq![controller.drawable_step(start.player.drawable)];
        let ghost border_step = seq![controller.drawable_step(start.borders.drawable)];
        let ghost hud_steps = game_state_steps(
            start.player.health,
            shown_score(game_state.score),
            controller.screen_size.width,
        );
        match self.display_controller.draw_drawable(self.player.get_drawable_state()) {
            Ok(_) => {},
            Err(error) => {
                return Err(AppError::DisplayControllerError(error));
            },
        }
        let ghost after_player = self.display_controller;
        self.display_controller.draw_entity_controller_items(
            &mut self.player.bullet_entity_controller,
        );
        let ghost after_bullets = self.display_controller;
        let ghost bullet_keys = choose|keys: Seq<Identity>|
            keys.no_duplicates() && keys.to_set() == start.bullets().dom() && after_player.drew(
                after_bullets,
                #[trigger] entity_steps(after_player, start.bullets(), keys),
                true,
            );
        self.display_controller.draw_entity_controller_items(
            &mut self.asteroid_controller.entity_controller,
        );
        let ghost after_asteroids = self.display_controller;
        let ghost asteroid_keys = choose|keys: Seq<Identity>|
            keys.no_duplicates() && keys.to_set() == start.asteroids().dom() && after_bullets.drew(
                after_asteroids,
                #[trigger] entity_steps(after_bullets, start.asteroids(), keys),
                true,
            );
        match self.display_controller.draw_drawable(self.borders.get_drawable_state()) {
            Ok(_) => {},
            Err(error) => {
                return Err(AppError::DisplayControllerError(error));
            },
        }
        let ghost after_borders = self.display_controller;
        let ghost bullet_steps = entity_steps(controller, start.bullets(), bullet_keys);
        let ghost asteroid_steps = entity_steps(controller, start.asteroids(), asteroid_keys);
        proof {
            assert(entity_steps(after_player, start.bullets(), bullet_keys) =~= bullet_steps);
            assert(entity_steps(after_bullets, start.asteroids(), asteroid_keys) =~= asteroid_steps);
            assert(hidden_identities(after_player, start.bullets()) =~= hidden_identities(
                controller,
                start.bullets(),
            ));
            assert(hidden_identities(after_bullets, start.asteroids()) =~= hidden_identities(
                controller,
                start.asteroids(),
            ));
            controller.lemma_drew_in_turn(after_player, after_bullets, player_step, bullet_steps, true);
            controller.lemma_drew_in_turn(
                after_bullets,
                after_asteroids,
                player_step + bullet_steps,
                asteroid_steps,
                true,
            );
            controller.lemma_drew_in_turn(
                after_asteroids,
                after_borders,
                player_step + bullet_steps + asteroid_steps,
                border_step,
                true,
            );
        }
        let lives = self.player.get_health();
        let result = match self.display_controller.draw_game_state(game_state, lives) {
            Ok(_) => Ok(()),
            Err(error) => Err(AppError::DisplayControllerError(error)),
        };
        proof {
            controller.lemma_drew_in_turn(
                after_borders,
                self.display_controller,
                player_step + bullet_steps + asteroid_steps + border_step,
                hud_steps,
                result is Ok,
            );
            assert(start.frame_steps(*game_state, bullet_keys, asteroid_keys) == player_step
                + bullet_steps + asteroid_steps + border_step + hud_steps);
        }
        match result {
            Ok(_) => Ok(self),
            Err(error) => Err(error),
        }
    }
}

/// Whether the score, whatever it is, and its box have a place on a screen
/// of the given width.
pub open spec fn hud_fits(screen_width: i64) -> bool {
    &&& fits_i64(screen_width - GAME_DETAILS_BOX_WIDTH)
    &&& fits_i64(score_box_start(screen_width) + 5 + DIGIT_SPACING * 10)
}

impl App {
    /// Whether `after` is this game with its layout cleared.
    pub open spec fn was_reset(&self, after: App) -> bool {
        &&& after == (App { display_controller: after.display_controller, ..*self })
        &&& after.display_controller.entity_drawable_offset
            == self.display_controller.entity_drawable_offset
        &&& after.display_controller.screen_size == self.display_controller.screen_size
        &&& after.display_controller.layout.dimensions == self.display_controller.layout.dimensions
        &&& after.display_controller.layout.default_element
            == self.display_controller.layout.default_element
        &&& after.display_controller.layout.is_rectangular()
        &&& after.display_controller.layout.grid() == filled_grid(
            self.display_controller.layout.dimensions.width as int,
            self.display_controller.layout.dimensions.height as int,
            self.display_controller.layout.default_element,
        )
    }

    /// Whether `after` is this game once the player has taken in the key of
    /// the frame.
    pub open spec fn took_key(&self, after: App, keyboard_input: Option<Key>) -> bool {
        &&& after == (App { player: after.player, ..*self })
        &&& match keyboard_input {
            Some(Key::Up) => after.player == self.player.moved_up(),
            Some(Key::Down) => after.player == self.player.moved_down(),
            Some(Key::Left) => after.player == self.player.moved_left(),
            Some(Key::Right) => after.player == self.player.moved_right(),
            Some(event) => self.player.handled_additional(event, after.player),
            None => after.player == self.player,
        }
    }

    /// Whether `after` is this game once the spawner has counted a frame of
    /// `duration` milliseconds, and spawned an asteroid where one was due.
    pub open spec fn spawned(&self, after: App, duration: u128) -> bool {
        let before = self.asteroid_controller;
        let now = after.asteroid_controller;
        &&& after == (App { asteroid_controller: now, ..*self })
        &&& now.spawn_rate == before.spawn_rate
        &&& now.dimensions == before.dimensions
        &&& !before.is_spawn_due(duration) ==> now.time_elapsed_since_spawn
            == before.time_elapsed_since_spawn + duration && now.entity_controller
            == before.entity_controller
        &&& before.is_spawn_due(duration) ==> now.time_elapsed_since_spawn == 0 && exists|
            asteroid: Asteroid,
        | #[trigger]
            is_spawned_asteroid(asteroid, before.dimensions) && now.entity_controller@
                == before.entity_controller@.insert(asteroid.drawable.uuid, asteroid)
    }

    /// Whether `after` is this game once every entity has moved by a frame
    /// of `duration` milliseconds.
    pub open spec fn moved(&self, after: App, duration: int) -> bool {
        &&& after.display_controller == self.display_controller
        &&& after.borders == self.borders
        &&& after.dimensions == self.dimensions
        &&& after.asteroid_controller.spawn_rate == self.asteroid_controller.spawn_rate
        &&& after.asteroid_controller.time_elapsed_since_spawn
            == self.asteroid_controller.time_elapsed_since_spawn
        &&& after.asteroid_controller.dimensions == self.asteroid_controller.dimensions
        &&& after.player.health == self.player.health
        &&& after.player.drawable == (DrawableState {
            location: next_location(self.player.drawable, Some(self.dimensions), duration),
            ..self.player.drawable
        })
        &&& after.bullets().dom() == self.bullets().dom()
        &&& forall|uuid: Identity| #[trigger]
            self.bullets().contains_key(uuid) ==> after.bullets()[uuid]
                == self.bullets()[uuid].with_position(
                next_location(self.bullets()[uuid].drawable, None, duration),
            )
        &&& after.asteroids().dom() == self.asteroids().dom()
        &&& forall|uuid: Identity| #[trigger]
            self.asteroids().contains_key(uuid) ==> after.asteroids()[uuid]
                == self.asteroids()[uuid].with_position(
                next_location(self.asteroids()[uuid].drawable, None, duration),
            )
    }

    /// Whether `after` and `state_after` are this game and its state after
    /// one frame of `duration` milliseconds that went through the games
    /// `cleared`, `steered`, `grown`, `shifted` and `hit` in turn.
    pub open spec fn framed_through(
        &self,
        after: App,
        state_before: GameState,
        state_after: GameState,
        duration: u128,
        done: bool,
        cleared: App,
        steered: App,
        grown: App,
        shifted: App,
        hit: App,
    ) -> bool {
        &&& self.was_reset(cleared)
        &&& cleared.took_key(steered, state_before.keyboard_event)
        &&& steered.spawned(grown, duration)
        &&& grown.moved(shifted, duration as int)
        &&& shifted.collided(hit, state_before, state_after)
        &&& hit.drawn(after, state_after, done)
    }

    /// Whether `after` and `state_after` are this game and its state after
    /// one frame of `duration` milliseconds: the layout is cleared, the
    /// player takes in the key of the frame, the spawner counts the frame,
    /// every entity moves, collisions are found and their damage applied,
    /// and the frame is drawn. `done` tells whether all of it was drawn.
    pub open spec fn framed(
        &self,
        after: App,
        state_before: GameState,
        state_after: GameState,
        duration: u128,
        done: bool,
    ) -> bool {
        exists|cleared: App, steered: App, grown: App, shifted: App, hit: App|
            self.framed_through(
                after,
                state_before,
                state_after,
                duration,
                done,
                cleared,
                steered,
                grown,
                shifted,
                hit,
            )
    }

    /// The state of the player once it has taken in a direction key: the
    /// key sets its velocity. No other key changes the state.
    pub open spec fn steered_player(&self, keyboard_input: Option<Key>) -> DrawableState {
        match keyboard_input {
            Some(Key::Up) => self.player.moved_up().drawable,
            Some(Key::Down) => self.player.moved_down().drawable,
            Some(Key::Left) => self.player.moved_left().drawable,
            Some(Key::Right) => self.player.moved_right().drawable,
            _ => self.player.drawable,
        }
    }

    /// Whether an entity in `state` can be moved by a frame and has a place
    /// on the layout where it then is.
    pub open spec fn can_move_and_show(
        &self,
        state: DrawableState,
        dimensions: Option<Point>,
        duration: int,
    ) -> bool {
        &&& can_update_position(state, dimensions, duration)
        &&& self.display_controller.can_place(
            DrawableState { location: next_location(state, dimensions, duration), ..state },
        )
    }

    /// Whether a frame of `duration` milliseconds can be run: the game is
    /// well formed, and nothing that the frame computes leaves the range of
    /// the numbers that hold it, whatever asteroid is spawned and whatever
    /// identity a new entity gets.
    pub open spec fn can_run_next_game_frame(&self, game_state: GameState, duration: u128) -> bool {
        &&& self.is_well_formed()
        &&& match game_state.keyboard_event {
            Some(event) => self.player.can_handle_additional(event),
            None => true,
        }
        &&& self.asteroid_controller.time_elapsed_since_spawn + duration <= u128::MAX
        &&& self.asteroid_controller.is_spawn_due(duration)
            ==> self.asteroid_controller.dimensions.width > 0
        &&& self.can_move_and_show(
            self.steered_player(game_state.keyboard_event),
            Some(self.dimensions),
            duration as int,
        )
        &&& forall|uuid: Identity| #[trigger]
            self.bullets().contains_key(uuid) ==> self.can_move_and_show(
                self.bullets()[uuid].drawable,
                None,
                duration as int,
            )
        &&& forall|uuid: Identity| #[trigger]
            self.asteroids().contains_key(uuid) ==> self.can_move_and_show(
                self.asteroids()[uuid].drawable,
                None,
                duration as int,
            )
        &&& game_state.keyboard_event == Some(Key::Char(' ')) ==> forall|bullet: Bullet| #[trigger]
            is_basic_bullet(bullet, self.player.basic_bullet_start()) ==> self.can_move_and_show(
                bullet.drawable,
                None,
                duration as int,
            )
        &&& game_state.keyboard_event == Some(Key::Enter) ==> forall|bullet: Bullet| #[trigger]
            is_spread_bullet(bullet, self.player.spread_bullet_start()) ==> self.can_move_and_show(
                bullet.drawable,
                None,
                duration as int,
            )
        &&& self.asteroid_controller.is_spawn_due(duration) ==> forall|asteroid: Asteroid| #[trigger]
            is_spawned_asteroid(asteroid, self.asteroid_controller.dimensions)
                ==> self.can_move_and_show(asteroid.drawable, None, duration as int)
        &&& self.display_controller.can_place(self.borders.drawable)
        &&& game_state.score + ASTEROID_DESTROYED_POINTS * (self.asteroids().len() + 1) <= u64::MAX
        &&& hud_fits(self.display_controller.screen_size.width)
    }

    /// Runs one frame of `game_loop_duration` milliseconds: clears the
    /// layout, hands the key of the frame to the player, lets the spawner
    /// count the frame, moves every entity, finds the collisions and applies
    /// their damage, and draws the frame on the layout. Fails where a part
    /// of the frame has no place on the layout; what was drawn before that
    /// part stays.
    pub fn run_next_game_frame(&mut self, game_state: &mut GameState, game_loop_duration: u128) -> (result:
        AppResult<()>)
        requires
            old(self).can_run_next_game_frame(*old(game_state), game_loop_duration),
        ensures
            old(self).framed(
                *final(self),
                *old(game_state),
                *final(game_state),
                game_loop_duration,
                result is Ok,
            ),
            final(self).is_well_formed(),
            result matches Err(error) ==> error == AppError::DisplayControllerError(
                DisplayControllerError::PositionOutOfRange,
            ),
    {
        let ghost start = *self;
        let ghost state_at_start = *game_state;
        let ghost duration = game_loop_duration as int;
        self.reset();
        let ghost cleared = *self;
        match self.handle_keyboard(game_state.keyboard_event.as_ref()) {
            Ok(_) => {},
            Err(error) => {
                return Err(error);
            },
        }
        let ghost steered = *self;
        proof {
            assert(steered.player.drawable == start.steered_player(state_at_start.keyboard_event));
            assert(keyed_by_identity(steered.bullets()));
            assert forall|uuid: Identity| #[trigger]
                steered.bullets().contains_key(uuid) implies start.can_move_and_show(
                steered.bullets()[uuid].drawable,
                None,
                duration,
            ) by {
                if !start.bullets().contains_key(uuid) || steered.bullets()[uuid]
                    != start.bullets()[uuid] {
                    if state_at_start.keyboard_event == Some(Key::Char(' ')) {
                        let bullet = choose|bullet: Bullet| #[trigger]
                            is_basic_bullet(bullet, start.player.basic_bullet_start())
                                && steered.bullets() == start.bullets().insert(
                                bullet.drawable.uuid,
                                bullet,
                            );
                        assert(steered.bullets()[uuid] == bullet);
                    } else {
                        let bullet = choose|bullet: Bullet| #[trigger]
                            is_spread_bullet(bullet, start.player.spread_bullet_start())
                                && steered.bullets() == start.bullets().insert(
                                bullet.drawable.uuid,
                                bullet,
                            );
                        assert(steered.bullets()[uuid] == bullet);
                    }
                }
            }
        }
        self.asteroid_controller.handle_game_loop(game_loop_duration);
        let ghost grown = *self;
        proof {
            start.asteroid_controller.entity_controller.lemma_is_finite();
            assert(grown.asteroids().len() <= start.asteroids().len() + 1) by {
                if start.asteroid_controller.is_spawn_due(game_loop_duration) {
                    let asteroid = choose|asteroid: Asteroid| #[trigger]
                        is_spawned_asteroid(asteroid, start.asteroid_controller.dimensions)
                            && grown.asteroids() == start.asteroids().insert(
                            asteroid.drawable.uuid,
                            asteroid,
                        );
                    assert(grown.asteroids().dom() =~= start.asteroids().dom().insert(
                        asteroid.drawable.uuid,
                    ));
                }
            }
            assert forall|uuid: Identity| #[trigger]
                grown.asteroids().contains_key(uuid) implies start.can_move_and_show(
                grown.asteroids()[uuid].drawable,
                None,
                duration,
            ) && grown.asteroids()[uuid].drawable.uuid == uuid by {
                if start.asteroid_controller.is_spawn_due(game_loop_duration) {
                    let asteroid = choose|asteroid: Asteroid| #[trigger]
                        is_spawned_asteroid(asteroid, start.asteroid_controller.dimensions)
                            && grown.asteroids() == start.asteroids().insert(
                            asteroid.drawable.uuid,
                            asteroid,
                        );
                    if uuid == asteroid.drawable.uuid {
                        assert(grown.asteroids()[uuid] == asteroid);
                    }
                }
            }
            assert(steered.spawned(grown, game_loop_duration));
        }
        self.update_positions(game_loop_duration);
        let ghost shifted = *self;
        proof {
            assert(grown.moved(shifted, duration));
            grown.asteroid_controller.entity_controller.lemma_is_finite();
            assert(shifted.asteroids().len() == grown.asteroids().len());
            assert(ASTEROID_DESTROYED_POINTS * shifted.asteroids().len() <= ASTEROID_DESTROYED_POINTS
                * (start.asteroids().len() + 1)) by (nonlinear_arith)
                requires
                    shifted.asteroids().len() <= start.asteroids().len() + 1,
            ;
        }
        match self.handle_collisions(game_state) {
            Ok(_) => {},
            Err(error) => {
                return Err(error);
            },
        }
        let ghost hit = *self;
        let ghost state_after_hit = *game_state;
        proof {
            let (states, asteroid_keys, bullet_keys, outcomes) = choose|
                states: Seq<&DrawableState>,
                asteroid_keys: Seq<Identity>,
                bullet_keys: Seq<Identity>,
                outcomes: Map<Identity, Map<Identity, CollisionOutcome>>,
            |
                shifted.collided_through(
                    hit,
                    state_at_start,
                    state_after_hit,
                    states,
                    asteroid_keys,
                    bullet_keys,
                    outcomes,
                );
            let summary = capped_summary(outcomes);
            assert forall|uuid: Identity| #[trigger]
                hit.bullets().contains_key(uuid) implies hit.display_controller.can_place(
                hit.bullets()[uuid].drawable,
            ) by {
                assert(shifted.bullets().contains_key(uuid));
                assert(grown.bullets().contains_key(uuid));
                assert(start.can_move_and_show(grown.bullets()[uuid].drawable, None, duration));
            }
            assert forall|uuid: Identity| #[trigger]
                hit.asteroids().contains_key(uuid) implies hit.display_controller.can_place(
                hit.asteroids()[uuid].drawable,
            ) by {
                assert(shifted.asteroids().contains_key(uuid));
                assert(grown.asteroids().contains_key(uuid));
                assert(start.can_move_and_show(grown.asteroids()[uuid].drawable, None, duration));
            }
            lemma_hud_fits_every_score(
                shown_score(state_after_hit.score),
                hit.display_controller.screen_size.width,
            );
        }
        let result = match self.draw_all_entities(game_state) {
            Ok(_) => Ok(()),
            Err(error) => Err(error),
        };
        proof {
            assert(start.framed_through(
                *self,
                state_at_start,
                *game_state,
                game_loop_duration,
                result is Ok,
                cleared,
                steered,
                grown,
                shifted,
                hit,
            ));
        }
        result
    }
}

/// Where the score has a place with ten digits, it has one with the digits
/// it has.
pub proof fn lemma_hud_fits_every_score(score: u32, screen_width: i64)
    requires
        hud_fits(screen_width),
    ensures
        score_fits(score, screen_width),
{
    lemma_digits_are_few(score as nat);
    assert(DIGIT_SPACING * digits_of(score as nat).len() <= DIGIT_SPACING * 10) by (nonlinear_arith)
        requires
            digits_of(score as nat).len() <= 10,
    ;
}

/// The largest coordinate, velocity and extent with which a frame is known
/// to stay within the range of its numbers.
pub const MODERATE_LIMIT: i64 = 0x100_0000_0000;

/// The longest frame, in milliseconds, that is known to stay within the
/// range of its numbers.
pub const MODERATE_DURATION: u128 = 0x1_0000_0000;

/// Whether `value` is no further from zero than `MODERATE_LIMIT`.
pub open spec fn is_moderate(value: int) -> bool {
    -MODERATE_LIMIT <= value <= MODERATE_LIMIT
}

/// Whether both parts of `point` are moderate.
pub open spec fn is_moderate_point(point: Point) -> bool {
    is_moderate(point.width as int) && is_moderate(point.height as int)
}

/// Whether the place, the velocity and the extent of an entity in `state`
/// are moderate.
pub open spec fn is_moderate_state(state: DrawableState) -> bool {
    &&& is_moderate_point(state.location)
    &&& is_moderate_point(state.velocity)
    &&& is_moderate_point(state.layout.dimensions)
}

/// At a moderate velocity a frame of moderate duration moves an entity by
/// less than the largest number can hold, with room to spare.
pub proof fn lemma_moderate_move(velocity: int, duration: int)
    requires
        is_moderate(velocity),
        0 <= duration <= MODERATE_DURATION,
    ensures
        -5_000_000_000_000_000_000 <= rated_axis(velocity, duration) <= 5_000_000_000_000_000_000,
{
    let product = velocity * duration;
    assert(-0x100_0000_0000 * 0x1_0000_0000 <= product <= 0x100_0000_0000 * 0x1_0000_0000)
        by (nonlinear_arith)
        requires
            product == velocity * duration,
            -0x100_0000_0000 <= velocity <= 0x100_0000_0000,
            0 <= duration <= 0x1_0000_0000,
    ;
}

fn point_is_moderate(point: &Point) -> (moderate: bool)
    ensures
        moderate == is_moderate_point(*point),
{
    -MODERATE_LIMIT <= point.width && point.width <= MODERATE_LIMIT && -MODERATE_LIMIT
        <= point.height && point.height <= MODERATE_LIMIT
}

fn state_is_moderate(state: &DrawableState) -> (moderate: bool)
    ensures
        moderate == is_moderate_state(*state),
{
    point_is_moderate(&state.location) && point_is_moderate(&state.velocity) && point_is_moderate(
        &state.layout.dimensions,
    )
}

/// Tells whether every entity of a population is moderate and no player.
fn population_is_moderate<T: Drawable + Health>(entities: &EntityController<T>) -> (moderate: bool)
    ensures
        moderate == forall|uuid: Identity| #[trigger]
            entities@.contains_key(uuid) ==> is_moderate_state(entities@[uuid].drawable_state())
                && entities@[uuid].drawable_state().drawable_type != DrawableType::Player,
{
    let states = entities.get_all_drawable_states();
    let ghost keys = choose|keys: Seq<Identity>| lists_states_of(states@, entities@, keys);
    let mut index: usize = 0;
    while index < states.len()
        invariant
            index <= states.len(),
            lists_states_of(states@, entities@, keys),
            forall|i: int|
                0 <= i < index ==> is_moderate_state(*#[trigger] states[i]) && states[i].drawable_type
                    != DrawableType::Player,
        decreases states.len() - index,
    {
        let is_player = match states[index].drawable_type {
            DrawableType::Player => true,
            _ => false,
        };
        if is_player || !state_is_moderate(states[index]) {
            proof {
                assert(keys.to_set().contains(keys[index as int]));
                assert(*states[index as int] == entities@[keys[index as int]].drawable_state());
            }
            return false;
        }
        index = index + 1;
    }
    proof {
        assert forall|uuid: Identity| #[trigger] entities@.contains_key(uuid) implies is_moderate_state(
            entities@[uuid].drawable_state(),
        ) && entities@[uuid].drawable_state().drawable_type != DrawableType::Player by {
            assert(keys.to_set().contains(uuid));
            let place = choose|place: int| 0 <= place < keys.len() && keys[place] == uuid;
            assert(*states[place] == entities@[keys[place]].drawable_state());
        }
    }
    true
}

impl App {
    /// Whether everything that a frame of `duration` milliseconds works on
    /// is moderate: the places, velocities and extents of all entities, the
    /// dimensions of the screen, of the arena and of the layout, and the
    /// duration itself. The time since the last asteroid and the score must
    /// have room to grow, the arena must have a column to spawn in, and
    /// asteroids and bullets must not be of the player's kind.
    pub open spec fn is_moderate_frame(&self, game_state: GameState, duration: u128) -> bool {
        &&& duration <= MODERATE_DURATION
        &&& is_moderate_state(self.player.drawable)
        &&& is_moderate_state(self.borders.drawable)
        &&& is_moderate_point(self.dimensions)
        &&& is_moderate_point(self.display_controller.entity_drawable_offset)
        &&& is_moderate_point(self.display_controller.screen_size)
        &&& is_moderate_point(self.asteroid_controller.dimensions)
        &&& self.asteroid_controller.dimensions.width > 0
        &&& self.asteroid_controller.time_elapsed_since_spawn + duration <= u128::MAX
        &&& game_state.score + ASTEROID_DESTROYED_POINTS * (self.asteroids().len() + 1) <= u64::MAX
        &&& forall|uuid: Identity| #[trigger]
            self.bullets().contains_key(uuid) ==> is_moderate_state(self.bullets()[uuid].drawable)
                && self.bullets()[uuid].drawable.drawable_type != DrawableType::Player
        &&& forall|uuid: Identity| #[trigger]
            self.asteroids().contains_key(uuid) ==> is_moderate_state(
                self.asteroids()[uuid].drawable,
            ) && self.asteroids()[uuid].drawable.drawable_type != DrawableType::Player
    }

    /// An entity that is moderate, and no player, can be moved by a
    /// moderate frame and shown where it then is.
    proof fn lemma_moderate_entity_moves(&self, state: DrawableState, duration: int)
        requires
            -4 * MODERATE_LIMIT <= state.location.width <= 4 * MODERATE_LIMIT,
            -4 * MODERATE_LIMIT <= state.location.height <= 4 * MODERATE_LIMIT,
            is_moderate_point(state.velocity),
            state.drawable_type != DrawableType::Player,
            is_moderate_point(self.display_controller.entity_drawable_offset),
            0 <= duration <= MODERATE_DURATION,
        ensures
            self.can_move_and_show(state, None, duration),
    {
        lemma_moderate_move(state.velocity.width as int, duration);
        lemma_moderate_move(state.velocity.height as int, duration);
    }

    /// A frame on which everything is moderate can be run.
    pub proof fn lemma_moderate_frame_can_run(&self, game_state: GameState, duration: u128)
        requires
            self.is_well_formed(),
            self.is_moderate_frame(game_state, duration),
        ensures
            self.can_run_next_game_frame(game_state, duration),
    {
        let span = duration as int;
        let key = game_state.keyboard_event;
        let steered = self.steered_player(key);
        assert(is_moderate_point(steered.velocity) && steered.location == self.player.drawable.location
            && steered.layout == self.player.drawable.layout && steered.drawable_type
            == self.player.drawable.drawable_type);
        lemma_moderate_move(steered.velocity.width as int, span);
        lemma_moderate_move(steered.velocity.height as int, span);
        assert(self.can_move_and_show(steered, Some(self.dimensions), span));
        assert forall|uuid: Identity| #[trigger]
            self.bullets().contains_key(uuid) implies self.can_move_and_show(
            self.bullets()[uuid].drawable,
            None,
            span,
        ) by {
            self.lemma_moderate_entity_moves(self.bullets()[uuid].drawable, span);
        }
        assert forall|uuid: Identity| #[trigger]
            self.asteroids().contains_key(uuid) implies self.can_move_and_show(
            self.asteroids()[uuid].drawable,
            None,
            span,
        ) by {
            self.lemma_moderate_entity_moves(self.asteroids()[uuid].drawable, span);
        }
        assert forall|bullet: Bullet| #[trigger]
            is_basic_bullet(bullet, self.player.basic_bullet_start()) implies self.can_move_and_show(
            bullet.drawable,
            None,
            span,
        ) by {
            self.lemma_moderate_entity_moves(bullet.drawable, span);
        }
        assert forall|bullet: Bullet| #[trigger]
            is_spread_bullet(
                bullet,
                self.player.spread_bullet_start(),
            ) implies self.can_move_and_show(bullet.drawable, None, span) by {
            self.lemma_moderate_entity_moves(bullet.drawable, span);
        }
        assert forall|asteroid: Asteroid| #[trigger]
            is_spawned_asteroid(
                asteroid,
                self.asteroid_controller.dimensions,
            ) implies self.can_move_and_show(asteroid.drawable, None, span) by {
            self.lemma_moderate_entity_moves(asteroid.drawable, span);
        }
    }

    /// Tells whether everything that a frame of `game_loop_duration`
    /// milliseconds works on is moderate. Such a frame can be run.
    pub fn is_frame_moderate(&self, game_state: &GameState, game_loop_duration: u128) -> (moderate:
        bool)
        requires
            self.is_well_formed(),
        ensures
            moderate == self.is_moderate_frame(*game_state, game_loop_duration),
            moderate ==> self.can_run_next_game_frame(*game_state, game_loop_duration),
    {
        let here = game_loop_duration <= MODERATE_DURATION && state_is_moderate(&self.player.drawable)
            && state_is_moderate(&self.borders.drawable) && point_is_moderate(&self.dimensions)
            && point_is_moderate(&self.display_controller.entity_drawable_offset)
            && point_is_moderate(&self.display_controller.screen_size) && point_is_moderate(
            &self.asteroid_controller.dimensions,
        ) && self.asteroid_controller.dimensions.width > 0
            && self.asteroid_controller.time_elapsed_since_spawn <= u128::MAX - game_loop_duration;
        if !here {
            return false;
        }
        let asteroid_count = self.asteroid_controller.entity_controller.len();
        let room = (u64::MAX - game_state.score) / ASTEROID_DESTROYED_POINTS;
        if asteroid_count as u128 + 1 > room as u128 {
            proof {
                assert(game_state.score + ASTEROID_DESTROYED_POINTS * (self.asteroids().len() + 1)
                    > u64::MAX);
            }
            return false;
        }
        let moderate = population_is_moderate(&self.player.bullet_entity_controller)
            && population_is_moderate(&self.asteroid_controller.entity_controller);
        proof {
            if moderate {
                self.lemma_moderate_frame_can_run(*game_state, game_loop_duration);
            }
        }
        moderate
    }
}

} // verus!
