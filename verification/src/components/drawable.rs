use crate::display::layout::Layout;
use crate::display::point::{fits_i64, truncated_div, Point};
use vstd::prelude::*;

verus! {

/// What tells one entity from every other, for as long as it lives.
pub type Identity = u128;

/// What kind of thing an entity is, with the damage it deals where it deals any.
#[derive(Debug, PartialEq, Eq, Clone, Copy, Structural)]
pub enum DrawableType {
    Player,
    /// An enemy, with the damage it does on contact.
    Enemy(u32),
    Border,
    /// Ammunition, with the damage it does to what it hits.
    Ammunition(u32),
}

/// What every simulated thing carries: its shape, where its top-left corner
/// is, how fast it moves in cells per second, its kind and its identity.
#[derive(Debug, PartialEq)]
pub struct DrawableState {
    pub layout: Layout,
    pub location: Point,
    pub velocity: Point,
    pub drawable_type: DrawableType,
    pub uuid: Identity,
}

/// Makes a fresh identity with `uuid::Uuid::new_v4` and hands it over as the
/// 128-bit number that `uuid::Uuid::as_u128` gives for it. The value is
/// random, so nothing is said about it.
#[verifier::external_body]
pub(crate) fn new_identity() -> (identity: Identity) {
    uuid::Uuid::new_v4().as_u128()
}

impl DrawableState {
    /// A state with a fresh identity. Without a velocity the entity rests.
    pub fn new(
        layout: Layout,
        location: Point,
        drawable_type: DrawableType,
        velocity: Option<Point>,
    ) -> (state: Self)
        ensures
            state.layout == layout,
            state.location == location,
            state.drawable_type == drawable_type,
            state.velocity == (match velocity {
                Some(given) => given,
                None => Point { width: 0, height: 0 },
            }),
    {
        let velocity = match velocity {
            Some(given) => given,
            None => Point { width: 0, height: 0 },
        };
        Self { layout, location, drawable_type, velocity, uuid: new_identity() }
    }
}

/// The player keeps this many cells between its shape and the arena's edge.
pub const PADDING_OFFSET: i64 = 1;

/// How far an entity moves along one axis in a frame of `duration`
/// milliseconds at `velocity` cells per second: `velocity * duration / 1000`
/// rounded toward zero, but one cell in the direction of travel where that
/// would round a movement away.
pub open spec fn rated_axis(velocity: int, duration: int) -> int {
    let rated = truncated_div(velocity * duration, 1000);
    if rated != 0 || velocity == 0 {
        rated
    } else if velocity > 0 {
        1
    } else {
        -1
    }
}

/// Whether the movement of a frame can be held in a `Point`.
pub open spec fn rated_velocity_fits(velocity: Point, duration: int) -> bool {
    fits_i64(rated_axis(velocity.width as int, duration)) && fits_i64(
        rated_axis(velocity.height as int, duration),
    )
}

/// The movement of a frame on both axes.
pub open spec fn rated_velocity(velocity: Point, duration: int) -> Point
    recommends
        rated_velocity_fits(velocity, duration),
{
    Point {
        width: rated_axis(velocity.width as int, duration) as i64,
        height: rated_axis(velocity.height as int, duration) as i64,
    }
}

/// A stored velocity that is not zero always moves the entity, however short
/// the frame was.
pub proof fn lemma_moving_axis_never_rests(velocity: int, duration: int)
    requires
        velocity != 0,
        duration >= 0,
    ensures
        rated_axis(velocity, duration) != 0,
        velocity > 0 ==> rated_axis(velocity, duration) > 0,
        velocity < 0 ==> rated_axis(velocity, duration) < 0,
{
    if velocity > 0 {
        assert(velocity * duration >= 0) by (nonlinear_arith)
            requires
                velocity > 0,
                duration >= 0,
        ;
    } else {
        assert(velocity * duration <= 0) by (nonlinear_arith)
            requires
                velocity < 0,
                duration >= 0,
        ;
    }
}

/// A resting axis stays at rest, however long the frame was.
pub proof fn lemma_resting_axis_never_moves(duration: int)
    ensures
        rated_axis(0, duration) == 0,
{
    assert(0 * duration == 0) by (nonlinear_arith);
}

/// One axis of `get_rated_velocity`.
fn get_rated_axis(velocity: i64, game_loop_duration: u128) -> (rated: i64)
    requires
        fits_i64(rated_axis(velocity as int, game_loop_duration as int)),
    ensures
        rated == rated_axis(velocity as int, game_loop_duration as int),
{
    if velocity == 0 {
        proof {
            lemma_resting_axis_never_moves(game_loop_duration as int);
        }
        return 0;
    }
    let magnitude: u128 = if velocity > 0 {
        velocity as u128
    } else {
        (-(velocity as i128)) as u128
    };
    let ghost v = velocity as int;
    let ghost d = game_loop_duration as int;
    let ghost m = magnitude as int;
    proof {
        assert(m * d >= 0) by (nonlinear_arith)
            requires
                m > 0,
                d >= 0,
        ;
        if velocity > 0 {
            assert(v * d == m * d);
        } else {
            assert(v * d == -(m * d)) by (nonlinear_arith)
                requires
                    v == -m,
            ;
        }
        // the quotient that is owed is the quotient of the magnitudes
        assert(truncated_div(v * d, 1000) == if velocity > 0 {
            (m * d) / 1000
        } else {
            -((m * d) / 1000)
        });
        lemma_moving_axis_never_rests(v, d);
    }
    match magnitude.checked_mul(game_loop_duration) {
        Some(product) => {
            let quotient = product / 1000;
            if quotient == 0 {
                if velocity > 0 {
                    1
                } else {
                    -1
                }
            } else if velocity > 0 {
                quotient as i64
            } else {
                (-(quotient as i128)) as i64
            }
        },
        None => {
            proof {
                // a product beyond 128 bits would make a quotient beyond 64
                assert((m * d) / 1000 > i64::MAX + 1);
                assert(false);
            }
            0
        },
    }
}

/// The movement of one frame: the stored velocity, in cells per second,
/// scaled to the frame's duration in milliseconds.
pub fn get_rated_velocity(velocity: Point, game_loop_duration: u128) -> (rated: Point)
    requires
        rated_velocity_fits(velocity, game_loop_duration as int),
    ensures
        rated == rated_velocity(velocity, game_loop_duration as int),
        velocity.width != 0 ==> rated.width != 0,
        velocity.height != 0 ==> rated.height != 0,
        velocity.width == 0 ==> rated.width == 0,
        velocity.height == 0 ==> rated.height == 0,
{
    proof {
        if velocity.width != 0 {
            lemma_moving_axis_never_rests(velocity.width as int, game_loop_duration as int);
        } else {
            lemma_resting_axis_never_moves(game_loop_duration as int);
        }
        if velocity.height != 0 {
            lemma_moving_axis_never_rests(velocity.height as int, game_loop_duration as int);
        } else {
            lemma_resting_axis_never_moves(game_loop_duration as int);
        }
    }
    Point {
        width: get_rated_axis(velocity.width, game_loop_duration),
        height: get_rated_axis(velocity.height, game_loop_duration),
    }
}

/// Where one axis of the player ends up: the position, lifted to the padding
/// where it is below it, then lowered to the last place at which the shape
/// and the padding still fit into the arena.
pub open spec fn clamped_axis(position: int, arena_extent: int, shape_extent: int) -> int {
    let lifted = if position < PADDING_OFFSET {
        PADDING_OFFSET as int
    } else {
        position
    };
    let last = arena_extent - shape_extent - PADDING_OFFSET;
    if lifted > last {
        last
    } else {
        lifted
    }
}

/// Where an entity is after a frame of `duration` milliseconds: moved by its
/// rated velocity, and, for the player only, kept inside the arena.
pub open spec fn next_width(state: DrawableState, dimensions: Option<Point>, duration: int) -> int {
    let moved = state.location.width + rated_axis(state.velocity.width as int, duration);
    match dimensions {
        Some(arena) if state.drawable_type == DrawableType::Player => clamped_axis(
            moved,
            arena.width as int,
            state.layout.dimensions.width as int,
        ),
        _ => moved,
    }
}

/// See `next_width`.
pub open spec fn next_height(state: DrawableState, dimensions: Option<Point>, duration: int) -> int {
    let moved = state.location.height + rated_axis(state.velocity.height as int, duration);
    match dimensions {
        Some(arena) if state.drawable_type == DrawableType::Player => clamped_axis(
            moved,
            arena.height as int,
            state.layout.dimensions.height as int,
        ),
        _ => moved,
    }
}

/// Whether an entity in this state can be moved: the player needs the
/// arena's dimensions, and the movement and the new location must be
/// representable.
pub open spec fn can_update_position(
    state: DrawableState,
    dimensions: Option<Point>,
    duration: int,
) -> bool {
    &&& state.drawable_type == DrawableType::Player ==> dimensions is Some
    &&& rated_velocity_fits(state.velocity, duration)
    &&& fits_i64(next_width(state, dimensions, duration))
    &&& fits_i64(next_height(state, dimensions, duration))
}

/// The location that `next_width` and `next_height` describe.
pub open spec fn next_location(state: DrawableState, dimensions: Option<Point>, duration: int) -> Point
    recommends
        can_update_position(state, dimensions, duration),
{
    Point {
        width: next_width(state, dimensions, duration) as i64,
        height: next_height(state, dimensions, duration) as i64,
    }
}

/// After a frame the player's shape ends at least one padding cell before the
/// arena does, whatever its velocity and however long the frame was. Where
/// the arena has room for the shape and both paddings, the player also
/// starts at least one padding cell into the arena.
pub proof fn lemma_player_stays_inside_arena(state: DrawableState, arena: Point, duration: int)
    requires
        state.drawable_type == DrawableType::Player,
    ensures
        next_width(state, Some(arena), duration) + state.layout.dimensions.width <= arena.width
            - PADDING_OFFSET,
        next_height(state, Some(arena), duration) + state.layout.dimensions.height <= arena.height
            - PADDING_OFFSET,
        arena.width - state.layout.dimensions.width >= 2 * PADDING_OFFSET ==> next_width(
            state,
            Some(arena),
            duration,
        ) >= PADDING_OFFSET,
        arena.height - state.layout.dimensions.height >= 2 * PADDING_OFFSET ==> next_height(
            state,
            Some(arena),
            duration,
        ) >= PADDING_OFFSET,
{
}

/// One axis of the player's boundary rule.
fn clamp_axis(position: i128, arena_extent: i64, shape_extent: i64) -> (clamped: i128)
    ensures
        clamped == clamped_axis(position as int, arena_extent as int, shape_extent as int),
{
    let mut clamped = position;
    if clamped < PADDING_OFFSET as i128 {
        clamped = PADDING_OFFSET as i128;
    }
    let last: i128 = arena_extent as i128 - shape_extent as i128 - PADDING_OFFSET as i128;
    if clamped > last {
        clamped = last;
    }
    clamped
}

/// Something with a shape and a place on the grid.
pub trait Drawable: Sized {
    /// The state that this value carries.
    spec fn drawable_state(&self) -> DrawableState;

    /// This value after it has been put at `position`.
    spec fn with_position(self, position: Point) -> Self;

    fn set_position(&mut self, updated_position: Point) -> (ret: &mut Self)
        ensures
            *ret == old(self).with_position(updated_position),
            *final(self) == *final(ret),
            ret.drawable_state() == (DrawableState {
                location: updated_position,
                ..old(self).drawable_state()
            }),
    ;

    fn get_drawable_state(&self) -> (state: &DrawableState)
        ensures
            *state == self.drawable_state(),
    ;

    /// Moves the entity by what its velocity gives for a frame of
    /// `game_loop_duration` milliseconds. The player is kept inside the arena
    /// of the given dimensions; every other kind may leave it.
    fn update_position(&mut self, dimensions: Option<&Point>, game_loop_duration: u128) -> (ret:
        &mut Self)
        requires
            can_update_position(
                old(self).drawable_state(),
                match dimensions {
                    Some(arena) => Some(*arena),
                    None => None,
                },
                game_loop_duration as int,
            ),
        ensures
            *ret == old(self).with_position(
                next_location(
                    old(self).drawable_state(),
                    match dimensions {
                        Some(arena) => Some(*arena),
                        None => None,
                    },
                    game_loop_duration as int,
                ),
            ),
            ret.drawable_state() == (DrawableState {
                location: next_location(
                    old(self).drawable_state(),
                    match dimensions {
                        Some(arena) => Some(*arena),
                        None => None,
                    },
                    game_loop_duration as int,
                ),
                ..old(self).drawable_state()
            }),
            *final(self) == *final(ret),
            dimensions matches Some(arena) ==> (old(self).drawable_state().drawable_type
                == DrawableType::Player ==> {
                &&& ret.drawable_state().location.width
                    + ret.drawable_state().layout.dimensions.width <= arena.width - PADDING_OFFSET
                &&& ret.drawable_state().location.height
                    + ret.drawable_state().layout.dimensions.height <= arena.height - PADDING_OFFSET
                &&& arena.width - ret.drawable_state().layout.dimensions.width >= 2 * PADDING_OFFSET
                    ==> ret.drawable_state().location.width >= PADDING_OFFSET
                &&& arena.height - ret.drawable_state().layout.dimensions.height >= 2
                    * PADDING_OFFSET ==> ret.drawable_state().location.height >= PADDING_OFFSET
            }),
    {
        let drawable_state = self.get_drawable_state();
        let rated = get_rated_velocity(drawable_state.velocity, game_loop_duration);
        let mut width: i128 = drawable_state.location.width as i128 + rated.width as i128;
        let mut height: i128 = drawable_state.location.height as i128 + rated.height as i128;
        let is_player = match drawable_state.drawable_type {
            DrawableType::Player => true,
            _ => false,
        };
        if is_player {
            match dimensions {
                Some(arena) => {
                    let shape = drawable_state.layout.dimensions;
                    width = clamp_axis(width, arena.width, shape.width);
                    height = clamp_axis(height, arena.height, shape.height);
                    proof {
                        lemma_player_stays_inside_arena(
                            self.drawable_state(),
                            *arena,
                            game_loop_duration as int,
                        );
                    }
                },
                None => {},
            }
        }
        self.set_position(Point { width: width as i64, height: height as i64 })
    }
}

/// Moves every entity of `drawable_vec` by one frame. None of them is kept
/// inside an arena.
pub fn update_position_for_drawable_vec<T: Drawable>(
    drawable_vec: &mut Vec<T>,
    game_loop_duration: u128,
)
    requires
        forall|i: int|
            0 <= i < old(drawable_vec).len() ==> can_update_position(
                (#[trigger] old(drawable_vec)[i]).drawable_state(),
                None,
                game_loop_duration as int,
            ),
    ensures
        final(drawable_vec).len() == old(drawable_vec).len(),
        forall|i: int|
            0 <= i < old(drawable_vec).len() ==> #[trigger] final(drawable_vec)[i] == old(
                drawable_vec,
            )[i].with_position(
                next_location(old(drawable_vec)[i].drawable_state(), None, game_loop_duration as int),
            ),
        forall|i: int|
            0 <= i < old(drawable_vec).len() ==> (#[trigger] final(drawable_vec)[i]).drawable_state()
                == (DrawableState {
                location: next_location(
                    old(drawable_vec)[i].drawable_state(),
                    None,
                    game_loop_duration as int,
                ),
                ..old(drawable_vec)[i].drawable_state()
            }),
{
    let mut index: usize = 0;
    while index < drawable_vec.len()
        invariant
            index <= drawable_vec.len(),
            drawable_vec.len() == old(drawable_vec).len(),
            forall|i: int|
                0 <= i < index ==> #[trigger] drawable_vec[i] == old(drawable_vec)[i].with_position(
                    next_location(
                        old(drawable_vec)[i].drawable_state(),
                        None,
                        game_loop_duration as int,
                    ),
                ),
            forall|i: int|
                0 <= i < index ==> (#[trigger] drawable_vec[i]).drawable_state() == (DrawableState {
                    location: next_location(
                        old(drawable_vec)[i].drawable_state(),
                        None,
                        game_loop_duration as int,
                    ),
                    ..old(drawable_vec)[i].drawable_state()
                }),
            forall|i: int| index <= i < drawable_vec.len() ==> #[trigger] drawable_vec[i] == old(drawable_vec)[i],
            forall|i: int|
                0 <= i < old(drawable_vec).len() ==> can_update_position(
                    (#[trigger] old(drawable_vec)[i]).drawable_state(),
                    None,
                    game_loop_duration as int,
                ),
        decreases drawable_vec.len() - index,
    {
        drawable_vec[index].update_position(None, game_loop_duration);
        index = index + 1;
    }
}

} // verus!
