use crate::components::drawable::{DrawableState, DrawableType, Identity};
use crate::display::layout::{rows_of, TwoDVec};
use crate::display::point::Point;
use crate::helpers::maps::keys_of;
use crate::helpers::sums::{lemma_sum_of_next, lemma_sum_over_listing, sum_of, sum_over};
use std::collections::HashMap;
use vstd::prelude::*;

verus! {

/// What a collision brings about.
#[derive(PartialEq, Debug)]
pub enum CollisionResult {
    /// Damage has been done, and this much of it.
    Damage(u32),
}

/// What collision detection needs to know of an entity.
#[derive(Clone, Debug, Copy, PartialEq, Eq, Structural)]
pub struct MinimalDrawableDetails {
    pub uuid: Identity,
    pub drawable_type: DrawableType,
}

/// Whether the shape of `state` covers the arena cell in column `column` of
/// row `row`.
pub open spec fn occupies(state: DrawableState, column: int, row: int) -> bool {
    state.layout.cell(row - state.location.height, column - state.location.width) is Some
}

/// Whether the arena of the given dimensions has a cell at `column`, `row`.
pub open spec fn in_arena(dimensions: Point, column: int, row: int) -> bool {
    0 <= column < dimensions.width && 0 <= row < dimensions.height
}

/// What collision detection keeps of an entity in `state`.
pub open spec fn details_of(state: DrawableState) -> MinimalDrawableDetails {
    MinimalDrawableDetails { uuid: state.uuid, drawable_type: state.drawable_type }
}

/// The entities that cover a cell, in the order in which `items` lists them.
pub open spec fn occupants(items: Seq<&DrawableState>, column: int, row: int) -> Seq<
    MinimalDrawableDetails,
> {
    items.filter(|state: &DrawableState| occupies(*state, column, row)).map_values(
        |state: &DrawableState| details_of(*state),
    )
}

/// Whether a cell's occupants include two entities of different identity.
pub open spec fn is_overlap_group(group: Seq<MinimalDrawableDetails>) -> bool {
    exists|i: int, j: int|
        0 <= i < group.len() && 0 <= j < group.len() && (#[trigger] group[i]).uuid != (
        #[trigger] group[j]).uuid
}

/// The occupants of each cell of one row of the arena, from left to right.
/// An arena of negative width has no cells.
pub open spec fn cells_of_row(items: Seq<&DrawableState>, dimensions: Point, row: int) -> Seq<
    Seq<MinimalDrawableDetails>,
> {
    Seq::new(
        if dimensions.width > 0 {
            dimensions.width as nat
        } else {
            0
        },
        |column: int| occupants(items, column, row),
    )
}

/// The overlap groups of one row of the arena, from left to right.
pub open spec fn overlap_groups_of_row(items: Seq<&DrawableState>, dimensions: Point, row: int) -> Seq<
    Seq<MinimalDrawableDetails>,
> {
    cells_of_row(items, dimensions, row).filter(
        |group: Seq<MinimalDrawableDetails>| is_overlap_group(group),
    )
}

/// The overlap groups of the first `rows` rows of the arena, top row first.
pub open spec fn overlap_groups_of_rows(items: Seq<&DrawableState>, dimensions: Point, rows: int) -> Seq<
    Seq<MinimalDrawableDetails>,
>
    decreases rows,
{
    if rows <= 0 {
        Seq::empty()
    } else {
        overlap_groups_of_rows(items, dimensions, rows - 1) + overlap_groups_of_row(
            items,
            dimensions,
            rows - 1,
        )
    }
}

/// Every cell of the arena on which entities of different identity meet,
/// each with its occupants: row by row from the top, each row from the left.
pub open spec fn overlap_groups(items: Seq<&DrawableState>, dimensions: Point) -> Seq<
    Seq<MinimalDrawableDetails>,
> {
    overlap_groups_of_rows(items, dimensions, dimensions.height as int)
}

/// Listing one more entity adds it to the occupants of the cells it covers.
proof fn lemma_occupants_push(items: Seq<&DrawableState>, state: &DrawableState, column: int, row: int)
    ensures
        occupants(items.push(state), column, row) == if occupies(*state, column, row) {
            occupants(items, column, row).push(details_of(*state))
        } else {
            occupants(items, column, row)
        },
{
    let covers = |state: &DrawableState| occupies(*state, column, row);
    let details = |state: &DrawableState| details_of(*state);
    reveal(Seq::filter);
    assert(items.push(state).drop_last() =~= items);
    assert(items.push(state).last() == state);
    if occupies(*state, column, row) {
        assert(items.push(state).filter(covers) == items.filter(covers).push(state));
        assert(items.filter(covers).push(state).map_values(details) =~= items.filter(
            covers,
        ).map_values(details).push(details_of(*state)));
    } else {
        assert(items.push(state).filter(covers) == items.filter(covers));
    }
}

/// What a cell holds while the entities up to `items[index]` have been
/// entered and `items[index]` has been entered for the cells of its shape
/// before local row `local_row`, and in that row before `local_column`.
spec fn occupants_so_far(
    items: Seq<&DrawableState>,
    index: int,
    local_row: int,
    local_column: int,
    column: int,
    row: int,
) -> Seq<MinimalDrawableDetails> {
    let state = *items[index];
    let cell_row = row - state.location.height;
    let cell_column = column - state.location.width;
    let entered = occupies(state, column, row) && (cell_row < local_row || (cell_row == local_row
        && cell_column < local_column));
    if entered {
        occupants(items.take(index), column, row).push(details_of(state))
    } else {
        occupants(items.take(index), column, row)
    }
}

/// A grid of `dimensions.height` rows of `dimensions.width` cells, none of
/// which has an occupant.
fn empty_grid(dimensions: &Point) -> (grid: Vec<Vec<Vec<MinimalDrawableDetails>>>)
    requires
        0 <= dimensions.width <= usize::MAX,
        0 <= dimensions.height <= usize::MAX,
    ensures
        grid.len() == dimensions.height,
        forall|row: int| 0 <= row < grid.len() ==> (#[trigger] grid[row]).len() == dimensions.width,
        forall|row: int, column: int|
            0 <= row < grid.len() && 0 <= column < dimensions.width ==> (
            #[trigger] grid[row][column])@ == Seq::<MinimalDrawableDetails>::empty(),
{
    let width = dimensions.width as usize;
    let height = dimensions.height as usize;
    let mut grid: Vec<Vec<Vec<MinimalDrawableDetails>>> = Vec::new();
    let mut row_number: usize = 0;
    while row_number < height
        invariant
            row_number <= height,
            width == dimensions.width,
            grid.len() == row_number,
            forall|row: int| 0 <= row < grid.len() ==> (#[trigger] grid[row]).len() == width,
            forall|row: int, column: int|
                0 <= row < grid.len() && 0 <= column < width ==> (#[trigger] grid[row][column])@
                    == Seq::<MinimalDrawableDetails>::empty(),
        decreases height - row_number,
    {
        let mut cells: Vec<Vec<MinimalDrawableDetails>> = Vec::new();
        let mut column: usize = 0;
        while column < width
            invariant
                column <= width,
                cells.len() == column,
                forall|i: int|
                    0 <= i < column ==> (#[trigger] cells[i])@ == Seq::<
                        MinimalDrawableDetails,
                    >::empty(),
            decreases width - column,
        {
            cells.push(Vec::new());
            column = column + 1;
        }
        grid.push(cells);
        row_number = row_number + 1;
    }
    grid
}

/// Whether every cell of the grid holds what `occupants_so_far` says.
spec fn grid_holds(
    grid: Vec<Vec<Vec<MinimalDrawableDetails>>>,
    dimensions: Point,
    items: Seq<&DrawableState>,
    index: int,
    local_row: int,
    local_column: int,
) -> bool {
    &&& grid.len() == dimensions.height
    &&& forall|row: int| 0 <= row < grid.len() ==> (#[trigger] grid[row]).len() == dimensions.width
    &&& forall|row: int, column: int|
        0 <= row < dimensions.height && 0 <= column < dimensions.width ==> (
        #[trigger] grid[row][column])@ == occupants_so_far(
            items,
            index,
            local_row,
            local_column,
            column,
            row,
        )
}

/// Enters every entity into the cells of the arena that its shape covers.
fn rasterize(drawable_items: &Vec<&DrawableState>, dimensions: &Point) -> (grid: Vec<
    Vec<Vec<MinimalDrawableDetails>>,
>)
    requires
        0 <= dimensions.width <= usize::MAX,
        0 <= dimensions.height <= usize::MAX,
    ensures
        grid.len() == dimensions.height,
        forall|row: int| 0 <= row < grid.len() ==> (#[trigger] grid[row]).len() == dimensions.width,
        forall|row: int, column: int|
            0 <= row < dimensions.height && 0 <= column < dimensions.width ==> (
            #[trigger] grid[row][column])@ == occupants(drawable_items@, column, row),
{
    let mut grid = empty_grid(dimensions);
    let ghost items = drawable_items@;
    let mut index: usize = 0;
    proof {
        assert(items.take(0) =~= Seq::<&DrawableState>::empty());
        reveal(Seq::filter);
        assert forall|row: int, column: int|
            0 <= row < dimensions.height && 0 <= column < dimensions.width implies (
        #[trigger] grid[row][column])@ == occupants(items.take(0), column, row) by {
            assert(occupants(items.take(0), column, row) =~= Seq::<MinimalDrawableDetails>::empty());
        }
    }
    while index < drawable_items.len()
        invariant
            index <= drawable_items.len(),
            items == drawable_items@,
            0 <= dimensions.width <= usize::MAX,
            0 <= dimensions.height <= usize::MAX,
            grid.len() == dimensions.height,
            forall|row: int| 0 <= row < grid.len() ==> (#[trigger] grid[row]).len() == dimensions.width,
            forall|row: int, column: int|
                0 <= row < dimensions.height && 0 <= column < dimensions.width ==> (
                #[trigger] grid[row][column])@ == occupants(items.take(index as int), column, row),
        decreases drawable_items.len() - index,
    {
        let drawable_state = drawable_items[index];
        let parsed_item = MinimalDrawableDetails {
            uuid: drawable_state.uuid,
            drawable_type: drawable_state.drawable_type,
        };
        let mut local_row: usize = 0;
        assert(grid_holds(grid, *dimensions, items, index as int, 0, 0));
        while local_row < drawable_state.layout.map.len()
            invariant
                index < drawable_items.len(),
                items == drawable_items@,
                drawable_state == drawable_items[index as int],
                parsed_item == details_of(*drawable_state),
                local_row <= drawable_state.layout.map.len(),
                0 <= dimensions.width <= usize::MAX,
                0 <= dimensions.height <= usize::MAX,
                grid_holds(grid, *dimensions, items, index as int, local_row as int, 0),
            decreases drawable_state.layout.map.len() - local_row,
        {
            let height: i128 = drawable_state.location.height as i128 + local_row as i128;
            if 0 <= height && height < dimensions.height as i128 {
                let mut local_column: usize = 0;
                while local_column < drawable_state.layout.map[local_row].len()
                    invariant
                        index < drawable_items.len(),
                        items == drawable_items@,
                        drawable_state == drawable_items[index as int],
                        parsed_item == details_of(*drawable_state),
                        local_row < drawable_state.layout.map.len(),
                        local_column <= drawable_state.layout.map[local_row as int].len(),
                        height == drawable_state.location.height + local_row,
                        0 <= height < dimensions.height,
                        0 <= dimensions.width <= usize::MAX,
                        0 <= dimensions.height <= usize::MAX,
                        grid_holds(
                            grid,
                            *dimensions,
                            items,
                            index as int,
                            local_row as int,
                            local_column as int,
                        ),
                    decreases drawable_state.layout.map[local_row as int].len() - local_column,
                {
                    let width: i128 = drawable_state.location.width as i128 + local_column as i128;
                    if drawable_state.layout.map[local_row][local_column].is_some() && 0 <= width
                        && width < dimensions.width as i128 {
                        let ghost before = grid;
                        grid[height as usize][width as usize].push(parsed_item);
                        assert(grid_holds(
                            grid,
                            *dimensions,
                            items,
                            index as int,
                            local_row as int,
                            local_column + 1,
                        )) by {
                            assert forall|row: int, column: int|
                                0 <= row < dimensions.height && 0 <= column
                                    < dimensions.width implies (#[trigger] grid[row][column])@
                                == occupants_so_far(
                                items,
                                index as int,
                                local_row as int,
                                local_column + 1,
                                column,
                                row,
                            ) by {
                                assert(before[row][column]@ == occupants_so_far(
                                    items,
                                    index as int,
                                    local_row as int,
                                    local_column as int,
                                    column,
                                    row,
                                ));
                            }
                        }
                    }
                    local_column = local_column + 1;
                }
            }
            local_row = local_row + 1;
        }
        proof {
            assert(items.take(index + 1) =~= items.take(index as int).push(drawable_state));
            assert forall|row: int, column: int|
                0 <= row < dimensions.height && 0 <= column < dimensions.width implies (
            #[trigger] grid[row][column])@ == occupants(items.take(index + 1), column, row) by {
                lemma_occupants_push(items.take(index as int), drawable_state, column, row);
            }
        }
        index = index + 1;
    }
    proof {
        assert(items.take(items.len() as int) =~= items);
    }
    grid
}

/// Tells whether two of a cell's occupants differ in identity.
fn has_distinct_identities(group: &Vec<MinimalDrawableDetails>) -> (distinct: bool)
    ensures
        distinct == is_overlap_group(group@),
{
    if group.len() < 2 {
        return false;
    }
    let first = group[0].uuid;
    let mut index: usize = 1;
    while index < group.len()
        invariant
            1 <= index <= group.len(),
            first == group[0].uuid,
            forall|i: int| 0 <= i < index ==> (#[trigger] group[i]).uuid == first,
        decreases group.len() - index,
    {
        if group[index].uuid != first {
            assert(group@[index as int].uuid != group@[0].uuid);
            return true;
        }
        index = index + 1;
    }
    false
}

fn copy_group(group: &Vec<MinimalDrawableDetails>) -> (copy: Vec<MinimalDrawableDetails>)
    ensures
        copy@ == group@,
{
    let mut copy: Vec<MinimalDrawableDetails> = Vec::new();
    let mut index: usize = 0;
    while index < group.len()
        invariant
            index <= group.len(),
            copy@ == group@.take(index as int),
        decreases group.len() - index,
    {
        copy.push(group[index]);
        proof {
            assert(group@.take(index + 1) =~= group@.take(index as int).push(group@[index as int]));
        }
        index = index + 1;
    }
    proof {
        assert(group@.take(group@.len() as int) =~= group@);
    }
    copy
}

/// Finds the cells of the arena on which entities of different identity
/// meet. Each entity is entered into the cells that its shape covers; cells
/// outside the arena are left out. What comes back holds, for every cell with
/// occupants of two or more identities, the identity and kind of each
/// occupant.
pub fn get_positions_with_overlaps(drawable_items: Vec<&DrawableState>, dimensions: &Point) -> (overlaps:
    TwoDVec<MinimalDrawableDetails>)
    requires
        dimensions.width <= usize::MAX,
        dimensions.height <= usize::MAX,
    ensures
        rows_of(overlaps) == overlap_groups(drawable_items@, *dimensions),
{
    let arena = Point {
        width: if dimensions.width > 0 {
            dimensions.width
        } else {
            0
        },
        height: if dimensions.height > 0 {
            dimensions.height
        } else {
            0
        },
    };
    let parsed_map = rasterize(&drawable_items, &arena);
    let ghost items = drawable_items@;
    let width = arena.width as usize;
    let height = arena.height as usize;
    let mut drawable_details: TwoDVec<MinimalDrawableDetails> = Vec::new();
    let mut row: usize = 0;
    proof {
        assert(rows_of(drawable_details) =~= overlap_groups_of_rows(items, *dimensions, 0));
    }
    while row < height
        invariant
            row <= height,
            items == drawable_items@,
            width == arena.width,
            height == arena.height,
            arena.width == if dimensions.width > 0 {
                dimensions.width
            } else {
                0
            },
            parsed_map.len() == height,
            forall|r: int| 0 <= r < parsed_map.len() ==> (#[trigger] parsed_map[r]).len() == width,
            forall|r: int, c: int|
                0 <= r < height && 0 <= c < width ==> (#[trigger] parsed_map[r][c])@ == occupants(
                    items,
                    c,
                    r,
                ),
            rows_of(drawable_details) == overlap_groups_of_rows(items, *dimensions, row as int),
        decreases height - row,
    {
        let ghost cells = cells_of_row(items, *dimensions, row as int);
        let ghost before = rows_of(drawable_details);
        let ghost meet = |group: Seq<MinimalDrawableDetails>| is_overlap_group(group);
        let mut column: usize = 0;
        proof {
            reveal(Seq::filter);
            assert(cells.take(0) =~= Seq::<Seq<MinimalDrawableDetails>>::empty());
            assert(before + cells.take(0).filter(meet) =~= before);
        }
        while column < width
            invariant
                column <= width,
                row < height,
                width == arena.width,
                cells.len() == width,
                cells == cells_of_row(items, *dimensions, row as int),
                meet == |group: Seq<MinimalDrawableDetails>| is_overlap_group(group),
                parsed_map.len() == height,
                forall|r: int| 0 <= r < parsed_map.len() ==> (#[trigger] parsed_map[r]).len() == width,
                forall|r: int, c: int|
                    0 <= r < height && 0 <= c < width ==> (#[trigger] parsed_map[r][c])@
                        == occupants(items, c, r),
                rows_of(drawable_details) == before + cells.take(column as int).filter(meet),
            decreases width - column,
        {
            let ghost earlier = rows_of(drawable_details);
            let found = has_distinct_identities(&parsed_map[row][column]);
            proof {
                reveal(Seq::filter);
                assert(cells.take(column + 1).drop_last() =~= cells.take(column as int));
                assert(cells.take(column + 1).last() == cells[column as int]);
                assert(parsed_map[row as int][column as int]@ == cells[column as int]);
            }
            if found {
                drawable_details.push(copy_group(&parsed_map[row][column]));
                proof {
                    assert(rows_of(drawable_details) =~= earlier.push(cells[column as int]));
                    assert(earlier.push(cells[column as int]) =~= before + cells.take(
                        column + 1,
                    ).filter(meet));
                }
            }
            column = column + 1;
        }
        proof {
            assert(cells.take(width as int) =~= cells);
        }
        row = row + 1;
    }
    drawable_details
}

/// What a collision does: the damage to the player or ammunition that was
/// hit, the damage to the enemy that hit it, and which enemy that was.
#[derive(Debug, Clone, Copy, PartialEq, Eq, Structural)]
pub struct CollisionOutcome {
    pub affected_damage: u32,
    pub enemy_damage: u32,
    pub asteroid_uuid: Identity,
}

/// Identity of the player or ammunition that was hit, then identity of the
/// enemy that hit it, then what the collision does.
pub type CollisionResults = HashMap<Identity, HashMap<Identity, CollisionOutcome>>;

/// How much damage an enemy takes when it collides with the player: enough
/// to destroy it.
pub const PLAYER_ENEMY_COLLISION_DAMAGE: u32 = 100;

/// Whether an entity of this kind is damaged by enemies.
pub open spec fn is_affected_kind(kind: DrawableType) -> bool {
    kind is Player || kind is Ammunition
}

/// What a collision between an entity of kind `affected` and the enemy
/// `enemy_identity` of kind `enemy` does. The affected entity takes the
/// enemy's contact damage. The enemy takes the ammunition's damage, or, from
/// the player, the fixed damage that destroys it.
pub open spec fn outcome_between(
    affected: DrawableType,
    enemy: DrawableType,
    enemy_identity: Identity,
) -> CollisionOutcome {
    CollisionOutcome {
        affected_damage: match enemy {
            DrawableType::Enemy(contact_damage) => contact_damage,
            _ => 0,
        },
        enemy_damage: match affected {
            DrawableType::Ammunition(damage) => damage,
            _ => PLAYER_ENEMY_COLLISION_DAMAGE,
        },
        asteroid_uuid: enemy_identity,
    }
}

/// The outcomes that `results` holds, as a map of maps.
pub open spec fn results_view(results: CollisionResults) -> Map<
    Identity,
    Map<Identity, CollisionOutcome>,
> {
    results@.map_values(|inner: HashMap<Identity, CollisionOutcome>| inner@)
}

/// Whether `outcomes` has an outcome for `affected` and `enemy`.
pub open spec fn has_outcome(
    outcomes: Map<Identity, Map<Identity, CollisionOutcome>>,
    affected: Identity,
    enemy: Identity,
) -> bool {
    outcomes.contains_key(affected) && outcomes[affected].contains_key(enemy)
}

/// Whether `enemies` lists an entity of identity `enemy`.
spec fn lists_enemy(enemies: Seq<MinimalDrawableDetails>, enemy: Identity) -> bool {
    exists|j: int| 0 <= j < enemies.len() && (#[trigger] enemies[j]).uuid == enemy
}

/// Whether `outcome` is what `element` and one of the listed enemies of
/// identity `enemy` do to each other.
spec fn is_outcome_with_listed(
    outcome: CollisionOutcome,
    element: MinimalDrawableDetails,
    enemies: Seq<MinimalDrawableDetails>,
    enemy: Identity,
) -> bool {
    exists|j: int|
        0 <= j < enemies.len() && (#[trigger] enemies[j]).uuid == enemy && outcome
            == outcome_between(element.drawable_type, enemies[j].drawable_type, enemy)
}

/// Whether `after` is `before` with the outcomes of `element` and each of
/// `enemies` added, but for the enemies with which `element` had an outcome.
spec fn recorded(
    before: Map<Identity, Map<Identity, CollisionOutcome>>,
    after: Map<Identity, Map<Identity, CollisionOutcome>>,
    element: MinimalDrawableDetails,
    enemies: Seq<MinimalDrawableDetails>,
) -> bool {
    &&& after.dom() == before.dom().insert(element.uuid)
    &&& forall|other: Identity|
        other != element.uuid && #[trigger] before.contains_key(other) ==> after[other]
            == before[other]
    &&& forall|enemy: Identity| #[trigger]
        after[element.uuid].contains_key(enemy) <==> (has_outcome(before, element.uuid, enemy)
            || lists_enemy(enemies, enemy))
    &&& forall|enemy: Identity| #[trigger]
        has_outcome(before, element.uuid, enemy) ==> after[element.uuid][enemy]
            == before[element.uuid][enemy]
    &&& forall|enemy: Identity|
        lists_enemy(enemies, enemy) && !has_outcome(before, element.uuid, enemy)
            ==> is_outcome_with_listed(
            #[trigger] after[element.uuid][enemy],
            element,
            enemies,
            enemy,
        )
}

/// Records what `element` and each of `enemies` do to each other, but for
/// the enemies with which `element` has an outcome already.
fn record_outcomes(
    collision_outcomes: &mut CollisionResults,
    element: MinimalDrawableDetails,
    enemies: &Vec<MinimalDrawableDetails>,
)
    requires
        enemies.len() > 0,
        is_affected_kind(element.drawable_type),
        forall|j: int| 0 <= j < enemies.len() ==> (#[trigger] enemies[j]).drawable_type is Enemy,
    ensures
        recorded(
            results_view(*old(collision_outcomes)),
            results_view(*final(collision_outcomes)),
            element,
            enemies@,
        ),
{
    broadcast use vstd::std_specs::hash::group_hash_axioms;

    let ghost before = results_view(*collision_outcomes);
    let ghost before_map = collision_outcomes@;
    let removed = collision_outcomes.remove(&element.uuid);
    let mut element_collisions: HashMap<Identity, CollisionOutcome> = match removed {
        Some(collisions) => collisions,
        None => HashMap::new(),
    };
    let ghost inner = element_collisions@;
    assert(forall|enemy: Identity| #[trigger]
        inner.contains_key(enemy) <==> has_outcome(before, element.uuid, enemy));
    assert(forall|enemy: Identity| #[trigger]
        inner.contains_key(enemy) ==> inner[enemy] == before[element.uuid][enemy]);
    let mut index: usize = 0;
    while index < enemies.len()
        invariant
            index <= enemies.len(),
            is_affected_kind(element.drawable_type),
            forall|j: int| 0 <= j < enemies.len() ==> (#[trigger] enemies[j]).drawable_type is Enemy,
            forall|enemy: Identity| #[trigger]
                element_collisions@.contains_key(enemy) <==> (inner.contains_key(enemy)
                    || lists_enemy(enemies@.take(index as int), enemy)),
            forall|enemy: Identity| #[trigger]
                inner.contains_key(enemy) ==> element_collisions@[enemy] == inner[enemy],
            forall|enemy: Identity|
                lists_enemy(enemies@.take(index as int), enemy) && !inner.contains_key(enemy)
                    ==> is_outcome_with_listed(
                    #[trigger] element_collisions@[enemy],
                    element,
                    enemies@,
                    enemy,
                ),
        decreases enemies.len() - index,
    {
        let enemy = enemies[index];
        let ghost earlier = element_collisions@;
        let ghost listed = enemies@.take(index as int);
        let ghost listed_now = enemies@.take(index + 1);
        assert(forall|e: Identity|
            lists_enemy(listed_now, e) <==> (lists_enemy(listed, e) || e == enemy.uuid)) by {
            assert forall|e: Identity| lists_enemy(listed_now, e) implies (lists_enemy(listed, e)
                || e == enemy.uuid) by {
                let j = choose|j: int|
                    0 <= j < listed_now.len() && (#[trigger] listed_now[j]).uuid == e;
                if j < index {
                    assert(listed[j].uuid == e);
                }
            }
            assert forall|e: Identity| (lists_enemy(listed, e) || e == enemy.uuid) implies lists_enemy(
                listed_now,
                e,
            ) by {
                if lists_enemy(listed, e) {
                    let j = choose|j: int| 0 <= j < listed.len() && (#[trigger] listed[j]).uuid == e;
                    assert(listed_now[j].uuid == e);
                } else {
                    assert(listed_now[index as int].uuid == e);
                }
            }
        }
        if !element_collisions.contains_key(&enemy.uuid) {
            if let DrawableType::Enemy(enemy_damage) = enemy.drawable_type {
                let outcome = match element.drawable_type {
                    DrawableType::Ammunition(ammunition_damage) => CollisionOutcome {
                        affected_damage: enemy_damage,
                        enemy_damage: ammunition_damage,
                        asteroid_uuid: enemy.uuid,
                    },
                    _ => CollisionOutcome {
                        affected_damage: enemy_damage,
                        enemy_damage: PLAYER_ENEMY_COLLISION_DAMAGE,
                        asteroid_uuid: enemy.uuid,
                    },
                };
                assert(outcome == outcome_between(
                    element.drawable_type,
                    enemies@[index as int].drawable_type,
                    enemy.uuid,
                ));
                element_collisions.insert(enemy.uuid, outcome);
                assert(is_outcome_with_listed(outcome, element, enemies@, enemy.uuid));
            }
        }
        index = index + 1;
    }
    proof {
        assert(enemies@.take(enemies@.len() as int) =~= enemies@);
        assert(lists_enemy(enemies@, enemies@[0].uuid));
    }
    let ghost merged = element_collisions@;
    collision_outcomes.insert(element.uuid, element_collisions);
    proof {
        let after = results_view(*collision_outcomes);
        assert(after.dom() =~= before.dom().insert(element.uuid));
        assert(after[element.uuid] == merged);
    }
}

/// Whether group `k` holds an affected entity of identity `affected` at `i`
/// and an enemy of identity `enemy` at `j`.
pub open spec fn is_pair_at(
    groups: Seq<Seq<MinimalDrawableDetails>>,
    k: int,
    i: int,
    j: int,
    affected: Identity,
    enemy: Identity,
) -> bool {
    &&& 0 <= k < groups.len()
    &&& 0 <= i < groups[k].len()
    &&& 0 <= j < groups[k].len()
    &&& groups[k][i].uuid == affected
    &&& is_affected_kind(groups[k][i].drawable_type)
    &&& groups[k][j].uuid == enemy
    &&& groups[k][j].drawable_type is Enemy
}

/// Whether some group holds both an affected entity of identity `affected`
/// and an enemy of identity `enemy`.
pub open spec fn pair_in_groups(
    groups: Seq<Seq<MinimalDrawableDetails>>,
    affected: Identity,
    enemy: Identity,
) -> bool {
    exists|k: int, i: int, j: int| is_pair_at(groups, k, i, j, affected, enemy)
}

/// Whether `outcome` is what an affected entity of identity `affected` and
/// an enemy of identity `enemy` that share a group do to each other.
pub open spec fn is_outcome_in_groups(
    outcome: CollisionOutcome,
    groups: Seq<Seq<MinimalDrawableDetails>>,
    affected: Identity,
    enemy: Identity,
) -> bool {
    exists|k: int, i: int, j: int|
        is_pair_at(groups, k, i, j, affected, enemy) && outcome == outcome_between(
            groups[k][i].drawable_type,
            groups[k][j].drawable_type,
            enemy,
        )
}

/// Whether `outcomes` holds one outcome for each affected entity and enemy
/// that share one of `groups`, and nothing else.
pub open spec fn resolves(
    outcomes: Map<Identity, Map<Identity, CollisionOutcome>>,
    groups: Seq<Seq<MinimalDrawableDetails>>,
) -> bool {
    &&& forall|affected: Identity, enemy: Identity|
        has_outcome(outcomes, affected, enemy) <==> pair_in_groups(groups, affected, enemy)
    &&& forall|affected: Identity| #[trigger]
        outcomes.contains_key(affected) ==> exists|enemy: Identity|
            outcomes[affected].contains_key(enemy)
    &&& forall|affected: Identity, enemy: Identity| #[trigger]
        has_outcome(outcomes, affected, enemy) ==> is_outcome_in_groups(
            outcomes[affected][enemy],
            groups,
            affected,
            enemy,
        )
}

/// Whether a pair is found in the groups before group `k`, or in group `k`
/// with the affected entity before place `i`.
spec fn pair_so_far(
    groups: Seq<Seq<MinimalDrawableDetails>>,
    k: int,
    i: int,
    affected: Identity,
    enemy: Identity,
) -> bool {
    pair_in_groups(groups.take(k), affected, enemy) || exists|member: int, j: int|
        member < i && is_pair_at(groups, k, member, j, affected, enemy)
}

/// `resolves`, while group `k` has been gone through up to place `i`.
spec fn resolves_so_far(
    outcomes: Map<Identity, Map<Identity, CollisionOutcome>>,
    groups: Seq<Seq<MinimalDrawableDetails>>,
    k: int,
    i: int,
) -> bool {
    &&& forall|affected: Identity, enemy: Identity|
        has_outcome(outcomes, affected, enemy) <==> pair_so_far(groups, k, i, affected, enemy)
    &&& forall|affected: Identity| #[trigger]
        outcomes.contains_key(affected) ==> exists|enemy: Identity|
            outcomes[affected].contains_key(enemy)
    &&& forall|affected: Identity, enemy: Identity| #[trigger]
        has_outcome(outcomes, affected, enemy) ==> is_outcome_in_groups(
            outcomes[affected][enemy],
            groups.take(k + 1),
            affected,
            enemy,
        )
}

proof fn lemma_pair_in_longer_prefix(
    groups: Seq<Seq<MinimalDrawableDetails>>,
    k: int,
    affected: Identity,
    enemy: Identity,
)
    requires
        0 <= k < groups.len(),
    ensures
        pair_in_groups(groups.take(k + 1), affected, enemy) <==> (pair_in_groups(
            groups.take(k),
            affected,
            enemy,
        ) || exists|member: int, j: int| is_pair_at(groups, k, member, j, affected, enemy)),
{
    let shorter = groups.take(k);
    let longer = groups.take(k + 1);
    if pair_in_groups(longer, affected, enemy) {
        let (g, i, j) = choose|g: int, i: int, j: int| is_pair_at(longer, g, i, j, affected, enemy);
        assert(longer[g] == groups[g]);
        if g < k {
            assert(shorter[g] == groups[g]);
            assert(is_pair_at(shorter, g, i, j, affected, enemy));
        } else {
            assert(is_pair_at(groups, k, i, j, affected, enemy));
        }
    }
    if pair_in_groups(shorter, affected, enemy) {
        let (g, i, j) = choose|g: int, i: int, j: int| is_pair_at(shorter, g, i, j, affected, enemy);
        assert(shorter[g] == groups[g]);
        assert(longer[g] == groups[g]);
        assert(is_pair_at(longer, g, i, j, affected, enemy));
    }
    if exists|member: int, j: int| is_pair_at(groups, k, member, j, affected, enemy) {
        let (i, j) = choose|member: int, j: int| is_pair_at(groups, k, member, j, affected, enemy);
        assert(longer[k] == groups[k]);
        assert(is_pair_at(longer, k, i, j, affected, enemy));
    }
}

proof fn lemma_outcome_in_longer_prefix(
    outcome: CollisionOutcome,
    groups: Seq<Seq<MinimalDrawableDetails>>,
    k: int,
    affected: Identity,
    enemy: Identity,
)
    requires
        0 <= k < groups.len(),
        is_outcome_in_groups(outcome, groups.take(k), affected, enemy),
    ensures
        is_outcome_in_groups(outcome, groups.take(k + 1), affected, enemy),
{
    let shorter = groups.take(k);
    let longer = groups.take(k + 1);
    let (g, i, j) = choose|g: int, i: int, j: int|
        is_pair_at(shorter, g, i, j, affected, enemy) && outcome == outcome_between(
            shorter[g][i].drawable_type,
            shorter[g][j].drawable_type,
            enemy,
        );
    assert(shorter[g] == groups[g]);
    assert(longer[g] == groups[g]);
    assert(is_pair_at(longer, g, i, j, affected, enemy));
}

proof fn lemma_start_group(
    outcomes: Map<Identity, Map<Identity, CollisionOutcome>>,
    groups: Seq<Seq<MinimalDrawableDetails>>,
    k: int,
)
    requires
        0 <= k < groups.len(),
        resolves(outcomes, groups.take(k)),
    ensures
        resolves_so_far(outcomes, groups, k, 0),
{
    assert forall|affected: Identity, enemy: Identity| #[trigger]
        has_outcome(outcomes, affected, enemy) implies is_outcome_in_groups(
        outcomes[affected][enemy],
        groups.take(k + 1),
        affected,
        enemy,
    ) by {
        lemma_outcome_in_longer_prefix(outcomes[affected][enemy], groups, k, affected, enemy);
    }
}

proof fn lemma_finish_group(
    outcomes: Map<Identity, Map<Identity, CollisionOutcome>>,
    groups: Seq<Seq<MinimalDrawableDetails>>,
    k: int,
)
    requires
        0 <= k < groups.len(),
        resolves_so_far(outcomes, groups, k, groups[k].len() as int),
    ensures
        resolves(outcomes, groups.take(k + 1)),
{
    assert forall|affected: Identity, enemy: Identity|
        has_outcome(outcomes, affected, enemy) <==> pair_in_groups(
            groups.take(k + 1),
            affected,
            enemy,
        ) by {
        lemma_pair_in_longer_prefix(groups, k, affected, enemy);
        assert(has_outcome(outcomes, affected, enemy) <==> pair_so_far(
            groups,
            k,
            groups[k].len() as int,
            affected,
            enemy,
        ));
        if exists|member: int, j: int| is_pair_at(groups, k, member, j, affected, enemy) {
            let (member, j) = choose|member: int, j: int|
                is_pair_at(groups, k, member, j, affected, enemy);
            assert(member < groups[k].len() && is_pair_at(groups, k, member, j, affected, enemy));
        }
    }
}

/// A group without an enemy adds no pair.
proof fn lemma_skip_group(
    outcomes: Map<Identity, Map<Identity, CollisionOutcome>>,
    groups: Seq<Seq<MinimalDrawableDetails>>,
    k: int,
)
    requires
        0 <= k < groups.len(),
        resolves(outcomes, groups.take(k)),
        forall|j: int| 0 <= j < groups[k].len() ==> !((#[trigger] groups[k][j]).drawable_type is Enemy),
    ensures
        resolves(outcomes, groups.take(k + 1)),
{
    lemma_start_group(outcomes, groups, k);
    assert forall|affected: Identity, enemy: Identity|
        has_outcome(outcomes, affected, enemy) <==> pair_in_groups(
            groups.take(k + 1),
            affected,
            enemy,
        ) by {
        lemma_pair_in_longer_prefix(groups, k, affected, enemy);
        if exists|member: int, j: int| is_pair_at(groups, k, member, j, affected, enemy) {
            let (member, j) = choose|member: int, j: int|
                is_pair_at(groups, k, member, j, affected, enemy);
            assert(groups[k][j].drawable_type is Enemy);
        }
    }
}

/// An entity that enemies do not damage adds no pair.
proof fn lemma_skip_member(
    outcomes: Map<Identity, Map<Identity, CollisionOutcome>>,
    groups: Seq<Seq<MinimalDrawableDetails>>,
    k: int,
    i: int,
)
    requires
        0 <= k < groups.len(),
        0 <= i < groups[k].len(),
        resolves_so_far(outcomes, groups, k, i),
        !is_affected_kind(groups[k][i].drawable_type),
    ensures
        resolves_so_far(outcomes, groups, k, i + 1),
{
    assert forall|affected: Identity, enemy: Identity|
        pair_so_far(groups, k, i, affected, enemy) <==> pair_so_far(
            groups,
            k,
            i + 1,
            affected,
            enemy,
        ) by {
        if pair_so_far(groups, k, i + 1, affected, enemy) && !pair_in_groups(
            groups.take(k),
            affected,
            enemy,
        ) {
            let (member, j) = choose|member: int, j: int|
                member < i + 1 && is_pair_at(groups, k, member, j, affected, enemy);
            assert(member < i && is_pair_at(groups, k, member, j, affected, enemy));
        }
        if pair_so_far(groups, k, i, affected, enemy) && !pair_in_groups(
            groups.take(k),
            affected,
            enemy,
        ) {
            let (member, j) = choose|member: int, j: int|
                member < i && is_pair_at(groups, k, member, j, affected, enemy);
            assert(member < i + 1 && is_pair_at(groups, k, member, j, affected, enemy));
        }
    }
}

/// What `record_outcomes` adds for the entity at place `i` of group `k` is
/// what that entity's pairs ask for.
proof fn lemma_record_member(
    before: Map<Identity, Map<Identity, CollisionOutcome>>,
    after: Map<Identity, Map<Identity, CollisionOutcome>>,
    groups: Seq<Seq<MinimalDrawableDetails>>,
    k: int,
    i: int,
    enemies: Seq<MinimalDrawableDetails>,
)
    requires
        0 <= k < groups.len(),
        0 <= i < groups[k].len(),
        resolves_so_far(before, groups, k, i),
        is_affected_kind(groups[k][i].drawable_type),
        enemies.len() > 0,
        enemies == groups[k].filter(|details: MinimalDrawableDetails| details.drawable_type is Enemy),
        recorded(before, after, groups[k][i], enemies),
    ensures
        resolves_so_far(after, groups, k, i + 1),
{
    let element = groups[k][i];
    let group = groups[k];
    let is_enemy = |details: MinimalDrawableDetails| details.drawable_type is Enemy;
    let longer = groups.take(k + 1);
    assert(longer[k] == group);
    // an enemy is listed exactly if the group holds it
    assert forall|enemy: Identity|
        lists_enemy(enemies, enemy) <==> exists|j: int|
            0 <= j < group.len() && (#[trigger] group[j]).uuid == enemy
                && group[j].drawable_type is Enemy by {
        if lists_enemy(enemies, enemy) {
            let j = choose|j: int| 0 <= j < enemies.len() && (#[trigger] enemies[j]).uuid == enemy;
            group.lemma_filter_pred(is_enemy, j);
            assert(enemies.contains(enemies[j]));
            group.lemma_filter_contains_rev(is_enemy, enemies[j]);
            let place = choose|place: int| 0 <= place < group.len() && group[place] == enemies[j];
            assert(group[place].uuid == enemy && group[place].drawable_type is Enemy);
        }
        if exists|j: int|
            0 <= j < group.len() && (#[trigger] group[j]).uuid == enemy
                && group[j].drawable_type is Enemy {
            let j = choose|j: int|
                0 <= j < group.len() && (#[trigger] group[j]).uuid == enemy
                    && group[j].drawable_type is Enemy;
            group.lemma_filter_contains(is_enemy, j);
            let place = choose|place: int| 0 <= place < enemies.len() && enemies[place] == group[j];
            assert(enemies[place].uuid == enemy);
        }
    }
    assert forall|affected: Identity, enemy: Identity|
        has_outcome(after, affected, enemy) <==> pair_so_far(
            groups,
            k,
            i + 1,
            affected,
            enemy,
        ) by {
        assert(has_outcome(before, affected, enemy) <==> pair_so_far(groups, k, i, affected, enemy));
        if pair_so_far(groups, k, i, affected, enemy) && !pair_in_groups(
            groups.take(k),
            affected,
            enemy,
        ) {
            let (member, j) = choose|member: int, j: int|
                member < i && is_pair_at(groups, k, member, j, affected, enemy);
            assert(member < i + 1 && is_pair_at(groups, k, member, j, affected, enemy));
        }
        if affected == element.uuid {
            assert(after[element.uuid].contains_key(enemy) <==> (has_outcome(
                before,
                element.uuid,
                enemy,
            ) || lists_enemy(enemies, enemy)));
            if lists_enemy(enemies, enemy) {
                let j = choose|j: int|
                    0 <= j < group.len() && (#[trigger] group[j]).uuid == enemy
                        && group[j].drawable_type is Enemy;
                assert(i < i + 1 && is_pair_at(groups, k, i, j, affected, enemy));
            }
            if pair_so_far(groups, k, i + 1, affected, enemy) && !pair_so_far(
                groups,
                k,
                i,
                affected,
                enemy,
            ) {
                let (member, j) = choose|member: int, j: int|
                    member < i + 1 && is_pair_at(groups, k, member, j, affected, enemy);
                assert(group[j].uuid == enemy && group[j].drawable_type is Enemy);
                assert(lists_enemy(enemies, enemy));
            }
        } else {
            if before.contains_key(affected) {
                assert(after[affected] == before[affected]);
            }
            if pair_so_far(groups, k, i + 1, affected, enemy) && !pair_in_groups(
                groups.take(k),
                affected,
                enemy,
            ) {
                let (member, j) = choose|member: int, j: int|
                    member < i + 1 && is_pair_at(groups, k, member, j, affected, enemy);
                assert(member < i && is_pair_at(groups, k, member, j, affected, enemy));
            }
        }
    }
    assert forall|affected: Identity| #[trigger] after.contains_key(affected) implies exists|
        enemy: Identity,
    |
        after[affected].contains_key(enemy) by {
        if affected == element.uuid {
            assert(lists_enemy(enemies, enemies[0].uuid));
            assert(after[element.uuid].contains_key(enemies[0].uuid));
        } else {
            assert(before.contains_key(affected));
            assert(after[affected] == before[affected]);
            let enemy = choose|enemy: Identity| before[affected].contains_key(enemy);
            assert(after[affected].contains_key(enemy));
        }
    }
    assert forall|affected: Identity, enemy: Identity| #[trigger]
        has_outcome(after, affected, enemy) implies is_outcome_in_groups(
        after[affected][enemy],
        longer,
        affected,
        enemy,
    ) by {
        if affected != element.uuid {
            assert(before.contains_key(affected));
            assert(after[affected] == before[affected]);
            assert(has_outcome(before, affected, enemy));
        } else if has_outcome(before, affected, enemy) {
            assert(after[affected][enemy] == before[affected][enemy]);
        } else {
            assert(lists_enemy(enemies, enemy));
            let outcome = after[element.uuid][enemy];
            assert(is_outcome_with_listed(outcome, element, enemies, enemy));
            let listed = choose|listed: int|
                0 <= listed < enemies.len() && (#[trigger] enemies[listed]).uuid == enemy
                    && outcome == outcome_between(
                    element.drawable_type,
                    enemies[listed].drawable_type,
                    enemy,
                );
            group.lemma_filter_pred(is_enemy, listed);
            assert(enemies.contains(enemies[listed]));
            group.lemma_filter_contains_rev(is_enemy, enemies[listed]);
            let j = choose|j: int| 0 <= j < group.len() && group[j] == enemies[listed];
            assert(is_pair_at(longer, k, i, j, affected, enemy));
        }
    }
}

/// The enemies among a cell's occupants.
fn enemies_of(group: &Vec<MinimalDrawableDetails>) -> (enemies: Vec<MinimalDrawableDetails>)
    ensures
        enemies@ == group@.filter(|details: MinimalDrawableDetails| details.drawable_type is Enemy),
        forall|j: int| 0 <= j < enemies.len() ==> (#[trigger] enemies[j]).drawable_type is Enemy,
        enemies.len() == 0 ==> forall|j: int|
            0 <= j < group.len() ==> !((#[trigger] group[j]).drawable_type is Enemy),
{
    let ghost is_enemy = |details: MinimalDrawableDetails| details.drawable_type is Enemy;
    let mut enemies: Vec<MinimalDrawableDetails> = Vec::new();
    let mut index: usize = 0;
    proof {
        reveal(Seq::filter);
        assert(group@.take(0) =~= Seq::<MinimalDrawableDetails>::empty());
    }
    while index < group.len()
        invariant
            index <= group.len(),
            is_enemy == |details: MinimalDrawableDetails| details.drawable_type is Enemy,
            enemies@ == group@.take(index as int).filter(is_enemy),
        decreases group.len() - index,
    {
        let element = group[index];
        proof {
            reveal(Seq::filter);
            assert(group@.take(index + 1).drop_last() =~= group@.take(index as int));
            assert(group@.take(index + 1).last() == element);
        }
        match element.drawable_type {
            DrawableType::Enemy(_) => {
                enemies.push(element);
            },
            _ => {},
        }
        index = index + 1;
    }
    proof {
        assert(group@.take(group@.len() as int) =~= group@);
        assert forall|j: int| 0 <= j < enemies.len() implies (
        #[trigger] enemies[j]).drawable_type is Enemy by {
            group@.lemma_filter_pred(is_enemy, j);
        }
        if enemies.len() == 0 {
            assert forall|j: int| 0 <= j < group.len() implies !((
            #[trigger] group[j]).drawable_type is Enemy) by {
                if group[j].drawable_type is Enemy {
                    group@.lemma_filter_contains(is_enemy, j);
                }
            }
        }
    }
    enemies
}

/// Resolves every overlap group: each player or ammunition in a group gets
/// one outcome with each enemy in that group, however many groups they share.
fn resolve_groups(positions_with_overlaps: &TwoDVec<MinimalDrawableDetails>) -> (collision_outcomes:
    CollisionResults)
    ensures
        resolves(results_view(collision_outcomes), rows_of(*positions_with_overlaps)),
{
    let mut collision_outcomes: CollisionResults = HashMap::new();
    let ghost groups = rows_of(*positions_with_overlaps);
    let mut k: usize = 0;
    proof {
        assert(results_view(collision_outcomes) =~= Map::empty());
        assert(groups.take(0) =~= Seq::<Seq<MinimalDrawableDetails>>::empty());
    }
    while k < positions_with_overlaps.len()
        invariant
            k <= positions_with_overlaps.len(),
            groups == rows_of(*positions_with_overlaps),
            resolves(results_view(collision_outcomes), groups.take(k as int)),
        decreases positions_with_overlaps.len() - k,
    {
        let elements_on_position = &positions_with_overlaps[k];
        assert(groups[k as int] == elements_on_position@);
        let enemies = enemies_of(elements_on_position);
        if enemies.len() == 0 {
            proof {
                lemma_skip_group(results_view(collision_outcomes), groups, k as int);
            }
        } else {
            let mut i: usize = 0;
            proof {
                lemma_start_group(results_view(collision_outcomes), groups, k as int);
            }
            while i < elements_on_position.len()
                invariant
                    i <= elements_on_position.len(),
                    k < positions_with_overlaps.len(),
                    groups == rows_of(*positions_with_overlaps),
                    groups[k as int] == elements_on_position@,
                    enemies.len() > 0,
                    enemies@ == elements_on_position@.filter(
                        |details: MinimalDrawableDetails| details.drawable_type is Enemy,
                    ),
                    forall|j: int|
                        0 <= j < enemies.len() ==> (#[trigger] enemies[j]).drawable_type is Enemy,
                    resolves_so_far(results_view(collision_outcomes), groups, k as int, i as int),
                decreases elements_on_position.len() - i,
            {
                let element = elements_on_position[i];
                let ghost before = results_view(collision_outcomes);
                match element.drawable_type {
                    DrawableType::Player | DrawableType::Ammunition(_) => {
                        record_outcomes(&mut collision_outcomes, element, &enemies);
                        proof {
                            lemma_record_member(
                                before,
                                results_view(collision_outcomes),
                                groups,
                                k as int,
                                i as int,
                                enemies@,
                            );
                        }
                    },
                    _ => {
                        proof {
                            lemma_skip_member(before, groups, k as int, i as int);
                        }
                    },
                }
                i = i + 1;
            }
            proof {
                lemma_finish_group(results_view(collision_outcomes), groups, k as int);
            }
        }
        k = k + 1;
    }
    proof {
        assert(groups.take(groups.len() as int) =~= groups);
    }
    collision_outcomes
}

/// Whether an entity of identity `identity` covers the cell.
pub open spec fn present_at(items: Seq<&DrawableState>, identity: Identity, column: int, row: int) -> bool {
    exists|i: int|
        0 <= i < items.len() && (#[trigger] items[i]).uuid == identity && occupies(
            *items[i],
            column,
            row,
        )
}

/// The kind of the entity of identity `identity`.
pub open spec fn kind_of(items: Seq<&DrawableState>, identity: Identity) -> DrawableType {
    let i = choose|i: int| 0 <= i < items.len() && (#[trigger] items[i]).uuid == identity;
    items[i].drawable_type
}

/// Whether an identity stands for one kind of entity throughout `items`. An
/// entity may be listed more than once.
pub open spec fn consistent_identities(items: Seq<&DrawableState>) -> bool {
    forall|i: int, j: int|
        0 <= i < items.len() && 0 <= j < items.len() && (#[trigger] items[i]).uuid == (
        #[trigger] items[j]).uuid ==> items[i].drawable_type == items[j].drawable_type
}

/// Whether the entities of identity `affected` and `enemy` both cover the
/// cell at `column`, `row` of the arena.
pub open spec fn meet_at(
    items: Seq<&DrawableState>,
    dimensions: Point,
    affected: Identity,
    enemy: Identity,
    column: int,
    row: int,
) -> bool {
    in_arena(dimensions, column, row) && present_at(items, affected, column, row) && present_at(
        items,
        enemy,
        column,
        row,
    )
}

/// Whether `affected` is a player or ammunition, `enemy` an enemy, and the
/// two share a cell of the arena.
pub open spec fn collide(
    items: Seq<&DrawableState>,
    dimensions: Point,
    affected: Identity,
    enemy: Identity,
) -> bool {
    &&& is_affected_kind(kind_of(items, affected))
    &&& kind_of(items, enemy) is Enemy
    &&& exists|column: int, row: int| meet_at(items, dimensions, affected, enemy, column, row)
}

/// The outcomes of a frame: one for each player or ammunition and each enemy
/// that share at least one cell of the arena, under the identity of the
/// first and then that of the enemy.
pub open spec fn frame_outcomes(items: Seq<&DrawableState>, dimensions: Point) -> Map<
    Identity,
    Map<Identity, CollisionOutcome>,
> {
    Map::new(
        |affected: Identity| exists|enemy: Identity| collide(items, dimensions, affected, enemy),
        |affected: Identity|
            Map::new(
                |enemy: Identity| collide(items, dimensions, affected, enemy),
                |enemy: Identity|
                    outcome_between(kind_of(items, affected), kind_of(items, enemy), enemy),
            ),
    )
}

/// Every overlap group of the first `rows` rows holds the occupants of one
/// cell of those rows.
proof fn lemma_group_is_cell(items: Seq<&DrawableState>, dimensions: Point, rows: int, k: int)
    requires
        0 <= k < overlap_groups_of_rows(items, dimensions, rows).len(),
    ensures
        exists|column: int, row: int|
            0 <= row < rows && 0 <= column < dimensions.width && #[trigger] occupants(
                items,
                column,
                row,
            ) == overlap_groups_of_rows(items, dimensions, rows)[k],
    decreases rows,
{
    let meet = |group: Seq<MinimalDrawableDetails>| is_overlap_group(group);
    let earlier = overlap_groups_of_rows(items, dimensions, rows - 1);
    let cells = cells_of_row(items, dimensions, rows - 1);
    let last = overlap_groups_of_row(items, dimensions, rows - 1);
    if k < earlier.len() {
        lemma_group_is_cell(items, dimensions, rows - 1, k);
        let (column, row) = choose|column: int, row: int|
            0 <= row < rows - 1 && 0 <= column < dimensions.width && #[trigger] occupants(
                items,
                column,
                row,
            ) == earlier[k];
        assert(0 <= row < rows && occupants(items, column, row) == overlap_groups_of_rows(
            items,
            dimensions,
            rows,
        )[k]);
    } else {
        let group = last[k - earlier.len()];
        assert(last.contains(group));
        cells.lemma_filter_contains_rev(meet, group);
        let column = choose|column: int| 0 <= column < cells.len() && cells[column] == group;
        assert(occupants(items, column, rows - 1) == group);
    }
}

/// A cell of the first `rows` rows on which two identities meet is one of
/// the overlap groups of those rows.
proof fn lemma_cell_is_group(
    items: Seq<&DrawableState>,
    dimensions: Point,
    rows: int,
    column: int,
    row: int,
)
    requires
        0 <= row < rows,
        0 <= column < dimensions.width,
        is_overlap_group(occupants(items, column, row)),
    ensures
        exists|k: int|
            0 <= k < overlap_groups_of_rows(items, dimensions, rows).len() && #[trigger] overlap_groups_of_rows(
                items,
                dimensions,
                rows,
            )[k] == occupants(items, column, row),
    decreases rows,
{
    let meet = |group: Seq<MinimalDrawableDetails>| is_overlap_group(group);
    let earlier = overlap_groups_of_rows(items, dimensions, rows - 1);
    let cells = cells_of_row(items, dimensions, rows - 1);
    let last = overlap_groups_of_row(items, dimensions, rows - 1);
    let all = overlap_groups_of_rows(items, dimensions, rows);
    if row < rows - 1 {
        lemma_cell_is_group(items, dimensions, rows - 1, column, row);
        let k = choose|k: int|
            0 <= k < earlier.len() && #[trigger] earlier[k] == occupants(items, column, row);
        assert(all[k] == occupants(items, column, row));
    } else {
        assert(cells[column] == occupants(items, column, row));
        cells.lemma_filter_contains(meet, column);
        let place = choose|place: int| 0 <= place < last.len() && last[place] == cells[column];
        assert(all[earlier.len() + place] == occupants(items, column, row));
    }
}

/// Each occupant of a cell is an entity that covers it.
proof fn lemma_occupant_is_item(items: Seq<&DrawableState>, column: int, row: int, place: int)
    requires
        0 <= place < occupants(items, column, row).len(),
    ensures
        exists|i: int|
            0 <= i < items.len() && occupies(*items[i], column, row) && details_of(
                *#[trigger] items[i],
            ) == occupants(items, column, row)[place],
{
    let covers = |state: &DrawableState| occupies(*state, column, row);
    let covering = items.filter(covers);
    items.lemma_filter_pred(covers, place);
    assert(covering.contains(covering[place]));
    items.lemma_filter_contains_rev(covers, covering[place]);
    let i = choose|i: int| 0 <= i < items.len() && items[i] == covering[place];
    assert(details_of(*items[i]) == occupants(items, column, row)[place]);
}

/// Each entity that covers a cell is among its occupants.
proof fn lemma_item_is_occupant(items: Seq<&DrawableState>, column: int, row: int, i: int)
    requires
        0 <= i < items.len(),
        occupies(*items[i], column, row),
    ensures
        exists|place: int|
            0 <= place < occupants(items, column, row).len() && #[trigger] occupants(
                items,
                column,
                row,
            )[place] == details_of(*items[i]),
{
    let covers = |state: &DrawableState| occupies(*state, column, row);
    let covering = items.filter(covers);
    items.lemma_filter_contains(covers, i);
    let place = choose|place: int| 0 <= place < covering.len() && covering[place] == items[i];
    assert(occupants(items, column, row)[place] == details_of(*items[i]));
}

/// Where an identity stands for one kind, every entity of that identity has
/// the kind `kind_of` names.
proof fn lemma_kind_of(items: Seq<&DrawableState>, i: int)
    requires
        consistent_identities(items),
        0 <= i < items.len(),
    ensures
        kind_of(items, items[i].uuid) == items[i].drawable_type,
{
    let chosen = choose|chosen: int|
        0 <= chosen < items.len() && (#[trigger] items[chosen]).uuid == items[i].uuid;
    assert(items[chosen].uuid == items[i].uuid);
}

/// A pair in an overlap group is a pair of entities that collide, and the
/// kinds that the group gives are the kinds of those entities.
proof fn lemma_pair_collides(
    items: Seq<&DrawableState>,
    dimensions: Point,
    k: int,
    i: int,
    j: int,
    affected: Identity,
    enemy: Identity,
)
    requires
        consistent_identities(items),
        is_pair_at(overlap_groups(items, dimensions), k, i, j, affected, enemy),
    ensures
        collide(items, dimensions, affected, enemy),
        overlap_groups(items, dimensions)[k][i].drawable_type == kind_of(items, affected),
        overlap_groups(items, dimensions)[k][j].drawable_type == kind_of(items, enemy),
{
    let groups = overlap_groups(items, dimensions);
    lemma_group_is_cell(items, dimensions, dimensions.height as int, k);
    let (column, row) = choose|column: int, row: int|
        0 <= row < dimensions.height && 0 <= column < dimensions.width && #[trigger] occupants(
            items,
            column,
            row,
        ) == groups[k];
    lemma_occupant_is_item(items, column, row, i);
    let first = choose|first: int|
        0 <= first < items.len() && occupies(*items[first], column, row) && details_of(
            *#[trigger] items[first],
        ) == occupants(items, column, row)[i];
    lemma_occupant_is_item(items, column, row, j);
    let second = choose|second: int|
        0 <= second < items.len() && occupies(*items[second], column, row) && details_of(
            *#[trigger] items[second],
        ) == occupants(items, column, row)[j];
    lemma_kind_of(items, first);
    lemma_kind_of(items, second);
    assert(items[first].uuid == affected);
    assert(items[second].uuid == enemy);
    assert(present_at(items, affected, column, row));
    assert(present_at(items, enemy, column, row));
    assert(meet_at(items, dimensions, affected, enemy, column, row));
}

/// Entities that collide are a pair in an overlap group.
proof fn lemma_collision_is_pair(
    items: Seq<&DrawableState>,
    dimensions: Point,
    affected: Identity,
    enemy: Identity,
)
    requires
        consistent_identities(items),
        collide(items, dimensions, affected, enemy),
    ensures
        pair_in_groups(overlap_groups(items, dimensions), affected, enemy),
{
    let groups = overlap_groups(items, dimensions);
    let (column, row) = choose|column: int, row: int|
        meet_at(items, dimensions, affected, enemy, column, row);
    let first = choose|first: int|
        0 <= first < items.len() && (#[trigger] items[first]).uuid == affected && occupies(
            *items[first],
            column,
            row,
        );
    let second = choose|second: int|
        0 <= second < items.len() && (#[trigger] items[second]).uuid == enemy && occupies(
            *items[second],
            column,
            row,
        );
    lemma_kind_of(items, first);
    lemma_kind_of(items, second);
    lemma_item_is_occupant(items, column, row, first);
    lemma_item_is_occupant(items, column, row, second);
    let cell = occupants(items, column, row);
    let i = choose|i: int| 0 <= i < cell.len() && #[trigger] cell[i] == details_of(*items[first]);
    let j = choose|j: int| 0 <= j < cell.len() && #[trigger] cell[j] == details_of(*items[second]);
    assert(cell[i].uuid != cell[j].uuid);
    assert(is_overlap_group(cell));
    lemma_cell_is_group(items, dimensions, dimensions.height as int, column, row);
    let k = choose|k: int| 0 <= k < groups.len() && #[trigger] groups[k] == cell;
    assert(is_pair_at(groups, k, i, j, affected, enemy));
}

/// What resolves the overlap groups of a frame is the frame's outcomes.
proof fn lemma_resolved_groups_are_outcomes(
    outcomes: Map<Identity, Map<Identity, CollisionOutcome>>,
    items: Seq<&DrawableState>,
    dimensions: Point,
)
    requires
        consistent_identities(items),
        resolves(outcomes, overlap_groups(items, dimensions)),
    ensures
        outcomes == frame_outcomes(items, dimensions),
{
    let groups = overlap_groups(items, dimensions);
    let expected = frame_outcomes(items, dimensions);
    assert forall|affected: Identity, enemy: Identity|
        has_outcome(outcomes, affected, enemy) <==> collide(
            items,
            dimensions,
            affected,
            enemy,
        ) by {
        if has_outcome(outcomes, affected, enemy) {
            assert(pair_in_groups(groups, affected, enemy));
            let (k, i, j) = choose|k: int, i: int, j: int|
                is_pair_at(groups, k, i, j, affected, enemy);
            lemma_pair_collides(items, dimensions, k, i, j, affected, enemy);
        }
        if collide(items, dimensions, affected, enemy) {
            lemma_collision_is_pair(items, dimensions, affected, enemy);
        }
    }
    assert forall|affected: Identity| outcomes.contains_key(affected) <==> expected.contains_key(
        affected,
    ) by {
        if outcomes.contains_key(affected) {
            let enemy = choose|enemy: Identity| outcomes[affected].contains_key(enemy);
            assert(has_outcome(outcomes, affected, enemy));
            assert(collide(items, dimensions, affected, enemy));
        }
        if expected.contains_key(affected) {
            let enemy = choose|enemy: Identity| collide(items, dimensions, affected, enemy);
            assert(has_outcome(outcomes, affected, enemy));
        }
    }
    assert forall|affected: Identity| #[trigger] outcomes.contains_key(affected) implies outcomes[affected]
        =~= expected[affected] by {
        assert forall|enemy: Identity| outcomes[affected].contains_key(enemy) implies #[trigger] outcomes[affected][enemy]
            == expected[affected][enemy] by {
            assert(has_outcome(outcomes, affected, enemy));
            let (k, i, j) = choose|k: int, i: int, j: int|
                is_pair_at(groups, k, i, j, affected, enemy) && outcomes[affected][enemy]
                    == outcome_between(
                    groups[k][i].drawable_type,
                    groups[k][j].drawable_type,
                    enemy,
                );
            lemma_pair_collides(items, dimensions, k, i, j, affected, enemy);
        }
        assert forall|enemy: Identity|
            outcomes[affected].contains_key(enemy) <==> expected[affected].contains_key(enemy) by {
            assert(has_outcome(outcomes, affected, enemy) <==> collide(
                items,
                dimensions,
                affected,
                enemy,
            ));
        }
    }
    assert(outcomes =~= expected);
}

/// Whatever the identities are, what resolves the overlap groups of a frame
/// holds outcomes between listed entities only: the affected entity is a
/// listed player or ammunition, the enemy a listed enemy, and the outcome
/// names that enemy.
pub proof fn lemma_resolved_outcomes_are_between_items(
    outcomes: Map<Identity, Map<Identity, CollisionOutcome>>,
    items: Seq<&DrawableState>,
    dimensions: Point,
    affected: Identity,
    enemy: Identity,
)
    requires
        resolves(outcomes, overlap_groups(items, dimensions)),
        has_outcome(outcomes, affected, enemy),
    ensures
        exists|i: int|
            0 <= i < items.len() && (#[trigger] items[i]).uuid == affected && is_affected_kind(
                items[i].drawable_type,
            ),
        exists|j: int|
            0 <= j < items.len() && (#[trigger] items[j]).uuid == enemy
                && items[j].drawable_type is Enemy,
        outcomes[affected][enemy].asteroid_uuid == enemy,
{
    let groups = overlap_groups(items, dimensions);
    let (k, i, j) = choose|k: int, i: int, j: int|
        is_pair_at(groups, k, i, j, affected, enemy) && outcomes[affected][enemy]
            == outcome_between(groups[k][i].drawable_type, groups[k][j].drawable_type, enemy);
    lemma_group_is_cell(items, dimensions, dimensions.height as int, k);
    let (column, row) = choose|column: int, row: int|
        0 <= row < dimensions.height && 0 <= column < dimensions.width && #[trigger] occupants(
            items,
            column,
            row,
        ) == groups[k];
    lemma_occupant_is_item(items, column, row, i);
    let first = choose|first: int|
        0 <= first < items.len() && occupies(*items[first], column, row) && details_of(
            *#[trigger] items[first],
        ) == occupants(items, column, row)[i];
    lemma_occupant_is_item(items, column, row, j);
    let second = choose|second: int|
        0 <= second < items.len() && occupies(*items[second], column, row) && details_of(
            *#[trigger] items[second],
        ) == occupants(items, column, row)[j];
    assert(items[first].uuid == affected);
    assert(items[second].uuid == enemy);
}

/// Finds what the entities of a frame do to each other. A player or a piece
/// of ammunition and an enemy collide where their shapes share a cell of the
/// arena; each such pair gets one outcome, however many cells it shares.
/// Players and ammunition never damage each other, nor do enemies.
///
/// `drawable_items` may list an entity more than once. What comes back is
/// told for lists in which an identity stands for one kind of entity.
pub fn run_collision_detection(drawable_items: Vec<&DrawableState>, dimensions: &Point) -> (results:
    CollisionResults)
    requires
        dimensions.width <= usize::MAX,
        dimensions.height <= usize::MAX,
    ensures
        consistent_identities(drawable_items@) ==> results_view(results) == frame_outcomes(
            drawable_items@,
            *dimensions,
        ),
        resolves(results_view(results), overlap_groups(drawable_items@, *dimensions)),
{
    let ghost items = drawable_items@;
    let positions_with_overlaps = get_positions_with_overlaps(drawable_items, dimensions);
    let collision_outcomes = resolve_groups(&positions_with_overlaps);
    proof {
        if consistent_identities(items) {
            lemma_resolved_groups_are_outcomes(results_view(collision_outcomes), items, *dimensions);
        }
    }
    collision_outcomes
}

/// Entities that share several cells still have one outcome, and it is the
/// outcome of a single collision.
pub proof fn lemma_shared_cells_give_one_outcome(
    items: Seq<&DrawableState>,
    dimensions: Point,
    affected: Identity,
    enemy: Identity,
    first_column: int,
    first_row: int,
    second_column: int,
    second_row: int,
)
    requires
        is_affected_kind(kind_of(items, affected)),
        kind_of(items, enemy) is Enemy,
        meet_at(items, dimensions, affected, enemy, first_column, first_row),
        meet_at(items, dimensions, affected, enemy, second_column, second_row),
    ensures
        has_outcome(frame_outcomes(items, dimensions), affected, enemy),
        frame_outcomes(items, dimensions)[affected][enemy] == outcome_between(
            kind_of(items, affected),
            kind_of(items, enemy),
            enemy,
        ),
{
    assert(collide(items, dimensions, affected, enemy));
}

/// Entities that share no cell of the arena have no outcome with each other.
pub proof fn lemma_apart_means_no_outcome(
    items: Seq<&DrawableState>,
    dimensions: Point,
    first: Identity,
    second: Identity,
)
    requires
        forall|column: int, row: int|
            !(in_arena(dimensions, column, row) && #[trigger] present_at(items, first, column, row)
                && present_at(items, second, column, row)),
    ensures
        !has_outcome(frame_outcomes(items, dimensions), first, second),
        !has_outcome(frame_outcomes(items, dimensions), second, first),
{
    if collide(items, dimensions, first, second) {
        let (column, row) = choose|column: int, row: int|
            meet_at(items, dimensions, first, second, column, row);
        assert(present_at(items, first, column, row));
    }
    if collide(items, dimensions, second, first) {
        let (column, row) = choose|column: int, row: int|
            meet_at(items, dimensions, second, first, column, row);
        assert(present_at(items, first, column, row));
    }
}

/// The player and ammunition have no outcome with each other, wherever they
/// are and whatever else they overlap.
pub proof fn lemma_no_friendly_fire(
    items: Seq<&DrawableState>,
    dimensions: Point,
    first: Identity,
    second: Identity,
)
    requires
        is_affected_kind(kind_of(items, first)),
        is_affected_kind(kind_of(items, second)),
    ensures
        !has_outcome(frame_outcomes(items, dimensions), first, second),
        !has_outcome(frame_outcomes(items, dimensions), second, first),
{
}

/// Enemies have no outcome with each other, wherever they are.
pub proof fn lemma_enemies_do_not_collide(
    items: Seq<&DrawableState>,
    dimensions: Point,
    first: Identity,
    second: Identity,
)
    requires
        kind_of(items, first) is Enemy,
        kind_of(items, second) is Enemy,
    ensures
        !has_outcome(frame_outcomes(items, dimensions), first, second),
        !has_outcome(frame_outcomes(items, dimensions), second, first),
{
}

/// The damage that one entity takes in a frame.
#[derive(Debug, Clone, Copy, PartialEq, Eq, Structural)]
pub struct Summary {
    pub uuid: Identity,
    pub damage: u32,
}

/// Identity of an entity, then the damage that a frame does to it.
pub type CollisionSummary = HashMap<Identity, Summary>;

/// The damage that `collision_summary` holds for `uuid` so far.
pub open spec fn damage_so_far(collision_summary: Map<Identity, Summary>, uuid: Identity) -> nat {
    if collision_summary.contains_key(uuid) {
        collision_summary[uuid].damage as nat
    } else {
        0
    }
}

/// Adds `damage` to what the summary holds for `uuid`, starting an entry
/// where there is none.
pub fn apply_damage_to_uuid(collision_summary: &mut CollisionSummary, uuid: Identity, damage: u32)
    requires
        damage_so_far(old(collision_summary)@, uuid) + damage <= u32::MAX,
    ensures
        final(collision_summary)@ == old(collision_summary)@.insert(
            uuid,
            if old(collision_summary)@.contains_key(uuid) {
                Summary {
                    uuid: old(collision_summary)@[uuid].uuid,
                    damage: (old(collision_summary)@[uuid].damage + damage) as u32,
                }
            } else {
                Summary { uuid, damage }
            },
        ),
{
    broadcast use vstd::std_specs::hash::group_hash_axioms;

    let updated = match collision_summary.get(&uuid) {
        Some(item) => Summary { uuid: item.uuid, damage: item.damage + damage },
        None => Summary { uuid, damage },
    };
    collision_summary.insert(uuid, updated);
}

/// How much of an outcome falls on `identity`: the damage to the affected
/// entity where `identity` is that entity, and the damage to the enemy where
/// `identity` is the enemy the outcome names.
pub open spec fn contribution(affected: Identity, outcome: CollisionOutcome, identity: Identity) -> nat {
    (if affected == identity {
        outcome.affected_damage as nat
    } else {
        0
    }) + (if outcome.asteroid_uuid == identity {
        outcome.enemy_damage as nat
    } else {
        0
    })
}

/// How much of each of the outcomes of `affected` falls on `identity`.
pub open spec fn contribution_of_enemy(
    affected: Identity,
    collisions: Map<Identity, CollisionOutcome>,
    identity: Identity,
) -> spec_fn(Identity) -> nat {
    |enemy: Identity| contribution(affected, collisions[enemy], identity)
}

/// How much of the outcomes of `affected` falls on `identity`.
pub open spec fn damage_in(
    affected: Identity,
    collisions: Map<Identity, CollisionOutcome>,
    identity: Identity,
) -> nat {
    sum_over(collisions.dom(), contribution_of_enemy(affected, collisions, identity))
}

/// How much of the outcomes of each affected entity falls on `identity`.
pub open spec fn damage_of_affected(
    outcomes: Map<Identity, Map<Identity, CollisionOutcome>>,
    identity: Identity,
) -> spec_fn(Identity) -> nat {
    |affected: Identity| damage_in(affected, outcomes[affected], identity)
}

/// The damage that the outcomes of a frame do to `identity`, all told.
pub open spec fn total_damage(
    outcomes: Map<Identity, Map<Identity, CollisionOutcome>>,
    identity: Identity,
) -> nat {
    sum_over(outcomes.dom(), damage_of_affected(outcomes, identity))
}

/// Whether an outcome of `affected` has `identity` as its affected entity or
/// as its enemy.
pub open spec fn involves(affected: Identity, outcome: CollisionOutcome, identity: Identity) -> bool {
    affected == identity || outcome.asteroid_uuid == identity
}

/// Whether some outcome has `identity` as its affected entity or as its enemy.
pub open spec fn is_involved(
    outcomes: Map<Identity, Map<Identity, CollisionOutcome>>,
    identity: Identity,
) -> bool {
    exists|affected: Identity, enemy: Identity|
        has_outcome(outcomes, affected, enemy) && #[trigger] involves(
            affected,
            outcomes[affected][enemy],
            identity,
        )
}

/// Whether the damage to each entity can be held in a `u32`.
pub open spec fn summary_fits(outcomes: Map<Identity, Map<Identity, CollisionOutcome>>) -> bool {
    forall|identity: Identity| #[trigger] total_damage(outcomes, identity) <= u32::MAX
}

/// The summary of a frame: for each entity that an outcome involves, the
/// damage that all outcomes together do to it.
pub open spec fn frame_summary(outcomes: Map<Identity, Map<Identity, CollisionOutcome>>) -> Map<
    Identity,
    Summary,
> {
    Map::new(
        |identity: Identity| is_involved(outcomes, identity),
        |identity: Identity|
            Summary { uuid: identity, damage: total_damage(outcomes, identity) as u32 },
    )
}

/// `damage`, but no more than a `u32` can hold.
pub open spec fn capped(damage: nat) -> nat {
    if damage > u32::MAX {
        u32::MAX as nat
    } else {
        damage
    }
}

/// The summary of a frame in which the damage to each entity is capped at
/// what a `u32` can hold. Health is a `u32` too, so the capped damage leaves
/// an entity with the health that the whole damage would leave it with.
pub open spec fn capped_summary(outcomes: Map<Identity, Map<Identity, CollisionOutcome>>) -> Map<
    Identity,
    Summary,
> {
    Map::new(
        |identity: Identity| is_involved(outcomes, identity),
        |identity: Identity|
            Summary { uuid: identity, damage: capped(total_damage(outcomes, identity)) as u32 },
    )
}

/// Whether one of the outcomes of the listed affected entities involves
/// `identity`.
spec fn involved_among(
    outcomes: Map<Identity, Map<Identity, CollisionOutcome>>,
    affected_keys: Seq<Identity>,
    identity: Identity,
) -> bool {
    exists|place: int, enemy: Identity|
        0 <= place < affected_keys.len() && has_outcome(outcomes, affected_keys[place], enemy)
            && #[trigger] involves(
            affected_keys[place],
            outcomes[affected_keys[place]][enemy],
            identity,
        )
}

/// Whether one of the outcomes of `affected` with the listed enemies involves
/// `identity`.
spec fn involved_with(
    affected: Identity,
    collisions: Map<Identity, CollisionOutcome>,
    enemy_keys: Seq<Identity>,
    identity: Identity,
) -> bool {
    exists|place: int|
        0 <= place < enemy_keys.len() && #[trigger] involves(
            affected,
            collisions[enemy_keys[place]],
            identity,
        )
}

/// The damage to `identity` from the outcomes of the first `count` affected
/// entities and from those of `affected` with the first `enemy_count` enemies.
spec fn damage_up_to(
    outcomes: Map<Identity, Map<Identity, CollisionOutcome>>,
    affected_keys: Seq<Identity>,
    count: int,
    enemy_keys: Seq<Identity>,
    enemy_count: int,
    identity: Identity,
) -> nat {
    sum_of(affected_keys.take(count), damage_of_affected(outcomes, identity)) + sum_of(
        enemy_keys.take(enemy_count),
        contribution_of_enemy(affected_keys[count], outcomes[affected_keys[count]], identity),
    )
}

/// Whether the summary holds what the outcomes gone through so far ask for.
spec fn summarizes_up_to(
    summary: Map<Identity, Summary>,
    outcomes: Map<Identity, Map<Identity, CollisionOutcome>>,
    affected_keys: Seq<Identity>,
    count: int,
    enemy_keys: Seq<Identity>,
    enemy_count: int,
) -> bool {
    &&& forall|identity: Identity| #[trigger]
        damage_so_far(summary, identity) == capped(
            damage_up_to(outcomes, affected_keys, count, enemy_keys, enemy_count, identity),
        )
    &&& forall|identity: Identity| #[trigger]
        summary.contains_key(identity) <==> (involved_among(
            outcomes,
            affected_keys.take(count),
            identity,
        ) || involved_with(
            affected_keys[count],
            outcomes[affected_keys[count]],
            enemy_keys.take(enemy_count),
            identity,
        ))
    &&& forall|identity: Identity| #[trigger]
        summary.contains_key(identity) ==> summary[identity].uuid == identity
}

/// Whether the summary holds what the outcomes of the first `count` affected
/// entities ask for.
spec fn summarizes(
    summary: Map<Identity, Summary>,
    outcomes: Map<Identity, Map<Identity, CollisionOutcome>>,
    affected_keys: Seq<Identity>,
    count: int,
) -> bool {
    &&& forall|identity: Identity| #[trigger]
        damage_so_far(summary, identity) == capped(
            sum_of(affected_keys.take(count), damage_of_affected(outcomes, identity)),
        )
    &&& forall|identity: Identity| #[trigger]
        summary.contains_key(identity) <==> involved_among(
            outcomes,
            affected_keys.take(count),
            identity,
        )
    &&& forall|identity: Identity| #[trigger]
        summary.contains_key(identity) ==> summary[identity].uuid == identity
}

proof fn lemma_start_affected(
    summary: Map<Identity, Summary>,
    outcomes: Map<Identity, Map<Identity, CollisionOutcome>>,
    affected_keys: Seq<Identity>,
    count: int,
    enemy_keys: Seq<Identity>,
)
    requires
        0 <= count < affected_keys.len(),
        summarizes(summary, outcomes, affected_keys, count),
    ensures
        summarizes_up_to(summary, outcomes, affected_keys, count, enemy_keys, 0),
{
    assert(enemy_keys.take(0) =~= Seq::<Identity>::empty());
}

proof fn lemma_finish_affected(
    summary: Map<Identity, Summary>,
    outcomes: Map<Identity, Map<Identity, CollisionOutcome>>,
    affected_keys: Seq<Identity>,
    count: int,
    enemy_keys: Seq<Identity>,
)
    requires
        0 <= count < affected_keys.len(),
        outcomes.contains_key(affected_keys[count]),
        enemy_keys.no_duplicates(),
        enemy_keys.to_set() == outcomes[affected_keys[count]].dom(),
        summarizes_up_to(
            summary,
            outcomes,
            affected_keys,
            count,
            enemy_keys,
            enemy_keys.len() as int,
        ),
    ensures
        summarizes(summary, outcomes, affected_keys, count + 1),
{
    let affected = affected_keys[count];
    let collisions = outcomes[affected];
    let listed = affected_keys.take(count);
    let listed_now = affected_keys.take(count + 1);
    assert(enemy_keys.take(enemy_keys.len() as int) =~= enemy_keys);
    assert forall|identity: Identity| #[trigger]
        damage_so_far(summary, identity) == capped(
            sum_of(listed_now, damage_of_affected(outcomes, identity)),
        ) by {
        let of_enemy = contribution_of_enemy(affected, collisions, identity);
        lemma_sum_over_listing(enemy_keys, of_enemy);
        lemma_sum_of_next(affected_keys, count, damage_of_affected(outcomes, identity));
        assert(damage_so_far(summary, identity) == capped(
            damage_up_to(
                outcomes,
                affected_keys,
                count,
                enemy_keys,
                enemy_keys.len() as int,
                identity,
            ),
        ));
    }
    assert forall|identity: Identity| #[trigger]
        summary.contains_key(identity) <==> involved_among(outcomes, listed_now, identity) by {
        if involved_among(outcomes, listed, identity) {
            let (place, enemy) = choose|place: int, enemy: Identity|
                0 <= place < listed.len() && has_outcome(outcomes, listed[place], enemy)
                    && #[trigger] involves(listed[place], outcomes[listed[place]][enemy], identity);
            assert(listed_now[place] == listed[place]);
            assert(involves(listed_now[place], outcomes[listed_now[place]][enemy], identity));
        }
        if involved_with(affected, collisions, enemy_keys, identity) {
            let place = choose|place: int|
                0 <= place < enemy_keys.len() && #[trigger] involves(
                    affected,
                    collisions[enemy_keys[place]],
                    identity,
                );
            assert(enemy_keys.to_set().contains(enemy_keys[place]));
            assert(listed_now[count] == affected);
            assert(has_outcome(outcomes, listed_now[count], enemy_keys[place]));
            assert(involves(
                listed_now[count],
                outcomes[listed_now[count]][enemy_keys[place]],
                identity,
            ));
        }
        if involved_among(outcomes, listed_now, identity) {
            let (place, enemy) = choose|place: int, enemy: Identity|
                0 <= place < listed_now.len() && has_outcome(outcomes, listed_now[place], enemy)
                    && #[trigger] involves(
                    listed_now[place],
                    outcomes[listed_now[place]][enemy],
                    identity,
                );
            if place < count {
                assert(listed[place] == listed_now[place]);
                assert(involves(listed[place], outcomes[listed[place]][enemy], identity));
            } else {
                assert(enemy_keys.to_set().contains(enemy));
                let enemy_place = choose|enemy_place: int|
                    0 <= enemy_place < enemy_keys.len() && enemy_keys[enemy_place] == enemy;
                assert(involves(affected, collisions[enemy_keys[enemy_place]], identity));
            }
        }
    }
}

/// What the next outcome adds to what has been added up.
proof fn lemma_next_outcome_adds(
    outcomes: Map<Identity, Map<Identity, CollisionOutcome>>,
    affected_keys: Seq<Identity>,
    count: int,
    enemy_keys: Seq<Identity>,
    enemy_count: int,
    identity: Identity,
)
    requires
        0 <= count < affected_keys.len(),
        0 <= enemy_count < enemy_keys.len(),
    ensures
        damage_up_to(outcomes, affected_keys, count, enemy_keys, enemy_count + 1, identity)
            == damage_up_to(outcomes, affected_keys, count, enemy_keys, enemy_count, identity)
            + contribution(
            affected_keys[count],
            outcomes[affected_keys[count]][enemy_keys[enemy_count]],
            identity,
        ),
{
    let affected = affected_keys[count];
    let of_enemy = contribution_of_enemy(affected, outcomes[affected], identity);
    lemma_sum_of_next(enemy_keys, enemy_count, of_enemy);
}

/// Adds `damage` to what the summary holds for `uuid`, up to what a `u32`
/// can hold.
fn add_capped_damage(collision_summary: &mut CollisionSummary, uuid: Identity, damage: u32)
    ensures
        final(collision_summary)@ == old(collision_summary)@.insert(
            uuid,
            Summary {
                uuid: if old(collision_summary)@.contains_key(uuid) {
                    old(collision_summary)@[uuid].uuid
                } else {
                    uuid
                },
                damage: capped(damage_so_far(old(collision_summary)@, uuid) + damage as nat) as u32,
            },
        ),
{
    broadcast use vstd::std_specs::hash::group_hash_axioms;

    let current = match collision_summary.get(&uuid) {
        Some(item) => Some(*item),
        None => None,
    };
    match current {
        Some(item) if damage > u32::MAX - item.damage => {
            collision_summary.insert(uuid, Summary { uuid: item.uuid, damage: u32::MAX });
        },
        _ => {
            apply_damage_to_uuid(collision_summary, uuid, damage);
        },
    }
}

/// Adds up, for each entity that an outcome involves, the damage of all
/// outcomes, up to what a `u32` can hold.
pub fn get_capped_collision_summary(collision_results: &CollisionResults) -> (summary:
    CollisionSummary)
    ensures
        summary@ == capped_summary(results_view(*collision_results)),
{
    broadcast use vstd::std_specs::hash::group_hash_axioms;

    let ghost outcomes = results_view(*collision_results);
    let mut collision_summary: CollisionSummary = HashMap::new();
    let affected_keys = keys_of(collision_results);
    let mut count: usize = 0;
    proof {
        assert(outcomes.dom() =~= collision_results@.dom());
        assert(affected_keys@.take(0) =~= Seq::<Identity>::empty());
    }
    while count < affected_keys.len()
        invariant
            count <= affected_keys.len(),
            outcomes == results_view(*collision_results),
            affected_keys@.no_duplicates(),
            affected_keys@.to_set() == outcomes.dom(),
            summarizes(collision_summary@, outcomes, affected_keys@, count as int),
        decreases affected_keys.len() - count,
    {
        let uuid = affected_keys[count];
        assert(affected_keys@.to_set().contains(uuid));
        let found = collision_results.get(&uuid);
        assert(found is Some);
        let element_collisions = found.unwrap();
        assert(element_collisions@ == outcomes[uuid]);
        let enemy_keys = keys_of(element_collisions);
        let mut enemy_count: usize = 0;
        proof {
            lemma_start_affected(
                collision_summary@,
                outcomes,
                affected_keys@,
                count as int,
                enemy_keys@,
            );
        }
        while enemy_count < enemy_keys.len()
            invariant
                count < affected_keys.len(),
                enemy_count <= enemy_keys.len(),
                uuid == affected_keys[count as int],
                outcomes == results_view(*collision_results),
                outcomes.contains_key(uuid),
                element_collisions@ == outcomes[uuid],
                affected_keys@.no_duplicates(),
                affected_keys@.to_set() == outcomes.dom(),
                enemy_keys@.no_duplicates(),
                enemy_keys@.to_set() == outcomes[uuid].dom(),
                summarizes_up_to(
                    collision_summary@,
                    outcomes,
                    affected_keys@,
                    count as int,
                    enemy_keys@,
                    enemy_count as int,
                ),
            decreases enemy_keys.len() - enemy_count,
        {
            let enemy = enemy_keys[enemy_count];
            assert(enemy_keys@.to_set().contains(enemy));
            let outcome_found = element_collisions.get(&enemy);
            assert(outcome_found is Some);
            let asteroid_collision = *outcome_found.unwrap();
            let ghost before = collision_summary@;
            add_capped_damage(&mut collision_summary, uuid, asteroid_collision.affected_damage);
            let ghost between = collision_summary@;
            add_capped_damage(
                &mut collision_summary,
                asteroid_collision.asteroid_uuid,
                asteroid_collision.enemy_damage,
            );
            proof {
                let after = collision_summary@;
                let listed = enemy_keys@.take(enemy_count as int);
                let listed_now = enemy_keys@.take(enemy_count + 1);
                assert forall|identity: Identity| #[trigger]
                    damage_so_far(after, identity) == capped(
                        damage_up_to(
                            outcomes,
                            affected_keys@,
                            count as int,
                            enemy_keys@,
                            enemy_count + 1,
                            identity,
                        ),
                    ) by {
                    lemma_next_outcome_adds(
                        outcomes,
                        affected_keys@,
                        count as int,
                        enemy_keys@,
                        enemy_count as int,
                        identity,
                    );
                    assert(damage_so_far(before, identity) == capped(
                        damage_up_to(
                            outcomes,
                            affected_keys@,
                            count as int,
                            enemy_keys@,
                            enemy_count as int,
                            identity,
                        ),
                    ));
                    assert(damage_so_far(between, identity) == if identity == uuid {
                        capped(
                            damage_so_far(before, identity)
                                + asteroid_collision.affected_damage as nat,
                        )
                    } else {
                        damage_so_far(before, identity)
                    });
                    assert(damage_so_far(after, identity) == if identity
                        == asteroid_collision.asteroid_uuid {
                        capped(
                            damage_so_far(between, identity)
                                + asteroid_collision.enemy_damage as nat,
                        )
                    } else {
                        damage_so_far(between, identity)
                    });
                }
                assert forall|identity: Identity| #[trigger]
                    after.contains_key(identity) <==> (involved_among(
                        outcomes,
                        affected_keys@.take(count as int),
                        identity,
                    ) || involved_with(uuid, outcomes[uuid], listed_now, identity)) by {
                    assert(before.contains_key(identity) <==> (involved_among(
                        outcomes,
                        affected_keys@.take(count as int),
                        identity,
                    ) || involved_with(uuid, outcomes[uuid], listed, identity)));
                    if involved_with(uuid, outcomes[uuid], listed, identity) {
                        let place = choose|place: int|
                            0 <= place < listed.len() && #[trigger] involves(
                                uuid,
                                outcomes[uuid][listed[place]],
                                identity,
                            );
                        assert(listed_now[place] == listed[place]);
                        assert(involves(uuid, outcomes[uuid][listed_now[place]], identity));
                    }
                    if involved_with(uuid, outcomes[uuid], listed_now, identity) {
                        let place = choose|place: int|
                            0 <= place < listed_now.len() && #[trigger] involves(
                                uuid,
                                outcomes[uuid][listed_now[place]],
                                identity,
                            );
                        if place < enemy_count {
                            assert(listed[place] == listed_now[place]);
                            assert(involves(uuid, outcomes[uuid][listed[place]], identity));
                        }
                    }
                    if identity == uuid || identity == asteroid_collision.asteroid_uuid {
                        assert(listed_now[enemy_count as int] == enemy);
                        assert(involves(
                            uuid,
                            outcomes[uuid][listed_now[enemy_count as int]],
                            identity,
                        ));
                    }
                }
            }
            enemy_count = enemy_count + 1;
        }
        proof {
            lemma_finish_affected(
                collision_summary@,
                outcomes,
                affected_keys@,
                count as int,
                enemy_keys@,
            );
        }
        count = count + 1;
    }
    proof {
        let keys = affected_keys@;
        let expected = capped_summary(outcomes);
        assert(keys.take(keys.len() as int) =~= keys);
        assert forall|identity: Identity|
            collision_summary@.contains_key(identity) <==> expected.contains_key(identity) by {
            if involved_among(outcomes, keys, identity) {
                let (place, enemy) = choose|place: int, enemy: Identity|
                    0 <= place < keys.len() && has_outcome(outcomes, keys[place], enemy)
                        && #[trigger] involves(keys[place], outcomes[keys[place]][enemy], identity);
                assert(is_involved(outcomes, identity));
            }
            if is_involved(outcomes, identity) {
                let (affected, enemy) = choose|affected: Identity, enemy: Identity|
                    has_outcome(outcomes, affected, enemy) && #[trigger] involves(
                        affected,
                        outcomes[affected][enemy],
                        identity,
                    );
                assert(keys.to_set().contains(affected));
                let place = choose|place: int| 0 <= place < keys.len() && keys[place] == affected;
                assert(involves(keys[place], outcomes[keys[place]][enemy], identity));
            }
        }
        assert forall|identity: Identity| #[trigger]
            collision_summary@.contains_key(identity) implies collision_summary@[identity]
            == expected[identity] by {
            lemma_sum_over_listing(keys, damage_of_affected(outcomes, identity));
            assert(damage_so_far(collision_summary@, identity) == capped(
                total_damage(outcomes, identity),
            ));
        }
        assert(collision_summary@ =~= expected);
    }
    collision_summary
}

/// Adds up, for each entity that an outcome involves, the damage of all
/// outcomes: what an outcome does to the affected entity goes to that
/// entity, what it does to the enemy goes to the enemy that it names.
pub fn get_collision_summary(collision_results: CollisionResults) -> (summary: CollisionSummary)
    requires
        summary_fits(results_view(collision_results)),
    ensures
        summary@ == frame_summary(results_view(collision_results)),
{
    let summary = get_capped_collision_summary(&collision_results);
    proof {
        let outcomes = results_view(collision_results);
        assert forall|identity: Identity| #[trigger]
            is_involved(outcomes, identity) implies capped_summary(outcomes)[identity]
            == frame_summary(outcomes)[identity] by {
            assert(total_damage(outcomes, identity) <= u32::MAX);
        }
        assert(summary@ =~= frame_summary(outcomes));
    }
    summary
}

} // verus!
