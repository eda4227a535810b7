use crate::components::drawable::{
    can_update_position, next_location, Drawable, DrawableState, Identity,
};
use crate::components::health::Health;
use crate::helpers::maps::keys_of;
use std::collections::HashMap;
use vstd::prelude::*;

verus! {

/// The entities of one population, each under its identity. An entity whose
/// health reaches zero leaves in the call that brought it there.
pub struct EntityController<T: Drawable + Health> {
    entity_hashmap: HashMap<Identity, T>,
}

impl<T: Drawable + Health> View for EntityController<T> {
    type V = Map<Identity, T>;

    closed spec fn view(&self) -> Map<Identity, T> {
        self.entity_hashmap@
    }
}

/// Whether `states` holds the state of each entity of `entities` once, the
/// state at place `i` being that of the entity under `keys[i]`.
pub open spec fn lists_states_of<T: Drawable>(
    states: Seq<&DrawableState>,
    entities: Map<Identity, T>,
    keys: Seq<Identity>,
) -> bool {
    &&& keys.no_duplicates()
    &&& keys.to_set() == entities.dom()
    &&& keys.len() == states.len()
    &&& forall|i: int| 0 <= i < keys.len() ==> *#[trigger] states[i] == entities[keys[i]].drawable_state()
}

impl<T: Drawable + Health> EntityController<T> {
    /// A population is finite.
    pub proof fn lemma_is_finite(&self)
        ensures
            self@.dom().finite(),
    {
        broadcast use vstd::std_specs::hash::group_hash_axioms;

    }

    /// A population without entities.
    pub fn new() -> (controller: Self)
        ensures
            controller@ == Map::<Identity, T>::empty(),
    {
        EntityController { entity_hashmap: HashMap::new() }
    }

    /// How many entities there are.
    pub fn len(&self) -> (len: usize)
        ensures
            len == self@.len(),
    {
        broadcast use vstd::std_specs::hash::group_hash_axioms;

        self.entity_hashmap.len()
    }

    /// Tells whether an entity is kept under `uuid`.
    pub fn has_entity(&self, uuid: Identity) -> (has: bool)
        ensures
            has == self@.contains_key(uuid),
    {
        broadcast use vstd::std_specs::hash::group_hash_axioms;

        self.entity_hashmap.get(&uuid).is_some()
    }

    /// The state of every entity, in no particular order.
    pub fn get_all_drawable_states(&self) -> (states: Vec<&DrawableState>)
        ensures
            exists|keys: Seq<Identity>| lists_states_of(states@, self@, keys),
    {
        broadcast use vstd::std_specs::hash::group_hash_axioms;

        let keys = keys_of(&self.entity_hashmap);
        let mut states: Vec<&DrawableState> = Vec::new();
        let mut index: usize = 0;
        while index < keys.len()
            invariant
                index <= keys.len(),
                keys@.no_duplicates(),
                keys@.to_set() == self@.dom(),
                states.len() == index,
                forall|i: int|
                    0 <= i < index ==> *#[trigger] states[i] == self@[keys[i]].drawable_state(),
            decreases keys.len() - index,
        {
            assert(keys@.to_set().contains(keys[index as int]));
            let found = self.entity_hashmap.get(&keys[index]);
            assert(found is Some);
            states.push(found.unwrap().get_drawable_state());
            index = index + 1;
        }
        assert(lists_states_of(states@, self@, keys@));
        states
    }

    /// Takes the entity in under the identity that its state carries.
    pub fn spawn_entity(&mut self, entity: T) -> (ret: &mut Self)
        ensures
            ret@ == old(self)@.insert(entity.drawable_state().uuid, entity),
            *final(self) == *final(ret),
    {
        broadcast use vstd::std_specs::hash::group_hash_axioms;

        let uuid = entity.get_drawable_state().uuid;
        self.entity_hashmap.insert(uuid, entity);
        self
    }

    /// Removes the entity under `uuid`, if there is one.
    pub fn delete_entity(&mut self, uuid: Identity) -> (ret: &mut Self)
        ensures
            ret@ == old(self)@.remove(uuid),
            *final(self) == *final(ret),
    {
        broadcast use vstd::std_specs::hash::group_hash_axioms;

        self.entity_hashmap.remove(&uuid);
        self
    }

    /// Applies damage to the entity under `uuid` and tells whether that
    /// destroyed it. An entity that is left without health is removed; an
    /// identity that is not here is passed over.
    pub fn apply_entity_damage(&mut self, uuid: Identity, damage: u32) -> (destroyed: bool)
        ensures
            !old(self)@.contains_key(uuid) ==> !destroyed && final(self)@ == old(self)@,
            old(self)@.contains_key(uuid) ==> {
                let hit = old(self)@[uuid].damaged(damage);
                &&& destroyed == (hit.health() == 0)
                &&& destroyed ==> final(self)@ == old(self)@.remove(uuid)
                &&& !destroyed ==> final(self)@ == old(self)@.insert(uuid, hit)
            },
            old(self)@.contains_key(uuid) && damage >= old(self)@[uuid].health() ==> destroyed
                && !final(self)@.contains_key(uuid),
            old(self)@.contains_key(uuid) && damage < old(self)@[uuid].health() ==> !destroyed
                && final(self)@.contains_key(uuid) && final(self)@[uuid].health() == old(
                self,
            )@[uuid].health() - damage,
    {
        broadcast use vstd::std_specs::hash::group_hash_axioms;

        let mut destroyed = false;
        match self.entity_hashmap.remove(&uuid) {
            Some(mut entity) => {
                entity.apply_damage(damage);
                if entity.get_health() == 0 {
                    destroyed = true;
                } else {
                    self.entity_hashmap.insert(uuid, entity);
                }
            },
            None => {
                assert(self.entity_hashmap@ =~= old(self).entity_hashmap@);
            },
        }
        destroyed
    }

    /// Moves every entity by one frame of `game_loop_duration` milliseconds.
    /// None of them is kept inside an arena.
    pub fn update_entity_positions(&mut self, game_loop_duration: u128) -> (ret: &mut Self)
        requires
            forall|uuid: Identity| #[trigger]
                old(self)@.contains_key(uuid) ==> can_update_position(
                    old(self)@[uuid].drawable_state(),
                    None,
                    game_loop_duration as int,
                ),
        ensures
            ret@.dom() == old(self)@.dom(),
            forall|uuid: Identity| #[trigger]
                old(self)@.contains_key(uuid) ==> ret@[uuid] == old(self)@[uuid].with_position(
                    next_location(
                        old(self)@[uuid].drawable_state(),
                        None,
                        game_loop_duration as int,
                    ),
                ),
            forall|uuid: Identity| #[trigger]
                old(self)@.contains_key(uuid) ==> ret@[uuid].drawable_state() == (DrawableState {
                    location: next_location(
                        old(self)@[uuid].drawable_state(),
                        None,
                        game_loop_duration as int,
                    ),
                    ..old(self)@[uuid].drawable_state()
                }),
            *final(self) == *final(ret),
    {
        broadcast use vstd::std_specs::hash::group_hash_axioms;

        let keys = keys_of(&self.entity_hashmap);
        let mut index: usize = 0;
        while index < keys.len()
            invariant
                index <= keys.len(),
                keys@.no_duplicates(),
                keys@.to_set() == old(self)@.dom(),
                self@.dom() == old(self)@.dom(),
                forall|i: int|
                    0 <= i < index ==> (#[trigger] self@[keys[i]]).drawable_state()
                        == (DrawableState {
                        location: next_location(
                            old(self)@[keys[i]].drawable_state(),
                            None,
                            game_loop_duration as int,
                        ),
                        ..old(self)@[keys[i]].drawable_state()
                    }),
                forall|i: int|
                    0 <= i < index ==> #[trigger] self@[keys[i]] == old(self)@[keys[i]].with_position(
                        next_location(
                            old(self)@[keys[i]].drawable_state(),
                            None,
                            game_loop_duration as int,
                        ),
                    ),
                forall|i: int| index <= i < keys.len() ==> #[trigger] self@[keys[i]] == old(self)@[keys[i]],
                forall|uuid: Identity| #[trigger]
                    old(self)@.contains_key(uuid) ==> can_update_position(
                        old(self)@[uuid].drawable_state(),
                        None,
                        game_loop_duration as int,
                    ),
            decreases keys.len() - index,
        {
            let uuid = keys[index];
            assert(keys@.to_set().contains(uuid));
            let ghost before = self.entity_hashmap@;
            match self.entity_hashmap.remove(&uuid) {
                Some(mut entity) => {
                    entity.update_position(None, game_loop_duration);
                    self.entity_hashmap.insert(uuid, entity);
                    assert(self.entity_hashmap@.dom() =~= before.dom());
                },
                None => {},
            }
            index = index + 1;
        }
        proof {
            assert forall|uuid: Identity| #[trigger] old(self)@.contains_key(uuid) implies self@[uuid]
                == old(self)@[uuid].with_position(
                next_location(old(self)@[uuid].drawable_state(), None, game_loop_duration as int),
            ) && self@[uuid].drawable_state() == (DrawableState {
                location: next_location(
                    old(self)@[uuid].drawable_state(),
                    None,
                    game_loop_duration as int,
                ),
                ..old(self)@[uuid].drawable_state()
            }) by {
                assert(keys@.to_set().contains(uuid));
                let place = choose|place: int| 0 <= place < keys.len() && keys[place] == uuid;
                assert(self@[keys[place]] == old(self)@[keys[place]].with_position(
                    next_location(
                        old(self)@[keys[place]].drawable_state(),
                        None,
                        game_loop_duration as int,
                    ),
                ));
            }
        }
        self
    }
}

} // verus!
