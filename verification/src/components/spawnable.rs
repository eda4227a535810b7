use vstd::prelude::*;

verus! {

/// A list of entities that grows as entities are spawned.
pub struct Spawnable<T> {
    pub entities: Vec<T>,
}

impl<T> Spawnable<T> {
    /// Adds an entity at the end of the list.
    pub fn spawn(&mut self, entity: T) -> (ret: &mut Self)
        ensures
            ret.entities@ == old(self).entities@.push(entity),
            *final(self) == *final(ret),
    {
        self.entities.push(entity);
        self
    }
}

impl<T> Default for Spawnable<T> {
    fn default() -> (spawnable: Self)
        ensures
            spawnable.entities@ == Seq::<T>::empty(),
    {
        Self { entities: Vec::new() }
    }
}

} // verus!
