//! The running trains, by id. A train is started at most once per id;
//! stopping a train forgets it, so that its id can be started again.
use std::collections::HashMap;
use vstd::prelude::*;

verus! {

/// The running trains, each held by its id.
pub struct TrainRegistry<T> {
    trains: HashMap<i32, T>,
}

impl<T> View for TrainRegistry<T> {
    type V = Map<i32, T>;

    closed spec fn view(&self) -> Map<i32, T> {
        self.trains@
    }
}

impl<T> TrainRegistry<T> {
    /// A registry without trains.
    pub fn new() -> (registry: Self)
        ensures
            registry@ == Map::<i32, T>::empty(),
    {
        TrainRegistry { trains: HashMap::new() }
    }

    /// Whether a train runs under `id`.
    pub fn is_initialized(&self, id: i32) -> (running: bool)
        ensures
            running == self@.contains_key(id),
    {
        self.trains.contains_key(&id)
    }

    /// Starts keeping `train` under `id`, unless a train already runs
    /// under that id: then nothing changes and `train` is handed back.
    pub fn initialize_train(&mut self, id: i32, train: T) -> (rejected: Option<T>)
        ensures
            old(self)@.contains_key(id) ==> final(self)@ == old(self)@ && rejected == Some(train),
            !old(self)@.contains_key(id) ==> final(self)@ == old(self)@.insert(id, train)
                && rejected is None,
    {
        if self.trains.contains_key(&id) {
            Some(train)
        } else {
            self.trains.insert(id, train);
            None
        }
    }

    /// Stops keeping the train under `id` and hands it back, if there is
    /// one.
    pub fn deinitialize_train(&mut self, id: i32) -> (removed: Option<T>)
        ensures
            final(self)@ == old(self)@.remove(id),
            old(self)@.contains_key(id) ==> removed == Some(old(self)@[id]),
            !old(self)@.contains_key(id) ==> removed is None,
    {
        self.trains.remove(&id)
    }

    /// The train under `id`, if there is one.
    pub fn train(&self, id: i32) -> (found: Option<&T>)
        ensures
            self@.contains_key(id) ==> found == Some(&self@[id]),
            !self@.contains_key(id) ==> found is None,
    {
        self.trains.get(&id)
    }
}

/// Starting a train under a free id and stopping it again hands back that
/// train and leaves the registry as it was; while it runs, it is the
/// train found under its id.
pub proof fn law_initialize_then_deinitialize<T>(m: Map<i32, T>, id: i32, train: T)
    requires
        !m.contains_key(id),
    ensures
        m.insert(id, train).contains_key(id),
        m.insert(id, train)[id] == train,
        m.insert(id, train).remove(id) == m,
{
    assert(m.insert(id, train).remove(id) =~= m);
}

/// Starting or stopping a train leaves the trains under other ids alone.
pub proof fn law_other_ids_untouched<T>(m: Map<i32, T>, id: i32, other: i32, train: T)
    requires
        id != other,
    ensures
        m.insert(id, train).contains_key(other) == m.contains_key(other),
        m.remove(id).contains_key(other) == m.contains_key(other),
        m.contains_key(other) ==> m.insert(id, train)[other] == m[other] && m.remove(id)[other]
            == m[other],
{
}

} // verus!
