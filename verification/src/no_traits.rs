//! The plain service: a store of dogs and a service over it, with no
//! collaborators and no work beyond keeping and copying the dogs.

use vstd::prelude::*;
use crate::sequences::views;
use crate::static_traits::aggregation::seed_dogs;
use crate::static_traits::records::DogView;

pub use crate::static_traits::records::Dog;

verus! {

/// The status that answers a dog that was added.
pub const CREATED: u16 = 201;

/// The dogs in memory, in the order they were added.
pub struct DogRepository {
    pub dogs: Vec<Dog>,
}

impl DogRepository {
    /// A store without dogs.
    pub fn new() -> (repository: Self)
        ensures
            repository.dogs@.len() == 0,
    {
        DogRepository { dogs: Vec::new() }
    }

    /// Keeps `dog` behind the dogs already stored.
    pub fn add_dog(&mut self, dog: Dog)
        ensures
            final(self).dogs@ == old(self).dogs@.push(dog),
    {
        self.dogs.push(dog);
    }

    /// A copy of the dogs, in the order they were added.
    pub fn get_dogs(&self) -> (dogs: Vec<Dog>)
        ensures
            views(dogs@) == views(self.dogs@),
    {
        let dogs = self.dogs.clone();
        assert(views(dogs@) =~= views(self.dogs@));
        dogs
    }
}

/// The service over a store of dogs.
pub struct DogService {
    pub dog_repository: DogRepository,
}

impl DogService {
    /// The service over `dog_repository`.
    pub fn new(dog_repository: DogRepository) -> (service: Self)
        ensures
            service.dog_repository == dog_repository,
    {
        DogService { dog_repository }
    }

    /// Keeps `dog` behind the dogs already stored.
    pub fn add_dog(&mut self, dog: Dog)
        ensures
            final(self).dog_repository.dogs@ == old(self).dog_repository.dogs@.push(dog),
    {
        self.dog_repository.add_dog(dog);
    }

    /// A copy of the dogs, in the order they were added.
    pub fn get_dogs(&self) -> (dogs: Vec<Dog>)
        ensures
            views(dogs@) == views(self.dog_repository.dogs@),
    {
        self.dog_repository.get_dogs()
    }
}

/// What the handlers of the plain service work on.
pub struct AppState {
    pub dog_service: DogService,
}

/// Adds `dog` and answers that it was created.
pub fn add_dog(state: &mut AppState, dog: Dog) -> (reply: (u16, &'static str))
    ensures
        final(state).dog_service.dog_repository.dogs@ == old(
            state,
        ).dog_service.dog_repository.dogs@.push(dog),
        reply.0 == CREATED,
        reply.1@ == "Dog created"@,
{
    state.dog_service.add_dog(dog);
    (CREATED, "Dog created")
}

/// The dogs of the service, in the order they were added.
pub fn get_dogs(state: &AppState) -> (dogs: Vec<Dog>)
    ensures
        views(dogs@) == views(state.dog_service.dog_repository.dogs@),
{
    state.dog_service.get_dogs()
}

/// The plain service at the start: it holds the three dogs that every
/// service starts with.
pub fn seeded_state() -> (state: AppState)
    ensures
        views(state.dog_service.dog_repository.dogs@) == seed_dogs(),
{
    let mut repository = DogRepository::new();
    repository.add_dog(Dog { id: "1".to_owned(), name: "Max".to_owned(), age: 5 });
    repository.add_dog(Dog { id: "2".to_owned(), name: "Luna".to_owned(), age: 3 });
    repository.add_dog(Dog { id: "3".to_owned(), name: "Charlie".to_owned(), age: 2 });
    assert(views(repository.dogs@) =~= seed_dogs());
    AppState { dog_service: DogService::new(repository) }
}

} // verus!
