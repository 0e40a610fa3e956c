//! The answer of the service: for each dog what the collaborators know of it,
//! and the houses that are free.

use vstd::prelude::*;
use crate::sequences::views;
use crate::static_traits::dogs::{processed, DogService, DogServiceTrait};
use crate::static_traits::grooming::GroomingServiceTrait;
use crate::static_traits::health::HealthServiceTrait;
use crate::static_traits::housing::{DogHouseService, DogHouseServiceTrait};
use crate::static_traits::records::{
    optional_view,
    Amount,
    Dog,
    DogHouse,
    DogHouseView,
    DogView,
    GroomingRecord,
    GroomingRecordView,
    HealthRecord,
    HealthRecordView,
    TrainingRecord,
    TrainingRecordView,
};
use crate::static_traits::repository::{by_id_age_name, DogRepository, DogRepositoryTrait};
use crate::static_traits::training::{skills_in, TrainingService, TrainingServiceTrait};

verus! {

/// The grooming of one dog.
#[derive(Debug, PartialEq, Eq)]
pub struct GroomingInfo {
    pub history: Vec<GroomingRecord>,
    pub total_cost: Amount,
}

/// The training of one dog.
#[derive(Debug, PartialEq, Eq)]
pub struct TrainingInfo {
    pub history: Vec<TrainingRecord>,
    pub skills: Vec<String>,
}

/// The health of one dog.
#[derive(Debug, PartialEq, Eq)]
pub struct HealthInfo {
    pub history: Vec<HealthRecord>,
    pub weight_history: Vec<(String, Amount)>,
}

/// All that the service tells of one dog.
#[derive(Debug, PartialEq, Eq)]
pub struct DogInfo {
    pub dog: Dog,
    pub grooming: GroomingInfo,
    pub training: TrainingInfo,
    pub health: HealthInfo,
    pub housing: Option<DogHouse>,
}

/// The answer of the service.
#[derive(Debug, PartialEq, Eq)]
pub struct StuffResponse {
    pub dogs_info: Vec<DogInfo>,
    pub available_houses: Vec<DogHouse>,
}

/// What a [`DogInfo`] holds.
pub ghost struct DogInfoView {
    pub dog: DogView,
    pub grooming_history: Seq<GroomingRecordView>,
    pub total_cost: u64,
    pub training_history: Seq<TrainingRecordView>,
    pub skills: Seq<Seq<char>>,
    pub health_history: Seq<HealthRecordView>,
    pub weight_history: Seq<(Seq<char>, u64)>,
    pub housing: Option<DogHouseView>,
}

/// What a [`StuffResponse`] holds.
pub ghost struct StuffResponseView {
    pub dogs_info: Seq<DogInfoView>,
    pub available_houses: Seq<DogHouseView>,
}

impl View for DogInfo {
    type V = DogInfoView;

    open spec fn view(&self) -> DogInfoView {
        DogInfoView {
            dog: self.dog@,
            grooming_history: views(self.grooming.history@),
            total_cost: self.grooming.total_cost@,
            training_history: views(self.training.history@),
            skills: views(self.training.skills@),
            health_history: views(self.health.history@),
            weight_history: views(self.health.weight_history@),
            housing: optional_view(self.housing),
        }
    }
}

impl View for StuffResponse {
    type V = StuffResponseView;

    open spec fn view(&self) -> StuffResponseView {
        StuffResponseView {
            dogs_info: views(self.dogs_info@),
            available_houses: views(self.available_houses@),
        }
    }
}

/// What the collaborators know of `dog`, asked by its id.
pub open spec fn dog_info_of<
    G: GroomingServiceTrait + ?Sized,
    T: TrainingServiceTrait + ?Sized,
    H: HealthServiceTrait + ?Sized,
    DH: DogHouseServiceTrait + ?Sized,
>(dog: DogView, grooming: &G, training: &T, health: &H, housing: &DH) -> DogInfoView {
    DogInfoView {
        dog,
        grooming_history: grooming.grooming_history(dog.id),
        total_cost: grooming.total_grooming_cost(dog.id),
        training_history: training.training_history(dog.id),
        skills: training.dog_skills(dog.id),
        health_history: health.health_history(dog.id),
        weight_history: health.weight_history(dog.id),
        housing: housing.dog_house(dog.id),
    }
}

/// The answer for the dogs that `dogs` lists: one entry for each, in the
/// order of the list, and the free houses.
pub open spec fn stuff_of<
    D: DogServiceTrait + ?Sized,
    G: GroomingServiceTrait + ?Sized,
    T: TrainingServiceTrait + ?Sized,
    H: HealthServiceTrait + ?Sized,
    DH: DogHouseServiceTrait + ?Sized,
>(dogs: &D, grooming: &G, training: &T, health: &H, housing: &DH) -> StuffResponseView {
    StuffResponseView {
        dogs_info: Seq::new(
            dogs.listed().len(),
            |i: int| dog_info_of(dogs.listed()[i], grooming, training, health, housing),
        ),
        available_houses: housing.available_houses(),
    }
}

/// Asks the dog service for its dogs and each collaborator, dog by dog, for
/// what it knows; then asks for the free houses.
pub fn gather_stuff<
    D: DogServiceTrait + ?Sized,
    G: GroomingServiceTrait + ?Sized,
    T: TrainingServiceTrait + ?Sized,
    H: HealthServiceTrait + ?Sized,
    DH: DogHouseServiceTrait + ?Sized,
>(dogs: &D, grooming: &G, training: &T, health: &H, housing: &DH) -> (response: StuffResponse)
    ensures
        response@ == stuff_of(dogs, grooming, training, health, housing),
{
    let listed = dogs.get_dogs();
    let mut dogs_info: Vec<DogInfo> = Vec::new();
    let mut i: usize = 0;
    while i < listed.len()
        invariant
            i <= listed.len(),
            views(listed@) == dogs.listed(),
            dogs_info@.len() == i,
            forall|j: int|
                0 <= j < i ==> (#[trigger] dogs_info@[j])@ == dog_info_of(
                    dogs.listed()[j],
                    grooming,
                    training,
                    health,
                    housing,
                ),
        decreases listed.len() - i,
    {
        let dog = listed[i].clone();
        assert(dog@ == views(listed@)[i as int]);
        let id = dog.id.as_str();
        let grooming_history = grooming.get_grooming_history(id);
        let total_cost = grooming.calculate_total_grooming_cost(id);
        let training_history = training.get_training_history(id);
        let skills = training.get_dog_skills(id);
        let health_history = health.get_health_history(id);
        let weight_history = health.get_dog_weight_history(id);
        let dog_house = housing.get_dog_house(id);
        let info = DogInfo {
            dog,
            grooming: GroomingInfo { history: grooming_history, total_cost },
            training: TrainingInfo { history: training_history, skills },
            health: HealthInfo { history: health_history, weight_history },
            housing: dog_house,
        };
        dogs_info.push(info);
        i = i + 1;
    }
    let available_houses = housing.get_available_houses();
    let response = StuffResponse { dogs_info, available_houses };
    assert(response@.dogs_info =~= stuff_of(dogs, grooming, training, health, housing).dogs_info);
    response
}

/// The collaborators of the service, each of a type of its own.
pub struct AppState<
    D: DogServiceTrait,
    G: GroomingServiceTrait,
    T: TrainingServiceTrait,
    H: HealthServiceTrait,
    DH: DogHouseServiceTrait,
> {
    pub dog_service: D,
    pub grooming_service: G,
    pub training_service: T,
    pub health_service: H,
    pub dog_house_service: DH,
}

/// The answer of the service whose collaborators `state` holds.
pub fn do_stuff<
    D: DogServiceTrait,
    G: GroomingServiceTrait,
    T: TrainingServiceTrait,
    H: HealthServiceTrait,
    DH: DogHouseServiceTrait,
>(state: &AppState<D, G, T, H, DH>) -> (response: StuffResponse)
    ensures
        response@ == stuff_of(
            &state.dog_service,
            &state.grooming_service,
            &state.training_service,
            &state.health_service,
            &state.dog_house_service,
        ),
{
    gather_stuff(
        &state.dog_service,
        &state.grooming_service,
        &state.training_service,
        &state.health_service,
        &state.dog_house_service,
    )
}

/// The three dogs that every service starts with, in the order they are
/// added.
pub open spec fn seed_dogs() -> Seq<DogView> {
    seq![
        DogView { id: "1"@, name: "Max"@, age: 5 },
        DogView { id: "2"@, name: "Luna"@, age: 3 },
        DogView { id: "3"@, name: "Charlie"@, age: 2 },
    ]
}

/// A store that holds the three dogs every service starts with.
pub fn seeded_repository() -> (repository: DogRepository)
    ensures
        repository.stored() == seed_dogs(),
{
    let mut repository = DogRepository::new();
    repository.add_dog(Dog { id: "1".to_owned(), name: "Max".to_owned(), age: 5 });
    repository.add_dog(Dog { id: "2".to_owned(), name: "Luna".to_owned(), age: 3 });
    repository.add_dog(Dog { id: "3".to_owned(), name: "Charlie".to_owned(), age: 2 });
    assert(repository.stored() =~= seed_dogs());
    repository
}

/// Whether the collaborators are as they are at the start: the dog service
/// holds the three dogs and lists them as [`DogService`] does, no dog has a
/// training record or a house, and no house is free.
pub open spec fn at_start<
    D: DogServiceTrait + ?Sized,
    T: TrainingServiceTrait + ?Sized,
    DH: DogHouseServiceTrait + ?Sized,
>(dogs: &D, training: &T, housing: &DH) -> bool {
    &&& dogs.stored() == seed_dogs()
    &&& dogs.listed() == processed(by_id_age_name(seed_dogs()))
    &&& forall|id: Seq<char>| #[trigger] training.training_history(id) == Seq::<TrainingRecordView>::empty()
    &&& forall|id: Seq<char>| #[trigger] training.dog_skills(id) == Seq::<Seq<char>>::empty()
    &&& forall|id: Seq<char>| #[trigger] housing.dog_house(id) is None
    &&& housing.available_houses() == Seq::<DogHouseView>::empty()
}

/// A dog service over the three dogs, a training service without records and
/// a housing service without houses are as at the start.
pub proof fn lemma_at_start(
    dogs: &DogService<DogRepository>,
    training: &TrainingService,
    housing: &DogHouseService,
)
    requires
        dogs.stored() == seed_dogs(),
        training.records@.len() == 0,
        housing.houses@.len() == 0,
    ensures
        at_start(dogs, training, housing),
{
    assert(views(training.records@) =~= Seq::<TrainingRecordView>::empty());
    assert(views(housing.houses@) =~= Seq::<DogHouseView>::empty());
    assert forall|id: Seq<char>| #[trigger]
        training.dog_skills(id) == Seq::<Seq<char>>::empty() by {
        assert(training.training_history(id) == Seq::<TrainingRecordView>::empty());
        assert(skills_in(training.training_history(id)) =~= Seq::<Seq<char>>::empty());
    }
}

/// The collaborators at the start: the dog service over the three dogs,
/// training and housing without records, grooming and health as given.
pub fn state<G: GroomingServiceTrait, H: HealthServiceTrait>(
    grooming_service: G,
    health_service: H,
) -> (state: AppState<DogService<DogRepository>, G, TrainingService, H, DogHouseService>)
    ensures
        at_start(&state.dog_service, &state.training_service, &state.dog_house_service),
        state.grooming_service == grooming_service,
        state.health_service == health_service,
        state.training_service.records@.len() == 0,
        state.dog_house_service.houses@.len() == 0,
{
    let state = AppState {
        dog_service: DogService::new(seeded_repository()),
        grooming_service,
        training_service: TrainingService::new(),
        health_service,
        dog_house_service: DogHouseService::new(),
    };
    proof {
        lemma_at_start(&state.dog_service, &state.training_service, &state.dog_house_service);
    }
    state
}

} // verus!
