//! The service with its collaborators behind trait objects: each call of a
//! collaborator is resolved when it is made.
//!
//! The rules are those of [`crate::static_traits`]; only the way the
//! collaborators are held differs, and the answers do not.

use vstd::prelude::*;
use crate::static_traits::aggregation::{at_start, gather_stuff, stuff_of, StuffResponse};
use crate::static_traits::dogs::DogServiceTrait;
use crate::static_traits::grooming::GroomingServiceTrait;
use crate::static_traits::health::HealthServiceTrait;
use crate::static_traits::housing::DogHouseServiceTrait;
use crate::static_traits::records::DogHouseView;
use crate::static_traits::training::TrainingServiceTrait;

verus! {

/// The collaborators of the service, each behind a trait object.
pub struct AppState {
    pub dog_service: Box<dyn DogServiceTrait>,
    pub grooming_service: Box<dyn GroomingServiceTrait>,
    pub training_service: Box<dyn TrainingServiceTrait>,
    pub health_service: Box<dyn HealthServiceTrait>,
    pub dog_house_service: Box<dyn DogHouseServiceTrait>,
}

/// Whether the collaborators of `boxed` answer every question as those of
/// `fixed` do.
pub open spec fn answer_alike<
    D: DogServiceTrait,
    G: GroomingServiceTrait,
    T: TrainingServiceTrait,
    H: HealthServiceTrait,
    DH: DogHouseServiceTrait,
>(fixed: &crate::static_traits::aggregation::AppState<D, G, T, H, DH>, boxed: &AppState) -> bool {
    &&& boxed.dog_service.listed() == fixed.dog_service.listed()
    &&& forall|id: Seq<char>|
        #[trigger] boxed.grooming_service.grooming_history(id)
            == fixed.grooming_service.grooming_history(id)
    &&& forall|id: Seq<char>|
        #[trigger] boxed.grooming_service.total_grooming_cost(id)
            == fixed.grooming_service.total_grooming_cost(id)
    &&& forall|id: Seq<char>|
        #[trigger] boxed.training_service.training_history(id)
            == fixed.training_service.training_history(id)
    &&& forall|id: Seq<char>|
        #[trigger] boxed.training_service.dog_skills(id) == fixed.training_service.dog_skills(id)
    &&& forall|id: Seq<char>|
        #[trigger] boxed.health_service.health_history(id) == fixed.health_service.health_history(
            id,
        )
    &&& forall|id: Seq<char>|
        #[trigger] boxed.health_service.weight_history(id) == fixed.health_service.weight_history(
            id,
        )
    &&& forall|id: Seq<char>|
        #[trigger] boxed.dog_house_service.dog_house(id) == fixed.dog_house_service.dog_house(id)
    &&& boxed.dog_house_service.available_houses() == fixed.dog_house_service.available_houses()
}

/// The answer that `do_stuff` gives for `state`.
pub open spec fn answer_of(state: &AppState) -> crate::static_traits::aggregation::StuffResponseView {
    stuff_of(
        &*state.dog_service,
        &*state.grooming_service,
        &*state.training_service,
        &*state.health_service,
        &*state.dog_house_service,
    )
}

/// The two ways of holding the collaborators give the same answer, whenever
/// the collaborators themselves answer alike.
pub proof fn lemma_variants_agree<
    D: DogServiceTrait,
    G: GroomingServiceTrait,
    T: TrainingServiceTrait,
    H: HealthServiceTrait,
    DH: DogHouseServiceTrait,
>(fixed: &crate::static_traits::aggregation::AppState<D, G, T, H, DH>, boxed: &AppState)
    requires
        answer_alike(fixed, boxed),
    ensures
        answer_of(boxed) == stuff_of(
            &fixed.dog_service,
            &fixed.grooming_service,
            &fixed.training_service,
            &fixed.health_service,
            &fixed.dog_house_service,
        ),
{
    let a = answer_of(boxed);
    let b = stuff_of(
        &fixed.dog_service,
        &fixed.grooming_service,
        &fixed.training_service,
        &fixed.health_service,
        &fixed.dog_house_service,
    );
    assert(a.dogs_info =~= b.dogs_info);
}

/// The answer of the service whose collaborators `state` holds.
pub fn do_stuff(state: &AppState) -> (response: StuffResponse)
    ensures
        response@ == answer_of(state),
{
    gather_stuff(
        &*state.dog_service,
        &*state.grooming_service,
        &*state.training_service,
        &*state.health_service,
        &*state.dog_house_service,
    )
}

/// The two ways of holding the collaborators give the same answer at the
/// start, when grooming and health answer alike; no house is free then.
pub proof fn lemma_variants_agree_at_start<
    D: DogServiceTrait,
    G: GroomingServiceTrait,
    T: TrainingServiceTrait,
    H: HealthServiceTrait,
    DH: DogHouseServiceTrait,
>(fixed: &crate::static_traits::aggregation::AppState<D, G, T, H, DH>, boxed: &AppState)
    requires
        at_start(&fixed.dog_service, &fixed.training_service, &fixed.dog_house_service),
        at_start(&*boxed.dog_service, &*boxed.training_service, &*boxed.dog_house_service),
        forall|id: Seq<char>|
            #[trigger] boxed.grooming_service.grooming_history(id)
                == fixed.grooming_service.grooming_history(id),
        forall|id: Seq<char>|
            #[trigger] boxed.grooming_service.total_grooming_cost(id)
                == fixed.grooming_service.total_grooming_cost(id),
        forall|id: Seq<char>|
            #[trigger] boxed.health_service.health_history(id)
                == fixed.health_service.health_history(id),
        forall|id: Seq<char>|
            #[trigger] boxed.health_service.weight_history(id)
                == fixed.health_service.weight_history(id),
    ensures
        answer_of(boxed) == stuff_of(
            &fixed.dog_service,
            &fixed.grooming_service,
            &fixed.training_service,
            &fixed.health_service,
            &fixed.dog_house_service,
        ),
        answer_of(boxed).available_houses == Seq::<DogHouseView>::empty(),
{
    assert forall|id: Seq<char>| #[trigger]
        boxed.dog_house_service.dog_house(id) == fixed.dog_house_service.dog_house(id) by {
        assert(boxed.dog_house_service.dog_house(id) is None);
        assert(fixed.dog_house_service.dog_house(id) is None);
    }
    lemma_variants_agree(fixed, boxed);
}

} // verus!
