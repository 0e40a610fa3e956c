//! The service with its collaborators fixed as type parameters.

pub mod records;
pub mod repository;
pub mod dogs;
pub mod training;
pub mod housing;
pub mod grooming;
pub mod health;
pub mod aggregation;

pub use aggregation::{
    at_start, do_stuff, dog_info_of, gather_stuff, lemma_at_start, seed_dogs, seeded_repository,
    state, stuff_of, AppState, DogInfo, DogInfoView, GroomingInfo, HealthInfo, StuffResponse,
    StuffResponseView, TrainingInfo,
};
pub use dogs::{
    grown, lemma_processed_ages, lemma_processed_keeps_order, lemma_shown_by_id, processed,
    processed_dog, processed_pass, DogService, DogServiceTrait, PROCESSING_PASSES,
};
pub use grooming::{
    grooming_of, grooming_pass, labelled, labelled_from, lemma_grooming_of_dog,
    lemma_grooming_pass, ByDate, GroomingService, GroomingServiceTrait, GROOMING_ADD_ROUNDS,
    GROOMING_HISTORY_PASSES, TOTAL_COST_PASSES,
};
pub use health::{
    all_to_upper, all_uppercase_times, examined, examined_from, health_of, health_pass,
    lemma_health_of_dog, lemma_health_pass, weight_history_of, weights_by_day, weights_in,
    weights_of_records, ByCheckup, ByDay, HealthService, HealthServiceTrait, HEALTH_ADD_ROUNDS,
    HEALTH_HISTORY_PASSES, WEIGHT_HISTORY_PASSES,
};
pub use housing::{
    assigned, assignment_pass, available_pass, first_house_of, free_houses, houses_of,
    lemma_free_houses_pass, lemma_houses_given, lemma_houses_of_again, lemma_no_houses, offered,
    offered_from, search_pass, ByHouseId, BySize, DogHouseService, DogHouseServiceTrait,
    ASSIGNMENT_PASSES, AVAILABLE_PASSES, HOUSE_ADD_ROUNDS, HOUSE_SEARCH_PASSES,
};
pub use records::{
    optional_view, Amount, Dog, DogHouse, DogHouseView, DogView, GroomingRecord,
    GroomingRecordView, HealthRecord, HealthRecordView, TrainingRecord, TrainingRecordView,
};
pub use repository::{
    ascending_ids, by_id_age_name, lemma_listed_ascends, lemma_listed_of_distinct_ids,
    lemma_listing_settles, listing, listing_round, ByAge, ByAgeThenName, ById,
    ByIdThenAgeThenName, ByName, DogRepository, DogRepositoryTrait, LISTING_ROUNDS,
};
pub use training::{
    drilled, drilled_from, drop_repeats, lemma_skills_named_once, lemma_training_of_dog,
    lemma_training_pass, lemma_without_repeats, skills_in, skills_of_records, strictly_ascending,
    training_of, training_pass, without_repeats, Alphabetical, ByLastTrained, ByProficiency,
    TrainingService, TrainingServiceTrait, SKILLS_PASSES, TRAINING_ADD_ROUNDS,
    TRAINING_HISTORY_PASSES,
};
