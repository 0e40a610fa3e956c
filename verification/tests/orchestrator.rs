use static_vs_dynamic::dyn_traits;
use static_vs_dynamic::static_traits::{
    do_stuff, state, Amount, AppState, Dog, DogHouse, DogHouseService, DogHouseServiceTrait,
    DogRepository, DogRepositoryTrait, DogService, DogServiceTrait, GroomingRecord,
    GroomingServiceTrait, HealthRecord, HealthServiceTrait, TrainingRecord, TrainingService,
    TrainingServiceTrait,
};

fn amount(value: f64) -> Amount {
    Amount { bits: value.to_bits() }
}

struct MockDogService {
    dogs: Vec<Dog>,
}

impl DogServiceTrait for MockDogService {
    fn add_dog(&mut self, _dog: Dog) {
        unreachable!()
    }

    fn get_dogs(&self) -> Vec<Dog> {
        self.dogs.clone()
    }
}

struct MockGroomingService {}

impl GroomingServiceTrait for MockGroomingService {
    fn add_grooming_record(&self, _record: GroomingRecord) {}

    fn get_grooming_history(&self, _dog_id: &str) -> Vec<GroomingRecord> {
        vec![]
    }

    fn calculate_total_grooming_cost(&self, _dog_id: &str) -> Amount {
        amount(150.0)
    }
}

struct MockTrainingService {}

impl TrainingServiceTrait for MockTrainingService {
    fn add_training_record(&self, _record: TrainingRecord) {}

    fn get_training_history(&self, _dog_id: &str) -> Vec<TrainingRecord> {
        vec![]
    }

    fn get_dog_skills(&self, _dog_id: &str) -> Vec<String> {
        vec!["Sit".to_string(), "Stay".to_string()]
    }
}

struct MockHealthService {}

impl HealthServiceTrait for MockHealthService {
    fn add_health_record(&self, _record: HealthRecord) {}

    fn get_health_history(&self, _dog_id: &str) -> Vec<HealthRecord> {
        vec![]
    }

    fn get_dog_weight_history(&self, _dog_id: &str) -> Vec<(String, Amount)> {
        vec![
            ("2024-01-01".to_string(), amount(10.5)),
            ("2024-02-01".to_string(), amount(11.2)),
        ]
    }
}

struct MockDogHouseService {}

impl DogHouseServiceTrait for MockDogHouseService {
    fn add_dog_house(&self, _house: DogHouse) {}

    fn assign_dog_to_house(&self, _dog_id: &str, _house_id: &str) {}

    fn get_dog_house(&self, _dog_id: &str) -> Option<DogHouse> {
        Some(DogHouse {
            id: "house1".to_string(),
            size: "MEDIUM".to_string(),
            material: "Wood".to_string(),
            assigned_dog_id: Some("1".to_string()),
        })
    }

    fn get_available_houses(&self) -> Vec<DogHouse> {
        vec![DogHouse {
            id: "house2".to_string(),
            size: "LARGE".to_string(),
            material: "Metal".to_string(),
            assigned_dog_id: None,
        }]
    }
}

fn test_dog() -> Dog {
    Dog { id: "1".to_string(), name: "TestDog".to_string(), age: 3 }
}

#[test]
fn test_do_stuff_with_mock() {
    let app_state = AppState {
        dog_service: MockDogService { dogs: vec![test_dog()] },
        grooming_service: MockGroomingService {},
        training_service: MockTrainingService {},
        health_service: MockHealthService {},
        dog_house_service: MockDogHouseService {},
    };

    let response = do_stuff(&app_state);

    let dogs_info = &response.dogs_info;
    assert_eq!(dogs_info.len(), 1);

    assert_eq!(dogs_info[0].dog.id, "1");
    assert_eq!(dogs_info[0].dog.name, "TestDog");
    assert_eq!(dogs_info[0].dog.age, 3);

    assert_eq!(f64::from_bits(dogs_info[0].grooming.total_cost.bits), 150.0);

    let skills = &dogs_info[0].training.skills;
    assert_eq!(skills.len(), 2);
    assert!(skills.contains(&"Sit".to_string()));

    let available_houses = &response.available_houses;
    assert_eq!(available_houses.len(), 1);
    assert_eq!(available_houses[0].size, "LARGE");
}

#[test]
fn mock_answers_are_passed_on_unchanged() {
    let app_state = AppState {
        dog_service: MockDogService { dogs: vec![test_dog()] },
        grooming_service: MockGroomingService {},
        training_service: MockTrainingService {},
        health_service: MockHealthService {},
        dog_house_service: MockDogHouseService {},
    };
    let response = do_stuff(&app_state);
    let info = &response.dogs_info[0];
    assert!(info.grooming.history.is_empty());
    assert!(info.training.history.is_empty());
    assert!(info.health.history.is_empty());
    assert_eq!(
        info.health.weight_history,
        vec![
            ("2024-01-01".to_string(), amount(10.5)),
            ("2024-02-01".to_string(), amount(11.2)),
        ]
    );
    assert_eq!(info.training.skills, vec!["Sit".to_string(), "Stay".to_string()]);
    assert_eq!(info.housing.as_ref().unwrap().id, "house1");
    assert_eq!(info.housing.as_ref().unwrap().assigned_dog_id, Some("1".to_string()));
    assert_eq!(response.available_houses[0].id, "house2");
}

#[test]
fn both_variants_give_the_same_answer_for_mocks() {
    let fixed = AppState {
        dog_service: MockDogService { dogs: vec![test_dog()] },
        grooming_service: MockGroomingService {},
        training_service: MockTrainingService {},
        health_service: MockHealthService {},
        dog_house_service: MockDogHouseService {},
    };
    let boxed = dyn_traits::AppState {
        dog_service: Box::new(MockDogService { dogs: vec![test_dog()] }),
        grooming_service: Box::new(MockGroomingService {}),
        training_service: Box::new(MockTrainingService {}),
        health_service: Box::new(MockHealthService {}),
        dog_house_service: Box::new(MockDogHouseService {}),
    };
    assert_eq!(do_stuff(&fixed), dyn_traits::do_stuff(&boxed));
}

#[test]
fn seeded_service_answers_for_three_dogs_and_no_free_house() {
    let app_state = state(MockGroomingService {}, MockHealthService {});
    let response = do_stuff(&app_state);
    assert_eq!(response.dogs_info.len(), 3);
    assert!(response.available_houses.is_empty());
    let ids: Vec<&str> = response.dogs_info.iter().map(|info| info.dog.id.as_str()).collect();
    assert_eq!(ids, vec!["1_processed", "2_processed", "3_processed"]);
    let names: Vec<&str> = response.dogs_info.iter().map(|info| info.dog.name.as_str()).collect();
    assert_eq!(names, vec!["MAX", "LUNA", "CHARLIE"]);
    let ages: Vec<u32> = response.dogs_info.iter().map(|info| info.dog.age).collect();
    assert_eq!(ages, vec![5, 3, 2]);
    for info in &response.dogs_info {
        assert!(info.training.history.is_empty());
        assert!(info.training.skills.is_empty());
        assert!(info.housing.is_none());
    }
}

#[test]
fn both_variants_give_the_same_answer_at_the_start() {
    let fixed = state(MockGroomingService {}, MockHealthService {});
    let mut repository = DogRepository::new();
    repository.add_dog(Dog { id: "1".to_string(), name: "Max".to_string(), age: 5 });
    repository.add_dog(Dog { id: "2".to_string(), name: "Luna".to_string(), age: 3 });
    repository.add_dog(Dog { id: "3".to_string(), name: "Charlie".to_string(), age: 2 });
    let boxed = dyn_traits::AppState {
        dog_service: Box::new(DogService::new(repository)),
        grooming_service: Box::new(MockGroomingService {}),
        training_service: Box::new(TrainingService::new()),
        health_service: Box::new(MockHealthService {}),
        dog_house_service: Box::new(DogHouseService::new()),
    };
    let a = do_stuff(&fixed);
    let b = dyn_traits::do_stuff(&boxed);
    assert_eq!(a, b);
    assert_eq!(b.dogs_info.len(), 3);
    assert!(b.available_houses.is_empty());
}

#[test]
fn dogs_info_follows_the_ids_whatever_the_order_of_adding() {
    let mut repository = DogRepository::new();
    repository.add_dog(Dog { id: "3".to_string(), name: "Charlie".to_string(), age: 2 });
    repository.add_dog(Dog { id: "1".to_string(), name: "Max".to_string(), age: 5 });
    repository.add_dog(Dog { id: "2".to_string(), name: "Luna".to_string(), age: 3 });
    let app_state = AppState {
        dog_service: DogService::new(repository),
        grooming_service: MockGroomingService {},
        training_service: TrainingService {
            records: vec![
                TrainingRecord {
                    dog_id: "3_processed".to_string(),
                    skill: "roll".to_string(),
                    proficiency_level: 2,
                    last_trained: "2024-03-01".to_string(),
                },
                TrainingRecord {
                    dog_id: "1_processed".to_string(),
                    skill: "sit".to_string(),
                    proficiency_level: 9,
                    last_trained: "2024-01-01".to_string(),
                },
            ],
        },
        health_service: MockHealthService {},
        dog_house_service: DogHouseService::new(),
    };
    let response = do_stuff(&app_state);
    let ids: Vec<&str> = response.dogs_info.iter().map(|info| info.dog.id.as_str()).collect();
    assert_eq!(ids, vec!["1_processed", "2_processed", "3_processed"]);
    assert_eq!(response.dogs_info[0].training.skills, vec!["SIT".to_string()]);
    assert!(response.dogs_info[1].training.skills.is_empty());
    assert_eq!(response.dogs_info[2].training.skills, vec!["ROLL".to_string()]);
}
