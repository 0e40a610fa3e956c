use static_vs_dynamic::sorting::{sort_by_key, SortKey};
use static_vs_dynamic::static_traits::{
    all_to_upper, assignment_pass, available_pass, drop_repeats, grooming_pass, health_pass,
    search_pass, skills_of_records, training_pass, weight_history_of, weights_of_records,
    Alphabetical, Amount, ByAge, ByIdThenAgeThenName, ByProficiency, Dog, DogHouse,
    DogHouseService, DogHouseServiceTrait, GroomingRecord, GroomingService, HealthRecord,
    DogRepository, DogRepositoryTrait, HealthService, TrainingRecord, TrainingService,
    TrainingServiceTrait,
};
use static_vs_dynamic::text::text_at_most;

fn amount(value: f64) -> Amount {
    Amount { bits: value.to_bits() }
}

fn training(dog_id: &str, skill: &str, level: u8, day: &str) -> TrainingRecord {
    TrainingRecord {
        dog_id: dog_id.to_string(),
        skill: skill.to_string(),
        proficiency_level: level,
        last_trained: day.to_string(),
    }
}

fn house(id: &str, size: &str, material: &str, dog: Option<&str>) -> DogHouse {
    DogHouse {
        id: id.to_string(),
        size: size.to_string(),
        material: material.to_string(),
        assigned_dog_id: dog.map(|d| d.to_string()),
    }
}

fn grooming(dog_id: &str, date: &str, service: &str, price: f64) -> GroomingRecord {
    GroomingRecord {
        dog_id: dog_id.to_string(),
        date: date.to_string(),
        service_type: service.to_string(),
        price: amount(price),
    }
}

fn health(dog_id: &str, weight: f64, shots: &[&str], day: &str) -> HealthRecord {
    HealthRecord {
        dog_id: dog_id.to_string(),
        weight: amount(weight),
        vaccinations: shots.iter().map(|s| s.to_string()).collect(),
        last_checkup: day.to_string(),
    }
}

#[test]
fn text_order_is_that_of_the_bytes() {
    assert!(text_at_most("", ""));
    assert!(text_at_most("", "a"));
    assert!(!text_at_most("a", ""));
    assert!(text_at_most("a", "a"));
    assert!(text_at_most("a", "b"));
    assert!(!text_at_most("b", "a"));
    assert!(text_at_most("ab", "abc"));
    assert!(!text_at_most("abc", "ab"));
    assert!(text_at_most("10", "2"));
    assert!(text_at_most("Z", "a"));
    assert!(text_at_most("z", "é"));
    assert!(!text_at_most("é", "z"));
    assert!(text_at_most("2024-01-31", "2024-02-01"));
}

#[test]
fn dogs_compare_by_id_then_age_then_name() {
    let dog = |id: &str, name: &str, age: u32| Dog {
        id: id.to_string(),
        name: name.to_string(),
        age,
    };
    let a = dog("1", "Zed", 9);
    let b = dog("2", "Amy", 1);
    assert!(ByIdThenAgeThenName::at_most(&a, &b));
    assert!(!ByIdThenAgeThenName::at_most(&b, &a));
    let c = dog("1", "Amy", 10);
    assert!(ByIdThenAgeThenName::at_most(&a, &c));
    assert!(!ByIdThenAgeThenName::at_most(&c, &a));
    let d = dog("1", "Amy", 9);
    assert!(ByIdThenAgeThenName::at_most(&d, &a));
    assert!(!ByIdThenAgeThenName::at_most(&a, &d));
    assert!(ByIdThenAgeThenName::at_most(&a, &a));
}

#[test]
fn one_sort_by_all_keys_is_three_sorts_in_a_row() {
    let dog = |id: &str, name: &str, age: u32| Dog {
        id: id.to_string(),
        name: name.to_string(),
        age,
    };
    let dogs = vec![
        dog("b", "Kim", 3),
        dog("a", "Zoe", 3),
        dog("b", "Ann", 3),
        dog("a", "Zoe", 1),
        dog("b", "Ann", 2),
        dog("a", "Bob", 3),
    ];
    let mut once = dogs.clone();
    sort_by_key::<Dog, ByIdThenAgeThenName>(&mut once);
    let mut repository = DogRepository::new();
    for d in dogs {
        repository.add_dog(d);
    }
    assert_eq!(repository.get_dogs(), once);
    let ids: Vec<(&str, u32, &str)> =
        once.iter().map(|d| (d.id.as_str(), d.age, d.name.as_str())).collect();
    assert_eq!(
        ids,
        vec![
            ("a", 1, "Zoe"),
            ("a", 3, "Bob"),
            ("a", 3, "Zoe"),
            ("b", 2, "Ann"),
            ("b", 3, "Ann"),
            ("b", 3, "Kim"),
        ]
    );
}

#[test]
fn small_steps_of_the_services() {
    let texts: Vec<String> = ["rabies", "Parvo", ""].iter().map(|s| s.to_string()).collect();
    assert_eq!(all_to_upper(&texts), vec!["RABIES", "PARVO", ""]);
    let records = vec![training("1", "sit", 3, "a"), training("2", "beg", 1, "b")];
    assert_eq!(skills_of_records(&records), vec!["sit", "beg"]);
    let checks = vec![health("1", 12.5, &[], "2024-03-01"), health("2", 7.0, &[], "2024-01-01")];
    assert_eq!(
        weights_of_records(&checks),
        vec![("2024-03-01".to_string(), amount(12.5)), ("2024-01-01".to_string(), amount(7.0))]
    );
}

#[test]
fn sort_keeps_the_order_of_equals() {
    let mut dogs = vec![
        Dog { id: "c".to_string(), name: "C".to_string(), age: 2 },
        Dog { id: "a".to_string(), name: "A".to_string(), age: 1 },
        Dog { id: "b".to_string(), name: "B".to_string(), age: 2 },
        Dog { id: "d".to_string(), name: "D".to_string(), age: 1 },
    ];
    sort_by_key::<Dog, ByAge>(&mut dogs);
    let ids: Vec<&str> = dogs.iter().map(|d| d.id.as_str()).collect();
    assert_eq!(ids, vec!["a", "d", "c", "b"]);
}

#[test]
fn sort_by_proficiency_ascends() {
    let mut records = vec![
        training("1", "a", 200, "x"),
        training("1", "b", 0, "x"),
        training("1", "c", 255, "x"),
        training("1", "d", 17, "x"),
    ];
    sort_by_key::<TrainingRecord, ByProficiency>(&mut records);
    let levels: Vec<u8> = records.iter().map(|r| r.proficiency_level).collect();
    assert_eq!(levels, vec![0, 17, 200, 255]);
}

#[test]
fn texts_sort_by_code_point_and_prefix_first() {
    let mut texts: Vec<String> =
        ["b", "ab", "", "a", "B", "é", "z"].iter().map(|s| s.to_string()).collect();
    sort_by_key::<String, Alphabetical>(&mut texts);
    assert_eq!(texts, vec!["", "B", "a", "ab", "b", "z", "é"]);
}

#[test]
fn training_history_holds_the_records_of_the_dog_in_upper_case() {
    let service = TrainingService {
        records: vec![
            training("1", "sit", 3, "2024-01-02"),
            training("2", "stay", 4, "2024-01-01"),
            training("1", "Roll over", 1, "2024-01-01"),
        ],
    };
    assert_eq!(
        service.get_training_history("1"),
        vec![training("1", "SIT", 3, "2024-01-02"), training("1", "ROLL OVER", 1, "2024-01-01")]
    );
    assert!(service.get_training_history("3").is_empty());
    assert_eq!(service.records.len(), 3);
    assert_eq!(service.records[0].skill, "sit");
}

#[test]
fn training_pass_upper_cases_once() {
    let records = vec![training("1", "sit", 3, "d"), training("2", "stay", 4, "d")];
    assert_eq!(training_pass(&records, "2"), vec![training("2", "STAY", 4, "d")]);
}

#[test]
fn skills_are_sorted_and_named_once() {
    let service = TrainingService {
        records: vec![
            training("1", "sit", 3, "a"),
            training("1", "fetch", 3, "b"),
            training("1", "Sit", 3, "c"),
            training("2", "beg", 3, "d"),
            training("1", "fetch", 9, "e"),
        ],
    };
    assert_eq!(service.get_dog_skills("1"), vec!["FETCH".to_string(), "SIT".to_string()]);
    assert!(service.get_dog_skills("nobody").is_empty());
}

#[test]
fn drop_repeats_looks_at_neighbours_only() {
    let texts: Vec<String> = ["a", "a", "b", "a", "a", "a", "c"].iter().map(|s| s.to_string()).collect();
    assert_eq!(drop_repeats(&texts), vec!["a", "b", "a", "c"]);
    assert!(drop_repeats(&Vec::new()).is_empty());
}

#[test]
fn added_training_record_leaves_no_trace() {
    let service = TrainingService { records: vec![training("1", "sit", 3, "2024-01-02")] };
    service.add_training_record(training("1", "stay", 5, "2024-01-03"));
    service.add_training_record(training("9", "beg", 5, "2024-01-03"));
    assert_eq!(service.get_training_history("1"), vec![training("1", "SIT", 3, "2024-01-02")]);
    assert!(service.get_training_history("9").is_empty());
    assert_eq!(service.get_dog_skills("1"), vec!["SIT".to_string()]);
    assert_eq!(service.records.len(), 1);

    let empty = TrainingService::new();
    empty.add_training_record(training("1", "stay", 5, "2024-01-03"));
    assert!(empty.get_training_history("1").is_empty());
    assert!(empty.records.is_empty());
}

#[test]
fn added_house_and_assignment_leave_no_trace() {
    let service = DogHouseService::new();
    service.add_dog_house(house("h1", "small", "wood", None));
    assert!(service.get_available_houses().is_empty());
    service.assign_dog_to_house("1", "h1");
    assert!(service.get_dog_house("1").is_none());
    assert!(service.houses.is_empty());

    let kept = DogHouseService { houses: vec![house("h1", "small", "wood", None)] };
    kept.add_dog_house(house("h0", "big", "steel", None));
    kept.assign_dog_to_house("1", "h1");
    assert!(kept.get_dog_house("1").is_none());
    assert_eq!(kept.get_available_houses(), vec![house("h1", "SMALL", "wood", None)]);
    assert_eq!(kept.houses, vec![house("h1", "small", "wood", None)]);
}

#[test]
fn house_of_a_dog_is_the_first_assigned_to_it() {
    let service = DogHouseService {
        houses: vec![
            house("h1", "small", "wood", None),
            house("h2", "medium", "brick", Some("7")),
            house("h3", "large", "steel", Some("8")),
            house("h4", "huge", "stone", Some("7")),
        ],
    };
    assert_eq!(service.get_dog_house("7"), Some(house("h2", "medium", "brick", Some("7"))));
    assert_eq!(service.get_dog_house("8"), Some(house("h3", "large", "steel", Some("8"))));
    assert_eq!(service.get_dog_house("9"), None);
    assert_eq!(service.get_dog_house(""), None);
    assert_eq!(service.get_available_houses(), vec![house("h1", "SMALL", "wood", None)]);
}

#[test]
fn passes_over_houses() {
    let houses = vec![
        house("h1", "small", "wood", None),
        house("h2", "medium", "brick", Some("7")),
        house("h1", "large", "steel", Some("8")),
    ];
    assert_eq!(search_pass(&houses, "7"), vec![house("h2", "medium", "brick", Some("7"))]);
    assert_eq!(available_pass(&houses), vec![house("h1", "SMALL", "wood", None)]);
    assert_eq!(
        assignment_pass(&houses, "5", "h1"),
        vec![
            house("h1", "small", "wood", Some("5")),
            house("h2", "medium", "brick", Some("7")),
            house("h1", "large", "steel", Some("5")),
        ]
    );
    assert_eq!(assignment_pass(&houses, "5", "none"), houses);
}

#[test]
fn grooming_entries_hold_the_records_of_the_dog_with_the_price_as_stored() {
    let service = GroomingService {
        records: vec![
            grooming("1", "2024-02-01", "bath", 20.0),
            grooming("2", "2024-01-01", "trim", 35.5),
            grooming("1", "2024-01-15", "Nail clip", 12.25),
        ],
    };
    assert_eq!(
        service.grooming_entries("1"),
        vec![
            grooming("1", "2024-02-01", "BATH", 20.0),
            grooming("1", "2024-01-15", "NAIL CLIP", 12.25),
        ]
    );
    assert!(service.grooming_entries("3").is_empty());
    assert_eq!(grooming_pass(&service.records, "2"), vec![grooming("2", "2024-01-01", "TRIM", 35.5)]);
}

#[test]
fn added_grooming_record_leaves_no_trace() {
    let service = GroomingService::new();
    service.add_grooming_record(grooming("1", "2024-02-01", "bath", 20.0));
    assert!(service.grooming_entries("1").is_empty());
    assert!(service.records.is_empty());
}

#[test]
fn health_entries_hold_the_records_of_the_dog_with_the_weight_as_stored() {
    let service = HealthService {
        records: vec![
            health("1", 10.5, &["rabies", "Parvo"], "2024-02-01"),
            health("2", 30.0, &["rabies"], "2024-01-01"),
            health("1", 11.2, &[], "2024-01-01"),
        ],
    };
    assert_eq!(
        service.health_entries("1"),
        vec![
            health("1", 10.5, &["RABIES", "PARVO"], "2024-02-01"),
            health("1", 11.2, &[], "2024-01-01"),
        ]
    );
    assert!(service.health_entries("x").is_empty());
    assert_eq!(health_pass(&service.records, "2"), vec![health("2", 30.0, &["RABIES"], "2024-01-01")]);
}

#[test]
fn added_health_record_leaves_no_trace() {
    let service = HealthService::new();
    service.add_health_record(health("1", 10.5, &["rabies"], "2024-02-01"));
    assert!(service.health_entries("1").is_empty());
    assert!(service.records.is_empty());
}

#[test]
fn weight_history_goes_by_day_and_keeps_the_order_within_a_day() {
    let history = vec![
        health("1", 12.0, &[], "2024-03-01"),
        health("1", 10.0, &[], "2024-01-01"),
        health("1", 11.0, &[], "2024-03-01"),
        health("1", 9.0, &[], "2023-12-31"),
    ];
    assert_eq!(
        weight_history_of(&history),
        vec![
            ("2023-12-31".to_string(), amount(9.0)),
            ("2024-01-01".to_string(), amount(10.0)),
            ("2024-03-01".to_string(), amount(12.0)),
            ("2024-03-01".to_string(), amount(11.0)),
        ]
    );
    assert!(weight_history_of(&Vec::new()).is_empty());
}
