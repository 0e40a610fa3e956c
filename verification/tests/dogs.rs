use static_vs_dynamic::no_traits;
use static_vs_dynamic::static_traits::{
    processed_pass, seeded_repository, Dog, DogRepository, DogRepositoryTrait, DogService,
    DogServiceTrait,
};

fn dog(id: &str, name: &str, age: u32) -> Dog {
    Dog { id: id.to_string(), name: name.to_string(), age }
}

#[test]
fn test_get_dogs() {
    let state = no_traits::seeded_state();
    for _ in 0..1000 {
        let dogs = no_traits::get_dogs(&state);
        assert_eq!(dogs.len(), 3);
    }
}

#[test]
fn plain_service_keeps_the_order_of_adding() {
    let state = no_traits::seeded_state();
    let dogs = no_traits::get_dogs(&state);
    assert_eq!(dogs, vec![dog("1", "Max", 5), dog("2", "Luna", 3), dog("3", "Charlie", 2)]);
}

#[test]
fn plain_service_answers_created_and_keeps_the_dog() {
    let mut state = no_traits::seeded_state();
    let reply = no_traits::add_dog(&mut state, dog("0", "Rex", 1));
    assert_eq!(reply, (201, "Dog created"));
    let dogs = no_traits::get_dogs(&state);
    assert_eq!(dogs.len(), 4);
    assert_eq!(dogs[3], dog("0", "Rex", 1));
}

#[test]
fn plain_repository_starts_empty_and_copies() {
    let mut repository = no_traits::DogRepository::new();
    assert!(repository.get_dogs().is_empty());
    repository.add_dog(dog("b", "Bo", 4));
    repository.add_dog(dog("a", "Al", 7));
    assert_eq!(repository.get_dogs(), vec![dog("b", "Bo", 4), dog("a", "Al", 7)]);
    let mut service = no_traits::DogService::new(repository);
    service.add_dog(dog("c", "Cy", 1));
    assert_eq!(service.get_dogs().len(), 3);
}

#[test]
fn repository_lists_by_id() {
    let mut repository = DogRepository::new();
    assert!(repository.get_dogs().is_empty());
    repository.add_dog(dog("3", "Charlie", 2));
    repository.add_dog(dog("1", "Max", 5));
    repository.add_dog(dog("2", "Luna", 3));
    assert_eq!(
        repository.get_dogs(),
        vec![dog("1", "Max", 5), dog("2", "Luna", 3), dog("3", "Charlie", 2)]
    );
    assert_eq!(repository.dogs[0], dog("3", "Charlie", 2));
}

#[test]
fn repository_orders_ids_as_texts() {
    let mut repository = DogRepository::new();
    repository.add_dog(dog("2", "Two", 2));
    repository.add_dog(dog("10", "Ten", 2));
    repository.add_dog(dog("1", "One", 2));
    let ids: Vec<String> = repository.get_dogs().into_iter().map(|d| d.id).collect();
    assert_eq!(ids, vec!["1".to_string(), "10".to_string(), "2".to_string()]);
}

#[test]
fn repository_breaks_ties_of_id_by_age_then_name() {
    let mut repository = DogRepository::new();
    repository.add_dog(dog("7", "Zed", 4));
    repository.add_dog(dog("7", "Amy", 4));
    repository.add_dog(dog("7", "Moe", 1));
    repository.add_dog(dog("7", "Amy", 4));
    assert_eq!(
        repository.get_dogs(),
        vec![dog("7", "Moe", 1), dog("7", "Amy", 4), dog("7", "Amy", 4), dog("7", "Zed", 4)]
    );
}

#[test]
fn seeded_repository_holds_the_three_dogs() {
    let repository = seeded_repository();
    assert_eq!(
        repository.dogs,
        vec![dog("1", "Max", 5), dog("2", "Luna", 3), dog("3", "Charlie", 2)]
    );
}

#[test]
fn dog_service_drops_dogs_of_one_year_or_less() {
    let mut service = DogService::new(DogRepository::new());
    service.add_dog(dog("a", "Pup", 1));
    service.add_dog(dog("b", "Newborn", 0));
    service.add_dog(dog("c", "Grown", 2));
    let dogs = service.get_dogs();
    assert_eq!(dogs, vec![dog("c_processed", "GROWN", 2)]);
}

#[test]
fn dog_service_marks_the_id_once_and_upper_cases_the_name() {
    let mut service = DogService::new(DogRepository::new());
    service.add_dog(dog("2", "Luna", 3));
    let dogs = service.get_dogs();
    assert_eq!(dogs, vec![dog("2_processed", "LUNA", 3)]);
}

#[test]
fn dog_service_adds_to_its_repository() {
    let mut service = DogService::new(seeded_repository());
    service.add_dog(dog("0", "Ace", 9));
    assert_eq!(service.dog_repository.dogs.len(), 4);
    assert_eq!(service.dog_repository.dogs[3], dog("0", "Ace", 9));
    let ids: Vec<String> = service.get_dogs().into_iter().map(|d| d.id).collect();
    assert_eq!(
        ids,
        vec![
            "0_processed".to_string(),
            "1_processed".to_string(),
            "2_processed".to_string(),
            "3_processed".to_string()
        ]
    );
}

#[test]
fn processed_pass_keeps_the_order_given() {
    let dogs = vec![dog("z", "last", 2), dog("y", "young", 1), dog("a", "first", 30)];
    assert_eq!(
        processed_pass(&dogs),
        vec![dog("z_processed", "LAST", 2), dog("a_processed", "FIRST", 30)]
    );
    assert!(processed_pass(&Vec::new()).is_empty());
}

#[test]
fn upper_casing_goes_beyond_ascii() {
    let dogs = vec![dog("1", "straße", 2)];
    assert_eq!(processed_pass(&dogs)[0].name, "STRASSE");
}
