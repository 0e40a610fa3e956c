//! The housing service: which dog lives in which house.

use vstd::prelude::*;
use crate::sequences::{lemma_views_ends, lemma_views_prefix, lemma_views_push, views};
use crate::sorting::{sort_by_key, SortKey};
use crate::static_traits::records::{optional_view, DogHouse, DogHouseView};
use crate::text::{
    lemma_text_le_total,
    lemma_text_le_transitive,
    text_at_most,
    text_le,
    to_upper,
    uppercase_times,
};

verus! {

/// How often adding a house sorts its copy of the houses.
pub const HOUSE_ADD_ROUNDS: usize = 400;

/// How many passes an assignment takes.
pub const ASSIGNMENT_PASSES: usize = 300;

/// How many passes the search for the house of a dog takes.
pub const HOUSE_SEARCH_PASSES: usize = 200;

/// How many passes the list of free houses takes.
pub const AVAILABLE_PASSES: usize = 300;

/// What is asked of a housing service.
pub trait DogHouseServiceTrait: Send + Sync {
    /// The house of a dog as `get_dog_house` hands it out.
    /// An implementation that does not say leaves it unknown.
    open spec fn dog_house(&self, dog_id: Seq<char>) -> Option<DogHouseView> {
        arbitrary()
    }

    /// The free houses as `get_available_houses` hands them out.
    /// An implementation that does not say leaves it unknown.
    open spec fn available_houses(&self) -> Seq<DogHouseView> {
        arbitrary()
    }

    /// Takes note of a house.
    fn add_dog_house(&self, house: DogHouse);

    /// Takes note that the dog `dog_id` moves into the house `house_id`.
    fn assign_dog_to_house(&self, dog_id: &str, house_id: &str);

    /// The house of the dog `dog_id`, if it has one.
    fn get_dog_house(&self, dog_id: &str) -> (house: Option<DogHouse>)
        ensures
            optional_view(house) == self.dog_house(dog_id@),
    ;

    /// The houses that no dog lives in.
    fn get_available_houses(&self) -> (houses: Vec<DogHouse>)
        ensures
            views(houses@) == self.available_houses(),
    ;
}

/// The order of houses by id.
pub struct ByHouseId;

/// The order of houses by size.
pub struct BySize;

impl SortKey<DogHouse> for ByHouseId {
    open spec fn le(a: DogHouseView, b: DogHouseView) -> bool {
        text_le(a.id, b.id)
    }

    fn at_most(a: &DogHouse, b: &DogHouse) -> (r: bool) {
        text_at_most(a.id.as_str(), b.id.as_str())
    }

    proof fn lemma_total(a: DogHouseView, b: DogHouseView) {
        lemma_text_le_total(a.id, b.id);
    }

    proof fn lemma_transitive(a: DogHouseView, b: DogHouseView, c: DogHouseView) {
        lemma_text_le_transitive(a.id, b.id, c.id);
    }
}

impl SortKey<DogHouse> for BySize {
    open spec fn le(a: DogHouseView, b: DogHouseView) -> bool {
        text_le(a.size, b.size)
    }

    fn at_most(a: &DogHouse, b: &DogHouse) -> (r: bool) {
        text_at_most(a.size.as_str(), b.size.as_str())
    }

    proof fn lemma_total(a: DogHouseView, b: DogHouseView) {
        lemma_text_le_total(a.size, b.size);
    }

    proof fn lemma_transitive(a: DogHouseView, b: DogHouseView, c: DogHouseView) {
        lemma_text_le_transitive(a.size, b.size, c.size);
    }
}

/// The houses in which the dog `dog_id` lives, in the order given.
pub open spec fn houses_of(houses: Seq<DogHouseView>, dog_id: Seq<char>) -> Seq<DogHouseView>
    decreases houses.len(),
{
    if houses.len() == 0 {
        Seq::empty()
    } else if houses.last().assigned_dog_id == Some(dog_id) {
        houses_of(houses.drop_last(), dog_id).push(houses.last())
    } else {
        houses_of(houses.drop_last(), dog_id)
    }
}

/// The first house in which the dog `dog_id` lives.
pub open spec fn first_house_of(houses: Seq<DogHouseView>, dog_id: Seq<char>) -> Option<
    DogHouseView,
> {
    if houses_of(houses, dog_id).len() > 0 {
        Some(houses_of(houses, dog_id)[0])
    } else {
        None
    }
}

/// A free house with its size upper-cased `times` times in a row.
pub open spec fn offered(house: DogHouseView, times: nat) -> DogHouseView {
    DogHouseView {
        id: house.id,
        size: uppercase_times(house.size, times),
        material: house.material,
        assigned_dog_id: None,
    }
}

/// The houses that no dog lives in, in the order given, the size of each
/// upper-cased `times` times in a row.
pub open spec fn free_houses(houses: Seq<DogHouseView>, times: nat) -> Seq<DogHouseView>
    decreases houses.len(),
{
    if houses.len() == 0 {
        Seq::empty()
    } else if houses.last().assigned_dog_id is None {
        free_houses(houses.drop_last(), times).push(offered(houses.last(), times))
    } else {
        free_houses(houses.drop_last(), times)
    }
}

/// The houses with the dog `dog_id` moved into each house whose id is
/// `house_id`.
pub open spec fn assigned(
    houses: Seq<DogHouseView>,
    dog_id: Seq<char>,
    house_id: Seq<char>,
) -> Seq<DogHouseView> {
    Seq::new(
        houses.len(),
        |i: int|
            if houses[i].id == house_id {
                DogHouseView {
                    id: houses[i].id,
                    size: houses[i].size,
                    material: houses[i].material,
                    assigned_dog_id: Some(dog_id),
                }
            } else {
                houses[i]
            },
    )
}

/// Searching the houses of a dog once more finds the same houses.
pub proof fn lemma_houses_of_again(houses: Seq<DogHouseView>, dog_id: Seq<char>)
    ensures
        houses_of(houses_of(houses, dog_id), dog_id) == houses_of(houses, dog_id),
    decreases houses.len(),
{
    if houses.len() > 0 {
        let front = houses.drop_last();
        lemma_houses_of_again(front, dog_id);
        if houses.last().assigned_dog_id == Some(dog_id) {
            let kept = houses_of(front, dog_id);
            assert(kept.push(houses.last()).drop_last() =~= kept);
        }
    }
}

/// One more pass over the free houses adds one upper-casing to each size and
/// drops nothing.
pub proof fn lemma_free_houses_pass(houses: Seq<DogHouseView>, times: nat)
    ensures
        free_houses(free_houses(houses, times), 1) == free_houses(houses, times + 1),
    decreases houses.len(),
{
    reveal_with_fuel(uppercase_times, 2);
    if houses.len() > 0 {
        let front = houses.drop_last();
        lemma_free_houses_pass(front, times);
        if houses.last().assigned_dog_id is None {
            let kept = free_houses(front, times);
            let one = offered(houses.last(), times);
            assert(kept.push(one).drop_last() =~= kept);
            assert(offered(one, 1) == offered(houses.last(), times + 1));
        }
    }
}

/// Whether `house` is one of `houses` that no dog lives in, with its size
/// upper-cased `times` times in a row.
pub open spec fn offered_from(house: DogHouseView, houses: Seq<DogHouseView>, times: nat) -> bool {
    exists|j: int|
        0 <= j < houses.len() && (#[trigger] houses[j]).assigned_dog_id is None && house
            == offered(houses[j], times)
}

/// The houses of a dog are houses given in which the dog lives, and the free
/// houses are houses given in which no dog lives: what was not among the
/// houses does not show.
pub proof fn lemma_houses_given(houses: Seq<DogHouseView>, dog_id: Seq<char>, times: nat)
    ensures
        houses_of(houses, dog_id).len() <= houses.len(),
        forall|i: int|
            0 <= i < houses_of(houses, dog_id).len() ==> (#[trigger] houses_of(
                houses,
                dog_id,
            )[i]).assigned_dog_id == Some(dog_id) && houses.contains(houses_of(houses, dog_id)[i]),
        free_houses(houses, times).len() <= houses.len(),
        forall|i: int|
            0 <= i < free_houses(houses, times).len() ==> offered_from(
                #[trigger] free_houses(houses, times)[i],
                houses,
                times,
            ),
    decreases houses.len(),
{
    if houses.len() > 0 {
        let front = houses.drop_last();
        lemma_houses_given(front, dog_id, times);
        let lived = houses_of(houses, dog_id);
        assert forall|i: int| 0 <= i < lived.len() implies houses.contains(#[trigger] lived[i]) by {
            if i < houses_of(front, dog_id).len() {
                assert(front.contains(houses_of(front, dog_id)[i]));
                let j = choose|j: int| 0 <= j < front.len() && front[j] == lived[i];
                assert(houses[j] == lived[i]);
            } else {
                assert(lived[i] == houses[houses.len() - 1]);
            }
        }
        let free = free_houses(houses, times);
        assert forall|i: int| 0 <= i < free.len() implies offered_from(
            #[trigger] free[i],
            houses,
            times,
        ) by {
            if i < free_houses(front, times).len() {
                assert(offered_from(free_houses(front, times)[i], front, times));
                let j = choose|j: int|
                    0 <= j < front.len() && (#[trigger] front[j]).assigned_dog_id is None
                        && free[i] == offered(front[j], times);
                assert(houses[j] == front[j]);
            } else {
                assert(houses[houses.len() - 1].assigned_dog_id is None);
                assert(free[i] == offered(houses[houses.len() - 1], times));
            }
        }
    }
}

/// Where no house is kept, no house is free and no dog has a house.
pub proof fn lemma_no_houses(houses: Seq<DogHouseView>, dog_id: Seq<char>, times: nat)
    requires
        houses.len() == 0,
    ensures
        free_houses(houses, times) == Seq::<DogHouseView>::empty(),
        first_house_of(houses, dog_id) is None,
{
}

/// One pass of the search: the houses in which the dog `dog_id` lives.
pub fn search_pass(houses: &Vec<DogHouse>, dog_id: &str) -> (kept: Vec<DogHouse>)
    ensures
        views(kept@) == houses_of(views(houses@), dog_id@),
{
    let wanted: String = dog_id.to_owned();
    let mut kept: Vec<DogHouse> = Vec::new();
    let mut i: usize = 0;
    proof {
        lemma_views_ends(houses@);
        assert(views(kept@) =~= Seq::<DogHouseView>::empty());
    }
    while i < houses.len()
        invariant
            i <= houses.len(),
            wanted@ == dog_id@,
            views(kept@) == houses_of(views(houses@.subrange(0, i as int)), dog_id@),
        decreases houses.len() - i,
    {
        proof {
            lemma_views_prefix(houses@, i as int);
        }
        let house = &houses[i];
        let lives_here = match &house.assigned_dog_id {
            Some(dog) => *dog == wanted,
            None => false,
        };
        if lives_here {
            let one = house.clone();
            proof {
                lemma_views_push(kept@, one);
            }
            kept.push(one);
        }
        i = i + 1;
    }
    proof {
        lemma_views_ends(houses@);
    }
    kept
}

/// One pass over the free houses: those that no dog lives in, each with its
/// size upper-cased once.
pub fn available_pass(houses: &Vec<DogHouse>) -> (kept: Vec<DogHouse>)
    ensures
        views(kept@) == free_houses(views(houses@), 1),
{
    let mut kept: Vec<DogHouse> = Vec::new();
    let mut i: usize = 0;
    proof {
        lemma_views_ends(houses@);
        assert(views(kept@) =~= Seq::<DogHouseView>::empty());
        reveal_with_fuel(uppercase_times, 2);
    }
    while i < houses.len()
        invariant
            i <= houses.len(),
            views(kept@) == free_houses(views(houses@.subrange(0, i as int)), 1),
        decreases houses.len() - i,
    {
        proof {
            lemma_views_prefix(houses@, i as int);
            reveal_with_fuel(uppercase_times, 2);
        }
        let house = &houses[i];
        if house.assigned_dog_id.is_none() {
            let one = DogHouse {
                id: house.id.clone(),
                size: to_upper(house.size.as_str()),
                material: house.material.clone(),
                assigned_dog_id: None,
            };
            proof {
                lemma_views_push(kept@, one);
            }
            kept.push(one);
        }
        i = i + 1;
    }
    proof {
        lemma_views_ends(houses@);
    }
    kept
}

/// One pass of an assignment: the houses, with the dog `dog_id` moved into
/// each house whose id is `house_id`.
pub fn assignment_pass(houses: &Vec<DogHouse>, dog_id: &str, house_id: &str) -> (changed: Vec<
    DogHouse,
>)
    ensures
        views(changed@) == assigned(views(houses@), dog_id@, house_id@),
{
    let wanted: String = house_id.to_owned();
    let mut changed: Vec<DogHouse> = Vec::new();
    let mut i: usize = 0;
    while i < houses.len()
        invariant
            i <= houses.len(),
            wanted@ == house_id@,
            changed@.len() == i,
            forall|j: int|
                0 <= j < i ==> (#[trigger] changed@[j])@ == assigned(
                    views(houses@),
                    dog_id@,
                    house_id@,
                )[j],
        decreases houses.len() - i,
    {
        let house = &houses[i];
        if house.id == wanted {
            changed.push(
                DogHouse {
                    id: house.id.clone(),
                    size: house.size.clone(),
                    material: house.material.clone(),
                    assigned_dog_id: Some(dog_id.to_owned()),
                },
            );
        } else {
            changed.push(house.clone());
        }
        i = i + 1;
    }
    assert(views(changed@) =~= assigned(views(houses@), dog_id@, house_id@));
    changed
}

/// The houses in memory.
pub struct DogHouseService {
    pub houses: Vec<DogHouse>,
}

impl DogHouseService {
    /// A service without houses.
    pub fn new() -> (service: Self)
        ensures
            service.houses@.len() == 0,
    {
        DogHouseService { houses: Vec::new() }
    }
}

impl DogHouseServiceTrait for DogHouseService {
    open spec fn dog_house(&self, dog_id: Seq<char>) -> Option<DogHouseView> {
        first_house_of(views(self.houses@), dog_id)
    }

    open spec fn available_houses(&self) -> Seq<DogHouseView> {
        free_houses(views(self.houses@), AVAILABLE_PASSES as nat)
    }

    /// Sorts a copy of the houses with `house` behind them, by id and by
    /// size, and lets the copy go: the service keeps what it had.
    fn add_dog_house(&self, house: DogHouse) {
        let mut houses = self.houses.clone();
        houses.push(house);
        let mut round: usize = 0;
        while round < HOUSE_ADD_ROUNDS
            invariant
                round <= HOUSE_ADD_ROUNDS,
            decreases HOUSE_ADD_ROUNDS - round,
        {
            sort_by_key::<DogHouse, ByHouseId>(&mut houses);
            sort_by_key::<DogHouse, BySize>(&mut houses);
            round = round + 1;
        }
    }

    /// Moves the dog into the house on a copy of the houses, and lets the
    /// copy go: the service keeps what it had.
    fn assign_dog_to_house(&self, dog_id: &str, house_id: &str) {
        let mut houses = self.houses.clone();
        let mut pass: usize = 0;
        while pass < ASSIGNMENT_PASSES
            invariant
                pass <= ASSIGNMENT_PASSES,
            decreases ASSIGNMENT_PASSES - pass,
        {
            houses = assignment_pass(&houses, dog_id, house_id);
            pass = pass + 1;
        }
    }

    fn get_dog_house(&self, dog_id: &str) -> (house: Option<DogHouse>) {
        let mut found = search_pass(&self.houses, dog_id);
        let mut pass: usize = 1;
        while pass < HOUSE_SEARCH_PASSES
            invariant
                1 <= pass <= HOUSE_SEARCH_PASSES,
                views(found@) == houses_of(views(self.houses@), dog_id@),
            decreases HOUSE_SEARCH_PASSES - pass,
        {
            proof {
                lemma_houses_of_again(views(self.houses@), dog_id@);
            }
            found = search_pass(&found, dog_id);
            pass = pass + 1;
        }
        if found.len() > 0 {
            let first = found[0].clone();
            assert(views(found@)[0] == found@[0]@);
            Some(first)
        } else {
            None
        }
    }

    fn get_available_houses(&self) -> (houses: Vec<DogHouse>) {
        let mut free = available_pass(&self.houses);
        let mut pass: usize = 1;
        while pass < AVAILABLE_PASSES
            invariant
                1 <= pass <= AVAILABLE_PASSES,
                views(free@) == free_houses(views(self.houses@), pass as nat),
            decreases AVAILABLE_PASSES - pass,
        {
            proof {
                lemma_free_houses_pass(views(self.houses@), pass as nat);
            }
            free = available_pass(&free);
            pass = pass + 1;
        }
        free
    }
}

} // verus!
