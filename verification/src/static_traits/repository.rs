//! The store of dogs.

use vstd::prelude::*;
use crate::sequences::views;
use crate::sorting::{
    breaks_ties,
    lemma_ordered_unique,
    lemma_sorted_fixed,
    lemma_sorted_twice,
    lemma_stable_sorted,
    sort_by_key,
    stable_sorted,
    SortKey,
};
use crate::static_traits::records::{Dog, DogView};
use crate::text::{
    lemma_text_le_antisymmetric,
    lemma_text_le_total,
    lemma_text_le_transitive,
    text_at_most,
    text_le,
};

verus! {

/// How often a listing sorts its copy of the dogs by name, by age and by id.
pub const LISTING_ROUNDS: usize = 1000;

/// A store of dogs that keeps what is added to it.
pub trait DogRepositoryTrait: Send + Sync {
    /// The dogs that were added, first to last.
    /// An implementation that does not say leaves it unknown.
    open spec fn stored(&self) -> Seq<DogView> {
        arbitrary()
    }

    /// The dogs as `get_dogs` hands them out.
    /// An implementation that does not say leaves it unknown.
    open spec fn listed(&self) -> Seq<DogView> {
        arbitrary()
    }

    /// Keeps `dog` behind the dogs already stored.
    fn add_dog(&mut self, dog: Dog)
        ensures
            final(self).stored() == old(self).stored().push(dog@),
    ;

    /// A copy of the dogs, in the order of a listing.
    fn get_dogs(&self) -> (dogs: Vec<Dog>)
        ensures
            views(dogs@) == self.listed(),
    ;
}

/// The order of dogs by name.
pub struct ByName;

/// The order of dogs by age.
pub struct ByAge;

/// The order of dogs by id.
pub struct ById;

impl SortKey<Dog> for ByName {
    open spec fn le(a: DogView, b: DogView) -> bool {
        text_le(a.name, b.name)
    }

    fn at_most(a: &Dog, b: &Dog) -> (r: bool) {
        text_at_most(a.name.as_str(), b.name.as_str())
    }

    proof fn lemma_total(a: DogView, b: DogView) {
        lemma_text_le_total(a.name, b.name);
    }

    proof fn lemma_transitive(a: DogView, b: DogView, c: DogView) {
        lemma_text_le_transitive(a.name, b.name, c.name);
    }
}

impl SortKey<Dog> for ByAge {
    open spec fn le(a: DogView, b: DogView) -> bool {
        a.age <= b.age
    }

    fn at_most(a: &Dog, b: &Dog) -> (r: bool) {
        a.age <= b.age
    }

    proof fn lemma_total(a: DogView, b: DogView) {
    }

    proof fn lemma_transitive(a: DogView, b: DogView, c: DogView) {
    }
}

impl SortKey<Dog> for ById {
    open spec fn le(a: DogView, b: DogView) -> bool {
        text_le(a.id, b.id)
    }

    fn at_most(a: &Dog, b: &Dog) -> (r: bool) {
        text_at_most(a.id.as_str(), b.id.as_str())
    }

    proof fn lemma_total(a: DogView, b: DogView) {
        lemma_text_le_total(a.id, b.id);
    }

    proof fn lemma_transitive(a: DogView, b: DogView, c: DogView) {
        lemma_text_le_transitive(a.id, b.id, c.id);
    }
}

/// The order of dogs by age and, among dogs of one age, by name.
pub struct ByAgeThenName;

/// The order of dogs by id, among dogs of one id by age, and among those of
/// one age by name.
pub struct ByIdThenAgeThenName;

impl SortKey<Dog> for ByAgeThenName {
    open spec fn le(a: DogView, b: DogView) -> bool {
        ByAge::le(a, b) && (ByAge::le(b, a) ==> ByName::le(a, b))
    }

    fn at_most(a: &Dog, b: &Dog) -> (r: bool) {
        ByAge::at_most(a, b) && (!ByAge::at_most(b, a) || ByName::at_most(a, b))
    }

    proof fn lemma_total(a: DogView, b: DogView) {
        ByName::lemma_total(a, b);
    }

    proof fn lemma_transitive(a: DogView, b: DogView, c: DogView) {
        if ByAge::le(c, a) {
            ByName::lemma_transitive(a, b, c);
        }
    }
}

impl SortKey<Dog> for ByIdThenAgeThenName {
    open spec fn le(a: DogView, b: DogView) -> bool {
        ById::le(a, b) && (ById::le(b, a) ==> ByAgeThenName::le(a, b))
    }

    fn at_most(a: &Dog, b: &Dog) -> (r: bool) {
        ById::at_most(a, b) && (!ById::at_most(b, a) || ByAgeThenName::at_most(a, b))
    }

    proof fn lemma_total(a: DogView, b: DogView) {
        ById::lemma_total(a, b);
        ByAgeThenName::lemma_total(a, b);
    }

    proof fn lemma_transitive(a: DogView, b: DogView, c: DogView) {
        ById::lemma_transitive(a, b, c);
        if ById::le(c, a) {
            ById::lemma_transitive(c, a, b);
            ById::lemma_transitive(b, c, a);
            ByAgeThenName::lemma_transitive(a, b, c);
        }
    }
}

/// One round of a listing: the dogs sorted by name, then by age, then by id,
/// each sort keeping the order of the one before among equals.
pub open spec fn listing_round(dogs: Seq<DogView>) -> Seq<DogView> {
    stable_sorted::<Dog, ById>(stable_sorted::<Dog, ByAge>(stable_sorted::<Dog, ByName>(dogs)))
}

/// The dogs after `rounds` rounds of a listing.
pub open spec fn listing(dogs: Seq<DogView>, rounds: nat) -> Seq<DogView>
    decreases rounds,
{
    if rounds == 0 {
        dogs
    } else {
        listing_round(listing(dogs, (rounds - 1) as nat))
    }
}

/// The dogs by id, dogs of one id by age, dogs of one id and age by name,
/// and dogs that agree in all three in the order given.
pub open spec fn by_id_age_name(dogs: Seq<DogView>) -> Seq<DogView> {
    stable_sorted::<Dog, ByIdThenAgeThenName>(dogs)
}

/// However many rounds a listing takes, if it takes one, it hands out the
/// dogs by id, age and name: the last sort decides first, and a round over
/// dogs in that order changes nothing.
pub proof fn lemma_listing_settles(dogs: Seq<DogView>, rounds: nat)
    requires
        rounds > 0,
    ensures
        listing(dogs, rounds) == by_id_age_name(dogs),
    decreases rounds,
{
    let before = listing(dogs, (rounds - 1) as nat);
    assert(breaks_ties::<Dog, ByAgeThenName, ByAge, ByName>());
    assert(breaks_ties::<Dog, ByIdThenAgeThenName, ById, ByAgeThenName>());
    lemma_sorted_twice::<Dog, ByAgeThenName, ByAge, ByName>(before);
    lemma_sorted_twice::<Dog, ByIdThenAgeThenName, ById, ByAgeThenName>(before);
    assert(listing_round(before) == by_id_age_name(before));
    if rounds > 1 {
        lemma_listing_settles(dogs, (rounds - 1) as nat);
        lemma_stable_sorted::<Dog, ByIdThenAgeThenName>(dogs);
        lemma_sorted_fixed::<Dog, ByIdThenAgeThenName>(by_id_age_name(dogs));
    }
}

/// Whether the ids of `dogs` ascend from first to last.
pub open spec fn ascending_ids(dogs: Seq<DogView>) -> bool {
    forall|i: int, j: int| 0 <= i < j < dogs.len() ==> text_le(#[trigger] dogs[i].id, #[trigger] dogs[j].id)
}

/// A listing hands out every dog given, each as often as it is given, with
/// the ids ascending.
pub proof fn lemma_listed_ascends(dogs: Seq<DogView>)
    ensures
        by_id_age_name(dogs).to_multiset() == dogs.to_multiset(),
        by_id_age_name(dogs).len() == dogs.len(),
        ascending_ids(by_id_age_name(dogs)),
{
    let listed = by_id_age_name(dogs);
    lemma_stable_sorted::<Dog, ByIdThenAgeThenName>(dogs);
    assert forall|i: int, j: int| 0 <= i < j < listed.len() implies text_le(
        #[trigger] listed[i].id,
        #[trigger] listed[j].id,
    ) by {
        assert(ByIdThenAgeThenName::le(listed[i], listed[j]));
    }
}

/// Where no two dogs share an id, a listing is the dogs sorted by id.
pub proof fn lemma_listed_of_distinct_ids(dogs: Seq<DogView>)
    requires
        forall|i: int, j: int|
            0 <= i < dogs.len() && 0 <= j < dogs.len() && i != j ==> (#[trigger] dogs[i]).id != (
            #[trigger] dogs[j]).id,
    ensures
        by_id_age_name(dogs) == stable_sorted::<Dog, ById>(dogs),
{
    broadcast use vstd::seq_lib::group_to_multiset_ensures;

    let by_id = stable_sorted::<Dog, ById>(dogs);
    let listed = by_id_age_name(dogs);
    lemma_stable_sorted::<Dog, ById>(dogs);
    lemma_listed_ascends(dogs);
    assert(dogs.no_duplicates());
    dogs.lemma_multiset_has_no_duplicates();
    by_id.lemma_multiset_has_no_duplicates_conv();
    assert forall|i: int, j: int| 0 <= i < j < by_id.len() implies ById::le(
        #[trigger] by_id[i],
        #[trigger] by_id[j],
    ) && !ById::le(by_id[j], by_id[i]) by {
        assert(ById::le(by_id[i], by_id[j]));
        if ById::le(by_id[j], by_id[i]) {
            lemma_text_le_antisymmetric(by_id[i].id, by_id[j].id);
            assert(dogs.to_multiset().count(by_id[i]) > 0);
            assert(dogs.to_multiset().count(by_id[j]) > 0);
            let p = choose|p: int| 0 <= p < dogs.len() && dogs[p] == by_id[i];
            let q = choose|q: int| 0 <= q < dogs.len() && dogs[q] == by_id[j];
            assert(by_id[i] != by_id[j]);
            assert(p != q);
        }
    }
    assert forall|i: int, j: int| 0 <= i < j < listed.len() implies ById::le(
        #[trigger] listed[i],
        #[trigger] listed[j],
    ) by {
        assert(text_le(listed[i].id, listed[j].id));
    }
    lemma_ordered_unique::<Dog, ById>(by_id, listed);
}

/// The dogs in memory, in the order they were added.
pub struct DogRepository {
    pub dogs: Vec<Dog>,
}

impl DogRepository {
    /// A store without dogs.
    pub fn new() -> (r: Self)
        ensures
            r.stored() == Seq::<DogView>::empty(),
    {
        let r = DogRepository { dogs: Vec::new() };
        assert(views(r.dogs@) =~= Seq::<DogView>::empty());
        r
    }
}

impl DogRepositoryTrait for DogRepository {
    open spec fn stored(&self) -> Seq<DogView> {
        views(self.dogs@)
    }

    open spec fn listed(&self) -> Seq<DogView> {
        by_id_age_name(self.stored())
    }

    fn add_dog(&mut self, dog: Dog) {
        self.dogs.push(dog);
        assert(views(self.dogs@) =~= views(old(self).dogs@).push(dog@));
    }

    fn get_dogs(&self) -> (dogs: Vec<Dog>) {
        let mut dogs = self.dogs.clone();
        assert(views(dogs@) =~= views(self.dogs@));
        let mut round: usize = 0;
        while round < LISTING_ROUNDS
            invariant
                round <= LISTING_ROUNDS,
                views(dogs@) == listing(self.stored(), round as nat),
            decreases LISTING_ROUNDS - round,
        {
            sort_by_key::<Dog, ByName>(&mut dogs);
            sort_by_key::<Dog, ByAge>(&mut dogs);
            sort_by_key::<Dog, ById>(&mut dogs);
            round = round + 1;
        }
        proof {
            lemma_listing_settles(self.stored(), LISTING_ROUNDS as nat);
        }
        dogs
    }
}

} // verus!
