//! The dog service: the store of dogs, and what a caller gets to see of it.

use vstd::prelude::*;
use vstd::string::StringExecFns;
use crate::sequences::{lemma_views_ends, lemma_views_prefix, lemma_views_push, views};
use crate::static_traits::records::{Dog, DogView};
use crate::static_traits::repository::{
    ascending_ids,
    by_id_age_name,
    lemma_listed_ascends,
    DogRepositoryTrait,
};
use crate::text::{text_le, to_upper, uppercase_of};

verus! {

/// How often the dog service works through the dogs of the store for one
/// answer.
pub const PROCESSING_PASSES: usize = 500;

/// What callers add dogs to and list dogs from.
pub trait DogServiceTrait: Send + Sync {
    /// The dogs that were added, first to last. An implementation that does
    /// not say leaves them unknown.
    open spec fn stored(&self) -> Seq<DogView> {
        arbitrary()
    }

    /// The dogs as `get_dogs` hands them out. An implementation that does
    /// not say leaves them unknown.
    open spec fn listed(&self) -> Seq<DogView> {
        arbitrary()
    }

    /// Keeps `dog` behind the dogs already stored.
    fn add_dog(&mut self, dog: Dog)
        ensures
            final(self).stored() == old(self).stored().push(dog@),
    ;

    /// The dogs that this service shows.
    fn get_dogs(&self) -> (dogs: Vec<Dog>)
        ensures
            views(dogs@) == self.listed(),
    ;
}

/// A dog as the service shows it: the id marked as processed, the name in
/// upper case, the age as it is.
pub open spec fn processed_dog(dog: DogView) -> DogView {
    DogView { id: dog.id + "_processed"@, name: uppercase_of(dog.name), age: dog.age }
}

/// The dogs older than one year, each as the service shows it, in the order
/// given.
pub open spec fn processed(dogs: Seq<DogView>) -> Seq<DogView>
    decreases dogs.len(),
{
    if dogs.len() == 0 {
        Seq::empty()
    } else if dogs.last().age > 1 {
        processed(dogs.drop_last()).push(processed_dog(dogs.last()))
    } else {
        processed(dogs.drop_last())
    }
}

/// The service shows no dog of one year or less, and each dog that it shows
/// stands for a dog given.
pub proof fn lemma_processed_ages(dogs: Seq<DogView>)
    ensures
        processed(dogs).len() <= dogs.len(),
        forall|i: int| 0 <= i < processed(dogs).len() ==> (#[trigger] processed(dogs)[i]).age > 1,
        forall|i: int|
            0 <= i < processed(dogs).len() ==> exists|j: int|
                0 <= j < dogs.len() && #[trigger] processed(dogs)[i] == processed_dog(
                    #[trigger] dogs[j],
                ),
        (forall|j: int| 0 <= j < dogs.len() ==> (#[trigger] dogs[j]).age > 1) ==> processed(
            dogs,
        ).len() == dogs.len(),
    decreases dogs.len(),
{
    if dogs.len() > 0 {
        let front = dogs.drop_last();
        lemma_processed_ages(front);
        assert forall|i: int| 0 <= i < processed(dogs).len() implies exists|j: int|
            0 <= j < dogs.len() && #[trigger] processed(dogs)[i] == processed_dog(
                #[trigger] dogs[j],
            ) by {
            if i < processed(front).len() {
                let j = choose|j: int|
                    0 <= j < front.len() && processed(front)[i] == processed_dog(front[j]);
                assert(dogs[j] == front[j]);
            } else {
                assert(processed(dogs)[i] == processed_dog(dogs[dogs.len() - 1]));
            }
        }
        if forall|j: int| 0 <= j < dogs.len() ==> (#[trigger] dogs[j]).age > 1 {
            assert forall|j: int| 0 <= j < front.len() implies (#[trigger] front[j]).age > 1 by {
                assert(front[j] == dogs[j]);
            }
            assert(dogs[dogs.len() - 1].age > 1);
        }
    }
}

/// The dogs older than one year, as they are, in the order given.
pub open spec fn grown(dogs: Seq<DogView>) -> Seq<DogView>
    decreases dogs.len(),
{
    if dogs.len() == 0 {
        Seq::empty()
    } else if dogs.last().age > 1 {
        grown(dogs.drop_last()).push(dogs.last())
    } else {
        grown(dogs.drop_last())
    }
}

/// The service shows the grown dogs one for one, and where the ids of the
/// dogs given ascend, so do the ids of the grown dogs: the order in which
/// the service shows its dogs is that of their ids before they are marked.
pub proof fn lemma_processed_keeps_order(dogs: Seq<DogView>)
    ensures
        processed(dogs).len() == grown(dogs).len(),
        forall|i: int|
            0 <= i < grown(dogs).len() ==> #[trigger] processed(dogs)[i] == processed_dog(
                grown(dogs)[i],
            ),
        forall|i: int|
            0 <= i < grown(dogs).len() ==> exists|j: int|
                0 <= j < dogs.len() && #[trigger] grown(dogs)[i] == #[trigger] dogs[j],
        ascending_ids(dogs) ==> ascending_ids(grown(dogs)),
    decreases dogs.len(),
{
    if dogs.len() > 0 {
        let front = dogs.drop_last();
        let last = dogs.last();
        lemma_processed_keeps_order(front);
        assert forall|i: int| 0 <= i < grown(dogs).len() implies exists|j: int|
            0 <= j < dogs.len() && #[trigger] grown(dogs)[i] == #[trigger] dogs[j] by {
            if i < grown(front).len() {
                let j = choose|j: int| 0 <= j < front.len() && grown(front)[i] == front[j];
                assert(dogs[j] == front[j]);
            } else {
                assert(grown(dogs)[i] == dogs[dogs.len() - 1]);
            }
        }
        if ascending_ids(dogs) {
            assert forall|i: int, j: int| 0 <= i < j < front.len() implies text_le(
                #[trigger] front[i].id,
                #[trigger] front[j].id,
            ) by {
                assert(text_le(dogs[i].id, dogs[j].id));
            }
            let kept = grown(dogs);
            assert forall|i: int, j: int| 0 <= i < j < kept.len() implies text_le(
                #[trigger] kept[i].id,
                #[trigger] kept[j].id,
            ) by {
                if j < grown(front).len() {
                    assert(text_le(grown(front)[i].id, grown(front)[j].id));
                } else {
                    let k = choose|k: int| 0 <= k < front.len() && grown(front)[i] == front[k];
                    assert(text_le(dogs[k].id, dogs[dogs.len() - 1].id));
                }
            }
        }
    }
}

/// What a dog service over a store of `stored` dogs shows: the grown dogs
/// in ascending order of their ids as stored, each marked as processed.
pub proof fn lemma_shown_by_id(stored: Seq<DogView>)
    ensures
        processed(by_id_age_name(stored)).len() == grown(by_id_age_name(stored)).len(),
        forall|i: int|
            0 <= i < grown(by_id_age_name(stored)).len() ==> #[trigger] processed(
                by_id_age_name(stored),
            )[i] == processed_dog(grown(by_id_age_name(stored))[i]),
        ascending_ids(grown(by_id_age_name(stored))),
{
    lemma_listed_ascends(stored);
    lemma_processed_keeps_order(by_id_age_name(stored));
}

/// One pass over the dogs of the store.
pub fn processed_pass(dogs: &Vec<Dog>) -> (shown: Vec<Dog>)
    ensures
        views(shown@) == processed(views(dogs@)),
{
    let mut shown: Vec<Dog> = Vec::new();
    let mut i: usize = 0;
    proof {
        lemma_views_ends(dogs@);
        assert(views(shown@) =~= Seq::<DogView>::empty());
    }
    while i < dogs.len()
        invariant
            i <= dogs.len(),
            views(shown@) == processed(views(dogs@.subrange(0, i as int))),
        decreases dogs.len() - i,
    {
        proof {
            lemma_views_prefix(dogs@, i as int);
        }
        let dog = &dogs[i];
        if dog.age > 1 {
            let one = Dog {
                id: dog.id.clone().concat("_processed"),
                name: to_upper(dog.name.as_str()),
                age: dog.age,
            };
            proof {
                lemma_views_push(shown@, one);
            }
            shown.push(one);
        }
        i = i + 1;
    }
    proof {
        lemma_views_ends(dogs@);
    }
    shown
}

/// The dog service over a store of type `R`.
pub struct DogService<R: DogRepositoryTrait> {
    pub dog_repository: R,
}

impl<R: DogRepositoryTrait> DogService<R> {
    /// The service over `dog_repository`.
    pub fn new(dog_repository: R) -> (service: Self)
        ensures
            service.dog_repository == dog_repository,
    {
        DogService { dog_repository }
    }
}

impl<R: DogRepositoryTrait> DogServiceTrait for DogService<R> {
    open spec fn stored(&self) -> Seq<DogView> {
        self.dog_repository.stored()
    }

    open spec fn listed(&self) -> Seq<DogView> {
        processed(self.dog_repository.listed())
    }

    fn add_dog(&mut self, dog: Dog) {
        self.dog_repository.add_dog(dog);
    }

    fn get_dogs(&self) -> (dogs: Vec<Dog>) {
        let listed = self.dog_repository.get_dogs();
        let mut shown = processed_pass(&listed);
        let mut pass: usize = 1;
        while pass < PROCESSING_PASSES
            invariant
                views(shown@) == processed(views(listed@)),
            decreases PROCESSING_PASSES - pass,
        {
            shown = processed_pass(&listed);
            pass = pass + 1;
        }
        shown
    }
}

} // verus!
