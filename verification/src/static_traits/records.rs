//! The records that the services keep, and their views.

use vstd::prelude::*;
use crate::sequences::views;

verus! {

/// A dog.
#[derive(Debug, PartialEq, Eq)]
pub struct Dog {
    pub id: String,
    pub name: String,
    pub age: u32,
}

/// What a [`Dog`] holds.
pub ghost struct DogView {
    pub id: Seq<char>,
    pub name: Seq<char>,
    pub age: u32,
}

impl View for Dog {
    type V = DogView;

    open spec fn view(&self) -> DogView {
        DogView { id: self.id@, name: self.name@, age: self.age }
    }
}

impl Clone for Dog {
    fn clone(&self) -> (r: Self)
        ensures
            r@ == self@,
    {
        Dog { id: self.id.clone(), name: self.name.clone(), age: self.age }
    }
}

/// One training session of a dog.
#[derive(Debug, PartialEq, Eq)]
pub struct TrainingRecord {
    pub dog_id: String,
    pub skill: String,
    pub proficiency_level: u8,
    pub last_trained: String,
}

/// What a [`TrainingRecord`] holds.
pub ghost struct TrainingRecordView {
    pub dog_id: Seq<char>,
    pub skill: Seq<char>,
    pub proficiency_level: u8,
    pub last_trained: Seq<char>,
}

impl View for TrainingRecord {
    type V = TrainingRecordView;

    open spec fn view(&self) -> TrainingRecordView {
        TrainingRecordView {
            dog_id: self.dog_id@,
            skill: self.skill@,
            proficiency_level: self.proficiency_level,
            last_trained: self.last_trained@,
        }
    }
}

impl Clone for TrainingRecord {
    fn clone(&self) -> (r: Self)
        ensures
            r@ == self@,
    {
        TrainingRecord {
            dog_id: self.dog_id.clone(),
            skill: self.skill.clone(),
            proficiency_level: self.proficiency_level,
            last_trained: self.last_trained.clone(),
        }
    }
}

/// A dog house, free or assigned to a dog.
#[derive(Debug, PartialEq, Eq)]
pub struct DogHouse {
    pub id: String,
    pub size: String,
    pub material: String,
    pub assigned_dog_id: Option<String>,
}

/// What a [`DogHouse`] holds.
pub ghost struct DogHouseView {
    pub id: Seq<char>,
    pub size: Seq<char>,
    pub material: Seq<char>,
    pub assigned_dog_id: Option<Seq<char>>,
}

impl View for DogHouse {
    type V = DogHouseView;

    open spec fn view(&self) -> DogHouseView {
        DogHouseView {
            id: self.id@,
            size: self.size@,
            material: self.material@,
            assigned_dog_id: match self.assigned_dog_id {
                Some(d) => Some(d@),
                None => None,
            },
        }
    }
}

impl Clone for DogHouse {
    fn clone(&self) -> (r: Self)
        ensures
            r@ == self@,
    {
        DogHouse {
            id: self.id.clone(),
            size: self.size.clone(),
            material: self.material.clone(),
            assigned_dog_id: match &self.assigned_dog_id {
                Some(d) => Some(d.clone()),
                None => None,
            },
        }
    }
}

/// A price or a weight: a double-precision number, held by its bit pattern.
/// The records carry amounts; to compute with one is left to the caller.
#[derive(Clone, Copy, Debug, PartialEq, Eq)]
pub struct Amount {
    pub bits: u64,
}

impl View for Amount {
    type V = u64;

    open spec fn view(&self) -> u64 {
        self.bits
    }
}

/// One visit of a dog to the groomer.
#[derive(Debug, PartialEq, Eq)]
pub struct GroomingRecord {
    pub dog_id: String,
    pub date: String,
    pub service_type: String,
    pub price: Amount,
}

/// What a [`GroomingRecord`] holds.
pub ghost struct GroomingRecordView {
    pub dog_id: Seq<char>,
    pub date: Seq<char>,
    pub service_type: Seq<char>,
    pub price: u64,
}

impl View for GroomingRecord {
    type V = GroomingRecordView;

    open spec fn view(&self) -> GroomingRecordView {
        GroomingRecordView {
            dog_id: self.dog_id@,
            date: self.date@,
            service_type: self.service_type@,
            price: self.price@,
        }
    }
}

impl Clone for GroomingRecord {
    fn clone(&self) -> (r: Self)
        ensures
            r@ == self@,
    {
        GroomingRecord {
            dog_id: self.dog_id.clone(),
            date: self.date.clone(),
            service_type: self.service_type.clone(),
            price: self.price,
        }
    }
}

/// One check-up of a dog.
#[derive(Debug, PartialEq, Eq)]
pub struct HealthRecord {
    pub dog_id: String,
    pub weight: Amount,
    pub vaccinations: Vec<String>,
    pub last_checkup: String,
}

/// What a [`HealthRecord`] holds.
pub ghost struct HealthRecordView {
    pub dog_id: Seq<char>,
    pub weight: u64,
    pub vaccinations: Seq<Seq<char>>,
    pub last_checkup: Seq<char>,
}

impl View for HealthRecord {
    type V = HealthRecordView;

    open spec fn view(&self) -> HealthRecordView {
        HealthRecordView {
            dog_id: self.dog_id@,
            weight: self.weight@,
            vaccinations: views(self.vaccinations@),
            last_checkup: self.last_checkup@,
        }
    }
}

impl Clone for HealthRecord {
    fn clone(&self) -> (r: Self)
        ensures
            r@ == self@,
    {
        let vaccinations = self.vaccinations.clone();
        assert(views(vaccinations@) =~= views(self.vaccinations@));
        HealthRecord {
            dog_id: self.dog_id.clone(),
            weight: self.weight,
            vaccinations,
            last_checkup: self.last_checkup.clone(),
        }
    }
}

/// The view of an item that may be missing.
pub open spec fn optional_view<T: View>(item: Option<T>) -> Option<T::V> {
    match item {
        Some(x) => Some(x@),
        None => None,
    }
}

} // verus!
