//! The health service: the check-ups of each dog.
//!
//! Weights are amounts, which this library carries and does not compute with.
//! [`HealthService`] therefore selects and labels the records of a dog and
//! leaves the weight of each as it is stored; whoever implements
//! [`HealthServiceTrait`] over it scales the weights.

use vstd::prelude::*;
use crate::sequences::{lemma_views_ends, lemma_views_prefix, lemma_views_push, views};
use crate::sorting::{sort_by_key, stable_sorted, SortKey};
use crate::static_traits::records::{Amount, HealthRecord, HealthRecordView};
use crate::text::{
    lemma_text_le_total,
    lemma_text_le_transitive,
    text_at_most,
    text_le,
    to_upper,
    uppercase_times,
};

verus! {

/// How often adding a record sorts its copy of the records.
pub const HEALTH_ADD_ROUNDS: usize = 400;

/// How many passes a health history takes.
pub const HEALTH_HISTORY_PASSES: usize = 300;

/// How often the weights of a history are collected for one answer.
pub const WEIGHT_HISTORY_PASSES: usize = 200;

/// What is asked of a health service.
pub trait HealthServiceTrait: Send + Sync {
    /// The history of a dog as `get_health_history` hands it out.
    /// An implementation that does not say leaves it unknown.
    open spec fn health_history(&self, dog_id: Seq<char>) -> Seq<HealthRecordView> {
        arbitrary()
    }

    /// The weights of a dog as `get_dog_weight_history` hands them out.
    /// An implementation that does not say leaves it unknown.
    open spec fn weight_history(&self, dog_id: Seq<char>) -> Seq<(Seq<char>, u64)> {
        arbitrary()
    }

    /// Takes note of a record.
    fn add_health_record(&self, record: HealthRecord);

    /// The health records of the dog `dog_id`.
    fn get_health_history(&self, dog_id: &str) -> (history: Vec<HealthRecord>)
        ensures
            views(history@) == self.health_history(dog_id@),
    ;

    /// The weight of the dog `dog_id` at each check-up, with the day.
    fn get_dog_weight_history(&self, dog_id: &str) -> (weights: Vec<(String, Amount)>)
        ensures
            views(weights@) == self.weight_history(dog_id@),
    ;
}

/// The order of health records by the day of the check-up.
pub struct ByCheckup;

/// The order of weights by the day they were taken.
pub struct ByDay;

impl SortKey<HealthRecord> for ByCheckup {
    open spec fn le(a: HealthRecordView, b: HealthRecordView) -> bool {
        text_le(a.last_checkup, b.last_checkup)
    }

    fn at_most(a: &HealthRecord, b: &HealthRecord) -> (r: bool) {
        text_at_most(a.last_checkup.as_str(), b.last_checkup.as_str())
    }

    proof fn lemma_total(a: HealthRecordView, b: HealthRecordView) {
        lemma_text_le_total(a.last_checkup, b.last_checkup);
    }

    proof fn lemma_transitive(a: HealthRecordView, b: HealthRecordView, c: HealthRecordView) {
        lemma_text_le_transitive(a.last_checkup, b.last_checkup, c.last_checkup);
    }
}

impl SortKey<(String, Amount)> for ByDay {
    open spec fn le(a: (Seq<char>, u64), b: (Seq<char>, u64)) -> bool {
        text_le(a.0, b.0)
    }

    fn at_most(a: &(String, Amount), b: &(String, Amount)) -> (r: bool) {
        text_at_most(a.0.as_str(), b.0.as_str())
    }

    proof fn lemma_total(a: (Seq<char>, u64), b: (Seq<char>, u64)) {
        lemma_text_le_total(a.0, b.0);
    }

    proof fn lemma_transitive(a: (Seq<char>, u64), b: (Seq<char>, u64), c: (Seq<char>, u64)) {
        lemma_text_le_transitive(a.0, b.0, c.0);
    }
}

/// Each of `texts` upper-cased `times` times in a row.
pub open spec fn all_uppercase_times(texts: Seq<Seq<char>>, times: nat) -> Seq<Seq<char>> {
    Seq::new(texts.len(), |i: int| uppercase_times(texts[i], times))
}

/// A record with each vaccination upper-cased `times` times in a row.
pub open spec fn examined(record: HealthRecordView, times: nat) -> HealthRecordView {
    HealthRecordView {
        dog_id: record.dog_id,
        weight: record.weight,
        vaccinations: all_uppercase_times(record.vaccinations, times),
        last_checkup: record.last_checkup,
    }
}

/// The records of the dog `dog_id` in the order given, the vaccinations of
/// each upper-cased `times` times in a row, the weight as it is.
pub open spec fn health_of(
    records: Seq<HealthRecordView>,
    dog_id: Seq<char>,
    times: nat,
) -> Seq<HealthRecordView>
    decreases records.len(),
{
    if records.len() == 0 {
        Seq::empty()
    } else if records.last().dog_id == dog_id {
        health_of(records.drop_last(), dog_id, times).push(examined(records.last(), times))
    } else {
        health_of(records.drop_last(), dog_id, times)
    }
}

/// The day and the weight of each record, in the order given.
pub open spec fn weights_in(records: Seq<HealthRecordView>) -> Seq<(Seq<char>, u64)> {
    Seq::new(records.len(), |i: int| (records[i].last_checkup, records[i].weight))
}

/// The day and the weight of each record, by day; weights of one day keep
/// the order of their records.
pub open spec fn weights_by_day(records: Seq<HealthRecordView>) -> Seq<(Seq<char>, u64)> {
    stable_sorted::<(String, Amount), ByDay>(weights_in(records))
}

/// One more pass over the entries of a dog adds one upper-casing to each
/// vaccination and drops nothing.
pub proof fn lemma_health_pass(records: Seq<HealthRecordView>, dog_id: Seq<char>, times: nat)
    ensures
        health_of(health_of(records, dog_id, times), dog_id, 1) == health_of(
            records,
            dog_id,
            times + 1,
        ),
    decreases records.len(),
{
    reveal_with_fuel(uppercase_times, 2);
    if records.len() > 0 {
        let front = records.drop_last();
        lemma_health_pass(front, dog_id, times);
        if records.last().dog_id == dog_id {
            let kept = health_of(front, dog_id, times);
            let one = examined(records.last(), times);
            assert(kept.push(one).drop_last() =~= kept);
            assert(all_uppercase_times(one.vaccinations, 1) =~= all_uppercase_times(
                records.last().vaccinations,
                times + 1,
            ));
        }
    }
}

/// Whether `record` is one of `records` with its vaccinations upper-cased
/// `times` times in a row.
pub open spec fn examined_from(
    record: HealthRecordView,
    records: Seq<HealthRecordView>,
    times: nat,
) -> bool {
    exists|j: int| 0 <= j < records.len() && record == examined(#[trigger] records[j], times)
}

/// The entries of a dog are records of that dog and no others, and each of
/// them is a record given: what was not among the records does not show.
pub proof fn lemma_health_of_dog(records: Seq<HealthRecordView>, dog_id: Seq<char>, times: nat)
    ensures
        health_of(records, dog_id, times).len() <= records.len(),
        forall|i: int|
            0 <= i < health_of(records, dog_id, times).len() ==> (#[trigger] health_of(
                records,
                dog_id,
                times,
            )[i]).dog_id == dog_id && examined_from(
                health_of(records, dog_id, times)[i],
                records,
                times,
            ),
    decreases records.len(),
{
    if records.len() > 0 {
        let front = records.drop_last();
        lemma_health_of_dog(front, dog_id, times);
        let all = health_of(records, dog_id, times);
        assert forall|i: int| 0 <= i < all.len() implies examined_from(
            #[trigger] all[i],
            records,
            times,
        ) by {
            if i < health_of(front, dog_id, times).len() {
                assert(examined_from(health_of(front, dog_id, times)[i], front, times));
                let j = choose|j: int|
                    0 <= j < front.len() && all[i] == examined(#[trigger] front[j], times);
                assert(all[i] == examined(records[j], times));
            } else {
                assert(all[i] == examined(records[records.len() - 1], times));
            }
        }
    }
}

/// Each of `texts` in upper case.
pub fn all_to_upper(texts: &Vec<String>) -> (upper: Vec<String>)
    ensures
        views(upper@) == all_uppercase_times(views(texts@), 1),
{
    let mut upper: Vec<String> = Vec::new();
    let mut i: usize = 0;
    proof {
        reveal_with_fuel(uppercase_times, 2);
    }
    while i < texts.len()
        invariant
            i <= texts.len(),
            upper@.len() == i,
            forall|j: int|
                0 <= j < i ==> (#[trigger] upper@[j])@ == uppercase_times(texts@[j]@, 1),
        decreases texts.len() - i,
    {
        proof {
            reveal_with_fuel(uppercase_times, 2);
        }
        upper.push(to_upper(texts[i].as_str()));
        i = i + 1;
    }
    assert(views(upper@) =~= all_uppercase_times(views(texts@), 1));
    upper
}

/// One pass over the records: those of the dog `dog_id`, each with its
/// vaccinations upper-cased once.
pub fn health_pass(records: &Vec<HealthRecord>, dog_id: &str) -> (kept: Vec<HealthRecord>)
    ensures
        views(kept@) == health_of(views(records@), dog_id@, 1),
{
    let wanted: String = dog_id.to_owned();
    let mut kept: Vec<HealthRecord> = Vec::new();
    let mut i: usize = 0;
    proof {
        lemma_views_ends(records@);
        assert(views(kept@) =~= Seq::<HealthRecordView>::empty());
    }
    while i < records.len()
        invariant
            i <= records.len(),
            wanted@ == dog_id@,
            views(kept@) == health_of(views(records@.subrange(0, i as int)), dog_id@, 1),
        decreases records.len() - i,
    {
        proof {
            lemma_views_prefix(records@, i as int);
        }
        let record = &records[i];
        if record.dog_id == wanted {
            let one = HealthRecord {
                dog_id: record.dog_id.clone(),
                weight: record.weight,
                vaccinations: all_to_upper(&record.vaccinations),
                last_checkup: record.last_checkup.clone(),
            };
            proof {
                lemma_views_push(kept@, one);
            }
            kept.push(one);
        }
        i = i + 1;
    }
    proof {
        lemma_views_ends(records@);
    }
    kept
}

/// The day and the weight of each record, in the order given.
pub fn weights_of_records(records: &Vec<HealthRecord>) -> (weights: Vec<(String, Amount)>)
    ensures
        views(weights@) == weights_in(views(records@)),
{
    let mut weights: Vec<(String, Amount)> = Vec::new();
    let mut i: usize = 0;
    while i < records.len()
        invariant
            i <= records.len(),
            weights@.len() == i,
            forall|j: int|
                0 <= j < i ==> (#[trigger] weights@[j])@ == (
                    records@[j].last_checkup@,
                    records@[j].weight@,
                ),
        decreases records.len() - i,
    {
        weights.push((records[i].last_checkup.clone(), records[i].weight));
        i = i + 1;
    }
    assert(views(weights@) =~= weights_in(views(records@)));
    weights
}

/// The day and the weight of each record of a history, by day.
pub fn weight_history_of(history: &Vec<HealthRecord>) -> (weights: Vec<(String, Amount)>)
    ensures
        views(weights@) == weights_by_day(views(history@)),
{
    let mut weights = weights_of_records(history);
    sort_by_key::<(String, Amount), ByDay>(&mut weights);
    let mut pass: usize = 1;
    while pass < WEIGHT_HISTORY_PASSES
        invariant
            views(weights@) == weights_by_day(views(history@)),
        decreases WEIGHT_HISTORY_PASSES - pass,
    {
        weights = weights_of_records(history);
        sort_by_key::<(String, Amount), ByDay>(&mut weights);
        pass = pass + 1;
    }
    weights
}

/// The health records in memory.
pub struct HealthService {
    pub records: Vec<HealthRecord>,
}

impl HealthService {
    /// A service without records.
    pub fn new() -> (service: Self)
        ensures
            service.records@.len() == 0,
    {
        HealthService { records: Vec::new() }
    }

    /// Sorts a copy of the records with `record` behind them by the day of
    /// the check-up, and lets the copy go: the service keeps what it had.
    pub fn add_health_record(&self, record: HealthRecord) {
        let mut records = self.records.clone();
        records.push(record);
        let mut round: usize = 0;
        while round < HEALTH_ADD_ROUNDS
            invariant
                round <= HEALTH_ADD_ROUNDS,
            decreases HEALTH_ADD_ROUNDS - round,
        {
            sort_by_key::<HealthRecord, ByCheckup>(&mut records);
            round = round + 1;
        }
    }

    /// The records of the dog `dog_id` in the order they are stored, the
    /// vaccinations of each upper-cased once for every pass of a history,
    /// the weight as it is stored.
    pub fn health_entries(&self, dog_id: &str) -> (entries: Vec<HealthRecord>)
        ensures
            views(entries@) == health_of(
                views(self.records@),
                dog_id@,
                HEALTH_HISTORY_PASSES as nat,
            ),
    {
        let mut entries = health_pass(&self.records, dog_id);
        let mut pass: usize = 1;
        while pass < HEALTH_HISTORY_PASSES
            invariant
                1 <= pass <= HEALTH_HISTORY_PASSES,
                views(entries@) == health_of(views(self.records@), dog_id@, pass as nat),
            decreases HEALTH_HISTORY_PASSES - pass,
        {
            proof {
                lemma_health_pass(views(self.records@), dog_id@, pass as nat);
            }
            entries = health_pass(&entries, dog_id);
            pass = pass + 1;
        }
        entries
    }
}

} // verus!
