//! The grooming service: the visits of each dog to the groomer.
//!
//! Prices are amounts, which this library carries and does not compute with.
//! [`GroomingService`] therefore selects and labels the records of a dog and
//! leaves the price of each as it is stored; whoever implements
//! [`GroomingServiceTrait`] over it scales and sums the prices.

use vstd::prelude::*;
use crate::sequences::{lemma_views_ends, lemma_views_prefix, lemma_views_push, views};
use crate::sorting::{sort_by_key, SortKey};
use crate::static_traits::records::{Amount, GroomingRecord, GroomingRecordView};
use crate::text::{
    lemma_text_le_total,
    lemma_text_le_transitive,
    text_at_most,
    text_le,
    to_upper,
    uppercase_times,
};

verus! {

/// How often adding a record sorts its copy of the records.
pub const GROOMING_ADD_ROUNDS: usize = 500;

/// How many passes a grooming history takes.
pub const GROOMING_HISTORY_PASSES: usize = 300;

/// How often the prices of a history are summed for one total.
pub const TOTAL_COST_PASSES: usize = 200;

/// What is asked of a grooming service.
pub trait GroomingServiceTrait: Send + Sync {
    /// The history of a dog as `get_grooming_history` hands it out.
    /// An implementation that does not say leaves it unknown.
    open spec fn grooming_history(&self, dog_id: Seq<char>) -> Seq<GroomingRecordView> {
        arbitrary()
    }

    /// The total as `calculate_total_grooming_cost` hands it out.
    /// An implementation that does not say leaves it unknown.
    open spec fn total_grooming_cost(&self, dog_id: Seq<char>) -> u64 {
        arbitrary()
    }

    /// Takes note of a record.
    fn add_grooming_record(&self, record: GroomingRecord);

    /// The grooming records of the dog `dog_id`.
    fn get_grooming_history(&self, dog_id: &str) -> (history: Vec<GroomingRecord>)
        ensures
            views(history@) == self.grooming_history(dog_id@),
    ;

    /// What the grooming of the dog `dog_id` has cost.
    fn calculate_total_grooming_cost(&self, dog_id: &str) -> (total: Amount)
        ensures
            total@ == self.total_grooming_cost(dog_id@),
    ;
}

/// The order of grooming records by date.
pub struct ByDate;

impl SortKey<GroomingRecord> for ByDate {
    open spec fn le(a: GroomingRecordView, b: GroomingRecordView) -> bool {
        text_le(a.date, b.date)
    }

    fn at_most(a: &GroomingRecord, b: &GroomingRecord) -> (r: bool) {
        text_at_most(a.date.as_str(), b.date.as_str())
    }

    proof fn lemma_total(a: GroomingRecordView, b: GroomingRecordView) {
        lemma_text_le_total(a.date, b.date);
    }

    proof fn lemma_transitive(a: GroomingRecordView, b: GroomingRecordView, c: GroomingRecordView) {
        lemma_text_le_transitive(a.date, b.date, c.date);
    }
}

/// A record with its service type upper-cased `times` times in a row.
pub open spec fn labelled(record: GroomingRecordView, times: nat) -> GroomingRecordView {
    GroomingRecordView {
        dog_id: record.dog_id,
        date: record.date,
        service_type: uppercase_times(record.service_type, times),
        price: record.price,
    }
}

/// The records of the dog `dog_id` in the order given, the service type of
/// each upper-cased `times` times in a row, the price as it is.
pub open spec fn grooming_of(
    records: Seq<GroomingRecordView>,
    dog_id: Seq<char>,
    times: nat,
) -> Seq<GroomingRecordView>
    decreases records.len(),
{
    if records.len() == 0 {
        Seq::empty()
    } else if records.last().dog_id == dog_id {
        grooming_of(records.drop_last(), dog_id, times).push(labelled(records.last(), times))
    } else {
        grooming_of(records.drop_last(), dog_id, times)
    }
}

/// One more pass over the entries of a dog adds one upper-casing to each
/// service type and drops nothing.
pub proof fn lemma_grooming_pass(records: Seq<GroomingRecordView>, dog_id: Seq<char>, times: nat)
    ensures
        grooming_of(grooming_of(records, dog_id, times), dog_id, 1) == grooming_of(
            records,
            dog_id,
            times + 1,
        ),
    decreases records.len(),
{
    reveal_with_fuel(uppercase_times, 2);
    if records.len() > 0 {
        let front = records.drop_last();
        lemma_grooming_pass(front, dog_id, times);
        if records.last().dog_id == dog_id {
            let kept = grooming_of(front, dog_id, times);
            let one = labelled(records.last(), times);
            assert(kept.push(one).drop_last() =~= kept);
            assert(labelled(one, 1) == labelled(records.last(), times + 1));
        }
    }
}

/// Whether `record` is one of `records` with its service type upper-cased
/// `times` times in a row.
pub open spec fn labelled_from(
    record: GroomingRecordView,
    records: Seq<GroomingRecordView>,
    times: nat,
) -> bool {
    exists|j: int| 0 <= j < records.len() && record == labelled(#[trigger] records[j], times)
}

/// The entries of a dog are records of that dog and no others, and each of
/// them is a record given: what was not among the records does not show.
pub proof fn lemma_grooming_of_dog(records: Seq<GroomingRecordView>, dog_id: Seq<char>, times: nat)
    ensures
        grooming_of(records, dog_id, times).len() <= records.len(),
        forall|i: int|
            0 <= i < grooming_of(records, dog_id, times).len() ==> (#[trigger] grooming_of(
                records,
                dog_id,
                times,
            )[i]).dog_id == dog_id && labelled_from(
                grooming_of(records, dog_id, times)[i],
                records,
                times,
            ),
    decreases records.len(),
{
    if records.len() > 0 {
        let front = records.drop_last();
        lemma_grooming_of_dog(front, dog_id, times);
        let all = grooming_of(records, dog_id, times);
        assert forall|i: int| 0 <= i < all.len() implies labelled_from(
            #[trigger] all[i],
            records,
            times,
        ) by {
            if i < grooming_of(front, dog_id, times).len() {
                assert(labelled_from(grooming_of(front, dog_id, times)[i], front, times));
                let j = choose|j: int|
                    0 <= j < front.len() && all[i] == labelled(#[trigger] front[j], times);
                assert(all[i] == labelled(records[j], times));
            } else {
                assert(all[i] == labelled(records[records.len() - 1], times));
            }
        }
    }
}

/// One pass over the records: those of the dog `dog_id`, each with its
/// service type upper-cased once.
pub fn grooming_pass(records: &Vec<GroomingRecord>, dog_id: &str) -> (kept: Vec<GroomingRecord>)
    ensures
        views(kept@) == grooming_of(views(records@), dog_id@, 1),
{
    let wanted: String = dog_id.to_owned();
    let mut kept: Vec<GroomingRecord> = Vec::new();
    let mut i: usize = 0;
    proof {
        lemma_views_ends(records@);
        assert(views(kept@) =~= Seq::<GroomingRecordView>::empty());
    }
    while i < records.len()
        invariant
            i <= records.len(),
            wanted@ == dog_id@,
            views(kept@) == grooming_of(views(records@.subrange(0, i as int)), dog_id@, 1),
        decreases records.len() - i,
    {
        proof {
            lemma_views_prefix(records@, i as int);
            reveal_with_fuel(uppercase_times, 2);
        }
        let record = &records[i];
        if record.dog_id == wanted {
            let one = GroomingRecord {
                dog_id: record.dog_id.clone(),
                date: record.date.clone(),
                service_type: to_upper(record.service_type.as_str()),
                price: record.price,
            };
            proof {
                lemma_views_push(kept@, one);
            }
            kept.push(one);
        }
        i = i + 1;
    }
    proof {
        lemma_views_ends(records@);
    }
    kept
}

/// The grooming records in memory.
pub struct GroomingService {
    pub records: Vec<GroomingRecord>,
}

impl GroomingService {
    /// A service without records.
    pub fn new() -> (service: Self)
        ensures
            service.records@.len() == 0,
    {
        GroomingService { records: Vec::new() }
    }

    /// Sorts a copy of the records with `record` behind them by date, and
    /// lets the copy go: the service keeps what it had.
    pub fn add_grooming_record(&self, record: GroomingRecord) {
        let mut records = self.records.clone();
        records.push(record);
        let mut round: usize = 0;
        while round < GROOMING_ADD_ROUNDS
            invariant
                round <= GROOMING_ADD_ROUNDS,
            decreases GROOMING_ADD_ROUNDS - round,
        {
            sort_by_key::<GroomingRecord, ByDate>(&mut records);
            round = round + 1;
        }
    }

    /// The records of the dog `dog_id` in the order they are stored, the
    /// service type of each upper-cased once for every pass of a history,
    /// the price as it is stored.
    pub fn grooming_entries(&self, dog_id: &str) -> (entries: Vec<GroomingRecord>)
        ensures
            views(entries@) == grooming_of(
                views(self.records@),
                dog_id@,
                GROOMING_HISTORY_PASSES as nat,
            ),
    {
        let mut entries = grooming_pass(&self.records, dog_id);
        let mut pass: usize = 1;
        while pass < GROOMING_HISTORY_PASSES
            invariant
                1 <= pass <= GROOMING_HISTORY_PASSES,
                views(entries@) == grooming_of(views(self.records@), dog_id@, pass as nat),
            decreases GROOMING_HISTORY_PASSES - pass,
        {
            proof {
                lemma_grooming_pass(views(self.records@), dog_id@, pass as nat);
            }
            entries = grooming_pass(&entries, dog_id);
            pass = pass + 1;
        }
        entries
    }
}

} // verus!
