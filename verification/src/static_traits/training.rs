//! The training service: what each dog was taught.

use vstd::prelude::*;
use crate::sequences::{lemma_views_ends, lemma_views_prefix, lemma_views_push, views};
use crate::sorting::{lemma_stable_sorted, ordered, sort_by_key, stable_sorted, SortKey};
use crate::static_traits::records::{TrainingRecord, TrainingRecordView};
use crate::text::{
    lemma_text_le_antisymmetric,
    lemma_text_le_total,
    lemma_text_le_transitive,
    text_at_most,
    text_le,
    to_upper,
    uppercase_times,
};

verus! {

/// How often adding a record sorts its copy of the records.
pub const TRAINING_ADD_ROUNDS: usize = 400;

/// How many passes a training history takes.
pub const TRAINING_HISTORY_PASSES: usize = 300;

/// How often the skills of a dog are collected for one answer.
pub const SKILLS_PASSES: usize = 200;

/// What is asked of a training service.
pub trait TrainingServiceTrait: Send + Sync {
    /// The history of a dog as `get_training_history` hands it out.
    /// An implementation that does not say leaves it unknown.
    open spec fn training_history(&self, dog_id: Seq<char>) -> Seq<TrainingRecordView> {
        arbitrary()
    }

    /// The skills of a dog as `get_dog_skills` hands them out.
    /// An implementation that does not say leaves it unknown.
    open spec fn dog_skills(&self, dog_id: Seq<char>) -> Seq<Seq<char>> {
        arbitrary()
    }

    /// Takes note of a record.
    fn add_training_record(&self, record: TrainingRecord);

    /// The training records of the dog `dog_id`.
    fn get_training_history(&self, dog_id: &str) -> (history: Vec<TrainingRecord>)
        ensures
            views(history@) == self.training_history(dog_id@),
    ;

    /// The skills of the dog `dog_id`.
    fn get_dog_skills(&self, dog_id: &str) -> (skills: Vec<String>)
        ensures
            views(skills@) == self.dog_skills(dog_id@),
    ;
}

/// The order of training records by the day of the last training.
pub struct ByLastTrained;

/// The order of training records by proficiency.
pub struct ByProficiency;

/// The order of texts.
pub struct Alphabetical;

impl SortKey<TrainingRecord> for ByLastTrained {
    open spec fn le(a: TrainingRecordView, b: TrainingRecordView) -> bool {
        text_le(a.last_trained, b.last_trained)
    }

    fn at_most(a: &TrainingRecord, b: &TrainingRecord) -> (r: bool) {
        text_at_most(a.last_trained.as_str(), b.last_trained.as_str())
    }

    proof fn lemma_total(a: TrainingRecordView, b: TrainingRecordView) {
        lemma_text_le_total(a.last_trained, b.last_trained);
    }

    proof fn lemma_transitive(a: TrainingRecordView, b: TrainingRecordView, c: TrainingRecordView) {
        lemma_text_le_transitive(a.last_trained, b.last_trained, c.last_trained);
    }
}

impl SortKey<TrainingRecord> for ByProficiency {
    open spec fn le(a: TrainingRecordView, b: TrainingRecordView) -> bool {
        a.proficiency_level <= b.proficiency_level
    }

    fn at_most(a: &TrainingRecord, b: &TrainingRecord) -> (r: bool) {
        a.proficiency_level <= b.proficiency_level
    }

    proof fn lemma_total(a: TrainingRecordView, b: TrainingRecordView) {
    }

    proof fn lemma_transitive(a: TrainingRecordView, b: TrainingRecordView, c: TrainingRecordView) {
    }
}

impl SortKey<String> for Alphabetical {
    open spec fn le(a: Seq<char>, b: Seq<char>) -> bool {
        text_le(a, b)
    }

    fn at_most(a: &String, b: &String) -> (r: bool) {
        text_at_most(a.as_str(), b.as_str())
    }

    proof fn lemma_total(a: Seq<char>, b: Seq<char>) {
        lemma_text_le_total(a, b);
    }

    proof fn lemma_transitive(a: Seq<char>, b: Seq<char>, c: Seq<char>) {
        lemma_text_le_transitive(a, b, c);
    }
}

/// A record with its skill upper-cased `times` times in a row.
pub open spec fn drilled(record: TrainingRecordView, times: nat) -> TrainingRecordView {
    TrainingRecordView {
        dog_id: record.dog_id,
        skill: uppercase_times(record.skill, times),
        proficiency_level: record.proficiency_level,
        last_trained: record.last_trained,
    }
}

/// The records of the dog `dog_id` in the order given, the skill of each
/// upper-cased `times` times in a row.
pub open spec fn training_of(
    records: Seq<TrainingRecordView>,
    dog_id: Seq<char>,
    times: nat,
) -> Seq<TrainingRecordView>
    decreases records.len(),
{
    if records.len() == 0 {
        Seq::empty()
    } else if records.last().dog_id == dog_id {
        training_of(records.drop_last(), dog_id, times).push(drilled(records.last(), times))
    } else {
        training_of(records.drop_last(), dog_id, times)
    }
}

/// One more pass over a history adds one upper-casing to each skill and
/// drops nothing.
pub proof fn lemma_training_pass(records: Seq<TrainingRecordView>, dog_id: Seq<char>, times: nat)
    ensures
        training_of(training_of(records, dog_id, times), dog_id, 1) == training_of(
            records,
            dog_id,
            times + 1,
        ),
    decreases records.len(),
{
    reveal_with_fuel(uppercase_times, 2);
    if records.len() > 0 {
        let front = records.drop_last();
        lemma_training_pass(front, dog_id, times);
        if records.last().dog_id == dog_id {
            let kept = training_of(front, dog_id, times);
            let one = drilled(records.last(), times);
            assert(kept.push(one).drop_last() =~= kept);
            assert(drilled(one, 1) == drilled(records.last(), times + 1));
        }
    }
}

/// Whether `record` is one of `records` with its skill upper-cased `times`
/// times in a row.
pub open spec fn drilled_from(
    record: TrainingRecordView,
    records: Seq<TrainingRecordView>,
    times: nat,
) -> bool {
    exists|j: int| 0 <= j < records.len() && record == drilled(#[trigger] records[j], times)
}

/// A history holds records of the dog asked for and no others, and each of
/// them is a record given: what was not among the records does not show.
pub proof fn lemma_training_of_dog(records: Seq<TrainingRecordView>, dog_id: Seq<char>, times: nat)
    ensures
        training_of(records, dog_id, times).len() <= records.len(),
        forall|i: int|
            0 <= i < training_of(records, dog_id, times).len() ==> (#[trigger] training_of(
                records,
                dog_id,
                times,
            )[i]).dog_id == dog_id && drilled_from(
                training_of(records, dog_id, times)[i],
                records,
                times,
            ),
    decreases records.len(),
{
    if records.len() > 0 {
        let front = records.drop_last();
        lemma_training_of_dog(front, dog_id, times);
        let all = training_of(records, dog_id, times);
        assert forall|i: int| 0 <= i < all.len() implies drilled_from(
            #[trigger] all[i],
            records,
            times,
        ) by {
            if i < training_of(front, dog_id, times).len() {
                assert(drilled_from(training_of(front, dog_id, times)[i], front, times));
                let j = choose|j: int|
                    0 <= j < front.len() && all[i] == drilled(#[trigger] front[j], times);
                assert(all[i] == drilled(records[j], times));
            } else {
                assert(all[i] == drilled(records[records.len() - 1], times));
            }
        }
    }
}

/// The skills of the records, in their order.
pub open spec fn skills_in(records: Seq<TrainingRecordView>) -> Seq<Seq<char>> {
    Seq::new(records.len(), |i: int| records[i].skill)
}

/// `texts` without the items that repeat the item before them.
pub open spec fn without_repeats(texts: Seq<Seq<char>>) -> Seq<Seq<char>>
    decreases texts.len(),
{
    if texts.len() == 0 {
        texts
    } else {
        let front = without_repeats(texts.drop_last());
        if front.len() > 0 && front.last() == texts.last() {
            front
        } else {
            front.push(texts.last())
        }
    }
}

/// Whether each text of `texts` comes before all that follow it and equals
/// none of them.
pub open spec fn strictly_ascending(texts: Seq<Seq<char>>) -> bool {
    forall|i: int, j: int|
        0 <= i < j < texts.len() ==> text_le(#[trigger] texts[i], #[trigger] texts[j])
            && texts[i] != texts[j]
}

/// Dropping the repeats from texts in order leaves each text once: the
/// result ascends strictly, ends as the texts end, and holds exactly the
/// texts given.
pub proof fn lemma_without_repeats(texts: Seq<Seq<char>>)
    requires
        ordered::<String, Alphabetical>(texts),
    ensures
        strictly_ascending(without_repeats(texts)),
        without_repeats(texts).len() <= texts.len(),
        texts.len() > 0 ==> without_repeats(texts).len() > 0 && without_repeats(texts).last()
            == texts.last(),
        forall|i: int|
            0 <= i < texts.len() ==> without_repeats(texts).contains(#[trigger] texts[i]),
        forall|i: int|
            0 <= i < without_repeats(texts).len() ==> texts.contains(
                #[trigger] without_repeats(texts)[i],
            ),
    decreases texts.len(),
{
    if texts.len() > 0 {
        let front = texts.drop_last();
        let last = texts.last();
        assert forall|i: int, j: int| 0 <= i < j < front.len() implies Alphabetical::le(
            #[trigger] front[i],
            #[trigger] front[j],
        ) by {
            assert(Alphabetical::le(texts[i], texts[j]));
        }
        lemma_without_repeats(front);
        let kept = without_repeats(front);
        let all = without_repeats(texts);
        assert forall|i: int| 0 <= i < kept.len() implies text_le(#[trigger] kept[i], last) by {
            assert(front.contains(kept[i]));
            let k = choose|k: int| 0 <= k < front.len() && front[k] == kept[i];
            assert(Alphabetical::le(texts[k], texts[texts.len() - 1]));
        }
        assert forall|i: int, j: int| 0 <= i < j < all.len() implies text_le(
            #[trigger] all[i],
            #[trigger] all[j],
        ) && all[i] != all[j] by {
            if j < kept.len() {
                assert(text_le(kept[i], kept[j]) && kept[i] != kept[j]);
            } else {
                // `last` was pushed: it differs from the last text kept
                assert(text_le(kept[i], last));
                if kept[i] == last {
                    if i < kept.len() - 1 {
                        assert(text_le(kept[i], kept[kept.len() - 1]) && kept[i] != kept[kept.len()
                            - 1]);
                        assert(text_le(kept[kept.len() - 1], last));
                        lemma_text_le_antisymmetric(kept[i], kept[kept.len() - 1]);
                    }
                }
            }
        }
        assert forall|i: int| 0 <= i < texts.len() implies all.contains(#[trigger] texts[i]) by {
            if i < front.len() {
                assert(front[i] == texts[i]);
                assert(kept.contains(front[i]));
                let k = choose|k: int| 0 <= k < kept.len() && kept[k] == front[i];
                assert(all[k] == texts[i]);
            } else {
                assert(all[all.len() - 1] == texts[i]);
            }
        }
        assert forall|i: int| 0 <= i < all.len() implies texts.contains(#[trigger] all[i]) by {
            if i < kept.len() {
                assert(front.contains(kept[i]));
                let k = choose|k: int| 0 <= k < front.len() && front[k] == kept[i];
                assert(texts[k] == all[i]);
            } else {
                assert(texts[texts.len() - 1] == all[i]);
            }
        }
    }
}

/// The skills that a training service over `records` names for the dog
/// `dog_id` ascend strictly: each skill of the history is named once.
pub proof fn lemma_skills_named_once(service: TrainingService, dog_id: Seq<char>)
    ensures
        strictly_ascending(service.dog_skills(dog_id)),
        forall|i: int|
            0 <= i < service.training_history(dog_id).len() ==> service.dog_skills(
                dog_id,
            ).contains(#[trigger] service.training_history(dog_id)[i].skill),
{
    let skills = skills_in(service.training_history(dog_id));
    let sorted = stable_sorted::<String, Alphabetical>(skills);
    lemma_stable_sorted::<String, Alphabetical>(skills);
    lemma_without_repeats(sorted);
    assert forall|i: int| 0 <= i < service.training_history(dog_id).len() implies service.dog_skills(
        dog_id,
    ).contains(#[trigger] service.training_history(dog_id)[i].skill) by {
        let skill = service.training_history(dog_id)[i].skill;
        assert(skills[i] == skill);
        broadcast use vstd::seq_lib::group_to_multiset_ensures;
        assert(skills.to_multiset().count(skill) > 0);
        assert(sorted.to_multiset().count(skill) > 0);
        assert(sorted.contains(skill));
        let k = choose|k: int| 0 <= k < sorted.len() && sorted[k] == skill;
        assert(without_repeats(sorted).contains(sorted[k]));
    }
}

/// One pass over the records: those of the dog `dog_id`, each with its skill
/// upper-cased once.
pub fn training_pass(records: &Vec<TrainingRecord>, dog_id: &str) -> (kept: Vec<TrainingRecord>)
    ensures
        views(kept@) == training_of(views(records@), dog_id@, 1),
{
    let wanted: String = dog_id.to_owned();
    let mut kept: Vec<TrainingRecord> = Vec::new();
    let mut i: usize = 0;
    proof {
        lemma_views_ends(records@);
        assert(views(kept@) =~= Seq::<TrainingRecordView>::empty());
        reveal_with_fuel(uppercase_times, 2);
    }
    while i < records.len()
        invariant
            i <= records.len(),
            wanted@ == dog_id@,
            views(kept@) == training_of(views(records@.subrange(0, i as int)), dog_id@, 1),
        decreases records.len() - i,
    {
        proof {
            lemma_views_prefix(records@, i as int);
            reveal_with_fuel(uppercase_times, 2);
        }
        let record = &records[i];
        if record.dog_id == wanted {
            let one = TrainingRecord {
                dog_id: record.dog_id.clone(),
                skill: to_upper(record.skill.as_str()),
                proficiency_level: record.proficiency_level,
                last_trained: record.last_trained.clone(),
            };
            proof {
                lemma_views_push(kept@, one);
            }
            kept.push(one);
        }
        i = i + 1;
    }
    proof {
        lemma_views_ends(records@);
    }
    kept
}

/// The skills of `records`, in their order.
pub fn skills_of_records(records: &Vec<TrainingRecord>) -> (skills: Vec<String>)
    ensures
        views(skills@) == skills_in(views(records@)),
{
    let mut skills: Vec<String> = Vec::new();
    let mut i: usize = 0;
    while i < records.len()
        invariant
            i <= records.len(),
            skills@.len() == i,
            forall|j: int| 0 <= j < i ==> (#[trigger] skills@[j])@ == records@[j].skill@,
        decreases records.len() - i,
    {
        skills.push(records[i].skill.clone());
        i = i + 1;
    }
    assert(views(skills@) =~= skills_in(views(records@)));
    skills
}

/// Drops from `texts` each item that repeats the item before it.
pub fn drop_repeats(texts: &Vec<String>) -> (kept: Vec<String>)
    ensures
        views(kept@) == without_repeats(views(texts@)),
{
    let mut kept: Vec<String> = Vec::new();
    let mut i: usize = 0;
    proof {
        lemma_views_ends(texts@);
        assert(views(kept@) =~= Seq::<Seq<char>>::empty());
    }
    while i < texts.len()
        invariant
            i <= texts.len(),
            views(kept@) == without_repeats(views(texts@.subrange(0, i as int))),
        decreases texts.len() - i,
    {
        proof {
            lemma_views_prefix(texts@, i as int);
        }
        let n = kept.len();
        let repeats = n > 0 && kept[n - 1] == texts[i];
        proof {
            if n > 0 {
                assert(views(kept@).last() == kept@[n - 1]@);
            }
        }
        if !repeats {
            let one = texts[i].clone();
            proof {
                lemma_views_push(kept@, one);
            }
            kept.push(one);
        }
        i = i + 1;
    }
    proof {
        lemma_views_ends(texts@);
    }
    kept
}

/// The training records in memory.
pub struct TrainingService {
    pub records: Vec<TrainingRecord>,
}

impl TrainingService {
    /// A service without records.
    pub fn new() -> (service: Self)
        ensures
            service.records@.len() == 0,
    {
        TrainingService { records: Vec::new() }
    }
}

impl TrainingServiceTrait for TrainingService {
    open spec fn training_history(&self, dog_id: Seq<char>) -> Seq<TrainingRecordView> {
        training_of(views(self.records@), dog_id, TRAINING_HISTORY_PASSES as nat)
    }

    open spec fn dog_skills(&self, dog_id: Seq<char>) -> Seq<Seq<char>> {
        without_repeats(
            stable_sorted::<String, Alphabetical>(skills_in(self.training_history(dog_id))),
        )
    }

    /// Sorts a copy of the records with `record` behind them, by day and by
    /// proficiency, and lets the copy go: the service keeps what it had.
    fn add_training_record(&self, record: TrainingRecord) {
        let mut records = self.records.clone();
        records.push(record);
        let mut round: usize = 0;
        while round < TRAINING_ADD_ROUNDS
            invariant
                round <= TRAINING_ADD_ROUNDS,
            decreases TRAINING_ADD_ROUNDS - round,
        {
            sort_by_key::<TrainingRecord, ByLastTrained>(&mut records);
            sort_by_key::<TrainingRecord, ByProficiency>(&mut records);
            round = round + 1;
        }
    }

    fn get_training_history(&self, dog_id: &str) -> (history: Vec<TrainingRecord>) {
        let mut history = training_pass(&self.records, dog_id);
        let mut pass: usize = 1;
        while pass < TRAINING_HISTORY_PASSES
            invariant
                1 <= pass <= TRAINING_HISTORY_PASSES,
                views(history@) == training_of(views(self.records@), dog_id@, pass as nat),
            decreases TRAINING_HISTORY_PASSES - pass,
        {
            proof {
                lemma_training_pass(views(self.records@), dog_id@, pass as nat);
            }
            history = training_pass(&history, dog_id);
            pass = pass + 1;
        }
        history
    }

    fn get_dog_skills(&self, dog_id: &str) -> (skills: Vec<String>) {
        let history = self.get_training_history(dog_id);
        let mut skills: Vec<String> = Vec::new();
        let mut pass: usize = 0;
        while pass < SKILLS_PASSES
            invariant
                pass <= SKILLS_PASSES,
                views(history@) == self.training_history(dog_id@),
                pass > 0 ==> views(skills@) == self.dog_skills(dog_id@),
            decreases SKILLS_PASSES - pass,
        {
            let mut named = skills_of_records(&history);
            sort_by_key::<String, Alphabetical>(&mut named);
            skills = drop_repeats(&named);
            pass = pass + 1;
        }
        skills
    }
}

} // verus!
