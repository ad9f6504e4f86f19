//! The pass over the records: how many of them match the criteria, and how many of those calls
//! completed.

use vstd::prelude::*;
use crate::examine::{examine, examine_spec, record_error_message, Outcome, RecordError};
use crate::record::{views, CallRecord, CallRecordView, FilterCriteria, FilterCriteriaView};

verus! {

/// Whether `record` passes the criteria of `filter`.
pub open spec fn is_matched(record: CallRecordView, filter: FilterCriteriaView) -> bool {
    examine_spec(record, filter) matches Ok(Outcome::Matched { .. })
}

/// Whether `record` passes the criteria of `filter` and its call completed.
pub open spec fn is_successful(record: CallRecordView, filter: FilterCriteriaView) -> bool {
    examine_spec(record, filter) == Ok::<Outcome, RecordError>(Outcome::Matched { successful: true })
}

/// How many of `records` pass the criteria of `filter`.
pub open spec fn matched_count(records: Seq<CallRecordView>, filter: FilterCriteriaView) -> nat {
    records.filter(|record: CallRecordView| is_matched(record, filter)).len()
}

/// How many of `records` pass the criteria of `filter` with a call that completed.
pub open spec fn successful_count(records: Seq<CallRecordView>, filter: FilterCriteriaView) -> nat {
    records.filter(|record: CallRecordView| is_successful(record, filter)).len()
}

/// Whether every one of `records` can be examined under `filter`.
pub open spec fn all_examinable(records: Seq<CallRecordView>, filter: FilterCriteriaView) -> bool {
    forall|i: int| 0 <= i < records.len() ==> examine_spec(#[trigger] records[i], filter) is Ok
}

/// Whether the record at `index` is the first of `records` that cannot be examined under
/// `filter`, and `reason` is why.
pub open spec fn fails_first_at(
    records: Seq<CallRecordView>,
    filter: FilterCriteriaView,
    index: int,
    reason: RecordError,
) -> bool {
    &&& 0 <= index < records.len()
    &&& examine_spec(records[index], filter) == Err::<Outcome, RecordError>(reason)
    &&& forall|i: int| 0 <= i < index ==> examine_spec(#[trigger] records[i], filter) is Ok
}

/// The two counts of a pass as plain numbers.
pub struct Tally {
    pub matched_count: nat,
    pub successful_count: nat,
}

/// The counts that a pass over records ends with: the records that matched, and the calls
/// among them that completed.  The second count never exceeds the first.  Where no record
/// matched, both are zero and the share of completed calls is undefined.
#[derive(Clone, Copy, Debug, PartialEq, Eq)]
pub struct AggregationResult {
    matched_count: u64,
    successful_count: u64,
}

impl View for AggregationResult {
    type V = Tally;

    closed spec fn view(&self) -> Tally {
        Tally {
            matched_count: self.matched_count as nat,
            successful_count: self.successful_count as nat,
        }
    }
}

impl AggregationResult {
    #[verifier::type_invariant]
    spec fn successes_within_matches(self) -> bool {
        self.successful_count <= self.matched_count
    }

    /// The number of records that passed the criteria.
    pub fn matched_count(&self) -> (count: u64)
        ensures
            count == self@.matched_count,
            count >= self@.successful_count,
    {
        proof {
            use_type_invariant(self);
        }
        self.matched_count
    }

    /// The number of records that passed the criteria with a call that completed.
    pub fn successful_count(&self) -> (count: u64)
        ensures
            count == self@.successful_count,
            count <= self@.matched_count,
    {
        proof {
            use_type_invariant(self);
        }
        self.successful_count
    }
}

/// The record that stopped a pass, and why.
#[derive(Clone, Copy, Debug, PartialEq, Eq, Structural)]
pub struct AggregateError {
    /// The position of the record among those handed in.
    pub index: usize,
    /// Why the record could not be examined.
    pub reason: RecordError,
}

impl AggregateError {
    /// A sentence that says what is wrong with the record that stopped the pass.
    pub fn message(&self) -> (text: String)
        ensures
            text@ == record_error_message(self.reason),
    {
        self.reason.message()
    }
}

/// Counts the records that pass the criteria of `filter`, and the completed calls among them.
///
/// The records are examined in order.  The pass stops at the first record that cannot be
/// examined, with that record's position and the reason, and gives no counts then.
pub fn aggregate(records: &[CallRecord], filter: &FilterCriteria) -> (result: Result<
    AggregationResult,
    AggregateError,
>)
    ensures
        result is Ok <==> all_examinable(views(records@), filter@),
        result matches Ok(tally) ==> {
            &&& tally@.matched_count == matched_count(views(records@), filter@)
            &&& tally@.successful_count == successful_count(views(records@), filter@)
            &&& tally@.successful_count <= tally@.matched_count
        },
        result matches Err(error) ==> fails_first_at(
            views(records@),
            filter@,
            error.index as int,
            error.reason,
        ),
{
    let ghost all = views(records@);
    let ghost matches = |record: CallRecordView| is_matched(record, filter@);
    let ghost succeeds = |record: CallRecordView| is_successful(record, filter@);
    let mut matched: u64 = 0;
    let mut successful: u64 = 0;
    let mut i: usize = 0;
    while i < records.len()
        invariant
            i <= records.len(),
            all == views(records@),
            matches == |record: CallRecordView| is_matched(record, filter@),
            succeeds == |record: CallRecordView| is_successful(record, filter@),
            forall|j: int| 0 <= j < i ==> examine_spec(#[trigger] all[j], filter@) is Ok,
            matched == all.take(i as int).filter(matches).len(),
            successful == all.take(i as int).filter(succeeds).len(),
            successful <= matched <= i,
        decreases records.len() - i,
    {
        let outcome = examine(&records[i], filter);
        proof {
            assert(all.take(i + 1) == all.take(i as int).push(all[i as int]));
            all.take(i as int).lemma_filter_push(all[i as int], matches);
            all.take(i as int).lemma_filter_push(all[i as int], succeeds);
        }
        match outcome {
            Err(reason) => {
                return Err(AggregateError { index: i, reason });
            },
            Ok(Outcome::Skipped) => {},
            Ok(Outcome::Matched { successful: completed }) => {
                matched += 1;
                if completed {
                    successful += 1;
                }
            },
        }
        i += 1;
    }
    proof {
        assert(all.take(i as int) == all);
    }
    Ok(AggregationResult { matched_count: matched, successful_count: successful })
}

/// Among any records, the calls that count as successful are no more than the records that
/// match.
pub proof fn law_successes_within_matches(records: Seq<CallRecordView>, filter: FilterCriteriaView)
    ensures
        successful_count(records, filter) <= matched_count(records, filter),
{
    lemma_filter_len_implies(
        records,
        |record: CallRecordView| is_successful(record, filter),
        |record: CallRecordView| is_matched(record, filter),
    );
}

/// The order of the records does not matter: the same records in another order can all be
/// examined exactly if they could before, and they come to the same two counts.
pub proof fn law_order_independent(
    records: Seq<CallRecordView>,
    permuted: Seq<CallRecordView>,
    filter: FilterCriteriaView,
)
    requires
        records.to_multiset() == permuted.to_multiset(),
    ensures
        all_examinable(records, filter) <==> all_examinable(permuted, filter),
        matched_count(records, filter) == matched_count(permuted, filter),
        successful_count(records, filter) == successful_count(permuted, filter),
{
    if all_examinable(records, filter) {
        lemma_examinable_permutation(records, permuted, filter);
    }
    if all_examinable(permuted, filter) {
        lemma_examinable_permutation(permuted, records, filter);
    }
    lemma_filter_len_permutation(
        records,
        permuted,
        |record: CallRecordView| is_matched(record, filter),
    );
    lemma_filter_len_permutation(
        records,
        permuted,
        |record: CallRecordView| is_successful(record, filter),
    );
}

/// A test that is met only where a wider one is met keeps no more items than the wider one.
proof fn lemma_filter_len_implies<A>(s: Seq<A>, narrow: spec_fn(A) -> bool, wide: spec_fn(A) -> bool)
    requires
        forall|a: A| #[trigger] narrow(a) ==> wide(a),
    ensures
        s.filter(narrow).len() <= s.filter(wide).len(),
    decreases s.len(),
{
    if s.len() > 0 {
        lemma_filter_len_implies(s.drop_last(), narrow, wide);
        s.drop_last().lemma_filter_push(s.last(), narrow);
        s.drop_last().lemma_filter_push(s.last(), wide);
        assert(s.drop_last().push(s.last()) == s);
    }
}

/// Taking one item out of a sequence lowers the number of items that pass a test by one if
/// that item passes, and leaves it otherwise.
proof fn lemma_filter_len_remove<A>(s: Seq<A>, i: int, pred: spec_fn(A) -> bool)
    requires
        0 <= i < s.len(),
    ensures
        s.filter(pred).len() == s.remove(i).filter(pred).len() + if pred(s[i]) {
            1int
        } else {
            0int
        },
{
    let before = s.take(i);
    let after = s.skip(i + 1);
    assert(s == before.push(s[i]) + after);
    Seq::filter_distributes_over_add(before.push(s[i]), after, pred);
    Seq::filter_distributes_over_add(before, after, pred);
    before.lemma_filter_push(s[i], pred);
}

/// Two sequences that hold the same items, each as often, hold as many items that pass a test.
proof fn lemma_filter_len_permutation<A>(a: Seq<A>, b: Seq<A>, pred: spec_fn(A) -> bool)
    requires
        a.to_multiset() == b.to_multiset(),
    ensures
        a.filter(pred).len() == b.filter(pred).len(),
    decreases a.len(),
{
    broadcast use vstd::seq_lib::group_to_multiset_ensures;

    if a.len() == 0 {
        vstd::seq_lib::to_multiset_len(a);
        vstd::seq_lib::to_multiset_len(b);
    } else {
        let last = a.len() - 1;
        let x = a[last];
        assert(b.to_multiset().count(x) > 0);
        let i = b.index_of(x);
        lemma_filter_len_permutation(a.remove(last), b.remove(i), pred);
        lemma_filter_len_remove(a, last, pred);
        lemma_filter_len_remove(b, i, pred);
    }
}

/// Records that can all be examined can all be examined in any other order.
proof fn lemma_examinable_permutation(
    records: Seq<CallRecordView>,
    permuted: Seq<CallRecordView>,
    filter: FilterCriteriaView,
)
    requires
        records.to_multiset() == permuted.to_multiset(),
        all_examinable(records, filter),
    ensures
        all_examinable(permuted, filter),
{
    broadcast use vstd::seq_lib::group_to_multiset_ensures;

    assert forall|i: int| 0 <= i < permuted.len() implies examine_spec(
        #[trigger] permuted[i],
        filter,
    ) is Ok by {
        assert(records.to_multiset().count(permuted[i]) > 0);
        let j = records.index_of(permuted[i]);
    }
}

} // verus!
