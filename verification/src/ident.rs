//! Identifiers of notes and tags, and the service that hands them out.

use std::collections::HashSet;
use vstd::prelude::*;

verus! {

broadcast use vstd::std_specs::hash::group_hash_axioms;

/// Identifier of a note or a tag: 128 bits, compared by value.
#[derive(Clone, Copy, Debug, PartialEq, Eq, Structural, Hash)]
pub struct Id {
    pub value: u128,
}

impl Id {
    /// The identifier that has `value` as its bits.
    pub fn from_u128(value: u128) -> (id: Id)
        ensures
            id.value == value,
    {
        Id { value }
    }

    /// The bits of the identifier.
    pub fn as_u128(&self) -> (value: u128)
        ensures
            value == self.value,
    {
        self.value
    }
}

/// The value reached from `start` after `k` steps of one, going round from
/// the largest 128-bit value to zero.
pub open spec fn step_from(start: u128, k: nat) -> u128 {
    ((start + k) % (u128::MAX + 1)) as u128
}

/// Counting from `start`, the first `k` values are all in `used` and the
/// next one is not.
pub open spec fn first_gap_at(used: Set<u128>, start: u128, k: nat) -> bool {
    &&& !used.contains(step_from(start, k))
    &&& forall|j: nat| j < k ==> used.contains(#[trigger] step_from(start, j))
}

/// `value` is the first value at or after `start`, going round the 128-bit
/// range, that is not in `used`. When `start` itself is not in `used`, that
/// is `start`.
pub open spec fn is_first_free(used: Set<u128>, start: u128, value: u128) -> bool {
    exists|k: nat| #[trigger] first_gap_at(used, start, k) && value == step_from(start, k)
}

/// Two different step counts below 2^128 reach different values.
proof fn lemma_steps_differ(start: u128, j: nat, k: nat)
    requires
        j < k,
        k <= u128::MAX,
    ensures
        step_from(start, j) != step_from(start, k),
{
}

/// A finite set that holds the first `k` values counted from `start` has at
/// least `k` members.
proof fn lemma_steps_fill(used: Set<u128>, start: u128, k: nat)
    requires
        used.finite(),
        k <= u128::MAX + 1,
        forall|j: nat| j < k ==> used.contains(#[trigger] step_from(start, j)),
    ensures
        k <= used.len(),
    decreases k,
{
    if k > 0 {
        let last = step_from(start, (k - 1) as nat);
        let rest = used.remove(last);
        assert forall|j: nat| j < (k - 1) as nat implies rest.contains(
            #[trigger] step_from(start, j),
        ) by {
            lemma_steps_differ(start, j, (k - 1) as nat);
        }
        lemma_steps_fill(rest, start, (k - 1) as nat);
    }
}

/// At most one value is the first free one.
pub proof fn lemma_first_free_unique(used: Set<u128>, start: u128, a: u128, b: u128)
    requires
        is_first_free(used, start, a),
        is_first_free(used, start, b),
    ensures
        a == b,
{
    let ka = choose|k: nat| #[trigger] first_gap_at(used, start, k) && a == step_from(start, k);
    let kb = choose|k: nat| #[trigger] first_gap_at(used, start, k) && b == step_from(start, k);
    if ka < kb {
        assert(used.contains(step_from(start, ka)));
    } else if kb < ka {
        assert(used.contains(step_from(start, kb)));
    }
}

/// What one step of a run does to the record of issued values: it hands
/// out `handed`, which was not on record before and is after, or it hands
/// out nothing and leaves the record as it was.
pub open spec fn hands_out(before: Set<u128>, after: Set<u128>, handed: Option<u128>) -> bool {
    match handed {
        Some(value) => !before.contains(value) && after == before.insert(value),
        None => after == before,
    }
}

/// `records` and `handed` describe a run: `records[i]` is the record before
/// step `i`, `records[i + 1]` the record after it, and `handed[i]` what the
/// step handed out.
pub open spec fn is_run(records: Seq<Set<u128>>, handed: Seq<Option<u128>>) -> bool {
    &&& records.len() == handed.len() + 1
    &&& forall|i: int|
        0 <= i < handed.len() ==> hands_out(records[i], records[i + 1], #[trigger] handed[i])
}

/// In a run, what an earlier step handed out is on record at every later
/// step.
proof fn lemma_run_keeps_record(
    records: Seq<Set<u128>>,
    handed: Seq<Option<u128>>,
    i: int,
    j: int,
)
    requires
        is_run(records, handed),
        0 <= i < j <= handed.len(),
        handed[i] is Some,
    ensures
        records[j].contains(handed[i]->0),
    decreases j - i,
{
    assert(hands_out(records[i], records[i + 1], handed[i]));
    if j > i + 1 {
        lemma_run_keeps_record(records, handed, i, j - 1);
        assert(hands_out(records[j - 1], records[j], handed[j - 1]));
    }
}

/// In a run, however long, no two steps hand out the same value.
pub proof fn lemma_handed_out_values_differ(records: Seq<Set<u128>>, handed: Seq<Option<u128>>)
    requires
        is_run(records, handed),
    ensures
        forall|i: int, j: int|
            0 <= i < j < handed.len() && (#[trigger] handed[i]) is Some && (
            #[trigger] handed[j]) is Some ==> handed[i] != handed[j],
{
    assert forall|i: int, j: int|
        0 <= i < j < handed.len() && (#[trigger] handed[i]) is Some && (
        #[trigger] handed[j]) is Some implies handed[i] != handed[j] by {
        lemma_run_keeps_record(records, handed, i, j);
        assert(hands_out(records[j], records[j + 1], handed[j]));
    }
}

/// Draws 128 random bits by a call of `uuid::Uuid::new_v4`, read as one
/// number by `Uuid::as_u128`. Nothing is claimed of the number drawn. The
/// call panics if the operating system cannot supply random bytes.
#[verifier::external_body]
pub(crate) fn random_bits() -> (bits: u128) {
    uuid::Uuid::new_v4().as_u128()
}

/// Hands out identifiers and remembers every one it has handed out, so that
/// none is ever handed out twice.
pub struct IdService {
    issued: HashSet<u128>,
}

impl IdService {
    /// The values of all identifiers handed out so far.
    pub closed spec fn issued(&self) -> Set<u128> {
        self.issued@
    }

    /// The record of issued identifiers is a finite set.
    pub open spec fn wf(&self) -> bool {
        self.issued().finite()
    }

    /// A service that has handed out nothing yet.
    pub fn new() -> (service: IdService)
        ensures
            service.wf(),
            service.issued() == Set::<u128>::empty(),
    {
        IdService { issued: HashSet::new() }
    }

    /// Whether `id` has been handed out by this service.
    pub fn was_issued(&self, id: Id) -> (b: bool)
        ensures
            b == self.issued().contains(id.value),
    {
        self.issued.contains(&id.value)
    }

    /// Hands out `candidate` if it was never handed out before, and otherwise
    /// the first value after it, going round the 128-bit range, that never
    /// was. The identifier handed out is recorded.
    pub fn claim(&mut self, candidate: u128) -> (id: Id)
        requires
            old(self).wf(),
        ensures
            final(self).wf(),
            is_first_free(old(self).issued(), candidate, id.value),
            !old(self).issued().contains(candidate) ==> id.value == candidate,
            hands_out(old(self).issued(), final(self).issued(), Some(id.value)),
    {
        let mut value: u128 = candidate;
        let ghost k: nat = 0;
        while self.issued.contains(&value)
            invariant
                self.issued@ == old(self).issued@,
                self.issued@.finite(),
                value == step_from(candidate, k),
                k <= self.issued@.len(),
                forall|j: nat| j < k ==> self.issued@.contains(#[trigger] step_from(candidate, j)),
            decreases self.issued@.len() - k,
        {
            value = if value == u128::MAX { 0 } else { value + 1 };
            proof {
                assert(self.issued@.len() == self.issued.len());
                k = k + 1;
                lemma_steps_fill(self.issued@, candidate, k);
            }
        }
        assert(first_gap_at(self.issued@, candidate, k));
        self.issued.insert(value);
        Id { value }
    }

    /// Hands out an identifier that this service never handed out before,
    /// and records it. The identifier is drawn at random; see
    /// [`IdService::claim`] for what is done with the number drawn.
    pub fn new_id(&mut self) -> (id: Id)
        requires
            old(self).wf(),
        ensures
            final(self).wf(),
            hands_out(old(self).issued(), final(self).issued(), Some(id.value)),
    {
        let candidate = random_bits();
        self.claim(candidate)
    }
}

} // verus!
