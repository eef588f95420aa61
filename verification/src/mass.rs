//! The arithmetic of outcome lists: how much weight a list carries, how much
//! of it rests on one state, and what merging does to both.
//!
//! Only the weight a list gives to each pair of hit points matters; the order
//! of its entries does not. A list is canonical when no state occurs twice in
//! it and no entry has weight zero, so that it has exactly one entry for each
//! state that can be reached.
use crate::simple_calc::Outcome;
use vstd::prelude::*;

verus! {

/// The weights of all the outcomes of a list, added up.
pub open spec fn total_mass(outcomes: Seq<Outcome>) -> nat
    decreases outcomes.len(),
{
    if outcomes.len() == 0 {
        0
    } else {
        total_mass(outcomes.drop_last()) + outcomes.last().prob as nat
    }
}

/// The weight that a list gives to one pair of hit points.
pub open spec fn mass_at(outcomes: Seq<Outcome>, atk_hp: u32, def_hp: u32) -> nat
    decreases outcomes.len(),
{
    if outcomes.len() == 0 {
        0
    } else {
        let last = outcomes.last();
        mass_at(outcomes.drop_last(), atk_hp, def_hp) + if last.atk_hp == atk_hp && last.def_hp
            == def_hp {
            last.prob as nat
        } else {
            0
        }
    }
}

/// No two entries of the list leave the two sides on the same hit points.
pub open spec fn distinct_states(outcomes: Seq<Outcome>) -> bool {
    forall|i: int, j: int|
        0 <= i < j < outcomes.len() ==> !(#[trigger] outcomes[i]).same_state(#[trigger] outcomes[j])
}

/// No entry of the list has weight zero.
pub open spec fn all_possible(outcomes: Seq<Outcome>) -> bool {
    forall|i: int| 0 <= i < outcomes.len() ==> (#[trigger] outcomes[i]).prob > 0
}

/// The list has one entry for each state it gives weight to, and no other.
pub open spec fn is_canonical(outcomes: Seq<Outcome>) -> bool {
    distinct_states(outcomes) && all_possible(outcomes)
}

/// Whether some entry of the list has the state of `outcome`.
pub open spec fn holds_state(outcomes: Seq<Outcome>, outcome: Outcome) -> bool {
    exists|i: int| 0 <= i < outcomes.len() && (#[trigger] outcomes[i]).same_state(outcome)
}

/// The list with the weight of `outcome` put onto every entry of its state.
pub open spec fn raised(outcome: Outcome, outcomes: Seq<Outcome>) -> Seq<Outcome> {
    Seq::new(
        outcomes.len(),
        |i: int|
            if outcomes[i].same_state(outcome) {
                Outcome {
                    prob: (outcome.prob + outcomes[i].prob) as u128,
                    atk_hp: outcome.atk_hp,
                    def_hp: outcome.def_hp,
                }
            } else {
                outcomes[i]
            },
    )
}

/// The list after `outcome` has been added to it: onto the entries of its
/// state where there are any, at the end where there are none.
pub open spec fn merged(outcome: Outcome, outcomes: Seq<Outcome>) -> Seq<Outcome> {
    if holds_state(outcomes, outcome) {
        raised(outcome, outcomes)
    } else {
        outcomes.push(outcome)
    }
}

/// What is left after the possible outcomes of a list have been added to
/// `acc` one by one, first to last.
pub open spec fn collected_into(acc: Seq<Outcome>, outcomes: Seq<Outcome>) -> Seq<Outcome>
    decreases outcomes.len(),
{
    if outcomes.len() == 0 {
        acc
    } else {
        let so_far = collected_into(acc, outcomes.drop_last());
        if outcomes.last().prob == 0 {
            so_far
        } else {
            merged(outcomes.last(), so_far)
        }
    }
}

/// The canonical form of a list: its possible outcomes, merged by state, in
/// the order in which each state first occurs.
pub open spec fn collected(outcomes: Seq<Outcome>) -> Seq<Outcome> {
    collected_into(Seq::empty(), outcomes)
}

/// A list of one outcome carries the weight of that outcome.
pub proof fn lemma_mass_of_one(outcome: Outcome)
    ensures
        total_mass(seq![outcome]) == outcome.prob,
        mass_at(seq![outcome], outcome.atk_hp, outcome.def_hp) == outcome.prob,
{
    let one = seq![outcome];
    assert(total_mass(one.drop_last()) == 0);
    assert(mass_at(one.drop_last(), outcome.atk_hp, outcome.def_hp) == 0);
}

/// A list carries the weight of its two halves.
pub proof fn lemma_mass_concat(front: Seq<Outcome>, back: Seq<Outcome>)
    ensures
        total_mass(front + back) == total_mass(front) + total_mass(back),
        forall|atk_hp: u32, def_hp: u32|
            mass_at(front + back, atk_hp, def_hp) == mass_at(front, atk_hp, def_hp) + mass_at(
                back,
                atk_hp,
                def_hp,
            ),
    decreases back.len(),
{
    if back.len() > 0 {
        let whole = front + back;
        assert(whole.drop_last() =~= front + back.drop_last());
        lemma_mass_concat(front, back.drop_last());
        assert forall|atk_hp: u32, def_hp: u32|
            mass_at(whole, atk_hp, def_hp) == mass_at(front, atk_hp, def_hp) + mass_at(
                back,
                atk_hp,
                def_hp,
            ) by {
            assert(mass_at(whole.drop_last(), atk_hp, def_hp) == mass_at(front, atk_hp, def_hp)
                + mass_at(back.drop_last(), atk_hp, def_hp));
        }
    }
}

/// A beginning of a list carries no more weight than the whole.
pub proof fn lemma_total_mass_prefix(outcomes: Seq<Outcome>, n: int)
    requires
        0 <= n <= outcomes.len(),
    ensures
        total_mass(outcomes.take(n)) <= total_mass(outcomes),
{
    assert(outcomes.take(n) + outcomes.skip(n) =~= outcomes);
    lemma_mass_concat(outcomes.take(n), outcomes.skip(n));
}

/// No state carries more weight than the whole list.
pub proof fn lemma_mass_at_bounded(outcomes: Seq<Outcome>, atk_hp: u32, def_hp: u32)
    ensures
        mass_at(outcomes, atk_hp, def_hp) <= total_mass(outcomes),
    decreases outcomes.len(),
{
    if outcomes.len() > 0 {
        lemma_mass_at_bounded(outcomes.drop_last(), atk_hp, def_hp);
    }
}

/// A state that no entry has carries no weight.
pub proof fn lemma_mass_of_absent(outcomes: Seq<Outcome>, atk_hp: u32, def_hp: u32)
    requires
        forall|i: int|
            0 <= i < outcomes.len() ==> !((#[trigger] outcomes[i]).atk_hp == atk_hp
                && outcomes[i].def_hp == def_hp),
    ensures
        mass_at(outcomes, atk_hp, def_hp) == 0,
    decreases outcomes.len(),
{
    if outcomes.len() > 0 {
        lemma_mass_of_absent(outcomes.drop_last(), atk_hp, def_hp);
    }
}

/// Where no state occurs twice, the weight of a state is the weight of its
/// one entry.
pub proof fn lemma_mass_of_distinct(outcomes: Seq<Outcome>, i: int)
    requires
        distinct_states(outcomes),
        0 <= i < outcomes.len(),
    ensures
        mass_at(outcomes, outcomes[i].atk_hp, outcomes[i].def_hp) == outcomes[i].prob,
    decreases outcomes.len(),
{
    let front = outcomes.drop_last();
    let last = outcomes.last();
    if i == outcomes.len() - 1 {
        lemma_mass_of_absent(front, last.atk_hp, last.def_hp);
    } else {
        lemma_mass_of_distinct(front, i);
    }
}

/// What adding one outcome does to a list in which no state occurs twice:
/// the list stays so, and the weight of the outcome is added to the weight
/// of its state and of no other.
pub proof fn lemma_merged(outcome: Outcome, outcomes: Seq<Outcome>)
    requires
        distinct_states(outcomes),
        outcome.prob + mass_at(outcomes, outcome.atk_hp, outcome.def_hp) <= u128::MAX,
    ensures
        distinct_states(merged(outcome, outcomes)),
        all_possible(outcomes) && outcome.prob > 0 ==> all_possible(merged(outcome, outcomes)),
        total_mass(merged(outcome, outcomes)) == total_mass(outcomes) + outcome.prob,
        forall|atk_hp: u32, def_hp: u32|
            mass_at(merged(outcome, outcomes), atk_hp, def_hp) == mass_at(
                outcomes,
                atk_hp,
                def_hp,
            ) + if outcome.atk_hp == atk_hp && outcome.def_hp == def_hp {
                outcome.prob as nat
            } else {
                0
            },
{
    let after = merged(outcome, outcomes);
    if holds_state(outcomes, outcome) {
        let at = choose|i: int| 0 <= i < outcomes.len() && (#[trigger] outcomes[i]).same_state(outcome);
        lemma_mass_of_distinct(outcomes, at);
        lemma_raised_total(outcome, outcomes, at);
        assert forall|atk_hp: u32, def_hp: u32|
            mass_at(after, atk_hp, def_hp) == mass_at(outcomes, atk_hp, def_hp) + if outcome.atk_hp
                == atk_hp && outcome.def_hp == def_hp {
                outcome.prob as nat
            } else {
                0
            } by {
            lemma_mass_matches(after, outcomes, at, outcome, atk_hp, def_hp);
        }
    } else {
        assert(after.drop_last() =~= outcomes);
    }
}

/// Raising the one entry at `at` adds the weight of `outcome` to the total.
proof fn lemma_raised_total(outcome: Outcome, outcomes: Seq<Outcome>, at: int)
    requires
        distinct_states(outcomes),
        0 <= at < outcomes.len(),
        outcomes[at].same_state(outcome),
        outcome.prob + outcomes[at].prob <= u128::MAX,
    ensures
        total_mass(raised(outcome, outcomes)) == total_mass(outcomes) + outcome.prob,
    decreases outcomes.len(),
{
    let front = outcomes.drop_last();
    let last_index = outcomes.len() - 1;
    assert(raised(outcome, outcomes).drop_last() =~= raised(outcome, front));
    if at == last_index {
        assert(raised(outcome, front) =~= front);
    } else {
        lemma_raised_total(outcome, front, at);
    }
}

/// Two lists with the same states entry by entry, that differ in weight at
/// `at` alone and there by the weight of `outcome`, differ in the weight of
/// that state alone.
proof fn lemma_mass_matches(
    after: Seq<Outcome>,
    before: Seq<Outcome>,
    at: int,
    outcome: Outcome,
    atk_hp: u32,
    def_hp: u32,
)
    requires
        after.len() == before.len(),
        distinct_states(before),
        0 <= at < before.len(),
        before[at].same_state(outcome),
        forall|i: int|
            0 <= i < before.len() ==> (#[trigger] after[i]).same_state(before[i]) && after[i].prob
                == before[i].prob + if i == at {
                outcome.prob as nat
            } else {
                0
            },
    ensures
        mass_at(after, atk_hp, def_hp) == mass_at(before, atk_hp, def_hp) + if outcome.atk_hp
            == atk_hp && outcome.def_hp == def_hp {
            outcome.prob as nat
        } else {
            0
        },
{
    if exists|i: int| 0 <= i < before.len() && (#[trigger] before[i]).atk_hp == atk_hp && before[i].def_hp == def_hp {
        let i = choose|i: int| 0 <= i < before.len() && (#[trigger] before[i]).atk_hp == atk_hp && before[i].def_hp == def_hp;
        lemma_mass_of_distinct(before, i);
        lemma_mass_of_distinct(after, i);
    } else {
        lemma_mass_of_absent(before, atk_hp, def_hp);
        lemma_mass_of_absent(after, atk_hp, def_hp);
    }
}

/// What collecting does: the result is canonical and gives every state the
/// weight that the list in hand and the list collected gave it together.
pub proof fn lemma_collected(acc: Seq<Outcome>, outcomes: Seq<Outcome>)
    requires
        is_canonical(acc),
        total_mass(acc) + total_mass(outcomes) <= u128::MAX,
    ensures
        is_canonical(collected_into(acc, outcomes)),
        total_mass(collected_into(acc, outcomes)) == total_mass(acc) + total_mass(outcomes),
        forall|atk_hp: u32, def_hp: u32|
            mass_at(collected_into(acc, outcomes), atk_hp, def_hp) == mass_at(acc, atk_hp, def_hp)
                + mass_at(outcomes, atk_hp, def_hp),
    decreases outcomes.len(),
{
    if outcomes.len() > 0 {
        let last = outcomes.last();
        let so_far = collected_into(acc, outcomes.drop_last());
        lemma_collected(acc, outcomes.drop_last());
        if last.prob != 0 {
            lemma_mass_at_bounded(so_far, last.atk_hp, last.def_hp);
            lemma_merged(last, so_far);
        }
    }
}

/// Collecting a list in two parts, the second onto what the first has left,
/// is collecting it whole.
pub proof fn lemma_collected_concat(acc: Seq<Outcome>, front: Seq<Outcome>, back: Seq<Outcome>)
    ensures
        collected_into(acc, front + back) == collected_into(collected_into(acc, front), back),
    decreases back.len(),
{
    if back.len() > 0 {
        assert((front + back).drop_last() =~= front + back.drop_last());
        lemma_collected_concat(acc, front, back.drop_last());
    }
}

/// The list with the weight of each of its first `n` entries doubled.
pub open spec fn doubled_to(outcomes: Seq<Outcome>, n: int) -> Seq<Outcome> {
    Seq::new(
        outcomes.len(),
        |i: int|
            if i < n {
                Outcome {
                    prob: (2 * outcomes[i].prob) as u128,
                    atk_hp: outcomes[i].atk_hp,
                    def_hp: outcomes[i].def_hp,
                }
            } else {
                outcomes[i]
            },
    )
}

/// The list with the weight of every entry doubled.
pub open spec fn doubled(outcomes: Seq<Outcome>) -> Seq<Outcome> {
    doubled_to(outcomes, outcomes.len() as int)
}

/// Collecting is idempotent: a canonical list is its own canonical form, so
/// collecting what has been collected changes nothing.
pub proof fn lemma_collected_of_canonical(outcomes: Seq<Outcome>)
    requires
        is_canonical(outcomes),
    ensures
        collected(outcomes) == outcomes,
    decreases outcomes.len(),
{
    if outcomes.len() > 0 {
        lemma_collected_of_canonical(outcomes.drop_last());
    }
}

/// Merging a canonical list with itself changes nothing but the scale: the
/// result has the same states in the same order, each with twice its weight.
pub proof fn lemma_collected_twice(outcomes: Seq<Outcome>)
    requires
        is_canonical(outcomes),
        2 * total_mass(outcomes) <= u128::MAX,
    ensures
        collected(outcomes + outcomes) == doubled(outcomes),
        is_canonical(doubled(outcomes)),
        total_mass(doubled(outcomes)) == 2 * total_mass(outcomes),
{
    lemma_collected_concat(Seq::empty(), outcomes, outcomes);
    lemma_collected_of_canonical(outcomes);
    lemma_collected_onto_itself(outcomes, outcomes.len() as int);
    assert(outcomes.take(outcomes.len() as int) =~= outcomes);
    lemma_mass_concat(outcomes, outcomes);
    lemma_collected(Seq::empty(), outcomes + outcomes);
}

/// Collecting the first `n` entries of a canonical list onto the list
/// doubles the weight of those entries.
proof fn lemma_collected_onto_itself(outcomes: Seq<Outcome>, n: int)
    requires
        is_canonical(outcomes),
        2 * total_mass(outcomes) <= u128::MAX,
        0 <= n <= outcomes.len(),
    ensures
        collected_into(outcomes, outcomes.take(n)) == doubled_to(outcomes, n),
    decreases n,
{
    if n > 0 {
        let at = n - 1;
        assert(outcomes.take(n).drop_last() =~= outcomes.take(at));
        lemma_collected_onto_itself(outcomes, at);
        assert(doubled_to(outcomes, at)[at].same_state(outcomes[at]));
    }
}

} // verus!
