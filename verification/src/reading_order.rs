//! Why a round may be read in any order: taking in the verdicts one position
//! after another, in whatever order, and then striking the confirmed letters
//! from the positional exclusions gives the state that the round as a whole
//! leads to.

use crate::feedback::Verdict;
use crate::knowledge::{confirmed_below, misplaced_at, rules_out, ruled_out_below, Knowledge};
use crate::words::WORD_LEN;
use vstd::prelude::*;

verus! {

/// The knowledge after the verdict on position `i` alone is recorded: a
/// correct letter is confirmed there, a misplaced letter is excluded there,
/// and the letter guessed there is globally excluded where the verdicts rule
/// it out.
pub open spec fn read_one(
    knowledge: Knowledge,
    verdicts: Seq<Verdict>,
    guess: Seq<char>,
    i: int,
) -> Knowledge {
    Knowledge {
        confirmed: match verdicts[i] {
            Verdict::Correct(c) => knowledge.confirmed.update(i, Some(c)),
            _ => knowledge.confirmed,
        },
        excluded_global: if rules_out(verdicts, i) {
            knowledge.excluded_global.insert(guess[i])
        } else {
            knowledge.excluded_global
        },
        excluded_at_position: match verdicts[i] {
            Verdict::Misplaced(c) => knowledge.excluded_at_position.update(
                i,
                knowledge.excluded_at_position[i].insert(c),
            ),
            _ => knowledge.excluded_at_position,
        },
    }
}

/// The knowledge after the verdicts on the positions listed in `order` are
/// recorded one after another.
pub open spec fn read_in_order(
    knowledge: Knowledge,
    verdicts: Seq<Verdict>,
    guess: Seq<char>,
    order: Seq<int>,
) -> Knowledge
    decreases order.len(),
{
    if order.len() == 0 {
        knowledge
    } else {
        read_one(
            read_in_order(knowledge, verdicts, guess, order.drop_last()),
            verdicts,
            guess,
            order.last(),
        )
    }
}

/// The knowledge with every confirmed letter struck from the letters excluded
/// at each position.
pub open spec fn settled(knowledge: Knowledge) -> Knowledge {
    Knowledge {
        confirmed: knowledge.confirmed,
        excluded_global: knowledge.excluded_global,
        excluded_at_position: Seq::new(
            WORD_LEN as nat,
            |j: int| knowledge.excluded_at_position[j].difference(knowledge.confirmed_letters()),
        ),
    }
}

/// Whether `order` lists positions of a word only, and each of them at least
/// once.
pub open spec fn reads_every_position(order: Seq<int>) -> bool {
    &&& forall|n: int| 0 <= n < order.len() ==> 0 <= #[trigger] order[n] < WORD_LEN
    &&& forall|i: int| 0 <= i < WORD_LEN ==> order.contains(i)
}

/// The knowledge after the verdicts on the positions in `done` are recorded.
spec fn read_all_of(
    knowledge: Knowledge,
    verdicts: Seq<Verdict>,
    guess: Seq<char>,
    done: Set<int>,
) -> Knowledge {
    Knowledge {
        confirmed: Seq::new(
            WORD_LEN as nat,
            |i: int|
                if done.contains(i) {
                    match verdicts[i] {
                        Verdict::Correct(c) => Some(c),
                        _ => knowledge.confirmed[i],
                    }
                } else {
                    knowledge.confirmed[i]
                },
        ),
        excluded_global: knowledge.excluded_global.union(
            Set::new(
                |c: char|
                    exists|i: int|
                        0 <= i < WORD_LEN && done.contains(i) && rules_out(verdicts, i) && guess[i]
                            == c,
            ),
        ),
        excluded_at_position: Seq::new(
            WORD_LEN as nat,
            |j: int|
                if done.contains(j) {
                    knowledge.excluded_at_position[j].union(misplaced_at(verdicts, j))
                } else {
                    knowledge.excluded_at_position[j]
                },
        ),
    }
}

/// Recording one more position adds it to the positions recorded.
proof fn lemma_read_one_more(
    knowledge: Knowledge,
    verdicts: Seq<Verdict>,
    guess: Seq<char>,
    done: Set<int>,
    i: int,
)
    requires
        0 <= i < WORD_LEN,
    ensures
        read_one(read_all_of(knowledge, verdicts, guess, done), verdicts, guess, i) == read_all_of(
            knowledge,
            verdicts,
            guess,
            done.insert(i),
        ),
{
    let before = read_all_of(knowledge, verdicts, guess, done);
    let after = read_one(before, verdicts, guess, i);
    let goal = read_all_of(knowledge, verdicts, guess, done.insert(i));
    assert(after.confirmed =~= goal.confirmed);
    assert forall|c: char| after.excluded_global.contains(c) <==> goal.excluded_global.contains(
        c,
    ) by {
        if after.excluded_global.contains(c) && !knowledge.excluded_global.contains(c) {
            if before.excluded_global.contains(c) {
                let k = choose|k: int|
                    0 <= k < WORD_LEN && done.contains(k) && rules_out(verdicts, k) && guess[k]
                        == c;
                assert(done.insert(i).contains(k));
            } else {
                assert(done.insert(i).contains(i) && rules_out(verdicts, i) && guess[i] == c);
            }
        }
        if goal.excluded_global.contains(c) && !knowledge.excluded_global.contains(c) {
            let k = choose|k: int|
                0 <= k < WORD_LEN && done.insert(i).contains(k) && rules_out(verdicts, k)
                    && guess[k] == c;
            if k != i {
                assert(done.contains(k));
            }
        }
    }
    assert(after.excluded_global =~= goal.excluded_global);
    assert forall|j: int| 0 <= j < WORD_LEN implies #[trigger] after.excluded_at_position[j]
        =~= goal.excluded_at_position[j] by {
        if j == i {
            match verdicts[i] {
                Verdict::Misplaced(c) => {
                    assert(misplaced_at(verdicts, i) =~= Set::<char>::empty().insert(c));
                },
                _ => {
                    assert(misplaced_at(verdicts, i) =~= Set::<char>::empty());
                },
            }
        }
    }
    assert(after.excluded_at_position =~= goal.excluded_at_position);
    assert(after =~= goal);
}

/// Recording the positions of a list one after another records the set of
/// those positions.
proof fn lemma_read_in_order(
    knowledge: Knowledge,
    verdicts: Seq<Verdict>,
    guess: Seq<char>,
    order: Seq<int>,
)
    requires
        knowledge.shaped(),
        forall|n: int| 0 <= n < order.len() ==> 0 <= #[trigger] order[n] < WORD_LEN,
    ensures
        read_in_order(knowledge, verdicts, guess, order) == read_all_of(
            knowledge,
            verdicts,
            guess,
            order.to_set(),
        ),
    decreases order.len(),
{
    if order.len() == 0 {
        let nothing_read = read_all_of(knowledge, verdicts, guess, order.to_set());
        assert(nothing_read.confirmed =~= knowledge.confirmed);
        assert(nothing_read.excluded_global =~= knowledge.excluded_global);
        assert(nothing_read.excluded_at_position =~= knowledge.excluded_at_position);
        assert(nothing_read =~= knowledge);
    } else {
        let front = order.drop_last();
        lemma_read_in_order(knowledge, verdicts, guess, front);
        lemma_read_one_more(knowledge, verdicts, guess, front.to_set(), order.last());
        assert(order =~= front.push(order.last()));
        front.lemma_push_to_set_commute(order.last());
    }
}

/// A round may be read in any order: whatever the order in which the verdicts
/// are recorded, striking the confirmed letters afterwards gives the
/// knowledge after the round.
pub proof fn lemma_any_order_gives_the_round(
    knowledge: Knowledge,
    verdicts: Seq<Verdict>,
    guess: Seq<char>,
    order: Seq<int>,
)
    requires
        knowledge.shaped(),
        reads_every_position(order),
    ensures
        settled(read_in_order(knowledge, verdicts, guess, order)) == knowledge.updated(
            verdicts,
            guess,
        ),
{
    lemma_read_in_order(knowledge, verdicts, guess, order);
    let done = order.to_set();
    let read = read_all_of(knowledge, verdicts, guess, done);
    let after = settled(read);
    let goal = knowledge.updated(verdicts, guess);
    assert forall|i: int| 0 <= i < WORD_LEN implies done.contains(i) by {
        assert(order.contains(i));
    }
    assert(after.confirmed =~= goal.confirmed);
    assert(after.excluded_global =~= goal.excluded_global) by {
        assert(read.excluded_global =~= knowledge.excluded_global.union(
            ruled_out_below(verdicts, guess, WORD_LEN as int),
        ));
    }
    assert forall|j: int| 0 <= j < WORD_LEN implies #[trigger] after.excluded_at_position[j]
        =~= goal.excluded_at_position[j] by {
        assert(read.confirmed_letters() =~= confirmed_below(goal.confirmed, WORD_LEN as int));
    }
    assert(after.excluded_at_position =~= goal.excluded_at_position);
    assert(after =~= goal);
}

} // verus!
