//! Tallies over an agent's record of completed and failed tasks.

use vstd::prelude::*;
use crate::skill::SkillTag;

verus! {

/// The category and result of one recorded task.
#[derive(Clone, Copy, Debug, PartialEq, Eq, Structural)]
pub struct TaskOutcome {
    /// Category of the task
    pub category: SkillTag,
    /// Whether the task succeeded
    pub success: bool,
}

/// Number of successful outcomes in `s`.
pub open spec fn success_count(s: Seq<TaskOutcome>) -> nat
    decreases s.len(),
{
    if s.len() == 0 {
        0
    } else {
        success_count(s.drop_last()) + if s.last().success { 1nat } else { 0nat }
    }
}

/// Number of outcomes in `s` of category `c`.
pub open spec fn category_count(s: Seq<TaskOutcome>, c: SkillTag) -> nat
    decreases s.len(),
{
    if s.len() == 0 {
        0
    } else {
        category_count(s.drop_last(), c) + if s.last().category == c { 1nat } else { 0nat }
    }
}

/// Number of successful outcomes in `s` of category `c`.
pub open spec fn category_success_count(s: Seq<TaskOutcome>, c: SkillTag) -> nat
    decreases s.len(),
{
    if s.len() == 0 {
        0
    } else {
        category_success_count(s.drop_last(), c)
            + if s.last().category == c && s.last().success { 1nat } else { 0nat }
    }
}

/// Number of successful outcomes in the record.
pub fn count_successes(outcomes: &[TaskOutcome]) -> (r: usize)
    ensures
        r == success_count(outcomes@),
{
    let n = outcomes.len();
    let mut count: usize = 0;
    let mut i: usize = 0;
    while i < n
        invariant
            n == outcomes@.len(),
            i <= n,
            count == success_count(outcomes@.take(i as int)),
            count <= i,
        decreases n - i,
    {
        assert(outcomes@.take(i + 1).drop_last() =~= outcomes@.take(i as int));
        if outcomes[i].success {
            count = count + 1;
        }
        i = i + 1;
    }
    assert(outcomes@.take(n as int) =~= outcomes@);
    count
}

/// Number of outcomes of `category` in the record, and how many of them
/// succeeded.
pub fn category_tally(outcomes: &[TaskOutcome], category: SkillTag) -> (r: (usize, usize))
    ensures
        r.0 == category_success_count(outcomes@, category),
        r.1 == category_count(outcomes@, category),
{
    let n = outcomes.len();
    let mut successes: usize = 0;
    let mut total: usize = 0;
    let mut i: usize = 0;
    while i < n
        invariant
            n == outcomes@.len(),
            i <= n,
            successes == category_success_count(outcomes@.take(i as int), category),
            total == category_count(outcomes@.take(i as int), category),
            successes <= total,
            total <= i,
        decreases n - i,
    {
        assert(outcomes@.take(i + 1).drop_last() =~= outcomes@.take(i as int));
        if outcomes[i].category == category {
            total = total + 1;
            if outcomes[i].success {
                successes = successes + 1;
            }
        }
        i = i + 1;
    }
    assert(outcomes@.take(n as int) =~= outcomes@);
    (successes, total)
}

/// Counts never exceed what they count from: successes are at most the
/// record's length, and the successes of a category at most that category's
/// outcomes, which are at most the record's length.
pub proof fn lemma_tallies_bounded(s: Seq<TaskOutcome>, c: SkillTag)
    ensures
        success_count(s) <= s.len(),
        category_success_count(s, c) <= category_count(s, c),
        category_count(s, c) <= s.len(),
        category_success_count(s, c) <= success_count(s),
    decreases s.len(),
{
    if s.len() > 0 {
        lemma_tallies_bounded(s.drop_last(), c);
    }
}

/// Appending an outcome raises the tallies by exactly what it contributes.
pub proof fn lemma_tallies_push(s: Seq<TaskOutcome>, o: TaskOutcome, c: SkillTag)
    ensures
        success_count(s.push(o)) == success_count(s) + if o.success { 1nat } else { 0nat },
        category_count(s.push(o), c) == category_count(s, c) + if o.category == c { 1nat } else { 0nat },
        category_success_count(s.push(o), c)
            == category_success_count(s, c) + if o.category == c && o.success { 1nat } else { 0nat },
{
    assert(s.push(o).drop_last() =~= s);
}

} // verus!
