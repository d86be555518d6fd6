//! Quiz selection: which question groups to load, the pool's weights, and
//! the weighted draw-with-replacement of the next question to ask.

use vstd::prelude::*;
use crate::questions::{Question, QuestionView, AskOutcome, spec_weight, spec_askable, ask_rel};
use crate::files::questions_view;
use crate::rng::sum_weights;

verus! {

/// Which group of vocabulary files a quiz draws from.
#[derive(Clone, Copy, Debug, PartialEq, Eq, Structural)]
pub enum QuestionType {
    SingleWord,
    Multi,
    Both,
}

impl QuestionType {
    /// Maps the 1-based menu index to a question group; an out-of-range
    /// index is no group.
    pub fn from_index(n: usize) -> (r: Option<QuestionType>)
        ensures
            n == 1 ==> r == Some(QuestionType::SingleWord),
            n == 2 ==> r == Some(QuestionType::Multi),
            n == 3 ==> r == Some(QuestionType::Both),
            n == 0 || n > 3 ==> r is None,
    {
        if n == 1 {
            Some(QuestionType::SingleWord)
        } else if n == 2 {
            Some(QuestionType::Multi)
        } else if n == 3 {
            Some(QuestionType::Both)
        } else {
            None
        }
    }

    /// Whether the single-kanji category root takes part.
    pub fn includes_single(&self) -> (r: bool)
        ensures
            r == (*self == QuestionType::SingleWord || *self == QuestionType::Both),
    {
        match self {
            QuestionType::SingleWord => true,
            QuestionType::Multi => false,
            QuestionType::Both => true,
        }
    }

    /// Whether the multi-kanji category root takes part.
    pub fn includes_multiple(&self) -> (r: bool)
        ensures
            r == (*self == QuestionType::Multi || *self == QuestionType::Both),
    {
        match self {
            QuestionType::SingleWord => false,
            QuestionType::Multi => true,
            QuestionType::Both => true,
        }
    }
}

/// Total selection weight of a pool.
pub open spec fn total_weight(pool: Seq<QuestionView>) -> int
    decreases pool.len(),
{
    if pool.len() == 0 {
        0
    } else {
        total_weight(pool.drop_last()) + spec_weight(pool.last())
    }
}

pub proof fn lemma_total_weight_nonneg(pool: Seq<QuestionView>)
    ensures
        total_weight(pool) >= 0,
    decreases pool.len(),
{
    if pool.len() > 0 {
        lemma_total_weight_nonneg(pool.drop_last());
    }
}

pub proof fn lemma_weight_le_total(pool: Seq<QuestionView>, i: int)
    requires
        0 <= i < pool.len(),
    ensures
        spec_weight(pool[i]) <= total_weight(pool),
    decreases pool.len(),
{
    lemma_total_weight_nonneg(pool.drop_last());
    if i == pool.len() - 1 {
        assert(pool.last() == pool[i]);
    } else {
        assert(pool.drop_last()[i] == pool[i]);
        lemma_weight_le_total(pool.drop_last(), i);
    }
}

/// Collects each question's weight, in pool order.
pub fn collect_weights(pool: &Vec<Question>) -> (r: Vec<usize>)
    requires
        total_weight(questions_view(pool@)) <= usize::MAX,
    ensures
        r@.len() == pool@.len(),
        forall|i: int| 0 <= i < r@.len() ==> r@[i] == spec_weight(pool@[i]@),
        sum_weights(r@) == total_weight(questions_view(pool@)),
{
    let ghost qv = questions_view(pool@);
    let mut out: Vec<usize> = Vec::new();
    let mut i: usize = 0;
    proof {
        assert(qv.take(0) =~= Seq::<QuestionView>::empty());
    }
    while i < pool.len()
        invariant
            0 <= i <= pool@.len(),
            qv == questions_view(pool@),
            total_weight(qv) <= usize::MAX,
            out@.len() == i,
            forall|k: int| 0 <= k < i ==> out@[k] == spec_weight(pool@[k]@),
            sum_weights(out@) == total_weight(qv.take(i as int)),
        decreases pool@.len() - i,
    {
        let ghost old_out = out@;
        proof {
            assert(qv[i as int] == pool@[i as int]@);
            lemma_weight_le_total(qv, i as int);
            lemma_total_weight_nonneg(qv.take(i as int));
            lemma_total_weight_take_le(qv, i as int);
        }
        let w = pool[i].weight();
        out.push(w);
        proof {
            assert(out@.drop_last() =~= old_out);
            assert(qv.take(i as int + 1).drop_last() =~= qv.take(i as int));
            assert(qv.take(i as int + 1).last() == qv[i as int]);
        }
        i = i + 1;
    }
    proof {
        assert(qv.take(i as int) =~= qv);
    }
    out
}

/// Every prefix of the pool weighs no more than the whole pool.
proof fn lemma_total_weight_take_le(pool: Seq<QuestionView>, i: int)
    requires
        0 <= i < pool.len(),
    ensures
        total_weight(pool.take(i + 1)) <= total_weight(pool),
    decreases pool.len() - i,
{
    if i + 1 == pool.len() {
        assert(pool.take(i + 1) =~= pool);
    } else {
        lemma_total_weight_take_le(pool, i + 1);
        let t = pool.take(i + 2);
        assert(t.drop_last() =~= pool.take(i + 1));
        assert(spec_weight(t.last()) >= 0);
    }
}

/// Draws the index of one question from the pool, with replacement, with
/// probability proportional to its weight; the drawn question always has a
/// positive weight.
pub fn pick_question(pool: &Vec<Question>, rng: &mut rand::rngs::StdRng) -> (r: usize)
    requires
        pool@.len() > 0,
        total_weight(questions_view(pool@)) > 0,
        total_weight(questions_view(pool@)) <= usize::MAX,
    ensures
        r < pool@.len(),
        spec_weight(pool@[r as int]@) > 0,
{
    let ws = collect_weights(pool);
    let d = crate::rng::weighted_new(&ws);
    let idx = crate::rng::weighted_sample(&d, rng);
    idx
}

/// One quiz turn: draws a question by weight and renders it freshly, so a
/// generative question is regenerated on every draw.
pub fn draw_and_ask(pool: &Vec<Question>, rng: &mut rand::rngs::StdRng) -> (r: AskOutcome)
    requires
        pool@.len() > 0,
        total_weight(questions_view(pool@)) > 0,
        total_weight(questions_view(pool@)) <= usize::MAX,
        forall|i: int| 0 <= i < pool@.len() ==> spec_askable((#[trigger] pool@[i])@),
    ensures
        exists|i: int|
            0 <= i < pool@.len() && spec_weight((#[trigger] pool@[i])@) > 0 && ask_rel(
                pool@[i]@,
                r@,
            ),
{
    let idx = pick_question(pool, rng);
    let outcome = pool[idx].ask(rng);
    proof {
        assert(0 <= idx < pool@.len() && spec_weight(pool@[idx as int]@) > 0 && ask_rel(
            pool@[idx as int]@,
            outcome@,
        ));
    }
    outcome
}

} // verus!
