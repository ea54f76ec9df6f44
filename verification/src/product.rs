//! The cartesian product of a list of lists, in the order of nested loops.
use itertools::Itertools;
use vstd::arithmetic::div_mod::{lemma_fundamental_div_mod_converse, lemma_multiply_divide_lt};
use vstd::arithmetic::mul::{lemma_mul_inequality, lemma_mul_strictly_positive};
use vstd::prelude::*;

verus! {

/// Every way to take one element from each list, as tuples that keep the
/// order of the lists. The tuples come in the order of nested loops with the
/// first list in the outermost loop: the first list varies slowest, the last
/// one fastest. The product of no lists is the one empty tuple.
pub open spec fn product<T>(lists: Seq<Seq<T>>) -> Seq<Seq<T>>
    decreases lists.len(),
{
    if lists.len() == 0 {
        seq![Seq::<T>::empty()]
    } else {
        let init = product(lists.drop_last());
        let last = lists.last();
        Seq::new(
            init.len() * last.len(),
            |i: int| init[i / (last.len() as int)].push(last[i % (last.len() as int)]),
        )
    }
}

/// The number of tuples in the product: the lengths of the lists multiplied.
pub open spec fn count<T>(lists: Seq<Seq<T>>) -> nat
    decreases lists.len(),
{
    if lists.len() == 0 {
        1
    } else {
        count(lists.drop_last()) * lists.last().len()
    }
}

/// Whether `choice` names one position in each list.
pub open spec fn is_choice<T>(lists: Seq<Seq<T>>, choice: Seq<int>) -> bool {
    &&& choice.len() == lists.len()
    &&& forall|k: int| 0 <= k < lists.len() ==> 0 <= #[trigger] choice[k] < lists[k].len()
}

/// The tuple that a choice of positions takes from the lists.
pub open spec fn pick<T>(lists: Seq<Seq<T>>, choice: Seq<int>) -> Seq<T> {
    Seq::new(lists.len(), |k: int| lists[k][choice[k]])
}

/// The place of a choice among all choices in lexicographic order: the
/// positions read as the digits of a number whose base at each place is the
/// length of the list there, the first list being the most significant.
pub open spec fn rank<T>(lists: Seq<Seq<T>>, choice: Seq<int>) -> int
    decreases lists.len(),
{
    if lists.len() == 0 {
        0
    } else {
        rank(lists.drop_last(), choice.drop_last()) * lists.last().len() + choice.last()
    }
}

/// The product has as many tuples as the lengths of the lists multiply to.
pub proof fn lemma_product_len<T>(lists: Seq<Seq<T>>)
    ensures
        product(lists).len() == count(lists),
    decreases lists.len(),
{
    if lists.len() > 0 {
        lemma_product_len(lists.drop_last());
    }
}

/// Every tuple of the product has one element for each list.
pub proof fn lemma_product_tuple_len<T>(lists: Seq<Seq<T>>, i: int)
    requires
        0 <= i < product(lists).len(),
    ensures
        product(lists)[i].len() == lists.len(),
    decreases lists.len(),
{
    if lists.len() > 0 {
        let init = product(lists.drop_last());
        let n = lists.last().len() as int;
        lemma_in_range(i, init.len() as int, n);
        lemma_product_tuple_len(lists.drop_last(), i / n);
    }
}

/// The product of lists that all hold something holds something.
pub proof fn lemma_product_nonempty<T>(lists: Seq<Seq<T>>)
    requires
        forall|k: int| 0 <= k < lists.len() ==> #[trigger] lists[k].len() > 0,
    ensures
        product(lists).len() > 0,
    decreases lists.len(),
{
    if lists.len() > 0 {
        let init = lists.drop_last();
        lemma_product_nonempty(init);
        lemma_mul_strictly_positive(product(init).len() as int, lists.last().len() as int);
    }
}

/// The tuples of the product stand in lexicographic order of the positions
/// they were taken from: the tuple taken by a choice stands at the rank of
/// that choice.
pub proof fn lemma_product_index<T>(lists: Seq<Seq<T>>, choice: Seq<int>)
    requires
        is_choice(lists, choice),
    ensures
        0 <= rank(lists, choice) < product(lists).len(),
        product(lists)[rank(lists, choice)] == pick(lists, choice),
    decreases lists.len(),
{
    if lists.len() > 0 {
        let init = lists.drop_last();
        let early = choice.drop_last();
        let n = lists.last().len() as int;
        let d = choice.last();
        lemma_product_index(init, early);
        let r = rank(init, early);
        let total = product(init).len() as int;
        lemma_fundamental_div_mod_converse(r * n + d, n, r, d);
        assert(r * n + d < total * n) by {
            lemma_mul_inequality(r + 1, total, n);
            assert((r + 1) * n == r * n + n) by (nonlinear_arith);
        }
    }
}

/// Of two choices, the one that is smaller at the first list where they
/// differ has the smaller rank.
pub proof fn lemma_rank_lexicographic<T>(
    lists: Seq<Seq<T>>,
    lower: Seq<int>,
    upper: Seq<int>,
    at: int,
)
    requires
        is_choice(lists, lower),
        is_choice(lists, upper),
        0 <= at < lists.len(),
        forall|k: int| 0 <= k < at ==> lower[k] == upper[k],
        lower[at] < upper[at],
    ensures
        rank(lists, lower) < rank(lists, upper),
    decreases lists.len(),
{
    let init = lists.drop_last();
    let n = lists.last().len() as int;
    let low = lower.drop_last();
    let up = upper.drop_last();
    if at == lists.len() - 1 {
        assert(low =~= up);
    } else {
        lemma_rank_lexicographic(init, low, up, at);
        let a = rank(init, low);
        let b = rank(init, up);
        assert(a * n + lower.last() < b * n + upper.last()) by {
            lemma_mul_inequality(a + 1, b, n);
            assert((a + 1) * n == a * n + n) by (nonlinear_arith);
        }
    }
}

/// A position below `outer * inner` splits into a quotient below `outer` and
/// a remainder below `inner`.
proof fn lemma_in_range(i: int, outer: int, inner: int)
    requires
        0 <= i < outer * inner,
        inner > 0,
    ensures
        0 <= i / inner < outer,
        0 <= i % inner < inner,
{
    assert(outer * inner == inner * outer) by (nonlinear_arith);
    lemma_multiply_divide_lt(i, inner, outer);
}

/// `Itertools::multi_cartesian_product`, applied to the iterators over the
/// given lists and collected: every tuple that takes one element from each
/// list, the last list advancing first, each tuple keeping the order of the
/// lists. Without any list that adaptor yields nothing, so at least one list
/// is asked for.
#[verifier::external_body]
pub(crate) fn cartesian_product(lists: &Vec<Vec<String>>) -> (tuples: Vec<Vec<String>>)
    requires
        lists.len() > 0,
    ensures
        tuples.deep_view() == product(lists.deep_view()),
{
    lists.iter().multi_cartesian_product().map(|t| t.into_iter().cloned().collect()).collect()
}

} // verus!
