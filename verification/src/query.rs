//! Which expenses answer a query.
use crate::amount::same_number;
use crate::record::ExpenseView;
use vstd::prelude::*;

verus! {

/// Whether the tags of an expense answer a query for tags: the expense has
/// a tag, and the last tag of the query is one of its tags. The tags of the
/// query before the last do not count.
pub open spec fn tags_match(tags: Seq<Seq<char>>, query: Seq<Seq<char>>) -> bool {
    tags.len() > 0 && query.len() > 0 && tags.contains(query.last())
}

/// Whether an expense answers a query. Each part of the query that is given
/// must hold: the amount is the same number, the category is the same text,
/// the tags match.
pub open spec fn selected(
    e: ExpenseView,
    category: Option<Seq<char>>,
    tags: Option<Seq<Seq<char>>>,
    amount: Option<u64>,
) -> bool {
    &&& amount matches Some(a) ==> same_number(a, e.amount)
    &&& category matches Some(c) ==> c == e.category
    &&& tags matches Some(q) ==> tags_match(e.tags, q)
}

/// The query as a test on expenses.
pub open spec fn selector(
    category: Option<Seq<char>>,
    tags: Option<Seq<Seq<char>>>,
    amount: Option<u64>,
) -> spec_fn(ExpenseView) -> bool {
    |e: ExpenseView| selected(e, category, tags, amount)
}

/// The expenses that answer a query are those of the list that are
/// selected: none that is not selected is among them, none that is not in
/// the list, and none that is selected is missing.
pub proof fn lemma_filter_selects(
    expenses: Seq<ExpenseView>,
    category: Option<Seq<char>>,
    tags: Option<Seq<Seq<char>>>,
    amount: Option<u64>,
)
    ensures
        forall|i: int|
            0 <= i < expenses.filter(selector(category, tags, amount)).len() ==> selected(
                #[trigger] expenses.filter(selector(category, tags, amount))[i],
                category,
                tags,
                amount,
            ) && expenses.contains(expenses.filter(selector(category, tags, amount))[i]),
        forall|i: int|
            0 <= i < expenses.len() && selected(#[trigger] expenses[i], category, tags, amount)
                ==> expenses.filter(selector(category, tags, amount)).contains(expenses[i]),
        expenses.filter(selector(category, tags, amount)).len() <= expenses.len(),
{
    let wanted = selector(category, tags, amount);
    let found = expenses.filter(wanted);
    expenses.lemma_filter_len(wanted);
    assert forall|i: int| 0 <= i < found.len() implies selected(
        #[trigger] found[i],
        category,
        tags,
        amount,
    ) && expenses.contains(found[i]) by {
        expenses.lemma_filter_pred(wanted, i);
        assert(wanted(found[i]));
        assert(found.contains(found[i]));
        expenses.lemma_filter_contains_rev(wanted, found[i]);
    }
    assert forall|i: int|
        0 <= i < expenses.len() && selected(
            #[trigger] expenses[i],
            category,
            tags,
            amount,
        ) implies found.contains(expenses[i]) by {
        assert(wanted(expenses[i]));
        expenses.lemma_filter_contains(wanted, i);
    }
}

} // verus!
