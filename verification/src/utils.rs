//! The menu of the program when it asks its user what to do.
use vstd::prelude::*;

verus! {

/// What the user chose from the menu.
#[derive(Clone, Copy, Debug, PartialEq, Eq, Structural)]
pub enum MenuChoice {
    /// Enter the amount of an expense.
    EnterExpense,
    /// Make a category; its name is asked for next.
    CreateCategory,
    /// Show the categories.
    ShowCategories,
    /// List the expenses.
    ListExpenses,
    /// None of the four: the program says so and ends in failure.
    Invalid,
}

/// What the number that the user typed stands for: 1 to 4 are the four
/// entries of the menu, in its order.
pub fn get_and_prcess_input(option: u8) -> (r: MenuChoice)
    ensures
        r == match option {
            1 => MenuChoice::EnterExpense,
            2 => MenuChoice::CreateCategory,
            3 => MenuChoice::ShowCategories,
            4 => MenuChoice::ListExpenses,
            _ => MenuChoice::Invalid,
        },
{
    match option {
        1 => MenuChoice::EnterExpense,
        2 => MenuChoice::CreateCategory,
        3 => MenuChoice::ShowCategories,
        4 => MenuChoice::ListExpenses,
        _ => MenuChoice::Invalid,
    }
}

} // verus!
