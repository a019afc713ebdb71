//! The categories that a user has made: a set of names.
use crate::text::same_text;
use vstd::prelude::*;

verus! {

/// A category of expenses.
#[derive(Debug, PartialEq, Eq, Hash)]
pub struct Category {
    pub name: String,
}

/// The categories that were made, each name once, in the order of their
/// making.
pub struct CategoryList(Vec<Category>);

/// The names of the categories, in order.
pub open spec fn names_of(categories: Seq<Category>) -> Seq<Seq<char>> {
    Seq::new(categories.len(), |i: int| categories[i].name@)
}

impl View for CategoryList {
    type V = Seq<Seq<char>>;

    closed spec fn view(&self) -> Seq<Seq<char>> {
        names_of(self.0@)
    }
}

impl CategoryList {
    /// No categories.
    pub fn new() -> (r: Self)
        ensures
            r@.len() == 0,
    {
        CategoryList(Vec::new())
    }

    /// Whether there is a category of that name.
    pub fn contains(&self, name: &str) -> (b: bool)
        ensures
            b == self@.contains(name@),
    {
        let mut i: usize = 0;
        while i < self.0.len()
            invariant
                i <= self.0.len(),
                forall|j: int| 0 <= j < i ==> names_of(self.0@)[j] != name@,
            decreases self.0.len() - i,
        {
            if same_text(self.0[i].name.as_str(), name) {
                assert(names_of(self.0@)[i as int] == name@);
                return true;
            }
            i = i + 1;
        }
        false
    }

    /// Makes the category of that name, unless there is one already: a
    /// list in which each name stands once stays such a list.
    pub fn create_category(&mut self, name: String)
        ensures
            final(self)@ == if old(self)@.contains(name@) {
                old(self)@
            } else {
                old(self)@.push(name@)
            },
            old(self)@.no_duplicates() ==> final(self)@.no_duplicates(),
    {
        if !self.contains(name.as_str()) {
            let ghost before = names_of(self.0@);
            self.0.push(Category { name });
            assert(names_of(self.0@) =~= before.push(name@));
        }
    }

    /// How many categories there are.
    pub fn len(&self) -> (n: usize)
        ensures
            n == self@.len(),
    {
        self.0.len()
    }

    /// The name of the category at place `i`.
    pub fn name(&self, i: usize) -> (r: Option<&String>)
        ensures
            match r {
                Some(name) => i < self@.len() && name@ == self@[i as int],
                None => i >= self@.len(),
            },
    {
        if i < self.0.len() {
            Some(&self.0[i].name)
        } else {
            None
        }
    }
}

} // verus!
