//! The arguments of the command line, read by hand: after the name of the
//! program and the command come pairs of a flag and its value.
use crate::amount::{reading_view, Amount, Reading};
use crate::text::{
    chars_of, pieces, same_text, split, string_of, strings_from, strings_of, text_view, trim,
    trimmed,
};
use vstd::prelude::*;

verus! {

/// What a command is asked to filter by: for each flag the value that was
/// given last, without the white space at its ends.
#[derive(Debug)]
pub struct Filters {
    pub amount: Option<String>,
    pub category: Option<String>,
    pub tags: Option<String>,
}

/// Filters as the contracts speak of them.
pub ghost struct FiltersView {
    pub amount: Option<Seq<char>>,
    pub category: Option<Seq<char>>,
    pub tags: Option<Seq<char>>,
}

impl View for Filters {
    type V = FiltersView;

    open spec fn view(&self) -> FiltersView {
        FiltersView {
            amount: text_view(self.amount),
            category: text_view(self.category),
            tags: text_view(self.tags),
        }
    }
}

/// Why the arguments were refused.
#[derive(Debug)]
pub enum ArgError {
    /// Expenses cannot be filtered by description.
    NotFilterable,
    /// The flag is not known.
    Invalid(String),
    /// The value of the amount is no number; the words are the reader's.
    Amount(String),
}

/// A refusal as the contracts speak of it.
pub ghost enum ArgErrorView {
    NotFilterable,
    Invalid(Seq<char>),
    Amount(Seq<char>),
}

impl View for ArgError {
    type V = ArgErrorView;

    open spec fn view(&self) -> ArgErrorView {
        match *self {
            ArgError::NotFilterable => ArgErrorView::NotFilterable,
            ArgError::Invalid(flag) => ArgErrorView::Invalid(flag@),
            ArgError::Amount(why) => ArgErrorView::Amount(why@),
        }
    }
}

/// What to do.
#[derive(Clone, Copy, Debug, PartialEq, Eq, Structural)]
pub enum Command {
    /// Say how the program is used.
    Usage,
    /// Say how the program is used, and end in failure: a flag is without
    /// its value.
    Refused,
    /// Show all expenses.
    List,
    /// Show the sum of all amounts.
    Total,
    /// Add an expense; what to add is in the pairs.
    Add,
    /// Show the expenses that answer a query; the query is in the pairs.
    Filter,
}

/// How many pairs of flag and value follow the command.
pub open spec fn pair_count(args: Seq<Seq<char>>) -> int {
    if args.len() >= 2 {
        (args.len() - 2) / 2
    } else {
        0
    }
}

/// The flag of pair `k`.
pub open spec fn flag_at(args: Seq<Seq<char>>, k: int) -> Seq<char> {
    args[2 + 2 * k]
}

/// The value of pair `k`.
pub open spec fn value_at(args: Seq<Seq<char>>, k: int) -> Seq<char> {
    args[3 + 2 * k]
}

/// The filters after one more pair: the value, without the white space at
/// its ends, stands for its flag, in place of an earlier one.
pub open spec fn with_filter(sofar: FiltersView, flag: Seq<char>, value: Seq<char>) -> Result<
    FiltersView,
    ArgErrorView,
> {
    if flag == "--amount"@ {
        Ok(FiltersView { amount: Some(trimmed(value)), ..sofar })
    } else if flag == "--category"@ {
        Ok(FiltersView { category: Some(trimmed(value)), ..sofar })
    } else if flag == "--tags"@ {
        Ok(FiltersView { tags: Some(trimmed(value)), ..sofar })
    } else if flag == "--description"@ {
        Err(ArgErrorView::NotFilterable)
    } else {
        Err(ArgErrorView::Invalid(flag))
    }
}

/// The filters that the first `k` pairs give, or the refusal of the first
/// pair that is refused.
pub open spec fn filters_of(args: Seq<Seq<char>>, k: int) -> Result<FiltersView, ArgErrorView>
    decreases k,
{
    if k <= 0 {
        Ok(FiltersView { amount: None, category: None, tags: None })
    } else {
        match filters_of(args, k - 1) {
            Err(e) => Err(e),
            Ok(sofar) => with_filter(sofar, flag_at(args, k - 1), value_at(args, k - 1)),
        }
    }
}

/// What a new expense is made of.
pub ghost struct AddedView {
    pub amount: u64,
    pub description: Option<Seq<char>>,
    pub category: Seq<char>,
    pub tags: Seq<Seq<char>>,
}

/// What was read of the number in argument `i`; an argument without a
/// reading counts as one that could not be read.
pub open spec fn number_at(readings: Seq<Reading>, i: int) -> Result<u64, Seq<char>> {
    if 0 <= i < readings.len() {
        reading_view(readings[i])
    } else {
        Err(Seq::empty())
    }
}

/// What is to be added after one more pair. The description and the
/// category are the value as it stands; the amount is what was read of the
/// value; the tags are the pieces of the value, without the white space at
/// its ends, between commas.
pub open spec fn with_added(
    sofar: AddedView,
    flag: Seq<char>,
    value: Seq<char>,
    number: Result<u64, Seq<char>>,
) -> Result<AddedView, ArgErrorView> {
    if flag == "--description"@ {
        Ok(AddedView { description: Some(value), ..sofar })
    } else if flag == "--amount"@ {
        match number {
            Ok(amount) => Ok(AddedView { amount, ..sofar }),
            Err(why) => Err(ArgErrorView::Amount(why)),
        }
    } else if flag == "--category"@ {
        Ok(AddedView { category: value, ..sofar })
    } else if flag == "--tags"@ {
        Ok(AddedView { tags: pieces(trimmed(value), ','), ..sofar })
    } else {
        Err(ArgErrorView::Invalid(flag))
    }
}

/// What the first `k` pairs say is to be added, or the refusal of the
/// first pair that is refused. With no pair the amount is zero, the
/// category empty, and there is neither description nor tag.
pub open spec fn added_of(args: Seq<Seq<char>>, readings: Seq<Reading>, k: int) -> Result<
    AddedView,
    ArgErrorView,
>
    decreases k,
{
    if k <= 0 {
        Ok(
            AddedView {
                amount: 0,
                description: None,
                category: Seq::empty(),
                tags: Seq::empty(),
            },
        )
    } else {
        match added_of(args, readings, k - 1) {
            Err(e) => Err(e),
            Ok(sofar) => with_added(
                sofar,
                flag_at(args, k - 1),
                value_at(args, k - 1),
                number_at(readings, 3 + 2 * (k - 1)),
            ),
        }
    }
}

/// What the command line asks for. One argument beside the name of the
/// program is a command without pairs; more are a command and its pairs,
/// and then each flag must have its value.
pub open spec fn command_of(args: Seq<Seq<char>>) -> Command {
    if args.len() <= 1 {
        Command::Usage
    } else if args.len() == 2 {
        if args[1] == "list"@ {
            Command::List
        } else if args[1] == "total"@ {
            Command::Total
        } else {
            Command::Usage
        }
    } else if args.len() % 2 != 0 {
        Command::Refused
    } else if args[1] == "add"@ {
        Command::Add
    } else if args[1] == "filter"@ {
        Command::Filter
    } else {
        Command::Usage
    }
}

/// The value without the white space at its ends.
fn trimmed_value(value: &String) -> (r: String)
    ensures
        r@ == trimmed(value@),
{
    string_of(&trim(&chars_of(value.as_str())))
}

/// The filters that the pairs of the command line give. A flag that is
/// given twice counts with its last value. The first flag that is none of
/// `--amount`, `--category` and `--tags` is refused.
pub fn filter_parse_args(args: &Vec<String>) -> (r: Result<Filters, ArgError>)
    requires
        args.len() % 2 == 0,
    ensures
        match filters_of(strings_of(args@), pair_count(strings_of(args@))) {
            Ok(filters) => r matches Ok(f) && f@ == filters,
            Err(e) => r matches Err(x) && x@ == e,
        },
{
    let ghost texts = strings_of(args@);
    let mut filters = Filters { amount: None, category: None, tags: None };
    let mut i: usize = 2;
    while i < args.len()
        invariant
            args.len() % 2 == 0,
            i % 2 == 0,
            2 <= i,
            texts == strings_of(args@),
            args.len() >= 2 ==> i <= args.len(),
            args.len() < 2 ==> i == 2,
            filters_of(texts, (i - 2) / 2) == Ok::<FiltersView, ArgErrorView>(filters@),
        decreases args.len() - i,
    {
        let ghost k = (i - 2) / 2;
        let flag = args[i].as_str();
        assert(flag_at(texts, k) == flag@);
        assert(value_at(texts, k) == args@[i + 1]@);
        assert(((i + 2) - 2) / 2 == k + 1);
        if same_text(flag, "--amount") {
            filters.amount = Some(trimmed_value(&args[i + 1]));
        } else if same_text(flag, "--category") {
            filters.category = Some(trimmed_value(&args[i + 1]));
        } else if same_text(flag, "--tags") {
            filters.tags = Some(trimmed_value(&args[i + 1]));
        } else if same_text(flag, "--description") {
            proof {
                lemma_filters_stay_refused(texts, k + 1, pair_count(texts));
            }
            return Err(ArgError::NotFilterable);
        } else {
            proof {
                lemma_filters_stay_refused(texts, k + 1, pair_count(texts));
            }
            return Err(ArgError::Invalid(args[i].clone()));
        }
        i = i + 2;
    }
    assert(texts.len() == args.len());
    Ok(filters)
}

/// Once a pair is refused, the pairs after it change nothing.
proof fn lemma_filters_stay_refused(args: Seq<Seq<char>>, k: int, n: int)
    requires
        k <= n,
        filters_of(args, k) is Err,
    ensures
        filters_of(args, n) == filters_of(args, k),
    decreases n - k,
{
    if k < n {
        lemma_filters_stay_refused(args, k, n - 1);
    }
}

/// What the pairs of the command line say is to be added: the amount, the
/// description, the category and the tags. `readings` has, for each
/// argument in order, what was read of the number in it, white space at its
/// ends aside. A flag that is given twice counts with its last value. The
/// first pair that is refused ends the reading: a flag that is none of
/// `--description`, `--amount`, `--category` and `--tags`, or an amount
/// that is no number.
pub fn add_parse_args(args: &Vec<String>, readings: &Vec<Reading>) -> (r: Result<
    (Amount, Option<String>, String, Vec<String>),
    ArgError,
>)
    requires
        args.len() % 2 == 0,
    ensures
        match added_of(strings_of(args@), readings@, pair_count(strings_of(args@))) {
            Ok(added) => {
                &&& r matches Ok(found)
                &&& found.0@ == added.amount
                &&& text_view(found.1) == added.description
                &&& found.2@ == added.category
                &&& strings_of(found.3@) == added.tags
            },
            Err(e) => r matches Err(x) && x@ == e,
        },
{
    let ghost texts = strings_of(args@);
    let mut description: Option<String> = None;
    let mut amount: Amount = Amount::from_bits(0);
    let mut category: String = String::new();
    let mut tags: Vec<String> = Vec::new();
    assert(strings_of(tags@) =~= Seq::<Seq<char>>::empty());
    let mut i: usize = 2;
    while i < args.len()
        invariant
            args.len() % 2 == 0,
            i % 2 == 0,
            2 <= i,
            texts == strings_of(args@),
            args.len() >= 2 ==> i <= args.len(),
            args.len() < 2 ==> i == 2,
            added_of(texts, readings@, (i - 2) / 2) == Ok::<AddedView, ArgErrorView>(
                AddedView {
                    amount: amount@,
                    description: text_view(description),
                    category: category@,
                    tags: strings_of(tags@),
                },
            ),
        decreases args.len() - i,
    {
        let ghost k = (i - 2) / 2;
        let flag = args[i].as_str();
        assert(flag_at(texts, k) == flag@);
        assert(value_at(texts, k) == args@[i + 1]@);
        assert(((i + 2) - 2) / 2 == k + 1);
        assert(3 + 2 * k == i + 1);
        if same_text(flag, "--description") {
            description = Some(args[i + 1].clone());
        } else if same_text(flag, "--amount") {
            let number: Reading = if i + 1 < readings.len() {
                match &readings[i + 1] {
                    Ok(a) => Ok(*a),
                    Err(why) => Err(why.clone()),
                }
            } else {
                Err(String::new())
            };
            assert(reading_view(number) == number_at(readings@, i + 1));
            match number {
                Ok(a) => {
                    amount = a;
                },
                Err(why) => {
                    proof {
                        lemma_added_stays_refused(texts, readings@, k + 1, pair_count(texts));
                    }
                    return Err(ArgError::Amount(why));
                },
            }
        } else if same_text(flag, "--category") {
            category = args[i + 1].clone();
        } else if same_text(flag, "--tags") {
            let parts = split(&trim(&chars_of(args[i + 1].as_str())), ',');
            tags = strings_from(&parts);
        } else {
            proof {
                lemma_added_stays_refused(texts, readings@, k + 1, pair_count(texts));
            }
            return Err(ArgError::Invalid(args[i].clone()));
        }
        i = i + 2;
    }
    assert(texts.len() == args.len());
    Ok((amount, description, category, tags))
}

/// Once a pair is refused, the pairs after it change nothing.
proof fn lemma_added_stays_refused(args: Seq<Seq<char>>, readings: Seq<Reading>, k: int, n: int)
    requires
        k <= n,
        added_of(args, readings, k) is Err,
    ensures
        added_of(args, readings, n) == added_of(args, readings, k),
    decreases n - k,
{
    if k < n {
        lemma_added_stays_refused(args, readings, k, n - 1);
    }
}

/// What the command line asks for.
pub fn parse_args(args: &Vec<String>) -> (r: Command)
    ensures
        r == command_of(strings_of(args@)),
{
    if args.len() <= 1 {
        Command::Usage
    } else if args.len() == 2 {
        let command = args[1].as_str();
        if same_text(command, "list") {
            Command::List
        } else if same_text(command, "total") {
            Command::Total
        } else {
            Command::Usage
        }
    } else if args.len() % 2 != 0 {
        Command::Refused
    } else {
        let command = args[1].as_str();
        if same_text(command, "add") {
            Command::Add
        } else if same_text(command, "filter") {
            Command::Filter
        } else {
            Command::Usage
        }
    }
}

} // verus!
