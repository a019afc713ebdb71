//! Expenses, the line that each is written as, and the list that a file of
//! such lines gives.
use crate::amount::{positive, reading_view, Amount, Reading};
use crate::error::{Invalid, ParseError, ParseCause, StoreError};
use crate::query::{selected, selector};
use crate::record::{
    amount_text, decoded, decoded_all, lemma_decoded_all_prefix, lemma_trimmed_twice_in_lines,
    line_fields, loaded, nonempty_trimmed, reading_at, record_fields, record_line, record_lines,
    ExpenseView, Refusal,
};
use crate::text::{
    chars_of, join, joined, pieces, split, string_of, strings_from, strings_of, text_view,
    texts_of, to_lowercase, trim, trimmed, unquote,
};
use crate::timestamp::{parsed_timestamp, representable, Timestamp};
use vstd::prelude::*;
use vstd::string::StringExecFns;

verus! {

/// One thing that money was spent on.
#[derive(Debug)]
pub struct Expense {
    amount: Amount,
    category: String,
    tags: Vec<String>,
    datetime: Timestamp,
    description: Option<String>,
}

impl View for Expense {
    type V = ExpenseView;

    closed spec fn view(&self) -> ExpenseView {
        ExpenseView {
            amount: self.amount@,
            category: self.category@,
            tags: strings_of(self.tags@),
            datetime: self.datetime@,
            description: text_view(self.description),
        }
    }
}

/// The tags of an expense; none given means no tags.
pub open spec fn tags_or_none(tags: Option<Vec<String>>) -> Seq<Seq<char>> {
    match tags {
        Some(t) => strings_of(t@),
        None => Seq::empty(),
    }
}

/// What stands in the way of a new expense: an amount that is not greater
/// than zero, or else an empty category.
pub open spec fn refused(amount: u64, category: Seq<char>) -> Option<Invalid> {
    if !positive(amount) {
        Some(Invalid::Amount)
    } else if category.len() == 0 {
        Some(Invalid::Category)
    } else {
        None
    }
}

/// The tags of a query as the contracts speak of them.
pub open spec fn query_tags(tags: Option<Vec<String>>) -> Option<Seq<Seq<char>>> {
    match tags {
        Some(t) => Some(strings_of(t@)),
        None => None,
    }
}

/// The amount of a query as the contracts speak of it.
pub open spec fn query_amount(amount: Option<Amount>) -> Option<u64> {
    match amount {
        Some(a) => Some(a@),
        None => None,
    }
}

/// The expenses that references lead to.
pub open spec fn views_of_refs(expenses: Seq<&Expense>) -> Seq<ExpenseView> {
    Seq::new(expenses.len(), |i: int| expenses[i]@)
}

/// Whether `tag` is one of `tags`.
pub fn has_tag(tags: &Vec<String>, tag: &String) -> (b: bool)
    ensures
        b == strings_of(tags@).contains(tag@),
{
    let mut i: usize = 0;
    while i < tags.len()
        invariant
            i <= tags.len(),
            forall|j: int| 0 <= j < i ==> strings_of(tags@)[j] != tag@,
        decreases tags.len() - i,
    {
        if tags[i] == *tag {
            assert(strings_of(tags@)[i as int] == tag@);
            return true;
        }
        i = i + 1;
    }
    false
}

impl Expense {
    /// A new expense, made now. An amount that is not greater than zero is
    /// refused, and so is an empty category. The time is that of the
    /// system's clock; all else is as given.
    pub fn new(
        amount: Amount,
        description: Option<String>,
        category: String,
        tags: Option<Vec<String>>,
    ) -> (r: Result<Expense, StoreError>)
        ensures
            match refused(amount@, category@) {
                Some(invalid) => r matches Err(StoreError::ValidationError(i)) && i == invalid,
                None => {
                    &&& r matches Ok(e)
                    &&& e@.amount == amount@
                    &&& e@.category == category@
                    &&& e@.tags == tags_or_none(tags)
                    &&& e@.description == text_view(description)
                    &&& representable(e@.datetime.secs, e@.datetime.nanos)
                },
            },
    {
        Expense::at(amount, description, category, tags, Timestamp::now())
    }

    /// A new expense, made at the time `datetime`. An amount that is not
    /// greater than zero is refused, and so is an empty category.
    pub fn at(
        amount: Amount,
        description: Option<String>,
        category: String,
        tags: Option<Vec<String>>,
        datetime: Timestamp,
    ) -> (r: Result<Expense, StoreError>)
        ensures
            match refused(amount@, category@) {
                Some(invalid) => r matches Err(StoreError::ValidationError(i)) && i == invalid,
                None => r matches Ok(e) && e@ == (ExpenseView {
                    amount: amount@,
                    category: category@,
                    tags: tags_or_none(tags),
                    datetime: datetime@,
                    description: text_view(description),
                }),
            },
    {
        if !amount.is_positive() {
            return Err(StoreError::ValidationError(Invalid::Amount));
        }
        if category.as_str().is_empty() {
            return Err(StoreError::ValidationError(Invalid::Category));
        }
        let tags = match tags {
            Some(t) => t,
            None => Vec::new(),
        };
        assert(strings_of(Seq::<String>::empty()) =~= Seq::<Seq<char>>::empty());
        Ok(Expense { amount, description, category, tags, datetime })
    }

    /// The amount.
    pub fn amount(&self) -> (r: Amount)
        ensures
            r@ == self@.amount,
    {
        self.amount
    }

    /// The category.
    pub fn category(&self) -> (r: &String)
        ensures
            r@ == self@.category,
    {
        &self.category
    }

    /// The tags, in their order.
    pub fn tags(&self) -> (r: &Vec<String>)
        ensures
            strings_of(r@) == self@.tags,
    {
        &self.tags
    }

    /// The time at which the expense was made.
    pub fn datetime(&self) -> (r: Timestamp)
        ensures
            r@ == self@.datetime,
    {
        self.datetime
    }

    /// The description, where there is one.
    pub fn description(&self) -> (r: &Option<String>)
        ensures
            text_view(*r) == self@.description,
    {
        &self.description
    }

    /// Whether the expense answers the query.
    pub fn matches(
        &self,
        category: &Option<String>,
        tags: &Option<Vec<String>>,
        amount: &Option<Amount>,
    ) -> (b: bool)
        ensures
            b == selected(
                self@,
                text_view(*category),
                query_tags(*tags),
                query_amount(*amount),
            ),
    {
        let amount_flag = match amount {
            Some(a) => a.equals(&self.amount),
            None => true,
        };
        let category_flag = match category {
            Some(c) => *c == self.category,
            None => true,
        };
        let tags_flag = match tags {
            Some(query) => {
                let mut flag = false;
                if self.tags.len() > 0 {
                    let mut i: usize = 0;
                    while i < query.len()
                        invariant
                            i <= query.len(),
                            self.tags@.len() > 0,
                            flag == (i > 0 && strings_of(self.tags@).contains(
                                strings_of(query@)[i - 1],
                            )),
                        decreases query.len() - i,
                    {
                        flag = has_tag(&self.tags, &query[i]);
                        i = i + 1;
                    }
                }
                flag
            },
            None => true,
        };
        amount_flag && category_flag && tags_flag
    }

    /// The expenses of the list that answer the query, in the order of the
    /// list.
    pub fn filter_expenses<'a>(
        category: Option<String>,
        tags: Option<Vec<String>>,
        amount: Option<Amount>,
        expense_list: &'a ExpenseList,
    ) -> (r: Vec<&'a Expense>)
        ensures
            views_of_refs(r@) == expense_list@.filter(
                selector(text_view(category), query_tags(tags), query_amount(amount)),
            ),
    {
        let ghost wanted = selector(
            text_view(category),
            query_tags(tags),
            query_amount(amount),
        );
        let mut r: Vec<&Expense> = Vec::new();
        let mut i: usize = 0;
        proof {
            reveal(Seq::filter);
            assert(expense_list@.take(0) =~= Seq::empty());
            assert(views_of_refs(r@) =~= Seq::empty());
        }
        while i < expense_list.len()
            invariant
                i <= expense_list@.len(),
                wanted == selector(
                    text_view(category),
                    query_tags(tags),
                    query_amount(amount),
                ),
                views_of_refs(r@) == expense_list@.take(i as int).filter(wanted),
            decreases expense_list@.len() - i,
        {
            let e = expense_list.entry(i);
            let ghost before = views_of_refs(r@);
            proof {
                reveal(Seq::filter);
                let next = expense_list@.take(i + 1);
                assert(next.drop_last() =~= expense_list@.take(i as int));
                assert(next.last() == e@);
            }
            if e.matches(&category, &tags, &amount) {
                r.push(e);
                assert(views_of_refs(r@) =~= before.push(e@));
            }
            i = i + 1;
        }
        assert(expense_list@.take(expense_list@.len() as int) =~= expense_list@);
        r
    }

    /// All expenses of the list, in the order of the list.
    pub fn list_expenses<'a>(expense_list: &'a ExpenseList) -> (r: Vec<&'a Expense>)
        ensures
            views_of_refs(r@) == expense_list@,
    {
        let mut r: Vec<&Expense> = Vec::new();
        let mut i: usize = 0;
        while i < expense_list.len()
            invariant
                i <= expense_list@.len(),
                views_of_refs(r@) == expense_list@.take(i as int),
            decreases expense_list@.len() - i,
        {
            let ghost before = views_of_refs(r@);
            let e = expense_list.entry(i);
            r.push(e);
            assert(views_of_refs(r@) =~= before.push(e@));
            assert(expense_list@.take(i + 1) =~= before.push(e@));
            i = i + 1;
        }
        assert(expense_list@.take(expense_list@.len() as int) =~= expense_list@);
        r
    }

    /// The list of the expenses of a file, from what came of reading the
    /// file. A file that is not there gives `NotFound`, and one that could
    /// not be read gives `IOError` with the system's words; the content of a
    /// file that was read is taken apart line by line, `readings` having for
    /// each record line in order what was read of its amount.
    pub fn get_expense_list_from_psv(read: FileRead, readings: &Vec<Reading>) -> (r: Result<
        ExpenseList,
        StoreError,
    >)
        ensures
            match read {
                FileRead::Missing => r matches Err(StoreError::NotFound),
                FileRead::Failed(why) => r matches Err(StoreError::IOError(words)) && words@
                    == why@,
                FileRead::Content(content) => match loaded(content@, readings@) {
                    Ok(expenses) => r matches Ok(list) && list@ == expenses,
                    Err(refusal) => r matches Err(StoreError::ParseError(m)) && reports(
                        m,
                        content@,
                        readings@,
                        refusal,
                    ),
                },
            },
    {
        match read {
            FileRead::Missing => Err(StoreError::NotFound),
            FileRead::Failed(why) => Err(StoreError::IOError(why)),
            FileRead::Content(content) => {
                let mut expense_list = ExpenseList::new();
                match expense_list.load_expenses_from_psv(content.as_str(), readings) {
                    Ok(()) => {
                        assert(Seq::<ExpenseView>::empty() + expense_list@ =~= expense_list@);
                        Ok(expense_list)
                    },
                    Err(m) => Err(StoreError::ParseError(m)),
                }
            },
        }
    }

    /// The amounts that the total of a file is the sum of, in the order of
    /// the file, for the caller to add up. A file that is not there holds no
    /// records yet: its total is the sum of no amounts. In all else this is
    /// `get_expense_list_from_psv`.
    pub fn expense_total(read: FileRead, readings: &Vec<Reading>) -> (r: Result<
        Vec<Amount>,
        StoreError,
    >)
        ensures
            match read {
                FileRead::Missing => r matches Ok(terms) && terms@.len() == 0,
                FileRead::Failed(why) => r matches Err(StoreError::IOError(words)) && words@
                    == why@,
                FileRead::Content(content) => match loaded(content@, readings@) {
                    Ok(expenses) => {
                        &&& r matches Ok(terms)
                        &&& terms@.len() == expenses.len()
                        &&& forall|i: int|
                            0 <= i < terms@.len() ==> (#[trigger] terms@[i])@
                                == expenses[i].amount
                    },
                    Err(refusal) => r matches Err(StoreError::ParseError(m)) && reports(
                        m,
                        content@,
                        readings@,
                        refusal,
                    ),
                },
            },
    {
        match read {
            FileRead::Missing => Ok(Vec::new()),
            other => match Expense::get_expense_list_from_psv(other, readings) {
                Ok(list) => Ok(list.amounts()),
                Err(e) => Err(e),
            },
        }
    }

    /// The line that the expense is written as, with a line break at its
    /// end. `amount` is the amount as the caller writes it.
    pub fn to_psv_record(&self, amount: &str) -> (r: String)
        ensures
            r@ == record_line(self@, amount@),
    {
        let ghost fields = record_fields(self@, amount@);
        let mut r = self.datetime.to_text();
        assert(r@ == joined(fields.take(1), '|')) by {
            assert(fields.take(1) =~= seq![fields[0]]);
        }
        r.push('|');
        r.append(to_lowercase(self.category.as_str()).as_str());
        assert(r@ == joined(fields.take(2), '|')) by {
            assert(fields.take(2).drop_last() =~= fields.take(1));
        }
        r.push('|');
        r.append(amount);
        assert(r@ == joined(fields.take(3), '|')) by {
            assert(fields.take(3).drop_last() =~= fields.take(2));
        }
        r.push('|');
        r.push('"');
        match &self.description {
            Some(d) => {
                r.append(d.as_str());
            },
            None => {},
        }
        r.push('"');
        assert(r@ == joined(fields.take(4), '|')) by {
            assert(fields.take(4).drop_last() =~= fields.take(3));
            assert(r@ =~= joined(fields.take(3), '|').push('|') + fields[3]);
        }
        r.push('|');
        r.push('"');
        let tags = join(&self.tags, ',');
        r.append(to_lowercase(tags.as_str()).as_str());
        r.push('"');
        assert(r@ == joined(fields, '|')) by {
            assert(fields.drop_last() =~= fields.take(4));
            assert(r@ =~= joined(fields.take(4), '|').push('|') + fields[4]);
        }
        r.push('\n');
        r
    }

    /// The expense that a line holds, given what was read of its amount.
    /// A line that is refused comes back without the white space at its
    /// ends, with the cause, and with the words of the reader that refused
    /// it.
    pub fn from_psv_record(line: &str, reading: Reading) -> (r: Result<Expense, ParseError>)
        ensures
            match decoded(line@, reading_view(reading)) {
                Ok(e) => r matches Ok(x) && x@ == e,
                Err(cause) => {
                    &&& r matches Err(m)
                    &&& m.cause == cause
                    &&& m.line@ == trimmed(line@)
                    &&& cause is FieldCount ==> m.detail@.len() == 0
                    &&& cause is Amount ==> reading is Err && m.detail@ == reading->Err_0@
                    &&& cause is Timestamp ==> parsed_timestamp(line_fields(line@)[0]) == Err::<
                        (int, int),
                        Seq<char>,
                    >(m.detail@)
                },
            },
    {
        let whole = trim(&chars_of(line));
        let fields = split(&whole, '|');
        assert(texts_of(fields@) == line_fields(line@));
        assert(texts_of(fields@).len() == fields.len());
        if fields.len() != 5 {
            return Err(
                ParseError {
                    line: string_of(&whole),
                    cause: ParseCause::FieldCount(fields.len()),
                    detail: String::new(),
                },
            );
        }
        let amount = match reading {
            Ok(amount) => amount,
            Err(why) => {
                return Err(
                    ParseError { line: string_of(&whole), cause: ParseCause::Amount, detail: why },
                );
            },
        };
        assert(texts_of(fields@)[0] == fields@[0]@);
        let datetime = match Timestamp::from_text(string_of(&fields[0]).as_str()) {
            Ok(datetime) => datetime,
            Err(why) => {
                return Err(
                    ParseError {
                        line: string_of(&whole),
                        cause: ParseCause::Timestamp,
                        detail: why,
                    },
                );
            },
        };
        assert(texts_of(fields@)[1] == fields@[1]@);
        assert(texts_of(fields@)[3] == fields@[3]@);
        assert(texts_of(fields@)[4] == fields@[4]@);
        let tags = strings_from(&split(&trim(&unquote(&fields[4])), ','));
        Ok(
            Expense {
                amount,
                description: Some(string_of(&unquote(&fields[3]))),
                category: string_of(&fields[1]),
                tags,
                datetime,
            },
        )
    }

    /// The text of the amount in a line of five fields, for the caller to
    /// read the number from.
    pub fn amount_field(line: &str) -> (r: Option<String>)
        ensures
            match amount_text(line@) {
                Some(t) => r matches Some(s) && s@ == t,
                None => r is None,
            },
    {
        let fields = split(&trim(&chars_of(line)), '|');
        assert(texts_of(fields@) == line_fields(line@));
        assert(texts_of(fields@).len() == fields.len());
        if fields.len() == 5 {
            assert(texts_of(fields@)[2] == fields@[2]@);
            Some(string_of(&trim(&fields[2])))
        } else {
            None
        }
    }
}

/// Whether `m` reports the refusal of a line of the content as it should:
/// with the line, without the white space at its ends, with the cause, and
/// with the words that belong to the cause, which are none for a wrong
/// count of fields, those of the reading for an amount, and those of the
/// reader of times for a time.
pub open spec fn reports(
    m: ParseError,
    content: Seq<char>,
    readings: Seq<Reading>,
    refusal: Refusal,
) -> bool {
    &&& m.cause == refusal.cause
    &&& m.line@ == record_lines(content)[refusal.index]
    &&& refusal.cause is FieldCount ==> m.detail@.len() == 0
    &&& refusal.cause is Amount ==> reading_at(readings, refusal.index) == Err::<
        u64,
        Seq<char>,
    >(m.detail@)
    &&& refusal.cause is Timestamp ==> parsed_timestamp(
        line_fields(record_lines(content)[refusal.index])[0],
    ) == Err::<(int, int), Seq<char>>(m.detail@)
}

/// The expenses of a list as the contracts speak of them.
pub open spec fn views_of(expenses: Seq<Expense>) -> Seq<ExpenseView> {
    Seq::new(expenses.len(), |i: int| expenses[i]@)
}

/// The expenses of a file, in the order of its lines.
#[derive(Debug)]
pub struct ExpenseList {
    expense_list: Vec<Expense>,
}

impl View for ExpenseList {
    type V = Seq<ExpenseView>;

    closed spec fn view(&self) -> Seq<ExpenseView> {
        views_of(self.expense_list@)
    }
}

/// The record lines of a file's content, for the caller to read the amount
/// of each.
pub fn lines_of(content: &str) -> (r: Vec<String>)
    ensures
        strings_of(r@) == record_lines(content@),
{
    let lines = split(&chars_of(content), '\n');
    let mut r: Vec<String> = Vec::new();
    let mut i: usize = 0;
    assert(texts_of(lines@).take(0) =~= Seq::empty());
    assert(strings_of(r@) =~= Seq::empty());
    while i < lines.len()
        invariant
            i <= lines.len(),
            strings_of(r@) == nonempty_trimmed(texts_of(lines@).take(i as int)),
        decreases lines.len() - i,
    {
        let line = trim(&lines[i]);
        proof {
            let next = texts_of(lines@).take(i + 1);
            assert(next.drop_last() =~= texts_of(lines@).take(i as int));
            assert(next.last() == lines@[i as int]@);
        }
        if line.len() > 0 {
            let ghost before = strings_of(r@);
            r.push(string_of(&line));
            assert(strings_of(r@) =~= before.push(line@));
        }
        i = i + 1;
    }
    assert(texts_of(lines@).take(lines.len() as int) =~= texts_of(lines@));
    r
}

/// What came of reading the file of records.
#[derive(Debug)]
pub enum FileRead {
    /// The file was read, and this is what it holds.
    Content(String),
    /// There is no file at the path.
    Missing,
    /// The file could not be read; the words are the system's own.
    Failed(String),
}

impl Default for ExpenseList {
    /// The list without an expense.
    fn default() -> (r: Self)
        ensures
            r@.len() == 0,
    {
        ExpenseList::new()
    }
}

impl ExpenseList {
    /// The list without an expense.
    pub fn new() -> (r: Self)
        ensures
            r@.len() == 0,
    {
        ExpenseList { expense_list: vec![] }
    }

    /// How many expenses the list holds.
    pub fn len(&self) -> (n: usize)
        ensures
            n == self@.len(),
    {
        self.expense_list.len()
    }

    /// The amounts of the expenses, in the order of the list, for the caller
    /// to add up.
    pub fn amounts(&self) -> (r: Vec<Amount>)
        ensures
            r@.len() == self@.len(),
            forall|i: int| 0 <= i < r@.len() ==> (#[trigger] r@[i])@ == self@[i].amount,
    {
        let mut r: Vec<Amount> = Vec::new();
        let mut i: usize = 0;
        while i < self.expense_list.len()
            invariant
                i <= self.expense_list.len(),
                r@.len() == i,
                forall|j: int| 0 <= j < i ==> (#[trigger] r@[j])@ == self@[j].amount,
            decreases self.expense_list.len() - i,
        {
            r.push(self.expense_list[i].amount);
            i = i + 1;
        }
        r
    }

    /// The expense at place `i`, which the list has.
    pub fn entry(&self, i: usize) -> (r: &Expense)
        requires
            i < self@.len(),
        ensures
            r@ == self@[i as int],
    {
        &self.expense_list[i]
    }

    /// The expense at place `i`.
    pub fn get(&self, i: usize) -> (r: Option<&Expense>)
        ensures
            match r {
                Some(e) => i < self@.len() && e@ == self@[i as int],
                None => i >= self@.len(),
            },
    {
        if i < self.expense_list.len() {
            Some(&self.expense_list[i])
        } else {
            None
        }
    }

    /// Reads the expenses of a file's content and puts them behind those of
    /// the list, in the order of the lines. `readings` has, for each record
    /// line of the content in order, what was read of its amount. The first
    /// line that is refused ends the reading, and the list stays as it was.
    pub fn load_expenses_from_psv(&mut self, content: &str, readings: &Vec<Reading>) -> (r: Result<
        (),
        ParseError,
    >)
        ensures
            match loaded(content@, readings@) {
                Ok(expenses) => r is Ok && final(self)@ == old(self)@ + expenses,
                Err(refusal) => {
                    &&& r matches Err(m)
                    &&& reports(m, content@, readings@, refusal)
                    &&& final(self)@ == old(self)@
                },
            },
    {
        let lines = lines_of(content);
        let mut found: Vec<Expense> = Vec::new();
        let mut i: usize = 0;
        assert(strings_of(lines@).take(0) =~= Seq::empty());
        assert(views_of(found@) =~= Seq::empty());
        while i < lines.len()
            invariant
                i <= lines.len(),
                strings_of(lines@) == record_lines(content@),
                decoded_all(strings_of(lines@).take(i as int), readings@) == Ok::<
                    Seq<ExpenseView>,
                    Refusal,
                >(views_of(found@)),
            decreases lines.len() - i,
        {
            let reading: Reading = if i < readings.len() {
                match &readings[i] {
                    Ok(amount) => Ok(*amount),
                    Err(why) => Err(why.clone()),
                }
            } else {
                Err(String::new())
            };
            assert(reading_view(reading) == reading_at(readings@, i as int));
            proof {
                let next = strings_of(lines@).take(i + 1);
                assert(next.drop_last() =~= strings_of(lines@).take(i as int));
                assert(next.last() == lines@[i as int]@);
                lemma_trimmed_twice_in_lines(pieces(content@, '\n'), i as int);
                if decoded_all(next, readings@) is Err {
                    lemma_decoded_all_prefix(strings_of(lines@), readings@, i + 1);
                }
            }
            match Expense::from_psv_record(lines[i].as_str(), reading) {
                Ok(e) => {
                    let ghost before = views_of(found@);
                    found.push(e);
                    assert(views_of(found@) =~= before.push(e@));
                },
                Err(m) => {
                    return Err(m);
                },
            }
            i = i + 1;
        }
        assert(strings_of(lines@).take(lines.len() as int) =~= strings_of(lines@));
        let ghost before = self.expense_list@;
        self.expense_list.append(&mut found);
        assert(views_of(self.expense_list@) =~= views_of(before) + loaded(
            content@,
            readings@,
        )->Ok_0);
        Ok(())
    }
}

} // verus!
