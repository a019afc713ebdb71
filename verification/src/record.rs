//! The format of the file of records, as the contracts speak of it: one
//! line for each expense, five fields to a line, `|` between the fields.
//!
//! ```text
//! time|category|amount|"description"|"tag,tag"
//! ```
//!
//! Nothing in a field is escaped. A `|` or a line break inside a field makes
//! a line that is not read back as it was written.
use crate::amount::{reading_view, Reading};
use crate::error::ParseCause;
use crate::text::{
    joined, lemma_trimmed_twice, lowercased, pieces, quoted, trimmed, unquoted,
};
use crate::timestamp::{parsed_timestamp, timestamp_text, Instant};
use vstd::prelude::*;

verus! {

/// An expense as the contracts speak of it.
pub ghost struct ExpenseView {
    pub amount: u64,
    pub category: Seq<char>,
    pub tags: Seq<Seq<char>>,
    pub datetime: Instant,
    pub description: Option<Seq<char>>,
}

/// The text of a description; none is written as the empty text.
pub open spec fn description_text(description: Option<Seq<char>>) -> Seq<char> {
    match description {
        Some(d) => d,
        None => Seq::empty(),
    }
}

/// The five fields of the line for `e`, whose amount is written as `amount`:
/// the time, the category in lower case, the amount, the description in
/// quotes, and in quotes the tags, joined by commas and put in lower case.
pub open spec fn record_fields(e: ExpenseView, amount: Seq<char>) -> Seq<Seq<char>> {
    seq![
        timestamp_text(e.datetime.secs, e.datetime.nanos),
        lowercased(e.category),
        amount,
        quoted(description_text(e.description)),
        quoted(lowercased(joined(e.tags, ','))),
    ]
}

/// The line for `e`: its fields with `|` between them, and a line break.
pub open spec fn record_line(e: ExpenseView, amount: Seq<char>) -> Seq<char> {
    joined(record_fields(e, amount), '|').push('\n')
}

/// The fields of a line: what stands between the `|` of the line without the
/// white space at its ends.
pub open spec fn line_fields(line: Seq<char>) -> Seq<Seq<char>> {
    pieces(trimmed(line), '|')
}

/// The text of the amount in a line of five fields.
pub open spec fn amount_text(line: Seq<char>) -> Option<Seq<char>> {
    if line_fields(line).len() == 5 {
        Some(trimmed(line_fields(line)[2]))
    } else {
        None
    }
}

/// The expense that a line holds, given what was read of its amount. A line
/// is refused for its count of fields first, then for its amount, then for
/// its time.
pub open spec fn decoded(line: Seq<char>, reading: Result<u64, Seq<char>>) -> Result<
    ExpenseView,
    ParseCause,
> {
    let fields = line_fields(line);
    if fields.len() != 5 {
        Err(ParseCause::FieldCount(fields.len() as usize))
    } else {
        match (reading, parsed_timestamp(fields[0])) {
            (Err(_), _) => Err(ParseCause::Amount),
            (Ok(_), Err(_)) => Err(ParseCause::Timestamp),
            (Ok(amount), Ok((secs, nanos))) => Ok(
                ExpenseView {
                    amount,
                    category: fields[1],
                    tags: pieces(trimmed(unquoted(fields[4])), ','),
                    datetime: Instant { secs, nanos },
                    description: Some(unquoted(fields[3])),
                },
            ),
        }
    }
}

/// The lines of a file that can hold a record: each line of the content
/// without the white space at its ends, but for those that are then empty.
pub open spec fn record_lines(content: Seq<char>) -> Seq<Seq<char>> {
    nonempty_trimmed(pieces(content, '\n'))
}

/// The lines without the white space at their ends, but for those that are
/// then empty.
pub open spec fn nonempty_trimmed(lines: Seq<Seq<char>>) -> Seq<Seq<char>>
    decreases lines.len(),
{
    if lines.len() == 0 {
        Seq::empty()
    } else if trimmed(lines.last()).len() == 0 {
        nonempty_trimmed(lines.drop_last())
    } else {
        nonempty_trimmed(lines.drop_last()).push(trimmed(lines.last()))
    }
}

/// What was read of the amount of line `i`; a line without a reading counts
/// as one whose amount could not be read.
pub open spec fn reading_at(readings: Seq<Reading>, i: int) -> Result<u64, Seq<char>> {
    if 0 <= i < readings.len() {
        reading_view(readings[i])
    } else {
        Err(Seq::empty())
    }
}

/// A line that was refused: its place among the lines, and why.
pub ghost struct Refusal {
    pub index: int,
    pub cause: ParseCause,
}

/// The expenses that the lines hold, in the order of the lines, or the first
/// line that is refused.
pub open spec fn decoded_all(lines: Seq<Seq<char>>, readings: Seq<Reading>) -> Result<
    Seq<ExpenseView>,
    Refusal,
>
    decreases lines.len(),
{
    if lines.len() == 0 {
        Ok(Seq::empty())
    } else {
        match decoded_all(lines.drop_last(), readings) {
            Err(refusal) => Err(refusal),
            Ok(before) => match decoded(lines.last(), reading_at(readings, lines.len() - 1)) {
                Ok(e) => Ok(before.push(e)),
                Err(cause) => Err(Refusal { index: lines.len() - 1, cause }),
            },
        }
    }
}

/// The expenses that a file of the given content holds, where `readings`
/// has, for each of its record lines in order, what was read of the amount.
pub open spec fn loaded(content: Seq<char>, readings: Seq<Reading>) -> Result<
    Seq<ExpenseView>,
    Refusal,
> {
    decoded_all(record_lines(content), readings)
}

/// A line that is kept has no white space at its ends, so trimming it again
/// leaves it as it is.
pub proof fn lemma_trimmed_twice_in_lines(lines: Seq<Seq<char>>, i: int)
    requires
        0 <= i < nonempty_trimmed(lines).len(),
    ensures
        trimmed(nonempty_trimmed(lines)[i]) == nonempty_trimmed(lines)[i],
    decreases lines.len(),
{
    if lines.len() > 0 {
        let kept = nonempty_trimmed(lines.drop_last());
        if i < kept.len() {
            lemma_trimmed_twice_in_lines(lines.drop_last(), i);
        } else {
            lemma_trimmed_twice(lines.last());
        }
    }
}

/// Once a line is refused, the lines after it change nothing.
pub proof fn lemma_decoded_all_prefix(lines: Seq<Seq<char>>, readings: Seq<Reading>, n: int)
    requires
        0 <= n <= lines.len(),
        decoded_all(lines.take(n), readings) is Err,
    ensures
        decoded_all(lines, readings) == decoded_all(lines.take(n), readings),
    decreases lines.len() - n,
{
    if n < lines.len() {
        assert(lines.take(n + 1).drop_last() =~= lines.take(n));
        lemma_decoded_all_prefix(lines, readings, n + 1);
    } else {
        assert(lines.take(n) =~= lines);
    }
}

/// Reading ends well just when every line holds an expense, and then gives
/// one expense for each line, in the order of the lines. Otherwise it ends
/// with the first line that holds none, and with the cause for which that
/// line is refused.
pub proof fn lemma_decoded_all(lines: Seq<Seq<char>>, readings: Seq<Reading>)
    ensures
        match decoded_all(lines, readings) {
            Ok(found) => {
                &&& found.len() == lines.len()
                &&& forall|i: int|
                    0 <= i < lines.len() ==> decoded(#[trigger] lines[i], reading_at(readings, i))
                        == Ok::<ExpenseView, ParseCause>(found[i])
            },
            Err(refusal) => {
                &&& 0 <= refusal.index < lines.len()
                &&& decoded(lines[refusal.index], reading_at(readings, refusal.index)) == Err::<
                    ExpenseView,
                    ParseCause,
                >(refusal.cause)
                &&& forall|i: int|
                    0 <= i < refusal.index ==> decoded(
                        #[trigger] lines[i],
                        reading_at(readings, i),
                    ) is Ok
            },
        },
    decreases lines.len(),
{
    if lines.len() > 0 {
        let front = lines.drop_last();
        lemma_decoded_all(front, readings);
        match decoded_all(front, readings) {
            Ok(before) => {
                assert forall|i: int| 0 <= i < front.len() implies decoded(
                    #[trigger] lines[i],
                    reading_at(readings, i),
                ) == Ok::<ExpenseView, ParseCause>(before[i]) by {
                    assert(lines[i] == front[i]);
                }
            },
            Err(refusal) => {
                assert(lines[refusal.index] == front[refusal.index]);
                assert forall|i: int| 0 <= i < refusal.index implies decoded(
                    #[trigger] lines[i],
                    reading_at(readings, i),
                ) is Ok by {
                    assert(lines[i] == front[i]);
                }
            },
        }
    }
}

/// One line that does not have five fields is enough for the reading to
/// fail, at that line or before it.
pub proof fn lemma_wrong_field_count_halts(lines: Seq<Seq<char>>, readings: Seq<Reading>, i: int)
    requires
        0 <= i < lines.len(),
        line_fields(lines[i]).len() != 5,
    ensures
        decoded_all(lines, readings) is Err,
        decoded_all(lines, readings)->Err_0.index <= i,
{
    lemma_decoded_all(lines, readings);
}

} // verus!
