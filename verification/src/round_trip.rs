//! What is written can be read again: the line of an expense gives the
//! expense back, and the lines written one after another give the expenses
//! in the order of their writing.
use crate::amount::{reading_view, Reading};
use crate::record::{
    decoded, decoded_all, description_text, line_fields, loaded, nonempty_trimmed, reading_at,
    record_fields, record_line, record_lines, ExpenseView, Refusal,
};
use crate::error::ParseCause;
use crate::text::{
    joined, lemma_joined_first, lemma_joined_free, lemma_joined_last, lemma_pieces_append,
    lemma_pieces_of_joined, lemma_quoted, lemma_trimmed_is, lowercased, pieces, trimmed,
    white_space,
};
use crate::timestamp::{parsed_timestamp, timestamp_text, Instant};
use vstd::prelude::*;

verus! {

/// Whether the line for `e` can be taken apart again: none of its fields
/// holds a `|`, and its first field does not start with white space.
pub open spec fn intact(e: ExpenseView, amount: Seq<char>) -> bool {
    let fields = record_fields(e, amount);
    &&& forall|i: int| 0 <= i < fields.len() ==> !(#[trigger] fields[i]).contains('|')
    &&& fields[0].len() > 0 ==> !white_space(fields[0].first())
}

/// Whether the line for `e` stays one line: none of its fields holds a line
/// break.
pub open spec fn one_line(e: ExpenseView, amount: Seq<char>) -> bool {
    let fields = record_fields(e, amount);
    forall|i: int| 0 <= i < fields.len() ==> !(#[trigger] fields[i]).contains('\n')
}

/// The tags in lower case, one by one.
pub open spec fn lower_tags(tags: Seq<Seq<char>>) -> Seq<Seq<char>> {
    Seq::new(tags.len(), |i: int| lowercased(tags[i]))
}

/// The point in time without what is finer than a millisecond.
pub open spec fn to_millisecond(t: Instant) -> Instant {
    Instant { secs: t.secs, nanos: t.nanos - t.nanos % 1_000_000 }
}

/// Whether tags come back one by one from their written form: there is a
/// tag; putting the joined tags in lower case is the same as joining the
/// tags in lower case; no tag in lower case holds a comma; and the written
/// form neither starts nor ends with white space.
pub open spec fn tags_come_back(tags: Seq<Seq<char>>) -> bool {
    let written = joined(lower_tags(tags), ',');
    &&& tags.len() >= 1
    &&& lowercased(joined(tags, ',')) == written
    &&& forall|i: int| 0 <= i < tags.len() ==> !(#[trigger] lower_tags(tags)[i]).contains(',')
    &&& written.len() > 0 ==> !white_space(written.first()) && !white_space(written.last())
}

/// The fields of a written line, joined, are the line without its line
/// break, and are what trimming leaves of either.
proof fn lemma_line_trimmed(e: ExpenseView, amount: Seq<char>)
    requires
        intact(e, amount),
    ensures
        trimmed(record_line(e, amount)) == joined(record_fields(e, amount), '|'),
        trimmed(joined(record_fields(e, amount), '|')) == joined(record_fields(e, amount), '|'),
        joined(record_fields(e, amount), '|').len() > 0,
{
    let fields = record_fields(e, amount);
    let body = joined(fields, '|');
    let line = record_line(e, amount);
    lemma_joined_first(fields, '|');
    lemma_quoted(fields[4], '|');
    let tags = lowercased(joined(e.tags, ','));
    lemma_quoted(tags, '|');
    assert(fields.last() == fields[4]);
    lemma_joined_last(fields, '|');
    assert(body.last() == '"');
    assert(line[body.len() as int] == '\n');
    assert(line[0] == body[0]);
    assert(line[body.len() - 1] == body.last());
    lemma_trimmed_is(line, 0, body.len() as int);
    assert(line.subrange(0, body.len() as int) =~= body);
    lemma_trimmed_is(body, 0, body.len() as int);
    assert(body.subrange(0, body.len() as int) =~= body);
}

/// The fields of a written line are found again when the line is taken
/// apart.
pub proof fn lemma_fields_come_back(e: ExpenseView, amount: Seq<char>)
    requires
        intact(e, amount),
    ensures
        line_fields(record_line(e, amount)) == record_fields(e, amount),
        line_fields(joined(record_fields(e, amount), '|')) == record_fields(e, amount),
{
    lemma_line_trimmed(e, amount);
    lemma_pieces_of_joined(record_fields(e, amount), '|');
}

/// Tags that come back from their written form do so one by one, in lower
/// case.
proof fn lemma_tags_come_back(tags: Seq<Seq<char>>)
    requires
        tags_come_back(tags),
    ensures
        pieces(trimmed(lowercased(joined(tags, ','))), ',') == lower_tags(tags),
{
    let written = joined(lower_tags(tags), ',');
    lemma_trimmed_is(written, 0, written.len() as int);
    assert(written.subrange(0, written.len() as int) =~= written);
    lemma_pieces_of_joined(lower_tags(tags), ',');
}

/// Reading the line of an expense gives the expense back: the same amount,
/// the category in lower case, the description (the empty one where there
/// was none), the tags in lower case, and the time to the millisecond.
///
/// This holds of an expense whose line can be taken apart again and whose
/// tags come back from their written form, where the number that is read
/// from the written amount is the amount, and the time that is read from
/// the written time is the time to the millisecond.
pub proof fn lemma_round_trip(e: ExpenseView, amount: Seq<char>, reading: Result<u64, Seq<char>>)
    requires
        intact(e, amount),
        tags_come_back(e.tags),
        reading == Ok::<u64, Seq<char>>(e.amount),
        parsed_timestamp(timestamp_text(e.datetime.secs, e.datetime.nanos)) == Ok::<
            (int, int),
            Seq<char>,
        >((to_millisecond(e.datetime).secs, to_millisecond(e.datetime).nanos)),
    ensures
        decoded(record_line(e, amount), reading) == Ok::<ExpenseView, ParseCause>(
            ExpenseView {
                amount: e.amount,
                category: lowercased(e.category),
                tags: lower_tags(e.tags),
                datetime: to_millisecond(e.datetime),
                description: Some(description_text(e.description)),
            },
        ),
{
    lemma_fields_come_back(e, amount);
    lemma_tags_come_back(e.tags);
    lemma_quoted(description_text(e.description), '|');
    lemma_quoted(lowercased(joined(e.tags, ',')), '|');
}

/// A line that was written, and what was written as its amount.
pub ghost struct Written {
    pub expense: ExpenseView,
    pub amount: Seq<char>,
}

/// The content of a file to which the lines of the entries were appended
/// one after another, starting with nothing.
pub open spec fn file_of(entries: Seq<Written>) -> Seq<char>
    decreases entries.len(),
{
    if entries.len() == 0 {
        Seq::empty()
    } else {
        file_of(entries.drop_last()) + record_line(entries.last().expense, entries.last().amount)
    }
}

/// Readings beyond the lines change nothing.
proof fn lemma_decoded_all_more_readings(
    lines: Seq<Seq<char>>,
    readings: Seq<Reading>,
    reading: Reading,
)
    requires
        lines.len() <= readings.len(),
    ensures
        decoded_all(lines, readings.push(reading)) == decoded_all(lines, readings),
    decreases lines.len(),
{
    if lines.len() > 0 {
        lemma_decoded_all_more_readings(lines.drop_last(), readings, reading);
        let i = lines.len() - 1;
        assert(readings.push(reading)[i] == readings[i]);
    }
}

/// Appending the line of an expense to a file adds one record line, the
/// last, and leaves the others as they were; so the file then holds what it
/// held before and, behind that, what the new line holds.
///
/// This holds of a file that is empty or ends with a line break, as every
/// file does to which only such lines were appended.
pub proof fn lemma_append_one(
    content: Seq<char>,
    readings: Seq<Reading>,
    e: ExpenseView,
    amount: Seq<char>,
    reading: Reading,
)
    requires
        content.len() == 0 || content.last() == '\n',
        readings.len() == record_lines(content).len(),
        intact(e, amount),
        one_line(e, amount),
    ensures
        record_lines(content + record_line(e, amount)) == record_lines(content).push(
            joined(record_fields(e, amount), '|'),
        ),
        loaded(content + record_line(e, amount), readings.push(reading)) == match loaded(
            content,
            readings,
        ) {
            Err(refusal) => Err::<Seq<ExpenseView>, Refusal>(refusal),
            Ok(before) => match decoded(record_line(e, amount), reading_view(reading)) {
                Ok(x) => Ok(before.push(x)),
                Err(cause) => Err(Refusal { index: record_lines(content).len() as int, cause }),
            },
        },
{
    let fields = record_fields(e, amount);
    let body = joined(fields, '|');
    let line = record_line(e, amount);
    let old_pieces = pieces(content, '\n');
    let none = Seq::<char>::empty();
    lemma_line_trimmed(e, amount);
    lemma_fields_come_back(e, amount);
    lemma_joined_free(fields, '|', '\n');
    lemma_pieces_append(content, body, '\n');
    assert(old_pieces.last() == none) by {
        if content.len() > 0 {
            assert(old_pieces == pieces(content.drop_last(), '\n').push(none));
        }
    }
    assert(none + body =~= body);
    let mid = old_pieces.update(old_pieces.len() - 1, body);
    assert(pieces(content + body, '\n') == mid);
    assert(content + line =~= (content + body).push('\n'));
    assert((content + body).push('\n').drop_last() =~= content + body);
    let new_pieces = pieces(content + line, '\n');
    assert(new_pieces == mid.push(none));
    assert(trimmed(none) =~= none);
    assert(mid.push(none).drop_last() =~= mid);
    assert(mid.drop_last() =~= old_pieces.drop_last());
    assert(mid.last() == body);
    let lines = record_lines(content);
    assert(nonempty_trimmed(new_pieces) == nonempty_trimmed(mid));
    assert(nonempty_trimmed(mid) == nonempty_trimmed(old_pieces.drop_last()).push(body));
    assert(lines == nonempty_trimmed(old_pieces.drop_last()));
    assert(record_lines(content + line) == lines.push(body));
    assert(lines.push(body).drop_last() =~= lines);
    lemma_decoded_all_more_readings(lines, readings, reading);
    assert(reading_at(readings.push(reading), lines.len() as int) == reading_view(reading));
    assert(line_fields(body) == line_fields(line));
}

/// Appending the lines of expenses one after another to an empty file, and
/// then reading the file, gives as many expenses as lines were appended, in
/// the order of the appending, each as its own line gives it.
///
/// This holds where each line can be taken apart again, stays one line, and
/// is read without a refusal.
pub proof fn lemma_append_then_load(entries: Seq<Written>, readings: Seq<Reading>)
    requires
        readings.len() == entries.len(),
        forall|i: int|
            0 <= i < entries.len() ==> {
                &&& intact((#[trigger] entries[i]).expense, entries[i].amount)
                &&& one_line(entries[i].expense, entries[i].amount)
                &&& decoded(
                    record_line(entries[i].expense, entries[i].amount),
                    reading_view(readings[i]),
                ) is Ok
            },
    ensures
        file_of(entries).len() == 0 || file_of(entries).last() == '\n',
        record_lines(file_of(entries)).len() == entries.len(),
        loaded(file_of(entries), readings) is Ok,
        loaded(file_of(entries), readings)->Ok_0.len() == entries.len(),
        forall|i: int|
            0 <= i < entries.len() ==> (#[trigger] loaded(file_of(entries), readings)->Ok_0[i])
                == decoded(
                record_line(entries[i].expense, entries[i].amount),
                reading_view(readings[i]),
            )->Ok_0,
    decreases entries.len(),
{
    if entries.len() == 0 {
        let none = Seq::<char>::empty();
        assert(pieces(none, '\n') =~= seq![none]);
        assert(trimmed(none) =~= none);
        assert(seq![none].drop_last() =~= Seq::<Seq<char>>::empty());
        assert(nonempty_trimmed(seq![none]) == nonempty_trimmed(seq![none].drop_last()));
        assert(record_lines(none) =~= Seq::<Seq<char>>::empty());
    } else {
        let front = entries.drop_last();
        let front_readings = readings.drop_last();
        let last = entries.last();
        assert forall|i: int| 0 <= i < front.len() implies {
            &&& intact((#[trigger] front[i]).expense, front[i].amount)
            &&& one_line(front[i].expense, front[i].amount)
            &&& decoded(
                record_line(front[i].expense, front[i].amount),
                reading_view(front_readings[i]),
            ) is Ok
        } by {
            assert(front[i] == entries[i]);
            assert(front_readings[i] == readings[i]);
        }
        lemma_append_then_load(front, front_readings);
        assert(entries[entries.len() - 1] == last);
        lemma_append_one(
            file_of(front),
            front_readings,
            last.expense,
            last.amount,
            readings.last(),
        );
        assert(front_readings.push(readings.last()) =~= readings);
        let found = loaded(file_of(entries), readings)->Ok_0;
        let before = loaded(file_of(front), front_readings)->Ok_0;
        assert forall|i: int| 0 <= i < entries.len() implies (#[trigger] found[i]) == decoded(
            record_line(entries[i].expense, entries[i].amount),
            reading_view(readings[i]),
        )->Ok_0 by {
            if i < front.len() {
                assert(found[i] == before[i]);
                assert(front[i] == entries[i]);
                assert(front_readings[i] == readings[i]);
            }
        }
    }
}

} // verus!
