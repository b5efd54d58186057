//! From the bytes of a script file to messages with an instant each.
//!
//! A script is read in three steps. The file is split into rows of trimmed fields.
//! Each row of exactly three fields whose first field is a timestamp becomes an
//! entry; every other row is left out. Then the entries are gone through in
//! order with a reference instant: an absolute entry is due at its own instant, a
//! relative one so many seconds after the reference, and either moves the
//! reference to the instant at which it is due.

use crate::clock::now;
use crate::instant::representable;
use crate::instant::Instant;
use crate::message::Message;
use crate::message::MessageView;
use crate::timestamp::timestamp_of;
use crate::timestamp::Timestamp;
use crate::timestamp::TimestampView;
use vstd::prelude::*;

verus! {

/// A row of a script as contracts see it.
pub struct EntryView {
    pub timestamp: TimestampView,
    pub topic: Seq<char>,
    pub payload: Seq<char>,
}

/// A row of a script: a message whose timestamp may still be relative.
#[derive(Debug, PartialEq, Eq)]
pub struct Entry {
    pub timestamp: Timestamp,
    pub topic: String,
    pub payload: String,
}

impl View for Entry {
    type V = EntryView;

    open spec fn view(&self) -> EntryView {
        EntryView { timestamp: self.timestamp@, topic: self.topic@, payload: self.payload@ }
    }
}

impl DeepView for Entry {
    type V = EntryView;

    open spec fn deep_view(&self) -> EntryView {
        self@
    }
}

/// The rows that the csv crate's reader yields for the bytes of a file, when it
/// reads without a header row, with rows of any number of fields, and trims every
/// field. `None` stands for a row that the reader reports as an error.
pub uninterp spec fn csv_rows(delimiter: u8, data: Seq<u8>) -> Seq<Option<Seq<Seq<char>>>>;

/// Splits the bytes of a script file into rows of fields with the csv crate's
/// `Reader`.
///
/// Trusted: the result lists what the reader's `into_records` yields, in order,
/// each record as its fields and each error as `None`. Nothing is claimed of how
/// the reader splits the bytes.
#[verifier::external_body]
fn read_rows(delimiter: u8, data: &[u8]) -> (rows: Vec<Option<Vec<String>>>)
    ensures
        rows.deep_view() == csv_rows(delimiter, data@),
{
    csv::ReaderBuilder::new()
        .has_headers(false)
        .flexible(true)
        .trim(csv::Trim::All)
        .delimiter(delimiter)
        .from_reader(data)
        .into_records()
        .map(|row| match row {
            Ok(fields) => Some(fields.iter().map(String::from).collect()),
            Err(_) => None,
        })
        .collect()
}

/// The entry that a row stands for: a row of exactly three fields whose first is
/// a timestamp. Any other row stands for none.
pub open spec fn entry_of(row: Option<Seq<Seq<char>>>) -> Option<EntryView> {
    match row {
        Some(fields) => if fields.len() == 3 {
            match timestamp_of(fields[0]) {
                Ok(timestamp) => Some(EntryView { timestamp, topic: fields[1], payload: fields[2] }),
                Err(_) => None,
            }
        } else {
            None
        },
        None => None,
    }
}

/// The entries that the rows of a file stand for, in the order of the rows.
pub open spec fn entries_of(rows: Seq<Option<Seq<Seq<char>>>>) -> Seq<EntryView> {
    rows.filter_map(|row: Option<Seq<Seq<char>>>| entry_of(row))
}

/// Reads one row.
pub fn read_entry(row: Option<Vec<String>>) -> (r: Option<Entry>)
    ensures
        r.deep_view() == entry_of(row.deep_view()),
{
    match row {
        Some(fields) => {
            if fields.len() != 3 {
                return None;
            }
            let mut fields = fields;
            let ghost texts = fields.deep_view();
            let payload = fields.pop().unwrap();
            let topic = fields.pop().unwrap();
            let field = fields.pop().unwrap();
            assert(texts[0] == field@ && texts[1] == topic@ && texts[2] == payload@);
            match Timestamp::from_str(field.as_str()) {
                Ok(timestamp) => Some(Entry { timestamp, topic, payload }),
                Err(_) => None,
            }
        },
        None => None,
    }
}

/// Reads the rows of a file, leaving out those that stand for no entry.
pub fn read_entries(rows: Vec<Option<Vec<String>>>) -> (entries: Vec<Entry>)
    ensures
        entries.deep_view() == entries_of(rows.deep_view()),
{
    let ghost all = rows.deep_view();
    let mut entries: Vec<Entry> = Vec::new();
    for row in it: rows
        invariant
            all == rows.deep_view(),
            it.seq() == rows@,
            entries.deep_view() == entries_of(all.take(it.index() as int)),
    {
        let ghost done = it.index() as int;
        let ghost before = entries.deep_view();
        assert(row == rows@[done]);
        assert(all.take(done + 1).drop_last() == all.take(done));
        assert(all.take(done + 1).last() == row.deep_view());
        let entry = read_entry(row);
        if let Some(e) = entry {
            entries.push(e);
            assert(entries.deep_view() == before + seq![e@]);
        }
    }
    assert(all.take(rows@.len() as int) == all);
    entries
}

/// The instant at which an entry is due when the entry before it was due at
/// `reference`: its own instant if it is absolute, else `reference` moved by its
/// seconds. `None` where that lies beyond what an instant can hold.
pub open spec fn due_instant(timestamp: TimestampView, reference: int) -> Option<int> {
    match timestamp {
        TimestampView::Absolute(at) => Some(at),
        TimestampView::Relative(seconds) => {
            let at = reference + seconds * 1_000_000_000;
            if representable(at) {
                Some(at)
            } else {
                None
            }
        },
    }
}

/// The message that an entry stands for when it is due at `at`.
pub open spec fn message_at(entry: EntryView, at: int) -> MessageView {
    MessageView { at, topic: entry.topic, payload: entry.payload }
}

/// The messages that a run of entries stands for when the reference instant is
/// `reference` at its start. An entry that is due at no representable instant
/// is left out and leaves the reference where it was.
pub open spec fn resolved(entries: Seq<EntryView>, reference: int) -> Seq<MessageView>
    decreases entries.len(),
{
    if entries.len() == 0 {
        Seq::empty()
    } else {
        let first = entries[0];
        match due_instant(first.timestamp, reference) {
            Some(at) => seq![message_at(first, at)] + resolved(entries.skip(1), at),
            None => resolved(entries.skip(1), reference),
        }
    }
}

/// The reference instant after a run of entries that starts with the reference
/// at `reference`.
pub open spec fn reference_after(entries: Seq<EntryView>, reference: int) -> int
    decreases entries.len(),
{
    if entries.len() == 0 {
        reference
    } else {
        match due_instant(entries[0].timestamp, reference) {
            Some(at) => reference_after(entries.skip(1), at),
            None => reference_after(entries.skip(1), reference),
        }
    }
}

/// Gives each entry the instant at which it is due, starting with the reference
/// instant at `start`.
pub fn resolve(entries: Vec<Entry>, start: Instant) -> (messages: Vec<Message>)
    ensures
        messages.deep_view() == resolved(entries.deep_view(), start@),
{
    let ghost all = entries.deep_view();
    let mut messages: Vec<Message> = Vec::new();
    let mut reference = start;
    assert(all.skip(0) == all);
    assert(messages.deep_view() + resolved(all, start@) == resolved(all, start@));
    for entry in it: entries
        invariant
            all == entries.deep_view(),
            it.seq() == entries@,
            messages.deep_view() + resolved(all.skip(it.index() as int), reference@) == resolved(
                all,
                start@,
            ),
    {
        let ghost done = it.index() as int;
        let ghost before = messages.deep_view();
        assert(entry == entries@[done]);
        assert(all.skip(done)[0] == entry@);
        assert(all.skip(done).skip(1) == all.skip(done + 1));
        let due = match entry.timestamp {
            Timestamp::Absolute(at) => Some(at),
            Timestamp::Relative(seconds) => reference.add_seconds(seconds),
        };
        if let Some(at) = due {
            let message = Message { timestamp: at, topic: entry.topic, payload: entry.payload };
            messages.push(message);
            reference = at;
            assert(messages.deep_view() == before + seq![message@]);
        }
    }
    assert(all.skip(entries@.len() as int) == Seq::<EntryView>::empty());
    messages
}

/// The sum of the seconds of the first `count` entries of a run, an absolute
/// entry counting for none.
pub open spec fn offset_sum(entries: Seq<EntryView>, count: int) -> int
    decreases count,
{
    if count <= 0 || entries.len() == 0 {
        0
    } else {
        let first = match entries[0].timestamp {
            TimestampView::Relative(seconds) => seconds,
            TimestampView::Absolute(_) => 0,
        };
        first + offset_sum(entries.skip(1), count - 1)
    }
}

/// Relative entries add up: in a run of relative entries with offsets d0, d1, ...
/// that starts with the reference at `start`, entry `i` is due at `start` moved by
/// d0 + ... + di seconds, as long as every such instant is representable.
pub proof fn lemma_relative_chain(entries: Seq<EntryView>, start: int, i: int)
    requires
        0 <= i < entries.len(),
        forall|k: int| 0 <= k < entries.len() ==> entries[k].timestamp is Relative,
        forall|k: int|
            0 < k <= entries.len() ==> representable(
                start + #[trigger] offset_sum(entries, k) * 1_000_000_000,
            ),
    ensures
        resolved(entries, start).len() == entries.len(),
        resolved(entries, start)[i] == message_at(
            entries[i],
            start + offset_sum(entries, i + 1) * 1_000_000_000,
        ),
    decreases entries.len(),
{
    let rest = entries.skip(1);
    let first = entries[0].timestamp->Relative_0;
    let next = start + first * 1_000_000_000;
    assert(offset_sum(entries, 1) == first + offset_sum(rest, 0));
    assert(forall|k: int| 0 <= k < rest.len() ==> rest[k] == entries[k + 1]);
    assert forall|k: int| 0 < k <= rest.len() implies representable(
        next + #[trigger] offset_sum(rest, k) * 1_000_000_000,
    ) by {
        assert(offset_sum(entries, k + 1) == first + offset_sum(rest, k));
    }
    if rest.len() > 0 {
        let j = if i == 0 {
            0
        } else {
            i - 1
        };
        lemma_relative_chain(rest, next, j);
        assert(offset_sum(entries, i + 1) == first + offset_sum(rest, i));
    }
}

/// The messages of a run of entries are those of its head followed by those of
/// its tail, the tail starting with the reference where the head left it.
pub proof fn lemma_resolved_concat(head: Seq<EntryView>, tail: Seq<EntryView>, start: int)
    ensures
        resolved(head + tail, start) == resolved(head, start) + resolved(
            tail,
            reference_after(head, start),
        ),
        reference_after(head + tail, start) == reference_after(tail, reference_after(head, start)),
    decreases head.len(),
{
    if head.len() == 0 {
        assert(head + tail == tail);
    } else {
        let next = match due_instant(head[0].timestamp, start) {
            Some(at) => at,
            None => start,
        };
        assert((head + tail).skip(1) == head.skip(1) + tail);
        lemma_resolved_concat(head.skip(1), tail, next);
    }
}

/// An absolute entry resets the reference: the entries after it are due as if
/// the run had started at its instant, whatever came before it.
pub proof fn lemma_absolute_resets(
    before: Seq<EntryView>,
    entry: EntryView,
    after: Seq<EntryView>,
    start: int,
)
    requires
        entry.timestamp is Absolute,
    ensures
        resolved(before + seq![entry] + after, start) == resolved(before, start) + seq![
            message_at(entry, entry.timestamp->Absolute_0),
        ] + resolved(after, entry.timestamp->Absolute_0),
{
    let at = entry.timestamp->Absolute_0;
    lemma_resolved_concat(before, seq![entry] + after, start);
    assert(before + seq![entry] + after == before + (seq![entry] + after));
    assert((seq![entry] + after).skip(1) == after);
    assert((seq![entry] + after)[0] == entry);
}

/// The messages that the bytes of a script file stand for when the file is
/// loaded at `start`.
pub open spec fn loaded(delimiter: u8, data: Seq<u8>, start: int) -> Seq<MessageView> {
    resolved(entries_of(csv_rows(delimiter, data)), start)
}

/// Loads the messages of one script file, the reference instant starting at
/// `start`.
pub fn load_messages_at(delimiter: u8, data: &[u8], start: Instant) -> (messages: Vec<Message>)
    ensures
        messages.deep_view() == loaded(delimiter, data@, start@),
{
    resolve(read_entries(read_rows(delimiter, data)), start)
}

/// Loads the messages of one script file, the reference instant starting at the
/// present instant.
pub fn load_messages(delimiter: u8, data: &[u8]) -> (messages: Vec<Message>)
    ensures
        exists|start: int|
            representable(start) && messages.deep_view() == #[trigger] loaded(
                delimiter,
                data@,
                start,
            ),
{
    let start = now();
    load_messages_at(delimiter, data, start)
}

/// The entries of a run of rows are those of its head followed by those of its
/// tail: what a row stands for does not depend on the rows around it.
pub proof fn lemma_entries_concat(
    head: Seq<Option<Seq<Seq<char>>>>,
    tail: Seq<Option<Seq<Seq<char>>>>,
)
    ensures
        entries_of(head + tail) == entries_of(head) + entries_of(tail),
    decreases tail.len(),
{
    if tail.len() == 0 {
        assert(head + tail == head);
    } else {
        assert((head + tail).drop_last() == head + tail.drop_last());
        lemma_entries_concat(head, tail.drop_last());
    }
}

/// A malformed row keeps no other row from loading: with a row that stands for
/// no entry among them, the rows give the messages that they give without it.
pub proof fn lemma_malformed_row_is_skipped(
    before: Seq<Option<Seq<Seq<char>>>>,
    row: Option<Seq<Seq<char>>>,
    after: Seq<Option<Seq<Seq<char>>>>,
    start: int,
)
    requires
        entry_of(row) is None,
    ensures
        entries_of(before + seq![row] + after) == entries_of(before + after),
        resolved(entries_of(before + seq![row] + after), start) == resolved(
            entries_of(before + after),
            start,
        ),
{
    lemma_entries_concat(before + seq![row], after);
    lemma_entries_concat(before, seq![row]);
    lemma_entries_concat(before, after);
    assert(entries_of(seq![row]) == Seq::<EntryView>::empty()) by {
        reveal_with_fuel(Seq::filter_map, 2);
        assert(seq![row].drop_last() == Seq::<Option<Seq<Seq<char>>>>::empty());
    }
}

/// An entry that is due at no representable instant keeps no other entry from
/// loading: the entries give the messages that they give without it.
pub proof fn lemma_entry_that_is_due_nowhere_is_skipped(
    before: Seq<EntryView>,
    entry: EntryView,
    after: Seq<EntryView>,
    start: int,
)
    requires
        due_instant(entry.timestamp, reference_after(before, start)) is None,
    ensures
        resolved(before + seq![entry] + after, start) == resolved(before + after, start),
{
    let reference = reference_after(before, start);
    lemma_resolved_concat(before, seq![entry] + after, start);
    lemma_resolved_concat(before, after, start);
    assert(before + seq![entry] + after == before + (seq![entry] + after));
    assert((seq![entry] + after).skip(1) == after);
    assert((seq![entry] + after)[0] == entry);
}

} // verus!
