//! The script engine: a timeline and the instant up to which it has been polled.

use crate::clock::now;
use crate::instant::representable;
use crate::instant::Instant;
use crate::loader::load_messages_at;
use crate::loader::loaded;
use crate::message::Message;
use crate::message::MessageView;
use crate::timeline::ascending;
use crate::timeline::due;
use crate::timeline::due_messages;
use crate::timeline::is_stable_sort_of;
use crate::timeline::later;
use crate::timeline::lemma_due_in_order;
use crate::timeline::sort_by_time;
use crate::timestamp::ScriptError;
use vstd::prelude::*;

verus! {

/// What a walk through the directory of scripts found.
#[derive(Debug, PartialEq, Eq)]
pub enum Scan {
    /// The directory could not be read.
    Unreadable,
    /// The script files in the order in which they were met, each with its bytes,
    /// or `None` for a file that could not be opened.
    Listed(Vec<Option<Vec<u8>>>),
}

/// The messages that a list of script files stands for when all are loaded at
/// `start`: those of each file that could be opened, file after file.
pub open spec fn loaded_files(delimiter: u8, files: Seq<Option<Seq<u8>>>, start: int) -> Seq<
    MessageView,
>
    decreases files.len(),
{
    if files.len() == 0 {
        Seq::empty()
    } else {
        loaded_files(delimiter, files.drop_last(), start) + match files.last() {
            Some(data) => loaded(delimiter, data, start),
            None => Seq::empty(),
        }
    }
}

/// Loads every file of a list at `start` and puts the messages one after another.
pub fn load_files(delimiter: u8, files: &Vec<Option<Vec<u8>>>, start: Instant) -> (messages: Vec<
    Message,
>)
    ensures
        messages.deep_view() == loaded_files(delimiter, files.deep_view(), start@),
{
    let ghost all = files.deep_view();
    let mut messages: Vec<Message> = Vec::new();
    let mut i: usize = 0;
    while i < files.len()
        invariant
            i <= files.len(),
            all == files.deep_view(),
            messages.deep_view() == loaded_files(delimiter, all.take(i as int), start@),
        decreases files.len() - i,
    {
        let ghost before = messages.deep_view();
        assert(all.take(i + 1).drop_last() == all.take(i as int));
        assert(all.take(i + 1).last() == files[i as int].deep_view());
        if let Some(data) = &files[i] {
            assert(data.deep_view() == data@);
            let mut more = load_messages_at(delimiter, data.as_slice(), start);
            let ghost added = more.deep_view();
            messages.append(&mut more);
            assert(messages.deep_view() == before + added);
        }
        i += 1;
    }
    assert(all.take(files.len() as int) == all);
    messages
}

/// A timeline of messages, the directory it is loaded from, and the instant of
/// the last poll.
///
/// The timeline is always in order of time, and the instant of the last poll
/// never moves back.
#[derive(Debug)]
pub struct Script {
    source_dir: String,
    field_delimiter: u8,
    messages: Vec<Message>,
    last_poll_time: Instant,
}

impl Script {
    #[verifier::type_invariant]
    spec fn in_order(self) -> bool {
        ascending(self.messages.deep_view())
    }

    /// The messages of the timeline, in order.
    pub closed spec fn timeline(&self) -> Seq<MessageView> {
        self.messages.deep_view()
    }

    /// The instant of the last poll, in nanoseconds since the epoch.
    pub closed spec fn cursor(&self) -> int {
        self.last_poll_time@
    }

    /// The directory that the scripts are loaded from.
    pub closed spec fn source(&self) -> Seq<char> {
        self.source_dir@
    }

    /// The byte that separates the fields of a row.
    pub closed spec fn delimiter(&self) -> u8 {
        self.field_delimiter
    }

    /// The directory that the scripts are loaded from.
    pub fn source_dir(&self) -> (r: &str)
        ensures
            r@ == self.source(),
    {
        self.source_dir.as_str()
    }

    /// The byte that separates the fields of a row.
    pub fn field_delimiter(&self) -> (r: u8)
        ensures
            r == self.delimiter(),
    {
        self.field_delimiter
    }

    /// The messages of the timeline, in order of time.
    pub fn messages(&self) -> (r: &Vec<Message>)
        ensures
            r.deep_view() == self.timeline(),
            ascending(self.timeline()),
    {
        proof {
            use_type_invariant(self);
        }
        &self.messages
    }

    /// The instant of the last poll.
    pub fn last_poll_time(&self) -> (r: Instant)
        ensures
            r@ == self.cursor(),
    {
        self.last_poll_time
    }

    /// A script over the directory `dir` with what `scan` found there loaded at
    /// `now`, which is also taken as the instant of the last poll. Where the
    /// directory could not be read, the timeline is empty.
    pub fn new_at(dir: &str, delimiter: u8, scan: &Scan, now: Instant) -> (script: Script)
        ensures
            script.source() == dir@,
            script.delimiter() == delimiter,
            script.cursor() == now@,
            ascending(script.timeline()),
            match scan {
                Scan::Unreadable => script.timeline() == Seq::<MessageView>::empty(),
                Scan::Listed(files) => is_stable_sort_of(
                    script.timeline(),
                    loaded_files(delimiter, files.deep_view(), now@),
                ),
            },
    {
        let mut script = Script {
            source_dir: dir.to_owned(),
            field_delimiter: delimiter,
            messages: Vec::new(),
            last_poll_time: now,
        };
        assert(script.timeline() == Seq::<MessageView>::empty());
        let _ = script.reload_at(scan, now);
        script
    }

    /// A script over the directory `dir` with what `scan` found there loaded at
    /// the present instant.
    pub fn new(dir: &str, delimiter: u8, scan: &Scan) -> (script: Script)
        ensures
            script.source() == dir@,
            script.delimiter() == delimiter,
            representable(script.cursor()),
            ascending(script.timeline()),
            match scan {
                Scan::Unreadable => script.timeline() == Seq::<MessageView>::empty(),
                Scan::Listed(files) => is_stable_sort_of(
                    script.timeline(),
                    loaded_files(delimiter, files.deep_view(), script.cursor()),
                ),
            },
    {
        Script::new_at(dir, delimiter, scan, now())
    }

    /// Replaces the timeline by the given messages, sorted by time; messages due
    /// at the same instant keep their order. The instant of the last poll stays.
    pub fn replace_timeline(&mut self, messages: Vec<Message>)
        ensures
            is_stable_sort_of(final(self).timeline(), messages.deep_view()),
            ascending(final(self).timeline()),
            final(self).cursor() == old(self).cursor(),
            final(self).source() == old(self).source(),
            final(self).delimiter() == old(self).delimiter(),
    {
        self.messages = sort_by_time(messages);
    }

    /// Rebuilds the timeline from what `scan` found, loaded at `start`.
    ///
    /// Where the directory could not be read, the script stays as it is and the
    /// error is `Reload`. Else the timeline becomes the messages of all files,
    /// sorted by time. The instant of the last poll stays in either case.
    pub fn reload_at(&mut self, scan: &Scan, start: Instant) -> (r: Result<(), ScriptError>)
        ensures
            final(self).cursor() == old(self).cursor(),
            final(self).source() == old(self).source(),
            final(self).delimiter() == old(self).delimiter(),
            ascending(final(self).timeline()),
            match scan {
                Scan::Unreadable => {
                    &&& r == Err::<(), ScriptError>(ScriptError::Reload)
                    &&& final(self).timeline() == old(self).timeline()
                },
                Scan::Listed(files) => r is Ok && is_stable_sort_of(
                    final(self).timeline(),
                    loaded_files(old(self).delimiter(), files.deep_view(), start@),
                ),
            },
    {
        proof {
            use_type_invariant(&*self);
        }
        match scan {
            Scan::Unreadable => Err(ScriptError::Reload),
            Scan::Listed(files) => {
                let messages = load_files(self.field_delimiter, files, start);
                self.replace_timeline(messages);
                Ok(())
            },
        }
    }

    /// Rebuilds the timeline from what `scan` found, loaded at the present
    /// instant.
    pub fn reload(&mut self, scan: &Scan) -> (r: Result<(), ScriptError>)
        ensures
            final(self).cursor() == old(self).cursor(),
            final(self).source() == old(self).source(),
            final(self).delimiter() == old(self).delimiter(),
            ascending(final(self).timeline()),
            match scan {
                Scan::Unreadable => {
                    &&& r == Err::<(), ScriptError>(ScriptError::Reload)
                    &&& final(self).timeline() == old(self).timeline()
                },
                Scan::Listed(files) => r is Ok && exists|start: int|
                    representable(start) && is_stable_sort_of(
                        final(self).timeline(),
                        #[trigger] loaded_files(old(self).delimiter(), files.deep_view(), start),
                    ),
            },
    {
        let start = now();
        self.reload_at(scan, start)
    }

    /// The messages that have fallen due since the last poll: those due after the
    /// instant of the last poll and no later than `now`, in the order of the
    /// timeline. The instant of the last poll moves to `now`, unless `now` lies
    /// before it.
    pub fn poll_at(&mut self, now: Instant) -> (found: Vec<Message>)
        ensures
            found.deep_view() == due(old(self).timeline(), old(self).cursor(), now@),
            ascending(found.deep_view()),
            final(self).cursor() == later(old(self).cursor(), now@),
            final(self).timeline() == old(self).timeline(),
            final(self).source() == old(self).source(),
            final(self).delimiter() == old(self).delimiter(),
    {
        proof {
            use_type_invariant(&*self);
        }
        let found = due_messages(&self.messages, &self.last_poll_time, &now);
        proof {
            lemma_due_in_order(self.timeline(), self.cursor(), now@);
        }
        self.last_poll_time = self.last_poll_time.later_of(now);
        found
    }

    /// The messages that have fallen due since the last poll, by the wall clock.
    pub fn poll(&mut self) -> (found: Vec<Message>)
        ensures
            exists|now: int|
                representable(now) && found.deep_view() == #[trigger] due(
                    old(self).timeline(),
                    old(self).cursor(),
                    now,
                ) && final(self).cursor() == later(old(self).cursor(), now),
            ascending(found.deep_view()),
            final(self).timeline() == old(self).timeline(),
            final(self).source() == old(self).source(),
            final(self).delimiter() == old(self).delimiter(),
    {
        let present = now();
        self.poll_at(present)
    }
}

/// Files load apart from one another: the messages of a list of files are those
/// of its head followed by those of its tail.
pub proof fn lemma_files_concat(
    delimiter: u8,
    head: Seq<Option<Seq<u8>>>,
    tail: Seq<Option<Seq<u8>>>,
    start: int,
)
    ensures
        loaded_files(delimiter, head + tail, start) == loaded_files(delimiter, head, start)
            + loaded_files(delimiter, tail, start),
    decreases tail.len(),
{
    if tail.len() == 0 {
        assert(head + tail == head);
    } else {
        assert((head + tail).drop_last() == head + tail.drop_last());
        lemma_files_concat(delimiter, head, tail.drop_last(), start);
    }
}

/// A file that cannot be opened, or that gives no message, keeps no other file
/// from loading.
pub proof fn lemma_barren_file_is_skipped(
    delimiter: u8,
    before: Seq<Option<Seq<u8>>>,
    file: Option<Seq<u8>>,
    after: Seq<Option<Seq<u8>>>,
    start: int,
)
    requires
        file matches Some(data) ==> loaded(delimiter, data, start) == Seq::<MessageView>::empty(),
    ensures
        loaded_files(delimiter, before + seq![file] + after, start) == loaded_files(
            delimiter,
            before + after,
            start,
        ),
{
    lemma_files_concat(delimiter, before + seq![file], after, start);
    lemma_files_concat(delimiter, before, seq![file], start);
    lemma_files_concat(delimiter, before, after, start);
    assert(loaded_files(delimiter, seq![file], start) == Seq::<MessageView>::empty()) by {
        reveal_with_fuel(loaded_files, 2);
        assert(seq![file].drop_last() == Seq::<Option<Seq<u8>>>::empty());
    }
}

} // verus!
