//! Timelines: messages in the order in which they are due.

use crate::instant::Instant;
use crate::message::Message;
use crate::message::MessageView;
use vstd::prelude::*;

verus! {

/// Whether the messages are in order of time, earliest first.
pub open spec fn ascending(timeline: Seq<MessageView>) -> bool {
    forall|i: int, j: int| 0 <= i <= j < timeline.len() ==> timeline[i].at <= timeline[j].at
}

/// The test for a message that is due at `at`.
pub open spec fn is_at(at: int) -> spec_fn(MessageView) -> bool {
    |m: MessageView| m.at == at
}

/// The messages that are due at `at`, in the order in which the timeline holds them.
pub open spec fn at_instant(timeline: Seq<MessageView>, at: int) -> Seq<MessageView> {
    timeline.filter(is_at(at))
}

/// Whether `sorted` holds the messages of `given`, each as often as `given` holds
/// it, in order of time, those that are due at the same instant in the order in
/// which `given` holds them.
pub open spec fn is_stable_sort_of(sorted: Seq<MessageView>, given: Seq<MessageView>) -> bool {
    &&& ascending(sorted)
    &&& sorted.to_multiset() == given.to_multiset()
    &&& forall|at: int| #[trigger] at_instant(sorted, at) == at_instant(given, at)
}

/// The test for a message that is due after `after` and no later than `until`.
pub open spec fn in_window(after: int, until: int) -> spec_fn(MessageView) -> bool {
    |m: MessageView| after < m.at <= until
}

/// The messages of a timeline that are due after `after` and no later than
/// `until`, in the order of the timeline.
pub open spec fn due(timeline: Seq<MessageView>, after: int, until: int) -> Seq<MessageView> {
    timeline.filter(in_window(after, until))
}

/// The later of two instants.
pub open spec fn later(a: int, b: int) -> int {
    if a < b {
        b
    } else {
        a
    }
}

/// The instant of the last poll after polls at the instants `polls`, one after
/// another, when it was `cursor` before them.
pub open spec fn cursor_after(cursor: int, polls: Seq<int>) -> int
    decreases polls.len(),
{
    if polls.len() == 0 {
        cursor
    } else {
        later(cursor_after(cursor, polls.drop_last()), polls.last())
    }
}

/// What polls at the instants `polls`, one after another, hand out in all, when
/// the instant of the last poll was `cursor` before them: the messages of the
/// first poll, then those of the second, and so on.
pub open spec fn delivered(timeline: Seq<MessageView>, cursor: int, polls: Seq<int>) -> Seq<
    MessageView,
>
    decreases polls.len(),
{
    if polls.len() == 0 {
        Seq::empty()
    } else {
        delivered(timeline, cursor, polls.drop_last()) + due(
            timeline,
            cursor_after(cursor, polls.drop_last()),
            polls.last(),
        )
    }
}

/// Where no message passes a test, the test selects nothing.
proof fn lemma_filter_none(timeline: Seq<MessageView>, test: spec_fn(MessageView) -> bool)
    requires
        forall|i: int| 0 <= i < timeline.len() ==> !test(#[trigger] timeline[i]),
    ensures
        timeline.filter(test) == Seq::<MessageView>::empty(),
    decreases timeline.len(),
{
    reveal(Seq::filter);
    if timeline.len() > 0 {
        lemma_filter_none(timeline.drop_last(), test);
    }
}

/// Putting a message behind every message that is due no later, and before those
/// that are due later, keeps a stable sort stable.
proof fn lemma_insert_in_order(
    sorted: Seq<MessageView>,
    place: int,
    message: MessageView,
    given: Seq<MessageView>,
)
    requires
        0 <= place <= sorted.len(),
        is_stable_sort_of(sorted, given),
        forall|j: int| 0 <= j < place ==> sorted[j].at <= message.at,
        forall|j: int| place <= j < sorted.len() ==> message.at < sorted[j].at,
    ensures
        is_stable_sort_of(sorted.insert(place, message), given.push(message)),
{
    let head = sorted.take(place);
    let tail = sorted.skip(place);
    let grown = sorted.insert(place, message);
    assert(grown == head.push(message) + tail);
    assert(sorted == head + tail);
    assert(grown.to_multiset() == given.push(message).to_multiset()) by {
        vstd::seq_lib::to_multiset_insert(sorted, place, message);
        vstd::seq_lib::to_multiset_build(given, message);
    }
    assert forall|at: int| #[trigger] at_instant(grown, at) == at_instant(
        given.push(message),
        at,
    ) by {
        let test = is_at(at);
        Seq::filter_distributes_over_add(head.push(message), tail, test);
        Seq::filter_distributes_over_add(head, tail, test);
        head.lemma_filter_push(message, test);
        given.lemma_filter_push(message, test);
        assert(at_instant(sorted, at) == at_instant(given, at));
        if at == message.at {
            lemma_filter_none(tail, test);
        }
    }
}

/// Sorts messages by the instant at which they are due, earliest first. Messages
/// that are due at the same instant keep the order in which they were given.
pub fn sort_by_time(messages: Vec<Message>) -> (sorted: Vec<Message>)
    ensures
        is_stable_sort_of(sorted.deep_view(), messages.deep_view()),
{
    let ghost all = messages.deep_view();
    let mut sorted: Vec<Message> = Vec::new();
    assert(is_stable_sort_of(sorted.deep_view(), all.take(0))) by {
        assert(sorted.deep_view() == all.take(0));
    }
    for message in it: messages
        invariant
            all == messages.deep_view(),
            it.seq() == messages@,
            is_stable_sort_of(sorted.deep_view(), all.take(it.index() as int)),
    {
        let ghost done = it.index() as int;
        let ghost before = sorted.deep_view();
        assert(message == messages@[done]);
        let mut place: usize = sorted.len();
        while place > 0 && message.timestamp.is_before(&sorted[place - 1].timestamp)
            invariant
                place <= sorted.len(),
                before == sorted.deep_view(),
                forall|j: int| place <= j < before.len() ==> message@.at < before[j].at,
            decreases place,
        {
            place -= 1;
        }
        sorted.insert(place, message);
        proof {
            assert(place > 0 ==> before[place - 1].at <= message@.at);
            lemma_insert_in_order(before, place as int, message@, all.take(done));
            assert(sorted.deep_view() == before.insert(place as int, message@));
            assert(all.take(done + 1) == all.take(done).push(message@));
        }
    }
    assert(all.take(messages@.len() as int) == all);
    sorted
}

/// The messages that are due after `after` and no later than `until`, in the
/// order in which `messages` holds them.
pub fn due_messages(messages: &Vec<Message>, after: &Instant, until: &Instant) -> (found: Vec<
    Message,
>)
    ensures
        found.deep_view() == due(messages.deep_view(), after@, until@),
{
    let ghost all = messages.deep_view();
    let mut found: Vec<Message> = Vec::new();
    let mut i: usize = 0;
    assert(due(all.take(0), after@, until@) == Seq::<MessageView>::empty()) by {
        lemma_filter_none(all.take(0), in_window(after@, until@));
    }
    while i < messages.len()
        invariant
            i <= messages.len(),
            all == messages.deep_view(),
            found.deep_view() == due(all.take(i as int), after@, until@),
        decreases messages.len() - i,
    {
        let ghost before = found.deep_view();
        let message = &messages[i];
        proof {
            assert(all.take(i + 1) == all.take(i as int).push(message@));
            all.take(i as int).lemma_filter_push(message@, in_window(after@, until@));
        }
        if after.is_before(&message.timestamp) && message.timestamp.is_at_or_before(until) {
            found.push(message.clone());
            assert(found.deep_view() == before.push(message@));
        }
        i += 1;
    }
    assert(all.take(messages.len() as int) == all);
    found
}

/// Where every message passes a test, the test selects all.
proof fn lemma_filter_all(timeline: Seq<MessageView>, test: spec_fn(MessageView) -> bool)
    requires
        forall|i: int| 0 <= i < timeline.len() ==> test(#[trigger] timeline[i]),
    ensures
        timeline.filter(test) == timeline,
    decreases timeline.len(),
{
    reveal(Seq::filter);
    if timeline.len() > 0 {
        lemma_filter_all(timeline.drop_last(), test);
        assert(timeline.drop_last().push(timeline.last()) == timeline);
    }
}

/// What a test selects from a timeline in order of time is in order of time, and
/// nothing selected is due later than the last message of the timeline.
proof fn lemma_filter_in_order(timeline: Seq<MessageView>, test: spec_fn(MessageView) -> bool)
    requires
        ascending(timeline),
    ensures
        ascending(timeline.filter(test)),
        forall|i: int|
            0 <= i < timeline.filter(test).len() ==> (#[trigger] timeline.filter(test)[i]).at
                <= timeline.last().at,
    decreases timeline.len(),
{
    reveal(Seq::filter);
    if timeline.len() > 0 {
        let front = timeline.drop_last();
        lemma_front_ascending(timeline);
        lemma_filter_in_order(front, test);
        if front.len() > 0 {
            assert(front.last() == timeline[front.len() - 1]);
        }
    }
}

/// A poll hands out its messages in order of time.
pub proof fn lemma_due_in_order(timeline: Seq<MessageView>, after: int, until: int)
    requires
        ascending(timeline),
    ensures
        ascending(due(timeline, after, until)),
{
    lemma_filter_in_order(timeline, in_window(after, until));
}

/// A poll hands out no message before it is due and none that was due at or
/// before the instant of the poll before, and it skips no message that has
/// fallen due since.
pub proof fn lemma_due_exact(timeline: Seq<MessageView>, after: int, until: int)
    ensures
        forall|i: int|
            0 <= i < due(timeline, after, until).len() ==> after < (#[trigger] due(
                timeline,
                after,
                until,
            )[i]).at <= until,
        forall|i: int|
            0 <= i < timeline.len() && after < timeline[i].at <= until ==> due(
                timeline,
                after,
                until,
            ).contains(#[trigger] timeline[i]),
        forall|i: int|
            0 <= i < due(timeline, after, until).len() ==> timeline.contains(
                #[trigger] due(timeline, after, until)[i],
            ),
{
    let test = in_window(after, until);
    let found = due(timeline, after, until);
    assert forall|i: int| 0 <= i < found.len() implies after < (#[trigger] found[i]).at
        <= until by {
        timeline.lemma_filter_pred(test, i);
    }
    assert forall|i: int| 0 <= i < timeline.len() && after < timeline[i].at
        <= until implies found.contains(#[trigger] timeline[i]) by {
        timeline.lemma_filter_contains(test, i);
    }
    assert forall|i: int| 0 <= i < found.len() implies timeline.contains(#[trigger] found[i]) by {
        assert(found.contains(found[i]));
        timeline.lemma_filter_contains_rev(test, found[i]);
    }
}

/// Two polls in a row hand out what one poll at the later instant would have.
pub proof fn lemma_due_split(timeline: Seq<MessageView>, after: int, between: int, until: int)
    requires
        ascending(timeline),
        after <= between <= until,
    ensures
        due(timeline, after, between) + due(timeline, between, until) == due(
            timeline,
            after,
            until,
        ),
    decreases timeline.len(),
{
    reveal(Seq::filter);
    if timeline.len() > 0 {
        let front = timeline.drop_last();
        let last = timeline.last();
        lemma_front_ascending(timeline);
        lemma_due_split(front, after, between, until);
        if after < last.at <= between {
            assert forall|i: int| 0 <= i < front.len() implies !in_window(between, until)(
                #[trigger] front[i],
            ) by {
                assert(front[i] == timeline[i]);
            }
            lemma_filter_none(front, in_window(between, until));
        }
    }
}

/// A later poll starts where all polls before it have ended.
pub proof fn lemma_cursor_covers(cursor: int, polls: Seq<int>, i: int)
    requires
        0 <= i < polls.len(),
    ensures
        polls[i] <= cursor_after(cursor, polls),
        cursor <= cursor_after(cursor, polls),
        cursor_after(cursor, polls.take(i)) <= cursor_after(cursor, polls),
    decreases polls.len(),
{
    let front = polls.drop_last();
    if i < polls.len() - 1 {
        lemma_cursor_covers(cursor, front, i);
        assert(front.take(i) == polls.take(i));
    } else {
        assert(front == polls.take(i));
        if front.len() > 0 {
            lemma_cursor_covers(cursor, front, 0);
        }
    }
}

/// Polls hand out every message once: whatever the instants of the polls, what
/// they hand out in all, in the order in which they hand it out, is what one poll
/// at the latest of the instants would have handed out, which is a stretch of
/// the timeline in its own order.
pub proof fn lemma_polls_deliver_in_order(timeline: Seq<MessageView>, cursor: int, polls: Seq<int>)
    requires
        ascending(timeline),
    ensures
        delivered(timeline, cursor, polls) == due(timeline, cursor, cursor_after(cursor, polls)),
        ascending(delivered(timeline, cursor, polls)),
    decreases polls.len(),
{
    if polls.len() == 0 {
        assert forall|i: int| 0 <= i < timeline.len() implies !in_window(cursor, cursor)(
            #[trigger] timeline[i],
        ) by {}
        lemma_filter_none(timeline, in_window(cursor, cursor));
    } else {
        let front = polls.drop_last();
        let reached = cursor_after(cursor, front);
        lemma_polls_deliver_in_order(timeline, cursor, front);
        if front.len() > 0 {
            lemma_cursor_covers(cursor, front, 0);
        }
        if reached <= polls.last() {
            lemma_due_split(timeline, cursor, reached, polls.last());
        } else {
            assert forall|i: int| 0 <= i < timeline.len() implies !in_window(
                reached,
                polls.last(),
            )(#[trigger] timeline[i]) by {}
            lemma_filter_none(timeline, in_window(reached, polls.last()));
        }
    }
    lemma_due_in_order(timeline, cursor, cursor_after(cursor, polls));
}

/// No instant falls to two polls: the stretch of time that one poll covers lies
/// wholly before the stretch that any later poll covers.
pub proof fn lemma_polls_never_overlap(cursor: int, polls: Seq<int>, i: int, j: int, at: int)
    requires
        0 <= i < j < polls.len(),
    ensures
        !(cursor_after(cursor, polls.take(i)) < at <= polls[i] && cursor_after(
            cursor,
            polls.take(j),
        ) < at <= polls[j]),
{
    lemma_cursor_covers(cursor, polls.take(j), i);
}

/// Polls that reach past the last message hand out the whole timeline, in its
/// order, if every message was due after the instant of the last poll before them.
pub proof fn lemma_polls_deliver_all(timeline: Seq<MessageView>, cursor: int, polls: Seq<int>)
    requires
        ascending(timeline),
        forall|i: int|
            0 <= i < timeline.len() ==> cursor < (#[trigger] timeline[i]).at <= cursor_after(
                cursor,
                polls,
            ),
    ensures
        delivered(timeline, cursor, polls) == timeline,
{
    lemma_polls_deliver_in_order(timeline, cursor, polls);
    lemma_filter_all(timeline, in_window(cursor, cursor_after(cursor, polls)));
}

/// The instant of the last poll guards the past: whatever the timeline, a
/// message that is due at or before that instant is in no poll from then on.
pub proof fn lemma_cursor_guards_past(
    timeline: Seq<MessageView>,
    cursor: int,
    polls: Seq<int>,
    i: int,
)
    requires
        0 <= i < delivered(timeline, cursor, polls).len(),
    ensures
        cursor < delivered(timeline, cursor, polls)[i].at,
    decreases polls.len(),
{
    if polls.len() > 0 {
        let front = polls.drop_last();
        let before = delivered(timeline, cursor, front);
        if i < before.len() {
            lemma_cursor_guards_past(timeline, cursor, front, i);
        } else {
            let reached = cursor_after(cursor, front);
            lemma_due_exact(timeline, reached, polls.last());
            if front.len() > 0 {
                lemma_cursor_covers(cursor, front, 0);
            }
            assert(delivered(timeline, cursor, polls)[i] == due(timeline, reached, polls.last())[i
                - before.len()]);
        }
    }
}

/// A timeline in order of time without its last message is in order of time.
proof fn lemma_front_ascending(timeline: Seq<MessageView>)
    requires
        ascending(timeline),
        timeline.len() > 0,
    ensures
        ascending(timeline.drop_last()),
{
    let front = timeline.drop_last();
    assert forall|i: int, j: int| 0 <= i <= j < front.len() implies front[i].at <= front[j].at by {
        assert(front[i] == timeline[i] && front[j] == timeline[j]);
    }
}

/// A timeline has a message that is due at `at` exactly if `at_instant` finds one.
proof fn lemma_at_instant_finds(timeline: Seq<MessageView>, at: int)
    ensures
        at_instant(timeline, at).len() > 0 <==> exists|i: int|
            0 <= i < timeline.len() && (#[trigger] timeline[i]).at == at,
{
    let test = is_at(at);
    let found = at_instant(timeline, at);
    if found.len() > 0 {
        timeline.lemma_filter_pred(test, 0);
        assert(found.contains(found[0]));
        timeline.lemma_filter_contains_rev(test, found[0]);
        let i = choose|i: int| 0 <= i < timeline.len() && timeline[i] == found[0];
        assert(timeline[i].at == at);
    }
    if exists|i: int| 0 <= i < timeline.len() && (#[trigger] timeline[i]).at == at {
        let i = choose|i: int| 0 <= i < timeline.len() && (#[trigger] timeline[i]).at == at;
        timeline.lemma_filter_contains(test, i);
    }
}

/// Two timelines in order of time that hold the same messages in the same order
/// at every instant are the same timeline.
proof fn lemma_same_at_every_instant(a: Seq<MessageView>, b: Seq<MessageView>)
    requires
        ascending(a),
        ascending(b),
        forall|at: int| #[trigger] at_instant(a, at) == at_instant(b, at),
    ensures
        a == b,
    decreases a.len(),
{
    reveal(Seq::filter);
    if a.len() == 0 {
        if b.len() > 0 {
            lemma_at_instant_finds(b, b[0].at);
            assert(at_instant(a, b[0].at) == at_instant(b, b[0].at));
        }
        assert(a =~= b);
    } else {
        let last = a.last();
        let at_last = last.at;
        assert(at_instant(a, at_last) == at_instant(a.drop_last(), at_last).push(last));
        assert(at_instant(a, at_last) == at_instant(b, at_last));
        lemma_at_instant_finds(b, at_last);
        let k = choose|k: int| 0 <= k < b.len() && (#[trigger] b[k]).at == at_last;
        let at_end = b.last().at;
        assert(at_last <= at_end) by {
            assert(b[k].at <= b[b.len() - 1].at);
        }
        assert(at_end <= at_last) by {
            lemma_at_instant_finds(b, at_end);
            assert(b[b.len() - 1].at == at_end);
            assert(at_instant(a, at_end) == at_instant(b, at_end));
            lemma_at_instant_finds(a, at_end);
            let j = choose|j: int| 0 <= j < a.len() && (#[trigger] a[j]).at == at_end;
            assert(a[j].at <= a[a.len() - 1].at);
        }
        assert(at_instant(b, at_last) == at_instant(b.drop_last(), at_last).push(b.last()));
        assert(b.last() == last) by {
            assert(at_instant(a, at_last).last() == last);
            assert(at_instant(b, at_last).last() == b.last());
        }
        lemma_front_ascending(a);
        lemma_front_ascending(b);
        assert forall|at: int| #[trigger]
            at_instant(a.drop_last(), at) == at_instant(b.drop_last(), at) by {
            assert(at_instant(a, at) == at_instant(b, at));
            if at == at_last {
                assert(at_instant(a.drop_last(), at).push(last).drop_last() == at_instant(
                    a.drop_last(),
                    at,
                ));
                assert(at_instant(b.drop_last(), at).push(last).drop_last() == at_instant(
                    b.drop_last(),
                    at,
                ));
            }
        }
        lemma_same_at_every_instant(a.drop_last(), b.drop_last());
        assert(a == a.drop_last().push(last));
        assert(b == b.drop_last().push(last));
    }
}

/// Sorting by time has one result: what came first among messages that are due
/// at the same instant stays first, and that leaves no choice.
pub proof fn lemma_stable_sort_is_unique(
    a: Seq<MessageView>,
    b: Seq<MessageView>,
    given: Seq<MessageView>,
)
    requires
        is_stable_sort_of(a, given),
        is_stable_sort_of(b, given),
    ensures
        a == b,
{
    assert forall|at: int| #[trigger] at_instant(a, at) == at_instant(b, at) by {
        assert(at_instant(a, at) == at_instant(given, at));
        assert(at_instant(b, at) == at_instant(given, at));
    }
    lemma_same_at_every_instant(a, b);
}

/// A timeline that is in order of time already is its own sort.
pub proof fn lemma_sorted_stays(timeline: Seq<MessageView>)
    requires
        ascending(timeline),
    ensures
        is_stable_sort_of(timeline, timeline),
{
}

} // verus!
