use mqtt_actor::instant::Instant;
use mqtt_actor::loader::load_messages_at;
use mqtt_actor::message::Message;
use mqtt_actor::script::load_files;
use mqtt_actor::script::Scan;
use mqtt_actor::script::Script;
use mqtt_actor::timeline::due_messages;
use mqtt_actor::timeline::sort_by_time;
use mqtt_actor::timestamp::ScriptError;

fn start_plus_millis(millis: u64) -> Instant {
    let secs = (millis / 1000) as i64;
    let nanos = ((millis % 1000) * 1_000_000) as u32;
    Instant::from_parts(1_700_000_000 + secs, nanos).unwrap()
}

fn due_at(secs: i64, topic: &str, payload: &str) -> Message {
    Message {
        timestamp: Instant::from_parts(secs, 0).unwrap(),
        topic: topic.to_string(),
        payload: payload.to_string(),
    }
}

fn one_file(data: &str) -> Scan {
    Scan::Listed(vec![Some(data.as_bytes().to_vec())])
}

fn payloads(messages: &[Message]) -> Vec<String> {
    messages.iter().map(|m| m.payload.clone()).collect()
}

#[test]
fn script_poll() {
    let data = r##"
1 | test_topic | msg 1
1 | test_topic | msg 2
1 | test_topic | msg 3
1 | test_topic | msg 4
1 | test_topic | msg 5
"##;

    let start = start_plus_millis(0);
    let mut s = Script::new_at("", b'|', &Scan::Unreadable, start);
    s.replace_timeline(load_messages_at(b'|', data.as_bytes(), start));
    let messages = s.messages().clone();
    assert_eq!(messages.len(), 5);

    // t =   10
    assert_eq!(s.poll_at(start_plus_millis(10)), vec![]);

    // t = 1010
    assert_eq!(s.poll_at(start_plus_millis(1010)), vec![messages[0].clone()]);

    // t = 3010
    assert_eq!(
        s.poll_at(start_plus_millis(3010)),
        vec![messages[1].clone(), messages[2].clone()]
    );

    // t = 3510
    assert_eq!(s.poll_at(start_plus_millis(3010 + 500)), vec![]);

    // t = 4010
    assert_eq!(
        s.poll_at(start_plus_millis(3010 + 500 + 500)),
        vec![messages[3].clone()]
    );

    // t = 6010
    assert_eq!(s.poll_at(start_plus_millis(6010)), vec![messages[4].clone()]);

    // Nothing is left.
    assert_eq!(s.poll_at(start_plus_millis(60_000)), vec![]);
}

#[test]
fn five_rows_one_second_apart() {
    let data = "1|T|m1\n1|T|m2\n1|T|m3\n1|T|m4\n1|T|m5\n";
    let start = start_plus_millis(0);
    let mut s = Script::new_at("scripts", b'|', &one_file(data), start);
    assert_eq!(payloads(&s.poll_at(start_plus_millis(10))), Vec::<String>::new());
    assert_eq!(payloads(&s.poll_at(start_plus_millis(1010))), vec!["m1"]);
    assert_eq!(payloads(&s.poll_at(start_plus_millis(3010))), vec!["m2", "m3"]);
    assert_eq!(payloads(&s.poll_at(start_plus_millis(3510))), Vec::<String>::new());
    assert_eq!(payloads(&s.poll_at(start_plus_millis(4010))), vec!["m4"]);
    assert_eq!(payloads(&s.poll_at(start_plus_millis(6010))), vec!["m5"]);
}

#[test]
fn absolute_row_in_the_past_sorts_first() {
    let data = r##"
Mon, 28 Mar 2022 00:00:00 GMT | root/user-1 | msg 1
10                            | root/user-2 | msg 2
20                            | root/user-1 | msg 3
"##;
    let s = Script::new_at("scripts", b'|', &one_file(data), start_plus_millis(0));
    assert_eq!(
        s.messages(),
        &vec![
            due_at(1_648_425_600, "root/user-1", "msg 1"),
            due_at(1_648_425_610, "root/user-2", "msg 2"),
            due_at(1_648_425_630, "root/user-1", "msg 3"),
        ]
    );
}

#[test]
fn absolute_row_in_the_past_sorts_before_what_the_file_holds_first() {
    let data = "5|t|relative first\nMon, 28 Mar 2022 00:00:00 GMT|t|absolute\n10|t|after it\n";
    let s = Script::new_at("scripts", b'|', &one_file(data), start_plus_millis(0));
    assert_eq!(
        s.messages(),
        &vec![
            due_at(1_648_425_600, "t", "absolute"),
            due_at(1_648_425_610, "t", "after it"),
            due_at(1_700_000_005, "t", "relative first"),
        ]
    );
}

#[test]
fn new_script_keeps_what_it_was_given() {
    let start = start_plus_millis(250);
    let s = Script::new_at("some/dir", b';', &Scan::Unreadable, start);
    assert_eq!(s.source_dir(), "some/dir");
    assert_eq!(s.field_delimiter(), b';');
    assert_eq!(s.last_poll_time(), start);
    assert_eq!(s.messages(), &vec![]);
}

#[test]
fn new_script_reads_the_clock() {
    let before = mqtt_actor::clock::now();
    let s = Script::new("dir", b'|', &one_file("0|t|now\n"));
    let after = mqtt_actor::clock::now();
    assert!(before.is_at_or_before(&s.last_poll_time()));
    assert!(s.last_poll_time().is_at_or_before(&after));
    assert_eq!(s.messages().len(), 1);
    assert_eq!(s.messages()[0].timestamp, s.last_poll_time());
}

#[test]
fn poll_window_is_open_at_its_start_and_closed_at_its_end() {
    let start = start_plus_millis(0);
    let mut s = Script::new_at("", b'|', &one_file("0|t|at start\n1|t|one\n1|t|two\n"), start);
    // Due at the instant of the last poll: never handed out.
    assert_eq!(payloads(&s.poll_at(start_plus_millis(999))), Vec::<String>::new());
    // Due exactly at the instant of the poll: handed out.
    assert_eq!(payloads(&s.poll_at(start_plus_millis(1000))), vec!["one"]);
    assert_eq!(payloads(&s.poll_at(start_plus_millis(1000))), Vec::<String>::new());
    assert_eq!(payloads(&s.poll_at(start_plus_millis(2000))), vec!["two"]);
}

#[test]
fn poll_hands_out_each_message_once_and_in_order() {
    let data = "3|t|c\n-2|t|a\n1|t|b\n5|t|d\n0|t|e\n";
    let start = start_plus_millis(0);
    let mut s = Script::new_at("", b'|', &one_file(data), start);
    // Due at 3, 1, 2, 7, 7 seconds after the start.
    assert_eq!(payloads(s.messages()), vec!["a", "b", "c", "d", "e"]);
    let mut all: Vec<Message> = Vec::new();
    for millis in [500, 1500, 1500, 1000, 2999, 3000, 10_000, 9_000, 20_000] {
        all.extend(s.poll_at(start_plus_millis(millis)));
    }
    assert_eq!(&all, s.messages());
}

#[test]
fn poll_never_moves_the_cursor_back() {
    let start = start_plus_millis(0);
    let mut s = Script::new_at("", b'|', &one_file("1|t|one\n1|t|two\n"), start);
    assert_eq!(payloads(&s.poll_at(start_plus_millis(1500))), vec!["one"]);
    assert_eq!(s.last_poll_time(), start_plus_millis(1500));
    assert_eq!(payloads(&s.poll_at(start_plus_millis(500))), Vec::<String>::new());
    assert_eq!(s.last_poll_time(), start_plus_millis(1500));
    assert_eq!(payloads(&s.poll_at(start_plus_millis(1500))), Vec::<String>::new());
    assert_eq!(payloads(&s.poll_at(start_plus_millis(2000))), vec!["two"]);
    assert_eq!(s.last_poll_time(), start_plus_millis(2000));
}

#[test]
fn poll_by_the_clock() {
    let mut s = Script::new("", b'|', &one_file("-5|t|past\n3600|t|far\n"));
    assert_eq!(s.poll(), vec![]);
    let before = s.last_poll_time();
    assert_eq!(s.poll(), vec![]);
    assert!(before.is_at_or_before(&s.last_poll_time()));
    assert_eq!(s.messages().len(), 2);
}

#[test]
fn reload_keeps_the_cursor() {
    let start = start_plus_millis(0);
    let mut s = Script::new_at("", b'|', &one_file("1|t|one\n1|t|two\n1|t|three\n"), start);
    assert_eq!(payloads(&s.poll_at(start_plus_millis(2500))), vec!["one", "two"]);

    // The new script holds a row that is due before the last poll and was in no
    // timeline before: it is never handed out.
    let edited = "1|t|one\n0|t|new and early\n1|t|two\n1|t|three\n";
    assert_eq!(s.reload_at(&one_file(edited), start), Ok(()));
    assert_eq!(s.last_poll_time(), start_plus_millis(2500));
    assert_eq!(payloads(s.messages()), vec!["one", "new and early", "two", "three"]);
    assert_eq!(payloads(&s.poll_at(start_plus_millis(2600))), Vec::<String>::new());
    assert_eq!(payloads(&s.poll_at(start_plus_millis(10_000))), vec!["three"]);
}

#[test]
fn reload_at_a_later_instant_moves_relative_rows() {
    let start = start_plus_millis(0);
    let mut s = Script::new_at("", b'|', &one_file("1|t|one\n1|t|two\n"), start);
    assert_eq!(payloads(&s.poll_at(start_plus_millis(1500))), vec!["one"]);
    assert_eq!(s.reload_at(&one_file("1|t|one\n1|t|two\n"), start_plus_millis(5000)), Ok(()));
    assert_eq!(payloads(&s.poll_at(start_plus_millis(5500))), Vec::<String>::new());
    assert_eq!(payloads(&s.poll_at(start_plus_millis(6000))), vec!["one"]);
    assert_eq!(payloads(&s.poll_at(start_plus_millis(7000))), vec!["two"]);
}

#[test]
fn reload_of_an_unreadable_directory_keeps_the_timeline() {
    let start = start_plus_millis(0);
    let mut s = Script::new_at("", b'|', &one_file("1|t|one\n1|t|two\n"), start);
    let held = s.messages().clone();
    assert_eq!(s.reload_at(&Scan::Unreadable, start_plus_millis(500)), Err(ScriptError::Reload));
    assert_eq!(s.messages(), &held);
    assert_eq!(s.last_poll_time(), start);
    assert_eq!(s.reload(&Scan::Unreadable), Err(ScriptError::Reload));
    assert_eq!(s.messages(), &held);
    assert_eq!(payloads(&s.poll_at(start_plus_millis(1000))), vec!["one"]);
}

#[test]
fn reload_replaces_the_whole_timeline() {
    let start = start_plus_millis(0);
    let mut s = Script::new_at("", b'|', &one_file("1|t|one\n1|t|two\n"), start);
    assert_eq!(s.reload_at(&one_file("7|t|other\n"), start), Ok(()));
    assert_eq!(payloads(s.messages()), vec!["other"]);
    assert_eq!(s.reload_at(&Scan::Listed(vec![]), start), Ok(()));
    assert_eq!(s.messages(), &vec![]);
    assert_eq!(s.reload(&one_file("60|t|by the clock\n")), Ok(()));
    assert_eq!(payloads(s.messages()), vec!["by the clock"]);
}

#[test]
fn files_are_merged_in_order_of_time() {
    let scan = Scan::Listed(vec![
        Some(b"2|a|a2\n2|a|a4\n".to_vec()),
        None,
        Some(b"not a script at all".to_vec()),
        Some(b"1|b|b1\n1|b|b2\n1|b|b3\n".to_vec()),
        Some(Vec::new()),
    ]);
    let start = start_plus_millis(0);
    let s = Script::new_at("", b'|', &scan, start);
    // Each file starts from the instant of the load. Where two messages are due
    // at the same instant, the file that was met first comes first.
    assert_eq!(payloads(s.messages()), vec!["b1", "a2", "b2", "b3", "a4"]);
}

#[test]
fn load_files_puts_file_after_file() {
    let files = vec![
        Some(b"2|a|a2\n2|a|a4\n".to_vec()),
        None,
        Some(b"1|b|b1\n".to_vec()),
    ];
    let got = load_files(b'|', &files, Instant::from_parts(0, 0).unwrap());
    assert_eq!(
        got,
        vec![due_at(2, "a", "a2"), due_at(4, "a", "a4"), due_at(1, "b", "b1")]
    );
    assert_eq!(load_files(b'|', &vec![], Instant::from_parts(0, 0).unwrap()), vec![]);
}

#[test]
fn sort_is_stable() {
    let given = vec![
        due_at(5, "t", "5 first"),
        due_at(3, "t", "3 first"),
        due_at(5, "t", "5 second"),
        due_at(1, "t", "1"),
        due_at(3, "t", "3 second"),
        due_at(5, "t", "5 third"),
        due_at(3, "t", "3 third"),
    ];
    assert_eq!(
        payloads(&sort_by_time(given)),
        vec!["1", "3 first", "3 second", "3 third", "5 first", "5 second", "5 third"]
    );
    assert_eq!(sort_by_time(vec![]), vec![]);
}

#[test]
fn sort_looks_at_nanoseconds() {
    let early = Message {
        timestamp: Instant::from_parts(7, 1).unwrap(),
        topic: "t".to_string(),
        payload: "early".to_string(),
    };
    let late = Message {
        timestamp: Instant::from_parts(7, 2).unwrap(),
        topic: "t".to_string(),
        payload: "late".to_string(),
    };
    assert_eq!(
        sort_by_time(vec![late.clone(), early.clone()]),
        vec![early, late]
    );
}

#[test]
fn sort_agrees_with_the_standard_stable_sort() {
    let mut given: Vec<Message> = Vec::new();
    let mut seed: u64 = 12345;
    for i in 0..200 {
        seed = seed.wrapping_mul(6364136223846793005).wrapping_add(1442695040888963407);
        let secs = ((seed >> 33) % 17) as i64;
        given.push(due_at(secs, "t", &format!("{}", i)));
    }
    let mut expected = given.clone();
    expected.sort_by_key(|m| m.timestamp.secs());
    assert_eq!(sort_by_time(given), expected);
}

#[test]
fn due_messages_keeps_the_order_it_is_given() {
    let held = vec![due_at(4, "t", "a"), due_at(2, "t", "b"), due_at(9, "t", "c"), due_at(3, "t", "d")];
    let after = Instant::from_parts(2, 0).unwrap();
    let until = Instant::from_parts(4, 0).unwrap();
    assert_eq!(payloads(&due_messages(&held, &after, &until)), vec!["a", "d"]);
    assert_eq!(payloads(&due_messages(&held, &until, &after)), Vec::<String>::new());
    assert_eq!(payloads(&due_messages(&held, &after, &after)), Vec::<String>::new());
}
