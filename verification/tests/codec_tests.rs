use rusty_tasks::codec::{convert_stringtotl, convert_tltostring};
use rusty_tasks::datetime::Timestamp;
use rusty_tasks::task::{Task, TaskList};

fn ts(year: u32, month: u32, day: u32, hour: u32, minute: u32, second: u32) -> Timestamp {
    Timestamp { year, month, day, hour, minute, second }
}

/// A store with one dateless task serializes to exactly the documented line.
#[test]
fn serialize_example() {
    let tl = TaskList { tasks: vec![Task::new(false, String::from("Buy milk"))] };
    let text = convert_tltostring(tl);
    assert_eq!(text, "# TaskList:\r\n - [ ] [Due: ] [Completed: ] Buy milk\r\n");
}

/// A completed task carries the check mark.
#[test]
fn serialize_completed_mark() {
    let tl = TaskList { tasks: vec![Task::new(true, String::from("done thing"))] };
    let text = convert_tltostring(tl);
    assert_eq!(text, "# TaskList:\r\n - [\u{221a}] [Due: ] [Completed: ] done thing\r\n");
}

/// Serializing and deserializing reproduces count, descriptions, flags and
/// timestamps, whatever the machine's timezone renders them as.
#[test]
fn round_trip_with_dates() {
    let mut task = Task::new(true, String::from("with dates"));
    task.due_date = Some(ts(2024, 3, 30, 12, 0, 0));
    task.completed_date = Some(ts(2024, 4, 1, 23, 59, 59));
    let mut other = Task::new(false, String::from("no dates"));
    other.due_date = Some(ts(1999, 12, 31, 0, 0, 30));
    let tl = TaskList { tasks: vec![task, other] };

    let text = convert_tltostring(tl.clone());
    let back = convert_stringtotl(text);

    assert_eq!(back.tasks.len(), 2);
    assert!(back.tasks[0].completed);
    assert_eq!(back.tasks[0].data, "with dates");
    assert_eq!(back.tasks[0].due_date, Some(ts(2024, 3, 30, 12, 0, 0)));
    assert_eq!(back.tasks[0].completed_date, Some(ts(2024, 4, 1, 23, 59, 59)));
    assert!(!back.tasks[1].completed);
    assert_eq!(back.tasks[1].data, "no dates");
    assert_eq!(back.tasks[1].due_date, Some(ts(1999, 12, 31, 0, 0, 30)));
    assert_eq!(back.tasks[1].completed_date, None);
}

/// A round trip over an empty store yields an empty store.
#[test]
fn round_trip_empty() {
    let tl = TaskList { tasks: Vec::new() };
    let back = convert_stringtotl(convert_tltostring(tl));
    assert_eq!(back.tasks.len(), 0);
}

/// Conversions both ways over a small mixed store.
#[test]
fn convert_both_ways() {
    let mut tl = TaskList { tasks: Vec::new() };
    let _ = tl.add_task(Task::new(false, "test".to_string()));
    let _ = tl.add_task(Task::new(true, "test2".to_string()));
    let _ = tl.add_task(Task::new(true, "test3".to_string()));
    let string_tasklist = convert_tltostring(tl.clone());
    let back = convert_stringtotl(string_tasklist);
    assert_eq!(back.tasks.len(), 3);
    assert_eq!(back.tasks[0].data, "test");
    assert!(!back.tasks[0].completed);
    assert!(back.tasks[1].completed && back.tasks[2].completed);
    // The two completed tasks lacked completion dates; loading repairs them.
    assert!(back.tasks[1].completed_date.is_some());
    assert!(back.tasks[2].completed_date.is_some());
}

/// A checked record with an empty completion field gains a completion date.
#[test]
fn reconciliation_fills_completed_date() {
    let text = "# TaskList:\r\n - [\u{221a}] [Due: ] [Completed: ] old record\r\n";
    let tl = convert_stringtotl(String::from(text));
    assert_eq!(tl.tasks.len(), 1);
    assert!(tl.tasks[0].completed);
    assert!(tl.tasks[0].completed_date.is_some());
}

/// An unchecked record keeps its absent completion date.
#[test]
fn no_reconciliation_when_unchecked() {
    let text = "# TaskList:\r\n - [ ] [Due: ] [Completed: ] open record\r\n";
    let tl = convert_stringtotl(String::from(text));
    assert_eq!(tl.tasks.len(), 1);
    assert!(!tl.tasks[0].completed);
    assert_eq!(tl.tasks[0].completed_date, None);
}

/// Garbage lines are dropped; well-formed records around them survive.
#[test]
fn malformed_line_tolerance() {
    let text = "# TaskList:\r\n - [ ] [Due: ] [Completed: ] good one\r\nnot a task line\r\n";
    let tl = convert_stringtotl(String::from(text));
    assert_eq!(tl.tasks.len(), 1);
    assert_eq!(tl.tasks[0].data, "good one");
}

/// Everything before the header line is ignored.
#[test]
fn lines_before_header_ignored() {
    let text =
        " - [ ] [Due: ] [Completed: ] too early\r\n# TaskList:\r\n - [ ] [Due: ] [Completed: ] counted\r\n";
    let tl = convert_stringtotl(String::from(text));
    assert_eq!(tl.tasks.len(), 1);
    assert_eq!(tl.tasks[0].data, "counted");
}

/// An empty document, or one without the header, yields the empty store.
#[test]
fn empty_or_headerless_source() {
    assert_eq!(convert_stringtotl(String::new()).tasks.len(), 0);
    assert_eq!(convert_stringtotl(String::from("no header here\r\nat all")).tasks.len(), 0);
}

/// Date fields are read back as the written instant shifted to UTC.
#[test]
fn parse_dates_with_offsets() {
    let text = "# TaskList:\r\n - [ ] [Due: 2024-03-30 12:00:00 +0000] [Completed: ] a\r\n - [ ] [Due: 2024-03-30 12:00:00 -0500] [Completed: ] b\r\n - [ ] [Due: 2024-03-30 12:00:00 +05:30] [Completed: ] c\r\n";
    let tl = convert_stringtotl(String::from(text));
    assert_eq!(tl.tasks.len(), 3);
    assert_eq!(tl.tasks[0].due_date, Some(ts(2024, 3, 30, 12, 0, 0)));
    assert_eq!(tl.tasks[1].due_date, Some(ts(2024, 3, 30, 17, 0, 0)));
    assert_eq!(tl.tasks[2].due_date, Some(ts(2024, 3, 30, 6, 30, 0)));
}

/// An offset crossing midnight shifts the calendar date.
#[test]
fn parse_date_midnight_carry() {
    let text = "# TaskList:\r\n - [ ] [Due: 2024-03-01 00:30:00 +0100] [Completed: ] x\r\n";
    let tl = convert_stringtotl(String::from(text));
    assert_eq!(tl.tasks[0].due_date, Some(ts(2024, 2, 29, 23, 30, 0)));
}

/// A date field that does not match the pattern reads as absent.
#[test]
fn unparsable_date_reads_as_absent() {
    let text = "# TaskList:\r\n - [ ] [Due: 2024-99-99 12:00:00 +0000] [Completed: ] x\r\n - [ ] [Due: next week] [Completed: ] y\r\n";
    let tl = convert_stringtotl(String::from(text));
    assert_eq!(tl.tasks.len(), 2);
    assert_eq!(tl.tasks[0].due_date, None);
    assert_eq!(tl.tasks[1].due_date, None);
}

/// Timestamps at the very edges of the supported calendar still round-trip:
/// when shifting into local time would leave the calendar, the codec
/// renders them unshifted with a zero offset.
#[test]
fn round_trip_extreme_dates() {
    let mut first = Task::new(false, String::from("earliest"));
    first.due_date = Some(ts(0, 1, 1, 0, 0, 0));
    let mut last = Task::new(false, String::from("latest"));
    last.due_date = Some(ts(9999, 12, 31, 23, 59, 59));
    let mut leap = Task::new(false, String::from("leap day"));
    leap.due_date = Some(ts(2024, 2, 29, 12, 0, 0));
    let tl = TaskList { tasks: vec![first, last, leap] };

    let back = convert_stringtotl(convert_tltostring(tl));
    assert_eq!(back.tasks[0].due_date, Some(ts(0, 1, 1, 0, 0, 0)));
    assert_eq!(back.tasks[1].due_date, Some(ts(9999, 12, 31, 23, 59, 59)));
    assert_eq!(back.tasks[2].due_date, Some(ts(2024, 2, 29, 12, 0, 0)));
}

/// Only the full CRLF pair delimits records: a lone carriage return inside
/// a description is ordinary text and survives the round trip.
#[test]
fn round_trip_lone_carriage_return_in_data() {
    let tl = TaskList { tasks: vec![Task::new(false, String::from("odd\rchar"))] };
    let back = convert_stringtotl(convert_tltostring(tl));
    assert_eq!(back.tasks.len(), 1);
    assert_eq!(back.tasks[0].data, "odd\rchar");
}
