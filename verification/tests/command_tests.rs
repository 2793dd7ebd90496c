use rusty_tasks::commands::{
    command_add, command_complete, command_help, command_loadfile, command_remove,
    handle_command, list_task_commands, parse_input_commands, parse_usize, CommandOutcome,
    TASKCOM,
};
use rusty_tasks::datetime::Timestamp;
use rusty_tasks::task::{Task, TaskList};

fn ts(year: u32, month: u32, day: u32, hour: u32, minute: u32, second: u32) -> Timestamp {
    Timestamp { year, month, day, hour, minute, second }
}

fn store_of(names: &[&str]) -> TaskList {
    let mut tl = TaskList { tasks: Vec::new() };
    for n in names {
        tl.add_task(Task::new(false, String::from(*n))).unwrap();
    }
    tl
}

#[test]
fn parse_input_splits_command_and_args() {
    let (cmd, args) = parse_input_commands("add Buy milk,2024-03-30 12:00:00 -0500");
    assert_eq!(cmd, "add");
    assert_eq!(args, vec![String::from("Buy milk"), String::from("2024-03-30 12:00:00 -0500")]);

    let (cmd, args) = parse_input_commands("LIST");
    assert_eq!(cmd, "list");
    assert_eq!(args, vec![String::from("")]);

    let (cmd, args) = parse_input_commands("remove 2");
    assert_eq!(cmd, "remove");
    assert_eq!(args, vec![String::from("2")]);

    let (cmd, args) = parse_input_commands("help  add , extra ");
    assert_eq!(cmd, "help");
    assert_eq!(args, vec![String::from("add"), String::from("extra")]);
}

#[test]
fn from_str_reads_canonical_names() {
    assert!(matches!(TASKCOM::from_str("HELP"), Ok(TASKCOM::Help)));
    assert!(matches!(TASKCOM::from_str("LIST"), Ok(TASKCOM::List)));
    assert!(matches!(TASKCOM::from_str("ADD"), Ok(TASKCOM::Add)));
    assert!(matches!(TASKCOM::from_str("REMOVE"), Ok(TASKCOM::Remove)));
    assert!(matches!(TASKCOM::from_str("COMPLETE"), Ok(TASKCOM::Complete)));
    assert!(matches!(TASKCOM::from_str("EXIT"), Ok(TASKCOM::Exit)));
    assert!(matches!(TASKCOM::from_str("UNKNOWN"), Ok(TASKCOM::Unknown)));
    assert!(TASKCOM::from_str("help").is_err());
    assert!(TASKCOM::from_str("banana").is_err());
}

#[test]
fn command_names_and_listing() {
    assert_eq!(TASKCOM::Complete.com_string(), "COMPLETE");
    assert_eq!(TASKCOM::into_iter().len(), 7);
    assert_eq!(TASKCOM::into_iter_client().len(), 6);
    assert_eq!(list_task_commands(), "HELP, LIST, ADD, REMOVE, COMPLETE, EXIT");
}

#[test]
fn help_texts() {
    let general = command_help(None).unwrap();
    assert!(general.contains("HELP, LIST, ADD, REMOVE, COMPLETE, EXIT"));
    assert_eq!(command_help(Some(String::from(""))).unwrap(), general);
    assert!(command_help(Some(String::from("add"))).unwrap().contains("ADD"));
    assert!(command_help(Some(String::from("remove"))).unwrap().contains("remove 1"));
    assert_eq!(
        command_help(Some(String::from("bogus"))),
        Err(String::from("Invalid HELP command please try again."))
    );
}

#[test]
fn add_appends_task() {
    let mut tl = store_of(&["a"]);
    command_add(&mut tl, String::from("Buy milk"), String::new()).unwrap();
    assert_eq!(tl.tasks.len(), 2);
    assert_eq!(tl.tasks[1].data, "Buy milk");
    assert!(!tl.tasks[1].completed);
    assert_eq!(tl.tasks[1].due_date, None);
}

#[test]
fn add_rejects_empty_description() {
    let mut tl = store_of(&["a"]);
    assert_eq!(
        command_add(&mut tl, String::new(), String::new()),
        Err(String::from("Invalid ADD command please try again."))
    );
    assert_eq!(tl.tasks.len(), 1);
}

#[test]
fn add_reads_due_date_as_written_date_at_midnight() {
    let mut tl = TaskList { tasks: Vec::new() };
    command_add(
        &mut tl,
        String::from("Testing"),
        String::from("2024-03-30 12:00:00 -0500"),
    )
    .unwrap();
    assert_eq!(tl.tasks[0].due_date, Some(ts(2024, 3, 30, 0, 0, 0)));
}

#[test]
fn add_falls_back_to_epoch_on_bad_date() {
    let mut tl = TaskList { tasks: Vec::new() };
    command_add(&mut tl, String::from("Testing"), String::from("tomorrow")).unwrap();
    assert_eq!(tl.tasks[0].due_date, Some(ts(1970, 1, 1, 0, 0, 0)));
}

#[test]
fn remove_uses_one_based_numbers() {
    let mut tl = store_of(&["a", "b", "c"]);
    command_remove(&mut tl, 2).unwrap();
    assert_eq!(tl.tasks.len(), 2);
    assert_eq!(tl.tasks[0].data, "a");
    assert_eq!(tl.tasks[1].data, "c");
    let msg = "Invalid REMOVE command please try again.";
    assert_eq!(command_remove(&mut tl, 0).unwrap_err(), msg);
    assert_eq!(command_remove(&mut tl, 3).unwrap_err(), msg);
    assert_eq!(tl.tasks.len(), 2);
}

#[test]
fn complete_toggles_and_stamps() {
    let mut tl = store_of(&["a"]);
    command_complete(&mut tl, 1).unwrap();
    assert!(tl.tasks[0].completed);
    assert!(tl.tasks[0].completed_date.is_some());
    // Toggling back leaves the stale completion date, as the format expects.
    command_complete(&mut tl, 1).unwrap();
    assert!(!tl.tasks[0].completed);
    assert!(tl.tasks[0].completed_date.is_some());
    let msg = "Invalid COMPLETE command please try again.";
    assert_eq!(command_complete(&mut tl, 0).unwrap_err(), msg);
    assert_eq!(command_complete(&mut tl, 2).unwrap_err(), msg);
}

#[test]
fn handle_command_dispatches() {
    let mut tl = store_of(&["a", "b"]);

    let r = handle_command(TASKCOM::List, vec![String::new()], &mut tl).unwrap();
    assert!(matches!(r, CommandOutcome::ShowList));

    let r = handle_command(TASKCOM::Help, vec![String::from("add")], &mut tl).unwrap();
    match r {
        CommandOutcome::ShowText(text) => assert!(text.contains("ADD")),
        _ => panic!("help must show a text"),
    }

    let r = handle_command(
        TASKCOM::Add,
        vec![String::from("c"), String::from("")],
        &mut tl,
    )
    .unwrap();
    assert!(matches!(r, CommandOutcome::SaveAndList));
    assert_eq!(tl.tasks.len(), 3);

    let r = handle_command(TASKCOM::Remove, vec![String::from("3")], &mut tl).unwrap();
    assert!(matches!(r, CommandOutcome::SaveAndList));
    assert_eq!(tl.tasks.len(), 2);

    let r = handle_command(TASKCOM::Complete, vec![String::from("1")], &mut tl).unwrap();
    assert!(matches!(r, CommandOutcome::SaveAndList));
    assert!(tl.tasks[0].completed);

    let r = handle_command(TASKCOM::Exit, vec![String::new()], &mut tl).unwrap();
    assert!(matches!(r, CommandOutcome::Exit));

    assert_eq!(
        handle_command(TASKCOM::Unknown, vec![String::new()], &mut tl).unwrap_err(),
        "Invalid command. Try 'help' for a list of commands."
    );
    assert_eq!(
        handle_command(TASKCOM::Remove, vec![String::from("zero")], &mut tl).unwrap_err(),
        "Invalid REMOVE command please try again."
    );
    assert_eq!(
        handle_command(TASKCOM::Complete, vec![String::from("0")], &mut tl).unwrap_err(),
        "Invalid COMPLETE command please try again."
    );
}

#[test]
fn parse_usize_reads_plain_decimals() {
    assert_eq!(parse_usize(&String::from("0")), Some(0));
    assert_eq!(parse_usize(&String::from("123")), Some(123));
    assert_eq!(parse_usize(&String::from("")), None);
    assert_eq!(parse_usize(&String::from("12a")), None);
    assert_eq!(parse_usize(&String::from("-1")), None);
    assert_eq!(parse_usize(&String::from("999999999999999999999999999999")), None);
}

#[test]
fn loadfile_validates_and_sets_default_path() {
    let mut path = String::from("data/tasklist.md");
    command_loadfile(&mut path, String::from("data/other.md")).unwrap();
    assert_eq!(path, "data/other.md");
    let msg = "Invalid filepath provided for command_saveas.";
    assert_eq!(command_loadfile(&mut path, String::new()).unwrap_err(), msg);
    assert_eq!(command_loadfile(&mut path, String::from("/")).unwrap_err(), msg);
    assert_eq!(path, "data/other.md");
}
