use rand::Rng;
use rusty_tasks::task::{Task, TaskList};

/// Generates a list of fake Tasks for testing.
fn create_mocklist(num: i32) -> Vec<Task> {
    assert!(num > 0, "num must be a positive integer");
    (1..=num).map(|i| Task::new(false, format!("Mock Task {}", i))).collect()
}

/// Prepares mock data and runs some tests.
#[test]
fn test_runmocktrial() {
    let mock_tasks = create_mocklist(10);
    let mut task_list = TaskList { tasks: mock_tasks.to_vec() };

    let initial_length = task_list.tasks.len();

    let random_task = rand::thread_rng().gen_range(0..task_list.tasks.len());
    let _ = task_list.delete_task(random_task);
    assert_eq!(task_list.tasks.len(), initial_length - 1);
    // Verify tasklist random index is either gone or does not match deleted task
    if random_task < task_list.tasks.len() {
        assert!(!task_list.tasks.iter().any(|t| task_list.tasks[random_task].data != t.data
            && task_list.tasks[random_task].completed != t.completed));
    }

    let random_task2 = rand::thread_rng().gen_range(0..task_list.tasks.len());
    let original_completed_state = task_list.tasks[random_task2].completed;

    let _ = task_list.toggle_completed_task(random_task2);
    let updated_completed_state = task_list.tasks[random_task2].completed;

    // Assert that the completed state is inverted
    assert_ne!(original_completed_state, updated_completed_state);

    let temp_data = String::from("Test Task 1");
    let temp_task = Task::new(false, temp_data);
    let added_task_index = task_list.add_task(temp_task).unwrap();
    // Assert that the task is present in the list at the returned index
    assert!(added_task_index < task_list.tasks.len(), "Invalid index returned.");
    assert_eq!(task_list.tasks[added_task_index].data, "Test Task 1");
}

#[test]
fn test_createmocklist() {
    let num = 5;
    let mock_tasks = create_mocklist(num);

    assert_eq!(num, mock_tasks.len() as i32);
}

/// Removing and toggling succeed exactly on indices below the length.
#[test]
fn index_validity() {
    let mut tl = TaskList { tasks: create_mocklist(3) };
    assert!(tl.toggle_completed_task(0).is_ok());
    assert!(tl.toggle_completed_task(2).is_ok());
    assert_eq!(tl.toggle_completed_task(3), Err(String::from("Invalid index.")));
    assert_eq!(tl.toggle_completed_task(7), Err(String::from("Invalid index.")));
    assert!(tl.delete_task(2).is_ok());
    // The list now has two tasks: index 2 is out of range again.
    assert_eq!(tl.delete_task(2), Err(String::from("Invalid index.")));
    assert!(tl.delete_task(0).is_ok());
}

/// After a removal every later task moves down one place, unchanged.
#[test]
fn shift_on_remove() {
    let mut tl = TaskList { tasks: Vec::new() };
    for name in ["first", "second", "third", "fourth"] {
        tl.add_task(Task::new(false, String::from(name))).unwrap();
    }
    tl.toggle_completed_task(3).unwrap();
    tl.delete_task(1).unwrap();
    assert_eq!(tl.tasks.len(), 3);
    assert_eq!(tl.tasks[0].data, "first");
    assert_eq!(tl.tasks[1].data, "third");
    assert_eq!(tl.tasks[2].data, "fourth");
    assert!(tl.tasks[2].completed);
}

/// Toggling the same task twice restores its completion flag.
#[test]
fn toggle_twice_restores() {
    let mut tl = TaskList { tasks: create_mocklist(2) };
    tl.toggle_completed_task(1).unwrap();
    assert!(tl.tasks[1].completed);
    tl.toggle_completed_task(1).unwrap();
    assert!(!tl.tasks[1].completed);
    assert!(!tl.tasks[0].completed);
}

/// An append reports the new task's zero-based position.
#[test]
fn add_returns_position() {
    let mut tl = TaskList { tasks: Vec::new() };
    assert_eq!(tl.add_task(Task::new(false, String::from("a"))), Ok(0));
    assert_eq!(tl.add_task(Task::new(true, String::from("b"))), Ok(1));
    assert!(tl.tasks[1].completed);
    assert_eq!(tl.tasks[1].due_date, None);
    assert_eq!(tl.tasks[1].completed_date, None);
}
