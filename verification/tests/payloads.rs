use task_server::auth::routers::signup::CreateUser;
use task_server::auth::routes::signup::CreateUser as CurrentCreateUser;
use task_server::task::{CreateTask, TaskStatus, UpdateTask};

#[test]
fn task_status_from_a_stored_name() {
    assert_eq!(TaskStatus::from("Done".to_string()), TaskStatus::Done);
    assert_eq!(TaskStatus::from("Todo".to_string()), TaskStatus::Todo);
    assert_eq!(TaskStatus::from("done".to_string()), TaskStatus::Todo);
    assert_eq!(TaskStatus::from(String::new()), TaskStatus::Todo);
}

#[test]
fn task_status_defaults_to_todo() {
    assert_eq!(TaskStatus::default(), TaskStatus::Todo);
}

#[test]
fn create_task_title_length() {
    assert!(!CreateTask { title: String::new() }.validate());
    assert!(CreateTask { title: "a".to_string() }.validate());
    assert!(CreateTask { title: "a".repeat(100) }.validate());
    assert!(!CreateTask { title: "a".repeat(101) }.validate());
    // Lengths count bytes: 33 three-byte characters fit, 34 do not.
    assert!(CreateTask { title: "あ".repeat(33) }.validate());
    assert!(!CreateTask { title: "あ".repeat(34) }.validate());
}

#[test]
fn update_task_title_and_description_length() {
    let done = TaskStatus::Done;
    assert!(UpdateTask { title: "t".to_string(), description: None, status: done }.validate());
    assert!(UpdateTask { title: "t".to_string(), description: Some(String::new()), status: done }.validate());
    assert!(!UpdateTask { title: String::new(), description: None, status: done }.validate());
    assert!(UpdateTask { title: "t".to_string(), description: Some("d".repeat(2000)), status: done }.validate());
    assert!(!UpdateTask { title: "t".to_string(), description: Some("d".repeat(2001)), status: done }.validate());
}

#[test]
fn create_user_name_length() {
    let profile = "p".repeat(600);
    assert!(!CreateUser { name: String::new(), profile: profile.clone() }.validate());
    assert!(CreateUser { name: "n".repeat(100), profile: profile.clone() }.validate());
    assert!(!CreateUser { name: "n".repeat(101), profile: String::new() }.validate());
    assert!(!CurrentCreateUser { name: String::new(), profile: String::new() }.validate());
    assert!(CurrentCreateUser { name: "name".to_string(), profile }.validate());
}
