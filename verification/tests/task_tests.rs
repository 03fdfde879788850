use todolist::task::{Priority, Status, Task};

const NOW: i64 = 1_736_467_200; // 2025-01-10T00:00:00Z

#[test]
fn new_task_has_documented_defaults() {
    let t = Task::new_at(7, "Buy milk".to_string(), NOW);
    assert_eq!(t.id, 7);
    assert_eq!(t.name, "Buy milk");
    assert!(matches!(t.status, Status::Pending));
    assert!(matches!(t.priority, Priority::Medium));
    assert_eq!(t.category, "General");
    assert_eq!(t.create_at, NOW);
    assert_eq!(t.update_at, NOW);
    assert_eq!(t.completed_at, None);
    assert_eq!(t.due_date, None);
    assert!(t.tags.is_empty());
}

#[test]
fn complete_stamps_both_timestamps() {
    let mut t = Task::new_at(1, "a".to_string(), NOW);
    t.complete_at(NOW + 10);
    assert!(matches!(t.status, Status::Completed));
    assert_eq!(t.completed_at, Some(NOW + 10));
    assert_eq!(t.update_at, NOW + 10);
}

#[test]
fn completing_twice_stays_completed() {
    let mut t = Task::new_at(1, "a".to_string(), NOW);
    t.complete_at(NOW + 10);
    t.complete_at(NOW + 20);
    assert!(matches!(t.status, Status::Completed));
    assert_eq!(t.completed_at, Some(NOW + 20));
}

#[test]
fn setters_replace_fields_and_stamp() {
    let mut t = Task::new_at(1, "a".to_string(), NOW);
    t.set_priority_at(Priority::High, NOW + 1);
    assert!(matches!(t.priority, Priority::High));
    assert_eq!(t.update_at, NOW + 1);
    t.set_category_at("Work".to_string(), NOW + 2);
    assert_eq!(t.category, "Work");
    assert_eq!(t.update_at, NOW + 2);
    t.set_due_date_at(NOW + 86_400, NOW + 3);
    assert_eq!(t.due_date, Some(NOW + 86_400));
    assert_eq!(t.update_at, NOW + 3);
}

#[test]
fn add_tag_ignores_duplicates_without_stamping() {
    let mut t = Task::new_at(1, "a".to_string(), NOW);
    t.add_tag_at("urgent".to_string(), NOW + 1);
    assert_eq!(t.tags, vec!["urgent".to_string()]);
    assert_eq!(t.update_at, NOW + 1);
    t.add_tag_at("urgent".to_string(), NOW + 2);
    assert_eq!(t.tags, vec!["urgent".to_string()]);
    assert_eq!(t.update_at, NOW + 1);
    t.add_tag_at("home".to_string(), NOW + 3);
    assert_eq!(t.tags, vec!["urgent".to_string(), "home".to_string()]);
    assert_eq!(t.update_at, NOW + 3);
}

#[test]
fn overdue_iff_pending_with_past_due_date() {
    let mut t = Task::new_at(1, "a".to_string(), NOW);
    assert!(!t.is_overdue_at(NOW));
    t.set_due_date_at(NOW - 1, NOW);
    assert!(t.is_overdue_at(NOW));
    assert!(!t.is_overdue_at(NOW - 2));
    t.complete_at(NOW);
    assert!(!t.is_overdue_at(NOW));
}

#[test]
fn due_date_equal_to_now_is_not_overdue() {
    let mut t = Task::new_at(1, "a".to_string(), NOW);
    t.set_due_date_at(NOW, NOW);
    assert!(!t.is_overdue_at(NOW));
}

#[test]
fn days_until_due_truncates_toward_zero() {
    let mut t = Task::new_at(1, "a".to_string(), NOW);
    assert_eq!(t.days_until_due_at(NOW), None);
    t.set_due_date_at(NOW + 3 * 86_400 + 5, NOW);
    assert_eq!(t.days_until_due_at(NOW), Some(3));
    t.set_due_date_at(NOW - 86_400 - 1, NOW);
    assert_eq!(t.days_until_due_at(NOW), Some(-1));
    t.set_due_date_at(NOW, NOW);
    assert_eq!(t.days_until_due_at(NOW), Some(0));
}

#[test]
fn priority_from_str_ignores_ascii_case() {
    assert!(matches!(Priority::from_str("low"), Ok(Priority::Low)));
    assert!(matches!(Priority::from_str("L"), Ok(Priority::Low)));
    assert!(matches!(Priority::from_str("MEDIUM"), Ok(Priority::Medium)));
    assert!(matches!(Priority::from_str("med"), Ok(Priority::Medium)));
    assert!(matches!(Priority::from_str("High"), Ok(Priority::High)));
    assert!(matches!(Priority::from_str("h"), Ok(Priority::High)));
    let e = Priority::from_str("critical");
    assert!(matches!(e, Err(ref m) if m == "Invalid priority"));
    assert!(Priority::from_str("nothing").is_err());
    assert!(Priority::from_str("").is_err());
}

#[test]
fn ambient_clock_task_operations_run() {
    let mut t = Task::new(1, "a".to_string());
    assert!(matches!(t.status, Status::Pending));
    assert!(t.create_at >= 0);
    assert_eq!(t.create_at, t.update_at);
    assert!(!t.is_overdue());
    assert_eq!(t.days_until_due(), None);
    t.complete();
    assert!(matches!(t.status, Status::Completed));
    assert!(t.completed_at.is_some());
}

#[test]
fn labels_and_severity() {
    assert_eq!(Status::Pending.label(), "Pending");
    assert_eq!(Status::Completed.label(), "Completed");
    assert_eq!(Priority::Low.label(), "Low");
    assert_eq!(Priority::Medium.label(), "Medium");
    assert_eq!(Priority::High.label(), "High");
    assert_eq!(Priority::Critical.label(), "Critical");
    assert!(Priority::Low.severity() < Priority::Medium.severity());
    assert!(Priority::Medium.severity() < Priority::High.severity());
    assert!(Priority::High.severity() < Priority::Critical.severity());
}
