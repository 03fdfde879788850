use todolist::cli::StatusFilter;
use todolist::error::TodoError;
use todolist::store::TodoManager;
use todolist::task::{Priority, Status, Task};

const NOW: i64 = 1_736_467_200; // 2025-01-10T00:00:00Z

#[test]
fn add_task_with_no_optional_fields_uses_defaults() {
    let mut m = TodoManager::new();
    let id = m.add_task_at("Buy milk", None, None, None, None, NOW).unwrap();
    assert_eq!(id, 1);
    let t = m.get_task(1).unwrap();
    assert_eq!(t.name, "Buy milk");
    assert!(matches!(t.priority, Priority::Medium));
    assert_eq!(t.category, "General");
    assert!(matches!(t.status, Status::Pending));
    assert_eq!(t.due_date, None);
    assert!(t.tags.is_empty());
}

#[test]
fn ids_are_assigned_strictly_increasing() {
    let mut m = TodoManager::new();
    let a = m.add_task_at("a", None, None, None, None, NOW).unwrap();
    let b = m.add_task_at("b", None, None, None, None, NOW).unwrap();
    let c = m.add_task_at("c", None, None, None, None, NOW).unwrap();
    assert!(a < b && b < c);
    assert_eq!((a, b, c), (1, 2, 3));
    m.remove_task(2).unwrap();
    let d = m.add_task_at("d", None, None, None, None, NOW).unwrap();
    assert_eq!(d, 4);
}

#[test]
fn add_task_applies_optional_fields() {
    let mut m = TodoManager::new();
    let id = m
        .add_task_at(
            "report",
            Some(Priority::High),
            Some("Work"),
            Some("+3"),
            Some("urgent, office ,urgent"),
            NOW,
        )
        .unwrap();
    let t = m.get_task(id).unwrap();
    assert!(matches!(t.priority, Priority::High));
    assert_eq!(t.category, "Work");
    assert_eq!(t.due_date, Some(NOW + 3 * 86_400));
    assert_eq!(t.tags, vec!["urgent".to_string(), "office".to_string()]);
    assert_eq!(t.create_at, NOW);
    assert_eq!(t.update_at, NOW);
}

#[test]
fn add_task_with_bad_due_date_adds_nothing() {
    let mut m = TodoManager::new();
    let r = m.add_task_at("a", None, None, Some("soon"), None, NOW);
    match r {
        Err(TodoError::InvalidDate(s)) => assert_eq!(s, "soon"),
        other => panic!("expected InvalidDate, got {:?}", other),
    }
    assert!(m.list_tasks().is_empty());
    let id = m.add_task_at("a", None, None, None, None, NOW).unwrap();
    assert_eq!(id, 1);
}

#[test]
fn complete_task_is_one_way_and_restamps() {
    let mut m = TodoManager::new();
    let id = m.add_task_at("a", None, None, None, None, NOW).unwrap();
    m.complete_task_at(id, NOW + 5).unwrap();
    {
        let t = m.get_task(id).unwrap();
        assert!(matches!(t.status, Status::Completed));
        assert_eq!(t.completed_at, Some(NOW + 5));
    }
    m.complete_task_at(id, NOW + 9).unwrap();
    let t = m.get_task(id).unwrap();
    assert!(matches!(t.status, Status::Completed));
    assert_eq!(t.completed_at, Some(NOW + 9));
}

#[test]
fn operations_on_unknown_ids_leave_the_store_unchanged() {
    let mut m = TodoManager::new();
    m.add_task_at("a", None, None, None, None, NOW).unwrap();
    assert!(matches!(m.remove_task(77), Err(TodoError::TaskNotFound(77))));
    assert!(matches!(m.complete_task_at(77, NOW), Err(TodoError::TaskNotFound(77))));
    assert!(matches!(
        m.edit_task_at(77, Some("x".to_string()), None, None, None, NOW),
        Err(TodoError::TaskNotFound(77))
    ));
    assert_eq!(m.list_tasks().len(), 1);
    let t = m.get_task(1).unwrap();
    assert_eq!(t.name, "a");
    assert!(matches!(t.status, Status::Pending));
}

#[test]
fn edit_applies_only_supplied_fields() {
    let mut m = TodoManager::new();
    let id = m
        .add_task_at("a", Some(Priority::Low), Some("Home"), Some("+1"), None, NOW)
        .unwrap();
    m.edit_task_at(id, None, Some(Priority::Critical), None, None, NOW + 7).unwrap();
    let t = m.get_task(id).unwrap();
    assert_eq!(t.name, "a");
    assert!(matches!(t.priority, Priority::Critical));
    assert_eq!(t.category, "Home");
    assert_eq!(t.due_date, Some(NOW + 86_400));
    assert_eq!(t.update_at, NOW + 7);
}

#[test]
fn edit_with_empty_due_date_clears_it() {
    let mut m = TodoManager::new();
    let id = m.add_task_at("a", None, None, Some("+1"), None, NOW).unwrap();
    m.edit_task_at(id, None, None, None, Some(String::new()), NOW + 1).unwrap();
    let t = m.get_task(id).unwrap();
    assert_eq!(t.due_date, None);
}

#[test]
fn edit_with_bad_due_date_changes_nothing_at_all() {
    let mut m = TodoManager::new();
    let id = m.add_task_at("a", None, None, None, None, NOW).unwrap();
    let r = m.edit_task_at(
        id,
        Some("new name".to_string()),
        Some(Priority::High),
        Some("Work".to_string()),
        Some("garbage".to_string()),
        NOW + 1,
    );
    match r {
        Err(TodoError::InvalidDate(s)) => assert_eq!(s, "garbage"),
        other => panic!("expected InvalidDate, got {:?}", other),
    }
    let t = m.get_task(id).unwrap();
    assert_eq!(t.name, "a");
    assert!(matches!(t.priority, Priority::Medium));
    assert_eq!(t.category, "General");
    assert_eq!(t.update_at, NOW);
}

#[test]
fn list_tasks_is_ordered_by_id() {
    let mut m = TodoManager::new();
    m.add_task_at("a", None, None, None, None, NOW).unwrap();
    m.add_task_at("b", None, None, None, None, NOW).unwrap();
    m.add_task_at("c", None, None, None, None, NOW).unwrap();
    let ids: Vec<u64> = m.list_tasks().iter().map(|t| t.id).collect();
    assert_eq!(ids, vec![1, 2, 3]);
}

#[test]
fn categories_are_deduplicated_and_sorted() {
    let mut m = TodoManager::new();
    m.add_task_at("a", None, Some("Work"), None, None, NOW).unwrap();
    m.add_task_at("b", None, Some("Work"), None, None, NOW).unwrap();
    assert_eq!(m.get_categories(), vec!["Work".to_string()]);
    m.add_task_at("c", None, None, None, None, NOW).unwrap();
    m.add_task_at("d", None, Some("Errands"), None, None, NOW).unwrap();
    assert_eq!(
        m.get_categories(),
        vec!["Errands".to_string(), "General".to_string(), "Work".to_string()]
    );
}

#[test]
fn tasks_by_category_matches_exactly() {
    let mut m = TodoManager::new();
    m.add_task_at("a", None, Some("Work"), None, None, NOW).unwrap();
    m.add_task_at("b", None, Some("work"), None, None, NOW).unwrap();
    m.add_task_at("c", None, Some("Work"), None, None, NOW).unwrap();
    let found = m.get_tasks_by_category("Work");
    let ids: Vec<u64> = found.iter().map(|t| t.id).collect();
    assert_eq!(ids, vec![1, 3]);
    assert!(m.get_tasks_by_category("Play").is_empty());
}

#[test]
fn category_stats_counts_totals_and_completed() {
    let mut m = TodoManager::new();
    m.add_task_at("a", None, Some("Work"), None, None, NOW).unwrap();
    let b = m.add_task_at("b", None, Some("Work"), None, None, NOW).unwrap();
    m.add_task_at("c", None, Some("Home"), None, None, NOW).unwrap();
    m.complete_task_at(b, NOW).unwrap();
    assert_eq!(m.category_stats("Work"), (2, 1));
    assert_eq!(m.category_stats("Home"), (1, 0));
    assert_eq!(m.category_stats("None"), (0, 0));
}

#[test]
fn filter_by_priority_returns_only_that_subset_in_id_order() {
    let mut m = TodoManager::new();
    m.add_task_at("a", Some(Priority::High), None, None, None, NOW).unwrap();
    m.add_task_at("b", Some(Priority::Low), None, None, None, NOW).unwrap();
    m.add_task_at("c", Some(Priority::High), None, None, None, NOW).unwrap();
    let high = m.filter_tasks(None, Some(Priority::High), None, false, false, NOW);
    let ids: Vec<u64> = high.iter().map(|t| t.id).collect();
    assert_eq!(ids, vec![1, 3]);
}

#[test]
fn filter_by_status_overdue_and_today() {
    let mut m = TodoManager::new();
    let a = m.add_task_at("past", None, None, Some("2025-01-09"), None, NOW).unwrap();
    let b = m.add_task_at("today", None, None, Some("2025-01-10"), None, NOW).unwrap();
    m.add_task_at("none", None, None, None, None, NOW).unwrap();
    m.complete_task_at(a, NOW).unwrap();

    let pending = m.filter_tasks(Some(StatusFilter::Pending), None, None, false, false, NOW);
    assert_eq!(pending.iter().map(|t| t.id).collect::<Vec<u64>>(), vec![b, 3]);
    let completed = m.filter_tasks(Some(StatusFilter::Completed), None, None, false, false, NOW);
    assert_eq!(completed.iter().map(|t| t.id).collect::<Vec<u64>>(), vec![a]);
    let all = m.filter_tasks(Some(StatusFilter::All), None, None, false, false, NOW);
    assert_eq!(all.len(), 3);

    // "past" is completed, so nothing pending is overdue at NOW
    let overdue = m.filter_tasks(None, None, None, true, false, NOW);
    assert!(overdue.is_empty());
    // due today: only the end of 2025-01-10 falls on the same UTC day as NOW
    let today = m.filter_tasks(None, None, None, false, true, NOW);
    assert_eq!(today.iter().map(|t| t.id).collect::<Vec<u64>>(), vec![b]);
}

#[test]
fn add_with_zero_day_offset_is_not_overdue() {
    let mut m = TodoManager::new();
    let id = m.add_task_at("due now", None, None, Some("+0"), None, NOW).unwrap();
    let t = m.get_task(id).unwrap();
    assert!(!t.is_overdue_at(NOW));
}

#[test]
fn ambient_clock_store_operations_run() {
    let mut m = TodoManager::new();
    let id = m.add_task("a", None, None, Some("+1"), None).unwrap();
    assert_eq!(id, 1);
    m.edit_task(id, Some("b".to_string()), None, None, Some(String::new())).unwrap();
    m.complete_task(id).unwrap();
    {
        let t = m.get_task(id).unwrap();
        assert_eq!(t.name, "b");
        assert!(matches!(t.status, Status::Completed));
        assert_eq!(t.due_date, None);
        assert!(!t.is_overdue());
    }
    m.remove_task(id).unwrap();
    assert!(m.list_tasks().is_empty());
}

#[test]
fn relative_due_date_tracks_the_real_clock() {
    let mut m = TodoManager::new();
    let before = chrono::Utc::now().timestamp();
    let id = m.add_task("a", None, None, Some("+3"), None).unwrap();
    let after = chrono::Utc::now().timestamp();
    let due = m.get_task(id).unwrap().due_date.unwrap();
    assert!(due >= before + 3 * 86_400);
    assert!(due <= after + 3 * 86_400);
}

fn build_task(id: u64, name: &str, due: Option<i64>) -> Task {
    let mut t = Task::new_at(id, name.to_string(), NOW);
    if let Some(d) = due {
        t.set_due_date_at(d, NOW);
    }
    t
}

#[test]
fn reload_reproduces_the_task_set_and_next_id() {
    let entries = vec![
        build_task(5, "five", Some(NOW + 86_400)),
        build_task(2, "two", None),
        build_task(9, "nine", None),
    ];
    let m = TodoManager::from_entries(entries).unwrap();
    let listed = m.list_tasks();
    let ids: Vec<u64> = listed.iter().map(|t| t.id).collect();
    assert_eq!(ids, vec![2, 5, 9]);
    assert_eq!(listed[1].name, "five");
    assert_eq!(listed[1].due_date, Some(NOW + 86_400));
    assert_eq!(listed[1].create_at, NOW);
    // next id continues above the greatest persisted id
    let mut m = m;
    let id = m.add_task_at("ten", None, None, None, None, NOW).unwrap();
    assert_eq!(id, 10);
}

#[test]
fn reload_of_an_empty_set_starts_ids_at_one() {
    let mut m = TodoManager::from_entries(Vec::new()).unwrap();
    assert!(m.list_tasks().is_empty());
    let id = m.add_task_at("first", None, None, None, None, NOW).unwrap();
    assert_eq!(id, 1);
}

#[test]
fn reload_rejects_duplicate_ids() {
    let entries = vec![build_task(3, "a", None), build_task(3, "b", None)];
    assert!(TodoManager::from_entries(entries).is_none());
}

#[test]
fn reload_rejects_an_id_with_no_successor() {
    let entries = vec![build_task(u64::MAX, "a", None)];
    assert!(TodoManager::from_entries(entries).is_none());
}

#[test]
fn round_trip_through_entries_is_identity() {
    let mut m = TodoManager::new();
    m.add_task_at("a", Some(Priority::High), Some("Work"), Some("+2"), Some("x,y"), NOW)
        .unwrap();
    m.add_task_at("b", None, None, None, None, NOW + 1).unwrap();
    m.complete_task_at(1, NOW + 2).unwrap();

    // snapshot the persisted form by rebuilding each task field for field
    let entries: Vec<Task> = m
        .list_tasks()
        .iter()
        .map(|t| Task {
            id: t.id,
            name: t.name.clone(),
            status: t.status,
            priority: t.priority,
            category: t.category.clone(),
            create_at: t.create_at,
            update_at: t.update_at,
            completed_at: t.completed_at,
            due_date: t.due_date,
            tags: t.tags.clone(),
        })
        .collect();
    let m2 = TodoManager::from_entries(entries).unwrap();
    let a = m.list_tasks();
    let b = m2.list_tasks();
    assert_eq!(a.len(), b.len());
    for (x, y) in a.iter().zip(b.iter()) {
        assert_eq!(x.id, y.id);
        assert_eq!(x.name, y.name);
        assert!(matches!(
            (&x.status, &y.status),
            (Status::Pending, Status::Pending) | (Status::Completed, Status::Completed)
        ));
        assert_eq!(x.category, y.category);
        assert_eq!(x.create_at, y.create_at);
        assert_eq!(x.update_at, y.update_at);
        assert_eq!(x.completed_at, y.completed_at);
        assert_eq!(x.due_date, y.due_date);
        assert_eq!(x.tags, y.tags);
    }
}
