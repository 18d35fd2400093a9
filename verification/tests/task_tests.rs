use fleet_attention::skill::SkillTag;
use fleet_attention::task::{TaskEmbedder, TaskPriority, TaskUrgency};

#[test]
fn test_task_priority_from_str() {
    assert_eq!(TaskPriority::from_str_label("low"), Some(TaskPriority::Low));
    assert_eq!(TaskPriority::from_str_label("HIGH"), Some(TaskPriority::High));
    assert_eq!(TaskPriority::from_str_label("unknown"), None);
}

#[test]
fn test_embedder_dimension() {
    let e = TaskEmbedder::new();
    assert_eq!(e.embedding_dim, SkillTag::COUNT + 4);
}

#[test]
fn priority_labels_ignore_ascii_case() {
    assert_eq!(TaskPriority::from_str_label("CrItIcAl"), Some(TaskPriority::Critical));
    assert_eq!(TaskPriority::from_str_label("Normal"), Some(TaskPriority::Normal));
    assert_eq!(TaskPriority::from_str_label("low "), None);
    assert_eq!(TaskPriority::from_str_label(""), None);
    assert_eq!(TaskPriority::from_str_label("lów"), None);
}

#[test]
fn priority_order() {
    assert!(TaskPriority::Low < TaskPriority::Normal);
    assert!(TaskPriority::Normal < TaskPriority::High);
    assert!(TaskPriority::High < TaskPriority::Critical);
}

#[test]
fn urgency_no_deadline_is_never_overdue() {
    let u = TaskUrgency::no_deadline(60_000);
    assert_eq!(u.deadline_ms, 0);
    assert_eq!(u.estimated_duration_ms, 60_000);
    assert!(!u.is_overdue());
    let u = TaskUrgency::no_deadline_at(123, 5);
    assert_eq!(u, TaskUrgency { deadline_ms: 0, estimated_duration_ms: 5, now_ms: 123 });
    assert_eq!(u.remaining_ms(), 0);
}

#[test]
fn urgency_with_deadline_at() {
    let u = TaskUrgency::with_deadline_at(1_000, 5_000, 10_000).unwrap();
    assert_eq!(u, TaskUrgency { deadline_ms: 6_000, estimated_duration_ms: 10_000, now_ms: 1_000 });
    assert_eq!(u.remaining_ms(), 5_000);
    assert!(!u.is_overdue());
    assert_eq!(TaskUrgency::with_deadline_at(u64::MAX, 1, 10), None);
    assert!(TaskUrgency::with_deadline_at(u64::MAX, 0, 10).is_some());
}

#[test]
fn urgency_with_deadline_from_now() {
    let u = TaskUrgency::with_deadline_from_now(5_000, 10_000).unwrap();
    assert_eq!(u.deadline_ms, u.now_ms + 5_000);
    assert_eq!(u.estimated_duration_ms, 10_000);
    assert!(!u.is_overdue());
}

#[test]
fn urgency_overdue() {
    let u = TaskUrgency { deadline_ms: 100, estimated_duration_ms: 10, now_ms: 150 };
    assert!(u.is_overdue());
    assert_eq!(u.remaining_ms(), 0);
    let u = TaskUrgency { deadline_ms: 100, estimated_duration_ms: 10, now_ms: 100 };
    assert!(!u.is_overdue());
}
