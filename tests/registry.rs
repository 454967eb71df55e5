use student_management::registry::StudentManagementSystem;

fn sample() -> StudentManagementSystem {
    let mut r = StudentManagementSystem::new();
    r.create_student(1, "Alice".to_string(), 20, 101);
    r.create_club(101, "Programming Club".to_string());
    r.create_class(201, "Computer Science".to_string());
    r.create_course(301, "Rust Programming".to_string());
    r
}

#[test]
fn create_then_read_student() {
    let r = sample();
    let s = r.read_student(1).unwrap();
    assert_eq!(s.id, 1);
    assert_eq!(s.name, "Alice");
    assert_eq!(s.age, 20);
    assert_eq!(s.class_id, 101);
    assert!(s.course_enrollments.is_empty());
    assert!(s.club_memberships.is_empty());
    assert!(r.read_student(2).is_none());
}

#[test]
fn create_then_read_groups() {
    let r = sample();
    assert_eq!(r.read_club(101).unwrap().name, "Programming Club");
    assert_eq!(r.read_class(201).unwrap().name, "Computer Science");
    assert_eq!(r.read_course(301).unwrap().name, "Rust Programming");
    assert!(r.read_course(301).unwrap().students.is_empty());
    assert!(r.read_club(102).is_none());
    assert!(r.read_class(202).is_none());
    assert!(r.read_course(302).is_none());
}

#[test]
fn enroll_links_both_sides() {
    let mut r = sample();
    r.enroll_student_in_course(1, 301);
    assert!(r.read_student(1).unwrap().course_enrollments.contains(&301));
    assert!(r.read_course(301).unwrap().students.contains(&1));
}

#[test]
fn enroll_needs_both_sides() {
    let mut r = sample();
    r.enroll_student_in_course(1, 999);
    assert!(r.read_student(1).unwrap().course_enrollments.is_empty());
    r.enroll_student_in_course(7, 301);
    assert!(r.read_course(301).unwrap().students.is_empty());
    assert!(r.read_student(7).is_none());
}

#[test]
fn remove_from_course_unlinks_both_sides() {
    let mut r = sample();
    r.enroll_student_in_course(1, 301);
    r.remove_student_from_course(1, 301);
    assert!(!r.read_student(1).unwrap().course_enrollments.contains(&301));
    assert!(!r.read_course(301).unwrap().students.contains(&1));
}

#[test]
fn join_and_leave_club() {
    let mut r = sample();
    r.join_club(1, 101);
    assert!(r.read_student(1).unwrap().club_memberships.contains(&101));
    assert!(r.read_club(101).unwrap().students.contains(&1));
    r.leave_club(1, 101);
    assert!(!r.read_student(1).unwrap().club_memberships.contains(&101));
    assert!(!r.read_club(101).unwrap().students.contains(&1));
}

#[test]
fn assign_then_unassign_class() {
    let mut r = sample();
    r.assign_student_to_class(1, 201);
    assert_eq!(r.read_student(1).unwrap().class_id, 201);
    assert!(r.read_class(201).unwrap().students.contains(&1));
    r.unassign_student_from_class(1);
    assert_eq!(r.read_student(1).unwrap().class_id, 0);
    assert!(!r.read_class(201).unwrap().students.contains(&1));
}

#[test]
fn assign_to_missing_class_records_id_only() {
    let mut r = sample();
    r.assign_student_to_class(1, 555);
    assert_eq!(r.read_student(1).unwrap().class_id, 555);
    assert!(r.read_class(555).is_none());
}

#[test]
fn reassign_moves_between_rosters() {
    let mut r = sample();
    r.create_class(202, "Mathematics".to_string());
    r.assign_student_to_class(1, 201);
    r.assign_student_to_class(1, 202);
    assert_eq!(r.read_student(1).unwrap().class_id, 202);
    assert!(!r.read_class(201).unwrap().students.contains(&1));
    assert!(r.read_class(202).unwrap().students.contains(&1));
}

#[test]
fn delete_student_then_read() {
    let mut r = sample();
    r.delete_student(1);
    assert!(r.read_student(1).is_none());
    r.delete_student(1);
    assert!(r.read_student(1).is_none());
    assert!(r.read_club(101).is_some());
}

#[test]
fn delete_student_cascades() {
    let mut r = sample();
    r.enroll_student_in_course(1, 301);
    r.join_club(1, 101);
    r.assign_student_to_class(1, 201);
    r.delete_student(1);
    assert!(!r.read_course(301).unwrap().students.contains(&1));
    assert!(!r.read_club(101).unwrap().students.contains(&1));
    assert!(!r.read_class(201).unwrap().students.contains(&1));
}

#[test]
fn delete_groups_cascade() {
    let mut r = sample();
    r.enroll_student_in_course(1, 301);
    r.join_club(1, 101);
    r.assign_student_to_class(1, 201);
    r.delete_course(301);
    r.delete_club(101);
    r.delete_class(201);
    let s = r.read_student(1).unwrap();
    assert!(s.course_enrollments.is_empty());
    assert!(s.club_memberships.is_empty());
    assert_eq!(s.class_id, 0);
    assert!(r.read_course(301).is_none());
    assert!(r.read_club(101).is_none());
    assert!(r.read_class(201).is_none());
    r.delete_course(301);
    r.delete_club(101);
    r.delete_class(201);
    assert!(r.read_student(1).is_some());
}

#[test]
fn update_existing_entities() {
    let mut r = sample();
    r.enroll_student_in_course(1, 301);
    r.update_student(1, "Alicia".to_string(), 21);
    r.update_club(101, "Coding Club".to_string());
    r.update_class(201, "Software Engineering".to_string());
    r.update_course(301, "Advanced Rust Programming".to_string());
    let s = r.read_student(1).unwrap();
    assert_eq!(s.name, "Alicia");
    assert_eq!(s.age, 21);
    assert!(s.course_enrollments.contains(&301));
    assert_eq!(r.read_club(101).unwrap().name, "Coding Club");
    assert_eq!(r.read_class(201).unwrap().name, "Software Engineering");
    assert_eq!(r.read_course(301).unwrap().name, "Advanced Rust Programming");
    assert!(r.read_course(301).unwrap().students.contains(&1));
}

#[test]
fn update_missing_changes_nothing() {
    let mut r = sample();
    r.update_student(2, "Bob".to_string(), 30);
    r.update_club(102, "Chess".to_string());
    r.update_class(202, "Physics".to_string());
    r.update_course(302, "Go".to_string());
    assert!(r.read_student(2).is_none());
    assert!(r.read_club(102).is_none());
    assert!(r.read_class(202).is_none());
    assert!(r.read_course(302).is_none());
    assert_eq!(r.read_student(1).unwrap().name, "Alice");
}

#[test]
fn create_overwrites_and_unlinks_old_record() {
    let mut r = sample();
    r.enroll_student_in_course(1, 301);
    r.create_student(1, "Ann".to_string(), 19, 0);
    let s = r.read_student(1).unwrap();
    assert_eq!(s.name, "Ann");
    assert!(s.course_enrollments.is_empty());
    assert!(!r.read_course(301).unwrap().students.contains(&1));
}
