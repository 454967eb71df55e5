//! The records the registry stores, and their models.

use std::collections::HashSet;
use vstd::prelude::*;

verus! {

/// A student record. `class_id` is 0 when the student is in no class.
/// Enrollments and memberships are kept as sets of course and club ids.
#[derive(Debug)]
pub struct Student {
    pub id: u64,
    pub name: String,
    pub age: u32,
    pub class_id: u64,
    /// Ids of the courses the student is enrolled in.
    pub course_enrollments: HashSet<u64>,
    /// Ids of the clubs the student belongs to.
    pub club_memberships: HashSet<u64>,
}

/// A named group of students: the shape shared by classes, clubs and courses.
#[derive(Debug)]
pub struct Group {
    pub id: u64,
    pub name: String,
    /// Ids of the students in the group.
    pub students: HashSet<u64>,
}

/// A class; its roster lists the students assigned to it.
pub type Class = Group;

/// A club; its roster lists its members.
pub type Club = Group;

/// A course; its roster lists the enrolled students.
pub type Course = Group;

/// Mathematical model of a [`Student`].
pub struct StudentView {
    pub id: u64,
    pub name: Seq<char>,
    pub age: u32,
    pub class_id: u64,
    pub courses: Set<u64>,
    pub clubs: Set<u64>,
}

/// Mathematical model of a [`Group`].
pub struct GroupView {
    pub id: u64,
    pub name: Seq<char>,
    pub members: Set<u64>,
}

impl View for Student {
    type V = StudentView;

    open spec fn view(&self) -> StudentView {
        StudentView {
            id: self.id,
            name: self.name@,
            age: self.age,
            class_id: self.class_id,
            courses: self.course_enrollments@,
            clubs: self.club_memberships@,
        }
    }
}

impl View for Group {
    type V = GroupView;

    open spec fn view(&self) -> GroupView {
        GroupView { id: self.id, name: self.name@, members: self.students@ }
    }
}

impl Student {
    /// A student with no enrollments and no club memberships.
    pub fn new(id: u64, name: String, age: u32, class_id: u64) -> (s: Student)
        ensures
            s@ == (StudentView {
                id,
                name: name@,
                age,
                class_id,
                courses: Set::empty(),
                clubs: Set::empty(),
            }),
    {
        Student {
            id,
            name,
            age,
            class_id,
            course_enrollments: HashSet::new(),
            club_memberships: HashSet::new(),
        }
    }
}

impl Group {
    /// A group with an empty roster.
    pub fn new(id: u64, name: String) -> (g: Group)
        ensures
            g@ == (GroupView { id, name: name@, members: Set::empty() }),
    {
        Group { id, name, students: HashSet::new() }
    }
}

} // verus!
