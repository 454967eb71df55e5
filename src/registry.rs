//! The registry and its operations. Every operation keeps the invariant of
//! [`RegistryView::consistent`]:
//! - enrolling and joining need both the student and the group to be stored;
//! - deleting a record also removes every reference to it held by other records;
//! - creating a record under an id already in use first deletes the old record.

use crate::entities::{Class, Club, Course, Group, GroupView, Student, StudentView};
use crate::model::{
    lemma_absent_student, lemma_assigned, lemma_consistent_links, lemma_group_cascade,
    lemma_linked, lemma_student_cascade, lemma_unassigned, lemma_unlinked, lemma_with_class,
    lemma_with_class_name, lemma_with_group, lemma_with_group_name, lemma_with_groups,
    lemma_with_student, lemma_with_student_fields, lemma_without_class, lemma_without_group,
    lemma_without_student, unassigned_in, without_link_in, without_member, without_member_in,
    RegistryView, Relation,
};
use std::collections::{HashMap, HashSet};
use vstd::prelude::*;
use vstd::std_specs::hash::spec_hash_keys_iter;
use vstd::std_specs::iter::IteratorSpec;

verus! {

broadcast use vstd::std_specs::hash::group_hash_axioms;

/// The registry: four tables keyed by id, with every cross-reference between a student
/// and a course, club or class recorded on both sides.
pub struct StudentManagementSystem {
    students: HashMap<u64, Student>,
    clubs: HashMap<u64, Club>,
    classes: HashMap<u64, Class>,
    courses: HashMap<u64, Course>,
}

/// The model of a table of groups.
pub open spec fn groups_view(t: Map<u64, Group>) -> Map<u64, GroupView> {
    Map::new(|k: u64| t.contains_key(k), |k: u64| t[k]@)
}

impl View for StudentManagementSystem {
    type V = RegistryView;

    closed spec fn view(&self) -> RegistryView {
        RegistryView {
            students: Map::new(|k: u64| self.students@.contains_key(k), |k: u64| self.students@[k]@),
            classes: groups_view(self.classes@),
            clubs: groups_view(self.clubs@),
            courses: groups_view(self.courses@),
        }
    }
}

impl StudentManagementSystem {
    /// The registry's invariant.
    pub open spec fn wf(&self) -> bool {
        self@.consistent()
    }

    /// An empty registry.
    pub fn new() -> (r: StudentManagementSystem)
        ensures
            r.wf(),
            r@.students.is_empty(),
            r@.classes.is_empty(),
            r@.clubs.is_empty(),
            r@.courses.is_empty(),
    {
        let r = StudentManagementSystem {
            students: HashMap::new(),
            clubs: HashMap::new(),
            classes: HashMap::new(),
            courses: HashMap::new(),
        };
        assert(r@.students =~= Map::empty());
        assert(r@.classes =~= Map::empty());
        assert(r@.clubs =~= Map::empty());
        assert(r@.courses =~= Map::empty());
        r
    }

    /// Stores a new student with no enrollments and no club memberships under `id`.
    /// A student already stored under `id` is first removed as by `delete_student`.
    pub fn create_student(&mut self, id: u64, name: String, age: u32, class_id: u64)
        requires
            old(self).wf(),
        ensures
            final(self).wf(),
            final(self)@ == old(self)@.without_student(id).with_student(StudentView {
                id,
                name: name@,
                age,
                class_id,
                courses: Set::empty(),
                clubs: Set::empty(),
            }),
    {
        self.delete_student(id);
        let ghost mid = self@;
        let s = Student::new(id, name, age, class_id);
        proof {
            lemma_with_student(mid, s@);
        }
        self.put_student(id, s);
    }

    /// Gives student `student_id` a new name and age; its links are kept. Does nothing
    /// when no such student is stored.
    pub fn update_student(&mut self, student_id: u64, new_name: String, new_age: u32)
        requires
            old(self).wf(),
        ensures
            final(self).wf(),
            if old(self)@.students.contains_key(student_id) {
                final(self)@ == old(self)@.with_student_fields(student_id, new_name@, new_age)
            } else {
                final(self)@ == old(self)@
            },
    {
        let ghost start = self@;
        match self.take_student(student_id) {
            Some(mut st) => {
                st.name = new_name;
                st.age = new_age;
                self.put_student(student_id, st);
                proof {
                    assert(start.students[student_id].id == student_id);
                    assert(self@.students =~= start.students.insert(student_id, st@));
                    lemma_with_student_fields(start, student_id, new_name@, new_age);
                }
            },
            None => {
                assert(self@.students =~= start.students);
            },
        }
    }

    /// The student stored under `student_id`, if any.
    pub fn read_student(&self, student_id: u64) -> (r: Option<&Student>)
        ensures
            match r {
                Some(s) => self@.students.contains_key(student_id) && s@ == self@.students[student_id],
                None => !self@.students.contains_key(student_id),
            },
    {
        self.students.get(&student_id)
    }

    /// Removes student `student_id` and takes it off every course, club and class
    /// roster. Does nothing when no such student is stored.
    pub fn delete_student(&mut self, student_id: u64)
        requires
            old(self).wf(),
        ensures
            final(self).wf(),
            final(self)@ == old(self)@.without_student(student_id),
            !old(self)@.students.contains_key(student_id) ==> final(self)@ == old(self)@,
    {
        let ghost start = self@;
        proof {
            lemma_without_student(start, student_id);
        }
        match self.take_student(student_id) {
            None => {
                proof {
                    lemma_absent_student(start, student_id);
                    assert(self@.students =~= start.students);
                }
            },
            Some(st) => {
                proof {
                    lemma_student_cascade(start, student_id);
                }
                self.drop_member_from(Relation::Course, &st.course_enrollments, student_id);
                assert(self@.courses == without_member(start.courses, student_id));
                self.drop_member_from(Relation::Club, &st.club_memberships, student_id);
                if let Some(mut c) = self.take_class(st.class_id) {
                    c.students.remove(&student_id);
                    self.put_class(st.class_id, c);
                }
                assert(self@.classes == without_member(start.classes, student_id));
            },
        }
    }

    /// Stores a new group of `rel` with an empty roster under `id`, after removing any
    /// group already stored there.
    fn create_group(&mut self, rel: Relation, id: u64, name: String)
        requires
            old(self).wf(),
        ensures
            final(self).wf(),
            final(self)@ == old(self)@.without_group(rel, id).with_group(
                rel,
                GroupView { id, name: name@, members: Set::empty() },
            ),
    {
        self.remove_group(rel, id);
        let ghost mid = self@;
        let g = Group::new(id, name);
        proof {
            lemma_with_group(mid, rel, g@);
        }
        self.put_group(rel, id, g);
    }

    /// Renames group `gid` of `rel`, keeping its roster. Does nothing when no such group
    /// is stored.
    fn update_group(&mut self, rel: Relation, gid: u64, new_name: String)
        requires
            old(self).wf(),
        ensures
            final(self).wf(),
            if old(self)@.groups(rel).contains_key(gid) {
                final(self)@ == old(self)@.with_group_name(rel, gid, new_name@)
            } else {
                final(self)@ == old(self)@
            },
    {
        let ghost start = self@;
        match self.take_group(rel, gid) {
            Some(mut g) => {
                let ghost mid = self@;
                g.name = new_name;
                self.put_group(rel, gid, g);
                proof {
                    lemma_consistent_links(start, rel);
                    assert(start.groups(rel)[gid].id == gid) by {
                        match rel {
                            Relation::Course => {},
                            Relation::Club => {},
                        }
                    }
                    lemma_with_groups(start, rel, start.groups(rel).remove(gid), mid.groups(rel).insert(gid, g@));
                    lemma_with_groups(mid, rel, mid.groups(rel), mid.groups(rel).insert(gid, g@));
                    assert(mid.groups(rel).insert(gid, g@) =~= start.groups(rel).insert(gid, g@));
                    lemma_with_group_name(start, rel, gid, new_name@);
                }
            },
            None => {
                proof {
                    assert(start.groups(rel).remove(gid) =~= start.groups(rel));
                    lemma_with_groups(start, rel, start.groups(rel), start.groups(rel));
                }
            },
        }
    }

    /// Removes group `gid` of `rel` and takes it out of every student's links under
    /// `rel`. Does nothing when no such group is stored.
    fn remove_group(&mut self, rel: Relation, gid: u64)
        requires
            old(self).wf(),
        ensures
            final(self).wf(),
            final(self)@ == old(self)@.without_group(rel, gid),
            !old(self)@.groups(rel).contains_key(gid) ==> final(self)@ == old(self)@,
    {
        let ghost start = self@;
        proof {
            lemma_without_group(start, rel, gid);
            lemma_group_cascade(start, rel, gid);
        }
        match self.take_group(rel, gid) {
            Some(g) => {
                self.drop_link_from(rel, &g.students, gid);
            },
            None => {
                proof {
                    assert(start.groups(rel).remove(gid) =~= start.groups(rel));
                    lemma_with_groups(start, rel, start.groups(rel), start.groups(rel));
                }
            },
        }
    }

    /// Stores a new club with no members under `id`. A club already stored under `id` is
    /// first removed as by `delete_club`.
    pub fn create_club(&mut self, id: u64, name: String)
        requires
            old(self).wf(),
        ensures
            final(self).wf(),
            final(self)@ == old(self)@.without_group(Relation::Club, id).with_group(
                Relation::Club,
                GroupView { id, name: name@, members: Set::empty() },
            ),
    {
        self.create_group(Relation::Club, id, name);
    }

    /// Renames club `club_id`, keeping its members. Does nothing when no such club is
    /// stored.
    pub fn update_club(&mut self, club_id: u64, new_name: String)
        requires
            old(self).wf(),
        ensures
            final(self).wf(),
            if old(self)@.clubs.contains_key(club_id) {
                final(self)@ == old(self)@.with_group_name(Relation::Club, club_id, new_name@)
            } else {
                final(self)@ == old(self)@
            },
    {
        self.update_group(Relation::Club, club_id, new_name);
    }

    /// The club stored under `club_id`, if any.
    pub fn read_club(&self, club_id: u64) -> (r: Option<&Club>)
        ensures
            match r {
                Some(g) => self@.clubs.contains_key(club_id) && g@ == self@.clubs[club_id],
                None => !self@.clubs.contains_key(club_id),
            },
    {
        self.clubs.get(&club_id)
    }

    /// Removes club `club_id` and takes it out of every student's memberships. Does
    /// nothing when no such club is stored.
    pub fn delete_club(&mut self, club_id: u64)
        requires
            old(self).wf(),
        ensures
            final(self).wf(),
            final(self)@ == old(self)@.without_group(Relation::Club, club_id),
            !old(self)@.clubs.contains_key(club_id) ==> final(self)@ == old(self)@,
    {
        self.remove_group(Relation::Club, club_id);
    }

    /// Stores a new course with no enrolled students under `id`. A course already stored
    /// under `id` is first removed as by `delete_course`.
    pub fn create_course(&mut self, id: u64, name: String)
        requires
            old(self).wf(),
        ensures
            final(self).wf(),
            final(self)@ == old(self)@.without_group(Relation::Course, id).with_group(
                Relation::Course,
                GroupView { id, name: name@, members: Set::empty() },
            ),
    {
        self.create_group(Relation::Course, id, name);
    }

    /// Renames course `course_id`, keeping its roster. Does nothing when no such course
    /// is stored.
    pub fn update_course(&mut self, course_id: u64, new_name: String)
        requires
            old(self).wf(),
        ensures
            final(self).wf(),
            if old(self)@.courses.contains_key(course_id) {
                final(self)@ == old(self)@.with_group_name(Relation::Course, course_id, new_name@)
            } else {
                final(self)@ == old(self)@
            },
    {
        self.update_group(Relation::Course, course_id, new_name);
    }

    /// The course stored under `course_id`, if any.
    pub fn read_course(&self, course_id: u64) -> (r: Option<&Course>)
        ensures
            match r {
                Some(g) => self@.courses.contains_key(course_id) && g@ == self@.courses[course_id],
                None => !self@.courses.contains_key(course_id),
            },
    {
        self.courses.get(&course_id)
    }

    /// Removes course `course_id` and takes it out of every student's enrollments. Does
    /// nothing when no such course is stored.
    pub fn delete_course(&mut self, course_id: u64)
        requires
            old(self).wf(),
        ensures
            final(self).wf(),
            final(self)@ == old(self)@.without_group(Relation::Course, course_id),
            !old(self)@.courses.contains_key(course_id) ==> final(self)@ == old(self)@,
    {
        self.remove_group(Relation::Course, course_id);
    }

    /// Stores a new class with an empty roster under `id`. A class already stored under
    /// `id` is first removed as by `delete_class`.
    pub fn create_class(&mut self, id: u64, name: String)
        requires
            old(self).wf(),
        ensures
            final(self).wf(),
            final(self)@ == old(self)@.without_class(id).with_class(
                GroupView { id, name: name@, members: Set::empty() },
            ),
    {
        self.delete_class(id);
        let ghost mid = self@;
        let g = Group::new(id, name);
        proof {
            lemma_with_class(mid, g@);
        }
        self.put_class(id, g);
    }

    /// Renames class `class_id`, keeping its roster. Does nothing when no such class is
    /// stored.
    pub fn update_class(&mut self, class_id: u64, new_name: String)
        requires
            old(self).wf(),
        ensures
            final(self).wf(),
            if old(self)@.classes.contains_key(class_id) {
                final(self)@ == old(self)@.with_class_name(class_id, new_name@)
            } else {
                final(self)@ == old(self)@
            },
    {
        let ghost start = self@;
        match self.take_class(class_id) {
            Some(mut c) => {
                c.name = new_name;
                self.put_class(class_id, c);
                proof {
                    assert(start.classes[class_id].id == class_id);
                    assert(self@.classes =~= start.classes.insert(class_id, c@));
                    lemma_with_class_name(start, class_id, new_name@);
                }
            },
            None => {
                assert(self@.classes =~= start.classes);
            },
        }
    }

    /// The class stored under `class_id`, if any.
    pub fn read_class(&self, class_id: u64) -> (r: Option<&Class>)
        ensures
            match r {
                Some(g) => self@.classes.contains_key(class_id) && g@ == self@.classes[class_id],
                None => !self@.classes.contains_key(class_id),
            },
    {
        self.classes.get(&class_id)
    }

    /// Removes class `class_id` and leaves every student on its roster with no class.
    /// Does nothing when no such class is stored.
    pub fn delete_class(&mut self, class_id: u64)
        requires
            old(self).wf(),
        ensures
            final(self).wf(),
            final(self)@ == old(self)@.without_class(class_id),
            !old(self)@.classes.contains_key(class_id) ==> final(self)@ == old(self)@,
    {
        let ghost start = self@;
        proof {
            lemma_without_class(start, class_id);
        }
        match self.take_class(class_id) {
            Some(c) => {
                self.clear_class_of(&c.students);
                assert(self@.students =~= start.without_class(class_id).students);
            },
            None => {
                assert(self@.classes =~= start.classes);
                assert(start.without_class(class_id).students =~= start.students);
                assert(start.without_class(class_id).classes =~= start.classes);
            },
        }
    }

    /// Whether a group of `rel` is stored under `gid`.
    fn has_group(&self, rel: Relation, gid: u64) -> (r: bool)
        ensures
            r == self@.groups(rel).contains_key(gid),
    {
        match rel {
            Relation::Course => self.courses.contains_key(&gid),
            Relation::Club => self.clubs.contains_key(&gid),
        }
    }

    /// Links student `sid` and group `gid` of `rel` on both sides. Does nothing unless
    /// both are stored.
    fn link(&mut self, rel: Relation, sid: u64, gid: u64)
        requires
            old(self).wf(),
        ensures
            final(self).wf(),
            if old(self)@.students.contains_key(sid) && old(self)@.groups(rel).contains_key(gid) {
                final(self)@ == old(self)@.linked(rel, sid, gid)
            } else {
                final(self)@ == old(self)@
            },
    {
        let ghost start = self@;
        if self.students.contains_key(&sid) && self.has_group(rel, gid) {
            let mut st = self.take_student(sid).unwrap();
            let mut g = self.take_group(rel, gid).unwrap();
            let ghost mid = self@;
            match rel {
                Relation::Course => {
                    st.course_enrollments.insert(gid);
                },
                Relation::Club => {
                    st.club_memberships.insert(gid);
                },
            }
            g.students.insert(sid);
            self.put_group(rel, gid, g);
            self.put_student(sid, st);
            proof {
                lemma_linked(start, rel, sid, gid);
                lemma_with_groups(mid, rel, mid.groups(rel), mid.groups(rel).insert(gid, g@));
                assert(mid.groups(rel).insert(gid, g@) =~= start.groups(rel).insert(gid, g@));
                assert(self@.students =~= start.linked(rel, sid, gid).students);
                lemma_with_groups(start, rel, start.groups(rel).remove(gid), start.groups(rel).insert(gid, g@));
            }
        }
    }

    /// Removes the link between student `sid` and group `gid` of `rel` on both sides.
    /// Does nothing unless both are stored.
    fn unlink(&mut self, rel: Relation, sid: u64, gid: u64)
        requires
            old(self).wf(),
        ensures
            final(self).wf(),
            if old(self)@.students.contains_key(sid) && old(self)@.groups(rel).contains_key(gid) {
                final(self)@ == old(self)@.unlinked(rel, sid, gid)
            } else {
                final(self)@ == old(self)@
            },
    {
        let ghost start = self@;
        if self.students.contains_key(&sid) && self.has_group(rel, gid) {
            let mut st = self.take_student(sid).unwrap();
            let mut g = self.take_group(rel, gid).unwrap();
            let ghost mid = self@;
            match rel {
                Relation::Course => {
                    st.course_enrollments.remove(&gid);
                },
                Relation::Club => {
                    st.club_memberships.remove(&gid);
                },
            }
            g.students.remove(&sid);
            self.put_group(rel, gid, g);
            self.put_student(sid, st);
            proof {
                lemma_unlinked(start, rel, sid, gid);
                lemma_with_groups(mid, rel, mid.groups(rel), mid.groups(rel).insert(gid, g@));
                assert(mid.groups(rel).insert(gid, g@) =~= start.groups(rel).insert(gid, g@));
                assert(self@.students =~= start.unlinked(rel, sid, gid).students);
                lemma_with_groups(start, rel, start.groups(rel).remove(gid), start.groups(rel).insert(gid, g@));
            }
        }
    }

    /// Enrolls student `student_id` in course `course_id`, on both sides. Does nothing
    /// unless both the student and the course are stored.
    pub fn enroll_student_in_course(&mut self, student_id: u64, course_id: u64)
        requires
            old(self).wf(),
        ensures
            final(self).wf(),
            if old(self)@.students.contains_key(student_id) && old(self)@.courses.contains_key(course_id) {
                final(self)@ == old(self)@.linked(Relation::Course, student_id, course_id)
            } else {
                final(self)@ == old(self)@
            },
    {
        self.link(Relation::Course, student_id, course_id);
    }

    /// Takes student `student_id` off course `course_id`, on both sides. Does nothing
    /// unless both the student and the course are stored.
    pub fn remove_student_from_course(&mut self, student_id: u64, course_id: u64)
        requires
            old(self).wf(),
        ensures
            final(self).wf(),
            if old(self)@.students.contains_key(student_id) && old(self)@.courses.contains_key(course_id) {
                final(self)@ == old(self)@.unlinked(Relation::Course, student_id, course_id)
            } else {
                final(self)@ == old(self)@
            },
    {
        self.unlink(Relation::Course, student_id, course_id);
    }

    /// Makes student `student_id` a member of club `club_id`, on both sides. Does
    /// nothing unless both the student and the club are stored.
    pub fn join_club(&mut self, student_id: u64, club_id: u64)
        requires
            old(self).wf(),
        ensures
            final(self).wf(),
            if old(self)@.students.contains_key(student_id) && old(self)@.clubs.contains_key(club_id) {
                final(self)@ == old(self)@.linked(Relation::Club, student_id, club_id)
            } else {
                final(self)@ == old(self)@
            },
    {
        self.link(Relation::Club, student_id, club_id);
    }

    /// Ends the membership of student `student_id` in club `club_id`, on both sides.
    /// Does nothing unless both the student and the club are stored.
    pub fn leave_club(&mut self, student_id: u64, club_id: u64)
        requires
            old(self).wf(),
        ensures
            final(self).wf(),
            if old(self)@.students.contains_key(student_id) && old(self)@.clubs.contains_key(club_id) {
                final(self)@ == old(self)@.unlinked(Relation::Club, student_id, club_id)
            } else {
                final(self)@ == old(self)@
            },
    {
        self.unlink(Relation::Club, student_id, club_id);
    }

    /// Moves student `student_id` to class `class_id`: off the roster of its previous
    /// class, `class_id` recorded, and onto the roster of `class_id` when that class is
    /// stored. Does nothing when no such student is stored.
    pub fn assign_student_to_class(&mut self, student_id: u64, class_id: u64)
        requires
            old(self).wf(),
        ensures
            final(self).wf(),
            if old(self)@.students.contains_key(student_id) {
                final(self)@ == old(self)@.assigned(student_id, class_id)
            } else {
                final(self)@ == old(self)@
            },
    {
        let ghost start = self@;
        match self.take_student(student_id) {
            Some(mut st) => {
                proof {
                    lemma_student_cascade(start, student_id);
                    lemma_assigned(start, student_id, class_id);
                }
                let prev = st.class_id;
                if let Some(mut c) = self.take_class(prev) {
                    c.students.remove(&student_id);
                    self.put_class(prev, c);
                }
                assert(self@.classes == without_member(start.classes, student_id));
                st.class_id = class_id;
                self.put_student(student_id, st);
                if let Some(mut c) = self.take_class(class_id) {
                    c.students.insert(student_id);
                    self.put_class(class_id, c);
                }
                assert(self@.students =~= start.assigned(student_id, class_id).students);
                assert(self@.classes =~= start.assigned(student_id, class_id).classes);
            },
            None => {
                assert(self@.students =~= start.students);
            },
        }
    }

    /// Takes student `student_id` off the roster of its class and records no class for
    /// it (`class_id` 0). Does nothing when no such student is stored.
    pub fn unassign_student_from_class(&mut self, student_id: u64)
        requires
            old(self).wf(),
        ensures
            final(self).wf(),
            if old(self)@.students.contains_key(student_id) {
                final(self)@ == old(self)@.unassigned(student_id)
            } else {
                final(self)@ == old(self)@
            },
    {
        let ghost start = self@;
        match self.take_student(student_id) {
            Some(mut st) => {
                proof {
                    lemma_student_cascade(start, student_id);
                    lemma_unassigned(start, student_id);
                }
                let prev = st.class_id;
                st.class_id = 0;
                self.put_student(student_id, st);
                if let Some(mut c) = self.take_class(prev) {
                    c.students.remove(&student_id);
                    self.put_class(prev, c);
                }
                assert(self@.students =~= start.unassigned(student_id).students);
                assert(self@.classes =~= start.unassigned(student_id).classes);
            },
            None => {
                assert(self@.students =~= start.students);
            },
        }
    }

    /// Takes student `sid` out of its table.
    fn take_student(&mut self, sid: u64) -> (r: Option<Student>)
        ensures
            final(self)@ == (RegistryView { students: old(self)@.students.remove(sid), ..old(self)@ }),
            match r {
                Some(s) => old(self)@.students.contains_key(sid) && s@ == old(self)@.students[sid],
                None => !old(self)@.students.contains_key(sid),
            },
    {
        let r = self.students.remove(&sid);
        assert(self@.students =~= old(self)@.students.remove(sid));
        r
    }

    /// Stores `s` under `sid`.
    fn put_student(&mut self, sid: u64, s: Student)
        ensures
            final(self)@ == (RegistryView { students: old(self)@.students.insert(sid, s@), ..old(self)@ }),
    {
        let ghost v = s@;
        self.students.insert(sid, s);
        assert(self@.students =~= old(self)@.students.insert(sid, v));
    }

    /// Takes group `gid` out of the table of `rel`.
    fn take_group(&mut self, rel: Relation, gid: u64) -> (r: Option<Group>)
        ensures
            final(self)@ == old(self)@.with_groups(rel, old(self)@.groups(rel).remove(gid)),
            match r {
                Some(g) => old(self)@.groups(rel).contains_key(gid) && g@ == old(self)@.groups(rel)[gid],
                None => !old(self)@.groups(rel).contains_key(gid),
            },
    {
        let r = match rel {
            Relation::Course => self.courses.remove(&gid),
            Relation::Club => self.clubs.remove(&gid),
        };
        assert(self@.groups(rel) =~= old(self)@.groups(rel).remove(gid));
        assert(self@ == old(self)@.with_groups(rel, old(self)@.groups(rel).remove(gid)));
        r
    }

    /// Stores `g` under `gid` in the table of `rel`.
    fn put_group(&mut self, rel: Relation, gid: u64, g: Group)
        ensures
            final(self)@ == old(self)@.with_groups(rel, old(self)@.groups(rel).insert(gid, g@)),
    {
        let ghost v = g@;
        match rel {
            Relation::Course => {
                self.courses.insert(gid, g);
            },
            Relation::Club => {
                self.clubs.insert(gid, g);
            },
        }
        assert(self@.groups(rel) =~= old(self)@.groups(rel).insert(gid, v));
    }

    /// Takes class `kid` out of its table.
    fn take_class(&mut self, kid: u64) -> (r: Option<Class>)
        ensures
            final(self)@ == (RegistryView { classes: old(self)@.classes.remove(kid), ..old(self)@ }),
            match r {
                Some(g) => old(self)@.classes.contains_key(kid) && g@ == old(self)@.classes[kid],
                None => !old(self)@.classes.contains_key(kid),
            },
    {
        let r = self.classes.remove(&kid);
        assert(self@.classes =~= old(self)@.classes.remove(kid));
        r
    }

    /// Stores `g` under `kid` in the class table.
    fn put_class(&mut self, kid: u64, g: Class)
        ensures
            final(self)@ == (RegistryView { classes: old(self)@.classes.insert(kid, g@), ..old(self)@ }),
    {
        let ghost v = g@;
        self.classes.insert(kid, g);
        assert(self@.classes =~= old(self)@.classes.insert(kid, v));
    }
    /// Takes `sid` off the roster of each group of `rel` named in `ids`.
    fn drop_member_from(&mut self, rel: Relation, ids: &HashSet<u64>, sid: u64)
        ensures
            final(self)@ == old(self)@.with_groups(rel, without_member_in(old(self)@.groups(rel), ids@, sid)),
    {
        let ghost start = self@;
        let ghost mut done: Set<u64> = Set::empty();
        let ghost items = spec_hash_keys_iter(ids).remaining();
        proof {
            lemma_with_groups(start, rel, start.groups(rel), start.groups(rel));
            assert(start.groups(rel) =~= without_member_in(start.groups(rel), done, sid));
        }
        for gid in it: ids.iter()
            invariant
                it.seq() == items,
                items == spec_hash_keys_iter(ids).remaining(),
                forall|j: int| 0 <= j < it.index() ==> done.contains(*items[j]),
                forall|g: u64| done.contains(g) ==> ids@.contains(g),
                self@ == start.with_groups(rel, self@.groups(rel)),
                self@.groups(rel) == without_member_in(start.groups(rel), done, sid),
        {
            let ghost before = self@;
            proof {
                assert(spec_hash_keys_iter(ids).remaining().unref().to_set() == ids@);
                assert(it.seq().unref()[it.index()] == *gid);
                assert(ids@.contains(*gid));
            }
            if let Some(mut g) = self.take_group(rel, *gid) {
                let ghost mid = self@;
                g.students.remove(&sid);
                self.put_group(rel, *gid, g);
                proof {
                    lemma_with_groups(before, rel, before.groups(rel).remove(*gid), mid.groups(rel).insert(*gid, g@));
                    lemma_with_groups(mid, rel, mid.groups(rel), mid.groups(rel).insert(*gid, g@));
                    assert(self@.groups(rel) == before.groups(rel).remove(*gid).insert(*gid, g@));
                }
            }
            proof {
                done = done.insert(*gid);
                lemma_with_groups(start, rel, before.groups(rel), self@.groups(rel));
                lemma_with_groups(before, rel, before.groups(rel), self@.groups(rel));
                lemma_with_groups(before, rel, before.groups(rel).remove(*gid), self@.groups(rel));
                if start.groups(rel).contains_key(*gid) {
                    let m = start.groups(rel)[*gid].members;
                    assert(m.remove(sid).remove(sid) =~= m.remove(sid));
                }
            }
            assert(self@.groups(rel) =~= without_member_in(start.groups(rel), done, sid));
        }
        proof {
            lemma_with_groups(start, rel, self@.groups(rel), self@.groups(rel));
            assert(done =~= ids@) by {
                assert forall|g: u64| ids@.contains(g) implies done.contains(g) by {
                    assert(items.unref().to_set().contains(g));
                }
            }
        }
    }
    /// Removes `gid` from the links under `rel` of each student named in `ids`.
    fn drop_link_from(&mut self, rel: Relation, ids: &HashSet<u64>, gid: u64)
        ensures
            final(self)@ == (RegistryView { students: without_link_in(old(self)@.students, rel, ids@, gid), ..old(self)@ }),
    {
        let ghost start = self@;
        let ghost mut done: Set<u64> = Set::empty();
        let ghost items = spec_hash_keys_iter(ids).remaining();
        assert(start.students =~= without_link_in(start.students, rel, done, gid));
        for sid in it: ids.iter()
            invariant
                it.seq() == items,
                items == spec_hash_keys_iter(ids).remaining(),
                forall|j: int| 0 <= j < it.index() ==> done.contains(*items[j]),
                forall|k: u64| done.contains(k) ==> ids@.contains(k),
                self@ == (RegistryView {
                    students: without_link_in(start.students, rel, done, gid),
                    ..start
                }),
        {
            let ghost before = self@;
            proof {
                assert(spec_hash_keys_iter(ids).remaining().unref().to_set() == ids@);
                assert(it.seq().unref()[it.index()] == *sid);
                assert(ids@.contains(*sid));
            }
            if let Some(mut st) = self.take_student(*sid) {
                match rel {
                    Relation::Course => {
                        st.course_enrollments.remove(&gid);
                    },
                    Relation::Club => {
                        st.club_memberships.remove(&gid);
                    },
                }
                self.put_student(*sid, st);
                proof {
                    let l = start.students[*sid].links(rel);
                    assert(l.remove(gid).remove(gid) =~= l.remove(gid));
                    assert(st@ == before.students[*sid].with_links(rel, before.students[*sid].links(rel).remove(gid)));
                }
            }
            proof {
                done = done.insert(*sid);
            }
            assert(self@.students =~= without_link_in(start.students, rel, done, gid));
        }
        proof {
            assert(done =~= ids@) by {
                assert forall|k: u64| ids@.contains(k) implies done.contains(k) by {
                    assert(items.unref().to_set().contains(k));
                }
            }
        }
    }

    /// Leaves each student named in `ids` with no class.
    fn clear_class_of(&mut self, ids: &HashSet<u64>)
        ensures
            final(self)@ == (RegistryView { students: unassigned_in(old(self)@.students, ids@), ..old(self)@ }),
    {
        let ghost start = self@;
        let ghost mut done: Set<u64> = Set::empty();
        let ghost items = spec_hash_keys_iter(ids).remaining();
        assert(start.students =~= unassigned_in(start.students, done));
        for sid in it: ids.iter()
            invariant
                it.seq() == items,
                items == spec_hash_keys_iter(ids).remaining(),
                forall|j: int| 0 <= j < it.index() ==> done.contains(*items[j]),
                forall|k: u64| done.contains(k) ==> ids@.contains(k),
                self@ == (RegistryView {
                    students: unassigned_in(start.students, done),
                    ..start
                }),
        {
            proof {
                assert(spec_hash_keys_iter(ids).remaining().unref().to_set() == ids@);
                assert(it.seq().unref()[it.index()] == *sid);
                assert(ids@.contains(*sid));
            }
            if let Some(mut st) = self.take_student(*sid) {
                st.class_id = 0;
                self.put_student(*sid, st);
            }
            proof {
                done = done.insert(*sid);
            }
            assert(self@.students =~= unassigned_in(start.students, done));
        }
        proof {
            assert(done =~= ids@) by {
                assert forall|k: u64| ids@.contains(k) implies done.contains(k) by {
                    assert(items.unref().to_set().contains(k));
                }
            }
        }
    }
}

} // verus!
