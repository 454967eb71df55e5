//! Properties that relate several operations, stated over the model.

use crate::entities::StudentView;
use crate::model::{lemma_absent_student, lemma_without_student, RegistryView, Relation};
use vstd::prelude::*;

verus! {

/// After a student is created under `id`, reading `id` gives back exactly the fields it
/// was created with and no links, while whether any other id is stored is unchanged.
pub proof fn lemma_create_then_read(
    r: RegistryView,
    id: u64,
    name: Seq<char>,
    age: u32,
    class_id: u64,
    other: u64,
)
    requires
        r.consistent(),
        other != id,
    ensures
        ({
            let s = StudentView { id, name, age, class_id, courses: Set::empty(), clubs: Set::empty() };
            let n = r.without_student(id).with_student(s);
            &&& n.students.contains_key(id)
            &&& n.students[id] == s
            &&& n.students.contains_key(other) == r.students.contains_key(other)
        }),
{
}

/// After a stored student is enrolled in a stored course, the student's courses hold
/// the course and the course's roster holds the student.
pub proof fn lemma_enroll_links_both_sides(r: RegistryView, sid: u64, cid: u64)
    requires
        r.consistent(),
        r.students.contains_key(sid),
        r.courses.contains_key(cid),
    ensures
        r.linked(Relation::Course, sid, cid).students[sid].courses.contains(cid),
        r.linked(Relation::Course, sid, cid).courses[cid].members.contains(sid),
{
}

/// Enrolling a stored student in a stored course and then removing the student from it
/// leaves neither side holding the other.
pub proof fn lemma_enroll_then_remove(r: RegistryView, sid: u64, cid: u64)
    requires
        r.consistent(),
        r.students.contains_key(sid),
        r.courses.contains_key(cid),
    ensures
        ({
            let n = r.linked(Relation::Course, sid, cid).unlinked(Relation::Course, sid, cid);
            &&& n.students.contains_key(sid)
            &&& n.courses.contains_key(cid)
            &&& !n.students[sid].courses.contains(cid)
            &&& !n.courses[cid].members.contains(sid)
        }),
{
}

/// After a stored student is assigned to a stored class, its `class_id` names the class
/// and the class's roster holds it; after it is then unassigned, its `class_id` is 0 and
/// the roster no longer holds it.
pub proof fn lemma_assign_then_unassign(r: RegistryView, sid: u64, kid: u64)
    requires
        r.consistent(),
        r.students.contains_key(sid),
        r.classes.contains_key(kid),
    ensures
        r.assigned(sid, kid).students[sid].class_id == kid,
        r.assigned(sid, kid).classes[kid].members.contains(sid),
        r.assigned(sid, kid).unassigned(sid).students[sid].class_id == 0,
        r.assigned(sid, kid).unassigned(sid).classes.contains_key(kid),
        !r.assigned(sid, kid).unassigned(sid).classes[kid].members.contains(sid),
{
}

/// After a student is deleted it is no longer stored, and deleting it a second time
/// changes nothing.
pub proof fn lemma_delete_student_idempotent(r: RegistryView, sid: u64)
    requires
        r.consistent(),
    ensures
        !r.without_student(sid).students.contains_key(sid),
        r.without_student(sid).without_student(sid) == r.without_student(sid),
{
    lemma_without_student(r, sid);
    lemma_absent_student(r.without_student(sid), sid);
}

} // verus!
