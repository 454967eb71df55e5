//! The mathematical model of the registry: its state, its invariant, the state that
//! each operation leads to, and lemmas that each operation keeps the invariant.

use crate::entities::{GroupView, StudentView};
use vstd::prelude::*;

verus! {

/// The two many-to-many relations between students and groups.
#[derive(Clone, Copy)]
pub enum Relation {
    Course,
    Club,
}

/// Mathematical model of the registry: one table per kind of entity.
pub struct RegistryView {
    pub students: Map<u64, StudentView>,
    pub classes: Map<u64, GroupView>,
    pub clubs: Map<u64, GroupView>,
    pub courses: Map<u64, GroupView>,
}

impl StudentView {
    /// The ids of the groups this student is linked to under `rel`.
    pub open spec fn links(self, rel: Relation) -> Set<u64> {
        match rel {
            Relation::Course => self.courses,
            Relation::Club => self.clubs,
        }
    }

    /// This student with its links under `rel` replaced by `ids`.
    pub open spec fn with_links(self, rel: Relation, ids: Set<u64>) -> StudentView {
        match rel {
            Relation::Course => StudentView { courses: ids, ..self },
            Relation::Club => StudentView { clubs: ids, ..self },
        }
    }
}

impl GroupView {
    /// This group with its roster replaced by `members`.
    pub open spec fn with_members(self, members: Set<u64>) -> GroupView {
        GroupView { members, ..self }
    }
}

/// Every group of `groups`, with `sid` taken out of its roster.
pub open spec fn without_member(groups: Map<u64, GroupView>, sid: u64) -> Map<u64, GroupView> {
    Map::new(
        |g: u64| groups.contains_key(g),
        |g: u64| groups[g].with_members(groups[g].members.remove(sid)),
    )
}

/// Every group of `groups` named in `ids`, with `sid` taken out of its roster.
pub open spec fn without_member_in(groups: Map<u64, GroupView>, ids: Set<u64>, sid: u64) -> Map<u64, GroupView> {
    Map::new(
        |g: u64| groups.contains_key(g),
        |g: u64| if ids.contains(g) { groups[g].with_members(groups[g].members.remove(sid)) } else { groups[g] },
    )
}

/// Every student of `students` named in `ids`, with `gid` taken out of its links under `rel`.
pub open spec fn without_link_in(students: Map<u64, StudentView>, rel: Relation, ids: Set<u64>, gid: u64) -> Map<u64, StudentView> {
    Map::new(
        |k: u64| students.contains_key(k),
        |k: u64|
            if ids.contains(k) {
                students[k].with_links(rel, students[k].links(rel).remove(gid))
            } else {
                students[k]
            },
    )
}

/// Every student of `students` named in `ids`, left with no class.
pub open spec fn unassigned_in(students: Map<u64, StudentView>, ids: Set<u64>) -> Map<u64, StudentView> {
    Map::new(
        |k: u64| students.contains_key(k),
        |k: u64| if ids.contains(k) { StudentView { class_id: 0, ..students[k] } } else { students[k] },
    )
}

impl RegistryView {
    /// The table of groups taking part in `rel`.
    pub open spec fn groups(self, rel: Relation) -> Map<u64, GroupView> {
        match rel {
            Relation::Course => self.courses,
            Relation::Club => self.clubs,
        }
    }

    /// This registry with the table for `rel` replaced by `groups`.
    pub open spec fn with_groups(self, rel: Relation, groups: Map<u64, GroupView>) -> RegistryView {
        match rel {
            Relation::Course => RegistryView { courses: groups, ..self },
            Relation::Club => RegistryView { clubs: groups, ..self },
        }
    }

    /// Every record is stored under its own id.
    pub open spec fn keyed_by_id(self) -> bool {
        &&& forall|k: u64| #[trigger] self.students.contains_key(k) ==> self.students[k].id == k
        &&& forall|k: u64| #[trigger] self.classes.contains_key(k) ==> self.classes[k].id == k
        &&& forall|k: u64| #[trigger] self.clubs.contains_key(k) ==> self.clubs[k].id == k
        &&& forall|k: u64| #[trigger] self.courses.contains_key(k) ==> self.courses[k].id == k
    }

    /// A student links to a group under `rel` exactly when the group lists the student.
    pub open spec fn linked_both_ways(self, rel: Relation) -> bool {
        &&& forall|sid: u64, gid: u64|
            self.students.contains_key(sid) && #[trigger] self.students[sid].links(rel).contains(gid)
                ==> self.groups(rel).contains_key(gid) && self.groups(rel)[gid].members.contains(sid)
        &&& forall|sid: u64, gid: u64|
            self.groups(rel).contains_key(gid) && #[trigger] self.groups(rel)[gid].members.contains(sid)
                ==> self.students.contains_key(sid) && self.students[sid].links(rel).contains(gid)
    }

    /// A class lists only existing students whose `class_id` names that class.
    ///
    /// The converse is not required: a student's `class_id` may name a class that does
    /// not list it, when the id was given at creation or the class was not stored when
    /// the student was assigned to it.
    pub open spec fn rosters_backed(self) -> bool {
        forall|kid: u64, sid: u64|
            self.classes.contains_key(kid) && #[trigger] self.classes[kid].members.contains(sid)
                ==> self.students.contains_key(sid) && self.students[sid].class_id == kid
    }

    /// The registry's invariant: records are keyed by their ids, course and club
    /// links agree on both sides, and class rosters are backed by the students' records.
    pub open spec fn consistent(self) -> bool {
        &&& self.keyed_by_id()
        &&& self.linked_both_ways(Relation::Course)
        &&& self.linked_both_ways(Relation::Club)
        &&& self.rosters_backed()
    }

    /// `sid` removed from the student table and from every roster.
    pub open spec fn without_student(self, sid: u64) -> RegistryView {
        RegistryView {
            students: self.students.remove(sid),
            classes: without_member(self.classes, sid),
            clubs: without_member(self.clubs, sid),
            courses: without_member(self.courses, sid),
        }
    }

    /// `s` stored under its id.
    pub open spec fn with_student(self, s: StudentView) -> RegistryView {
        RegistryView { students: self.students.insert(s.id, s), ..self }
    }

    /// Student `sid` with a new name and age, its links kept.
    pub open spec fn with_student_fields(self, sid: u64, name: Seq<char>, age: u32) -> RegistryView {
        self.with_student(StudentView { name, age, ..self.students[sid] })
    }

    /// Group `gid` of `rel` removed, and taken out of every student's links under `rel`.
    pub open spec fn without_group(self, rel: Relation, gid: u64) -> RegistryView {
        RegistryView {
            students: Map::new(
                |s: u64| self.students.contains_key(s),
                |s: u64| self.students[s].with_links(rel, self.students[s].links(rel).remove(gid)),
            ),
            ..self.with_groups(rel, self.groups(rel).remove(gid))
        }
    }

    /// `g` stored under its id in the table of `rel`.
    pub open spec fn with_group(self, rel: Relation, g: GroupView) -> RegistryView {
        self.with_groups(rel, self.groups(rel).insert(g.id, g))
    }

    /// Group `gid` of `rel` renamed, its roster kept.
    pub open spec fn with_group_name(self, rel: Relation, gid: u64, name: Seq<char>) -> RegistryView {
        self.with_group(rel, GroupView { name, ..self.groups(rel)[gid] })
    }

    /// Class `kid` removed, and every student on its roster left with no class.
    pub open spec fn without_class(self, kid: u64) -> RegistryView {
        RegistryView {
            students: Map::new(
                |s: u64| self.students.contains_key(s),
                |s: u64|
                    if self.classes.contains_key(kid) && self.classes[kid].members.contains(s) {
                        StudentView { class_id: 0, ..self.students[s] }
                    } else {
                        self.students[s]
                    },
            ),
            classes: self.classes.remove(kid),
            ..self
        }
    }

    /// `g` stored under its id in the class table.
    pub open spec fn with_class(self, g: GroupView) -> RegistryView {
        RegistryView { classes: self.classes.insert(g.id, g), ..self }
    }

    /// Class `kid` renamed, its roster kept.
    pub open spec fn with_class_name(self, kid: u64, name: Seq<char>) -> RegistryView {
        self.with_class(GroupView { name, ..self.classes[kid] })
    }

    /// Student `sid` and group `gid` of `rel` linked on both sides.
    pub open spec fn linked(self, rel: Relation, sid: u64, gid: u64) -> RegistryView {
        let s = self.students[sid];
        let g = self.groups(rel)[gid];
        RegistryView {
            students: self.students.insert(sid, s.with_links(rel, s.links(rel).insert(gid))),
            ..self.with_groups(rel, self.groups(rel).insert(gid, g.with_members(g.members.insert(sid))))
        }
    }

    /// The link between student `sid` and group `gid` of `rel` removed on both sides.
    pub open spec fn unlinked(self, rel: Relation, sid: u64, gid: u64) -> RegistryView {
        let s = self.students[sid];
        let g = self.groups(rel)[gid];
        RegistryView {
            students: self.students.insert(sid, s.with_links(rel, s.links(rel).remove(gid))),
            ..self.with_groups(rel, self.groups(rel).insert(gid, g.with_members(g.members.remove(sid))))
        }
    }

    /// Student `sid` moved to class `kid`: off every roster, then onto the roster of `kid`
    /// if that class exists.
    pub open spec fn assigned(self, sid: u64, kid: u64) -> RegistryView {
        let off = without_member(self.classes, sid);
        RegistryView {
            students: self.students.insert(sid, StudentView { class_id: kid, ..self.students[sid] }),
            classes: if off.contains_key(kid) {
                off.insert(kid, off[kid].with_members(off[kid].members.insert(sid)))
            } else {
                off
            },
            ..self
        }
    }

    /// Student `sid` taken off every roster, with `class_id` 0.
    pub open spec fn unassigned(self, sid: u64) -> RegistryView {
        RegistryView {
            students: self.students.insert(sid, StudentView { class_id: 0, ..self.students[sid] }),
            classes: without_member(self.classes, sid),
            ..self
        }
    }
}

/// Removing a student, with the cascade over every roster, keeps the invariant.
pub proof fn lemma_without_student(r: RegistryView, sid: u64)
    requires
        r.consistent(),
    ensures
        r.without_student(sid).consistent(),
        !r.without_student(sid).students.contains_key(sid),
{
    let n = r.without_student(sid);
    assert forall|rel: Relation| #[trigger] n.linked_both_ways(rel) by {
        assert(n.groups(rel) == without_member(r.groups(rel), sid));
    }
}

/// Storing a student with no links under `rel`, under an id that no roster of `rel`
/// lists, keeps the two directions of `rel` in agreement.
proof fn lemma_student_links_kept(r: RegistryView, n: RegistryView, rel: Relation, sid: u64)
    requires
        r.linked_both_ways(rel),
        n.groups(rel) == r.groups(rel),
        n.students.dom() == r.students.dom().insert(sid),
        forall|k: u64| k != sid && r.students.contains_key(k) ==> n.students[k].links(rel) == r.students[k].links(rel),
        (r.students.contains_key(sid) && n.students[sid].links(rel) == r.students[sid].links(rel))
            || (n.students[sid].links(rel).is_empty() && !r.students.contains_key(sid)),
    ensures
        n.linked_both_ways(rel),
{
    assert forall|k: u64, gid: u64|
        n.students.contains_key(k) && #[trigger] n.students[k].links(rel).contains(gid)
            implies n.groups(rel).contains_key(gid) && n.groups(rel)[gid].members.contains(k) by {
        assert(r.students.contains_key(k));
        assert(r.students[k].links(rel).contains(gid));
    }
    assert forall|k: u64, gid: u64|
        n.groups(rel).contains_key(gid) && #[trigger] n.groups(rel)[gid].members.contains(k)
            implies n.students.contains_key(k) && n.students[k].links(rel).contains(gid) by {
        assert(r.groups(rel)[gid].members.contains(k));
    }
}

/// Storing a student with no links under a fresh id keeps the invariant.
pub proof fn lemma_with_student(r: RegistryView, s: StudentView)
    requires
        r.consistent(),
        !r.students.contains_key(s.id),
        s.courses.is_empty(),
        s.clubs.is_empty(),
    ensures
        r.with_student(s).consistent(),
{
    let n = r.with_student(s);
    lemma_student_links_kept(r, n, Relation::Course, s.id);
    lemma_student_links_kept(r, n, Relation::Club, s.id);
}

/// Changing a student's name and age keeps the invariant.
pub proof fn lemma_with_student_fields(r: RegistryView, sid: u64, name: Seq<char>, age: u32)
    requires
        r.consistent(),
        r.students.contains_key(sid),
    ensures
        r.with_student_fields(sid, name, age).consistent(),
{
    let n = r.with_student_fields(sid, name, age);
    assert(n.students.dom() =~= r.students.dom().insert(sid));
    lemma_student_links_kept(r, n, Relation::Course, sid);
    lemma_student_links_kept(r, n, Relation::Club, sid);
}

/// A relation whose links and rosters are untouched stays in agreement.
proof fn lemma_links_unchanged(r: RegistryView, n: RegistryView, rel: Relation)
    requires
        r.linked_both_ways(rel),
        n.groups(rel) == r.groups(rel),
        n.students.dom() == r.students.dom(),
        forall|k: u64| #[trigger] r.students.contains_key(k) ==> n.students[k].links(rel) == r.students[k].links(rel),
    ensures
        n.linked_both_ways(rel),
{
    assert forall|k: u64, gid: u64|
        n.students.contains_key(k) && #[trigger] n.students[k].links(rel).contains(gid)
            implies n.groups(rel).contains_key(gid) && n.groups(rel)[gid].members.contains(k) by {
        assert(r.students.contains_key(k));
        assert(r.students[k].links(rel).contains(gid));
    }
    assert forall|k: u64, gid: u64|
        n.groups(rel).contains_key(gid) && #[trigger] n.groups(rel)[gid].members.contains(k)
            implies n.students.contains_key(k) && n.students[k].links(rel).contains(gid) by {
        assert(r.groups(rel)[gid].members.contains(k));
        assert(r.students[k].links(rel).contains(gid));
    }
}

/// The relation other than `rel`.
pub open spec fn other(rel: Relation) -> Relation {
    match rel {
        Relation::Course => Relation::Club,
        Relation::Club => Relation::Course,
    }
}

/// The invariant, read for a relation given by a variable.
pub proof fn lemma_consistent_links(r: RegistryView, rel: Relation)
    requires
        r.consistent(),
    ensures
        r.linked_both_ways(rel),
        r.linked_both_ways(other(rel)),
{
    match rel {
        Relation::Course => {},
        Relation::Club => {},
    }
}

/// Both relations in agreement give the invariant's link clauses.
proof fn lemma_links_give_consistent(n: RegistryView, rel: Relation)
    requires
        n.keyed_by_id(),
        n.rosters_backed(),
        n.linked_both_ways(rel),
        n.linked_both_ways(other(rel)),
    ensures
        n.consistent(),
{
    match rel {
        Relation::Course => {},
        Relation::Club => {},
    }
}

/// Removing a group of `rel`, with the cascade over every student's links, keeps the
/// invariant.
pub proof fn lemma_without_group(r: RegistryView, rel: Relation, gid: u64)
    requires
        r.consistent(),
    ensures
        r.without_group(rel, gid).consistent(),
        !r.without_group(rel, gid).groups(rel).contains_key(gid),
{
    let n = r.without_group(rel, gid);
    lemma_consistent_links(r, rel);
    assert(n.groups(other(rel)) == r.groups(other(rel))) by {
        match rel {
            Relation::Course => {},
            Relation::Club => {},
        }
    }
    assert forall|k: u64| #[trigger] r.students.contains_key(k) implies n.students[k].links(other(rel))
        == r.students[k].links(other(rel)) by {
        match rel {
            Relation::Course => {},
            Relation::Club => {},
        }
    }
    assert(n.students.dom() =~= r.students.dom());
    lemma_links_unchanged(r, n, other(rel));
    assert forall|k: u64, g: u64|
        n.students.contains_key(k) && #[trigger] n.students[k].links(rel).contains(g)
            implies n.groups(rel).contains_key(g) && n.groups(rel)[g].members.contains(k) by {
        assert(r.students[k].links(rel).contains(g));
    }
    assert forall|k: u64, g: u64|
        n.groups(rel).contains_key(g) && #[trigger] n.groups(rel)[g].members.contains(k)
            implies n.students.contains_key(k) && n.students[k].links(rel).contains(g) by {
        assert(r.groups(rel)[g].members.contains(k));
        assert(r.students[k].links(rel).contains(g));
    }
    assert(n.linked_both_ways(rel));
    lemma_links_give_consistent(n, rel);
}

/// Storing a group with an empty roster under a fresh id of `rel` keeps the invariant.
pub proof fn lemma_with_group(r: RegistryView, rel: Relation, g: GroupView)
    requires
        r.consistent(),
        !r.groups(rel).contains_key(g.id),
        g.members.is_empty(),
    ensures
        r.with_group(rel, g).consistent(),
{
    let n = r.with_group(rel, g);
    lemma_consistent_links(r, rel);
    assert(n.groups(other(rel)) == r.groups(other(rel))) by {
        match rel {
            Relation::Course => {},
            Relation::Club => {},
        }
    }
    lemma_links_unchanged(r, n, other(rel));
    assert forall|k: u64, h: u64|
        n.students.contains_key(k) && #[trigger] n.students[k].links(rel).contains(h)
            implies n.groups(rel).contains_key(h) && n.groups(rel)[h].members.contains(k) by {
        assert(r.groups(rel).contains_key(h));
    }
    assert forall|k: u64, h: u64|
        n.groups(rel).contains_key(h) && #[trigger] n.groups(rel)[h].members.contains(k)
            implies n.students.contains_key(k) && n.students[k].links(rel).contains(h) by {
        if h == g.id {
            assert(!g.members.contains(k));
        } else {
            assert(r.groups(rel)[h].members.contains(k));
        }
    }
    lemma_links_give_consistent(n, rel);
}

/// Renaming a group of `rel` keeps the invariant.
pub proof fn lemma_with_group_name(r: RegistryView, rel: Relation, gid: u64, name: Seq<char>)
    requires
        r.consistent(),
        r.groups(rel).contains_key(gid),
    ensures
        r.with_group_name(rel, gid, name).consistent(),
{
    let n = r.with_group_name(rel, gid, name);
    lemma_consistent_links(r, rel);
    assert(n.groups(other(rel)) == r.groups(other(rel))) by {
        match rel {
            Relation::Course => {},
            Relation::Club => {},
        }
    }
    lemma_links_unchanged(r, n, other(rel));
    assert forall|k: u64, h: u64|
        n.students.contains_key(k) && #[trigger] n.students[k].links(rel).contains(h)
            implies n.groups(rel).contains_key(h) && n.groups(rel)[h].members.contains(k) by {
        assert(r.groups(rel).contains_key(h));
    }
    assert forall|k: u64, h: u64|
        n.groups(rel).contains_key(h) && #[trigger] n.groups(rel)[h].members.contains(k)
            implies n.students.contains_key(k) && n.students[k].links(rel).contains(h) by {
        assert(r.groups(rel)[h].members.contains(k));
    }
    lemma_links_give_consistent(n, rel);
}

/// Removing class `kid`, with the cascade over its roster, keeps the invariant.
pub proof fn lemma_without_class(r: RegistryView, kid: u64)
    requires
        r.consistent(),
    ensures
        r.without_class(kid).consistent(),
        !r.without_class(kid).classes.contains_key(kid),
{
    let n = r.without_class(kid);
    assert(n.students.dom() =~= r.students.dom());
    lemma_links_unchanged(r, n, Relation::Course);
    lemma_links_unchanged(r, n, Relation::Club);
    assert forall|k: u64, sid: u64|
        n.classes.contains_key(k) && #[trigger] n.classes[k].members.contains(sid)
            implies n.students.contains_key(sid) && n.students[sid].class_id == k by {
        assert(r.classes[k].members.contains(sid));
        if r.classes.contains_key(kid) && r.classes[kid].members.contains(sid) {
            assert(r.students[sid].class_id == kid);
        }
    }
}

/// Storing a class with an empty roster keeps the invariant.
pub proof fn lemma_with_class(r: RegistryView, g: GroupView)
    requires
        r.consistent(),
        g.members.is_empty(),
    ensures
        r.with_class(g).consistent(),
{
    let n = r.with_class(g);
    lemma_links_unchanged(r, n, Relation::Course);
    lemma_links_unchanged(r, n, Relation::Club);
    assert forall|k: u64, sid: u64|
        n.classes.contains_key(k) && #[trigger] n.classes[k].members.contains(sid)
            implies n.students.contains_key(sid) && n.students[sid].class_id == k by {
        if k == g.id {
            assert(!g.members.contains(sid));
        } else {
            assert(r.classes[k].members.contains(sid));
        }
    }
}

/// Renaming class `kid` keeps the invariant.
pub proof fn lemma_with_class_name(r: RegistryView, kid: u64, name: Seq<char>)
    requires
        r.consistent(),
        r.classes.contains_key(kid),
    ensures
        r.with_class_name(kid, name).consistent(),
{
    let n = r.with_class_name(kid, name);
    lemma_links_unchanged(r, n, Relation::Course);
    lemma_links_unchanged(r, n, Relation::Club);
    assert forall|k: u64, sid: u64|
        n.classes.contains_key(k) && #[trigger] n.classes[k].members.contains(sid)
            implies n.students.contains_key(sid) && n.students[sid].class_id == k by {
        assert(r.classes[k].members.contains(sid));
    }
}

/// Linking or unlinking an existing student and an existing group of `rel` keeps the
/// invariant, provided the student and the roster change together.
proof fn lemma_relinked(r: RegistryView, n: RegistryView, rel: Relation, sid: u64, gid: u64, add: bool)
    requires
        r.consistent(),
        r.students.contains_key(sid),
        r.groups(rel).contains_key(gid),
        n == (if add { r.linked(rel, sid, gid) } else { r.unlinked(rel, sid, gid) }),
    ensures
        n.consistent(),
{
    lemma_consistent_links(r, rel);
    assert(n.students.dom() =~= r.students.dom());
    assert(n.groups(other(rel)) == r.groups(other(rel))) by {
        match rel {
            Relation::Course => {},
            Relation::Club => {},
        }
    }
    assert forall|k: u64| #[trigger] r.students.contains_key(k) implies n.students[k].links(other(rel))
        == r.students[k].links(other(rel)) by {
        match rel {
            Relation::Course => {},
            Relation::Club => {},
        }
    }
    lemma_links_unchanged(r, n, other(rel));
    assert forall|k: u64, h: u64|
        n.students.contains_key(k) && #[trigger] n.students[k].links(rel).contains(h)
            implies n.groups(rel).contains_key(h) && n.groups(rel)[h].members.contains(k) by {
        if k != sid || h != gid {
            assert(r.students[k].links(rel).contains(h));
        }
    }
    assert forall|k: u64, h: u64|
        n.groups(rel).contains_key(h) && #[trigger] n.groups(rel)[h].members.contains(k)
            implies n.students.contains_key(k) && n.students[k].links(rel).contains(h) by {
        if k != sid || h != gid {
            assert(r.groups(rel)[h].members.contains(k));
        }
    }
    assert forall|k: u64, s: u64|
        n.classes.contains_key(k) && #[trigger] n.classes[k].members.contains(s)
            implies n.students.contains_key(s) && n.students[s].class_id == k by {
        assert(r.classes[k].members.contains(s));
    }
    lemma_links_give_consistent(n, rel);
}

/// Linking an existing student and an existing group of `rel` keeps the invariant.
pub proof fn lemma_linked(r: RegistryView, rel: Relation, sid: u64, gid: u64)
    requires
        r.consistent(),
        r.students.contains_key(sid),
        r.groups(rel).contains_key(gid),
    ensures
        r.linked(rel, sid, gid).consistent(),
{
    lemma_relinked(r, r.linked(rel, sid, gid), rel, sid, gid, true);
}

/// Unlinking an existing student and an existing group of `rel` keeps the invariant.
pub proof fn lemma_unlinked(r: RegistryView, rel: Relation, sid: u64, gid: u64)
    requires
        r.consistent(),
        r.students.contains_key(sid),
        r.groups(rel).contains_key(gid),
    ensures
        r.unlinked(rel, sid, gid).consistent(),
{
    lemma_relinked(r, r.unlinked(rel, sid, gid), rel, sid, gid, false);
}

/// Moving an existing student to a class keeps the invariant.
pub proof fn lemma_assigned(r: RegistryView, sid: u64, kid: u64)
    requires
        r.consistent(),
        r.students.contains_key(sid),
    ensures
        r.assigned(sid, kid).consistent(),
{
    let n = r.assigned(sid, kid);
    assert(n.students.dom() =~= r.students.dom());
    lemma_links_unchanged(r, n, Relation::Course);
    lemma_links_unchanged(r, n, Relation::Club);
    assert forall|k: u64, s: u64|
        n.classes.contains_key(k) && #[trigger] n.classes[k].members.contains(s)
            implies n.students.contains_key(s) && n.students[s].class_id == k by {
        if s != sid {
            assert(r.classes[k].members.contains(s));
        }
    }
}

/// Taking an existing student out of its class keeps the invariant.
pub proof fn lemma_unassigned(r: RegistryView, sid: u64)
    requires
        r.consistent(),
        r.students.contains_key(sid),
    ensures
        r.unassigned(sid).consistent(),
{
    let n = r.unassigned(sid);
    assert(n.students.dom() =~= r.students.dom());
    lemma_links_unchanged(r, n, Relation::Course);
    lemma_links_unchanged(r, n, Relation::Club);
    assert forall|k: u64, s: u64|
        n.classes.contains_key(k) && #[trigger] n.classes[k].members.contains(s)
            implies n.students.contains_key(s) && n.students[s].class_id == k by {
        assert(r.classes[k].members.contains(s));
    }
}

/// Replacing the table of `rel` twice keeps only the second; replacing it with itself
/// changes nothing.
pub proof fn lemma_with_groups(r: RegistryView, rel: Relation, a: Map<u64, GroupView>, b: Map<u64, GroupView>)
    ensures
        r.with_groups(rel, a).groups(rel) == a,
        r.with_groups(rel, a).with_groups(rel, b) == r.with_groups(rel, b),
        r.with_groups(rel, r.groups(rel)) == r,
{
    match rel {
        Relation::Course => {},
        Relation::Club => {},
    }
}

/// Under the invariant, the rosters that list a student are exactly those its own
/// record names, so the cascade of its removal touches only those.
pub proof fn lemma_student_cascade(r: RegistryView, sid: u64)
    requires
        r.consistent(),
        r.students.contains_key(sid),
    ensures
        without_member_in(r.courses, r.students[sid].courses, sid) == without_member(r.courses, sid),
        without_member_in(r.clubs, r.students[sid].clubs, sid) == without_member(r.clubs, sid),
        (if r.classes.contains_key(r.students[sid].class_id) {
            let k = r.students[sid].class_id;
            r.classes.insert(k, r.classes[k].with_members(r.classes[k].members.remove(sid)))
        } else {
            r.classes
        }) == without_member(r.classes, sid),
{
    assert(r.linked_both_ways(Relation::Course));
    assert(r.linked_both_ways(Relation::Club));
    let s = r.students[sid];
    assert forall|g: u64| r.courses.contains_key(g) && !s.courses.contains(g) implies
        r.courses[g].members.remove(sid) =~= r.courses[g].members by {
        if r.courses[g].members.contains(sid) {
            assert(r.groups(Relation::Course)[g].members.contains(sid));
        }
    }
    assert(without_member_in(r.courses, s.courses, sid) =~= without_member(r.courses, sid));
    assert forall|g: u64| r.clubs.contains_key(g) && !s.clubs.contains(g) implies
        r.clubs[g].members.remove(sid) =~= r.clubs[g].members by {
        if r.clubs[g].members.contains(sid) {
            assert(r.groups(Relation::Club)[g].members.contains(sid));
        }
    }
    assert(without_member_in(r.clubs, s.clubs, sid) =~= without_member(r.clubs, sid));
    assert forall|g: u64| r.classes.contains_key(g) && g != s.class_id implies
        r.classes[g].members.remove(sid) =~= r.classes[g].members by {
        if r.classes[g].members.contains(sid) {
            assert(r.students[sid].class_id == g);
        }
    }
    if r.classes.contains_key(s.class_id) {
        let k = s.class_id;
        assert(r.classes.insert(k, r.classes[k].with_members(r.classes[k].members.remove(sid)))
            =~= without_member(r.classes, sid));
    } else {
        assert(r.classes =~= without_member(r.classes, sid));
    }
}

/// Removing a student that is not stored changes nothing.
pub proof fn lemma_absent_student(r: RegistryView, sid: u64)
    requires
        r.consistent(),
        !r.students.contains_key(sid),
    ensures
        r.without_student(sid) == r,
{
    assert(r.linked_both_ways(Relation::Course));
    assert(r.linked_both_ways(Relation::Club));
    assert forall|g: u64| r.courses.contains_key(g) implies r.courses[g].members.remove(sid) =~= r.courses[g].members by {
        if r.courses[g].members.contains(sid) {
            assert(r.groups(Relation::Course)[g].members.contains(sid));
        }
    }
    assert forall|g: u64| r.clubs.contains_key(g) implies r.clubs[g].members.remove(sid) =~= r.clubs[g].members by {
        if r.clubs[g].members.contains(sid) {
            assert(r.groups(Relation::Club)[g].members.contains(sid));
        }
    }
    assert forall|g: u64| r.classes.contains_key(g) implies r.classes[g].members.remove(sid) =~= r.classes[g].members by {
        if r.classes[g].members.contains(sid) {
            assert(r.classes[g].members.contains(sid));
        }
    }
    assert(without_member(r.courses, sid) =~= r.courses);
    assert(without_member(r.clubs, sid) =~= r.clubs);
    assert(without_member(r.classes, sid) =~= r.classes);
    assert(r.students.remove(sid) =~= r.students);
}

/// Under the invariant, the students that link to a group are exactly those on its
/// roster, so the cascade of its removal touches only those.
pub proof fn lemma_group_cascade(r: RegistryView, rel: Relation, gid: u64)
    requires
        r.consistent(),
    ensures
        r.groups(rel).contains_key(gid) ==> without_link_in(r.students, rel, r.groups(rel)[gid].members, gid)
            == r.without_group(rel, gid).students,
        !r.groups(rel).contains_key(gid) ==> r.without_group(rel, gid) == r,
{
    lemma_consistent_links(r, rel);
    assert forall|k: u64| r.students.contains_key(k) && !(r.groups(rel).contains_key(gid) && r.groups(rel)[gid].members.contains(k))
        implies r.students[k].links(rel).remove(gid) =~= r.students[k].links(rel) by {
        if r.students[k].links(rel).contains(gid) {
            assert(r.students[k].links(rel).contains(gid));
        }
    }
    assert forall|k: u64| r.students.contains_key(k) && !(r.groups(rel).contains_key(gid) && r.groups(rel)[gid].members.contains(k))
        implies r.students[k].with_links(rel, r.students[k].links(rel).remove(gid)) == r.students[k] by {
        match rel {
            Relation::Course => {},
            Relation::Club => {},
        }
    }
    if r.groups(rel).contains_key(gid) {
        assert(without_link_in(r.students, rel, r.groups(rel)[gid].members, gid) =~= r.without_group(rel, gid).students);
    } else {
        let n = r.without_group(rel, gid);
        assert(n.students =~= r.students);
        assert(r.groups(rel).remove(gid) =~= r.groups(rel));
        lemma_with_groups(r, rel, r.groups(rel), r.groups(rel));
    }
}

} // verus!
