//! The rules behind the requests of the registration front end: who may do
//! what with the users, the courses on offer and the schedule of the student
//! who is logged in.
//!
//! Every operation takes the state it reads or changes and the session of
//! the caller, and either carries out the request or refuses it with a
//! status and a message. A refused request leaves the state as it was. The
//! account named `admin` administers users and courses; every other account
//! is a student's and works on the schedule.

use vstd::prelude::*;
use crate::text::same_text;
use crate::timetable::{
    any_slots_clash, course_violation, error_message, error_text, meeting_slots,
    parse_meeting_time, slot_views, slots_conflict, validate_course, well_formed,
};

verus! {

/// An account.
#[derive(Debug)]
pub struct User {
    pub username: String,
    pub password: String,
    pub role: String,
}

/// The account that is logged in.
#[derive(Debug)]
pub struct Session {
    pub username: String,
}

/// A course on offer.
#[derive(Debug)]
pub struct Course {
    pub id: u32,
    pub dept_code: String,
    pub course_number: String,
    pub instructor: String,
    pub description: String,
    pub location: String,
    pub meeting_time: String,
}

/// A course to be offered, which has no id yet.
#[derive(Debug)]
pub struct NewCourse {
    pub dept_code: String,
    pub course_number: String,
    pub instructor: String,
    pub description: String,
    pub location: String,
    pub meeting_time: String,
}

/// A course of the student's schedule, with the student's notes.
#[derive(Debug)]
pub struct ScheduledCourse {
    pub course_id: u32,
    pub notes: String,
    pub slot: String,
}

/// The schedule of the student.
#[derive(Debug)]
pub struct Schedule {
    pub courses: Vec<ScheduledCourse>,
}

/// The kind of a refusal.
#[derive(Debug, Clone, Copy, PartialEq, Eq, Structural)]
pub enum Status {
    /// The request makes no sense as it stands.
    BadRequest,
    /// The caller did not prove who they are.
    Unauthorized,
    /// The caller may not do this.
    Forbidden,
    /// The request clashes with what is there.
    Conflict,
}

/// A refusal: its kind and a message for the caller.
#[derive(Debug)]
pub struct Refusal {
    pub status: Status,
    pub message: String,
}

/// The contents of a refusal.
pub struct RefusalView {
    pub status: Status,
    pub message: Seq<char>,
}

impl View for Refusal {
    type V = RefusalView;

    open spec fn view(&self) -> RefusalView {
        RefusalView { status: self.status, message: self.message@ }
    }
}

impl Clone for User {
    fn clone(&self) -> (res: Self)
        ensures
            res == *self,
    {
        User {
            username: self.username.clone(),
            password: self.password.clone(),
            role: self.role.clone(),
        }
    }
}

impl Clone for Course {
    fn clone(&self) -> (res: Self)
        ensures
            res == *self,
    {
        Course {
            id: self.id,
            dept_code: self.dept_code.clone(),
            course_number: self.course_number.clone(),
            instructor: self.instructor.clone(),
            description: self.description.clone(),
            location: self.location.clone(),
            meeting_time: self.meeting_time.clone(),
        }
    }
}

impl Clone for ScheduledCourse {
    fn clone(&self) -> (res: Self)
        ensures
            res == *self,
    {
        ScheduledCourse {
            course_id: self.course_id,
            notes: self.notes.clone(),
            slot: self.slot.clone(),
        }
    }
}

impl Default for Schedule {
    fn default() -> (schedule: Self)
        ensures
            schedule.courses@.len() == 0,
    {
        Schedule { courses: Vec::new() }
    }
}

/// The refusal of the kind `status` with the message `message`.
pub open spec fn refusal(status: Status, message: Seq<char>) -> RefusalView {
    RefusalView { status, message }
}

/// The administrator is logged in.
pub open spec fn is_admin(session: Option<Session>) -> bool {
    session matches Some(s) && s.username@ == "admin"@
}

/// A student is logged in.
pub open spec fn is_student(session: Option<Session>) -> bool {
    session matches Some(s) && s.username@ != "admin"@
}

/// The names of the accounts, in their order.
pub open spec fn usernames(users: Seq<User>) -> Seq<Seq<char>> {
    users.map_values(|u: User| u.username@)
}

/// The ids of the courses on offer, in their order.
pub open spec fn course_ids(courses: Seq<Course>) -> Seq<u32> {
    courses.map_values(|c: Course| c.id)
}

/// The ids of the courses of the schedule, in their order.
pub open spec fn scheduled_ids(courses: Seq<ScheduledCourse>) -> Seq<u32> {
    courses.map_values(|c: ScheduledCourse| c.course_id)
}

/// The account is a student's.
pub open spec fn has_student_role() -> spec_fn(User) -> bool {
    |u: User| u.role@ == "student"@
}

/// The scheduled course is another than `course_id`.
pub open spec fn is_other_course(course_id: u32) -> spec_fn(ScheduledCourse) -> bool {
    |c: ScheduledCourse| c.course_id != course_id
}

/// The account has this name and this password.
pub open spec fn logs_in(user: User, username: Seq<char>, password: Seq<char>) -> bool {
    user.username@ == username && user.password@ == password
}

/// The account at `i` is the first with this name and this password.
pub open spec fn is_first_login(
    users: Seq<User>,
    username: Seq<char>,
    password: Seq<char>,
    i: int,
) -> bool {
    &&& 0 <= i < users.len()
    &&& logs_in(users[i], username, password)
    &&& forall|j: int| 0 <= j < i ==> !logs_in(#[trigger] users[j], username, password)
}

/// Makes a refusal.
pub fn refuse(status: Status, message: &str) -> (r: Refusal)
    ensures
        r@ == refusal(status, message@),
{
    Refusal { status, message: String::from_str(message) }
}

/// Tells whether the administrator is logged in.
pub fn admin_logged_in(session: &Option<Session>) -> (r: bool)
    ensures
        r == is_admin(*session),
{
    match session {
        Some(s) => same_text(s.username.as_str(), "admin"),
        None => false,
    }
}

/// Tells whether a student is logged in.
pub fn student_logged_in(session: &Option<Session>) -> (r: bool)
    ensures
        r == is_student(*session),
{
    match session {
        Some(s) => !same_text(s.username.as_str(), "admin"),
        None => false,
    }
}

/// Finds the first account named `username`.
pub fn find_user(users: &Vec<User>, username: &String) -> (r: Option<usize>)
    ensures
        match r {
            Some(i) => i < users.len() && usernames(users@).index_of_first(username@) == Some(
                i as int,
            ),
            None => usernames(users@).index_of_first(username@) is None,
        },
{
    let ghost keys = usernames(users@);
    let mut i: usize = 0;
    while i < users.len()
        invariant
            i <= users.len(),
            keys == usernames(users@),
            forall|j: int| 0 <= j < i ==> keys[j] != username@,
        decreases users.len() - i,
    {
        if users[i].username == *username {
            proof {
                keys.index_of_first_ensures(username@);
                assert(keys[i as int] == username@);
                assert(keys.contains(username@));
            }
            return Some(i);
        }
        i = i + 1;
    }
    proof {
        keys.index_of_first_ensures(username@);
    }
    None
}

/// Finds the first course on offer with the id `id`.
pub fn find_course(courses: &Vec<Course>, id: u32) -> (r: Option<usize>)
    ensures
        match r {
            Some(i) => i < courses.len() && course_ids(courses@).index_of_first(id) == Some(
                i as int,
            ),
            None => course_ids(courses@).index_of_first(id) is None,
        },
{
    let ghost keys = course_ids(courses@);
    let mut i: usize = 0;
    while i < courses.len()
        invariant
            i <= courses.len(),
            keys == course_ids(courses@),
            forall|j: int| 0 <= j < i ==> keys[j] != id,
        decreases courses.len() - i,
    {
        if courses[i].id == id {
            proof {
                keys.index_of_first_ensures(id);
                assert(keys[i as int] == id);
                assert(keys.contains(id));
            }
            return Some(i);
        }
        i = i + 1;
    }
    proof {
        keys.index_of_first_ensures(id);
    }
    None
}

/// Finds the first course of the schedule with the id `id`.
pub fn find_scheduled(courses: &Vec<ScheduledCourse>, id: u32) -> (r: Option<usize>)
    ensures
        match r {
            Some(i) => i < courses.len() && scheduled_ids(courses@).index_of_first(id) == Some(
                i as int,
            ),
            None => scheduled_ids(courses@).index_of_first(id) is None,
        },
{
    let ghost keys = scheduled_ids(courses@);
    let mut i: usize = 0;
    while i < courses.len()
        invariant
            i <= courses.len(),
            keys == scheduled_ids(courses@),
            forall|j: int| 0 <= j < i ==> keys[j] != id,
        decreases courses.len() - i,
    {
        if courses[i].course_id == id {
            proof {
                keys.index_of_first_ensures(id);
                assert(keys[i as int] == id);
                assert(keys.contains(id));
            }
            return Some(i);
        }
        i = i + 1;
    }
    proof {
        keys.index_of_first_ensures(id);
    }
    None
}

/// Logs in the first account with this name and this password, and tells
/// its role. Nobody can log in while somebody is logged in.
pub fn login(users: &Vec<User>, session: &Option<Session>, username: &String, password: &String)
    -> (r: Result<(Session, String), Refusal>)
    ensures
        match r {
            Ok((opened, role)) => {
                &&& *session is None
                &&& opened.username@ == username@
                &&& exists|i: int|
                    is_first_login(users@, username@, password@, i) && role == (
                    #[trigger] users@[i]).role
            },
            Err(e) => if *session is Some {
                e@ == refusal(Status::Forbidden, "Another user is already logged in"@)
            } else {
                &&& forall|i: int|
                    0 <= i < users.len() ==> !logs_in(#[trigger] users@[i], username@, password@)
                &&& e@ == refusal(Status::Unauthorized, "Invalid credentials"@)
            },
        },
{
    if session.is_some() {
        return Err(refuse(Status::Forbidden, "Another user is already logged in"));
    }
    let mut i: usize = 0;
    while i < users.len()
        invariant
            i <= users.len(),
            *session is None,
            forall|j: int| 0 <= j < i ==> !logs_in(#[trigger] users@[j], username@, password@),
        decreases users.len() - i,
    {
        if users[i].username == *username && users[i].password == *password {
            proof {
                assert(is_first_login(users@, username@, password@, i as int));
            }
            return Ok((Session { username: users[i].username.clone() }, users[i].role.clone()));
        }
        i = i + 1;
    }
    Err(refuse(Status::Unauthorized, "Invalid credentials"))
}

/// Why the account `username` cannot be added, `None` where it can.
pub open spec fn add_user_refusal(
    users: Seq<User>,
    session: Option<Session>,
    username: Seq<char>,
) -> Option<RefusalView> {
    if !is_admin(session) {
        Some(refusal(Status::Forbidden, "Only admin can add users"@))
    } else if usernames(users).contains(username) {
        Some(refusal(Status::BadRequest, "Username already exists"@))
    } else {
        None
    }
}

/// Adds a student's account with this name and this password, at the end of
/// the accounts. Only the administrator may, and no two accounts have the
/// same name.
pub fn add_user(
    users: &mut Vec<User>,
    session: &Option<Session>,
    username: String,
    password: String,
) -> (r: Result<(), Refusal>)
    ensures
        match r {
            Ok(_) => {
                &&& add_user_refusal(old(users)@, *session, username@) is None
                &&& final(users)@.len() == old(users)@.len() + 1
                &&& final(users)@.drop_last() == old(users)@
                &&& final(users)@.last().username == username
                &&& final(users)@.last().password == password
                &&& final(users)@.last().role@ == "student"@
            },
            Err(e) => add_user_refusal(old(users)@, *session, username@) == Some(e@) && final(users)@ == old(users)@,
        },
{
    if !admin_logged_in(session) {
        return Err(refuse(Status::Forbidden, "Only admin can add users"));
    }
    proof {
        usernames(users@).index_of_first_ensures(username@);
    }
    if find_user(users, &username).is_some() {
        return Err(refuse(Status::BadRequest, "Username already exists"));
    }
    let ghost before = users@;
    users.push(User { username, password, role: String::from_str("student") });
    proof {
        assert(users@.drop_last() =~= before);
    }
    Ok(())
}

/// Why the account `username` cannot be deleted, `None` where it can.
pub open spec fn delete_user_refusal(
    users: Seq<User>,
    session: Option<Session>,
    username: Seq<char>,
) -> Option<RefusalView> {
    if !is_admin(session) {
        Some(refusal(Status::Forbidden, "Only admin can delete users"@))
    } else if username == "admin"@ {
        Some(refusal(Status::BadRequest, "Cannot delete admin account"@))
    } else if usernames(users).index_of_first(username) is None {
        Some(refusal(Status::BadRequest, "User not found"@))
    } else {
        None
    }
}

/// Deletes the first account named `username`. Only the administrator may,
/// and the administrator's own account stays.
pub fn delete_user(users: &mut Vec<User>, session: &Option<Session>, username: &String) -> (r:
    Result<(), Refusal>)
    ensures
        match r {
            Ok(_) => delete_user_refusal(old(users)@, *session, username@) is None && final(users)@ == old(users)@.remove(usernames(old(users)@).index_of_first(username@)->0),
            Err(e) => delete_user_refusal(old(users)@, *session, username@) == Some(e@) && final(users)@ == old(users)@,
        },
{
    if !admin_logged_in(session) {
        return Err(refuse(Status::Forbidden, "Only admin can delete users"));
    }
    if same_text(username.as_str(), "admin") {
        return Err(refuse(Status::BadRequest, "Cannot delete admin account"));
    }
    match find_user(users, username) {
        Some(i) => {
            users.remove(i);
            Ok(())
        },
        None => Err(refuse(Status::BadRequest, "User not found")),
    }
}

/// The students' accounts, in the order of the accounts. Only the
/// administrator may see them.
pub fn get_users(users: &Vec<User>, session: &Option<Session>) -> (r: Result<Vec<User>, Refusal>)
    ensures
        match r {
            Ok(students) => is_admin(*session) && students@ == users@.filter(has_student_role()),
            Err(e) => !is_admin(*session) && e@ == refusal(
                Status::Forbidden,
                "Only admin can view users"@,
            ),
        },
{
    if !admin_logged_in(session) {
        return Err(refuse(Status::Forbidden, "Only admin can view users"));
    }
    let ghost pred = has_student_role();
    let mut students: Vec<User> = Vec::new();
    let mut i: usize = 0;
    while i < users.len()
        invariant
            i <= users.len(),
            pred == has_student_role(),
            students@ == users@.take(i as int).filter(pred),
        decreases users.len() - i,
    {
        proof {
            assert(users@.take(i + 1) =~= users@.take(i as int).push(users@[i as int]));
            users@.take(i as int).lemma_filter_push(users@[i as int], pred);
        }
        if same_text(users[i].role.as_str(), "student") {
            students.push(users[i].clone());
        }
        i = i + 1;
    }
    proof {
        assert(users@.take(users@.len() as int) =~= users@);
    }
    Ok(students)
}

/// Takes every entry for the course `course_id` out of the schedule.
pub fn drop_course(schedule: &mut Schedule, course_id: u32)
    ensures
        final(schedule).courses@ == old(schedule).courses@.filter(is_other_course(course_id)),
{
    let ghost pred = is_other_course(course_id);
    let ghost before = schedule.courses@;
    let mut entries: Vec<ScheduledCourse> = Vec::new();
    std::mem::swap(&mut schedule.courses, &mut entries);
    let mut kept: Vec<ScheduledCourse> = Vec::new();
    for entry in it: entries
        invariant
            pred == is_other_course(course_id),
            it.seq() == before,
            kept@ == it.seq().take(it.index()).filter(pred),
    {
        proof {
            assert(it.seq().take(it.index() + 1) =~= it.seq().take(it.index()).push(entry));
            it.seq().take(it.index()).lemma_filter_push(entry, pred);
        }
        if entry.course_id != course_id {
            kept.push(entry);
        }
    }
    proof {
        assert(before.take(before.len() as int) =~= before);
    }
    schedule.courses = kept;
}

/// Why the course cannot be offered, `None` where it can.
pub open spec fn offer_refusal(
    session: Option<Session>,
    dept_code: Seq<char>,
    meeting_time: Seq<char>,
    forbidden: Seq<char>,
) -> Option<RefusalView> {
    if !is_admin(session) {
        Some(refusal(Status::Forbidden, forbidden))
    } else {
        match course_violation(dept_code, meeting_time) {
            Some(e) => Some(refusal(Status::BadRequest, error_text(e))),
            None => None,
        }
    }
}

/// Tells why the course cannot be offered, `None` where it can.
fn check_offer(session: &Option<Session>, dept_code: &str, meeting_time: &str, forbidden: &str)
    -> (r: Option<Refusal>)
    ensures
        match r {
            Some(e) => offer_refusal(*session, dept_code@, meeting_time@, forbidden@) == Some(e@),
            None => offer_refusal(*session, dept_code@, meeting_time@, forbidden@) is None,
        },
{
    if !admin_logged_in(session) {
        return Some(refuse(Status::Forbidden, forbidden));
    }
    match validate_course(dept_code, meeting_time) {
        Err(e) => Some(Refusal { status: Status::BadRequest, message: error_message(e) }),
        Ok(_) => None,
    }
}

/// Offers a new course, at the end of the courses on offer. Its id is one
/// more than the number of the courses on offer before. Only the
/// administrator may, and the course must be one that can be offered.
pub fn add_course(courses: &mut Vec<Course>, session: &Option<Session>, new: NewCourse) -> (r:
    Result<Course, Refusal>)
    requires
        old(courses).len() < u32::MAX,
    ensures
        match r {
            Ok(added) => {
                &&& offer_refusal(
                    *session,
                    new.dept_code@,
                    new.meeting_time@,
                    "Only admin can add courses"@,
                ) is None
                &&& added.id == old(courses)@.len() + 1
                &&& added.dept_code == new.dept_code
                &&& added.course_number == new.course_number
                &&& added.instructor == new.instructor
                &&& added.description == new.description
                &&& added.location == new.location
                &&& added.meeting_time == new.meeting_time
                &&& final(courses)@ == old(courses)@.push(added)
            },
            Err(e) => offer_refusal(
                *session,
                new.dept_code@,
                new.meeting_time@,
                "Only admin can add courses"@,
            ) == Some(e@) && final(courses)@ == old(courses)@,
        },
{
    match check_offer(
        session,
        new.dept_code.as_str(),
        new.meeting_time.as_str(),
        "Only admin can add courses",
    ) {
        Some(e) => {
            return Err(e);
        },
        None => {},
    }
    let course = Course {
        id: courses.len() as u32 + 1,
        dept_code: new.dept_code,
        course_number: new.course_number,
        instructor: new.instructor,
        description: new.description,
        location: new.location,
        meeting_time: new.meeting_time,
    };
    courses.push(course.clone());
    Ok(course)
}

/// Why the course cannot be changed, `None` where it can.
pub open spec fn update_course_refusal(
    courses: Seq<Course>,
    session: Option<Session>,
    data: Course,
) -> Option<RefusalView> {
    match offer_refusal(
        session,
        data.dept_code@,
        data.meeting_time@,
        "Only admin can update courses"@,
    ) {
        Some(e) => Some(e),
        None => if course_ids(courses).index_of_first(data.id) is None {
            Some(refusal(Status::BadRequest, "Course not found"@))
        } else {
            None
        },
    }
}

/// Puts `data` in the place of the first course on offer with its id, and
/// takes that course out of the schedule. Only the administrator may, and
/// the course must be one that can be offered.
pub fn update_course(
    courses: &mut Vec<Course>,
    schedule: &mut Schedule,
    session: &Option<Session>,
    data: Course,
) -> (r: Result<Course, Refusal>)
    ensures
        match r {
            Ok(updated) => {
                &&& update_course_refusal(old(courses)@, *session, data) is None
                &&& updated == data
                &&& final(courses)@ == old(courses)@.update(
                    course_ids(old(courses)@).index_of_first(data.id)->0,
                    data,
                )
                &&& final(schedule).courses@ == old(schedule).courses@.filter(
                    is_other_course(data.id),
                )
            },
            Err(e) => {
                &&& update_course_refusal(old(courses)@, *session, data) == Some(e@)
                &&& final(courses)@ == old(courses)@
                &&& final(schedule).courses@ == old(schedule).courses@
            },
        },
{
    match check_offer(
        session,
        data.dept_code.as_str(),
        data.meeting_time.as_str(),
        "Only admin can update courses",
    ) {
        Some(e) => {
            return Err(e);
        },
        None => {},
    }
    match find_course(courses, data.id) {
        Some(i) => {
            courses.set(i, data.clone());
            drop_course(schedule, data.id);
            Ok(data)
        },
        None => Err(refuse(Status::BadRequest, "Course not found")),
    }
}

/// Why the course cannot be deleted, `None` where it can.
pub open spec fn delete_course_refusal(
    courses: Seq<Course>,
    session: Option<Session>,
    course_id: u32,
) -> Option<RefusalView> {
    if !is_admin(session) {
        Some(refusal(Status::Forbidden, "Only admin can delete courses"@))
    } else if course_ids(courses).index_of_first(course_id) is None {
        Some(refusal(Status::BadRequest, "Course not found"@))
    } else {
        None
    }
}

/// Deletes the first course on offer with the id `course_id`, and takes that
/// course out of the schedule. Only the administrator may.
pub fn delete_course(
    courses: &mut Vec<Course>,
    schedule: &mut Schedule,
    session: &Option<Session>,
    course_id: u32,
) -> (r: Result<(), Refusal>)
    ensures
        match r {
            Ok(_) => {
                &&& delete_course_refusal(old(courses)@, *session, course_id) is None
                &&& final(courses)@ == old(courses)@.remove(
                    course_ids(old(courses)@).index_of_first(course_id)->0,
                )
                &&& final(schedule).courses@ == old(schedule).courses@.filter(
                    is_other_course(course_id),
                )
            },
            Err(e) => {
                &&& delete_course_refusal(old(courses)@, *session, course_id) == Some(e@)
                &&& final(courses)@ == old(courses)@
                &&& final(schedule).courses@ == old(schedule).courses@
            },
        },
{
    if !admin_logged_in(session) {
        return Err(refuse(Status::Forbidden, "Only admin can delete courses"));
    }
    match find_course(courses, course_id) {
        Some(i) => {
            courses.remove(i);
            drop_course(schedule, course_id);
            Ok(())
        },
        None => Err(refuse(Status::BadRequest, "Course not found")),
    }
}

/// The meeting times of the courses on offer all have the form of a meeting
/// time, and every course of the schedule is on offer.
pub open spec fn registry_is_sound(courses: Seq<Course>, scheduled: Seq<ScheduledCourse>) -> bool {
    &&& forall|i: int|
        0 <= i < courses.len() ==> well_formed((#[trigger] courses[i]).meeting_time@)
    &&& forall|k: int|
        0 <= k < scheduled.len() ==> course_ids(courses).contains(
            (#[trigger] scheduled[k]).course_id,
        )
}

/// Tells whether the courses on offer and the schedule are sound.
pub fn check_registry(courses: &Vec<Course>, schedule: &Schedule) -> (r: bool)
    ensures
        r == registry_is_sound(courses@, schedule.courses@),
{
    let mut i: usize = 0;
    while i < courses.len()
        invariant
            i <= courses.len(),
            forall|j: int| 0 <= j < i ==> well_formed((#[trigger] courses@[j]).meeting_time@),
        decreases courses.len() - i,
    {
        if parse_meeting_time(courses[i].meeting_time.as_str()).is_none() {
            return false;
        }
        i = i + 1;
    }
    let mut k: usize = 0;
    while k < schedule.courses.len()
        invariant
            k <= schedule.courses.len(),
            forall|j: int| 0 <= j < courses.len() ==> well_formed((#[trigger] courses@[j]).meeting_time@),
            forall|m: int|
                0 <= m < k ==> course_ids(courses@).contains(
                    (#[trigger] schedule.courses@[m]).course_id,
                ),
        decreases schedule.courses.len() - k,
    {
        proof {
            course_ids(courses@).index_of_first_ensures(schedule.courses@[k as int].course_id);
        }
        if find_course(courses, schedule.courses[k].course_id).is_none() {
            return false;
        }
        k = k + 1;
    }
    true
}

/// The meeting time of the course on offer that a course of the schedule
/// stands for: the first with its id.
pub open spec fn scheduled_meeting_time(courses: Seq<Course>, entry: ScheduledCourse) -> Seq<char> {
    courses[course_ids(courses).index_of_first(entry.course_id)->0].meeting_time@
}

/// A course that meets at `meeting_time` conflicts with a course of the
/// schedule.
pub open spec fn clashes_with_schedule(
    courses: Seq<Course>,
    scheduled: Seq<ScheduledCourse>,
    meeting_time: Seq<char>,
) -> bool {
    exists|k: int|
        0 <= k < scheduled.len() && slots_conflict(
            meeting_slots(meeting_time),
            meeting_slots(scheduled_meeting_time(courses, #[trigger] scheduled[k])),
        )
}

/// Why the course cannot be added to the schedule, `None` where it can.
pub open spec fn add_to_schedule_refusal(
    courses: Seq<Course>,
    scheduled: Seq<ScheduledCourse>,
    session: Option<Session>,
    course_id: u32,
) -> Option<RefusalView> {
    if !is_student(session) {
        Some(refusal(Status::Forbidden, "Only students can modify schedule"@))
    } else {
        match course_ids(courses).index_of_first(course_id) {
            None => Some(refusal(Status::BadRequest, "Course not found"@)),
            Some(i) => if clashes_with_schedule(courses, scheduled, courses[i].meeting_time@) {
                Some(refusal(Status::Conflict, "Time conflict with existing course"@))
            } else {
                None
            },
        }
    }
}

/// Adds the course `course_id` to the schedule, at its end and without
/// notes, unless the schedule holds it already. Only a student may, the
/// course must be on offer, and it must not conflict with a course of the
/// schedule. A course that the schedule holds already is compared with
/// itself like with any other: it is refused as a conflict wherever one of
/// its slots is a proper range.
pub fn add_to_schedule(
    courses: &Vec<Course>,
    schedule: &mut Schedule,
    session: &Option<Session>,
    course_id: u32,
) -> (r: Result<(), Refusal>)
    requires
        registry_is_sound(courses@, old(schedule).courses@),
    ensures
        match r {
            Ok(_) => {
                &&& add_to_schedule_refusal(courses@, old(schedule).courses@, *session, course_id)
                    is None
                &&& if scheduled_ids(old(schedule).courses@).contains(course_id) {
                    final(schedule).courses@ == old(schedule).courses@
                } else {
                    &&& final(schedule).courses@.len() == old(schedule).courses@.len() + 1
                    &&& final(schedule).courses@.drop_last() == old(schedule).courses@
                    &&& final(schedule).courses@.last().course_id == course_id
                    &&& final(schedule).courses@.last().notes@.len() == 0
                    &&& final(schedule).courses@.last().slot@.len() == 0
                }
            },
            Err(e) => {
                &&& add_to_schedule_refusal(courses@, old(schedule).courses@, *session, course_id)
                    == Some(e@)
                &&& final(schedule).courses@ == old(schedule).courses@
            },
        },
{
    if !student_logged_in(session) {
        return Err(refuse(Status::Forbidden, "Only students can modify schedule"));
    }
    let at = match find_course(courses, course_id) {
        Some(i) => i,
        None => {
            return Err(refuse(Status::BadRequest, "Course not found"));
        },
    };
    let wanted = parse_meeting_time(courses[at].meeting_time.as_str()).unwrap();
    let mut k: usize = 0;
    while k < schedule.courses.len()
        invariant
            k <= schedule.courses.len(),
            at < courses.len(),
            schedule.courses@ == old(schedule).courses@,
            registry_is_sound(courses@, schedule.courses@),
            is_student(*session),
            course_ids(courses@).index_of_first(course_id) == Some(at as int),
            slot_views(wanted@) == meeting_slots(courses@[at as int].meeting_time@),
            forall|m: int|
                0 <= m < k ==> !slots_conflict(
                    meeting_slots(courses@[at as int].meeting_time@),
                    meeting_slots(
                        scheduled_meeting_time(courses@, #[trigger] schedule.courses@[m]),
                    ),
                ),
        decreases schedule.courses.len() - k,
    {
        proof {
            course_ids(courses@).index_of_first_ensures(schedule.courses@[k as int].course_id);
        }
        let there = find_course(courses, schedule.courses[k].course_id).unwrap();
        let taken = parse_meeting_time(courses[there].meeting_time.as_str()).unwrap();
        if any_slots_clash(&wanted, &taken) {
            return Err(refuse(Status::Conflict, "Time conflict with existing course"));
        }
        k = k + 1;
    }
    proof {
        scheduled_ids(schedule.courses@).index_of_first_ensures(course_id);
    }
    if find_scheduled(&schedule.courses, course_id).is_none() {
        let ghost before = schedule.courses@;
        schedule.courses.push(
            ScheduledCourse { course_id, notes: String::new(), slot: String::new() },
        );
        proof {
            assert(schedule.courses@.drop_last() =~= before);
        }
    }
    Ok(())
}

/// Why the entry of the schedule cannot be changed, `None` where it can.
pub open spec fn update_entry_refusal(
    scheduled: Seq<ScheduledCourse>,
    session: Option<Session>,
    course_id: u32,
) -> Option<RefusalView> {
    if !is_student(session) {
        Some(refusal(Status::Forbidden, "Only students can modify schedule"@))
    } else if scheduled_ids(scheduled).index_of_first(course_id) is None {
        Some(refusal(Status::BadRequest, "Course not in schedule"@))
    } else {
        None
    }
}

/// Puts `entry` in the place of the first entry of the schedule for its
/// course. Only a student may.
pub fn update_schedule_entry(
    schedule: &mut Schedule,
    session: &Option<Session>,
    entry: ScheduledCourse,
) -> (r: Result<ScheduledCourse, Refusal>)
    ensures
        match r {
            Ok(stored) => {
                &&& update_entry_refusal(old(schedule).courses@, *session, entry.course_id)
                    is None
                &&& stored == entry
                &&& final(schedule).courses@ == old(schedule).courses@.update(
                    scheduled_ids(old(schedule).courses@).index_of_first(entry.course_id)->0,
                    entry,
                )
            },
            Err(e) => {
                &&& update_entry_refusal(old(schedule).courses@, *session, entry.course_id)
                    == Some(e@)
                &&& final(schedule).courses@ == old(schedule).courses@
            },
        },
{
    if !student_logged_in(session) {
        return Err(refuse(Status::Forbidden, "Only students can modify schedule"));
    }
    match find_scheduled(&schedule.courses, entry.course_id) {
        Some(i) => {
            schedule.courses.set(i, entry.clone());
            Ok(entry)
        },
        None => Err(refuse(Status::BadRequest, "Course not in schedule")),
    }
}

/// Why the course cannot be dropped from the schedule, `None` where it can.
pub open spec fn drop_refusal(courses: Seq<Course>, session: Option<Session>, course_id: u32)
    -> Option<RefusalView> {
    if !is_student(session) {
        Some(refusal(Status::Forbidden, "Only students can modify schedule"@))
    } else if !course_ids(courses).contains(course_id) {
        Some(refusal(Status::BadRequest, "Course not found in course list"@))
    } else {
        None
    }
}

/// Takes every entry for the course `course_id` out of the schedule, and
/// tells whether there was one. Only a student may, and the course must be
/// on offer.
pub fn drop_from_schedule(
    courses: &Vec<Course>,
    schedule: &mut Schedule,
    session: &Option<Session>,
    course_id: u32,
) -> (r: Result<bool, Refusal>)
    ensures
        match r {
            Ok(changed) => {
                &&& drop_refusal(courses@, *session, course_id) is None
                &&& final(schedule).courses@ == old(schedule).courses@.filter(
                    is_other_course(course_id),
                )
                &&& changed == (final(schedule).courses@.len() != old(schedule).courses@.len())
            },
            Err(e) => {
                &&& drop_refusal(courses@, *session, course_id) == Some(e@)
                &&& final(schedule).courses@ == old(schedule).courses@
            },
        },
{
    if !student_logged_in(session) {
        return Err(refuse(Status::Forbidden, "Only students can modify schedule"));
    }
    proof {
        course_ids(courses@).index_of_first_ensures(course_id);
    }
    if find_course(courses, course_id).is_none() {
        return Err(refuse(Status::BadRequest, "Course not found in course list"));
    }
    let before: usize = schedule.courses.len();
    drop_course(schedule, course_id);
    Ok(schedule.courses.len() != before)
}

/// The entries of the schedule whose course is on offer, each with the
/// first course on offer of its id, in the order of the schedule.
pub open spec fn offered_entries(courses: Seq<Course>, scheduled: Seq<ScheduledCourse>) -> Seq<
    (ScheduledCourse, Course),
>
    decreases scheduled.len(),
{
    if scheduled.len() == 0 {
        Seq::empty()
    } else {
        let earlier = offered_entries(courses, scheduled.drop_last());
        match course_ids(courses).index_of_first(scheduled.last().course_id) {
            Some(i) => earlier.push((scheduled.last(), courses[i])),
            None => earlier,
        }
    }
}

/// The schedule of the student: its entries whose course is on offer, each
/// with that course. Only a student may see it.
pub fn get_schedule(courses: &Vec<Course>, schedule: &Schedule, session: &Option<Session>) -> (r:
    Result<Vec<(ScheduledCourse, Course)>, Refusal>)
    ensures
        match r {
            Ok(entries) => is_student(*session) && entries@ == offered_entries(
                courses@,
                schedule.courses@,
            ),
            Err(e) => !is_student(*session) && e@ == refusal(
                Status::Forbidden,
                "Only students can view schedule"@,
            ),
        },
{
    if !student_logged_in(session) {
        return Err(refuse(Status::Forbidden, "Only students can view schedule"));
    }
    let mut entries: Vec<(ScheduledCourse, Course)> = Vec::new();
    let mut k: usize = 0;
    while k < schedule.courses.len()
        invariant
            k <= schedule.courses.len(),
            entries@ == offered_entries(courses@, schedule.courses@.take(k as int)),
        decreases schedule.courses.len() - k,
    {
        proof {
            assert(schedule.courses@.take(k + 1).drop_last() =~= schedule.courses@.take(
                k as int,
            ));
            assert(schedule.courses@.take(k + 1).last() == schedule.courses@[k as int]);
        }
        match find_course(courses, schedule.courses[k].course_id) {
            Some(i) => {
                entries.push((schedule.courses[k].clone(), courses[i].clone()));
            },
            None => {},
        }
        k = k + 1;
    }
    proof {
        assert(schedule.courses@.take(schedule.courses@.len() as int) =~= schedule.courses@);
    }
    Ok(entries)
}

} // verus!
