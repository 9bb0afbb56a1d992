//! Shapes of the portal's requests and responses: builders for the
//! five request bodies, and decoders from parsed JSON to the typed
//! views of the responses.

use vstd::prelude::*;
use vstd::string::StringExecFns;
use crate::json::{Json, JsonV, items_deep, fields_deep, lookup, esc, dec_digits, escape_string,
    u64_to_string, get_field};

verus! {

/// The views of a vector's elements, in order.
pub open spec fn views_of<T: View>(v: Seq<T>) -> Seq<T::V> {
    Seq::new(v.len(), |i: int| v[i]@)
}

/// The character sequences of a vector of strings, in order.
pub open spec fn strs_view(v: Seq<String>) -> Seq<Seq<char>> {
    Seq::new(v.len(), |i: int| v[i]@)
}

// ---------------------------------------------------------------------------
// Typed response records
// ---------------------------------------------------------------------------

/// One period of a day's schedule, as the portal reports it.
pub struct ScheduleEntry {
    pub period_description: String,
    pub course_name: String,
}

/// Model of a schedule entry.
pub struct ScheduleEntryV {
    pub period_description: Seq<char>,
    pub course_name: Seq<char>,
}

impl View for ScheduleEntry {
    type V = ScheduleEntryV;

    open spec fn view(&self) -> ScheduleEntryV {
        ScheduleEntryV {
            period_description: self.period_description@,
            course_name: self.course_name@,
        }
    }
}

/// One bookable course offering for a date and period.
pub struct CourseOffering {
    pub course_id: u64,
    pub course_name: String,
    pub staff_first_name: String,
    pub staff_last_name: String,
    pub room: String,
    pub max_students: u64,
    pub current_appointments: u64,
    pub is_open_for_scheduling: bool,
    pub blocked_reason: Option<String>,
    pub prevent_self_scheduling: bool,
    pub appointment_request_course_id: u64,
}

/// Model of a course offering.
pub struct CourseOfferingV {
    pub course_id: u64,
    pub course_name: Seq<char>,
    pub staff_first_name: Seq<char>,
    pub staff_last_name: Seq<char>,
    pub room: Seq<char>,
    pub max_students: u64,
    pub current_appointments: u64,
    pub is_open_for_scheduling: bool,
    pub blocked_reason: Option<Seq<char>>,
    pub prevent_self_scheduling: bool,
    pub appointment_request_course_id: u64,
}

impl View for CourseOffering {
    type V = CourseOfferingV;

    open spec fn view(&self) -> CourseOfferingV {
        CourseOfferingV {
            course_id: self.course_id,
            course_name: self.course_name@,
            staff_first_name: self.staff_first_name@,
            staff_last_name: self.staff_last_name@,
            room: self.room@,
            max_students: self.max_students,
            current_appointments: self.current_appointments,
            is_open_for_scheduling: self.is_open_for_scheduling,
            blocked_reason: match self.blocked_reason {
                Some(s) => Some(s@),
                None => None,
            },
            prevent_self_scheduling: self.prevent_self_scheduling,
            appointment_request_course_id: self.appointment_request_course_id,
        }
    }
}

// ---------------------------------------------------------------------------
// Field extraction from a parsed object
// ---------------------------------------------------------------------------

/// The string value of the member `name`, if present with that type.
pub open spec fn field_str(fields: Seq<(Seq<char>, JsonV)>, name: Seq<char>) -> Option<
    Seq<char>,
> {
    match lookup(fields, name) {
        Some(JsonV::Str(s)) => Some(s),
        _ => None,
    }
}

/// The unsigned value of the member `name`, if present with that type.
pub open spec fn field_u64(fields: Seq<(Seq<char>, JsonV)>, name: Seq<char>) -> Option<u64> {
    match lookup(fields, name) {
        Some(JsonV::UInt(n)) => Some(n),
        _ => None,
    }
}

/// The boolean value of the member `name`, if present with that type.
pub open spec fn field_bool(fields: Seq<(Seq<char>, JsonV)>, name: Seq<char>) -> Option<bool> {
    match lookup(fields, name) {
        Some(JsonV::Bool(b)) => Some(b),
        _ => None,
    }
}

/// The optional string member `name`: absent or null count as no
/// value, a string counts as a value, anything else as a mismatch.
pub open spec fn field_opt_str(fields: Seq<(Seq<char>, JsonV)>, name: Seq<char>) -> Option<
    Option<Seq<char>>,
> {
    match lookup(fields, name) {
        None => Some(None),
        Some(JsonV::Null) => Some(None),
        Some(JsonV::Str(s)) => Some(Some(s)),
        _ => None,
    }
}

fn get_str_field(fields: &Vec<(String, Json)>, name: &str) -> (r: Option<String>)
    ensures
        match r {
            Some(s) => field_str(fields_deep(fields@), name@) == Some(s@),
            None => field_str(fields_deep(fields@), name@) is None,
        },
{
    match get_field(fields, name) {
        Some(v) => match v {
            Json::Str(s) => Some(s.clone()),
            _ => None,
        },
        None => None,
    }
}

fn get_u64_field(fields: &Vec<(String, Json)>, name: &str) -> (r: Option<u64>)
    ensures
        match r {
            Some(n) => field_u64(fields_deep(fields@), name@) == Some(n),
            None => field_u64(fields_deep(fields@), name@) is None,
        },
{
    match get_field(fields, name) {
        Some(v) => match v {
            Json::UInt(n) => Some(*n),
            _ => None,
        },
        None => None,
    }
}

fn get_bool_field(fields: &Vec<(String, Json)>, name: &str) -> (r: Option<bool>)
    ensures
        match r {
            Some(b) => field_bool(fields_deep(fields@), name@) == Some(b),
            None => field_bool(fields_deep(fields@), name@) is None,
        },
{
    match get_field(fields, name) {
        Some(v) => match v {
            Json::Bool(b) => Some(*b),
            _ => None,
        },
        None => None,
    }
}

fn get_opt_str_field(fields: &Vec<(String, Json)>, name: &str) -> (r: Option<Option<String>>)
    ensures
        match r {
            Some(Some(s)) => field_opt_str(fields_deep(fields@), name@) == Some(Some(s@)),
            Some(None) => field_opt_str(fields_deep(fields@), name@) == Some(None::<Seq<char>>),
            None => field_opt_str(fields_deep(fields@), name@) is None,
        },
{
    match get_field(fields, name) {
        Some(v) => match v {
            Json::Str(s) => Some(Some(s.clone())),
            Json::Null => Some(None),
            _ => None,
        },
        None => Some(None),
    }
}

// ---------------------------------------------------------------------------
// Lists of strings (error messages)
// ---------------------------------------------------------------------------

/// The character sequences of `items` when every item is a string.
pub open spec fn all_strs(items: Seq<JsonV>) -> Option<Seq<Seq<char>>>
    decreases items.len(),
{
    if items.len() == 0 {
        Some(Seq::empty())
    } else {
        match items[0] {
            JsonV::Str(s) => match all_strs(items.drop_first()) {
                Some(rest) => Some(seq![s] + rest),
                None => None,
            },
            _ => None,
        }
    }
}

fn decode_strings(items: &Vec<Json>) -> (r: Option<Vec<String>>)
    ensures
        match r {
            Some(ms) => all_strs(items_deep(items@)) == Some(strs_view(ms@)),
            None => all_strs(items_deep(items@)) is None,
        },
{
    let ghost d = items_deep(items@);
    let n: usize = items.len();
    let mut out: Vec<String> = Vec::new();
    let mut i: usize = 0;
    proof {
        assert(d.skip(0) =~= d);
        assert(strs_view(out@) =~= Seq::<Seq<char>>::empty());
    }
    while i < n
        invariant
            n == items@.len(),
            d == items_deep(items@),
            0 <= i <= n,
            i == out@.len(),
            match all_strs(d.skip(i as int)) {
                Some(rest) => all_strs(d) == Some(strs_view(out@) + rest),
                None => all_strs(d) is None,
            },
        decreases n - i,
    {
        proof {
            assert(d.skip(i as int)[0] == d[i as int]);
            assert(d[i as int] == items@[i as int].deep());
            assert(d.skip(i as int).drop_first() =~= d.skip(i as int + 1));
        }
        match &items[i] {
            Json::Str(s) => {
                let ghost out0 = out@;
                out.push(s.clone());
                proof {
                    assert(strs_view(out@) =~= strs_view(out0).push(s@));
                    if let Some(rest) = all_strs(d.skip(i as int + 1)) {
                        assert(strs_view(out0) + (seq![s@] + rest) =~= strs_view(out0).push(s@)
                            + rest);
                    }
                }
            },
            _ => {
                return None;
            },
        }
        i = i + 1;
    }
    proof {
        assert(d.skip(n as int) =~= Seq::<JsonV>::empty());
        assert(strs_view(out@) + Seq::<Seq<char>>::empty() =~= strs_view(out@));
    }
    Some(out)
}

// ---------------------------------------------------------------------------
// Leg 1 of the login handshake
// ---------------------------------------------------------------------------

/// Model of the outcome of decoding the validation response.
pub enum Leg1V {
    /// Authorization granted; the two exchange tokens.
    Granted(Seq<char>, Seq<char>),
    /// Authorization denied; the portal's error messages.
    Denied(Seq<Seq<char>>),
    /// The response does not have the expected shape.
    Malformed,
}

/// The portal's error messages, when the member is absent or a list
/// of strings.
pub open spec fn spec_msgs(fields: Seq<(Seq<char>, JsonV)>) -> Option<Seq<Seq<char>>> {
    match lookup(fields, "ErrorMessages"@) {
        None => Some(Seq::empty()),
        Some(JsonV::Arr(items)) => all_strs(items),
        Some(_) => None,
    }
}

/// What the credential-validation response means: denied unless
/// `IsAuthorized` is present and true; granted only when both
/// exchange tokens are present under `ViewModel`.
pub open spec fn spec_leg1(doc: JsonV) -> Leg1V {
    match doc {
        JsonV::Obj(fs) => match lookup(fs, "IsAuthorized"@) {
            Some(JsonV::Bool(b)) => {
                if b {
                    match lookup(fs, "ViewModel"@) {
                        Some(JsonV::Obj(vm)) => {
                            if field_str(vm, "Token1"@) is Some && field_str(vm, "Token2"@)
                                is Some {
                                Leg1V::Granted(
                                    field_str(vm, "Token1"@)->Some_0,
                                    field_str(vm, "Token2"@)->Some_0,
                                )
                            } else {
                                Leg1V::Malformed
                            }
                        },
                        _ => Leg1V::Malformed,
                    }
                } else {
                    match spec_msgs(fs) {
                        Some(ms) => Leg1V::Denied(ms),
                        None => Leg1V::Malformed,
                    }
                }
            },
            None => match spec_msgs(fs) {
                Some(ms) => Leg1V::Denied(ms),
                None => Leg1V::Malformed,
            },
            Some(_) => Leg1V::Malformed,
        },
        _ => Leg1V::Malformed,
    }
}

/// Decoded validation response.
pub enum Leg1 {
    Granted(String, String),
    Denied(Vec<String>),
    Malformed,
}

fn decode_msgs(fs: &Vec<(String, Json)>) -> (r: Option<Vec<String>>)
    ensures
        match r {
            Some(ms) => spec_msgs(fields_deep(fs@)) == Some(strs_view(ms@)),
            None => spec_msgs(fields_deep(fs@)) is None,
        },
{
    match get_field(fs, "ErrorMessages") {
        None => {
            let out: Vec<String> = Vec::new();
            proof {
                assert(strs_view(out@) =~= Seq::<Seq<char>>::empty());
            }
            Some(out)
        },
        Some(v) => match v {
            Json::Arr(items) => decode_strings(items),
            _ => None,
        },
    }
}

/// Decode the credential-validation response.
pub fn decode_leg1(doc: &Json) -> (r: Leg1)
    ensures
        match r {
            Leg1::Granted(t1, t2) => spec_leg1(doc.deep()) == Leg1V::Granted(t1@, t2@),
            Leg1::Denied(ms) => spec_leg1(doc.deep()) == Leg1V::Denied(strs_view(ms@)),
            Leg1::Malformed => spec_leg1(doc.deep()) == Leg1V::Malformed,
        },
{
    match doc {
        Json::Obj(fs) => {
            let authorized = get_bool_field(fs, "IsAuthorized");
            match authorized {
                Some(true) => {
                    match get_field(fs, "ViewModel") {
                        Some(vm) => match vm {
                            Json::Obj(vmf) => {
                                let t1 = get_str_field(vmf, "Token1");
                                let t2 = get_str_field(vmf, "Token2");
                                match (t1, t2) {
                                    (Some(a), Some(b)) => Leg1::Granted(a, b),
                                    _ => Leg1::Malformed,
                                }
                            },
                            _ => Leg1::Malformed,
                        },
                        None => Leg1::Malformed,
                    }
                },
                Some(false) => match decode_msgs(fs) {
                    Some(ms) => Leg1::Denied(ms),
                    None => Leg1::Malformed,
                },
                None => {
                    match get_field(fs, "IsAuthorized") {
                        Some(_) => Leg1::Malformed,
                        None => match decode_msgs(fs) {
                            Some(ms) => Leg1::Denied(ms),
                            None => Leg1::Malformed,
                        },
                    }
                },
            }
        },
        _ => Leg1::Malformed,
    }
}

// ---------------------------------------------------------------------------
// Leg 2 of the login handshake
// ---------------------------------------------------------------------------

/// The session token of the token-exchange response: the `authToken`
/// member, which must be a non-empty string.
pub open spec fn spec_leg2(doc: JsonV) -> Option<Seq<char>> {
    match doc {
        JsonV::Obj(fs) => match field_str(fs, "authToken"@) {
            Some(t) => if t.len() > 0 {
                Some(t)
            } else {
                None
            },
            None => None,
        },
        _ => None,
    }
}

/// Decode the token-exchange response.
pub fn decode_leg2(doc: &Json) -> (r: Option<String>)
    ensures
        match r {
            Some(t) => spec_leg2(doc.deep()) == Some(t@) && t@.len() > 0,
            None => spec_leg2(doc.deep()) is None,
        },
{
    match doc {
        Json::Obj(fs) => match get_str_field(fs, "authToken") {
            Some(t) => {
                if t.as_str().unicode_len() > 0 {
                    Some(t)
                } else {
                    None
                }
            },
            None => None,
        },
        _ => None,
    }
}

// ---------------------------------------------------------------------------
// Schedule response
// ---------------------------------------------------------------------------

/// One decoded schedule entry, when the item has the expected shape.
pub open spec fn spec_entry(v: JsonV) -> Option<ScheduleEntryV> {
    match v {
        JsonV::Obj(fs) => {
            if field_str(fs, "periodDescription"@) is Some && field_str(fs, "courseName"@)
                is Some {
                Some(
                    ScheduleEntryV {
                        period_description: field_str(fs, "periodDescription"@)->Some_0,
                        course_name: field_str(fs, "courseName"@)->Some_0,
                    },
                )
            } else {
                None
            }
        },
        _ => None,
    }
}

/// All decoded schedule entries, when every item has the shape.
pub open spec fn spec_entries(items: Seq<JsonV>) -> Option<Seq<ScheduleEntryV>>
    decreases items.len(),
{
    if items.len() == 0 {
        Some(Seq::empty())
    } else {
        match (spec_entry(items[0]), spec_entries(items.drop_first())) {
            (Some(e), Some(rest)) => Some(seq![e] + rest),
            _ => None,
        }
    }
}

/// The schedule response: a list of entries.
pub open spec fn spec_schedule(doc: JsonV) -> Option<Seq<ScheduleEntryV>> {
    match doc {
        JsonV::Arr(items) => spec_entries(items),
        _ => None,
    }
}

fn decode_entry(v: &Json) -> (r: Option<ScheduleEntry>)
    ensures
        match r {
            Some(e) => spec_entry(v.deep()) == Some(e@),
            None => spec_entry(v.deep()) is None,
        },
{
    match v {
        Json::Obj(fs) => {
            let pd = get_str_field(fs, "periodDescription");
            let cn = get_str_field(fs, "courseName");
            match (pd, cn) {
                (Some(p), Some(c)) => Some(
                    ScheduleEntry { period_description: p, course_name: c },
                ),
                _ => None,
            }
        },
        _ => None,
    }
}

/// Decode the schedule response.
pub fn decode_schedule(doc: &Json) -> (r: Option<Vec<ScheduleEntry>>)
    ensures
        match r {
            Some(es) => spec_schedule(doc.deep()) == Some(views_of(es@)),
            None => spec_schedule(doc.deep()) is None,
        },
{
    match doc {
        Json::Arr(items) => {
            let ghost d = items_deep(items@);
            let n: usize = items.len();
            let mut out: Vec<ScheduleEntry> = Vec::new();
            let mut i: usize = 0;
            proof {
                assert(spec_schedule(doc.deep()) == spec_entries(d));
                assert(d.skip(0) =~= d);
                assert(views_of(out@) =~= Seq::<ScheduleEntryV>::empty());
            }
            while i < n
                invariant
                    n == items@.len(),
                    d == items_deep(items@),
                    0 <= i <= n,
                    i == out@.len(),
                    spec_schedule(doc.deep()) == spec_entries(d),
                    match spec_entries(d.skip(i as int)) {
                        Some(rest) => spec_entries(d) == Some(views_of(out@) + rest),
                        None => spec_entries(d) is None,
                    },
                decreases n - i,
            {
                proof {
                    assert(d.skip(i as int)[0] == d[i as int]);
                    assert(d[i as int] == items@[i as int].deep());
                    assert(d.skip(i as int).drop_first() =~= d.skip(i as int + 1));
                }
                match decode_entry(&items[i]) {
                    Some(e) => {
                        let ghost out0 = out@;
                        let ghost ev = e@;
                        out.push(e);
                        proof {
                            assert(views_of(out@) =~= views_of(out0).push(ev));
                            if let Some(rest) = spec_entries(d.skip(i as int + 1)) {
                                assert(views_of(out0) + (seq![ev] + rest) =~= views_of(out0).push(
                                    ev,
                                ) + rest);
                            }
                        }
                    },
                    None => {
                        proof {
                            assert(d.skip(i as int).len() > 0);
                            assert(spec_entry(d.skip(i as int)[0]) is None);
                            assert(spec_entries(d.skip(i as int)) is None);
                        }
                        return None;
                    },
                }
                i = i + 1;
            }
            proof {
                assert(d.skip(n as int) =~= Seq::<JsonV>::empty());
                assert(views_of(out@) + Seq::<ScheduleEntryV>::empty() =~= views_of(out@));
            }
            Some(out)
        },
        _ => None,
    }
}

// ---------------------------------------------------------------------------
// Course-listing response
// ---------------------------------------------------------------------------

/// One decoded course offering, when the item has the expected shape.
pub open spec fn spec_course(v: JsonV) -> Option<CourseOfferingV> {
    match v {
        JsonV::Obj(fs) => {
            if field_u64(fs, "courseId"@) is Some && field_str(fs, "courseName"@) is Some
                && field_str(fs, "staffFirstName"@) is Some && field_str(fs, "staffLastName"@)
                is Some && field_str(fs, "courseRoom"@) is Some && field_u64(
                fs,
                "maxNumberStudents"@,
            ) is Some && field_u64(fs, "numberOfAppointments"@) is Some && field_bool(
                fs,
                "isOpenForScheduling"@,
            ) is Some && field_opt_str(fs, "blockedReason"@) is Some && field_bool(
                fs,
                "preventStudentSelfScheduling"@,
            ) is Some && field_u64(fs, "appointmentRequestCourseId"@) is Some {
                Some(
                    CourseOfferingV {
                        course_id: field_u64(fs, "courseId"@)->Some_0,
                        course_name: field_str(fs, "courseName"@)->Some_0,
                        staff_first_name: field_str(fs, "staffFirstName"@)->Some_0,
                        staff_last_name: field_str(fs, "staffLastName"@)->Some_0,
                        room: field_str(fs, "courseRoom"@)->Some_0,
                        max_students: field_u64(fs, "maxNumberStudents"@)->Some_0,
                        current_appointments: field_u64(fs, "numberOfAppointments"@)->Some_0,
                        is_open_for_scheduling: field_bool(fs, "isOpenForScheduling"@)->Some_0,
                        blocked_reason: field_opt_str(fs, "blockedReason"@)->Some_0,
                        prevent_self_scheduling: field_bool(
                            fs,
                            "preventStudentSelfScheduling"@,
                        )->Some_0,
                        appointment_request_course_id: field_u64(
                            fs,
                            "appointmentRequestCourseId"@,
                        )->Some_0,
                    },
                )
            } else {
                None
            }
        },
        _ => None,
    }
}

/// All decoded course offerings, when every item has the shape.
pub open spec fn spec_course_items(items: Seq<JsonV>) -> Option<Seq<CourseOfferingV>>
    decreases items.len(),
{
    if items.len() == 0 {
        Some(Seq::empty())
    } else {
        match (spec_course(items[0]), spec_course_items(items.drop_first())) {
            (Some(c), Some(rest)) => Some(seq![c] + rest),
            _ => None,
        }
    }
}

/// The course-listing response: a `courses` member holding the list.
pub open spec fn spec_courses(doc: JsonV) -> Option<Seq<CourseOfferingV>> {
    match doc {
        JsonV::Obj(fs) => match lookup(fs, "courses"@) {
            Some(JsonV::Arr(items)) => spec_course_items(items),
            _ => None,
        },
        _ => None,
    }
}

fn decode_course(v: &Json) -> (r: Option<CourseOffering>)
    ensures
        match r {
            Some(c) => spec_course(v.deep()) == Some(c@),
            None => spec_course(v.deep()) is None,
        },
{
    match v {
        Json::Obj(fs) => {
            let course_id = get_u64_field(fs, "courseId");
            let course_name = get_str_field(fs, "courseName");
            let staff_first_name = get_str_field(fs, "staffFirstName");
            let staff_last_name = get_str_field(fs, "staffLastName");
            let room = get_str_field(fs, "courseRoom");
            let max_students = get_u64_field(fs, "maxNumberStudents");
            let current_appointments = get_u64_field(fs, "numberOfAppointments");
            let is_open = get_bool_field(fs, "isOpenForScheduling");
            let blocked = get_opt_str_field(fs, "blockedReason");
            let prevent = get_bool_field(fs, "preventStudentSelfScheduling");
            let request_id = get_u64_field(fs, "appointmentRequestCourseId");
            if course_id.is_some() && course_name.is_some() && staff_first_name.is_some()
                && staff_last_name.is_some() && room.is_some() && max_students.is_some()
                && current_appointments.is_some() && is_open.is_some() && blocked.is_some()
                && prevent.is_some() && request_id.is_some() {
                Some(
                    CourseOffering {
                        course_id: course_id.unwrap(),
                        course_name: course_name.unwrap(),
                        staff_first_name: staff_first_name.unwrap(),
                        staff_last_name: staff_last_name.unwrap(),
                        room: room.unwrap(),
                        max_students: max_students.unwrap(),
                        current_appointments: current_appointments.unwrap(),
                        is_open_for_scheduling: is_open.unwrap(),
                        blocked_reason: blocked.unwrap(),
                        prevent_self_scheduling: prevent.unwrap(),
                        appointment_request_course_id: request_id.unwrap(),
                    },
                )
            } else {
                None
            }
        },
        _ => None,
    }
}

/// Decode the course-listing response.
pub fn decode_courses(doc: &Json) -> (r: Option<Vec<CourseOffering>>)
    ensures
        match r {
            Some(cs) => spec_courses(doc.deep()) == Some(views_of(cs@)),
            None => spec_courses(doc.deep()) is None,
        },
{
    match doc {
        Json::Obj(fs) => {
            match get_field(fs, "courses") {
                Some(v) => match v {
                    Json::Arr(items) => {
                        let ghost d = items_deep(items@);
                        let n: usize = items.len();
                        let mut out: Vec<CourseOffering> = Vec::new();
                        let mut i: usize = 0;
                        proof {
                            assert(spec_courses(doc.deep()) == spec_course_items(d));
                            assert(d.skip(0) =~= d);
                            assert(views_of(out@) =~= Seq::<CourseOfferingV>::empty());
                        }
                        while i < n
                            invariant
                                n == items@.len(),
                                d == items_deep(items@),
                                0 <= i <= n,
                                i == out@.len(),
                                spec_courses(doc.deep()) == spec_course_items(d),
                                match spec_course_items(d.skip(i as int)) {
                                    Some(rest) => spec_course_items(d) == Some(
                                        views_of(out@) + rest,
                                    ),
                                    None => spec_course_items(d) is None,
                                },
                            decreases n - i,
                        {
                            proof {
                                assert(d.skip(i as int)[0] == d[i as int]);
                                assert(d[i as int] == items@[i as int].deep());
                                assert(d.skip(i as int).drop_first() =~= d.skip(i as int + 1));
                            }
                            match decode_course(&items[i]) {
                                Some(c) => {
                                    let ghost out0 = out@;
                                    let ghost cv = c@;
                                    out.push(c);
                                    proof {
                                        assert(views_of(out@) =~= views_of(out0).push(cv));
                                        if let Some(rest) = spec_course_items(
                                            d.skip(i as int + 1),
                                        ) {
                                            assert(views_of(out0) + (seq![cv] + rest) =~= views_of(
                                                out0,
                                            ).push(cv) + rest);
                                        }
                                    }
                                },
                                None => {
                                    proof {
                                        assert(d.skip(i as int).len() > 0);
                                        assert(spec_course(d.skip(i as int)[0]) is None);
                                        assert(spec_course_items(d.skip(i as int)) is None);
                                    }
                                    return None;
                                },
                            }
                            i = i + 1;
                        }
                        proof {
                            assert(d.skip(n as int) =~= Seq::<JsonV>::empty());
                            assert(views_of(out@) + Seq::<CourseOfferingV>::empty() =~= views_of(
                                out@,
                            ));
                        }
                        Some(out)
                    },
                    _ => None,
                },
                None => None,
            }
        },
        _ => None,
    }
}

// ---------------------------------------------------------------------------
// Booking-save response
// ---------------------------------------------------------------------------

/// Model of the booking-save outcome.
pub enum BookingV {
    /// The portal accepted the booking.
    Ack,
    /// The portal reported a failure in the body; its messages.
    Rejected(Seq<Seq<char>>),
    /// The body does not have a recognizable shape.
    Malformed,
}

/// What the booking-save response body means: an object whose
/// `errorMessages` member holds a non-empty list of strings is a
/// rejection; an object without such messages, or any other value,
/// is an acknowledgement.
pub open spec fn spec_booking(doc: JsonV) -> BookingV {
    match doc {
        JsonV::Obj(fs) => match lookup(fs, "errorMessages"@) {
            None => BookingV::Ack,
            Some(JsonV::Arr(items)) => match all_strs(items) {
                Some(ms) => if ms.len() > 0 {
                    BookingV::Rejected(ms)
                } else {
                    BookingV::Ack
                },
                None => BookingV::Malformed,
            },
            Some(_) => BookingV::Malformed,
        },
        _ => BookingV::Ack,
    }
}

/// Decoded booking-save response.
pub enum Booking {
    Ack,
    Rejected(Vec<String>),
    Malformed,
}

/// Decode the booking-save response.
pub fn decode_booking(doc: &Json) -> (r: Booking)
    ensures
        match r {
            Booking::Ack => spec_booking(doc.deep()) == BookingV::Ack,
            Booking::Rejected(ms) => spec_booking(doc.deep()) == BookingV::Rejected(strs_view(ms@))
                && ms@.len() > 0,
            Booking::Malformed => spec_booking(doc.deep()) == BookingV::Malformed,
        },
{
    match doc {
        Json::Obj(fs) => match get_field(fs, "errorMessages") {
            None => Booking::Ack,
            Some(v) => match v {
                Json::Arr(items) => match decode_strings(items) {
                    Some(ms) => {
                        if ms.len() > 0 {
                            Booking::Rejected(ms)
                        } else {
                            Booking::Ack
                        }
                    },
                    None => Booking::Malformed,
                },
                _ => Booking::Malformed,
            },
        },
        _ => Booking::Ack,
    }
}

// ---------------------------------------------------------------------------
// Request bodies
// ---------------------------------------------------------------------------

/// The credential-validation request body.
pub open spec fn spec_login_body(email: Seq<char>, password: Seq<char>) -> Seq<char> {
    "{\"parameters\":{\"EmailAddress\":\""@ + esc(email) + "\",\"Password\":\""@ + esc(password)
        + "\"}}"@
}

/// Build the credential-validation request body.
pub fn login_body(email: &str, password: &str) -> (r: String)
    ensures
        r@ == spec_login_body(email@, password@),
{
    let mut r = String::from_str("{\"parameters\":{\"EmailAddress\":\"");
    r.append(escape_string(email).as_str());
    r.append("\",\"Password\":\"");
    r.append(escape_string(password).as_str());
    r.append("\"}}");
    r
}

/// The token-exchange request body.
pub open spec fn spec_exchange_body(token1: Seq<char>, token2: Seq<char>) -> Seq<char> {
    "{\"token1\":\""@ + esc(token1) + "\",\"token2\":\""@ + esc(token2) + "\"}"@
}

/// Build the token-exchange request body.
pub fn exchange_body(token1: &str, token2: &str) -> (r: String)
    ensures
        r@ == spec_exchange_body(token1@, token2@),
{
    let mut r = String::from_str("{\"token1\":\"");
    r.append(escape_string(token1).as_str());
    r.append("\",\"token2\":\"");
    r.append(escape_string(token2).as_str());
    r.append("\"}");
    r
}

/// The schedule-view request body.
pub open spec fn spec_schedule_body(date: Seq<char>) -> Seq<char> {
    "{\"startDate\":\""@ + esc(date) + "\"}"@
}

/// Build the schedule-view request body.
pub fn schedule_body(date: &str) -> (r: String)
    ensures
        r@ == spec_schedule_body(date@),
{
    let mut r = String::from_str("{\"startDate\":\"");
    r.append(escape_string(date).as_str());
    r.append("\"}");
    r
}

/// The course-listing request body; the period is numeric.
pub open spec fn spec_courses_body(period_id: u64, date: Seq<char>) -> Seq<char> {
    "{\"periodId\":"@ + dec_digits(period_id as int) + ",\"startDate\":\""@ + esc(date) + "\"}"@
}

/// Build the course-listing request body.
pub fn courses_body(period_id: u64, date: &str) -> (r: String)
    ensures
        r@ == spec_courses_body(period_id, date@),
{
    let mut r = String::from_str("{\"periodId\":");
    r.append(u64_to_string(period_id).as_str());
    r.append(",\"startDate\":\"");
    r.append(escape_string(date).as_str());
    r.append("\"}");
    r
}

/// The booking-save request body; course and period are numeric, with
/// the same type the course resolver returns, never quoted as text.
pub open spec fn spec_booking_body(
    course_id: u64,
    period_id: u64,
    date: Seq<char>,
    comment: Seq<char>,
) -> Seq<char> {
    "{\"courseId\":"@ + dec_digits(course_id as int) + ",\"periodId\":"@ + dec_digits(
        period_id as int,
    ) + ",\"scheduleDate\":\""@ + esc(date) + "\",\"schedulerComment\":\""@ + esc(comment) + "\"}"@
}

/// Build the booking-save request body.
pub fn booking_body(course_id: u64, period_id: u64, date: &str, comment: &str) -> (r: String)
    ensures
        r@ == spec_booking_body(course_id, period_id, date@, comment@),
{
    let mut r = String::from_str("{\"courseId\":");
    r.append(u64_to_string(course_id).as_str());
    r.append(",\"periodId\":");
    r.append(u64_to_string(period_id).as_str());
    r.append(",\"scheduleDate\":\"");
    r.append(escape_string(date).as_str());
    r.append("\",\"schedulerComment\":\"");
    r.append(escape_string(comment).as_str());
    r.append("\"}");
    r
}

} // verus!
