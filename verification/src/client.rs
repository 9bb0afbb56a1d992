//! The scheduling session client: the two-leg login handshake, the
//! session token it yields, and the three authenticated operations
//! (schedule lookup, course resolution, booking submission) with
//! their error classification.
//!
//! The client does no network work itself. For each operation it
//! produces a [`RequestPlan`] — URL, headers and body of one POST —
//! and classifies the response text the caller brings back. Exchange
//! tokens from leg 1 belong to one handshake: they must be passed on
//! to leg 2 at once and never reused by a later call.

use vstd::prelude::*;
use vstd::string::StringExecFns;
use crate::json::{JsonV, lookup, sp_doc, parse_json, str_eq, is_blank, is_ws_char};
use crate::wire::{
    ScheduleEntry, ScheduleEntryV, CourseOffering, CourseOfferingV, Leg1, Leg1V, Booking, BookingV,
    spec_msgs, strs_view, views_of, spec_leg1, spec_leg2, spec_schedule, spec_courses,
    spec_booking, spec_login_body, spec_exchange_body,
    spec_schedule_body, spec_courses_body, spec_booking_body, decode_leg1, decode_leg2,
    decode_schedule, decode_courses, decode_booking, login_body, exchange_body, schedule_body,
    courses_body, booking_body,
};

verus! {

/// The portal's fixed period for self-scheduling requests.
pub const DEFAULT_PERIOD_ID: u64 = 1;

/// A typed failure of one client operation. No operation panics or
/// aborts: every fault is returned as one of these.
#[derive(Debug)]
pub enum ApiError {
    /// The network transport failed; carries the transport's report.
    /// Produced by the embedding program, never by the client itself.
    Transport(String),
    /// A response could not be decoded; carries the raw payload.
    Decode(String),
    /// The portal denied the credentials; carries its messages.
    Authentication(Vec<String>),
    /// An authenticated operation was attempted before a login.
    SessionMissing,
    /// No offering of that name on that date.
    CourseNotFound { course: String, date: String },
    /// More than one entry of the watched period in one day.
    AmbiguousSchedule,
    /// The credential store failed; carries its report.
    Storage(String),
}

/// Outcome of a schedule lookup.
pub enum ScheduleOutcome {
    /// Exactly one entry of the watched period; its course name.
    Scheduled(String),
    /// No entry of the watched period: a distinct outcome, not an error.
    Unscheduled,
}

/// Outcome of a booking submission.
pub enum BookingOutcome {
    /// The portal acknowledged the booking.
    Ack,
    /// The portal reported a failure in its response body.
    Rejected(Vec<String>),
}

/// One outbound POST: where to send it, with which headers and body.
pub struct RequestPlan {
    pub url: String,
    pub headers: Vec<(String, String)>,
    pub body: String,
}

/// The two opaque exchange tokens of a validated leg 1.
pub struct ExchangeTokens {
    pub token1: String,
    pub token2: String,
}

/// The views of a list of header pairs.
pub open spec fn pairs_view(v: Seq<(String, String)>) -> Seq<(Seq<char>, Seq<char>)> {
    Seq::new(v.len(), |i: int| (v[i].0@, v[i].1@))
}

/// The credential-validation endpoint on the primary host.
pub open spec fn spec_validate_url() -> Seq<char> {
    "https://app.enrichingstudents.com/LoginApi/Validate"@
}

/// The token-exchange endpoint on the secondary host.
pub open spec fn spec_exchange_url() -> Seq<char> {
    "https://student.enrichingstudents.com/v1.0/login/viatokens"@
}

/// The schedule-view endpoint.
pub open spec fn spec_viewschedule_url() -> Seq<char> {
    "https://student.enrichingstudents.com/v1.0/appointment/viewschedule"@
}

/// The course-listing endpoint.
pub open spec fn spec_courses_url() -> Seq<char> {
    "https://student.enrichingstudents.com/v1.0/course/forstudentscheduling"@
}

/// The booking-save endpoint.
pub open spec fn spec_save_url() -> Seq<char> {
    "https://student.enrichingstudents.com/v1.0/appointment/save"@
}

/// The product's fixed user-agent string.
pub open spec fn spec_user_agent() -> Seq<char> {
    "EnrichingStudentsBot/v0.1 (https://github.com/reallygoodaccount1/enriching-students-bot)"@
}

/// The dashboard page sent as referer on authenticated calls.
pub open spec fn spec_referer() -> Seq<char> {
    "https://student.enrichingstudents.com/dashboard"@
}

/// The one period label this client watches.
pub open spec fn period_label() -> Seq<char> {
    "Centaur Plus Enrichment"@
}

/// The headers of an unauthenticated request: the user-agent alone.
pub open spec fn spec_plain_headers() -> Seq<(Seq<char>, Seq<char>)> {
    seq![("User-Agent"@, spec_user_agent())]
}

/// The headers of an authenticated request: the user-agent, the
/// session token verbatim under `ESAuthToken`, and the referer.
pub open spec fn spec_headers(token: Seq<char>) -> Seq<(Seq<char>, Seq<char>)> {
    seq![
        ("User-Agent"@, spec_user_agent()),
        ("ESAuthToken"@, token),
        ("Referer"@, spec_referer()),
    ]
}

fn plain_headers() -> (r: Vec<(String, String)>)
    ensures
        pairs_view(r@) == spec_plain_headers(),
{
    let mut h: Vec<(String, String)> = Vec::new();
    h.push(
        (
            String::from_str("User-Agent"),
            String::from_str(
                "EnrichingStudentsBot/v0.1 (https://github.com/reallygoodaccount1/enriching-students-bot)",
            ),
        ),
    );
    proof {
        assert(pairs_view(h@) =~= spec_plain_headers());
    }
    h
}

fn make_headers(token: &String) -> (r: Vec<(String, String)>)
    ensures
        pairs_view(r@) == spec_headers(token@),
{
    let mut h: Vec<(String, String)> = Vec::new();
    h.push(
        (
            String::from_str("User-Agent"),
            String::from_str(
                "EnrichingStudentsBot/v0.1 (https://github.com/reallygoodaccount1/enriching-students-bot)",
            ),
        ),
    );
    h.push((String::from_str("ESAuthToken"), token.clone()));
    h.push(
        (
            String::from_str("Referer"),
            String::from_str("https://student.enrichingstudents.com/dashboard"),
        ),
    );
    proof {
        assert(pairs_view(h@) =~= spec_headers(token@));
    }
    h
}

// ---------------------------------------------------------------------------
// Schedule classification
// ---------------------------------------------------------------------------

/// Whether an entry belongs to the watched period.
pub open spec fn entry_matches(e: ScheduleEntryV) -> bool {
    e.period_description == period_label()
}

/// How many entries belong to the watched period.
pub open spec fn count_matching(es: Seq<ScheduleEntryV>) -> nat
    decreases es.len(),
{
    if es.len() == 0 {
        0
    } else {
        (if entry_matches(es[0]) {
            1nat
        } else {
            0nat
        }) + count_matching(es.drop_first())
    }
}

/// The first entry of the watched period, if any.
pub open spec fn first_matching(es: Seq<ScheduleEntryV>) -> Option<ScheduleEntryV>
    decreases es.len(),
{
    if es.len() == 0 {
        None
    } else if entry_matches(es[0]) {
        Some(es[0])
    } else {
        first_matching(es.drop_first())
    }
}

/// Model of a schedule lookup's outcome.
pub enum ScheduleV {
    Scheduled(Seq<char>),
    Unscheduled,
    Ambiguous,
}

/// What a day's schedule means: no entry of the watched period is
/// `Unscheduled`; exactly one yields its course name; more than one
/// is ambiguous.
pub open spec fn spec_classify(es: Seq<ScheduleEntryV>) -> ScheduleV {
    if count_matching(es) == 0 {
        ScheduleV::Unscheduled
    } else if count_matching(es) == 1 {
        ScheduleV::Scheduled(first_matching(es)->Some_0.course_name)
    } else {
        ScheduleV::Ambiguous
    }
}

/// Classify a decoded schedule. Ambiguity is a returned error, never
/// an abort.
pub fn classify_schedule(entries: &Vec<ScheduleEntry>) -> (r: Result<ScheduleOutcome, ApiError>)
    ensures
        match r {
            Ok(ScheduleOutcome::Scheduled(c)) => spec_classify(views_of(entries@))
                == ScheduleV::Scheduled(c@),
            Ok(ScheduleOutcome::Unscheduled) => spec_classify(views_of(entries@))
                == ScheduleV::Unscheduled,
            Err(e) => e is AmbiguousSchedule && spec_classify(views_of(entries@))
                == ScheduleV::Ambiguous,
        },
{
    let ghost es = views_of(entries@);
    let n: usize = entries.len();
    let mut i: usize = 0;
    let mut count: usize = 0;
    let mut first: Option<String> = None;
    proof {
        assert(es.skip(0) =~= es);
    }
    while i < n
        invariant
            n == entries@.len(),
            es == views_of(entries@),
            0 <= i <= n,
            count <= i,
            count_matching(es) == count + count_matching(es.skip(i as int)),
            match first {
                Some(c) => count >= 1 && (first_matching(es) matches Some(e) && e.course_name
                    == c@),
                None => count == 0 && first_matching(es) == first_matching(es.skip(i as int)),
            },
        decreases n - i,
    {
        proof {
            assert(es.skip(i as int)[0] == es[i as int]);
            assert(es.skip(i as int).drop_first() =~= es.skip(i as int + 1));
        }
        let m = str_eq(entries[i].period_description.as_str(), "Centaur Plus Enrichment");
        if m {
            if count == 0 {
                first = Some(entries[i].course_name.clone());
            }
            count = count + 1;
        }
        i = i + 1;
    }
    proof {
        assert(es.skip(n as int) =~= Seq::<ScheduleEntryV>::empty());
    }
    if count == 0 {
        Ok(ScheduleOutcome::Unscheduled)
    } else if count == 1 {
        match first {
            Some(c) => Ok(ScheduleOutcome::Scheduled(c)),
            None => {
                proof {
                    assert(false);
                }
                Ok(ScheduleOutcome::Unscheduled)
            },
        }
    } else {
        Err(ApiError::AmbiguousSchedule)
    }
}

// ---------------------------------------------------------------------------
// Course resolution
// ---------------------------------------------------------------------------

/// The identifier of the first offering named `name`, if any. The
/// match is exact and case-sensitive; openness and capacity are not
/// consulted.
pub open spec fn spec_resolve(cs: Seq<CourseOfferingV>, name: Seq<char>) -> Option<u64>
    decreases cs.len(),
{
    if cs.len() == 0 {
        None
    } else if cs[0].course_name == name {
        Some(cs[0].course_id)
    } else {
        spec_resolve(cs.drop_first(), name)
    }
}

/// Resolve a display name to the portal's course identifier by linear
/// scan of a decoded course list.
pub fn resolve_course_id(courses: &Vec<CourseOffering>, course_name: &str, date: &str) -> (r:
    Result<u64, ApiError>)
    ensures
        match r {
            Ok(id) => spec_resolve(views_of(courses@), course_name@) == Some(id),
            Err(e) => spec_resolve(views_of(courses@), course_name@) is None && (e matches
                ApiError::CourseNotFound { course: c, date: d } && c@ == course_name@ && d@
                == date@),
        },
{
    let ghost cs = views_of(courses@);
    let n: usize = courses.len();
    let mut i: usize = 0;
    proof {
        assert(cs.skip(0) =~= cs);
    }
    while i < n
        invariant
            n == courses@.len(),
            cs == views_of(courses@),
            0 <= i <= n,
            spec_resolve(cs, course_name@) == spec_resolve(cs.skip(i as int), course_name@),
        decreases n - i,
    {
        proof {
            assert(cs.skip(i as int)[0] == cs[i as int]);
            assert(cs.skip(i as int).drop_first() =~= cs.skip(i as int + 1));
        }
        if str_eq(courses[i].course_name.as_str(), course_name) {
            return Ok(courses[i].course_id);
        }
        i = i + 1;
    }
    proof {
        assert(cs.skip(n as int) =~= Seq::<CourseOfferingV>::empty());
    }
    Err(
        ApiError::CourseNotFound {
            course: String::from_str(course_name),
            date: String::from_str(date),
        },
    )
}

// ---------------------------------------------------------------------------
// The client
// ---------------------------------------------------------------------------

/// A scheduling session client: one user's credentials and, after a
/// successful handshake, the session token.
pub struct API {
    pub email: String,
    pub password: String,
    pub token: Option<String>,
}

impl API {
    /// A held session token is never empty.
    pub open spec fn wf(&self) -> bool {
        self.token matches Some(t) ==> t@.len() > 0
    }

    /// A client with no session yet.
    pub fn new(email: String, password: String) -> (r: API)
        ensures
            r.email@ == email@,
            r.password@ == password@,
            r.token is None,
            r.wf(),
    {
        API { email, password, token: None }
    }

    /// Leg 1 of the handshake: POST the credentials, in their nested
    /// Pascal-case shape, to the validation endpoint.
    pub fn login_leg1_plan(&self) -> (r: RequestPlan)
        ensures
            r.url@ == spec_validate_url(),
            pairs_view(r.headers@) == spec_plain_headers(),
            r.body@ == spec_login_body(self.email@, self.password@),
    {
        RequestPlan {
            url: String::from_str("https://app.enrichingstudents.com/LoginApi/Validate"),
            headers: plain_headers(),
            body: login_body(self.email.as_str(), self.password.as_str()),
        }
    }

    /// Read the validation response: denial becomes an authentication
    /// error carrying the portal's messages, a shape mismatch a decode
    /// error with the raw payload; only a grant yields the exchange
    /// tokens for leg 2.
    pub fn login_leg1_accept(&self, text: &str) -> (r: Result<ExchangeTokens, ApiError>)
        ensures
            match r {
                Ok(t) => (sp_doc(text@) matches Some(d) && spec_leg1(d) == Leg1V::Granted(
                    t.token1@,
                    t.token2@,
                )),
                Err(e) => match e {
                    ApiError::Authentication(ms) => (sp_doc(text@) matches Some(d) && spec_leg1(d)
                        == Leg1V::Denied(strs_view(ms@))),
                    ApiError::Decode(raw) => raw@ == text@ && (sp_doc(text@) is None || spec_leg1(
                        sp_doc(text@)->Some_0,
                    ) == Leg1V::Malformed),
                    _ => false,
                },
            },
    {
        match parse_json(text) {
            None => Err(ApiError::Decode(text.to_owned())),
            Some(doc) => match decode_leg1(&doc) {
                Leg1::Granted(t1, t2) => Ok(ExchangeTokens { token1: t1, token2: t2 }),
                Leg1::Denied(ms) => Err(ApiError::Authentication(ms)),
                Leg1::Malformed => Err(ApiError::Decode(text.to_owned())),
            },
        }
    }

    /// Leg 2 of the handshake: POST the two exchange tokens to the
    /// token-exchange endpoint.
    pub fn login_leg2_plan(&self, tokens: &ExchangeTokens) -> (r: RequestPlan)
        ensures
            r.url@ == spec_exchange_url(),
            pairs_view(r.headers@) == spec_plain_headers(),
            r.body@ == spec_exchange_body(tokens.token1@, tokens.token2@),
    {
        RequestPlan {
            url: String::from_str("https://student.enrichingstudents.com/v1.0/login/viatokens"),
            headers: plain_headers(),
            body: exchange_body(tokens.token1.as_str(), tokens.token2.as_str()),
        }
    }

    /// Read the token-exchange response and store the session token.
    /// On a decode failure nothing is stored.
    pub fn login_leg2_accept(&mut self, text: &str) -> (r: Result<(), ApiError>)
        requires
            old(self).wf(),
        ensures
            final(self).email == old(self).email,
            final(self).password == old(self).password,
            final(self).wf(),
            match r {
                Ok(_) => (sp_doc(text@) matches Some(d) && spec_leg2(d) matches Some(tok) && (
                final(self).token matches Some(t) && t@ == tok)),
                Err(e) => final(self).token == old(self).token && (e matches ApiError::Decode(raw)
                    && raw@ == text@) && (sp_doc(text@) is None || spec_leg2(
                    sp_doc(text@)->Some_0,
                ) is None),
            },
    {
        match parse_json(text) {
            None => Err(ApiError::Decode(text.to_owned())),
            Some(doc) => match decode_leg2(&doc) {
                Some(tok) => {
                    self.token = Some(tok);
                    Ok(())
                },
                None => Err(ApiError::Decode(text.to_owned())),
            },
        }
    }

    /// The headers of an authenticated request. Without a prior
    /// login this is a contract violation surfaced as
    /// `SessionMissing`, not a transport fault.
    pub fn headers(&self) -> (r: Result<Vec<(String, String)>, ApiError>)
        ensures
            match r {
                Ok(h) => self.token matches Some(t) && pairs_view(h@) == spec_headers(t@),
                Err(e) => self.token is None && e is SessionMissing,
            },
    {
        match &self.token {
            Some(t) => Ok(make_headers(t)),
            None => Err(ApiError::SessionMissing),
        }
    }

    /// The schedule-view request for `date`.
    pub fn schedule_plan(&self, date: &str) -> (r: Result<RequestPlan, ApiError>)
        ensures
            match r {
                Ok(p) => self.token matches Some(t) && p.url@ == spec_viewschedule_url()
                    && pairs_view(p.headers@) == spec_headers(t@) && p.body@
                    == spec_schedule_body(date@),
                Err(e) => self.token is None && e is SessionMissing,
            },
    {
        match self.headers() {
            Ok(h) => Ok(
                RequestPlan {
                    url: String::from_str(
                        "https://student.enrichingstudents.com/v1.0/appointment/viewschedule",
                    ),
                    headers: h,
                    body: schedule_body(date),
                },
            ),
            Err(e) => Err(e),
        }
    }

    /// Read the schedule response and classify the day.
    pub fn schedule_accept(&self, text: &str) -> (r: Result<ScheduleOutcome, ApiError>)
        ensures
            match r {
                Ok(o) => (sp_doc(text@) matches Some(d) && spec_schedule(d) matches Some(es) && (
                match o {
                    ScheduleOutcome::Scheduled(c) => spec_classify(es) == ScheduleV::Scheduled(
                        c@,
                    ),
                    ScheduleOutcome::Unscheduled => spec_classify(es) == ScheduleV::Unscheduled,
                })),
                Err(e) => match e {
                    ApiError::AmbiguousSchedule => (sp_doc(text@) matches Some(d)
                        && spec_schedule(d) matches Some(es) && spec_classify(es)
                        == ScheduleV::Ambiguous),
                    ApiError::Decode(raw) => raw@ == text@ && (sp_doc(text@) is None
                        || spec_schedule(sp_doc(text@)->Some_0) is None),
                    _ => false,
                },
            },
    {
        match parse_json(text) {
            None => Err(ApiError::Decode(text.to_owned())),
            Some(doc) => match decode_schedule(&doc) {
                Some(entries) => classify_schedule(&entries),
                None => Err(ApiError::Decode(text.to_owned())),
            },
        }
    }

    /// The course-listing request for `date` and `period_id`.
    pub fn courses_plan(&self, date: &str, period_id: u64) -> (r: Result<RequestPlan, ApiError>)
        ensures
            match r {
                Ok(p) => self.token matches Some(t) && p.url@ == spec_courses_url()
                    && pairs_view(p.headers@) == spec_headers(t@) && p.body@
                    == spec_courses_body(period_id, date@),
                Err(e) => self.token is None && e is SessionMissing,
            },
    {
        match self.headers() {
            Ok(h) => Ok(
                RequestPlan {
                    url: String::from_str(
                        "https://student.enrichingstudents.com/v1.0/course/forstudentscheduling",
                    ),
                    headers: h,
                    body: courses_body(period_id, date),
                },
            ),
            Err(e) => Err(e),
        }
    }

    /// Read the course-listing response and resolve `course_name`.
    pub fn course_id_accept(&self, text: &str, course_name: &str, date: &str) -> (r: Result<
        u64,
        ApiError,
    >)
        ensures
            match r {
                Ok(id) => (sp_doc(text@) matches Some(d) && spec_courses(d) matches Some(cs)
                    && spec_resolve(cs, course_name@) == Some(id)),
                Err(e) => match e {
                    ApiError::CourseNotFound { course: c, date: d2 } => c@ == course_name@ && d2@
                        == date@ && (sp_doc(text@) matches Some(d) && spec_courses(d) matches Some(
                        cs,
                    ) && spec_resolve(cs, course_name@) is None),
                    ApiError::Decode(raw) => raw@ == text@ && (sp_doc(text@) is None
                        || spec_courses(sp_doc(text@)->Some_0) is None),
                    _ => false,
                },
            },
    {
        match parse_json(text) {
            None => Err(ApiError::Decode(text.to_owned())),
            Some(doc) => match decode_courses(&doc) {
                Some(courses) => resolve_course_id(&courses, course_name, date),
                None => Err(ApiError::Decode(text.to_owned())),
            },
        }
    }

    /// The booking-save request: course and period as numeric fields,
    /// of the very type the resolver returned.
    pub fn booking_plan(&self, date: &str, course_id: u64, period_id: u64, comment: &str) -> (r:
        Result<RequestPlan, ApiError>)
        ensures
            match r {
                Ok(p) => self.token matches Some(t) && p.url@ == spec_save_url() && pairs_view(
                    p.headers@,
                ) == spec_headers(t@) && p.body@ == spec_booking_body(
                    course_id,
                    period_id,
                    date@,
                    comment@,
                ),
                Err(e) => self.token is None && e is SessionMissing,
            },
    {
        match self.headers() {
            Ok(h) => Ok(
                RequestPlan {
                    url: String::from_str(
                        "https://student.enrichingstudents.com/v1.0/appointment/save",
                    ),
                    headers: h,
                    body: booking_body(course_id, period_id, date, comment),
                },
            ),
            Err(e) => Err(e),
        }
    }

    /// Read the booking-save response. An empty body or one without
    /// reported errors acknowledges the booking; reported messages
    /// are a rejection, surfaced for the caller to decide on.
    pub fn booking_accept(&self, text: &str) -> (r: Result<BookingOutcome, ApiError>)
        ensures
            match r {
                Ok(BookingOutcome::Ack) => (forall|k: int|
                    0 <= k < text@.len() ==> is_ws_char(text@[k])) || (sp_doc(text@) matches Some(
                    d,
                ) && spec_booking(d) == BookingV::Ack),
                Ok(BookingOutcome::Rejected(ms)) => (sp_doc(text@) matches Some(d)
                    && spec_booking(d) == BookingV::Rejected(strs_view(ms@))),
                Err(e) => (e matches ApiError::Decode(raw) && raw@ == text@) && !(forall|k: int|
                    0 <= k < text@.len() ==> is_ws_char(text@[k])) && (sp_doc(text@) is None
                    || spec_booking(sp_doc(text@)->Some_0) == BookingV::Malformed),
            },
    {
        if is_blank(text) {
            return Ok(BookingOutcome::Ack);
        }
        match parse_json(text) {
            None => Err(ApiError::Decode(text.to_owned())),
            Some(doc) => match decode_booking(&doc) {
                Booking::Ack => Ok(BookingOutcome::Ack),
                Booking::Rejected(ms) => Ok(BookingOutcome::Rejected(ms)),
                Booking::Malformed => Err(ApiError::Decode(text.to_owned())),
            },
        }
    }
}

// ---------------------------------------------------------------------------
// Laws of the handshake
// ---------------------------------------------------------------------------

proof fn lemma_count_first(es: Seq<ScheduleEntryV>)
    ensures
        (count_matching(es) > 0) == (first_matching(es) is Some),
    decreases es.len(),
{
    if es.len() > 0 && !entry_matches(es[0]) {
        lemma_count_first(es.drop_first());
    }
}

/// What a day's schedule means, spelled out: with no entry of the
/// watched period the day is unscheduled; with exactly one, the
/// outcome names that entry's course; with two or more, the day is
/// ambiguous — never anything else.
pub proof fn law_schedule_classification(es: Seq<ScheduleEntryV>)
    ensures
        count_matching(es) == 0 ==> spec_classify(es) == ScheduleV::Unscheduled,
        count_matching(es) == 1 ==> (first_matching(es) matches Some(e) && spec_classify(es)
            == ScheduleV::Scheduled(e.course_name)),
        count_matching(es) >= 2 ==> spec_classify(es) == ScheduleV::Ambiguous,
{
    lemma_count_first(es);
}

/// Resolution is a linear scan for the first exact, case-sensitive
/// name match: it succeeds exactly when some offering carries the
/// name, and then returns the identifier of the first one.
pub proof fn law_resolution_is_first_exact_match(cs: Seq<CourseOfferingV>, name: Seq<char>)
    ensures
        (spec_resolve(cs, name) is Some) == (exists|k: int|
            0 <= k < cs.len() && cs[k].course_name == name),
        spec_resolve(cs, name) matches Some(id) ==> exists|k: int|
            0 <= k < cs.len() && cs[k].course_name == name && cs[k].course_id == id && (forall|
                j: int,
            | 0 <= j < k ==> cs[j].course_name != name),
    decreases cs.len(),
{
    if cs.len() == 0 {
    } else if cs[0].course_name == name {
        assert(cs[0].course_name == name && cs[0].course_id == cs[0].course_id);
    } else {
        let rest = cs.drop_first();
        law_resolution_is_first_exact_match(rest, name);
        assert(forall|k: int| 0 <= k < rest.len() ==> rest[k] == cs[k + 1]);
        if exists|k: int| 0 <= k < cs.len() && cs[k].course_name == name {
            let k0 = choose|k: int| 0 <= k < cs.len() && cs[k].course_name == name;
            assert(k0 >= 1);
            assert(0 <= k0 - 1 < rest.len() && rest[k0 - 1].course_name == name);
        }
        if spec_resolve(cs, name) is Some {
            let id = spec_resolve(cs, name)->Some_0;
            let kr = choose|k: int|
                0 <= k < rest.len() && rest[k].course_name == name && rest[k].course_id == id && (
                forall|j: int| 0 <= j < k ==> rest[j].course_name != name);
            assert(0 <= kr + 1 < cs.len() && cs[kr + 1].course_name == name && cs[
                kr + 1
            ].course_id == id);
            assert(forall|j: int| 0 <= j < kr + 1 ==> cs[j].course_name != name) by {
                assert(forall|j: int| 1 <= j < kr + 1 ==> cs[j] == rest[j - 1]);
            }
        }
    }
}

/// Whenever the portal's validation response reports that the
/// credentials are not authorized, the handshake is denied: no pair
/// of exchange tokens, and so no session, can come of it.
pub proof fn law_unauthorized_never_grants(doc: JsonV)
    requires
        doc matches JsonV::Obj(fs) && lookup(fs, "IsAuthorized"@) == Some(JsonV::Bool(false)),
    ensures
        !(spec_leg1(doc) is Granted),
{
}

/// Whenever the portal denies authorization and reports its messages
/// in the expected shape, the handshake surfaces exactly those
/// messages as the authentication failure.
pub proof fn law_unauthorized_carries_messages(doc: JsonV, ms: Seq<Seq<char>>)
    requires
        doc matches JsonV::Obj(fs) && lookup(fs, "IsAuthorized"@) == Some(JsonV::Bool(false))
            && spec_msgs(fs) == Some(ms),
    ensures
        spec_leg1(doc) == Leg1V::Denied(ms),
{
}

/// For every successful token exchange, the session token is exactly
/// the `authToken` of the response, and the headers of every
/// subsequent authenticated request carry it verbatim under
/// `ESAuthToken`.
pub proof fn law_token_carried(doc: JsonV, token: Seq<char>)
    requires
        spec_leg2(doc) == Some(token),
    ensures
        spec_headers(token).len() == 3,
        spec_headers(token)[1] == ("ESAuthToken"@, token),
{
}

} // verus!
