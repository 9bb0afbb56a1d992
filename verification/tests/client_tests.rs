use enriching_students::client::{API, ApiError, BookingOutcome, ScheduleOutcome,
    DEFAULT_PERIOD_ID, classify_schedule, resolve_course_id};
use enriching_students::creds::CredentialStore;
use enriching_students::wire::{ScheduleEntry, CourseOffering};

const PERIOD: &str = "Centaur Plus Enrichment";

fn entry(period: &str, course: &str) -> ScheduleEntry {
    ScheduleEntry { period_description: String::from(period), course_name: String::from(course) }
}

fn offering(id: u64, name: &str) -> CourseOffering {
    CourseOffering {
        course_id: id,
        course_name: String::from(name),
        staff_first_name: String::from("Ada"),
        staff_last_name: String::from("Lovelace"),
        room: String::from("101"),
        max_students: 30,
        current_appointments: 5,
        is_open_for_scheduling: true,
        blocked_reason: None,
        prevent_self_scheduling: false,
        appointment_request_course_id: 0,
    }
}

fn logged_in(token: &str) -> API {
    let mut api = API::new(String::from("me@host"), String::from("secret"));
    let exchange = format!("{{\"authToken\":\"{}\"}}", token);
    api.login_leg2_accept(&exchange).expect("token accepted");
    api
}

// ---------------------------------------------------------------------------
// Login handshake
// ---------------------------------------------------------------------------

#[test]
fn login_leg1_plan_carries_credentials() {
    let api = API::new(String::from("me@host"), String::from("secret"));
    let plan = api.login_leg1_plan();
    assert_eq!(plan.url, "https://app.enrichingstudents.com/LoginApi/Validate");
    assert_eq!(plan.body, "{\"parameters\":{\"EmailAddress\":\"me@host\",\"Password\":\"secret\"}}");
    assert_eq!(plan.headers.len(), 1);
    assert_eq!(plan.headers[0].0, "User-Agent");
}

#[test]
fn login_escapes_credentials() {
    let api = API::new(String::from("a\"b@host"), String::from("p\\w"));
    let plan = api.login_leg1_plan();
    assert_eq!(
        plan.body,
        "{\"parameters\":{\"EmailAddress\":\"a\\\"b@host\",\"Password\":\"p\\\\w\"}}"
    );
}

#[test]
fn unauthorized_login_is_denied_with_messages() {
    let api = API::new(String::from("me@host"), String::from("wrong"));
    let text = "{\"ErrorMessages\":[\"Invalid email or password\"],\"IsAuthorized\":false,\
                \"ViewModel\":{\"Token1\":\"t1\",\"Token2\":\"t2\"}}";
    match api.login_leg1_accept(text) {
        Err(ApiError::Authentication(ms)) => {
            assert_eq!(ms.len(), 1);
            assert_eq!(ms[0], "Invalid email or password");
        },
        _ => panic!("expected an authentication error"),
    }
}

#[test]
fn absent_authorization_flag_is_denied() {
    let api = API::new(String::from("me@host"), String::from("secret"));
    match api.login_leg1_accept("{\"ErrorMessages\":[]}") {
        Err(ApiError::Authentication(ms)) => assert!(ms.is_empty()),
        _ => panic!("expected an authentication error"),
    }
}

#[test]
fn authorized_login_yields_exchange_tokens() {
    let api = API::new(String::from("me@host"), String::from("secret"));
    let text = "{\"ErrorMessages\":[],\"IsAuthorized\":true,\
                \"ViewModel\":{\"Token1\":\"one\",\"Token2\":\"two\"}}";
    let tokens = api.login_leg1_accept(text).expect("granted");
    assert_eq!(tokens.token1, "one");
    assert_eq!(tokens.token2, "two");
    let plan = api.login_leg2_plan(&tokens);
    assert_eq!(plan.url, "https://student.enrichingstudents.com/v1.0/login/viatokens");
    assert_eq!(plan.body, "{\"token1\":\"one\",\"token2\":\"two\"}");
}

#[test]
fn undecodable_leg1_is_a_decode_error() {
    let api = API::new(String::from("me@host"), String::from("secret"));
    match api.login_leg1_accept("not json at all") {
        Err(ApiError::Decode(raw)) => assert_eq!(raw, "not json at all"),
        _ => panic!("expected a decode error"),
    }
    match api.login_leg1_accept("{\"IsAuthorized\":true}") {
        Err(ApiError::Decode(_)) => {},
        _ => panic!("expected a decode error"),
    }
}

#[test]
fn session_token_is_the_auth_token_and_carried_verbatim() {
    let mut api = API::new(String::from("me@host"), String::from("secret"));
    api.login_leg2_accept("{\"authToken\":\"abc123\"}").expect("token accepted");
    match &api.token {
        Some(t) => assert_eq!(t, "abc123"),
        None => panic!("expected a session token"),
    }
    let headers = api.headers().expect("session present");
    assert_eq!(headers.len(), 3);
    assert_eq!(headers[0].0, "User-Agent");
    assert_eq!(
        headers[0].1,
        "EnrichingStudentsBot/v0.1 (https://github.com/reallygoodaccount1/enriching-students-bot)"
    );
    assert_eq!(headers[1].0, "ESAuthToken");
    assert_eq!(headers[1].1, "abc123");
    assert_eq!(headers[2].0, "Referer");
    assert_eq!(headers[2].1, "https://student.enrichingstudents.com/dashboard");
}

#[test]
fn empty_auth_token_is_a_decode_error() {
    let mut api = API::new(String::from("me@host"), String::from("secret"));
    match api.login_leg2_accept("{\"authToken\":\"\"}") {
        Err(ApiError::Decode(_)) => {},
        _ => panic!("expected a decode error"),
    }
    assert!(api.token.is_none());
}

#[test]
fn operations_without_login_report_session_missing() {
    let api = API::new(String::from("me@host"), String::from("secret"));
    assert!(matches!(api.headers(), Err(ApiError::SessionMissing)));
    assert!(matches!(api.schedule_plan("2022-10-19"), Err(ApiError::SessionMissing)));
    assert!(matches!(
        api.courses_plan("2022-10-19", DEFAULT_PERIOD_ID),
        Err(ApiError::SessionMissing)
    ));
    assert!(matches!(
        api.booking_plan("2022-10-19", 42, DEFAULT_PERIOD_ID, "please"),
        Err(ApiError::SessionMissing)
    ));
}

// ---------------------------------------------------------------------------
// Schedule lookup
// ---------------------------------------------------------------------------

#[test]
fn single_matching_entry_names_its_course() {
    let entries = vec![entry("Homeroom", "Advisory"), entry(PERIOD, "Chess Club")];
    match classify_schedule(&entries) {
        Ok(ScheduleOutcome::Scheduled(c)) => assert_eq!(c, "Chess Club"),
        _ => panic!("expected the scheduled course"),
    }
}

#[test]
fn no_matching_entry_is_unscheduled() {
    let entries = vec![entry("Homeroom", "Advisory")];
    assert!(matches!(classify_schedule(&entries), Ok(ScheduleOutcome::Unscheduled)));
    let none: Vec<ScheduleEntry> = Vec::new();
    assert!(matches!(classify_schedule(&none), Ok(ScheduleOutcome::Unscheduled)));
}

#[test]
fn two_matching_entries_are_ambiguous_not_fatal() {
    let entries = vec![entry(PERIOD, "Chess Club"), entry(PERIOD, "Debate")];
    assert!(matches!(classify_schedule(&entries), Err(ApiError::AmbiguousSchedule)));
}

#[test]
fn schedule_accept_decodes_and_classifies() {
    let api = logged_in("abc123");
    let text = "[{\"periodDescription\":\"Centaur Plus Enrichment\",\"courseName\":\"Chess Club\"},\
                {\"periodDescription\":\"Homeroom\",\"courseName\":\"Advisory\"}]";
    match api.schedule_accept(text) {
        Ok(ScheduleOutcome::Scheduled(c)) => assert_eq!(c, "Chess Club"),
        _ => panic!("expected the scheduled course"),
    }
    assert!(matches!(api.schedule_accept("[]"), Ok(ScheduleOutcome::Unscheduled)));
    assert!(matches!(api.schedule_accept("{\"nope\":1}"), Err(ApiError::Decode(_))));
}

#[test]
fn schedule_plan_is_authenticated() {
    let api = logged_in("tok");
    let plan = api.schedule_plan("2022-10-19").expect("session present");
    assert_eq!(plan.url, "https://student.enrichingstudents.com/v1.0/appointment/viewschedule");
    assert_eq!(plan.body, "{\"startDate\":\"2022-10-19\"}");
    assert_eq!(plan.headers[1].0, "ESAuthToken");
    assert_eq!(plan.headers[1].1, "tok");
}

// ---------------------------------------------------------------------------
// Course resolution
// ---------------------------------------------------------------------------

#[test]
fn resolves_course_name_to_id() {
    let courses = vec![offering(7, "Robotics"), offering(42, "Chess Club")];
    assert_eq!(resolve_course_id(&courses, "Chess Club", "2022-10-19").expect("found"), 42);
}

#[test]
fn absent_course_is_not_found() {
    let courses = vec![offering(7, "Robotics")];
    match resolve_course_id(&courses, "Chess Club", "2022-10-19") {
        Err(ApiError::CourseNotFound { course, date }) => {
            assert_eq!(course, "Chess Club");
            assert_eq!(date, "2022-10-19");
        },
        _ => panic!("expected course-not-found"),
    }
}

#[test]
fn resolution_is_case_sensitive_and_takes_first() {
    let courses = vec![offering(1, "chess club"), offering(2, "Chess Club"), offering(
        3,
        "Chess Club",
    )];
    assert_eq!(resolve_course_id(&courses, "Chess Club", "d").expect("found"), 2);
}

#[test]
fn courses_plan_serializes_period_numerically() {
    let api = logged_in("tok");
    let plan = api.courses_plan("2022-10-19", DEFAULT_PERIOD_ID).expect("session present");
    assert_eq!(plan.url, "https://student.enrichingstudents.com/v1.0/course/forstudentscheduling");
    assert_eq!(plan.body, "{\"periodId\":1,\"startDate\":\"2022-10-19\"}");
}

#[test]
fn course_id_accept_decodes_the_listing() {
    let api = logged_in("tok");
    let text = "{\"courses\":[{\"courseId\":42,\"courseName\":\"Chess Club\",\
                \"rating\":4.5,\"blockedReason\":null,\"preventStudentSelfScheduling\":false,\
                \"isOpenForScheduling\":true,\"staffFirstName\":\"Ada\",\
                \"staffLastName\":\"Lovelace\",\"courseRoom\":\"101\",\
                \"maxNumberStudents\":30,\"numberOfAppointments\":5,\
                \"appointmentRequestCourseId\":0}]}";
    assert_eq!(api.course_id_accept(text, "Chess Club", "2022-10-19").expect("found"), 42);
    assert!(matches!(
        api.course_id_accept(text, "Debate", "2022-10-19"),
        Err(ApiError::CourseNotFound { .. })
    ));
    assert!(matches!(
        api.course_id_accept("{\"courses\":[{\"courseId\":\"42\"}]}", "x", "d"),
        Err(ApiError::Decode(_))
    ));
}

// ---------------------------------------------------------------------------
// Booking submission
// ---------------------------------------------------------------------------

#[test]
fn booking_plan_serializes_course_id_numerically() {
    let api = logged_in("tok");
    let plan = api.booking_plan("2022-10-19", 42, DEFAULT_PERIOD_ID, "please").expect(
        "session present",
    );
    assert_eq!(plan.url, "https://student.enrichingstudents.com/v1.0/appointment/save");
    assert_eq!(
        plan.body,
        "{\"courseId\":42,\"periodId\":1,\"scheduleDate\":\"2022-10-19\",\
         \"schedulerComment\":\"please\"}"
    );
}

#[test]
fn booking_ack_on_benign_responses() {
    let api = logged_in("tok");
    assert!(matches!(api.booking_accept(""), Ok(BookingOutcome::Ack)));
    assert!(matches!(api.booking_accept("  \n"), Ok(BookingOutcome::Ack)));
    assert!(matches!(api.booking_accept("{\"scheduled\":true}"), Ok(BookingOutcome::Ack)));
    assert!(matches!(
        api.booking_accept("{\"errorMessages\":[]}"),
        Ok(BookingOutcome::Ack)
    ));
}

#[test]
fn booking_rejection_surfaces_messages() {
    let api = logged_in("tok");
    match api.booking_accept("{\"errorMessages\":[\"Course is full\"]}") {
        Ok(BookingOutcome::Rejected(ms)) => {
            assert_eq!(ms.len(), 1);
            assert_eq!(ms[0], "Course is full");
        },
        _ => panic!("expected a rejection"),
    }
    assert!(matches!(api.booking_accept("not json"), Err(ApiError::Decode(_))));
}

// ---------------------------------------------------------------------------
// End to end
// ---------------------------------------------------------------------------

#[test]
fn full_scenario_from_stored_credentials_to_ack() {
    let mut store = CredentialStore::new();
    store.upsert(String::from("u1"), String::from("me@host"), String::from("secret"));
    let (email, password) = store.get(&String::from("u1")).expect("stored");

    let mut api = API::new(email, password);
    let leg1 = "{\"ErrorMessages\":[],\"IsAuthorized\":true,\
                \"ViewModel\":{\"Token1\":\"one\",\"Token2\":\"two\"}}";
    let tokens = api.login_leg1_accept(leg1).expect("granted");
    let _ = api.login_leg2_plan(&tokens);
    api.login_leg2_accept("{\"authToken\":\"abc123\"}").expect("token accepted");
    match &api.token {
        Some(t) => assert_eq!(t, "abc123"),
        None => panic!("expected a session token"),
    }

    let schedule = "[{\"periodDescription\":\"Centaur Plus Enrichment\",\
                    \"courseName\":\"Chess Club\"}]";
    match api.schedule_accept(schedule) {
        Ok(ScheduleOutcome::Scheduled(c)) => assert_eq!(c, "Chess Club"),
        _ => panic!("expected the scheduled course"),
    }

    let courses = "{\"courses\":[{\"courseId\":42,\"courseName\":\"Chess Club\",\
                  \"blockedReason\":null,\"preventStudentSelfScheduling\":false,\
                  \"isOpenForScheduling\":true,\"staffFirstName\":\"Ada\",\
                  \"staffLastName\":\"Lovelace\",\"courseRoom\":\"101\",\
                  \"maxNumberStudents\":30,\"numberOfAppointments\":5,\
                  \"appointmentRequestCourseId\":0}]}";
    let cid = api.course_id_accept(courses, "Chess Club", "2022-10-19").expect("found");
    assert_eq!(cid, 42);

    let plan = api.booking_plan("2022-10-19", cid, DEFAULT_PERIOD_ID, "please").expect(
        "session present",
    );
    assert_eq!(plan.headers[1].1, "abc123");
    assert!(plan.body.contains("\"courseId\":42,"));
    assert!(matches!(api.booking_accept(""), Ok(BookingOutcome::Ack)));
}
