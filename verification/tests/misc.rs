use event_scheduler::auth::{
    callback_redirect, normal_url_to_redirector, oauth_callback_step, profile_user, CallbackStep,
};
use event_scheduler::error::ServiceError;
use event_scheduler::time::Timestamp;

#[test]
fn a_callback_without_stored_state_restarts_the_login() {
    assert_eq!(oauth_callback_step(&None, &"abc".to_string()), CallbackStep::RestartLogin);
    assert_eq!(callback_redirect(CallbackStep::RestartLogin), "/auth/google/login");
}

#[test]
fn a_callback_with_another_state_is_refused() {
    assert_eq!(oauth_callback_step(&Some("abd".to_string()), &"abc".to_string()), CallbackStep::Refuse);
    assert_eq!(oauth_callback_step(&Some("".to_string()), &"abc".to_string()), CallbackStep::Refuse);
    assert_eq!(callback_redirect(CallbackStep::Refuse), "/auth/login-success");
}

#[test]
fn a_callback_with_the_stored_state_goes_on() {
    assert_eq!(oauth_callback_step(&Some("abc".to_string()), &"abc".to_string()), CallbackStep::Exchange);
    assert_eq!(callback_redirect(CallbackStep::Exchange), "/auth/login-success");
}

#[test]
fn a_profile_becomes_a_plain_user() {
    let user = profile_user("Ada".to_string(), "ada@example.org".to_string());
    assert_eq!(user.name, "Ada");
    assert_eq!(user.email, "ada@example.org");
    assert_eq!(user.section, 0);
    assert_eq!(user.class, "");
    assert!(!user.admin);
}

#[test]
fn the_login_address_is_passed_on_unchanged() {
    let url = "https://accounts.example.org/o/oauth2/v2/auth?scope=email&state=x%20y";
    assert_eq!(normal_url_to_redirector(url), url);
    assert_eq!(normal_url_to_redirector(""), "");
}

#[test]
fn a_time_is_cut_to_the_whole_second() {
    let t = Timestamp { seconds: -12, nanos: 999_999_999 };
    assert_eq!(t.whole_seconds(), Timestamp { seconds: -12, nanos: 0 });
    assert_eq!(Timestamp { seconds: 5, nanos: 0 }.whole_seconds(), Timestamp { seconds: 5, nanos: 0 });
}

#[test]
fn every_failure_has_its_text() {
    assert_eq!(ServiceError::StoreUnavailable.message(), "the store is unavailable");
    assert_eq!(ServiceError::NotSubscribed.message(), "the user is not subscribed to the event");
    assert_eq!(ServiceError::InvalidRequest.message(), "the request is invalid");
    assert_eq!(ServiceError::ChannelDeliveryFailure.message(), "an update could not be delivered");
}
