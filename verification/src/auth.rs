//! The decisions of the login with an outside identity provider. The
//! exchange with the provider itself is not done here.

use vstd::prelude::*;
use crate::mutation::UserToCreate;

verus! {

/// What to do with a callback from the identity provider.
#[derive(Clone, Copy, Debug, PartialEq, Eq, Structural)]
pub enum CallbackStep {
    /// The session holds no state to compare with: start the login again.
    RestartLogin,
    /// The state that came back is not the one that was sent: do not log in.
    Refuse,
    /// The states agree: exchange the code for the user's profile.
    Exchange,
}

/// Decides what to do with a callback: `stored` is the state that the login
/// put into the session, `returned` the one that the provider sent back.
pub fn oauth_callback_step(stored: &Option<String>, returned: &String) -> (step: CallbackStep)
    ensures
        step == match *stored {
            None => CallbackStep::RestartLogin,
            Some(state) => if state@ == returned@ {
                CallbackStep::Exchange
            } else {
                CallbackStep::Refuse
            },
        },
{
    match stored {
        None => CallbackStep::RestartLogin,
        Some(state) => if *state == *returned {
            CallbackStep::Exchange
        } else {
            CallbackStep::Refuse
        },
    }
}

/// Where the browser is sent after a callback that ends at `step`. After an
/// exchange this is where it goes once the user is logged in.
pub fn callback_redirect(step: CallbackStep) -> (path: String)
    ensures
        path@ == match step {
            CallbackStep::RestartLogin => "/auth/google/login"@,
            CallbackStep::Refuse => "/auth/login-success"@,
            CallbackStep::Exchange => "/auth/login-success"@,
        },
{
    match step {
        CallbackStep::RestartLogin => "/auth/google/login".to_owned(),
        CallbackStep::Refuse => "/auth/login-success".to_owned(),
        CallbackStep::Exchange => "/auth/login-success".to_owned(),
    }
}

/// The user to create for a profile that the provider has vouched for: no
/// section, no class, no administrator.
pub fn profile_user(name: String, email: String) -> (user: UserToCreate)
    ensures
        user.name == name,
        user.email == email,
        user.section == 0,
        user.class@ == Seq::<char>::empty(),
        !user.admin,
{
    UserToCreate { name, email, section: 0, class: String::new(), admin: false }
}

/// The address to send a browser to for a login at `url`: the address
/// itself, character for character.
pub fn normal_url_to_redirector(url: &str) -> (target: String)
    ensures
        target@ == url@,
{
    url.to_owned()
}

} // verus!
