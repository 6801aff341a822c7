use vstd::prelude::*;
use crate::secret::{Secret, secret_text, secret_is_empty};

verus! {

/// The error text when the current user's name cannot be found.
pub open spec fn unknown_user_message() -> Seq<char> {
    "Could not determine current username"@
}

/// `whoami::username`: the name of the user running the program, from the
/// system's user database. Which name depends on the system; on Unix-like
/// systems, where a Wayland locker runs, it is never empty: whoami falls
/// back to `unknown` when the record is missing, empty or not UTF-8.
#[verifier::external_body]
fn current_username() -> (name: String)
    ensures
        name@.len() > 0,
{
    whoami::username()
}

/// The outcome of authenticating `password` for a user whose name is
/// `username`, given whether PAM accepted it: an error when no name was
/// found, otherwise success exactly when the password is not empty and PAM
/// accepted it.
pub fn authentication_outcome(username: &str, password: &Secret, pam_accepted: bool) -> (outcome: Result<bool, String>)
    ensures
        username@.len() == 0 ==> (outcome matches Err(e) && e@ == unknown_user_message()),
        username@.len() > 0 ==> outcome == Ok::<bool, String>(secret_text(*password).len() > 0 && pam_accepted),
{
    if username.unicode_len() == 0 {
        return Err(String::from_str("Could not determine current username"));
    }
    Ok(!secret_is_empty(password) && pam_accepted)
}

/// Authentication handler using PAM (Pluggable Authentication Modules)
pub struct Auth {
    service_name: String,
}

impl Auth {
    /// The PAM service this handler authenticates against.
    pub closed spec fn spec_service(&self) -> Seq<char> {
        self.service_name@
    }

    /// Create a new authentication handler with the given service name
    pub fn new(service_name: String) -> (auth: Self)
        ensures
            auth.spec_service() == service_name@,
    {
        Auth { service_name }
    }

    /// Authenticate the current user with the given password, where
    /// `pam_accepted` is PAM's verdict on the password for the current user
    /// against this handler's service. Returns Ok(true) if authentication
    /// succeeded, Ok(false) if it failed: an empty password is rejected
    /// without regard to PAM. The current user's name is never empty here,
    /// so no error comes back.
    pub fn authenticate(&self, password: &Secret, pam_accepted: bool) -> (outcome: Result<bool, String>)
        ensures
            outcome == Ok::<bool, String>(secret_text(*password).len() > 0 && pam_accepted),
    {
        let username = current_username();
        authentication_outcome(username.as_str(), password, pam_accepted)
    }

    /// Get the current username (for display purposes); it is never empty.
    pub fn get_username(&self) -> (name: String)
        ensures
            name@.len() > 0,
    {
        current_username()
    }

    /// Get the service name
    pub fn service_name(&self) -> (name: &str)
        ensures
            name@ == self.spec_service(),
    {
        self.service_name.as_str()
    }
}

/// `users::get_current_username`: the name of the effective user, looked up
/// in the user database, with any bytes that are not UTF-8 replaced. What it
/// returns depends on the system, so nothing is stated of it.
#[verifier::external_body]
fn current_login_name() -> (name: Option<String>) {
    match users::get_current_username() {
        Some(n) => Some(n.to_string_lossy().into_owned()),
        None => None,
    }
}

/// The answer to a prompt for hidden input, and the password left for
/// later prompts: the password is given once and then no more.
pub open spec fn hidden_answer(held: Option<Seq<char>>) -> (Option<Seq<char>>, Option<Seq<char>>) {
    (held, None)
}

/// The answers that a PAM conversation gives: the password to the first
/// prompt for hidden input, nothing to any other prompt.
pub struct PamConversation {
    password: Option<Secret>,
}

impl PamConversation {
    /// The password the conversation still holds.
    pub closed spec fn spec_password(&self) -> Option<Seq<char>> {
        match self.password {
            Some(p) => Some(secret_text(p)),
            None => None,
        }
    }

    /// A conversation that holds `password`.
    pub fn new(password: Secret) -> (c: Self)
        ensures
            c.spec_password() == Some(secret_text(password)),
    {
        PamConversation { password: Some(password) }
    }

    /// A prompt whose answer is not echoed: the password, if it is still held.
    pub fn prompt_echo_off(&mut self) -> (answer: Option<Secret>)
        ensures
            (match answer {
                Some(p) => Some(secret_text(p)),
                None => None,
            }) == hidden_answer(old(self).spec_password()).0,
            final(self).spec_password() == hidden_answer(old(self).spec_password()).1,
    {
        self.password.take()
    }

    /// A prompt whose answer would be echoed: never answered.
    pub fn prompt_echo_on(&self) -> (answer: Option<Secret>)
        ensures
            answer is None,
    {
        None
    }

    /// A yes-or-no prompt: always answered no.
    pub fn radio_prompt(&self) -> (yes: bool)
        ensures
            !yes,
    {
        false
    }
}

/// A conversation answers at most one prompt for hidden input with the
/// password: after the first, it holds nothing.
pub proof fn lemma_password_given_once(held: Option<Seq<char>>)
    ensures
        hidden_answer(hidden_answer(held).1).0 is None,
        hidden_answer(hidden_answer(held).1).1 is None,
{
}

/// What a PAM authentication needs: the service, the user and the
/// conversation that answers with the password.
pub struct PamRequest {
    pub service: String,
    pub user: String,
    pub conversation: PamConversation,
}

/// The PAM authentication of `password` against `service` for the user
/// named `user`; none when no user name was found.
pub fn pam_request_for(service: &str, user: Option<String>, password: Secret) -> (request: Option<PamRequest>)
    ensures
        match user {
            None => request is None,
            Some(u) => request matches Some(r) && r.service@ == service@ && r.user == u
                && r.conversation.spec_password() == Some(secret_text(password)),
        },
{
    match user {
        Some(u) => Some(
            PamRequest {
                service: service.to_string(),
                user: u,
                conversation: PamConversation::new(password),
            },
        ),
        None => None,
    }
}

/// Prepare a PAM authentication of `password` against `service` for the
/// current user; none when the user's name cannot be found, in which case
/// the authentication fails.
pub fn pam_request(service: &str, password: Secret) -> (request: Option<PamRequest>)
    ensures
        request matches Some(r) ==> r.service@ == service@ && r.conversation.spec_password()
            == Some(secret_text(password)),
{
    pam_request_for(service, current_login_name(), password)
}

} // verus!
