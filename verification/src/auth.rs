use vstd::prelude::*;

verus! {

/// Where the interactive login stands.  `NeedCredential` is the entry state
/// when no credential was supplied out-of-band; `ListenerActive` while the
/// local callback listener waits for the browser's redirect; `TokenReceived`
/// and `TimedOut` are terminal.
#[derive(Debug, Clone, PartialEq, Eq)]
pub enum AuthState {
    NeedCredential,
    ListenerActive,
    TokenReceived { token: String },
    TimedOut,
}

/// What the surrounding command reports to the coordinator: the callback
/// listener came up, a token arrived on the channel, or the wait for the
/// browser round-trip ran out.
#[derive(Debug, Clone, PartialEq, Eq)]
pub enum AuthEvent {
    ListenerStarted,
    TokenArrived { token: String },
    WaitTimedOut,
}

/// What the surrounding command must do next: open the login page in a
/// browser (printing the URL when that fails is not an error), tear the
/// callback listener down, or nothing.
#[derive(Debug, Clone, PartialEq, Eq)]
pub enum AuthAction {
    OpenBrowser { url: String },
    CancelListener,
    Ignore,
}

/// The login page for `base`, carrying the redirect target that sends the
/// browser back to the local callback listener.
pub open spec fn spec_login_url(base: Seq<char>) -> Seq<char> {
    base + "/api/auth?redirect_uri="@ + base + "/auth/cli%3Fhost="@ + base
}

/// The state after `e` fires in `s`: the listener's start activates it, the
/// first token or a timeout ends the wait, and the terminal states absorb
/// every further event.
pub open spec fn auth_next(s: AuthState, e: AuthEvent) -> AuthState {
    match (s, e) {
        (AuthState::NeedCredential, AuthEvent::ListenerStarted) => AuthState::ListenerActive,
        (AuthState::ListenerActive, AuthEvent::TokenArrived { token }) => AuthState::TokenReceived {
            token,
        },
        (AuthState::ListenerActive, AuthEvent::WaitTimedOut) => AuthState::TimedOut,
        (other, _) => other,
    }
}

/// The transitions on which the coordinator opens the browser.
pub open spec fn auth_opens_browser(s: AuthState, e: AuthEvent) -> bool {
    s is NeedCredential && e is ListenerStarted
}

/// The transitions on which the coordinator tears the listener down: leaving
/// `ListenerActive`, with a token or by timeout.
pub open spec fn auth_cancels_listener(s: AuthState, e: AuthEvent) -> bool {
    s is ListenerActive && (e is TokenArrived || e is WaitTimedOut)
}

/// Builds the browser URL for the hosted login page of the server at
/// `api_url`.
pub fn login_url(api_url: &str) -> (r: String)
    ensures
        r@ == spec_login_url(api_url@),
{
    let mut s = api_url.to_owned();
    s.append("/api/auth?redirect_uri=");
    s.append(api_url);
    s.append("/auth/cli%3Fhost=");
    s.append(api_url);
    s
}

/// The coordinator's entry point: a credential supplied out-of-band skips the
/// whole listener hand-off.
pub fn init_auth(supplied: Option<String>) -> (r: AuthState)
    ensures
        match supplied {
            Some(token) => r == (AuthState::TokenReceived { token }),
            None => r == AuthState::NeedCredential,
        },
{
    match supplied {
        Some(token) => AuthState::TokenReceived { token },
        None => AuthState::NeedCredential,
    }
}

/// One step of the login coordinator: the next state is `auth_next`, and the
/// returned action tells the caller to open the browser on `api_url`'s login
/// page, to cancel the listener, or to do nothing.
pub fn step(s: AuthState, e: AuthEvent, api_url: &str) -> (r: (AuthState, AuthAction))
    ensures
        r.0 == auth_next(s, e),
        r.1 matches AuthAction::OpenBrowser { url } ==> auth_opens_browser(s, e) && url@
            == spec_login_url(api_url@),
        r.1 is CancelListener <==> auth_cancels_listener(s, e),
        r.1 is Ignore <==> !auth_opens_browser(s, e) && !auth_cancels_listener(s, e),
{
    match (s, e) {
        (AuthState::NeedCredential, AuthEvent::ListenerStarted) => (
            AuthState::ListenerActive,
            AuthAction::OpenBrowser { url: login_url(api_url) },
        ),
        (AuthState::ListenerActive, AuthEvent::TokenArrived { token }) => (
            AuthState::TokenReceived { token },
            AuthAction::CancelListener,
        ),
        (AuthState::ListenerActive, AuthEvent::WaitTimedOut) => (
            AuthState::TimedOut,
            AuthAction::CancelListener,
        ),
        (other, _) => (other, AuthAction::Ignore),
    }
}

/// Law: the first token tears the listener down and keeps it down.  The
/// transition that receives a token cancels the listener, and no later event
/// moves a terminal state anywhere, in particular never back to
/// `ListenerActive` — so once the token has arrived, nothing listens on the
/// local port again.
pub proof fn lemma_token_closes_listener(token: String, e: AuthEvent)
    ensures
        auth_next(AuthState::ListenerActive, AuthEvent::TokenArrived { token }) == (
        AuthState::TokenReceived { token }),
        auth_cancels_listener(AuthState::ListenerActive, AuthEvent::TokenArrived { token }),
        auth_next(AuthState::TokenReceived { token }, e) == (AuthState::TokenReceived { token }),
        auth_next(AuthState::TimedOut, e) == AuthState::TimedOut,
{
}

/// The starting cursor for the interactive organization choice: the position
/// of the organization the current profile already uses, or the first entry
/// when it is not among the options.
pub fn default_org_cursor(orgs: &Vec<u128>, current: u128) -> (r: usize)
    ensures
        (exists|i: int| 0 <= i < orgs@.len() && orgs@[i] == current) ==> {
            &&& r < orgs@.len()
            &&& orgs@[r as int] == current
            &&& forall|j: int| 0 <= j < r ==> orgs@[j] != current
        },
        !(exists|i: int| 0 <= i < orgs@.len() && orgs@[i] == current) ==> r == 0,
    {
    let n = orgs.len();
    let mut i: usize = 0;
    while i < n
        invariant
            i <= n,
            n == orgs@.len(),
            forall|j: int| 0 <= j < i ==> orgs@[j] != current,
        decreases n - i,
    {
        if orgs[i] == current {
            return i;
        }
        i += 1;
    }
    0
}

} // verus!
