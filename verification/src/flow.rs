//! The authorization flow as a state machine.
//!
//! The flow goes from idle over the browser's consent and the redirect to
//! the token exchange, and ends authenticated or failed. Each step takes
//! what happened outside and says what to do next; opening the browser,
//! listening and sending are left to the caller.

use crate::authorize::authorization_url;
use crate::client::{requested_scopes, ApiRequest, SpotifyClient};
use crate::oauth::{
    authorization_code, callback_port, callback_port_of, handle_redirect, success_page,
    success_response, target_parameter, AuthError, CALLBACK_TIMEOUT_SECONDS,
};
use crate::text::join;
use crate::token::TokenResponse;
use vstd::prelude::*;

verus! {

/// Where the flow stands.
#[derive(Debug)]
pub enum AuthState {
    /// Nothing is under way.
    Idle,
    /// The browser is being opened for the user's consent.
    AwaitingBrowserConsent,
    /// The listener waits for the redirect.
    AwaitingRedirect,
    /// The code is being exchanged for a token.
    ExchangingCode,
    /// The client holds an access token.
    Authenticated,
    /// The flow failed, for this reason.
    Failed(AuthError),
}

/// What happened outside.
#[derive(Debug)]
pub enum AuthEvent {
    /// The user asked to log in; the text is the caller's state for the
    /// authorization URL.
    LoginRequested(String),
    /// The browser was opened.
    BrowserOpened,
    /// The browser could not be opened; the text says why.
    BrowserFailed(String),
    /// The listener read this request.
    RedirectReceived(String),
    /// The listener could not be set up; the text says why.
    ListenerFailed(String),
    /// The listener's bound passed without a request.
    TimedOut,
    /// The token endpoint granted this token.
    TokenGranted(TokenResponse),
    /// The token endpoint's answer was no token; status and body are as
    /// received.
    TokenRejected(u16, String),
    /// The user gave the login up.
    Cancelled,
    /// The flow is to start over.
    Reset,
}

/// What to do next.
#[derive(Debug)]
pub enum AuthAction {
    /// Nothing.
    Nothing,
    /// Tell the user that the login cannot begin, for this reason.
    Refuse(AuthError),
    /// Open the browser at this URL.
    OpenBrowser(String),
    /// Listen on this port of the local host for one request, for at most
    /// this many seconds.
    Listen(u16, u64),
    /// Write this reply to the browser and send this request to the token
    /// endpoint.
    Exchange(String, ApiRequest),
}

/// The authorization flow of one client.
pub struct AuthFlow {
    client: SpotifyClient,
    state: AuthState,
}

impl AuthFlow {
    /// The client.
    pub closed spec fn client(&self) -> SpotifyClient {
        self.client
    }

    /// Where the flow stands.
    pub closed spec fn state(&self) -> AuthState {
        self.state
    }

    /// An authenticated flow holds an access token.
    pub open spec fn wf(&self) -> bool {
        self.state() is Authenticated ==> self.client().token() is Some
    }

    /// The credentials are there: neither client identifier nor client
    /// secret is empty.
    pub open spec fn configured(&self) -> bool {
        self.client().client_id().len() > 0 && self.client().client_secret().len() > 0
    }

    /// The credentials and the redirect URI are those of `other`.
    pub open spec fn same_application(&self, other: &AuthFlow) -> bool {
        &&& self.client().client_id() == other.client().client_id()
        &&& self.client().client_secret() == other.client().client_secret()
        &&& self.client().redirect_uri() == other.client().redirect_uri()
    }

    /// The flow of `client`, idle. A token that the client holds is
    /// forgotten: the flow begins logged out.
    pub fn new(client: SpotifyClient) -> (flow: AuthFlow)
        ensures
            flow.wf(),
            flow.state() is Idle,
            flow.client().token() is None,
            flow.client().client_id() == client.client_id(),
            flow.client().client_secret() == client.client_secret(),
            flow.client().redirect_uri() == client.redirect_uri(),
    {
        let mut client = client;
        client.clear_token();
        AuthFlow { client, state: AuthState::Idle }
    }

    /// The client, to state requests with.
    pub fn client_ref(&self) -> (client: &SpotifyClient)
        ensures
            *client == self.client(),
    {
        &self.client
    }

    /// Where the flow stands.
    pub fn state_ref(&self) -> (state: &AuthState)
        ensures
            *state == self.state(),
    {
        &self.state
    }

    /// Ends the flow and gives its client, with the token that it holds.
    pub fn into_client(self) -> (client: SpotifyClient)
        ensures
            client == self.client(),
    {
        self.client
    }

    /// Whether the flow has ended: it is authenticated or has failed.
    pub fn is_terminal(&self) -> (b: bool)
        ensures
            b == (self.state() is Authenticated || self.state() is Failed),
    {
        match &self.state {
            AuthState::Authenticated => true,
            AuthState::Failed(_) => true,
            _ => false,
        }
    }

    /// Takes one event and says what to do next.
    ///
    /// - Idle, login requested: without credentials the flow stays idle and
    ///   the login is refused for want of configuration; with them the
    ///   browser is to be opened at the authorization URL.
    /// - Awaiting the browser: once it is open, the listener is to wait on
    ///   the port of the redirect URI; if it could not be opened, the flow
    ///   has failed.
    /// - Awaiting the redirect: a request with a code leads to the
    ///   exchange; one without has failed the flow, as have a listener that
    ///   could not be set up and the timeout.
    /// - Exchanging the code: a token authenticates the client; a rejection
    ///   has failed the flow.
    /// - While the flow is under way, giving it up has failed it.
    /// - A reset returns to idle and forgets the token.
    /// - Every other event changes nothing.
    pub fn handle(&mut self, event: AuthEvent) -> (action: AuthAction)
        requires
            old(self).wf(),
        ensures
            final(self).wf(),
            final(self).same_application(old(self)),
            old(self).state() is Idle && event is LoginRequested && !old(self).configured() ==> {
                &&& final(self).state() is Idle
                &&& action is Refuse
                &&& action->Refuse_0 is Configuration
                &&& final(self).client().token() == old(self).client().token()
            },
            old(self).state() is Idle && event is LoginRequested && old(self).configured() ==> {
                &&& final(self).state() is AwaitingBrowserConsent
                &&& action is OpenBrowser
                &&& action->OpenBrowser_0@ == authorization_url(
                    old(self).client().client_id(),
                    old(self).client().redirect_uri(),
                    join(requested_scopes(), ' '),
                    event->LoginRequested_0@,
                )
            },
            old(self).state() is AwaitingBrowserConsent && event is BrowserOpened ==> {
                &&& final(self).state() is AwaitingRedirect
                &&& action is Listen
                &&& action->Listen_0 == callback_port_of(old(self).client().redirect_uri())
                &&& action->Listen_1 == CALLBACK_TIMEOUT_SECONDS
            },
            old(self).state() is AwaitingBrowserConsent && event is BrowserFailed ==> {
                &&& final(self).state() is Failed
                &&& final(self).state()->Failed_0 is BrowserLaunch
                &&& final(self).state()->Failed_0->BrowserLaunch_0@ == event->BrowserFailed_0@
                &&& action is Nothing
            },
            old(self).state() is AwaitingRedirect && event is ListenerFailed ==> {
                &&& final(self).state() is Failed
                &&& final(self).state()->Failed_0 is Listener
                &&& final(self).state()->Failed_0->Listener_0@ == event->ListenerFailed_0@
                &&& action is Nothing
            },
            old(self).state() is AwaitingRedirect && event is TimedOut ==> {
                &&& final(self).state() is Failed
                &&& final(self).state()->Failed_0 is Timeout
                &&& action is Nothing
            },
            old(self).state() is AwaitingRedirect && event is RedirectReceived ==> {
                let request = event->RedirectReceived_0@;
                match authorization_code(request) {
                    Some(code) => {
                        ||| {
                            &&& final(self).state() is ExchangingCode
                            &&& action is Exchange
                            &&& action->Exchange_0@ == success_page()
                            &&& old(self).client().exchange_code_spec(code, action->Exchange_1)
                        }
                        ||| {
                            &&& final(self).state() is Failed
                            &&& final(self).state()->Failed_0 is Configuration
                            &&& action is Nothing
                            &&& !old(self).client().can_encode_credentials()
                        }
                    },
                    None => {
                        &&& final(self).state() is Failed
                        &&& action is Nothing
                        &&& match target_parameter(request, "error"@) {
                            Some(reason) => final(self).state()->Failed_0 is AuthorizationDenied
                                && final(self).state()->Failed_0->AuthorizationDenied_0@ == reason,
                            None => final(self).state()->Failed_0 is RedirectParse,
                        }
                    },
                }
            },
            old(self).state() is ExchangingCode && event is TokenGranted ==> {
                &&& final(self).state() is Authenticated
                &&& final(self).client().token() == Some(event->TokenGranted_0.access_token@)
                &&& action is Nothing
            },
            old(self).state() is ExchangingCode && event is TokenRejected ==> {
                &&& final(self).state() is Failed
                &&& final(self).state()->Failed_0 is TokenExchange
                &&& final(self).state()->Failed_0->TokenExchange_status == event->TokenRejected_0
                &&& final(self).state()->Failed_0->TokenExchange_body@ == event->TokenRejected_1@
                &&& action is Nothing
            },
            under_way(old(self).state()) && event is Cancelled ==> {
                &&& final(self).state() is Failed
                &&& final(self).state()->Failed_0 is Cancelled
                &&& action is Nothing
            },
            event is Reset ==> {
                &&& final(self).state() is Idle
                &&& final(self).client().token() is None
                &&& action is Nothing
            },
            !(event is Reset || (old(self).state() is ExchangingCode && event is TokenGranted))
                ==> final(self).client().token() == old(self).client().token(),
            !expected(old(self).state(), event) ==> {
                &&& final(self).state() == old(self).state()
                &&& final(self).client().token() == old(self).client().token()
                &&& action is Nothing
            },
    {
        if let AuthEvent::Reset = event {
            self.client.clear_token();
            self.state = AuthState::Idle;
            return AuthAction::Nothing;
        }
        match (&self.state, event) {
            (AuthState::Idle, AuthEvent::LoginRequested(state)) => {
                if !self.client.has_credentials() {
                    return AuthAction::Refuse(AuthError::Configuration);
                }
                let url = self.client.get_auth_url(state.as_str());
                self.state = AuthState::AwaitingBrowserConsent;
                AuthAction::OpenBrowser(url)
            },
            (AuthState::AwaitingBrowserConsent, AuthEvent::BrowserOpened) => {
                let port = callback_port(self.client.redirect_uri_str());
                self.state = AuthState::AwaitingRedirect;
                AuthAction::Listen(port, CALLBACK_TIMEOUT_SECONDS)
            },
            (AuthState::AwaitingBrowserConsent, AuthEvent::BrowserFailed(reason)) => {
                self.state = AuthState::Failed(AuthError::BrowserLaunch(reason));
                AuthAction::Nothing
            },
            (AuthState::AwaitingRedirect, AuthEvent::ListenerFailed(reason)) => {
                self.state = AuthState::Failed(AuthError::Listener(reason));
                AuthAction::Nothing
            },
            (AuthState::AwaitingRedirect, AuthEvent::TimedOut) => {
                self.state = AuthState::Failed(AuthError::Timeout);
                AuthAction::Nothing
            },
            (AuthState::AwaitingRedirect, AuthEvent::RedirectReceived(request)) => {
                match handle_redirect(request.as_str()) {
                    Ok(code) => match self.client.exchange_code(code.as_str()) {
                        Ok(exchange) => {
                            self.state = AuthState::ExchangingCode;
                            AuthAction::Exchange(success_response(), exchange)
                        },
                        Err(_) => {
                            self.state = AuthState::Failed(AuthError::Configuration);
                            AuthAction::Nothing
                        },
                    },
                    Err(error) => {
                        self.state = AuthState::Failed(error);
                        AuthAction::Nothing
                    },
                }
            },
            (AuthState::ExchangingCode, AuthEvent::TokenGranted(token)) => {
                self.client.set_token(token.access_token);
                self.state = AuthState::Authenticated;
                AuthAction::Nothing
            },
            (AuthState::ExchangingCode, AuthEvent::TokenRejected(status, body)) => {
                self.state = AuthState::Failed(AuthError::TokenExchange { status, body });
                AuthAction::Nothing
            },
            (AuthState::AwaitingBrowserConsent, AuthEvent::Cancelled) => {
                self.state = AuthState::Failed(AuthError::Cancelled);
                AuthAction::Nothing
            },
            (AuthState::AwaitingRedirect, AuthEvent::Cancelled) => {
                self.state = AuthState::Failed(AuthError::Cancelled);
                AuthAction::Nothing
            },
            (AuthState::ExchangingCode, AuthEvent::Cancelled) => {
                self.state = AuthState::Failed(AuthError::Cancelled);
                AuthAction::Nothing
            },
            _ => AuthAction::Nothing,
        }
    }
}

/// The flow is under way: it has begun and has not ended.
pub open spec fn under_way(state: AuthState) -> bool {
    state is AwaitingBrowserConsent || state is AwaitingRedirect || state is ExchangingCode
}

/// The event is one that the state waits for, or a reset.
pub open spec fn expected(state: AuthState, event: AuthEvent) -> bool {
    ||| event is Reset
    ||| under_way(state) && event is Cancelled
    ||| state is Idle && event is LoginRequested
    ||| state is AwaitingBrowserConsent && (event is BrowserOpened || event is BrowserFailed)
    ||| state is AwaitingRedirect && (event is RedirectReceived || event is ListenerFailed
        || event is TimedOut)
    ||| state is ExchangingCode && (event is TokenGranted || event is TokenRejected)
}

} // verus!
