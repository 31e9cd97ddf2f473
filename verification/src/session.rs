//! The per-connection session handler of the line transport, as a state
//! machine: `Negotiating -> Active -> Closing -> Closed`. The handler owns no
//! shared state; each observed event maps to at most one intent for the
//! router. The surrounding task performs the reads and hands every event in.
//!
//! Disconnect policy: the line protocol has no explicit leave command, so the
//! end of the inbound stream is treated as an implicit disconnect and submits
//! a `Disconnect` intent. A global shutdown, by contrast, submits nothing:
//! the registry entry must survive until the router sends its final shutdown
//! notice to every still-registered mailbox.

use vstd::prelude::*;
use crate::identity::clone_identity;
use crate::identity::Identity;
use crate::identity::IdentityV;
use crate::line_proto::intent_for_line;
use crate::line_proto::line_intent_spec;
use crate::router::Intent;
use crate::router::IntentV;

verus! {

/// Where a session stands.
#[derive(PartialEq, Eq, Structural, Clone, Copy, Debug)]
pub enum SessionState {
    /// Waiting for the one line that names the identity.
    Negotiating,
    /// Registered; inbound lines are parsed as addressed commands.
    Active,
    /// No longer reading; the connection is being torn down.
    Closing,
    /// Torn down.
    Closed,
}

/// What a session observes: an inbound line, the end of its stream, or the
/// global shutdown signal.
pub enum SessionEvent {
    Line(Vec<u8>),
    Eof,
    Shutdown,
}

/// The mathematical value of a [`SessionEvent`].
pub enum SessionEventV {
    Line(Seq<u8>),
    Eof,
    Shutdown,
}

impl View for SessionEvent {
    type V = SessionEventV;

    open spec fn view(&self) -> SessionEventV {
        match self {
            SessionEvent::Line(l) => SessionEventV::Line(l@),
            SessionEvent::Eof => SessionEventV::Eof,
            SessionEvent::Shutdown => SessionEventV::Shutdown,
        }
    }
}

/// One line-transport session.
pub struct Session {
    /// Where the session stands.
    pub state: SessionState,
    /// The identity obtained at negotiation; fixed for the session's life.
    pub identity: Option<Identity>,
}

impl Session {
    /// Before negotiation there is no identity; an active session has one.
    pub open spec fn wf(&self) -> bool {
        &&& (self.state is Negotiating ==> self.identity is None)
        &&& (self.state is Active ==> self.identity is Some)
    }

    /// The identity's value, once negotiated.
    pub open spec fn identity_view(&self) -> IdentityV
        recommends
            self.identity is Some,
    {
        self.identity->0@
    }

    /// A fresh session on an accepted connection, before any exchange.
    pub fn new() -> (s: Session)
        ensures
            s.wf(),
            s.state == SessionState::Negotiating,
            s.identity is None,
    {
        Session { state: SessionState::Negotiating, identity: None }
    }

    /// Observe one event and return the intent it submits, if any.
    ///
    /// - Negotiating: the first line names the identity and registers it; a
    ///   peer that disconnects first never reaches `Active` and registers
    ///   nothing; a shutdown ends the session likewise.
    /// - Active: a line submits what it parses to (a colon-less line submits
    ///   nothing); end of stream submits the implicit disconnect; shutdown
    ///   stops reading but leaves the registry entry for the final notice.
    /// - Closing and Closed: nothing more is read or submitted.
    pub fn on_event(&mut self, ev: SessionEvent) -> (intent: Option<Intent>)
        requires
            old(self).wf(),
        ensures
            final(self).wf(),
            match (old(self).state, ev@) {
                (SessionState::Negotiating, SessionEventV::Line(name)) => {
                    &&& final(self).state == SessionState::Active
                    &&& final(self).identity matches Some(id) && id@ == IdentityV::Name(name)
                    &&& intent matches Some(i) && i@ == (IntentV::NewClient {
                        identity: IdentityV::Name(name),
                    })
                },
                (SessionState::Negotiating, _) => {
                    &&& final(self).state == SessionState::Closed
                    &&& intent is None
                },
                (SessionState::Active, SessionEventV::Line(l)) => {
                    &&& final(self).state == SessionState::Active
                    &&& final(self).identity == old(self).identity
                    &&& match intent {
                        None => line_intent_spec(old(self).identity_view(), l) is None,
                        Some(i) => line_intent_spec(old(self).identity_view(), l) == Some(i@),
                    }
                },
                (SessionState::Active, SessionEventV::Eof) => {
                    &&& final(self).state == SessionState::Closing
                    &&& intent matches Some(i) && i@ == (IntentV::Disconnect {
                        identity: old(self).identity_view(),
                    })
                },
                (SessionState::Active, SessionEventV::Shutdown) => {
                    &&& final(self).state == SessionState::Closing
                    &&& intent is None
                },
                _ => {
                    &&& final(self).state == SessionState::Closed
                    &&& intent is None
                },
            },
    {
        match self.state {
            SessionState::Negotiating => match ev {
                SessionEvent::Line(name) => {
                    let id = Identity::Name(name);
                    self.identity = Some(clone_identity(&id));
                    self.state = SessionState::Active;
                    Some(Intent::NewClient { identity: id })
                },
                _ => {
                    self.state = SessionState::Closed;
                    None
                },
            },
            SessionState::Active => match ev {
                SessionEvent::Line(l) => {
                    let me = match &self.identity {
                        Some(id) => id,
                        None => {
                            proof {
                                assert(false);
                            }
                            return None;
                        },
                    };
                    intent_for_line(me, &l)
                },
                SessionEvent::Eof => {
                    self.state = SessionState::Closing;
                    let me = match &self.identity {
                        Some(id) => clone_identity(id),
                        None => {
                            proof {
                                assert(false);
                            }
                            return None;
                        },
                    };
                    Some(Intent::Disconnect { identity: me })
                },
                SessionEvent::Shutdown => {
                    self.state = SessionState::Closing;
                    None
                },
            },
            SessionState::Closing => {
                self.state = SessionState::Closed;
                None
            },
            SessionState::Closed => None,
        }
    }
}

} // verus!
