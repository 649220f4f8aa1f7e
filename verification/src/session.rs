//! The session handler: one connection walks a fixed handshake,
//! command and acknowledgment sequence and is then closed. All
//! terminal paths lead to `Closed`; there is no retry and no loop
//! back, and a session accepts at most one command.
use vstd::prelude::*;

use crate::codec::{decode, decode_spec, encode, encoded_line};
use crate::dispatch::{dispatch, known_command, Dispatch};
use crate::nonce::gen_nonce;
use crate::payload::{lookup, Payload};
use crate::text::is_alphanumeric_char;

verus! {

/// Where a session stands.
#[derive(Clone, Copy, Debug, PartialEq, Eq, Structural)]
pub enum SessionState {
    /// The connection was accepted; nothing was sent yet.
    Connected,
    /// The hello envelope was handed out for sending.
    HelloSent,
    /// The hello write succeeded; exactly one command line is awaited.
    AwaitingCommand,
    /// A command decoded and dispatched; the acknowledgment is owed.
    Verified,
    /// The connection is done; nothing is sent or accepted any more.
    Closed,
}

/// The hello payload: protocol version and api name.
pub open spec fn hello_entries() -> Seq<(Seq<char>, Seq<char>)> {
    seq![("version"@, "1"@), ("api"@, "opener"@)]
}

/// The acknowledgment payload.
pub open spec fn status_entries() -> Seq<(Seq<char>, Seq<char>)> {
    seq![("status"@, "ok"@)]
}

/// How far a session still has to go: every transition a method makes
/// moves down this order, so no session ever returns to an earlier
/// state and every session reaches `Closed` after finitely many events.
pub open spec fn rank(s: SessionState) -> nat {
    match s {
        SessionState::Connected => 4,
        SessionState::HelloSent => 3,
        SessionState::AwaitingCommand => 2,
        SessionState::Verified => 1,
        SessionState::Closed => 0,
    }
}

/// What the session asks its caller to do with a received line.
#[derive(Clone, Copy, Debug, PartialEq, Eq, Structural)]
pub enum LineOutcome {
    /// The command decoded under this session's key and nonce and is
    /// known: drive the actuator once, then ask for the acknowledgment.
    Activate,
    /// The line failed to decode, or named an unknown command: close
    /// the connection without sending anything.
    CloseSilently,
    /// The session was not awaiting a command: no action, no response.
    Ignore,
}

/// Whether a received line carries a known command for the session
/// with this key and nonce: it decodes and its `cmd` entry is in the
/// known set.
pub open spec fn line_accepted(line: Seq<char>, key: Seq<char>, nonce: Seq<char>) -> bool {
    match decode_spec(line, key, nonce) {
        Ok(es) => match lookup(es, "cmd"@) {
            Some(c) => known_command(c),
            None => false,
        },
        Err(_) => false,
    }
}

/// One thing that happens to a session.
pub enum SessionEvent {
    /// The connection was taken up: send the hello.
    Start,
    /// The hello write succeeded.
    HelloWritten,
    /// One line arrived from the client.
    Line(Seq<char>),
    /// The acknowledgment was taken for sending.
    AckTaken,
    /// A read or write failed or timed out.
    IoFailure,
}

/// Where one event takes a session: the abstract step every session
/// method is proved to follow.
pub open spec fn step_state(
    st: SessionState,
    key: Seq<char>,
    nonce: Seq<char>,
    ev: SessionEvent,
) -> SessionState {
    match ev {
        SessionEvent::Start => if st == SessionState::Connected {
            SessionState::HelloSent
        } else {
            st
        },
        SessionEvent::HelloWritten => if st == SessionState::HelloSent {
            SessionState::AwaitingCommand
        } else {
            st
        },
        SessionEvent::Line(line) => if st == SessionState::AwaitingCommand {
            if line_accepted(line, key, nonce) {
                SessionState::Verified
            } else {
                SessionState::Closed
            }
        } else {
            st
        },
        SessionEvent::AckTaken => if st == SessionState::Verified {
            SessionState::Closed
        } else {
            st
        },
        SessionEvent::IoFailure => SessionState::Closed,
    }
}

/// Whether one event makes the session ask for an actuator activation.
pub open spec fn step_activates(
    st: SessionState,
    key: Seq<char>,
    nonce: Seq<char>,
    ev: SessionEvent,
) -> bool {
    match ev {
        SessionEvent::Line(line) => st == SessionState::AwaitingCommand && line_accepted(
            line,
            key,
            nonce,
        ),
        _ => false,
    }
}

/// Where a whole run of events takes a session.
pub open spec fn run(
    st: SessionState,
    key: Seq<char>,
    nonce: Seq<char>,
    evs: Seq<SessionEvent>,
) -> SessionState
    decreases evs.len(),
{
    if evs.len() == 0 {
        st
    } else {
        run(step_state(st, key, nonce, evs[0]), key, nonce, evs.drop_first())
    }
}

/// How many actuator activations a run of events asks for.
pub open spec fn activations_in(
    st: SessionState,
    key: Seq<char>,
    nonce: Seq<char>,
    evs: Seq<SessionEvent>,
) -> nat
    decreases evs.len(),
{
    if evs.len() == 0 {
        0
    } else {
        (if step_activates(st, key, nonce, evs[0]) {
            1nat
        } else {
            0nat
        }) + activations_in(step_state(st, key, nonce, evs[0]), key, nonce, evs.drop_first())
    }
}

/// No event raises a session's rank: a session never returns to an
/// earlier state.
pub proof fn lemma_step_rank_monotone(
    st: SessionState,
    key: Seq<char>,
    nonce: Seq<char>,
    ev: SessionEvent,
)
    ensures
        rank(step_state(st, key, nonce, ev)) <= rank(st),
{
}

/// Past the command step nothing activates the actuator again: a
/// session in `Verified` or `Closed` asks for no activation, whatever
/// else happens to it.
pub proof fn lemma_no_activation_past_verified(
    st: SessionState,
    key: Seq<char>,
    nonce: Seq<char>,
    evs: Seq<SessionEvent>,
)
    requires
        rank(st) <= 1,
    ensures
        activations_in(st, key, nonce, evs) == 0,
    decreases evs.len(),
{
    if evs.len() > 0 {
        lemma_step_rank_monotone(st, key, nonce, evs[0]);
        lemma_no_activation_past_verified(
            step_state(st, key, nonce, evs[0]),
            key,
            nonce,
            evs.drop_first(),
        );
    }
}

/// A session activates the actuator at most once, whatever events it
/// sees in whatever order: the one activating step leads to `Verified`,
/// and from there no step activates again.
pub proof fn lemma_at_most_one_activation(
    st: SessionState,
    key: Seq<char>,
    nonce: Seq<char>,
    evs: Seq<SessionEvent>,
)
    ensures
        activations_in(st, key, nonce, evs) <= 1,
    decreases evs.len(),
{
    if evs.len() > 0 {
        if step_activates(st, key, nonce, evs[0]) {
            assert(step_state(st, key, nonce, evs[0]) == SessionState::Verified);
            lemma_no_activation_past_verified(
                SessionState::Verified,
                key,
                nonce,
                evs.drop_first(),
            );
        } else {
            lemma_at_most_one_activation(step_state(st, key, nonce, evs[0]), key, nonce, evs.drop_first());
        }
    }
}

/// A closed session stays closed: no later event reopens it or makes
/// it answer.
pub proof fn lemma_closed_is_absorbing(key: Seq<char>, nonce: Seq<char>, evs: Seq<SessionEvent>)
    ensures
        run(SessionState::Closed, key, nonce, evs) == SessionState::Closed,
    decreases evs.len(),
{
    if evs.len() > 0 {
        lemma_closed_is_absorbing(key, nonce, evs.drop_first());
    }
}

/// One full command cycle: the hello goes out, the one accepted command
/// line activates the actuator exactly once, the acknowledgment is
/// taken, and the session ends closed. A second command afterwards
/// activates nothing and the session stays closed.
pub proof fn lemma_one_shot_cycle(
    key: Seq<char>,
    nonce: Seq<char>,
    line: Seq<char>,
    later: Seq<SessionEvent>,
)
    requires
        line_accepted(line, key, nonce),
    ensures
        ({
            let cycle = seq![
                SessionEvent::Start,
                SessionEvent::HelloWritten,
                SessionEvent::Line(line),
                SessionEvent::AckTaken,
            ];
            &&& activations_in(SessionState::Connected, key, nonce, cycle) == 1
            &&& run(SessionState::Connected, key, nonce, cycle) == SessionState::Closed
            &&& run(SessionState::Connected, key, nonce, cycle + later) == SessionState::Closed
            &&& activations_in(SessionState::Connected, key, nonce, cycle + later) == 1
        }),
{
    let cycle = seq![
        SessionEvent::Start,
        SessionEvent::HelloWritten,
        SessionEvent::Line(line),
        SessionEvent::AckTaken,
    ];
    let whole = cycle + later;
    reveal_with_fuel(run, 5);
    reveal_with_fuel(activations_in, 5);
    assert(cycle.drop_first() =~= seq![
        SessionEvent::HelloWritten,
        SessionEvent::Line(line),
        SessionEvent::AckTaken,
    ]);
    assert(cycle.drop_first().drop_first() =~= seq![
        SessionEvent::Line(line),
        SessionEvent::AckTaken,
    ]);
    assert(cycle.drop_first().drop_first().drop_first() =~= seq![SessionEvent::AckTaken]);
    assert(cycle.drop_first().drop_first().drop_first().drop_first() =~= Seq::<
        SessionEvent,
    >::empty());
    assert(activations_in(SessionState::Connected, key, nonce, cycle) == 1);
    assert(run(SessionState::Connected, key, nonce, cycle) == SessionState::Closed);
    assert(whole.drop_first() =~= cycle.drop_first() + later);
    assert(whole.drop_first().drop_first() =~= cycle.drop_first().drop_first() + later);
    assert(whole.drop_first().drop_first().drop_first() =~= cycle.drop_first().drop_first().drop_first() + later);
    assert(whole.drop_first().drop_first().drop_first().drop_first() =~= later);
    lemma_closed_is_absorbing(key, nonce, later);
    lemma_no_activation_past_verified(SessionState::Closed, key, nonce, later);
}

/// One session: ephemeral, one per connection. It owns the nonce that
/// every envelope of the session embeds and a copy of the shared key;
/// its state only ever moves forward to `Closed`.
pub struct Session {
    pub key: String,
    pub nonce: String,
    pub state: SessionState,
}

impl Session {
    /// The nonce is fixed-length alphanumeric text for the whole life
    /// of the session.
    pub open spec fn wf(&self) -> bool {
        &&& self.nonce@.len() == 32
        &&& forall|i: int| 0 <= i < self.nonce@.len() ==> is_alphanumeric_char(self.nonce@[i])
    }

    /// Opens a session for one accepted connection: draws the session
    /// nonce and stands ready to send the hello.
    pub fn new(key: String) -> (s: Session)
        ensures
            s.state == SessionState::Connected,
            s.key@ == key@,
            s.wf(),
    {
        let nonce = gen_nonce();
        Session { key, nonce, state: SessionState::Connected }
    }

    /// Generates the hello envelope and moves to `HelloSent`. In any
    /// other state than `Connected` nothing happens and nothing is
    /// returned.
    pub fn start(&mut self) -> (r: Option<String>)
        ensures
            old(self).state == SessionState::Connected ==> {
                &&& final(self).state == SessionState::HelloSent
                &&& r matches Some(line) && line@ == encoded_line(
                    old(self).key@,
                    old(self).nonce@,
                    hello_entries(),
                )
            },
            old(self).state != SessionState::Connected ==> *final(self) == *old(self) && r is None,
            final(self).key == old(self).key,
            final(self).nonce == old(self).nonce,
            final(self).wf() == old(self).wf(),
            rank(final(self).state) <= rank(old(self).state),
            final(self).state == step_state(
                old(self).state,
                old(self).key@,
                old(self).nonce@,
                SessionEvent::Start,
            ),
    {
        match self.state {
            SessionState::Connected => {
                let mut payload = Payload::new();
                proof {
                    reveal_strlit("version");
                    reveal_strlit("api");
                    reveal_strlit("1");
                    reveal_strlit("opener");
                }
                payload.insert(String::from_str("version"), String::from_str("1"));
                proof {
                    assert(payload@.len() == 1);
                    assert(payload@[0].0 == "version"@);
                    assert("version"@.len() != "api"@.len());
                    assert(payload@.drop_first() =~= Seq::<(Seq<char>, Seq<char>)>::empty());
                    assert(lookup(payload@.drop_first(), "api"@) is None);
                    assert(lookup(payload@, "api"@) is None);
                }
                payload.insert(String::from_str("api"), String::from_str("opener"));
                proof {
                    assert(payload@ =~= hello_entries());
                }
                let line = encode(self.key.as_str(), self.nonce.as_str(), &payload);
                self.state = SessionState::HelloSent;
                Some(line)
            },
            _ => None,
        }
    }

    /// Notes that the hello write succeeded: the session now waits for
    /// exactly one command line. In any other state nothing happens.
    pub fn hello_sent(&mut self)
        ensures
            old(self).state == SessionState::HelloSent ==> final(self).state
                == SessionState::AwaitingCommand,
            old(self).state != SessionState::HelloSent ==> *final(self) == *old(self),
            final(self).key == old(self).key,
            final(self).nonce == old(self).nonce,
            final(self).wf() == old(self).wf(),
            rank(final(self).state) <= rank(old(self).state),
            final(self).state == step_state(
                old(self).state,
                old(self).key@,
                old(self).nonce@,
                SessionEvent::HelloWritten,
            ),
    {
        match self.state {
            SessionState::HelloSent => {
                self.state = SessionState::AwaitingCommand;
            },
            _ => {},
        }
    }

    /// Handles the one command line of the session: decodes it against
    /// this session's key and nonce and dispatches the command. Success
    /// moves to `Verified` and asks for one activation; any codec error
    /// or unknown command closes the session with no acknowledgment. A
    /// session not awaiting a command ignores the line: in particular a
    /// closed session never answers a second command.
    pub fn on_line(&mut self, line: &str) -> (r: LineOutcome)
        ensures
            old(self).state != SessionState::AwaitingCommand ==> *final(self) == *old(self) && r
                == LineOutcome::Ignore,
            old(self).state == SessionState::AwaitingCommand ==> match decode_spec(
                line@,
                old(self).key@,
                old(self).nonce@,
            ) {
                Ok(es) => {
                    if lookup(es, "cmd"@) matches Some(c) && known_command(c) {
                        final(self).state == SessionState::Verified && r == LineOutcome::Activate
                    } else {
                        final(self).state == SessionState::Closed && r
                            == LineOutcome::CloseSilently
                    }
                },
                Err(_) => final(self).state == SessionState::Closed && r
                    == LineOutcome::CloseSilently,
            },
            final(self).key == old(self).key,
            final(self).nonce == old(self).nonce,
            final(self).wf() == old(self).wf(),
            rank(final(self).state) <= rank(old(self).state),
            r == LineOutcome::Activate ==> old(self).state == SessionState::AwaitingCommand
                && final(self).state == SessionState::Verified,
            final(self).state == step_state(
                old(self).state,
                old(self).key@,
                old(self).nonce@,
                SessionEvent::Line(line@),
            ),
            r == LineOutcome::Activate <==> step_activates(
                old(self).state,
                old(self).key@,
                old(self).nonce@,
                SessionEvent::Line(line@),
            ),
    {
        match self.state {
            SessionState::AwaitingCommand => {
                match decode(line, self.key.as_str(), self.nonce.as_str()) {
                    Ok(payload) => {
                        match payload.get("cmd") {
                            Some(name) => {
                                match dispatch(name.as_str()) {
                                    Dispatch::Activate => {
                                        self.state = SessionState::Verified;
                                        LineOutcome::Activate
                                    },
                                    Dispatch::UnknownCommand => {
                                        self.state = SessionState::Closed;
                                        LineOutcome::CloseSilently
                                    },
                                }
                            },
                            None => {
                                self.state = SessionState::Closed;
                                LineOutcome::CloseSilently
                            },
                        }
                    },
                    Err(_) => {
                        self.state = SessionState::Closed;
                        LineOutcome::CloseSilently
                    },
                }
            },
            _ => LineOutcome::Ignore,
        }
    }

    /// Generates the acknowledgment envelope, reusing the same session
    /// nonce, and closes the session. Owed only in `Verified`; in any
    /// other state nothing happens and nothing is returned, so one
    /// command earns at most one acknowledgment.
    pub fn ack(&mut self) -> (r: Option<String>)
        ensures
            old(self).state == SessionState::Verified ==> {
                &&& final(self).state == SessionState::Closed
                &&& r matches Some(line) && line@ == encoded_line(
                    old(self).key@,
                    old(self).nonce@,
                    status_entries(),
                )
            },
            old(self).state != SessionState::Verified ==> *final(self) == *old(self) && r is None,
            final(self).key == old(self).key,
            final(self).nonce == old(self).nonce,
            final(self).wf() == old(self).wf(),
            rank(final(self).state) <= rank(old(self).state),
            final(self).state == step_state(
                old(self).state,
                old(self).key@,
                old(self).nonce@,
                SessionEvent::AckTaken,
            ),
    {
        match self.state {
            SessionState::Verified => {
                let mut payload = Payload::new();
                proof {
                    reveal_strlit("status");
                    reveal_strlit("ok");
                }
                payload.insert(String::from_str("status"), String::from_str("ok"));
                proof {
                    assert(payload@ =~= status_entries());
                }
                let line = encode(self.key.as_str(), self.nonce.as_str(), &payload);
                self.state = SessionState::Closed;
                Some(line)
            },
            _ => None,
        }
    }

    /// Tears the session down after the bounded read or write timeout,
    /// or any other transport failure: whatever the state was, the
    /// session is closed and nothing more is sent.
    pub fn on_io_failure(&mut self)
        ensures
            final(self).state == SessionState::Closed,
            final(self).key == old(self).key,
            final(self).nonce == old(self).nonce,
            final(self).wf() == old(self).wf(),
            rank(final(self).state) <= rank(old(self).state),
            final(self).state == step_state(
                old(self).state,
                old(self).key@,
                old(self).nonce@,
                SessionEvent::IoFailure,
            ),
    {
        self.state = SessionState::Closed;
    }
}

} // verus!
