use vstd::prelude::*;

use crate::server::{ClientMessage, Disconnect};

verus! {

/// Whether `c` has the Unicode White_Space property.
pub open spec fn is_white_space(c: char) -> bool {
    let u = c as u32;
    ||| 0x09 <= u <= 0x0d
    ||| u == 0x20
    ||| u == 0x85
    ||| u == 0xa0
    ||| u == 0x1680
    ||| 0x2000 <= u <= 0x200a
    ||| u == 0x2028
    ||| u == 0x2029
    ||| u == 0x202f
    ||| u == 0x205f
    ||| u == 0x3000
}

/// `s` without its leading white space.
pub open spec fn trim_start_text(s: Seq<char>) -> Seq<char>
    decreases s.len(),
{
    if s.len() > 0 && is_white_space(s[0]) {
        trim_start_text(s.drop_first())
    } else {
        s
    }
}

/// `s` without its trailing white space.
pub open spec fn trim_end_text(s: Seq<char>) -> Seq<char>
    decreases s.len(),
{
    if s.len() > 0 && is_white_space(s.last()) {
        trim_end_text(s.drop_last())
    } else {
        s
    }
}

/// `s` without its leading and trailing white space.
pub open spec fn trimmed(s: Seq<char>) -> Seq<char> {
    trim_end_text(trim_start_text(s))
}

/// Relies on `str::trim`: the slice of `s` left once the leading and trailing
/// characters with the Unicode White_Space property are removed; `to_owned`
/// copies it.
#[verifier::external_body]
fn trim_text(s: &str) -> (r: String)
    ensures
        r@ == trimmed(s@),
{
    s.trim().to_owned()
}

/// Where one connection stands.
pub enum SessionState {
    /// The transport handshake is done and registration is under way.
    Connecting,
    /// Registered under `id`.
    Active { id: usize },
    /// Gone; nothing more happens.
    Closed,
}

/// What the transport or the registry reports to a connection.
pub enum Event {
    /// The registry accepted the connection under this id.
    Registered(usize),
    /// The registry could not be reached; the connection was never registered.
    RegistrationFailed,
    /// A text frame came in.
    Text(String),
    /// A close frame came in.
    Close,
    /// The transport failed.
    Error,
    /// Any other frame; it is ignored.
    Other,
}

/// What a connection asks of the registry after an event.
pub enum Action {
    Nothing,
    /// Relay a message to every other session.
    Broadcast(ClientMessage),
    /// Remove a session from the registry.
    Unregister(Disconnect),
}

/// `a` relays `text` from session `id`.
pub open spec fn is_broadcast_of(a: Action, id: usize, text: Seq<char>) -> bool {
    a matches Action::Broadcast(m) && m.id == id && m.msg@ == text
}

/// `a` removes session `id`.
pub open spec fn is_unregister_of(a: Action, id: usize) -> bool {
    a matches Action::Unregister(d) && d.id == id
}

/// The transition of a connection in state `s` on event `e`: its next state `n`
/// and the action `a` it asks of the registry.
pub open spec fn is_step(s: SessionState, e: Event, n: SessionState, a: Action) -> bool {
    match s {
        SessionState::Connecting => match e {
            Event::Registered(id) => n == SessionState::Active { id } && a is Nothing,
            Event::RegistrationFailed | Event::Close | Event::Error => n is Closed && a is Nothing,
            _ => n is Connecting && a is Nothing,
        },
        SessionState::Active { id } => match e {
            Event::Text(t) => n == SessionState::Active { id } && is_broadcast_of(a, id, trimmed(t@)),
            Event::Close | Event::Error => n is Closed && is_unregister_of(a, id),
            _ => n == SessionState::Active { id } && a is Nothing,
        },
        SessionState::Closed => n is Closed && match e {
            Event::Registered(id) => is_unregister_of(a, id),
            _ => a is Nothing,
        },
    }
}

/// `states`, `events` and `actions` form a run of one connection from its start:
/// event `i` takes `states[i]` to `states[i + 1]` and asks for `actions[i]`.
pub open spec fn is_run(states: Seq<SessionState>, events: Seq<Event>, actions: Seq<Action>) -> bool {
    &&& states.len() == events.len() + 1
    &&& actions.len() == events.len()
    &&& states[0] is Connecting
    &&& forall|i: int| 0 <= i < events.len() ==> is_step(#[trigger] states[i], events[i], states[i + 1], actions[i])
}

proof fn lemma_closed_stays_closed(states: Seq<SessionState>, events: Seq<Event>, actions: Seq<Action>, k: int, m: int)
    requires
        is_run(states, events, actions),
        0 <= k <= m < states.len(),
        states[k] is Closed,
    ensures
        states[m] is Closed,
    decreases m - k,
{
    if k < m {
        assert(is_step(states[k], events[k], states[k + 1], actions[k]));
        lemma_closed_stays_closed(states, events, actions, k + 1, m);
    }
}

proof fn lemma_active_was_registered(states: Seq<SessionState>, events: Seq<Event>, actions: Seq<Action>, k: int)
    requires
        is_run(states, events, actions),
        0 <= k < states.len(),
        states[k] is Active,
    ensures
        exists|r: int| 0 <= r < k && #[trigger] events[r] is Registered,
    decreases k,
{
    if k > 0 {
        assert(is_step(states[k - 1], events[k - 1], states[k], actions[k - 1]));
        if states[k - 1] is Active {
            lemma_active_was_registered(states, events, actions, k - 1);
            let r = choose|r: int| 0 <= r < k - 1 && #[trigger] events[r] is Registered;
            assert(events[r] is Registered);
        } else {
            assert(events[k - 1] is Registered);
        }
    }
}

/// Over any run of a connection in which the registry answers its registration
/// at most once, the connection asks the registry to remove it at most once,
/// whatever mix of close frames, transport errors and late answers arrives.
pub proof fn lemma_unregister_at_most_once(
    states: Seq<SessionState>,
    events: Seq<Event>,
    actions: Seq<Action>,
    i: int,
    j: int,
)
    requires
        is_run(states, events, actions),
        forall|a: int, b: int|
            0 <= a < b < events.len() && #[trigger] events[a] is Registered ==> !(#[trigger] events[b] is Registered),
        0 <= i < j < actions.len(),
        actions[i] is Unregister,
    ensures
        !(actions[j] is Unregister),
{
    assert(is_step(states[i], events[i], states[i + 1], actions[i]));
    assert(is_step(states[j], events[j], states[j + 1], actions[j]));
    lemma_closed_stays_closed(states, events, actions, i + 1, j);
    if actions[j] is Unregister {
        assert(events[j] is Registered);
        if states[i] is Active {
            lemma_active_was_registered(states, events, actions, i);
            let r = choose|r: int| 0 <= r < i && #[trigger] events[r] is Registered;
            assert(events[r] is Registered);
        } else {
            assert(events[i] is Registered);
        }
    }
}

impl SessionState {
    /// A connection whose handshake is done, before registration.
    pub fn new() -> (r: Self)
        ensures
            r is Connecting,
    {
        SessionState::Connecting
    }

    /// The id under which the connection is registered, if it is active.
    pub fn id(&self) -> (r: Option<usize>)
        ensures
            r == (match *self {
                SessionState::Active { id } => Some(id),
                _ => None,
            }),
    {
        match self {
            SessionState::Active { id } => Some(*id),
            _ => None,
        }
    }

    /// Whether the connection is gone.
    pub fn is_closed(&self) -> (r: bool)
        ensures
            r == (*self is Closed),
    {
        match self {
            SessionState::Closed => true,
            _ => false,
        }
    }

    /// Handles one event: inbound text is relayed trimmed, a close or a transport
    /// error ends the session, and a session leaves the registry exactly when it
    /// stops being active.
    pub fn step(self, e: Event) -> (r: (SessionState, Action))
        ensures
            is_step(self, e, r.0, r.1),
    {
        match self {
            SessionState::Connecting => match e {
                Event::Registered(id) => (SessionState::Active { id }, Action::Nothing),
                Event::RegistrationFailed | Event::Close | Event::Error => (SessionState::Closed, Action::Nothing),
                _ => (SessionState::Connecting, Action::Nothing),
            },
            SessionState::Active { id } => match e {
                Event::Text(t) => {
                    let msg = trim_text(t.as_str());
                    (SessionState::Active { id }, Action::Broadcast(ClientMessage { id, msg }))
                },
                Event::Close | Event::Error => (SessionState::Closed, Action::Unregister(Disconnect { id })),
                _ => (SessionState::Active { id }, Action::Nothing),
            },
            SessionState::Closed => match e {
                Event::Registered(id) => (SessionState::Closed, Action::Unregister(Disconnect { id })),
                _ => (SessionState::Closed, Action::Nothing),
            },
        }
    }

    /// Tears the connection down, however it ended: an active session leaves
    /// the registry, any other ends with nothing to undo.
    pub fn stop(self) -> (r: (SessionState, Action))
        ensures
            r.0 is Closed,
            match self {
                SessionState::Active { id } => is_unregister_of(r.1, id),
                _ => r.1 is Nothing,
            },
    {
        match self {
            SessionState::Active { id } => (SessionState::Closed, Action::Unregister(Disconnect { id })),
            _ => (SessionState::Closed, Action::Nothing),
        }
    }
}

} // verus!
