//! The life of a listener: from unbound through binding and listening to
//! draining and closed. The functions here decide the next state and what is
//! to be done; binding, accepting and closing are done by the caller.

use crate::config::ListenRule;
use crate::text::chars_of;
use vstd::prelude::*;
use vstd::string::*;

verus! {

/// Where a listener stands in its life.
#[derive(Debug, Clone, Copy, PartialEq, Eq, Structural)]
pub enum ListenerState {
    Unbound,
    Binding,
    Listening,
    Draining,
    Closed,
}

/// Why an address could not be bound.
#[derive(Debug, Clone, Copy, PartialEq, Eq, Structural)]
pub enum BindError {
    AddressInUse,
    PermissionDenied,
    /// The address is none that this machine can bind.
    InvalidAddress,
    /// The certificate or the key could not be used.
    TlsCertError,
}

/// What happened to a listener.
#[derive(Debug, Clone, Copy, PartialEq, Eq, Structural)]
pub enum ListenerEvent {
    /// The listener is asked to start.
    Start,
    /// The address was bound.
    Bound,
    /// The address could not be bound.
    BindFailed(BindError),
    /// The listener is asked to stop.
    Stop,
    /// The last request in flight has finished.
    Drained,
    /// The time allowed for requests in flight is over.
    GraceExpired,
}

/// What the caller is to do next.
#[derive(Debug, Clone, Copy, PartialEq, Eq, Structural)]
pub enum ListenerAction {
    Nothing,
    /// Bind the address, with TLS where the rule asks for it.
    Bind,
    /// Accept connections, each handled on its own.
    Accept,
    /// Accept no more connections; let the requests in flight finish.
    StopAccepting,
    /// Release the socket.
    Release,
    /// Close the requests still in flight, record each as a server error, and
    /// release the socket.
    ForceClose,
    /// Report why the address could not be bound.
    Report(BindError),
}

/// The state after an event, and what is to be done. An event that does not
/// fit the state changes nothing.
pub open spec fn next(state: ListenerState, event: ListenerEvent) -> (ListenerState, ListenerAction) {
    match (state, event) {
        (ListenerState::Unbound, ListenerEvent::Start) => (
            ListenerState::Binding,
            ListenerAction::Bind,
        ),
        (ListenerState::Closed, ListenerEvent::Start) => (
            ListenerState::Binding,
            ListenerAction::Bind,
        ),
        (ListenerState::Binding, ListenerEvent::Bound) => (
            ListenerState::Listening,
            ListenerAction::Accept,
        ),
        (ListenerState::Binding, ListenerEvent::BindFailed(e)) => (
            ListenerState::Closed,
            ListenerAction::Report(e),
        ),
        (ListenerState::Listening, ListenerEvent::Stop) => (
            ListenerState::Draining,
            ListenerAction::StopAccepting,
        ),
        (ListenerState::Draining, ListenerEvent::Drained) => (
            ListenerState::Closed,
            ListenerAction::Release,
        ),
        (ListenerState::Draining, ListenerEvent::GraceExpired) => (
            ListenerState::Closed,
            ListenerAction::ForceClose,
        ),
        _ => (state, ListenerAction::Nothing),
    }
}

/// The state of a listener after an event, and what the caller is to do.
pub fn step(state: ListenerState, event: ListenerEvent) -> (r: (ListenerState, ListenerAction))
    ensures
        r == next(state, event),
{
    match (state, event) {
        (ListenerState::Unbound, ListenerEvent::Start) => (
            ListenerState::Binding,
            ListenerAction::Bind,
        ),
        (ListenerState::Closed, ListenerEvent::Start) => (
            ListenerState::Binding,
            ListenerAction::Bind,
        ),
        (ListenerState::Binding, ListenerEvent::Bound) => (
            ListenerState::Listening,
            ListenerAction::Accept,
        ),
        (ListenerState::Binding, ListenerEvent::BindFailed(e)) => (
            ListenerState::Closed,
            ListenerAction::Report(e),
        ),
        (ListenerState::Listening, ListenerEvent::Stop) => (
            ListenerState::Draining,
            ListenerAction::StopAccepting,
        ),
        (ListenerState::Draining, ListenerEvent::Drained) => (
            ListenerState::Closed,
            ListenerAction::Release,
        ),
        (ListenerState::Draining, ListenerEvent::GraceExpired) => (
            ListenerState::Closed,
            ListenerAction::ForceClose,
        ),
        _ => (state, ListenerAction::Nothing),
    }
}

/// The address to bind for a listen address: a listen address that begins
/// with a colon names a port on every interface.
pub open spec fn bind_address_of(listen_addr: Seq<char>) -> Seq<char> {
    if listen_addr.len() > 0 && listen_addr[0] == ':' {
        "0.0.0.0"@ + listen_addr
    } else {
        listen_addr
    }
}

/// The address to bind for a listen address: `:8443` stands for
/// `0.0.0.0:8443`; any other address stands for itself.
pub fn bind_address(listen_addr: &str) -> (addr: String)
    ensures
        addr@ == bind_address_of(listen_addr@),
{
    let cs = chars_of(listen_addr);
    if cs.len() > 0 && cs[0] == ':' {
        let mut addr = String::from_str("0.0.0.0");
        addr.append(listen_addr);
        addr
    } else {
        String::from_str(listen_addr)
    }
}

/// The listener holds a socket: from the moment the address is bound until
/// the socket is released.
pub open spec fn holds_socket(state: ListenerState) -> bool {
    state == ListenerState::Listening || state == ListenerState::Draining
}

/// One listener of the manager.
pub struct ListenerEntry {
    pub listen_addr: String,
    pub state: ListenerState,
    /// Why the last attempt to bind failed, if it did.
    pub last_error: Option<BindError>,
}

/// The listeners of all rules, in the order of the rules.
pub struct ListenerManager {
    entries: Vec<ListenerEntry>,
}

/// The error that stands after an event: that of a failed attempt to bind; a
/// new attempt clears it.
pub open spec fn error_after(
    before: Option<BindError>,
    state: ListenerState,
    event: ListenerEvent,
) -> Option<BindError> {
    match next(state, event).1 {
        ListenerAction::Report(e) => Some(e),
        ListenerAction::Bind => None,
        _ => before,
    }
}

impl ListenerManager {
    /// The listeners, in the order of the rules.
    pub closed spec fn view(&self) -> Seq<ListenerEntry> {
        self.entries@
    }

    /// One unbound listener for each rule, with the rule's address.
    pub fn from_rules(rules: &Vec<ListenRule>) -> (m: ListenerManager)
        ensures
            m@.len() == rules@.len(),
            forall|i: int|
                0 <= i < rules@.len() ==> {
                    &&& (#[trigger] m@[i]).listen_addr@ == rules@[i].listen_addr@
                    &&& m@[i].state == ListenerState::Unbound
                    &&& m@[i].last_error is None
                },
    {
        let mut entries: Vec<ListenerEntry> = Vec::new();
        let mut i: usize = 0;
        while i < rules.len()
            invariant
                i <= rules.len(),
                entries@.len() == i,
                forall|k: int|
                    0 <= k < i ==> {
                        &&& (#[trigger] entries@[k]).listen_addr@ == rules@[k].listen_addr@
                        &&& entries@[k].state == ListenerState::Unbound
                        &&& entries@[k].last_error is None
                    },
            decreases rules.len() - i,
        {
            entries.push(
                ListenerEntry {
                    listen_addr: rules[i].listen_addr.clone(),
                    state: ListenerState::Unbound,
                    last_error: None,
                },
            );
            i += 1;
        }
        ListenerManager { entries }
    }

    /// How many listeners there are.
    pub fn len(&self) -> (n: usize)
        ensures
            n == self@.len(),
    {
        self.entries.len()
    }

    /// The state of the listener at place `i`.
    pub fn state(&self, i: usize) -> (s: ListenerState)
        requires
            i < self@.len(),
        ensures
            s == self@[i as int].state,
    {
        self.entries[i].state
    }

    /// Why the listener at place `i` could not bind, if its last attempt failed.
    pub fn last_error(&self, i: usize) -> (e: Option<BindError>)
        requires
            i < self@.len(),
        ensures
            e == self@[i as int].last_error,
    {
        self.entries[i].last_error
    }

    /// Hands an event to the listener at place `i` and says what is to be
    /// done. The other listeners are not touched: what happens to one
    /// listener never stops another. An event for a place that does not exist
    /// changes nothing.
    pub fn handle(&mut self, i: usize, event: ListenerEvent) -> (action: ListenerAction)
        ensures
            final(self)@.len() == old(self)@.len(),
            forall|k: int| 0 <= k < old(self)@.len() && k != i ==> final(self)@[k] == old(self)@[k],
            i < old(self)@.len() ==> {
                &&& action == next(old(self)@[i as int].state, event).1
                &&& final(self)@[i as int].state == next(old(self)@[i as int].state, event).0
                &&& final(self)@[i as int].listen_addr == old(self)@[i as int].listen_addr
                &&& final(self)@[i as int].last_error == error_after(
                    old(self)@[i as int].last_error,
                    old(self)@[i as int].state,
                    event,
                )
            },
            i >= old(self)@.len() ==> action == ListenerAction::Nothing && final(self)@ == old(self)@,
    {
        if i >= self.entries.len() {
            return ListenerAction::Nothing;
        }
        let (state, action) = step(self.entries[i].state, event);
        self.entries[i].state = state;
        match action {
            ListenerAction::Report(e) => {
                self.entries[i].last_error = Some(e);
            },
            ListenerAction::Bind => {
                self.entries[i].last_error = None;
            },
            _ => {},
        }
        action
    }

    /// Whether any listener accepts connections.
    pub fn is_running(&self) -> (running: bool)
        ensures
            running == exists|i: int|
                0 <= i < self@.len() && (#[trigger] self@[i]).state == ListenerState::Listening,
    {
        let mut i: usize = 0;
        while i < self.entries.len()
            invariant
                i <= self.entries.len(),
                forall|k: int| 0 <= k < i ==> (#[trigger] self@[k]).state != ListenerState::Listening,
            decreases self.entries.len() - i,
        {
            if self.entries[i].state == ListenerState::Listening {
                return true;
            }
            i += 1;
        }
        false
    }

    /// The addresses that are bound at present: those of the listeners that
    /// hold a socket, in the order of the rules.
    pub fn listen_addrs(&self) -> (addrs: Vec<String>)
        ensures
            addrs@.map_values(|s: String| s@) == self@.filter(
                |e: ListenerEntry| holds_socket(e.state),
            ).map_values(|e: ListenerEntry| e.listen_addr@),
    {
        let ghost pred = |e: ListenerEntry| holds_socket(e.state);
        let ghost name = |e: ListenerEntry| e.listen_addr@;
        let ghost text = |s: String| s@;
        let mut addrs: Vec<String> = Vec::new();
        let mut i: usize = 0;
        proof {
            reveal(Seq::filter);
        }
        while i < self.entries.len()
            invariant
                i <= self.entries.len(),
                pred == (|e: ListenerEntry| holds_socket(e.state)),
                name == (|e: ListenerEntry| e.listen_addr@),
                text == (|s: String| s@),
                addrs@.map_values(text) == self@.take(i as int).filter(pred).map_values(name),
            decreases self.entries.len() - i,
        {
            let ghost before = self@.take(i as int).filter(pred);
            proof {
                assert(self@.take(i as int + 1) =~= self@.take(i as int).push(self@[i as int]));
                self@.take(i as int).lemma_filter_push(self@[i as int], pred);
            }
            let e = &self.entries[i];
            if e.state == ListenerState::Listening || e.state == ListenerState::Draining {
                addrs.push(e.listen_addr.clone());
                proof {
                    assert(before.push(*e).map_values(name) =~= before.map_values(name).push(
                        e.listen_addr@,
                    ));
                }
            }
            i += 1;
        }
        proof {
            assert(self@.take(self@.len() as int) =~= self@);
        }
        addrs
    }
}

/// Nothing is bound while a socket is held: a listener is asked to bind only
/// when it is unbound or closed, so that a restart releases the old socket
/// before it binds again.
pub proof fn lemma_bind_only_without_socket(state: ListenerState, event: ListenerEvent)
    ensures
        next(state, event).1 == ListenerAction::Bind ==> !holds_socket(state) && (state
            == ListenerState::Unbound || state == ListenerState::Closed),
        holds_socket(state) && !holds_socket(next(state, event).0) ==> next(state, event).1
            == ListenerAction::Release || next(state, event).1 == ListenerAction::ForceClose,
{
}

/// A failed bind closes the listener and reports the cause as it was given:
/// an address in use and a certificate error stay apart.
pub proof fn lemma_bind_failure_is_reported(e: BindError)
    ensures
        next(ListenerState::Binding, ListenerEvent::BindFailed(e)) == (
            ListenerState::Closed,
            ListenerAction::Report(e),
        ),
{
}

/// Stopping, then starting: a listening listener that is stopped, has
/// drained (or run out of time), and is started again, binds anew.
pub proof fn lemma_restart_rebinds(forced: bool)
    ensures
        ({
            let stopped = next(ListenerState::Listening, ListenerEvent::Stop);
            let closed = next(
                stopped.0,
                if forced {
                    ListenerEvent::GraceExpired
                } else {
                    ListenerEvent::Drained
                },
            );
            let started = next(closed.0, ListenerEvent::Start);
            &&& stopped == (ListenerState::Draining, ListenerAction::StopAccepting)
            &&& closed.0 == ListenerState::Closed
            &&& started == (ListenerState::Binding, ListenerAction::Bind)
        }),
{
}

} // verus!
