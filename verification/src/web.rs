//! Web sharing of a terminal: who may watch, who may type, and the small
//! pieces of the served page that are computed from plain values.
use std::collections::{HashMap, HashSet};

use vstd::prelude::*;
use vstd::std_specs::hash::spec_keys_iter;
use vstd::std_specs::iter::IteratorSpec;

use crate::text::{
    byte_hex, chars_of, hex_encode, hex_of, lemma_hex_of_len, push_str, str_eq, string_push, trim, trim_string, views,
};

verus! {

broadcast use vstd::std_specs::hash::group_hash_axioms;

/// The id of a connected web client.
pub type ClientId = u64;

/// The id of a request for control.
pub type ControlRequestId = u64;

/// What an authenticated client may do right after connecting.
#[derive(Clone, Copy, Debug, PartialEq, Eq, Structural)]
pub enum ClientAccess {
    ReadOnly,
}

/// Why an access operation was refused.
#[derive(Clone, Copy, Debug, PartialEq, Eq, Structural)]
pub enum AccessError {
    InvalidToken,
    UnknownClient,
    UnknownRequest,
    ControllerAlreadyActive,
    RequestAlreadyPending,
}

/// Input typed by a web client.
#[derive(Clone, Debug, PartialEq, Eq)]
pub struct WebInput {
    pub client_id: ClientId,
    pub data: Vec<u8>,
}

/// The abstract state of a [`ShareAccess`].
pub struct AccessModel {
    pub token: Seq<char>,
    pub clients: Set<ClientId>,
    pub controller: Option<ClientId>,
    pub pending: Map<ControlRequestId, ClientId>,
    pub next_request_id: ControlRequestId,
}

impl AccessModel {
    /// The invariant: the controller and every requester are connected,
    /// at most one request is pending, and request ids start at 1.
    pub open spec fn wf(self) -> bool {
        &&& self.controller matches Some(c) ==> self.clients.contains(c)
        &&& self.pending.dom().finite()
        &&& self.pending.dom().len() <= 1
        &&& forall|r: ControlRequestId| #[trigger]
            self.pending.contains_key(r) ==> self.clients.contains(self.pending[r])
        &&& self.next_request_id >= 1
    }
}

/// The request id after `id`: it wraps around, skipping 0.
pub open spec fn next_id_after(id: u64) -> u64 {
    if id == u64::MAX {
        1
    } else {
        (id + 1) as u64
    }
}

/// `connect`: the right token admits the client, read-only.
pub open spec fn connect_spec(m: AccessModel, token: Seq<char>, client: ClientId) -> (
    AccessModel,
    Result<ClientAccess, AccessError>,
) {
    if token != m.token {
        (m, Err(AccessError::InvalidToken))
    } else {
        (AccessModel { clients: m.clients.insert(client), ..m }, Ok(ClientAccess::ReadOnly))
    }
}

/// `request_control`: a connected client that is not in control asks for it,
/// when no other request is pending.
pub open spec fn request_spec(m: AccessModel, client: ClientId) -> (
    AccessModel,
    Result<ControlRequestId, AccessError>,
) {
    if !m.clients.contains(client) {
        (m, Err(AccessError::UnknownClient))
    } else if m.controller == Some(client) {
        (m, Err(AccessError::ControllerAlreadyActive))
    } else if !m.pending.is_empty() {
        (m, Err(AccessError::RequestAlreadyPending))
    } else {
        (
            AccessModel {
                pending: m.pending.insert(m.next_request_id, client),
                next_request_id: next_id_after(m.next_request_id),
                ..m
            },
            Ok(m.next_request_id),
        )
    }
}

/// `approve`: the requester of a pending request becomes the controller and
/// every pending request is dropped.
pub open spec fn approve_spec(m: AccessModel, request: ControlRequestId) -> (
    AccessModel,
    Result<(), AccessError>,
) {
    if !m.pending.contains_key(request) {
        (m, Err(AccessError::UnknownRequest))
    } else if !m.clients.contains(m.pending[request]) {
        (AccessModel { pending: m.pending.remove(request), ..m }, Err(AccessError::UnknownClient))
    } else {
        (
            AccessModel { controller: Some(m.pending[request]), pending: Map::empty(), ..m },
            Ok(()),
        )
    }
}

/// `disconnect`: the client leaves, with its requests and its control.
pub open spec fn disconnect_spec(m: AccessModel, client: ClientId) -> AccessModel {
    AccessModel {
        clients: m.clients.remove(client),
        pending: m.pending.restrict(m.pending.dom().filter(|r: ControlRequestId| m.pending[r] != client)),
        controller: if m.controller == Some(client) {
            None
        } else {
            m.controller
        },
        ..m
    }
}

/// The state of the access control of one shared terminal.
struct AccessState {
    token: String,
    clients: HashSet<ClientId>,
    controller: Option<ClientId>,
    pending: HashMap<ControlRequestId, ClientId>,
    next_request_id: ControlRequestId,
}

impl AccessState {
    /// The abstract state.
    spec fn model(&self) -> AccessModel {
        AccessModel {
            token: self.token@,
            clients: self.clients@,
            controller: self.controller,
            pending: self.pending@,
            next_request_id: self.next_request_id,
        }
    }

    /// The invariant holds.
    spec fn wf(&self) -> bool {
        self.model().wf()
    }

    /// A share protected by `token`, with nobody connected.
    fn new(token: String) -> (s: Self)
        ensures
            s.wf(),
            s.model().token == token@,
            s.model().clients == Set::<ClientId>::empty(),
            s.model().controller is None,
            s.model().pending == Map::<ControlRequestId, ClientId>::empty(),
            s.model().next_request_id == 1,
    {
        AccessState {
            token,
            clients: HashSet::new(),
            controller: None,
            pending: HashMap::new(),
            next_request_id: 1,
        }
    }

    /// Admits `client` when `token` is the share's token; it starts read-only.
    fn connect(&mut self, token: &str, client: ClientId) -> (r: Result<
        ClientAccess,
        AccessError,
    >)
        requires
            old(self).wf(),
        ensures
            final(self).wf(),
            (final(self).model(), r) == connect_spec(old(self).model(), token@, client),
    {
        if !str_eq(token, self.token.as_str()) {
            return Err(AccessError::InvalidToken);
        }
        self.clients.insert(client);
        Ok(ClientAccess::ReadOnly)
    }

    /// Whether `client` is the controller, the one client that may type.
    fn can_input(&self, client: ClientId) -> (b: bool)
        ensures
            b == (self.model().controller == Some(client)),
    {
        match self.controller {
            Some(c) => c == client,
            None => false,
        }
    }

    /// `client` asks for control; the request waits for approval.
    fn request_control(&mut self, client: ClientId) -> (r: Result<
        ControlRequestId,
        AccessError,
    >)
        requires
            old(self).wf(),
        ensures
            final(self).wf(),
            (final(self).model(), r) == request_spec(old(self).model(), client),
    {
        if !self.clients.contains(&client) {
            return Err(AccessError::UnknownClient);
        }
        if self.can_input(client) {
            return Err(AccessError::ControllerAlreadyActive);
        }
        if !self.pending.is_empty() {
            return Err(AccessError::RequestAlreadyPending);
        }
        let request = self.next_request_id;
        self.next_request_id = if self.next_request_id == u64::MAX {
            1
        } else {
            self.next_request_id + 1
        };
        self.pending.insert(request, client);
        proof {
            assert(old(self).model().pending.dom() =~= Set::<ControlRequestId>::empty());
            assert(self.pending@.dom() =~= set![request]);
        }
        Ok(request)
    }

    /// Grants control to the requester of `request`; any other request is dropped.
    fn approve(&mut self, request: ControlRequestId) -> (r: Result<(), AccessError>)
        requires
            old(self).wf(),
        ensures
            final(self).wf(),
            (final(self).model(), r) == approve_spec(old(self).model(), request),
    {
        let client = match self.pending.remove(&request) {
            Some(c) => c,
            None => {
                assert(self.pending@ =~= old(self).pending@);
                return Err(AccessError::UnknownRequest);
            },
        };
        if !self.clients.contains(&client) {
            proof {
                assert(old(self).model().pending.dom().remove(request).len() <= 1);
            }
            return Err(AccessError::UnknownClient);
        }
        self.controller = Some(client);
        self.pending.clear();
        Ok(())
    }

    /// Drops the request `request`, if it is pending.
    fn deny(&mut self, request: ControlRequestId)
        requires
            old(self).wf(),
        ensures
            final(self).wf(),
            final(self).model() == (AccessModel {
                pending: old(self).model().pending.remove(request),
                ..old(self).model()
            }),
    {
        self.pending.remove(&request);
        proof {
            let d = old(self).model().pending.dom();
            if d.contains(request) {
                assert(d.remove(request).len() < d.len());
            } else {
                assert(d.remove(request) =~= d);
            }
        }
    }

    /// Takes control away from the controller; returns whether there was one.
    fn revoke_control(&mut self) -> (had: bool)
        requires
            old(self).wf(),
        ensures
            final(self).wf(),
            had == (old(self).model().controller is Some),
            final(self).model() == (AccessModel { controller: None, ..old(self).model() }),
    {
        let had = self.controller.is_some();
        self.controller = None;
        had
    }

    /// The controller gives control back; any other client changes nothing.
    fn release_control(&mut self, client: ClientId) -> (released: bool)
        requires
            old(self).wf(),
        ensures
            final(self).wf(),
            released == (old(self).model().controller == Some(client)),
            released ==> final(self).model() == (AccessModel {
                controller: None,
                ..old(self).model()
            }),
            !released ==> final(self).model() == old(self).model(),
    {
        if self.can_input(client) {
            self.controller = None;
            true
        } else {
            false
        }
    }

    /// `client` leaves: it is forgotten, with its pending requests and its control.
    fn disconnect(&mut self, client: ClientId)
        requires
            old(self).wf(),
        ensures
            final(self).wf(),
            final(self).model() == disconnect_spec(old(self).model(), client),
    {
        let ghost pend = self.pending@;
        self.clients.remove(&client);
        let ghost cl = self.clients@;
        assert(cl == old(self).clients@.remove(client));
        let mut doomed: Vec<ControlRequestId> = Vec::new();
        for k in it: self.pending.keys()
            invariant
                pend == self.pending@,
                cl == self.clients@,
                self.controller == old(self).controller,
                self.token == old(self).token,
                self.next_request_id == old(self).next_request_id,
                it.seq() == spec_keys_iter(&self.pending).remaining(),
                forall|j: int|
                    0 <= j < doomed@.len() ==> pend.contains_key(#[trigger] doomed@[j])
                        && pend[doomed@[j]] == client,
                forall|j: int|
                    0 <= j < it.index() && pend.contains_key(*#[trigger] it.seq()[j])
                        && pend[*it.seq()[j]] == client ==> doomed@.contains(*it.seq()[j]),
        {
            let ghost before = doomed@;
            match self.pending.get(k) {
                Some(v) => {
                    if *v == client {
                        doomed.push(*k);
                    }
                },
                None => {},
            }
            proof {
                broadcast use vstd::seq_lib::group_seq_properties;

                assert(forall|x: ControlRequestId| before.contains(x) ==> doomed@.contains(x));
            }
        }
        proof {
            let ks = spec_keys_iter(&self.pending).remaining();
            assert(ks.unref().to_set() == pend.dom());
            assert forall|r: ControlRequestId|
                pend.contains_key(r) && pend[r] == client implies doomed@.contains(r) by {
                assert(ks.unref().to_set().contains(r));
                let j = choose|j: int| 0 <= j < ks.unref().len() && #[trigger] ks.unref()[j] == r;
                assert(*ks[j] == r);
            }
        }
        let mut i: usize = 0;
        while i < doomed.len()
            invariant
                0 <= i <= doomed@.len(),
                forall|j: int|
                    0 <= j < doomed@.len() ==> pend.contains_key(#[trigger] doomed@[j])
                        && pend[doomed@[j]] == client,
                forall|r: ControlRequestId|
                    pend.contains_key(r) && pend[r] == client ==> doomed@.contains(r),
                forall|r: ControlRequestId| #[trigger]
                    self.pending@.contains_key(r) <==> pend.contains_key(r)
                        && !doomed@.subrange(0, i as int).contains(r),
                forall|r: ControlRequestId|
                    #[trigger] self.pending@.contains_key(r) ==> self.pending@[r] == pend[r],
                cl == self.clients@,
                self.controller == old(self).controller,
                self.token == old(self).token,
                self.next_request_id == old(self).next_request_id,
            decreases doomed@.len() - i,
        {
            let r = doomed[i];
            self.pending.remove(&r);
            proof {
                broadcast use vstd::seq_lib::group_seq_properties;

                assert(doomed@.subrange(0, i + 1) =~= doomed@.subrange(0, i as int).push(r));
            }
            i += 1;
        }
        if self.can_input(client) {
            self.controller = None;
        }
        proof {
            let m = old(self).model();
            let target = disconnect_spec(m, client);
            assert(doomed@.subrange(0, doomed@.len() as int) =~= doomed@);
            assert forall|r: ControlRequestId| #[trigger]
                self.pending@.contains_key(r) <==> target.pending.contains_key(r) by {
                if pend.contains_key(r) && pend[r] == client {
                    assert(doomed@.contains(r));
                }
                if doomed@.contains(r) {
                    let j = choose|j: int| 0 <= j < doomed@.len() && doomed@[j] == r;
                    assert(pend[doomed@[j]] == client);
                }
            }
            assert(self.pending@ =~= target.pending);
            assert(self.pending@.dom().subset_of(pend.dom()));
            vstd::set_lib::lemma_len_subset(self.pending@.dom(), pend.dom());
            assert(self.clients@ =~= target.clients);
        }
    }
}

/// The access control of one shared terminal: clients that presented the
/// token may watch; at most one of them, the controller, may type; control
/// is handed over by approving a pending request.
pub struct ShareAccess {
    state: AccessState,
}

impl ShareAccess {
    /// The controller and every requester are connected, at most one
    /// request is pending, and request ids start at 1.
    #[verifier::type_invariant]
    spec fn inv(self) -> bool {
        self.state.wf()
    }

    /// The abstract state.
    pub closed spec fn model(&self) -> AccessModel {
        self.state.model()
    }

    /// A share protected by `token`, with nobody connected.
    pub fn new(token: String) -> (s: Self)
        ensures
            s.model().wf(),
            s.model().token == token@,
            s.model().clients == Set::<ClientId>::empty(),
            s.model().controller is None,
            s.model().pending == Map::<ControlRequestId, ClientId>::empty(),
            s.model().next_request_id == 1,
    {
        ShareAccess { state: AccessState::new(token) }
    }

    /// Takes the state out, leaving an empty share behind.
    fn take_state(&mut self) -> (st: AccessState)
        ensures
            st.wf(),
            st.model() == old(self).model(),
    {
        proof {
            use_type_invariant(&*self);
        }
        let mut st = AccessState::new(String::new());
        std::mem::swap(&mut st, &mut self.state);
        st
    }

    /// Admits `client` when `token` is the share's token; it starts read-only.
    pub fn connect(&mut self, token: &str, client: ClientId) -> (r: Result<ClientAccess, AccessError>)
        ensures
            final(self).model().wf(),
            (final(self).model(), r) == connect_spec(old(self).model(), token@, client),
    {
        let mut st = self.take_state();
        let r = st.connect(token, client);
        self.state = st;
        r
    }

    /// Whether `client` is the controller, the one client that may type.
    pub fn can_input(&self, client: ClientId) -> (b: bool)
        ensures
            b == (self.model().controller == Some(client)),
    {
        self.state.can_input(client)
    }

    /// `client` asks for control; the request waits for approval.
    pub fn request_control(&mut self, client: ClientId) -> (r: Result<ControlRequestId, AccessError>)
        ensures
            final(self).model().wf(),
            (final(self).model(), r) == request_spec(old(self).model(), client),
    {
        let mut st = self.take_state();
        let r = st.request_control(client);
        self.state = st;
        r
    }

    /// Grants control to the requester of `request`; any other request is dropped.
    pub fn approve(&mut self, request: ControlRequestId) -> (r: Result<(), AccessError>)
        ensures
            final(self).model().wf(),
            (final(self).model(), r) == approve_spec(old(self).model(), request),
    {
        let mut st = self.take_state();
        let r = st.approve(request);
        self.state = st;
        r
    }

    /// Drops the request `request`, if it is pending.
    pub fn deny(&mut self, request: ControlRequestId)
        ensures
            final(self).model().wf(),
            final(self).model() == (AccessModel {
                pending: old(self).model().pending.remove(request),
                ..old(self).model()
            }),
    {
        let mut st = self.take_state();
        st.deny(request);
        self.state = st;
    }

    /// Takes control away from the controller; returns whether there was one.
    pub fn revoke_control(&mut self) -> (had: bool)
        ensures
            final(self).model().wf(),
            had == (old(self).model().controller is Some),
            final(self).model() == (AccessModel { controller: None, ..old(self).model() }),
    {
        let mut st = self.take_state();
        let had = st.revoke_control();
        self.state = st;
        had
    }

    /// The controller gives control back; any other client changes nothing.
    pub fn release_control(&mut self, client: ClientId) -> (released: bool)
        ensures
            final(self).model().wf(),
            released == (old(self).model().controller == Some(client)),
            released ==> final(self).model() == (AccessModel {
                controller: None,
                ..old(self).model()
            }),
            !released ==> final(self).model() == old(self).model(),
    {
        let mut st = self.take_state();
        let released = st.release_control(client);
        self.state = st;
        released
    }

    /// `client` leaves: it is forgotten, with its pending requests and its control.
    pub fn disconnect(&mut self, client: ClientId)
        ensures
            final(self).model().wf(),
            final(self).model() == disconnect_spec(old(self).model(), client),
    {
        let mut st = self.take_state();
        st.disconnect(client);
        self.state = st;
    }
}

/// The access state after the clients `cs` left, one after another.
pub open spec fn disconnect_all_spec(m: AccessModel, cs: Seq<ClientId>) -> AccessModel
    decreases cs.len(),
{
    if cs.len() == 0 {
        m
    } else {
        disconnect_spec(disconnect_all_spec(m, cs.drop_last()), cs.last())
    }
}

/// Forgets the clients that could not be sent a screen update (their
/// output queue was full), with their requests and their control.
pub fn drop_unreachable_clients(access: &mut ShareAccess, failed: &[ClientId])
    ensures
        final(access).model().wf(),
        final(access).model() == disconnect_all_spec(old(access).model(), failed@),
{
    proof {
        use_type_invariant(&*access);
    }
    let mut i: usize = 0;
    while i < failed.len()
        invariant
            0 <= i <= failed@.len(),
            access.model().wf(),
            access.model() == disconnect_all_spec(old(access).model(), failed@.take(i as int)),
        decreases failed@.len() - i,
    {
        assert(failed@.take(i + 1).drop_last() =~= failed@.take(i as int));
        access.disconnect(failed[i]);
        i += 1;
    }
    assert(failed@.take(failed@.len() as int) =~= failed@);
}

/// A message a web client sends over its websocket.
#[derive(Clone, Debug, PartialEq, Eq)]
pub enum ClientMessage {
    Authenticate { token: String },
    Activity,
    RequestControl,
    ReleaseControl,
    Input { data: String },
}

/// Why a control request was not passed on, as the client is told.
#[derive(Clone, Copy, Debug, PartialEq, Eq, Structural)]
pub enum ControlRequestStatus {
    /// The client is in control already.
    Unavailable,
    /// Another request is waiting for approval.
    Pending,
}

/// What a websocket connection does after a client message.
#[derive(Clone, Copy, Debug, PartialEq, Eq, Structural)]
pub enum WsAction {
    /// Nothing.
    Ignore,
    /// Close the connection: the token was wrong.
    Close,
    /// The client was admitted: tell it it is read-only and send it the
    /// whole screen.
    Welcome,
    /// Hand the control request with this id to the desktop for approval.
    ForwardControlRequest(ControlRequestId),
    /// Tell the client its control request was refused, and why.
    RefuseControlRequest(ControlRequestStatus),
    /// Control changed hands: tell every client what it may do.
    BroadcastAccess,
    /// Pass the message's input to the terminal.
    ForwardInput,
}

/// One message on a websocket, from the share's access state, whether the
/// client has authenticated, the client, and the message: the next access
/// state, whether the client is authenticated afterwards, and what the
/// connection does.  Before authenticating, only an `Authenticate` counts:
/// the right token admits the client, a wrong one closes the connection.
/// Afterwards `Authenticate` and `Activity` do nothing; a control request
/// goes to the desktop, or is refused as unavailable (already in control)
/// or pending (another request waits); releasing control, by the
/// controller only, is broadcast; input is passed on only from the
/// controller.
pub open spec fn ws_step_spec(m: AccessModel, authenticated: bool, client: ClientId, msg: ClientMessage) -> (
    AccessModel,
    bool,
    WsAction,
) {
    match msg {
        ClientMessage::Authenticate { token } => if authenticated {
            (m, true, WsAction::Ignore)
        } else {
            let (m2, r) = connect_spec(m, token@, client);
            if r is Ok {
                (m2, true, WsAction::Welcome)
            } else {
                (m2, false, WsAction::Close)
            }
        },
        _ => if !authenticated {
            (m, false, WsAction::Ignore)
        } else {
            match msg {
                ClientMessage::RequestControl => {
                    let (m2, r) = request_spec(m, client);
                    match r {
                        Ok(id) => (m2, true, WsAction::ForwardControlRequest(id)),
                        Err(AccessError::ControllerAlreadyActive) => (
                            m2,
                            true,
                            WsAction::RefuseControlRequest(ControlRequestStatus::Unavailable),
                        ),
                        Err(AccessError::RequestAlreadyPending) => (
                            m2,
                            true,
                            WsAction::RefuseControlRequest(ControlRequestStatus::Pending),
                        ),
                        Err(_) => (m2, true, WsAction::Ignore),
                    }
                },
                ClientMessage::ReleaseControl => if m.controller == Some(client) {
                    (AccessModel { controller: None, ..m }, true, WsAction::BroadcastAccess)
                } else {
                    (m, true, WsAction::Ignore)
                },
                ClientMessage::Input { .. } => if m.controller == Some(client) {
                    (m, true, WsAction::ForwardInput)
                } else {
                    (m, true, WsAction::Ignore)
                },
                _ => (m, true, WsAction::Ignore),
            }
        },
    }
}

/// Handles one message from web client `client` (see `ws_step_spec`).  The
/// first result is whether the client is authenticated afterwards; the
/// share's idle clock is refreshed whenever it is.
pub fn websocket_step(access: &mut ShareAccess, authenticated: bool, client: ClientId, msg: &ClientMessage) -> (r: (
    bool,
    WsAction,
))
    ensures
        final(access).model().wf(),
        (final(access).model(), r.0, r.1) == ws_step_spec(old(access).model(), authenticated, client, *msg),
{
    proof {
        use_type_invariant(&*access);
    }
    match msg {
        ClientMessage::Authenticate { token } => {
            if authenticated {
                return (true, WsAction::Ignore);
            }
            match access.connect(token.as_str(), client) {
                Ok(_) => (true, WsAction::Welcome),
                Err(_) => (false, WsAction::Close),
            }
        },
        ClientMessage::Activity => (authenticated, WsAction::Ignore),
        ClientMessage::RequestControl => {
            if !authenticated {
                return (false, WsAction::Ignore);
            }
            match access.request_control(client) {
                Ok(id) => (true, WsAction::ForwardControlRequest(id)),
                Err(AccessError::ControllerAlreadyActive) => (
                    true,
                    WsAction::RefuseControlRequest(ControlRequestStatus::Unavailable),
                ),
                Err(AccessError::RequestAlreadyPending) => (
                    true,
                    WsAction::RefuseControlRequest(ControlRequestStatus::Pending),
                ),
                Err(_) => (true, WsAction::Ignore),
            }
        },
        ClientMessage::ReleaseControl => {
            if !authenticated {
                return (false, WsAction::Ignore);
            }
            if access.release_control(client) {
                (true, WsAction::BroadcastAccess)
            } else {
                (true, WsAction::Ignore)
            }
        },
        ClientMessage::Input { .. } => {
            if !authenticated {
                return (false, WsAction::Ignore);
            }
            if access.can_input(client) {
                (true, WsAction::ForwardInput)
            } else {
                (true, WsAction::Ignore)
            }
        },
    }
}

/// Only the controller may type, and there is at most one controller.
pub proof fn law_exclusive_input(m: AccessModel, a: ClientId, b: ClientId)
    requires
        m.controller == Some(a),
        a != b,
    ensures
        m.controller != Some(b),
{
}

/// Approving a request hands control to its requester, and to nobody else:
/// the previous controller loses it.
pub proof fn law_approve_transfers_control(m: AccessModel, request: ControlRequestId, other: ClientId)
    requires
        m.wf(),
        m.pending.contains_key(request),
        other != m.pending[request],
    ensures
        approve_spec(m, request).1 is Ok,
        approve_spec(m, request).0.controller == Some(m.pending[request]),
        approve_spec(m, request).0.controller != Some(other),
        approve_spec(m, request).0.pending.is_empty(),
{
}

/// Every operation keeps the invariant.
pub proof fn law_operations_keep_invariant(
    m: AccessModel,
    token: Seq<char>,
    client: ClientId,
    request: ControlRequestId,
)
    requires
        m.wf(),
    ensures
        connect_spec(m, token, client).0.wf(),
        request_spec(m, client).0.wf(),
        approve_spec(m, request).0.wf(),
        disconnect_spec(m, client).wf(),
{
    let d = m.pending.dom();
    assert(m.pending.remove(request).dom() =~= d.remove(request));
    if d.contains(request) {
        assert(d.remove(request).len() < d.len());
    }
    if m.pending.is_empty() && m.clients.contains(client) {
        assert(m.pending.dom() =~= Set::<ControlRequestId>::empty());
        assert(m.pending.insert(m.next_request_id, client).dom() =~= set![m.next_request_id]);
    }
    let dm = disconnect_spec(m, client);
    assert(dm.pending.dom().subset_of(d));
    vstd::set_lib::lemma_len_subset(dm.pending.dom(), d);
}

/// A denied or disconnected request no longer blocks a new one: once no
/// request is pending, a connected client without control may ask again.
pub proof fn law_request_after_clear(m: AccessModel, client: ClientId)
    requires
        m.wf(),
        m.pending.is_empty(),
        m.clients.contains(client),
        m.controller != Some(client),
    ensures
        request_spec(m, client).1 == Ok::<ControlRequestId, AccessError>(m.next_request_id),
{
}

/// A connection with the wrong token changes nothing.
pub proof fn law_wrong_token_is_refused(m: AccessModel, token: Seq<char>, client: ClientId)
    requires
        token != m.token,
    ensures
        connect_spec(m, token, client) == (m, Err::<ClientAccess, AccessError>(
            AccessError::InvalidToken,
        )),
{
}

// ---------------------------------------------------------------------------
// Page pieces
// ---------------------------------------------------------------------------

/// The HTML escape of one character.
pub open spec fn html_escape_char(c: char) -> Seq<char> {
    if c == '&' {
        "&amp;"@
    } else if c == '<' {
        "&lt;"@
    } else if c == '>' {
        "&gt;"@
    } else if c == '"' {
        "&quot;"@
    } else if c == '\'' {
        "&#39;"@
    } else {
        seq![c]
    }
}

/// `s` with `& < > " '` replaced by their HTML entities.
pub open spec fn html_escaped(s: Seq<char>) -> Seq<char>
    decreases s.len(),
{
    if s.len() == 0 {
        seq![]
    } else {
        html_escaped(s.drop_last()) + html_escape_char(s.last())
    }
}

/// Escapes text for use inside HTML.
pub fn escape_html_text(text: &str) -> (out: String)
    ensures
        out@ == html_escaped(text@),
{
    let v = chars_of(text);
    let mut out = String::new();
    let mut i: usize = 0;
    while i < v.len()
        invariant
            0 <= i <= v@.len(),
            v@ == text@,
            out@ == html_escaped(v@.subrange(0, i as int)),
        decreases v@.len() - i,
    {
        let c = v[i];
        assert(v@.subrange(0, i + 1).drop_last() =~= v@.subrange(0, i as int));
        if c == '&' {
            push_str(&mut out, "&amp;");
        } else if c == '<' {
            push_str(&mut out, "&lt;");
        } else if c == '>' {
            push_str(&mut out, "&gt;");
        } else if c == '"' {
            push_str(&mut out, "&quot;");
        } else if c == '\'' {
            push_str(&mut out, "&#39;");
        } else {
            string_push(&mut out, c);
            assert(out@ =~= html_escaped(v@.subrange(0, i as int)) + seq![c]);
        }
        i += 1;
    }
    assert(v@.subrange(0, v@.len() as int) =~= v@);
    out
}

/// Escaping leaves no raw `<`, `>`, `"` or `'` in the text.
pub proof fn law_escaped_has_no_markup(s: Seq<char>)
    ensures
        forall|i: int|
            0 <= i < html_escaped(s).len() ==> {
                let c = #[trigger] html_escaped(s)[i];
                c != '<' && c != '>' && c != '"' && c != '\''
            },
    decreases s.len(),
{
    reveal_strlit("&amp;");
    reveal_strlit("&lt;");
    reveal_strlit("&gt;");
    reveal_strlit("&quot;");
    reveal_strlit("&#39;");
    if s.len() > 0 {
        law_escaped_has_no_markup(s.drop_last());
        let a = html_escaped(s.drop_last());
        let b = html_escape_char(s.last());
        assert forall|i: int| 0 <= i < (a + b).len() implies {
            let c = #[trigger] (a + b)[i];
            c != '<' && c != '>' && c != '"' && c != '\''
        } by {
            if i >= a.len() {
                assert((a + b)[i] == b[i - a.len()]);
            } else {
                assert((a + b)[i] == a[i]);
            }
        }
    }
}

/// 32 random bytes (rand's `random`, drawn from the thread-local generator).
/// Nothing is claimed of the bytes: they depend on chance.
#[verifier::external_body]
fn random_token_bytes() -> [u8; 32] {
    rand::random::<[u8; 32]>()
}

/// The token of a web share: 32 random bytes in lower-case hex.
pub fn generate_token() -> (token: String)
    ensures
        token@.len() == 64,
        exists|bytes: Seq<u8>| bytes.len() == 32 && token@ == hex_of(bytes),
{
    let bytes = random_token_bytes();
    let token = hex_encode(&bytes);
    proof {
        lemma_hex_of_len(bytes@);
    }
    token
}

/// The colours that the served page hands to xterm.js.
#[derive(Clone, Debug)]
pub struct XtermTheme {
    pub foreground: String,
    pub background: String,
    pub cursor: String,
    pub selection_background: String,
    pub black: String,
    pub red: String,
    pub green: String,
    pub yellow: String,
    pub blue: String,
    pub magenta: String,
    pub cyan: String,
    pub white: String,
    pub bright_black: String,
    pub bright_red: String,
    pub bright_green: String,
    pub bright_yellow: String,
    pub bright_blue: String,
    pub bright_magenta: String,
    pub bright_cyan: String,
    pub bright_white: String,
}

fn owned(s: &str) -> (out: String)
    ensures
        out@ == s@,
{
    let mut out = String::new();
    push_str(&mut out, s);
    out
}

impl XtermTheme {
    /// The built-in dark theme.
    pub fn default_theme() -> (t: Self)
        ensures
            t.foreground@ == "#d8dee9"@,
            t.background@ == "#111111"@,
            t.cursor@ == "#d8dee9"@,
            t.selection_background@ == "#434c5e"@,
            t.black@ == "#d8dee9"@,
            t.red@ == "#bf616a"@,
            t.green@ == "#a3be8c"@,
            t.yellow@ == "#ebcb8b"@,
            t.blue@ == "#81a1c1"@,
            t.magenta@ == "#b48ead"@,
            t.cyan@ == "#88c0d0"@,
            t.white@ == "#111111"@,
            t.bright_black@ == "#7b8496"@,
            t.bright_red@ == "#d57780"@,
            t.bright_green@ == "#b1d196"@,
            t.bright_yellow@ == "#f0d399"@,
            t.bright_blue@ == "#8faed0"@,
            t.bright_magenta@ == "#c19abb"@,
            t.bright_cyan@ == "#95ccdc"@,
            t.bright_white@ == "#111111"@,
    {
        XtermTheme {
            foreground: owned("#d8dee9"),
            background: owned("#111111"),
            cursor: owned("#d8dee9"),
            selection_background: owned("#434c5e"),
            black: owned("#d8dee9"),
            red: owned("#bf616a"),
            green: owned("#a3be8c"),
            yellow: owned("#ebcb8b"),
            blue: owned("#81a1c1"),
            magenta: owned("#b48ead"),
            cyan: owned("#88c0d0"),
            white: owned("#111111"),
            bright_black: owned("#7b8496"),
            bright_red: owned("#d57780"),
            bright_green: owned("#b1d196"),
            bright_yellow: owned("#f0d399"),
            bright_blue: owned("#8faed0"),
            bright_magenta: owned("#c19abb"),
            bright_cyan: owned("#95ccdc"),
            bright_white: owned("#111111"),
        }
    }
}

/// `f`, trimmed, added to the font families `fs` unless it is blank or
/// already there.
pub open spec fn add_family(fs: Seq<Seq<char>>, f: Seq<char>) -> Seq<Seq<char>> {
    let t = trim(f);
    if t.len() > 0 && !fs.contains(t) {
        fs.push(t)
    } else {
        fs
    }
}

/// The font families `xs` added to `fs` one after another.
pub open spec fn add_families(fs: Seq<Seq<char>>, xs: Seq<Seq<char>>) -> Seq<Seq<char>>
    decreases xs.len(),
{
    if xs.len() == 0 {
        fs
    } else {
        add_family(add_families(fs, xs.drop_last()), xs.last())
    }
}

/// The fonts tried last, for symbols.
pub open spec fn symbol_font_fallbacks() -> Seq<Seq<char>> {
    seq![
        "Symbols Nerd Font Mono"@,
        "Symbols Nerd Font"@,
        "Noto Sans Symbols 2"@,
        "Apple Symbols"@,
        "Segoe UI Symbol"@,
    ]
}

/// The font families of the web terminal: the terminal's font, its
/// fallbacks, then the symbol fonts, each trimmed, non-blank and once.
pub open spec fn font_families(font_family: Seq<char>, fallbacks: Seq<Seq<char>>) -> Seq<Seq<char>> {
    add_families(seq![], seq![font_family] + fallbacks + symbol_font_fallbacks())
}

/// A character as it is written inside a quoted CSS string.
pub open spec fn css_escape_char(c: char) -> Seq<char> {
    if c == '\\' {
        seq!['\\', '\\']
    } else if c == '"' {
        seq!['\\', '"']
    } else {
        seq![c]
    }
}

/// Text as it is written inside a quoted CSS string.
pub open spec fn css_escaped(s: Seq<char>) -> Seq<char>
    decreases s.len(),
{
    if s.len() == 0 {
        seq![]
    } else {
        css_escaped(s.drop_last()) + css_escape_char(s.last())
    }
}

/// Each family quoted and followed by `, `.
pub open spec fn quoted_families(fs: Seq<Seq<char>>) -> Seq<char>
    decreases fs.len(),
{
    if fs.len() == 0 {
        seq![]
    } else {
        quoted_families(fs.drop_last()) + seq!['"'] + css_escaped(fs.last()) + seq!['"', ',', ' ']
    }
}

/// The CSS `font-family` value of the web terminal: the quoted families,
/// then `monospace`.
pub open spec fn font_family_css(font_family: Seq<char>, fallbacks: Seq<Seq<char>>) -> Seq<char> {
    quoted_families(font_families(font_family, fallbacks)) + "monospace"@
}

/// Adds `family` to `families` as `add_family` says.
fn push_family(families: &mut Vec<String>, family: &str)
    ensures
        views(final(families)@) == add_family(views(old(families)@), family@),
{
    let t = trim_string(family);
    if t.as_str().is_empty() {
        return;
    }
    let mut i: usize = 0;
    while i < families.len()
        invariant
            0 <= i <= families@.len(),
            families@ == old(families)@,
            t@ == trim(family@),
            forall|j: int| 0 <= j < i ==> views(families@)[j] != t@,
        decreases families@.len() - i,
    {
        if str_eq(families[i].as_str(), t.as_str()) {
            assert(views(families@)[i as int] == t@);
            return;
        }
        i += 1;
    }
    let ghost before = views(families@);
    families.push(t);
    assert(views(families@) =~= before.push(trim(family@)));
}

/// Escapes `s` for a quoted CSS string and appends it to `out`.
fn push_css_escaped(out: &mut String, s: &str)
    ensures
        final(out)@ == old(out)@ + css_escaped(s@),
{
    let v = chars_of(s);
    let mut i: usize = 0;
    while i < v.len()
        invariant
            0 <= i <= v@.len(),
            v@ == s@,
            out@ == old(out)@ + css_escaped(v@.subrange(0, i as int)),
        decreases v@.len() - i,
    {
        let c = v[i];
        assert(v@.subrange(0, i + 1).drop_last() =~= v@.subrange(0, i as int));
        if c == '\\' {
            string_push(out, '\\');
            string_push(out, '\\');
        } else if c == '"' {
            string_push(out, '\\');
            string_push(out, '"');
        } else {
            string_push(out, c);
        }
        assert(out@ =~= old(out)@ + css_escaped(v@.subrange(0, i + 1)));
        i += 1;
    }
    assert(v@.subrange(0, v@.len() as int) =~= v@);
}

/// The CSS `font-family` value of the web terminal for a terminal font and
/// its fallbacks (see `font_family_css`).
pub fn xterm_font_family(font_family: &str, font_fallbacks: &[String]) -> (out: String)
    ensures
        out@ == font_family_css(font_family@, views(font_fallbacks@)),
{
    let ghost xs = seq![font_family@] + views(font_fallbacks@) + symbol_font_fallbacks();
    let mut families: Vec<String> = Vec::new();
    assert(views(families@) =~= Seq::<Seq<char>>::empty());
    push_family(&mut families, font_family);
    assert(views(families@) == add_families(seq![], xs.take(1))) by {
        assert(xs.take(1).drop_last() =~= Seq::<Seq<char>>::empty());
        assert(xs.take(1).last() == font_family@);
        assert(add_families(seq![], Seq::<Seq<char>>::empty()) == Seq::<Seq<char>>::empty());
    }
    let mut i: usize = 0;
    while i < font_fallbacks.len()
        invariant
            0 <= i <= font_fallbacks@.len(),
            xs == seq![font_family@] + views(font_fallbacks@) + symbol_font_fallbacks(),
            views(families@) == add_families(seq![], xs.take(1 + i)),
        decreases font_fallbacks@.len() - i,
    {
        assert(xs.take(1 + i + 1).drop_last() =~= xs.take(1 + i));
        assert(xs[1 + i] == font_fallbacks@[i as int]@);
        push_family(&mut families, font_fallbacks[i].as_str());
        i += 1;
    }
    let n = font_fallbacks.len();
    let symbols = ["Symbols Nerd Font Mono", "Symbols Nerd Font", "Noto Sans Symbols 2", "Apple Symbols", "Segoe UI Symbol"];
    let mut k: usize = 0;
    while k < 5
        invariant
            0 <= k <= 5,
            n == font_fallbacks@.len(),
            symbols@.len() == 5,
            forall|j: int| 0 <= j < 5 ==> (#[trigger] symbols@[j])@ == symbol_font_fallbacks()[j],
            xs == seq![font_family@] + views(font_fallbacks@) + symbol_font_fallbacks(),
            views(families@) == add_families(seq![], xs.take(1 + n + k)),
        decreases 5 - k,
    {
        assert(xs.take(1 + n + k + 1).drop_last() =~= xs.take(1 + n + k));
        assert(xs[1 + n + k] == symbol_font_fallbacks()[k as int]);
        push_family(&mut families, symbols[k]);
        k += 1;
    }
    assert(xs.take(1 + n + 5) =~= xs);
    let mut out = String::new();
    let mut j: usize = 0;
    while j < families.len()
        invariant
            0 <= j <= families@.len(),
            out@ == quoted_families(views(families@).take(j as int)),
        decreases families@.len() - j,
    {
        assert(views(families@).take(j + 1).drop_last() =~= views(families@).take(j as int));
        assert(views(families@).take(j + 1).last() == families@[j as int]@);
        string_push(&mut out, '"');
        push_css_escaped(&mut out, families[j].as_str());
        push_str(&mut out, "\", ");
        proof {
            reveal_strlit("\", ");
        }
        assert(out@ =~= quoted_families(views(families@).take(j + 1)));
        j += 1;
    }
    assert(views(families@).take(families@.len() as int) =~= views(families@));
    push_str(&mut out, "monospace");
    out
}

/// Each family listed is non-blank and listed once.
pub open spec fn families_ok(fs: Seq<Seq<char>>) -> bool {
    &&& forall|i: int| 0 <= i < fs.len() ==> (#[trigger] fs[i]).len() > 0
    &&& forall|i: int, j: int| 0 <= i < j < fs.len() ==> #[trigger] fs[i] != #[trigger] fs[j]
}

proof fn lemma_add_families_ok(fs: Seq<Seq<char>>, xs: Seq<Seq<char>>)
    requires
        families_ok(fs),
    ensures
        families_ok(add_families(fs, xs)),
    decreases xs.len(),
{
    if xs.len() > 0 {
        lemma_add_families_ok(fs, xs.drop_last());
        let prev = add_families(fs, xs.drop_last());
        let t = trim(xs.last());
        if t.len() > 0 && !prev.contains(t) {
            let next = prev.push(t);
            assert forall|i: int, j: int| 0 <= i < j < next.len() implies #[trigger] next[i] != #[trigger] next[j] by {
                if j == prev.len() {
                    assert(prev[i] == next[i]);
                    if next[i] == t {
                        assert(prev.contains(t));
                    }
                }
            }
        }
    }
}

/// The web terminal's font list names no family twice and no blank one.
pub proof fn law_font_families_are_distinct(font_family: Seq<char>, fallbacks: Seq<Seq<char>>)
    ensures
        families_ok(font_families(font_family, fallbacks)),
{
    lemma_add_families_ok(seq![], seq![font_family] + fallbacks + symbol_font_fallbacks());
}

} // verus!
