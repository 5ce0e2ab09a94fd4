//! The bookkeeping a conversation hub keeps between the events a
//! conversation emits and the answers its clients send back: which approval,
//! user input and dynamic tool requests are waiting for an answer, and the
//! latest history replay for listeners that join late. Each request is
//! answered at most once; an answer to anything else is refused. Running the
//! conversation and broadcasting its events is left to the caller.
use vstd::prelude::*;

use crate::keyed_list::{distinct_keys, keyed_map, set_key, take_key};
use crate::text::str_eq;

verus! {

/// Which kind of approval a request asks for.
#[derive(Debug, Clone, Copy, PartialEq, Eq, Structural)]
pub enum ApprovalKind {
    Exec,
    Patch,
}

/// What the hub needs to know of an event.
#[derive(Debug, Clone)]
pub enum HubEvent {
    ExecApprovalRequest { call_id: String },
    ApplyPatchApprovalRequest { call_id: String },
    DynamicToolCallRequest { call_id: String },
    RequestUserInput { call_id: String },
    ReplayHistory,
    Other,
}

/// An answer that matches no waiting request.
#[derive(Debug, Clone, Copy, PartialEq, Eq, Structural)]
pub enum HubError {
    UnknownApproval,
    UnknownDynamicTool,
    UnknownUserInput,
}

impl HubError {
    /// The text the client is answered with.
    pub fn message(&self) -> (s: &'static str)
        ensures
            s@ == hub_error_text(*self),
    {
        match self {
            HubError::UnknownApproval => "unknown approval request",
            HubError::UnknownDynamicTool => "unknown dynamic tool request",
            HubError::UnknownUserInput => "unknown user input request",
        }
    }
}

/// The text of a hub error.
pub open spec fn hub_error_text(e: HubError) -> Seq<char> {
    match e {
        HubError::UnknownApproval => "unknown approval request"@,
        HubError::UnknownDynamicTool => "unknown dynamic tool request"@,
        HubError::UnknownUserInput => "unknown user input request"@,
    }
}

/// The call ids of a list.
pub open spec fn ids_set(s: Seq<String>) -> Set<Seq<char>> {
    Set::new(|k: Seq<char>| exists|i: int| 0 <= i < s.len() && s[i]@ == k)
}

/// No id occurs twice.
pub open spec fn distinct_ids(s: Seq<String>) -> bool {
    forall|i: int, j: int| 0 <= i < j < s.len() ==> s[i]@ != s[j]@
}

fn find_id(s: &Vec<String>, id: &str) -> (r: Option<usize>)
    ensures
        match r {
            Some(i) => i < s@.len() && s@[i as int]@ == id@,
            None => forall|i: int| 0 <= i < s@.len() ==> s@[i]@ != id@,
        },
{
    let mut i: usize = 0;
    while i < s.len()
        invariant
            i <= s@.len(),
            forall|j: int| 0 <= j < i ==> s@[j]@ != id@,
        decreases s@.len() - i,
    {
        if str_eq(s[i].as_str(), id) {
            return Some(i);
        }
        i = i + 1;
    }
    None
}

/// Adds `id` to a list of distinct ids unless it is there.
fn insert_id(s: &mut Vec<String>, id: String)
    requires
        distinct_ids(old(s)@),
    ensures
        distinct_ids(final(s)@),
        ids_set(final(s)@) == ids_set(old(s)@).insert(id@),
{
    let ghost s0 = s@;
    match find_id(s, id.as_str()) {
        Some(i) => {
            proof {
                assert(ids_set(s0).insert(id@) =~= ids_set(s0));
            }
        },
        None => {
            s.push(id);
            proof {
                assert(s@.drop_last() == s0);
                assert forall|a: int, b: int| 0 <= a < b < s@.len() implies s@[a]@ != s@[b]@ by {
                    if b == s0.len() {
                        assert(s0[a]@ != s@[b]@);
                    } else {
                        assert(s0[a]@ != s0[b]@);
                    }
                }
                assert forall|k: Seq<char>| ids_set(s@).contains(k) == ids_set(s0).insert(s@.last()@).contains(k) by {
                    if ids_set(s0).contains(k) {
                        let i = choose|i: int| 0 <= i < s0.len() && s0[i]@ == k;
                        assert(s@[i]@ == k);
                    }
                    if ids_set(s@).contains(k) {
                        let i = choose|i: int| 0 <= i < s@.len() && s@[i]@ == k;
                        if i < s0.len() {
                            assert(s0[i]@ == k);
                        }
                    }
                }
                assert(ids_set(s@) =~= ids_set(s0).insert(s@.last()@));
            }
        },
    }
}

/// Removes `id` from a list of distinct ids; whether it was there.
fn remove_id(s: &mut Vec<String>, id: &str) -> (found: bool)
    requires
        distinct_ids(old(s)@),
    ensures
        distinct_ids(final(s)@),
        found == ids_set(old(s)@).contains(id@),
        ids_set(final(s)@) == ids_set(old(s)@).remove(id@),
{
    let ghost s0 = s@;
    match find_id(s, id) {
        Some(i) => {
            s.remove(i);
            proof {
                assert(ids_set(s0).contains(id@)) by {
                    assert(s0[i as int]@ == id@);
                }
                assert forall|a: int, b: int| 0 <= a < b < s@.len() implies s@[a]@ != s@[b]@ by {
                    let a0 = if a < i { a } else { a + 1 };
                    let b0 = if b < i { b } else { b + 1 };
                    assert(s@[a] == s0[a0] && s@[b] == s0[b0]);
                }
                assert forall|k: Seq<char>| ids_set(s@).contains(k) == ids_set(s0).remove(id@).contains(k) by {
                    if ids_set(s@).contains(k) {
                        let x = choose|x: int| 0 <= x < s@.len() && s@[x]@ == k;
                        let x0 = if x < i { x } else { x + 1 };
                        assert(s0[x0]@ == k);
                        assert(x0 != i);
                        assert(k != id@);
                    }
                    if ids_set(s0).remove(id@).contains(k) {
                        let x = choose|x: int| 0 <= x < s0.len() && s0[x]@ == k;
                        assert(x != i);
                        if x < i {
                            assert(s@[x]@ == k);
                        } else {
                            assert(s@[x - 1]@ == k);
                        }
                    }
                }
                assert(ids_set(s@) =~= ids_set(s0).remove(id@));
            }
            true
        },
        None => {
            proof {
                assert(!ids_set(s0).contains(id@));
                assert(ids_set(s0).remove(id@) =~= ids_set(s0));
            }
            false
        },
    }
}

/// The requests waiting for an answer.
pub struct PendingRequests {
    approvals: Vec<(String, ApprovalKind)>,
    user_inputs: Vec<String>,
    dynamic_tools: Vec<String>,
}

impl PendingRequests {
    /// Approval requests by call id.
    pub closed spec fn approvals(&self) -> Map<Seq<char>, ApprovalKind> {
        keyed_map(self.approvals@)
    }

    /// Call ids of the user input requests.
    pub closed spec fn user_inputs(&self) -> Set<Seq<char>> {
        ids_set(self.user_inputs@)
    }

    /// Call ids of the dynamic tool requests.
    pub closed spec fn dynamic_tools(&self) -> Set<Seq<char>> {
        ids_set(self.dynamic_tools@)
    }

    /// No call id is listed twice.
    pub closed spec fn wf(&self) -> bool {
        &&& distinct_keys(self.approvals@)
        &&& distinct_ids(self.user_inputs@)
        &&& distinct_ids(self.dynamic_tools@)
    }

    /// Nothing waiting.
    pub fn new() -> (p: Self)
        ensures
            p.wf(),
            p.approvals() == Map::<Seq<char>, ApprovalKind>::empty(),
            p.user_inputs() == Set::<Seq<char>>::empty(),
            p.dynamic_tools() == Set::<Seq<char>>::empty(),
    {
        let p = PendingRequests { approvals: Vec::new(), user_inputs: Vec::new(), dynamic_tools: Vec::new() };
        proof {
            assert(ids_set(p.user_inputs@) =~= Set::<Seq<char>>::empty());
            assert(ids_set(p.dynamic_tools@) =~= Set::<Seq<char>>::empty());
        }
        p
    }

    /// Records the request an event makes, if it makes one.
    pub fn track(&mut self, event: &HubEvent)
        requires
            old(self).wf(),
        ensures
            final(self).wf(),
            match event {
                HubEvent::ExecApprovalRequest { call_id } => {
                    &&& final(self).approvals() == old(self).approvals().insert(call_id@, ApprovalKind::Exec)
                    &&& final(self).user_inputs() == old(self).user_inputs()
                    &&& final(self).dynamic_tools() == old(self).dynamic_tools()
                },
                HubEvent::ApplyPatchApprovalRequest { call_id } => {
                    &&& final(self).approvals() == old(self).approvals().insert(call_id@, ApprovalKind::Patch)
                    &&& final(self).user_inputs() == old(self).user_inputs()
                    &&& final(self).dynamic_tools() == old(self).dynamic_tools()
                },
                HubEvent::DynamicToolCallRequest { call_id } => {
                    &&& final(self).approvals() == old(self).approvals()
                    &&& final(self).user_inputs() == old(self).user_inputs()
                    &&& final(self).dynamic_tools() == old(self).dynamic_tools().insert(call_id@)
                },
                HubEvent::RequestUserInput { call_id } => {
                    &&& final(self).approvals() == old(self).approvals()
                    &&& final(self).user_inputs() == old(self).user_inputs().insert(call_id@)
                    &&& final(self).dynamic_tools() == old(self).dynamic_tools()
                },
                _ => {
                    &&& final(self).approvals() == old(self).approvals()
                    &&& final(self).user_inputs() == old(self).user_inputs()
                    &&& final(self).dynamic_tools() == old(self).dynamic_tools()
                },
            },
    {
        match event {
            HubEvent::ExecApprovalRequest { call_id } => {
                set_key(&mut self.approvals, crate::text::clone_string(call_id), ApprovalKind::Exec);
            },
            HubEvent::ApplyPatchApprovalRequest { call_id } => {
                set_key(&mut self.approvals, crate::text::clone_string(call_id), ApprovalKind::Patch);
            },
            HubEvent::DynamicToolCallRequest { call_id } => {
                let mut ids: Vec<String> = Vec::new();
                std::mem::swap(&mut ids, &mut self.dynamic_tools);
                insert_id(&mut ids, crate::text::clone_string(call_id));
                self.dynamic_tools = ids;
            },
            HubEvent::RequestUserInput { call_id } => {
                let mut ids: Vec<String> = Vec::new();
                std::mem::swap(&mut ids, &mut self.user_inputs);
                insert_id(&mut ids, crate::text::clone_string(call_id));
                self.user_inputs = ids;
            },
            _ => {},
        }
    }

    /// Takes the approval request with this call id: its kind, or an error
    /// when none is waiting.
    pub fn resolve_approval(&mut self, call_id: &str) -> (r: Result<ApprovalKind, HubError>)
        requires
            old(self).wf(),
        ensures
            final(self).wf(),
            final(self).approvals() == old(self).approvals().remove(call_id@),
            final(self).user_inputs() == old(self).user_inputs(),
            final(self).dynamic_tools() == old(self).dynamic_tools(),
            match r {
                Ok(k) => old(self).approvals().contains_key(call_id@) && old(self).approvals()[call_id@] == k,
                Err(e) => !old(self).approvals().contains_key(call_id@) && e == HubError::UnknownApproval,
            },
    {
        match take_key(&mut self.approvals, call_id) {
            Some(kind) => Ok(kind),
            None => Err(HubError::UnknownApproval),
        }
    }

    /// Takes the user input request with this call id, or refuses.
    pub fn resolve_user_input(&mut self, call_id: &str) -> (r: Result<(), HubError>)
        requires
            old(self).wf(),
        ensures
            final(self).wf(),
            final(self).approvals() == old(self).approvals(),
            final(self).user_inputs() == old(self).user_inputs().remove(call_id@),
            final(self).dynamic_tools() == old(self).dynamic_tools(),
            r is Ok == old(self).user_inputs().contains(call_id@),
            r matches Err(e) ==> e == HubError::UnknownUserInput,
    {
        let mut ids: Vec<String> = Vec::new();
        std::mem::swap(&mut ids, &mut self.user_inputs);
        let found = remove_id(&mut ids, call_id);
        self.user_inputs = ids;
        if found {
            Ok(())
        } else {
            Err(HubError::UnknownUserInput)
        }
    }

    /// Takes the dynamic tool request with this call id, or refuses.
    pub fn resolve_dynamic_tool(&mut self, call_id: &str) -> (r: Result<(), HubError>)
        requires
            old(self).wf(),
        ensures
            final(self).wf(),
            final(self).approvals() == old(self).approvals(),
            final(self).user_inputs() == old(self).user_inputs(),
            final(self).dynamic_tools() == old(self).dynamic_tools().remove(call_id@),
            r is Ok == old(self).dynamic_tools().contains(call_id@),
            r matches Err(e) ==> e == HubError::UnknownDynamicTool,
    {
        let mut ids: Vec<String> = Vec::new();
        std::mem::swap(&mut ids, &mut self.dynamic_tools);
        let found = remove_id(&mut ids, call_id);
        self.dynamic_tools = ids;
        if found {
            Ok(())
        } else {
            Err(HubError::UnknownDynamicTool)
        }
    }
}

/// The replay event a late listener gets: the latest history replay seen.
pub fn capture_replay_history<E>(cached: Option<E>, is_replay: bool, event: E) -> (r: Option<E>)
    ensures
        r == if is_replay {
            Some(event)
        } else {
            cached
        },
{
    if is_replay {
        Some(event)
    } else {
        cached
    }
}

/// A request is answered once: right after it is tracked, an answer to it
/// is accepted (an approval resolving to its kind) and takes it off the
/// waiting list, so a second answer is refused. This holds of approvals
/// and of user input and dynamic tool requests alike.
pub proof fn law_request_answered_once(
    approvals: Map<Seq<char>, ApprovalKind>,
    waiting: Set<Seq<char>>,
    call_id: Seq<char>,
    kind: ApprovalKind,
)
    ensures
        approvals.insert(call_id, kind).contains_key(call_id),
        approvals.insert(call_id, kind)[call_id] == kind,
        !approvals.insert(call_id, kind).remove(call_id).contains_key(call_id),
        waiting.insert(call_id).contains(call_id),
        !waiting.insert(call_id).remove(call_id).contains(call_id),
{
}

} // verus!
