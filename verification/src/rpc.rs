//! The RPC correlation engine.
//!
//! Outbound calls register a correlation id in the pending table together
//! with a completion-slot token; the router fulfils the slot when the
//! matching response arrives.  The engine is driven by its owner, which
//! performs the actual send and the waiting: the engine itself decides, and
//! its decisions are verified — at most one pending entry per id, entries
//! gone after completion, timeout or disposal, and unknown responses
//! without effect.
use vstd::prelude::*;

use crate::data::Request;

verus! {

/// The deadline applied to a remote call when its caller names none.
pub const DEFAULT_TIMEOUT_MS: u64 = 10000;

/// A failure of a remote call, as data.
#[derive(Debug, Clone, PartialEq)]
pub enum RpcError {
    /// No sender is configured: the engine was never initialised, or was
    /// disposed.
    NotInitialized,
    /// The injected sender failed; carries the sender's own message.
    Send(String),
    /// The peer did not answer within the deadline.
    Timeout,
    /// The completion slot was torn down before an answer arrived.
    ChannelClosed,
    /// An inbound request named a command that is not installed.
    CommandNotFound,
}

impl RpcError {
    /// The human-readable text of this failure.
    pub fn message(&self) -> (m: String)
        ensures
            match self {
                RpcError::NotInitialized => m@ == "send_request is not initialized"@,
                RpcError::Send(e) => m@ == e@,
                RpcError::Timeout => m@ == "request timeout"@,
                RpcError::ChannelClosed => m@ == "response channel closed"@,
                RpcError::CommandNotFound => m@ == "command not found"@,
            },
    {
        match self {
            RpcError::NotInitialized => String::from_str("send_request is not initialized"),
            RpcError::Send(e) => e.clone(),
            RpcError::Timeout => String::from_str("request timeout"),
            RpcError::ChannelClosed => String::from_str("response channel closed"),
            RpcError::CommandNotFound => String::from_str("command not found"),
        }
    }
}

/// The correlation engine's state: whether a sender is configured, the
/// installed command names, and the pending table.  Completion slots and
/// command handlers are held by the owner, keyed by the tokens and indices
/// the engine hands out.
pub struct RpcEngine {
    /// Whether an injected sender is configured.
    pub sender_ready: bool,
    /// Installed command names, each at the index its handler occupies in
    /// the owner's handler table.
    pub commands: Vec<String>,
    /// The pending table: correlation id, and the token of its single-use
    /// completion slot.
    pub pending: Vec<(String, u64)>,
    /// Source of fresh slot tokens.
    pub next_token: u64,
}

impl RpcEngine {
    /// The pending table maps ids to tokens: no id twice, every token below
    /// the freshness bound, no token twice.
    pub open spec fn wf(self) -> bool {
        &&& forall|i: int, j: int|
            0 <= i < j < self.pending@.len() ==> (#[trigger] self.pending@[i]).0@ != (
            #[trigger] self.pending@[j]).0@
        &&& forall|i: int|
            0 <= i < self.pending@.len() ==> (#[trigger] self.pending@[i]).1 < self.next_token
        &&& forall|i: int, j: int|
            0 <= i < j < self.pending@.len() ==> (#[trigger] self.pending@[i]).1 != (
            #[trigger] self.pending@[j]).1
        &&& forall|i: int, j: int|
            0 <= i < j < self.commands@.len() ==> (#[trigger] self.commands@[i])@ != (
            #[trigger] self.commands@[j])@
    }

    /// Whether a call with correlation id `id` is awaiting its response.
    pub open spec fn has_pending(self, id: Seq<char>) -> bool {
        exists|i: int| 0 <= i < self.pending@.len() && (#[trigger] self.pending@[i]).0@ == id
    }

    /// The completion-slot token registered under `id`, if any.
    pub open spec fn lookup(self, id: Seq<char>) -> Option<u64> {
        if self.has_pending(id) {
            let i = choose|i: int|
                0 <= i < self.pending@.len() && (#[trigger] self.pending@[i]).0@ == id;
            Some(self.pending@[i].1)
        } else {
            None
        }
    }

    /// Whether a command handler is installed under `name`.
    pub open spec fn has_command(self, name: Seq<char>) -> bool {
        exists|i: int| 0 <= i < self.commands@.len() && (#[trigger] self.commands@[i])@ == name
    }

    /// A fresh engine: no sender, no commands, nothing pending.
    pub fn new() -> (e: Self)
        ensures
            e.wf(),
            !e.sender_ready,
            e.commands@.len() == 0,
            e.pending@.len() == 0,
    {
        RpcEngine { sender_ready: false, commands: Vec::new(), pending: Vec::new(), next_token: 0 }
    }

    /// Records that an injected sender is now configured.
    pub fn init(&mut self)
        requires
            old(self).wf(),
        ensures
            final(self).wf(),
            final(self).sender_ready,
            final(self).commands == old(self).commands,
            final(self).pending == old(self).pending,
            final(self).next_token == old(self).next_token,
    {
        self.sender_ready = true;
    }

    /// Clears the sender, the command table and the pending table.  Every
    /// call still awaiting completion loses its entry here, so its owner
    /// observes channel closure rather than hanging.
    pub fn dispose(&mut self)
        ensures
            final(self).wf(),
            !final(self).sender_ready,
            final(self).commands@.len() == 0,
            final(self).pending@.len() == 0,
            forall|id: Seq<char>| !final(self).has_pending(id),
    {
        self.sender_ready = false;
        self.commands.clear();
        self.pending.clear();
    }

    /// Installs `name` in the command table and says at which index the
    /// owner must store the handler: an existing name keeps its index (last
    /// writer wins at the owner), a new name is appended.
    #[verifier::loop_isolation(false)]
    pub fn add_command(&mut self, name: String) -> (r: (usize, bool))
        requires
            old(self).wf(),
        ensures
            final(self).wf(),
            final(self).sender_ready == old(self).sender_ready,
            final(self).pending == old(self).pending,
            final(self).next_token == old(self).next_token,
            final(self).has_command(name@),
            r.1 ==> final(self).commands == old(self).commands && r.0 < final(self).commands@.len()
                && (final(self).commands@[r.0 as int])@ == name@,
            !r.1 ==> final(self).commands@ == old(self).commands@.push(name) && r.0 == old(self).commands@.len(),
            forall|n: Seq<char>| #[trigger]
                final(self).has_command(n) == (old(self).has_command(n) || n == name@),
    {
        let ghost oldc = self.commands@;
        let mut i: usize = 0;
        while i < self.commands.len()
            invariant
                0 <= i <= self.commands@.len(),
                forall|j: int| 0 <= j < i ==> (#[trigger] self.commands@[j])@ != name@,
                self == old(self),
            decreases self.commands@.len() - i,
        {
            if self.commands[i] == name {
                proof {
                    assert forall|n: Seq<char>| #[trigger]
                        self.has_command(n) == (old(self).has_command(n) || n == name@) by {
                        if n == name@ {
                            assert((self.commands@[i as int])@ == n);
                        }
                    }
                }
                return (i, true);
            }
            i = i + 1;
        }
        self.commands.push(name);
        proof {
            assert((self.commands@[oldc.len() as int])@ == name@);
            assert forall|n: Seq<char>| #[trigger]
                self.has_command(n) == (old(self).has_command(n) || n == name@) by {
                if self.has_command(n) {
                    let w = choose|w: int|
                        0 <= w < self.commands@.len() && (#[trigger] self.commands@[w])@ == n;
                    if w < oldc.len() {
                        assert((oldc[w])@ == n);
                    }
                } else {
                    if old(self).has_command(n) {
                        let w = choose|w: int|
                            0 <= w < oldc.len() && (#[trigger] oldc[w])@ == n;
                        assert((self.commands@[w])@ == n);
                    }
                }
            }
        }
        (self.commands.len() - 1, false)
    }

    /// Answers an inbound request: the index of the installed handler for
    /// its command, or the command-not-found failure — never a panic.
    #[verifier::loop_isolation(false)]
    pub fn on_request(&self, request: &Request) -> (r: Result<usize, RpcError>)
        ensures
            match r {
                Ok(i) => i < self.commands@.len() && (self.commands@[i as int])@
                    == request@.command,
                Err(e) => e is CommandNotFound && !self.has_command(request@.command),
            },
    {
        let mut i: usize = 0;
        while i < self.commands.len()
            invariant
                0 <= i <= self.commands@.len(),
                forall|j: int| 0 <= j < i ==> (#[trigger] self.commands@[j])@ != request@.command,
            decreases self.commands@.len() - i,
        {
            if self.commands[i] == request.command {
                return Ok(i);
            }
            i = i + 1;
        }
        Err(RpcError::CommandNotFound)
    }

    /// Builds the outbound request for a remote call, or fails immediately
    /// when no sender is configured — without touching the pending table
    /// (the engine is not even borrowed mutably).
    pub fn call_remote_request(&self, command: &str, payload: Option<crate::json::JsonValue>) -> (r:
        Result<Request, RpcError>)
        ensures
            match r {
                Ok(q) => self.sender_ready && q@.command == command@ && q@.payload
                    == crate::data::opt_view(payload) && q@.id.len() == 36,
                Err(e) => e is NotInitialized && !self.sender_ready,
            },
    {
        if !self.sender_ready {
            return Err(RpcError::NotInitialized);
        }
        Ok(
            Request {
                id: crate::extern_specs::new_correlation_id(),
                command: String::from_str(command),
                payload,
            },
        )
    }

    /// Registers a completion slot for `id` after the request was sent, and
    /// hands out the slot's fresh token.  An entry already under `id` is
    /// replaced, so the table never holds two entries for one id.
    #[verifier::loop_isolation(false)]
    pub fn register_pending(&mut self, id: &String) -> (token: u64)
        requires
            old(self).wf(),
            old(self).next_token < u64::MAX,
        ensures
            final(self).wf(),
            final(self).sender_ready == old(self).sender_ready,
            final(self).commands == old(self).commands,
            final(self).has_pending(id@),
            final(self).lookup(id@) == Some(token),
            forall|id2: Seq<char>|
                id2 != id@ ==> #[trigger] final(self).has_pending(id2) == old(self).has_pending(id2),
            forall|id2: Seq<char>|
                id2 != id@ ==> #[trigger] final(self).lookup(id2) == old(self).lookup(id2),
    {
        let token = self.next_token;
        self.next_token = self.next_token + 1;
        let ghost oldp = self.pending@;
        let mut i: usize = 0;
        while i < self.pending.len()
            invariant
                0 <= i <= self.pending@.len(),
                forall|j: int| 0 <= j < i ==> (#[trigger] self.pending@[j]).0@ != id@,
                self.pending == old(self).pending,
                self.next_token == old(self).next_token + 1,
                token == old(self).next_token,
                self.sender_ready == old(self).sender_ready,
                self.commands == old(self).commands,
            decreases self.pending@.len() - i,
        {
            if self.pending[i].0 == *id {
                let ghost idx = i as int;
                self.pending[i].1 = token;
                proof {
                    lemma_first_match(self.pending@, id@, idx);
                    assert(self.lookup(id@) == Some(token));
                    assert forall|id2: Seq<char>|
                        id2 != id@ implies #[trigger] self.has_pending(id2) == old(
                        self,
                    ).has_pending(id2) by {
                        lemma_same_ids(oldp, self.pending@, id2);
                    }
                    assert forall|id2: Seq<char>|
                        id2 != id@ implies #[trigger] self.lookup(id2) == old(self).lookup(id2) by {
                        lemma_same_lookup(oldp, self.pending@, id2);
                    }
                }
                return token;
            }
            i = i + 1;
        }
        self.pending.push((id.clone(), token));
        proof {
            let n = oldp.len() as int;
            assert((self.pending@[n]).0@ == id@);
            lemma_first_match(self.pending@, id@, n);
            assert(self.lookup(id@) == Some(token));
            assert forall|id2: Seq<char>|
                id2 != id@ implies #[trigger] self.has_pending(id2) == old(self).has_pending(
                id2,
            ) by {
                lemma_same_ids_push(oldp, self.pending@, id2);
            }
            assert forall|id2: Seq<char>|
                id2 != id@ implies #[trigger] self.lookup(id2) == old(self).lookup(id2) by {
                lemma_same_lookup_push(oldp, self.pending@, id2);
            }
        }
        token
    }

    /// Takes the completion slot registered under `id`, if any: the router
    /// calls this for every inbound response, and the call owner calls it on
    /// timeout or channel closure.  A response whose id was never registered
    /// (or already completed) returns `None` and changes nothing.
    #[verifier::loop_isolation(false)]
    pub fn remove_pending(&mut self, id: &String) -> (r: Option<u64>)
        requires
            old(self).wf(),
        ensures
            final(self).wf(),
            final(self).sender_ready == old(self).sender_ready,
            final(self).commands == old(self).commands,
            final(self).next_token == old(self).next_token,
            r == old(self).lookup(id@),
            !final(self).has_pending(id@),
            r is None ==> *final(self) == *old(self),
            forall|id2: Seq<char>|
                id2 != id@ ==> #[trigger] final(self).has_pending(id2) == old(self).has_pending(id2),
            forall|id2: Seq<char>|
                id2 != id@ ==> #[trigger] final(self).lookup(id2) == old(self).lookup(id2),
    {
        let ghost oldp = self.pending@;
        let mut i: usize = 0;
        while i < self.pending.len()
            invariant
                0 <= i <= self.pending@.len(),
                forall|j: int| 0 <= j < i ==> (#[trigger] self.pending@[j]).0@ != id@,
                self == old(self),
            decreases self.pending@.len() - i,
        {
            if self.pending[i].0 == *id {
                let ghost idx = i as int;
                let entry = self.pending.remove(i);
                proof {
                    lemma_first_match(oldp, id@, idx);
                    assert(old(self).lookup(id@) == Some(oldp[idx].1));
                    assert(self.pending@ == oldp.remove(idx));
                    assert forall|id2: Seq<char>| !(self.has_pending(id2) && id2 == id@) by {
                        if self.has_pending(id2) && id2 == id@ {
                            let w = choose|w: int|
                                0 <= w < self.pending@.len() && (#[trigger] self.pending@[w]).0@
                                    == id2;
                            if w < idx {
                                assert(oldp[w].0@ == id@);
                            } else {
                                assert(oldp[w + 1].0@ == id@);
                            }
                        }
                    }
                    assert forall|id2: Seq<char>|
                        id2 != id@ implies #[trigger] self.has_pending(id2) == old(
                        self,
                    ).has_pending(id2) by {
                        lemma_same_ids_remove(oldp, self.pending@, idx, id2);
                    }
                    assert forall|id2: Seq<char>|
                        id2 != id@ implies #[trigger] self.lookup(id2) == old(self).lookup(id2) by {
                        lemma_same_lookup_remove(oldp, self.pending@, idx, id2);
                    }
                }
                return Some(entry.1);
            }
            i = i + 1;
        }
        None
    }

    /// Handles an inbound response: takes the matching completion slot, if
    /// the id is known; a late, duplicate or foreign response is discarded.
    pub fn on_response(&mut self, id: &String) -> (r: Option<u64>)
        requires
            old(self).wf(),
        ensures
            final(self).wf(),
            r == old(self).lookup(id@),
            !final(self).has_pending(id@),
            r is None ==> *final(self) == *old(self),
            forall|id2: Seq<char>|
                id2 != id@ ==> #[trigger] final(self).lookup(id2) == old(self).lookup(id2),
    {
        self.remove_pending(id)
    }
}

/// At most one pending entry exists per correlation id: in a well-formed
/// engine, two table positions holding the same id are the same position.
pub proof fn lemma_pending_at_most_one(e: RpcEngine, id: Seq<char>, i: int, j: int)
    requires
        e.wf(),
        0 <= i < e.pending@.len(),
        0 <= j < e.pending@.len(),
        e.pending@[i].0@ == id,
        e.pending@[j].0@ == id,
    ensures
        i == j,
{
    lemma_first_match(e.pending@, id, i);
}

/// In a well-formed table every index holding `id` is the chosen one.
pub proof fn lemma_first_match(p: Seq<(String, u64)>, id: Seq<char>, idx: int)
    requires
        0 <= idx < p.len(),
        p[idx].0@ == id,
        forall|i: int, j: int|
            0 <= i < j < p.len() ==> (#[trigger] p[i]).0@ != (#[trigger] p[j]).0@,
    ensures
        forall|i: int| 0 <= i < p.len() && (#[trigger] p[i]).0@ == id ==> i == idx,
{
    assert forall|i: int| 0 <= i < p.len() && (#[trigger] p[i]).0@ == id implies i == idx by {
        if i < idx {
            assert(p[i].0@ != p[idx].0@);
        } else if i > idx {
            assert(p[idx].0@ != p[i].0@);
        }
    }
}

proof fn lemma_same_ids(a: Seq<(String, u64)>, b: Seq<(String, u64)>, id: Seq<char>)
    requires
        a.len() == b.len(),
        forall|i: int| 0 <= i < a.len() ==> (#[trigger] a[i]).0@ == (#[trigger] b[i]).0@,
    ensures
        (exists|i: int| 0 <= i < a.len() && (#[trigger] a[i]).0@ == id) == (exists|i: int|
            0 <= i < b.len() && (#[trigger] b[i]).0@ == id),
{
    if exists|i: int| 0 <= i < a.len() && (#[trigger] a[i]).0@ == id {
        let w = choose|i: int| 0 <= i < a.len() && (#[trigger] a[i]).0@ == id;
        assert(b[w].0@ == id);
    }
    if exists|i: int| 0 <= i < b.len() && (#[trigger] b[i]).0@ == id {
        let w = choose|i: int| 0 <= i < b.len() && (#[trigger] b[i]).0@ == id;
        assert(a[w].0@ == id);
    }
}

proof fn lemma_same_lookup(a: Seq<(String, u64)>, b: Seq<(String, u64)>, id: Seq<char>)
    requires
        a.len() == b.len(),
        forall|i: int, j: int|
            0 <= i < j < a.len() ==> (#[trigger] a[i]).0@ != (#[trigger] a[j]).0@,
        forall|i: int| 0 <= i < a.len() ==> (#[trigger] a[i]).0@ == (#[trigger] b[i]).0@,
        forall|i: int| 0 <= i < a.len() && (#[trigger] a[i]).0@ == id ==> a[i] == b[i],
    ensures
        spec_lookup(a, id) == spec_lookup(b, id),
{
    lemma_same_ids(a, b, id);
    if exists|i: int| 0 <= i < a.len() && (#[trigger] a[i]).0@ == id {
        let w1 = choose|i: int| 0 <= i < a.len() && (#[trigger] a[i]).0@ == id;
        let w2 = choose|i: int| 0 <= i < b.len() && (#[trigger] b[i]).0@ == id;
        assert(a[w2].0@ == id);
        lemma_first_match(a, id, w1);
        assert(w2 == w1);
        assert(a[w1] == b[w1]);
        assert(spec_lookup(a, id) == Some(a[w1].1));
        assert(0 <= w2 < b.len() && b[w2].0@ == id);
        assert forall|i: int, j: int|
            0 <= i < j < b.len() implies (#[trigger] b[i]).0@ != (#[trigger] b[j]).0@ by {
            assert(a[i].0@ == b[i].0@);
            assert(a[j].0@ == b[j].0@);
        }
        lemma_first_match(b, id, w2);
        assert(spec_lookup(b, id) == Some(b[w2].1));
    }
}

/// The token under `id` in a raw pending table; meaningful when ids are
/// unique.
pub open spec fn spec_lookup(p: Seq<(String, u64)>, id: Seq<char>) -> Option<u64> {
    if exists|i: int| 0 <= i < p.len() && (#[trigger] p[i]).0@ == id {
        Some(p[choose|i: int| 0 <= i < p.len() && (#[trigger] p[i]).0@ == id].1)
    } else {
        None
    }
}

proof fn lemma_same_ids_push(a: Seq<(String, u64)>, b: Seq<(String, u64)>, id: Seq<char>)
    requires
        b.len() == a.len() + 1,
        forall|i: int| 0 <= i < a.len() ==> a[i] == b[i],
        b[a.len() as int].0@ != id,
    ensures
        (exists|i: int| 0 <= i < a.len() && (#[trigger] a[i]).0@ == id) == (exists|i: int|
            0 <= i < b.len() && (#[trigger] b[i]).0@ == id),
{
    if exists|i: int| 0 <= i < a.len() && (#[trigger] a[i]).0@ == id {
        let w = choose|i: int| 0 <= i < a.len() && (#[trigger] a[i]).0@ == id;
        assert(b[w].0@ == id);
    }
    if exists|i: int| 0 <= i < b.len() && (#[trigger] b[i]).0@ == id {
        let w = choose|i: int| 0 <= i < b.len() && (#[trigger] b[i]).0@ == id;
        assert(w < a.len());
        assert(a[w].0@ == id);
    }
}

proof fn lemma_same_lookup_push(a: Seq<(String, u64)>, b: Seq<(String, u64)>, id: Seq<char>)
    requires
        b.len() == a.len() + 1,
        forall|i: int, j: int|
            0 <= i < j < a.len() ==> (#[trigger] a[i]).0@ != (#[trigger] a[j]).0@,
        forall|i: int| 0 <= i < a.len() ==> a[i] == b[i],
        b[a.len() as int].0@ != id,
    ensures
        spec_lookup(a, id) == spec_lookup(b, id),
{
    lemma_same_ids_push(a, b, id);
    if exists|i: int| 0 <= i < a.len() && (#[trigger] a[i]).0@ == id {
        let w1 = choose|i: int| 0 <= i < a.len() && (#[trigger] a[i]).0@ == id;
        let w2 = choose|i: int| 0 <= i < b.len() && (#[trigger] b[i]).0@ == id;
        assert(w2 < a.len());
        assert(a[w2].0@ == id);
        lemma_first_match(a, id, w1);
        assert(w2 == w1);
        assert(b[w1].0@ == id);
        assert(b[w1] == a[w1]);
    }
}

proof fn lemma_same_ids_remove(a: Seq<(String, u64)>, b: Seq<(String, u64)>, idx: int, id: Seq<
    char,
>)
    requires
        0 <= idx < a.len(),
        b == a.remove(idx),
        a[idx].0@ != id,
    ensures
        (exists|i: int| 0 <= i < a.len() && (#[trigger] a[i]).0@ == id) == (exists|i: int|
            0 <= i < b.len() && (#[trigger] b[i]).0@ == id),
{
    if exists|i: int| 0 <= i < a.len() && (#[trigger] a[i]).0@ == id {
        let w = choose|i: int| 0 <= i < a.len() && (#[trigger] a[i]).0@ == id;
        if w < idx {
            assert(b[w].0@ == id);
        } else {
            assert(w > idx);
            assert(b[w - 1].0@ == id);
        }
    }
    if exists|i: int| 0 <= i < b.len() && (#[trigger] b[i]).0@ == id {
        let w = choose|i: int| 0 <= i < b.len() && (#[trigger] b[i]).0@ == id;
        if w < idx {
            assert(a[w].0@ == id);
        } else {
            assert(a[w + 1].0@ == id);
        }
    }
}

proof fn lemma_same_lookup_remove(a: Seq<(String, u64)>, b: Seq<(String, u64)>, idx: int, id: Seq<
    char,
>)
    requires
        0 <= idx < a.len(),
        b == a.remove(idx),
        a[idx].0@ != id,
        forall|i: int, j: int|
            0 <= i < j < a.len() ==> (#[trigger] a[i]).0@ != (#[trigger] a[j]).0@,
    ensures
        spec_lookup(a, id) == spec_lookup(b, id),
{
    lemma_same_ids_remove(a, b, idx, id);
    if exists|i: int| 0 <= i < a.len() && (#[trigger] a[i]).0@ == id {
        let w1 = choose|i: int| 0 <= i < a.len() && (#[trigger] a[i]).0@ == id;
        let w2 = choose|i: int| 0 <= i < b.len() && (#[trigger] b[i]).0@ == id;
        lemma_first_match(a, id, w1);
        if w2 < idx {
            assert(a[w2].0@ == id);
            assert(w2 == w1);
            assert(a[w2] == b[w2]);
        } else {
            assert(a[w2 + 1].0@ == id);
            assert(w2 + 1 == w1);
            assert(a[w2 + 1] == b[w2]);
        }
    }
}

/// A response whose id is no longer (or was never) in the table finds no
/// completion slot: a late answer after a timeout, a duplicate after
/// fulfilment, and a foreign id are all discarded without effect.
pub proof fn lemma_late_response_discarded(e: RpcEngine, id: Seq<char>)
    requires
        !e.has_pending(id),
    ensures
        e.lookup(id) is None,
{
}

} // verus!
