//! The requests for consent that wait for the operator of this node.

use vstd::prelude::*;

verus! {

/// What the operator decided about a peer that asked to connect.
#[derive(Debug, Clone, Copy, PartialEq, Eq, Structural)]
pub enum ConsentDecision {
    Pending,
    ApprovedOnce,
    ApprovedAndTrusted,
    Denied,
}

/// A request for consent that waits for the operator.
#[derive(Debug, Clone)]
pub struct PendingConsent {
    pub session_id: String,
    pub peer_pubkey: String,
    pub peer_name: String,
    pub quota: u64,
    /// When the request was made, in seconds since the epoch.
    pub created_at: u64,
}

/// Why the consent manager refuses a request.
#[derive(Debug, Clone, Copy, PartialEq, Eq, Structural)]
pub enum ConsentError {
    /// No request with this session id is pending.
    UnknownSession,
}

/// How long a handshake may wait, in seconds; a request for consent that
/// is older counts as denied.
pub const HANDSHAKE_TIMEOUT_SECS: u64 = 30;

/// The position of the request with this session id, if one is pending.
pub open spec fn position_of(pending: Seq<PendingConsent>, session_id: Seq<char>) -> Option<int>
    decreases pending.len(),
{
    if pending.len() == 0 {
        None
    } else if pending[0].session_id@ == session_id {
        Some(0)
    } else {
        match position_of(pending.drop_first(), session_id) {
            Some(i) => Some(i + 1),
            None => None,
        }
    }
}

/// No two requests have the same session id.
pub open spec fn distinct_sessions(pending: Seq<PendingConsent>) -> bool {
    forall|i: int, j: int|
        0 <= i < j < pending.len() ==>
            (#[trigger] pending[i]).session_id@ != (#[trigger] pending[j]).session_id@
}

/// Whether a request is older than a handshake may wait.
pub open spec fn is_overdue(request: PendingConsent, now: u64) -> bool {
    now >= request.created_at && now - request.created_at >= HANDSHAKE_TIMEOUT_SECS
}

/// The position that `position_of` names holds a request with the session
/// id, and no earlier position does; without a position no request has it.
pub proof fn lemma_position_of(pending: Seq<PendingConsent>, session_id: Seq<char>)
    ensures
        match position_of(pending, session_id) {
            Some(i) => {
                &&& 0 <= i < pending.len()
                &&& pending[i].session_id@ == session_id
                &&& forall|j: int| 0 <= j < i ==> (#[trigger] pending[j]).session_id@ != session_id
            },
            None => forall|j: int|
                0 <= j < pending.len() ==> (#[trigger] pending[j]).session_id@ != session_id,
        },
    decreases pending.len(),
{
    if pending.len() > 0 && pending[0].session_id@ != session_id {
        let rest = pending.drop_first();
        lemma_position_of(rest, session_id);
        match position_of(rest, session_id) {
            Some(i) => {
                assert forall|j: int|
                    0 <= j < i + 1 implies (#[trigger] pending[j]).session_id@ != session_id by {
                    if j > 0 {
                        assert(pending[j] == rest[j - 1]);
                    }
                }
                assert(pending[i + 1] == rest[i]);
            },
            None => {
                assert forall|j: int|
                    0 <= j < pending.len() implies
                        (#[trigger] pending[j]).session_id@ != session_id by {
                    if j > 0 {
                        assert(pending[j] == rest[j - 1]);
                    }
                }
            },
        }
    }
}

/// The requests for consent that wait for the operator, each under its
/// own session id.
pub struct ConsentManager {
    pending: Vec<PendingConsent>,
}

impl ConsentManager {
    /// The pending requests, in the order in which they were made.
    pub closed spec fn pending(&self) -> Seq<PendingConsent> {
        self.pending@
    }

    /// What holds of every manager: no two requests share a session id.
    pub open spec fn wf(&self) -> bool {
        distinct_sessions(self.pending())
    }

    /// A manager without requests.
    pub fn new() -> (manager: ConsentManager)
        ensures
            manager.wf(),
            manager.pending() == Seq::<PendingConsent>::empty(),
    {
        ConsentManager { pending: Vec::new() }
    }

    /// The position of the request with this session id, if one is pending.
    #[verifier::loop_isolation(false)]
    fn find(&self, session_id: &str) -> (found: Option<usize>)
        ensures
            found.is_some() == position_of(self.pending(), session_id@).is_some(),
            found.is_some() ==> ({
                &&& found.unwrap() as int == position_of(self.pending(), session_id@).unwrap()
                &&& found.unwrap() < self.pending().len()
            }),
    {
        let wanted = session_id.to_owned();
        let mut i: usize = 0;
        proof {
            lemma_position_of(self.pending(), session_id@);
        }
        while i < self.pending.len()
            invariant
                i <= self.pending@.len(),
                wanted@ == session_id@,
                forall|j: int|
                    0 <= j < i ==> (#[trigger] self.pending@[j]).session_id@ != session_id@,
            decreases self.pending@.len() - i,
        {
            if self.pending[i].session_id == wanted {
                return Some(i);
            }
            i = i + 1;
        }
        None
    }

    /// Enters a request for consent. An earlier request under the same
    /// session id is replaced; any other is added at the end.
    #[verifier::rlimit(40)]
    pub fn request_consent(
        &mut self,
        session_id: String,
        peer_pubkey: String,
        peer_name: String,
        quota: u64,
        now: u64,
    )
        requires
            old(self).wf(),
        ensures
            final(self).wf(),
            position_of(final(self).pending(), session_id@).is_some(),
            request_is(
                final(self).pending()[position_of(final(self).pending(), session_id@).unwrap()],
                session_id@,
                peer_pubkey@,
                peer_name@,
                quota,
                now,
            ),
            match position_of(old(self).pending(), session_id@) {
                Some(i) => final(self).pending() == old(self).pending().update(
                    i,
                    final(self).pending()[i],
                ),
                None => final(self).pending() == old(self).pending().push(
                    final(self).pending().last(),
                ),
            },
    {
        let found = self.find(session_id.as_str());
        let request = PendingConsent { session_id, peer_pubkey, peer_name, quota, created_at: now };
        proof {
            lemma_position_of(self.pending(), session_id@);
        }
        match found {
            Some(i) => {
                self.pending[i] = request;
                proof {
                    assert forall|a: int, b: int|
                        0 <= a < b < self.pending().len() implies
                            (#[trigger] self.pending()[a]).session_id@
                                != (#[trigger] self.pending()[b]).session_id@ by {
                        assert(old(self).pending()[a].session_id@
                            != old(self).pending()[b].session_id@);
                    }
                }
            },
            None => {
                self.pending.push(request);
                proof {
                    assert forall|a: int, b: int|
                        0 <= a < b < self.pending().len() implies
                            (#[trigger] self.pending()[a]).session_id@
                                != (#[trigger] self.pending()[b]).session_id@ by {
                        if b < old(self).pending().len() {
                            assert(old(self).pending()[a].session_id@
                                != old(self).pending()[b].session_id@);
                        } else {
                            assert(self.pending()[a] == old(self).pending()[a]);
                        }
                    }
                }
            },
        }
        proof {
            lemma_position_of(self.pending(), session_id@);
            let p = position_of(self.pending(), session_id@);
            if found.is_some() {
                assert(self.pending()[found.unwrap() as int].session_id@ == session_id@);
                if p.unwrap() != found.unwrap() as int {
                    if p.unwrap() < found.unwrap() {
                        assert(self.pending()[p.unwrap()].session_id@
                            != self.pending()[found.unwrap() as int].session_id@);
                    } else {
                        assert(self.pending()[found.unwrap() as int].session_id@
                            != self.pending()[p.unwrap()].session_id@);
                    }
                }
            } else {
                let last = self.pending().len() - 1;
                assert(self.pending()[last].session_id@ == session_id@);
                if p.unwrap() != last {
                    assert(self.pending()[p.unwrap()] == old(self).pending()[p.unwrap()]);
                }
            }
        }
    }

    /// Takes the request with this session id off the list and hands it
    /// out; nothing where no such request is pending.
    pub fn take_request(&mut self, session_id: &str) -> (r: Option<PendingConsent>)
        requires
            old(self).wf(),
        ensures
            final(self).wf(),
            match position_of(old(self).pending(), session_id@) {
                Some(i) => {
                    &&& r == Some(old(self).pending()[i])
                    &&& final(self).pending() == old(self).pending().remove(i)
                },
                None => r.is_none() && final(self).pending() == old(self).pending(),
            },
    {
        match self.find(session_id) {
            None => None,
            Some(i) => {
                let request = self.pending.remove(i);
                proof {
                    assert forall|a: int, b: int|
                        0 <= a < b < self.pending().len() implies
                            (#[trigger] self.pending()[a]).session_id@
                                != (#[trigger] self.pending()[b]).session_id@ by {
                        let a0 = if a < i { a } else { a + 1 };
                        let b0 = if b < i { b } else { b + 1 };
                        assert(old(self).pending()[a0].session_id@
                            != old(self).pending()[b0].session_id@);
                    }
                }
                Some(request)
            },
        }
    }

    /// Takes the operator's decision on a request. The request leaves the
    /// list, and the decision is returned with its session id, to be made
    /// known to whoever waits for it. An unknown session id is refused.
    pub fn resolve(
        &mut self,
        session_id: &str,
        decision: ConsentDecision,
    ) -> (r: Result<(String, ConsentDecision), ConsentError>)
        requires
            old(self).wf(),
        ensures
            final(self).wf(),
            match position_of(old(self).pending(), session_id@) {
                Some(i) => {
                    &&& r is Ok
                    &&& r.unwrap().0@ == session_id@
                    &&& r.unwrap().1 == decision
                    &&& final(self).pending() == old(self).pending().remove(i)
                },
                None => {
                    &&& r == Err::<(String, ConsentDecision), ConsentError>(
                        ConsentError::UnknownSession,
                    )
                    &&& final(self).pending() == old(self).pending()
                },
            },
    {
        proof {
            lemma_position_of(self.pending(), session_id@);
        }
        match self.take_request(session_id) {
            None => Err(ConsentError::UnknownSession),
            Some(request) => Ok((request.session_id, decision)),
        }
    }

    /// The pending requests, in the order in which they were made.
    pub fn get_pending_list(&self) -> (list: Vec<PendingConsent>)
        ensures
            list@.len() == self.pending().len(),
            forall|i: int|
                0 <= i < list@.len() ==> same_request(#[trigger] list@[i], self.pending()[i]),
    {
        let mut list: Vec<PendingConsent> = Vec::new();
        let mut i: usize = 0;
        while i < self.pending.len()
            invariant
                i <= self.pending@.len(),
                list@.len() == i,
                forall|j: int| 0 <= j < i ==> same_request(#[trigger] list@[j], self.pending@[j]),
            decreases self.pending@.len() - i,
        {
            let p = &self.pending[i];
            list.push(
                PendingConsent {
                    session_id: p.session_id.clone(),
                    peer_pubkey: p.peer_pubkey.clone(),
                    peer_name: p.peer_name.clone(),
                    quota: p.quota,
                    created_at: p.created_at,
                },
            );
            i = i + 1;
        }
        list
    }

    /// Drops the first request that is older than a handshake may wait,
    /// and returns its session id with the decision that its waiters get:
    /// denied. Returns nothing, and changes nothing, where no request is
    /// that old.
    #[verifier::loop_isolation(false)]
    pub fn expire_one(&mut self, now: u64) -> (r: Option<(String, ConsentDecision)>)
        requires
            old(self).wf(),
        ensures
            final(self).wf(),
            r.is_none() ==> ({
                &&& final(self).pending() == old(self).pending()
                &&& forall|i: int|
                    0 <= i < old(self).pending().len() ==> !is_overdue(
                        #[trigger] old(self).pending()[i],
                        now,
                    )
            }),
            r.is_some() ==> ({
                &&& r.unwrap().1 == ConsentDecision::Denied
                &&& exists|i: int|
                    0 <= i < old(self).pending().len()
                        && is_overdue(#[trigger] old(self).pending()[i], now)
                        && first_overdue(old(self).pending(), now, i)
                        && r.unwrap().0@ == old(self).pending()[i].session_id@
                        && final(self).pending() == old(self).pending().remove(i)
            }),
    {
        let mut i: usize = 0;
        while i < self.pending.len()
            invariant
                i <= self.pending@.len(),
                self.pending@ == old(self).pending@,
                forall|j: int| 0 <= j < i ==> !is_overdue(#[trigger] self.pending@[j], now),
            decreases self.pending@.len() - i,
        {
            let created = self.pending[i].created_at;
            if now >= created && now - created >= HANDSHAKE_TIMEOUT_SECS {
                let gone = self.pending.remove(i);
                proof {
                    assert forall|a: int, b: int|
                        0 <= a < b < self.pending().len() implies
                            (#[trigger] self.pending()[a]).session_id@
                                != (#[trigger] self.pending()[b]).session_id@ by {
                        let a0 = if a < i { a } else { a + 1 };
                        let b0 = if b < i { b } else { b + 1 };
                        assert(old(self).pending()[a0].session_id@
                            != old(self).pending()[b0].session_id@);
                    }
                    assert(is_overdue(old(self).pending()[i as int], now));
                    assert(first_overdue(old(self).pending(), now, i as int));
                }
                return Some((gone.session_id, ConsentDecision::Denied));
            }
            i = i + 1;
        }
        None
    }
}

/// Whether no request before the one at `i` is older than a handshake
/// may wait.
pub open spec fn first_overdue(pending: Seq<PendingConsent>, now: u64, i: int) -> bool {
    forall|j: int| 0 <= j < i ==> !is_overdue(#[trigger] pending[j], now)
}

/// Whether a request holds the given data.
pub open spec fn request_is(
    request: PendingConsent,
    session_id: Seq<char>,
    peer_pubkey: Seq<char>,
    peer_name: Seq<char>,
    quota: u64,
    created_at: u64,
) -> bool {
    &&& request.session_id@ == session_id
    &&& request.peer_pubkey@ == peer_pubkey
    &&& request.peer_name@ == peer_name
    &&& request.quota == quota
    &&& request.created_at == created_at
}

/// Whether two requests hold the same data.
pub open spec fn same_request(a: PendingConsent, b: PendingConsent) -> bool {
    request_is(a, b.session_id@, b.peer_pubkey@, b.peer_name@, b.quota, b.created_at)
}

/// What a waiter for the session `session_id` makes of a decision that is
/// made known: the decision, where it is for that session, and nothing
/// where it is for another.
pub fn decision_for(
    session_id: &str,
    published_id: &str,
    decision: ConsentDecision,
) -> (r: Option<ConsentDecision>)
    ensures
        r == (if session_id@ == published_id@ { Some(decision) } else { None }),
{
    let a = session_id.to_owned();
    let b = published_id.to_owned();
    if a == b {
        Some(decision)
    } else {
        None
    }
}

/// Whether a decision lets the peer in.
pub fn is_approval(decision: ConsentDecision) -> (r: bool)
    ensures
        r == (
            decision == ConsentDecision::ApprovedOnce
                || decision == ConsentDecision::ApprovedAndTrusted
        ),
{
    match decision {
        ConsentDecision::ApprovedOnce => true,
        ConsentDecision::ApprovedAndTrusted => true,
        _ => false,
    }
}

} // verus!
