use vstd::prelude::*;

use crate::rpc::JsonRpcResponse;
use vstd::string::StringExecFns;

verus! {

/// The session-scoped state of the push transport: the ids of the live
/// streams. The channels themselves live with the I/O layer, which keeps
/// them keyed by these ids and consults this table for every decision.
pub struct SseTransport {
    pub sessions: Vec<u128>,
}

/// The sessions a reaper pass keeps: those whose id was not observed closed.
pub open spec fn session_kept(closed: Seq<u128>) -> spec_fn(u128) -> bool {
    |x: u128| !closed.contains(x)
}

/// How the transport answers a submission before any dispatch happens.
#[derive(Clone, Copy, PartialEq, Eq, Structural, Debug)]
pub enum SubmitGate {
    /// No session id came with the submission: a client error.
    MissingSessionId,
    /// The id names no live session: a not-found condition.
    UnknownSession,
    /// The session is live; the call may go to the dispatcher.
    Accepted,
}

impl SseTransport {
    /// The ids of the currently live sessions, in open order.
    pub open spec fn live(self) -> Seq<u128> {
        self.sessions@
    }

    /// No two live sessions share an id.
    pub open spec fn wf(self) -> bool {
        forall|i: int, j: int|
            0 <= i < j < self.live().len() ==> self.live()[i] != self.live()[j]
    }

    pub open spec fn spec_gate(self, session_id: Option<u128>) -> SubmitGate {
        match session_id {
            None => SubmitGate::MissingSessionId,
            Some(id) => if self.live().contains(id) {
                SubmitGate::Accepted
            } else {
                SubmitGate::UnknownSession
            },
        }
    }

    pub fn new() -> (t: Self)
        ensures
            t.live() == Seq::<u128>::empty(),
            t.wf(),
    {
        SseTransport { sessions: Vec::new() }
    }

    /// Whether `id` names a live session.
    pub fn contains_session(&self, id: u128) -> (b: bool)
        ensures
            b == self.live().contains(id),
    {
        let mut i: usize = 0;
        while i < self.sessions.len()
            invariant
                i <= self.live().len(),
                forall|j: int| 0 <= j < i ==> self.live()[j] != id,
            decreases self.live().len() - i,
        {
            if self.sessions[i] == id {
                return true;
            }
            i += 1;
        }
        proof {
            assert(forall|j: int| 0 <= j < self.live().len() ==> self.live()[j] != id);
        }
        false
    }

    /// Open a stream: draw a random token and claim it as a new session.
    /// In the negligible case that the token is already taken, nothing
    /// changes and no session is opened.
    pub fn open_session(&mut self) -> (r: Option<u128>)
        requires
            old(self).wf(),
        ensures
            final(self).wf(),
            match r {
                Some(id) => !old(self).live().contains(id) && final(self).live() == old(
                    self,
                ).live().push(id),
                None => *final(self) == *old(self),
            },
    {
        let token = fresh_session_token();
        if self.contains_session(token) {
            None
        } else {
            self.sessions.push(token);
            Some(token)
        }
    }

    /// Evict one session. Removing an id that is not live changes
    /// nothing, so eviction is idempotent.
    #[verifier::loop_isolation(false)]
    pub fn remove_session(&mut self, id: u128)
        requires
            old(self).wf(),
        ensures
            final(self).wf(),
            !final(self).live().contains(id),
            forall|x: u128| x != id ==> final(self).live().contains(x) == old(
                self,
            ).live().contains(x),
            old(self).live().contains(id) ==> final(self).live().len() == old(self).live().len()
                - 1,
            !old(self).live().contains(id) ==> *final(self) == *old(self),
    {
        let ghost olds = self.live();
        let mut i: usize = 0;
        while i < self.sessions.len()
            invariant
                i <= olds.len(),
                self == old(self),
                forall|j: int| 0 <= j < i ==> olds[j] != id,
            decreases olds.len() - i,
        {
            if self.sessions[i] == id {
                self.sessions.remove(i);
                proof {
                    let news = self.live();
                    assert(news =~= olds.subrange(0, i as int) + olds.subrange(
                        i + 1,
                        olds.len() as int,
                    ));
                    assert forall|j: int| 0 <= j < news.len() implies news[j] != id by {
                        if j < i {
                            assert(news[j] == olds[j]);
                        } else {
                            assert(news[j] == olds[j + 1]);
                        }
                    }
                    assert(!news.contains(id));
                    assert forall|x: u128| x != id implies news.contains(x) == olds.contains(
                        x,
                    ) by {
                        if news.contains(x) {
                            let k: int = choose|k: int| 0 <= k < news.len() && news[k] == x;
                            if k < i {
                                assert(olds[k] == x);
                            } else {
                                assert(olds[k + 1] == x);
                            }
                        }
                        if olds.contains(x) {
                            let k: int = choose|k: int| 0 <= k < olds.len() && olds[k] == x;
                            if k < i {
                                assert(news[k] == x);
                            } else {
                                assert(k != i);
                                assert(news[k - 1] == x);
                            }
                        }
                    }
                }
                return ;
            }
            i += 1;
        }
        proof {
            assert(forall|j: int| 0 <= j < olds.len() ==> olds[j] != id);
            assert(!olds.contains(id));
        }
    }

    /// One reaper pass: given the ids whose channels were observed
    /// closed, evict exactly those sessions, keeping the rest in order.
    #[verifier::loop_isolation(false)]
    pub fn cleanup_dead_connections(&mut self, closed: &Vec<u128>)
        requires
            old(self).wf(),
        ensures
            final(self).wf(),
            final(self).live() == old(self).live().filter(session_kept(closed@)),
    {
        let ghost olds = self.live();
        let ghost pred = session_kept(closed@);
        let mut kept: Vec<u128> = Vec::new();
        let mut i: usize = 0;
        while i < self.sessions.len()
            invariant
                i <= olds.len(),
                self.live() == olds,
                kept@ == olds.subrange(0, i as int).filter(pred),
                forall|x: u128| kept@.contains(x) ==> olds.subrange(0, i as int).contains(x),
            decreases olds.len() - i,
        {
            let keep = !vec_contains(closed, self.sessions[i]);
            proof {
                reveal(Seq::filter);
                let prefix = olds.subrange(0, i as int);
                let grown = olds.subrange(0, i + 1);
                assert(grown.drop_last() =~= prefix);
                assert(grown.last() == olds[i as int]);
                if keep {
                    assert(grown.filter(pred) == prefix.filter(pred).push(olds[i as int]));
                } else {
                    assert(grown.filter(pred) == prefix.filter(pred));
                }
                assert forall|x: u128|
                    kept@.push(olds[i as int]).contains(x) implies grown.contains(x) by {
                    if kept@.contains(x) {
                        let k: int = choose|k: int| 0 <= k < prefix.len() && prefix[k] == x;
                        assert(grown[k] == x);
                    } else {
                        assert(grown[i as int] == x);
                    }
                }
                assert forall|x: u128| kept@.contains(x) implies grown.contains(x) by {
                    let k: int = choose|k: int| 0 <= k < prefix.len() && prefix[k] == x;
                    assert(grown[k] == x);
                }
            }
            if keep {
                let id = self.sessions[i];
                kept.push(id);
            }
            i += 1;
        }
        proof {
            assert(olds.subrange(0, olds.len() as int) =~= olds);
        }
        self.sessions = kept;
        proof {
            let news = self.live();
            assert forall|a: int, b: int| 0 <= a < b < news.len() implies news[a] != news[b] by {
                lemma_filter_distinct(olds, pred, a, b);
            }
        }
    }

    /// Classify one submission before dispatch: reject a missing id as a
    /// client error and an unknown id as not found; only a live session
    /// is let through to the dispatcher.
    pub fn check_submission(&self, session_id: Option<u128>) -> (g: SubmitGate)
        ensures
            g == self.spec_gate(session_id),
    {
        match session_id {
            None => SubmitGate::MissingSessionId,
            Some(id) => {
                if self.contains_session(id) {
                    SubmitGate::Accepted
                } else {
                    SubmitGate::UnknownSession
                }
            },
        }
    }
}

/// Whether the dispatcher's answer to one submission is echoed onto the
/// session's stream: only a success envelope, and never the
/// acknowledgment of a notification. Errors travel solely on the
/// submission's own synchronous response.
pub fn should_push(response: &JsonRpcResponse, was_notification: bool) -> (b: bool)
    ensures
        b == (response.spec_is_success() && !was_notification),
{
    !was_notification && response.is_success()
}

fn vec_contains(v: &Vec<u128>, x: u128) -> (b: bool)
    ensures
        b == v@.contains(x),
{
    let mut i: usize = 0;
    while i < v.len()
        invariant
            i <= v@.len(),
            forall|j: int| 0 <= j < i ==> v@[j] != x,
        decreases v@.len() - i,
    {
        if v[i] == x {
            return true;
        }
        i += 1;
    }
    false
}

/// A filtered sequence of distinct elements stays distinct.
proof fn lemma_filter_distinct(s: Seq<u128>, pred: spec_fn(u128) -> bool, a: int, b: int)
    requires
        forall|i: int, j: int| 0 <= i < j < s.len() ==> s[i] != s[j],
        0 <= a < b < s.filter(pred).len(),
    ensures
        s.filter(pred)[a] != s.filter(pred)[b],
    decreases s,
{
    reveal(Seq::filter);
    if s.len() > 0 {
        let f = s.filter(pred);
        let df = s.drop_last().filter(pred);
        if pred(s.last()) {
            if b < f.len() - 1 {
                lemma_filter_distinct(s.drop_last(), pred, a, b);
            } else {
                s.drop_last().lemma_filter_len(pred);
                assert(f[b] == s.last());
                assert(f[a] == df[a]);
                assert(df.contains(df[a]));
                let k: int = choose|k: int| 0 <= k < df.len() && df[k] == f[a];
                lemma_filter_is_subset(s.drop_last(), pred, k);
                let m: int = choose|m: int| 0 <= m < s.drop_last().len() && s.drop_last()[m] == f[a];
                assert(s[m] == f[a]);
                assert(s[m] != s.last());
            }
        } else {
            lemma_filter_distinct(s.drop_last(), pred, a, b);
        }
    }
}

/// Every element a filter keeps occurs in the original sequence.
proof fn lemma_filter_is_subset(s: Seq<u128>, pred: spec_fn(u128) -> bool, k: int)
    requires
        0 <= k < s.filter(pred).len(),
    ensures
        exists|m: int| 0 <= m < s.len() && s[m] == s.filter(pred)[k],
    decreases s,
{
    reveal(Seq::filter);
    if s.len() > 0 {
        let f = s.filter(pred);
        if pred(s.last()) && k == f.len() - 1 {
            assert(s[s.len() - 1] == f[k]);
        } else {
            lemma_filter_is_subset(s.drop_last(), pred, k);
            let m: int = choose|m: int| 0 <= m < s.drop_last().len() && s.drop_last()[m] == s.drop_last().filter(pred)[k];
            assert(s[m] == s.filter(pred)[k]);
        }
    }
}

/// Relies on uuid's `Uuid::new_v4` and `Uuid::as_u128`: a freshly drawn
/// random 128-bit token. Nothing is promised of its value.
#[verifier::external_body]
fn fresh_session_token() -> u128 {
    uuid::Uuid::new_v4().as_u128()
}

/// The decimal digits of `n`, most significant first, as ASCII bytes.
pub open spec fn dec_bytes(n: nat) -> Seq<u8>
    decreases n,
{
    if n < 10 {
        seq![(48 + n) as u8]
    } else {
        dec_bytes(n / 10).push((48 + n % 10) as u8)
    }
}

/// The decimal digits of `n` as characters.
pub open spec fn dec_chars(n: nat) -> Seq<char> {
    dec_bytes(n).map_values(|b: u8| b as char)
}

proof fn lemma_dec_bytes_ascii(n: nat)
    ensures
        forall|i: int| 0 <= i < dec_bytes(n).len() ==> (48 <= #[trigger] dec_bytes(n)[i] < 58),
    decreases n,
{
    if n >= 10 {
        lemma_dec_bytes_ascii(n / 10);
        assert forall|i: int| 0 <= i < dec_bytes(n).len() implies (48 <= #[trigger] dec_bytes(
            n,
        )[i] < 58) by {
            if i < dec_bytes(n / 10).len() {
                assert(dec_bytes(n)[i] == dec_bytes(n / 10)[i]);
            } else {
                assert(dec_bytes(n)[i] == (48 + n % 10) as u8);
            }
        }
    } else {
        assert(dec_bytes(n)[0] == (48 + n) as u8);
    }
}

fn push_dec_digits(n: u128, out: &mut Vec<u8>)
    ensures
        final(out)@ == old(out)@ + dec_bytes(n as nat),
    decreases n,
{
    if n >= 10 {
        push_dec_digits(n / 10, out);
    }
    let d: u8 = 48 + (n % 10) as u8;
    out.push(d);
    proof {
        if n < 10 {
            assert(old(out)@ + dec_bytes(n as nat) =~= old(out)@.push(d));
        } else {
            assert(old(out)@ + dec_bytes(n as nat) =~= (old(out)@ + dec_bytes(
                (n / 10) as nat,
            )).push(d));
        }
    }
}

/// Relies on std's `String::from_utf8`: bytes below 128 are valid UTF-8
/// and decode one byte to the one char with the same code point.
#[verifier::external_body]
fn ascii_to_string(bytes: Vec<u8>) -> (r: String)
    requires
        forall|i: int| 0 <= i < bytes@.len() ==> bytes@[i] < 128,
    ensures
        r@ == bytes@.map_values(|b: u8| b as char),
{
    match String::from_utf8(bytes) {
        Ok(s) => s,
        Err(_) => String::new(),
    }
}

/// The URI a freshly opened stream announces on its first event: where
/// to submit calls for this session.
pub open spec fn spec_endpoint(id: u128) -> Seq<char> {
    "/message?sessionId="@ + dec_chars(id as nat)
}

/// Render the submission endpoint for a session id.
pub fn session_endpoint(id: u128) -> (r: String)
    ensures
        r@ == spec_endpoint(id),
{
    let mut digits: Vec<u8> = Vec::new();
    push_dec_digits(id, &mut digits);
    proof {
        lemma_dec_bytes_ascii(id as nat);
        assert(digits@ =~= dec_bytes(id as nat));
    }
    let tail = ascii_to_string(digits);
    let mut r = "/message?sessionId=".to_owned();
    r.append(tail.as_str());
    proof {
        assert(tail@ =~= dec_chars(id as nat));
        assert(r@ =~= spec_endpoint(id));
    }
    r
}

/// Law: no two live sessions share an id.
pub proof fn lemma_sessions_unique(t: SseTransport)
    requires
        t.wf(),
    ensures
        forall|i: int, j: int| 0 <= i < j < t.live().len() ==> t.live()[i] != t.live()[j],
{
}

/// Law: a submission naming a session that is not live is rejected as
/// unknown — it never reaches the dispatcher.
pub proof fn lemma_unopened_rejected(t: SseTransport, id: u128)
    requires
        !t.live().contains(id),
    ensures
        t.spec_gate(Some(id)) == SubmitGate::UnknownSession,
{
}

/// Law: once a reaper pass has observed a session's channel closed, the
/// session is gone, and a later submission under its id is rejected as
/// unknown.
pub proof fn lemma_reaped_session_rejected(
    before: SseTransport,
    after: SseTransport,
    closed: Seq<u128>,
    id: u128,
)
    requires
        after.live() == before.live().filter(session_kept(closed)),
        closed.contains(id),
    ensures
        !after.live().contains(id),
        after.spec_gate(Some(id)) == SubmitGate::UnknownSession,
{
    let pred = session_kept(closed);
    assert forall|j: int| 0 <= j < after.live().len() implies after.live()[j] != id by {
        before.live().lemma_filter_pred(pred, j);
    }
    assert(!after.live().contains(id));
}

} // verus!
