//! State machine of the instance multiplexer: monotonic packet-id
//! allocation, the pending-request table, reply/push dispatch, and the
//! timeout sweep. An asynchronous shell drives it: it performs the reads,
//! writes and channel sends, and hands every decision to these functions.

use vstd::prelude::*;
use crate::encoded_method::{spec_method_bytes, EncodedMethod};
use crate::loco_header::{BodyType, LocoHeader};
use crate::Error;

verus! {

/// Recommended age after which a pending request is evicted, in milliseconds.
pub const TIMEOUT_MS: u64 = 20000;

/// Recommended capacity of the push broadcast channel.
pub const BROADCAST_CAPACITY: usize = 100;

/// One outstanding request: when it was issued and the method its reply is
/// expected to echo. The completion handle stays with the shell, keyed by
/// the packet id.
#[derive(Debug, Clone, Copy)]
pub struct PendingEntry {
    /// Clock reading at issue time, in milliseconds.
    pub issued_at: u64,
    /// Method the reply is expected to carry.
    pub method: EncodedMethod,
}

/// What the shell must do with one inbound command.
#[derive(Debug, Clone, Copy)]
pub enum DispatchAction {
    /// The command answers the pending request with this packet id: complete
    /// its handle with the body. `method_mismatch` asks for a warning when
    /// the reply's method differs from the expected one; the body is still
    /// delivered.
    Reply { pid: i32, expected_method: EncodedMethod, method_mismatch: bool },
    /// No pending request matches: publish the body to every subscriber.
    Push,
    /// The body is not BSON: drop the payload and go on.
    Discard,
}

/// Whether some entry of the table carries the packet id.
pub open spec fn pending_has(s: Seq<(i32, PendingEntry)>, pid: i32) -> bool {
    exists|i: int| 0 <= i < s.len() && (#[trigger] s[i]).0 == pid
}

/// No two entries of the table carry the same packet id.
pub open spec fn pending_unique(s: Seq<(i32, PendingEntry)>) -> bool {
    forall|i: int, j: int| 0 <= i < j < s.len() ==> (#[trigger] s[i]).0 != (#[trigger] s[j]).0
}

/// The entry of the table carrying the packet id.
pub open spec fn pending_lookup(s: Seq<(i32, PendingEntry)>, pid: i32) -> PendingEntry {
    s[choose|i: int| 0 <= i < s.len() && (#[trigger] s[i]).0 == pid].1
}

/// Whether an entry is older than the timeout at the given clock reading.
pub open spec fn spec_expired(e: PendingEntry, now_ms: u64, timeout_ms: u64) -> bool {
    e.issued_at + timeout_ms < now_ms
}

/// The table after the sweep: the entries not yet expired, in order.
pub open spec fn spec_sweep_keep(
    s: Seq<(i32, PendingEntry)>,
    now_ms: u64,
    timeout_ms: u64,
) -> Seq<(i32, PendingEntry)> {
    s.filter(|e: (i32, PendingEntry)| !spec_expired(e.1, now_ms, timeout_ms))
}

/// The packet ids the sweep evicts, in table order.
pub open spec fn spec_sweep_expired_pids(
    s: Seq<(i32, PendingEntry)>,
    now_ms: u64,
    timeout_ms: u64,
) -> Seq<i32> {
    s.filter(|e: (i32, PendingEntry)| spec_expired(e.1, now_ms, timeout_ms)).map_values(
        |e: (i32, PendingEntry)| e.0,
    )
}

/// The packet id allocated after `last`: the pid space is unsigned 32-bit
/// and wrapping, so the signed-width counter steps through the two's
/// complement successor.
pub open spec fn spec_next_pid(last: i32) -> i32 {
    if last == i32::MAX {
        i32::MIN
    } else {
        (last + 1) as i32
    }
}

/// Removing the entry at `i` keeps every other packet id, with its entry,
/// and leaves the removed id without an entry.
proof fn lemma_remove_membership(s: Seq<(i32, PendingEntry)>, i: int)
    requires
        pending_unique(s),
        0 <= i < s.len(),
    ensures
        pending_unique(s.remove(i)),
        !pending_has(s.remove(i), s[i].0),
        forall|q: i32| q != s[i].0 ==> (pending_has(s.remove(i), q) <==> pending_has(s, q)),
        forall|q: i32|
            q != s[i].0 && pending_has(s, q) ==> pending_lookup(s.remove(i), q) == pending_lookup(
                s,
                q,
            ),
{
    let t = s.remove(i);
    let pid = s[i].0;
    assert forall|a: int, b: int| 0 <= a < b < t.len() implies (#[trigger] t[a]).0 != (
    #[trigger] t[b]).0 by {
        if b < i {
        } else if a < i {
            assert(t[b] == s[b + 1]);
        } else {
            assert(t[a] == s[a + 1] && t[b] == s[b + 1]);
        }
    }
    assert forall|k: int| 0 <= k < t.len() implies (#[trigger] t[k]).0 != pid by {
        if k < i {
            assert(t[k] == s[k]);
        } else {
            assert(t[k] == s[k + 1]);
        }
    }
    assert forall|q: i32| q != pid && pending_has(s, q) implies pending_has(t, q) by {
        let k = choose|k: int| 0 <= k < s.len() && (#[trigger] s[k]).0 == q;
        if k < i {
            assert(t[k].0 == q);
        } else {
            assert(t[k - 1].0 == q);
        }
    }
    assert forall|q: i32| q != pid && #[trigger] pending_has(t, q) implies pending_has(s, q) by {
        let k = choose|k: int| 0 <= k < t.len() && (#[trigger] t[k]).0 == q;
        if k < i {
            assert(s[k].0 == q);
        } else {
            assert(s[k + 1].0 == q);
        }
    }
    assert forall|q: i32| q != pid && pending_has(s, q) implies pending_lookup(t, q)
        == pending_lookup(s, q) by {
        let k = choose|k: int| 0 <= k < t.len() && (#[trigger] t[k]).0 == q;
        let ks = choose|k: int| 0 <= k < s.len() && (#[trigger] s[k]).0 == q;
        if k < i {
            assert(s[k].0 == q);
            assert(ks == k);
        } else {
            assert(s[k + 1].0 == q);
            assert(ks == k + 1);
        }
    }
}

/// Appending an entry under a fresh packet id keeps every other id, with its
/// entry, and gives the fresh id exactly the appended entry.
proof fn lemma_push_membership(s: Seq<(i32, PendingEntry)>, pid: i32, e: PendingEntry)
    requires
        pending_unique(s),
        !pending_has(s, pid),
    ensures
        pending_unique(s.push((pid, e))),
        pending_has(s.push((pid, e)), pid),
        pending_lookup(s.push((pid, e)), pid) == e,
        forall|q: i32| q != pid ==> (pending_has(s.push((pid, e)), q) <==> pending_has(s, q)),
        forall|q: i32|
            q != pid && pending_has(s, q) ==> pending_lookup(s.push((pid, e)), q)
                == pending_lookup(s, q),
{
    let t = s.push((pid, e));
    assert(t[t.len() - 1].0 == pid);
    assert forall|a: int, b: int| 0 <= a < b < t.len() implies (#[trigger] t[a]).0 != (
    #[trigger] t[b]).0 by {
        if b == t.len() - 1 {
            assert(t[a] == s[a]);
        } else {
            assert(t[a] == s[a] && t[b] == s[b]);
        }
    }
    let w = choose|k: int| 0 <= k < t.len() && (#[trigger] t[k]).0 == pid;
    assert(w == t.len() - 1) by {
        if w < t.len() - 1 {
            assert(s[w].0 == pid);
        }
    }
    assert forall|q: i32| q != pid && #[trigger] pending_has(t, q) implies pending_has(s, q) by {
        let k = choose|k: int| 0 <= k < t.len() && (#[trigger] t[k]).0 == q;
        assert(s[k].0 == q);
    }
    assert forall|q: i32| q != pid && pending_has(s, q) implies pending_has(t, q) by {
        let k = choose|k: int| 0 <= k < s.len() && (#[trigger] s[k]).0 == q;
        assert(t[k].0 == q);
    }
    assert forall|q: i32| q != pid && pending_has(s, q) implies pending_lookup(t, q)
        == pending_lookup(s, q) by {
        let k = choose|k: int| 0 <= k < t.len() && (#[trigger] t[k]).0 == q;
        let ks = choose|k: int| 0 <= k < s.len() && (#[trigger] s[k]).0 == q;
        assert(s[k].0 == q);
        assert(ks == k);
    }
}

/// The state shared under the writer lock: the packet-id counter and the
/// pending-request table, with the shutdown flag of the read loop.
pub struct InstanceState {
    last_packet_id: i32,
    pending: Vec<(i32, PendingEntry)>,
    stopped: bool,
}

impl InstanceState {
    /// The packet-id counter.
    pub closed spec fn spec_last_pid(&self) -> i32 {
        self.last_packet_id
    }

    /// The pending-request table.
    pub closed spec fn spec_pending(&self) -> Seq<(i32, PendingEntry)> {
        self.pending@
    }

    /// Whether the read loop was asked to stop.
    pub closed spec fn spec_stopped(&self) -> bool {
        self.stopped
    }

    /// Each outstanding packet id has exactly one entry.
    pub open spec fn wf(&self) -> bool {
        pending_unique(self.spec_pending())
    }

    /// Fresh state: counter at zero, no pending requests, running.
    pub fn new() -> (r: InstanceState)
        ensures
            r.wf(),
            r.spec_last_pid() == 0i32,
            r.spec_pending() == Seq::<(i32, PendingEntry)>::empty(),
            !r.spec_stopped(),
    {
        let r = InstanceState { last_packet_id: 0, pending: Vec::new(), stopped: false };
        proof {
            assert(r.spec_pending() =~= Seq::<(i32, PendingEntry)>::empty());
        }
        r
    }

    /// Allocate the next packet id without recording a pending entry
    /// (fire-and-forget sends).
    pub fn next_pid(&mut self) -> (pid: i32)
        requires
            old(self).wf(),
        ensures
            final(self).wf(),
            pid == spec_next_pid(old(self).spec_last_pid()),
            final(self).spec_last_pid() == pid,
            final(self).spec_pending() == old(self).spec_pending(),
            final(self).spec_stopped() == old(self).spec_stopped(),
    {
        let pid = if self.last_packet_id == i32::MAX {
            i32::MIN
        } else {
            self.last_packet_id + 1
        };
        self.last_packet_id = pid;
        pid
    }

    /// Allocate the next packet id and record the pending entry for it. A
    /// method of more than 11 bytes is rejected, with the id consumed but no
    /// entry recorded. An entry already carrying the id (after the pid space
    /// wrapped) is replaced.
    pub fn begin_request(&mut self, now_ms: u64, method: &str) -> (r: Result<i32, Error>)
        requires
            old(self).wf(),
        ensures
            final(self).wf(),
            final(self).spec_last_pid() == spec_next_pid(old(self).spec_last_pid()),
            final(self).spec_stopped() == old(self).spec_stopped(),
            r is Ok <==> vstd::utf8::encode_utf8(method@).len() <= 11,
            r is Err ==> r == Err::<i32, Error>(Error::Io) && final(self).spec_pending() == old(
                self,
            ).spec_pending(),
            r matches Ok(pid) ==> {
                &&& pid == spec_next_pid(old(self).spec_last_pid())
                &&& pending_has(final(self).spec_pending(), pid)
                &&& pending_lookup(final(self).spec_pending(), pid).issued_at == now_ms
                &&& pending_lookup(final(self).spec_pending(), pid).method.0@ == spec_method_bytes(
                    vstd::utf8::encode_utf8(method@),
                )
                &&& final(self).spec_pending().len() <= old(self).spec_pending().len() + 1
                &&& (!pending_has(old(self).spec_pending(), pid) ==> final(self).spec_pending()
                    .len() == old(self).spec_pending().len() + 1)
                &&& forall|q: i32|
                    q != pid ==> (pending_has(final(self).spec_pending(), q) <==> pending_has(
                        old(self).spec_pending(),
                        q,
                    ))
            },
    {
        let pid = self.next_pid();
        let encoded = match EncodedMethod::from_str(method) {
            Ok(m) => m,
            Err(_) => {
                return Err(Error::Io);
            },
        };
        let entry = PendingEntry { issued_at: now_ms, method: encoded };
        let ghost before = self.pending@;
        let mut i: usize = 0;
        let mut found: bool = false;
        while i < self.pending.len() && !found
            invariant
                i <= self.pending@.len(),
                self.pending@ == before,
                !found ==> forall|j: int| 0 <= j < i ==> (#[trigger] before[j]).0 != pid,
                found ==> i < before.len() && before[i as int].0 == pid,
            decreases self.pending@.len() - i + (if found { 0int } else { 1int }),
        {
            if self.pending[i].0 == pid {
                found = true;
            } else {
                i += 1;
            }
        }
        if found {
            self.pending.remove(i);
            proof {
                lemma_remove_membership(before, i as int);
                lemma_push_membership(before.remove(i as int), pid, entry);
            }
        } else {
            proof {
                assert(!pending_has(before, pid));
                lemma_push_membership(before, pid, entry);
            }
        }
        self.pending.push((pid, entry));
        Ok(pid)
    }

    /// Take note of one inbound command head and decide what the shell does
    /// with its body: deliver it to the pending request with the echoed id,
    /// publish it as a push, or discard a non-BSON payload. Inbound ids at or
    /// above the counter (compared as unsigned) advance the counter, so that
    /// later allocations do not collide with server-originated ids.
    pub fn dispatch(&mut self, header: &LocoHeader) -> (r: DispatchAction)
        requires
            old(self).wf(),
        ensures
            final(self).wf(),
            final(self).spec_stopped() == old(self).spec_stopped(),
            final(self).spec_last_pid() == (if (header.id as u32) >= (old(self).spec_last_pid()
                as u32) {
                header.id
            } else {
                old(self).spec_last_pid()
            }),
            header.body_type != BodyType::Bson ==> r is Discard && final(self).spec_pending()
                == old(self).spec_pending(),
            header.body_type == BodyType::Bson && !pending_has(
                old(self).spec_pending(),
                header.id,
            ) ==> r is Push && final(self).spec_pending() == old(self).spec_pending(),
            header.body_type == BodyType::Bson && pending_has(
                old(self).spec_pending(),
                header.id,
            ) ==> {
                &&& r matches DispatchAction::Reply { pid, expected_method, method_mismatch } && {
                    &&& pid == header.id
                    &&& expected_method == pending_lookup(old(self).spec_pending(), header.id)
                        .method
                    &&& (method_mismatch <==> expected_method.0@ != header.method.0@)
                }
                &&& !pending_has(final(self).spec_pending(), header.id)
                &&& final(self).spec_pending().len() == old(self).spec_pending().len() - 1
                &&& forall|q: i32|
                    q != header.id ==> (pending_has(final(self).spec_pending(), q) <==> pending_has(
                        old(self).spec_pending(),
                        q,
                    ))
                &&& forall|q: i32|
                    q != header.id && pending_has(final(self).spec_pending(), q)
                        ==> pending_lookup(final(self).spec_pending(), q) == pending_lookup(
                        old(self).spec_pending(),
                        q,
                    )
            },
    {
        let id_unsigned = #[verifier::truncate] (header.id as u32);
        let last_unsigned = #[verifier::truncate] (self.last_packet_id as u32);
        if id_unsigned >= last_unsigned {
            self.last_packet_id = header.id;
        }
        match header.body_type {
            BodyType::Unknown(_) => DispatchAction::Discard,
            BodyType::Bson => {
                let ghost before = self.pending@;
                let mut i: usize = 0;
                let mut found: bool = false;
                while i < self.pending.len() && !found
                    invariant
                        i <= self.pending@.len(),
                        self.pending@ == before,
                        !found ==> forall|j: int| 0 <= j < i ==> (#[trigger] before[j]).0
                            != header.id,
                        found ==> i < before.len() && before[i as int].0 == header.id,
                    decreases self.pending@.len() - i + (if found { 0int } else { 1int }),
                {
                    if self.pending[i].0 == header.id {
                        found = true;
                    } else {
                        i += 1;
                    }
                }
                if !found {
                    proof {
                        assert(!pending_has(before, header.id));
                    }
                    return DispatchAction::Push;
                }
                let entry = self.pending.remove(i);
                proof {
                    lemma_remove_membership(before, i as int);
                    let w = choose|k: int|
                        0 <= k < before.len() && (#[trigger] before[k]).0 == header.id;
                    assert(before[w].0 == header.id && before[i as int].0 == header.id);
                    assert(w == i as int);
                    assert(entry.1 == pending_lookup(before, header.id));
                }
                let expected_method = entry.1.method;
                let method_mismatch = !(expected_method == header.method);
                proof {
                    broadcast use vstd::array::group_array_axioms;

                    assert((expected_method.0 =~= header.method.0) <==> (expected_method.0@
                        =~= header.method.0@));
                }
                DispatchAction::Reply { pid: entry.0, expected_method, method_mismatch }
            },
        }
    }

    /// Evict every pending entry older than the timeout and hand their
    /// packet ids to the shell, which completes each with a timeout error.
    pub fn sweep(&mut self, now_ms: u64, timeout_ms: u64) -> (expired: Vec<i32>)
        requires
            old(self).wf(),
        ensures
            final(self).wf(),
            final(self).spec_last_pid() == old(self).spec_last_pid(),
            final(self).spec_stopped() == old(self).spec_stopped(),
            final(self).spec_pending() == spec_sweep_keep(
                old(self).spec_pending(),
                now_ms,
                timeout_ms,
            ),
            expired@ == spec_sweep_expired_pids(old(self).spec_pending(), now_ms, timeout_ms),
            final(self).spec_pending().len() <= old(self).spec_pending().len(),
    {
        broadcast use vstd::seq_lib::group_filter_ensures;

        let ghost before = self.pending@;
        let ghost keep_pred = |e: (i32, PendingEntry)| !spec_expired(e.1, now_ms, timeout_ms);
        let ghost exp_pred = |e: (i32, PendingEntry)| spec_expired(e.1, now_ms, timeout_ms);
        let mut kept: Vec<(i32, PendingEntry)> = Vec::new();
        let mut expired: Vec<i32> = Vec::new();
        let mut i: usize = 0;
        proof {
            reveal(Seq::filter);
            assert(kept@ =~= before.take(0).filter(keep_pred));
            assert(expired@ =~= before.take(0).filter(exp_pred).map_values(
                |e: (i32, PendingEntry)| e.0,
            ));
        }
        while i < self.pending.len()
            invariant
                i <= self.pending@.len(),
                self.pending@ == before,
                pending_unique(before),
                kept@ == before.take(i as int).filter(keep_pred),
                expired@ == before.take(i as int).filter(exp_pred).map_values(
                    |e: (i32, PendingEntry)| e.0,
                ),
                pending_unique(kept@),
                forall|q: i32| #[trigger]
                    pending_has(kept@, q) ==> pending_has(before.take(i as int), q),
                keep_pred == (|e: (i32, PendingEntry)| !spec_expired(e.1, now_ms, timeout_ms)),
                exp_pred == (|e: (i32, PendingEntry)| spec_expired(e.1, now_ms, timeout_ms)),
            decreases self.pending@.len() - i,
        {
            let e = self.pending[i];
            let is_expired = if now_ms > timeout_ms {
                e.1.issued_at < now_ms - timeout_ms
            } else {
                false
            };
            let ghost prefix = before.take(i as int);
            let ghost next = before.take(i + 1);
            proof {
                reveal(Seq::filter);
                assert(is_expired == spec_expired(e.1, now_ms, timeout_ms));
                assert(next =~= prefix.push(e));
                assert(next.drop_last() =~= prefix);
                assert(next.filter(keep_pred) == if keep_pred(e) {
                    prefix.filter(keep_pred).push(e)
                } else {
                    prefix.filter(keep_pred)
                });
                assert(next.filter(exp_pred) == if exp_pred(e) {
                    prefix.filter(exp_pred).push(e)
                } else {
                    prefix.filter(exp_pred)
                });
                assert(!pending_has(kept@, e.0)) by {
                    if pending_has(kept@, e.0) {
                        let k = choose|k: int|
                            0 <= k < prefix.len() && (#[trigger] prefix[k]).0 == e.0;
                        assert(before[k].0 == before[i as int].0);
                    }
                }
            }
            if is_expired {
                expired.push(e.0);
                proof {
                    assert(expired@ =~= next.filter(exp_pred).map_values(
                        |x: (i32, PendingEntry)| x.0,
                    ));
                }
            } else {
                proof {
                    lemma_push_membership(kept@, e.0, e.1);
                    assert(kept@.push((e.0, e.1)) =~= kept@.push(e));
                    assert forall|q: i32| #[trigger]
                        pending_has(kept@.push(e), q) implies pending_has(next, q) by {
                        let k = choose|k: int|
                            0 <= k < kept@.push(e).len() && (#[trigger] kept@.push(e)[k]).0 == q;
                        if k == kept@.len() {
                            assert(next[i as int].0 == q);
                        } else {
                            assert(pending_has(kept@, q));
                            let m = choose|m: int|
                                0 <= m < prefix.len() && (#[trigger] prefix[m]).0 == q;
                            assert(next[m].0 == q);
                        }
                    }
                }
                kept.push(e);
            }
            proof {
                assert forall|q: i32| #[trigger]
                    pending_has(kept@, q) implies pending_has(next, q) by {
                    if pending_has(prefix, q) {
                        let m = choose|m: int|
                            0 <= m < prefix.len() && (#[trigger] prefix[m]).0 == q;
                        assert(next[m].0 == q);
                    }
                }
            }
            i += 1;
        }
        proof {
            assert(before.take(before.len() as int) =~= before);
        }
        self.pending = kept;
        expired
    }

    /// Ask the read loop to exit at its next iteration.
    pub fn stop(&mut self)
        ensures
            final(self).spec_stopped(),
            final(self).spec_last_pid() == old(self).spec_last_pid(),
            final(self).spec_pending() == old(self).spec_pending(),
            old(self).wf() ==> final(self).wf(),
    {
        self.stopped = true;
    }

    /// Whether the read loop was asked to stop.
    pub fn is_stopped(&self) -> (r: bool)
        ensures
            r == self.spec_stopped(),
    {
        self.stopped
    }

    /// Number of outstanding requests.
    pub fn pending_len(&self) -> (r: usize)
        ensures
            r == self.spec_pending().len(),
    {
        self.pending.len()
    }

    /// Drop every pending entry at shutdown and hand their packet ids to the
    /// shell, which fails each with a closed error.
    pub fn drain(&mut self) -> (closed_pids: Vec<i32>)
        requires
            old(self).wf(),
        ensures
            final(self).wf(),
            final(self).spec_last_pid() == old(self).spec_last_pid(),
            final(self).spec_stopped() == old(self).spec_stopped(),
            final(self).spec_pending() == Seq::<(i32, PendingEntry)>::empty(),
            closed_pids@ == old(self).spec_pending().map_values(|e: (i32, PendingEntry)| e.0),
    {
        let ghost before = self.pending@;
        let mut closed_pids: Vec<i32> = Vec::new();
        let mut i: usize = 0;
        proof {
            assert(closed_pids@ =~= before.take(0).map_values(|e: (i32, PendingEntry)| e.0));
        }
        while i < self.pending.len()
            invariant
                i <= self.pending@.len(),
                self.pending@ == before,
                closed_pids@ == before.take(i as int).map_values(|e: (i32, PendingEntry)| e.0),
            decreases self.pending@.len() - i,
        {
            let e = self.pending[i];
            closed_pids.push(e.0);
            proof {
                assert(closed_pids@ =~= before.take(i + 1).map_values(
                    |x: (i32, PendingEntry)| x.0,
                ));
            }
            i += 1;
        }
        self.pending.clear();
        proof {
            assert(self.pending@ =~= Seq::<(i32, PendingEntry)>::empty());
            assert(before.take(before.len() as int) =~= before);
        }
        closed_pids
    }
}

/// Two allocations in a row observe distinct packet ids: the allocator steps
/// through the wrapping 32-bit pid space, whose successor never equals its
/// argument.
pub proof fn lemma_next_pid_distinct(last: i32)
    ensures
        spec_next_pid(last) != last,
{
}

/// The pending table is bounded by the requests in flight: only recording a
/// request grows it, by exactly one entry, while dispatching a reply and
/// sweeping timeouts never grow it.
pub proof fn lemma_pending_size_bound(
    s: Seq<(i32, PendingEntry)>,
    e: (i32, PendingEntry),
    i: int,
    now_ms: u64,
    timeout_ms: u64,
)
    requires
        0 <= i < s.len(),
    ensures
        s.push(e).len() == s.len() + 1,
        s.remove(i).len() == s.len() - 1,
        spec_sweep_keep(s, now_ms, timeout_ms).len() <= s.len(),
{
    broadcast use vstd::seq_lib::group_filter_ensures;

}

/// An element of a filtered table is an element of the table.
proof fn lemma_filter_elem_of(s: Seq<(i32, PendingEntry)>, pred: spec_fn((i32, PendingEntry)) -> bool, k: int)
    requires
        0 <= k < s.filter(pred).len(),
    ensures
        s.contains(s.filter(pred)[k]),
    decreases s.len(),
{
    reveal(Seq::filter);
    if s.len() > 0 {
        let sub = s.drop_last().filter(pred);
        if k < sub.len() {
            lemma_filter_elem_of(s.drop_last(), pred, k);
            let m = choose|m: int| 0 <= m < s.drop_last().len() && s.drop_last()[m] == sub[k];
            assert(s[m] == s.filter(pred)[k]);
        } else {
            assert(s[s.len() - 1] == s.filter(pred)[k]);
        }
    }
}

/// Each allocated packet id is resolved at most once: delivering the reply
/// removes the entry, after which no sweep can time the same id out and no
/// shutdown drain can close it, because every path requires the entry to be
/// present and removes it.
pub proof fn lemma_each_pid_resolved_once(
    s: Seq<(i32, PendingEntry)>,
    i: int,
    pid: i32,
    now_ms: u64,
    timeout_ms: u64,
)
    requires
        pending_unique(s),
        0 <= i < s.len(),
        s[i].0 == pid,
    ensures
        pending_unique(s.remove(i)),
        !pending_has(s.remove(i), pid),
        !spec_sweep_expired_pids(s.remove(i), now_ms, timeout_ms).contains(pid),
{
    broadcast use vstd::seq_lib::group_filter_ensures;

    lemma_remove_membership(s, i);
    let t = s.remove(i);
    let exp_pred = |e: (i32, PendingEntry)| spec_expired(e.1, now_ms, timeout_ms);
    let expired = t.filter(exp_pred);
    let pids = expired.map_values(|e: (i32, PendingEntry)| e.0);
    assert(!spec_sweep_expired_pids(t, now_ms, timeout_ms).contains(pid)) by {
        if pids.contains(pid) {
            let k = choose|k: int| 0 <= k < pids.len() && pids[k] == pid;
            assert(expired[k].0 == pid);
            lemma_filter_elem_of(t, exp_pred, k);
            let m = choose|m: int| 0 <= m < t.len() && t[m] == expired[k];
            assert((#[trigger] t[m]).0 == pid);
        }
    }
}


#[verifier::external_type_specification]
#[verifier::external_body]
pub struct ExBsonDocument(bson::Document);

/// Relies on bson's `to_vec`: serialises a document to its BSON bytes; a
/// serialisation failure becomes `None`.
#[verifier::external_body]
fn bson_to_vec_raw(doc: &bson::Document) -> (r: Option<Vec<u8>>)
{
    bson::to_vec(doc).ok()
}

/// Relies on bson's `Document::from_reader`: parses one BSON document from
/// the front of the byte slice; a parse failure becomes `None`.
#[verifier::external_body]
fn bson_from_bytes_raw(bytes: &[u8]) -> (r: Option<bson::Document>)
{
    bson::Document::from_reader(bytes).ok()
}

/// Serialise a request or reply body to its BSON bytes.
pub fn encode_bson_document(doc: &bson::Document) -> (r: Result<Vec<u8>, Error>)
    ensures
        r is Err ==> r == Err::<Vec<u8>, Error>(Error::BsonSer),
{
    match bson_to_vec_raw(doc) {
        Some(v) => Ok(v),
        None => Err(Error::BsonSer),
    }
}

/// Parse an inbound body's bytes into a BSON document.
pub fn decode_bson_document(bytes: &[u8]) -> (r: Result<bson::Document, Error>)
    ensures
        r is Err ==> r == Err::<bson::Document, Error>(Error::BsonDe),
{
    match bson_from_bytes_raw(bytes) {
        Some(d) => Ok(d),
        None => Err(Error::BsonDe),
    }
}

/// The wire image of one outbound BSON request: the 22-byte head carrying
/// the packet id, a zero status, the padded method, the BSON discriminant
/// and the body length, then the body.
pub open spec fn spec_request_frame(pid: i32, method_bytes: Seq<u8>, body: Seq<u8>) -> Seq<u8> {
    vstd::bytes::spec_u32_to_le_bytes(pid as u32) + vstd::bytes::spec_u16_to_le_bytes(0u16)
        + spec_method_bytes(method_bytes) + seq![0u8] + vstd::bytes::spec_u32_to_le_bytes(
        body.len() as u32,
    ) + body
}

/// Frame one outbound BSON request: head and body as a single byte string,
/// written to the wire in one piece under the writer lock.
pub fn build_request_frame(packet_id: i32, method: &str, body_raw: &Vec<u8>) -> (r: Result<
    Vec<u8>,
    Error,
>)
    ensures
        r is Ok <==> vstd::utf8::encode_utf8(method@).len() <= 11 && body_raw@.len() <= u32::MAX,
        r matches Ok(frame) ==> {
            &&& frame@ == spec_request_frame(
                packet_id,
                vstd::utf8::encode_utf8(method@),
                body_raw@,
            )
            &&& frame@.len() == 22 + body_raw@.len()
        },
        r is Err ==> (r == Err::<Vec<u8>, Error>(Error::Io) || r == Err::<Vec<u8>, Error>(
            Error::BsonSer,
        )),
        r is Err && vstd::utf8::encode_utf8(method@).len() > 11 ==> r == Err::<Vec<u8>, Error>(
            Error::Io,
        ),
{
    let encoded = match EncodedMethod::from_str(method) {
        Ok(m) => m,
        Err(_) => {
            return Err(Error::Io);
        },
    };
    if body_raw.len() > u32::MAX as usize {
        return Err(Error::BsonSer);
    }
    let header = crate::loco_header::LocoHeader {
        id: packet_id,
        status: 0,
        method: encoded,
        body_type: BodyType::Bson,
        body_size: body_raw.len() as u32,
    };
    let mut frame: Vec<u8> = Vec::new();
    header.serialize_into(&mut frame);
    frame.extend_from_slice(body_raw.as_slice());
    proof {
        assert((0i8 as u8) == 0u8) by (bit_vector);
        vstd::bytes::lemma_auto_spec_u32_to_from_le_bytes();
        vstd::bytes::lemma_auto_spec_u16_to_from_le_bytes();
        let mb = vstd::utf8::encode_utf8(method@);
        assert(encoded.0@ == spec_method_bytes(mb));
        assert(header.body_type.spec_code() == 0i8);
        assert(seq![header.body_type.spec_code() as u8] =~= seq![0u8]);
        assert((body_raw@.len() as usize) as u32 == body_raw@.len() as u32);
        assert(frame@ =~= spec_request_frame(packet_id, mb, body_raw@));
        assert(frame@.len() == 22 + body_raw@.len());
    }
    Ok(frame)
}

} // verus!
