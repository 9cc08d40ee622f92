//! The connection registry: bookkeeping of connected clients, each with an
//! outbound message channel and a last-heartbeat-response timestamp, together
//! with the broadcast engine and the timeout scan that feed on it.

use vstd::prelude::*;
use tokio::sync::mpsc::UnboundedSender;

verus! {

/// Declares tokio's `sync::mpsc::UnboundedSender` so registry entries can
/// hold one; the value itself stays opaque.
#[verifier::external_type_specification]
#[verifier::external_body]
#[verifier::reject_recursive_types(T)]
pub struct ExUnboundedSender<T>(UnboundedSender<T>);

/// Relies on tokio::sync::mpsc::UnboundedSender::send: the message is queued
/// for the receiving half and true comes back, unless the receiver has been
/// dropped, in which case false comes back. Whether the receiver is still
/// alive is outside state, so nothing more is promised of the result.
#[verifier::external_body]
fn try_send(sender: &UnboundedSender<String>, text: &str) -> bool {
    sender.send(text.to_string()).is_ok()
}

/// Relies on tokio::sync::mpsc::UnboundedSender::clone: the clone enqueues
/// into the same channel as the original.
#[verifier::external_body]
fn clone_sender(sender: &UnboundedSender<String>) -> UnboundedSender<String> {
    sender.clone()
}

/// One registered client: its identifier, the instant (in seconds) of its
/// last heartbeat response, and the outbound channel its gateway drains.
pub struct ClientEntry {
    pub id: usize,
    pub last_pong: u64,
    pub sender: UnboundedSender<String>,
}

/// The connected-client store. Entries are kept in increasing identifier
/// order; identifiers are allocated by a monotone counter and never reused.
pub struct ClientManager {
    entries: Vec<ClientEntry>,
    next_id: usize,
}

/// Whether some entry of `s` carries the identifier `id`.
pub open spec fn contains_id(s: Seq<ClientEntry>, id: usize) -> bool {
    exists|i: int| 0 <= i < s.len() && s[i].id == id
}

/// Identifiers strictly increase along the sequence; this implies that no
/// identifier occurs twice.
pub open spec fn sorted_ids(s: Seq<ClientEntry>) -> bool {
    forall|i: int, j: int| 0 <= i < j < s.len() ==> s[i].id < s[j].id
}

/// `s` with every entry of identifier `id` taken out; order is kept.
pub open spec fn remove_id(s: Seq<ClientEntry>, id: usize) -> Seq<ClientEntry>
    decreases s.len(),
{
    if s.len() == 0 {
        Seq::<ClientEntry>::empty()
    } else {
        let rest = remove_id(s.drop_last(), id);
        if s.last().id == id {
            rest
        } else {
            rest.push(s.last())
        }
    }
}

/// An entry survives `remove_id` exactly when it was there and does not
/// carry the removed identifier.
pub proof fn lemma_remove_id_contains(s: Seq<ClientEntry>, id: usize)
    ensures
        forall|x: ClientEntry|
            #[trigger] remove_id(s, id).contains(x) <==> s.contains(x) && x.id != id,
    decreases s.len(),
{
    if s.len() > 0 {
        lemma_remove_id_contains(s.drop_last(), id);
        assert forall|x: ClientEntry|
            #[trigger] remove_id(s, id).contains(x) <==> s.contains(x) && x.id != id by {
            let rest = remove_id(s.drop_last(), id);
            if s.contains(x) && x.id != id {
                let i = choose|i: int| 0 <= i < s.len() && s[i] == x;
                if i < s.len() - 1 {
                    assert(s.drop_last()[i] == x);
                    assert(s.drop_last().contains(x));
                    assert(rest.contains(x));
                    let j = choose|j: int| 0 <= j < rest.len() && rest[j] == x;
                    if s.last().id == id {
                        assert(remove_id(s, id)[j] == x);
                    } else {
                        assert(remove_id(s, id) == rest.push(s.last()));
                        assert(remove_id(s, id)[j] == x);
                    }
                    assert(remove_id(s, id).contains(x));
                } else {
                    assert(x == s.last());
                    assert(remove_id(s, id) == rest.push(s.last()));
                    assert(remove_id(s, id)[rest.len() as int] == x);
                    assert(remove_id(s, id).contains(x));
                }
            }
            if remove_id(s, id).contains(x) {
                let j = choose|j: int|
                    0 <= j < remove_id(s, id).len() && remove_id(s, id)[j] == x;
                if s.last().id == id || j < rest.len() {
                    assert(rest[j] == x);
                    assert(rest.contains(x));
                    assert(s.drop_last().contains(x) && x.id != id);
                    let i = choose|i: int|
                        0 <= i < s.drop_last().len() && s.drop_last()[i] == x;
                    assert(s[i] == x);
                    assert(s.contains(x));
                } else {
                    assert(x == s.last());
                    assert(s[s.len() - 1] == x);
                    assert(s.contains(x));
                }
            }
        }
    }
}

/// Removing an identifier that no entry carries changes nothing.
pub proof fn lemma_remove_id_absent(s: Seq<ClientEntry>, id: usize)
    requires
        !contains_id(s, id),
    ensures
        remove_id(s, id) == s,
    decreases s.len(),
{
    if s.len() > 0 {
        assert(forall|i: int| 0 <= i < s.drop_last().len() ==> s.drop_last()[i] == s[i]);
        lemma_remove_id_absent(s.drop_last(), id);
        assert(s[s.len() - 1].id != id);
        assert(remove_id(s, id) =~= s);
    }
}

/// When identifiers are unique and `id` sits exactly at index `idx`,
/// `remove_id` is removal of that one index.
pub proof fn lemma_remove_id_at(s: Seq<ClientEntry>, id: usize, idx: int)
    requires
        sorted_ids(s),
        0 <= idx < s.len(),
        s[idx].id == id,
    ensures
        remove_id(s, id) == s.remove(idx),
    decreases s.len(),
{
    if idx == s.len() - 1 {
        assert(forall|i: int|
            0 <= i < s.drop_last().len() ==> #[trigger] s.drop_last()[i].id != id);
        lemma_remove_id_absent(s.drop_last(), id);
        assert(remove_id(s, id) =~= s.remove(idx));
    } else {
        assert(forall|i: int, j: int|
            0 <= i < j < s.drop_last().len() ==> s.drop_last()[i].id < s.drop_last()[j].id);
        lemma_remove_id_at(s.drop_last(), id, idx);
        assert(s.last().id != id);
        assert(remove_id(s, id) == s.drop_last().remove(idx).push(s.last()));
        assert(remove_id(s, id) =~= s.remove(idx));
    }
}

/// `s` with the heartbeat timestamp of every entry of identifier `id`
/// overwritten to `now`; everything else is untouched.
pub open spec fn touch_id(s: Seq<ClientEntry>, id: usize, now: u64) -> Seq<ClientEntry> {
    s.map(|i: int, e: ClientEntry|
        if e.id == id {
            (ClientEntry { id: e.id, last_pong: now, sender: e.sender })
        } else {
            e
        })
}

/// A client is overdue when the time since its last heartbeat response
/// strictly exceeds the timeout threshold. Earlier-than-recorded clocks
/// count as no elapsed time at all.
pub open spec fn is_timed_out(e: ClientEntry, timeout_secs: u64, now: u64) -> bool {
    e.last_pong <= now && now - e.last_pong > timeout_secs
}

/// The identifiers of the overdue entries of `s`, in enumeration order.
pub open spec fn timed_out_ids(s: Seq<ClientEntry>, timeout_secs: u64, now: u64) -> Seq<usize>
    decreases s.len(),
{
    if s.len() == 0 {
        Seq::<usize>::empty()
    } else {
        let rest = timed_out_ids(s.drop_last(), timeout_secs, now);
        if is_timed_out(s.last(), timeout_secs, now) {
            rest.push(s.last().id)
        } else {
            rest
        }
    }
}

/// An identifier stands in the timeout batch exactly when one of the
/// entries carrying it is overdue.
pub proof fn lemma_timed_out_ids_contains(s: Seq<ClientEntry>, timeout_secs: u64, now: u64)
    ensures
        forall|id: usize|
            #[trigger] timed_out_ids(s, timeout_secs, now).contains(id)
                <==> exists|i: int|
                    0 <= i < s.len() && s[i].id == id && is_timed_out(s[i], timeout_secs, now),
    decreases s.len(),
{
    if s.len() > 0 {
        lemma_timed_out_ids_contains(s.drop_last(), timeout_secs, now);
        assert forall|id: usize|
            #[trigger] timed_out_ids(s, timeout_secs, now).contains(id)
                <==> exists|i: int|
                    0 <= i < s.len() && s[i].id == id && is_timed_out(s[i], timeout_secs, now) by {
            let rest = timed_out_ids(s.drop_last(), timeout_secs, now);
            if timed_out_ids(s, timeout_secs, now).contains(id) {
                let j = choose|j: int|
                    0 <= j < timed_out_ids(s, timeout_secs, now).len()
                        && timed_out_ids(s, timeout_secs, now)[j] == id;
                if !is_timed_out(s.last(), timeout_secs, now) || j < rest.len() {
                    assert(rest[j] == id);
                    assert(rest.contains(id));
                    let i = choose|i: int|
                        0 <= i < s.drop_last().len() && s.drop_last()[i].id == id
                            && is_timed_out(s.drop_last()[i], timeout_secs, now);
                    assert(s[i].id == id && is_timed_out(s[i], timeout_secs, now));
                } else {
                    assert(id == s.last().id);
                    assert(s[s.len() - 1].id == id && is_timed_out(s[s.len() - 1], timeout_secs, now));
                }
            }
            if exists|i: int|
                0 <= i < s.len() && s[i].id == id && is_timed_out(s[i], timeout_secs, now) {
                let i = choose|i: int|
                    0 <= i < s.len() && s[i].id == id && is_timed_out(s[i], timeout_secs, now);
                if i < s.len() - 1 {
                    assert(s.drop_last()[i].id == id
                        && is_timed_out(s.drop_last()[i], timeout_secs, now));
                    assert(rest.contains(id));
                    let j = choose|j: int| 0 <= j < rest.len() && rest[j] == id;
                    assert(timed_out_ids(s, timeout_secs, now)[j] == id);
                    assert(timed_out_ids(s, timeout_secs, now).contains(id));
                } else {
                    assert(is_timed_out(s.last(), timeout_secs, now));
                    assert(timed_out_ids(s, timeout_secs, now)[rest.len() as int] == id);
                    assert(timed_out_ids(s, timeout_secs, now).contains(id));
                }
            }
        }
    }
}

/// `s` with every entry whose identifier stands in `ids` taken out.
pub open spec fn remove_ids(s: Seq<ClientEntry>, ids: Seq<usize>) -> Seq<ClientEntry>
    decreases ids.len(),
{
    if ids.len() == 0 {
        s
    } else {
        remove_id(remove_ids(s, ids.drop_last()), ids.last())
    }
}

/// Entries survive a batch removal exactly when their identifier is not in
/// the batch.
pub proof fn lemma_remove_ids_contains(s: Seq<ClientEntry>, ids: Seq<usize>)
    ensures
        forall|x: ClientEntry|
            #[trigger] remove_ids(s, ids).contains(x) <==> s.contains(x) && !ids.contains(x.id),
    decreases ids.len(),
{
    if ids.len() > 0 {
        lemma_remove_ids_contains(s, ids.drop_last());
        lemma_remove_id_contains(remove_ids(s, ids.drop_last()), ids.last());
        assert forall|x: ClientEntry|
            #[trigger] remove_ids(s, ids).contains(x)
                <==> s.contains(x) && !ids.contains(x.id) by {
            if s.contains(x) && !ids.contains(x.id) {
                assert forall|j: int| 0 <= j < ids.drop_last().len()
                    implies #[trigger] ids.drop_last()[j] != x.id by {
                    assert(ids[j] == ids.drop_last()[j]);
                }
                assert(!ids.drop_last().contains(x.id));
                assert(x.id != ids.last());
                assert(remove_ids(s, ids.drop_last()).contains(x));
            }
            if remove_ids(s, ids).contains(x) {
                assert(remove_ids(s, ids.drop_last()).contains(x) && x.id != ids.last());
                assert(s.contains(x) && !ids.drop_last().contains(x.id));
                if ids.contains(x.id) {
                    let j = choose|j: int| 0 <= j < ids.len() && ids[j] == x.id;
                    assert(j < ids.len() - 1 ==> ids.drop_last()[j] == x.id);
                    assert(false);
                }
            }
        }
    }
}

/// How many of the per-client delivery outcomes succeeded.
pub open spec fn count_true(s: Seq<bool>) -> int
    decreases s.len(),
{
    if s.len() == 0 {
        0
    } else {
        count_true(s.drop_last()) + if s.last() { 1int } else { 0int }
    }
}

/// `s` restricted to the positions whose outcome in `keep` is true; order
/// is kept. Meaningful when the two sequences have the same length.
pub open spec fn keep_by(s: Seq<ClientEntry>, keep: Seq<bool>) -> Seq<ClientEntry>
    recommends
        keep.len() == s.len(),
    decreases s.len(),
{
    if s.len() == 0 {
        Seq::<ClientEntry>::empty()
    } else {
        let rest = keep_by(s.drop_last(), keep.drop_last());
        if keep.last() {
            rest.push(s.last())
        } else {
            rest
        }
    }
}

/// Exactly the successful positions survive, so the survivors number the
/// successes.
pub proof fn lemma_keep_by_len(s: Seq<ClientEntry>, keep: Seq<bool>)
    requires
        keep.len() == s.len(),
    ensures
        keep_by(s, keep).len() == count_true(keep),
    decreases s.len(),
{
    if s.len() > 0 {
        lemma_keep_by_len(s.drop_last(), keep.drop_last());
    }
}

/// Every survivor of `keep_by` was an entry of `s`.
pub proof fn lemma_keep_by_contains(s: Seq<ClientEntry>, keep: Seq<bool>)
    requires
        keep.len() == s.len(),
    ensures
        forall|x: ClientEntry| #[trigger] keep_by(s, keep).contains(x) ==> s.contains(x),
    decreases s.len(),
{
    if s.len() > 0 {
        lemma_keep_by_contains(s.drop_last(), keep.drop_last());
        assert forall|x: ClientEntry| #[trigger] keep_by(s, keep).contains(x)
            implies s.contains(x) by {
            let rest = keep_by(s.drop_last(), keep.drop_last());
            let j = choose|j: int|
                0 <= j < keep_by(s, keep).len() && keep_by(s, keep)[j] == x;
            if !keep.last() || j < rest.len() {
                assert(rest[j] == x);
                assert(rest.contains(x));
                assert(s.drop_last().contains(x));
                let i = choose|i: int|
                    0 <= i < s.drop_last().len() && s.drop_last()[i] == x;
                assert(s[i] == x);
                assert(s.contains(x));
            } else {
                assert(x == s.last());
                assert(s[s.len() - 1] == x);
                assert(s.contains(x));
            }
        }
    }
}

/// A selection out of a strictly increasing sequence stays strictly
/// increasing.
pub proof fn lemma_keep_by_sorted(s: Seq<ClientEntry>, keep: Seq<bool>)
    requires
        keep.len() == s.len(),
        sorted_ids(s),
    ensures
        sorted_ids(keep_by(s, keep)),
    decreases s.len(),
{
    if s.len() > 0 {
        assert(forall|i: int, j: int|
            0 <= i < j < s.drop_last().len()
                ==> s.drop_last()[i].id < s.drop_last()[j].id);
        lemma_keep_by_sorted(s.drop_last(), keep.drop_last());
        lemma_keep_by_contains(s.drop_last(), keep.drop_last());
        if keep.last() {
            let rest = keep_by(s.drop_last(), keep.drop_last());
            assert forall|i: int, j: int|
                0 <= i < j < keep_by(s, keep).len()
                implies keep_by(s, keep)[i].id < keep_by(s, keep)[j].id by {
                if j < rest.len() {
                    assert(rest[i].id < rest[j].id);
                } else {
                    assert(rest.contains(rest[i]));
                    assert(s.drop_last().contains(rest[i]));
                    let p = choose|p: int|
                        0 <= p < s.drop_last().len() && s.drop_last()[p] == rest[i];
                    assert(s[p].id < s.last().id);
                }
            }
        }
    }
}

/// The identifiers of the entries of `s`, in enumeration order.
pub open spec fn ids_of(s: Seq<ClientEntry>) -> Seq<usize> {
    s.map_values(|e: ClientEntry| e.id)
}

/// No double-count and no leak: whatever sequence of registrations and
/// removals built the registry, the connected-set size any query reports
/// equals the number of distinct still-registered identifiers.
pub proof fn lemma_count_is_distinct_ids(m: ClientManager)
    requires
        m.wf(),
    ensures
        m.entries_seq().len() == ids_of(m.entries_seq()).to_set().len(),
{
    let ids = ids_of(m.entries_seq());
    assert forall|i: int, j: int| 0 <= i < j < ids.len() implies ids[i] != ids[j] by {
        assert(m.entries_seq()[i].id < m.entries_seq()[j].id);
    }
    ids.unique_seq_to_set();
}

/// A registration adds exactly its own identifier to the registered set.
pub proof fn lemma_register_adds_one_id(s: Seq<ClientEntry>, e: ClientEntry)
    ensures
        ids_of(s.push(e)).to_set() =~= ids_of(s).to_set().insert(e.id),
{
    assert forall|x: usize| ids_of(s.push(e)).contains(x)
        implies ids_of(s).to_set().insert(e.id).contains(x) by {
        let t = s.push(e);
        let i = choose|i: int| 0 <= i < ids_of(t).len() && ids_of(t)[i] == x;
        if i < s.len() {
            assert(ids_of(s)[i] == x);
            assert(ids_of(s).contains(x));
        } else {
            assert(t[i] == e);
        }
    }
    assert forall|x: usize| ids_of(s).to_set().insert(e.id).contains(x)
        implies ids_of(s.push(e)).contains(x) by {
        let t = s.push(e);
        if x == e.id {
            assert(ids_of(t)[s.len() as int] == x);
        } else {
            let i = choose|i: int| 0 <= i < ids_of(s).len() && ids_of(s)[i] == x;
            assert(ids_of(t)[i] == x);
        }
    }
}

/// An unregistration removes exactly its own identifier from the
/// registered set, whether or not it was there.
pub proof fn lemma_unregister_removes_one_id(s: Seq<ClientEntry>, id: usize)
    ensures
        ids_of(remove_id(s, id)).to_set() =~= ids_of(s).to_set().remove(id),
{
    lemma_remove_id_contains(s, id);
    let t = remove_id(s, id);
    assert forall|x: usize| ids_of(t).contains(x)
        implies ids_of(s).to_set().remove(id).contains(x) by {
        let i = choose|i: int| 0 <= i < ids_of(t).len() && ids_of(t)[i] == x;
        assert(t.contains(t[i]));
        assert(s.contains(t[i]) && t[i].id != id);
        let j = choose|j: int| 0 <= j < s.len() && s[j] == t[i];
        assert(ids_of(s)[j] == x);
        assert(ids_of(s).contains(x));
    }
    assert forall|x: usize| ids_of(s).to_set().remove(id).contains(x)
        implies ids_of(t).contains(x) by {
        let j = choose|j: int| 0 <= j < ids_of(s).len() && ids_of(s)[j] == x;
        assert(s[j].id == x);
        assert(s.contains(s[j]));
        assert(t.contains(s[j]));
        let i = choose|i: int| 0 <= i < t.len() && t[i] == s[j];
        assert(ids_of(t)[i] == x);
    }
}

/// With every channel healthy at broadcast time, every one of the N
/// registered clients is reached and none is evicted: the tally is (N, N).
pub proof fn lemma_broadcast_all_healthy(s: Seq<ClientEntry>, outcomes: Seq<bool>)
    requires
        outcomes.len() == s.len(),
        forall|i: int| 0 <= i < outcomes.len() ==> outcomes[i],
    ensures
        count_true(outcomes) == s.len(),
        keep_by(s, outcomes) == s,
    decreases s.len(),
{
    if s.len() > 0 {
        assert(forall|i: int|
            0 <= i < outcomes.drop_last().len() ==> outcomes.drop_last()[i]);
        lemma_broadcast_all_healthy(s.drop_last(), outcomes.drop_last());
        assert(outcomes.last());
        assert(keep_by(s, outcomes) =~= s);
    }
}

/// With exactly one failing channel among N at broadcast time, the tally
/// is (N-1, N), the registry afterwards is the snapshot less that one
/// entry, and that client's identifier is gone from it.
pub proof fn lemma_broadcast_one_failure(s: Seq<ClientEntry>, outcomes: Seq<bool>, f: int)
    requires
        outcomes.len() == s.len(),
        0 <= f < outcomes.len(),
        !outcomes[f],
        forall|i: int| 0 <= i < outcomes.len() && i != f ==> outcomes[i],
        sorted_ids(s),
    ensures
        count_true(outcomes) == s.len() - 1,
        keep_by(s, outcomes) == s.remove(f),
        !contains_id(keep_by(s, outcomes), s[f].id),
    decreases s.len(),
{
    if f == s.len() - 1 {
        assert(forall|i: int|
            0 <= i < outcomes.drop_last().len() ==> outcomes.drop_last()[i]);
        lemma_broadcast_all_healthy(s.drop_last(), outcomes.drop_last());
        assert(keep_by(s, outcomes) =~= s.remove(f));
    } else {
        assert(forall|i: int, j: int|
            0 <= i < j < s.drop_last().len()
                ==> s.drop_last()[i].id < s.drop_last()[j].id);
        lemma_broadcast_one_failure(s.drop_last(), outcomes.drop_last(), f);
        assert(outcomes.last());
        assert(keep_by(s, outcomes) == s.drop_last().remove(f).push(s.last()));
        assert(keep_by(s, outcomes) =~= s.remove(f));
    }
    assert forall|p: int| 0 <= p < s.remove(f).len()
        implies #[trigger] s.remove(f)[p].id != s[f].id by {
        if p < f {
            assert(s[p].id < s[f].id);
        } else {
            assert(s[f].id < s[p + 1].id);
        }
    }
}

/// Unregistering the same identifier twice is the same as once, and
/// entries of every other identifier are untouched either way.
pub proof fn lemma_unregister_idempotent(s: Seq<ClientEntry>, id: usize)
    ensures
        remove_id(remove_id(s, id), id) == remove_id(s, id),
        forall|x: ClientEntry|
            x.id != id ==> (#[trigger] remove_id(s, id).contains(x) <==> s.contains(x)),
{
    lemma_remove_id_contains(s, id);
    if contains_id(remove_id(s, id), id) {
        let p = choose|p: int|
            0 <= p < remove_id(s, id).len() && remove_id(s, id)[p].id == id;
        assert(remove_id(s, id).contains(remove_id(s, id)[p]));
    }
    lemma_remove_id_absent(remove_id(s, id), id);
}

/// After an eviction no later broadcast reaches the evicted client: an
/// absent identifier stays absent through the broadcast's own follow-up
/// pass, whatever the delivery outcomes were.
pub proof fn lemma_absent_stays_absent(s: Seq<ClientEntry>, outcomes: Seq<bool>, id: usize)
    requires
        outcomes.len() == s.len(),
        !contains_id(s, id),
    ensures
        !contains_id(keep_by(s, outcomes), id),
{
    lemma_keep_by_contains(s, outcomes);
    if contains_id(keep_by(s, outcomes), id) {
        let p = choose|p: int|
            0 <= p < keep_by(s, outcomes).len() && keep_by(s, outcomes)[p].id == id;
        assert(keep_by(s, outcomes).contains(keep_by(s, outcomes)[p]));
        assert(s.contains(keep_by(s, outcomes)[p]));
        let q = choose|q: int| 0 <= q < s.len() && s[q] == keep_by(s, outcomes)[p];
        assert(s[q].id == id);
    }
}

impl ClientManager {
    /// The registry's contents, in enumeration order.
    pub closed spec fn entries_seq(self) -> Seq<ClientEntry> {
        self.entries@
    }

    /// The identifier the next registration will receive.
    pub closed spec fn next_id_spec(self) -> usize {
        self.next_id
    }

    /// Well-formedness: entries stand in increasing identifier order and
    /// every identifier is below the allocation counter.
    pub open spec fn wf(self) -> bool {
        &&& sorted_ids(self.entries_seq())
        &&& forall|i: int| 0 <= i < self.entries_seq().len()
                ==> #[trigger] self.entries_seq()[i].id < self.next_id_spec()
    }

    /// Create an empty registry.
    pub fn new() -> (m: ClientManager)
        ensures
            m.wf(),
            m.entries_seq() =~= Seq::<ClientEntry>::empty(),
            m.next_id_spec() == 0,
    {
        ClientManager { entries: Vec::new(), next_id: 0 }
    }

    /// The identifier the next registration will receive. The counter is
    /// monotone: identifiers are never reused within a process lifetime.
    pub fn next_client_id(&self) -> (n: usize)
        ensures
            n == self.next_id_spec(),
    {
        self.next_id
    }

    /// The current connected-set size.
    pub fn client_count(&self) -> (n: usize)
        ensures
            n == self.entries_seq().len(),
    {
        self.entries.len()
    }

    /// Register a new client: allocate the next identifier and append its
    /// record (membership, channel, fresh heartbeat timestamp) as one unit.
    /// `now` is the registration instant in seconds.
    pub fn register(&mut self, sender: UnboundedSender<String>, now: u64) -> (id: usize)
        requires
            old(self).wf(),
            old(self).next_id_spec() < usize::MAX,
        ensures
            final(self).wf(),
            id == old(self).next_id_spec(),
            final(self).next_id_spec() == id + 1,
            final(self).entries_seq()
                == old(self).entries_seq().push((ClientEntry { id, last_pong: now, sender })),
            !contains_id(old(self).entries_seq(), id),
    {
        let id = self.next_id;
        self.next_id = id + 1;
        self.entries.push(ClientEntry { id, last_pong: now, sender });
        proof {
            let s = self.entries@;
            assert forall|i: int, j: int| 0 <= i < j < s.len() implies s[i].id < s[j].id by {
                if j == s.len() - 1 {
                    assert(old(self).entries@[i].id < old(self).next_id);
                }
            }
        }
        id
    }

    /// Remove the record of `id` if present: membership, channel and
    /// heartbeat timestamp leave together. Absent identifiers are a no-op.
    pub fn unregister(&mut self, id: usize)
        requires
            old(self).wf(),
        ensures
            final(self).wf(),
            final(self).entries_seq() == remove_id(old(self).entries_seq(), id),
            final(self).next_id_spec() == old(self).next_id_spec(),
            !contains_id(final(self).entries_seq(), id),
            !contains_id(old(self).entries_seq(), id)
                ==> final(self).entries_seq() == old(self).entries_seq(),
    {
        self.remove_entry(id);
        proof {
            lemma_remove_id_contains(old(self).entries_seq(), id);
            if contains_id(self.entries_seq(), id) {
                let i = choose|i: int|
                    0 <= i < self.entries_seq().len() && self.entries_seq()[i].id == id;
                assert(self.entries_seq().contains(self.entries_seq()[i]));
            }
            if !contains_id(old(self).entries_seq(), id) {
                lemma_remove_id_absent(old(self).entries_seq(), id);
            }
        }
    }

    /// Overwrite the heartbeat timestamp of `id` to `now`. An absent
    /// identifier (for instance one that raced with an eviction) is a
    /// silent no-op: no entry is created.
    pub fn update_pong(&mut self, id: usize, now: u64)
        requires
            old(self).wf(),
        ensures
            final(self).wf(),
            final(self).entries_seq() == touch_id(old(self).entries_seq(), id, now),
            final(self).entries_seq().len() == old(self).entries_seq().len(),
            final(self).next_id_spec() == old(self).next_id_spec(),
            !contains_id(old(self).entries_seq(), id)
                ==> final(self).entries_seq() == old(self).entries_seq(),
    {
        let n = self.entries.len();
        let mut i: usize = 0;
        while i < n
            invariant
                n == self.entries@.len(),
                i <= n,
                self.entries@ == old(self).entries@,
                self.next_id == old(self).next_id,
                old(self).wf(),
                forall|j: int| 0 <= j < i ==> #[trigger] self.entries@[j].id != id,
            decreases n - i,
        {
            if self.entries[i].id == id {
                let mut e = self.entries.remove(i);
                e.last_pong = now;
                self.entries.insert(i, e);
                proof {
                    let s = old(self).entries@;
                    let t = touch_id(s, id, now);
                    assert forall|j: int| 0 <= j < t.len()
                        implies self.entries@[j] == t[j] by {
                        if j < i {
                            assert(s[j].id != id);
                        } else if j > i {
                            assert(s[i as int].id < s[j].id);
                        }
                    }
                    assert(self.entries@ =~= t);
                    assert(forall|j: int| 0 <= j < t.len() ==> #[trigger] t[j].id == s[j].id);
                }
                return;
            }
            i += 1;
        }
        proof {
            let s = old(self).entries@;
            assert(self.entries@ =~= touch_id(s, id, now));
        }
    }

    /// Scan for overdue clients: the identifiers of all entries whose time
    /// since the last heartbeat response strictly exceeds `timeout_secs`, in
    /// enumeration order. The registry itself is untouched.
    pub fn check_timeouts(&self, timeout_secs: u64, now: u64) -> (v: Vec<usize>)
        requires
            self.wf(),
        ensures
            v@ == timed_out_ids(self.entries_seq(), timeout_secs, now),
            forall|i: int| 0 <= i < self.entries_seq().len()
                ==> (v@.contains(#[trigger] self.entries_seq()[i].id)
                    <==> is_timed_out(self.entries_seq()[i], timeout_secs, now)),
    {
        let n = self.entries.len();
        let mut v: Vec<usize> = Vec::new();
        let mut i: usize = 0;
        while i < n
            invariant
                n == self.entries@.len(),
                i <= n,
                v@ == timed_out_ids(self.entries@.take(i as int), timeout_secs, now),
            decreases n - i,
        {
            let last = self.entries[i].last_pong;
            if now >= last && now - last > timeout_secs {
                v.push(self.entries[i].id);
            }
            proof {
                let s = self.entries@;
                assert(s.take(i as int + 1).drop_last() =~= s.take(i as int));
                assert(s.take(i as int + 1).last() == s[i as int]);
            }
            i += 1;
        }
        proof {
            let s = self.entries@;
            assert(s.take(n as int) =~= s);
            lemma_timed_out_ids_contains(s, timeout_secs, now);
            assert forall|i: int| 0 <= i < s.len()
                implies (v@.contains(#[trigger] s[i].id)
                    <==> is_timed_out(s[i], timeout_secs, now)) by {
                if v@.contains(s[i].id) {
                    let k = choose|k: int|
                        0 <= k < s.len() && s[k].id == s[i].id
                            && is_timed_out(s[k], timeout_secs, now);
                    if k < i {
                        assert(s[k].id < s[i].id);
                    } else if k > i {
                        assert(s[i].id < s[k].id);
                    }
                    assert(k == i);
                }
                if is_timed_out(s[i], timeout_secs, now) {
                    assert(0 <= i < s.len() && s[i].id == s[i].id
                        && is_timed_out(s[i], timeout_secs, now));
                    assert(v@.contains(s[i].id));
                }
            }
        }
        v
    }

    /// Evict a batch of identifiers in one pass, as the timeout scan asks:
    /// each identifier's membership, channel and timestamp leave together,
    /// and identifiers with no entry are no-ops.
    pub fn disconnect_clients(&mut self, client_ids: Vec<usize>)
        requires
            old(self).wf(),
        ensures
            final(self).wf(),
            final(self).entries_seq() == remove_ids(old(self).entries_seq(), client_ids@),
            final(self).next_id_spec() == old(self).next_id_spec(),
            forall|j: int| 0 <= j < client_ids@.len()
                ==> !contains_id(final(self).entries_seq(), #[trigger] client_ids@[j]),
    {
        let k = client_ids.len();
        let mut i: usize = 0;
        while i < k
            invariant
                k == client_ids@.len(),
                i <= k,
                self.wf(),
                self.entries@ == remove_ids(old(self).entries@, client_ids@.take(i as int)),
                self.next_id == old(self).next_id,
            decreases k - i,
        {
            self.remove_entry(client_ids[i]);
            proof {
                assert(client_ids@.take(i as int + 1).drop_last() =~= client_ids@.take(i as int));
                assert(client_ids@.take(i as int + 1).last() == client_ids@[i as int]);
            }
            i += 1;
        }
        proof {
            assert(client_ids@.take(k as int) =~= client_ids@);
            lemma_remove_ids_contains(old(self).entries@, client_ids@);
            assert forall|j: int| 0 <= j < client_ids@.len()
                implies !contains_id(self.entries@, #[trigger] client_ids@[j]) by {
                if contains_id(self.entries@, client_ids@[j]) {
                    let p = choose|p: int|
                        0 <= p < self.entries@.len() && self.entries@[p].id == client_ids@[j];
                    assert(self.entries@.contains(self.entries@[p]));
                    assert(!client_ids@.contains(self.entries@[p].id));
                }
            }
        }
    }

    /// A point-in-time enumeration of `(id, outbound_channel)` pairs, in
    /// registry order: it reflects exactly the clients connected at the
    /// instant of the call, and later registry changes do not touch it.
    pub fn snapshot_senders(&self) -> (v: Vec<(usize, UnboundedSender<String>)>)
        ensures
            v@.len() == self.entries_seq().len(),
            forall|i: int| 0 <= i < v@.len()
                ==> (#[trigger] v@[i]).0 == self.entries_seq()[i].id,
    {
        let n = self.entries.len();
        let mut v: Vec<(usize, UnboundedSender<String>)> = Vec::new();
        let mut i: usize = 0;
        while i < n
            invariant
                n == self.entries@.len(),
                i <= n,
                v@.len() == i,
                forall|j: int| 0 <= j < i ==> (#[trigger] v@[j]).0 == self.entries@[j].id,
            decreases n - i,
        {
            let sender = clone_sender(&self.entries[i].sender);
            v.push((self.entries[i].id, sender));
            i += 1;
        }
        v
    }

    /// Best-effort fan-out of one payload to every registered client, in
    /// enumeration order. Each enqueue is attempted without blocking; one
    /// client's failure stops nobody else. After the full send loop every
    /// failed client is removed in one follow-up pass, so exactly the
    /// successfully reached clients remain. Returns `(delivered, total)`,
    /// `total` being the snapshot size at entry; with no clients at all the
    /// result is `(0, 0)` and the registry is untouched.
    pub fn broadcast(&mut self, message: &str) -> (r: (usize, usize))
        requires
            old(self).wf(),
        ensures
            final(self).wf(),
            r.1 == old(self).entries_seq().len(),
            r.0 <= r.1,
            final(self).next_id_spec() == old(self).next_id_spec(),
            final(self).entries_seq().len() == r.0,
            old(self).entries_seq().len() == 0
                ==> r == (0usize, 0usize) && *final(self) == *old(self),
            exists|outcomes: Seq<bool>|
                outcomes.len() == r.1
                    && r.0 == count_true(outcomes)
                    && final(self).entries_seq() == keep_by(old(self).entries_seq(), outcomes),
            forall|p: int| 0 <= p < final(self).entries_seq().len()
                ==> old(self).entries_seq().contains(#[trigger] final(self).entries_seq()[p]),
    {
        let total = self.entries.len();
        if total == 0 {
            proof {
                let empty = Seq::<bool>::empty();
                assert(self.entries@ =~= keep_by(self.entries@, empty));
                assert(empty.len() == 0 && 0int == count_true(empty)
                    && self.entries@ == keep_by(old(self).entries@, empty));
            }
            return (0, 0);
        }
        let mut outcomes: Vec<bool> = Vec::new();
        let mut successful: usize = 0;
        let mut i: usize = 0;
        while i < total
            invariant
                total == self.entries@.len(),
                self.entries@ == old(self).entries@,
                self.next_id == old(self).next_id,
                i <= total,
                outcomes@.len() == i,
                successful as int == count_true(outcomes@),
                successful <= i,
            decreases total - i,
        {
            let ghost before = outcomes@;
            let ok = try_send(&self.entries[i].sender, message);
            if ok {
                successful = successful + 1;
            }
            outcomes.push(ok);
            proof {
                assert(outcomes@.drop_last() =~= before);
                assert(outcomes@.last() == ok);
            }
            i += 1;
        }
        self.settle(&outcomes);
        proof {
            lemma_keep_by_len(old(self).entries@, outcomes@);
            lemma_keep_by_contains(old(self).entries@, outcomes@);
            assert(outcomes@.len() == total && successful as int == count_true(outcomes@)
                && self.entries@ == keep_by(old(self).entries@, outcomes@));
            assert forall|p: int| 0 <= p < self.entries@.len()
                implies old(self).entries@.contains(#[trigger] self.entries@[p]) by {
                assert(self.entries@.contains(self.entries@[p]));
            }
        }
        (successful, total)
    }

    /// Enqueue the fixed liveness-probe frame to every client, counting how
    /// many accepted it. Probe-send failures evict nobody here: eviction is
    /// the timeout scan's job alone, so the registry is untouched.
    pub fn send_ping(&self) -> (n: usize)
        ensures
            n <= self.entries_seq().len(),
    {
        let total = self.entries.len();
        if total == 0 {
            return 0;
        }
        let ping = crate::types::ping_text();
        let mut successful: usize = 0;
        let mut i: usize = 0;
        while i < total
            invariant
                total == self.entries@.len(),
                i <= total,
                successful <= i,
            decreases total - i,
        {
            if try_send(&self.entries[i].sender, ping) {
                successful = successful + 1;
            }
            i += 1;
        }
        successful
    }

    /// The follow-up pass of a broadcast: keep exactly the entries whose
    /// delivery outcome succeeded, in order.
    fn settle(&mut self, outcomes: &Vec<bool>)
        requires
            old(self).wf(),
            outcomes@.len() == old(self).entries_seq().len(),
        ensures
            final(self).wf(),
            final(self).entries_seq() == keep_by(old(self).entries_seq(), outcomes@),
            final(self).next_id_spec() == old(self).next_id_spec(),
    {
        let ghost orig = self.entries@;
        let n = self.entries.len();
        let mut rest: Vec<ClientEntry> = Vec::new();
        core::mem::swap(&mut self.entries, &mut rest);
        let mut i: usize = 0;
        while i < n
            invariant
                n == orig.len(),
                i <= n,
                outcomes@.len() == n,
                rest@ == orig.skip(i as int),
                self.entries@ == keep_by(orig.take(i as int), outcomes@.take(i as int)),
                self.next_id == old(self).next_id,
            decreases n - i,
        {
            let e = rest.remove(0);
            proof {
                assert(orig.skip(i as int)[0] == orig[i as int]);
                assert(orig.skip(i as int).remove(0) =~= orig.skip(i as int + 1));
            }
            if outcomes[i] {
                self.entries.push(e);
            }
            proof {
                assert(orig.take(i as int + 1).drop_last() =~= orig.take(i as int));
                assert(outcomes@.take(i as int + 1).drop_last() =~= outcomes@.take(i as int));
                assert(orig.take(i as int + 1).last() == orig[i as int]);
                assert(outcomes@.take(i as int + 1).last() == outcomes@[i as int]);
            }
            i += 1;
        }
        proof {
            assert(orig.take(n as int) =~= orig);
            assert(outcomes@.take(n as int) =~= outcomes@);
            lemma_keep_by_sorted(orig, outcomes@);
            lemma_keep_by_contains(orig, outcomes@);
            assert forall|p: int| 0 <= p < self.entries@.len()
                implies #[trigger] self.entries@[p].id < self.next_id by {
                assert(self.entries@.contains(self.entries@[p]));
                assert(orig.contains(self.entries@[p]));
                let q = choose|q: int| 0 <= q < orig.len() && orig[q] == self.entries@[p];
                assert(orig[q].id < old(self).next_id);
            }
        }
    }

    /// Shared removal core for `unregister`, broadcast eviction and the
    /// timeout scan.
    fn remove_entry(&mut self, id: usize)
        requires
            old(self).wf(),
        ensures
            final(self).wf(),
            final(self).entries_seq() == remove_id(old(self).entries_seq(), id),
            final(self).next_id_spec() == old(self).next_id_spec(),
    {
        let n = self.entries.len();
        let mut i: usize = 0;
        while i < n
            invariant
                n == self.entries@.len(),
                i <= n,
                self.entries@ == old(self).entries@,
                self.next_id == old(self).next_id,
                old(self).wf(),
                forall|j: int| 0 <= j < i ==> #[trigger] self.entries@[j].id != id,
            decreases n - i,
        {
            if self.entries[i].id == id {
                self.entries.remove(i);
                proof {
                    let s = old(self).entries@;
                    lemma_remove_id_at(s, id, i as int);
                    assert forall|p: int, q: int|
                        0 <= p < q < self.entries@.len()
                        implies self.entries@[p].id < self.entries@[q].id by {
                        if q < i {
                            assert(s[p].id < s[q].id);
                        } else if p < i {
                            assert(s[p].id < s[q + 1].id);
                        } else {
                            assert(s[p + 1].id < s[q + 1].id);
                        }
                    }
                    assert forall|p: int| 0 <= p < self.entries@.len()
                        implies #[trigger] self.entries@[p].id < self.next_id by {
                        if p < i {
                            assert(s[p].id < old(self).next_id);
                        } else {
                            assert(s[p + 1].id < old(self).next_id);
                        }
                    }
                }
                return;
            }
            i += 1;
        }
        proof {
            lemma_remove_id_absent(self.entries@, id);
        }
    }
}

impl Default for ClientManager {
    /// An empty registry, as `new` gives.
    fn default() -> (m: ClientManager)
        ensures
            m.wf(),
            m.entries_seq() =~= Seq::<ClientEntry>::empty(),
            m.next_id_spec() == 0,
    {
        ClientManager::new()
    }
}

} // verus!
