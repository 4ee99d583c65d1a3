use vstd::prelude::*;
use crate::connection::{has_reply, Frame};
use crate::registry::{ClientId, Registry};

verus! {

/// Seconds between two heartbeat cycles.
pub const PROBE_INTERVAL_SECS: u64 = 30;

/// Seconds that probed connections are given to reply.
pub const GRACE_WINDOW_SECS: u64 = 3;

/// Where one connection stands in the current heartbeat cycle.
#[derive(Clone, Copy, PartialEq, Eq, Structural)]
pub enum ProbeStatus {
    /// Not probed yet.
    Pending,
    /// The probe was sent; the reply is awaited.
    Probed,
    /// The probe could not be sent: no reply can come.
    SendFailed,
    /// A reply was found after the grace window.
    Replied,
    /// No reply was found after the grace window.
    Silent,
}

/// Every connection that did not show a reply in the cycle is evicted.
pub open spec fn is_marked(s: ProbeStatus) -> bool {
    !(s is Replied)
}

/// Status after the probe send: only a pending connection moves.
pub open spec fn after_probe(s: ProbeStatus, sent: bool) -> ProbeStatus {
    if s is Pending {
        if sent {
            ProbeStatus::Probed
        } else {
            ProbeStatus::SendFailed
        }
    } else {
        s
    }
}

/// Status after the buffer scan: only a connection whose probe went out moves.
pub open spec fn after_scan(s: ProbeStatus, replied: bool) -> ProbeStatus {
    if s is Probed {
        if replied {
            ProbeStatus::Replied
        } else {
            ProbeStatus::Silent
        }
    } else {
        s
    }
}

/// The identities to evict, in the order of the targets.
pub open spec fn marked_ids(t: Seq<ClientId>, s: Seq<ProbeStatus>) -> Seq<ClientId>
    decreases t.len(),
{
    if t.len() == 0 {
        Seq::empty()
    } else {
        let rest = marked_ids(t.drop_last(), s.take(t.len() - 1));
        if is_marked(s[t.len() - 1]) {
            rest.push(t.last())
        } else {
            rest
        }
    }
}

/// One probe, grace window and collection round over the registered connections.
pub struct HeartbeatCycle {
    targets: Vec<ClientId>,
    status: Vec<ProbeStatus>,
}

impl HeartbeatCycle {
    /// The connections probed in this cycle.
    pub closed spec fn targets(&self) -> Seq<ClientId> {
        self.targets@
    }

    /// Their statuses, in the same order.
    pub closed spec fn statuses(&self) -> Seq<ProbeStatus> {
        self.status@
    }

    pub open spec fn wf(&self) -> bool {
        self.targets().len() == self.statuses().len()
    }

    /// Starts a cycle over the connections registered now, none of them probed yet.
    pub fn begin<H>(registry: &Registry<H>) -> (r: HeartbeatCycle)
        ensures
            r.wf(),
            r.targets() == registry.ids(),
            forall|i: int| 0 <= i < r.statuses().len() ==> r.statuses()[i] is Pending,
    {
        let targets = registry.snapshot();
        let mut status: Vec<ProbeStatus> = Vec::new();
        let mut i: usize = 0;
        while i < targets.len()
            invariant
                i <= targets@.len(),
                status@.len() == i,
                forall|j: int| 0 <= j < i ==> status@[j] is Pending,
            decreases targets@.len() - i,
        {
            status.push(ProbeStatus::Pending);
            i = i + 1;
        }
        HeartbeatCycle { targets, status }
    }

    /// Number of connections in the cycle.
    pub fn len(&self) -> (r: usize)
        ensures
            r == self.targets().len(),
    {
        self.targets.len()
    }

    /// Identity of the `i`-th connection.
    pub fn target(&self, i: usize) -> (r: ClientId)
        requires
            i < self.targets().len(),
        ensures
            r == self.targets()[i as int],
    {
        self.targets[i]
    }

    /// Status of the `i`-th connection.
    pub fn status(&self, i: usize) -> (r: ProbeStatus)
        requires
            self.wf(),
            i < self.targets().len(),
        ensures
            r == self.statuses()[i as int],
    {
        self.status[i]
    }

    /// Records whether the probe to the `i`-th connection could be sent. A failed send
    /// marks it for eviction at once: it is not waited for.
    pub fn record_probe(&mut self, i: usize, sent: bool)
        requires
            old(self).wf(),
            i < old(self).targets().len(),
        ensures
            final(self).wf(),
            final(self).targets() == old(self).targets(),
            final(self).statuses() == old(self).statuses().update(
                i as int,
                after_probe(old(self).statuses()[i as int], sent),
            ),
    {
        let s = self.status[i];
        let next = match s {
            ProbeStatus::Pending => if sent {
                ProbeStatus::Probed
            } else {
                ProbeStatus::SendFailed
            },
            _ => s,
        };
        self.status.set(i, next);
    }

    /// Whether the buffer of the `i`-th connection is to be scanned for a reply: only for
    /// a connection whose probe went out.
    pub fn awaiting_reply(&self, i: usize) -> (r: bool)
        requires
            self.wf(),
            i < self.targets().len(),
        ensures
            r == (self.statuses()[i as int] is Probed),
    {
        match self.status[i] {
            ProbeStatus::Probed => true,
            _ => false,
        }
    }

    /// Records whether a reply of the `i`-th connection was found once the grace window
    /// has passed.
    pub fn record_scan(&mut self, i: usize, replied: bool)
        requires
            old(self).wf(),
            i < old(self).targets().len(),
        ensures
            final(self).wf(),
            final(self).targets() == old(self).targets(),
            final(self).statuses() == old(self).statuses().update(
                i as int,
                after_scan(old(self).statuses()[i as int], replied),
            ),
    {
        let s = self.status[i];
        let next = match s {
            ProbeStatus::Probed => if replied {
                ProbeStatus::Replied
            } else {
                ProbeStatus::Silent
            },
            _ => s,
        };
        self.status.set(i, next);
    }

    /// The identities to evict: every connection that did not show a reply.
    pub fn evictions(&self) -> (r: Vec<ClientId>)
        requires
            self.wf(),
        ensures
            r@ == marked_ids(self.targets(), self.statuses()),
    {
        let mut r: Vec<ClientId> = Vec::new();
        let mut i: usize = 0;
        while i < self.targets.len()
            invariant
                self.wf(),
                i <= self.targets().len(),
                r@ == marked_ids(self.targets().take(i as int), self.statuses().take(i as int)),
            decreases self.targets().len() - i,
        {
            proof {
                let t = self.targets().take(i + 1);
                let s = self.statuses().take(i + 1);
                assert(t.drop_last() =~= self.targets().take(i as int));
                assert(s.take(i as int) =~= self.statuses().take(i as int));
            }
            let marked = match self.status[i] {
                ProbeStatus::Replied => false,
                _ => true,
            };
            if marked {
                r.push(self.targets[i]);
            }
            i = i + 1;
        }
        proof {
            assert(self.targets().take(i as int) =~= self.targets());
            assert(self.statuses().take(i as int) =~= self.statuses());
        }
        r
    }
}

/// Every identity to evict is a target whose status marks it.
proof fn lemma_marked_from_targets(t: Seq<ClientId>, s: Seq<ProbeStatus>, x: ClientId)
    requires
        s.len() == t.len(),
        marked_ids(t, s).contains(x),
    ensures
        exists|j: int| 0 <= j < t.len() && t[j] == x && is_marked(s[j]),
    decreases t.len(),
{
    let n = t.len() as int;
    let rest = marked_ids(t.drop_last(), s.take(n - 1));
    if rest.contains(x) {
        lemma_marked_from_targets(t.drop_last(), s.take(n - 1), x);
        let j = choose|j: int|
            0 <= j < n - 1 && t.drop_last()[j] == x && is_marked(s.take(n - 1)[j]);
        assert(t[j] == x && is_marked(s[j]));
    } else {
        assert(t[n - 1] == x && is_marked(s[n - 1]));
    }
}

/// A connection that did not show a reply in a cycle is among that cycle's evictions.
pub proof fn lemma_unanswered_is_marked(t: Seq<ClientId>, s: Seq<ProbeStatus>, i: int)
    requires
        s.len() == t.len(),
        0 <= i < t.len(),
        is_marked(s[i]),
    ensures
        marked_ids(t, s).contains(t[i]),
    decreases t.len(),
{
    let n = t.len() as int;
    if i == n - 1 {
        assert(marked_ids(t, s).last() == t[i]);
    } else {
        lemma_unanswered_is_marked(t.drop_last(), s.take(n - 1), i);
        let rest = marked_ids(t.drop_last(), s.take(n - 1));
        let j = choose|j: int| 0 <= j < rest.len() && rest[j] == t[i];
        if is_marked(s[n - 1]) {
            assert(rest.push(t.last())[j] == t[i]);
        }
    }
}

/// Eviction correctness: a connection that starts a cycle pending, whose probe is then
/// recorded as sent or not, and whose buffer holds no reply when it is scanned (a failed
/// send skips the scan), ends the cycle marked, and is gone from the registry once the
/// cycle's evictions are carried out.
pub proof fn lemma_silent_connection_evicted<H>(
    entries: Map<ClientId, H>,
    t: Seq<ClientId>,
    s: Seq<ProbeStatus>,
    i: int,
    sent: bool,
    buffer: Seq<Frame>,
)
    requires
        s.len() == t.len(),
        0 <= i < t.len(),
        s[i] == after_scan(after_probe(ProbeStatus::Pending, sent), has_reply(buffer)),
        !has_reply(buffer),
    ensures
        !(s[i] is Replied),
        !entries.remove_keys(marked_ids(t, s).to_set()).contains_key(t[i]),
{
    lemma_unanswered_is_marked(t, s, i);
}

/// The registry after a run of cycles, each given by its targets and their final statuses.
pub open spec fn after_cycles<H>(
    entries: Map<ClientId, H>,
    cycles: Seq<(Seq<ClientId>, Seq<ProbeStatus>)>,
) -> Map<ClientId, H>
    decreases cycles.len(),
{
    if cycles.len() == 0 {
        entries
    } else {
        after_cycles(entries, cycles.drop_last()).remove_keys(
            marked_ids(cycles.last().0, cycles.last().1).to_set(),
        )
    }
}

/// Survival: a connection that replies within the grace window in every cycle (wherever it
/// is a target, its status is `Replied`, as after a sent probe and a scan that found a
/// reply) is never evicted, however many cycles run: it keeps its entry and its handle.
pub proof fn lemma_responsive_connection_survives<H>(
    entries: Map<ClientId, H>,
    cycles: Seq<(Seq<ClientId>, Seq<ProbeStatus>)>,
    id: ClientId,
)
    requires
        entries.contains_key(id),
        forall|c: int|
            0 <= c < cycles.len() ==> (#[trigger] cycles[c]).1.len() == cycles[c].0.len(),
        forall|c: int, i: int|
            0 <= c < cycles.len() && 0 <= i < cycles[c].0.len() && #[trigger] cycles[c].0[i]
                == id ==> cycles[c].1[i] is Replied,
    ensures
        after_cycles(entries, cycles).contains_key(id),
        after_cycles(entries, cycles)[id] == entries[id],
    decreases cycles.len(),
{
    if cycles.len() > 0 {
        let n = cycles.len() - 1;
        let d = cycles.drop_last();
        assert forall|c: int, i: int|
            0 <= c < d.len() && 0 <= i < d[c].0.len() && #[trigger] d[c].0[i] == id
            implies d[c].1[i] is Replied by {
            assert(cycles[c] == d[c]);
        };
        assert forall|c: int| 0 <= c < d.len() implies (#[trigger] d[c]).1.len()
            == d[c].0.len() by {
            assert(cycles[c] == d[c]);
        };
        lemma_responsive_connection_survives(entries, d, id);
        let (t, s) = cycles[n];
        assert(s.len() == t.len());
        if marked_ids(t, s).contains(id) {
            lemma_marked_from_targets(t, s, id);
            let j = choose|j: int| 0 <= j < t.len() && t[j] == id && is_marked(s[j]);
            assert(cycles[n].0[j] == id);
        }
    }
}

} // verus!
