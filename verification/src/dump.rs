//! The dump-protocol session: context lifecycle and batch scheduling.
//!
//! One dump context is started per responsible server, sequentially.  A
//! failure along the way aborts the whole operation - after best-effort
//! deletion of every context acquired so far - and surfaces the original
//! error.  Once all contexts stand, a fixed number of tasks per server page
//! through disjoint batch-id lanes; at the end every context is deleted
//! regardless of outcome.  The transport itself stays outside: callers
//! issue the requests this state machine asks for and feed the outcomes
//! back in.

use vstd::prelude::*;

use crate::shard::ShardMap;

verus! {

/// One successfully started dump context: the server it lives on and the
/// context's identifier.
pub struct DBServerInfo {
    pub dbserver: String,
    pub dump_id: String,
}

/// The fields of one `start dump` request.
pub struct DumpStartRequest {
    pub server: String,
    pub shards: Vec<String>,
    pub batch_size: u64,
    pub prefetch_count: u32,
    pub parallelism: u32,
}

/// The dump-context session.  `servers` fixes the plan; `dbservers` grows
/// by one per successful start; a failure freezes the session with the
/// original error, and the cleanup targets are then exactly the contexts
/// started so far.
pub struct DumpSession {
    pub servers: Vec<(String, Vec<String>)>,
    pub batch_size: u64,
    pub prefetch_count: u32,
    pub parallelism: u32,
    pub next_to_start: usize,
    pub dbservers: Vec<DBServerInfo>,
    pub error: Option<String>,
}

impl DumpSession {
    /// The session invariant: starts advance one server at a time, and
    /// every started context belongs to the matching plan entry.
    pub open spec fn wf(&self) -> bool {
        &&& self.next_to_start <= self.servers@.len()
        &&& self.dbservers@.len() == self.next_to_start
        &&& forall|i: int|
            0 <= i < self.dbservers@.len() ==> (#[trigger] self.dbservers@[i]).dbserver@
                == self.servers@[i].0@
    }

    /// A fresh session over the fetch plan, no context started yet.
    pub fn new(shard_map: ShardMap, batch_size: u64, prefetch_count: u32, parallelism: u32) -> (r:
        DumpSession)
        requires
            shard_map.wf(),
        ensures
            r.wf(),
            r.servers@.len() == shard_map.keys@.len(),
            forall|i: int|
                0 <= i < r.servers@.len() ==> (#[trigger] r.servers@[i]).0@
                    == shard_map.keys@[i]@ && r.servers@[i].1.deep_view()
                    == shard_map.vals@[i].deep_view(),
            r.batch_size == batch_size,
            r.prefetch_count == prefetch_count,
            r.parallelism == parallelism,
            r.next_to_start == 0,
            r.dbservers@.len() == 0,
            r.error is None,
    {
        let mut servers: Vec<(String, Vec<String>)> = Vec::new();
        let ShardMap { keys, vals } = shard_map;
        let n = keys.len();
        proof {
            assert(vals@.len() == n);
        }
        let mut i: usize = 0;
        while i < n
            invariant
                i <= n,
                keys@.len() == n,
                vals@.len() == n,
                servers@.len() == i,
                forall|j: int|
                    0 <= j < i ==> (#[trigger] servers@[j]).0@ == keys@[j]@
                        && servers@[j].1.deep_view() == vals@[j].deep_view(),
            decreases n - i,
        {
            let k = keys[i].clone();
            servers.push((k, clone_string_vec(&vals[i])));
            i += 1;
        }
        (DumpSession {
            servers,
            batch_size,
            prefetch_count,
            parallelism,
            next_to_start: 0,
            dbservers: Vec::new(),
            error: None,
        })
    }

    /// The next `start dump` request to issue, if contexts are still to be
    /// started and nothing failed.
    pub fn pending_start(&self) -> (r: Option<DumpStartRequest>)
        requires
            self.wf(),
        ensures
            r is Some <==> self.error is None && self.next_to_start < self.servers@.len(),
            r matches Some(q) ==> q.server@ == self.servers@[self.next_to_start as int].0@
                && q.shards.deep_view() == self.servers@[self.next_to_start as int].1.deep_view()
                && q.batch_size == self.batch_size && q.prefetch_count == self.prefetch_count
                && q.parallelism == self.parallelism,
    {
        match &self.error {
            Some(_) => {
                return None;
            },
            None => {},
        }
        if self.next_to_start >= self.servers.len() {
            return None;
        }
        let server = self.servers[self.next_to_start].0.clone();
        let shards = clone_string_vec(&self.servers[self.next_to_start].1);
        Some(
            (DumpStartRequest {
                server,
                shards,
                batch_size: self.batch_size,
                prefetch_count: self.prefetch_count,
                parallelism: self.parallelism,
            }),
        )
    }

    /// Record that the pending start succeeded with this dump identifier:
    /// the context joins the cleanup set and the next server is up.
    pub fn record_start_success(&mut self, dump_id: String)
        requires
            old(self).wf(),
            old(self).error is None,
            old(self).next_to_start < old(self).servers@.len(),
        ensures
            final(self).wf(),
            *final(self) == (DumpSession {
                next_to_start: final(self).next_to_start,
                dbservers: final(self).dbservers,
                ..*old(self)
            }),
            final(self).next_to_start == old(self).next_to_start + 1,
            final(self).dbservers@.len() == old(self).dbservers@.len() + 1,
            forall|i: int|
                0 <= i < old(self).dbservers@.len() ==> final(self).dbservers@[i] == old(
                    self,
                ).dbservers@[i],
            final(self).dbservers@.last().dbserver@ == old(self).servers@[old(
                self,
            ).next_to_start as int].0@,
            final(self).dbservers@.last().dump_id == dump_id,
    {
        let server = self.servers[self.next_to_start].0.clone();
        self.dbservers.push((DBServerInfo { dbserver: server, dump_id }));
        let l = self.servers.len();
        self.next_to_start = self.next_to_start + 1;
    }

    /// Record that the pending start failed: the session freezes with the
    /// original error and nothing else changes - in particular the cleanup
    /// set stays exactly the contexts started so far.
    pub fn record_start_failure(&mut self, error: String)
        requires
            old(self).wf(),
            old(self).error is None,
        ensures
            final(self).wf(),
            *final(self) == (DumpSession { error: Some(error), ..*old(self) }),
    {
        self.error = Some(error);
    }

    /// The contexts to delete: exactly those started, in start order,
    /// whatever else happened.
    pub fn cleanup_targets(&self) -> (r: &Vec<DBServerInfo>)
        ensures
            r == self.dbservers,
    {
        &self.dbservers
    }

    /// Whether context creation got through every server.
    pub fn all_started(&self) -> (r: bool)
        requires
            self.wf(),
        ensures
            r == (self.error is None && self.next_to_start == self.servers@.len()),
    {
        let ok = match &self.error {
            Some(_) => false,
            None => true,
        };
        ok && self.next_to_start == self.servers.len()
    }

    /// How many tasks each server gets so that `parallelism` tasks cover
    /// all servers: the ceiling of `parallelism / number of servers`, and
    /// none for an empty plan.
    pub fn tasks_per_server(&self) -> (r: usize)
        requires
            self.wf(),
            self.servers@.len() < usize::MAX,
            self.parallelism < usize::MAX - self.servers@.len(),
        ensures
            self.servers@.len() == 0 ==> r == 0,
            self.servers@.len() > 0 ==> r == (self.parallelism + self.servers@.len() - 1) as int
                / self.servers@.len() as int,
            self.servers@.len() > 0 ==> r * self.servers@.len() >= self.parallelism,
    {
        let n = self.servers.len();
        if n == 0 {
            0
        } else {
            let r = ((self.parallelism as usize) + n - 1) / n;
            proof {
                let p = self.parallelism as int;
                let nn = n as int;
                assert(r == (p + nn - 1) / nn);
                assert(r * nn >= p) by (nonlinear_arith)
                    requires
                        nn > 0,
                        p >= 0,
                        r == (p + nn - 1) / nn,
                {}
            }
            r
        }
    }
}

/// A deep copy of a list of names.
pub fn clone_string_vec(v: &Vec<String>) -> (r: Vec<String>)
    ensures
        r.deep_view() == v.deep_view(),
        r@.len() == v@.len(),
{
    let mut out: Vec<String> = Vec::new();
    let n = v.len();
    let mut i: usize = 0;
    while i < n
        invariant
            i <= n,
            n == v@.len(),
            out@.len() == i,
            forall|j: int| 0 <= j < i ==> (#[trigger] out@[j])@ == v@[j]@,
        decreases n - i,
    {
        out.push(v[i].clone());
        i += 1;
    }
    proof {
        assert(out.deep_view() =~= v.deep_view());
    }
    out
}

/// The batch identifier a task uses in its next round: its own lane stays
/// `tasks_per_server` apart.
pub fn next_batch_id(current: u64, tasks_per_server: u64) -> (r: u64)
    requires
        current + tasks_per_server <= u64::MAX,
    ensures
        r == current + tasks_per_server,
{
    current + tasks_per_server
}

/// Law: the batch-id lanes of distinct tasks never collide - task `i`
/// visits exactly the ids congruent to `i` modulo the task count, so the
/// servers' batch-id space is partitioned without coordination.
pub proof fn lemma_batch_lanes_disjoint(t: int, i1: int, k1: int, i2: int, k2: int)
    requires
        0 <= i1 < t,
        0 <= i2 < t,
        k1 >= 0,
        k2 >= 0,
        i1 != i2 || k1 != k2,
    ensures
        i1 + k1 * t != i2 + k2 * t,
{
    if i1 + k1 * t == i2 + k2 * t {
        if k1 == k2 {
            assert(i1 == i2);
        } else if k1 < k2 {
            assert(i1 - i2 == (k2 - k1) * t) by (nonlinear_arith)
                requires
                    i1 + k1 * t == i2 + k2 * t,
            {}
            assert((k2 - k1) * t >= t) by (nonlinear_arith)
                requires
                    k2 - k1 >= 1,
                    t > 0,
            {}
        } else {
            assert(i2 - i1 == (k1 - k2) * t) by (nonlinear_arith)
                requires
                    i1 + k1 * t == i2 + k2 * t,
            {}
            assert((k1 - k2) * t >= t) by (nonlinear_arith)
                requires
                    k1 - k2 >= 1,
                    t > 0,
            {}
        }
    }
}

/// The next position in a round-robin walk over `len` slots.
pub fn round_robin_next(current: usize, len: usize) -> (r: usize)
    requires
        len > 0,
        current < len,
    ensures
        r < len,
        r == (current + 1) as int % len as int,
{
    let next = current + 1;
    if next >= len {
        proof {
            assert(next == len);
            assert(len as int % len as int == 0) by (nonlinear_arith)
                requires
                    len > 0,
            {}
        }
        0
    } else {
        proof {
            assert(next as int % len as int == next as int) by (nonlinear_arith)
                requires
                    0 <= next < len,
            {}
        }
        next
    }
}



} // verus!
