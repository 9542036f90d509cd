//! The topology resolver: from the server's shard-distribution report to a
//! per-server fetch plan.
//!
//! For every requested collection the resolver gathers the collection's
//! shards by their leader server, leaving out shards whose data a smart-edge
//! companion collection already carries, so that nothing is fetched twice.

use vstd::prelude::*;

use crate::assoc::StrMap;
use crate::info::DeploymentType;

verus! {

broadcast use crate::assoc::lemma_first_key_index;

/// Where one shard lives: its leader server and the replica followers.
pub struct ShardLocation {
    pub leader: String,
    pub followers: Vec<String>,
}

/// One collection's shards as the server plans them and as they currently
/// stand.
pub struct CollectionDistribution {
    pub plan: StrMap<ShardLocation>,
    pub current: StrMap<ShardLocation>,
}

/// The server's whole shard-distribution report.
pub struct ShardDistribution {
    pub error: bool,
    pub code: i64,
    pub results: StrMap<CollectionDistribution>,
}

/// The fetch plan: each responsible server with the shards to pull from it.
pub type ShardMap = StrMap<Vec<String>>;

/// Why the topology could not be resolved.
#[derive(Debug, PartialEq, Eq)]
pub enum TopologyError {
    /// No shard distribution was retrieved for a cluster deployment.
    MissingDistribution,
    /// A requested collection does not appear in the distribution: a
    /// configuration mismatch.
    CollectionNotFound(String),
    /// A single-server deployment was described without any endpoint.
    NoEndpoints,
}

/// The name of a smart-edge companion collection: the collection's name
/// behind a `_to_` prefix.
pub open spec fn companion_name(coll: Seq<char>) -> Seq<char> {
    "_to_"@ + coll
}

/// Whether two collection names form a smart-edge pair: one is the other's
/// `_to_` companion.  Only such a pair may claim the same shard, the
/// companion's claim marking data the edge collection already carries.
pub open spec fn companion_pair(name1: Seq<char>, name2: Seq<char>) -> bool {
    name1 == companion_name(name2) || name2 == companion_name(name1)
}

/// A well-formed distribution: unique collection names, well-formed plans,
/// and no shard name shared between two collections' plans - except between
/// an edge collection and its own smart-edge companion, whose overlap is
/// the point of the exclusion.
pub open spec fn dist_wf(sd: ShardDistribution) -> bool {
    &&& sd.results.wf()
    &&& forall|i: int|
        0 <= i < sd.results.vals@.len() ==> (#[trigger] sd.results.vals@[i]).plan.wf()
    &&& forall|i: int, j: int, a: int, b: int|
        0 <= i < sd.results.vals@.len() && 0 <= j < sd.results.vals@.len() && i != j
            && !companion_pair(sd.results.keys@[i]@, sd.results.keys@[j]@) && 0 <= a
            < sd.results.vals@[i].plan.keys@.len() && 0 <= b
            < sd.results.vals@[j].plan.keys@.len() ==> (#[trigger] sd.results.vals@[i].plan.keys@[a])@
            != (#[trigger] sd.results.vals@[j].plan.keys@[b])@
}

/// Whether a shard belongs to a collection's plan.
pub open spec fn in_plan(sd: ShardDistribution, coll: Seq<char>, shard: Seq<char>) -> bool {
    sd.results@.dom().contains(coll) && sd.results@[coll].plan@.dom().contains(shard)
}

/// Whether a collection's shard is to be fetched: it is in the plan and not
/// superseded by the smart-edge companion.
pub open spec fn included_shard(sd: ShardDistribution, coll: Seq<char>, shard: Seq<char>) -> bool {
    in_plan(sd, coll, shard) && !in_plan(sd, companion_name(coll), shard)
}

/// Whether any requested collection wants this shard fetched.
pub open spec fn requested_shard(sd: ShardDistribution, colls: Seq<String>, shard: Seq<char>) -> bool {
    exists|c: int| 0 <= c < colls.len() && included_shard(sd, (#[trigger] colls[c])@, shard)
}

/// The leader responsible for a collection's shard.
pub open spec fn shard_leader(sd: ShardDistribution, coll: Seq<char>, shard: Seq<char>) -> Seq<
    char,
> {
    sd.results@[coll].plan@[shard].leader@
}

/// Position of the first requested collection the distribution misses; the
/// length when none is missing.
pub open spec fn first_missing(sd: ShardDistribution, colls: Seq<String>) -> int
    decreases colls.len(),
{
    if colls.len() == 0 {
        0
    } else if !sd.results@.dom().contains(colls[0]@) {
        0
    } else {
        1 + first_missing(sd, colls.skip(1))
    }
}

proof fn lemma_first_missing(sd: ShardDistribution, colls: Seq<String>)
    ensures
        0 <= first_missing(sd, colls) <= colls.len(),
        forall|j: int|
            0 <= j < first_missing(sd, colls) ==> sd.results@.dom().contains(
                (#[trigger] colls[j])@,
            ),
        first_missing(sd, colls) < colls.len() ==> !sd.results@.dom().contains(
            colls[first_missing(sd, colls)]@,
        ),
    decreases colls.len(),
{
    if colls.len() == 0 {
    } else if !sd.results@.dom().contains(colls[0]@) {
    } else {
        lemma_first_missing(sd, colls.skip(1));
        assert forall|j: int| 0 <= j < first_missing(sd, colls) implies sd.results@.dom().contains(
            (#[trigger] colls[j])@,
        ) by {
            if j > 0 {
                assert(colls.skip(1)[j - 1] == colls[j]);
            }
        }
        if first_missing(sd, colls) < colls.len() {
            assert(colls.skip(1)[first_missing(sd, colls.skip(1))] == colls[first_missing(
                sd,
                colls,
            )]);
        }
    }
}

/// One fetch-plan entry is a requested shard standing under its leader:
/// whichever requested collection includes the shard names this server as
/// that shard's leader.
pub open spec fn entry_requested_at(
    m: ShardMap,
    sd: ShardDistribution,
    colls: Seq<String>,
    si: int,
    j: int,
) -> bool {
    requested_shard(sd, colls, m.vals@[si]@[j]@) && forall|c: int|
        0 <= c < colls.len() && included_shard(sd, (#[trigger] colls[c])@, m.vals@[si]@[j]@)
            ==> m.keys@[si]@ == shard_leader(sd, colls[c]@, m.vals@[si]@[j]@)
}

/// Every entry of the fetch plan is a requested shard standing under its
/// leader.
pub open spec fn entries_requested(m: ShardMap, sd: ShardDistribution, colls: Seq<String>) -> bool {
    forall|si: int, j: int|
        0 <= si < m.keys@.len() && 0 <= j < m.vals@[si]@.len() ==> #[trigger] entry_requested_at(
            m,
            sd,
            colls,
            si,
            j,
        )
}

/// A shard stands somewhere in the fetch plan.
pub open spec fn shard_present(m: ShardMap, shard: Seq<char>) -> bool {
    exists|si: int, j: int|
        0 <= si < m.keys@.len() && 0 <= j < m.vals@[si]@.len() && (#[trigger] m.vals@[si]@[j])@
            == shard
}

/// Every requested shard stands somewhere in the fetch plan.
pub open spec fn entries_complete(m: ShardMap, sd: ShardDistribution, colls: Seq<String>) -> bool {
    forall|shard: Seq<char>|
        #[trigger] requested_shard(sd, colls, shard) ==> shard_present(m, shard)
}

/// No shard stands in the fetch plan twice.
pub open spec fn entries_unique(m: ShardMap) -> bool {
    forall|si: int, j: int, si2: int, j2: int|
        0 <= si < m.keys@.len() && 0 <= j < m.vals@[si]@.len() && 0 <= si2 < m.keys@.len() && 0
            <= j2 < m.vals@[si2]@.len() && (si != si2 || j != j2) ==> (#[trigger] m.vals@[si]@[j])@
            != (#[trigger] m.vals@[si2]@[j2])@
}


/// Number of shards in a collection's plan.
pub open spec fn plan_len(sd: ShardDistribution, coll: Seq<char>) -> int {
    sd.results@[coll].plan.keys@.len() as int
}

/// The shard name at one position of a collection's plan.
pub open spec fn plan_key(sd: ShardDistribution, coll: Seq<char>, p: int) -> Seq<char> {
    sd.results@[coll].plan.keys@[p]@
}

/// One fetch-plan entry stems from the walked prefix: some collection
/// before position `k` - or the one at `k` up to plan position `l` -
/// includes it, and it stands under that collection's leader for it.
pub open spec fn entry_provenance(
    m: ShardMap,
    sd: ShardDistribution,
    colls: Seq<String>,
    k: int,
    l: int,
    si: int,
    j: int,
) -> bool {
    exists|c: int, p: int|
        0 <= c < colls.len() && (c < k || (c == k && p < l)) && 0 <= p < plan_len(sd, colls[c]@)
            && #[trigger] plan_key(sd, colls[c]@, p) == m.vals@[si]@[j]@ && included_shard(
            sd,
            colls[c]@,
            m.vals@[si]@[j]@,
        ) && m.keys@[si]@ == shard_leader(sd, colls[c]@, m.vals@[si]@[j]@)
}

/// Every fetch-plan entry stems from the walked prefix.
pub open spec fn entries_from_prefix(
    m: ShardMap,
    sd: ShardDistribution,
    colls: Seq<String>,
    k: int,
    l: int,
) -> bool {
    forall|si: int, j: int|
        0 <= si < m.keys@.len() && 0 <= j < m.vals@[si]@.len() ==> #[trigger] entry_provenance(
            m,
            sd,
            colls,
            k,
            l,
            si,
            j,
        )
}

/// A shard stands in the fetch plan under this collection's leader for it.
pub open spec fn shard_placed(
    m: ShardMap,
    sd: ShardDistribution,
    coll: Seq<char>,
    shard: Seq<char>,
) -> bool {
    exists|si: int, j: int|
        0 <= si < m.keys@.len() && 0 <= j < m.vals@[si]@.len() && m.keys@[si]@
            == shard_leader(sd, coll, shard) && (#[trigger] m.vals@[si]@[j])@ == shard
}

/// Every included shard of the walked prefix stands in the fetch plan
/// under its leader.
pub open spec fn complete_prefix(
    m: ShardMap,
    sd: ShardDistribution,
    colls: Seq<String>,
    k: int,
    l: int,
) -> bool {
    forall|c: int, p: int|
        0 <= c < colls.len() && (c < k || (c == k && p < l)) && 0 <= p < plan_len(sd, colls[c]@)
            && included_shard(sd, colls[c]@, #[trigger] plan_key(sd, colls[c]@, p))
            ==> shard_placed(m, sd, colls[c]@, plan_key(sd, colls[c]@, p))
}

/// Compute the fetch plan.  On a single server every requested collection
/// is pulled whole from the one endpoint.  On a cluster every shard of
/// every requested collection is grouped under its leader server, except
/// shards a smart-edge companion collection supersedes, which are left
/// out; a collection absent from the distribution is a configuration
/// mismatch and fatal.
#[verifier::loop_isolation(false)]
pub fn compute_shard_map(
    sd_opt: &Option<ShardDistribution>,
    coll_list: &Vec<String>,
    deployment_type: &DeploymentType,
    endpoints: &Vec<String>,
) -> (r: Result<ShardMap, TopologyError>)
    requires
        *deployment_type == DeploymentType::Cluster && sd_opt is Some ==> dist_wf(
            sd_opt->Some_0,
        ),
        forall|a: int, b: int|
            0 <= a < b < coll_list@.len() ==> (#[trigger] coll_list@[a])@ != (
            #[trigger] coll_list@[b])@,
    ensures
        match r {
            Ok(m) => m.wf() && if *deployment_type == DeploymentType::Single {
                m.keys@.len() == 1 && m.keys@[0]@ == endpoints@[0]@ && m.vals@[0].deep_view()
                    == coll_list.deep_view()
            } else {
                let sd = sd_opt->Some_0;
                &&& sd_opt is Some
                &&& first_missing(sd, coll_list@) == coll_list@.len()
                &&& entries_requested(m, sd, coll_list@)
                &&& entries_complete(m, sd, coll_list@)
                &&& entries_unique(m)
                &&& forall|si: int| 0 <= si < m.keys@.len() ==> (#[trigger] m.vals@[si])@.len() > 0
            },
            Err(e) => match e {
                TopologyError::MissingDistribution => *deployment_type == DeploymentType::Cluster
                    && sd_opt is None,
                TopologyError::CollectionNotFound(n) => *deployment_type
                    == DeploymentType::Cluster && sd_opt is Some && first_missing(
                    sd_opt->Some_0,
                    coll_list@,
                ) < coll_list@.len() && n@ == coll_list@[first_missing(
                    sd_opt->Some_0,
                    coll_list@,
                )]@,
                TopologyError::NoEndpoints => *deployment_type == DeploymentType::Single
                    && endpoints@.len() == 0,
            },
        },
{
    match deployment_type {
        DeploymentType::Single => {
            if endpoints.len() == 0 {
                return Err(TopologyError::NoEndpoints);
            }
            let mut target: Vec<String> = Vec::new();
            let nc = coll_list.len();
            let mut i: usize = 0;
            while i < nc
                invariant
                    i <= nc,
                    target@.len() == i,
                    forall|j: int| 0 <= j < i ==> (#[trigger] target@[j])@ == coll_list@[j]@,
                decreases nc - i,
            {
                target.push(coll_list[i].clone());
                i += 1;
            }
            let mut m: ShardMap = StrMap::new();
            m.insert_new(endpoints[0].clone(), target);
            proof {
                assert(m.vals@[0].deep_view() =~= coll_list.deep_view());
            }
            Ok(m)
        },
        DeploymentType::Cluster => {
            let sd = match sd_opt {
                Some(sd) => sd,
                None => {
                    return Err(TopologyError::MissingDistribution);
                },
            };
            proof {
                lemma_first_missing(*sd, coll_list@);
            }
            let mut result: ShardMap = StrMap::new();
            let nc = coll_list.len();
            let mut c: usize = 0;
            while c < nc
                invariant
                    c <= nc,
                    result.wf(),
                    forall|j: int|
                        0 <= j < c ==> sd.results@.dom().contains((#[trigger] coll_list@[j])@),
                    entries_from_prefix(result, *sd, coll_list@, c as int, 0),
                    complete_prefix(result, *sd, coll_list@, c as int, 0),
                    entries_unique(result),
                    forall|si: int|
                        0 <= si < result.keys@.len() ==> (#[trigger] result.vals@[si])@.len() > 0,
                decreases nc - c,
            {
                // the smart-edge companion, whose shards are excluded
                let mut smart: String = "_to_".to_owned();
                smart.append(coll_list[c].as_str());
                proof {
                    assert(smart@ == companion_name(coll_list@[c as int]@));
                }
                let companion = sd.results.get_index(&smart);
                let cd_i = match sd.results.get_index(&coll_list[c]) {
                    Some(i) => i,
                    None => {
                        proof {
                            lemma_first_missing(*sd, coll_list@);
                            assert(first_missing(*sd, coll_list@) == c) by {
                                let fm = first_missing(*sd, coll_list@);
                                if fm < c {
                                    assert(sd.results@.dom().contains(coll_list@[fm]@));
                                }
                            }
                        }
                        return Err(TopologyError::CollectionNotFound(coll_list[c].clone()));
                    },
                };
                let ghost coll = coll_list@[c as int]@;
                proof {
                    assert(sd.results@[coll] == sd.results.vals@[cd_i as int]);
                    assert(sd.results.vals@[cd_i as int].plan.wf());
                }
                let np = sd.results.vals[cd_i].plan.keys.len();
                let mut p: usize = 0;
                while p < np
                    invariant
                        p <= np,
                        np == plan_len(*sd, coll),
                        result.wf(),
                        entries_from_prefix(result, *sd, coll_list@, c as int, p as int),
                        complete_prefix(result, *sd, coll_list@, c as int, p as int),
                        entries_unique(result),
                        forall|si: int|
                            0 <= si < result.keys@.len() ==> (#[trigger] result.vals@[si])@.len()
                                > 0,
                    decreases np - p,
                {
                    let ghost shard = plan_key(*sd, coll, p as int);
                    let excluded: bool = match companion {
                        Some(ci) => {
                            proof {
                                assert(sd.results.vals@[ci as int].plan.wf());
                            }
                            sd.results.vals[ci].plan.contains_key(
                                &sd.results.vals[cd_i].plan.keys[p],
                            )
                        },
                        None => false,
                    };
                    proof {
                        assert(excluded == in_plan(*sd, companion_name(coll), shard));
                    }
                    if !excluded {
                        proof {
                            assert(in_plan(*sd, coll, shard)) by {
                                crate::assoc::lemma_key_at(
                                    sd.results.vals@[cd_i as int].plan.pairs(),
                                    p as int,
                                );
                            }
                            assert(included_shard(*sd, coll, shard));
                            crate::assoc::lemma_key_at(
                                sd.results.vals@[cd_i as int].plan.pairs(),
                                p as int,
                            );
                            assert(sd.results.vals@[cd_i as int].plan@[shard]
                                == sd.results.vals@[cd_i as int].plan.vals@[p as int]);
                        }
                        let ghost leader = shard_leader(*sd, coll, shard);
                        let shard_name = sd.results.vals[cd_i].plan.keys[p].clone();
                        let leader_name = sd.results.vals[cd_i].plan.vals[p].leader.clone();
                        proof {
                            assert(shard_name@ == shard);
                            assert(leader_name@ == leader);
                            lemma_fresh_entry(result, *sd, coll_list@, c as int, p as int);
                        }
                        let ghost pre = result;
                        match result.get_index(&leader_name) {
                            Some(si) => {
                                let v = result.value_at_mut(si);
                                v.push(shard_name);
                                proof {
                                    crate::assoc::lemma_strmap_set(
                                        pre,
                                        result,
                                        si as int,
                                        result.vals@[si as int],
                                    );
                                    lemma_invariants_after_add(
                                        pre,
                                        result,
                                        *sd,
                                        coll_list@,
                                        c as int,
                                        p as int,
                                        si as int,
                                    );
                                }
                            },
                            None => {
                                let mut nv: Vec<String> = Vec::new();
                                nv.push(shard_name);
                                let ghost si = result.keys@.len() as int;
                                result.insert_new(leader_name, nv);
                                proof {
                                    lemma_invariants_after_add(
                                        pre,
                                        result,
                                        *sd,
                                        coll_list@,
                                        c as int,
                                        p as int,
                                        si,
                                    );
                                }
                            },
                        }
                    } else {
                        proof {
                            lemma_prefix_step_excluded(
                                result,
                                *sd,
                                coll_list@,
                                c as int,
                                p as int,
                            );
                        }
                    }
                    p += 1;
                }
                proof {
                    lemma_prefix_roll(result, *sd, coll_list@, c as int);
                }
                c += 1;
            }
            proof {
                lemma_first_missing(*sd, coll_list@);
                assert(first_missing(*sd, coll_list@) == coll_list@.len()) by {
                    let fm = first_missing(*sd, coll_list@);
                    if fm < coll_list@.len() {
                        assert(sd.results@.dom().contains(coll_list@[fm]@));
                    }
                }
                lemma_final_views(result, *sd, coll_list@);
            }
            Ok(result)
        },
    }
}


/// Two distinct collections can both claim a shard only as a smart-edge
/// pair: any other plans are disjoint.
proof fn lemma_plan_overlap_is_companion(
    sd: ShardDistribution,
    coll1: Seq<char>,
    coll2: Seq<char>,
    shard: Seq<char>,
)
    requires
        dist_wf(sd),
        in_plan(sd, coll1, shard),
        in_plan(sd, coll2, shard),
        coll1 != coll2,
    ensures
        companion_pair(coll1, coll2),
{
    crate::assoc::lemma_first_key_index(sd.results.pairs(), coll1);
    crate::assoc::lemma_first_key_index(sd.results.pairs(), coll2);
    let i1 = crate::assoc::first_key_index(sd.results.pairs(), coll1);
    let i2 = crate::assoc::first_key_index(sd.results.pairs(), coll2);
    assert(sd.results@[coll1] == sd.results.vals@[i1]);
    assert(sd.results@[coll2] == sd.results.vals@[i2]);
    assert(sd.results.keys@[i1]@ == coll1);
    assert(sd.results.keys@[i2]@ == coll2);
    assert(i1 != i2);
    if !companion_pair(coll1, coll2) {
        let p1 = sd.results.vals@[i1].plan;
        let p2 = sd.results.vals@[i2].plan;
        crate::assoc::lemma_first_key_index(p1.pairs(), shard);
        crate::assoc::lemma_first_key_index(p2.pairs(), shard);
        let a = crate::assoc::first_key_index(p1.pairs(), shard);
        let b = crate::assoc::first_key_index(p2.pairs(), shard);
        assert(p1.keys@[a]@ == shard);
        assert(p2.keys@[b]@ == shard);
        assert(p1.keys@[a]@ != p2.keys@[b]@);
    }
}

/// Only one collection can want a shard fetched: a second claimant is a
/// smart-edge partner, and inclusion rules the superseded side out.
proof fn lemma_included_owner_unique(
    sd: ShardDistribution,
    coll1: Seq<char>,
    coll2: Seq<char>,
    shard: Seq<char>,
)
    requires
        dist_wf(sd),
        included_shard(sd, coll1, shard),
        included_shard(sd, coll2, shard),
    ensures
        coll1 == coll2,
{
    if coll1 != coll2 {
        lemma_plan_overlap_is_companion(sd, coll1, coll2, shard);
        if coll1 == companion_name(coll2) {
            // the shard stands in the companion's plan, so it is not
            // included for the edge collection
            assert(in_plan(sd, companion_name(coll2), shard));
        } else {
            assert(in_plan(sd, companion_name(coll1), shard));
        }
    }
}

/// A shard about to be added stands nowhere in the plan yet.
proof fn lemma_fresh_entry(m: ShardMap, sd: ShardDistribution, colls: Seq<String>, c: int, p: int)
    requires
        dist_wf(sd),
        forall|a: int, b: int|
            0 <= a < b < colls.len() ==> (#[trigger] colls[a])@ != (#[trigger] colls[b])@,
        0 <= c < colls.len(),
        sd.results@.dom().contains(colls[c]@),
        0 <= p < plan_len(sd, colls[c]@),
        included_shard(sd, colls[c]@, plan_key(sd, colls[c]@, p)),
        entries_from_prefix(m, sd, colls, c, p),
    ensures
        forall|si: int, j: int|
            0 <= si < m.keys@.len() && 0 <= j < m.vals@[si]@.len() ==> (
            #[trigger] m.vals@[si]@[j])@ != plan_key(sd, colls[c]@, p),
{
    let shard = plan_key(sd, colls[c]@, p);
    assert forall|si: int, j: int|
        0 <= si < m.keys@.len() && 0 <= j < m.vals@[si]@.len() implies (
    #[trigger] m.vals@[si]@[j])@ != shard by {
        assert(entry_provenance(m, sd, colls, c, p, si, j));
        let (c2, p2) = choose|c2: int, p2: int|
            0 <= c2 < colls.len() && (c2 < c || (c2 == c && p2 < p)) && 0 <= p2 < plan_len(
                sd,
                colls[c2]@,
            ) && #[trigger] plan_key(sd, colls[c2]@, p2) == m.vals@[si]@[j]@ && included_shard(
                sd,
                colls[c2]@,
                m.vals@[si]@[j]@,
            ) && m.keys@[si]@ == shard_leader(sd, colls[c2]@, m.vals@[si]@[j]@);
        crate::assoc::lemma_first_key_index(sd.results.pairs(), colls[c]@);
        crate::assoc::lemma_first_key_index(sd.results.pairs(), colls[c2]@);
        let i1 = crate::assoc::first_key_index(sd.results.pairs(), colls[c]@);
        let i2 = crate::assoc::first_key_index(sd.results.pairs(), colls[c2]@);
        assert(sd.results@[colls[c]@] == sd.results.vals@[i1]);
        assert(sd.results@[colls[c2]@] == sd.results.vals@[i2]);
        if c2 == c {
            let pl = sd.results.vals@[i1].plan;
            assert(pl.wf());
            if m.vals@[si]@[j]@ == shard {
                assert(pl.pairs()[p2].0 == pl.pairs()[p].0);
            }
        } else {
            assert(colls[c2]@ != colls[c]@);
            if m.vals@[si]@[j]@ == shard {
                // two distinct requested collections would both include it
                assert(in_plan(sd, colls[c2]@, shard)) by {
                    assert(sd.results.vals@[i2].plan.keys@[p2]@ == shard);
                    crate::assoc::lemma_key_at(sd.results.vals@[i2].plan.pairs(), p2);
                }
                lemma_included_owner_unique(sd, colls[c2]@, colls[c]@, shard);
            }
        }
    }
}

/// Adding one included shard under its leader carries all three loop
/// invariants one plan position forward.
#[verifier::rlimit(100)]
proof fn lemma_invariants_after_add(
    pre: ShardMap,
    post: ShardMap,
    sd: ShardDistribution,
    colls: Seq<String>,
    c: int,
    p: int,
    si: int,
)
    requires
        dist_wf(sd),
        forall|a: int, b: int|
            0 <= a < b < colls.len() ==> (#[trigger] colls[a])@ != (#[trigger] colls[b])@,
        0 <= c < colls.len(),
        sd.results@.dom().contains(colls[c]@),
        0 <= p < plan_len(sd, colls[c]@),
        included_shard(sd, colls[c]@, plan_key(sd, colls[c]@, p)),
        entries_from_prefix(pre, sd, colls, c, p),
        complete_prefix(pre, sd, colls, c, p),
        entries_unique(pre),
        pre.wf(),
        0 <= si < post.keys@.len(),
        post.keys@[si]@ == shard_leader(sd, colls[c]@, plan_key(sd, colls[c]@, p)),
        si < pre.keys@.len() ==> post.keys@ == pre.keys@ && post.vals@.len() == pre.vals@.len()
            && post.vals@[si]@ == pre.vals@[si]@.push(post.vals@[si]@.last())
            && post.vals@[si]@.last()@ == plan_key(sd, colls[c]@, p) && forall|i: int|
            0 <= i < pre.vals@.len() && i != si ==> post.vals@[i] == pre.vals@[i],
        si == pre.keys@.len() ==> post.keys@.len() == pre.keys@.len() + 1 && post.vals@.len()
            == pre.vals@.len() + 1 && post.vals@[si]@.len() == 1 && post.vals@[si]@[0]@ == plan_key(
            sd,
            colls[c]@,
            p,
        ) && forall|i: int|
            0 <= i < pre.vals@.len() ==> post.keys@[i] == pre.keys@[i] && post.vals@[i]
                == pre.vals@[i],
        si <= pre.keys@.len(),
    ensures
        entries_from_prefix(post, sd, colls, c, p + 1),
        complete_prefix(post, sd, colls, c, p + 1),
        entries_unique(post),
{
    let shard = plan_key(sd, colls[c]@, p);
    lemma_fresh_entry(pre, sd, colls, c, p);
    let newj = if si < pre.keys@.len() {
        pre.vals@[si]@.len() as int
    } else {
        0
    };
    assert forall|s2: int, j2: int|
        0 <= s2 < post.keys@.len() && 0 <= j2 < post.vals@[s2]@.len() implies (s2 == si && j2
        == newj) || (s2 < pre.keys@.len() && j2 < pre.vals@[s2]@.len() && post.vals@[s2]@[j2]
        == pre.vals@[s2]@[j2] && post.keys@[s2]@ == pre.keys@[s2]@) by {
        if s2 == si {
            if si < pre.keys@.len() {
                if j2 < pre.vals@[si]@.len() {
                    assert(post.vals@[si]@[j2] == pre.vals@[si]@[j2]);
                }
            }
        }
    }
    assert forall|s2: int, j2: int|
        0 <= s2 < post.keys@.len() && 0 <= j2 < post.vals@[s2]@.len() implies
        #[trigger] entry_provenance(post, sd, colls, c, p + 1, s2, j2) by {
        if s2 == si && j2 == newj {
            assert(0 <= c < colls.len() && (c == c && p < p + 1) && 0 <= p < plan_len(
                sd,
                colls[c]@,
            ) && plan_key(sd, colls[c]@, p) == post.vals@[s2]@[j2]@ && included_shard(
                sd,
                colls[c]@,
                post.vals@[s2]@[j2]@,
            ) && post.keys@[s2]@ == shard_leader(sd, colls[c]@, post.vals@[s2]@[j2]@));
        } else {
            assert(entry_provenance(pre, sd, colls, c, p, s2, j2));
            let (c2, p2) = choose|c2: int, p2: int|
                0 <= c2 < colls.len() && (c2 < c || (c2 == c && p2 < p)) && 0 <= p2 < plan_len(
                    sd,
                    colls[c2]@,
                ) && #[trigger] plan_key(sd, colls[c2]@, p2) == pre.vals@[s2]@[j2]@
                    && included_shard(sd, colls[c2]@, pre.vals@[s2]@[j2]@) && pre.keys@[s2]@
                    == shard_leader(sd, colls[c2]@, pre.vals@[s2]@[j2]@);
            assert(0 <= c2 < colls.len() && (c2 < c || (c2 == c && p2 < p + 1)) && 0 <= p2
                < plan_len(sd, colls[c2]@) && plan_key(sd, colls[c2]@, p2) == post.vals@[s2]@[j2]@
                && included_shard(sd, colls[c2]@, post.vals@[s2]@[j2]@) && post.keys@[s2]@
                == shard_leader(sd, colls[c2]@, post.vals@[s2]@[j2]@));
        }
    }
    assert forall|c2: int, p2: int|
        0 <= c2 < colls.len() && (c2 < c || (c2 == c && p2 < p + 1)) && 0 <= p2 < plan_len(
            sd,
            colls[c2]@,
        ) && included_shard(sd, colls[c2]@, #[trigger] plan_key(sd, colls[c2]@, p2)) implies
        shard_placed(post, sd, colls[c2]@, plan_key(sd, colls[c2]@, p2)) by {
        if c2 == c && p2 == p {
            assert(0 <= si < post.keys@.len() && 0 <= newj < post.vals@[si]@.len()
                && post.keys@[si]@ == shard_leader(sd, colls[c2]@, plan_key(sd, colls[c2]@, p2))
                && post.vals@[si]@[newj]@ == plan_key(sd, colls[c2]@, p2));
        } else {
            assert(shard_placed(pre, sd, colls[c2]@, plan_key(sd, colls[c2]@, p2)));
            let (s3, j3) = choose|s3: int, j3: int|
                0 <= s3 < pre.keys@.len() && 0 <= j3 < pre.vals@[s3]@.len()
                    && pre.keys@[s3]@ == shard_leader(sd, colls[c2]@, plan_key(sd, colls[c2]@, p2))
                    && (#[trigger] pre.vals@[s3]@[j3])@ == plan_key(sd, colls[c2]@, p2);
            assert(post.vals@[s3]@[j3] == pre.vals@[s3]@[j3] && post.keys@[s3]@ == pre.keys@[s3]@);
            assert(0 <= s3 < post.keys@.len() && 0 <= j3 < post.vals@[s3]@.len() && post.keys@[s3]@
                == shard_leader(sd, colls[c2]@, plan_key(sd, colls[c2]@, p2))
                && post.vals@[s3]@[j3]@ == plan_key(sd, colls[c2]@, p2));
        }
    }
    assert forall|s2: int, j2: int, s3: int, j3: int|
        0 <= s2 < post.keys@.len() && 0 <= j2 < post.vals@[s2]@.len() && 0 <= s3
            < post.keys@.len() && 0 <= j3 < post.vals@[s3]@.len() && (s2 != s3 || j2 != j3) implies
        (#[trigger] post.vals@[s2]@[j2])@ != (#[trigger] post.vals@[s3]@[j3])@ by {
        if s2 == si && j2 == newj {
            assert(post.vals@[s3]@[j3] == pre.vals@[s3]@[j3]);
        } else if s3 == si && j3 == newj {
            assert(post.vals@[s2]@[j2] == pre.vals@[s2]@[j2]);
        } else {
        }
    }
}

/// Skipping a superseded or absent shard carries the invariants forward.
#[verifier::rlimit(100)]
proof fn lemma_prefix_step_excluded(
    m: ShardMap,
    sd: ShardDistribution,
    colls: Seq<String>,
    c: int,
    p: int,
)
    requires
        0 <= c < colls.len(),
        entries_from_prefix(m, sd, colls, c, p),
        complete_prefix(m, sd, colls, c, p),
        !included_shard(sd, colls[c]@, plan_key(sd, colls[c]@, p)),
    ensures
        entries_from_prefix(m, sd, colls, c, p + 1),
        complete_prefix(m, sd, colls, c, p + 1),
{
    lemma_entries_weaken(m, sd, colls, c, p, c, p + 1);
    lemma_complete_weaken(m, sd, colls, c, p, c, p + 1);
}

/// Finishing one collection carries the invariants to the next.
#[verifier::rlimit(100)]
proof fn lemma_prefix_roll(m: ShardMap, sd: ShardDistribution, colls: Seq<String>, c: int)
    requires
        0 <= c < colls.len(),
        sd.results@.dom().contains(colls[c]@),
        entries_from_prefix(m, sd, colls, c, plan_len(sd, colls[c]@)),
        complete_prefix(m, sd, colls, c, plan_len(sd, colls[c]@)),
    ensures
        entries_from_prefix(m, sd, colls, c + 1, 0),
        complete_prefix(m, sd, colls, c + 1, 0),
{
    lemma_entries_weaken(m, sd, colls, c, plan_len(sd, colls[c]@), c + 1, 0);
    lemma_complete_weaken(m, sd, colls, c, plan_len(sd, colls[c]@), c + 1, 0);
}

/// The provenance invariant is monotone in the walked-prefix bound.
#[verifier::rlimit(100)]
proof fn lemma_entries_weaken(
    m: ShardMap,
    sd: ShardDistribution,
    colls: Seq<String>,
    k1: int,
    l1: int,
    k2: int,
    l2: int,
)
    requires
        entries_from_prefix(m, sd, colls, k1, l1),
        k1 < k2 || (k1 == k2 && l1 <= l2),
    ensures
        entries_from_prefix(m, sd, colls, k2, l2),
{
    assert forall|si: int, j: int|
        0 <= si < m.keys@.len() && 0 <= j < m.vals@[si]@.len() implies #[trigger] entry_provenance(
        m,
        sd,
        colls,
        k2,
        l2,
        si,
        j,
    ) by {
        assert(entry_provenance(m, sd, colls, k1, l1, si, j));
        let (c2, p2) = choose|c2: int, p2: int|
            0 <= c2 < colls.len() && (c2 < k1 || (c2 == k1 && p2 < l1)) && 0 <= p2 < plan_len(
                sd,
                colls[c2]@,
            ) && #[trigger] plan_key(sd, colls[c2]@, p2) == m.vals@[si]@[j]@ && included_shard(
                sd,
                colls[c2]@,
                m.vals@[si]@[j]@,
            ) && m.keys@[si]@ == shard_leader(sd, colls[c2]@, m.vals@[si]@[j]@);
        assert(0 <= c2 < colls.len() && (c2 < k2 || (c2 == k2 && p2 < l2)) && 0 <= p2 < plan_len(
            sd,
            colls[c2]@,
        ) && plan_key(sd, colls[c2]@, p2) == m.vals@[si]@[j]@ && included_shard(
            sd,
            colls[c2]@,
            m.vals@[si]@[j]@,
        ) && m.keys@[si]@ == shard_leader(sd, colls[c2]@, m.vals@[si]@[j]@));
    }
}

/// The completeness invariant is monotone in the walked-prefix bound as
/// long as the larger bound adds only settled or vacuous obligations.
#[verifier::rlimit(100)]
proof fn lemma_complete_weaken(
    m: ShardMap,
    sd: ShardDistribution,
    colls: Seq<String>,
    k1: int,
    l1: int,
    k2: int,
    l2: int,
)
    requires
        complete_prefix(m, sd, colls, k1, l1),
        forall|c: int, p: int|
            0 <= c < colls.len() && (c < k2 || (c == k2 && p < l2)) && 0 <= p < plan_len(
                sd,
                colls[c]@,
            ) && included_shard(sd, colls[c]@, #[trigger] plan_key(sd, colls[c]@, p)) ==> (c < k1
                || (c == k1 && p < l1)),
    ensures
        complete_prefix(m, sd, colls, k2, l2),
{
}

/// The invariants at the end of the walk give the fetch plan's contract.
#[verifier::rlimit(100)]
proof fn lemma_final_views(m: ShardMap, sd: ShardDistribution, colls: Seq<String>)
    requires
        dist_wf(sd),
        forall|a: int, b: int|
            0 <= a < b < colls.len() ==> (#[trigger] colls[a])@ != (#[trigger] colls[b])@,
        entries_from_prefix(m, sd, colls, colls.len() as int, 0),
        complete_prefix(m, sd, colls, colls.len() as int, 0),
        entries_unique(m),
    ensures
        entries_requested(m, sd, colls),
        entries_complete(m, sd, colls),
{
    assert forall|si: int, j: int|
        0 <= si < m.keys@.len() && 0 <= j < m.vals@[si]@.len() implies
        #[trigger] entry_requested_at(m, sd, colls, si, j) by {
        assert(entry_provenance(m, sd, colls, colls.len() as int, 0, si, j));
        let (c0, p0) = choose|c0: int, p0: int|
            0 <= c0 < colls.len() && (c0 < colls.len() || (c0 == colls.len() && p0 < 0)) && 0 <= p0
                < plan_len(sd, colls[c0]@) && #[trigger] plan_key(sd, colls[c0]@, p0)
                == m.vals@[si]@[j]@ && included_shard(sd, colls[c0]@, m.vals@[si]@[j]@)
                && m.keys@[si]@ == shard_leader(sd, colls[c0]@, m.vals@[si]@[j]@);
        assert(requested_shard(sd, colls, m.vals@[si]@[j]@)) by {
            assert(included_shard(sd, (colls[c0])@, m.vals@[si]@[j]@));
        }
        assert forall|c: int|
            0 <= c < colls.len() && included_shard(sd, (#[trigger] colls[c])@, m.vals@[si]@[j]@)
            implies m.keys@[si]@ == shard_leader(sd, colls[c]@, m.vals@[si]@[j]@) by {
            lemma_included_owner_unique(sd, colls[c]@, colls[c0]@, m.vals@[si]@[j]@);
        }
    }
    assert forall|shard: Seq<char>| #[trigger] requested_shard(sd, colls, shard) implies
        shard_present(m, shard) by {
        let c = choose|c: int|
            0 <= c < colls.len() && included_shard(sd, (#[trigger] colls[c])@, shard);
        let pl = sd.results@[colls[c]@].plan;
        crate::assoc::lemma_first_key_index(pl.pairs(), shard);
        let p = crate::assoc::first_key_index(pl.pairs(), shard);
        assert(pl.keys@[p]@ == shard);
        assert(plan_key(sd, colls[c]@, p) == shard);
        assert(included_shard(sd, colls[c]@, plan_key(sd, colls[c]@, p)));
        assert(shard_placed(m, sd, colls[c]@, plan_key(sd, colls[c]@, p)));
        let (si, j) = choose|si: int, j: int|
            0 <= si < m.keys@.len() && 0 <= j < m.vals@[si]@.len() && m.keys@[si]@
                == shard_leader(sd, colls[c]@, plan_key(sd, colls[c]@, p)) && (
            #[trigger] m.vals@[si]@[j])@ == plan_key(sd, colls[c]@, p);
        assert(0 <= si < m.keys@.len() && 0 <= j < m.vals@[si]@.len() && m.vals@[si]@[j]@
            == shard);
    }
}




/// Law: a shard of a requested collection that the collection's smart-edge
/// companion also claims never stands in the fetch plan - its data would
/// arrive twice otherwise.  The companion itself is an internal collection
/// and not among the requested ones.
pub proof fn lemma_superseded_shard_never_appears(
    m: ShardMap,
    sd: ShardDistribution,
    colls: Seq<String>,
    c: int,
    shard: Seq<char>,
)
    requires
        dist_wf(sd),
        entries_requested(m, sd, colls),
        0 <= c < colls.len(),
        in_plan(sd, colls[c]@, shard),
        in_plan(sd, companion_name(colls[c]@), shard),
        forall|c2: int|
            0 <= c2 < colls.len() ==> (#[trigger] colls[c2])@ != companion_name(colls[c]@),
    ensures
        forall|si: int, j: int|
            0 <= si < m.keys@.len() && 0 <= j < m.vals@[si]@.len() ==> (
            #[trigger] m.vals@[si]@[j])@ != shard,
{
    assert forall|si: int, j: int|
        0 <= si < m.keys@.len() && 0 <= j < m.vals@[si]@.len() implies (
    #[trigger] m.vals@[si]@[j])@ != shard by {
        assert(entry_requested_at(m, sd, colls, si, j));
        if m.vals@[si]@[j]@ == shard {
            let c2 = choose|c2: int|
                0 <= c2 < colls.len() && included_shard(sd, (#[trigger] colls[c2])@, shard);
            assert(colls[c2]@ != companion_name(colls[c]@));
            if colls[c2]@ == colls[c]@ {
                // the shard is superseded for this very collection
                assert(!in_plan(sd, companion_name(colls[c]@), shard));
            } else {
                // a third claimant beside the pair would break the plan
                // disjointness that only a smart-edge pair may escape
                lemma_plan_overlap_is_companion(sd, colls[c2]@, colls[c]@, shard);
                if colls[c]@ == companion_name(colls[c2]@) {
                    assert(!in_plan(sd, companion_name(colls[c2]@), shard));
                }
            }
        }
    }
}

/// Law: every shard a requested collection wants fetched stands in the
/// fetch plan at exactly one place, under its leader.
pub proof fn lemma_requested_shard_exactly_once(
    m: ShardMap,
    sd: ShardDistribution,
    colls: Seq<String>,
    shard: Seq<char>,
)
    requires
        entries_complete(m, sd, colls),
        entries_unique(m),
        requested_shard(sd, colls, shard),
    ensures
        exists|si: int, j: int|
            0 <= si < m.keys@.len() && 0 <= j < m.vals@[si]@.len() && (
            #[trigger] m.vals@[si]@[j])@ == shard,
        forall|si: int, j: int, si2: int, j2: int|
            0 <= si < m.keys@.len() && 0 <= j < m.vals@[si]@.len() && 0 <= si2 < m.keys@.len()
                && 0 <= j2 < m.vals@[si2]@.len() && (#[trigger] m.vals@[si]@[j])@ == shard && (
            #[trigger] m.vals@[si2]@[j2])@ == shard ==> si == si2 && j == j2,
{
    assert(shard_present(m, shard));
    let (si, j) = choose|si: int, j: int|
        0 <= si < m.keys@.len() && 0 <= j < m.vals@[si]@.len() && (#[trigger] m.vals@[si]@[j])@
            == shard;
    assert(0 <= si < m.keys@.len() && 0 <= j < m.vals@[si]@.len() && m.vals@[si]@[j]@ == shard);
}


/// Whether a list of names is pairwise distinct, as the requested
/// collection lists must be; callers test their input with it.
#[verifier::loop_isolation(false)]
pub fn names_distinct(keys: &Vec<String>) -> (r: bool)
    ensures
        r == (forall|a: int, b: int|
            0 <= a < b < keys@.len() ==> (#[trigger] keys@[a])@ != (#[trigger] keys@[b])@),
{
    let n = keys.len();
    let mut a: usize = 0;
    while a < n
        invariant
            a <= n,
            forall|x: int, y: int|
                0 <= x < y < keys@.len() && x < a ==> (#[trigger] keys@[x])@ != (
                #[trigger] keys@[y])@,
        decreases n - a,
    {
        let mut b: usize = a + 1;
        while b < n
            invariant
                a < b <= n || (a + 1 > n && b == a + 1),
                a < n,
                forall|y: int| a < y < b ==> (#[trigger] keys@[y])@ != keys@[a as int]@,
            decreases n - b,
        {
            if keys[a] == keys[b] {
                return false;
            }
            b += 1;
        }
        a += 1;
    }
    true
}

/// Check a distribution's well-formedness: unique collection names,
/// well-formed plans, and no shard name shared between two collections'
/// plans.  What the server answered is data, so the caller tests it.
#[verifier::loop_isolation(false)]
pub fn check_dist_wf(sd: &ShardDistribution) -> (r: bool)
    ensures
        r == dist_wf(*sd),
{
    if sd.results.keys.len() != sd.results.vals.len() {
        return false;
    }
    if !names_distinct(&sd.results.keys) {
        proof {
            let (a, b) = choose|a: int, b: int|
                0 <= a < b < sd.results.keys@.len() && (#[trigger] sd.results.keys@[a])@ == (
                #[trigger] sd.results.keys@[b])@;
            assert(sd.results.pairs()[a].0 == sd.results.pairs()[b].0);
            assert(!crate::assoc::unique_keys(sd.results.pairs()));
        }
        return false;
    }
    proof {
        assert(crate::assoc::unique_keys(sd.results.pairs())) by {
            assert forall|a: int, b: int|
                0 <= a < b < sd.results.pairs().len() implies sd.results.pairs()[a].0
                != sd.results.pairs()[b].0 by {
                assert(sd.results.pairs()[a].0 == sd.results.keys@[a]@);
                assert(sd.results.pairs()[b].0 == sd.results.keys@[b]@);
            }
        }
    }
    let n = sd.results.vals.len();
    let mut i: usize = 0;
    while i < n
        invariant
            i <= n,
            n == sd.results.vals@.len(),
            forall|j: int| 0 <= j < i ==> (#[trigger] sd.results.vals@[j]).plan.wf(),
        decreases n - i,
    {
        let plan = &sd.results.vals[i].plan;
        if plan.keys.len() != plan.vals.len() {
            proof {
                assert(!sd.results.vals@[i as int].plan.wf());
            }
            return false;
        }
        if !names_distinct(&plan.keys) {
            proof {
                let (a, b) = choose|a: int, b: int|
                    0 <= a < b < plan.keys@.len() && (#[trigger] plan.keys@[a])@ == (
                    #[trigger] plan.keys@[b])@;
                assert(plan.pairs()[a].0 == plan.pairs()[b].0);
                assert(!sd.results.vals@[i as int].plan.wf());
            }
            return false;
        }
        proof {
            assert(sd.results.vals@[i as int].plan.wf()) by {
                assert forall|a: int, b: int|
                    0 <= a < b < plan.pairs().len() implies plan.pairs()[a].0
                    != plan.pairs()[b].0 by {
                    assert(plan.pairs()[a].0 == plan.keys@[a]@);
                    assert(plan.pairs()[b].0 == plan.keys@[b]@);
                }
            }
        }
        i += 1;
    }
    // no shard name may stand in two collections' plans, smart-edge pairs
    // aside
    let mut x: usize = 0;
    while x < n
        invariant
            x <= n,
            n == sd.results.vals@.len(),
            n == sd.results.keys@.len(),
            forall|j: int| 0 <= j < n ==> (#[trigger] sd.results.vals@[j]).plan.wf(),
            forall|i2: int, j2: int, a: int, b: int|
                0 <= i2 < x && 0 <= j2 < n && i2 != j2 && !companion_pair(
                    sd.results.keys@[i2]@,
                    sd.results.keys@[j2]@,
                ) && 0 <= a < sd.results.vals@[i2].plan.keys@.len() && 0 <= b
                    < sd.results.vals@[j2].plan.keys@.len() ==> (
                #[trigger] sd.results.vals@[i2].plan.keys@[a])@ != (
                #[trigger] sd.results.vals@[j2].plan.keys@[b])@,
        decreases n - x,
    {
        let xs = &sd.results.vals[x].plan.keys;
        let xm = xs.len();
        let mut a: usize = 0;
        while a < xm
            invariant
                a <= xm,
                x < n,
                xm == sd.results.vals@[x as int].plan.keys@.len(),
                forall|a2: int, j2: int, b: int|
                    0 <= a2 < a && 0 <= j2 < n && j2 != x && !companion_pair(
                        sd.results.keys@[x as int]@,
                        sd.results.keys@[j2]@,
                    ) && 0 <= b < sd.results.vals@[j2].plan.keys@.len() ==> (
                    #[trigger] sd.results.vals@[x as int].plan.keys@[a2])@ != (
                    #[trigger] sd.results.vals@[j2].plan.keys@[b])@,
            decreases xm - a,
        {
            let mut y: usize = 0;
            while y < n
                invariant
                    y <= n,
                    x < n,
                    a < xm,
                    xm == sd.results.vals@[x as int].plan.keys@.len(),
                    forall|j2: int, b: int|
                        0 <= j2 < y && j2 != x && !companion_pair(
                            sd.results.keys@[x as int]@,
                            sd.results.keys@[j2]@,
                        ) && 0 <= b < sd.results.vals@[j2].plan.keys@.len() ==> (
                        #[trigger] sd.results.vals@[x as int].plan.keys@[a as int])@ != (
                        #[trigger] sd.results.vals@[j2].plan.keys@[b])@,
                decreases n - y,
            {
                let mut companions: bool = false;
                if y != x {
                    let mut comp_y: String = "_to_".to_owned();
                    comp_y.append(sd.results.keys[y].as_str());
                    let mut comp_x: String = "_to_".to_owned();
                    comp_x.append(sd.results.keys[x].as_str());
                    if sd.results.keys[x] == comp_y || sd.results.keys[y] == comp_x {
                        companions = true;
                    }
                    proof {
                        assert(companions == companion_pair(
                            sd.results.keys@[x as int]@,
                            sd.results.keys@[y as int]@,
                        ));
                    }
                }
                if y != x && !companions {
                    let ys = &sd.results.vals[y].plan.keys;
                    let ym = ys.len();
                    let mut b: usize = 0;
                    while b < ym
                        invariant
                            b <= ym,
                            y < n,
                            y != x,
                            !companion_pair(
                                sd.results.keys@[x as int]@,
                                sd.results.keys@[y as int]@,
                            ),
                            x < n,
                            a < xm,
                            xm == sd.results.vals@[x as int].plan.keys@.len(),
                            ym == sd.results.vals@[y as int].plan.keys@.len(),
                            forall|b2: int|
                                0 <= b2 < b ==> (
                                #[trigger] sd.results.vals@[x as int].plan.keys@[a as int])@ != (
                                sd.results.vals@[y as int].plan.keys@[b2])@,
                        decreases ym - b,
                    {
                        if xs[a] == ys[b] {
                            proof {
                                assert(!dist_wf(*sd)) by {
                                    assert((sd.results.vals@[x as int].plan.keys@[a as int])@ == (
                                    sd.results.vals@[y as int].plan.keys@[b as int])@);
                                }
                            }
                            return false;
                        }
                        b += 1;
                    }
                }
                y += 1;
            }
            a += 1;
        }
        x += 1;
    }
    proof {
        assert(dist_wf(*sd));
    }
    true
}

} // verus!
