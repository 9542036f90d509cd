use phenolrs::assoc::StrMap;
use phenolrs::info::DeploymentType;
use phenolrs::shard::{
    compute_shard_map, CollectionDistribution, ShardDistribution, ShardLocation, TopologyError,
};

fn loc(leader: &str) -> ShardLocation {
    ShardLocation { leader: leader.to_string(), followers: Vec::new() }
}

fn dist(entries: Vec<(&str, Vec<(&str, &str)>)>) -> ShardDistribution {
    let mut results: StrMap<CollectionDistribution> = StrMap::new();
    for (coll, shards) in entries {
        let mut plan: StrMap<ShardLocation> = StrMap::new();
        let mut current: StrMap<ShardLocation> = StrMap::new();
        for (shard, leader) in shards {
            plan.set(shard.to_string(), loc(leader));
            current.set(shard.to_string(), loc(leader));
        }
        results.set(coll.to_string(), CollectionDistribution { plan, current });
    }
    ShardDistribution { error: false, code: 200, results }
}

fn lookup<'a>(m: &'a phenolrs::shard::ShardMap, server: &str) -> Option<&'a Vec<String>> {
    for i in 0..m.keys.len() {
        if m.keys[i] == server {
            return Some(&m.vals[i]);
        }
    }
    None
}

#[test]
fn shard_map_groups_by_leader() {
    let sd = dist(vec![
        ("c1", vec![("s1", "A"), ("s2", "B")]),
        ("c2", vec![("s3", "A")]),
    ]);
    let colls = vec!["c1".to_string(), "c2".to_string()];
    let m = compute_shard_map(&Some(sd), &colls, &DeploymentType::Cluster, &Vec::new()).unwrap();
    let a = lookup(&m, "A").unwrap();
    let b = lookup(&m, "B").unwrap();
    let mut a_sorted = a.clone();
    a_sorted.sort();
    assert_eq!(a_sorted, vec!["s1".to_string(), "s3".to_string()]);
    assert_eq!(b, &vec!["s2".to_string()]);
}

#[test]
fn smart_companion_shards_are_excluded_exactly_once() {
    // the companion `_to_e` supersedes s4; every other requested shard
    // appears exactly once
    let sd = dist(vec![
        ("e", vec![("s4", "A"), ("s5", "B")]),
        ("_to_e", vec![("s4", "A")]),
        ("c1", vec![("s1", "A"), ("s2", "B")]),
    ]);
    let colls = vec!["c1".to_string(), "e".to_string()];
    let m = compute_shard_map(&Some(sd), &colls, &DeploymentType::Cluster, &Vec::new()).unwrap();
    let mut all: Vec<String> = Vec::new();
    for i in 0..m.keys.len() {
        for s in &m.vals[i] {
            all.push(s.clone());
        }
    }
    all.sort();
    assert_eq!(
        all,
        vec!["s1".to_string(), "s2".to_string(), "s5".to_string()]
    );
}

#[test]
fn missing_collection_is_fatal() {
    let sd = dist(vec![("c1", vec![("s1", "A")])]);
    let colls = vec!["c1".to_string(), "ghost".to_string()];
    let r = compute_shard_map(&Some(sd), &colls, &DeploymentType::Cluster, &Vec::new());
    match r {
        Err(e) => assert_eq!(e, TopologyError::CollectionNotFound("ghost".to_string())),
        Ok(_) => panic!("expected a missing-collection error"),
    }
}

#[test]
fn missing_distribution_is_fatal() {
    let colls = vec!["c1".to_string()];
    let r = compute_shard_map(&None, &colls, &DeploymentType::Cluster, &Vec::new());
    match r {
        Err(e) => assert_eq!(e, TopologyError::MissingDistribution),
        Ok(_) => panic!("expected a missing-distribution error"),
    }
}

#[test]
fn single_server_takes_whole_collections() {
    let colls = vec!["c1".to_string(), "c2".to_string()];
    let eps = vec!["http://localhost:8529".to_string()];
    let m = compute_shard_map(&None, &colls, &DeploymentType::Single, &eps).unwrap();
    assert_eq!(m.keys.len(), 1);
    assert_eq!(m.keys[0], "http://localhost:8529");
    assert_eq!(m.vals[0], colls);
}

#[test]
fn single_server_without_endpoints_is_fatal() {
    let colls = vec!["c1".to_string()];
    let r = compute_shard_map(&None, &colls, &DeploymentType::Single, &Vec::new());
    match r {
        Err(e) => assert_eq!(e, TopologyError::NoEndpoints),
        Ok(_) => panic!("expected a missing-endpoint error"),
    }
}

#[test]
fn distribution_check_accepts_sound_and_rejects_shared_shards() {
    let good = dist(vec![
        ("c1", vec![("s1", "A"), ("s2", "B")]),
        ("c2", vec![("s3", "A")]),
    ]);
    assert!(phenolrs::shard::check_dist_wf(&good));
    // the same shard name claimed by two unrelated collections is malformed
    let shared = dist(vec![("c1", vec![("s1", "A")]), ("c2", vec![("s1", "B")])]);
    assert!(!phenolrs::shard::check_dist_wf(&shared));
    // a smart-edge companion claiming its edge collection's shard is the
    // expected shape
    let smart = dist(vec![("e", vec![("s4", "A"), ("s5", "B")]), ("_to_e", vec![("s4", "A")])]);
    assert!(phenolrs::shard::check_dist_wf(&smart));
}
