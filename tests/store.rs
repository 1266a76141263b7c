use std::collections::BTreeMap;

use procdockerstats::collector::{
    docker_cycle_ops, update_dockerstats_ops, Synchronizer, DOCKER_PREFIX, PROCESS_PREFIX,
};
use procdockerstats::fips::{fips_status, update_fipsstats_ops};
use procdockerstats::record::Record;
use procdockerstats::sync::{ids_under_prefix, plan_diff_replace, plan_full_replace, StoreOp};

type Store = BTreeMap<String, BTreeMap<String, String>>;

fn apply(st: &mut Store, ops: &[StoreOp]) {
    for op in ops {
        match op {
            StoreOp::DeletePrefix(p) => st.retain(|k, _| !k.starts_with(p.as_str())),
            StoreOp::Delete(k) => {
                st.remove(k);
            }
            StoreOp::SetFields(k, fs) => {
                let h = st.entry(k.clone()).or_default();
                for (f, v) in fs {
                    h.insert(f.clone(), v.clone());
                }
            }
        }
    }
}

fn rec(id: &str) -> Record {
    Record { id: id.to_string(), fields: vec![("PID".to_string(), id.to_string())] }
}

fn ids(st: &Store, prefix: &str) -> Vec<String> {
    st.keys()
        .filter_map(|k| k.strip_prefix(prefix))
        .filter(|k| *k != "LastUpdateTime")
        .map(|k| k.to_string())
        .collect()
}

#[test]
fn full_replace_keeps_exactly_the_new_generation() {
    let mut st = Store::new();
    apply(&mut st, &plan_full_replace("NS|", &vec![rec("1"), rec("2"), rec("3")]));
    apply(&mut st, &plan_full_replace("NS|", &vec![rec("3"), rec("4")]));
    assert_eq!(ids(&st, "NS|"), vec!["3", "4"]);
    apply(&mut st, &plan_full_replace("NS|", &vec![]));
    assert!(ids(&st, "NS|").is_empty());
}

#[test]
fn diff_replace_keeps_exactly_the_new_generation() {
    let mut st = Store::new();
    apply(&mut st, &plan_diff_replace("NS|", &vec![], &vec![rec("1"), rec("2")]));
    let prev = vec!["1".to_string(), "2".to_string()];
    let ops = plan_diff_replace("NS|", &prev, &vec![rec("2"), rec("5")]);
    assert_eq!(ops.iter().filter(|o| matches!(o, StoreOp::Delete(_))).count(), 1);
    apply(&mut st, &ops);
    assert_eq!(ids(&st, "NS|"), vec!["2", "5"]);
}

#[test]
fn synchronizer_tracks_generations() {
    let mut st = Store::new();
    st.insert("PROCESS_STATS|77".to_string(), BTreeMap::new());
    st.insert("OTHER|1".to_string(), BTreeMap::new());
    let keys: Vec<String> = st.keys().cloned().collect();
    let seed = ids_under_prefix(PROCESS_PREFIX, &keys);
    assert_eq!(seed, vec!["77".to_string()]);
    let mut sync = Synchronizer::new(PROCESS_PREFIX, seed);
    apply(&mut st, &sync.cycle(&vec![rec("1"), rec("2")], "t1"));
    assert_eq!(ids(&st, PROCESS_PREFIX), vec!["1", "2"]);
    apply(&mut st, &sync.cycle(&vec![rec("2"), rec("3")], "t2"));
    assert_eq!(ids(&st, PROCESS_PREFIX), vec!["2", "3"]);
    assert_eq!(st["PROCESS_STATS|LastUpdateTime"]["lastupdate"], "t2");
    assert!(st.contains_key("OTHER|1"));
    let keys: Vec<String> = st.keys().cloned().collect();
    assert_eq!(ids_under_prefix(PROCESS_PREFIX, &keys), vec!["2".to_string(), "3".to_string()]);
}

#[test]
fn empty_docker_output_writes_nothing() {
    assert!(update_dockerstats_ops("", "now").is_empty());
    let mut st = Store::new();
    apply(&mut st, &docker_cycle_ops(&vec![rec("old")], "t0"));
    let before = st.clone();
    apply(&mut st, &update_dockerstats_ops("", "t1"));
    assert_eq!(st, before);
}

#[test]
fn docker_cycle_replaces_and_stamps() {
    let mut st = Store::new();
    apply(&mut st, &docker_cycle_ops(&vec![rec("gone")], "t0"));
    let out = "CONTAINER ID   NAME   CPU %\nabc   web   3%\n";
    let ops = update_dockerstats_ops(out, "t1");
    apply(&mut st, &ops);
    assert_eq!(ids(&st, DOCKER_PREFIX), vec!["abc"]);
    assert_eq!(st["DOCKER_STATS|abc"]["CPU%"], "3");
    assert_eq!(st["DOCKER_STATS|LastUpdateTime"]["lastupdate"], "t1");
}

#[test]
fn fips_enforced_without_engine_listing() {
    let cmdline = "BOOT_IMAGE=/image/boot/vmlinuz root=UUID=1 sonic_fips=1 quiet";
    let ops = update_fipsstats_ops(cmdline, None, "2024-01-05T00:00:00.000000Z", "now");
    let mut st = Store::new();
    apply(&mut st, &ops);
    let rec = &st["FIPS_STATS|state"];
    assert_eq!(rec["enforced"], "true");
    assert_eq!(rec["enabled"], "false");
    assert_eq!(rec["timestamp"], "2024-01-05T00:00:00.000000Z");
    assert_eq!(st["FIPS_STATS|LastUpdateTime"]["lastupdate"], "now");
}

#[test]
fn fips_flags() {
    assert_eq!(fips_status("quiet fips=1", None), (true, false));
    assert_eq!(fips_status("quiet", Some("(dynamic) Dynamic engine loading support")), (false, false));
    assert_eq!(fips_status("", Some("(symcrypt) SCOSSL (SymCrypt engine for OpenSSL)")), (false, true));
    assert_eq!(fips_status("", Some("SYMCRYPT")), (false, true));
    assert_eq!(fips_status("sonic_fips=0", Some("")), (false, false));
}
