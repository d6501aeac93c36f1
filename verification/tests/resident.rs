use rozum::resident::{
    plan_residency, ModelUsage, ResidentInfo, ResidentPlan, ResidentRequest, UsageStats,
};

const GB: u64 = 1024 * 1024 * 1024;

fn resident(model: &str, gb: u64, busy: bool) -> ResidentInfo {
    ResidentInfo { model: model.to_string(), weight_bytes: gb * GB, busy }
}

fn plan(requested: &str, gb: u64, residents: Vec<ResidentInfo>, budget_gb: u64, utility: Vec<u64>) -> ResidentPlan {
    let req = ResidentRequest {
        requested,
        requested_weight: gb * GB,
        residents: &residents,
        budget_bytes: budget_gb * GB,
    };
    plan_residency(&req, &utility)
}

#[test]
fn small_models_co_reside_without_thrash() {
    let p = plan("B", 2, vec![resident("A", 2, false)], 8, vec![1]);
    assert!(p.load);
    assert!(p.evict.is_empty(), "B co-resides with A");
    assert!(!p.oversubscribed);
}

#[test]
fn evicts_the_least_useful_to_make_room() {
    let p = plan("B", 3, vec![resident("A", 3, false), resident("C", 3, false)], 7, vec![1, 10]);
    assert!(p.load);
    assert_eq!(p.evict, vec!["A".to_string()], "the less useful idle model is evicted");
    assert!(!p.oversubscribed);
}

#[test]
fn big_model_thrashes_unavoidably() {
    let p = plan("BIG", 20, vec![resident("A", 2, false), resident("C", 2, false)], 16, vec![1, 1]);
    assert!(p.load);
    assert!(p.oversubscribed, "a too-big model can't co-reside");
    assert_eq!(p.evict.len(), 2, "all idle residents freed");
}

#[test]
fn busy_residents_are_never_evicted() {
    let p = plan("B", 4, vec![resident("A", 4, true)], 7, vec![1]);
    assert!(p.load);
    assert!(p.evict.is_empty(), "a busy resident is never evicted");
    assert!(p.oversubscribed);
}

#[test]
fn already_resident_just_serves() {
    let p = plan("A", 2, vec![resident("A", 2, false)], 8, vec![1]);
    assert!(!p.load, "already resident");
    assert!(p.evict.is_empty());
    assert!(!p.oversubscribed);
}

#[test]
fn the_least_useful_go_first() {
    let r = vec![resident("A", 3, false), resident("B", 3, false), resident("C", 3, false)];
    let p = plan("X", 9, r, 9, vec![5, 1, 3]);
    assert_eq!(p.evict, vec!["B".to_string(), "C".to_string(), "A".to_string()]);
}

#[test]
fn usage_is_counted_and_replayed() {
    let mut s = UsageStats::in_memory();
    let log = vec![s.record("a", 2 * GB, 1000), s.record("a", 2 * GB, 1100), s.record("b", GB, 1050)];
    assert_eq!(s.usage("a").count, 2);
    assert_eq!(s.usage("a").last_used, 1100);
    assert_eq!(s.weight("a"), Some(2 * GB));
    assert_eq!(s.weight("missing"), None);
    let mut again = UsageStats::in_memory();
    again.replay(&log);
    assert_eq!(again.usage("a").count, 2);
    assert_eq!(again.usage("b").last_used, 1050);
    let none: ModelUsage = again.usage("missing");
    assert_eq!(none.count, 0);
}
