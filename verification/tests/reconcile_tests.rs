use fontsync::inventory::Inventory;
use fontsync::reconcile::{
    decide_conflict, fresh_rename_name, reconcile, ConflictResolution, PlanEntry, SyncAction,
    SyncPolicy,
};

const H1: &str = "1111111111111111111111111111111111111111111111111111111111111111";
const H2: &str = "2222222222222222222222222222222222222222222222222222222222222222";

fn inv(entries: &[(&str, &str)]) -> Inventory {
    let mut i = Inventory::new();
    for (name, hash) in entries {
        i.insert(name.to_string(), hash.to_string());
    }
    i
}

fn transfers(plan: &[PlanEntry]) -> Vec<&PlanEntry> {
    plan.iter().filter(|e| e.action != SyncAction::Skip).collect()
}

#[test]
fn conflict_determinism_non_interactive_always_skips() {
    // Hashes differ; without an answer the conflict is always skipped.
    for _ in 0..3 {
        assert_eq!(decide_conflict(H1, H2, None), ConflictResolution::Skip);
    }
}

#[test]
fn conflict_determinism_scripted_overwrite_always_overwrites() {
    for _ in 0..3 {
        assert_eq!(
            decide_conflict(H1, H2, Some(ConflictResolution::Overwrite)),
            ConflictResolution::Overwrite
        );
    }
}

#[test]
fn conflict_equal_hashes_skip_regardless_of_answer() {
    assert_eq!(
        decide_conflict(H1, H1, Some(ConflictResolution::Overwrite)),
        ConflictResolution::Skip
    );
    assert_eq!(decide_conflict(H1, H1, None), ConflictResolution::Skip);
}

#[test]
fn scenario_download_only_missing_font() {
    // local {Arial.ttf: H1}, remote {Arial.ttf: H1, Comic.ttf: H2}:
    // the only transfer is a download of Comic.ttf.
    let local = inv(&[("Arial.ttf", H1)]);
    let remote = inv(&[("Arial.ttf", H1), ("Comic.ttf", H2)]);
    let plan = reconcile(&local, &remote, &SyncPolicy::non_interactive());
    assert_eq!(plan.len(), 2);
    assert_eq!(plan[0].name, "Arial.ttf");
    assert_eq!(plan[0].action, SyncAction::Skip);
    assert_eq!(plan[0].conflict, None);
    let t = transfers(&plan);
    assert_eq!(t.len(), 1);
    assert_eq!(t[0].name, "Comic.ttf");
    assert_eq!(t[0].action, SyncAction::Download);
    assert_eq!(t[0].conflict, None);
}

#[test]
fn scenario_rename_conflict_uploads_under_fresh_name() {
    // local {X.ttf: H1}, remote {X.ttf: H2}, answer = rename: the plan
    // uploads the local copy under "X (1).ttf", a name neither side uses.
    let local = inv(&[("X.ttf", H1)]);
    let remote = inv(&[("X.ttf", H2)]);
    let policy =
        SyncPolicy::interactive(vec![("X.ttf".to_string(), ConflictResolution::Rename)]);
    let plan = reconcile(&local, &remote, &policy);
    assert_eq!(plan.len(), 1);
    assert_eq!(plan[0].name, "X.ttf");
    assert_eq!(plan[0].action, SyncAction::Upload);
    assert_eq!(plan[0].conflict, Some(ConflictResolution::Rename));
    assert_eq!(plan[0].rename_to, Some("X (1).ttf".to_string()));
    assert!(!local.contains("X (1).ttf"));
    assert!(!remote.contains("X (1).ttf"));
}

#[test]
fn rename_skips_taken_candidates() {
    let local = inv(&[("X.ttf", H1), ("X (1).ttf", H1)]);
    let remote = inv(&[("X.ttf", H2), ("X (2).ttf", H2)]);
    let fresh = fresh_rename_name("X.ttf", &local, &remote).unwrap();
    assert_eq!(fresh, "X (3).ttf");
}

#[test]
fn scripted_overwrite_plans_a_download() {
    let local = inv(&[("X.ttf", H1)]);
    let remote = inv(&[("X.ttf", H2)]);
    let policy =
        SyncPolicy::interactive(vec![("X.ttf".to_string(), ConflictResolution::Overwrite)]);
    let plan = reconcile(&local, &remote, &policy);
    assert_eq!(plan.len(), 1);
    assert_eq!(plan[0].action, SyncAction::Download);
    assert_eq!(plan[0].conflict, Some(ConflictResolution::Overwrite));
}

#[test]
fn unresolved_interactive_conflict_is_skipped() {
    // Interactive policy, but no answer recorded for the conflicting name:
    // the conflict defaults to Skip, never to Overwrite.
    let local = inv(&[("X.ttf", H1)]);
    let remote = inv(&[("X.ttf", H2)]);
    let policy = SyncPolicy::interactive(vec![]);
    let plan = reconcile(&local, &remote, &policy);
    assert_eq!(plan.len(), 1);
    assert_eq!(plan[0].action, SyncAction::Skip);
    assert_eq!(plan[0].conflict, Some(ConflictResolution::Skip));
}

#[test]
fn skip_only_plan_is_stable_when_converged() {
    // A pair whose plan was Skip-only transfers nothing, so reconciling the
    // unchanged pair again yields a Skip-only plan again.
    let local = inv(&[("a.ttf", H1), ("b.ttf", H2)]);
    let remote = inv(&[("a.ttf", H1), ("b.ttf", H2)]);
    let policy = SyncPolicy::non_interactive();
    let first = reconcile(&local, &remote, &policy);
    assert!(first.iter().all(|e| e.action == SyncAction::Skip));
    let second = reconcile(&local, &remote, &policy);
    assert!(second.iter().all(|e| e.action == SyncAction::Skip));
    assert_eq!(first.len(), second.len());
}

#[test]
fn skip_only_holds_for_conflicting_but_shared_names_non_interactive() {
    // Same names, different hashes, non-interactive: every row is Skip
    // (the conflict is logged, never silently overwritten), and that
    // outcome is stable across runs.
    let local = inv(&[("c.ttf", H1)]);
    let remote = inv(&[("c.ttf", H2)]);
    let policy = SyncPolicy::non_interactive();
    let first = reconcile(&local, &remote, &policy);
    assert!(first.iter().all(|e| e.action == SyncAction::Skip));
    let second = reconcile(&local, &remote, &policy);
    assert!(second.iter().all(|e| e.action == SyncAction::Skip));
}

#[test]
fn converged_pair_is_skip_only_under_any_policy() {
    // Once converged, even a policy scripted to overwrite or rename plans
    // no transfer: there is no conflict left to answer.
    let local = inv(&[("a.ttf", H1), ("b.ttf", H2)]);
    let remote = inv(&[("a.ttf", H1), ("b.ttf", H2)]);
    let policy = SyncPolicy::interactive(vec![
        ("a.ttf".to_string(), ConflictResolution::Overwrite),
        ("b.ttf".to_string(), ConflictResolution::Rename),
    ]);
    let plan = reconcile(&local, &remote, &policy);
    assert_eq!(plan.len(), 2);
    assert!(plan.iter().all(|e| e.action == SyncAction::Skip));
}

#[test]
fn upload_and_download_for_disjoint_names() {
    let local = inv(&[("only-local.ttf", H1)]);
    let remote = inv(&[("only-remote.ttf", H2)]);
    let plan = reconcile(&local, &remote, &SyncPolicy::non_interactive());
    assert_eq!(plan.len(), 2);
    assert_eq!(plan[0].name, "only-local.ttf");
    assert_eq!(plan[0].action, SyncAction::Upload);
    assert_eq!(plan[1].name, "only-remote.ttf");
    assert_eq!(plan[1].action, SyncAction::Download);
}

#[test]
fn inventory_lookup_and_replace() {
    let mut i = Inventory::new();
    i.insert("a.ttf".to_string(), H1.to_string());
    assert_eq!(i.get("a.ttf").map(|h| h.as_str()), Some(H1));
    i.insert("a.ttf".to_string(), H2.to_string());
    assert_eq!(i.len(), 1);
    assert_eq!(i.get("a.ttf").map(|h| h.as_str()), Some(H2));
    assert!(!i.contains("b.ttf"));
}
