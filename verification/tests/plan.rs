use mirror_clone::common::{SnapshotConfig, SnapshotPath};
use mirror_clone::error::Error;
use mirror_clone::metadata::{SnapshotMeta, SnapshotMetaFlag};
use mirror_clone::scheduler::{Action, Scheduler};
use mirror_clone::simple_diff_transfer::{
    canonicalize, generate_plan, SimpleDiffTransferConfig, TransferPlan,
};
use mirror_clone::traits::{Diff, Key, Metadata};

fn meta(key: &str) -> SnapshotMeta {
    SnapshotMeta::new(key.to_string())
}

fn sized(key: &str, size: u64) -> SnapshotMeta {
    SnapshotMeta {
        size: Some(size),
        ..meta(key)
    }
}

fn keys(items: &[SnapshotMeta]) -> Vec<&str> {
    items.iter().map(|x| x.key.as_str()).collect()
}

fn config(concurrent_transfer: usize, no_delete: bool, dry_run: bool) -> SimpleDiffTransferConfig {
    SimpleDiffTransferConfig {
        progress: false,
        concurrent_transfer,
        no_delete,
        dry_run,
        force_all: false,
        snapshot_config: SnapshotConfig {
            concurrent_resolve: 64,
        },
        print_plan: 0,
    }
}

#[test]
fn canonical_form_sorts_and_keeps_the_first() {
    let (items, dropped) = canonicalize(vec![
        sized("b", 1),
        sized("a", 2),
        sized("b", 3),
        sized("c", 4),
        sized("a", 5),
    ]);
    assert_eq!(keys(&items), vec!["a", "b", "c"]);
    assert_eq!(
        items.iter().map(|x| x.size).collect::<Vec<_>>(),
        vec![Some(2), Some(1), Some(4)]
    );
    assert_eq!(dropped, 2);
}

#[test]
fn canonical_form_orders_keys_by_their_bytes() {
    let (items, _) = canonicalize(vec![meta("é"), meta("z"), meta("a/b"), meta("a"), meta("Z"), meta("a-")]);
    assert_eq!(keys(&items), vec!["Z", "a", "a-", "a/b", "z", "é"]);
}

#[test]
fn plan_is_the_three_way_difference() {
    let source = vec![sized("same", 1), sized("new", 2), sized("changed", 3), meta("unknown")];
    let target = vec![sized("changed", 4), sized("stale", 5), sized("same", 1), sized("unknown", 9)];
    let report = generate_plan(source, target, false);
    assert_eq!(keys(&report.plan.add), vec!["new"]);
    assert_eq!(keys(&report.plan.update), vec!["changed"]);
    assert_eq!(keys(&report.plan.delete), vec!["stale"]);
    assert_eq!(report.plan.update[0].size, Some(3));
    assert_eq!(report.source_duplicates, 0);
    assert_eq!(report.target_duplicates, 0);
}

#[test]
fn plan_of_two_empty_snapshots_is_empty() {
    let report = generate_plan(Vec::<SnapshotMeta>::new(), Vec::new(), false);
    assert!(report.plan.add.is_empty());
    assert!(report.plan.update.is_empty());
    assert!(report.plan.delete.is_empty());
}

#[test]
fn plan_adds_everything_to_an_empty_target() {
    let report = generate_plan(vec![meta("b/c"), meta("a")], Vec::new(), false);
    assert_eq!(keys(&report.plan.add), vec!["a", "b/c"]);
    assert!(report.plan.update.is_empty());
    assert!(report.plan.delete.is_empty());
}

#[test]
fn plan_for_paths_updates_only_forced_items() {
    let source = vec![
        SnapshotPath::new("a".to_string()),
        SnapshotPath::force("b".to_string()),
        SnapshotPath::new("c".to_string()),
    ];
    let target = vec![
        SnapshotPath::new("a".to_string()),
        SnapshotPath::new("b".to_string()),
        SnapshotPath::force("c".to_string()),
        SnapshotPath::new("d".to_string()),
    ];
    let report = generate_plan(source, target, false);
    assert!(report.plan.add.is_empty());
    let updated: Vec<&str> = report.plan.update.iter().map(|x| x.key()).collect();
    assert_eq!(updated, vec!["b", "c"]);
    let deleted: Vec<&str> = report.plan.delete.iter().map(|x| x.key()).collect();
    assert_eq!(deleted, vec!["d"]);
}

#[test]
fn diff_ignores_fields_known_on_one_side_only() {
    let bare = meta("k");
    let full = SnapshotMeta {
        key: "k".to_string(),
        size: Some(1),
        last_modified: Some(2),
        checksum_method: Some("sha256".to_string()),
        checksum: Some("ab".to_string()),
        flags: SnapshotMetaFlag::default(),
    };
    assert!(!bare.diff(&full));
    assert!(!full.diff(&bare));
    assert!(!full.diff(&full.clone()));
}

#[test]
fn diff_sees_each_field_that_disagrees() {
    let full = SnapshotMeta {
        key: "k".to_string(),
        size: Some(1),
        last_modified: Some(2),
        checksum_method: Some("sha256".to_string()),
        checksum: Some("ab".to_string()),
        flags: SnapshotMetaFlag::default(),
    };
    assert!(full.diff(&SnapshotMeta { size: Some(9), ..full.clone() }));
    assert!(full.diff(&SnapshotMeta { last_modified: Some(9), ..full.clone() }));
    assert!(full.diff(&SnapshotMeta { checksum_method: Some("md5".to_string()), ..full.clone() }));
    assert!(full.diff(&SnapshotMeta { checksum: Some("cd".to_string()), ..full.clone() }));
}

#[test]
fn diff_follows_the_force_flag_of_either_side() {
    let plain = meta("k");
    let forced = SnapshotMeta::force("k".to_string());
    assert!(forced.diff(&plain));
    assert!(plain.diff(&forced));
    assert!(!plain.diff(&plain.clone()));
    assert_eq!(forced.priority(), -1);
    assert_eq!(plain.priority(), 0);
    assert!(forced.flags.force && forced.flags.force_last);
}

fn drain(scheduler: &mut Scheduler<SnapshotMeta>) -> Vec<(String, bool)> {
    let mut order = vec![];
    loop {
        match scheduler.next_action() {
            Action::Start(i) => {
                let job = scheduler.job(i).unwrap();
                order.push((job.item.key.clone(), job.deleting));
                assert!(scheduler.complete(i, true));
            }
            Action::Wait => panic!("nothing is in flight"),
            Action::Finished => return order,
        }
    }
}

#[test]
fn schedule_puts_forced_last_items_last_and_deletions_after_transfers() {
    let plan = TransferPlan {
        add: vec![SnapshotMeta::force("index.json".to_string()), meta("pkg.tar")],
        update: vec![meta("a"), SnapshotMeta::force("b".to_string())],
        delete: vec![SnapshotMeta::force("y".to_string()), meta("z")],
    };
    let mut scheduler = Scheduler::new(plan, &config(8, false, false)).unwrap();
    assert_eq!(scheduler.len(), 6);
    let order = drain(&mut scheduler);
    assert_eq!(
        order,
        vec![
            ("pkg.tar".to_string(), false),
            ("a".to_string(), false),
            ("index.json".to_string(), false),
            ("b".to_string(), false),
            ("z".to_string(), true),
            ("y".to_string(), true),
        ]
    );
}

#[test]
fn schedule_holds_lower_priority_back_until_higher_is_over() {
    let plan = TransferPlan {
        add: vec![meta("a"), meta("b"), SnapshotMeta::force("last".to_string())],
        update: vec![],
        delete: vec![meta("gone")],
    };
    let mut scheduler = Scheduler::new(plan, &config(8, false, false)).unwrap();
    assert_eq!(scheduler.next_action(), Action::Start(0));
    assert_eq!(scheduler.next_action(), Action::Start(1));
    assert_eq!(scheduler.next_action(), Action::Wait);
    assert!(scheduler.complete(1, true));
    assert_eq!(scheduler.next_action(), Action::Wait);
    assert!(!scheduler.complete(1, true));
    assert!(!scheduler.complete(2, true));
    assert!(!scheduler.complete(7, true));
    assert!(scheduler.is_running(0));
    assert!(!scheduler.is_running(1));
    assert!(scheduler.complete(0, true));
    assert_eq!(scheduler.next_action(), Action::Start(2));
    assert_eq!(scheduler.next_action(), Action::Wait);
    assert!(scheduler.complete(2, true));
    assert_eq!(scheduler.next_action(), Action::Start(3));
    assert!(scheduler.job(3).unwrap().deleting);
    assert_eq!(scheduler.next_action(), Action::Wait);
    assert!(scheduler.complete(3, true));
    assert_eq!(scheduler.next_action(), Action::Finished);
    assert!(scheduler.job(4).is_none());
}

#[test]
fn schedule_bounds_the_items_in_flight() {
    let plan = TransferPlan {
        add: vec![meta("a"), meta("b"), meta("c")],
        update: vec![],
        delete: vec![],
    };
    let mut scheduler = Scheduler::new(plan, &config(2, false, false)).unwrap();
    assert_eq!(scheduler.next_action(), Action::Start(0));
    assert_eq!(scheduler.next_action(), Action::Start(1));
    assert_eq!(scheduler.next_action(), Action::Wait);
    assert!(scheduler.complete(0, true));
    assert_eq!(scheduler.next_action(), Action::Start(2));
}

#[test]
fn schedule_skips_deletions_and_dry_runs() {
    let plan = || TransferPlan {
        add: vec![meta("a")],
        update: vec![],
        delete: vec![meta("stale")],
    };
    let mut kept = Scheduler::new(plan(), &config(8, true, false)).unwrap();
    assert_eq!(drain(&mut kept), vec![("a".to_string(), false)]);
    let mut dry = Scheduler::new(plan(), &config(8, false, true)).unwrap();
    assert_eq!(dry.len(), 0);
    assert_eq!(dry.next_action(), Action::Finished);
}

#[test]
fn schedule_refuses_a_bound_of_zero() {
    let plan = TransferPlan {
        add: vec![meta("a")],
        update: vec![],
        delete: vec![],
    };
    assert!(matches!(
        Scheduler::new(plan, &config(0, false, false)),
        Err(Error::ConfigureError(_))
    ));
}
