use mezon_store::clan_load::{next_stage, ClanLoadScheduler, LoadStage};

#[test]
fn stages_run_in_order_while_current() {
    let mut s = LoadStage::Channels;
    let mut seen = vec![s];
    while s != LoadStage::Done {
        s = next_stage(s, true);
        seen.push(s);
    }
    assert_eq!(
        seen,
        vec![
            LoadStage::Channels,
            LoadStage::Badges,
            LoadStage::Members,
            LoadStage::Deferred,
            LoadStage::NotificationSettings,
            LoadStage::Done
        ]
    );
}

#[test]
fn superseded_load_stops_after_awaited_stage() {
    assert_eq!(next_stage(LoadStage::Channels, false), LoadStage::Badges);
    assert_eq!(next_stage(LoadStage::Badges, false), LoadStage::Done);
    assert_eq!(next_stage(LoadStage::Members, false), LoadStage::Done);
    assert_eq!(next_stage(LoadStage::Deferred, false), LoadStage::Done);
}

#[test]
fn a_new_start_supersedes_the_previous_load() {
    let mut sched = ClanLoadScheduler::new();
    let first = sched.start();
    assert!(sched.is_current(first));
    let second = sched.start();
    assert!(!sched.is_current(first));
    assert!(sched.is_current(second));
    sched.reset();
    assert!(!sched.is_current(second));
}

#[test]
fn generation_wraps_around() {
    let mut sched = ClanLoadScheduler { generation: u64::MAX };
    assert_eq!(sched.start(), 0);
}
