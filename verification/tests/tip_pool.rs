use bee_tangle::cleaner::{CleanerAction, CleanerEvent, CleanerState, TipPoolCleaner};
use bee_tangle::message::MessageId;
use bee_tangle::tip_pool::{StalenessPolicy, TipPool};

fn tip_id(n: u8) -> MessageId {
    MessageId::new([n; 32])
}

#[test]
fn a_referenced_message_is_not_taken_as_a_tip() {
    let mut pool = TipPool::new();
    assert!(pool.insert_tip(tip_id(1), 10));
    assert!(!pool.insert_tip(tip_id(1), 20));
    assert_eq!(pool.tip_since(&tip_id(1)), Some(10));
    assert!(pool.is_tip(&tip_id(1)));
    assert!(!pool.is_referenced(&tip_id(1)));

    assert!(pool.remove_tip_if_unreferenced(&tip_id(1)));
    assert!(!pool.remove_tip_if_unreferenced(&tip_id(1)));
    assert!(!pool.remove_tip_if_unreferenced(&tip_id(2)));
    assert!(pool.is_referenced(&tip_id(1)));
    assert!(pool.is_referenced(&tip_id(2)));
    assert!(!pool.is_tip(&tip_id(1)));
    assert_eq!(pool.tip_since(&tip_id(1)), None);

    assert!(!pool.insert_tip(tip_id(1), 30));
    assert!(!pool.insert_tip(tip_id(2), 30));
    assert!(pool.insert_tip(tip_id(3), 30));
    assert_eq!(pool.tips(), vec![tip_id(3)]);
    assert_eq!(pool.len(), 1);
}

#[test]
fn tips_keep_the_order_in_which_they_became_tips() {
    let mut pool = TipPool::new();
    for n in [4u8, 2, 9, 1] {
        pool.insert_tip(tip_id(n), n as u64);
    }
    assert_eq!(pool.tips(), vec![tip_id(4), tip_id(2), tip_id(9), tip_id(1)]);
    pool.remove_tip_if_unreferenced(&tip_id(2));
    assert_eq!(pool.tips(), vec![tip_id(4), tip_id(9), tip_id(1)]);
    // Asked again, the pool gives its present state.
    pool.insert_tip(tip_id(5), 5);
    assert_eq!(pool.tips(), vec![tip_id(4), tip_id(9), tip_id(1), tip_id(5)]);
}

#[test]
fn tips_older_than_the_limit_are_stale() {
    let mut pool = TipPool::new();
    pool.insert_tip(tip_id(1), 100);
    pool.insert_tip(tip_id(2), 400);
    pool.insert_tip(tip_id(3), 150);
    pool.insert_tip(tip_id(4), 900);

    // Ages at 500: 400, 100, 350, and zero for the tip of a later time.
    assert_eq!(pool.remove_stale(500, StalenessPolicy::MaxAge(400)), vec![]);
    assert_eq!(
        pool.remove_stale(500, StalenessPolicy::MaxAge(349)),
        vec![tip_id(1), tip_id(3)]
    );
    assert_eq!(pool.tips(), vec![tip_id(2), tip_id(4)]);
    assert_eq!(pool.remove_stale(u64::MAX, StalenessPolicy::MaxAge(0)), vec![tip_id(2), tip_id(4)]);
    assert_eq!(pool.len(), 0);
    // A removed tip is not referred to, and may become a tip again.
    assert!(!pool.is_referenced(&tip_id(1)));
    assert!(pool.insert_tip(tip_id(1), 600));
}

#[test]
fn tips_beyond_the_count_are_stale() {
    let mut pool = TipPool::new();
    for n in 1..=5u8 {
        pool.insert_tip(tip_id(n), 0);
    }
    assert_eq!(pool.remove_stale(0, StalenessPolicy::MaxCount(5)), vec![]);
    assert_eq!(pool.remove_stale(0, StalenessPolicy::MaxCount(3)), vec![tip_id(1), tip_id(2)]);
    assert_eq!(pool.tips(), vec![tip_id(3), tip_id(4), tip_id(5)]);
    assert_eq!(
        pool.remove_stale(0, StalenessPolicy::MaxCount(0)),
        vec![tip_id(3), tip_id(4), tip_id(5)]
    );
    assert_eq!(pool.tips(), Vec::<MessageId>::new());
}

#[test]
fn the_pool_selects_by_the_numbers_it_is_given() {
    let mut pool = TipPool::new();
    assert_eq!(pool.select_tips_from(3, &vec![1, 2, 3]), vec![]);
    assert_eq!(pool.select_tips(3), vec![]);
    for n in 1..=3u8 {
        pool.insert_tip(tip_id(n), 0);
    }
    assert_eq!(pool.select_tips_from(1, &vec![2]), vec![tip_id(3)]);
    assert_eq!(pool.select_tips_from(2, &vec![0, 0]), vec![tip_id(1), tip_id(3)]);
    assert_eq!(
        pool.select_tips_from(3, &vec![u64::MAX, u64::MAX, u64::MAX]),
        // u64::MAX % 3 = 0, u64::MAX % 2 = 1, then one is left.
        vec![tip_id(1), tip_id(2), tip_id(3)]
    );
    let chosen = pool.select_tips(2);
    assert_eq!(chosen.len(), 2);
    assert_ne!(chosen[0], chosen[1]);
}

#[test]
fn the_cleaner_scans_at_a_tick_and_waits_after_a_pass() {
    let mut cleaner = TipPoolCleaner::new(60);
    assert_eq!(cleaner.state, CleanerState::Idle);
    assert_eq!(cleaner.on_event(CleanerEvent::PassEnded), CleanerAction::Ignore);
    assert_eq!(cleaner.on_event(CleanerEvent::Tick(100)), CleanerAction::Scan(100));
    assert_eq!(cleaner.state, CleanerState::Scanning);
    assert_eq!(cleaner.on_event(CleanerEvent::Tick(101)), CleanerAction::Ignore);
    assert_eq!(cleaner.state, CleanerState::Scanning);
    assert_eq!(cleaner.on_event(CleanerEvent::PassEnded), CleanerAction::Wait(60));
    assert_eq!(cleaner.state, CleanerState::Idle);
    assert!(!cleaner.is_stopped());
}

#[test]
fn the_cleaner_stops_for_good_when_it_is_cancelled() {
    let mut cleaner = TipPoolCleaner::new(60);
    cleaner.on_event(CleanerEvent::Tick(1));
    assert_eq!(cleaner.on_event(CleanerEvent::Cancelled), CleanerAction::Stop);
    assert!(cleaner.is_stopped());
    assert_eq!(cleaner.on_event(CleanerEvent::Tick(2)), CleanerAction::Ignore);
    assert_eq!(cleaner.on_event(CleanerEvent::PassEnded), CleanerAction::Ignore);
    assert_eq!(cleaner.on_event(CleanerEvent::Cancelled), CleanerAction::Ignore);
    assert_eq!(cleaner.state, CleanerState::Stopped);
    assert_eq!(cleaner.interval, 60);

    let mut idle = TipPoolCleaner::new(5);
    assert_eq!(idle.on_event(CleanerEvent::Cancelled), CleanerAction::Stop);
    assert!(idle.is_stopped());
}
