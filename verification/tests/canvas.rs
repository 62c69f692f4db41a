use danmu2ass::{choose_lane, lane_count, Choice, Vacancy};

use Vacancy::{Empty, Free};

fn wait(key: u64) -> Vacancy {
    Vacancy::Wait { key }
}

/// The key of a wait in seconds: it orders waits as their lengths do.
fn key(seconds: f64) -> u64 {
    let bits = seconds.to_bits();
    if bits >> 63 == 0 {
        bits | (1 << 63)
    } else {
        !bits
    }
}

#[test]
fn pool_has_the_share_of_the_height_in_lanes() {
    assert_eq!(lane_count(1, 2, 720, 32), 11);
    assert_eq!(lane_count(500, 1000, 720, 32), 11);
    assert_eq!(lane_count(1, 1, 1080, 32), 33);
    assert_eq!(lane_count(333, 1000, 100, 7), 4);
    assert_eq!(lane_count(0, 1, 720, 32), 0);
    assert_eq!(lane_count(1, 1, 31, 32), 0);
    assert_eq!(lane_count(1, 1, 32, 32), 1);
    assert_eq!(lane_count(999, 1000, 32, 32), 0);
    assert_eq!(lane_count(3, 10, 10, 3), 1);
    assert_eq!(lane_count(1, 16, 720, 45), 1);
    assert_eq!(lane_count(62_500, 1_000_000, 720, 45), 1);
    assert_eq!(lane_count(62_499, 1_000_000, 720, 45), 0);
    assert_eq!(lane_count(1, 3, 96, 32), 1);
    assert_eq!(lane_count(1, 3, 95, 32), 0);
    assert_eq!(lane_count(1, 1, 0, 1), 0);
    assert_eq!(lane_count(1, 1, u32::MAX, 1), u32::MAX as u64);
    assert_eq!(lane_count(1, 1, u32::MAX, u32::MAX), 1);
    assert_eq!(lane_count(u32::MAX, u32::MAX, u32::MAX, u32::MAX), 1);
    assert_eq!(lane_count(u32::MAX - 1, u32::MAX, u32::MAX, u32::MAX), 0);
    // a share above the whole is taken as it is
    assert_eq!(lane_count(2, 1, 720, 32), 45);
    assert_eq!(
        lane_count(u32::MAX, 1, u32::MAX, 1),
        18_446_744_065_119_617_025
    );
}

#[test]
fn empty_lanes_are_filled_in_order() {
    // three comments of one time: each lane that was filled asks the next
    // comment to wait, whatever the wait
    assert_eq!(choose_lane(&vec![Empty, Empty, Empty]), Choice::AtOnce(0));
    assert_eq!(
        choose_lane(&vec![wait(key(0.7246)), Empty, Empty]),
        Choice::AtOnce(1)
    );
    assert_eq!(
        choose_lane(&vec![wait(key(0.7246)), wait(key(0.0001)), Empty]),
        Choice::AtOnce(2)
    );
}

#[test]
fn first_lane_that_takes_the_comment_is_chosen() {
    assert_eq!(choose_lane(&vec![Free]), Choice::AtOnce(0));
    assert_eq!(choose_lane(&vec![Free, Empty]), Choice::AtOnce(0));
    assert_eq!(choose_lane(&vec![wait(5), Free, Empty, Free]), Choice::AtOnce(1));
    assert_eq!(choose_lane(&vec![wait(5), wait(1), Empty, Free]), Choice::AtOnce(2));
    assert_eq!(choose_lane(&vec![wait(0), wait(0), wait(0), Free]), Choice::AtOnce(3));
}

#[test]
fn least_wait_is_chosen_where_no_lane_is_free() {
    assert_eq!(choose_lane(&vec![wait(7)]), Choice::AfterWait(0));
    assert_eq!(choose_lane(&vec![wait(7), wait(3), wait(5)]), Choice::AfterWait(1));
    assert_eq!(choose_lane(&vec![wait(7), wait(8), wait(2)]), Choice::AfterWait(2));
    assert_eq!(choose_lane(&vec![wait(1), wait(8), wait(2)]), Choice::AfterWait(0));
    assert_eq!(
        choose_lane(&vec![wait(u64::MAX), wait(u64::MAX - 1)]),
        Choice::AfterWait(1)
    );
}

#[test]
fn equal_waits_go_to_the_first_lane() {
    assert_eq!(choose_lane(&vec![wait(3), wait(3)]), Choice::AfterWait(0));
    assert_eq!(choose_lane(&vec![wait(9), wait(3), wait(3), wait(3)]), Choice::AfterWait(1));
    assert_eq!(choose_lane(&vec![wait(0), wait(0)]), Choice::AfterWait(0));
    assert_eq!(
        choose_lane(&vec![wait(u64::MAX), wait(u64::MAX)]),
        Choice::AfterWait(0)
    );
}

#[test]
fn no_lanes_take_no_comment() {
    assert_eq!(choose_lane(&vec![]), Choice::NoLane);
}

#[test]
fn waits_in_seconds_are_ordered_by_their_keys() {
    // lanes whose last comments have lengths 100 and 50 on a screen of
    // width 1280 that a comment crosses in 10 s
    let first = 100.0 / 138.0;
    let second = 50.0 / 133.0;
    assert!(key(second) < key(first));
    assert_eq!(
        choose_lane(&vec![wait(key(first)), wait(key(second))]),
        Choice::AfterWait(1)
    );
    // waits that differ by less than a millisecond
    let a = 0.30364;
    let b = 0.30303;
    assert_eq!(
        choose_lane(&vec![wait(key(a)), wait(key(b))]),
        Choice::AfterWait(1)
    );
    assert_eq!(
        choose_lane(&vec![wait(key(first)), wait(key(first))]),
        Choice::AfterWait(0)
    );
    let order = [
        f64::NEG_INFINITY,
        -1.0,
        -0.0,
        0.0,
        f64::MIN_POSITIVE,
        0.999,
        1.0,
        6.0976,
        f64::INFINITY,
    ];
    for pair in order.windows(2) {
        assert!(key(pair[0]) < key(pair[1]), "{:?}", pair);
    }
}

#[test]
fn same_lanes_give_the_same_choice() {
    let lanes = vec![wait(4), wait(2), wait(9), wait(2)];
    assert_eq!(choose_lane(&lanes), choose_lane(&lanes.clone()));
    assert_eq!(lane_count(1, 2, 720, 32), lane_count(1, 2, 720, 32));
}
