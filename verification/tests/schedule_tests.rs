use bdpi_tester::schedule::{group_len, num_groups, GroupRun};

#[test]
fn group_count_is_ceiling() {
    assert_eq!(num_groups(0, 3), 0);
    assert_eq!(num_groups(1, 10), 1);
    assert_eq!(num_groups(4, 2), 2);
    assert_eq!(num_groups(5, 2), 3);
    assert_eq!(num_groups(6, 2), 3);
    assert_eq!(num_groups(7, 7), 1);
    assert_eq!(num_groups(8, 7), 2);
}

#[test]
fn group_lengths_partition_the_list() {
    assert_eq!(group_len(5, 2, 0), 2);
    assert_eq!(group_len(5, 2, 1), 2);
    assert_eq!(group_len(5, 2, 2), 1);
    assert_eq!(group_len(4, 2, 0), 2);
    assert_eq!(group_len(4, 2, 1), 2);
    assert_eq!(group_len(3, 7, 0), 3);
}

#[test]
fn ports_are_contiguous_within_a_group() {
    let mut run = GroupRun::new(5, 2, 1080);
    assert_eq!(run.start_runner(0), 1080);
    assert_eq!(run.start_runner(1), 1081);
}

#[test]
fn ports_are_reused_across_groups_after_the_barrier() {
    let mut run = GroupRun::new(4, 2, 1080);
    let p0 = run.start_runner(0);
    let p1 = run.start_runner(1);
    assert_eq!((p0, p1), (1080, 1081));
    assert!(!run.group_finished());
    run.begin_probing(0);
    run.finish_runner(0);
    assert!(!run.group_finished());
    run.begin_probing(1);
    run.finish_runner(1);
    assert!(run.group_finished());
    run.advance_group();
    // the previous group is fully torn down, so its ports come back
    assert_eq!(run.start_runner(2), 1080);
    assert_eq!(run.start_runner(3), 1081);
}

#[test]
fn a_failed_setup_still_counts_toward_the_barrier() {
    let mut run = GroupRun::new(2, 2, 2000);
    run.start_runner(0);
    run.fail_setup(1);
    assert!(!run.group_finished());
    run.finish_runner(0);
    assert!(run.group_finished());
}

#[test]
fn last_group_may_be_smaller() {
    let mut run = GroupRun::new(3, 2, 1500);
    run.start_runner(0);
    run.start_runner(1);
    run.finish_runner(0);
    run.finish_runner(1);
    assert!(run.group_finished());
    run.advance_group();
    assert_eq!(run.start_runner(2), 1500);
    run.finish_runner(2);
    assert!(run.group_finished());
}
