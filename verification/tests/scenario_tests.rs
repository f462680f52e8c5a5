use bdpi_tester::aggregate::Aggregator;
use bdpi_tester::outcome::{make_test_result, GroupStats};
use bdpi_tester::report::read_totals;
use bdpi_tester::schedule::GroupRun;

#[test]
fn a_failed_spawn_leaves_the_rest_of_the_group_intact() {
    // three configurations in one group; the spawn for the third fails
    let mut run = GroupRun::new(3, 3, 1080);
    let mut agg = Aggregator::new();
    let mut stats = GroupStats::new();

    let port_a = run.start_runner(0);
    let port_b = run.start_runner(1);
    run.fail_setup(2);

    run.begin_probing(0);
    let outcomes_a = vec![("x.example".to_string(), true), ("y.example".to_string(), true)];
    let result_a = make_test_result("cfg-a", port_a, &outcomes_a);
    run.finish_runner(0);
    stats.add_result(&result_a);
    agg.append(result_a);

    run.begin_probing(1);
    let outcomes_b = vec![("x.example".to_string(), true), ("y.example".to_string(), false)];
    let result_b = make_test_result("cfg-b", port_b, &outcomes_b);
    run.finish_runner(1);
    stats.add_result(&result_b);
    agg.append(result_b);

    // the failed configuration produced no result; the group still drains
    assert!(run.group_finished());
    assert_eq!(agg.len(), 2);
    assert_eq!(stats.successful, 3);
    assert_eq!(stats.total, 4);
    assert_eq!(agg.totals(), (3, 1));
}

#[test]
fn a_full_run_checkpoints_and_reads_back() {
    // two groups of two configurations, snapshot after each group
    let mut run = GroupRun::new(4, 2, 1080);
    let mut agg = Aggregator::new();

    for group in 0..2usize {
        for i in (group * 2)..(group * 2 + 2) {
            let port = run.start_runner(i);
            run.begin_probing(i);
            let outcomes = vec![
                ("a.example".to_string(), i % 2 == 0),
                ("b.example".to_string(), true),
            ];
            let result = make_test_result(&format!("cfg-{}", i), port, &outcomes);
            run.finish_runner(i);
            agg.append(result);
        }
        assert!(run.group_finished());
        let text = agg.snapshot("2024-01-01 00:00:00");
        let totals = agg.totals();
        assert_eq!(read_totals(&text), Some(totals));
        if group == 0 {
            run.advance_group();
        }
    }
    assert_eq!(agg.len(), 4);
    assert_eq!(agg.totals(), (6, 2));
}
