use bdpi_tester::clock::{now_unix_seconds, utc_timestamp_string};

#[test]
fn the_clock_reads_a_post_epoch_time() {
    // the build of this crate postdates 2020-01-01
    assert!(now_unix_seconds() > 1_577_836_800);
}

#[test]
fn the_generation_timestamp_has_the_expected_shape() {
    let ts = utc_timestamp_string();
    assert_eq!(ts.len(), 19);
    for (i, b) in ts.as_bytes().iter().enumerate() {
        match i {
            4 | 7 => assert_eq!(*b, b'-'),
            10 => assert_eq!(*b, b' '),
            13 | 16 => assert_eq!(*b, b':'),
            _ => assert!(b.is_ascii_digit()),
        }
    }
}
