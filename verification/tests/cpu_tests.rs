use system_info::cpu::total_of_counters;
use system_info::{create_cpu_vector, CPUUsage, Error, Percent};

fn value(p: Percent) -> f64 {
    p.numer as f64 / p.denom as f64
}

#[test]
fn counters_follow_the_label_and_the_empty_field() {
    let text = "cpu  10 20 30 40 50 60 70 80 90 100\ncpu0 1 2 3 4 5 6 7 8 9 10\n";
    assert_eq!(create_cpu_vector(text), Ok(vec![10, 20, 30, 40, 50, 60, 70, 80, 90, 100]));
    assert_eq!(create_cpu_vector("cpu  1 2 3 4\r\n"), Ok(vec![1, 2, 3, 4]));
    assert_eq!(create_cpu_vector("cpu  7"), Ok(vec![7]));
    assert_eq!(create_cpu_vector("cpu "), Ok(vec![]));
}

#[test]
fn a_text_without_lines_has_no_counters() {
    assert_eq!(create_cpu_vector(""), Ok(vec![]));
}

#[test]
fn counters_that_are_no_numbers_are_malformed() {
    assert_eq!(create_cpu_vector("cpu"), Err(Error::MalformedContent));
    assert_eq!(create_cpu_vector("cpu  1 x 3"), Err(Error::MalformedContent));
    assert_eq!(create_cpu_vector("cpu  1  3"), Err(Error::MalformedContent));
    assert_eq!(create_cpu_vector("cpu  1 2 "), Err(Error::MalformedContent));
    assert_eq!(create_cpu_vector("cpu  1.5 2"), Err(Error::MalformedContent));
    assert_eq!(create_cpu_vector("\ncpu  1 2"), Err(Error::MalformedContent));
}

#[test]
fn the_sum_of_counters_must_be_a_counter() {
    assert_eq!(total_of_counters(&vec![]), Some(0));
    assert_eq!(total_of_counters(&vec![1, 2, 3]), Some(6));
    assert_eq!(total_of_counters(&vec![u64::MAX, 0]), Some(u64::MAX));
    assert_eq!(total_of_counters(&vec![u64::MAX, 1]), None);
    assert_eq!(total_of_counters(&vec![u64::MAX, 1, 0]), None);
}

#[test]
fn a_new_tracker_has_seen_nothing() {
    let tracker = CPUUsage::new();
    assert_eq!(tracker.get_current_cpu(), Percent { numer: 0, denom: 1 });
    assert!(tracker.get_usage().is_empty());
}

#[test]
fn busy_fifty_of_a_hundred_is_fifty_percent() {
    let mut tracker = CPUUsage::new();
    let first = tracker.calculate_current_cpu_usage(&vec![60, 5, 40, 900]);
    assert_eq!(first, Ok(Percent { numer: 0, denom: 0 }));
    let second = tracker.calculate_current_cpu_usage(&vec![90, 7, 60, 950]).unwrap();
    assert_eq!(second, Percent { numer: 5000, denom: 100 });
    assert_eq!(value(second), 50.0);
    assert_eq!(tracker.get_current_cpu(), second);
}

#[test]
fn the_nice_counter_is_left_out() {
    let mut tracker = CPUUsage::new();
    tracker.calculate_current_cpu_usage(&vec![0, 0, 0, 0]).unwrap();
    let p = tracker.calculate_current_cpu_usage(&vec![10, 1000, 10, 80]).unwrap();
    assert_eq!(p, Percent { numer: 2000, denom: 100 });
}

#[test]
fn the_first_reading_is_held_against_itself() {
    let mut tracker = CPUUsage::new();
    let p = tracker.get_cpu_info("cpu  100 0 0 900\n").unwrap();
    assert_eq!(p, Percent { numer: 0, denom: 0 });
    assert!(!p.defined());
    assert!(value(p).is_nan());
    assert_eq!(tracker.get_current_cpu(), p);
}

#[test]
fn a_zero_reading_is_a_baseline_like_any_other() {
    let mut tracker = CPUUsage::new();
    tracker.get_cpu_info("cpu  0 0 0 0").unwrap();
    assert_eq!(tracker.get_cpu_info("cpu  0 0 0 0"), Err(Error::DegenerateComputation));
    assert_eq!(tracker.get_cpu_info("cpu  5 0 5 10"), Ok(Percent { numer: 1000, denom: 20 }));
}

#[test]
fn no_elapsed_reference_time_is_an_error_that_changes_nothing() {
    let mut tracker = CPUUsage::new();
    tracker.add_cpu_data("cpu  100 0 0 900").unwrap();
    tracker.add_cpu_data("cpu  150 0 0 950").unwrap();
    let before = tracker.get_current_cpu();
    assert_eq!(tracker.add_cpu_data("cpu  160 0 0 940"), Err(Error::DegenerateComputation));
    assert_eq!(tracker.get_current_cpu(), before);
    assert_eq!(tracker.get_usage().len(), 2);
    let p = tracker.get_cpu_info("cpu  250 0 0 1050").unwrap();
    assert_eq!(p, Percent { numer: 10000, denom: 200 });
}

#[test]
fn a_falling_busy_counter_gives_a_share_below_zero() {
    let mut tracker = CPUUsage::new();
    tracker.get_cpu_info("cpu  100 0 100 800").unwrap();
    let p = tracker.get_cpu_info("cpu  90 0 60 1000").unwrap();
    assert_eq!(p, Percent { numer: -5000, denom: 150 });
    assert!(value(p) < 0.0);
    assert!(!p.at_least(&Percent::zero()));
}

#[test]
fn a_falling_reference_time_gives_a_negative_denominator() {
    let mut tracker = CPUUsage::new();
    tracker.get_cpu_info("cpu  100 0 0 900").unwrap();
    let p = tracker.get_cpu_info("cpu  50 0 0 850").unwrap();
    assert_eq!(p, Percent { numer: -5000, denom: -100 });
    assert_eq!(value(p), 50.0);
}

#[test]
fn the_largest_counters_do_not_overflow() {
    let mut tracker = CPUUsage::new();
    tracker.calculate_current_cpu_usage(&vec![0, 0, 0, 0]).unwrap();
    let max = u64::MAX;
    let p = tracker.calculate_current_cpu_usage(&vec![max, max, max, max]).unwrap();
    assert_eq!(p, Percent { numer: 200 * (max as i128), denom: 3 * (max as i128) });
    let q = tracker.calculate_current_cpu_usage(&vec![0, 0, 0, 0]).unwrap();
    assert_eq!(q, Percent { numer: -200 * (max as i128), denom: -3 * (max as i128) });
}

#[test]
fn fewer_than_four_counters_are_malformed() {
    let mut tracker = CPUUsage::new();
    assert_eq!(tracker.calculate_current_cpu_usage(&vec![1, 2, 3]), Err(Error::MalformedContent));
    assert_eq!(tracker.get_cpu_info(""), Err(Error::MalformedContent));
    assert_eq!(tracker.get_cpu_info("cpu  1 2 3"), Err(Error::MalformedContent));
    assert_eq!(tracker.get_cpu_info("cpu  1 2 3 x"), Err(Error::MalformedContent));
    assert_eq!(tracker.add_cpu_data("cpu"), Err(Error::MalformedContent));
    assert!(tracker.get_usage().is_empty());
    assert_eq!(tracker.get_cpu_info("cpu  1 2 3 4"), Ok(Percent { numer: 0, denom: 0 }));
}

#[test]
fn samples_are_numbered_from_one() {
    let mut tracker = CPUUsage::new();
    tracker.add_cpu_data("cpu  0 0 0 0").unwrap();
    tracker.add_cpu_data("cpu  10 0 0 90").unwrap();
    tracker.add_cpu_data("cpu  40 0 0 160").unwrap();
    let usage = tracker.get_usage();
    assert_eq!(usage.len(), 3);
    assert_eq!(usage[0], (1, Percent { numer: 0, denom: 0 }));
    assert_eq!(usage[1], (2, Percent { numer: 1000, denom: 100 }));
    assert_eq!(usage[2], (3, Percent { numer: 3000, denom: 100 }));
}

#[test]
fn the_sample_after_the_three_hundredth_stands_alone() {
    let mut tracker = CPUUsage::new();
    for i in 0..300u64 {
        let text = format!("cpu  {} 0 0 {}", i, 10 * i);
        tracker.add_cpu_data(&text).unwrap();
        assert_eq!(tracker.get_usage().len() as u64, i + 1);
    }
    assert_eq!(tracker.get_usage().len(), 300);
    assert_eq!(tracker.get_usage()[299].0, 300);
    tracker.add_cpu_data("cpu  1000 0 0 9000").unwrap();
    assert_eq!(tracker.get_usage().len(), 1);
    assert_eq!(tracker.get_usage()[0].0, 1);
    assert_eq!(tracker.get_usage()[0].1, Percent { numer: 100 * (1000 - 299), denom: 10000 - 299 * 11 });
    tracker.add_cpu_data("cpu  1001 0 0 9001").unwrap();
    assert_eq!(tracker.get_usage().len(), 2);
    assert_eq!(tracker.get_usage()[1].0, 2);
}

#[test]
fn a_full_series_is_emptied_even_where_the_sample_fails() {
    let mut tracker = CPUUsage::new();
    for i in 0..300u64 {
        tracker.add_cpu_data(&format!("cpu  {} 0 0 {}", i, i)).unwrap();
    }
    assert_eq!(tracker.add_cpu_data("cpu  x"), Err(Error::MalformedContent));
    assert!(tracker.get_usage().is_empty());
}

#[test]
fn clear_usage_leaves_a_series_that_is_not_full() {
    let mut tracker = CPUUsage::new();
    for i in 0..299u64 {
        tracker.add_cpu_data(&format!("cpu  {} 0 0 {}", i, i)).unwrap();
    }
    tracker.clear_usage();
    assert_eq!(tracker.get_usage().len(), 299);
    tracker.add_cpu_data("cpu  1000 0 0 1000").unwrap();
    assert_eq!(tracker.get_usage().len(), 300);
    tracker.clear_usage();
    assert!(tracker.get_usage().is_empty());
}
