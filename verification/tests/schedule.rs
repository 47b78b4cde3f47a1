use lamp_schedule::light_schedule::{LightScheduler, SchedulePoint};

fn pt(hour: u8, minute: u8, intensity: u8, temperature: u8) -> SchedulePoint {
    SchedulePoint { hour, minute, intensity, temperature }
}

fn loaded(points: Vec<SchedulePoint>) -> LightScheduler {
    let mut s = LightScheduler::default();
    s.set_schedule(points);
    s
}

fn readme_schedule() -> Vec<SchedulePoint> {
    vec![pt(6, 0, 40, 30), pt(12, 0, 90, 60), pt(18, 30, 70, 70), pt(22, 0, 15, 80)]
}

#[test]
fn empty_schedule_gives_nothing() {
    let s = LightScheduler::default();
    assert!(!s.has_schedule());
    assert!(s.can_evaluate(9, 0));
    assert_eq!(s.evaluate(9, 0), None);
}

#[test]
fn readme_example_nine_oclock() {
    let s = loaded(readme_schedule());
    assert!(s.has_schedule());
    assert_eq!(s.evaluate(9, 0), Some((65, 45)));
}

#[test]
fn tutorial_example_midday_segment() {
    let s = loaded(vec![pt(6, 0, 40, 30), pt(12, 0, 90, 60), pt(22, 0, 15, 80)]);
    assert_eq!(s.evaluate(9, 0), Some((65, 45)));
    // 12:00 -> 22:00, at 17:00 halfway: 90 - 75*300/600 = 53, 60 + 20*300/600 = 70
    assert_eq!(s.evaluate(17, 0), Some((53, 70)));
}

#[test]
fn wraps_across_midnight_after_last_point() {
    let s = loaded(vec![pt(6, 0, 40, 30), pt(12, 0, 90, 60), pt(22, 0, 15, 80)]);
    // 22:00 -> 06:00 (+24h) is 480 minutes; at 23:00 60 minutes in.
    // intensity 15 + 25*60/480 = 18, temperature 80 - 50*60/480 = 74 (rounded toward 80)
    assert_eq!(s.evaluate(23, 0), Some((18, 74)));
}

#[test]
fn wraps_across_midnight_before_first_point() {
    let s = loaded(vec![pt(6, 0, 40, 30), pt(12, 0, 90, 60), pt(22, 0, 15, 80)]);
    // at 02:00, 240 of 480 minutes after 22:00
    assert_eq!(s.evaluate(2, 0), Some((27, 55)));
}

#[test]
fn exact_point_times_give_point_levels() {
    let s = loaded(readme_schedule());
    assert_eq!(s.evaluate(6, 0), Some((40, 30)));
    assert_eq!(s.evaluate(12, 0), Some((90, 60)));
    assert_eq!(s.evaluate(18, 30), Some((70, 70)));
    assert_eq!(s.evaluate(22, 0), Some((15, 80)));
}

#[test]
fn single_point_is_constant_all_day() {
    let s = loaded(vec![pt(8, 15, 33, 44)]);
    for h in 0..24u8 {
        for m in [0u8, 15, 59] {
            assert_eq!(s.evaluate(h, m), Some((33, 44)));
        }
    }
}

#[test]
fn order_of_points_does_not_matter() {
    let mut shuffled = readme_schedule();
    shuffled.reverse();
    let a = loaded(readme_schedule());
    let b = loaded(shuffled);
    for h in 0..24u8 {
        for m in [0u8, 7, 30, 59] {
            assert_eq!(a.evaluate(h, m), b.evaluate(h, m));
        }
    }
}

#[test]
fn two_points_in_the_same_minute_give_the_later_one() {
    // Both at 10:00: at 10:00 the segment from 20:00 (wrapping) ends at the
    // first of the two, which keeps its place in the input order.
    let s = loaded(vec![pt(10, 0, 20, 20), pt(10, 0, 80, 80), pt(20, 0, 50, 50)]);
    assert_eq!(s.evaluate(10, 0), Some((20, 20)));
    // after 10:00 the segment starts at the second 10:00 point
    assert_eq!(s.evaluate(15, 0), Some((65, 65)));
}

#[test]
fn levels_stay_within_range_all_day() {
    let s = loaded(readme_schedule());
    for h in 0..24u8 {
        for m in 0..60u8 {
            let (i, t) = s.evaluate(h, m).unwrap();
            assert!(i <= 100 && t <= 100);
            assert!(i >= 15 && i <= 90);
            assert!(t >= 30 && t <= 80);
        }
    }
}

#[test]
fn out_of_range_point_makes_evaluation_undefined_before_it_wraps() {
    // A point at 30:00 lies more than a day after 00:00 on the clock.
    let s = loaded(vec![pt(0, 0, 10, 10), pt(30, 0, 90, 90)]);
    assert!(!s.can_evaluate(0, 0));
    assert!(s.can_evaluate(12, 0));
}

#[test]
fn minutes_of_day_counts_from_midnight() {
    assert_eq!(pt(0, 0, 0, 0).minutes_of_day(), 0);
    assert_eq!(pt(23, 59, 0, 0).minutes_of_day(), 1439);
    assert_eq!(pt(9, 30, 0, 0).minutes_of_day(), 570);
}
