use std::ops::Sub;

use chrono::{DateTime, Duration, Local, TimeZone, Utc};
use yew_chart::axis::{Labeller, NormalisedValue, Scale, Tick};
use yew_chart::time_axis_scale::{
    text_or_blank, LocalTimeLabeller, TimeScale, TimeScaleInclusiveIter, DAY_AND_MONTH,
    EARLIEST_INSTANT, LATEST_INSTANT,
};

fn as_float(location: &NormalisedValue) -> f32 {
    location.offset as f32 * (1.0 / location.span as f32)
}

fn drawn(ticks: &[Tick]) -> Vec<(f32, Option<String>)> {
    ticks.iter().map(|t| (as_float(&t.location), t.label.clone())).collect()
}

#[test]
fn time_axis_scale_test_scale() {
    let end_date = Local.with_ymd_and_hms(2022, 3, 2, 16, 56, 0).single().unwrap();
    let start_date = end_date.sub(Duration::days(4));
    let range = start_date.timestamp_millis()..end_date.timestamp_millis();
    let scale = TimeScale::new(range, Duration::days(1).num_milliseconds());

    assert_eq!(
        drawn(&scale.ticks()),
        vec![
            (0.0, Some("26-Feb".to_string())),
            (0.25, Some("27-Feb".to_string())),
            (0.5, Some("28-Feb".to_string())),
            (0.75, Some("01-Mar".to_string())),
            (1.0, Some("02-Mar".to_string())),
        ]
    );

    assert_eq!(
        as_float(&scale.normalise(end_date.sub(Duration::days(2)).timestamp_millis())),
        0.5
    );
}

#[test]
fn time_axis_scale_test_backward_scale() {
    let start_date = Local.with_ymd_and_hms(2022, 3, 2, 16, 56, 0).single().unwrap();
    let end_date = start_date.sub(Duration::days(4));
    let range = start_date.timestamp_millis()..end_date.timestamp_millis();
    let scale = TimeScale::new(range, Duration::days(-1).num_milliseconds());

    assert_eq!(
        drawn(&scale.ticks()),
        vec![
            (0.0, Some("02-Mar".to_string())),
            (0.25, Some("01-Mar".to_string())),
            (0.5, Some("28-Feb".to_string())),
            (0.75, Some("27-Feb".to_string())),
            (1.0, Some("26-Feb".to_string())),
        ]
    );

    assert_eq!(
        as_float(&scale.normalise(start_date.sub(Duration::days(2)).timestamp_millis())),
        0.5
    );
}

#[test]
fn time_axis_scale_test_zero_range() {
    let end_date = Local.with_ymd_and_hms(2022, 3, 2, 16, 56, 0).single().unwrap();
    let start_date = end_date;
    let range = start_date.timestamp_millis()..end_date.timestamp_millis();
    let scale = TimeScale::new(range, Duration::days(1).num_milliseconds());

    assert_eq!(drawn(&scale.ticks()), vec![(0.0, Some("02-Mar".to_string()))]);

    assert_eq!(as_float(&scale.normalise(end_date.timestamp_millis())), 0.0);
}

#[test]
fn test_zero_step() {
    let end_date = Local.with_ymd_and_hms(2022, 3, 2, 16, 56, 0).single().unwrap();
    let start_date = end_date;
    let range = start_date.timestamp_millis()..end_date.timestamp_millis();
    let scale = TimeScale::new(range, Duration::days(0).num_milliseconds());

    assert_eq!(scale.ticks(), vec![]);

    assert_eq!(as_float(&scale.normalise(end_date.timestamp_millis())), 0.0);
}

fn offsets(ticks: &[Tick]) -> Vec<i128> {
    ticks.iter().map(|t| t.location.offset).collect()
}

#[test]
fn zero_step_gives_no_ticks_over_any_range() {
    assert_eq!(TimeScale::new(0..86_400_000, 0).ticks(), vec![]);
    assert_eq!(TimeScale::new(86_400_000..0, 0).ticks(), vec![]);
    assert_eq!(TimeScale::new(i64::MIN..i64::MAX, 0).ticks(), vec![]);
}

#[test]
fn end_gets_a_tick_only_when_a_step_lands_on_it() {
    let landing = TimeScale::new(0..100, 25);
    assert_eq!(offsets(&landing.ticks()), vec![0, 25, 50, 75, 100]);
    let passing = TimeScale::new(0..100, 30);
    assert_eq!(offsets(&passing.ticks()), vec![0, 30, 60, 90]);
    let down = TimeScale::new(100..0, -30);
    assert_eq!(offsets(&down.ticks()), vec![0, -30, -60, -90]);
}

#[test]
fn step_against_the_range_gives_no_ticks() {
    assert_eq!(TimeScale::new(0..100, -25).ticks(), vec![]);
    assert_eq!(TimeScale::new(100..0, 25).ticks(), vec![]);
}

#[test]
fn time_steps_stop_at_the_limits_of_the_integers() {
    let scale = TimeScale::with_labeller(i64::MAX - 10..i64::MAX, 7, None::<LocalTimeLabeller>);
    assert_eq!(offsets(&scale.ticks()), vec![0, 7]);
    let scale = TimeScale::with_labeller(i64::MIN + 10..i64::MIN, -5, None::<LocalTimeLabeller>);
    assert_eq!(offsets(&scale.ticks()), vec![0, -5, -10]);
    let scale = TimeScale::with_labeller(i64::MIN..i64::MAX, i64::MAX, None::<LocalTimeLabeller>);
    assert_eq!(offsets(&scale.ticks()), vec![0, i64::MAX as i128, 2 * (i64::MAX as i128)]);
}

#[test]
fn ends_of_a_time_range_sit_at_zero_and_one() {
    for (start, end) in [(0_i64, 345_600_000_i64), (345_600_000, 0), (i64::MIN, i64::MAX)] {
        let scale = TimeScale::new(start..end, 1000);
        assert_eq!(scale.normalise(start).offset, 0);
        let at_end = scale.normalise(end);
        assert_eq!(at_end.offset, at_end.span);
        assert_eq!(as_float(&at_end), 1.0);
    }
    let empty = TimeScale::new(1_000..1_000, 0);
    assert_eq!(empty.normalise(1_000), NormalisedValue { offset: 0, span: 1 });
    assert_eq!(empty.normalise(1_005), NormalisedValue { offset: 5, span: 1 });
}

#[test]
fn time_positions_keep_or_reverse_the_order_of_instants() {
    let rising = TimeScale::new(0..1_000, 100);
    let falling = TimeScale::new(1_000..0, -100);
    for instant in -50..1_050_i64 {
        assert!(as_float(&rising.normalise(instant)) <= as_float(&rising.normalise(instant + 1)));
        assert!(as_float(&falling.normalise(instant)) >= as_float(&falling.normalise(instant + 1)));
    }
}

#[test]
fn time_ticks_are_the_same_each_time_they_are_asked_for() {
    let scale = TimeScale::new(0..345_600_000, 86_400_000);
    assert_eq!(scale.ticks(), scale.ticks());
    assert_eq!(scale.clone().ticks(), scale.ticks());
}

#[test]
fn default_labels_follow_the_day_and_month_pattern() {
    assert_eq!(DAY_AND_MONTH, "%d-%b");
    let noon = Local.with_ymd_and_hms(2022, 2, 26, 12, 0, 0).single().unwrap().timestamp_millis();
    let labeller = LocalTimeLabeller { format: DAY_AND_MONTH };
    assert_eq!(labeller.label(noon), "26-Feb");
    let scale = TimeScale::new(noon..noon, 1);
    assert_eq!(scale.ticks()[0].label, Some("26-Feb".to_string()));
}

#[test]
fn local_time_labeller_takes_any_pattern() {
    let instant =
        Local.with_ymd_and_hms(2022, 3, 2, 16, 56, 7).single().unwrap().timestamp_millis() + 250;
    let scale = TimeScale::with_local_time_labeller(instant..instant, 1, "%Y-%m-%d %H:%M:%S%.3f");
    assert_eq!(scale.ticks()[0].label, Some("2022-03-02 16:56:07.250".to_string()));
}

#[test]
fn local_time_labeller_is_blank_where_nothing_can_be_rendered() {
    let labeller = LocalTimeLabeller { format: DAY_AND_MONTH };
    assert_eq!(labeller.label(i64::MAX), "");
    assert_eq!(labeller.label(i64::MIN), "");
    let broken = LocalTimeLabeller { format: "%d-%" };
    assert_eq!(broken.label(0), "");
}

#[test]
fn instants_have_a_date_between_the_ends_of_the_calendar() {
    assert_eq!(EARLIEST_INSTANT, DateTime::<Utc>::MIN_UTC.timestamp_millis());
    assert_eq!(LATEST_INSTANT, DateTime::<Utc>::MAX_UTC.timestamp_millis());
    assert!(Utc.timestamp_millis_opt(EARLIEST_INSTANT).single().is_some());
    assert!(Utc.timestamp_millis_opt(LATEST_INSTANT).single().is_some());
    assert!(Utc.timestamp_millis_opt(EARLIEST_INSTANT - 1).single().is_none());
    assert!(Utc.timestamp_millis_opt(LATEST_INSTANT + 1).single().is_none());
}

#[test]
fn instants_without_a_date_get_the_blank_label() {
    let labeller = LocalTimeLabeller { format: "%Y" };
    assert_eq!(labeller.label(EARLIEST_INSTANT - 1), "");
    assert_eq!(labeller.label(LATEST_INSTANT + 1), "");
    assert_ne!(labeller.label(EARLIEST_INSTANT + 86_400_000), "");
    assert_ne!(labeller.label(LATEST_INSTANT - 86_400_000), "");

    let scale = TimeScale::new(LATEST_INSTANT..LATEST_INSTANT + 2, 1);
    let labels: Vec<Option<String>> = scale.ticks().into_iter().map(|t| t.label).collect();
    assert_eq!(labels.len(), 3);
    assert_eq!(labels[1], Some(String::new()));
    assert_eq!(labels[2], Some(String::new()));
}

#[test]
fn time_walk_keeps_its_place_where_a_step_would_overflow() {
    let mut walk = TimeScaleInclusiveIter {
        time_from: i64::MAX - 1,
        time_to: i64::MAX,
        step: 2,
        first_time: false,
    };
    assert_eq!(walk.next(), None);
    assert_eq!(walk.time_from, i64::MAX - 1);
    assert!(!walk.first_time);

    let mut walk = TimeScaleInclusiveIter { time_from: 10, time_to: 12, step: 5, first_time: true };
    assert_eq!(walk.next(), Some(10));
    assert_eq!((walk.time_from, walk.first_time), (10, false));
    assert_eq!(walk.next(), None);
    assert_eq!((walk.time_from, walk.time_to, walk.step), (15, 12, 5));
    assert_eq!(walk.next(), None);
    assert_eq!(walk.time_from, 20);
}

#[test]
fn local_labels_are_renderings_at_the_offset_of_the_machine() {
    let instant = Utc.with_ymd_and_hms(2022, 6, 15, 12, 0, 0).single().unwrap();
    let millis = instant.timestamp_millis();
    for pattern in ["%Y", "%d-%b", "%H:%M:%S %:z", "%s"] {
        let labeller = LocalTimeLabeller { format: pattern };
        let expected = instant.with_timezone(&Local).format(pattern).to_string();
        assert_eq!(labeller.label(millis), expected);
        assert_eq!(labeller.label(millis), labeller.label(millis));
    }
    let years = TimeScale::with_local_time_labeller(millis..millis + 172_800_000, 86_400_000, "%Y");
    let labels: Vec<Option<String>> = years.ticks().into_iter().map(|t| t.label).collect();
    assert_eq!(labels, vec![Some("2022".to_string()); 3]);
}

#[test]
fn text_or_blank_keeps_the_text() {
    assert_eq!(text_or_blank(Some("02-Mar".to_string())), "02-Mar");
    assert_eq!(text_or_blank(None), "");
}

#[test]
fn time_walk_yields_each_instant_once() {
    let mut walk = TimeScaleInclusiveIter { time_from: 0, time_to: 5, step: 2, first_time: true };
    assert_eq!(walk.next(), Some(0));
    assert_eq!(walk.next(), Some(2));
    assert_eq!(walk.next(), Some(4));
    assert_eq!(walk.next(), None);
    assert_eq!(walk.next(), None);

    let mut landing = TimeScaleInclusiveIter { time_from: 6, time_to: 0, step: -3, first_time: true };
    assert_eq!(landing.next(), Some(6));
    assert_eq!(landing.next(), Some(3));
    assert_eq!(landing.next(), Some(0));
    assert_eq!(landing.next(), None);

    let mut still = TimeScaleInclusiveIter { time_from: 1, time_to: 1, step: 0, first_time: true };
    assert_eq!(still.next(), None);
}

struct Seconds;

impl Labeller for Seconds {
    fn label(&self, value: i64) -> String {
        format!("{}s", value / 1000)
    }
}

#[test]
fn custom_labeller_names_each_tick() {
    let scale = TimeScale::with_labeller(0..3000, 1000, Some(Seconds));
    let labels: Vec<Option<String>> = scale.ticks().into_iter().map(|t| t.label).collect();
    assert_eq!(
        labels,
        vec![
            Some("0s".to_string()),
            Some("1s".to_string()),
            Some("2s".to_string()),
            Some("3s".to_string())
        ]
    );
    let bare = TimeScale::with_labeller(0..3000, 1000, None::<LocalTimeLabeller>);
    assert!(bare.ticks().iter().all(|t| t.label.is_none()));
}
