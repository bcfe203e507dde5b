use hwall::cli::header::{
    bounded_number, build_layout, latency_field, ActivityState, HeaderData, LATENCY_WIDTH,
};
use std::time::Duration;

fn nanos(duration: Duration) -> u64 {
    duration.as_nanos() as u64
}

fn text_width(text: &str) -> usize {
    text.chars().count()
}

fn data(state: ActivityState, collection: Duration, rendering: Duration) -> HeaderData {
    HeaderData {
        state,
        mode: "hardware".to_owned(),
        interval_nanos: nanos(Duration::from_secs(1)),
        collection_latency_nanos: Some(nanos(collection)),
        render_latency_nanos: nanos(rendering),
        samples: 42,
        first_line: 1,
        last_line: 40,
        total_lines: 367,
    }
}

#[test]
fn volatile_state_does_not_change_left_segment() {
    let live = build_layout(
        140,
        &data(
            ActivityState::Live,
            Duration::from_millis(7),
            Duration::from_millis(2),
        ),
    );
    let paused = build_layout(
        140,
        &data(
            ActivityState::Paused,
            Duration::from_millis(987),
            Duration::from_micros(450),
        ),
    );

    assert_eq!(live.left, paused.left);
    assert_eq!(live.state.chars().count(), paused.state.chars().count());
    assert_eq!(live.metrics.chars().count(), paused.metrics.chars().count());
}

#[test]
fn latency_fields_have_fixed_width() {
    assert_eq!(latency_field(None).chars().count(), LATENCY_WIDTH);
    assert_eq!(
        latency_field(Some(nanos(Duration::from_micros(450))))
            .chars()
            .count(),
        LATENCY_WIDTH
    );
    assert_eq!(
        latency_field(Some(nanos(Duration::from_millis(27))))
            .chars()
            .count(),
        LATENCY_WIDTH
    );
    assert_eq!(
        latency_field(Some(nanos(Duration::from_millis(1_250))))
            .chars()
            .count(),
        LATENCY_WIDTH
    );
}

#[test]
fn narrow_headers_drop_metrics_before_identity() {
    let compact = build_layout(
        50,
        &data(
            ActivityState::Paused,
            Duration::from_millis(27),
            Duration::from_millis(2),
        ),
    );

    assert_eq!(compact.left, "HWall  •  hardware  •  refresh 1.000s");
    assert!(compact.metrics.is_empty());
    assert_eq!(compact.state, "PAUSED  ");
}

#[test]
fn chosen_segments_fit_without_overlapping() {
    let sample = data(
        ActivityState::Live,
        Duration::from_millis(73),
        Duration::from_millis(2),
    );
    for width in 15..=180 {
        let layout = build_layout(width, &sample);
        let used =
            text_width(&layout.left) + text_width(&layout.state) + text_width(&layout.metrics);
        assert!(used <= usize::from(width), "width {width} used {used}");
    }
}

#[test]
fn latency_values_and_counters() {
    assert_eq!(latency_field(None), "startup");
    assert_eq!(latency_field(Some(450_000)), "  450µs");
    assert_eq!(latency_field(Some(27_000_000)), "   27ms");
    assert_eq!(latency_field(Some(1_250_000_000)), "  1.25s");
    assert_eq!(latency_field(Some(150_000_000_000)), " >99.9s");
    assert_eq!(bounded_number(42, 6), "    42");
    assert_eq!(bounded_number(1_234_567, 6), "99999+");
    let wide = build_layout(200, &data(ActivityState::Live, Duration::from_millis(7), Duration::from_millis(2)));
    assert_eq!(
        wide.metrics,
        " • samples     42 • collect     7ms • render     2ms • lines     1-   40/  367"
    );
    assert_eq!(wide.state, "LIVE    ");
    let tiny = build_layout(20, &data(ActivityState::Live, Duration::from_millis(7), Duration::from_millis(2)));
    assert_eq!(tiny.left, "HWall");
}
