use orbit_audio::offline::{ChildStats, RenderOptions};
use orbit_audio::parent_watch::ParentWatch;
use orbit_audio::rack_wire::{enabled_by_default, StageSpec};
use std::cell::Cell;
use std::time::{Duration, Instant};

fn wait_at_least(span: Duration) {
    let start = Instant::now();
    while start.elapsed() < span {
        std::hint::spin_loop();
    }
}

#[test]
fn does_not_fire_while_ppid_unchanged() {
    let mut watch = ParentWatch::with_interval(Duration::from_millis(1), 4242);
    wait_at_least(Duration::from_millis(5));
    assert!(!watch.should_exit(|| 4242));
}

#[test]
fn rate_limits_syscall_checks() {
    let mut watch = ParentWatch::with_interval(Duration::from_secs(10), 4242);
    let probes = Cell::new(0u32);
    for _ in 0..1000 {
        assert!(!watch.should_exit(|| {
            probes.set(probes.get() + 1);
            1
        }));
    }
    assert_eq!(probes.get(), 0, "no probe before the interval has elapsed");
}

#[test]
fn fires_after_ppid_changes() {
    let mut watch = ParentWatch::with_interval(Duration::from_millis(1), 4242);
    watch.original_ppid = -1;
    wait_at_least(Duration::from_millis(5));
    assert!(watch.should_exit(|| 4242));
}

#[test]
fn parent_check_restarts_the_interval() {
    let mut watch = ParentWatch::with_interval(Duration::from_millis(1), 7);
    wait_at_least(Duration::from_millis(5));
    assert!(watch.should_exit(|| 8));
    let default_watch = ParentWatch::new(7);
    assert!(!default_watch.parent_changed(7));
    assert!(default_watch.parent_changed(1));
}

#[test]
fn parent_watch_defaults_to_a_quarter_second_interval() {
    let watch = ParentWatch::new(7);
    assert_eq!(watch.check_interval, Duration::from_millis(250));
    assert_eq!(watch.original_ppid, 7);
}

#[test]
fn render_options_default_to_five_seconds_for_every_block() {
    let opts = RenderOptions::default();
    assert_eq!(opts.first_block_timeout, Duration::from_secs(5));
    assert_eq!(opts.block_timeout, Duration::from_secs(5));
    let custom = RenderOptions { first_block_timeout: Duration::from_secs(30), block_timeout: Duration::from_millis(200) };
    assert_eq!(custom.timeout_for_block(1), Duration::from_secs(30));
    assert_eq!(custom.timeout_for_block(2), Duration::from_millis(200));
    assert_eq!(custom.timeout_for_block(0), Duration::from_millis(200));
}

#[test]
fn child_stats_start_at_zero() {
    assert_eq!(ChildStats::default(), ChildStats { processed: 0, process_errors: 0 });
}

#[test]
fn stage_enabled_and_params_follow_the_kind() {
    assert!(enabled_by_default());
    let catalog = StageSpec::Catalog {
        path: "/x/y.vst3".to_string(),
        plugin_id: Some("com.x.y".to_string()),
        state: None,
        enabled: false,
    };
    assert!(!catalog.enabled());
    assert!(catalog.params().is_empty());
    let standard = StageSpec::Standard {
        name: "Gain".to_string(),
        params: vec![("db".to_string(), (-20.0f64).to_bits())],
        enabled: true,
    };
    assert!(standard.enabled());
    assert_eq!(standard.params().len(), 1);
    assert_eq!(f64::from_bits(standard.params()[0].1), -20.0);
    let layer = StageSpec::Layer { branches: "[]".to_string() };
    assert!(!layer.enabled());
    assert!(layer.params().is_empty());
}

#[test]
fn a_check_that_is_not_due_asks_nothing_and_keeps_the_interval() {
    let mut watch = ParentWatch::with_interval(Duration::from_secs(10), 7);
    let start = watch.last_check;
    let now = Instant::now();
    let probes = Cell::new(0u32);
    assert!(!watch.check_when_due(false, now, || {
        probes.set(probes.get() + 1);
        8
    }));
    assert_eq!(probes.get(), 0);
    assert_eq!(watch.last_check, start);
    assert!(watch.check_when_due(true, now, || 8));
    assert_eq!(watch.last_check, now);
    assert!(!watch.check_when_due(true, now, || 7));
}
