use statusline::battery::{hash_str, BatteryModule};
use statusline::clock::{format_hms, ClockModule};
use statusline::driver::{
    modules_go, poll_pass, remaining_budget, step, step_at, StatusModule,
};

fn fresh_clock() -> ClockModule {
    ClockModule::default()
}

fn fresh_battery() -> BatteryModule {
    BatteryModule::default()
}

fn clock_battery_bar() -> Vec<(StatusModule, bool)> {
    vec![
        (StatusModule::Clock(fresh_clock()), false),
        (StatusModule::Battery(fresh_battery()), false),
    ]
}

#[test]
fn clock_ready_on_first_poll() {
    let c = fresh_clock();
    assert!(c.ready(1000));
    assert!(c.ready(123_456_789));
    assert!(!c.ready(999));
    assert!(!c.ready(0));
}

#[test]
fn clock_cadence_after_refresh() {
    let mut c = fresh_clock();
    let mut out = String::new();
    c.go(true, 5000, 14, 3, 22, &mut out);
    assert_eq!(out, "14:03:22");
    assert!(!c.ready(5000));
    assert!(!c.ready(5999));
    assert!(c.ready(6000));
    assert!(c.ready(7500));
}

#[test]
fn clock_render_keeps_cache_when_not_ready() {
    let mut c = fresh_clock();
    let mut out = String::new();
    c.go(true, 5000, 14, 3, 22, &mut out);
    let mut out2 = String::new();
    c.go(false, 5500, 23, 59, 59, &mut out2);
    assert_eq!(out2, "14:03:22");
    assert_eq!(c.last_refresh_ms, 5000);
}

#[test]
fn clock_format_zero_padding() {
    assert_eq!(format_hms(0, 0, 0), "00:00:00");
    assert_eq!(format_hms(9, 5, 7), "09:05:07");
    assert_eq!(format_hms(23, 59, 59), "23:59:59");
    assert_eq!(format_hms(14, 3, 22), "14:03:22");
    assert_eq!(format_hms(10, 30, 45), "10:30:45");
}

#[test]
fn clock_format_all_hours() {
    for h in 0u8..24 {
        let t = format_hms(h, 0, 0);
        assert_eq!(t.len(), 8);
        let bytes = t.as_bytes();
        assert_eq!((bytes[0] - b'0') * 10 + (bytes[1] - b'0'), h);
        assert_eq!(&t[2..], ":00:00");
    }
}

#[test]
fn hash_str_is_deterministic() {
    assert_eq!(hash_str("87\n"), hash_str("87\n"));
    assert_eq!(hash_str(""), hash_str(""));
    assert_ne!(hash_str("87\n"), hash_str("88\n"));
}

#[test]
fn battery_detects_change_and_no_change() {
    let mut b = fresh_battery();
    assert!(b.ready("87\n"));
    assert!(!b.ready("87\n"));
    assert!(!b.ready("87\n"));
    assert!(b.ready("88\n"));
    assert!(!b.ready("88\n"));
    assert!(b.ready("87\n"));
}

#[test]
fn battery_render_strips_newline_and_appends_suffix() {
    let mut b = fresh_battery();
    b.ready("87\n");
    let mut out = String::new();
    b.go(false, "87\n", &mut out);
    assert_eq!(out, "87% Battery");
}

#[test]
fn battery_render_boundary_values() {
    for (raw, text) in [("0\n", "0% Battery"), ("100\n", "100% Battery")] {
        let mut b = fresh_battery();
        b.ready(raw);
        let mut out = String::new();
        b.go(true, raw, &mut out);
        assert_eq!(out, text);
    }
}

#[test]
fn battery_render_initializes_itself_when_never_polled() {
    let mut b = fresh_battery();
    let mut out = String::new();
    b.go(false, "42\n", &mut out);
    assert_eq!(out, "42% Battery");
    assert_eq!(b.current, "42\n");
    assert!(!b.ready("42\n"));
}

#[test]
fn poll_pass_reports_any_change() {
    let mut bar = clock_battery_bar();
    assert!(poll_pass(&mut bar, 10_000, "87\n"));
    assert!(bar[0].1);
    assert!(bar[1].1);
    // Until a render pass refreshes the clock, it keeps reporting ready.
    let mut out = String::new();
    modules_go(&mut bar, 10_000, 14, 3, 22, "87\n", &mut out);
    let updated = poll_pass(&mut bar, 10_050, "87\n");
    assert!(!updated);
    assert!(!bar[0].1);
    assert!(!bar[1].1);
}

#[test]
fn render_pass_writes_all_modules_in_order() {
    let mut bar = clock_battery_bar();
    poll_pass(&mut bar, 10_000, "87\n");
    let mut out = String::new();
    modules_go(&mut bar, 10_000, 14, 3, 22, "87\n", &mut out);
    assert_eq!(out, "14:03:22 | 87% Battery\n");
}

#[test]
fn step_first_iteration_always_renders() {
    let mut bar = clock_battery_bar();
    let line = step_at(&mut bar, 10_000, 14, 3, 22, "87\n");
    assert_eq!(line.as_deref(), Some("14:03:22 | 87% Battery\n"));
}

#[test]
fn step_quiet_iteration_renders_nothing() {
    let mut bar = clock_battery_bar();
    step_at(&mut bar, 10_000, 14, 3, 22, "87\n");
    assert_eq!(step_at(&mut bar, 10_050, 14, 3, 22, "87\n"), None);
    assert_eq!(step_at(&mut bar, 10_900, 14, 3, 22, "87\n"), None);
}

#[test]
fn step_one_second_later_renders_again() {
    let mut bar = clock_battery_bar();
    step_at(&mut bar, 10_000, 14, 3, 22, "87\n");
    assert_eq!(step_at(&mut bar, 10_500, 14, 3, 22, "87\n"), None);
    let line = step_at(&mut bar, 11_000, 14, 3, 23, "87\n");
    assert_eq!(line.as_deref(), Some("14:03:23 | 87% Battery\n"));
}

#[test]
fn step_battery_change_renders_all_modules() {
    let mut bar = clock_battery_bar();
    step_at(&mut bar, 10_000, 14, 3, 22, "87\n");
    // The clock is not due, yet the battery's change re-renders the whole
    // line, cached clock text included.
    let line = step_at(&mut bar, 10_500, 23, 59, 59, "86\n");
    assert_eq!(line.as_deref(), Some("14:03:22 | 86% Battery\n"));
}

#[test]
fn separator_occurs_between_every_pair() {
    let mut bar = vec![
        (StatusModule::Clock(fresh_clock()), false),
        (StatusModule::Battery(fresh_battery()), false),
        (StatusModule::Clock(fresh_clock()), false),
    ];
    let line = step_at(&mut bar, 10_000, 7, 8, 9, "55\n").unwrap();
    assert_eq!(line, "07:08:09 | 55% Battery | 07:08:09\n");
    assert_eq!(line.matches(" | ").count(), 2);
    assert!(!line.starts_with(" | "));
    assert!(!line.trim_end_matches('\n').ends_with(" | "));

    let mut pair = clock_battery_bar();
    let line2 = step_at(&mut pair, 10_000, 7, 8, 9, "55\n").unwrap();
    assert_eq!(line2.matches(" | ").count(), 1);
}

#[test]
fn empty_module_list_never_renders() {
    let mut bar: Vec<(StatusModule, bool)> = Vec::new();
    assert_eq!(step_at(&mut bar, 10_000, 14, 3, 22, "87\n"), None);
}

#[test]
fn step_with_live_clock_renders_valid_time() {
    let mut bar = clock_battery_bar();
    let line = step(&mut bar, 10_000, "87\n").expect("first iteration must render");
    assert_eq!(line.len(), "HH:MM:SS | 87% Battery\n".len());
    let bytes = line.as_bytes();
    assert_eq!(bytes[2], b':');
    assert_eq!(bytes[5], b':');
    for i in [0usize, 1, 3, 4, 6, 7] {
        assert!(bytes[i].is_ascii_digit());
    }
    let hh = (bytes[0] - b'0') * 10 + (bytes[1] - b'0');
    let mm = (bytes[3] - b'0') * 10 + (bytes[4] - b'0');
    let ss = (bytes[6] - b'0') * 10 + (bytes[7] - b'0');
    assert!(hh < 24 && mm < 60 && ss < 60);
    assert_eq!(&line[8..], " | 87% Battery\n");
}

#[test]
fn remaining_budget_caps_the_iteration() {
    assert_eq!(remaining_budget(0), 100);
    assert_eq!(remaining_budget(30), 70);
    assert_eq!(remaining_budget(99), 1);
    assert_eq!(remaining_budget(100), 0);
    assert_eq!(remaining_budget(250), 0);
}
