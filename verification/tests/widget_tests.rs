use stained_steel::boot::cos_fp;
use stained_steel::boot::dissolve_keep;
use stained_steel::boot::sin_fp;
use stained_steel::config::BarConfig;
use stained_steel::config::BarDirection;
use stained_steel::config::DashboardConfig;
use stained_steel::config::Display;
use stained_steel::config::GraphConfig;
use stained_steel::config::MetricIntervals;
use stained_steel::config::MetricsSample;
use stained_steel::config::Position;
use stained_steel::config::Widget;
use stained_steel::config::WidgetKind;
use stained_steel::dashboard::DashboardRenderer;
use stained_steel::numfmt::human_speed;
use stained_steel::numfmt::volume_digits;
use stained_steel::packet::FrameError;
use stained_steel::packet::frame_packet;
use stained_steel::packet::interface_from_path;
use stained_steel::packet::parse_hid_id;

fn sample(cpu_pm: u32, volume_pm: u32) -> MetricsSample {
    MetricsSample {
        cpu_percent: cpu_pm,
        mem_percent: 0,
        volume_percent: volume_pm,
        net_up_bps: 0,
        net_down_bps: 0,
        caps_lock: false,
        num_lock: false,
        scroll_lock: false,
    }
}

fn widget(kind: WidgetKind, pos: Position) -> Widget {
    Widget {
        kind,
        enabled: true,
        refresh_rate_ms: None,
        position: pos,
        interface: None,
        show_icon: false,
        bar: None,
        graph: None,
    }
}

fn config(width: usize, height: usize, widgets: Vec<Widget>) -> DashboardConfig {
    DashboardConfig {
        config_name: String::new(),
        refresh_rate_ms: 33,
        display: Display { width, height, background: 0 },
        widgets,
    }
}

fn bit(frame: &[u8], w: usize, x: usize, y: usize) -> bool {
    let k = y * w + x;
    (frame[k / 8] >> (7 - (k % 8))) & 1 == 1
}

fn column_fill(frame: &[u8], w: usize, h: usize, x: usize) -> usize {
    (0..h).filter(|&y| bit(frame, w, x, y)).count()
}

fn cpu_config(percent_pm: u32) -> (DashboardConfig, MetricsSample) {
    let mut w = widget(WidgetKind::Cpu, Position { x: 0, y: 0, w: 24, h: 40 });
    w.bar = Some(BarConfig { direction: BarDirection::Vertical, border: false });
    (config(64, 40, vec![w]), sample(percent_pm, 0))
}

#[test]
fn bar_fill_is_zero_at_zero_and_full_at_hundred() {
    let (cfg, s) = cpu_config(0);
    let mut r = DashboardRenderer::new(64, 40);
    let frame = r.render(&cfg, &s, 2100);
    // Column 0 is bar fill only: the chip icon sits in columns 8..16.
    assert_eq!(column_fill(&frame, 64, 40, 0), 0);

    let (cfg, s) = cpu_config(10000);
    let mut r = DashboardRenderer::new(64, 40);
    let frame = r.render(&cfg, &s, 2100);
    assert_eq!(column_fill(&frame, 64, 40, 0), 40);
}

#[test]
fn bar_fill_rounds_to_nearest_pixel() {
    // 47% of 40 inner pixels = 18.8, rounded to 19.
    let (cfg, s) = cpu_config(4700);
    let mut r = DashboardRenderer::new(64, 40);
    let frame = r.render(&cfg, &s, 2100);
    assert_eq!(column_fill(&frame, 64, 40, 0), 19);
}

#[test]
fn bar_fill_is_monotone_in_percent() {
    let mut last = 0;
    for pct in 0..=100u32 {
        let (cfg, s) = cpu_config(pct * 100);
        let mut r = DashboardRenderer::new(64, 40);
        let frame = r.render(&cfg, &s, 2100);
        let fill = column_fill(&frame, 64, 40, 0);
        assert!(fill >= last, "fill shrank between {} and {}%", pct - 1, pct);
        last = fill;
    }
    assert_eq!(last, 40);
}

#[test]
fn vertical_bar_fills_from_the_bottom() {
    let (cfg, s) = cpu_config(5000);
    let mut r = DashboardRenderer::new(64, 40);
    let frame = r.render(&cfg, &s, 2100);
    assert!(!bit(&frame, 64, 0, 0));
    assert!(bit(&frame, 64, 0, 39));
    assert!(bit(&frame, 64, 0, 20));
    assert!(!bit(&frame, 64, 0, 19));
}

#[test]
fn boot_frame_ignores_metrics_and_widgets() {
    let (cfg, quiet) = cpu_config(0);
    let busy = sample(10000, 10000);
    let mut r1 = DashboardRenderer::new(64, 40);
    let mut r2 = DashboardRenderer::new(64, 40);
    let f1 = r1.render(&cfg, &quiet, 0);
    let f2 = r2.render(&cfg, &busy, 0);
    assert_eq!(f1, f2, "boot frames must not depend on the snapshot");
    let empty_cfg = config(64, 40, Vec::new());
    let mut r3 = DashboardRenderer::new(64, 40);
    let f3 = r3.render(&empty_cfg, &quiet, 700);
    let mut r4 = DashboardRenderer::new(64, 40);
    let f4 = r4.render(&cfg, &busy, 700);
    assert_eq!(f3, f4, "boot frames must not depend on the widgets");
}

#[test]
fn boot_cutover_is_hard_and_leaves_no_residue() {
    let (cfg, s) = cpu_config(10000);
    // A renderer that went through boot frames...
    let mut seasoned = DashboardRenderer::new(64, 40);
    seasoned.render(&cfg, &s, 0);
    seasoned.render(&cfg, &s, 1000);
    seasoned.render(&cfg, &s, 2099);
    let after = seasoned.render(&cfg, &s, 2100);
    // ...renders the same first widget frame as a fresh one.
    let mut fresh = DashboardRenderer::new(64, 40);
    let first = fresh.render(&cfg, &s, 2100);
    assert_eq!(after, first);
    // And the boot frame differs from the widget frame.
    let mut booting = DashboardRenderer::new(64, 40);
    let boot_frame = booting.render(&cfg, &s, 1000);
    assert_ne!(boot_frame, first);
}

#[test]
fn keyboard_toggle_settles_into_static_bitmap() {
    let kb = widget(WidgetKind::Keyboard, Position { x: 0, y: 0, w: 64, h: 12 });
    let cfg = config(64, 40, vec![kb]);
    let mut on = sample(0, 0);
    on.caps_lock = true;
    let mut r = DashboardRenderer::new(64, 40);
    // Let the settle-in transitions and the caps transition finish.
    let mut last = r.render(&cfg, &on, 2100);
    for _ in 0..8 {
        last = r.render(&cfg, &on, 2100);
    }
    let settled = r.render(&cfg, &on, 2100);
    assert_eq!(settled, last, "icon must be static once settled");
    // Solid up arrow at (34, 1): its full-width row sits at y = 5.
    for dx in 0..9 {
        assert!(bit(&settled, 64, 34 + dx, 5), "arrow row pixel {dx}");
    }
    // Tip of the arrow.
    assert!(bit(&settled, 64, 34 + 4, 1));
}

#[test]
fn volume_counter_settles_on_target_through_render() {
    let mut vol = widget(WidgetKind::Volume, Position { x: 0, y: 0, w: 60, h: 16 });
    vol.bar = Some(BarConfig { direction: BarDirection::Horizontal, border: true });
    let cfg = config(64, 40, vec![vol]);
    let s = sample(0, 4700);
    let mut r = DashboardRenderer::new(64, 40);
    let mut frames = Vec::new();
    for _ in 0..600 {
        frames.push(r.render(&cfg, &s, 2100));
    }
    // Once the counter settles on 47 the readout stops changing.
    let n = frames.len();
    assert_eq!(frames[n - 1], frames[n - 2], "volume readout should settle");
}

#[test]
fn memory_graph_renders_history_dither() {
    let mut mem = widget(WidgetKind::Memory, Position { x: 0, y: 0, w: 32, h: 20 });
    mem.graph = Some(GraphConfig { history: 8 });
    let cfg = config(64, 40, vec![mem]);
    let s = sample(0, 0);
    let mut full = s;
    full.mem_percent = 10000;
    let mut r = DashboardRenderer::new(64, 40);
    r.render(&cfg, &full, 2100);
    let frame = r.render(&cfg, &full, 2100);
    // With two 100% samples the line sits on the top row of the widget and
    // the dither fills below it.
    assert!(bit(&frame, 64, 0, 0));
    assert!(bit(&frame, 64, 2, 0));
    // Checkerboard: (x + y) even pixels below the line are set.
    assert!(bit(&frame, 64, 1, 1));
    assert!(bit(&frame, 64, 0, 2));
    // Odd-parity pixels below the line, away from the readout, stay clear.
    assert!(!bit(&frame, 64, 0, 3));
}

#[test]
fn network_readout_aligns_unit_letter() {
    let net = widget(WidgetKind::Network, Position { x: 0, y: 0, w: 40, h: 20 });
    let cfg = config(64, 40, vec![net]);
    let mut s = sample(0, 0);
    s.net_up_bps = 2560; // "2.5K"
    s.net_down_bps = 0; // "0B"
    let mut r = DashboardRenderer::new(64, 40);
    let frame = r.render(&cfg, &s, 2100);
    // The 'U' glyph starts at (1, 1); its left column is set for rows 0..4.
    for row in 0..4 {
        assert!(bit(&frame, 64, 1, 1 + row), "U column row {row}");
    }
    // Unit letters are drawn right-aligned at x = 35 on both lines.
    let unit_cols: Vec<usize> = (35..39).collect();
    assert!(unit_cols.iter().any(|&x| bit(&frame, 64, x, 1)));
    assert!(unit_cols.iter().any(|&x| bit(&frame, 64, x, 10)));
}

#[test]
fn malformed_widgets_are_skipped_silently() {
    let bad = widget(WidgetKind::Cpu, Position { x: 0, y: 0, w: 0, h: 40 });
    let bad2 = widget(WidgetKind::Cpu, Position { x: 5, y: 5, w: -3, h: 4 });
    let unknown = widget(WidgetKind::Other, Position { x: 0, y: 0, w: 10, h: 10 });
    let mut disabled = widget(WidgetKind::Cpu, Position { x: 0, y: 0, w: 24, h: 40 });
    disabled.enabled = false;
    let cfg = config(64, 40, vec![bad, bad2, unknown, disabled]);
    let empty = config(64, 40, Vec::new());
    let s = sample(10000, 0);
    let mut r1 = DashboardRenderer::new(64, 40);
    let mut r2 = DashboardRenderer::new(64, 40);
    assert_eq!(r1.render(&cfg, &s, 2100), r2.render(&empty, &s, 2100));
}

#[test]
fn render_emits_one_bit_per_pixel() {
    let cfg = config(128, 40, Vec::new());
    let s = sample(0, 0);
    let mut r = DashboardRenderer::new(128, 40);
    assert_eq!(r.render(&cfg, &s, 2100).len(), 640);
    let cfg2 = config(10, 3, Vec::new());
    let mut r2 = DashboardRenderer::new(10, 3);
    assert_eq!(r2.render(&cfg2, &s, 2100).len(), 4);
}

#[test]
fn human_speed_selects_units_and_decimals() {
    assert_eq!(human_speed(0), "0B");
    assert_eq!(human_speed(512), "512B");
    assert_eq!(human_speed(1023), "1023B");
    assert_eq!(human_speed(1024), "1.0K");
    assert_eq!(human_speed(1536), "1.5K");
    assert_eq!(human_speed(2560), "2.5K");
    assert_eq!(human_speed(1048576), "1.0M");
    assert_eq!(human_speed(1000000000), "953.7M");
    assert_eq!(human_speed(2147483648), "2.0G");
    assert_eq!(human_speed(u64::MAX), "17179869184.0G");
}

#[test]
fn volume_digits_right_aligns_and_clamps() {
    assert_eq!(volume_digits(5), [' ', ' ', '5']);
    assert_eq!(volume_digits(47), [' ', '4', '7']);
    assert_eq!(volume_digits(100), ['1', '0', '0']);
    assert_eq!(volume_digits(150), ['1', '0', '0']);
    assert_eq!(volume_digits(-3), [' ', ' ', '0']);
    assert_eq!(volume_digits(0), [' ', ' ', '0']);
}

#[test]
fn frame_packet_frames_exactly_640_bytes() {
    let frame = vec![0xABu8; 640];
    let packet = frame_packet(&frame).unwrap();
    assert_eq!(packet.len(), 642);
    assert_eq!(packet[0], 0x61);
    assert!(packet[1..641].iter().all(|&b| b == 0xAB));
    assert_eq!(packet[641], 0);
}

#[test]
fn frame_packet_rejects_other_sizes() {
    let short = vec![0u8; 639];
    assert_eq!(frame_packet(&short), Err(FrameError::WrongSize(639)));
    let long = vec![0u8; 641];
    assert_eq!(frame_packet(&long), Err(FrameError::WrongSize(641)));
    let empty: Vec<u8> = Vec::new();
    assert_eq!(frame_packet(&empty), Err(FrameError::WrongSize(0)));
}

#[test]
fn fixed_point_sine_hits_cardinal_angles() {
    assert_eq!(sin_fp(0), 0);
    assert_eq!(sin_fp(90), 1024);
    assert_eq!(sin_fp(180), 0);
    assert_eq!(sin_fp(270), -1024);
    assert_eq!(cos_fp(0), 1024);
    assert_eq!(cos_fp(180), -1024);
    // Within range everywhere.
    for d in 0..360 {
        let s = sin_fp(d);
        assert!((-1024..=1024).contains(&s));
    }
}

#[test]
fn dissolve_is_deterministic_and_thresholded() {
    // Zero threshold keeps every pixel.
    for seed in 0..500 {
        assert!(dissolve_keep(seed, 0));
    }
    // Seed 1 hashes to noise 54: kept below 5400, dropped at and above.
    assert!(dissolve_keep(1, 5399));
    assert!(!dissolve_keep(1, 5400));
    // Same seed, same threshold, same outcome.
    assert_eq!(dissolve_keep(123, 777), dissolve_keep(123, 777));
}

#[test]
fn preferred_interface_comes_from_first_enabled_network_widget() {
    let mut disabled = widget(WidgetKind::Network, Position { x: 0, y: 0, w: 10, h: 10 });
    disabled.enabled = false;
    disabled.interface = Some(String::from("wlan9"));
    let mut first = widget(WidgetKind::Network, Position { x: 0, y: 0, w: 10, h: 10 });
    first.interface = Some(String::from("eth0"));
    let mut second = widget(WidgetKind::Network, Position { x: 0, y: 0, w: 10, h: 10 });
    second.interface = Some(String::from("eth1"));
    let cfg = config(64, 40, vec![disabled, first, second]);
    assert_eq!(cfg.preferred_network_interface(), Some(String::from("eth0")));

    let none_cfg = config(64, 40, vec![widget(WidgetKind::Cpu, Position { x: 0, y: 0, w: 1, h: 1 })]);
    assert_eq!(none_cfg.preferred_network_interface(), None);
}

#[test]
fn widget_refresh_rate_takes_the_minimum() {
    let mut a = widget(WidgetKind::Cpu, Position { x: 0, y: 0, w: 1, h: 1 });
    a.refresh_rate_ms = Some(120);
    let mut b = widget(WidgetKind::Cpu, Position { x: 0, y: 0, w: 1, h: 1 });
    b.refresh_rate_ms = Some(80);
    let mut c = widget(WidgetKind::Cpu, Position { x: 0, y: 0, w: 1, h: 1 });
    c.refresh_rate_ms = Some(50);
    c.enabled = false;
    let d = widget(WidgetKind::Memory, Position { x: 0, y: 0, w: 1, h: 1 });
    let cfg = config(64, 40, vec![a, b, c, d]);
    assert_eq!(cfg.widget_refresh_rate_ms(WidgetKind::Cpu), Some(80));
    assert_eq!(cfg.widget_refresh_rate_ms(WidgetKind::Memory), None);
    assert_eq!(cfg.widget_refresh_rate_ms(WidgetKind::Volume), None);
}

#[test]
fn metric_intervals_default_values() {
    let d = MetricIntervals::default();
    assert_eq!(d.cpu_ms, 0);
    assert_eq!(d.memory_ms, 0);
    assert_eq!(d.volume_ms, 100);
    assert_eq!(d.audio_ms, 25);
    assert_eq!(d.network_ms, 1000);
    assert_eq!(d.keyboard_ms, 50);
}

#[test]
fn parse_hid_id_reads_vendor_and_product() {
    let uevent = "DRIVER=hid-generic\nHID_ID=0003:00001038:0000161C\nHID_NAME=Keyboard\n";
    assert_eq!(parse_hid_id(uevent), Some((0x1038, 0x161c)));
}

#[test]
fn parse_hid_id_skips_unrelated_lines_and_handles_crlf() {
    let uevent = "FOO=bar\r\nHID_ID=0003:0000AbCd:00000001\r\n";
    assert_eq!(parse_hid_id(uevent), Some((0xabcd, 0x0001)));
}

#[test]
fn parse_hid_id_needs_three_fields() {
    assert_eq!(parse_hid_id("HID_ID=0003:00001038\n"), None);
    assert_eq!(parse_hid_id("HID_ID=0003\n"), None);
    assert_eq!(parse_hid_id(""), None);
    assert_eq!(parse_hid_id("HID_NAME=x\n"), None);
}

#[test]
fn parse_hid_id_fails_on_bad_hex() {
    // A usable line with an unparsable field fails the whole parse.
    assert_eq!(parse_hid_id("HID_ID=0003:zzzz:0001\n"), None);
    // Values past sixteen bits overflow.
    assert_eq!(parse_hid_id("HID_ID=0003:10000:0001\n"), None);
    // An empty field does not parse.
    assert_eq!(parse_hid_id("HID_ID=0003::0001\n"), None);
}

#[test]
fn parse_hid_id_takes_the_first_usable_line() {
    let uevent = "HID_ID=0003:1:2\nHID_ID=0003:3:4\n";
    assert_eq!(parse_hid_id(uevent), Some((1, 2)));
}

#[test]
fn interface_parses_usb_style_path_segments() {
    let path = "/sys/devices/pci0000:00/0000:00:14.0/usb1/1-3/1-3:1.1/0003:1038:161C.0006/hidraw/hidraw2";
    assert_eq!(interface_from_path(path), Some(String::from("mi_01")));
    // Two-digit interface numbers are not padded further.
    assert_eq!(interface_from_path("x/1-3:1.12/y"), Some(String::from("mi_12")));
}

#[test]
fn interface_requires_dash_and_dot() {
    // A colon segment without a dash on the left is not an interface.
    assert_eq!(interface_from_path("/pci0000:00/0000:00:14.0"), None);
    // A dashed segment without a dot after the colon is not one either.
    assert_eq!(interface_from_path("/1-3:1/"), None);
    assert_eq!(interface_from_path(""), None);
    // An unparsable interface number fails the whole lookup.
    assert_eq!(interface_from_path("/1-3:1.zz/"), None);
    assert_eq!(interface_from_path("/1-3:1.300/"), None);
}

#[test]
fn padlock_shows_filled_body_with_keyhole_when_locked() {
    let kb = widget(WidgetKind::Keyboard, Position { x: 0, y: 0, w: 64, h: 12 });
    let cfg = config(64, 40, vec![kb]);
    let mut on = sample(0, 0);
    on.num_lock = true;
    let mut r = DashboardRenderer::new(64, 40);
    // Let the settle-in transition finish.
    let mut frame = r.render(&cfg, &on, 2100);
    for _ in 0..8 {
        frame = r.render(&cfg, &on, 2100);
    }
    // The padlock sits at (44, 1): body rows 7..12, columns 45..52, with the
    // keyhole pixel cleared in its center, and a closed shackle above.
    assert!(bit(&frame, 64, 45, 7), "body corner");
    assert!(bit(&frame, 64, 51, 11), "body corner");
    assert!(!bit(&frame, 64, 48, 9), "keyhole must stay dark");
    assert!(bit(&frame, 64, 46, 5), "left shackle side");
    assert!(bit(&frame, 64, 50, 5), "right shackle side (closed)");
    assert!(bit(&frame, 64, 48, 3), "shackle top arc");
}

#[test]
fn padlock_opens_shackle_when_unlocked() {
    let kb = widget(WidgetKind::Keyboard, Position { x: 0, y: 0, w: 64, h: 12 });
    let cfg = config(64, 40, vec![kb]);
    let off = sample(0, 0);
    let mut r = DashboardRenderer::new(64, 40);
    let mut frame = r.render(&cfg, &off, 2100);
    for _ in 0..8 {
        frame = r.render(&cfg, &off, 2100);
    }
    // Open: the body is a border (center clear), the top arc lifts three
    // pixels to row 0, and the right side is only a stub.
    assert!(bit(&frame, 64, 45, 7), "body border");
    assert!(!bit(&frame, 64, 48, 9), "body center clear");
    assert!(bit(&frame, 64, 48, 0), "lifted top arc");
    assert!(!bit(&frame, 64, 50, 5), "right side absent mid-height");
}
