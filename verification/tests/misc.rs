use flowlens::adapter_io::{adapter_io, CounterReading, IoMeter};
use flowlens::commands::{
    autostart_set_unsupported, autostart_status, categorized_rows, command_value,
    elevation_script, granularity_from_name,
};
use flowlens::history::types::{AppUsageRow, Granularity};
use flowlens::software::SoftwareCatalog;
use flowlens::text::{lines_of, string_of, trim_str, words_of};

fn reading(name: &str, rx: u64, tx: u64) -> CounterReading {
    CounterReading { name: name.to_string(), total_rx: rx, total_tx: tx }
}

#[test]
fn io_deltas_between_readings() {
    let mut meter = IoMeter::new();
    let first = meter.snapshot(vec![reading("eth0", 1000, 500), reading("wlan0", 10, 10)]);
    assert_eq!(first.len(), 2);
    assert_eq!(first[0].name, "eth0");
    assert_eq!((first[0].rx_bytes, first[0].tx_bytes), (0, 0));
    let second = meter.snapshot(vec![reading("wlan0", 5000, 20), reading("eth0", 1500, 400)]);
    assert_eq!(second[0].name, "wlan0");
    assert_eq!((second[0].rx_bytes, second[0].tx_bytes), (4990, 10));
    assert_eq!(second[1].name, "eth0");
    assert_eq!((second[1].rx_bytes, second[1].tx_bytes), (500, 0));
    let third = meter.snapshot(vec![reading("eth0", 1500, 400)]);
    assert_eq!(third.len(), 1);
    let fourth = meter.snapshot(vec![reading("wlan0", 6000, 30)]);
    assert_eq!((fourth[0].rx_bytes, fourth[0].tx_bytes), (0, 0));
    let io = adapter_io(&second[0], 4990, 10);
    assert_eq!((io.name.as_str(), io.rx_speed, io.total_rx), ("wlan0", 4990, 5000));
}

#[test]
fn equal_totals_keep_the_reading_order() {
    let mut meter = IoMeter::new();
    let r = meter.snapshot(vec![
        reading("b", 10, 0),
        reading("a", 5, 5),
        reading("big", 100, 0),
        reading("c", 0, 10),
    ]);
    let names: Vec<&str> = r.iter().map(|d| d.name.as_str()).collect();
    assert_eq!(names, vec!["big", "b", "a", "c"]);
}

#[test]
fn history_granularity_names() {
    assert_eq!(granularity_from_name("daily"), Granularity::Daily);
    assert_eq!(granularity_from_name("monthly"), Granularity::Monthly);
    assert_eq!(granularity_from_name("hourly"), Granularity::Hourly);
    assert_eq!(granularity_from_name("Daily"), Granularity::Hourly);
    assert_eq!(granularity_from_name(""), Granularity::Hourly);
}

#[test]
fn app_rows_get_categories() {
    let rows = vec![
        AppUsageRow { app: "node.exe".into(), rx_v4: 1, tx_v4: 2, rx_v6: 3, tx_v6: 4 },
        AppUsageRow { app: "其他".into(), rx_v4: 5, tx_v4: 0, rx_v6: 0, tx_v6: 0 },
    ];
    let out = categorized_rows(rows, &SoftwareCatalog::new());
    assert_eq!(out.len(), 2);
    assert_eq!((out[0].app.as_str(), out[0].category, out[0].tx_v6), ("node.exe", "dev", 4));
    assert_eq!((out[1].app.as_str(), out[1].category), ("其他", "other"));
}

#[test]
fn autostart_values() {
    let exe = "C:\\Program Files\\FlowLens\\flowlens.exe";
    assert_eq!(command_value(exe), "\"C:\\Program Files\\FlowLens\\flowlens.exe\" --minimized");
    assert!(autostart_status(Some(exe), Some(command_value(exe))));
    assert!(!autostart_status(Some(exe), Some("\"D:\\old.exe\" --minimized".to_string())));
    assert!(!autostart_status(None, Some(command_value(exe))));
    assert!(!autostart_status(Some(exe), None));
    assert_eq!(autostart_set_unsupported(), Err("仅支持 Windows".to_string()));
}

#[test]
fn elevation_quotes_the_path() {
    assert_eq!(
        elevation_script("C:\\Users\\O'Neil\\flowlens.exe"),
        "try { Start-Process -FilePath 'C:\\Users\\O''Neil\\flowlens.exe' -Verb RunAs -ErrorAction Stop; exit 0 } catch { exit 1 }"
    );
}

fn texts(v: Vec<Vec<char>>) -> Vec<String> {
    v.iter().map(|w| string_of(w)).collect()
}

#[test]
fn text_splitting_matches_std() {
    for s in ["a\nb\r\n\nc\r", "", "\n", "x\n", "\r\n\r\n", "one"] {
        let chars: Vec<char> = s.chars().collect();
        let std_lines: Vec<String> = s.lines().map(|l| l.to_string()).collect();
        assert_eq!(texts(lines_of(&chars)), std_lines, "{s:?}");
    }
    for s in ["  GET  /x\tHTTP/1.1 ", "", "   ", "a", "a\u{3000}b"] {
        let chars: Vec<char> = s.chars().collect();
        let ascii: Vec<String> = s.split_ascii_whitespace().map(|w| w.to_string()).collect();
        let unicode: Vec<String> = s.split_whitespace().map(|w| w.to_string()).collect();
        assert_eq!(texts(words_of(&chars, false)), ascii, "{s:?}");
        assert_eq!(texts(words_of(&chars, true)), unicode, "{s:?}");
    }
    for s in ["  a b \t", "", "\u{3000}x\u{3000}", "none"] {
        assert_eq!(trim_str(s), s.trim());
    }
}
