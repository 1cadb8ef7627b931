use loggerheads::config::{default_log_dir, CliArgs, ConfigStruct, PartialConfig};
use loggerheads::process::process_start_label;
use loggerheads::render::{current_timestamp, default_root_dir, format_log_event};
use loggerheads::text::{join_strings, push_decimal, push_hex2};
use loggerheads::types::{EventType, LogEvent, LogFormat, LogLevel};

fn config(format: LogFormat) -> ConfigStruct {
    ConfigStruct {
        log_dir: "logs".to_string(),
        log_format: format,
        watcher_dir: "/tmp".to_string(),
        interval: 10,
        cpu_threshold_bits: 10.0f32.to_bits(),
        network_interface: Some("eth0".to_string()),
    }
}

fn event(level: LogLevel, kind: EventType, details: &str) -> LogEvent {
    LogEvent {
        level,
        event_type: kind,
        timestamp: "2024-05-01 12:00:00".to_string(),
        details: details.to_string(),
    }
}

#[test]
fn plaintext_event_block() {
    let text = format_log_event(&config(LogFormat::Plaintext), &event(LogLevel::WARN, EventType::ProcessWatch, "PID: 1"));
    assert_eq!(text, "Log: WARN\nTime: 2024-05-01 12:00:00\nType: ProcessWatch\nDetails: PID: 1\n");
}

#[test]
fn json_event_object() {
    let text = format_log_event(&config(LogFormat::Json), &event(LogLevel::INFO, EventType::NetworkWatch, "NEW TCP CONNECTION"));
    assert_eq!(
        text,
        "{\"level\":\"INFO\",\"event_type\":\"NetworkWatch\",\"timestamp\":\"2024-05-01 12:00:00\",\"details\":\"NEW TCP CONNECTION\"}"
    );
}

#[test]
fn json_event_escapes_details() {
    let text = format_log_event(&config(LogFormat::Json), &event(LogLevel::ERROR, EventType::FileWatch, "a \"b\"\nc\\d"));
    assert_eq!(
        text,
        "{\"level\":\"ERROR\",\"event_type\":\"FileWatch\",\"timestamp\":\"2024-05-01 12:00:00\",\"details\":\"a \\\"b\\\"\\nc\\\\d\"}"
    );
    let value: serde_json::Value = serde_json::from_str(&text).unwrap();
    assert_eq!(value["details"], "a \"b\"\nc\\d");
    assert_eq!(value["level"], "ERROR");
    assert_eq!(value["event_type"], "FileWatch");
    assert_eq!(value["timestamp"], "2024-05-01 12:00:00");
}

#[test]
fn every_level_and_kind_is_named() {
    let cfg = config(LogFormat::Plaintext);
    assert!(format_log_event(&cfg, &event(LogLevel::DEBUG, EventType::FileWatch, "")).starts_with("Log: DEBUG\n"));
    assert!(format_log_event(&cfg, &event(LogLevel::ERROR, EventType::FileWatch, "")).contains("Type: FileWatch\n"));
    assert!(format_log_event(&cfg, &event(LogLevel::INFO, EventType::NetworkWatch, "")).contains("Type: NetworkWatch\n"));
}

#[test]
fn unix_timestamps_are_formatted_in_utc() {
    assert_eq!(process_start_label(1_700_000_000), "2023-11-14 22:13:20");
    assert_eq!(process_start_label(951_782_400), "2000-02-29 00:00:00");
}

fn has_clock_layout(t: &str) -> bool {
    t.len() == 19
        && t.char_indices().all(|(i, c)| match i {
            4 | 7 => c == '-',
            10 => c == ' ',
            13 | 16 => c == ':',
            _ => c.is_ascii_digit(),
        })
}

#[test]
fn current_timestamp_has_date_and_time() {
    let ts = current_timestamp();
    assert!(has_clock_layout(&ts), "{:?}", ts);
}

#[test]
fn four_digit_years_have_the_clock_layout() {
    let first = process_start_label((-62_167_219_200i64) as u64);
    assert_eq!(first, "0000-01-01 00:00:00");
    let last = process_start_label(253_402_300_799);
    assert_eq!(last, "9999-12-31 23:59:59");
    assert!(has_clock_layout(&first) && has_clock_layout(&last));
    assert_eq!(&process_start_label(45_296)[11..], "12:34:56");
    assert_eq!(process_start_label(253_402_300_800), "+10000-01-01 00:00:00");
}

#[test]
fn default_directories() {
    assert_eq!(default_root_dir(true), "./");
    assert_eq!(default_root_dir(false), "./src/platform");
    assert_eq!(default_log_dir(), "logs");
}

#[test]
fn config_combines_file_and_command_line() {
    let cli = CliArgs {
        log_format: LogFormat::Json,
        watcher_dir: "/srv".to_string(),
        interval: 5,
        cpu_threshold_bits: 30.0f32.to_bits(),
        interface: "wlan0".to_string(),
    };
    let cfg = ConfigStruct::load(&cli, PartialConfig { log_dir: "/var/log/lh".to_string() });
    assert_eq!(cfg.log_dir, "/var/log/lh");
    assert_eq!(cfg.log_format, LogFormat::Json);
    assert_eq!(cfg.watcher_dir, "/srv");
    assert_eq!(cfg.interval, 5);
    assert_eq!(f32::from_bits(cfg.cpu_threshold_bits), 30.0);
    assert_eq!(cfg.network_interface, Some("wlan0".to_string()));
}

#[test]
fn decimal_and_hex_digits() {
    let mut s = String::new();
    push_decimal(&mut s, 0);
    s.push(' ');
    push_decimal(&mut s, 1234567890);
    s.push(' ');
    push_decimal(&mut s, u64::MAX);
    assert_eq!(s, format!("0 1234567890 {}", u64::MAX));
    let mut h = String::new();
    push_hex2(&mut h, 0x0a);
    push_hex2(&mut h, 0xff);
    push_hex2(&mut h, 0);
    assert_eq!(h, "0aff00");
}

#[test]
fn strings_are_joined_with_separators() {
    let parts = vec!["a".to_string(), "bc".to_string(), "".to_string()];
    assert_eq!(join_strings(&parts, ", "), "a, bc, ");
    assert_eq!(join_strings(&Vec::new(), "\n"), "");
    assert_eq!(join_strings(&vec!["x".to_string()], "\n"), "x");
}

#[test]
fn json_event_escapes_control_characters() {
    let text = format_log_event(&config(LogFormat::Json), &event(LogLevel::DEBUG, EventType::ProcessWatch, "\u{1}\t\u{8}\u{c}\r\u{1f}\u{e9}"));
    assert_eq!(
        text,
        "{\"level\":\"DEBUG\",\"event_type\":\"ProcessWatch\",\"timestamp\":\"2024-05-01 12:00:00\",\"details\":\"\\u0001\\t\\b\\f\\r\\u001f\u{e9}\"}"
    );
    let value: serde_json::Value = serde_json::from_str(&text).unwrap();
    assert_eq!(value["details"], "\u{1}\t\u{8}\u{c}\r\u{1f}\u{e9}");
}
