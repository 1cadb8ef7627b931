use loggerheads::filewatch::{
    event_path_label, file_event_action, file_watch_error_details, file_watcher_started_message, FileEventKind,
};
use loggerheads::process::{process_command_line, process_start_label, process_user_label};

#[test]
fn command_line_joins_arguments() {
    let cmd = vec!["/usr/bin/python3".to_string(), "-m".to_string(), "http.server".to_string()];
    assert_eq!(process_command_line(&"python3".to_string(), &cmd), "/usr/bin/python3 -m http.server");
    assert_eq!(process_command_line(&"kworker".to_string(), &Vec::new()), "kworker");
}

#[test]
fn user_label_falls_back_to_id() {
    assert_eq!(process_user_label(Some(1000), Some("alice".to_string())), "alice");
    assert_eq!(process_user_label(Some(1000), None), "uid:Uid(1000)");
    assert_eq!(process_user_label(None, Some("ignored".to_string())), "<unknown>");
}

#[test]
fn start_label_is_a_utc_date() {
    assert_eq!(process_start_label(0), "1970-01-01 00:00:00");
    assert_eq!(process_start_label(86_399), "1970-01-01 23:59:59");
    assert_eq!(process_start_label(u64::MAX), "1969-12-31 23:59:59");
    assert_eq!(process_start_label(i64::MAX as u64), "<unknown>");
}

#[test]
fn file_event_kinds() {
    assert_eq!(file_event_action(FileEventKind::Create), Some("created"));
    assert_eq!(file_event_action(FileEventKind::Modify), Some("modified"));
    assert_eq!(file_event_action(FileEventKind::Remove), Some("deleted"));
    assert_eq!(file_event_action(FileEventKind::Access), Some("accessed"));
    assert_eq!(file_event_action(FileEventKind::Any), None);
    assert_eq!(file_event_action(FileEventKind::Other), None);
}

#[test]
fn file_event_texts() {
    assert_eq!(event_path_label(&vec!["/tmp/a".to_string(), "/tmp/b".to_string()]), "/tmp/a");
    assert_eq!(event_path_label(&Vec::new()), "<unknown path>");
    assert_eq!(file_watch_error_details(&"boom".to_string()), "File watcher error: boom");
    assert_eq!(
        file_watcher_started_message(&"T".to_string(), &"/tmp/my \"dir\"".to_string()),
        "[T] Filewatcher started, watching \"/tmp/my \\\"dir\\\"\" directory."
    );
}

#[test]
fn watched_directory_is_quoted_as_a_path() {
    assert_eq!(
        file_watcher_started_message(&"T".to_string(), &"C:\\logs\tnew".to_string()),
        "[T] Filewatcher started, watching \"C:\\\\logs\\tnew\" directory."
    );
    assert_eq!(
        file_watcher_started_message(&"T".to_string(), &".".to_string()),
        "[T] Filewatcher started, watching \".\" directory."
    );
}
