use post::errors::{ClapIoError, Failure};
use post::handlers::{
    handle_clear, handle_delete, handle_pop, handle_post, handle_view, handle_yank, Report,
};
use post::location::{file_path_in, get_dir_path, get_file_path, handle_backup, Backup};

fn five() -> String {
    "0|a\n1|b\n2|c??note\n3|d\n4|e".to_string()
}

fn lines(report: &Report) -> Vec<&str> {
    report.lines.iter().map(|l| l.as_str()).collect()
}

#[test]
fn post_confirms_and_rewrites() {
    let report = handle_post("", "buy milk", None).unwrap();
    assert_eq!(lines(&report), vec!["added note to position \"1\""]);
    assert_eq!(report.rewrite, Some("0|buy milk".to_string()));
    let report = handle_post("0|buy milk", "call mom", Some("important")).unwrap();
    assert_eq!(lines(&report), vec!["added note to position \"2\""]);
    assert_eq!(report.rewrite, Some("0|buy milk\n1|call mom??important".to_string()));
}

#[test]
fn post_fails_on_a_malformed_file() {
    assert_eq!(handle_post("broken", "x", None).unwrap_err().kind, Failure::Decode);
}

#[test]
fn view_without_a_range_shows_the_newest_ten() {
    let text = (0..12).map(|i| format!("{i}|n{i}")).collect::<Vec<_>>().join("\n");
    let report = handle_view(&text, &None, &None, &None, &false, &false).unwrap();
    assert_eq!(
        lines(&report),
        vec![
            "11 | n11", "10 | n10", "9 | n9", "8 | n8", "7 | n7", "6 | n6", "5 | n5", "4 | n4",
            "3 | n3", "2 | n2"
        ]
    );
    assert_eq!(report.rewrite, None);
}

#[test]
fn view_prefers_all_then_top_then_tail_then_index() {
    let report = handle_view(&five(), &Some(1), &Some(1), &Some(1), &true, &true).unwrap();
    assert_eq!(lines(&report), vec!["a", "b", "c", "d", "e"]);
    let report = handle_view(&five(), &Some(2), &Some(1), &Some(1), &false, &true).unwrap();
    assert_eq!(lines(&report), vec!["e", "d"]);
    let report = handle_view(&five(), &None, &Some(2), &Some(3), &false, &true).unwrap();
    assert_eq!(lines(&report), vec!["a", "b"]);
    let report = handle_view(&five(), &None, &None, &Some(2), &false, &false).unwrap();
    assert_eq!(lines(&report), vec!["2 | c ?? note"]);
}

#[test]
fn view_of_an_empty_store_says_so() {
    let report = handle_view("", &None, &None, &None, &false, &false).unwrap();
    assert_eq!(lines(&report), vec!["(no notes to view! add one first with \"post\")"]);
    let report = handle_view("", &None, &None, &None, &true, &true).unwrap();
    assert_eq!(lines(&report), vec!["(no notes to view! add one first with \"post\")"]);
    let error = handle_view("", &None, &None, &Some(0), &false, &false).unwrap_err();
    assert_eq!(error.kind, Failure::IndexOutOfRange);
}

#[test]
fn view_of_no_record_shows_nothing() {
    let report = handle_view(&five(), &Some(0), &None, &None, &false, &false).unwrap();
    assert_eq!(lines(&report), Vec::<&str>::new());
}

#[test]
fn view_by_index_out_of_range_is_refused() {
    let error = handle_view(&five(), &None, &None, &Some(5), &false, &false).unwrap_err();
    assert_eq!(error.kind, Failure::IndexOutOfRange);
    assert_eq!(error.desc, "index 5 is outside of bounds of notes available (5).");
}

#[test]
fn clear_all_goes_first_and_never_fails() {
    let report = handle_clear("broken\n0|a", &true, &Some(1), &None).unwrap();
    assert_eq!(lines(&report), vec!["cleared 2 notes"]);
    assert_eq!(report.rewrite, Some(String::new()));
    let report = handle_clear("", &true, &None, &None).unwrap();
    assert_eq!(lines(&report), vec!["(no notes to view! add one first with \"post\")"]);
    assert_eq!(report.rewrite, None);
}

#[test]
fn clear_takes_from_either_end() {
    let report = handle_clear(&five(), &false, &Some(2), &Some(1)).unwrap();
    assert_eq!(lines(&report), vec!["cleared 2 notes"]);
    assert_eq!(report.rewrite, Some("0|a\n1|b\n2|c??note".to_string()));
    let report = handle_clear(&five(), &false, &None, &Some(9)).unwrap();
    assert_eq!(lines(&report), vec!["cleared 5 notes"]);
    assert_eq!(report.rewrite, Some(String::new()));
    let report = handle_clear(&five(), &false, &None, &Some(3)).unwrap();
    assert_eq!(report.rewrite, Some("0|d\n1|e".to_string()));
    assert_eq!(handle_clear("x", &false, &None, &Some(3)).unwrap_err().kind, Failure::Decode);
}

#[test]
fn delete_confirms_and_rewrites() {
    let report = handle_delete(&five(), &2).unwrap();
    assert_eq!(lines(&report), vec!["deleted entry at index 2"]);
    assert_eq!(report.rewrite, Some("0|a\n1|b\n2|d\n3|e".to_string()));
    assert_eq!(handle_delete(&five(), &5).unwrap_err().kind, Failure::IndexOutOfRange);
}

#[test]
fn yank_confirms_and_writes_nothing() {
    let report = handle_yank(&five(), &4, &Ok(())).unwrap();
    assert_eq!(lines(&report), vec!["yanked entry at index 4"]);
    assert_eq!(report.rewrite, None);
    let error = handle_yank(&five(), &4, &Err("busy".to_string())).unwrap_err();
    assert_eq!(error, ClapIoError::clipboard("busy"));
    assert_eq!(handle_yank(&five(), &5, &Ok(())).unwrap_err().kind, Failure::IndexOutOfRange);
}

#[test]
fn pop_confirms_both_halves() {
    let report = handle_pop(&five(), &0, &Ok(())).unwrap();
    assert_eq!(lines(&report), vec!["yanked entry at index 0", "deleted entry at index 0"]);
    assert_eq!(report.rewrite, Some("0|b\n1|c??note\n2|d\n3|e".to_string()));
}

#[test]
fn pop_stops_at_a_failed_clipboard() {
    let error = handle_pop(&five(), &0, &Err("busy".to_string())).unwrap_err();
    assert_eq!(error.kind, Failure::ClipboardUnavailable);
    assert_eq!(error.desc, "Copying note text to clipboard failed: busy");
}

#[test]
fn failures_are_built_by_kind() {
    assert_eq!(ClapIoError::new(Failure::Decode, "bad".to_string()).kind, Failure::Decode);
    assert_eq!(
        ClapIoError::from("disk".to_string()),
        ClapIoError { kind: Failure::Io, desc: "disk".to_string() }
    );
    assert_eq!(ClapIoError::out_of_range("x".to_string()).kind, Failure::IndexOutOfRange);
    assert_eq!(ClapIoError::destination("/nowhere").kind, Failure::DestinationInvalid);
    assert_eq!(
        ClapIoError::destination("/nowhere").desc,
        "backup destination is not an existing directory: /nowhere"
    );
}

#[test]
fn joins_directory_and_file() {
    assert_eq!(file_path_in("/home/u/.config/post/", "notes.txt"), "/home/u/.config/post/notes.txt");
    assert_eq!(file_path_in("/tmp", "notes.txt"), "/tmp/notes.txt");
    assert_eq!(file_path_in("", "notes.txt"), "notes.txt");
}

#[test]
fn the_store_lies_under_the_home_directory() {
    let dir = get_dir_path();
    assert!(dir.ends_with("/.config/post/"));
    assert_ne!(dir, "~/.config/post/");
    assert_eq!(get_file_path(), format!("{dir}notes.txt"));
}

#[test]
fn backup_without_a_store_does_nothing() {
    let plan = handle_backup(false, false, "/nowhere", "2024", "notes.txt").unwrap();
    assert_eq!(
        plan,
        Backup {
            line: "(no notes to back up! add one first with \"post\")".to_string(),
            target: None
        }
    );
}

#[test]
fn backup_needs_a_directory() {
    let error = handle_backup(true, false, "/nowhere", "2024", "notes.txt").unwrap_err();
    assert_eq!(error.kind, Failure::DestinationInvalid);
}

#[test]
fn backup_names_its_target() {
    let plan = handle_backup(true, true, "/mnt/usb", "2024-05-01T10:00:00", "notes.txt").unwrap();
    assert_eq!(plan.target, Some("/mnt/usb/backup-2024-05-01T10:00:00-notes.txt".to_string()));
    assert_eq!(plan.line, "backed up notes to /mnt/usb/backup-2024-05-01T10:00:00-notes.txt");
}
