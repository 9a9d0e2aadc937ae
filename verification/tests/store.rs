use post::entries::Entries;
use post::entry::Entry;
use post::errors::{check_index_bounds, ClapIoError, Failure};
use post::file_io::{
    add_entry, clear_all_entries, clear_from_end, delete_entry_from_file_by_index,
    find_entry_by_index, get_entries_from_file, handle_pop_entry, overwrite_entries_to_file,
    view_all_entries, view_entries_from_end, view_entry_by_index, yank_note, Cleared, Range,
};
use post::lines::get_lines_from_file;

fn entry(index: u16, content: &str, comment: Option<&str>) -> Entry {
    Entry { index, content: content.to_string(), comment: comment.map(|c| c.to_string()) }
}

fn five() -> String {
    "0|a\n1|b\n2|c\n3|d\n4|e".to_string()
}

fn contents(entries: &[Entry]) -> Vec<String> {
    entries.iter().map(|e| e.content.clone()).collect()
}

fn indices(entries: &[Entry]) -> Vec<u16> {
    entries.iter().map(|e| e.index).collect()
}

#[test]
fn splits_text_into_lines() {
    assert_eq!(get_lines_from_file(""), Vec::<String>::new());
    assert_eq!(get_lines_from_file("a"), vec!["a"]);
    assert_eq!(get_lines_from_file("a\n"), vec!["a"]);
    assert_eq!(get_lines_from_file("a\nb"), vec!["a", "b"]);
    assert_eq!(get_lines_from_file("a\n\nb\n"), vec!["a", "", "b"]);
    assert_eq!(get_lines_from_file("\n"), vec![""]);
}

#[test]
fn a_carriage_return_before_a_line_feed_ends_the_line() {
    assert_eq!(get_lines_from_file("a\r\nb\r\n"), vec!["a", "b"]);
    assert_eq!(get_lines_from_file("a\rb\nc\r"), vec!["a\rb", "c\r"]);
    assert_eq!(get_lines_from_file("a\r\r\n"), vec!["a\r"]);
}

#[test]
fn splits_as_the_standard_library_does() {
    for text in ["", "a", "a\n", "\n\n", "a\r\nb", "a\n\rb\r", "x\r\n\r\n", "é\n✓"] {
        let expected: Vec<String> = text.lines().map(|l| l.to_string()).collect();
        assert_eq!(get_lines_from_file(text), expected);
    }
}

#[test]
fn loads_records_numbered_by_position() {
    let store = get_entries_from_file("7|a\n7|b??c\n0|d").unwrap();
    assert_eq!(
        store.0,
        vec![entry(0, "a", None), entry(1, "b", Some("c")), entry(2, "d", None)]
    );
    assert_eq!(get_entries_from_file("").unwrap().0, Vec::<Entry>::new());
}

#[test]
fn load_fails_on_the_first_malformed_line() {
    let error = get_entries_from_file("0|a\nx|b\nno separator").unwrap_err();
    assert_eq!(error.kind, Failure::Decode);
    assert_eq!(error.desc, "bad index number parse");
    let error = get_entries_from_file("0|a\nno separator\nx|b").unwrap_err();
    assert_eq!(error.kind, Failure::Decode);
    assert_eq!(error.desc, "line is not in valid format, ensure config file is correct");
    let error = get_entries_from_file("0|a\n\n1|b").unwrap_err();
    assert_eq!(error.kind, Failure::Decode);
}

#[test]
fn load_refuses_more_records_than_indices() {
    let full = vec!["0|x"; 65536].join("\n");
    assert_eq!(get_entries_from_file(&full).unwrap().len(), 65536);
    let over = vec!["0|x"; 65537].join("\n");
    let error = get_entries_from_file(&over).unwrap_err();
    assert_eq!(error.kind, Failure::StoreFull);
    assert_eq!(error.desc, "the note stack is full");
}

#[test]
fn append_assigns_the_length_as_index() {
    let added = add_entry("", "buy milk", None).unwrap();
    assert_eq!(added.index, 0);
    assert_eq!(added.text, "0|buy milk");
    let added = add_entry(&added.text, "call mom", Some("important")).unwrap();
    assert_eq!(added.index, 1);
    assert_eq!(added.text, "0|buy milk\n1|call mom??important");
    let added = add_entry(&five(), "f", None).unwrap();
    assert_eq!(added.index, 5);
    assert_eq!(added.text, "0|a\n1|b\n2|c\n3|d\n4|e\n5|f");
}

#[test]
fn append_fails_on_a_malformed_file() {
    let error = add_entry("0|a\nbroken", "b", None).unwrap_err();
    assert_eq!(error.kind, Failure::Decode);
}

#[test]
fn append_fails_on_a_full_store() {
    let full = vec!["0|x"; 65536].join("\n");
    let error = add_entry(&full, "one more", None).unwrap_err();
    assert_eq!(error, ClapIoError::full());
    let nearly = vec!["0|x"; 65535].join("\n");
    assert_eq!(add_entry(&nearly, "last", None).unwrap().index, 65535);
}

#[test]
fn scenario_add_add_delete_clear() {
    let added = add_entry("", "buy milk", None).unwrap();
    assert_eq!(added.index, 0);
    let added = add_entry(&added.text, "call mom", Some("important")).unwrap();
    assert_eq!(added.index, 1);
    let deleted = delete_entry_from_file_by_index(&added.text, &0).unwrap();
    assert_eq!(deleted.entry, entry(0, "buy milk", None));
    assert_eq!(
        get_entries_from_file(&deleted.text).unwrap().0,
        vec![entry(0, "call mom", Some("important"))]
    );
    let cleared = clear_all_entries(&deleted.text);
    assert_eq!(cleared, Cleared { removed: 1, text: Some(String::new()) });
    let after = cleared.text.unwrap();
    assert_eq!(get_entries_from_file(&after).unwrap().0, Vec::<Entry>::new());
}

#[test]
fn scenario_clear_the_two_oldest_of_five() {
    let cleared = clear_from_end(&five(), Range::Tail(&2)).unwrap();
    assert_eq!(cleared.removed, 2);
    let text = cleared.text.unwrap();
    assert_eq!(text, "0|c\n1|d\n2|e");
    let left = get_entries_from_file(&text).unwrap().0;
    assert_eq!(indices(&left), vec![0, 1, 2]);
    assert_eq!(contents(&left), vec!["c", "d", "e"]);
}

#[test]
fn clear_the_newest_keeps_the_oldest_in_place() {
    let cleared = clear_from_end(&five(), Range::Top(&2)).unwrap();
    assert_eq!(cleared.removed, 2);
    assert_eq!(cleared.text.unwrap(), "0|a\n1|b\n2|c");
}

#[test]
fn clear_clamps_an_over_large_count() {
    let cleared = clear_from_end(&five(), Range::Top(&9)).unwrap();
    assert_eq!(cleared, Cleared { removed: 5, text: Some(String::new()) });
    let cleared = clear_from_end(&five(), Range::Tail(&65535)).unwrap();
    assert_eq!(cleared, Cleared { removed: 5, text: Some(String::new()) });
    let cleared = clear_from_end(&five(), Range::Tail(&0)).unwrap();
    assert_eq!(cleared, Cleared { removed: 0, text: Some(five()) });
}

#[test]
fn clear_of_an_empty_store_writes_nothing() {
    assert_eq!(clear_from_end("", Range::Top(&3)).unwrap(), Cleared { removed: 0, text: None });
    assert_eq!(clear_all_entries(""), Cleared { removed: 0, text: None });
}

#[test]
fn clear_of_a_range_fails_on_a_malformed_file() {
    let error = clear_from_end("nonsense", Range::Top(&1)).unwrap_err();
    assert_eq!(error.kind, Failure::Decode);
}

#[test]
fn clear_all_repairs_a_malformed_file() {
    let cleared = clear_all_entries("0|a\nnonsense\nzz|top");
    assert_eq!(cleared, Cleared { removed: 3, text: Some(String::new()) });
    assert_eq!(get_entries_from_file(&cleared.text.unwrap()).unwrap().len(), 0);
}

#[test]
fn delete_renumbers_the_records_behind() {
    let deleted = delete_entry_from_file_by_index(&five(), &1).unwrap();
    assert_eq!(deleted.entry, entry(1, "b", None));
    assert_eq!(deleted.text, "0|a\n1|c\n2|d\n3|e");
    let deleted = delete_entry_from_file_by_index(&five(), &4).unwrap();
    assert_eq!(deleted.text, "0|a\n1|b\n2|c\n3|d");
    let deleted = delete_entry_from_file_by_index("0|only", &0).unwrap();
    assert_eq!(deleted.text, "");
}

#[test]
fn delete_out_of_range_is_refused() {
    let error = delete_entry_from_file_by_index(&five(), &5).unwrap_err();
    assert_eq!(error.kind, Failure::IndexOutOfRange);
    assert_eq!(error.desc, "index 5 is outside of bounds of notes available (5).");
    let error = delete_entry_from_file_by_index("", &0).unwrap_err();
    assert_eq!(error.kind, Failure::IndexOutOfRange);
}

#[test]
fn top_names_the_newest_first() {
    let shown = view_entries_from_end(&five(), Range::Top(&2)).unwrap();
    assert_eq!(shown, vec![entry(4, "e", None), entry(3, "d", None)]);
}

#[test]
fn tail_names_the_oldest_first() {
    let shown = view_entries_from_end(&five(), Range::Tail(&2)).unwrap();
    assert_eq!(shown, vec![entry(0, "a", None), entry(1, "b", None)]);
}

#[test]
fn view_clamps_an_over_large_count() {
    let shown = view_entries_from_end(&five(), Range::Top(&100)).unwrap();
    assert_eq!(contents(&shown), vec!["e", "d", "c", "b", "a"]);
    let shown = view_entries_from_end(&five(), Range::Tail(&100)).unwrap();
    assert_eq!(contents(&shown), vec!["a", "b", "c", "d", "e"]);
    assert_eq!(view_entries_from_end(&five(), Range::Top(&0)).unwrap(), Vec::<Entry>::new());
    assert_eq!(view_entries_from_end("", Range::Tail(&3)).unwrap(), Vec::<Entry>::new());
}

#[test]
fn view_all_keeps_the_stored_order() {
    assert_eq!(contents(&view_all_entries(&five()).unwrap()), vec!["a", "b", "c", "d", "e"]);
}

#[test]
fn view_by_index_is_strict() {
    assert_eq!(view_entry_by_index(&five(), &0).unwrap(), entry(0, "a", None));
    assert_eq!(view_entry_by_index(&five(), &4).unwrap(), entry(4, "e", None));
    assert_eq!(find_entry_by_index(&five(), &2).unwrap(), entry(2, "c", None));
    let error = view_entry_by_index(&five(), &5).unwrap_err();
    assert_eq!(error.kind, Failure::IndexOutOfRange);
    assert_eq!(error.desc, "index 5 is outside of bounds of notes available (5).");
    assert_eq!(view_entry_by_index("", &0).unwrap_err().kind, Failure::IndexOutOfRange);
    assert_eq!(view_entry_by_index("broken", &0).unwrap_err().kind, Failure::Decode);
}

#[test]
fn view_by_index_goes_by_position_not_by_the_stored_number() {
    assert_eq!(view_entry_by_index("9|a\n9|b", &1).unwrap(), entry(1, "b", None));
}

#[test]
fn checks_index_bounds() {
    assert_eq!(check_index_bounds(&0, 1), Ok(()));
    assert_eq!(check_index_bounds(&65535, 65536), Ok(()));
    assert_eq!(
        check_index_bounds(&0, 0),
        Err("index 0 is outside of bounds of notes available (0).".to_string())
    );
    assert_eq!(
        check_index_bounds(&12, 12),
        Err("index 12 is outside of bounds of notes available (12).".to_string())
    );
    assert_eq!(check_index_bounds(&0, 65536), Ok(()));
    assert_eq!(check_index_bounds(&3, 70000), Ok(()));
}

#[test]
fn yank_gives_the_record_and_leaves_the_store() {
    assert_eq!(yank_note(&five(), &3).unwrap().content, "d");
    assert_eq!(yank_note(&five(), &7).unwrap_err().kind, Failure::IndexOutOfRange);
}

#[test]
fn pop_deletes_what_was_copied() {
    let copied = yank_note(&five(), &2).unwrap();
    let popped = handle_pop_entry(&five(), &2, &Ok(())).unwrap();
    assert_eq!(popped.entry.content, copied.content);
    assert_eq!(popped.text, "0|a\n1|b\n2|d\n3|e");
}

#[test]
fn pop_deletes_nothing_when_the_clipboard_failed() {
    let error = handle_pop_entry(&five(), &2, &Err("no display".to_string())).unwrap_err();
    assert_eq!(error.kind, Failure::ClipboardUnavailable);
    assert_eq!(error.desc, "Copying note text to clipboard failed: no display");
}

#[test]
fn pop_looks_the_record_up_first() {
    let error = handle_pop_entry(&five(), &9, &Err("no display".to_string())).unwrap_err();
    assert_eq!(error.kind, Failure::IndexOutOfRange);
    let error = handle_pop_entry(&five(), &9, &Ok(())).unwrap_err();
    assert_eq!(error.kind, Failure::IndexOutOfRange);
}

#[test]
fn store_numbers_what_it_is_given() {
    let store = Entries::from_entries(vec![entry(9, "a", None), entry(9, "b", None)]);
    assert_eq!(store.0, vec![entry(0, "a", None), entry(1, "b", None)]);
    assert_eq!(store.len(), 2);
    assert!(store.has_room());
    assert_eq!(Entries::empty().0, Vec::<Entry>::new());
}

#[test]
fn store_appends_and_removes() {
    let mut store = Entries::empty();
    assert_eq!(store.add_entry_from_str("a", None), 0);
    assert_eq!(store.add_entry_from_str("b", Some("why")), 1);
    assert_eq!(store.add_entry_from_str("c", None), 2);
    assert_eq!(store.remove_entry_at_index(&0), entry(0, "a", None));
    assert_eq!(store.0, vec![entry(0, "b", Some("why")), entry(1, "c", None)]);
    assert_eq!(store.clone().into_output_string(), "0|b??why\n1|c");
    assert_eq!(overwrite_entries_to_file(store.clone()), "0|b??why\n1|c");
    assert_eq!(store.remove_oldest(5), 2);
    assert_eq!(store.0, Vec::<Entry>::new());
    assert_eq!(store.into_output_string(), "");
}

#[test]
fn store_removes_from_either_end() {
    let mut store = get_entries_from_file(&five()).unwrap();
    assert_eq!(store.remove_newest(1), 1);
    assert_eq!(store.remove_oldest(2), 2);
    assert_eq!(store.0, vec![entry(0, "c", None), entry(1, "d", None)]);
    assert_eq!(store.remove_newest(7), 2);
    assert_eq!(store.len(), 0);
}

#[test]
fn what_is_written_is_what_is_read() {
    let records = vec![
        entry(0, "buy milk", None),
        entry(1, "call mom", Some("important")),
        entry(2, "", Some("")),
        entry(3, "a|b", None),
    ];
    let text = overwrite_entries_to_file(Entries::from_entries(records.clone()));
    assert_eq!(text, "0|buy milk\n1|call mom??important\n2|??\n3|a|b");
    assert_eq!(get_entries_from_file(&text).unwrap().0, records);
}
