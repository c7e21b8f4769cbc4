use kpdf::store::{
    bookmarks_store_entries, decode_bookmark_entry_from_store, decode_file_position,
    decode_stored_bool, decode_stored_path, decode_stored_string, decode_theme_mode,
    encode_bookmark_entry, encode_file_position, encode_stored_bool, encode_theme_mode,
    load_bookmarks_from_store, load_markdown_notes_from_store, load_recent_files_from_store,
    load_text_markups_from_store,
    load_theme_preferences_from_store, load_titlebar_preferences_from_store, notes_store_keys,
    recent_files_store_entries,
};
use kpdf::types::{
    BookmarkEntry, MarkdownNoteEntry, TextMarkupColor, TextMarkupEntry, TextMarkupKind, ThemeMode,
};

fn bookmark(path: &str, page: usize, created: u64) -> BookmarkEntry {
    BookmarkEntry { path: path.to_string(), page_index: page, created_at_unix_secs: created }
}

fn note(id: u64, markdown: &str) -> MarkdownNoteEntry {
    MarkdownNoteEntry {
        id,
        path: "/a.pdf".to_string(),
        page_index: 0,
        markdown: markdown.to_string(),
        created_at_unix_secs: 1,
        updated_at_unix_secs: 1,
        selected_text: String::new(),
    }
}

#[test]
fn file_positions_are_eight_big_endian_bytes() {
    let bytes = encode_file_position(258);
    assert_eq!(bytes, [0, 0, 0, 0, 0, 0, 1, 2]);
    assert_eq!(decode_file_position(&bytes), Some(258));
    assert_eq!(decode_file_position(&[1, 2, 3]), None);
}

#[test]
fn bookmarks_round_trip_through_their_bytes() {
    let b = bookmark("/docs/é.pdf", 7, 1_700_000_000);
    let bytes = encode_bookmark_entry(&b);
    assert_eq!(bytes.len(), 16 + "/docs/é.pdf".len());
    assert_eq!(&bytes[..8], &[0, 0, 0, 0, 0, 0, 0, 7]);
    let back = decode_bookmark_entry_from_store(&bytes).expect("a valid bookmark");
    assert_eq!(back.path, b.path);
    assert_eq!(back.page_index, 7);
    assert_eq!(back.created_at_unix_secs, 1_700_000_000);
}

#[test]
fn old_bookmark_layout_has_no_creation_time() {
    let mut bytes = vec![0, 0, 0, 0, 0, 0, 0, 3];
    bytes.extend_from_slice(b"/x.pdf");
    let b = decode_bookmark_entry_from_store(&bytes).expect("a valid bookmark");
    assert_eq!(b.page_index, 3);
    assert_eq!(b.created_at_unix_secs, 0);
    assert_eq!(b.path, "/x.pdf");
}

#[test]
fn broken_bookmarks_are_rejected() {
    assert!(decode_bookmark_entry_from_store(&[0, 0, 0]).is_none());
    let mut bad_utf8 = vec![0u8; 16];
    bad_utf8.extend_from_slice(&[0xff, 0xfe]);
    assert!(decode_bookmark_entry_from_store(&bad_utf8).is_none());
}

#[test]
fn bookmark_lists_load_in_key_order() {
    let list = vec![bookmark("/a.pdf", 1, 10), bookmark("/b.pdf", 2, 20), bookmark("/c.pdf", 3, 30)];
    let mut entries = bookmarks_store_entries(&list);
    assert_eq!(entries[1].0, vec![0, 0, 0, 1]);
    entries.reverse();
    entries.push((vec![1, 2], vec![0; 20]));
    let loaded = load_bookmarks_from_store(&entries);
    let paths: Vec<String> = loaded.iter().map(|b| b.path.clone()).collect();
    assert_eq!(paths, vec!["/a.pdf", "/b.pdf", "/c.pdf"]);
}

#[test]
fn recent_files_keep_twelve_and_skip_broken_values() {
    let files: Vec<String> = (0..14).map(|i| format!("/f{i}.pdf")).collect();
    let entries = recent_files_store_entries(&files);
    assert_eq!(entries.len(), 12);
    let mut values: Vec<Vec<u8>> = entries.into_iter().map(|(_, v)| v).collect();
    values.insert(1, vec![0xff]);
    values.insert(2, Vec::new());
    let loaded = load_recent_files_from_store(&values);
    assert_eq!(loaded, files[..12].to_vec());
}

#[test]
fn stored_paths_must_be_nonempty_utf8() {
    assert_eq!(decode_stored_path(b"/a.pdf"), Some("/a.pdf".to_string()));
    assert_eq!(decode_stored_path(b""), None);
    assert_eq!(decode_stored_path(&[0xc3]), None);
    assert_eq!(decode_stored_string(None), None);
    assert_eq!(decode_stored_string(Some(b"Ocean")), Some("Ocean".to_string()));
}

#[test]
fn flags_and_theme_modes_round_trip() {
    assert_eq!(encode_stored_bool(true), [1]);
    assert!(decode_stored_bool(Some(&encode_stored_bool(true)), false));
    assert!(!decode_stored_bool(Some(&encode_stored_bool(false)), true));
    assert!(decode_stored_bool(None, true));
    assert!(!decode_stored_bool(Some(&[]), false));
    assert_eq!(encode_theme_mode(ThemeMode::Dark), b"dark".to_vec());
    assert_eq!(decode_theme_mode(Some(&encode_theme_mode(ThemeMode::Light)), ThemeMode::Dark), ThemeMode::Light);
    assert_eq!(decode_theme_mode(Some(b"blue"), ThemeMode::Dark), ThemeMode::Dark);
    let prefs = load_titlebar_preferences_from_store(Some(&[0]), None);
    assert!(!prefs.show_navigation);
    assert!(prefs.show_zoom);
    let (mode, light, dark) =
        load_theme_preferences_from_store(Some(b"dark"), Some(b"Solarized"), Some(b""), ThemeMode::Light);
    assert_eq!(mode, ThemeMode::Dark);
    assert_eq!(light, Some("Solarized".to_string()));
    assert_eq!(dark, None);
}

#[test]
fn notes_load_in_key_order_without_blank_ones() {
    let keys = notes_store_keys(3);
    assert_eq!(keys, vec![[0, 0, 0, 0], [0, 0, 0, 1], [0, 0, 0, 2]]);
    let entries = vec![
        (keys[2].to_vec(), Some(note(3, "third"))),
        (keys[0].to_vec(), Some(note(1, "first"))),
        (keys[1].to_vec(), Some(note(2, "  \n "))),
        (vec![9], Some(note(4, "bad key"))),
        (vec![0, 0, 0, 5], None),
    ];
    let loaded = load_markdown_notes_from_store(&entries);
    let ids: Vec<u64> = loaded.iter().map(|n| n.id).collect();
    assert_eq!(ids, vec![1, 3]);
}

fn markup(id: u64, rects: usize) -> TextMarkupEntry {
    TextMarkupEntry {
        id,
        path: "/a.pdf".to_string(),
        page_index: 0,
        kind: TextMarkupKind::Highlight,
        color: TextMarkupColor::Yellow,
        selected_text: "t".to_string(),
        rect_count: rects,
        created_at_unix_secs: 1,
        updated_at_unix_secs: 1,
    }
}

#[test]
fn text_markups_load_in_index_order_and_skip_empty_ones() {
    let entries = vec![
        (vec![0, 0, 0, 2], Some(markup(30, 1))),
        (vec![0, 0, 0, 0], Some(markup(10, 2))),
        (vec![0, 0, 0, 1], Some(markup(20, 0))),
        (vec![0, 0, 1], Some(markup(40, 1))),
        (vec![0, 0, 0, 3], None),
    ];
    let ids: Vec<u64> = load_text_markups_from_store(&entries).iter().map(|m| m.id).collect();
    assert_eq!(ids, vec![10, 30]);
}
