use draw_things_companion::env_config::{expand_path, join_path};
use draw_things_companion::file_info::{label_or_invalid, meta, FileTimes};
use draw_things_companion::file_ops::{
    accepts_entry, calculate_checksum, extension_listed, file_extension, get_available_space,
    get_model_extensions, has_enough_space, scan_directory, FileProbe, ListedEntry, VolumeStat,
};
use draw_things_companion::logger::{LogEvent, LogStore, RETAINED_EVENTS};
use draw_things_companion::order::{key_before, sorted_order, SortKey};
use draw_things_companion::text::{chars_lt, chars_of, is_space_char, same_text};

fn listed(name: &str, is_file: bool) -> ListedEntry {
    ListedEntry { name: name.to_string(), is_file }
}

#[test]
fn test_expand_path_with_tilde() {
    let path = "~/Documents/test";
    let expanded = expand_path(path, Some("/Users/someone"));
    assert!(!expanded.contains('~'));
    assert_eq!(expanded, "/Users/someone/Documents/test");
}

#[test]
fn test_expand_path_without_tilde() {
    let path = "/absolute/path/test";
    let expanded = expand_path(path, Some("/Users/someone"));
    assert_eq!(expanded, path.to_string());
}

#[test]
fn path_without_known_home_stays() {
    assert_eq!(expand_path("~/Documents/test", None), "~/Documents/test");
    assert_eq!(expand_path("~", Some("/home/u")), "~");
    assert_eq!(expand_path("~user/x", Some("/home/u")), "~user/x");
}

#[test]
fn joining_paths() {
    assert_eq!(join_path("/stash", "a.ckpt"), "/stash/a.ckpt");
    assert_eq!(join_path("/stash/", "a.ckpt"), "/stash/a.ckpt");
    assert_eq!(join_path("/stash", "/etc/a.ckpt"), "/etc/a.ckpt");
    assert_eq!(join_path("", "a.ckpt"), "a.ckpt");
    assert_eq!(join_path("/stash", ""), "/stash/");
    assert_eq!(expand_path("~//abs", Some("/home/u")), "/abs");
    assert_eq!(expand_path("~/", Some("/home/u")), "/home/u/");
}

#[test]
fn extension_whitelists() {
    assert_eq!(get_model_extensions("model"), vec!["ckpt", "safetensors", "pt", "pth"]);
    assert_eq!(get_model_extensions("lora"), vec!["safetensors", "pt", "pth"]);
    assert_eq!(get_model_extensions("controlnet"), vec!["safetensors", "pt", "pth"]);
    assert!(get_model_extensions("embedding").is_empty());
    assert!(get_model_extensions("").is_empty());
}

#[test]
fn extensions_of_file_names() {
    assert_eq!(file_extension("a.ckpt"), Some("ckpt".to_string()));
    assert_eq!(file_extension("a.tar.gz"), Some("gz".to_string()));
    assert_eq!(file_extension("a."), Some("".to_string()));
    assert_eq!(file_extension("a"), None);
    assert_eq!(file_extension(".hidden"), None);
    assert_eq!(file_extension(".hidden.ckpt"), Some("ckpt".to_string()));
    assert_eq!(file_extension(""), None);
    assert!(extension_listed("ckpt", &["pt", "ckpt"]));
    assert!(!extension_listed("CKPT", &["pt", "ckpt"]));
    assert!(!extension_listed("ckpt", &[]));
}

#[test]
fn scan_selects_and_sorts() {
    let entries = vec![
        listed("zeta.ckpt", true),
        listed("Alpha.CKPT", true),
        listed("notes.txt", true),
        listed("models", false),
        listed("folder.ckpt", false),
        listed(".hidden.ckpt", true),
        listed("beta.safetensors", true),
        listed("noext", true),
        listed("alpha.ckpt", true),
        listed("zeta.ckpt", true),
    ];
    let names = scan_directory(&entries, &["ckpt", "safetensors", "pth", "pt"]);
    assert_eq!(names, vec!["Alpha.CKPT", "alpha.ckpt", "beta.safetensors", "zeta.ckpt"]);
    assert!(accepts_entry(&listed("Alpha.CKPT", true), &["ckpt"]));
    assert!(!accepts_entry(&listed(".hidden.ckpt", true), &["ckpt"]));
    assert!(!accepts_entry(&listed("folder.ckpt", false), &["ckpt"]));
}

#[test]
fn scan_of_missing_directory_is_empty() {
    let names = scan_directory(&vec![], &["ckpt"]);
    assert!(names.is_empty());
    let none = scan_directory(&vec![listed("a.ckpt", true)], &[]);
    assert!(none.is_empty());
}

#[test]
fn scan_is_deterministic() {
    let forward = vec![listed("b.ckpt", true), listed("a.ckpt", true), listed("c.ckpt", true)];
    let backward = vec![listed("c.ckpt", true), listed("a.ckpt", true), listed("b.ckpt", true)];
    assert_eq!(scan_directory(&forward, &["ckpt"]), scan_directory(&backward, &["ckpt"]));
    assert_eq!(scan_directory(&forward, &["ckpt"]), vec!["a.ckpt", "b.ckpt", "c.ckpt"]);
}

#[test]
fn admission_needs_more_than_the_margin() {
    assert!(has_enough_space(111, 100));
    assert!(!has_enough_space(110, 100));
    assert!(!has_enough_space(100, 100));
    assert!(has_enough_space(6, 5));
    assert!(!has_enough_space(5, 5));
    assert!(has_enough_space(1, 0));
    assert!(!has_enough_space(0, 0));
    assert!(!has_enough_space(u64::MAX, u64::MAX));
    assert!(has_enough_space(u64::MAX, 1 << 40));
    let nine_gb: u64 = 9 * 1024 * 1024 * 1024;
    let ten_gb: u64 = 10 * 1024 * 1024 * 1024;
    assert!(!has_enough_space(nine_gb, ten_gb));
}

#[test]
fn free_space_defaults_to_unlimited() {
    assert_eq!(get_available_space(Some(VolumeStat { free_blocks: 8, block_size: 512 })), 4096);
    assert_eq!(get_available_space(Some(VolumeStat { free_blocks: 0, block_size: 4096 })), 0);
    assert_eq!(get_available_space(Some(VolumeStat { free_blocks: u64::MAX, block_size: 2 })), u64::MAX);
    assert_eq!(get_available_space(Some(VolumeStat { free_blocks: 1 << 32, block_size: 1 << 31 })), 1 << 63);
    assert_eq!(get_available_space(None), u64::MAX);
}

#[test]
fn checksum_of_known_content() {
    assert_eq!(
        calculate_checksum(b"abc"),
        "ba7816bf8f01cfea414140de5dae2223b00361a396177a9cb410ff61f20015ad"
    );
    assert_eq!(
        calculate_checksum(b""),
        "e3b0c44298fc1c149afbf4c8996fb92427ae41e4649b934ca495991b7852b855"
    );
}

#[test]
fn checksum_in_pieces_equals_checksum_of_whole() {
    let mut probe = FileProbe::new();
    probe.feed(b"a");
    probe.feed(b"");
    probe.feed(b"bc");
    let (checksum, size) = probe.finish();
    assert_eq!(checksum, calculate_checksum(b"abc"));
    assert_eq!(size, 3);
    assert_ne!(calculate_checksum(b"abc"), calculate_checksum(b"abd"));
    assert_eq!(FileProbe::new().finish().1, 0);
}

#[test]
fn text_helpers() {
    assert_eq!(chars_of("aé"), vec!['a', 'é']);
    assert!(same_text("abc", "abc"));
    assert!(!same_text("abc", "abd"));
    assert!(is_space_char(' '));
    assert!(is_space_char('\t'));
    assert!(is_space_char('\r'));
    assert!(is_space_char('\u{a0}'));
    assert!(is_space_char('\u{3000}'));
    assert!(!is_space_char('a'));
    assert!(!is_space_char('\u{200b}'));
    for c in ['\u{0}', '\u{8}', '\u{9}', '\u{d}', '\u{e}', ' ', '\u{85}', '\u{a0}', '\u{1680}', '\u{1fff}', '\u{2000}', '\u{200a}', '\u{200b}', '\u{2028}', '\u{2029}', '\u{202f}', '\u{205f}', '\u{3000}', 'x'] {
        assert_eq!(is_space_char(c), c.is_whitespace());
    }
}

#[test]
fn text_order_is_code_point_order() {
    let words = ["", "a", "A", "ab", "b", "abc", "é", "a.ckpt", "a_b"];
    for x in words {
        for y in words {
            assert_eq!(chars_lt(&chars_of(x), &chars_of(y)), x < y);
        }
    }
}

#[test]
fn sorted_order_lists_distinct_keys() {
    let keys = vec![
        SortKey { rank: 2, name: chars_of("b") },
        SortKey { rank: 1, name: chars_of("z") },
        SortKey { rank: 2, name: chars_of("a") },
        SortKey { rank: 1, name: chars_of("z") },
        SortKey { rank: 0, name: chars_of("m") },
    ];
    assert_eq!(sorted_order(&keys), vec![4, 1, 2, 0]);
    assert!(key_before(&keys[1], &keys[0]));
    assert!(!key_before(&keys[1], &keys[3]));
    assert!(sorted_order(&vec![]).is_empty());
}

#[test]
fn log_keeps_the_newest_events() {
    let mut store = LogStore::new();
    assert_eq!(store.len(), 0);
    for i in 0..(RETAINED_EVENTS + 5) {
        store.record(LogEvent::at("00:00:00".to_string(), "info", format!("event {}", i)));
    }
    assert_eq!(store.len(), RETAINED_EVENTS);
    assert_eq!(store.logs[0].message, "event 5");
    assert_eq!(store.logs[RETAINED_EVENTS - 1].message, format!("event {}", RETAINED_EVENTS + 4));
}

#[test]
fn log_event_carries_level_and_message() {
    let event = LogEvent::at("08:15:00".to_string(), "warning", "disk is nearly full".to_string());
    assert_eq!(event.level, "warning");
    assert_eq!(event.message, "disk is nearly full");
    assert_eq!(event.timestamp, "08:15:00");
    let fixed = LogEvent::at("12:34:56".to_string(), "error", "x".to_string());
    assert_eq!(fixed.timestamp, "12:34:56");
    assert_eq!(fixed.level, "error");
}

#[test]
fn file_report_formats_moments() {
    let report = meta(Ok(FileTimes { size: 42, created: Some(1431648000), modified: Some(0) }));
    assert!(report.exists);
    assert_eq!(report.size, Some(42));
    assert_eq!(report.created, Some("2015-05-15 00:00:00 UTC".to_string()));
    assert_eq!(report.modified, Some("1970-01-01 00:00:00 UTC".to_string()));
    assert_eq!(report.error, None);
    let unknown = meta(Ok(FileTimes { size: 1, created: None, modified: Some(i64::MAX) }));
    assert_eq!(unknown.created, None);
    assert_eq!(unknown.modified, Some("Invalid timestamp".to_string()));
    assert_eq!(label_or_invalid(None), "Invalid timestamp");
    assert_eq!(label_or_invalid(Some("x".to_string())), "x");
}

#[test]
fn file_report_of_missing_file() {
    let report = meta(Err("No such file or directory".to_string()));
    assert!(!report.exists);
    assert_eq!(report.size, None);
    assert_eq!(report.created, None);
    assert_eq!(report.modified, None);
    assert_eq!(report.error, Some("No such file or directory".to_string()));
}
