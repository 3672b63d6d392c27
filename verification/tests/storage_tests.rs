use oxyboard::config;
use oxyboard::digits::{pad_u64, parse_u64_digits, u64_to_dec};
use oxyboard::headers::{HeaderError, XPostId};
use oxyboard::history::{History, HistoryEvent, HistoryListener};
use oxyboard::post::{Post, UserPost};
use oxyboard::recorder::HistoryRecorder;
use oxyboard::storage::{
    encode_post, parse_history_text, posts_from_records, restore_history, CsvFileStorage,
    MemoryStorage, StorageBackend, StorageError,
};
use oxyboard::timestamp::format_timestamp;
use vstd::prelude::Seq;

/// A listener type for histories that need none registered.
struct NoListener;

impl HistoryListener for NoListener {
    // The event log of the listener contract is specification-only and is
    // never evaluated at run time
    fn log(&self) -> Seq<HistoryEvent> {
        panic!()
    }

    fn post_added(&mut self, _p_post: &Post) {}

    fn post_removed(&mut self, _p_post: &Post) {}
}

/// A sink that always fails, to check that failures stay contained.
struct BrokenStorage;

impl StorageBackend for BrokenStorage {
    fn save_post(&mut self, _p_post: &Post) -> Result<(), StorageError> {
        Err(StorageError::WriteFailed)
    }
}

fn sample_post(id: u64, message: &str) -> Post {
    Post::new(
        id,
        String::from("20161026120000"),
        UserPost::new(
            String::from(""),
            String::from("Firefox/48.0.1"),
            String::from(message),
        ),
    )
}

#[test]
fn encode_post_writes_the_documented_record() {
    let post = sample_post(42, "Plop!");
    assert_eq!(
        encode_post(&post),
        "\"42\",\"20161026120000\",\"Firefox/48.0.1\",\"\",\"Plop!\"\n"
    );
}

#[test]
fn encode_post_doubles_quotes() {
    let post = sample_post(7, "a \"quoted\" word");
    assert_eq!(
        encode_post(&post),
        "\"7\",\"20161026120000\",\"Firefox/48.0.1\",\"\",\"a \"\"quoted\"\" word\"\n"
    );
}

#[test]
fn records_round_trip_through_the_codec() {
    let tricky = sample_post(1, "commas, \"quotes\"\nand a newline");
    let plain = Post::new(
        5,
        String::from("20161026120001"),
        UserPost::new(
            String::from("alice"),
            String::from("Firefox/48.0.1"),
            String::from("ok"),
        ),
    );
    let mut text = encode_post(&tricky);
    text.push_str(&encode_post(&plain));

    let records = parse_history_text(&text);
    assert_eq!(records.len(), 2);
    assert_eq!(records[0], vec!["1", "20161026120000", "Firefox/48.0.1", "", "commas, \"quotes\"\nand a newline"]);
    assert_eq!(records[1], vec!["5", "20161026120001", "Firefox/48.0.1", "alice", "ok"]);

    let posts = posts_from_records(&records);
    assert_eq!(posts.len(), 2);
    assert_eq!(posts[0].id(), 1);
    assert_eq!(posts[0].message(), "commas, \"quotes\"\nand a newline");
    assert_eq!(posts[1].id(), 5);
    assert_eq!(posts[1].login(), "alice");
}

#[test]
fn parse_history_text_skips_damaged_lines() {
    let text = "\"1\",\"t\",\"ua\",\"\",\"ok\"\nthis line is not quoted\n\"2\",\"t\",\"ua\",\"\",\"fine\"\n";
    let records = parse_history_text(text);
    assert_eq!(records.len(), 2);
    assert_eq!(records[0][0], "1");
    assert_eq!(records[1][0], "2");
}

#[test]
fn posts_from_records_skips_bad_and_out_of_order_records() {
    let mut text = String::new();
    text.push_str("\"3\",\"t\",\"ua\",\"\",\"first\"\n");
    text.push_str("\"x\",\"t\",\"ua\",\"\",\"bad id\"\n");
    text.push_str("\"2\",\"t\",\"ua\",\"\",\"id went backwards\"\n");
    text.push_str("\"4\",\"t\",\"ua\",\"\",\"unterminated last field\n");
    text.push_str("\"9\",\"t\",\"ua\",\"\",\"good again\"\n");
    // The unterminated line above is malformed at the record level too, so
    // only the records with ids 3 and 9 survive
    let records = parse_history_text(&text);
    let posts = posts_from_records(&records);
    let ids: Vec<u64> = posts.iter().map(|p| p.id()).collect();
    assert_eq!(ids, vec![3, 9]);
}

#[test]
fn posts_from_records_skips_wrong_arity() {
    let text = "\"1\",\"t\",\"ua\",\"\"\n\"2\",\"t\",\"ua\",\"\",\"ok\",\"extra\"\n\"3\",\"t\",\"ua\",\"\",\"ok\"\n";
    let records = parse_history_text(text);
    assert_eq!(records.len(), 3);
    let posts = posts_from_records(&records);
    let ids: Vec<u64> = posts.iter().map(|p| p.id()).collect();
    assert_eq!(ids, vec![3]);
}

#[test]
fn restore_history_fills_an_empty_history() {
    let text = "\"3\",\"20160101000003\",\"ua\",\"\",\"a\"\n\"7\",\"20160101000007\",\"ua\",\"bob\",\"b\"\n";
    let board_name = String::from("Oxyboard");
    let mut hist: History<NoListener> = History::new(&board_name, 5);
    let count = restore_history(&mut hist, text);
    assert_eq!(count, 2);
    assert_eq!(hist.size(), 2);
    let ids: Vec<u64> = hist.iter().map(|p| p.id()).collect();
    assert_eq!(ids, vec![3, 7]);
    assert_eq!(hist.next_post_id(), 8);
}

#[test]
fn restore_history_keeps_only_the_newest_up_to_capacity() {
    let mut text = String::new();
    for id in 1..=5u64 {
        text.push_str(&encode_post(&sample_post(id, "m")));
    }
    let board_name = String::from("Oxyboard");
    let mut hist: History<NoListener> = History::new(&board_name, 3);
    let count = restore_history(&mut hist, &text);
    assert_eq!(count, 5);
    let ids: Vec<u64> = hist.iter().map(|p| p.id()).collect();
    assert_eq!(ids, vec![3, 4, 5]);
}

#[test]
fn whole_history_round_trips_through_storage() {
    let board_name = String::from("Oxyboard");
    let mut hist: History<NoListener> = History::new(&board_name, 10);
    hist.add_post_at(
        UserPost::new(String::from(""), String::from("ua"), String::from("one")),
        String::from("20160101000001"),
    );
    hist.add_post_at(
        UserPost::new(String::from("carol"), String::from("ua"), String::from("two")),
        String::from("20160101000002"),
    );
    let mut text = String::new();
    for post in hist.iter() {
        text.push_str(&encode_post(post));
    }
    let mut reloaded: History<NoListener> = History::new(&board_name, 10);
    restore_history(&mut reloaded, &text);
    let before: Vec<(u64, String, String)> = hist
        .iter()
        .map(|p| (p.id(), p.login().clone(), p.message().clone()))
        .collect();
    let after: Vec<(u64, String, String)> = reloaded
        .iter()
        .map(|p| (p.id(), p.login().clone(), p.message().clone()))
        .collect();
    assert_eq!(before, after);
    assert_eq!(reloaded.next_post_id(), 3);
}

#[test]
fn csv_file_storage_builds_its_path() {
    let dir = String::from("data");
    let storage = CsvFileStorage::new(&dir, String::from("history.csv"));
    assert_eq!(storage.file_path(), "data/history.csv");
}

#[test]
fn recorder_saves_added_posts() {
    let mut recorder = HistoryRecorder::new(MemoryStorage::new());
    let post = sample_post(1, "kept");
    recorder.post_added(&post);
    let evicted = sample_post(2, "gone");
    recorder.post_removed(&evicted);
    let saved = recorder.storage().saved();
    assert_eq!(saved.len(), 1);
    assert_eq!(saved[0].id(), 1);
    assert_eq!(saved[0].message(), "kept");
}

#[test]
fn recorder_contains_backend_failures() {
    let mut recorder = HistoryRecorder::new(BrokenStorage);
    let post = sample_post(1, "m");
    recorder.post_added(&post);
    recorder.post_added(&post);
}

#[test]
fn memory_storage_never_fails() {
    let mut storage = MemoryStorage::new();
    assert!(storage.save_post(&sample_post(1, "a")).is_ok());
    assert!(storage.save_post(&sample_post(2, "b")).is_ok());
    assert_eq!(storage.saved().len(), 2);
}

#[test]
fn format_timestamp_pads_every_field() {
    assert_eq!(
        format_timestamp(2016, 10, 26, 12, 0, 0).unwrap(),
        "20161026120000"
    );
    assert_eq!(
        format_timestamp(988, 1, 2, 3, 4, 5).unwrap(),
        "09880102030405"
    );
}

#[test]
fn format_timestamp_rejects_years_outside_four_digits() {
    assert!(format_timestamp(-1, 1, 1, 0, 0, 0).is_none());
    assert!(format_timestamp(10000, 1, 1, 0, 0, 0).is_none());
    assert!(format_timestamp(9999, 12, 31, 23, 59, 59).is_some());
}

#[test]
fn numbers_render_in_decimal() {
    assert_eq!(u64_to_dec(0), "0");
    assert_eq!(u64_to_dec(42), "42");
    assert_eq!(u64_to_dec(u64::MAX), "18446744073709551615");
    assert_eq!(pad_u64(7, 4), "0007");
    assert_eq!(pad_u64(2016, 4), "2016");
}

#[test]
fn decimal_strings_parse_back() {
    assert_eq!(parse_u64_digits("0"), Some(0));
    assert_eq!(parse_u64_digits("42"), Some(42));
    assert_eq!(parse_u64_digits("18446744073709551615"), Some(u64::MAX));
    assert_eq!(parse_u64_digits("18446744073709551616"), None);
    assert_eq!(parse_u64_digits(""), None);
    assert_eq!(parse_u64_digits("12a"), None);
    assert_eq!(parse_u64_digits("-1"), None);
}

#[test]
fn post_id_header_parses_digits() {
    let raw = vec![b"3495".to_vec()];
    assert_eq!(XPostId::parse_header(&raw), Ok(XPostId(3495)));
    let plus = vec![b"+10".to_vec()];
    assert_eq!(XPostId::parse_header(&plus), Ok(XPostId(10)));
}

#[test]
fn post_id_header_rejects_bad_values() {
    assert!(matches!(
        XPostId::parse_header(&vec![]),
        Err(HeaderError::Header)
    ));
    assert!(matches!(
        XPostId::parse_header(&vec![b"1".to_vec(), b"2".to_vec()]),
        Err(HeaderError::Header)
    ));
    assert!(matches!(
        XPostId::parse_header(&vec![Vec::new()]),
        Err(HeaderError::Header)
    ));
    assert!(matches!(
        XPostId::parse_header(&vec![b"+".to_vec()]),
        Err(HeaderError::Header)
    ));
    assert!(matches!(
        XPostId::parse_header(&vec![b"12a".to_vec()]),
        Err(HeaderError::Header)
    ));
    assert!(matches!(
        XPostId::parse_header(&vec![b"18446744073709551616".to_vec()]),
        Err(HeaderError::Header)
    ));
}

#[test]
fn post_id_header_renders_and_names_itself() {
    assert_eq!(XPostId::header_name(), "X-Post-Id");
    assert_eq!(XPostId(1024).fmt_header(), "1024");
}

#[test]
fn default_config_matches_the_documented_values() {
    let cfg = config::default();
    assert_eq!(cfg.board.name, "oxyboard");
    assert_eq!(cfg.board.history_size, 512);
    assert_eq!(cfg.storage.data_dir, "data");
}
