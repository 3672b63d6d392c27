use oxyboard::history::{History, HistoryEvent, HistoryListener};
use oxyboard::post::{Post, UserPost};
use std::cell::RefCell;
use std::rc::Rc;
use vstd::prelude::Seq;

/// A listener that appends a line per notification to a shared log, so
/// that tests can observe the order in which events were delivered.
struct TraceListener {
    name: &'static str,
    log: Rc<RefCell<Vec<String>>>,
}

impl HistoryListener for TraceListener {
    // The event log of the listener contract is specification-only and is
    // never evaluated at run time
    fn log(&self) -> Seq<HistoryEvent> {
        panic!()
    }

    fn post_added(&mut self, p_post: &Post) {
        self.log
            .borrow_mut()
            .push(format!("{}:added:{}", self.name, p_post.id()));
    }

    fn post_removed(&mut self, p_post: &Post) {
        self.log
            .borrow_mut()
            .push(format!("{}:removed:{}", self.name, p_post.id()));
    }
}

fn submission(message: &str) -> UserPost {
    UserPost::new(
        String::from(""),
        String::from("Firefox/48.0.1"),
        String::from(message),
    )
}

#[test]
fn new_history_is_empty() {
    let board_name = String::from("Oxyboard");
    let hist: History<TraceListener> = History::new(&board_name, 512);
    assert_eq!(hist.board_name(), "Oxyboard");
    assert_eq!(hist.size(), 0);
    assert_eq!(hist.next_post_id(), 1);
}

#[test]
fn sizes_stay_under_capacity_and_match_count_before_it() {
    let board_name = String::from("Oxyboard");
    let mut hist: History<TraceListener> = History::new(&board_name, 3);
    for k in 0..2u64 {
        hist.add_post_at(submission("msg"), format!("2016010100000{}", k));
    }
    assert_eq!(hist.size(), 2);
    let mut hist2: History<TraceListener> = History::new(&board_name, 3);
    for k in 0..5u64 {
        hist2.add_post_at(submission("msg"), format!("2016010100000{}", k));
    }
    assert_eq!(hist2.size(), 3);
}

#[test]
fn ids_increase_by_one_from_one() {
    let board_name = String::from("Oxyboard");
    let mut hist: History<TraceListener> = History::new(&board_name, 10);
    let a = hist.add_post_at(submission("a"), String::from("20160101000000"));
    let b = hist.add_post_at(submission("b"), String::from("20160101000000"));
    let c = hist.add_post_at(submission("c"), String::from("20160101000000"));
    assert_eq!(a, 1);
    assert_eq!(b, 2);
    assert_eq!(c, 3);
}

#[test]
fn eviction_keeps_newest_two_and_reports_oldest_once_first() {
    let board_name = String::from("Oxyboard");
    let log = Rc::new(RefCell::new(Vec::new()));
    let mut hist: History<TraceListener> = History::new(&board_name, 2);
    hist.add_listener(TraceListener { name: "L", log: log.clone() });
    hist.add_post_at(submission("A"), String::from("20160101000000"));
    hist.add_post_at(submission("B"), String::from("20160101000001"));
    hist.add_post_at(submission("C"), String::from("20160101000002"));

    let ids: Vec<u64> = hist.iter().map(|p| p.id()).collect();
    assert_eq!(ids, vec![2, 3]);

    let entries = log.borrow().clone();
    let removals: Vec<&String> = entries.iter().filter(|e| e.contains("removed")).collect();
    assert_eq!(removals, vec!["L:removed:1"]);
    let removed_pos = entries.iter().position(|e| e == "L:removed:1").unwrap();
    let added_c_pos = entries.iter().position(|e| e == "L:added:3").unwrap();
    assert!(removed_pos < added_c_pos);
}

#[test]
fn listeners_hear_additions_in_registration_order() {
    let board_name = String::from("Oxyboard");
    let log = Rc::new(RefCell::new(Vec::new()));
    let mut hist: History<TraceListener> = History::new(&board_name, 4);
    hist.add_listener(TraceListener { name: "L1", log: log.clone() });
    hist.add_listener(TraceListener { name: "L2", log: log.clone() });
    hist.add_post_at(submission("hi"), String::from("20160101000000"));

    let entries = log.borrow().clone();
    assert_eq!(entries, vec!["L1:added:1", "L2:added:1"]);
}

#[test]
fn restore_reproduces_records_without_notifications() {
    let board_name = String::from("Oxyboard");
    let log = Rc::new(RefCell::new(Vec::new()));
    let mut hist: History<TraceListener> = History::new(&board_name, 5);
    hist.add_listener(TraceListener { name: "L", log: log.clone() });
    for id in [3u64, 7, 9] {
        let post = Post::new(
            id,
            format!("201601010000{:02}", id),
            submission(&format!("msg-{}", id)),
        );
        hist.add_full_post(post);
    }
    let ids: Vec<u64> = hist.iter().map(|p| p.id()).collect();
    assert_eq!(ids, vec![3, 7, 9]);
    let times: Vec<String> = hist.iter().map(|p| p.time().clone()).collect();
    assert_eq!(times, vec!["20160101000003", "20160101000007", "20160101000009"]);
    assert!(log.borrow().is_empty());
}

#[test]
fn next_id_continues_after_restore() {
    let board_name = String::from("Oxyboard");
    let mut hist: History<TraceListener> = History::new(&board_name, 5);
    hist.add_full_post(Post::new(17, String::from("20160101000000"), submission("old")));
    assert_eq!(hist.next_post_id(), 18);
    let id = hist.add_post_at(submission("new"), String::from("20160101000001"));
    assert_eq!(id, 18);
}

#[test]
fn next_id_is_never_decreased_by_restore() {
    let board_name = String::from("Oxyboard");
    let mut hist: History<TraceListener> = History::new(&board_name, 2);
    hist.add_full_post(Post::new(30, String::from("20160101000000"), submission("a")));
    hist.add_full_post(Post::new(31, String::from("20160101000001"), submission("b")));
    // This eviction makes room; the id counter stays above every id seen
    hist.add_full_post(Post::new(32, String::from("20160101000002"), submission("c")));
    assert_eq!(hist.next_post_id(), 33);
    let ids: Vec<u64> = hist.iter().map(|p| p.id()).collect();
    assert_eq!(ids, vec![31, 32]);
}

#[test]
fn concrete_board_scenario() {
    let board_name = String::from("Oxyboard");
    let mut hist: History<TraceListener> = History::new(&board_name, 2);

    let first = UserPost::new(
        String::from(""),
        String::from("Firefox/48"),
        String::from("hi"),
    );
    let id1 = hist.add_post(first).unwrap();
    assert_eq!(id1, 1);
    assert_eq!(hist.size(), 1);

    let second = UserPost::new(
        String::from(""),
        String::from("Firefox/48"),
        String::from("there"),
    );
    let id2 = hist.add_post(second).unwrap();
    assert_eq!(id2, 2);
    assert_eq!(hist.size(), 2);

    let third = UserPost::new(
        String::from(""),
        String::from("Firefox/48"),
        String::from("bye"),
    );
    let id3 = hist.add_post(third).unwrap();
    assert_eq!(id3, 3);
    assert_eq!(hist.size(), 2);

    let ids: Vec<u64> = hist.iter().map(|p| p.id()).collect();
    assert_eq!(ids, vec![2, 3]);
}

#[test]
fn wall_clock_timestamps_have_fourteen_digits() {
    let board_name = String::from("Oxyboard");
    let mut hist: History<TraceListener> = History::new(&board_name, 2);
    hist.add_post(submission("hi")).unwrap();
    let post = hist.iter().next().unwrap();
    assert_eq!(post.time().len(), 14);
    assert!(post.time().chars().all(|c| c.is_ascii_digit()));
    // A sanity bound on the clock wrappers: the stored year is current-ish
    let year: u32 = post.time()[0..4].parse().unwrap();
    assert!(year >= 2020);
}

#[test]
fn selections_order_and_filter_posts() {
    let board_name = String::from("Oxyboard");
    let mut hist: History<TraceListener> = History::new(&board_name, 10);
    for k in 0..5u64 {
        hist.add_post_at(submission(&format!("m{}", k)), String::from("20160101000000"));
    }
    let newest: Vec<u64> = hist.posts_newest_first().iter().map(|p| p.id()).collect();
    assert_eq!(newest, vec![5, 4, 3, 2, 1]);
    let last_two: Vec<u64> = hist.last_posts(2).iter().map(|p| p.id()).collect();
    assert_eq!(last_two, vec![5, 4]);
    let more_than_there_are: Vec<u64> = hist.last_posts(9).iter().map(|p| p.id()).collect();
    assert_eq!(more_than_there_are, vec![5, 4, 3, 2, 1]);
    let since: Vec<u64> = hist.posts_since(3).iter().map(|p| p.id()).collect();
    assert_eq!(since, vec![5, 4]);
    let since_none: Vec<u64> = hist.posts_since(9).iter().map(|p| p.id()).collect();
    assert_eq!(since_none, Vec::<u64>::new());
}
