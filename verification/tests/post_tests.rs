use oxyboard::message::Message;
use oxyboard::post::{Post, UserPost};

#[test]
fn user_post_new_keeps_fields() {
    let request = UserPost::new(
        String::from(""),
        String::from("Firefox/48.0.1"),
        String::from("Plop!"),
    );
    assert_eq!(request.login, "");
    assert_eq!(request.user_agent, "Firefox/48.0.1");
    assert_eq!(request.message, "Plop!");
}

#[test]
fn post_new_keeps_fields() {
    let request = UserPost::new(
        String::from(""),
        String::from("Firefox/48.0.1"),
        String::from("Plop!"),
    );
    let post = Post::new(42, String::from("20161026120000"), request);
    assert_eq!(post.id(), 42);
    assert_eq!(post.time(), "20161026120000");
    assert_eq!(post.login(), "");
    assert_eq!(post.user_agent(), "Firefox/48.0.1");
    assert_eq!(post.message(), "Plop!");
}

#[test]
fn post_anonymous_is_not_authenticated() {
    let msg = UserPost::new(
        String::from(""),
        String::from("Firefox/48.0.1"),
        String::from("Plop!"),
    );
    let post = Post::new(42, String::from("20161026120000"), msg);
    assert!(!post.is_authenticated());
}

#[test]
fn post_with_login_is_authenticated() {
    let msg = UserPost::new(
        String::from("ptramo"),
        String::from("Firefox/48.0.1"),
        String::from("Plop!"),
    );
    let post = Post::new(42, String::from("20161026120000"), msg);
    assert!(post.is_authenticated());
}

#[test]
fn message_new_keeps_fields() {
    let msg = Message::new(
        String::from("20161026120000"),
        String::from("alice"),
        String::from("Firefox/48.0.1"),
        String::from("hello"),
    );
    assert_eq!(msg.timestamp, "20161026120000");
    assert_eq!(msg.login, "alice");
    assert_eq!(msg.user_agent, "Firefox/48.0.1");
    assert_eq!(msg.message, "hello");
}

#[test]
fn message_authentication_follows_login() {
    let anon = Message::new(
        String::from("20161026120000"),
        String::from(""),
        String::from("Firefox/48.0.1"),
        String::from("hello"),
    );
    assert!(!anon.is_authenticated());
    let named = Message::new(
        String::from("20161026120000"),
        String::from("bob"),
        String::from("Firefox/48.0.1"),
        String::from("hello"),
    );
    assert!(named.is_authenticated());
}

#[test]
fn from_request_trims_login_and_message() {
    let sub = UserPost::from_request(
        String::from("  alice \t"),
        Some(String::from("Firefox/48.0.1")),
        String::from("\n  hello there  \r\n"),
    );
    assert_eq!(sub.login, "alice");
    assert_eq!(sub.user_agent, "Firefox/48.0.1");
    assert_eq!(sub.message, "hello there");
}

#[test]
fn from_request_defaults_missing_user_agent() {
    let sub = UserPost::from_request(String::from(""), None, String::from("hi"));
    assert_eq!(sub.user_agent, "Anonymous Coward");
}

#[test]
fn from_request_trims_and_truncates_user_agent() {
    let long_ua = format!("  {}  ", "x".repeat(100));
    let sub = UserPost::from_request(String::from(""), Some(long_ua), String::from("hi"));
    assert_eq!(sub.user_agent, "x".repeat(80));
}

#[test]
fn from_request_keeps_short_user_agent_whole() {
    let sub = UserPost::from_request(
        String::from(""),
        Some(String::from(" Mozilla/5.0 ")),
        String::from("hi"),
    );
    assert_eq!(sub.user_agent, "Mozilla/5.0");
}
