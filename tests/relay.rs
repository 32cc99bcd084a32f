use console_bridge::batch::{post_from_line, Outgoing, Relay};

fn post(speaker: Option<&str>, content: &str) -> Outgoing {
    Outgoing { speaker: speaker.map(|s| s.to_string()), content: content.to_string() }
}

#[test]
fn batch_merges_consecutive_speakers() {
    let mut r = Relay::new(15, 1500);
    assert!(r.feed("a: hi", 0).is_empty());
    assert!(r.feed("a: there", 100).is_empty());
    assert!(r.feed("b: hey", 200).is_empty());
    assert!(r.poll(1000).is_empty());
    let out = r.poll(1701);
    assert_eq!(out, vec![post(Some("a"), "hi\nthere"), post(Some("b"), "hey")]);
    assert!(r.poll(5000).is_empty());
}

#[test]
fn batch_idle_threshold_is_strict() {
    let mut r = Relay::new(15, 1500);
    assert!(r.feed("a: hi", 1000).is_empty());
    assert!(r.poll(2500).is_empty());
    assert_eq!(r.poll(2501), vec![post(Some("a"), "hi")]);
    assert!(r.poll(9999).is_empty());
}

#[test]
fn batch_line_cap_flushes_once() {
    let mut r = Relay::new(2, 1500);
    assert!(r.feed("a: one", 0).is_empty());
    assert!(r.feed("a: two", 1).is_empty());
    let out = r.feed("b: three", 2);
    assert_eq!(out, vec![post(Some("a"), "one\ntwo"), post(Some("b"), "three")]);
    assert!(r.poll(100000).is_empty());
}

#[test]
fn batch_system_lines_interrupt_speakers() {
    let mut r = Relay::new(15, 10);
    r.feed("a: hi", 0);
    r.feed("Server loaded", 0);
    r.feed("Saved", 0);
    r.feed("a: back", 0);
    r.feed("Loading map Frozen", 0);
    let out = r.poll(100);
    assert_eq!(
        out,
        vec![
            post(Some("a"), "hi"),
            post(None, "Server loaded\nSaved"),
            post(Some("a"), "back"),
            post(None, "loading map Frozen"),
        ]
    );
    assert_eq!(out[1].display_name(), "server");
    assert_eq!(out[0].display_name(), "a");
}

#[test]
fn batch_ignores_noise_and_admin_chat() {
    let mut r = Relay::new(15, 10);
    r.feed("  at frame", 0);
    r.feed("mod: /a secret", 0);
    r.feed("", 0);
    assert!(r.poll(100).is_empty());
}

#[test]
fn batch_joins_and_leaves() {
    assert_eq!(
        post_from_line("a has connected. [AAAAAAAAAAAAAAAAAAAAAA==]"),
        Some(post(Some("a"), "<has joined the game>"))
    );
    assert_eq!(
        post_from_line("a has disconnected. [AAAAAAAAAAAAAAAAAAAAAA==] (closed)"),
        Some(post(Some("a"), "<has left the game>"))
    );
    assert_eq!(post_from_line("[red]Saved[]"), Some(post(None, "Saved")));
}

#[test]
fn batch_feed_chunk_splits_lines() {
    let mut r = Relay::new(15, 10);
    assert!(r.feed_chunk("a: hi\r\na: there\nb: hey\n", 0).is_empty());
    assert_eq!(
        r.poll(11),
        vec![post(Some("a"), "hi\nthere"), post(Some("b"), "hey")]
    );
}

#[test]
fn batch_feed_chunk_crossing_cap() {
    let mut r = Relay::new(1, 10);
    let out = r.feed_chunk("a: 1\nb: 2\nc: 3", 0);
    assert_eq!(out, vec![post(Some("a"), "1"), post(Some("b"), "2")]);
    assert_eq!(r.poll(11), vec![post(Some("c"), "3")]);
}
