use console_bridge::markup::{strip_colors, unify};
use console_bridge::parser::{classify, Message};
use console_bridge::transport::decode_output;

fn chat(player: &str, content: &str) -> Option<Message> {
    Some(Message::Chat { player: player.into(), content: content.into() })
}

#[test]
fn style() {
    // unnamed
    assert_eq!(classify("undefined"), None);
    assert_eq!(classify("Lost command socket connection: localhost/127.0.0.1:6859"), None);
    // named
    assert_eq!(classify("abc: hi"), chat("abc", "hi"));
    assert_eq!(classify("<a: /help>"), chat("a", "/help"));
    assert_eq!(
        classify("a has connected. [+41521zhHB8321xAbXYedw==]"),
        Some(Message::Join { player: "a".into() })
    );
    assert_eq!(
        classify("a has disconnected. [+41521zhHB8321xAbXYedw==] (closed)"),
        Some(Message::Left { player: "a".into() })
    );
    assert_eq!(classify("a: :o"), chat("a", ":o"));
    assert_eq!(classify("a:b: :o"), chat("a:b", ":o"));
}

#[test]
fn test_unify() {
    assert!(unify("grass\u{fb1}\u{f8a}\u{1054}") == "grass");
    assert!(unify("иди к черту") == "иди к черту");
}

#[test]
fn classify_examples_with_plain_tokens() {
    assert_eq!(
        classify("a has connected. [AAAAAAAAAAAAAAAAAAAAAA==]"),
        Some(Message::Join { player: "a".into() })
    );
    assert_eq!(
        classify("a has disconnected. [AAAAAAAAAAAAAAAAAAAAAA==] (closed)"),
        Some(Message::Left { player: "a".into() })
    );
}

#[test]
fn classify_admin_chat() {
    assert_eq!(
        classify("mod: /a ban him"),
        Some(Message::AdminChat { player: "mod".into(), content: "/a ban him".into() })
    );
}

#[test]
fn classify_noise_lines() {
    assert_eq!(classify("  at java.lang.Thread.run"), None);
    assert_eq!(classify("\tcontinued: text"), None);
    assert_eq!(classify("at some.Frame: here"), None);
    assert_eq!(classify("Kicking connection 12: reason"), None);
    assert_eq!(classify(""), None);
}

#[test]
fn classify_rejects_tokens_and_empty_parts() {
    assert_eq!(classify("x: AAAAAAAAAAAAAAAAAAAAAA=="), None);
    assert_eq!(classify("AAAAAAAAAAAAAAAAAAAAAA==: hi"), None);
    assert_eq!(classify("<: hi"), None);
    assert_eq!(classify("a: >>"), None);
}

#[test]
fn classify_sanitizes_names_and_text() {
    assert_eq!(classify("[scarlet]bob[]: [white]hi\u{f80}"), chat("bob", "hi"));
    assert_eq!(classify("<<a: b>>"), chat("a", "b"));
}

#[test]
fn classify_name_with_has_connected_inside() {
    assert_eq!(
        classify("x has connected. [AAAAAAAAAAAAAAAAAAAAAA==] has connected. [BBBBBBBBBBBBBBBBBBBBBB==]"),
        Some(Message::Join { player: "x has connected. ".into() })
    );
}

#[test]
fn classify_join_needs_whole_token() {
    assert_eq!(classify("a has connected. [AAAA==]"), None);
}

#[test]
fn classify_map_load() {
    assert_eq!(
        classify("Loading map [accent]Ancient Caldera"),
        Some(Message::Load { map: "Ancient Caldera".into() })
    );
    assert_eq!(
        classify("[I] Loading map Frozen"),
        Some(Message::Load { map: "Frozen".into() })
    );
    assert_eq!(classify("Loading map "), None);
}

#[test]
fn strip_colors_examples() {
    assert_eq!(strip_colors("[red]hi[]"), "hi");
    assert_eq!(strip_colors("[a[b]]c"), "c");
    assert_eq!(strip_colors("a]b"), "ab");
    assert_eq!(strip_colors("plain"), "plain");
    assert_eq!(strip_colors(""), "");
}

#[test]
fn decode_output_strips_escapes() {
    assert_eq!(decode_output(b"\x1b[32mfoo\x1b[m bar"), "foo bar");
    assert_eq!(decode_output(&[0x66, 0xff]), "f\u{fffd}");
    assert_eq!(decode_output(b""), "");
}
