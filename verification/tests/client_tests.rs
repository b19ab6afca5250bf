use twrs::auth::{accept_remote_token, authorize_line, begin_auth, store_token, AuthStep, RemoteToken};
use twrs::codec::{parse_credentials, serialize_credentials};
use twrs::creds::{Credentials, KeyPair, Token};
use twrs::error::{AuthError, ConfigError, FetchError};
use twrs::render::{format_hms, panel_palette, panel_rows, plain_lines, render_panel, Rgb};
use twrs::timeline::{Page, Post, PostBuffer, TimelineMerger};

fn post(timestamp: i64, handle: &str, text: &str) -> Post {
    Post { timestamp, handle: handle.as_bytes().to_vec(), text: text.as_bytes().to_vec() }
}

fn creds(key: &str, secret: &str, token: Option<Token>) -> Credentials {
    Credentials {
        consumer: KeyPair { key: key.as_bytes().to_vec(), secret: secret.as_bytes().to_vec() },
        token,
    }
}

fn token(ck: &str, cs: &str, ak: &str, asec: &str) -> Token {
    Token {
        consumer: KeyPair { key: ck.as_bytes().to_vec(), secret: cs.as_bytes().to_vec() },
        access: KeyPair { key: ak.as_bytes().to_vec(), secret: asec.as_bytes().to_vec() },
    }
}

#[test]
fn merge_into_empty_counts_distinct_timestamps() {
    let mut buffer = PostBuffer::new();
    let page = vec![post(5, "a", "one"), post(3, "b", "two"), post(5, "c", "three")];
    buffer.merge(&page);
    assert_eq!(buffer.len(), 2);
}

#[test]
fn later_insert_wins_on_shared_timestamp() {
    let mut buffer = PostBuffer::new();
    let page1 = vec![post(100, "alice", "first"), post(200, "bob", "second")];
    let page2 = vec![post(100, "carol", "replacement")];
    buffer.merge(&page1);
    buffer.merge(&page2);
    assert_eq!(buffer.len(), 2);
    assert_eq!(buffer.post_at(0).handle, b"carol".to_vec());
    assert_eq!(buffer.post_at(0).text, b"replacement".to_vec());
    assert_eq!(buffer.post_at(1).text, b"second".to_vec());
}

#[test]
fn later_insert_wins_within_one_page() {
    let mut buffer = PostBuffer::new();
    let page = vec![post(7, "a", "early"), post(7, "b", "late")];
    buffer.merge(&page);
    assert_eq!(buffer.len(), 1);
    assert_eq!(buffer.post_at(0).text, b"late".to_vec());
}

#[test]
fn reversed_iteration_is_non_increasing() {
    let mut buffer = PostBuffer::new();
    let page = vec![post(10, "a", "x"), post(30, "b", "y"), post(20, "c", "z")];
    buffer.merge(&page);
    let rev = buffer.rev_posts();
    assert_eq!(rev.len(), 3);
    for i in 1..rev.len() {
        assert!(rev[i - 1].timestamp >= rev[i].timestamp);
    }
    assert_eq!(rev[0].timestamp, 30);
    assert_eq!(rev[2].timestamp, 10);
}

#[test]
fn credentials_roundtrip_with_token() {
    let c = creds("ckey", "csecret", Some(token("tck", "tcs", "tak", "tas")));
    let bytes = serialize_credentials(&c);
    let back = parse_credentials(&bytes).expect("serialized credentials must parse");
    assert_eq!(back.consumer.key, c.consumer.key);
    assert_eq!(back.consumer.secret, c.consumer.secret);
    let t0 = c.token.unwrap();
    let t1 = back.token.expect("token must survive the round trip");
    assert_eq!(t1.consumer.key, t0.consumer.key);
    assert_eq!(t1.consumer.secret, t0.consumer.secret);
    assert_eq!(t1.access.key, t0.access.key);
    assert_eq!(t1.access.secret, t0.access.secret);
}

#[test]
fn credentials_roundtrip_without_token() {
    let c = creds("k", "s", None);
    let bytes = serialize_credentials(&c);
    let back = parse_credentials(&bytes).unwrap();
    assert_eq!(back.consumer.key, b"k".to_vec());
    assert_eq!(back.consumer.secret, b"s".to_vec());
    assert!(back.token.is_none());
}

#[test]
fn credentials_roundtrip_with_awkward_bytes() {
    let c = creds("a\"b\\c", "line\nbreak\rtab\there", Some(token("\\", "\"", "\n", "plain")));
    let bytes = serialize_credentials(&c);
    let back = parse_credentials(&bytes).unwrap();
    assert_eq!(back.consumer.key, c.consumer.key);
    assert_eq!(back.consumer.secret, c.consumer.secret);
    let t1 = back.token.unwrap();
    assert_eq!(t1.consumer.key, b"\\".to_vec());
    assert_eq!(t1.consumer.secret, b"\"".to_vec());
    assert_eq!(t1.access.key, b"\n".to_vec());
    assert_eq!(t1.access.secret, b"plain".to_vec());
}

#[test]
fn serialized_form_is_the_documented_schema() {
    let c = creds("K", "S", Some(token("a", "b", "c", "d")));
    let bytes = serialize_credentials(&c);
    let text = String::from_utf8(bytes).unwrap();
    assert_eq!(
        text,
        "[twitter]\nkey = \"K\"\nsecret = \"S\"\n[twitter.token]\nconsumer = { key = \"a\", secret = \"b\" }\naccess = { key = \"c\", secret = \"d\" }\n"
    );
}

#[test]
fn handwritten_config_parses() {
    let text = "[twitter]\nkey = \"mykey\"\nsecret = \"my \\\"secret\\\"\"\n";
    let c = parse_credentials(&text.as_bytes().to_vec()).unwrap();
    assert_eq!(c.consumer.key, b"mykey".to_vec());
    assert_eq!(c.consumer.secret, b"my \"secret\"".to_vec());
    assert!(c.token.is_none());
}

#[test]
fn malformed_configs_are_rejected() {
    let cases: Vec<&str> = vec![
        "",
        "nonsense",
        "[twitter]\n",
        "[twitter]\nkey = \"a\"\nsecret = \"b\"",
        "[twitter]\nkey = \"a\nsecret = \"b\"\n",
        "[twitter]\nkey = \"a\"\nsecret = \"b\"\ntrailing",
        "[twitter]\nkey = \"a\\x\"\nsecret = \"b\"\n",
        "[twitter]\nkey = \"a\"\nsecret = \"b\"\n[twitter.token]\n",
    ];
    for text in cases {
        let r = parse_credentials(&text.as_bytes().to_vec());
        assert_eq!(r.unwrap_err(), ConfigError::Malformed);
    }
}

#[test]
fn plain_mode_lists_three_posts_ascending() {
    let mut buffer = PostBuffer::new();
    let page = vec![post(2, "bob", "middle"), post(1, "alice", "oldest"), post(3, "carol", "newest")];
    buffer.merge(&page);
    let lines = plain_lines(&buffer);
    assert_eq!(lines.len(), 3);
    assert_eq!(lines[0], b"<@alice> oldest".to_vec());
    assert_eq!(lines[1], b"<@bob> middle".to_vec());
    assert_eq!(lines[2], b"<@carol> newest".to_vec());
}

#[test]
fn plain_mode_of_empty_buffer_is_empty() {
    let buffer = PostBuffer::new();
    assert_eq!(plain_lines(&buffer).len(), 0);
}

#[test]
fn panel_colors_cycle_through_the_palette() {
    let mut buffer = PostBuffer::new();
    let mut page = Vec::new();
    for i in 0..12i64 {
        page.push(post(i, "h", "t"));
    }
    buffer.merge(&page);
    let palette = panel_palette();
    assert_eq!(palette.len(), 10);
    let rows = panel_rows(&buffer);
    assert_eq!(rows.len(), 12);
    for (i, row) in rows.iter().enumerate() {
        assert_eq!(row.color, palette[i % palette.len()]);
    }
    assert_eq!(rows[10].color, rows[0].color);
    assert_eq!(rows[11].color, rows[1].color);
}

#[test]
fn panel_palette_is_tableau10() {
    let palette = panel_palette();
    let expected = vec![
        Rgb { r: 0x4e, g: 0x79, b: 0xa7 },
        Rgb { r: 0xf2, g: 0x8e, b: 0x2c },
        Rgb { r: 0xe1, g: 0x57, b: 0x59 },
        Rgb { r: 0x76, g: 0xb7, b: 0xb2 },
        Rgb { r: 0x59, g: 0xa1, b: 0x4f },
        Rgb { r: 0xed, g: 0xc9, b: 0x49 },
        Rgb { r: 0xaf, g: 0x7a, b: 0xa1 },
        Rgb { r: 0xff, g: 0x9d, b: 0xa7 },
        Rgb { r: 0x9c, g: 0x75, b: 0x5f },
        Rgb { r: 0xba, g: 0xb0, b: 0xab },
    ];
    assert_eq!(palette, expected);
}

#[test]
fn panel_rows_are_newest_first_with_times() {
    let mut buffer = PostBuffer::new();
    let page = vec![post(3661, "alice", "hello"), post(7322, "bob", "world")];
    buffer.merge(&page);
    let rows = panel_rows(&buffer);
    assert_eq!(rows.len(), 2);
    assert_eq!(rows[0].handle, b"bob".to_vec());
    assert_eq!(rows[0].time, b"02:02:02".to_vec());
    assert_eq!(rows[0].text, b"world".to_vec());
    assert_eq!(rows[1].handle, b"alice".to_vec());
    assert_eq!(rows[1].time, b"01:01:01".to_vec());
}

#[test]
fn panel_mode_accepts_any_nonempty_palette() {
    let mut buffer = PostBuffer::new();
    let page = vec![post(1, "a", "x"), post(2, "b", "y"), post(3, "c", "z")];
    buffer.merge(&page);
    let palette = vec![Rgb { r: 1, g: 2, b: 3 }, Rgb { r: 4, g: 5, b: 6 }];
    let rows = render_panel(&buffer, &palette);
    assert_eq!(rows[0].color, palette[0]);
    assert_eq!(rows[1].color, palette[1]);
    assert_eq!(rows[2].color, palette[0]);
}

#[test]
fn hms_formats_day_seconds() {
    assert_eq!(format_hms(0), b"00:00:00".to_vec());
    assert_eq!(format_hms(3661), b"01:01:01".to_vec());
    assert_eq!(format_hms(86399), b"23:59:59".to_vec());
    assert_eq!(format_hms(86400), b"00:00:00".to_vec());
    assert_eq!(format_hms(-1), b"23:59:59".to_vec());
    assert_eq!(format_hms(1700000000), b"22:13:20".to_vec());
}

#[test]
fn stored_token_is_used_without_network() {
    let c = creds("k", "s", Some(token("tck", "tcs", "tak", "tas")));
    match begin_auth(c) {
        AuthStep::UseStored { token } => {
            assert_eq!(token.access.key, b"tak".to_vec());
        },
        AuthStep::RequestAuth { .. } => panic!("a stored token must be used directly"),
    }
}

#[test]
fn bearer_token_is_a_recoverable_error() {
    let r = accept_remote_token(RemoteToken::Bearer { token: b"b".to_vec() });
    assert_eq!(r.unwrap_err(), AuthError::InvalidTokenKind);
}

#[test]
fn pin_flow_prints_url_and_persists_token() {
    let c = creds("appkey", "appsecret", None);
    let step = begin_auth(c);
    let consumer = match step {
        AuthStep::RequestAuth { consumer } => consumer,
        AuthStep::UseStored { .. } => panic!("no token is stored"),
    };
    assert_eq!(consumer.key, b"appkey".to_vec());

    let url = b"https://example.invalid/authorize?oauth_token=tmp".to_vec();
    let line = authorize_line(&url);
    let mut expected = b"visit ".to_vec();
    expected.extend_from_slice(&url);
    assert_eq!(line, expected);

    let pin = "7431".to_string();
    assert!(!pin.is_empty());
    let remote = RemoteToken::Access {
        consumer: KeyPair { key: consumer.key.clone(), secret: consumer.secret.clone() },
        access: KeyPair { key: b"granted-key".to_vec(), secret: b"granted-secret".to_vec() },
    };
    let tok = accept_remote_token(remote).unwrap();
    assert!(!tok.access.key.is_empty());

    let updated = store_token(creds("appkey", "appsecret", None), tok);
    let bytes = serialize_credentials(&updated);
    let back = parse_credentials(&bytes).unwrap();
    let stored = back.token.expect("the obtained token must be persisted");
    assert!(!stored.access.key.is_empty());
    assert_eq!(stored.access.key, b"granted-key".to_vec());
}

#[test]
fn update_replaces_cursor_and_merges() {
    let merger = TimelineMerger::new();
    assert!(merger.cursor.is_none());
    let page = Page { cursor: Some(42), posts: vec![post(1, "a", "x"), post(2, "b", "y")] };
    let merger = merger.update(Ok(page)).unwrap();
    assert_eq!(merger.cursor, Some(42));
    assert_eq!(merger.buffer.len(), 2);
    let page2 = Page { cursor: Some(99), posts: vec![post(3, "c", "z")] };
    let merger = merger.update(Ok(page2)).unwrap();
    assert_eq!(merger.cursor, Some(99));
    assert_eq!(merger.buffer.len(), 3);
}

#[test]
fn update_hands_fetch_errors_back() {
    let merger = TimelineMerger::new();
    let r = merger.update(Err(FetchError::Network));
    assert_eq!(r.unwrap_err(), FetchError::Network);
}
