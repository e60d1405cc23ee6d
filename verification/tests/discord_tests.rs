use hockey_reminder::discord::{attachment_payload_json, escape_header_value, message_payload_json, multipart_body, rand_seed, Discord};

#[test]
fn discord_new_clones_url() {
    let url = "https://example.invalid/webhook".to_string();
    let d1 = Discord::new(url.clone());
    let d2 = d1.clone();
    // Ensure cloning retains internal URL equality by round-tripping a debug string
    let dbg1 = format!("{:?}", d1);
    let dbg2 = format!("{:?}", d2);
    assert!(dbg1.contains("Discord"));
    assert_eq!(dbg1, dbg2);
    // Avoid network: don't call the posting code here
    let _ = url; // silence unused
}

#[test]
fn escape_header_value_swaps_quotes() {
    assert_eq!(escape_header_value("a\"b\"c"), "a'b'c");
    assert_eq!(escape_header_value("plain"), "plain");
}

#[test]
fn message_payload_wraps_and_escapes() {
    assert_eq!(message_payload_json("hello"), "{\"content\":\"hello\"}");
    assert_eq!(message_payload_json("a\"b"), "{\"content\":\"a\\\"b\"}");
}

#[test]
fn attachment_payload_escapes_json() {
    let payload = attachment_payload_json("say \"hi\"\nback\\slash", "schedule.csv");
    assert_eq!(
        payload,
        "{\"content\":\"say \\\"hi\\\"\\nback\\\\slash\",\"attachments\":[{\"id\":0,\"filename\":\"schedule.csv\"}]}"
    );
    // control characters take the four-digit hexadecimal form
    let payload2 = attachment_payload_json("a\u{1}b", "f");
    assert!(payload2.contains("a\\u0001b"), "payload was: {}", payload2);
}

#[test]
fn multipart_body_carries_both_parts() {
    let payload = attachment_payload_json("hello", "schedule.csv");
    let body = multipart_body("xyz", &payload, "schedule.csv", b"csv,data\n");
    let text = String::from_utf8(body).expect("multipart body is valid text here");
    let expected = "--xyz\r\nContent-Disposition: form-data; name=\"payload_json\"\r\nContent-Type: application/json\r\n\r\n{\"content\":\"hello\",\"attachments\":[{\"id\":0,\"filename\":\"schedule.csv\"}]}\r\n--xyz\r\nContent-Disposition: form-data; name=\"files[0]\"; filename=\"schedule.csv\"\r\nContent-Type: application/octet-stream\r\n\r\ncsv,data\n\r\n--xyz--\r\n";
    assert_eq!(text, expected);
}

#[test]
fn rand_seed_runs() {
    // Nothing is promised of the value; the call must simply return.
    let a = rand_seed();
    let b = rand_seed();
    let _ = a;
    let _ = b;
}
