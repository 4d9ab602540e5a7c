use fakemail::header_map::HeaderMap;
use fakemail::message::{generate, GenError, EPOCH_1990};
use fakemail::parts::{create_plaintext, Body, Part};

fn now_ts() -> i64 {
    chrono::Utc::now().timestamp()
}

fn parent_with(headers: &[(&str, &str)]) -> Part {
    let mut hm = HeaderMap::new();
    for (k, v) in headers {
        hm.insert(k.to_string(), v.to_string());
    }
    Part {
        headers: hm,
        body: Body::Data(b"parent body\r\n".to_vec()),
    }
}

fn header<'a>(p: &'a Part, name: &str) -> &'a str {
    p.headers.get(name).map(|v| v.as_str()).unwrap_or("")
}

#[test]
fn reply_cites_parent_and_extends_references() {
    let parent = parent_with(&[("Message-ID", "<1@a.example>"), ("Subject", "Hello")]);
    let reply = generate(Some(&parent), Vec::new(), now_ts()).unwrap();
    assert_eq!(header(&reply, "In-Reply-To"), "<1@a.example>");
    assert_eq!(header(&reply, "References"), "<1@a.example>");
    assert_eq!(header(&reply, "Subject"), "Re: Hello");
}

#[test]
fn reply_appends_to_existing_references() {
    let parent = parent_with(&[
        ("Message-ID", "<3@c.example>"),
        ("Subject", "Re: Hello"),
        ("References", "<1@a.example> <2@b.example>"),
        ("In-Reply-To", "<2@b.example>"),
    ]);
    let reply = generate(Some(&parent), Vec::new(), now_ts()).unwrap();
    assert_eq!(
        header(&reply, "References"),
        "<1@a.example> <2@b.example> <3@c.example>"
    );
    assert_eq!(header(&reply, "In-Reply-To"), "<3@c.example>");
    // An existing `Re: ` prefix is not doubled.
    assert_eq!(header(&reply, "Subject"), "Re: Hello");
}

#[test]
fn reply_falls_back_to_parent_in_reply_to() {
    let parent = parent_with(&[
        ("Message-ID", "<5@e.example>"),
        ("Subject", "Topic"),
        ("In-Reply-To", "<4@d.example>"),
    ]);
    let reply = generate(Some(&parent), Vec::new(), now_ts()).unwrap();
    assert_eq!(header(&reply, "References"), "<4@d.example> <5@e.example>");
}

#[test]
fn root_message_date_is_between_epoch_and_now() {
    let now = now_ts();
    let root = generate(None, Vec::new(), now).unwrap();
    let date = chrono::DateTime::parse_from_rfc2822(header(&root, "Date"))
        .expect("generated Date does not parse")
        .timestamp();
    assert!(date >= EPOCH_1990);
    assert!(date <= now);
    assert!(!header(&root, "Subject").is_empty());
    assert!(!header(&root, "From").is_empty());
}

#[test]
fn reply_date_is_strictly_after_parent_date() {
    let parent = parent_with(&[
        ("Message-ID", "<1@a.example>"),
        ("Subject", "Hello"),
        ("Date", "Mon, 1 Jan 1990 00:00:00 +0000"),
    ]);
    let reply = generate(Some(&parent), Vec::new(), now_ts()).unwrap();
    let date = chrono::DateTime::parse_from_rfc2822(header(&reply, "Date"))
        .expect("reply Date does not parse")
        .timestamp();
    assert!(date > 631152000);
}

#[test]
fn unparseable_parent_date_is_fatal() {
    let parent = parent_with(&[
        ("Message-ID", "<1@a.example>"),
        ("Subject", "Hello"),
        ("Date", "not a date at all"),
    ]);
    let r = generate(Some(&parent), Vec::new(), now_ts());
    assert_eq!(r.err(), Some(GenError::BadParentDate));
}

#[test]
fn message_id_has_angle_bracket_shape() {
    let root = generate(None, Vec::new(), now_ts()).unwrap();
    let mid = header(&root, "Message-ID");
    assert!(mid.starts_with('<'));
    assert!(mid.ends_with('>'));
    let inner = &mid[1..mid.len() - 1];
    let at = inner.find('@').expect("Message-ID has no @");
    assert!(inner[..at].chars().all(|c| c.is_ascii_digit()));
    assert!(!inner[at + 1..].is_empty());
}

#[test]
fn message_without_attachments_is_a_single_part() {
    let root = generate(None, Vec::new(), now_ts()).unwrap();
    match &root.body {
        Body::Data(d) => assert!(!d.is_empty()),
        Body::Children(_) => panic!("expected a single-part message"),
    }
    let rendered = root.render().unwrap();
    assert!(rendered.contains("\r\n\r\n"));
}

#[test]
fn message_with_attachments_becomes_multipart() {
    let attachment = fakemail::parts::create_attachment_part(vec![1, 2, 3], "png", "pic.png");
    let other = fakemail::parts::create_attachment_part(vec![4, 5], "pdf", "doc.pdf");
    let root = generate(None, vec![attachment, other], now_ts()).unwrap();
    match &root.body {
        Body::Children(cs) => {
            assert_eq!(cs.len(), 3);
            assert!(matches!(cs[0].body, Body::Data(_)));
            assert_eq!(
                cs[1].headers.get("Content-Type").map(|v| v.as_str()),
                Some("image/png")
            );
            assert_eq!(
                cs[2].headers.get("Content-Type").map(|v| v.as_str()),
                Some("application/pdf")
            );
        },
        Body::Data(_) => panic!("expected a multipart message"),
    }
    assert!(header(&root, "Content-Type").starts_with("multipart/mixed; boundary=\""));
    let rendered = root.render().unwrap();
    assert!(rendered.contains("Content-Disposition: attachment; filename=\"pic.png\";"));
}

#[test]
fn generated_thread_renders_end_to_end() {
    let now = now_ts();
    let first = generate(None, Vec::new(), now).unwrap();
    let first_text = first.render().unwrap();
    assert!(first_text.contains("\r\n\r\n"));
    let reply = generate(Some(&first), Vec::new(), now).unwrap();
    let expected_ref = header(&first, "Message-ID").to_string();
    assert_eq!(header(&reply, "In-Reply-To"), expected_ref);
    let reply_text = reply.render().unwrap();
    assert!(reply_text.contains(&expected_ref));
    let first_date = chrono::DateTime::parse_from_rfc2822(header(&first, "Date"))
        .unwrap()
        .timestamp();
    let reply_date = chrono::DateTime::parse_from_rfc2822(header(&reply, "Date"))
        .unwrap()
        .timestamp();
    assert!(reply_date > first_date);
}

#[test]
fn plaintext_from_create_plaintext_has_no_headers() {
    let p = create_plaintext("abc\r\n");
    assert_eq!(p.headers.len(), 0);
    assert!(p.headers.get("Content-Transfer-Encoding").is_none());
}
