use base64::Engine;
use fakemail::header_map::HeaderMap;
use fakemail::parts::{create_data, create_multipart_mixed, create_plaintext, Body, Part};
use fakemail::render::RenderError;

fn count_occurrences(haystack: &str, needle: &str) -> usize {
    let h = haystack.as_bytes();
    let n = needle.as_bytes();
    if n.is_empty() || h.len() < n.len() {
        return 0;
    }
    let mut count = 0;
    for i in 0..=(h.len() - n.len()) {
        if &h[i..i + n.len()] == n {
            count += 1;
        }
    }
    count
}

#[test]
fn plaintext_renders_bytes_verbatim_after_header_block() {
    let p = create_plaintext("hello there\r\n");
    let out = p.render().unwrap();
    assert_eq!(out, "\r\nhello there\r\n");
}

#[test]
fn plaintext_with_seven_bit_punctuation_is_untouched() {
    let p = create_plaintext("a~!@#$%^&*()_+ z\t\r\n");
    let out = p.render().unwrap();
    assert_eq!(out, "\r\na~!@#$%^&*()_+ z\t\r\n");
}

#[test]
fn base64_body_round_trips_through_decoding() {
    let payload: Vec<u8> = vec![0x00, 0xFF, 0x41, 0x42, 0x10, 0x80, 0x7F];
    let p = create_data(payload.clone(), "application/octet-stream");
    let out = p.render().unwrap();
    let blank = out.find("\r\n\r\n").expect("no blank line");
    let body = &out[blank + 4..];
    let decoded = base64::engine::general_purpose::STANDARD
        .decode(body)
        .expect("body is not valid base64");
    assert_eq!(decoded, payload);
}

#[test]
fn base64_body_exact_text() {
    let p = create_data(vec![0x41, 0x42], "text/plain");
    let out = p.render().unwrap();
    assert_eq!(
        out,
        "Content-Type: text/plain\r\nContent-Transfer-Encoding: base64\r\n\r\nQUI="
    );
}

#[test]
fn multipart_scenario_with_fixed_boundary() {
    let part_a = create_plaintext("hi\r\n");
    let part_b = create_data(vec![0x41, 0x42], "application/octet-stream");
    let mut hm = HeaderMap::new();
    hm.insert(
        "Content-Type".to_string(),
        "multipart/mixed; boundary=\"XYZ\"".to_string(),
    );
    let root = Part {
        headers: hm,
        body: Body::Children(vec![part_a, part_b]),
    };
    let out = root.render().unwrap();
    let mut expected = String::new();
    expected.push_str("Content-Type: multipart/mixed; boundary=\"XYZ\"\r\n");
    expected.push_str("\r\n");
    expected.push_str("\r\n--XYZ\r\n");
    expected.push_str("\r\nhi\r\n");
    expected.push_str("\r\n--XYZ\r\n");
    expected.push_str(
        "Content-Type: application/octet-stream\r\nContent-Transfer-Encoding: base64\r\n\r\nQUI=",
    );
    expected.push_str("\r\n--XYZ--\r\n");
    assert_eq!(out, expected);
}

#[test]
fn multipart_delimiter_counts_match_child_count() {
    let children = vec![
        create_plaintext("one\r\n"),
        create_plaintext("two\r\n"),
        create_plaintext("three\r\n"),
    ];
    let n = children.len();
    let root = create_multipart_mixed(children);
    let ct = root.headers.get("Content-Type").unwrap().clone();
    let token = ct
        .strip_prefix("multipart/mixed; boundary=\"")
        .and_then(|rest| rest.strip_suffix('"'))
        .expect("unexpected Content-Type shape");
    assert_eq!(token.len(), 42);
    assert!(token.chars().all(|c| c.is_ascii_alphanumeric()));
    let out = root.render().unwrap();
    let open = format!("\r\n--{}\r\n", token);
    let close = format!("\r\n--{}--\r\n", token);
    assert_eq!(count_occurrences(&out, &open), n);
    assert_eq!(count_occurrences(&out, &close), 1);
    // The children appear in order between the delimiters.
    let first = out.find("one").unwrap();
    let second = out.find("two").unwrap();
    let third = out.find("three").unwrap();
    assert!(first < second && second < third);
    assert!(out.ends_with(&close));
}

#[test]
fn rendering_twice_is_byte_identical() {
    let part_b = create_data(vec![1, 2, 3, 4, 5], "image/png");
    let root = create_multipart_mixed(vec![create_plaintext("body\r\n"), part_b]);
    let once = root.render().unwrap();
    let twice = root.render().unwrap();
    assert_eq!(once, twice);
}

#[test]
fn quoted_printable_encoding_is_rejected() {
    let mut hm = HeaderMap::new();
    hm.insert(
        "Content-Transfer-Encoding".to_string(),
        "quoted-printable".to_string(),
    );
    let p = Part {
        headers: hm,
        body: Body::Data(b"anything".to_vec()),
    };
    assert_eq!(p.render(), Err(RenderError::UnsupportedEncoding));
}

#[test]
fn seven_bit_body_with_high_byte_is_rejected() {
    let mut hm = HeaderMap::new();
    hm.insert("Content-Transfer-Encoding".to_string(), "7bit".to_string());
    let p = Part {
        headers: hm,
        body: Body::Data(vec![0x68, 0x69, 0xFF]),
    };
    assert_eq!(p.render(), Err(RenderError::NonAsciiData));
    // The default encoding demands 7-bit bytes too.
    let q = Part {
        headers: HeaderMap::new(),
        body: Body::Data(vec![0xC3, 0xA9]),
    };
    assert_eq!(q.render(), Err(RenderError::NonAsciiData));
}

#[test]
fn encoding_name_is_compared_case_insensitively() {
    let mut hm = HeaderMap::new();
    hm.insert(
        "Content-Transfer-Encoding".to_string(),
        "Base64".to_string(),
    );
    let p = Part {
        headers: hm,
        body: Body::Data(vec![0x41, 0x42]),
    };
    let out = p.render().unwrap();
    assert!(out.ends_with("QUI="));
}

#[test]
fn multipart_without_content_type_is_rejected() {
    let p = Part {
        headers: HeaderMap::new(),
        body: Body::Children(vec![create_plaintext("x\r\n")]),
    };
    assert_eq!(p.render(), Err(RenderError::MissingContentType));
}

#[test]
fn multipart_without_boundary_is_rejected() {
    let mut hm = HeaderMap::new();
    hm.insert("Content-Type".to_string(), "text/plain".to_string());
    let p = Part {
        headers: hm,
        body: Body::Children(vec![create_plaintext("x\r\n")]),
    };
    assert_eq!(p.render(), Err(RenderError::MissingBoundary));
    let mut hm2 = HeaderMap::new();
    hm2.insert("Content-Type".to_string(), "not a mime type".to_string());
    let q = Part {
        headers: hm2,
        body: Body::Children(vec![create_plaintext("x\r\n")]),
    };
    assert_eq!(q.render(), Err(RenderError::MissingBoundary));
}

#[test]
fn failing_child_fails_the_container() {
    let mut bad_headers = HeaderMap::new();
    bad_headers.insert(
        "Content-Transfer-Encoding".to_string(),
        "uuencode".to_string(),
    );
    let bad = Part {
        headers: bad_headers,
        body: Body::Data(b"x".to_vec()),
    };
    let root = create_multipart_mixed(vec![create_plaintext("fine\r\n"), bad]);
    assert_eq!(root.render(), Err(RenderError::UnsupportedEncoding));
}
