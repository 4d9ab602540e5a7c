use fakemail::header_map::HeaderMap;
use fakemail::mbox::mbox_entry;
use fakemail::parts::media_type_for_extension;
use fakemail::strutil::{join_crlf, push_decimal, starts_with_re};

#[test]
fn header_map_keeps_insertion_order_and_overwrites_in_place() {
    let mut hm = HeaderMap::new();
    hm.insert("From".to_string(), "a@example.com".to_string());
    hm.insert("Subject".to_string(), "first".to_string());
    hm.insert("Date".to_string(), "today".to_string());
    hm.insert("Subject".to_string(), "second".to_string());
    assert_eq!(hm.len(), 3);
    assert_eq!(hm.entry_at(0).0.as_str(), "From");
    assert_eq!(hm.entry_at(1).0.as_str(), "Subject");
    assert_eq!(hm.entry_at(1).1.as_str(), "second");
    assert_eq!(hm.entry_at(2).0.as_str(), "Date");
    assert_eq!(hm.get("Subject").map(|v| v.as_str()), Some("second"));
    assert!(hm.get("subject").is_none());
    assert!(hm.contains_key("Date"));
    assert!(!hm.contains_key("To"));
}

#[test]
fn header_map_extend_overwrites_and_appends() {
    let mut base = HeaderMap::new();
    base.insert("Content-Type".to_string(), "text/plain".to_string());
    base.insert("Subject".to_string(), "old".to_string());
    let mut more = HeaderMap::new();
    more.insert("Subject".to_string(), "new".to_string());
    more.insert("From".to_string(), "x@example.com".to_string());
    base.extend(more);
    assert_eq!(base.len(), 3);
    assert_eq!(base.entry_at(0).0.as_str(), "Content-Type");
    assert_eq!(base.entry_at(1).1.as_str(), "new");
    assert_eq!(base.entry_at(2).0.as_str(), "From");
}

#[test]
fn media_types_follow_the_extension_table() {
    assert_eq!(media_type_for_extension("png"), "image/png");
    assert_eq!(media_type_for_extension("PNG"), "image/png");
    assert_eq!(media_type_for_extension("jpg"), "image/jpeg");
    assert_eq!(media_type_for_extension("JPEG"), "image/jpeg");
    assert_eq!(media_type_for_extension("gif"), "image/gif");
    assert_eq!(media_type_for_extension("pdf"), "application/pdf");
    assert_eq!(media_type_for_extension("txt"), "text/plain");
    assert_eq!(media_type_for_extension("md"), "text/markdown");
    assert_eq!(media_type_for_extension("Markdown"), "text/markdown");
    assert_eq!(media_type_for_extension("exe"), "application/octet-stream");
    assert_eq!(media_type_for_extension(""), "application/octet-stream");
}

#[test]
fn mbox_entry_frames_the_rendered_text() {
    let framed = mbox_entry("Subject: x\r\n\r\nbody");
    assert_eq!(framed, "From \r\nSubject: x\r\n\r\nbody\r\n");
}

#[test]
fn decimal_digits_are_written_most_significant_first() {
    let mut s = String::new();
    push_decimal(&mut s, 0);
    assert_eq!(s, "0");
    let mut t = String::from("n=");
    push_decimal(&mut t, 1234567890);
    assert_eq!(t, "n=1234567890");
    let mut u = String::new();
    push_decimal(&mut u, u64::MAX);
    assert_eq!(u, "18446744073709551615");
}

#[test]
fn join_crlf_separates_and_terminates() {
    assert_eq!(join_crlf(&vec![]), "\r\n");
    assert_eq!(join_crlf(&vec!["one".to_string()]), "one\r\n");
    assert_eq!(
        join_crlf(&vec!["one".to_string(), "two".to_string()]),
        "one\r\ntwo\r\n"
    );
}

#[test]
fn reply_prefix_detection_is_exact() {
    assert!(starts_with_re("Re: hello"));
    assert!(!starts_with_re("RE: hello"));
    assert!(!starts_with_re("Re:hello"));
    assert!(!starts_with_re("Re "));
    assert!(!starts_with_re(""));
    assert!(starts_with_re("Re: "));
}
