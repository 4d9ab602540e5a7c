use vstd::prelude::*;
use vstd::string::StringExecFns;
use crate::header_map::HeaderMap;
use crate::header_map::lookup;
use crate::parts::Body;
use crate::parts::Part;
use crate::parts::create_multipart_mixed;
use crate::parts::create_plaintext;
use crate::strutil::decimal_of;
use crate::strutil::has_re_prefix;
use crate::strutil::join_crlf;
use crate::strutil::push_decimal;
use crate::strutil::starts_with_re;
use chrono::TimeZone;
use fake::Fake;

verus! {

/// Seconds of the Unix epoch at 1990-01-01T00:00:00Z, the earliest date a
/// fresh thread is given.
pub const EPOCH_1990: i64 = 631152000;

/// The earliest timestamp the date formatter accepts: year 0, the lowest
/// year RFC 2822 text can carry.
pub const MIN_DATE_TS: i64 = -62167219200;

/// The latest timestamp the date formatter accepts: the last second of
/// year 9999, the highest year RFC 2822 text can carry.
pub const MAX_DATE_TS: i64 = 253402300799;

/// The latest parent date a reply can be computed for: far enough below
/// the formatter's ceiling that a date drawn after it still fits.
pub const MAX_PARENT_TS: i64 = 253342300859;

/// Why a message cannot be generated. Fatal to the run.
#[derive(Clone, Copy, Debug, PartialEq, Eq, Structural)]
pub enum GenError {
    /// The parent's Date header does not parse as an RFC 2822 date-time,
    /// or lies outside the range a reply can be dated after.
    BadParentDate,
}

/// The timestamp an RFC 2822 date-time string denotes, if it parses.
pub uninterp spec fn rfc2822_ts_of(s: Seq<char>) -> Option<int>;

/// The RFC 2822 text written for a UTC timestamp.
pub uninterp spec fn rfc2822_text_of(ts: int) -> Seq<char>;

/// Relies on chrono's `DateTime::parse_from_rfc2822`: a pure function of
/// the text; seconds since the Unix epoch on success.
#[verifier::external_body]
pub(crate) fn parse_rfc2822(s: &str) -> (r: Option<i64>)
    ensures
        r matches Some(ts) ==> rfc2822_ts_of(s@) == Some(ts as int),
        r is None ==> rfc2822_ts_of(s@) is None,
{
    match chrono::DateTime::parse_from_rfc2822(s) {
        Ok(dt) => Some(dt.timestamp()),
        Err(_) => None,
    }
}

/// Relies on chrono's `DateTime::to_rfc2822` on `Utc.timestamp_opt`: a pure
/// function of the timestamp; it panics only for years outside 0..=9999,
/// which the bounds exclude.
#[verifier::external_body]
pub(crate) fn format_rfc2822(ts: i64) -> (r: String)
    requires
        MIN_DATE_TS <= ts <= MAX_DATE_TS,
    ensures
        r@ == rfc2822_text_of(ts as int),
{
    chrono::Utc.timestamp_opt(ts, 0).unwrap().to_rfc2822()
}

/// Relies on chrono's `Utc::now`: nanoseconds of the current time, when
/// they fit an i64.
#[verifier::external_body]
fn now_nanos() -> (r: Option<i64>) {
    chrono::Utc::now().timestamp_nanos_opt()
}

/// Relies on fake's `SafeEmail` faker: a fresh random email address.
#[verifier::external_body]
fn fake_email_address() -> (r: String) {
    fake::faker::internet::raw::SafeEmail(fake::locales::EN).fake()
}

/// Relies on fake's `FreeEmailProvider` faker: a random mail domain.
#[verifier::external_body]
fn fake_email_provider() -> (r: String) {
    fake::faker::internet::raw::FreeEmailProvider(fake::locales::EN).fake()
}

/// Relies on fake's `CatchPhrase` faker: a fresh random subject line.
#[verifier::external_body]
fn fake_catch_phrase() -> (r: String) {
    fake::faker::company::raw::CatchPhrase(fake::locales::EN).fake()
}

/// Relies on fake's `Sentences` faker: between `lo` (inclusive) and `hi`
/// (exclusive) random sentences; the count is drawn from exactly that
/// range, which must be nonempty.
#[verifier::external_body]
fn fake_sentences(lo: usize, hi: usize) -> (r: Vec<String>)
    requires
        lo < hi,
    ensures
        lo <= r@.len() < hi,
{
    fake::faker::lorem::raw::Sentences(fake::locales::EN, lo..hi).fake()
}

/// Relies on fake's `DateTimeBetween` faker: a timestamp drawn as `lo`
/// plus a whole number of minutes below `hi - lo`; the range must span at
/// least one minute, and the bounds must be representable dates.
#[verifier::external_body]
fn fake_datetime_between(lo: i64, hi: i64) -> (r: i64)
    requires
        MIN_DATE_TS <= lo,
        hi <= MAX_DATE_TS,
        lo + 60 <= hi,
    ensures
        lo <= r < hi,
{
    let start = chrono::Utc.timestamp_opt(lo, 0).unwrap();
    let end = chrono::Utc.timestamp_opt(hi, 0).unwrap();
    let dt: chrono::DateTime<chrono::Utc> =
        fake::faker::chrono::raw::DateTimeBetween(fake::locales::EN, start, end).fake();
    dt.timestamp()
}

/// Relies on fake's `DateTimeAfter` faker: the given timestamp plus one to
/// a million minutes, so the result is strictly later and stays below the
/// formatter's ceiling for any accepted parent date.
#[verifier::external_body]
fn fake_datetime_after(ts: i64) -> (r: i64)
    requires
        MIN_DATE_TS <= ts <= MAX_PARENT_TS,
    ensures
        ts + 60 <= r <= ts + 59999940,
{
    let after = chrono::Utc.timestamp_opt(ts, 0).unwrap();
    let dt: chrono::DateTime<chrono::Utc> =
        fake::faker::chrono::raw::DateTimeAfter(fake::locales::EN, after).fake();
    dt.timestamp()
}

/// Relies on fake's datetime faker: a timestamp built from a random i64 of
/// nanoseconds, hence within about 292 years of the epoch.
#[verifier::external_body]
fn fake_datetime_any() -> (r: i64)
    ensures
        -9223372037 <= r <= 9223372036,
{
    let dt: chrono::DateTime<chrono::Utc> =
        fake::faker::chrono::raw::DateTime(fake::locales::EN).fake();
    dt.timestamp()
}

/// The Message-ID text built from a number and a domain.
pub open spec fn message_id_text_of(n: int, domain: Seq<char>) -> Seq<char> {
    "<"@ + decimal_of(n) + "@"@ + domain + ">"@
}

/// The parent's Message-ID value; replies cite it.
pub open spec fn parent_id_of(pe: Seq<(Seq<char>, Seq<char>)>) -> Seq<char> {
    match lookup(pe, "Message-ID"@) {
        Some(pid) => pid,
        None => Seq::empty(),
    }
}

/// The References value of a reply: the parent's References, else its
/// In-Reply-To, else nothing, with the parent's Message-ID appended after
/// a space.
pub open spec fn reply_references_of(pe: Seq<(Seq<char>, Seq<char>)>) -> Seq<char> {
    match lookup(pe, "References"@) {
        Some(refs) => refs + " "@ + parent_id_of(pe),
        None => match lookup(pe, "In-Reply-To"@) {
            Some(irt) => irt + " "@ + parent_id_of(pe),
            None => parent_id_of(pe),
        },
    }
}

/// The Subject of a reply: the parent's Subject, prefixed with `Re: `
/// unless it already is.
pub open spec fn reply_subject_of(pe: Seq<(Seq<char>, Seq<char>)>) -> Seq<char> {
    match lookup(pe, "Subject"@) {
        Some(s) => if has_re_prefix(s) {
            s
        } else {
            "Re: "@ + s
        },
        None => Seq::empty(),
    }
}

/// Whether a parent's Date header, if present, can be replied after: it
/// must parse and lie in the range the reply dater accepts.
pub open spec fn parent_date_accepted(pe: Seq<(Seq<char>, Seq<char>)>) -> bool {
    match lookup(pe, "Date"@) {
        None => true,
        Some(dv) => match rfc2822_ts_of(dv) {
            Some(ts) => MIN_DATE_TS as int <= ts <= MAX_PARENT_TS as int,
            None => false,
        },
    }
}

/// Pairwise facts about the header names the generator writes.
proof fn lemma_message_key_facts()
    ensures
        "From"@ != "Message-ID"@,
        "From"@ != "In-Reply-To"@,
        "From"@ != "References"@,
        "From"@ != "Subject"@,
        "From"@ != "Date"@,
        "Message-ID"@ != "In-Reply-To"@,
        "Message-ID"@ != "References"@,
        "Message-ID"@ != "Subject"@,
        "Message-ID"@ != "Date"@,
        "In-Reply-To"@ != "References"@,
        "In-Reply-To"@ != "Subject"@,
        "In-Reply-To"@ != "Date"@,
        "References"@ != "Subject"@,
        "References"@ != "Date"@,
        "Subject"@ != "Date"@,
        "Content-Type"@ != "From"@,
        "Content-Type"@ != "Message-ID"@,
        "Content-Type"@ != "In-Reply-To"@,
        "Content-Type"@ != "References"@,
        "Content-Type"@ != "Subject"@,
        "Content-Type"@ != "Date"@,
{
    reveal_strlit("From");
    reveal_strlit("Message-ID");
    reveal_strlit("In-Reply-To");
    reveal_strlit("References");
    reveal_strlit("Subject");
    reveal_strlit("Date");
    reveal_strlit("Content-Type");
    assert("From"@.len() == 4);
    assert("Message-ID"@.len() == 10);
    assert("In-Reply-To"@.len() == 11);
    assert("References"@.len() == 10);
    assert("Subject"@.len() == 7);
    assert("Date"@.len() == 4);
    assert("Content-Type"@.len() == 12);
    assert("From"@[0] == 'F');
    assert("Date"@[0] == 'D');
    assert("Message-ID"@[0] == 'M');
    assert("References"@[0] == 'R');
}

/// Builds one email as a part tree: message headers, a fresh plaintext
/// body, and, when attachments are handed in, a multipart/mixed root that
/// carries the text first and the attachments after it.
///
/// With a parent, the message is a reply: it cites the parent's
/// Message-ID, extends its References, reuses its Subject under a `Re: `
/// prefix, and is dated strictly after the parent's parsed Date. Without
/// one it starts a thread, dated between the 1990 epoch and `now_ts`.
pub fn generate(parent: Option<&Part>, attachments: Vec<Part>, now_ts: i64) -> (r: Result<
    Part,
    GenError,
>)
    requires
        EPOCH_1990 + 60 <= now_ts <= MAX_DATE_TS,
        parent matches Some(p) ==> lookup(p.headers.entries(), "Message-ID"@) is Some && lookup(
            p.headers.entries(),
            "Subject"@,
        ) is Some,
    ensures
        r is Err <==> (parent matches Some(p) && !parent_date_accepted(p.headers.entries())),
        r matches Err(e) ==> e == GenError::BadParentDate,
        r matches Ok(root) ==> root.headers.wf() && lookup(
            root.headers.entries(),
            "From"@,
        ) is Some && (exists|n: int, dom: Seq<char>|
            0 <= n && lookup(root.headers.entries(), "Message-ID"@) == Some(
                #[trigger] message_id_text_of(n, dom),
            )),
        r matches Ok(root) ==> (parent matches Some(p) ==> lookup(
            root.headers.entries(),
            "In-Reply-To"@,
        ) == Some(parent_id_of(p.headers.entries())) && lookup(
            root.headers.entries(),
            "References"@,
        ) == Some(reply_references_of(p.headers.entries())) && lookup(
            root.headers.entries(),
            "Subject"@,
        ) == Some(reply_subject_of(p.headers.entries()))),
        r matches Ok(root) ==> (parent is None ==> lookup(
            root.headers.entries(),
            "Subject"@,
        ) is Some && (exists|ts: int|
            EPOCH_1990 as int <= ts <= now_ts as int && lookup(root.headers.entries(), "Date"@)
                == Some(#[trigger] rfc2822_text_of(ts)))),
        r matches Ok(root) ==> (parent matches Some(p) ==> (lookup(
            p.headers.entries(),
            "Date"@,
        ) matches Some(dv) ==> (rfc2822_ts_of(dv) matches Some(pts) && (exists|ts: int|
            pts < ts <= MAX_DATE_TS as int && lookup(root.headers.entries(), "Date"@) == Some(
                #[trigger] rfc2822_text_of(ts),
            ))))),
        r matches Ok(root) ==> (parent matches Some(p) ==> (lookup(
            p.headers.entries(),
            "Date"@,
        ) is None ==> (exists|ts: int|
            MIN_DATE_TS as int <= ts <= MAX_DATE_TS as int && lookup(
                root.headers.entries(),
                "Date"@,
            ) == Some(#[trigger] rfc2822_text_of(ts))))),
        r matches Ok(root) ==> (attachments@.len() == 0 ==> root.body is Data),
        r matches Ok(root) ==> (attachments@.len() > 0 ==> (root.body matches Body::Children(cs)
            && cs@.len() == attachments@.len() + 1 && cs@.skip(1) == attachments@ && cs@[0].body
            is Data && lookup(root.headers.entries(), "Content-Type"@) is Some)),
{
    let mut hdrs = HeaderMap::new();
    proof {
        lemma_message_key_facts();
    }
    let from = fake_email_address();
    hdrs.insert(String::from_str("From"), from);

    let ns = match now_nanos() {
        Some(x) => x,
        None => 0,
    };
    let rem = ns % 1000000;
    let num: u64 = if rem < 0 {
        (rem + 1000000) as u64
    } else {
        rem as u64
    };
    let domain = fake_email_provider();
    let mut mid = String::from_str("<");
    push_decimal(&mut mid, num);
    mid.append("@");
    mid.append(domain.as_str());
    mid.append(">");
    proof {
        assert(mid@ =~= message_id_text_of(num as int, domain@));
    }
    hdrs.insert(String::from_str("Message-ID"), mid);

    match parent {
        Some(m) => {
            let ghost pe = m.headers.entries();
            let parent_id: String = match m.headers.get("Message-ID") {
                Some(v) => v.clone(),
                None => vstd::pervasive::unreached(),
            };
            hdrs.insert(String::from_str("In-Reply-To"), parent_id.clone());

            let mut refs: String = match m.headers.get("References") {
                Some(v) => {
                    let mut x = v.clone();
                    x.append(" ");
                    x
                },
                None => match m.headers.get("In-Reply-To") {
                    Some(v) => {
                        let mut x = v.clone();
                        x.append(" ");
                        x
                    },
                    None => String::new(),
                },
            };
            refs.append(parent_id.as_str());
            proof {
                assert(refs@ =~= reply_references_of(pe));
            }
            hdrs.insert(String::from_str("References"), refs);

            let subj: &String = match m.headers.get("Subject") {
                Some(v) => v,
                None => vstd::pervasive::unreached(),
            };
            let new_subj: String = if starts_with_re(subj.as_str()) {
                subj.clone()
            } else {
                let mut x = String::from_str("Re: ");
                x.append(subj.as_str());
                x
            };
            proof {
                assert(new_subj@ == reply_subject_of(pe));
            }
            hdrs.insert(String::from_str("Subject"), new_subj);

            let date_ts: i64 = match m.headers.get("Date") {
                None => fake_datetime_any(),
                Some(hdr) => match parse_rfc2822(hdr.as_str()) {
                    None => {
                        return Err(GenError::BadParentDate);
                    },
                    Some(pts) => {
                        if pts < MIN_DATE_TS || pts > MAX_PARENT_TS {
                            return Err(GenError::BadParentDate);
                        }
                        fake_datetime_after(pts)
                    },
                },
            };
            hdrs.insert(String::from_str("Date"), format_rfc2822(date_ts));
        },
        None => {
            let date_ts = fake_datetime_between(EPOCH_1990, now_ts);
            hdrs.insert(String::from_str("Date"), format_rfc2822(date_ts));
            hdrs.insert(String::from_str("Subject"), fake_catch_phrase());
        },
    }

    let sentences = fake_sentences(1, 10);
    let text = join_crlf(&sentences);
    let plain = create_plaintext(text.as_str());

    let mut root = if attachments.len() > 0 {
        let mut children: Vec<Part> = Vec::new();
        children.push(plain);
        let mut atts = attachments;
        children.append(&mut atts);
        create_multipart_mixed(children)
    } else {
        plain
    };
    root.headers.extend(hdrs);
    Ok(root)
}

} // verus!
