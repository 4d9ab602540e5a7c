use vstd::prelude::*;
use vstd::string::StrSliceExecFns;
use vstd::string::StringSliceAdditionalSpecFns;
use vstd::string::StringExecFns;
use crate::codec::is_alnum_seq;
use crate::codec::lower_of;
use crate::codec::lowercase;
use crate::content_type::mixed_content_type_of;
use crate::header_map::HeaderMap;
use crate::header_map::lemma_lookup_none;
use crate::strutil::str_eq;

verus! {

/// The payload of a MIME part.
pub enum Body {
    /// Opaque bytes, interpreted through `Content-Transfer-Encoding`.
    Data(Vec<u8>),
    /// The child parts of a multipart container.
    Children(Vec<Part>),
}

/// One node of a MIME message tree: headers and a body, which either holds
/// data or further parts.
pub struct Part {
    pub headers: HeaderMap,
    pub body: Body,
}

/// The media type the attachment builder assigns to a (lowercased) file
/// extension.
pub open spec fn media_type_of(ext: Seq<char>) -> Seq<char> {
    if ext == "png"@ {
        "image/png"@
    } else if ext == "jpg"@ || ext == "jpeg"@ {
        "image/jpeg"@
    } else if ext == "gif"@ {
        "image/gif"@
    } else if ext == "pdf"@ {
        "application/pdf"@
    } else if ext == "txt"@ {
        "text/plain"@
    } else if ext == "md"@ || ext == "markdown"@ {
        "text/markdown"@
    } else {
        "application/octet-stream"@
    }
}

/// The Content-Disposition value of an attachment named `name`.
pub open spec fn attachment_disposition_of(name: Seq<char>) -> Seq<char> {
    "attachment; filename=\""@ + name + "\";"@
}

/// Relies on rand's `Alphanumeric` distribution (`SampleString`): a string
/// of exactly `n` characters drawn from ASCII letters and digits.
#[verifier::external_body]
fn random_alphanumeric(n: usize) -> (r: String)
    ensures
        r@.len() == n,
        is_alnum_seq(r@),
{
    rand::distr::SampleString::sample_string(&rand::distr::Alphanumeric, &mut rand::rng(), n)
}

/// Creates a plain text part: no headers, raw text bytes, which implies the
/// 7-bit transfer encoding.
pub fn create_plaintext(txt: &str) -> (r: Part)
    ensures
        r.headers.entries() =~= Seq::<(Seq<char>, Seq<char>)>::empty(),
        r.headers.wf(),
        r.body matches Body::Data(d) && d@ == txt.spec_bytes(),
{
    let hdrs = HeaderMap::new();
    let data = txt.as_bytes_vec();
    Part { headers: hdrs, body: Body::Data(data) }
}

/// Creates an opaque data part of the given media type, to be rendered in
/// base64.
pub fn create_data(data: Vec<u8>, mime_type: &str) -> (r: Part)
    ensures
        r.headers.entries() =~= seq![
            ("Content-Type"@, mime_type@),
            ("Content-Transfer-Encoding"@, "base64"@),
        ],
        r.headers.wf(),
        r.body matches Body::Data(d) && d@ == data@,
{
    let mut hdrs = HeaderMap::new();
    hdrs.insert(String::from_str("Content-Type"), String::from_str(mime_type));
    proof {
        reveal_strlit("Content-Type");
        reveal_strlit("Content-Transfer-Encoding");
        assert("Content-Type"@.len() == 12);
        assert("Content-Transfer-Encoding"@.len() == 25);
        assert(hdrs.entries() =~= seq![("Content-Type"@, mime_type@)]);
        assert(hdrs.entries()[0].0 != "Content-Transfer-Encoding"@);
        lemma_lookup_none(hdrs.entries(), "Content-Transfer-Encoding"@);
    }
    hdrs.insert(String::from_str("Content-Transfer-Encoding"), String::from_str("base64"));
    proof {
        assert(hdrs.entries() =~= seq![
            ("Content-Type"@, mime_type@),
            ("Content-Transfer-Encoding"@, "base64"@),
        ]);
    }
    Part { headers: hdrs, body: Body::Data(data) }
}

/// Creates a multipart/mixed container around the given children, with a
/// fresh random 42-character alphanumeric boundary token.
pub fn create_multipart_mixed(children: Vec<Part>) -> (r: Part)
    ensures
        r.body matches Body::Children(cs) && cs@ == children@,
        r.headers.wf(),
        exists|b: Seq<char>|
            b.len() == 42 && is_alnum_seq(b) && r.headers.entries() =~= seq![
                ("Content-Type"@, #[trigger] mixed_content_type_of(b)),
            ],
{
    let token = random_alphanumeric(42);
    let mut ct = String::new();
    ct.append("multipart/mixed; boundary=\"");
    ct.append(token.as_str());
    ct.append("\"");
    proof {
        assert(ct@ =~= mixed_content_type_of(token@));
    }
    let mut hdrs = HeaderMap::new();
    hdrs.insert(String::from_str("Content-Type"), ct);
    proof {
        let b = token@;
        assert(b.len() == 42 && is_alnum_seq(b) && hdrs.entries() =~= seq![
            ("Content-Type"@, mixed_content_type_of(b)),
        ]);
    }
    Part { headers: hdrs, body: Body::Children(children) }
}

/// The media type assigned to a file extension, compared case-insensitively.
pub fn media_type_for_extension(ext: &str) -> (r: String)
    ensures
        r@ == media_type_of(lower_of(ext@)),
{
    let low = lowercase(ext);
    let l = low.as_str();
    if str_eq(l, "png") {
        String::from_str("image/png")
    } else if str_eq(l, "jpg") || str_eq(l, "jpeg") {
        String::from_str("image/jpeg")
    } else if str_eq(l, "gif") {
        String::from_str("image/gif")
    } else if str_eq(l, "pdf") {
        String::from_str("application/pdf")
    } else if str_eq(l, "txt") {
        String::from_str("text/plain")
    } else if str_eq(l, "md") || str_eq(l, "markdown") {
        String::from_str("text/markdown")
    } else {
        String::from_str("application/octet-stream")
    }
}

/// Creates an attachment part from a file's bytes, name and extension: the
/// media type is guessed from the extension, the bytes go out in base64,
/// and the file name lands in Content-Disposition.
pub fn create_attachment_part(data: Vec<u8>, extension: &str, file_name: &str) -> (r: Part)
    ensures
        r.headers.entries() =~= seq![
            ("Content-Type"@, media_type_of(lower_of(extension@))),
            ("Content-Transfer-Encoding"@, "base64"@),
            ("Content-Disposition"@, attachment_disposition_of(file_name@)),
        ],
        r.headers.wf(),
        r.body matches Body::Data(d) && d@ == data@,
{
    let media_type = media_type_for_extension(extension);
    let mut disposition = String::new();
    disposition.append("attachment; filename=\"");
    disposition.append(file_name);
    disposition.append("\";");
    proof {
        assert(disposition@ =~= attachment_disposition_of(file_name@));
    }
    let mut hdrs = HeaderMap::new();
    hdrs.insert(String::from_str("Content-Type"), media_type);
    proof {
        reveal_strlit("Content-Type");
        reveal_strlit("Content-Transfer-Encoding");
        reveal_strlit("Content-Disposition");
        assert("Content-Type"@.len() == 12);
        assert("Content-Transfer-Encoding"@.len() == 25);
        assert("Content-Disposition"@.len() == 19);
        assert(hdrs.entries() =~= seq![("Content-Type"@, media_type_of(lower_of(extension@)))]);
        assert(hdrs.entries()[0].0 != "Content-Transfer-Encoding"@);
        lemma_lookup_none(hdrs.entries(), "Content-Transfer-Encoding"@);
    }
    hdrs.insert(String::from_str("Content-Transfer-Encoding"), String::from_str("base64"));
    proof {
        assert(hdrs.entries() =~= seq![
            ("Content-Type"@, media_type_of(lower_of(extension@))),
            ("Content-Transfer-Encoding"@, "base64"@),
        ]);
        assert(hdrs.entries()[0].0 != "Content-Disposition"@);
        assert(hdrs.entries()[1].0 != "Content-Disposition"@);
        lemma_lookup_none(hdrs.entries(), "Content-Disposition"@);
    }
    hdrs.insert(String::from_str("Content-Disposition"), disposition);
    proof {
        assert(hdrs.entries() =~= seq![
            ("Content-Type"@, media_type_of(lower_of(extension@))),
            ("Content-Transfer-Encoding"@, "base64"@),
            ("Content-Disposition"@, attachment_disposition_of(file_name@)),
        ]);
    }
    Part { headers: hdrs, body: Body::Data(data) }
}

} // verus!
