use vstd::prelude::*;
use vstd::string::StringExecFns;
use crate::codec::all_7bit;
use crate::codec::ascii_chars_of;
use crate::codec::ascii_string_of;
use crate::codec::base64_decode_of;
use crate::codec::base64_encode;
use crate::codec::base64_of;
use crate::codec::check_7bit;
use crate::codec::lower_of;
use crate::codec::lowercase;
use crate::content_type::boundary_of;
use crate::content_type::content_type_boundary;
use crate::header_map::lookup;
use crate::parts::Body;
use crate::parts::Part;
use crate::strutil::str_eq;

verus! {

/// Why a part cannot be rendered. All of these are fatal to the run.
#[derive(Clone, Copy, Debug, PartialEq, Eq, Structural)]
pub enum RenderError {
    /// A multipart body without a Content-Type header.
    MissingContentType,
    /// A multipart Content-Type value that does not parse as a media type
    /// carrying a boundary parameter.
    MissingBoundary,
    /// A body under the 7-bit encoding that holds bytes above 127.
    NonAsciiData,
    /// A Content-Transfer-Encoding other than absent, 7bit or base64.
    UnsupportedEncoding,
}

/// One rendered header line: `Name: Value` and a line break.
pub open spec fn header_line_of(e: (Seq<char>, Seq<char>)) -> Seq<char> {
    e.0 + ": "@ + e.1 + "\r\n"@
}

/// The rendered header lines, in entry order.
pub open spec fn header_lines_of(entries: Seq<(Seq<char>, Seq<char>)>) -> Seq<char>
    decreases entries.len(),
{
    if entries.len() == 0 {
        Seq::empty()
    } else {
        header_line_of(entries[0]) + header_lines_of(entries.drop_first())
    }
}

/// The header block: every header line, closed by a blank line.
pub open spec fn header_block_of(entries: Seq<(Seq<char>, Seq<char>)>) -> Seq<char> {
    header_lines_of(entries) + "\r\n"@
}

/// The delimiter emitted before each child of a multipart body.
pub open spec fn open_delimiter_of(b: Seq<char>) -> Seq<char> {
    "\r\n--"@ + b + "\r\n"@
}

/// The delimiter emitted once after the last child.
pub open spec fn close_delimiter_of(b: Seq<char>) -> Seq<char> {
    "\r\n--"@ + b + "--\r\n"@
}

/// What a data body renders to under the transfer encoding that the
/// headers declare: absent or `7bit` (case-insensitively) demands 7-bit
/// bytes and reproduces them verbatim; `base64` emits base64 text; any
/// other value is unsupported.
pub open spec fn data_body_of(entries: Seq<(Seq<char>, Seq<char>)>, d: Seq<u8>) -> Result<
    Seq<char>,
    RenderError,
> {
    match lookup(entries, "Content-Transfer-Encoding"@) {
        None => if all_7bit(d) {
            Ok(ascii_chars_of(d))
        } else {
            Err(RenderError::NonAsciiData)
        },
        Some(v) => {
            let enc = lower_of(v);
            if enc == "7bit"@ || enc == ""@ {
                if all_7bit(d) {
                    Ok(ascii_chars_of(d))
                } else {
                    Err(RenderError::NonAsciiData)
                }
            } else if enc == "base64"@ {
                Ok(base64_of(d))
            } else {
                Err(RenderError::UnsupportedEncoding)
            }
        },
    }
}

/// Whether the headers declare the base64 transfer encoding.
pub open spec fn declares_base64(entries: Seq<(Seq<char>, Seq<char>)>) -> bool {
    lookup(entries, "Content-Transfer-Encoding"@) matches Some(v) && lower_of(v) == "base64"@
}

/// The bytes of a data body; empty for a multipart body.
pub open spec fn data_bytes_of(p: Part) -> Seq<u8> {
    match p.body {
        Body::Data(d) => d@,
        Body::Children(_) => Seq::empty(),
    }
}

/// The exact MIME text of a part: its header block, then its body; a
/// multipart body opens every child with the boundary delimiter and closes
/// with the final delimiter.
pub open spec fn render_of(p: Part) -> Result<Seq<char>, RenderError>
    decreases p, 1int, 0int,
{
    match p.body {
        Body::Data(d) => match data_body_of(p.headers.entries(), d@) {
            Ok(body) => Ok(header_block_of(p.headers.entries()) + body),
            Err(e) => Err(e),
        },
        Body::Children(cs) => match lookup(p.headers.entries(), "Content-Type"@) {
            None => Err(RenderError::MissingContentType),
            Some(ct) => match boundary_of(ct) {
                None => Err(RenderError::MissingBoundary),
                Some(b) => match rendered_children_of(cs, b, cs@.len() as int) {
                    Ok(inner) => Ok(
                        header_block_of(p.headers.entries()) + inner + close_delimiter_of(b),
                    ),
                    Err(e) => Err(e),
                },
            },
        },
    }
}

/// The text of the first `j` children of a multipart body, each opened by
/// the boundary delimiter; the first failing child's error wins.
pub open spec fn rendered_children_of(cs: Vec<Part>, b: Seq<char>, j: int) -> Result<
    Seq<char>,
    RenderError,
>
    decreases cs, 0int, j,
{
    if j <= 0 {
        Ok(Seq::empty())
    } else {
        match rendered_children_of(cs, b, j - 1) {
            Err(e) => Err(e),
            Ok(acc) => if j - 1 < cs@.len() {
                match render_of(cs[j - 1]) {
                    Err(e) => Err(e),
                    Ok(r) => Ok(acc + open_delimiter_of(b) + r),
                }
            } else {
                Ok(acc)
            },
        }
    }
}

/// Once a child fails, rendering any longer prefix fails the same way.
proof fn lemma_children_error(cs: Vec<Part>, b: Seq<char>, j: int, k: int, e: RenderError)
    requires
        0 <= j < cs@.len(),
        rendered_children_of(cs, b, j) is Ok,
        render_of(cs[j]) == Err::<Seq<char>, RenderError>(e),
        j < k <= cs@.len(),
    ensures
        rendered_children_of(cs, b, k) == Err::<Seq<char>, RenderError>(e),
    decreases k,
{
    if k > j + 1 {
        lemma_children_error(cs, b, j, k - 1, e);
    }
}

/// Appending one entry adds one header line at the end.
proof fn lemma_header_lines_push(s: Seq<(Seq<char>, Seq<char>)>, x: (Seq<char>, Seq<char>))
    ensures
        header_lines_of(s.push(x)) == header_lines_of(s) + header_line_of(x),
    decreases s.len(),
{
    reveal_with_fuel(header_lines_of, 3);
    if s.len() == 0 {
        assert(s.push(x).drop_first() =~= Seq::<(Seq<char>, Seq<char>)>::empty());
        assert(header_line_of(x) + header_lines_of(Seq::empty()) =~= header_line_of(x));
        assert(header_lines_of(s) + header_line_of(x) =~= header_line_of(x));
    } else {
        assert(s.push(x).drop_first() =~= s.drop_first().push(x));
        lemma_header_lines_push(s.drop_first(), x);
        assert(header_line_of(s[0]) + (header_lines_of(s.drop_first()) + header_line_of(x)) =~= (
        header_line_of(s[0]) + header_lines_of(s.drop_first())) + header_line_of(x));
    }
}

impl Part {
    /// Renders the part to its exact MIME wire text, exactly as
    /// [`render_of`] states it; a rendered base64 body decodes back to the
    /// part's bytes.
    pub fn render(&self) -> (r: Result<String, RenderError>)
        ensures
            r matches Ok(s) ==> render_of(*self) == Ok::<Seq<char>, RenderError>(s@),
            r matches Err(e) ==> render_of(*self) == Err::<Seq<char>, RenderError>(e),
            (self.body is Data && declares_base64(self.headers.entries())) ==> base64_decode_of(
                base64_of(data_bytes_of(*self)),
            ) == Some(data_bytes_of(*self)),
        decreases *self,
    {
        let ghost entries = self.headers.entries();
        let mut out = String::new();
        let n = self.headers.len();
        let mut i: usize = 0;
        proof {
            assert(entries.take(0) =~= Seq::<(Seq<char>, Seq<char>)>::empty());
        }
        while i < n
            invariant
                n == entries.len(),
                i <= n,
                entries == self.headers.entries(),
                out@ == header_lines_of(entries.take(i as int)),
            decreases n - i,
        {
            let (name, val) = self.headers.entry_at(i);
            out.append(name.as_str());
            out.append(": ");
            out.append(val.as_str());
            out.append("\r\n");
            proof {
                lemma_header_lines_push(entries.take(i as int), entries[i as int]);
                assert(entries.take(i as int).push(entries[i as int]) =~= entries.take(
                    i as int + 1,
                ));
                assert(out@ =~= header_lines_of(entries.take(i as int)) + header_line_of(
                    entries[i as int],
                ));
            }
            i += 1;
        }
        proof {
            assert(entries.take(n as int) =~= entries);
        }
        out.append("\r\n");
        proof {
            assert(out@ == header_block_of(entries));
        }
        match &self.body {
            Body::Data(d) => {
                proof {
                    reveal_strlit("7bit");
                    reveal_strlit("base64");
                    reveal_strlit("");
                    assert("7bit"@.len() == 4);
                    assert("base64"@.len() == 6);
                    assert(""@.len() == 0);
                }
                let is_b64: bool;
                match self.headers.get("Content-Transfer-Encoding") {
                    None => {
                        is_b64 = false;
                    },
                    Some(v) => {
                        let enc = lowercase(v.as_str());
                        if str_eq(enc.as_str(), "7bit") || str_eq(enc.as_str(), "") {
                            is_b64 = false;
                        } else if str_eq(enc.as_str(), "base64") {
                            is_b64 = true;
                        } else {
                            return Err(RenderError::UnsupportedEncoding);
                        }
                    },
                }
                if is_b64 {
                    let body = base64_encode(d);
                    out.append(body.as_str());
                    proof {
                        assert(out@ =~= header_block_of(entries) + base64_of(d@));
                    }
                    Ok(out)
                } else {
                    if check_7bit(d) {
                        let body = ascii_string_of(d);
                        out.append(body.as_str());
                        proof {
                            assert(out@ =~= header_block_of(entries) + ascii_chars_of(d@));
                        }
                        Ok(out)
                    } else {
                        Err(RenderError::NonAsciiData)
                    }
                }
            },
            Body::Children(cs) => {
                let ct = match self.headers.get("Content-Type") {
                    Some(x) => x,
                    None => {
                        return Err(RenderError::MissingContentType);
                    },
                };
                let b = match content_type_boundary(ct.as_str()) {
                    Some(x) => x,
                    None => {
                        return Err(RenderError::MissingBoundary);
                    },
                };
                let m = cs.len();
                let mut j: usize = 0;
                let ghost mut acc: Seq<char> = Seq::empty();
                while j < m
                    invariant
                        m == cs@.len(),
                        j <= m,
                        entries == self.headers.entries(),
                        self.body matches Body::Children(cc) && cc == *cs,
                        lookup(entries, "Content-Type"@) == Some(ct@),
                        boundary_of(ct@) == Some(b@),
                        out@ == header_block_of(entries) + acc,
                        rendered_children_of(*cs, b@, j as int) == Ok::<Seq<char>, RenderError>(
                            acc,
                        ),
                    decreases m - j,
                {
                    let child = &cs[j];
                    match child.render() {
                        Ok(s) => {
                            out.append("\r\n--");
                            out.append(b.as_str());
                            out.append("\r\n");
                            out.append(s.as_str());
                            proof {
                                let delim = open_delimiter_of(b@);
                                acc = acc + delim + s@;
                                assert(out@ =~= header_block_of(entries) + acc);
                            }
                        },
                        Err(e) => {
                            proof {
                                lemma_children_error(*cs, b@, j as int, m as int, e);
                            }
                            return Err(e);
                        },
                    }
                    j += 1;
                }
                out.append("\r\n--");
                out.append(b.as_str());
                out.append("--\r\n");
                proof {
                    assert(out@ =~= header_block_of(entries) + acc + close_delimiter_of(b@));
                }
                Ok(out)
            },
        }
    }
}

} // verus!
