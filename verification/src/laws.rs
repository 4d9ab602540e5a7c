use vstd::prelude::*;
use crate::codec::all_7bit;
use crate::codec::ascii_chars_of;
use crate::codec::base64_of;
use crate::codec::is_alnum_char;
use crate::codec::is_alnum_seq;
use crate::content_type::boundary_of;
use crate::header_map::lookup;
use crate::occurrences::count_occurrences;
use crate::occurrences::lemma_count_concat;
use crate::occurrences::lemma_count_zero_from;
use crate::occurrences::lemma_occurs_left;
use crate::occurrences::lemma_occurs_right;
use crate::occurrences::lemma_prefix_occurrence;
use crate::occurrences::lemma_refute_at;
use crate::occurrences::no_occurrence;
use crate::occurrences::occurs_at;
use crate::parts::Body;
use crate::parts::Part;
use crate::render::RenderError;
use crate::render::close_delimiter_of;
use crate::render::data_bytes_of;
use crate::render::declares_base64;
use crate::render::header_block_of;
use crate::render::open_delimiter_of;
use crate::render::render_of;
use crate::render::rendered_children_of;

verus! {

/// A data part without a Content-Transfer-Encoding header and with 7-bit
/// bytes renders to its header block followed by those bytes, verbatim.
pub proof fn lemma_plain_data_verbatim(p: Part)
    requires
        p.body is Data,
        lookup(p.headers.entries(), "Content-Transfer-Encoding"@) is None,
        all_7bit(data_bytes_of(p)),
    ensures
        render_of(p) == Ok::<Seq<char>, RenderError>(
            header_block_of(p.headers.entries()) + ascii_chars_of(data_bytes_of(p)),
        ),
{
}

/// A data part declaring the base64 transfer encoding renders to its
/// header block followed by the base64 text of its bytes; that text
/// decodes back to the bytes, as the renderer's own contract states.
pub proof fn lemma_base64_data_rendering(p: Part)
    requires
        p.body is Data,
        declares_base64(p.headers.entries()),
    ensures
        render_of(p) == Ok::<Seq<char>, RenderError>(
            header_block_of(p.headers.entries()) + base64_of(data_bytes_of(p)),
        ),
{
    reveal_strlit("7bit");
    reveal_strlit("base64");
    reveal_strlit("");
    assert("7bit"@.len() == 4);
    assert("base64"@.len() == 6);
    assert(""@.len() == 0);
}

/// Rendering is a function of the part alone: an immutable part has one
/// rendered text, so rendering it twice gives byte-identical output.
pub proof fn lemma_render_deterministic(p: Part, s1: Seq<char>, s2: Seq<char>)
    requires
        render_of(p) == Ok::<Seq<char>, RenderError>(s1),
        render_of(p) == Ok::<Seq<char>, RenderError>(s2),
    ensures
        s1 == s2,
{
}

/// The four characters that open every boundary delimiter.
pub open spec fn delimiter_head() -> Seq<char> {
    "\r\n--"@
}

/// The children of a multipart part; empty for a data part.
pub open spec fn children_of(p: Part) -> Seq<Part> {
    match p.body {
        Body::Children(cs) => cs@,
        Body::Data(_) => Seq::empty(),
    }
}

/// The text a successful rendering produced.
pub open spec fn ok_of(r: Result<Seq<char>, RenderError>) -> Seq<char> {
    match r {
        Ok(s) => s,
        Err(_) => Seq::empty(),
    }
}

/// The rendered text of one child of a multipart part.
pub open spec fn rendered_child(p: Part, i: int) -> Seq<char> {
    ok_of(render_of(children_of(p)[i]))
}

/// A child text that cannot disturb the boundary delimiters around it: the
/// delimiter head occurs nowhere in it, and it does not begin with two
/// dashes. Every rendered part starts with its header block, so the second
/// demand only excludes header names that begin with dashes.
pub open spec fn delimiter_safe(r: Seq<char>) -> bool {
    no_occurrence(r, delimiter_head()) && r.len() >= 2 && !(r[0] == '-' && r[1] == '-')
}

/// The body of a multipart part from its children's texts: each child
/// behind an opening delimiter, the closing delimiter at the end.
pub open spec fn multipart_tail(b: Seq<char>, rs: Seq<Seq<char>>) -> Seq<char>
    decreases rs.len(),
{
    if rs.len() == 0 {
        close_delimiter_of(b)
    } else {
        open_delimiter_of(b) + rs[0] + multipart_tail(b, rs.drop_first())
    }
}

/// An alphanumeric character is none of the delimiter characters.
proof fn lemma_alnum_not_special(c: char)
    requires
        is_alnum_char(c),
    ensures
        c != '\r' && c != '\n' && c != '-',
{
}

/// The characters of the two delimiters, position by position.
proof fn lemma_delimiter_chars(b: Seq<char>)
    requires
        1 <= b.len(),
    ensures
        open_delimiter_of(b).len() == b.len() + 6,
        close_delimiter_of(b).len() == b.len() + 8,
        open_delimiter_of(b)[0] == '\r',
        open_delimiter_of(b)[1] == '\n',
        open_delimiter_of(b)[2] == '-',
        open_delimiter_of(b)[3] == '-',
        forall|j: int|
            4 <= j < 4 + b.len() ==> #[trigger] open_delimiter_of(b)[j] == b[j - 4],
        open_delimiter_of(b)[b.len() as int + 4] == '\r',
        open_delimiter_of(b)[b.len() as int + 5] == '\n',
        close_delimiter_of(b)[0] == '\r',
        close_delimiter_of(b)[1] == '\n',
        close_delimiter_of(b)[2] == '-',
        close_delimiter_of(b)[3] == '-',
        forall|j: int|
            4 <= j < 4 + b.len() ==> #[trigger] close_delimiter_of(b)[j] == b[j - 4],
        close_delimiter_of(b)[b.len() as int + 4] == '-',
        close_delimiter_of(b)[b.len() as int + 5] == '-',
        close_delimiter_of(b)[b.len() as int + 6] == '\r',
        close_delimiter_of(b)[b.len() as int + 7] == '\n',
        delimiter_head().len() == 4,
        delimiter_head()[0] == '\r',
        delimiter_head()[1] == '\n',
        delimiter_head()[2] == '-',
        delimiter_head()[3] == '-',
        open_delimiter_of(b).subrange(0, 4) == delimiter_head(),
        close_delimiter_of(b).subrange(0, 4) == delimiter_head(),
{
    reveal_strlit("\r\n--");
    reveal_strlit("\r\n");
    reveal_strlit("--\r\n");
    assert("\r\n--"@.len() == 4);
    assert("\r\n"@.len() == 2);
    assert("--\r\n"@.len() == 4);
    assert(open_delimiter_of(b).subrange(0, 4) =~= delimiter_head());
    assert(close_delimiter_of(b).subrange(0, 4) =~= delimiter_head());
}

/// Every multipart tail begins with the delimiter head.
proof fn lemma_tail_head(b: Seq<char>, rs: Seq<Seq<char>>)
    requires
        1 <= b.len(),
    ensures
        multipart_tail(b, rs).len() >= 4,
        multipart_tail(b, rs)[0] == '\r',
        multipart_tail(b, rs)[1] == '\n',
        multipart_tail(b, rs)[2] == '-',
        multipart_tail(b, rs)[3] == '-',
    decreases rs.len(),
{
    lemma_delimiter_chars(b);
    if rs.len() > 0 {
        lemma_tail_head(b, rs.drop_first());
    }
}

/// Inside one delimited segment the delimiter head occurs only at the very
/// start.
proof fn lemma_segment_head_only_at_start(b: Seq<char>, r: Seq<char>, p: int)
    requires
        1 <= b.len(),
        is_alnum_seq(b),
        delimiter_safe(r),
        0 < p,
    ensures
        !occurs_at(open_delimiter_of(b) + r, delimiter_head(), p),
{
    lemma_delimiter_chars(b);
    let od = open_delimiter_of(b);
    let x = od + r;
    let n = od.len() as int;
    let dd = delimiter_head();
    if p + 4 <= x.len() {
        if p < n - 2 || p == n - 1 {
            // The character at `p` is not a carriage return.
            if 4 <= p < 4 + b.len() {
                lemma_alnum_not_special(b[p - 4]);
            }
            lemma_refute_at(x, dd, p, 0);
        } else if p == n - 2 {
            // `\r\n` sits here, but the child does not continue with `--`.
            if r[0] == '-' {
                lemma_refute_at(x, dd, p, 3);
            } else {
                lemma_refute_at(x, dd, p, 2);
            }
        } else {
            // Inside the child text, where the head never occurs.
            lemma_occurs_right(od, r, dd, p - n);
            assert(!occurs_at(r, dd, p - n));
        }
    }
}

/// Within a segment followed by more delimited text, the delimiter head
/// occurs nowhere strictly inside the segment.
proof fn lemma_joint_head_free(b: Seq<char>, r: Seq<char>, t: Seq<char>, p: int)
    requires
        1 <= b.len(),
        is_alnum_seq(b),
        delimiter_safe(r),
        t.len() >= 4,
        t[0] == '\r',
        0 < p < open_delimiter_of(b).len() + r.len(),
    ensures
        !occurs_at(open_delimiter_of(b) + r + t, delimiter_head(), p),
{
    lemma_delimiter_chars(b);
    let od = open_delimiter_of(b);
    let x = od + r;
    let s = x + t;
    let dd = delimiter_head();
    assert(s == od + r + t);
    if p + 4 <= x.len() {
        if occurs_at(s, dd, p) {
            lemma_occurs_left(x, t, dd, p);
            lemma_segment_head_only_at_start(b, r, p);
        }
    } else {
        // The occurrence would reach into `t`, whose first character is a
        // carriage return where the head demands a later character.
        let k = x.len() - p;
        assert(s[p + k] == t[0]);
        if occurs_at(s, dd, p) {
            lemma_refute_at(s, dd, p, k);
        }
    }
}

/// An occurrence of either delimiter starts with the delimiter head.
proof fn lemma_delimiter_implies_head(s: Seq<char>, b: Seq<char>, p: int)
    requires
        1 <= b.len(),
        occurs_at(s, open_delimiter_of(b), p) || occurs_at(s, close_delimiter_of(b), p),
    ensures
        occurs_at(s, delimiter_head(), p),
{
    lemma_delimiter_chars(b);
    if occurs_at(s, open_delimiter_of(b), p) {
        lemma_prefix_occurrence(s, open_delimiter_of(b), 4, p);
    } else {
        lemma_prefix_occurrence(s, close_delimiter_of(b), 4, p);
    }
}

/// One delimited segment holds exactly one opening delimiter and no
/// closing one.
proof fn lemma_segment_counts(b: Seq<char>, r: Seq<char>)
    requires
        1 <= b.len(),
        is_alnum_seq(b),
        delimiter_safe(r),
    ensures
        count_occurrences(open_delimiter_of(b) + r, open_delimiter_of(b)) == 1,
        count_occurrences(open_delimiter_of(b) + r, close_delimiter_of(b)) == 0,
{
    lemma_delimiter_chars(b);
    let od = open_delimiter_of(b);
    let cd = close_delimiter_of(b);
    let x = od + r;
    let n = od.len() as int;
    assert forall|p: int| 0 < p implies !occurs_at(x, delimiter_head(), p) by {
        lemma_segment_head_only_at_start(b, r, p);
    }
    // The opening delimiter: once at the front, nowhere else.
    assert forall|p: int| n - od.len() < p < n implies !occurs_at(x, od, p) by {
        if occurs_at(x, od, p) {
            lemma_delimiter_implies_head(x, b, p);
        }
    }
    lemma_count_concat(od, r, od);
    assert(occurs_at(od, od, 0)) by {
        assert(od.subrange(0, n) =~= od);
    }
    assert forall|p: int| 1 <= p implies !occurs_at(od, od, p) by {}
    lemma_count_zero_from(od, od, 1);
    assert(count_occurrences(od, od) == 1);
    assert forall|p: int| 0 <= p implies !occurs_at(r, od, p) by {
        if occurs_at(r, od, p) {
            lemma_delimiter_implies_head(r, b, p);
        }
    }
    lemma_count_zero_from(r, od, 0);
    // The closing delimiter occurs nowhere in the segment.
    assert forall|p: int| n - cd.len() < p < n implies !occurs_at(x, cd, p) by {
        if occurs_at(x, cd, p) {
            if p == 0 {
                assert(x[b.len() as int + 4] == od[b.len() as int + 4]);
                lemma_refute_at(x, cd, 0, b.len() as int + 4);
            } else {
                lemma_delimiter_implies_head(x, b, p);
            }
        }
    }
    lemma_count_concat(od, r, cd);
    assert forall|p: int| 0 <= p implies !occurs_at(od, cd, p) by {}
    lemma_count_zero_from(od, cd, 0);
    assert forall|p: int| 0 <= p implies !occurs_at(r, cd, p) by {
        if occurs_at(r, cd, p) {
            lemma_delimiter_implies_head(r, b, p);
        }
    }
    lemma_count_zero_from(r, cd, 0);
}

/// A multipart tail of safe children holds one opening delimiter per child
/// and exactly one closing delimiter.
proof fn lemma_tail_counts(b: Seq<char>, rs: Seq<Seq<char>>)
    requires
        1 <= b.len(),
        is_alnum_seq(b),
        forall|i: int| 0 <= i < rs.len() ==> delimiter_safe(#[trigger] rs[i]),
    ensures
        count_occurrences(multipart_tail(b, rs), open_delimiter_of(b)) == rs.len(),
        count_occurrences(multipart_tail(b, rs), close_delimiter_of(b)) == 1,
    decreases rs.len(),
{
    lemma_delimiter_chars(b);
    let od = open_delimiter_of(b);
    let cd = close_delimiter_of(b);
    if rs.len() == 0 {
        // The closing delimiter alone: no opening one fits in it.
        assert forall|p: int| 0 <= p implies !occurs_at(cd, od, p) by {
            if occurs_at(cd, od, p) {
                if p == 0 {
                    lemma_refute_at(cd, od, 0, b.len() as int + 4);
                } else if p == 1 {
                    lemma_refute_at(cd, od, 1, 0);
                } else if p == 2 {
                    lemma_refute_at(cd, od, 2, 0);
                }
            }
        }
        lemma_count_zero_from(cd, od, 0);
        assert(occurs_at(cd, cd, 0)) by {
            assert(cd.subrange(0, cd.len() as int) =~= cd);
        }
        assert forall|p: int| 1 <= p implies !occurs_at(cd, cd, p) by {}
        lemma_count_zero_from(cd, cd, 1);
        assert(count_occurrences(cd, cd) == 1);
    } else {
        let r = rs[0];
        let rest = rs.drop_first();
        assert(delimiter_safe(r));
        assert forall|i: int| 0 <= i < rest.len() implies delimiter_safe(#[trigger] rest[i]) by {
            assert(rest[i] == rs[i + 1]);
        }
        lemma_tail_counts(b, rest);
        let x = od + r;
        let t = multipart_tail(b, rest);
        assert(multipart_tail(b, rs) == x + t);
        lemma_tail_head(b, rest);
        assert forall|p: int| 0 < p < x.len() implies !occurs_at(x + t, delimiter_head(), p) by {
            lemma_joint_head_free(b, r, t, p);
        }
        assert forall|p: int| x.len() - od.len() < p < x.len() implies !occurs_at(x + t, od, p) by {
            if occurs_at(x + t, od, p) {
                lemma_delimiter_implies_head(x + t, b, p);
            }
        }
        assert forall|p: int| x.len() - cd.len() < p < x.len() implies !occurs_at(x + t, cd, p) by {
            if occurs_at(x + t, cd, p) {
                lemma_delimiter_implies_head(x + t, b, p);
            }
        }
        lemma_count_concat(x, t, od);
        lemma_count_concat(x, t, cd);
        lemma_segment_counts(b, r);
    }
}

/// All children of a successfully rendered multipart body rendered
/// successfully themselves.
proof fn lemma_children_ok(cs: Vec<Part>, b: Seq<char>, j: int)
    requires
        rendered_children_of(cs, b, cs@.len() as int) is Ok,
        0 <= j <= cs@.len(),
    ensures
        rendered_children_of(cs, b, j) is Ok,
        j < cs@.len() ==> render_of(cs@[j]) is Ok,
    decreases cs@.len() - j,
{
    if j < cs@.len() {
        lemma_children_ok(cs, b, j + 1);
    }
}

/// The rendered children, continued by the remaining delimited tail, make
/// up the whole multipart body.
proof fn lemma_build(cs: Vec<Part>, b: Seq<char>, rs: Seq<Seq<char>>, j: int)
    requires
        rs.len() == cs@.len(),
        forall|i: int| 0 <= i < rs.len() ==> rs[i] == ok_of(#[trigger] render_of(cs@[i])),
        rendered_children_of(cs, b, cs@.len() as int) is Ok,
        0 <= j <= cs@.len(),
    ensures
        ok_of(rendered_children_of(cs, b, j)) + multipart_tail(b, rs.skip(j)) == ok_of(
            rendered_children_of(cs, b, cs@.len() as int),
        ) + close_delimiter_of(b),
    decreases cs@.len() - j,
{
    let n = cs@.len() as int;
    if j == n {
        assert(rs.skip(j) =~= Seq::<Seq<char>>::empty());
    } else {
        lemma_build(cs, b, rs, j + 1);
        lemma_children_ok(cs, b, j);
        lemma_children_ok(cs, b, j + 1);
        let acc = ok_of(rendered_children_of(cs, b, j));
        let rj = ok_of(render_of(cs@[j]));
        assert(rendered_children_of(cs, b, j + 1) == Ok::<Seq<char>, RenderError>(
            acc + open_delimiter_of(b) + rj,
        ));
        assert(rs.skip(j).drop_first() =~= rs.skip(j + 1));
        assert(rs.skip(j)[0] == rs[j]);
        assert(multipart_tail(b, rs.skip(j)) == open_delimiter_of(b) + rj + multipart_tail(
            b,
            rs.skip(j + 1),
        ));
        assert(acc + multipart_tail(b, rs.skip(j)) =~= (acc + open_delimiter_of(b) + rj)
            + multipart_tail(b, rs.skip(j + 1)));
    }
}

/// A rendered multipart part with `N` children and a nonempty alphanumeric
/// boundary holds exactly `N` occurrences of the opening delimiter and
/// exactly one of the closing delimiter, provided no child's text carries
/// the delimiter head or begins with two dashes, and the header block is
/// free of the delimiter head too. The boundary is random precisely to
/// make those provisos hold; the renderer does not check them.
#[verifier::rlimit(80)]
pub proof fn lemma_multipart_delimiter_counts(p: Part, b: Seq<char>, out: Seq<char>)
    requires
        p.body is Children,
        render_of(p) == Ok::<Seq<char>, RenderError>(out),
        lookup(p.headers.entries(), "Content-Type"@) matches Some(ct) && boundary_of(ct) == Some(
            b,
        ),
        1 <= b.len(),
        is_alnum_seq(b),
        no_occurrence(header_block_of(p.headers.entries()), delimiter_head()),
        forall|i: int|
            0 <= i < children_of(p).len() ==> delimiter_safe(#[trigger] rendered_child(p, i)),
    ensures
        count_occurrences(out, open_delimiter_of(b)) == children_of(p).len(),
        count_occurrences(out, close_delimiter_of(b)) == 1,
{
    lemma_delimiter_chars(b);
    let od = open_delimiter_of(b);
    let cd = close_delimiter_of(b);
    let hb = header_block_of(p.headers.entries());
    match p.body {
        Body::Children(cs) => {
            let n = cs@.len() as int;
            let rs = Seq::new(cs@.len(), |i: int| rendered_child(p, i));
            assert forall|i: int| 0 <= i < rs.len() implies rs[i] == ok_of(
                #[trigger] render_of(cs@[i]),
            ) by {
                assert(children_of(p) == cs@);
            }
            let inner = ok_of(rendered_children_of(cs, b, n));
            assert(rendered_children_of(cs, b, n) is Ok && out == hb + inner + cd);
            lemma_build(cs, b, rs, 0);
            assert(rs.skip(0) =~= rs);
            assert(ok_of(rendered_children_of(cs, b, 0)) + multipart_tail(b, rs) =~= multipart_tail(
                b,
                rs,
            ));
            let t = multipart_tail(b, rs);
            assert(t == inner + cd);
            assert forall|i: int| 0 <= i < rs.len() implies delimiter_safe(#[trigger] rs[i]) by {
                assert(rs[i] == rendered_child(p, i));
            }
            lemma_tail_counts(b, rs);
            assert(out =~= hb + t);
            lemma_tail_head(b, rs);
            assert forall|q: int| 0 <= q implies !occurs_at(hb, delimiter_head(), q) by {}
            assert forall|q: int| hb.len() - od.len() < q < hb.len() implies !occurs_at(
                hb + t,
                od,
                q,
            ) by {
                if occurs_at(hb + t, od, q) {
                    lemma_delimiter_implies_head(hb + t, b, q);
                    if q + 4 <= hb.len() {
                        lemma_occurs_left(hb, t, delimiter_head(), q);
                    } else {
                        assert((hb + t)[hb.len() as int] == t[0]);
                        lemma_refute_at(hb + t, delimiter_head(), q, hb.len() - q);
                    }
                }
            }
            assert forall|q: int| hb.len() - cd.len() < q < hb.len() implies !occurs_at(
                hb + t,
                cd,
                q,
            ) by {
                if occurs_at(hb + t, cd, q) {
                    lemma_delimiter_implies_head(hb + t, b, q);
                    if q + 4 <= hb.len() {
                        lemma_occurs_left(hb, t, delimiter_head(), q);
                    } else {
                        assert((hb + t)[hb.len() as int] == t[0]);
                        lemma_refute_at(hb + t, delimiter_head(), q, hb.len() - q);
                    }
                }
            }
            lemma_count_concat(hb, t, od);
            lemma_count_concat(hb, t, cd);
            assert forall|q: int| 0 <= q implies !occurs_at(hb, od, q) by {
                if occurs_at(hb, od, q) {
                    lemma_delimiter_implies_head(hb, b, q);
                }
            }
            lemma_count_zero_from(hb, od, 0);
            assert forall|q: int| 0 <= q implies !occurs_at(hb, cd, q) by {
                if occurs_at(hb, cd, q) {
                    lemma_delimiter_implies_head(hb, b, q);
                }
            }
            lemma_count_zero_from(hb, cd, 0);
            assert(children_of(p).len() == rs.len());
        },
        Body::Data(_) => {
            assert(false);
        },
    }
}

} // verus!
