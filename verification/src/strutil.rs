use vstd::prelude::*;
use vstd::string::StrSliceExecFns;
use vstd::string::StringExecFns;

verus! {

/// Compares two string slices by their character sequences.
pub(crate) fn str_eq(a: &str, b: &str) -> (r: bool)
    ensures
        r == (a@ == b@),
{
    let x = a.to_owned();
    let y = b.to_owned();
    x == y
}

/// The character of one decimal digit.
pub open spec fn digit_char(d: int) -> char {
    if d == 0 {
        '0'
    } else if d == 1 {
        '1'
    } else if d == 2 {
        '2'
    } else if d == 3 {
        '3'
    } else if d == 4 {
        '4'
    } else if d == 5 {
        '5'
    } else if d == 6 {
        '6'
    } else if d == 7 {
        '7'
    } else if d == 8 {
        '8'
    } else {
        '9'
    }
}

/// The decimal digits of `n`, most significant first.
pub open spec fn decimal_of(n: int) -> Seq<char>
    decreases n,
{
    if n < 10 {
        seq![digit_char(n)]
    } else {
        decimal_of(n / 10) + seq![digit_char(n % 10)]
    }
}

/// One decimal digit as text.
fn digit_str(d: u64) -> (r: &'static str)
    requires
        d < 10,
    ensures
        r@ == seq![digit_char(d as int)],
{
    proof {
        reveal_strlit("0");
        reveal_strlit("1");
        reveal_strlit("2");
        reveal_strlit("3");
        reveal_strlit("4");
        reveal_strlit("5");
        reveal_strlit("6");
        reveal_strlit("7");
        reveal_strlit("8");
        reveal_strlit("9");
        assert("0"@ =~= seq![digit_char(0)]);
        assert("1"@ =~= seq![digit_char(1)]);
        assert("2"@ =~= seq![digit_char(2)]);
        assert("3"@ =~= seq![digit_char(3)]);
        assert("4"@ =~= seq![digit_char(4)]);
        assert("5"@ =~= seq![digit_char(5)]);
        assert("6"@ =~= seq![digit_char(6)]);
        assert("7"@ =~= seq![digit_char(7)]);
        assert("8"@ =~= seq![digit_char(8)]);
        assert("9"@ =~= seq![digit_char(9)]);
    }
    match d {
        0 => "0",
        1 => "1",
        2 => "2",
        3 => "3",
        4 => "4",
        5 => "5",
        6 => "6",
        7 => "7",
        8 => "8",
        _ => "9",
    }
}

/// Appends the decimal digits of `n`.
pub fn push_decimal(out: &mut String, n: u64)
    ensures
        final(out)@ == old(out)@ + decimal_of(n as int),
    decreases n,
{
    if n >= 10 {
        push_decimal(out, n / 10);
    }
    let ghost mid = out@;
    out.append(digit_str(n % 10));
    proof {
        if n >= 10 {
            assert(out@ =~= old(out)@ + (decimal_of(n as int / 10) + seq![
                digit_char(n as int % 10),
            ]));
        } else {
            assert(out@ =~= old(out)@ + seq![digit_char(n as int)]);
        }
    }
}

/// The pieces joined by CRLF line breaks, without a trailing break.
pub open spec fn crlf_joined_of(parts: Seq<Seq<char>>) -> Seq<char>
    decreases parts.len(),
{
    if parts.len() == 0 {
        Seq::empty()
    } else if parts.len() == 1 {
        parts[0]
    } else {
        parts[0] + "\r\n"@ + crlf_joined_of(parts.drop_first())
    }
}

/// Joining one more piece appends a break and the piece.
proof fn lemma_crlf_joined_push(parts: Seq<Seq<char>>, x: Seq<char>)
    requires
        parts.len() > 0,
    ensures
        crlf_joined_of(parts.push(x)) == crlf_joined_of(parts) + "\r\n"@ + x,
    decreases parts.len(),
{
    reveal_with_fuel(crlf_joined_of, 3);
    if parts.len() == 1 {
        assert(parts.push(x).drop_first() =~= seq![x]);
        assert(parts.push(x)[0] == parts[0]);
    } else {
        assert(parts.push(x).drop_first() =~= parts.drop_first().push(x));
        lemma_crlf_joined_push(parts.drop_first(), x);
        assert(parts[0] + "\r\n"@ + (crlf_joined_of(parts.drop_first()) + "\r\n"@ + x) =~= (
        parts[0] + "\r\n"@ + crlf_joined_of(parts.drop_first())) + "\r\n"@ + x);
    }
}

/// Joins the strings with CRLF breaks and closes with one more break.
pub fn join_crlf(parts: &Vec<String>) -> (r: String)
    ensures
        r@ == crlf_joined_of(parts@.map_values(|s: String| s@)) + "\r\n"@,
{
    let ghost views = parts@.map_values(|s: String| s@);
    let mut out = String::new();
    let n = parts.len();
    let mut i: usize = 0;
    while i < n
        invariant
            n == parts@.len(),
            i <= n,
            views == parts@.map_values(|s: String| s@),
            out@ == crlf_joined_of(views.take(i as int)),
        decreases n - i,
    {
        if i > 0 {
            out.append("\r\n");
        }
        out.append(parts[i].as_str());
        proof {
            assert(views.take(i as int).push(views[i as int]) =~= views.take(i as int + 1));
            if i > 0 {
                lemma_crlf_joined_push(views.take(i as int), views[i as int]);
                assert(out@ =~= crlf_joined_of(views.take(i as int)) + "\r\n"@ + views[i as int]);
            } else {
                assert(views.take(0int) =~= Seq::<Seq<char>>::empty());
                assert(out@ =~= views[0int]);
            }
        }
        i += 1;
    }
    proof {
        assert(views.take(n as int) =~= views);
    }
    out.append("\r\n");
    out
}

/// Whether the text already carries the reply prefix.
pub open spec fn has_re_prefix(s: Seq<char>) -> bool {
    s.len() >= 4 && s.subrange(0, 4) == "Re: "@
}

/// Whether `s` starts with `Re: `.
pub fn starts_with_re(s: &str) -> (r: bool)
    ensures
        r == has_re_prefix(s@),
{
    proof {
        reveal_strlit("Re: ");
    }
    let n = s.unicode_len();
    if n < 4 {
        return false;
    }
    let r = s.get_char(0) == 'R' && s.get_char(1) == 'e' && s.get_char(2) == ':' && s.get_char(3)
        == ' ';
    proof {
        if r {
            assert(s@.subrange(0, 4) =~= "Re: "@);
        } else {
            assert(s@.subrange(0, 4)[0] == s@[0]);
            assert(s@.subrange(0, 4)[1] == s@[1]);
            assert(s@.subrange(0, 4)[2] == s@[2]);
            assert(s@.subrange(0, 4)[3] == s@[3]);
            assert(s@.subrange(0, 4) != "Re: "@);
        }
    }
    r
}

} // verus!
