use vstd::prelude::*;
use vstd::string::StringExecFns;

verus! {

/// The text of one mbox entry: the `From ` separator line, the rendered
/// message, and a closing blank line.
pub open spec fn mbox_entry_of(rendered: Seq<char>) -> Seq<char> {
    "From \r\n"@ + rendered + "\r\n"@
}

/// Frames one rendered message for an mbox stream.
pub fn mbox_entry(rendered: &str) -> (r: String)
    ensures
        r@ == mbox_entry_of(rendered@),
{
    let mut out = String::from_str("From \r\n");
    out.append(rendered);
    out.append("\r\n");
    proof {
        assert(out@ =~= mbox_entry_of(rendered@));
    }
    out
}

} // verus!
