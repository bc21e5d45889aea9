use vstd::prelude::*;
use crate::diff::KeyDiff;
use crate::keys::key_views;
use crate::snapshot::{render_snapshot, snapshot_text};

verus! {

broadcast use vstd::string::group_string_axioms;

/// The decimal digit for `d`.
pub open spec fn digit_char(d: nat) -> char {
    ((d + 48) as u8) as char
}

/// `n` written in decimal, without sign or leading zeros.
pub open spec fn decimal_text(n: nat) -> Seq<char>
    decreases n,
{
    if n < 10 {
        seq![digit_char(n)]
    } else {
        decimal_text(n / 10).push(digit_char(n % 10))
    }
}

/// Relies on `usize`'s `Display` through `ToString`: its decimal digits.
#[verifier::external_body]
fn decimal(n: usize) -> (r: String)
    ensures
        r@ == decimal_text(n as nat),
{
    n.to_string()
}

/// A diff report: a count-prefixed section of added keys, a blank line,
/// then a count-prefixed section of removed keys, one key per line.
pub open spec fn report_text(added: Seq<Seq<char>>, removed: Seq<Seq<char>>) -> Seq<char> {
    "Added keys ("@ + decimal_text(added.len()) + "):\n"@ + snapshot_text(added) + "\nRemoved keys ("@
        + decimal_text(removed.len()) + "):\n"@ + snapshot_text(removed)
}

/// The text of the diff report file for `diff`.
pub fn render_report(diff: &KeyDiff) -> (r: String)
    ensures
        r@ == report_text(key_views(diff.added@), key_views(diff.removed@)),
{
    let mut out = String::new();
    out.append("Added keys (");
    out.append(decimal(diff.added.len()).as_str());
    out.append("):\n");
    out.append(render_snapshot(&diff.added).as_str());
    out.append("\nRemoved keys (");
    out.append(decimal(diff.removed.len()).as_str());
    out.append("):\n");
    out.append(render_snapshot(&diff.removed).as_str());
    assert(out@ =~= report_text(key_views(diff.added@), key_views(diff.removed@)));
    out
}

} // verus!
