//! The metadata wrapper that a scan can prepend to file content before
//! embedding it, and that search re-synthesizes for display.

use vstd::prelude::*;
use vstd::string::StringExecFns;

use crate::text::push_char;

verus! {

/// The character for one decimal digit value.
pub open spec fn digit_char(d: nat) -> char {
    ((d + 48) as u8) as char
}

/// The decimal digits of a number, most significant first, with no leading
/// zero except for the number zero itself.
pub open spec fn decimal_digits(n: nat) -> Seq<char>
    decreases n,
{
    if n < 10 {
        seq![digit_char(n)]
    } else {
        decimal_digits(n / 10).push(digit_char(n % 10))
    }
}

/// The character for one decimal digit.
fn digit(d: u64) -> (c: char)
    requires
        d < 10,
    ensures
        c == digit_char(d as nat),
{
    (48 + d as u8) as char
}

/// Renders a number in decimal.
pub fn u64_to_string(n: u64) -> (s: String)
    ensures
        s@ == decimal_digits(n as nat),
    decreases n,
{
    if n < 10 {
        let mut s = String::new();
        push_char(&mut s, digit(n));
        proof {
            assert(s@ =~= seq![digit_char(n as nat)]);
        }
        s
    } else {
        let mut s = u64_to_string(n / 10);
        push_char(&mut s, digit(n % 10));
        s
    }
}

/// The metadata-wrapped form of a file's content: its path, last
/// modification time and size, then the content itself.
pub open spec fn metadata_text(
    path: Seq<char>,
    modified: u64,
    size: u64,
    content: Seq<char>,
) -> Seq<char> {
    "File: "@ + path + "\nLast Modified: "@ + decimal_digits(modified as nat) + "\nSize: "@
        + decimal_digits(size as nat) + "\nContent:\n"@ + content
}

/// Wraps file content with a `File / Last Modified / Size / Content` header,
/// as embedded at scan time and re-synthesized for display.
pub fn prepend_metadata(path_str: &str, modified: u64, size: u64, content: &str) -> (r: String)
    ensures
        r@ == metadata_text(path_str@, modified, size, content@),
{
    let mut r = String::from_str("File: ");
    r.append(path_str);
    r.append("\nLast Modified: ");
    let m = u64_to_string(modified);
    r.append(m.as_str());
    r.append("\nSize: ");
    let s = u64_to_string(size);
    r.append(s.as_str());
    r.append("\nContent:\n");
    r.append(content);
    r
}

} // verus!
