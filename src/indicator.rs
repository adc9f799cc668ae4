//! The text of the busy indicator shown while the first byte of a reply is
//! awaited.
use vstd::prelude::*;

verus! {

/// The glyph shown at step `i`: the four glyphs turn round.
pub open spec fn glyph(i: nat) -> Seq<char> {
    let k = i % 4;
    if k == 0 {
        "|"@
    } else if k == 1 {
        "/"@
    } else if k == 2 {
        "-"@
    } else {
        "\\"@
    }
}

/// The line written at step `i` of the indicator for `model`.
pub open spec fn spinner_line(model: Seq<char>, i: nat) -> Seq<char> {
    "\r"@ + model + "🤖: "@ + glyph(i)
}

/// The line written at step `i` of the indicator for `model`.
pub fn spinner_text(model: &str, i: u64) -> (r: String)
    ensures
        r@ == spinner_line(model@, i as nat),
{
    let mut s = String::from_str("\r");
    s.append(model);
    s.append("🤖: ");
    let k = i % 4;
    if k == 0 {
        s.append("|");
    } else if k == 1 {
        s.append("/");
    } else if k == 2 {
        s.append("-");
    } else {
        s.append("\\");
    }
    s
}

/// What clears the indicator's line when it stops.
pub fn clear_text() -> (r: String)
    ensures
        r@ == "\r                   \r"@,
{
    String::from_str("\r                   \r")
}

} // verus!
