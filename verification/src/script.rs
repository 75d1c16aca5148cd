use allsorts::error::ParseError;
use vstd::prelude::*;

verus! {

/// Whether `c` may stand in an OpenType tag: printable ASCII.
pub open spec fn tag_char(c: char) -> bool {
    0x20 <= c as u32 <= 0x7e
}

/// The byte at place `i` of the tag written as `s`: short tags are padded with spaces.
pub open spec fn tag_byte(s: Seq<char>, i: int) -> int {
    if i < s.len() {
        s[i] as u32 as int
    } else {
        0x20
    }
}

/// The four bytes of the tag written as `s`, most significant first.
pub open spec fn tag_value(s: Seq<char>) -> int {
    ((tag_byte(s, 0) * 256 + tag_byte(s, 1)) * 256 + tag_byte(s, 2)) * 256 + tag_byte(s, 3)
}

/// Whether `s` is the spelling of a tag.
pub open spec fn tag_spelling(s: Seq<char>) -> bool {
    s.len() <= 4 && forall|i: int| 0 <= i < s.len() ==> tag_char(#[trigger] s[i])
}

/// `allsorts::tag::from_string`. It fails on a string of more than four bytes
/// or with a character that is not printable ASCII, and otherwise packs the
/// characters, padded with spaces to four, big end first.
#[verifier::external_body]
fn tag_from_string(s: &str) -> (r: Result<u32, ParseError>)
    ensures
        r is Ok <==> tag_spelling(s@),
        r matches Ok(t) ==> t == tag_value(s@),
{
    allsorts::tag::from_string(s)
}

/// The scripts that text can be shaped for.
#[derive(Clone, Copy, Debug, PartialEq, Eq, Structural)]
pub enum ImtScript {
    Default,
}

impl ImtScript {
    /// The OpenType script tag: `DFLT`.
    pub fn tag(&self) -> (t: u32)
        ensures
            t == 0x4446_4C54u32,
    {
        proof {
            reveal_strlit("DFLT");
        }
        match tag_from_string("DFLT") {
            Ok(t) => t,
            Err(_) => 0x4446_4C54u32,
        }
    }
}

/// The languages that text can be shaped for.
#[derive(Clone, Copy, Debug, PartialEq, Eq, Structural)]
pub enum ImtLang {
    Default,
}

impl ImtLang {
    /// The OpenType language tag: `dflt`.
    pub fn tag(&self) -> (t: u32)
        ensures
            t == 0x6466_6C74u32,
    {
        proof {
            reveal_strlit("dflt");
        }
        match tag_from_string("dflt") {
            Ok(t) => t,
            Err(_) => 0x6466_6C74u32,
        }
    }
}

} // verus!
