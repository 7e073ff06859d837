//! The language setting of the viewers: the trimmed contents of the Paws language file.
use vstd::prelude::*;

verus! {

/// Whether a character is white space in Unicode's sense (the White_Space property):
/// tab to carriage return, space, next line, no-break space, the Ogham space mark, the
/// en quad to the hair space, the line and paragraph separators, the narrow no-break
/// space, the medium mathematical space and the ideographic space.
pub open spec fn is_white(c: char) -> bool {
    let n = c as int;
    ||| 0x9 <= n <= 0xd
    ||| n == 0x20
    ||| n == 0x85
    ||| n == 0xa0
    ||| n == 0x1680
    ||| 0x2000 <= n <= 0x200a
    ||| n == 0x2028
    ||| n == 0x2029
    ||| n == 0x202f
    ||| n == 0x205f
    ||| n == 0x3000
}

/// A text without its leading white space.
pub open spec fn trim_start(s: Seq<char>) -> Seq<char>
    decreases s.len(),
{
    if s.len() > 0 && is_white(s[0]) {
        trim_start(s.drop_first())
    } else {
        s
    }
}

/// A text without its trailing white space.
pub open spec fn trim_end(s: Seq<char>) -> Seq<char>
    decreases s.len(),
{
    if s.len() > 0 && is_white(s.last()) {
        trim_end(s.drop_last())
    } else {
        s
    }
}

/// A text without its leading and trailing white space, as `str::trim` gives it.
pub open spec fn trimmed(s: Seq<char>) -> Seq<char> {
    trim_end(trim_start(s))
}

/// Calls `str::trim`: the text with its leading and trailing white space removed, white
/// space being Unicode's White_Space property, as the documentation of `str::trim` says.
#[verifier::external_body]
fn trim_text(s: &str) -> (t: &str)
    ensures
        t@ == trimmed(s@),
{
    s.trim()
}

/// Whether a text reads exactly `zh`.
pub fn reads_zh(t: &str) -> (b: bool)
    ensures
        b == (t@ == seq!['z', 'h']),
{
    if t.unicode_len() != 2 {
        return false;
    }
    let first = t.get_char(0);
    let second = t.get_char(1);
    let b = first == 'z' && second == 'h';
    assert(b == (t@ =~= seq!['z', 'h']));
    b
}

/// Whether a text reads `zh` once trimmed.
pub fn names_zh(s: &str) -> (b: bool)
    ensures
        b == (trimmed(s@) == seq!['z', 'h']),
{
    reads_zh(trim_text(s))
}

/// Whether the language file's contents, where it could be read, ask for Chinese.
pub open spec fn wants_zh(contents: Option<Seq<char>>) -> bool {
    match contents {
        Some(s) => trimmed(s) == seq!['z', 'h'],
        None => false,
    }
}

/// The view of optional text.
pub open spec fn text_view(contents: Option<&str>) -> Option<Seq<char>> {
    match contents {
        Some(s) => Some(s@),
        None => None,
    }
}

} // verus!
