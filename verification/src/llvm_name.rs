//! How a name is written in LLVM's textual IR.
//!
//! LLVM takes `[-a-zA-Z$._][-a-zA-Z$._0-9]*` unquoted; any other name goes
//! inside `@"..."`, where it reads a `\` followed by exactly two hexadecimal
//! digits as a byte, and reads nothing else as an escape.
use vstd::prelude::*;

use vstd::utf8::encode_utf8;

use crate::print::push_char;
use crate::source::chars_of;

verus! {

/// A character LLVM takes in an unquoted name.
pub open spec fn name_char(c: char) -> bool {
    ('a' <= c && c <= 'z') || ('A' <= c && c <= 'Z') || ('0' <= c && c <= '9') || c == '-' || c == '$'
        || c == '.' || c == '_'
}

/// A name LLVM takes without quotes: not empty, not starting with a digit,
/// and made of [`name_char`]s. A leading digit is left out because `@0` is an
/// unnamed value rather than a name.
pub open spec fn plain_name(s: Seq<char>) -> bool {
    &&& s.len() > 0
    &&& !('0' <= s[0] && s[0] <= '9')
    &&& forall|i: int| 0 <= i < s.len() ==> name_char(#[trigger] s[i])
}

/// Whether this character may appear in an unquoted LLVM name.
pub fn is_name(ch: char) -> (r: bool)
    ensures
        r == name_char(ch),
{
    ('a' <= ch && ch <= 'z') || ('A' <= ch && ch <= 'Z') || ('0' <= ch && ch <= '9') || ch == '-'
        || ch == '$' || ch == '.' || ch == '_'
}

/// Whether LLVM takes this name without quotes.
pub fn plain(name: &str) -> (r: bool)
    ensures
        r == plain_name(name@),
{
    let chars = chars_of(name);
    if chars.len() == 0 {
        return false;
    }
    let first = chars[0];
    if !is_name(first) || ('0' <= first && first <= '9') {
        return false;
    }
    let mut i: usize = 1;
    while i < chars.len()
        invariant
            chars@ == name@,
            1 <= i <= chars@.len(),
            forall|k: int| 0 <= k < i ==> name_char(#[trigger] chars@[k]),
        decreases chars@.len() - i,
    {
        if !is_name(chars[i]) {
            return false;
        }
        i = i + 1;
    }
    true
}

/// A byte that stands for itself inside quotes: printable ASCII other than
/// `"` and `\`, and the space.
pub open spec fn kept_byte(b: u8) -> bool {
    (0x21 <= b && b <= 0x7e && b != 0x22 && b != 0x5c) || b == 0x20
}

/// The uppercase hexadecimal digit for `n`.
pub open spec fn upper_hex(n: int) -> char {
    if n < 10 {
        (48 + n) as char
    } else {
        (55 + n) as char
    }
}

/// How one byte of a name is written inside quotes: itself, or `\` and its
/// two hexadecimal digits.
pub open spec fn escaped_byte(b: u8) -> Seq<char> {
    if kept_byte(b) {
        seq![b as char]
    } else {
        seq!['\\', upper_hex((b / 16) as int), upper_hex((b % 16) as int)]
    }
}

/// How the UTF-8 bytes of a name are written inside quotes, byte by byte.
pub open spec fn escaped_bytes(bytes: Seq<u8>) -> Seq<char>
    decreases bytes.len(),
{
    if bytes.len() == 0 {
        Seq::empty()
    } else {
        escaped_bytes(bytes.drop_last()) + escaped_byte(bytes.last())
    }
}

fn upper_hex_digit(n: u8) -> (c: char)
    requires
        n < 16,
    ensures
        c == upper_hex(n as int),
{
    if n < 10 {
        (48 + n) as char
    } else {
        (55 + n) as char
    }
}

/// A name as it goes inside `@"..."`: every byte that is not plainly
/// printable becomes `\` and two hexadecimal digits, and so does the
/// backslash that would begin one.
pub fn escaped(name: &str) -> (s: String)
    ensures
        s@ == escaped_bytes(encode_utf8(name@)),
{
    let bytes = name.as_bytes();
    let mut out = String::new();
    let mut i: usize = 0;
    proof {
        assert(bytes@.take(0) =~= Seq::<u8>::empty());
    }
    while i < bytes.len()
        invariant
            bytes@ == encode_utf8(name@),
            i <= bytes@.len(),
            out@ == escaped_bytes(bytes@.take(i as int)),
        decreases bytes@.len() - i,
    {
        let byte = bytes[i];
        let printable = 0x21 <= byte && byte <= 0x7e && byte != 0x22 && byte != 0x5c;
        if printable || byte == 0x20 {
            push_char(&mut out, byte as char);
        } else {
            push_char(&mut out, '\\');
            push_char(&mut out, upper_hex_digit(byte / 16));
            push_char(&mut out, upper_hex_digit(byte % 16));
        }
        proof {
            let next = bytes@.take(i + 1);
            assert(next.drop_last() =~= bytes@.take(i as int));
            assert(next.last() == byte);
            assert(out@ =~= escaped_bytes(next));
        }
        i = i + 1;
    }
    assert(bytes@.take(bytes@.len() as int) =~= bytes@);
    out
}

} // verus!
