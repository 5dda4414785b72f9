//! Text that reaches a terminal.
//!
//! A file's name and a diagnostic's message are content: they come from a
//! command line or a source file, and a terminal obeys the control characters
//! in them. What is printed goes through [`shown`], which writes each such
//! character as an escape instead.
use vstd::prelude::*;
use vstd::string::StringExecFns;

use crate::lexer::decimal;
use crate::source::chars_of;

verus! {

/// A character a terminal acts on rather than displays: the C0 controls but
/// for a newline and a tab, which are laid out rather than acted on, DEL, and
/// the C1 controls.
pub open spec fn obeyed(c: char) -> bool {
    ((c as u32) < 0x20 && c != '\n' && c != '\t') || (0x7f <= (c as u32) && (c as u32) <= 0x9f)
}

/// Whether a terminal acts on `c` rather than displaying it.
pub fn is_obeyed(c: char) -> (r: bool)
    ensures
        r == obeyed(c),
{
    let v = c as u32;
    (v < 0x20 && c != '\n' && c != '\t') || (0x7f <= v && v <= 0x9f)
}

/// The lowercase hexadecimal digit for `n`.
pub open spec fn hex_digit(n: nat) -> char {
    if n < 10 {
        (48 + n) as char
    } else {
        (87 + n) as char
    }
}

/// The lowercase hexadecimal digits of `n`, without leading zeros.
pub open spec fn hex(n: nat) -> Seq<char>
    decreases n,
{
    if n < 16 {
        seq![hex_digit(n)]
    } else {
        hex(n / 16).push(hex_digit(n % 16))
    }
}

/// How one character is shown: itself, or `\u{..}` with its code point in
/// hexadecimal where a terminal would act on it.
pub open spec fn shown_char(c: char) -> Seq<char> {
    if obeyed(c) {
        seq!['\\', 'u', '{'] + hex((c as u32) as nat) + seq!['}']
    } else {
        seq![c]
    }
}

/// How a text is shown: each character as [`shown_char`] shows it.
pub open spec fn shown_text(s: Seq<char>) -> Seq<char>
    decreases s.len(),
{
    if s.len() == 0 {
        Seq::empty()
    } else {
        shown_text(s.drop_last()) + shown_char(s.last())
    }
}

/// Calls `String::push`, which appends `c` to `s`: that is what this claims.
#[verifier::external_body]
pub(crate) fn push_char(s: &mut String, c: char)
    ensures
        final(s)@ == old(s)@.push(c),
{
    s.push(c);
}

/// Append `n` in decimal, with no sign and no leading zeros.
fn push_decimal(out: &mut String, n: u64)
    ensures
        final(out)@ == old(out)@ + decimal(n as nat),
    decreases n,
{
    if n >= 10 {
        push_decimal(out, n / 10);
    }
    let c = (48 + (n % 10) as u8) as char;
    assert(c == (48 + (n % 10) as nat) as char);
    push_char(out, c);
    proof {
        if n >= 10 {
            assert(decimal(n as nat) == decimal((n / 10) as nat).push((48 + (n as nat) % 10) as char));
        } else {
            assert(decimal(n as nat) == seq![(48 + n as nat) as char]);
        }
    }
}

/// `n` in decimal, with no sign and no leading zeros.
pub(crate) fn decimal_text(n: u64) -> (s: String)
    ensures
        s@ == decimal(n as nat),
{
    let mut s = String::new();
    push_decimal(&mut s, n);
    s
}

/// What `{:?}` writes for a text: the text between double quotes, escaped
/// the way `str`'s `Debug` escapes it.
pub uninterp spec fn debug_quoted(s: Seq<char>) -> Seq<char>;

/// Calls `format!("{:?}", s)`, whose result depends on `s` alone: that is
/// what this claims. What it escapes is `str`'s `Debug`, which this does not
/// restate.
#[verifier::external_body]
pub(crate) fn debug_text(s: &str) -> (r: String)
    ensures
        r@ == debug_quoted(s@),
{
    format!("{s:?}")
}

fn push_hex(out: &mut String, n: u32)
    ensures
        final(out)@ == old(out)@ + hex(n as nat),
    decreases n,
{
    if n >= 16 {
        push_hex(out, n / 16);
    }
    let d = n % 16;
    let c = if d < 10 {
        (48 + d) as u8 as char
    } else {
        (87 + d) as u8 as char
    };
    assert(c == hex_digit((n % 16) as nat));
    push_char(out, c);
}

/// `text` made safe to print: every character a terminal would act on is
/// written as `\u{..}` with its code point in hexadecimal, and everything else
/// is left as it was.
pub fn shown(text: &str) -> (s: String)
    ensures
        s@ == shown_text(text@),
{
    let chars = chars_of(text);
    let mut out = String::new();
    let mut i: usize = 0;
    proof {
        assert(chars@.take(0) =~= Seq::<char>::empty());
    }
    while i < chars.len()
        invariant
            chars@ == text@,
            i <= chars@.len(),
            out@ == shown_text(chars@.take(i as int)),
        decreases chars@.len() - i,
    {
        let c = chars[i];
        if is_obeyed(c) {
            out.append("\\u{");
            push_hex(&mut out, c as u32);
            push_char(&mut out, '}');
        } else {
            push_char(&mut out, c);
        }
        proof {
            let next = chars@.take(i + 1);
            assert(next.drop_last() =~= chars@.take(i as int));
            assert(next.last() == c);
            reveal_strlit("\\u{");
            assert(out@ =~= shown_text(next));
        }
        i = i + 1;
    }
    assert(chars@.take(chars@.len() as int) =~= chars@);
    out
}

} // verus!
