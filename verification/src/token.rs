//! Tokens: what the lexer hands the parser.
//!
//! A token is a kind and a span. What a number is worth, and what a string
//! holds once its escapes are read, belong to the stages that know the target;
//! a token names the text and stops.
use vstd::prelude::*;

use crate::source::Span;

verus! {

/// A word C reserves. C17 6.4.1.
#[derive(Clone, Copy, Debug, PartialEq, Eq, Hash, Structural)]
pub enum Keyword {
    Auto,
    Break,
    Case,
    Char,
    Const,
    Continue,
    Default,
    Do,
    Double,
    Else,
    Enum,
    Extern,
    Float,
    For,
    Goto,
    If,
    Inline,
    Int,
    Long,
    Register,
    Restrict,
    Return,
    Short,
    Signed,
    Sizeof,
    Static,
    Struct,
    Switch,
    Typedef,
    Union,
    Unsigned,
    Void,
    Volatile,
    While,
    Alignas,
    Alignof,
    Atomic,
    Bool,
    Complex,
    Generic,
    Imaginary,
    Noreturn,
    StaticAssert,
    ThreadLocal,
}

/// The keyword spelled `word`, if it is one.
#[verifier::opaque]
pub open spec fn keyword_of(word: Seq<char>) -> Option<Keyword> {
    if word == seq!['a', 'u', 't', 'o'] {
        Some(Keyword::Auto)
    }
    else if word == seq!['b', 'r', 'e', 'a', 'k'] {
        Some(Keyword::Break)
    }
    else if word == seq!['c', 'a', 's', 'e'] {
        Some(Keyword::Case)
    }
    else if word == seq!['c', 'h', 'a', 'r'] {
        Some(Keyword::Char)
    }
    else if word == seq!['c', 'o', 'n', 's', 't'] {
        Some(Keyword::Const)
    }
    else if word == seq!['c', 'o', 'n', 't', 'i', 'n', 'u', 'e'] {
        Some(Keyword::Continue)
    }
    else if word == seq!['d', 'e', 'f', 'a', 'u', 'l', 't'] {
        Some(Keyword::Default)
    }
    else if word == seq!['d', 'o'] {
        Some(Keyword::Do)
    }
    else if word == seq!['d', 'o', 'u', 'b', 'l', 'e'] {
        Some(Keyword::Double)
    }
    else if word == seq!['e', 'l', 's', 'e'] {
        Some(Keyword::Else)
    }
    else if word == seq!['e', 'n', 'u', 'm'] {
        Some(Keyword::Enum)
    }
    else if word == seq!['e', 'x', 't', 'e', 'r', 'n'] {
        Some(Keyword::Extern)
    }
    else if word == seq!['f', 'l', 'o', 'a', 't'] {
        Some(Keyword::Float)
    }
    else if word == seq!['f', 'o', 'r'] {
        Some(Keyword::For)
    }
    else if word == seq!['g', 'o', 't', 'o'] {
        Some(Keyword::Goto)
    }
    else if word == seq!['i', 'f'] {
        Some(Keyword::If)
    }
    else if word == seq!['i', 'n', 'l', 'i', 'n', 'e'] {
        Some(Keyword::Inline)
    }
    else if word == seq!['i', 'n', 't'] {
        Some(Keyword::Int)
    }
    else if word == seq!['l', 'o', 'n', 'g'] {
        Some(Keyword::Long)
    }
    else if word == seq!['r', 'e', 'g', 'i', 's', 't', 'e', 'r'] {
        Some(Keyword::Register)
    }
    else if word == seq!['r', 'e', 's', 't', 'r', 'i', 'c', 't'] {
        Some(Keyword::Restrict)
    }
    else if word == seq!['r', 'e', 't', 'u', 'r', 'n'] {
        Some(Keyword::Return)
    }
    else if word == seq!['s', 'h', 'o', 'r', 't'] {
        Some(Keyword::Short)
    }
    else if word == seq!['s', 'i', 'g', 'n', 'e', 'd'] {
        Some(Keyword::Signed)
    }
    else if word == seq!['s', 'i', 'z', 'e', 'o', 'f'] {
        Some(Keyword::Sizeof)
    }
    else if word == seq!['s', 't', 'a', 't', 'i', 'c'] {
        Some(Keyword::Static)
    }
    else if word == seq!['s', 't', 'r', 'u', 'c', 't'] {
        Some(Keyword::Struct)
    }
    else if word == seq!['s', 'w', 'i', 't', 'c', 'h'] {
        Some(Keyword::Switch)
    }
    else if word == seq!['t', 'y', 'p', 'e', 'd', 'e', 'f'] {
        Some(Keyword::Typedef)
    }
    else if word == seq!['u', 'n', 'i', 'o', 'n'] {
        Some(Keyword::Union)
    }
    else if word == seq!['u', 'n', 's', 'i', 'g', 'n', 'e', 'd'] {
        Some(Keyword::Unsigned)
    }
    else if word == seq!['v', 'o', 'i', 'd'] {
        Some(Keyword::Void)
    }
    else if word == seq!['v', 'o', 'l', 'a', 't', 'i', 'l', 'e'] {
        Some(Keyword::Volatile)
    }
    else if word == seq!['w', 'h', 'i', 'l', 'e'] {
        Some(Keyword::While)
    }
    else if word == seq!['_', 'A', 'l', 'i', 'g', 'n', 'a', 's'] {
        Some(Keyword::Alignas)
    }
    else if word == seq!['_', 'A', 'l', 'i', 'g', 'n', 'o', 'f'] {
        Some(Keyword::Alignof)
    }
    else if word == seq!['_', 'A', 't', 'o', 'm', 'i', 'c'] {
        Some(Keyword::Atomic)
    }
    else if word == seq!['_', 'B', 'o', 'o', 'l'] {
        Some(Keyword::Bool)
    }
    else if word == seq!['_', 'C', 'o', 'm', 'p', 'l', 'e', 'x'] {
        Some(Keyword::Complex)
    }
    else if word == seq!['_', 'G', 'e', 'n', 'e', 'r', 'i', 'c'] {
        Some(Keyword::Generic)
    }
    else if word == seq!['_', 'I', 'm', 'a', 'g', 'i', 'n', 'a', 'r', 'y'] {
        Some(Keyword::Imaginary)
    }
    else if word == seq!['_', 'N', 'o', 'r', 'e', 't', 'u', 'r', 'n'] {
        Some(Keyword::Noreturn)
    }
    else if word == seq!['_', 'S', 't', 'a', 't', 'i', 'c', '_', 'a', 's', 's', 'e', 'r', 't'] {
        Some(Keyword::StaticAssert)
    }
    else if word == seq!['_', 'T', 'h', 'r', 'e', 'a', 'd', '_', 'l', 'o', 'c', 'a', 'l'] {
        Some(Keyword::ThreadLocal)
    }
    else {
        None
    }
}

/// Whether `word` holds exactly the characters of `spelled`.
fn same(word: &[char], spelled: &[char]) -> (r: bool)
    ensures
        r == (word@ == spelled@),
{
    if word.len() != spelled.len() {
        return false;
    }
    let mut i: usize = 0;
    while i < word.len()
        invariant
            word.len() == spelled.len(),
            i <= word.len(),
            forall|j: int| 0 <= j < i ==> word@[j] == spelled@[j],
        decreases word.len() - i,
    {
        if word[i] != spelled[i] {
            return false;
        }
        i = i + 1;
    }
    assert(word@ =~= spelled@);
    true
}

impl Keyword {
    /// The keyword spelled `word`, or `None` for an ordinary identifier.
    pub fn from_spelling(word: &[char]) -> (r: Option<Keyword>)
        ensures
            r == keyword_of(word@),
    {
        reveal(keyword_of);
        if same(word, &['a', 'u', 't', 'o']) {
            assert(seq!['a', 'u', 't', 'o'] =~= ['a', 'u', 't', 'o']@);
            return Some(Keyword::Auto);
        }
        assert(seq!['a', 'u', 't', 'o'] =~= ['a', 'u', 't', 'o']@);
        if same(word, &['b', 'r', 'e', 'a', 'k']) {
            assert(seq!['b', 'r', 'e', 'a', 'k'] =~= ['b', 'r', 'e', 'a', 'k']@);
            return Some(Keyword::Break);
        }
        assert(seq!['b', 'r', 'e', 'a', 'k'] =~= ['b', 'r', 'e', 'a', 'k']@);
        if same(word, &['c', 'a', 's', 'e']) {
            assert(seq!['c', 'a', 's', 'e'] =~= ['c', 'a', 's', 'e']@);
            return Some(Keyword::Case);
        }
        assert(seq!['c', 'a', 's', 'e'] =~= ['c', 'a', 's', 'e']@);
        if same(word, &['c', 'h', 'a', 'r']) {
            assert(seq!['c', 'h', 'a', 'r'] =~= ['c', 'h', 'a', 'r']@);
            return Some(Keyword::Char);
        }
        assert(seq!['c', 'h', 'a', 'r'] =~= ['c', 'h', 'a', 'r']@);
        if same(word, &['c', 'o', 'n', 's', 't']) {
            assert(seq!['c', 'o', 'n', 's', 't'] =~= ['c', 'o', 'n', 's', 't']@);
            return Some(Keyword::Const);
        }
        assert(seq!['c', 'o', 'n', 's', 't'] =~= ['c', 'o', 'n', 's', 't']@);
        if same(word, &['c', 'o', 'n', 't', 'i', 'n', 'u', 'e']) {
            assert(seq!['c', 'o', 'n', 't', 'i', 'n', 'u', 'e'] =~= ['c', 'o', 'n', 't', 'i', 'n', 'u', 'e']@);
            return Some(Keyword::Continue);
        }
        assert(seq!['c', 'o', 'n', 't', 'i', 'n', 'u', 'e'] =~= ['c', 'o', 'n', 't', 'i', 'n', 'u', 'e']@);
        if same(word, &['d', 'e', 'f', 'a', 'u', 'l', 't']) {
            assert(seq!['d', 'e', 'f', 'a', 'u', 'l', 't'] =~= ['d', 'e', 'f', 'a', 'u', 'l', 't']@);
            return Some(Keyword::Default);
        }
        assert(seq!['d', 'e', 'f', 'a', 'u', 'l', 't'] =~= ['d', 'e', 'f', 'a', 'u', 'l', 't']@);
        if same(word, &['d', 'o']) {
            assert(seq!['d', 'o'] =~= ['d', 'o']@);
            return Some(Keyword::Do);
        }
        assert(seq!['d', 'o'] =~= ['d', 'o']@);
        if same(word, &['d', 'o', 'u', 'b', 'l', 'e']) {
            assert(seq!['d', 'o', 'u', 'b', 'l', 'e'] =~= ['d', 'o', 'u', 'b', 'l', 'e']@);
            return Some(Keyword::Double);
        }
        assert(seq!['d', 'o', 'u', 'b', 'l', 'e'] =~= ['d', 'o', 'u', 'b', 'l', 'e']@);
        if same(word, &['e', 'l', 's', 'e']) {
            assert(seq!['e', 'l', 's', 'e'] =~= ['e', 'l', 's', 'e']@);
            return Some(Keyword::Else);
        }
        assert(seq!['e', 'l', 's', 'e'] =~= ['e', 'l', 's', 'e']@);
        if same(word, &['e', 'n', 'u', 'm']) {
            assert(seq!['e', 'n', 'u', 'm'] =~= ['e', 'n', 'u', 'm']@);
            return Some(Keyword::Enum);
        }
        assert(seq!['e', 'n', 'u', 'm'] =~= ['e', 'n', 'u', 'm']@);
        if same(word, &['e', 'x', 't', 'e', 'r', 'n']) {
            assert(seq!['e', 'x', 't', 'e', 'r', 'n'] =~= ['e', 'x', 't', 'e', 'r', 'n']@);
            return Some(Keyword::Extern);
        }
        assert(seq!['e', 'x', 't', 'e', 'r', 'n'] =~= ['e', 'x', 't', 'e', 'r', 'n']@);
        if same(word, &['f', 'l', 'o', 'a', 't']) {
            assert(seq!['f', 'l', 'o', 'a', 't'] =~= ['f', 'l', 'o', 'a', 't']@);
            return Some(Keyword::Float);
        }
        assert(seq!['f', 'l', 'o', 'a', 't'] =~= ['f', 'l', 'o', 'a', 't']@);
        if same(word, &['f', 'o', 'r']) {
            assert(seq!['f', 'o', 'r'] =~= ['f', 'o', 'r']@);
            return Some(Keyword::For);
        }
        assert(seq!['f', 'o', 'r'] =~= ['f', 'o', 'r']@);
        if same(word, &['g', 'o', 't', 'o']) {
            assert(seq!['g', 'o', 't', 'o'] =~= ['g', 'o', 't', 'o']@);
            return Some(Keyword::Goto);
        }
        assert(seq!['g', 'o', 't', 'o'] =~= ['g', 'o', 't', 'o']@);
        if same(word, &['i', 'f']) {
            assert(seq!['i', 'f'] =~= ['i', 'f']@);
            return Some(Keyword::If);
        }
        assert(seq!['i', 'f'] =~= ['i', 'f']@);
        if same(word, &['i', 'n', 'l', 'i', 'n', 'e']) {
            assert(seq!['i', 'n', 'l', 'i', 'n', 'e'] =~= ['i', 'n', 'l', 'i', 'n', 'e']@);
            return Some(Keyword::Inline);
        }
        assert(seq!['i', 'n', 'l', 'i', 'n', 'e'] =~= ['i', 'n', 'l', 'i', 'n', 'e']@);
        if same(word, &['i', 'n', 't']) {
            assert(seq!['i', 'n', 't'] =~= ['i', 'n', 't']@);
            return Some(Keyword::Int);
        }
        assert(seq!['i', 'n', 't'] =~= ['i', 'n', 't']@);
        if same(word, &['l', 'o', 'n', 'g']) {
            assert(seq!['l', 'o', 'n', 'g'] =~= ['l', 'o', 'n', 'g']@);
            return Some(Keyword::Long);
        }
        assert(seq!['l', 'o', 'n', 'g'] =~= ['l', 'o', 'n', 'g']@);
        if same(word, &['r', 'e', 'g', 'i', 's', 't', 'e', 'r']) {
            assert(seq!['r', 'e', 'g', 'i', 's', 't', 'e', 'r'] =~= ['r', 'e', 'g', 'i', 's', 't', 'e', 'r']@);
            return Some(Keyword::Register);
        }
        assert(seq!['r', 'e', 'g', 'i', 's', 't', 'e', 'r'] =~= ['r', 'e', 'g', 'i', 's', 't', 'e', 'r']@);
        if same(word, &['r', 'e', 's', 't', 'r', 'i', 'c', 't']) {
            assert(seq!['r', 'e', 's', 't', 'r', 'i', 'c', 't'] =~= ['r', 'e', 's', 't', 'r', 'i', 'c', 't']@);
            return Some(Keyword::Restrict);
        }
        assert(seq!['r', 'e', 's', 't', 'r', 'i', 'c', 't'] =~= ['r', 'e', 's', 't', 'r', 'i', 'c', 't']@);
        if same(word, &['r', 'e', 't', 'u', 'r', 'n']) {
            assert(seq!['r', 'e', 't', 'u', 'r', 'n'] =~= ['r', 'e', 't', 'u', 'r', 'n']@);
            return Some(Keyword::Return);
        }
        assert(seq!['r', 'e', 't', 'u', 'r', 'n'] =~= ['r', 'e', 't', 'u', 'r', 'n']@);
        if same(word, &['s', 'h', 'o', 'r', 't']) {
            assert(seq!['s', 'h', 'o', 'r', 't'] =~= ['s', 'h', 'o', 'r', 't']@);
            return Some(Keyword::Short);
        }
        assert(seq!['s', 'h', 'o', 'r', 't'] =~= ['s', 'h', 'o', 'r', 't']@);
        if same(word, &['s', 'i', 'g', 'n', 'e', 'd']) {
            assert(seq!['s', 'i', 'g', 'n', 'e', 'd'] =~= ['s', 'i', 'g', 'n', 'e', 'd']@);
            return Some(Keyword::Signed);
        }
        assert(seq!['s', 'i', 'g', 'n', 'e', 'd'] =~= ['s', 'i', 'g', 'n', 'e', 'd']@);
        if same(word, &['s', 'i', 'z', 'e', 'o', 'f']) {
            assert(seq!['s', 'i', 'z', 'e', 'o', 'f'] =~= ['s', 'i', 'z', 'e', 'o', 'f']@);
            return Some(Keyword::Sizeof);
        }
        assert(seq!['s', 'i', 'z', 'e', 'o', 'f'] =~= ['s', 'i', 'z', 'e', 'o', 'f']@);
        if same(word, &['s', 't', 'a', 't', 'i', 'c']) {
            assert(seq!['s', 't', 'a', 't', 'i', 'c'] =~= ['s', 't', 'a', 't', 'i', 'c']@);
            return Some(Keyword::Static);
        }
        assert(seq!['s', 't', 'a', 't', 'i', 'c'] =~= ['s', 't', 'a', 't', 'i', 'c']@);
        if same(word, &['s', 't', 'r', 'u', 'c', 't']) {
            assert(seq!['s', 't', 'r', 'u', 'c', 't'] =~= ['s', 't', 'r', 'u', 'c', 't']@);
            return Some(Keyword::Struct);
        }
        assert(seq!['s', 't', 'r', 'u', 'c', 't'] =~= ['s', 't', 'r', 'u', 'c', 't']@);
        if same(word, &['s', 'w', 'i', 't', 'c', 'h']) {
            assert(seq!['s', 'w', 'i', 't', 'c', 'h'] =~= ['s', 'w', 'i', 't', 'c', 'h']@);
            return Some(Keyword::Switch);
        }
        assert(seq!['s', 'w', 'i', 't', 'c', 'h'] =~= ['s', 'w', 'i', 't', 'c', 'h']@);
        if same(word, &['t', 'y', 'p', 'e', 'd', 'e', 'f']) {
            assert(seq!['t', 'y', 'p', 'e', 'd', 'e', 'f'] =~= ['t', 'y', 'p', 'e', 'd', 'e', 'f']@);
            return Some(Keyword::Typedef);
        }
        assert(seq!['t', 'y', 'p', 'e', 'd', 'e', 'f'] =~= ['t', 'y', 'p', 'e', 'd', 'e', 'f']@);
        if same(word, &['u', 'n', 'i', 'o', 'n']) {
            assert(seq!['u', 'n', 'i', 'o', 'n'] =~= ['u', 'n', 'i', 'o', 'n']@);
            return Some(Keyword::Union);
        }
        assert(seq!['u', 'n', 'i', 'o', 'n'] =~= ['u', 'n', 'i', 'o', 'n']@);
        if same(word, &['u', 'n', 's', 'i', 'g', 'n', 'e', 'd']) {
            assert(seq!['u', 'n', 's', 'i', 'g', 'n', 'e', 'd'] =~= ['u', 'n', 's', 'i', 'g', 'n', 'e', 'd']@);
            return Some(Keyword::Unsigned);
        }
        assert(seq!['u', 'n', 's', 'i', 'g', 'n', 'e', 'd'] =~= ['u', 'n', 's', 'i', 'g', 'n', 'e', 'd']@);
        if same(word, &['v', 'o', 'i', 'd']) {
            assert(seq!['v', 'o', 'i', 'd'] =~= ['v', 'o', 'i', 'd']@);
            return Some(Keyword::Void);
        }
        assert(seq!['v', 'o', 'i', 'd'] =~= ['v', 'o', 'i', 'd']@);
        if same(word, &['v', 'o', 'l', 'a', 't', 'i', 'l', 'e']) {
            assert(seq!['v', 'o', 'l', 'a', 't', 'i', 'l', 'e'] =~= ['v', 'o', 'l', 'a', 't', 'i', 'l', 'e']@);
            return Some(Keyword::Volatile);
        }
        assert(seq!['v', 'o', 'l', 'a', 't', 'i', 'l', 'e'] =~= ['v', 'o', 'l', 'a', 't', 'i', 'l', 'e']@);
        if same(word, &['w', 'h', 'i', 'l', 'e']) {
            assert(seq!['w', 'h', 'i', 'l', 'e'] =~= ['w', 'h', 'i', 'l', 'e']@);
            return Some(Keyword::While);
        }
        assert(seq!['w', 'h', 'i', 'l', 'e'] =~= ['w', 'h', 'i', 'l', 'e']@);
        if same(word, &['_', 'A', 'l', 'i', 'g', 'n', 'a', 's']) {
            assert(seq!['_', 'A', 'l', 'i', 'g', 'n', 'a', 's'] =~= ['_', 'A', 'l', 'i', 'g', 'n', 'a', 's']@);
            return Some(Keyword::Alignas);
        }
        assert(seq!['_', 'A', 'l', 'i', 'g', 'n', 'a', 's'] =~= ['_', 'A', 'l', 'i', 'g', 'n', 'a', 's']@);
        if same(word, &['_', 'A', 'l', 'i', 'g', 'n', 'o', 'f']) {
            assert(seq!['_', 'A', 'l', 'i', 'g', 'n', 'o', 'f'] =~= ['_', 'A', 'l', 'i', 'g', 'n', 'o', 'f']@);
            return Some(Keyword::Alignof);
        }
        assert(seq!['_', 'A', 'l', 'i', 'g', 'n', 'o', 'f'] =~= ['_', 'A', 'l', 'i', 'g', 'n', 'o', 'f']@);
        if same(word, &['_', 'A', 't', 'o', 'm', 'i', 'c']) {
            assert(seq!['_', 'A', 't', 'o', 'm', 'i', 'c'] =~= ['_', 'A', 't', 'o', 'm', 'i', 'c']@);
            return Some(Keyword::Atomic);
        }
        assert(seq!['_', 'A', 't', 'o', 'm', 'i', 'c'] =~= ['_', 'A', 't', 'o', 'm', 'i', 'c']@);
        if same(word, &['_', 'B', 'o', 'o', 'l']) {
            assert(seq!['_', 'B', 'o', 'o', 'l'] =~= ['_', 'B', 'o', 'o', 'l']@);
            return Some(Keyword::Bool);
        }
        assert(seq!['_', 'B', 'o', 'o', 'l'] =~= ['_', 'B', 'o', 'o', 'l']@);
        if same(word, &['_', 'C', 'o', 'm', 'p', 'l', 'e', 'x']) {
            assert(seq!['_', 'C', 'o', 'm', 'p', 'l', 'e', 'x'] =~= ['_', 'C', 'o', 'm', 'p', 'l', 'e', 'x']@);
            return Some(Keyword::Complex);
        }
        assert(seq!['_', 'C', 'o', 'm', 'p', 'l', 'e', 'x'] =~= ['_', 'C', 'o', 'm', 'p', 'l', 'e', 'x']@);
        if same(word, &['_', 'G', 'e', 'n', 'e', 'r', 'i', 'c']) {
            assert(seq!['_', 'G', 'e', 'n', 'e', 'r', 'i', 'c'] =~= ['_', 'G', 'e', 'n', 'e', 'r', 'i', 'c']@);
            return Some(Keyword::Generic);
        }
        assert(seq!['_', 'G', 'e', 'n', 'e', 'r', 'i', 'c'] =~= ['_', 'G', 'e', 'n', 'e', 'r', 'i', 'c']@);
        if same(word, &['_', 'I', 'm', 'a', 'g', 'i', 'n', 'a', 'r', 'y']) {
            assert(seq!['_', 'I', 'm', 'a', 'g', 'i', 'n', 'a', 'r', 'y'] =~= ['_', 'I', 'm', 'a', 'g', 'i', 'n', 'a', 'r', 'y']@);
            return Some(Keyword::Imaginary);
        }
        assert(seq!['_', 'I', 'm', 'a', 'g', 'i', 'n', 'a', 'r', 'y'] =~= ['_', 'I', 'm', 'a', 'g', 'i', 'n', 'a', 'r', 'y']@);
        if same(word, &['_', 'N', 'o', 'r', 'e', 't', 'u', 'r', 'n']) {
            assert(seq!['_', 'N', 'o', 'r', 'e', 't', 'u', 'r', 'n'] =~= ['_', 'N', 'o', 'r', 'e', 't', 'u', 'r', 'n']@);
            return Some(Keyword::Noreturn);
        }
        assert(seq!['_', 'N', 'o', 'r', 'e', 't', 'u', 'r', 'n'] =~= ['_', 'N', 'o', 'r', 'e', 't', 'u', 'r', 'n']@);
        if same(word, &['_', 'S', 't', 'a', 't', 'i', 'c', '_', 'a', 's', 's', 'e', 'r', 't']) {
            assert(seq!['_', 'S', 't', 'a', 't', 'i', 'c', '_', 'a', 's', 's', 'e', 'r', 't'] =~= ['_', 'S', 't', 'a', 't', 'i', 'c', '_', 'a', 's', 's', 'e', 'r', 't']@);
            return Some(Keyword::StaticAssert);
        }
        assert(seq!['_', 'S', 't', 'a', 't', 'i', 'c', '_', 'a', 's', 's', 'e', 'r', 't'] =~= ['_', 'S', 't', 'a', 't', 'i', 'c', '_', 'a', 's', 's', 'e', 'r', 't']@);
        if same(word, &['_', 'T', 'h', 'r', 'e', 'a', 'd', '_', 'l', 'o', 'c', 'a', 'l']) {
            assert(seq!['_', 'T', 'h', 'r', 'e', 'a', 'd', '_', 'l', 'o', 'c', 'a', 'l'] =~= ['_', 'T', 'h', 'r', 'e', 'a', 'd', '_', 'l', 'o', 'c', 'a', 'l']@);
            return Some(Keyword::ThreadLocal);
        }
        assert(seq!['_', 'T', 'h', 'r', 'e', 'a', 'd', '_', 'l', 'o', 'c', 'a', 'l'] =~= ['_', 'T', 'h', 'r', 'e', 'a', 'd', '_', 'l', 'o', 'c', 'a', 'l']@);
        None
    }
}

/// A punctuator. C17 6.4.6, without the digraphs.
#[derive(Clone, Copy, Debug, PartialEq, Eq, Hash, Structural)]
pub enum Punct {
    LBracket,
    RBracket,
    LParen,
    RParen,
    LBrace,
    RBrace,
    Dot,
    Arrow,
    PlusPlus,
    MinusMinus,
    Amp,
    Star,
    Plus,
    Minus,
    Tilde,
    Bang,
    Slash,
    Percent,
    Shl,
    Shr,
    Lt,
    Gt,
    Le,
    Ge,
    EqEq,
    Ne,
    Caret,
    Pipe,
    AmpAmp,
    PipePipe,
    Question,
    Colon,
    Semicolon,
    Ellipsis,
    Assign,
    StarAssign,
    SlashAssign,
    PercentAssign,
    PlusAssign,
    MinusAssign,
    ShlAssign,
    ShrAssign,
    AmpAssign,
    CaretAssign,
    PipeAssign,
    Comma,
    Hash,
    HashHash,
}

/// How C spells `p`.
pub open spec fn punct_spelling(p: Punct) -> Seq<char> {
    match p {
        Punct::LBracket => seq!['['],
        Punct::RBracket => seq![']'],
        Punct::LParen => seq!['('],
        Punct::RParen => seq![')'],
        Punct::LBrace => seq!['{'],
        Punct::RBrace => seq!['}'],
        Punct::Dot => seq!['.'],
        Punct::Arrow => seq!['-', '>'],
        Punct::PlusPlus => seq!['+', '+'],
        Punct::MinusMinus => seq!['-', '-'],
        Punct::Amp => seq!['&'],
        Punct::Star => seq!['*'],
        Punct::Plus => seq!['+'],
        Punct::Minus => seq!['-'],
        Punct::Tilde => seq!['~'],
        Punct::Bang => seq!['!'],
        Punct::Slash => seq!['/'],
        Punct::Percent => seq!['%'],
        Punct::Shl => seq!['<', '<'],
        Punct::Shr => seq!['>', '>'],
        Punct::Lt => seq!['<'],
        Punct::Gt => seq!['>'],
        Punct::Le => seq!['<', '='],
        Punct::Ge => seq!['>', '='],
        Punct::EqEq => seq!['=', '='],
        Punct::Ne => seq!['!', '='],
        Punct::Caret => seq!['^'],
        Punct::Pipe => seq!['|'],
        Punct::AmpAmp => seq!['&', '&'],
        Punct::PipePipe => seq!['|', '|'],
        Punct::Question => seq!['?'],
        Punct::Colon => seq![':'],
        Punct::Semicolon => seq![';'],
        Punct::Ellipsis => seq!['.', '.', '.'],
        Punct::Assign => seq!['='],
        Punct::StarAssign => seq!['*', '='],
        Punct::SlashAssign => seq!['/', '='],
        Punct::PercentAssign => seq!['%', '='],
        Punct::PlusAssign => seq!['+', '='],
        Punct::MinusAssign => seq!['-', '='],
        Punct::ShlAssign => seq!['<', '<', '='],
        Punct::ShrAssign => seq!['>', '>', '='],
        Punct::AmpAssign => seq!['&', '='],
        Punct::CaretAssign => seq!['^', '='],
        Punct::PipeAssign => seq!['|', '='],
        Punct::Comma => seq![','],
        Punct::Hash => seq!['#'],
        Punct::HashHash => seq!['#', '#'],
    }
}

/// The punctuator spelled by exactly these 1 character.
pub open spec fn punct_1(a: char) -> Option<Punct> {
    match a {
        '[' => Some(Punct::LBracket),
        ']' => Some(Punct::RBracket),
        '(' => Some(Punct::LParen),
        ')' => Some(Punct::RParen),
        '{' => Some(Punct::LBrace),
        '}' => Some(Punct::RBrace),
        '.' => Some(Punct::Dot),
        '&' => Some(Punct::Amp),
        '*' => Some(Punct::Star),
        '+' => Some(Punct::Plus),
        '-' => Some(Punct::Minus),
        '~' => Some(Punct::Tilde),
        '!' => Some(Punct::Bang),
        '/' => Some(Punct::Slash),
        '%' => Some(Punct::Percent),
        '<' => Some(Punct::Lt),
        '>' => Some(Punct::Gt),
        '^' => Some(Punct::Caret),
        '|' => Some(Punct::Pipe),
        '?' => Some(Punct::Question),
        ':' => Some(Punct::Colon),
        ';' => Some(Punct::Semicolon),
        '=' => Some(Punct::Assign),
        ',' => Some(Punct::Comma),
        '#' => Some(Punct::Hash),
        _ => None,
    }
}

fn exact_1(a: char) -> (r: Option<Punct>)
    ensures
        r == punct_1(a),
{
    match a {
        '[' => Some(Punct::LBracket),
        ']' => Some(Punct::RBracket),
        '(' => Some(Punct::LParen),
        ')' => Some(Punct::RParen),
        '{' => Some(Punct::LBrace),
        '}' => Some(Punct::RBrace),
        '.' => Some(Punct::Dot),
        '&' => Some(Punct::Amp),
        '*' => Some(Punct::Star),
        '+' => Some(Punct::Plus),
        '-' => Some(Punct::Minus),
        '~' => Some(Punct::Tilde),
        '!' => Some(Punct::Bang),
        '/' => Some(Punct::Slash),
        '%' => Some(Punct::Percent),
        '<' => Some(Punct::Lt),
        '>' => Some(Punct::Gt),
        '^' => Some(Punct::Caret),
        '|' => Some(Punct::Pipe),
        '?' => Some(Punct::Question),
        ':' => Some(Punct::Colon),
        ';' => Some(Punct::Semicolon),
        '=' => Some(Punct::Assign),
        ',' => Some(Punct::Comma),
        '#' => Some(Punct::Hash),
        _ => None,
    }
}

/// The punctuator spelled by exactly these 2 characters.
pub open spec fn punct_2(a: char, b: char) -> Option<Punct> {
    match (a, b) {
        ('-', '>') => Some(Punct::Arrow),
        ('+', '+') => Some(Punct::PlusPlus),
        ('-', '-') => Some(Punct::MinusMinus),
        ('<', '<') => Some(Punct::Shl),
        ('>', '>') => Some(Punct::Shr),
        ('<', '=') => Some(Punct::Le),
        ('>', '=') => Some(Punct::Ge),
        ('=', '=') => Some(Punct::EqEq),
        ('!', '=') => Some(Punct::Ne),
        ('&', '&') => Some(Punct::AmpAmp),
        ('|', '|') => Some(Punct::PipePipe),
        ('*', '=') => Some(Punct::StarAssign),
        ('/', '=') => Some(Punct::SlashAssign),
        ('%', '=') => Some(Punct::PercentAssign),
        ('+', '=') => Some(Punct::PlusAssign),
        ('-', '=') => Some(Punct::MinusAssign),
        ('&', '=') => Some(Punct::AmpAssign),
        ('^', '=') => Some(Punct::CaretAssign),
        ('|', '=') => Some(Punct::PipeAssign),
        ('#', '#') => Some(Punct::HashHash),
        _ => None,
    }
}

fn exact_2(a: char, b: char) -> (r: Option<Punct>)
    ensures
        r == punct_2(a, b),
{
    match (a, b) {
        ('-', '>') => Some(Punct::Arrow),
        ('+', '+') => Some(Punct::PlusPlus),
        ('-', '-') => Some(Punct::MinusMinus),
        ('<', '<') => Some(Punct::Shl),
        ('>', '>') => Some(Punct::Shr),
        ('<', '=') => Some(Punct::Le),
        ('>', '=') => Some(Punct::Ge),
        ('=', '=') => Some(Punct::EqEq),
        ('!', '=') => Some(Punct::Ne),
        ('&', '&') => Some(Punct::AmpAmp),
        ('|', '|') => Some(Punct::PipePipe),
        ('*', '=') => Some(Punct::StarAssign),
        ('/', '=') => Some(Punct::SlashAssign),
        ('%', '=') => Some(Punct::PercentAssign),
        ('+', '=') => Some(Punct::PlusAssign),
        ('-', '=') => Some(Punct::MinusAssign),
        ('&', '=') => Some(Punct::AmpAssign),
        ('^', '=') => Some(Punct::CaretAssign),
        ('|', '=') => Some(Punct::PipeAssign),
        ('#', '#') => Some(Punct::HashHash),
        _ => None,
    }
}

/// The punctuator spelled by exactly these 3 characters.
pub open spec fn punct_3(a: char, b: char, c: char) -> Option<Punct> {
    match (a, b, c) {
        ('.', '.', '.') => Some(Punct::Ellipsis),
        ('<', '<', '=') => Some(Punct::ShlAssign),
        ('>', '>', '=') => Some(Punct::ShrAssign),
        _ => None,
    }
}

fn exact_3(a: char, b: char, c: char) -> (r: Option<Punct>)
    ensures
        r == punct_3(a, b, c),
{
    match (a, b, c) {
        ('.', '.', '.') => Some(Punct::Ellipsis),
        ('<', '<', '=') => Some(Punct::ShlAssign),
        ('>', '>', '=') => Some(Punct::ShrAssign),
        _ => None,
    }
}

/// The longest punctuator `text` has at position `i`, which is C's rule: the
/// scan takes the longest run that could be a token.
pub open spec fn punct_at(text: Seq<char>, i: int) -> Option<Punct> {
    if i + 3 <= text.len() && punct_3(text[i], text[i + 1], text[i + 2]) is Some {
        punct_3(text[i], text[i + 1], text[i + 2])
    } else if i + 2 <= text.len() && punct_2(text[i], text[i + 1]) is Some {
        punct_2(text[i], text[i + 1])
    } else if i + 1 <= text.len() {
        punct_1(text[i])
    } else {
        None
    }
}

impl Punct {
    /// The longest punctuator at the start of `text[i..]`.
    pub fn starting(text: &[char], i: usize) -> (r: Option<Punct>)
        requires
            i <= text.len(),
        ensures
            r == punct_at(text@, i as int),
    {
        if text.len() - i >= 3 {
            let p = exact_3(text[i], text[i + 1], text[i + 2]);
            if p.is_some() {
                return p;
            }
        }
        if text.len() - i >= 2 {
            let p = exact_2(text[i], text[i + 1]);
            if p.is_some() {
                return p;
            }
        }
        if text.len() - i >= 1 {
            exact_1(text[i])
        } else {
            None
        }
    }

    /// Whether some punctuator begins with `c`.
    ///
    /// Every longer punctuator begins with a character that is a punctuator on
    /// its own, so the single characters are the whole answer.
    pub fn can_start_with(c: char) -> (r: bool)
        ensures
            r == (punct_1(c) is Some),
    {
        exact_1(c).is_some()
    }

    /// How many characters, and bytes, the punctuator takes.
    pub fn len(self) -> (n: usize)
        ensures
            n == punct_spelling(self).len(),
    {
        match self {
            Punct::LBracket => 1,
            Punct::RBracket => 1,
            Punct::LParen => 1,
            Punct::RParen => 1,
            Punct::LBrace => 1,
            Punct::RBrace => 1,
            Punct::Dot => 1,
            Punct::Arrow => 2,
            Punct::PlusPlus => 2,
            Punct::MinusMinus => 2,
            Punct::Amp => 1,
            Punct::Star => 1,
            Punct::Plus => 1,
            Punct::Minus => 1,
            Punct::Tilde => 1,
            Punct::Bang => 1,
            Punct::Slash => 1,
            Punct::Percent => 1,
            Punct::Shl => 2,
            Punct::Shr => 2,
            Punct::Lt => 1,
            Punct::Gt => 1,
            Punct::Le => 2,
            Punct::Ge => 2,
            Punct::EqEq => 2,
            Punct::Ne => 2,
            Punct::Caret => 1,
            Punct::Pipe => 1,
            Punct::AmpAmp => 2,
            Punct::PipePipe => 2,
            Punct::Question => 1,
            Punct::Colon => 1,
            Punct::Semicolon => 1,
            Punct::Ellipsis => 3,
            Punct::Assign => 1,
            Punct::StarAssign => 2,
            Punct::SlashAssign => 2,
            Punct::PercentAssign => 2,
            Punct::PlusAssign => 2,
            Punct::MinusAssign => 2,
            Punct::ShlAssign => 3,
            Punct::ShrAssign => 3,
            Punct::AmpAssign => 2,
            Punct::CaretAssign => 2,
            Punct::PipeAssign => 2,
            Punct::Comma => 1,
            Punct::Hash => 1,
            Punct::HashHash => 2,
        }
    }

    /// How C spells this punctuator.
    pub fn as_str(self) -> (s: &'static str)
        ensures
            s@ == punct_spelling(self),
    {
        match self {
            Punct::LBracket => {
                proof {
                    reveal_strlit("[");
                }
                "["
            },
            Punct::RBracket => {
                proof {
                    reveal_strlit("]");
                }
                "]"
            },
            Punct::LParen => {
                proof {
                    reveal_strlit("(");
                }
                "("
            },
            Punct::RParen => {
                proof {
                    reveal_strlit(")");
                }
                ")"
            },
            Punct::LBrace => {
                proof {
                    reveal_strlit("{");
                }
                "{"
            },
            Punct::RBrace => {
                proof {
                    reveal_strlit("}");
                }
                "}"
            },
            Punct::Dot => {
                proof {
                    reveal_strlit(".");
                }
                "."
            },
            Punct::Arrow => {
                proof {
                    reveal_strlit("->");
                }
                "->"
            },
            Punct::PlusPlus => {
                proof {
                    reveal_strlit("++");
                }
                "++"
            },
            Punct::MinusMinus => {
                proof {
                    reveal_strlit("--");
                }
                "--"
            },
            Punct::Amp => {
                proof {
                    reveal_strlit("&");
                }
                "&"
            },
            Punct::Star => {
                proof {
                    reveal_strlit("*");
                }
                "*"
            },
            Punct::Plus => {
                proof {
                    reveal_strlit("+");
                }
                "+"
            },
            Punct::Minus => {
                proof {
                    reveal_strlit("-");
                }
                "-"
            },
            Punct::Tilde => {
                proof {
                    reveal_strlit("~");
                }
                "~"
            },
            Punct::Bang => {
                proof {
                    reveal_strlit("!");
                }
                "!"
            },
            Punct::Slash => {
                proof {
                    reveal_strlit("/");
                }
                "/"
            },
            Punct::Percent => {
                proof {
                    reveal_strlit("%");
                }
                "%"
            },
            Punct::Shl => {
                proof {
                    reveal_strlit("<<");
                }
                "<<"
            },
            Punct::Shr => {
                proof {
                    reveal_strlit(">>");
                }
                ">>"
            },
            Punct::Lt => {
                proof {
                    reveal_strlit("<");
                }
                "<"
            },
            Punct::Gt => {
                proof {
                    reveal_strlit(">");
                }
                ">"
            },
            Punct::Le => {
                proof {
                    reveal_strlit("<=");
                }
                "<="
            },
            Punct::Ge => {
                proof {
                    reveal_strlit(">=");
                }
                ">="
            },
            Punct::EqEq => {
                proof {
                    reveal_strlit("==");
                }
                "=="
            },
            Punct::Ne => {
                proof {
                    reveal_strlit("!=");
                }
                "!="
            },
            Punct::Caret => {
                proof {
                    reveal_strlit("^");
                }
                "^"
            },
            Punct::Pipe => {
                proof {
                    reveal_strlit("|");
                }
                "|"
            },
            Punct::AmpAmp => {
                proof {
                    reveal_strlit("&&");
                }
                "&&"
            },
            Punct::PipePipe => {
                proof {
                    reveal_strlit("||");
                }
                "||"
            },
            Punct::Question => {
                proof {
                    reveal_strlit("?");
                }
                "?"
            },
            Punct::Colon => {
                proof {
                    reveal_strlit(":");
                }
                ":"
            },
            Punct::Semicolon => {
                proof {
                    reveal_strlit(";");
                }
                ";"
            },
            Punct::Ellipsis => {
                proof {
                    reveal_strlit("...");
                }
                "..."
            },
            Punct::Assign => {
                proof {
                    reveal_strlit("=");
                }
                "="
            },
            Punct::StarAssign => {
                proof {
                    reveal_strlit("*=");
                }
                "*="
            },
            Punct::SlashAssign => {
                proof {
                    reveal_strlit("/=");
                }
                "/="
            },
            Punct::PercentAssign => {
                proof {
                    reveal_strlit("%=");
                }
                "%="
            },
            Punct::PlusAssign => {
                proof {
                    reveal_strlit("+=");
                }
                "+="
            },
            Punct::MinusAssign => {
                proof {
                    reveal_strlit("-=");
                }
                "-="
            },
            Punct::ShlAssign => {
                proof {
                    reveal_strlit("<<=");
                }
                "<<="
            },
            Punct::ShrAssign => {
                proof {
                    reveal_strlit(">>=");
                }
                ">>="
            },
            Punct::AmpAssign => {
                proof {
                    reveal_strlit("&=");
                }
                "&="
            },
            Punct::CaretAssign => {
                proof {
                    reveal_strlit("^=");
                }
                "^="
            },
            Punct::PipeAssign => {
                proof {
                    reveal_strlit("|=");
                }
                "|="
            },
            Punct::Comma => {
                proof {
                    reveal_strlit(",");
                }
                ","
            },
            Punct::Hash => {
                proof {
                    reveal_strlit("#");
                }
                "#"
            },
            Punct::HashHash => {
                proof {
                    reveal_strlit("##");
                }
                "##"
            },
        }
    }
}

/// A found punctuator is spelled the way it was found.
pub proof fn lemma_punct_at_spelled(text: Seq<char>, i: int)
    requires
        0 <= i,
        punct_at(text, i) is Some,
    ensures
        i + punct_spelling(punct_at(text, i)->0).len() <= text.len(),
        text.subrange(i, i + punct_spelling(punct_at(text, i)->0).len()) == punct_spelling(
            punct_at(text, i)->0,
        ),
{
    let p = punct_at(text, i)->0;
    if i + 3 <= text.len() && punct_3(text[i], text[i + 1], text[i + 2]) is Some {
        assert(text.subrange(i, i + 3) =~= seq![text[i], text[i + 1], text[i + 2]]);
    } else if i + 2 <= text.len() && punct_2(text[i], text[i + 1]) is Some {
        assert(text.subrange(i, i + 2) =~= seq![text[i], text[i + 1]]);
    } else {
        assert(text.subrange(i, i + 1) =~= seq![text[i]]);
    }
}

/// `text` spells punctuator `p` from position `i` on.
pub open spec fn spelled_at(text: Seq<char>, i: int, p: Punct) -> bool {
    &&& 0 <= i
    &&& i + punct_spelling(p).len() <= text.len()
    &&& text.subrange(i, i + punct_spelling(p).len()) == punct_spelling(p)
}

/// The tables of one, two and three characters find exactly the punctuators
/// spelled by those characters, and every spelling has one to three of them.
proof fn lemma_tables_match_spellings(q: Punct, a: char, b: char, c: char)
    ensures
        1 <= punct_spelling(q).len() <= 3,
        punct_1(a) == Some(q) <==> (punct_spelling(q).len() == 1 && punct_spelling(q)[0] == a),
        punct_2(a, b) == Some(q) <==> (punct_spelling(q).len() == 2 && punct_spelling(q)[0] == a
            && punct_spelling(q)[1] == b),
        punct_3(a, b, c) == Some(q) <==> (punct_spelling(q).len() == 3 && punct_spelling(q)[0] == a
            && punct_spelling(q)[1] == b && punct_spelling(q)[2] == c),
{
}

/// C's longest-match rule over every punctuator: where `text` spells `p` at
/// `i` and no longer punctuator is spelled there, `p` is the one found. So
/// `->` is an arrow, never a minus and a greater-than, and `<<=` is one
/// token.
pub proof fn law_longest_punctuator_is_taken(text: Seq<char>, i: int, p: Punct)
    requires
        spelled_at(text, i, p),
        forall|q: Punct| #[trigger] spelled_at(text, i, q) ==> punct_spelling(q).len() <= punct_spelling(p).len(),
    ensures
        punct_at(text, i) == Some(p),
{
    let w = punct_spelling(p);
    let n = w.len() as int;
    lemma_tables_match_spellings(p, text[i], text[i + 1], text[i + 2]);
    assert forall|k: int| 0 <= k < n implies text[i + k] == w[k] by {
        assert(text.subrange(i, i + n)[k] == text[i + k]);
    }
    if i + 3 <= text.len() && punct_3(text[i], text[i + 1], text[i + 2]) is Some {
        let q = punct_3(text[i], text[i + 1], text[i + 2])->0;
        lemma_tables_match_spellings(q, text[i], text[i + 1], text[i + 2]);
        assert(text.subrange(i, i + 3) =~= punct_spelling(q));
        assert(spelled_at(text, i, q));
    } else if i + 2 <= text.len() && punct_2(text[i], text[i + 1]) is Some {
        let q = punct_2(text[i], text[i + 1])->0;
        lemma_tables_match_spellings(q, text[i], text[i + 1], text[i + 2]);
        assert(text.subrange(i, i + 2) =~= punct_spelling(q));
        assert(spelled_at(text, i, q));
    } else {
    }
}

/// What kind of token.
#[derive(Clone, Copy, Debug, PartialEq, Eq, Hash, Structural)]
pub enum TokenKind {
    /// A reserved word.
    Keyword(Keyword),
    /// A name that is not a keyword.
    Identifier,
    /// A preprocessing number, which is wider than the valid constants.
    Number,
    /// A string literal, quotes included.
    String,
    /// A character constant, quotes included.
    Character,
    /// A punctuator.
    Punct(Punct),
    /// A run of characters that can begin no token.
    Unknown,
    /// The end of the file.
    Eof,
}

impl TokenKind {
    /// The word `--emit tokens` calls this kind by.
    pub fn name(self) -> (s: &'static str)
        ensures
            s@ == token_kind_name(self),
    {
        match self {
            TokenKind::Keyword(_) => {
                proof {
                    reveal_strlit("keyword");
                }
                "keyword"
            },
            TokenKind::Identifier => {
                proof {
                    reveal_strlit("identifier");
                }
                "identifier"
            },
            TokenKind::Number => {
                proof {
                    reveal_strlit("number");
                }
                "number"
            },
            TokenKind::String => {
                proof {
                    reveal_strlit("string");
                }
                "string"
            },
            TokenKind::Character => {
                proof {
                    reveal_strlit("character");
                }
                "character"
            },
            TokenKind::Punct(_) => {
                proof {
                    reveal_strlit("punct");
                }
                "punct"
            },
            TokenKind::Unknown => {
                proof {
                    reveal_strlit("unknown");
                }
                "unknown"
            },
            TokenKind::Eof => {
                proof {
                    reveal_strlit("eof");
                }
                "eof"
            },
        }
    }
}

/// The word a kind is called by.
pub open spec fn token_kind_name(k: TokenKind) -> Seq<char> {
    match k {
        TokenKind::Keyword(_) => seq!['k', 'e', 'y', 'w', 'o', 'r', 'd'],
        TokenKind::Identifier => seq!['i', 'd', 'e', 'n', 't', 'i', 'f', 'i', 'e', 'r'],
        TokenKind::Number => seq!['n', 'u', 'm', 'b', 'e', 'r'],
        TokenKind::String => seq!['s', 't', 'r', 'i', 'n', 'g'],
        TokenKind::Character => seq!['c', 'h', 'a', 'r', 'a', 'c', 't', 'e', 'r'],
        TokenKind::Punct(_) => seq!['p', 'u', 'n', 'c', 't'],
        TokenKind::Unknown => seq!['u', 'n', 'k', 'n', 'o', 'w', 'n'],
        TokenKind::Eof => seq!['e', 'o', 'f'],
    }
}

/// A kind of token, and where it is.
#[derive(Clone, Copy, Debug, PartialEq, Eq, Hash, Structural)]
pub struct Token {
    pub kind: TokenKind,
    pub span: Span,
}

impl Token {
    /// A token of `kind` at `span`.
    pub fn new(kind: TokenKind, span: Span) -> (t: Token)
        ensures
            t.kind == kind,
            t.span == span,
    {
        Token { kind, span }
    }

    /// Whether this is the end of the file.
    pub fn is_eof(&self) -> (r: bool)
        ensures
            r == (self.kind == TokenKind::Eof),
    {
        match self.kind {
            TokenKind::Eof => true,
            _ => false,
        }
    }
}

} // verus!
