//! Source files, the handles that name them, and byte spans into their text.
//!
//! A span is a byte range, because that is what every consumer of one slices
//! text with. The text itself is modelled as the sequence of characters `str`
//! views it as, and a byte offset is the length of the UTF-8 encoding of the
//! characters before it: [`byte_offset`] is that statement, and everything that
//! turns a character position into a span goes through it.
use vstd::prelude::*;
use vstd::string::{StrSliceExecFns, StringExecFns};
use vstd::utf8::*;

verus! {

/// Which file, within one run.
#[derive(Clone, Copy, Debug, PartialEq, Eq, Hash, Structural)]
pub struct FileId(pub u32);

impl FileId {
    /// The index this handle refers to.
    pub fn index(self) -> (r: usize)
        ensures
            r == self.0,
    {
        self.0 as usize
    }
}

/// A byte range in one file.
#[derive(Clone, Copy, Debug, PartialEq, Eq, Hash, Structural)]
pub struct Span {
    pub file: FileId,
    pub start: u32,
    pub end: u32,
}

impl Span {
    /// The bytes from `start` up to `end` in `file`.
    pub fn new(file: FileId, start: u32, end: u32) -> (s: Self)
        ensures
            s.file == file,
            s.start == start,
            s.end == end,
    {
        Span { file, start, end }
    }

    /// An empty span at `offset`, which is where the end of a file is.
    pub fn at(file: FileId, offset: u32) -> (s: Self)
        ensures
            s.file == file,
            s.start == offset,
            s.end == offset,
    {
        Span { file, start: offset, end: offset }
    }

    /// Which file this span is in.
    pub fn file(&self) -> (r: FileId)
        ensures
            r == self.file,
    {
        self.file
    }

    /// The first byte.
    pub fn start(&self) -> (r: u32)
        ensures
            r == self.start,
    {
        self.start
    }

    /// One past the last byte.
    pub fn end(&self) -> (r: u32)
        ensures
            r == self.end,
    {
        self.end
    }
}

/// How many bytes UTF-8 spends on `c`.
pub open spec fn char_width(c: char) -> nat {
    encode_scalar(c as u32).len()
}

/// The byte offset of character position `i` in `text`.
pub open spec fn byte_offset(text: Seq<char>, i: int) -> nat {
    encode_utf8(text.take(i)).len()
}

/// Encoding a concatenation is concatenating the encodings.
pub proof fn lemma_encode_concat(a: Seq<char>, b: Seq<char>)
    ensures
        encode_utf8(a + b) == encode_utf8(a) + encode_utf8(b),
    decreases a.len(),
{
    if a.len() == 0 {
        assert(a + b =~= b);
        assert(encode_utf8(a) =~= Seq::<u8>::empty());
        assert(encode_utf8(a) + encode_utf8(b) =~= encode_utf8(b));
    } else {
        assert((a + b).drop_first() =~= a.drop_first() + b);
        assert((a + b)[0] == a[0]);
        lemma_encode_concat(a.drop_first(), b);
        assert(encode_utf8(a + b) =~= encode_scalar(a[0] as u32) + encode_utf8(a.drop_first() + b));
        assert(encode_utf8(a) + encode_utf8(b) =~= encode_scalar(a[0] as u32) + (encode_utf8(
            a.drop_first(),
        ) + encode_utf8(b)));
    }
}

/// One character further along is that character's width further in bytes.
pub proof fn lemma_byte_offset_step(text: Seq<char>, i: int)
    requires
        0 <= i < text.len(),
    ensures
        byte_offset(text, i + 1) == byte_offset(text, i) + char_width(text[i]),
{
    let one = seq![text[i]];
    assert(text.take(i + 1) =~= text.take(i) + one);
    lemma_encode_concat(text.take(i), one);
    assert(one.drop_first() =~= Seq::<char>::empty());
    assert(encode_utf8(one) =~= encode_scalar(text[i] as u32) + encode_utf8(Seq::<char>::empty()));
}

/// Byte offsets only grow along the text.
pub proof fn lemma_byte_offset_mono(text: Seq<char>, i: int, j: int)
    requires
        0 <= i <= j <= text.len(),
    ensures
        byte_offset(text, i) <= byte_offset(text, j),
        i < j ==> byte_offset(text, i) < byte_offset(text, j),
    decreases j - i,
{
    if i < j {
        lemma_byte_offset_mono(text, i, j - 1);
        lemma_byte_offset_step(text, j - 1);
    }
}

/// The offset of the end of the text is the length of its encoding.
pub proof fn lemma_byte_offset_end(text: Seq<char>)
    ensures
        byte_offset(text, text.len() as int) == encode_utf8(text).len(),
{
    assert(text.take(text.len() as int) =~= text);
}

/// How many bytes `c` takes in UTF-8.
pub fn width_of(c: char) -> (w: usize)
    ensures
        w == char_width(c),
        1 <= w <= 4,
{
    proof {
        char_is_scalar(c);
    }
    let v = c as u32;
    if v < 0x80 {
        1
    } else if v < 0x800 {
        2
    } else if v < 0x10000 {
        3
    } else {
        4
    }
}

/// The characters of `s`, in order.
pub fn chars_of(s: &str) -> (r: Vec<char>)
    ensures
        r@ == s@,
{
    let mut out: Vec<char> = Vec::new();
    for c in it: s.chars()
        invariant
            out@ == it.seq().take(it.index() as int),
            it.seq() == s@,
    {
        out.push(c);
        assert(out@ =~= it.seq().take(it.index() + 1));
    }
    assert(out@ =~= s@);
    out
}

/// A line and a column, both counted from one, the column in characters.
#[derive(Clone, Copy, Debug, PartialEq, Eq, Structural)]
pub struct LineCol {
    pub line: u64,
    pub column: u64,
}

/// How many `'\n'` come before position `i`.
pub open spec fn lines_before(text: Seq<char>, i: int) -> nat
    decreases i,
{
    if i <= 0 {
        0
    } else if text[i - 1] == '\n' {
        lines_before(text, i - 1) + 1
    } else {
        lines_before(text, i - 1)
    }
}

/// How many characters stand between the last `'\n'` before `i` and `i`.
pub open spec fn column_before(text: Seq<char>, i: int) -> nat
    decreases i,
{
    if i <= 0 {
        0
    } else if text[i - 1] == '\n' {
        0
    } else {
        column_before(text, i - 1) + 1
    }
}

/// The first character position whose byte offset is at least `offset`, or
/// the end of the text.
pub open spec fn position_of(text: Seq<char>, offset: int) -> int {
    if exists|i: int| 0 <= i <= text.len() && byte_offset(text, i) >= offset {
        choose|i: int|
            0 <= i <= text.len() && byte_offset(text, i) >= offset && forall|j: int|
                0 <= j < i ==> byte_offset(text, j) < offset
    } else {
        text.len() as int
    }
}

/// One file's name and text.
pub struct SourceFile {
    name: String,
    contents: String,
    chars: Vec<char>,
}

impl SourceFile {
    #[verifier::type_invariant]
    spec fn keeps_its_characters(self) -> bool {
        self.chars@ == self.contents@
    }

    pub closed spec fn spec_name(self) -> Seq<char> {
        self.name@
    }

    pub closed spec fn text(self) -> Seq<char> {
        self.contents@
    }

    /// A file called `name` holding `contents`.
    pub fn new(name: String, contents: String) -> (f: Self)
        ensures
            f.spec_name() == name@,
            f.text() == contents@,
    {
        let chars = chars_of(contents.as_str());
        SourceFile { name, contents, chars }
    }

    /// What the file is called.
    pub fn name(&self) -> (r: &str)
        ensures
            r@ == self.spec_name(),
    {
        self.name.as_str()
    }

    /// The whole text.
    pub fn contents(&self) -> (r: &str)
        ensures
            r@ == self.text(),
    {
        self.contents.as_str()
    }

    /// How many bytes the text takes.
    pub fn len(&self) -> (n: u32)
        requires
            encode_utf8(self.text()).len() <= u32::MAX,
        ensures
            n == encode_utf8(self.text()).len(),
    {
        self.contents.as_str().len() as u32
    }

    /// Whether the text is empty.
    pub fn is_empty(&self) -> (r: bool)
        ensures
            r == (self.text().len() == 0),
    {
        self.contents.as_str().is_empty()
    }

    /// The text as characters.
    pub fn chars(&self) -> (r: &Vec<char>)
        ensures
            r@ == self.text(),
    {
        proof {
            use_type_invariant(self);
        }
        &self.chars
    }

    /// Where the byte at `offset` is, as an editor numbers it.
    ///
    /// Lines are broken on `'\n'` alone, and a column counts characters, so a
    /// tab is one and a character of several bytes is one.
    pub fn line_col(&self, offset: u32) -> (r: LineCol)
        ensures
            r.line == lines_before(self.text(), position_of(self.text(), offset as int)) + 1,
            r.column == column_before(self.text(), position_of(self.text(), offset as int)) + 1,
    {
        proof {
            use_type_invariant(self);
        }
        let text = &self.chars;
        let ghost t = text@;
        let mut i: usize = 0;
        let mut at: u64 = 0;
        let mut line: u64 = 1;
        let mut column: u64 = 1;
        proof {
            assert(t.take(0) =~= Seq::<char>::empty());
        }
        while i < text.len() && at < offset as u64
            invariant
                t == text@,
                0 <= i <= t.len(),
                at == byte_offset(t, i as int),
                forall|j: int| 0 <= j < i ==> byte_offset(t, j) < offset,
                line == lines_before(t, i as int) + 1,
                column == column_before(t, i as int) + 1,
                line <= i + 1,
                column <= i + 1,
                i <= at,
            decreases t.len() - i,
        {
            proof {
                lemma_byte_offset_step(t, i as int);
            }
            let c = text[i];
            let w = width_of(c);
            at = at + w as u64;
            if c == '\n' {
                line = line + 1;
                column = 1;
            } else {
                column = column + 1;
            }
            i = i + 1;
        }
        proof {
            let p = i as int;
            if byte_offset(t, p) >= offset {
                assert(0 <= p <= t.len() && byte_offset(t, p) >= offset && forall|j: int|
                    0 <= j < p ==> byte_offset(t, j) < offset);
                let q = position_of(t, offset as int);
                assert(0 <= q <= t.len() && byte_offset(t, q) >= offset);
                if q < p {
                    assert(byte_offset(t, q) < offset);
                } else if q > p {
                    assert(byte_offset(t, p) < offset);
                }
            } else {
                assert(p == t.len());
                assert(!exists|k: int| 0 <= k <= t.len() && byte_offset(t, k) >= offset) by {
                    if exists|k: int| 0 <= k <= t.len() && byte_offset(t, k) >= offset {
                        let k = choose|k: int| 0 <= k <= t.len() && byte_offset(t, k) >= offset;
                        if k < p {
                            assert(byte_offset(t, k) < offset);
                        }
                    }
                }
            }
        }
        LineCol { line, column }
    }
}


/// Byte `offset` is where a character of `text` begins, or the end of it.
pub open spec fn on_boundary(text: Seq<char>, offset: int) -> bool {
    exists|i: int| 0 <= i <= text.len() && byte_offset(text, i) == offset
}

/// The characters of `text` from the one that begins at byte `start` to the
/// one that begins at byte `end`.
pub open spec fn snippet_text(text: Seq<char>, start: int, end: int) -> Seq<char> {
    text.subrange(position_of(text, start), position_of(text, end))
}

/// Where a character begins is the position [`position_of`] finds for it.
pub proof fn lemma_position_on_boundary(text: Seq<char>, i: int)
    requires
        0 <= i <= text.len(),
    ensures
        position_of(text, byte_offset(text, i) as int) == i,
{
    let offset = byte_offset(text, i) as int;
    assert forall|j: int| 0 <= j < i implies byte_offset(text, j) < offset by {
        lemma_byte_offset_mono(text, j, i);
    }
    let q = position_of(text, offset);
    assert(0 <= q <= text.len() && byte_offset(text, q) >= offset);
    if q > i {
        assert(byte_offset(text, i) < offset);
    } else if q < i {
        assert(byte_offset(text, q) < offset);
    }
}

impl SourceFile {
    /// The character position at which byte `offset` falls, as
    /// [`position_of`] says.
    pub fn position(&self, offset: u32) -> (p: usize)
        ensures
            p == position_of(self.text(), offset as int),
            p <= self.text().len(),
    {
        self.boundary(offset).0
    }

    /// The first character position whose byte offset is at least `offset`,
    /// as [`position_of`] says, and that byte offset.
    pub fn boundary(&self, offset: u32) -> (r: (usize, u64))
        ensures
            r.0 == position_of(self.text(), offset as int),
            r.0 <= self.text().len(),
            r.1 == byte_offset(self.text(), r.0 as int),
    {
        proof {
            use_type_invariant(self);
        }
        let text = &self.chars;
        let ghost t = text@;
        let mut i: usize = 0;
        let mut at: u64 = 0;
        proof {
            assert(t.take(0) =~= Seq::<char>::empty());
        }
        while i < text.len() && at < offset as u64
            invariant
                t == text@,
                0 <= i <= t.len(),
                at == byte_offset(t, i as int),
                forall|j: int| 0 <= j < i ==> byte_offset(t, j) < offset,
                i <= at,
            decreases t.len() - i,
        {
            proof {
                lemma_byte_offset_step(t, i as int);
            }
            let w = width_of(text[i]);
            at = at + w as u64;
            i = i + 1;
        }
        proof {
            let p = i as int;
            if byte_offset(t, p) >= offset {
                let q = position_of(t, offset as int);
                assert(0 <= p <= t.len() && byte_offset(t, p) >= offset && forall|j: int|
                    0 <= j < p ==> byte_offset(t, j) < offset);
                assert(0 <= q <= t.len() && byte_offset(t, q) >= offset);
                if q < p {
                    assert(byte_offset(t, q) < offset);
                } else if q > p {
                    assert(byte_offset(t, p) < offset);
                }
            } else {
                assert(!exists|k: int| 0 <= k <= t.len() && byte_offset(t, k) >= offset) by {
                    if exists|k: int| 0 <= k <= t.len() && byte_offset(t, k) >= offset {
                        let k = choose|k: int| 0 <= k <= t.len() && byte_offset(t, k) >= offset;
                        if k < p {
                            assert(byte_offset(t, k) < offset);
                        }
                    }
                }
            }
        }
        (i, at)
    }

    /// The text between byte offsets `start` and `end`, both of which begin a
    /// character or end the text.
    pub fn slice(&self, start: u32, end: u32) -> (s: String)
        requires
            on_boundary(self.text(), start as int),
            on_boundary(self.text(), end as int),
            start <= end,
        ensures
            s@ == snippet_text(self.text(), start as int, end as int),
    {
        let from = self.position(start);
        let to = self.position(end);
        proof {
            let t = self.text();
            let i = choose|i: int| 0 <= i <= t.len() && byte_offset(t, i) == start;
            let j = choose|j: int| 0 <= j <= t.len() && byte_offset(t, j) == end;
            lemma_position_on_boundary(t, i);
            lemma_position_on_boundary(t, j);
            if j < i {
                lemma_byte_offset_mono(t, j, i);
            }
        }
        self.contents.as_str().substring_char(from, to).to_owned()
    }
}

/// Every file of one compilation, by id.
pub struct SourceMap {
    files: Vec<SourceFile>,
}

/// A span names a stretch of text in `sources`: its file is there, and its
/// offsets are in order and begin characters of that file, or end it.
pub open spec fn readable(sources: SourceMap, span: Span) -> bool {
    &&& span.file.0 < sources.spec_files().len()
    &&& span.start <= span.end
    &&& on_boundary(sources.spec_files()[span.file.0 as int].text(), span.start as int)
    &&& on_boundary(sources.spec_files()[span.file.0 as int].text(), span.end as int)
}

/// The text a readable span names.
pub open spec fn snippet_of(sources: SourceMap, span: Span) -> Seq<char> {
    snippet_text(sources.spec_files()[span.file.0 as int].text(), span.start as int, span.end as int)
}

impl SourceMap {
    /// Every file, in the order they were added.
    pub closed spec fn spec_files(self) -> Seq<SourceFile> {
        self.files@
    }

    /// No files yet.
    pub fn new() -> (m: SourceMap)
        ensures
            m.spec_files() == Seq::<SourceFile>::empty(),
    {
        SourceMap { files: Vec::new() }
    }

    /// Add a file under the name it is shown by, and hand back its id.
    fn push_file(&mut self, name: String, text: String) -> (id: FileId)
        requires
            old(self).spec_files().len() < u32::MAX,
        ensures
            id == FileId(old(self).spec_files().len() as u32),
            final(self).spec_files().len() == old(self).spec_files().len() + 1,
            final(self).spec_files().take(old(self).spec_files().len() as int) == old(self).spec_files(),
            final(self).spec_files()[id.0 as int].spec_name() == name@,
            final(self).spec_files()[id.0 as int].text() == text@,
    {
        let id = FileId(self.files.len() as u32);
        let file = SourceFile::new(name, text);
        self.files.push(file);
        proof {
            assert(self.files@.take(old(self).files@.len() as int) =~= old(self).files@);
        }
        id
    }

    /// Add the text read from the file at `path`, shown by its path, and hand
    /// back its id.
    pub fn add_file(&mut self, path: String, text: String) -> (id: FileId)
        requires
            old(self).spec_files().len() < u32::MAX,
        ensures
            id == FileId(old(self).spec_files().len() as u32),
            final(self).spec_files().len() == old(self).spec_files().len() + 1,
            final(self).spec_files().take(old(self).spec_files().len() as int) == old(self).spec_files(),
            final(self).spec_files()[id.0 as int].spec_name() == path@,
            final(self).spec_files()[id.0 as int].text() == text@,
    {
        self.push_file(path, text)
    }

    /// Add a file that is held here rather than read from disk, and hand back
    /// its id. Having no path, it is shown by its name in angle brackets.
    pub fn add_virtual(&mut self, name: String, text: String) -> (id: FileId)
        requires
            old(self).spec_files().len() < u32::MAX,
        ensures
            id == FileId(old(self).spec_files().len() as u32),
            final(self).spec_files().len() == old(self).spec_files().len() + 1,
            final(self).spec_files().take(old(self).spec_files().len() as int) == old(self).spec_files(),
            final(self).spec_files()[id.0 as int].spec_name() == seq!['<'] + name@ + seq!['>'],
            final(self).spec_files()[id.0 as int].text() == text@,
    {
        let mut shown_as = String::new();
        crate::print::push_char(&mut shown_as, '<');
        shown_as.append(name.as_str());
        crate::print::push_char(&mut shown_as, '>');
        assert(shown_as@ =~= seq!['<'] + name@ + seq!['>']);
        self.push_file(shown_as, text)
    }

    /// The file `id` names.
    pub fn file(&self, id: FileId) -> (f: &SourceFile)
        requires
            id.0 < self.spec_files().len(),
        ensures
            *f == self.spec_files()[id.0 as int],
    {
        &self.files[id.0 as usize]
    }

    /// How many files there are.
    pub fn len(&self) -> (n: usize)
        ensures
            n == self.spec_files().len(),
    {
        self.files.len()
    }

    /// Whether there are none.
    pub fn is_empty(&self) -> (r: bool)
        ensures
            r == (self.spec_files().len() == 0),
    {
        self.files.len() == 0
    }

    /// The text a span covers.
    pub fn snippet(&self, span: Span) -> (s: String)
        requires
            readable(*self, span),
        ensures
            s@ == snippet_of(*self, span),
    {
        self.files[span.file.0 as usize].slice(span.start, span.end)
    }
}

} // verus!
