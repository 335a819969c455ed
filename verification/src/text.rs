//! Facts about bytes and the text they encode, shared by the scanner and
//! the parser.

use vstd::prelude::*;
use vstd::string::StringSliceAdditionalSpecFns;
use vstd::utf8::*;

verus! {

/// Byte returned by the peek operations once the cursor has left the input.
pub const EOF_BYTE: u8 = 0;

/// Word and statement delimiters: blank, tab, newline, `;`, `&`, `|`, `(`,
/// `)`, `<`, `>` and the end-of-input sentinel.
pub open spec fn spec_is_meta(b: u8) -> bool {
    b == 0x20 || b == 0x09 || b == 0x0a || b == 0x3b || b == 0x26 || b == 0x7c || b == 0x28
        || b == 0x29 || b == 0x3c || b == 0x3e || b == 0
}

/// Shell metacharacters terminate words and act as delimiters.
#[verifier::when_used_as_spec(spec_is_meta)]
pub fn is_meta(b: u8) -> (r: bool)
    ensures
        r == spec_is_meta(b),
{
    b == 0x20 || b == 0x09 || b == 0x0a || b == 0x3b || b == 0x26 || b == 0x7c || b == 0x28
        || b == 0x29 || b == 0x3c || b == 0x3e || b == 0
}

/// The byte at index `i`, or the sentinel where `i` is outside the input.
pub open spec fn byte_at(bytes: Seq<u8>, i: int) -> u8 {
    if 0 <= i < bytes.len() {
        bytes[i]
    } else {
        EOF_BYTE
    }
}

/// The single quote.
pub const SQUOTE: u8 = 0x27;

/// The double quote.
pub const DQUOTE: u8 = 0x22;

/// The sets of bytes that the scanner reads in runs.
#[derive(Clone, Copy, Debug)]
pub enum ByteClass {
    /// Space or tab.
    Blank,
    /// An ASCII decimal digit.
    Digit,
    /// An ASCII letter or `_`.
    NameStart,
    /// An ASCII letter, digit or `_`.
    NameChar,
    /// Any byte but the newline.
    NotNewline,
    /// Any byte but the single quote.
    NotSquote,
    /// The newline.
    Newline,
    /// Any byte but NUL.
    NotNul,
    /// The tab.
    Tab,
    /// A byte that continues a character begun by an earlier byte.
    Continuation,
    /// An ASCII letter, digit, `_` or `-`.
    RangeChar,
    /// Any byte but `:` and `}`.
    OffsetChar,
    /// Any byte but `}`.
    NotRbrace,
    /// Any byte but `"`.
    NotDquote,
    /// Any byte but a metacharacter.
    NotMeta,
    /// Space, tab or newline.
    Space,
}

pub open spec fn is_name_start(b: u8) -> bool {
    (0x41 <= b <= 0x5a) || (0x61 <= b <= 0x7a) || b == 0x5f
}

pub open spec fn is_digit(b: u8) -> bool {
    0x30 <= b <= 0x39
}

pub open spec fn in_class(class: ByteClass, b: u8) -> bool {
    match class {
        ByteClass::Blank => b == 0x20 || b == 0x09,
        ByteClass::Digit => is_digit(b),
        ByteClass::NameStart => is_name_start(b),
        ByteClass::NameChar => is_name_start(b) || is_digit(b),
        ByteClass::NotNewline => b != 0x0a,
        ByteClass::NotSquote => b != SQUOTE,
        ByteClass::Newline => b == 0x0a,
        ByteClass::NotNul => b != 0,
        ByteClass::Tab => b == 0x09,
        ByteClass::Continuation => 0x80 <= b <= 0xbf,
        ByteClass::RangeChar => is_name_start(b) || is_digit(b) || b == 0x2d,
        ByteClass::OffsetChar => b != 0x3a && b != 0x7d,
        ByteClass::NotRbrace => b != 0x7d,
        ByteClass::NotDquote => b != 0x22,
        ByteClass::NotMeta => !spec_is_meta(b),
        ByteClass::Space => b == 0x20 || b == 0x09 || b == 0x0a,
    }
}

/// Executable test of membership in a byte class.
pub fn class_holds(class: ByteClass, b: u8) -> (r: bool)
    ensures
        r == in_class(class, b),
{
    match class {
        ByteClass::Blank => b == 0x20 || b == 0x09,
        ByteClass::Digit => 0x30 <= b && b <= 0x39,
        ByteClass::NameStart => (0x41 <= b && b <= 0x5a) || (0x61 <= b && b <= 0x7a) || b == 0x5f,
        ByteClass::NameChar => (0x41 <= b && b <= 0x5a) || (0x61 <= b && b <= 0x7a) || b == 0x5f
            || (0x30 <= b && b <= 0x39),
        ByteClass::NotNewline => b != 0x0a,
        ByteClass::NotSquote => b != SQUOTE,
        ByteClass::Newline => b == 0x0a,
        ByteClass::NotNul => b != 0,
        ByteClass::Tab => b == 0x09,
        ByteClass::Continuation => 0x80 <= b && b <= 0xbf,
        ByteClass::RangeChar => (0x41 <= b && b <= 0x5a) || (0x61 <= b && b <= 0x7a) || b == 0x5f
            || (0x30 <= b && b <= 0x39) || b == 0x2d,
        ByteClass::OffsetChar => b != 0x3a && b != 0x7d,
        ByteClass::NotRbrace => b != 0x7d,
        ByteClass::NotDquote => b != 0x22,
        ByteClass::NotMeta => !is_meta(b),
        ByteClass::Space => b == 0x20 || b == 0x09 || b == 0x0a,
    }
}

/// Every byte of the class is a character of its own.
pub open spec fn class_is_ascii(class: ByteClass) -> bool {
    class is Blank || class is Digit || class is NameStart || class is NameChar
        || class is Newline || class is Tab || class is RangeChar || class is Space
}

/// The first index at or after `from` that is outside the input or holds a
/// byte outside `class`.
pub open spec fn run_end(bytes: Seq<u8>, from: int, class: ByteClass) -> int
    decreases bytes.len() - from,
{
    if 0 <= from < bytes.len() && in_class(class, bytes[from]) {
        run_end(bytes, from + 1, class)
    } else {
        from
    }
}

/// Where the name that starts at `pos` ends; `pos` itself where none starts.
pub open spec fn name_end(bytes: Seq<u8>, pos: int) -> int {
    if is_name_start(byte_at(bytes, pos)) {
        run_end(bytes, pos + 1, ByteClass::NameChar)
    } else {
        pos
    }
}

/// Index of the first single quote at or after `pos`; the end of the input,
/// or `pos` itself beyond it, where there is none.
pub open spec fn squote_end(bytes: Seq<u8>, pos: int) -> int {
    run_end(bytes, pos, ByteClass::NotSquote)
}

/// The bytes `s` stand in `bytes` at index `pos`.
pub open spec fn matches_at(bytes: Seq<u8>, pos: int, s: Seq<u8>) -> bool {
    0 <= pos && pos + s.len() <= bytes.len() && bytes.subrange(pos, pos + s.len()) == s
}

/// The keyword `kw` stands at `pos`: its bytes are there, and it either is
/// one metacharacter or is followed by one or by the end of the input.
pub open spec fn keyword_at(bytes: Seq<u8>, pos: int, kw: Seq<u8>) -> bool {
    matches_at(bytes, pos, kw) && ((kw.len() == 1 && spec_is_meta(kw[0])) || pos + kw.len()
        >= bytes.len() || spec_is_meta(bytes[pos + kw.len()]))
}

/// What `run_end` is: the run holds only bytes of the class, and ends at the
/// end of the input or before a byte outside the class.
pub proof fn lemma_run_end(bytes: Seq<u8>, from: int, class: ByteClass)
    ensures
        from <= run_end(bytes, from, class),
        0 <= from <= bytes.len() ==> run_end(bytes, from, class) <= bytes.len(),
        forall|i: int|
            0 <= from <= i < run_end(bytes, from, class) ==> in_class(class, #[trigger] bytes[i]),
        0 <= run_end(bytes, from, class) < bytes.len() ==> !in_class(
            class,
            bytes[run_end(bytes, from, class)],
        ),
    decreases bytes.len() - from,
{
    if 0 <= from < bytes.len() && in_class(class, bytes[from]) {
        lemma_run_end(bytes, from + 1, class);
    }
}

/// After a one-byte character comes a character boundary.
pub proof fn lemma_boundary_step(bytes: Seq<u8>, i: int)
    requires
        valid_utf8(bytes),
        is_char_boundary(bytes, i),
        0 <= i < bytes.len(),
        bytes[i] < 0x80,
    ensures
        is_char_boundary(bytes, i + 1),
{
    valid_utf8_split(bytes, i);
    let tail = bytes.subrange(i, bytes.len() as int);
    assert(tail[0] == bytes[i]);
    assert(valid_utf8(pop_first_scalar(tail)));
    let rest = pop_first_scalar(tail);
    assert(rest =~= bytes.subrange(i + 1, bytes.len() as int));
    if i + 1 == bytes.len() {
        is_char_boundary_start_end_of_seq(bytes);
    } else {
        assert(rest[0] == bytes[i + 1]);
        assert(valid_first_scalar(rest));
        is_char_boundary_iff_not_is_continuation_byte(bytes, i + 1);
    }
}

/// A run of one-byte characters that starts on a boundary ends on one.
pub proof fn lemma_boundary_after_run(bytes: Seq<u8>, from: int, class: ByteClass)
    requires
        valid_utf8(bytes),
        is_char_boundary(bytes, from),
        class_is_ascii(class),
    ensures
        is_char_boundary(bytes, run_end(bytes, from, class)),
    decreases bytes.len() - from,
{
    if 0 <= from < bytes.len() && in_class(class, bytes[from]) {
        lemma_boundary_step(bytes, from);
        lemma_boundary_after_run(bytes, from + 1, class);
    }
}

/// A character boundary of a text stays one in every prefix that reaches it.
pub proof fn lemma_boundary_in_prefix(bytes: Seq<u8>, start: int, end: int)
    requires
        valid_utf8(bytes),
        0 <= start <= end <= bytes.len(),
        is_char_boundary(bytes, start),
        is_char_boundary(bytes, end),
    ensures
        valid_utf8(bytes.subrange(0, end)),
        is_char_boundary(bytes.subrange(0, end), start),
{
    valid_utf8_split(bytes, end);
    let head = bytes.subrange(0, end);
    if start == end {
        is_char_boundary_start_end_of_seq(head);
    } else {
        is_char_boundary_iff_not_is_continuation_byte(bytes, start);
        is_char_boundary_iff_not_is_continuation_byte(head, start);
    }
}

/// Index where the run of `class` bytes that starts at `from` ends.
pub fn scan_run(bytes: &[u8], from: usize, class: ByteClass) -> (end: usize)
    ensures
        end == run_end(bytes@, from as int, class),
        from <= end,
        from <= bytes@.len() ==> end <= bytes@.len(),
{
    let mut p = from;
    while p < bytes.len() && class_holds(class, bytes[p])
        invariant
            from <= p,
            from <= bytes@.len() ==> p <= bytes@.len(),
            run_end(bytes@, from as int, class) == run_end(bytes@, p as int, class),
        decreases bytes@.len() - p,
    {
        p += 1;
    }
    p
}

/// A byte that continues no character stands on a character boundary, and
/// so does the end of the text.
pub proof fn lemma_boundary_at(bytes: Seq<u8>, i: int)
    requires
        valid_utf8(bytes),
        0 <= i <= bytes.len(),
        i < bytes.len() ==> !is_continuation_byte(bytes[i]),
    ensures
        is_char_boundary(bytes, i),
{
    if i == bytes.len() {
        is_char_boundary_start_end_of_seq(bytes);
    } else {
        is_char_boundary_iff_not_is_continuation_byte(bytes, i);
    }
}

/// A stretch of one-byte characters that starts on a boundary ends on one.
pub proof fn lemma_boundary_after_ascii(bytes: Seq<u8>, from: int, to: int)
    requires
        valid_utf8(bytes),
        0 <= from <= to <= bytes.len(),
        is_char_boundary(bytes, from),
        forall|i: int| from <= i < to ==> #[trigger] bytes[i] < 0x80,
    ensures
        is_char_boundary(bytes, to),
    decreases to - from,
{
    if from < to {
        lemma_boundary_step(bytes, from);
        lemma_boundary_after_ascii(bytes, from + 1, to);
    }
}

/// Index of the first place at or after `from` where `needle` stands in
/// `hay`, if there is one.
pub open spec fn first_match(hay: Seq<u8>, needle: Seq<u8>, from: int) -> Option<int>
    decreases hay.len() - from,
{
    if from < 0 || from + needle.len() > hay.len() {
        None
    } else if matches_at(hay, from, needle) {
        Some(from)
    } else if from < hay.len() {
        first_match(hay, needle, from + 1)
    } else {
        None
    }
}

/// Whether the bytes of `s` stand in `bytes` at index `at`.
pub fn has_at(bytes: &[u8], at: usize, s: &[u8]) -> (r: bool)
    ensures
        r == matches_at(bytes@, at as int, s@),
{
    let n = s.len();
    let len = bytes.len();
    if at > len || n > len - at {
        return false;
    }
    let mut i: usize = 0;
    while i < n
        invariant
            i <= n,
            n == s@.len(),
            at + n <= bytes@.len() <= usize::MAX,
            forall|j: int| 0 <= j < i ==> bytes@[at + j] == s@[j],
        decreases n - i,
    {
        if bytes[at + i] != s[i] {
            assert(bytes@.subrange(at as int, at + n)[i as int] != s@[i as int]);
            return false;
        }
        i += 1;
    }
    assert(bytes@.subrange(at as int, at + n) =~= s@);
    true
}

/// Finds the first place at or after `from` where `needle` stands in `hay`.
pub fn find_from(hay: &[u8], needle: &[u8], from: usize) -> (r: Option<usize>)
    ensures
        match r {
            Some(p) => first_match(hay@, needle@, from as int) == Some(p as int),
            None => first_match(hay@, needle@, from as int) is None,
        },
{
    let mut p = from;
    while p <= hay.len() && needle.len() <= hay.len() - p
        invariant
            from <= p,
            first_match(hay@, needle@, from as int) == first_match(hay@, needle@, p as int),
        decreases hay@.len() + 1 - p,
    {
        if has_at(hay, p, needle) {
            return Some(p);
        }
        if p == hay.len() {
            return None;
        }
        p += 1;
    }
    None
}

/// Whether two texts are the same.
pub fn str_eq(a: &str, b: &str) -> (r: bool)
    ensures
        r == (a@ == b@),
{
    broadcast use encode_utf8_decode_utf8;

    let x = a.as_bytes();
    let y = b.as_bytes();
    if x.len() != y.len() {
        return false;
    }
    let mut i: usize = 0;
    while i < x.len()
        invariant
            i <= x@.len(),
            x@.len() == y@.len(),
            x@ == a.spec_bytes(),
            y@ == b.spec_bytes(),
            forall|j: int| 0 <= j < i ==> x@[j] == y@[j],
        decreases x@.len() - i,
    {
        if x[i] != y[i] {
            return false;
        }
        i += 1;
    }
    assert(x@ =~= y@);
    assert(decode_utf8(encode_utf8(a@)) == a@ && decode_utf8(encode_utf8(b@)) == b@);
    true
}

/// The part of `s` between the byte offsets `start` and `end`.
pub fn str_slice<'a>(s: &'a str, start: usize, end: usize) -> (part: &'a str)
    requires
        start <= end <= s.spec_bytes().len(),
        is_char_boundary(s.spec_bytes(), start as int),
        is_char_boundary(s.spec_bytes(), end as int),
    ensures
        part.spec_bytes() == s.spec_bytes().subrange(start as int, end as int),
        part@ == decode_utf8(s.spec_bytes().subrange(start as int, end as int)),
{
    broadcast use encode_utf8_valid_utf8, encode_utf8_decode_utf8;

    proof {
        lemma_boundary_in_prefix(s.spec_bytes(), start as int, end as int);
    }
    let (head, _) = s.split_at(end);
    let (_, part) = head.split_at(start);
    assert(part.spec_bytes() =~= s.spec_bytes().subrange(start as int, end as int));
    part
}

/// What `String::push` does: the character is appended to the text.
pub assume_specification[ String::push ](s: &mut String, ch: char)
    ensures
        final(s)@ == old(s)@.push(ch),
;

/// One character inside single quotes: a single quote closes the quotes,
/// stands escaped and opens them again; any other character stands as it
/// is.
pub open spec fn quote_char(c: char) -> Seq<char> {
    if c == '\'' {
        seq!['\'', '\\', '\'', '\'']
    } else {
        seq![c]
    }
}

/// A text as it stands between single quotes.
pub open spec fn quoted_body(text: Seq<char>) -> Seq<char>
    decreases text.len(),
{
    if text.len() == 0 {
        Seq::empty()
    } else {
        quoted_body(text.drop_last()) + quote_char(text.last())
    }
}

/// A text enclosed in single quotes, safe from any interpretation: only
/// its single quotes are written otherwise, each as `'\''`.
pub open spec fn single_quoted(text: Seq<char>) -> Seq<char> {
    seq!['\''] + quoted_body(text) + seq!['\'']
}

/// Encloses `s` in single quotes, each single quote inside written `'\''`.
pub fn single_quote(s: &str) -> (r: String)
    ensures
        r@ == single_quoted(s@),
{
    broadcast use vstd::string::group_string_axioms;

    let mut out = String::new();
    out.push('\'');
    for c in it: s.chars()
        invariant
            it.seq() == s@,
            out@ == seq!['\''] + quoted_body(s@.take(it.index() as int)),
    {
        assert(s@.take(it.index() + 1).drop_last() == s@.take(it.index() as int));
        assert(s@.take(it.index() + 1).last() == c);
        if c == '\'' {
            out.push('\'');
            out.push('\\');
            out.push('\'');
            out.push('\'');
        } else {
            out.push(c);
        }
    }
    assert(s@.take(s@.len() as int) == s@);
    out.push('\'');
    out
}

} // verus!
