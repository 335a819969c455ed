//! Backtrackable cursor over the raw bytes of a command line or script.

use vstd::prelude::*;
use vstd::utf8::*;
use vstd::string::{StringExecFns, StringSliceAdditionalSpecFns};
use crate::text::{
    byte_at, ByteClass, class_holds, has_at, is_meta, keyword_at, lemma_boundary_after_run,
    lemma_boundary_step, lemma_run_end, matches_at, name_end, run_end, scan_run, squote_end,
    str_slice,
};

verus! {

/// Error produced when the input is not valid shell syntax: where, and why.
#[derive(Debug)]
pub struct ParseError {
    /// Byte offset in the input where the error occurred.
    pub pos: usize,
    /// Description of the error.
    pub msg: &'static str,
}

/// The decimal digits of `n`, the most significant first.
pub open spec fn decimal_digits(n: nat) -> Seq<char>
    decreases n,
{
    if n < 10 {
        seq![digit_char(n)]
    } else {
        decimal_digits(n / 10).push(digit_char(n % 10))
    }
}

/// The character of the digit `d`.
pub open spec fn digit_char(d: nat) -> char {
    if d == 0 {
        '0'
    } else if d == 1 {
        '1'
    } else if d == 2 {
        '2'
    } else if d == 3 {
        '3'
    } else if d == 4 {
        '4'
    } else if d == 5 {
        '5'
    } else if d == 6 {
        '6'
    } else if d == 7 {
        '7'
    } else if d == 8 {
        '8'
    } else {
        '9'
    }
}

/// The character of the digit `d`.
fn digit(d: usize) -> (c: char)
    requires
        d < 10,
    ensures
        c == digit_char(d as nat),
{
    if d == 0 {
        '0'
    } else if d == 1 {
        '1'
    } else if d == 2 {
        '2'
    } else if d == 3 {
        '3'
    } else if d == 4 {
        '4'
    } else if d == 5 {
        '5'
    } else if d == 6 {
        '6'
    } else if d == 7 {
        '7'
    } else if d == 8 {
        '8'
    } else {
        '9'
    }
}

/// Appends the decimal digits of `n`.
fn push_decimal(out: &mut String, n: usize)
    ensures
        final(out)@ == old(out)@ + decimal_digits(n as nat),
    decreases n,
{
    if n >= 10 {
        push_decimal(out, n / 10);
    }
    out.push(digit(n % 10));
}

impl ParseError {
    /// The text of the error: where it is and what it says.
    pub open spec fn description(&self) -> Seq<char> {
        "parse error at byte "@ + decimal_digits(self.pos as nat) + ": "@ + self.msg@
    }

    /// Writes the error as a line for a reader.
    pub fn describe(&self) -> (s: String)
        ensures
            s@ == self.description(),
    {
        let mut s = String::new();
        s.append("parse error at byte ");
        push_decimal(&mut s, self.pos);
        s.append(": ");
        s.append(self.msg);
        s
    }
}

/// What a scanner is, mathematically: the bytes it reads and how far it got.
pub struct LexerView {
    pub bytes: Seq<u8>,
    pub pos: nat,
}

/// Byte-oriented scanner. It owns no grammar knowledge: the parser drives it
/// through peek, eat and read operations, and every read hands back a slice of
/// the input.
pub struct Lexer<'a> {
    src: &'a [u8],
    input: &'a str,
    pos: usize,
}

impl<'a> View for Lexer<'a> {
    type V = LexerView;

    closed spec fn view(&self) -> LexerView {
        LexerView { bytes: self.src@, pos: self.pos as nat }
    }
}

impl<'a> Lexer<'a> {
    #[verifier::type_invariant]
    spec fn inv(self) -> bool {
        self.src@ == self.input.spec_bytes()
    }

    /// The cursor stands on the first byte of a character, or at the end.
    pub open spec fn on_boundary(&self) -> bool {
        is_char_boundary(self@.bytes, self@.pos as int)
    }

    pub fn new(input: &'a str) -> (lex: Self)
        ensures
            lex@.bytes == input.spec_bytes(),
            lex@.pos == 0,
            lex.on_boundary(),
    {
        broadcast use encode_utf8_valid_utf8;

        Lexer { src: input.as_bytes(), input, pos: 0 }
    }

    /// The scanned bytes are the encoding of a text whose length the
    /// machine can count, whatever the cursor.
    pub fn input_is_text(&self)
        ensures
            valid_utf8(self@.bytes),
            self@.bytes.len() <= usize::MAX,
    {
        broadcast use encode_utf8_valid_utf8;

        proof {
            use_type_invariant(self);
        }
        let _len = self.src.len();
    }

    /// The bytes of the whole input.
    pub fn source(&self) -> (bytes: &'a [u8])
        ensures
            bytes@ == self@.bytes,
    {
        self.src
    }

    // ----- position and lookahead -----

    pub fn pos(&self) -> (p: usize)
        ensures
            p == self@.pos,
    {
        self.pos
    }

    pub fn is_eof(&self) -> (r: bool)
        ensures
            r == (self@.pos >= self@.bytes.len()),
    {
        self.pos >= self.src.len()
    }

    /// Byte under the cursor, or the sentinel at end of input.
    pub fn peek(&self) -> (b: u8)
        ensures
            b == byte_at(self@.bytes, self@.pos as int),
    {
        if self.pos < self.src.len() {
            self.src[self.pos]
        } else {
            0
        }
    }

    /// Byte `offset` places after the cursor, or the sentinel past the end.
    pub fn peek_at(&self, offset: usize) -> (b: u8)
        ensures
            b == byte_at(self@.bytes, self@.pos + offset),
    {
        if self.pos < self.src.len() && offset < self.src.len() - self.pos {
            self.src[self.pos + offset]
        } else {
            0
        }
    }

    /// The text from `start` up to the cursor.
    pub fn slice(&self, start: usize) -> (s: &'a str)
        requires
            start <= self@.pos <= self@.bytes.len(),
            is_char_boundary(self@.bytes, start as int),
            self.on_boundary(),
        ensures
            s.spec_bytes() == self@.bytes.subrange(start as int, self@.pos as int),
            s@ == decode_utf8(self@.bytes.subrange(start as int, self@.pos as int)),
    {
        self.slice_range(start, self.pos)
    }

    /// The text from `start` up to `end`.
    pub fn slice_range(&self, start: usize, end: usize) -> (s: &'a str)
        requires
            start <= end <= self@.bytes.len(),
            is_char_boundary(self@.bytes, start as int),
            is_char_boundary(self@.bytes, end as int),
        ensures
            s.spec_bytes() == self@.bytes.subrange(start as int, end as int),
            s@ == decode_utf8(self@.bytes.subrange(start as int, end as int)),
    {
        proof {
            use_type_invariant(self);
        }
        str_slice(self.input, start, end)
    }

    /// The text from the cursor to the end.
    pub fn remaining(&self) -> (s: &'a str)
        requires
            self.on_boundary(),
        ensures
            s.spec_bytes() == self@.bytes.subrange(self@.pos as int, self@.bytes.len() as int),
            s@ == decode_utf8(self@.bytes.subrange(self@.pos as int, self@.bytes.len() as int)),
    {
        broadcast use encode_utf8_valid_utf8, encode_utf8_decode_utf8;

        proof {
            use_type_invariant(self);
        }
        let (_, s) = self.input.split_at(self.pos);
        s
    }

    // ----- advance -----

    /// Moves the cursor to `pos`: how the parser backtracks.
    pub fn set_pos(&mut self, pos: usize)
        ensures
            final(self)@.pos == pos,
            final(self)@.bytes == old(self)@.bytes,
    {
        proof {
            use_type_invariant(&*self);
        }
        self.pos = pos;
    }

    pub fn bump(&mut self)
        requires
            old(self)@.pos < usize::MAX,
        ensures
            final(self)@.pos == old(self)@.pos + 1,
            final(self)@.bytes == old(self)@.bytes,
    {
        proof {
            use_type_invariant(&*self);
        }
        self.pos += 1;
    }

    pub fn bump_n(&mut self, n: usize)
        requires
            old(self)@.pos + n <= usize::MAX,
        ensures
            final(self)@.pos == old(self)@.pos + n,
            final(self)@.bytes == old(self)@.bytes,
    {
        proof {
            use_type_invariant(&*self);
        }
        self.pos += n;
    }

    /// Advances over `b` if it is the byte under the cursor, and says
    /// whether. At the end of the input no byte is there to match, not even
    /// the sentinel.
    pub fn eat(&mut self, b: u8) -> (eaten: bool)
        ensures
            eaten == (old(self)@.pos < old(self)@.bytes.len() && old(self)@.bytes[old(
                self,
            )@.pos as int] == b),
            final(self)@.pos == old(self)@.pos + if eaten { 1nat } else { 0nat },
            final(self)@.bytes == old(self)@.bytes,
    {
        proof {
            use_type_invariant(&*self);
        }
        if self.pos < self.src.len() && self.src[self.pos] == b {
            self.pos += 1;
            true
        } else {
            false
        }
    }

    /// Advances over `s` if those bytes come next, and says whether.
    pub fn eat_str(&mut self, s: &[u8]) -> (eaten: bool)
        ensures
            eaten == matches_at(old(self)@.bytes, old(self)@.pos as int, s@),
            final(self)@.pos == old(self)@.pos + if eaten { s@.len() } else { 0nat },
            final(self)@.bytes == old(self)@.bytes,
    {
        proof {
            use_type_invariant(&*self);
        }
        let _len = self.src.len();
        if has_at(self.src, self.pos, s) {
            self.pos += s.len();
            true
        } else {
            false
        }
    }

    // ----- skip -----

    /// Skips spaces and tabs, never a newline.
    pub fn skip_blanks(&mut self)
        ensures
            final(self)@.pos == run_end(old(self)@.bytes, old(self)@.pos as int, ByteClass::Blank),
            final(self)@.bytes == old(self)@.bytes,
            old(self).on_boundary() ==> final(self).on_boundary(),
    {
        broadcast use encode_utf8_valid_utf8;

        proof {
            use_type_invariant(&*self);
        }
        let end = scan_run(self.src, self.pos, ByteClass::Blank);
        proof {
            if is_char_boundary(self.src@, self.pos as int) {
                lemma_boundary_after_run(self.src@, self.pos as int, ByteClass::Blank);
            }
        }
        self.pos = end;
    }

    /// Skips a `#` comment up to, not including, the end of its line.
    pub fn skip_comment(&mut self)
        ensures
            final(self)@.pos == if byte_at(old(self)@.bytes, old(self)@.pos as int) == 0x23 {
                run_end(old(self)@.bytes, old(self)@.pos as int, ByteClass::NotNewline)
            } else {
                old(self)@.pos as int
            },
            final(self)@.bytes == old(self)@.bytes,
    {
        proof {
            use_type_invariant(&*self);
        }
        if self.peek() == 0x23 {
            let end = scan_run(self.src, self.pos, ByteClass::NotNewline);
            self.pos = end;
        }
    }

    // ----- read -----

    /// Reads a variable name, a letter or `_` and then letters, digits and
    /// `_`. Where none starts at the cursor, the result is empty and the
    /// cursor stays.
    pub fn read_name(&mut self) -> (name: &'a str)
        requires
            old(self).on_boundary(),
        ensures
            final(self)@.pos == name_end(old(self)@.bytes, old(self)@.pos as int),
            final(self)@.bytes == old(self)@.bytes,
            final(self).on_boundary(),
            name.spec_bytes() == old(self)@.bytes.subrange(
                old(self)@.pos as int,
                final(self)@.pos as int,
            ),
            name@ == decode_utf8(name.spec_bytes()),
    {
        broadcast use encode_utf8_valid_utf8;

        proof {
            use_type_invariant(&*self);
        }
        let start = self.pos;
        if self.pos < self.src.len() && class_holds(ByteClass::NameStart, self.src[self.pos]) {
            let end = scan_run(self.src, self.pos + 1, ByteClass::NameChar);
            proof {
                lemma_boundary_step(self.src@, start as int);
                lemma_boundary_after_run(self.src@, start + 1, ByteClass::NameChar);
            }
            self.pos = end;
        }
        self.slice(start)
    }

    /// Reads a run of decimal digits; empty where none stands at the cursor.
    pub fn read_number(&mut self) -> (digits: &'a str)
        requires
            old(self).on_boundary(),
        ensures
            final(self)@.pos == run_end(old(self)@.bytes, old(self)@.pos as int, ByteClass::Digit),
            final(self)@.bytes == old(self)@.bytes,
            final(self).on_boundary(),
            digits.spec_bytes() == old(self)@.bytes.subrange(
                old(self)@.pos as int,
                final(self)@.pos as int,
            ),
            digits@ == decode_utf8(digits.spec_bytes()),
    {
        broadcast use encode_utf8_valid_utf8;

        proof {
            use_type_invariant(&*self);
        }
        let start = self.pos;
        let end = scan_run(self.src, self.pos, ByteClass::Digit);
        proof {
            lemma_boundary_after_run(self.src@, start as int, ByteClass::Digit);
        }
        self.pos = end;
        self.slice(start)
    }

    // ----- quoted text -----

    /// Reads the content of a single-quoted string whose opening quote has
    /// been consumed: every byte up to the next `'`, none of them escaped.
    /// The cursor ends just past the closing quote. Where the input ends
    /// first, the cursor ends there and the error reports that place.
    pub fn scan_squote(&mut self) -> (r: Result<&'a str, ParseError>)
        requires
            old(self)@.pos <= old(self)@.bytes.len() ==> old(self).on_boundary(),
        ensures
            final(self)@.bytes == old(self)@.bytes,
            r is Ok <==> squote_end(old(self)@.bytes, old(self)@.pos as int) < old(
                self,
            )@.bytes.len(),
            r matches Ok(content) ==> {
                &&& final(self)@.pos == squote_end(old(self)@.bytes, old(self)@.pos as int) + 1
                &&& final(self).on_boundary()
                &&& content.spec_bytes() == old(self)@.bytes.subrange(
                    old(self)@.pos as int,
                    squote_end(old(self)@.bytes, old(self)@.pos as int),
                )
                &&& content@ == decode_utf8(content.spec_bytes())
            },
            r matches Err(e) ==> {
                &&& final(self)@.pos == squote_end(old(self)@.bytes, old(self)@.pos as int)
                &&& e.pos == final(self)@.pos
                &&& e.msg@ == "unterminated single quote"@
            },
    {
        broadcast use encode_utf8_valid_utf8;

        proof {
            use_type_invariant(&*self);
        }
        let start = self.pos;
        let end = scan_run(self.src, self.pos, ByteClass::NotSquote);
        proof {
            lemma_run_end(self.src@, start as int, ByteClass::NotSquote);
        }
        self.pos = end;
        if end < self.src.len() {
            proof {
                is_char_boundary_iff_not_is_continuation_byte(self.src@, end as int);
                lemma_boundary_step(self.src@, end as int);
            }
            let content = self.slice(start);
            self.pos = end + 1;
            Ok(content)
        } else {
            Err(self.err("unterminated single quote"))
        }
    }

    // ----- keywords -----

    /// Tests, without consuming, whether the keyword `kw` stands at the
    /// cursor and ends at a word boundary.
    pub fn at_keyword(&self, kw: &[u8]) -> (r: bool)
        ensures
            r == keyword_at(self@.bytes, self@.pos as int, kw@),
    {
        let len = self.src.len();
        if !has_at(self.src, self.pos, kw) {
            return false;
        }
        if kw.len() == 1 && is_meta(kw[0]) {
            return true;
        }
        let end = self.pos + kw.len();
        end >= len || is_meta(self.src[end])
    }

    /// Tests whether any of `keywords` stands at the cursor.
    pub fn at_any_keyword(&self, keywords: &[&[u8]]) -> (r: bool)
        ensures
            r == exists|i: int|
                0 <= i < keywords@.len() && keyword_at(
                    self@.bytes,
                    self@.pos as int,
                    #[trigger] keywords@[i]@,
                ),
    {
        let mut k: usize = 0;
        while k < keywords.len()
            invariant
                k <= keywords@.len(),
                forall|i: int|
                    0 <= i < k ==> !keyword_at(
                        self@.bytes,
                        self@.pos as int,
                        #[trigger] keywords@[i]@,
                    ),
            decreases keywords@.len() - k,
        {
            if self.at_keyword(keywords[k]) {
                return true;
            }
            k += 1;
        }
        false
    }

    // ----- errors -----

    /// An error with message `msg` at the cursor.
    pub fn err(&self, msg: &'static str) -> (e: ParseError)
        ensures
            e.pos == self@.pos,
            e.msg == msg,
    {
        ParseError { pos: self.pos, msg }
    }
}

} // verus!
