//! How much room a text takes on the screen.

use crate::text::{
    body_end, chars_of, copy_range, line_body, lines_of, split_lines, string_of, views_of,
};
use vstd::prelude::*;
use vstd::string::*;
use vstd::utf8::*;

verus! {

/// The control characters: U+0000 to U+001F and U+007F to U+009F.
pub open spec fn spec_is_control(c: char) -> bool {
    let u = c as u32;
    u <= 0x1f || 0x7f <= u <= 0x9f
}

/// Whether `c` is a control character.
#[verifier::when_used_as_spec(spec_is_control)]
pub fn is_control(c: char) -> (r: bool)
    ensures
        r == spec_is_control(c),
{
    let u: u32 = c as u32;
    u <= 0x1f || (0x7f <= u && u <= 0x9f)
}

/// The columns that a character takes: a tab 4, another control character
/// none, any other character 1.
pub open spec fn char_width(c: char) -> nat {
    if c == '\t' {
        4
    } else if spec_is_control(c) {
        0
    } else {
        1
    }
}

/// The columns that a text without escape sequences takes.
pub open spec fn text_width(s: Seq<char>) -> nat
    decreases s.len(),
{
    if s.len() == 0 {
        0
    } else {
        text_width(s.drop_last()) + char_width(s.last())
    }
}

/// A number, or the greatest `usize` where it is greater.
pub open spec fn clip(n: nat) -> usize {
    if n > usize::MAX {
        usize::MAX
    } else {
        n as usize
    }
}

/// The columns that a text without escape sequences takes.
pub fn calculate_text_width(text: &[char]) -> (width: usize)
    ensures
        width == clip(text_width(text@)),
{
    let mut width: usize = 0;
    let mut i: usize = 0;
    proof {
        assert(text@.take(0) =~= Seq::<char>::empty());
    }
    while i < text.len()
        invariant
            i <= text.len(),
            width == clip(text_width(text@.take(i as int))),
        decreases text.len() - i,
    {
        proof {
            assert(text@.take(i + 1).drop_last() =~= text@.take(i as int));
            assert(text@.take(i + 1).last() == text@[i as int]);
        }
        let c = text[i];
        let w: usize = if c == '\t' {
            4
        } else if is_control(c) {
            0
        } else {
            1
        };
        width = width.saturating_add(w);
        i += 1;
    }
    proof {
        assert(text@.take(text@.len() as int) =~= text@);
    }
    width
}

/// Whether a text holds an escape character.
pub open spec fn has_escape(s: Seq<char>) -> bool {
    exists|i: int| 0 <= i < s.len() && s[i] == '\x1b'
}

/// Whether a text holds an escape character.
pub fn contains_escape(text: &[char]) -> (r: bool)
    ensures
        r == has_escape(text@),
{
    let mut i: usize = 0;
    while i < text.len()
        invariant
            i <= text.len(),
            forall|j: int| 0 <= j < i ==> text@[j] != '\x1b',
        decreases text.len() - i,
    {
        if text[i] == '\x1b' {
            return true;
        }
        i += 1;
    }
    false
}

/// The bytes that are left of a text when its ANSI escape sequences are
/// taken out, as the crate `strip-ansi-escapes` computes them.
pub uninterp spec fn ansi_stripped(text: Seq<char>) -> Seq<u8>;

/// Takes the ANSI escape sequences out of a text.
///
/// Trusted: `strip_ansi_escapes::strip` runs the bytes of the text through
/// a terminal parser and keeps what would be printed, with the line
/// feeds. Its result is a function of the text alone; `ansi_stripped`
/// names it.
#[verifier::external_body]
fn strip_escapes(line: &str) -> (out: Vec<u8>)
    ensures
        out@ == ansi_stripped(line@),
{
    strip_ansi_escapes::strip(line)
}

/// Reads bytes as UTF-8 text.
///
/// Trusted: `String::from_utf8` gives the text that the bytes encode where
/// they are valid UTF-8, and fails otherwise.
#[verifier::external_body]
fn utf8_text(bytes: Vec<u8>) -> (r: Option<String>)
    ensures
        match r {
            Some(s) => valid_utf8(bytes@) && s@ == decode_utf8(bytes@),
            None => !valid_utf8(bytes@),
        },
{
    String::from_utf8(bytes).ok()
}

/// The columns of a line with escape sequences, given what is left when
/// they are taken out: the width of that text where it is valid UTF-8,
/// else the number of bytes of the line.
pub open spec fn stripped_width(stripped: Seq<u8>, line: Seq<char>) -> usize {
    if valid_utf8(stripped) {
        clip(text_width(decode_utf8(stripped)))
    } else {
        encode_utf8(line).len() as usize
    }
}

/// The columns that a line takes on the screen, escape sequences not
/// counted.
pub open spec fn display_width(line: Seq<char>) -> usize {
    if has_escape(line) {
        stripped_width(ansi_stripped(line), line)
    } else {
        clip(text_width(line))
    }
}

/// The columns of a line with escape sequences, given what is left when
/// they are taken out.
pub fn calculate_stripped_width(stripped: Vec<u8>, line: &str) -> (width: usize)
    ensures
        width == stripped_width(stripped@, line@),
{
    match utf8_text(stripped) {
        Some(clean) => {
            let chars = chars_of(clean.as_str());
            calculate_text_width(chars.as_slice())
        },
        None => line.len(),
    }
}

/// The columns that a line takes on the screen, escape sequences not
/// counted.
pub fn calculate_display_width(line: &str) -> (width: usize)
    ensures
        width == display_width(line@),
{
    let chars = chars_of(line);
    if contains_escape(chars.as_slice()) {
        let stripped = strip_escapes(line);
        calculate_stripped_width(stripped, line)
    } else {
        calculate_text_width(chars.as_slice())
    }
}

/// The width of the widest of the first `upto` lines, 0 where there is
/// none.
pub open spec fn max_width(lines: Seq<Seq<char>>, upto: int) -> usize
    decreases upto,
{
    if upto <= 0 || upto > lines.len() {
        0
    } else {
        let before = max_width(lines, upto - 1);
        let here = display_width(line_body(lines[upto - 1]));
        if here > before {
            here
        } else {
            before
        }
    }
}

/// The number of lines of a text and the width of its widest line, each
/// cut to 16 bits as the scroll offsets are.
pub open spec fn content_size(text: Seq<char>) -> (u16, u16) {
    let lines = split_lines(text);
    ((lines.len() % 0x10000) as u16, (max_width(lines, lines.len() as int) % 0x10000) as u16)
}

/// Measures a text: the number of its lines and the width of its widest
/// line.
pub fn measure_content(text: &str) -> (size: (u16, u16))
    ensures
        size == content_size(text@),
{
    let chars = chars_of(text);
    let lines = lines_of(chars.as_slice());
    let mut widest: usize = 0;
    let mut i: usize = 0;
    while i < lines.len()
        invariant
            i <= lines.len(),
            views_of(lines@) == split_lines(text@),
            widest == max_width(views_of(lines@), i as int),
        decreases lines.len() - i,
    {
        proof {
            assert(views_of(lines@)[i as int] == lines@[i as int]@);
        }
        let end = body_end(lines[i].as_slice());
        let body = copy_range(lines[i].as_slice(), 0, end);
        proof {
            assert(lines@[i as int]@.take(end as int) =~= lines@[i as int]@.subrange(
                0,
                end as int,
            ));
        }
        let body_text = string_of(body.as_slice());
        let width = calculate_display_width(body_text.as_str());
        if width > widest {
            widest = width;
        }
        i += 1;
    }
    let height: usize = lines.len();
    ((height % 0x10000) as u16, (widest % 0x10000) as u16)
}

/// The scroll offsets that stay within a content of the given size in a
/// viewport of the given size, whose border takes two rows and two
/// columns.
pub open spec fn clamped(
    scroll: (u16, u16),
    content: (u16, u16),
    viewport_height: u16,
    viewport_width: u16,
) -> (u16, u16) {
    let max_vertical = content.0.saturating_sub(viewport_height.saturating_sub(2));
    let max_horizontal = content.1.saturating_sub(viewport_width.saturating_sub(2));
    (
        if scroll.0 < max_vertical {
            scroll.0
        } else {
            max_vertical
        },
        if scroll.1 < max_horizontal {
            scroll.1
        } else {
            max_horizontal
        },
    )
}

/// Clamps scroll offsets to a content of the given size.
pub fn clamp_offsets(
    scroll: (u16, u16),
    content: (u16, u16),
    viewport_height: u16,
    viewport_width: u16,
) -> (r: (u16, u16))
    ensures
        r == clamped(scroll, content, viewport_height, viewport_width),
{
    let max_vertical = content.0.saturating_sub(viewport_height.saturating_sub(2));
    let max_horizontal = content.1.saturating_sub(viewport_width.saturating_sub(2));
    (
        if scroll.0 < max_vertical {
            scroll.0
        } else {
            max_vertical
        },
        if scroll.1 < max_horizontal {
            scroll.1
        } else {
            max_horizontal
        },
    )
}

} // verus!
