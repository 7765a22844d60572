//! The document writer's schema: a directory's document is persisted as the
//! JSON object `{"pages":[{"index":N,"text":"..."},...]}` at a path derived
//! from the directory name by appending `-ocr.json`.  The serialisation is
//! built here, fully verified against a character-level specification; the
//! surrounding program only writes the finished string to disk.

use vstd::prelude::*;
use vstd::string::{StrSliceExecFns, StringExecFns};

use crate::page::{Page, PageView, Project};

verus! {

/// The decimal digit `d`, for `0 <= d <= 9`.
pub open spec fn dec_digit(d: int) -> char {
    if d == 0 {
        '0'
    } else if d == 1 {
        '1'
    } else if d == 2 {
        '2'
    } else if d == 3 {
        '3'
    } else if d == 4 {
        '4'
    } else if d == 5 {
        '5'
    } else if d == 6 {
        '6'
    } else if d == 7 {
        '7'
    } else if d == 8 {
        '8'
    } else {
        '9'
    }
}

/// The lower-case hexadecimal digit `d`, for `0 <= d <= 15`.
pub open spec fn hex_digit(d: int) -> char {
    if d < 10 {
        dec_digit(d)
    } else if d == 10 {
        'a'
    } else if d == 11 {
        'b'
    } else if d == 12 {
        'c'
    } else if d == 13 {
        'd'
    } else if d == 14 {
        'e'
    } else {
        'f'
    }
}

/// The decimal representation of `n`, most significant digit first, without
/// leading zeroes (`0` is written as one digit).
pub open spec fn dec_rep(n: nat) -> Seq<char>
    decreases n,
{
    if n < 10 {
        seq![dec_digit(n as int)]
    } else {
        dec_rep(n / 10).push(dec_digit((n % 10) as int))
    }
}

/// How one character of a page's text is written inside a JSON string: the
/// quote and the backslash are escaped, the common control characters get
/// their short escapes, the remaining control characters a `\u00..` escape,
/// and every other character stands as itself.
pub open spec fn escape_char(c: char) -> Seq<char> {
    if c == '"' {
        seq!['\\', '"']
    } else if c == '\\' {
        seq!['\\', '\\']
    } else if c == '\n' {
        seq!['\\', 'n']
    } else if c == '\r' {
        seq!['\\', 'r']
    } else if c == '\t' {
        seq!['\\', 't']
    } else if c == '\u{0008}' {
        seq!['\\', 'b']
    } else if c == '\u{000C}' {
        seq!['\\', 'f']
    } else if (c as u32) < 0x20 {
        seq!['\\', 'u', '0', '0', hex_digit((c as u32 / 16) as int), hex_digit(
            (c as u32 % 16) as int,
        )]
    } else {
        seq![c]
    }
}

/// A whole text, escaped character by character.
pub open spec fn json_escape(s: Seq<char>) -> Seq<char>
    decreases s.len(),
{
    if s.len() == 0 {
        Seq::empty()
    } else {
        json_escape(s.drop_last()) + escape_char(s.last())
    }
}

/// One page as a JSON object with its two fields.
pub open spec fn json_of_page(p: PageView) -> Seq<char> {
    seq!['{', '"', 'i', 'n', 'd', 'e', 'x', '"', ':'] + dec_rep(p.index as nat) + seq![
        ',',
        '"',
        't',
        'e',
        'x',
        't',
        '"',
        ':',
        '"',
    ] + json_escape(p.text) + seq!['"', '}']
}

/// A sequence of pages as a comma-separated JSON list body.
pub open spec fn json_of_pages(s: Seq<PageView>) -> Seq<char>
    decreases s.len(),
{
    if s.len() == 0 {
        Seq::empty()
    } else if s.len() == 1 {
        json_of_page(s[0])
    } else {
        json_of_pages(s.drop_last()) + seq![','] + json_of_page(s.last())
    }
}

/// The persisted document: the page list under the single key `pages`.
pub open spec fn json_of_project(pages: Seq<PageView>) -> Seq<char> {
    seq!['{', '"', 'p', 'a', 'g', 'e', 's', '"', ':', '['] + json_of_pages(pages) + seq![']', '}']
}

/// The decimal digit `d` as a character.
fn dec_digit_char(d: usize) -> (c: char)
    requires
        d < 10,
    ensures
        c == dec_digit(d as int),
{
    match d {
        0 => '0',
        1 => '1',
        2 => '2',
        3 => '3',
        4 => '4',
        5 => '5',
        6 => '6',
        7 => '7',
        8 => '8',
        _ => '9',
    }
}

/// The lower-case hexadecimal digit `d` as a character.
fn hex_digit_char(d: u32) -> (c: char)
    requires
        d < 16,
    ensures
        c == hex_digit(d as int),
{
    match d {
        0 => '0',
        1 => '1',
        2 => '2',
        3 => '3',
        4 => '4',
        5 => '5',
        6 => '6',
        7 => '7',
        8 => '8',
        9 => '9',
        10 => 'a',
        11 => 'b',
        12 => 'c',
        13 => 'd',
        14 => 'e',
        _ => 'f',
    }
}

/// Appends the decimal representation of `n`.
pub(crate) fn push_dec(n: usize, out: &mut Vec<char>)
    ensures
        final(out)@ == old(out)@ + dec_rep(n as nat),
    decreases n,
{
    if n >= 10 {
        push_dec(n / 10, out);
    }
    out.push(dec_digit_char(n % 10));
    proof {
        assert(out@ =~= old(out)@ + dec_rep(n as nat));
    }
}

/// Appends one character of text in its escaped form.
fn push_escaped_char(c: char, out: &mut Vec<char>)
    ensures
        final(out)@ == old(out)@ + escape_char(c),
{
    if c == '"' {
        out.push('\\');
        out.push('"');
    } else if c == '\\' {
        out.push('\\');
        out.push('\\');
    } else if c == '\n' {
        out.push('\\');
        out.push('n');
    } else if c == '\r' {
        out.push('\\');
        out.push('r');
    } else if c == '\t' {
        out.push('\\');
        out.push('t');
    } else if c == '\u{0008}' {
        out.push('\\');
        out.push('b');
    } else if c == '\u{000C}' {
        out.push('\\');
        out.push('f');
    } else {
        let code = c as u32;
        if code < 0x20 {
            out.push('\\');
            out.push('u');
            out.push('0');
            out.push('0');
            out.push(hex_digit_char(code / 16));
            out.push(hex_digit_char(code % 16));
        } else {
            out.push(c);
        }
    }
    proof {
        assert(out@ =~= old(out)@ + escape_char(c));
    }
}

/// Appends a whole text in its escaped form.
fn push_escaped(text: &Vec<char>, out: &mut Vec<char>)
    ensures
        final(out)@ == old(out)@ + json_escape(text@),
{
    let ghost base = out@;
    let mut i: usize = 0;
    while i < text.len()
        invariant
            0 <= i <= text@.len(),
            out@ == base + json_escape(text@.take(i as int)),
        decreases text@.len() - i,
    {
        push_escaped_char(text[i], out);
        proof {
            assert(text@.take(i + 1).drop_last() =~= text@.take(i as int));
            assert(text@.take(i + 1).last() == text@[i as int]);
            assert(out@ =~= base + json_escape(text@.take(i + 1)));
        }
        i += 1;
    }
    proof {
        assert(text@.take(text@.len() as int) =~= text@);
    }
}

/// The characters of a string, in order.
fn chars_of(s: &str) -> (r: Vec<char>)
    ensures
        r@ == s@,
{
    let n = s.unicode_len();
    let mut r: Vec<char> = Vec::new();
    let mut i: usize = 0;
    while i < n
        invariant
            n == s@.len(),
            0 <= i <= n,
            r@ == s@.take(i as int),
        decreases n - i,
    {
        r.push(s.get_char(i));
        proof {
            assert(r@ =~= s@.take(i + 1));
        }
        i += 1;
    }
    proof {
        assert(s@.take(n as int) =~= s@);
    }
    r
}

/// A string holding exactly the given characters, in order.
///
/// Relies on `String`'s `FromIterator<char>`: collecting characters yields
/// the string of those characters in iteration order.
#[verifier::external_body]
pub(crate) fn string_from_chars(v: &Vec<char>) -> (r: String)
    ensures
        r@ == v@,
{
    v.iter().copied().collect()
}

/// Appends one page as its JSON object.
fn push_page(p: &Page, out: &mut Vec<char>)
    ensures
        final(out)@ == old(out)@ + json_of_page(p@),
{
    out.push('{');
    out.push('"');
    out.push('i');
    out.push('n');
    out.push('d');
    out.push('e');
    out.push('x');
    out.push('"');
    out.push(':');
    push_dec(p.index, out);
    out.push(',');
    out.push('"');
    out.push('t');
    out.push('e');
    out.push('x');
    out.push('t');
    out.push('"');
    out.push(':');
    out.push('"');
    let text_chars = chars_of(p.text.as_str());
    push_escaped(&text_chars, out);
    out.push('"');
    out.push('}');
    proof {
        assert(out@ =~= old(out)@ + json_of_page(p@));
    }
}

/// The document as its JSON text, character by character.
fn project_json_chars(d: &Project) -> (out: Vec<char>)
    ensures
        out@ == json_of_project(d@),
{
    let mut out: Vec<char> = Vec::new();
    out.push('{');
    out.push('"');
    out.push('p');
    out.push('a');
    out.push('g');
    out.push('e');
    out.push('s');
    out.push('"');
    out.push(':');
    out.push('[');
    let ghost prefix = out@;
    let mut i: usize = 0;
    while i < d.pages.len()
        invariant
            0 <= i <= d.pages@.len(),
            d@.len() == d.pages@.len(),
            prefix == seq!['{', '"', 'p', 'a', 'g', 'e', 's', '"', ':', '['],
            out@ == prefix + json_of_pages(d@.take(i as int)),
        decreases d.pages@.len() - i,
    {
        if i > 0 {
            out.push(',');
        }
        push_page(&d.pages[i], &mut out);
        proof {
            assert(d@[i as int] == d.pages@[i as int]@);
            assert(d@.take(i + 1).drop_last() =~= d@.take(i as int));
            assert(d@.take(i + 1).last() == d@[i as int]);
            if i == 0 {
                assert(json_of_pages(d@.take(1)) == json_of_page(d@.take(1)[0]));
            }
            assert(out@ =~= prefix + json_of_pages(d@.take(i + 1)));
        }
        i += 1;
    }
    out.push(']');
    out.push('}');
    proof {
        assert(d@.take(d@.len() as int) =~= d@);
        assert(out@ =~= json_of_project(d@));
    }
    out
}

/// The document as the JSON string that is written to disk.
pub fn project_json(d: &Project) -> (s: String)
    ensures
        s@ == json_of_project(d@),
{
    let chars = project_json_chars(d);
    string_from_chars(&chars)
}

/// The path of a directory's document: the directory path with `-ocr.json`
/// appended.
pub fn json_path_for(dir: &str) -> (p: String)
    ensures
        p@ == dir@ + "-ocr.json"@,
{
    let s = String::from_str(dir);
    s.concat("-ocr.json")
}

} // verus!
