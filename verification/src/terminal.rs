//! Text for the terminal: wrapping lines that hold escape sequences, and the
//! sequences that hand an image to a terminal.

use crate::text::{decimal, to_chars, u64_to_string};
use vstd::prelude::*;
use vstd::string::*;

verus! {

/// The character that begins an escape sequence.
pub const ESCAPE: char = '\u{1b}';

/// Whether `c` is a letter of the English alphabet.
pub open spec fn is_ascii_letter(c: char) -> bool {
    ('a' <= c && c <= 'z') || ('A' <= c && c <= 'Z')
}

fn ascii_letter(c: char) -> (r: bool)
    ensures
        r == is_ascii_letter(c),
{
    let n = c as u32;
    (n >= 97 && n <= 122) || (n >= 65 && n <= 90)
}

/// The sequence that moves the cursor `n` columns to the right:
/// `ESC [ n C`.
pub open spec fn cursor_right(n: u16) -> Seq<char> {
    seq![ESCAPE, '['] + decimal(n as nat) + seq!['C']
}

/// The number of characters up to and including the first letter of `s`,
/// or `-1` when `s` holds no letter.
pub open spec fn letter_end(s: Seq<char>) -> int
    decreases s.len(),
{
    if s.len() == 0 {
        -1
    } else if is_ascii_letter(s[0]) {
        1
    } else {
        let rest = letter_end(s.drop_first());
        if rest < 0 {
            -1
        } else {
            rest + 1
        }
    }
}

proof fn lemma_letter_end(s: Seq<char>, n: int)
    requires
        0 <= n <= s.len(),
        forall|j: int| 0 <= j < n ==> !is_ascii_letter(s[j]),
        n < s.len() ==> is_ascii_letter(s[n]),
    ensures
        letter_end(s) == if n < s.len() {
            n + 1
        } else {
            -1
        },
    decreases s.len(),
{
    if s.len() > 0 && n > 0 {
        let t = s.drop_first();
        assert forall|j: int| 0 <= j < n - 1 implies !is_ascii_letter(t[j]) by {
            assert(t[j] == s[j + 1]);
        }
        if n < s.len() {
            assert(t[n - 1] == s[n]);
        }
        lemma_letter_end(t, n - 1);
    }
}

/// A text broken into lines of at most `width` characters, each line after
/// the first moved `indent` columns to the right. Escape sequences, which
/// begin with `ESC` and end with the first letter after it, take no room on
/// a line; an escape sequence that the text ends in the middle of is left
/// out. `used` is the number of characters that stand on the line already.
pub open spec fn wrapped(text: Seq<char>, width: usize, indent: u16, used: nat) -> Seq<char>
    decreases text.len(),
{
    if text.len() == 0 {
        Seq::empty()
    } else if text[0] == ESCAPE {
        let rest = text.drop_first();
        let n = letter_end(rest);
        if 0 < n <= rest.len() {
            seq![ESCAPE] + rest.take(n) + wrapped(rest.skip(n), width, indent, used)
        } else {
            Seq::empty()
        }
    } else if used >= width {
        seq!['\n'] + cursor_right(indent) + seq![text[0]] + wrapped(
            text.drop_first(),
            width,
            indent,
            1,
        )
    } else {
        seq![text[0]] + wrapped(text.drop_first(), width, indent, used + 1)
    }
}

/// Breaks a text into lines of at most `available_width` characters. Lines
/// after the first begin `indent` columns to the right.
pub fn wrap_text(text: &str, available_width: usize, indent: u16) -> (r: String)
    ensures
        r@ == wrapped(text@, available_width, indent, 0),
{
    let t = to_chars(text);
    let mut out = String::new();
    let mut used: usize = 0;
    let mut i: usize = 0;
    assert(t@.skip(0) =~= t@);
    assert(out@ + wrapped(t@, available_width, indent, 0) =~= wrapped(
        t@,
        available_width,
        indent,
        0,
    ));
    while i < t.len()
        invariant
            i <= t.len(),
            used <= i,
            t@ == text@,
            wrapped(text@, available_width, indent, 0) == out@ + wrapped(
                t@.skip(i as int),
                available_width,
                indent,
                used as nat,
            ),
        decreases t.len() - i,
    {
        let ghost here = t@.skip(i as int);
        let ghost before = out@;
        assert(here[0] == t@[i as int]);
        assert(here.drop_first() =~= t@.skip(i + 1));
        if t[i] == ESCAPE {
            let start = i + 1;
            let mut end = start;
            while end < t.len() && !ascii_letter(t[end])
                invariant
                    start <= end <= t.len(),
                    forall|j: int| start <= j < end ==> !is_ascii_letter(t@[j]),
                decreases t.len() - end,
            {
                end += 1;
            }
            let ghost rest = t@.skip(start as int);
            proof {
                assert forall|j: int| 0 <= j < end - start implies !is_ascii_letter(rest[j]) by {
                    assert(rest[j] == t@[start + j]);
                }
                if end < t.len() {
                    assert(rest[end - start] == t@[end as int]);
                }
                lemma_letter_end(rest, end - start);
            }
            if end == t.len() {
                proof {
                    assert(before + Seq::<char>::empty() =~= before);
                }
                return out;
            }
            out.push(ESCAPE);
            let mut k: usize = start;
            while k <= end
                invariant
                    start <= k <= end + 1,
                    end < t.len(),
                    out@ == before.push(ESCAPE) + t@.subrange(start as int, k as int),
                decreases end + 1 - k,
            {
                out.push(t[k]);
                assert(t@.subrange(start as int, k + 1) =~= t@.subrange(start as int, k as int).push(
                    t@[k as int],
                ));
                k += 1;
            }
            proof {
                let n = end - start + 1;
                assert(rest.take(n) =~= t@.subrange(start as int, end + 1));
                assert(rest.skip(n) =~= t@.skip(end + 1));
                assert(before + (seq![ESCAPE] + rest.take(n) + wrapped(
                    rest.skip(n),
                    available_width,
                    indent,
                    used as nat,
                )) =~= out@ + wrapped(t@.skip(end + 1), available_width, indent, used as nat));
            }
            i = end + 1;
        } else {
            if used >= available_width {
                out.push('\n');
                out.push(ESCAPE);
                out.push('[');
                out.append(u64_to_string(indent as u64).as_str());
                out.push('C');
                out.push(t[i]);
                proof {
                    assert(out@ =~= before + (seq!['\n'] + cursor_right(indent) + seq![t@[i as int]]));
                    assert(before + (seq!['\n'] + cursor_right(indent) + seq![t@[i as int]] + wrapped(
                        t@.skip(i + 1),
                        available_width,
                        indent,
                        1,
                    )) =~= out@ + wrapped(t@.skip(i + 1), available_width, indent, 1));
                }
                used = 1;
            } else {
                out.push(t[i]);
                proof {
                    assert(before + (seq![t@[i as int]] + wrapped(
                        t@.skip(i + 1),
                        available_width,
                        indent,
                        (used + 1) as nat,
                    )) =~= out@ + wrapped(
                        t@.skip(i + 1),
                        available_width,
                        indent,
                        (used + 1) as nat,
                    ));
                }
                used += 1;
            }
            i += 1;
        }
    }
    proof {
        assert(t@.skip(t.len() as int) =~= Seq::<char>::empty());
        assert(out@ + Seq::<char>::empty() =~= out@);
    }
    out
}

/// The number of characters of image data that one escape sequence
/// carries.
pub const TRANSMIT_CHUNK: usize = 4096;

/// The escape sequences that carry image data to the terminal from
/// position `from` on. Every sequence is `ESC _ G`, its settings, a
/// semicolon, its share of the data and `ESC \`. The first sequence says
/// that the data is shown at once and what form it has, and every sequence
/// but the last says that more is to come.
pub open spec fn transmit_from(data: Seq<char>, from: int) -> Seq<char>
    decreases data.len() - from,
{
    if from < 0 || from >= data.len() {
        Seq::empty()
    } else {
        let end = if from + TRANSMIT_CHUNK < data.len() {
            from + TRANSMIT_CHUNK
        } else {
            data.len() as int
        };
        seq![ESCAPE, '_', 'G'] + (if from == 0 {
            "a=T,f=100,"@
        } else {
            Seq::empty()
        }) + (if end < data.len() {
            "m=1"@
        } else {
            Seq::empty()
        }) + seq![';'] + data.subrange(from, end) + seq![ESCAPE, '\\'] + transmit_from(data, end)
    }
}

/// Wraps image data, encoded in base 64, in the escape sequences that hand
/// it to the terminal.
pub fn build_transmit_sequence(base64_data: &str) -> (r: String)
    ensures
        r@ == transmit_from(base64_data@, 0),
{
    let data = to_chars(base64_data);
    let mut out = String::new();
    let mut pos: usize = 0;
    assert(out@ + transmit_from(data@, 0) =~= transmit_from(data@, 0));
    while pos < data.len()
        invariant
            pos <= data.len(),
            data@ == base64_data@,
            transmit_from(data@, 0) == out@ + transmit_from(data@, pos as int),
        decreases data.len() - pos,
    {
        let ghost before = out@;
        out.push(ESCAPE);
        out.push('_');
        out.push('G');
        if pos == 0 {
            out.append("a=T,f=100,");
        }
        let end: usize = if data.len() - pos > TRANSMIT_CHUNK {
            pos + TRANSMIT_CHUNK
        } else {
            data.len()
        };
        if end < data.len() {
            out.append("m=1");
        }
        out.push(';');
        let ghost head = out@;
        let mut k: usize = pos;
        while k < end
            invariant
                pos <= k <= end <= data.len(),
                out@ == head + data@.subrange(pos as int, k as int),
            decreases end - k,
        {
            out.push(data[k]);
            assert(data@.subrange(pos as int, k + 1) =~= data@.subrange(pos as int, k as int).push(
                data@[k as int],
            ));
            k += 1;
        }
        out.push(ESCAPE);
        out.push('\\');
        proof {
            let first = if pos == 0 {
                "a=T,f=100,"@
            } else {
                Seq::<char>::empty()
            };
            let more = if end < data.len() {
                "m=1"@
            } else {
                Seq::<char>::empty()
            };
            assert(out@ =~= before + (seq![ESCAPE, '_', 'G'] + first + more + seq![';']
                + data@.subrange(pos as int, end as int) + seq![ESCAPE, '\\']));
            assert(before + (seq![ESCAPE, '_', 'G'] + first + more + seq![';'] + data@.subrange(
                pos as int,
                end as int,
            ) + seq![ESCAPE, '\\'] + transmit_from(data@, end as int)) =~= out@ + transmit_from(
                data@,
                end as int,
            ));
        }
        pos = end;
    }
    assert(out@ + Seq::<char>::empty() =~= out@);
    out
}

} // verus!
