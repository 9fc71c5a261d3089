//! The textual record in which an error travels.
//!
//! A record is one line of JSON with a fixed shape,
//!
//! ```text
//! {"error":{"name":"<name>","message":"<message>"}}
//! ```
//!
//! in which the two strings stand between quotes with the characters that
//! JSON reserves written as escapes. [`record`] says what the text is,
//! [`encode`] writes it and [`decode`] reads it back; `decode` accepts the
//! texts that `encode` writes and no others.

use vstd::prelude::*;

verus! {

/// The lower-case hexadecimal digit that stands for `d`, for `d` below 16.
pub open spec fn hex_digit(d: int) -> char {
    if d < 10 {
        ('0' as int + d) as char
    } else {
        ('a' as int + d - 10) as char
    }
}

/// Whether `c` is written between quotes as it is.
pub open spec fn is_plain(c: char) -> bool {
    c != '"' && c != '\\' && c as int >= 0x20
}

/// What one character becomes between quotes: itself where it is plain, a
/// backslash and a letter for the quote, the backslash and the five control
/// characters that have a short form, and `\u00` with two hexadecimal
/// digits for the other control characters.
pub open spec fn escape_char(c: char) -> Seq<char> {
    if c == '"' {
        seq!['\\', '"']
    } else if c == '\\' {
        seq!['\\', '\\']
    } else if c == '\u{8}' {
        seq!['\\', 'b']
    } else if c == '\u{c}' {
        seq!['\\', 'f']
    } else if c == '\n' {
        seq!['\\', 'n']
    } else if c == '\r' {
        seq!['\\', 'r']
    } else if c == '\t' {
        seq!['\\', 't']
    } else if (c as int) < 0x20 {
        seq!['\\', 'u', '0', '0', hex_digit(c as int / 16), hex_digit(c as int % 16)]
    } else {
        seq![c]
    }
}

/// The escapes of the characters of `s`, one after the other.
pub open spec fn escape(s: Seq<char>) -> Seq<char>
    decreases s.len(),
{
    if s.len() == 0 {
        Seq::empty()
    } else {
        escape(s.drop_last()) + escape_char(s.last())
    }
}

/// `s` as a string of the record: escaped, between two quotes.
pub open spec fn quote(s: Seq<char>) -> Seq<char> {
    seq!['"'] + escape(s) + seq!['"']
}

/// The record that carries `name` and `message`.
pub open spec fn record(name: Seq<char>, message: Seq<char>) -> Seq<char> {
    "{\"error\":{\"name\":"@ + quote(name) + ",\"message\":"@ + quote(message) + "}}"@
}

/// Whether `piece` stands in `text` from position `at` on.
pub open spec fn stands_at(text: Seq<char>, at: int, piece: Seq<char>) -> bool {
    &&& 0 <= at
    &&& at + piece.len() <= text.len()
    &&& text.subrange(at, at + piece.len()) == piece
}

/// Whether `text` is the record of some name and message.
pub open spec fn is_record(text: Seq<char>) -> bool {
    exists|fields: (Seq<char>, Seq<char>)| text == #[trigger] record(fields.0, fields.1)
}

/// The name and the message that the record `text` carries.
pub open spec fn fields_of(text: Seq<char>) -> (Seq<char>, Seq<char>) {
    choose|fields: (Seq<char>, Seq<char>)| text == #[trigger] record(fields.0, fields.1)
}

/// A piece of two parts stands at a position exactly when the first part
/// stands there and the second right behind it.
pub proof fn lemma_stands_at_split(text: Seq<char>, at: int, first: Seq<char>, second: Seq<char>)
    ensures
        stands_at(text, at, first + second) <==> stands_at(text, at, first) && stands_at(
            text,
            at + first.len(),
            second,
        ),
{
    let both = first + second;
    let mid = at + first.len();
    if stands_at(text, at, both) {
        assert(text.subrange(at, mid) =~= both.subrange(0, first.len() as int));
        assert(both.subrange(0, first.len() as int) =~= first);
        assert(text.subrange(mid, mid + second.len()) =~= both.subrange(
            first.len() as int,
            both.len() as int,
        ));
        assert(both.subrange(first.len() as int, both.len() as int) =~= second);
    }
    if stands_at(text, at, first) && stands_at(text, mid, second) {
        assert forall|k: int| 0 <= k < both.len() implies text[at + k] == both[k] by {
            if k < first.len() {
                assert(text.subrange(at, mid)[k] == first[k]);
            } else {
                assert(text.subrange(mid, mid + second.len())[k - first.len()] == second[k
                    - first.len()]);
            }
        }
        assert(text.subrange(at, at + both.len()) =~= both);
    }
}

/// The escape of two strings joined is the two escapes joined.
pub proof fn lemma_escape_concat(front: Seq<char>, back: Seq<char>)
    ensures
        escape(front + back) == escape(front) + escape(back),
    decreases back.len(),
{
    if back.len() == 0 {
        assert(front + back =~= front);
        assert(escape(front) + escape(back) =~= escape(front));
    } else {
        lemma_escape_concat(front, back.drop_last());
        assert((front + back).drop_last() =~= front + back.drop_last());
        assert((front + back).last() == back.last());
        assert(escape(front + back) =~= escape(front) + escape(back));
    }
}

/// A string of plain characters is its own escape.
pub proof fn lemma_escape_plain(s: Seq<char>)
    requires
        forall|i: int| 0 <= i < s.len() ==> is_plain(#[trigger] s[i]),
    ensures
        escape(s) == s,
    decreases s.len(),
{
    if s.len() == 0 {
        assert(escape(s) =~= s);
    } else {
        lemma_escape_plain(s.drop_last());
        assert(escape(s) =~= s);
    }
}

/// `String::push` appends the given character to the end of the string and
/// leaves what was there before in place.
pub assume_specification[ String::push ](s: &mut String, ch: char)
    ensures
        final(s)@ == old(s)@.push(ch),
;

/// Appends the escape of `c` to `out`.
fn push_escaped(out: &mut String, c: char)
    ensures
        final(out)@ == old(out)@ + escape_char(c),
{
    let code: u32 = code_point(c);
    if c == '"' {
        out.push('\\');
        out.push('"');
    } else if c == '\\' {
        out.push('\\');
        out.push('\\');
    } else if c == '\u{8}' {
        out.push('\\');
        out.push('b');
    } else if c == '\u{c}' {
        out.push('\\');
        out.push('f');
    } else if c == '\n' {
        out.push('\\');
        out.push('n');
    } else if c == '\r' {
        out.push('\\');
        out.push('r');
    } else if c == '\t' {
        out.push('\\');
        out.push('t');
    } else if code < 32 {
        out.push('\\');
        out.push('u');
        out.push('0');
        out.push('0');
        out.push(hex_char(code / 16));
        out.push(hex_char(code % 16));
    } else {
        out.push(c);
    }
    assert(final(out)@ =~= old(out)@ + escape_char(c));
}

/// The hexadecimal digit for `d`.
fn hex_char(d: u32) -> (c: char)
    requires
        d < 16,
    ensures
        c == hex_digit(d as int),
{
    if d < 10 {
        ((48 + d) as u8) as char
    } else {
        ((87 + d) as u8) as char
    }
}

/// Appends `s` as a string of the record to `out`.
fn push_quoted(out: &mut String, s: &str)
    ensures
        final(out)@ == old(out)@ + quote(s@),
{
    out.push('"');
    for c in it: s.chars()
        invariant
            it.seq() == s@,
            out@ == old(out)@ + seq!['"'] + escape(s@.take(it.index())),
    {
        proof {
            let before = s@.take(it.index());
            let after = s@.take(it.index() + 1);
            assert(after.drop_last() =~= before);
            assert(after.last() == c);
        }
        push_escaped(out, c);
    }
    assert(s@.take(s@.len() as int) =~= s@);
    out.push('"');
    assert(final(out)@ =~= old(out)@ + quote(s@));
}

/// Writes the record that carries `name` and `message`.
pub fn encode(name: &str, message: &str) -> (text: String)
    ensures
        text@ == record(name@, message@),
{
    let mut text = String::new();
    text.append("{\"error\":{\"name\":");
    push_quoted(&mut text, name);
    text.append(",\"message\":");
    push_quoted(&mut text, message);
    text.append("}}");
    assert(text@ =~= record(name@, message@));
    text
}

/// Where the escape of `c` stands in a text, its characters are those of the
/// text, one for one.
proof fn lemma_escape_char_at(text: Seq<char>, at: int, c: char)
    requires
        stands_at(text, at, escape_char(c)),
    ensures
        forall|k: int| 0 <= k < escape_char(c).len() ==> text[at + k] == #[trigger] escape_char(c)[k],
{
    let piece = escape_char(c);
    assert forall|k: int| 0 <= k < piece.len() implies text[at + k] == #[trigger] piece[k] by {
        assert(text.subrange(at, at + piece.len())[k] == text[at + k]);
    }
}

/// No escape is the beginning of another: at one position of a text the
/// escape of one character at most can stand.
pub proof fn lemma_escape_char_unique(text: Seq<char>, at: int, c: char, d: char)
    requires
        stands_at(text, at, escape_char(c)),
        stands_at(text, at, escape_char(d)),
    ensures
        c == d,
{
    lemma_escape_char_at(text, at, c);
    lemma_escape_char_at(text, at, d);
    let x = escape_char(c);
    let y = escape_char(d);
    assert(x[0] == y[0]);
    if x.len() >= 2 && y.len() >= 2 {
        assert(x[1] == y[1]);
    }
    if x.len() == 6 && y.len() == 6 {
        assert(x[4] == y[4]);
        assert(x[5] == y[5]);
    }
}

/// Two numbers below 16 with the same hexadecimal digit are the same.
proof fn lemma_hex_digit_injective(a: int, b: int)
    requires
        0 <= a < 16,
        0 <= b < 16,
        hex_digit(a) == hex_digit(b),
    ensures
        a == b,
{
}

/// A character is a number from 0 to 0x10FFFF.
proof fn lemma_char_range(c: char)
    ensures
        0 <= c as int <= 0x10FFFF,
{
}

/// The number of the character `c`.
fn code_point(c: char) -> (code: u32)
    ensures
        code == c as int,
{
    c as u32
}

/// The number that the hexadecimal digit `c` stands for.
fn hex_value(c: char) -> (r: Option<u32>)
    ensures
        match r {
            Some(v) => v < 16 && hex_digit(v as int) == c,
            None => forall|d: int| 0 <= d < 16 ==> #[trigger] hex_digit(d) != c,
        },
{
    let code: u32 = code_point(c);
    if 48 <= code && code <= 57 {
        Some(code - 48)
    } else if 97 <= code && code <= 102 {
        Some(code - 87)
    } else {
        None
    }
}

/// Reads the character whose escape stands at `at`.
fn read_escaped(chars: &Vec<char>, at: usize) -> (r: Option<(char, usize)>)
    ensures
        match r {
            Some((c, next)) => stands_at(chars@, at as int, escape_char(c)) && next == at
                + escape_char(c).len(),
            None => forall|c: char| !stands_at(chars@, at as int, #[trigger] escape_char(c)),
        },
{
    let len: usize = chars.len();
    proof {
        assert forall|c: char| stands_at(chars@, at as int, #[trigger] escape_char(c)) implies {
            &&& at < len
            &&& 0 <= c as int <= 0x10FFFF
            &&& chars@[at as int] == escape_char(c)[0]
            &&& escape_char(c).len() >= 2 ==> chars@[at + 1] == escape_char(c)[1]
            &&& escape_char(c).len() == 6 ==> {
                &&& chars@[at + 2] == '0'
                &&& chars@[at + 3] == '0'
                &&& chars@[at + 4] == hex_digit(c as int / 16)
                &&& chars@[at + 5] == hex_digit(c as int % 16)
            }
        } by {
            lemma_escape_char_at(chars@, at as int, c);
            lemma_char_range(c);
            let x = escape_char(c);
            assert(chars@[at + 0] == x[0]);
            if x.len() >= 2 {
                assert(chars@[at + 1] == x[1]);
            }
            if x.len() == 6 {
                assert(chars@[at + 2] == x[2]);
                assert(chars@[at + 3] == x[3]);
                assert(chars@[at + 4] == x[4]);
                assert(chars@[at + 5] == x[5]);
            }
        }
    }
    if at >= len {
        return None;
    }
    let first: char = chars[at];
    let first_code: u32 = code_point(first);
    if first == '\\' {
        if len - at < 2 {
            return None;
        }
        let second: char = chars[at + 1];
        let short: Option<char> = if second == '"' {
            Some('"')
        } else if second == '\\' {
            Some('\\')
        } else if second == 'b' {
            Some('\u{8}')
        } else if second == 'f' {
            Some('\u{c}')
        } else if second == 'n' {
            Some('\n')
        } else if second == 'r' {
            Some('\r')
        } else if second == 't' {
            Some('\t')
        } else {
            None
        };
        match short {
            Some(c) => {
                assert(chars@.subrange(at as int, at + 2) =~= escape_char(c));
                Some((c, at + 2))
            },
            None => {
                if second != 'u' || len - at < 6 || chars[at + 2] != '0' || chars[at + 3] != '0' {
                    return None;
                }
                match (hex_value(chars[at + 4]), hex_value(chars[at + 5])) {
                    (Some(high), Some(low)) => {
                        let code: u32 = high * 16 + low;
                        proof {
                            assert forall|c: char|
                                stands_at(chars@, at as int, #[trigger] escape_char(c)) implies c as int
                                == code by {
                                lemma_hex_digit_injective(c as int / 16, high as int);
                                lemma_hex_digit_injective(c as int % 16, low as int);
                            }
                        }
                        if code >= 32 || code == 8 || code == 9 || code == 10 || code == 12
                            || code == 13 {
                            return None;
                        }
                        let c: char = (code as u8) as char;
                        assert(chars@.subrange(at as int, at + 6) =~= escape_char(c));
                        Some((c, at + 6))
                    },
                    _ => None,
                }
            },
        }
    } else if first == '"' || first_code < 32 {
        None
    } else {
        assert(chars@.subrange(at as int, at + 1) =~= escape_char(first));
        Some((first, at + 1))
    }
}

/// The escape of a string that is not empty begins with the escape of its
/// first character.
proof fn lemma_escape_front(s: Seq<char>)
    requires
        s.len() > 0,
    ensures
        escape(s) == escape_char(s[0]) + escape(s.drop_first()),
{
    let head = seq![s[0]];
    assert(s =~= head + s.drop_first());
    lemma_escape_concat(head, s.drop_first());
    assert(head.drop_last() =~= Seq::<char>::empty());
    assert(escape(head.drop_last()) =~= Seq::<char>::empty());
    assert(head.last() == s[0]);
    assert(escape(head) =~= escape_char(s[0]));
}

/// What follows the escape of the beginning of a quoted string: the closing
/// quote where the beginning is the whole string, the escape of the next
/// character where it is not.
proof fn lemma_quoted_continues(
    text: Seq<char>,
    start: int,
    at: int,
    done: Seq<char>,
    whole: Seq<char>,
)
    requires
        stands_at(text, start, quote(whole)),
        done.is_prefix_of(whole),
        at == start + 1 + escape(done).len(),
    ensures
        at < text.len(),
        whole.len() == done.len() ==> whole == done && text[at] == '"',
        whole.len() > done.len() ==> stands_at(text, at, escape_char(whole[done.len() as int])),
        whole.len() > done.len() ==> text[at] != '"',
{
    let rest = whole.skip(done.len() as int);
    assert(whole =~= done + rest);
    lemma_escape_concat(done, rest);
    let open = seq!['"'];
    // quote(whole) is the opening quote, the escape of `done`, and a tail.
    if rest.len() == 0 {
        assert(escape(rest) =~= Seq::<char>::empty());
        let tail = seq!['"'];
        assert(quote(whole) =~= (open + escape(done)) + tail);
        lemma_stands_at_split(text, start, open + escape(done), tail);
        assert(text.subrange(at, at + 1)[0] == tail[0]);
        assert(whole =~= done);
    } else {
        lemma_escape_front(rest);
        let next = escape_char(rest[0]);
        let tail = escape(rest.drop_first()) + seq!['"'];
        assert(quote(whole) =~= (open + escape(done)) + (next + tail));
        lemma_stands_at_split(text, start, open + escape(done), next + tail);
        lemma_stands_at_split(text, at, next, tail);
        lemma_escape_char_at(text, at, rest[0]);
        assert(text[at + 0] == next[0]);
    }
}

/// At one position of a text one quoted string at most can stand.
pub proof fn lemma_quote_unique(text: Seq<char>, at: int, a: Seq<char>, b: Seq<char>)
    requires
        stands_at(text, at, quote(a)),
        stands_at(text, at, quote(b)),
    ensures
        a == b,
{
    assert(a.take(0) =~= b.take(0));
    lemma_common_prefix(text, at, a, b, 0);
}

/// Two strings that stand quoted at one position agree up to any length
/// that both have, and have the same length.
proof fn lemma_common_prefix(text: Seq<char>, start: int, a: Seq<char>, b: Seq<char>, n: int)
    requires
        stands_at(text, start, quote(a)),
        stands_at(text, start, quote(b)),
        0 <= n <= a.len(),
        n <= b.len(),
        a.take(n) == b.take(n),
    ensures
        a == b,
    decreases a.len() - n,
{
    let done = a.take(n);
    let at = start + 1 + escape(done).len();
    lemma_quoted_continues(text, start, at, done, a);
    lemma_quoted_continues(text, start, at, done, b);
    if a.len() == n || b.len() == n {
        assert(a == b);
    } else {
        lemma_escape_char_unique(text, at, a[n], b[n]);
        assert(a.take(n + 1) =~= a.take(n).push(a[n]));
        assert(b.take(n + 1) =~= b.take(n).push(b[n]));
        lemma_common_prefix(text, start, a, b, n + 1);
    }
}

/// The characters of `text`, in order.
fn chars_of(text: &str) -> (chars: Vec<char>)
    ensures
        chars@ == text@,
{
    let mut chars: Vec<char> = Vec::new();
    for c in it: text.chars()
        invariant
            it.seq() == text@,
            chars@ == text@.take(it.index()),
    {
        chars.push(c);
    }
    chars
}

/// Tests whether `piece` stands at `at`, and gives the position behind it.
fn read_exact(chars: &Vec<char>, at: usize, piece: &str) -> (r: Option<usize>)
    ensures
        match r {
            Some(next) => stands_at(chars@, at as int, piece@) && next == at + piece@.len(),
            None => !stands_at(chars@, at as int, piece@),
        },
{
    let len: usize = chars.len();
    if at > len {
        return None;
    }
    let mut next: usize = at;
    for c in it: piece.chars()
        invariant
            it.seq() == piece@,
            len == chars.len(),
            at <= next <= len,
            next == at + it.index(),
            chars@.subrange(at as int, next as int) == piece@.take(it.index()),
    {
        if next >= len {
            return None;
        }
        if chars[next] != c {
            proof {
                if stands_at(chars@, at as int, piece@) {
                    assert(chars@.subrange(at as int, at + piece@.len())[next - at]
                        == chars@[next as int]);
                }
            }
            return None;
        }
        assert(chars@.subrange(at as int, next + 1) =~= piece@.take(it.index() + 1));
        next += 1;
    }
    assert(piece@.take(piece@.len() as int) =~= piece@);
    Some(next)
}

/// Reads the quoted string that stands at `start`.
fn read_quoted(chars: &Vec<char>, start: usize) -> (r: Option<(String, usize)>)
    ensures
        match r {
            Some((s, next)) => stands_at(chars@, start as int, quote(s@)) && next == start + quote(
                s@,
            ).len(),
            None => forall|t: Seq<char>| !stands_at(chars@, start as int, #[trigger] quote(t)),
        },
{
    let len: usize = chars.len();
    if start >= len || chars[start] != '"' {
        assert forall|t: Seq<char>| !stands_at(chars@, start as int, #[trigger] quote(t)) by {
            if stands_at(chars@, start as int, quote(t)) {
                assert(chars@.subrange(start as int, start + quote(t).len())[0] == quote(t)[0]);
            }
        }
        return None;
    }
    let mut out = String::new();
    let mut at: usize = start + 1;
    assert(escape(out@) =~= Seq::<char>::empty());
    loop
        invariant
            len == chars.len(),
            start < at <= len,
            chars@[start as int] == '"',
            at == start + 1 + escape(out@).len(),
            chars@.subrange(start + 1, at as int) == escape(out@),
            forall|t: Seq<char>|
                stands_at(chars@, start as int, #[trigger] quote(t)) ==> out@.is_prefix_of(t),
        decreases len - at,
    {
        proof {
            assert forall|t: Seq<char>|
                stands_at(chars@, start as int, #[trigger] quote(t)) implies {
                &&& at < len
                &&& t.len() == out@.len() ==> t == out@ && chars@[at as int] == '"'
                &&& t.len() > out@.len() ==> chars@[at as int] != '"' && stands_at(
                    chars@,
                    at as int,
                    escape_char(t[out@.len() as int]),
                )
            } by {
                lemma_quoted_continues(chars@, start as int, at as int, out@, t);
            }
        }
        if at >= len {
            return None;
        }
        if chars[at] == '"' {
            proof {
                let open = seq!['"'];
                assert(chars@.subrange(start as int, start + 1) =~= open);
                lemma_stands_at_split(chars@, start as int, open, escape(out@));
                assert(chars@.subrange(at as int, at + 1) =~= open);
                lemma_stands_at_split(chars@, start as int, open + escape(out@), open);
            }
            return Some((out, at + 1));
        }
        match read_escaped(chars, at) {
            None => {
                return None;
            },
            Some((c, next)) => {
                proof {
                    let wider = out@.push(c);
                    assert(wider.drop_last() =~= out@);
                    assert(escape(wider) == escape(out@) + escape_char(c));
                    lemma_stands_at_split(chars@, start + 1, escape(out@), escape_char(c));
                    assert forall|t: Seq<char>|
                        stands_at(chars@, start as int, #[trigger] quote(t)) implies wider.is_prefix_of(
                        t,
                    ) by {
                        lemma_escape_char_unique(chars@, at as int, c, t[out@.len() as int]);
                        assert(t.subrange(0, wider.len() as int) =~= t.subrange(
                            0,
                            out@.len() as int,
                        ).push(c));
                    }
                }
                out.push(c);
                at = next;
            },
        }
    }
}

/// A text is the record of a name and a message exactly when its five
/// parts stand one behind the other and fill it.
proof fn lemma_record_parts(text: Seq<char>, name: Seq<char>, message: Seq<char>)
    ensures
        text == record(name, message) <==> in_parts(text, name, message),
{
    let head = "{\"error\":{\"name\":"@;
    let mid = ",\"message\":"@;
    let tail = "}}"@;
    let whole = record(name, message);
    lemma_stands_at_split(text, 0, head + quote(name) + mid + quote(message), tail);
    lemma_stands_at_split(text, 0, head + quote(name) + mid, quote(message));
    lemma_stands_at_split(text, 0, head + quote(name), mid);
    lemma_stands_at_split(text, 0, head, quote(name));
    if text == whole {
        assert(text.subrange(0, whole.len() as int) =~= whole);
    }
    if in_parts(text, name, message) {
        assert(text.subrange(0, text.len() as int) =~= text);
    }
}

/// Whether the five parts of the record of `name` and `message` stand in
/// `text` one behind the other and fill it.
spec fn in_parts(text: Seq<char>, name: Seq<char>, message: Seq<char>) -> bool {
    let head = "{\"error\":{\"name\":"@;
    let mid = ",\"message\":"@;
    let tail = "}}"@;
    let at_name = head.len() as int;
    let at_mid = at_name + quote(name).len();
    let at_message = at_mid + mid.len();
    let at_tail = at_message + quote(message).len();
    &&& stands_at(text, 0, head)
    &&& stands_at(text, at_name, quote(name))
    &&& stands_at(text, at_mid, mid)
    &&& stands_at(text, at_message, quote(message))
    &&& stands_at(text, at_tail, tail)
    &&& text.len() == at_tail + tail.len()
}

/// A record carries one name and one message: two records that are equal
/// were made of the same strings.
pub proof fn lemma_record_injective(
    name: Seq<char>,
    message: Seq<char>,
    other_name: Seq<char>,
    other_message: Seq<char>,
)
    requires
        record(name, message) == record(other_name, other_message),
    ensures
        name == other_name,
        message == other_message,
{
    let text = record(name, message);
    lemma_record_parts(text, name, message);
    lemma_record_parts(text, other_name, other_message);
    let at_name = "{\"error\":{\"name\":"@.len() as int;
    lemma_quote_unique(text, at_name, name, other_name);
    let at_message = at_name + quote(name).len() + ",\"message\":"@.len();
    lemma_quote_unique(text, at_message, message, other_message);
}

/// Reads a record back: gives the name and the message that `text` carries
/// where it is a record, and nothing where it is not. A record is what
/// [`encode`] writes, character for character: spaces between the parts,
/// fields in another order, further fields and escapes that `encode` does
/// not write are all refused.
pub fn decode(text: &str) -> (r: Option<(String, String)>)
    ensures
        match r {
            Some((name, message)) => {
                &&& text@ == record(name@, message@)
                &&& is_record(text@)
                &&& fields_of(text@) == (name@, message@)
            },
            None => !is_record(text@),
        },
{
    let chars = chars_of(text);
    proof {
        assert forall|n: Seq<char>, m: Seq<char>| text@ == #[trigger] record(n, m) implies in_parts(
            chars@,
            n,
            m,
        ) by {
            lemma_record_parts(chars@, n, m);
        }
    }
    let at_name = match read_exact(&chars, 0, "{\"error\":{\"name\":") {
        Some(next) => next,
        None => { return None; },
    };
    let (name, at_mid) = match read_quoted(&chars, at_name) {
        Some(found) => found,
        None => { return None; },
    };
    proof {
        assert forall|n: Seq<char>, m: Seq<char>| text@ == #[trigger] record(n, m) implies n
            == name@ by {
            lemma_quote_unique(chars@, at_name as int, name@, n);
        }
    }
    let at_message = match read_exact(&chars, at_mid, ",\"message\":") {
        Some(next) => next,
        None => { return None; },
    };
    let (message, at_tail) = match read_quoted(&chars, at_message) {
        Some(found) => found,
        None => { return None; },
    };
    proof {
        assert forall|n: Seq<char>, m: Seq<char>| text@ == #[trigger] record(n, m) implies m
            == message@ by {
            lemma_quote_unique(chars@, at_message as int, message@, m);
        }
    }
    match read_exact(&chars, at_tail, "}}") {
        Some(end) => {
            if end != chars.len() {
                return None;
            }
            proof {
                lemma_record_parts(chars@, name@, message@);
                lemma_fields_of_record(name@, message@);
            }
            Some((name, message))
        },
        None => None,
    }
}

/// What was written into a record is what is read out of it.
pub proof fn lemma_fields_of_record(name: Seq<char>, message: Seq<char>)
    ensures
        is_record(record(name, message)),
        fields_of(record(name, message)) == (name, message),
{
    let text = record(name, message);
    let written = (name, message);
    assert(text == record(written.0, written.1));
    let read = fields_of(text);
    lemma_record_injective(name, message, read.0, read.1);
}

} // verus!
