//! Credential persistence codec: the flat JSON object that stores a paired
//! bridge's address and client token. Rendering and parsing are verified
//! against one grammar, and a proved lemma shows that parsing a rendered
//! record gives the record back.
//!
//! The stored text is JSON. The writer emits a compact object with the two
//! fields in a fixed order and escapes a quote, a backslash and every control
//! character (`\b`, `\t`, `\n`, `\f`, `\r`, and `\u00XX` for the rest). The
//! parser accepts any JSON document whose top level is an object binding
//! `ip_addr` and `client_token` each exactly once to a string: insignificant
//! whitespace may stand between tokens, strings may use the standard escapes
//! (`\"`, `\\`, `\/`, `\b`, `\f`, `\n`, `\r`, `\t`, `\uXXXX` with surrogate
//! pairs) but may not hold raw control characters, and unknown keys are
//! skipped together with whatever JSON value they carry. A duplicate of a
//! required key, a required key bound to a non-string value, or content after
//! the closing brace is rejected.

use vstd::prelude::*;

use crate::errors::PersistenceError;
use crate::text::char_from_u32;
use crate::text::push_char;
use crate::text::str_eq;
use crate::BridgeInfo;

verus! {

// --- characters ---

/// Insignificant whitespace between JSON tokens.
pub open spec fn is_ws(c: char) -> bool {
    c == ' ' || c == '\n' || c == '\t' || c == '\r'
}

/// A decimal digit.
pub open spec fn is_digit(c: char) -> bool {
    ('0' as u32) <= (c as u32) && (c as u32) <= ('9' as u32)
}

/// The value of a hexadecimal digit, upper or lower case.
pub open spec fn hex_val(c: char) -> Option<int> {
    if ('0' as u32) <= (c as u32) && (c as u32) <= ('9' as u32) {
        Some((c as u32) - ('0' as u32))
    } else if ('a' as u32) <= (c as u32) && (c as u32) <= ('f' as u32) {
        Some((c as u32) - ('a' as u32) + 10)
    } else if ('A' as u32) <= (c as u32) && (c as u32) <= ('F' as u32) {
        Some((c as u32) - ('A' as u32) + 10)
    } else {
        None
    }
}

/// The lower-case hexadecimal digit for a value below 16.
pub open spec fn hex_digit(d: int) -> char {
    if d == 0 {
        '0'
    } else if d == 1 {
        '1'
    } else if d == 2 {
        '2'
    } else if d == 3 {
        '3'
    } else if d == 4 {
        '4'
    } else if d == 5 {
        '5'
    } else if d == 6 {
        '6'
    } else if d == 7 {
        '7'
    } else if d == 8 {
        '8'
    } else if d == 9 {
        '9'
    } else if d == 10 {
        'a'
    } else if d == 11 {
        'b'
    } else if d == 12 {
        'c'
    } else if d == 13 {
        'd'
    } else if d == 14 {
        'e'
    } else {
        'f'
    }
}

/// The character with the given code point, for points in scalar range.
pub open spec fn char_of(n: int) -> char {
    (n as u32) as char
}

// --- rendering ---

/// JSON string-body escaping as the writer performs it: a quote or backslash
/// is preceded by a backslash; the five control characters with short escapes
/// use them; every other control character becomes `\u00XX` in lower-case
/// hex; everything else stands for itself.
pub open spec fn escape_char(c: char) -> Seq<char> {
    if c == '"' {
        seq!['\\', '"']
    } else if c == '\\' {
        seq!['\\', '\\']
    } else if c == '\u{8}' {
        seq!['\\', 'b']
    } else if c == '\t' {
        seq!['\\', 't']
    } else if c == '\n' {
        seq!['\\', 'n']
    } else if c == '\u{c}' {
        seq!['\\', 'f']
    } else if c == '\r' {
        seq!['\\', 'r']
    } else if (c as u32) < 0x20 {
        seq!['\\', 'u', '0', '0', hex_digit((c as u32) as int / 16), hex_digit((c as u32) as int % 16)]
    } else {
        seq![c]
    }
}

/// The escaped form of a whole string body.
pub open spec fn escape(s: Seq<char>) -> Seq<char>
    decreases s.len(),
{
    if s.len() == 0 {
        Seq::<char>::empty()
    } else {
        escape_char(s[0]) + escape(s.drop_first())
    }
}

/// The exact character sequence a credential record is stored as.
pub open spec fn rendered(ip: Seq<char>, tok: Seq<char>) -> Seq<char> {
    "{\"ip_addr\":\""@ + escape(ip) + "\",\"client_token\":\""@ + escape(tok) + "\"}"@
}

pub proof fn lemma_escape_append(a: Seq<char>, b: Seq<char>)
    ensures
        escape(a + b) == escape(a) + escape(b),
    decreases a.len(),
{
    if a.len() == 0 {
        assert(a + b =~= b);
        assert(escape(a) + escape(b) =~= escape(b));
    } else {
        assert((a + b).drop_first() =~= a.drop_first() + b);
        lemma_escape_append(a.drop_first(), b);
        assert((a + b)[0] == a[0]);
        assert(escape(a + b) =~= escape(a) + escape(b));
    }
}

pub proof fn lemma_escape_singleton(c: char)
    ensures
        escape(seq![c]) == escape_char(c),
{
    assert(seq![c].drop_first() =~= Seq::<char>::empty());
    assert(escape(Seq::<char>::empty()) == Seq::<char>::empty());
    assert(escape(seq![c]) =~= escape_char(c));
}

fn hex_digit_exec(d: u8) -> (c: char)
    requires
        d < 16,
    ensures
        c == hex_digit(d as int),
{
    if d == 0 {
        '0'
    } else if d == 1 {
        '1'
    } else if d == 2 {
        '2'
    } else if d == 3 {
        '3'
    } else if d == 4 {
        '4'
    } else if d == 5 {
        '5'
    } else if d == 6 {
        '6'
    } else if d == 7 {
        '7'
    } else if d == 8 {
        '8'
    } else if d == 9 {
        '9'
    } else if d == 10 {
        'a'
    } else if d == 11 {
        'b'
    } else if d == 12 {
        'c'
    } else if d == 13 {
        'd'
    } else if d == 14 {
        'e'
    } else {
        'f'
    }
}

fn append_escaped(out: &mut String, s: &str)
    ensures
        final(out)@ == old(out)@ + escape(s@),
{
    let n: usize = s.unicode_len();
    for i in 0..n
        invariant
            n as nat == s@.len(),
            out@ == old(out)@ + escape(s@.subrange(0, i as int)),
    {
        let c: char = s.get_char(i);
        proof {
            assert(s@.subrange(0, i + 1 as int) =~= s@.subrange(0, i as int) + seq![s@[i as int]]);
            lemma_escape_append(s@.subrange(0, i as int), seq![s@[i as int]]);
            lemma_escape_singleton(s@[i as int]);
        }
        if c == '"' || c == '\\' {
            push_char(out, '\\');
            push_char(out, c);
        } else if c == '\u{8}' {
            push_char(out, '\\');
            push_char(out, 'b');
        } else if c == '\t' {
            push_char(out, '\\');
            push_char(out, 't');
        } else if c == '\n' {
            push_char(out, '\\');
            push_char(out, 'n');
        } else if c == '\u{c}' {
            push_char(out, '\\');
            push_char(out, 'f');
        } else if c == '\r' {
            push_char(out, '\\');
            push_char(out, 'r');
        } else if (c as u32) < 0x20 {
            push_char(out, '\\');
            push_char(out, 'u');
            push_char(out, '0');
            push_char(out, '0');
            let u: u32 = c as u32;
            push_char(out, hex_digit_exec((u / 16) as u8));
            push_char(out, hex_digit_exec((u % 16) as u8));
        } else {
            push_char(out, c);
        }
        proof {
            assert(out@ =~= old(out)@ + escape(s@.subrange(0, i + 1 as int)));
        }
    }
    proof {
        assert(s@.subrange(0, s@.len() as int) =~= s@);
    }
}

/// Render a credential as the stored JSON text.
pub fn render_bridge_info(info: &BridgeInfo) -> (r: String)
    ensures
        r@ == rendered(info.ip_addr@, info.client_token@),
{
    let mut out = String::from_str("{\"ip_addr\":\"");
    append_escaped(&mut out, info.ip_addr.as_str());
    out.append("\",\"client_token\":\"");
    append_escaped(&mut out, info.client_token.as_str());
    out.append("\"}");
    proof {
        assert(out@ =~= rendered(info.ip_addr@, info.client_token@));
    }
    out
}

// --- the grammar, as specification-level recursive descent ---

/// The position of the first character at or after `i` that is not
/// insignificant whitespace (or the end of the text).
pub open spec fn ws_end(s: Seq<char>, i: int) -> int
    decreases s.len() - i,
{
    if i < 0 || i >= s.len() {
        i
    } else if is_ws(s[i]) {
        ws_end(s, i + 1)
    } else {
        i
    }
}

/// The value of four hexadecimal digits starting at `i`.
pub open spec fn hex4(s: Seq<char>, i: int) -> Option<int> {
    if 0 <= i && i + 4 <= s.len() {
        match (hex_val(s[i]), hex_val(s[i + 1]), hex_val(s[i + 2]), hex_val(s[i + 3])) {
            (Some(a), Some(b), Some(c), Some(d)) => Some(a * 4096 + b * 256 + c * 16 + d),
            _ => None,
        }
    } else {
        None
    }
}

/// A `\uXXXX` escape starting at its first hex digit. A value outside the
/// surrogate range stands alone; a leading surrogate must be followed by
/// `\uXXXX` with a trailing surrogate, the pair naming one character; a lone
/// trailing surrogate is rejected.
pub open spec fn scan_unicode(s: Seq<char>, i: int) -> Option<(char, int)> {
    match hex4(s, i) {
        Some(n) => if 0xDC00 <= n && n < 0xE000 {
            None
        } else if 0xD800 <= n && n < 0xDC00 {
            if i + 6 <= s.len() && s[i + 4] == '\\' && s[i + 5] == 'u' {
                match hex4(s, i + 6) {
                    Some(m) => if 0xDC00 <= m && m < 0xE000 {
                        Some((char_of(0x10000 + (n - 0xD800) * 0x400 + (m - 0xDC00)), i + 10))
                    } else {
                        None
                    },
                    None => None,
                }
            } else {
                None
            }
        } else {
            Some((char_of(n), i + 4))
        },
        None => None,
    }
}

/// One string escape, read just after its backslash: the character it stands
/// for and the position after it.
pub open spec fn scan_escape(s: Seq<char>, i: int) -> Option<(char, int)> {
    if i < 0 || i >= s.len() {
        None
    } else if s[i] == '"' {
        Some(('"', i + 1))
    } else if s[i] == '\\' {
        Some(('\\', i + 1))
    } else if s[i] == '/' {
        Some(('/', i + 1))
    } else if s[i] == 'b' {
        Some(('\u{8}', i + 1))
    } else if s[i] == 'f' {
        Some(('\u{c}', i + 1))
    } else if s[i] == 'n' {
        Some(('\n', i + 1))
    } else if s[i] == 'r' {
        Some(('\r', i + 1))
    } else if s[i] == 't' {
        Some(('\t', i + 1))
    } else if s[i] == 'u' {
        scan_unicode(s, i + 1)
    } else {
        None
    }
}

/// Scan a string body starting just after its opening quote. Yields the
/// unescaped content and the position just after the closing quote. A raw
/// control character in the body is rejected.
pub open spec fn scan_string(s: Seq<char>, i: int) -> Option<(Seq<char>, int)>
    decreases s.len() - i,
{
    if i < 0 || i >= s.len() {
        None
    } else if s[i] == '"' {
        Some((Seq::<char>::empty(), i + 1))
    } else if s[i] == '\\' {
        match scan_escape(s, i + 1) {
            Some((c, j)) => if i < j && j <= s.len() {
                match scan_string(s, j) {
                    Some((body, k)) => Some((seq![c] + body, k)),
                    None => None,
                }
            } else {
                None
            },
            None => None,
        }
    } else if (s[i] as u32) < 0x20 {
        None
    } else {
        match scan_string(s, i + 1) {
            Some((body, k)) => Some((seq![s[i]] + body, k)),
            None => None,
        }
    }
}

/// Skip a string body starting just after its opening quote, checking only
/// what skipping an unknown field checks: escapes are well formed (any four
/// hex digits after `\u`, surrogates unconstrained) and no raw control
/// character appears.
pub open spec fn skip_string_lax(s: Seq<char>, i: int) -> Option<int>
    decreases s.len() - i,
{
    if i < 0 || i >= s.len() {
        None
    } else if s[i] == '"' {
        Some(i + 1)
    } else if s[i] == '\\' {
        if i + 1 < s.len() {
            let c = s[i + 1];
            if c == '"' || c == '\\' || c == '/' || c == 'b' || c == 'f' || c == 'n' || c == 'r'
                || c == 't' {
                skip_string_lax(s, i + 2)
            } else if c == 'u' {
                match hex4(s, i + 2) {
                    Some(v) => skip_string_lax(s, i + 6),
                    None => None,
                }
            } else {
                None
            }
        } else {
            None
        }
    } else if (s[i] as u32) < 0x20 {
        None
    } else {
        skip_string_lax(s, i + 1)
    }
}

/// The position of the first character at or after `i` that is not a decimal
/// digit.
pub open spec fn digits_end(s: Seq<char>, i: int) -> int
    decreases s.len() - i,
{
    if i < 0 || i >= s.len() {
        i
    } else if is_digit(s[i]) {
        digits_end(s, i + 1)
    } else {
        i
    }
}

/// A JSON number starting at `i`: optional minus, an integer part without a
/// leading zero, optional fraction and exponent each with at least one digit.
pub open spec fn scan_number(s: Seq<char>, i: int) -> Option<int> {
    if 0 <= i && i < s.len() {
        let i1 = if s[i] == '-' {
            i + 1
        } else {
            i
        };
        if i1 < s.len() && is_digit(s[i1]) {
            let i2 = if s[i1] == '0' {
                i1 + 1
            } else {
                digits_end(s, i1)
            };
            if s[i1] == '0' && i2 < s.len() && is_digit(s[i2]) {
                None
            } else {
                let i3 = if i2 < s.len() && s[i2] == '.' {
                    if i2 + 1 < s.len() && is_digit(s[i2 + 1]) {
                        digits_end(s, i2 + 1)
                    } else {
                        -1
                    }
                } else {
                    i2
                };
                if i3 < 0 {
                    None
                } else {
                    let i4 = if i3 < s.len() && (s[i3] == 'e' || s[i3] == 'E') {
                        let i3a = if i3 + 1 < s.len() && (s[i3 + 1] == '+' || s[i3 + 1] == '-') {
                            i3 + 2
                        } else {
                            i3 + 1
                        };
                        if i3a < s.len() && is_digit(s[i3a]) {
                            digits_end(s, i3a)
                        } else {
                            -1
                        }
                    } else {
                        i3
                    };
                    if i4 < 0 {
                        None
                    } else {
                        Some(i4)
                    }
                }
            }
        } else {
            None
        }
    } else {
        None
    }
}

/// Any JSON value starting at `i` (whitespace already skipped): the position
/// after it if it is well formed. Used to skip the value of an unknown key.
pub open spec fn scan_value(s: Seq<char>, i: int) -> Option<int>
    decreases s.len() - i, 0int,
{
    if i < 0 || i >= s.len() {
        None
    } else if s[i] == '"' {
        skip_string_lax(s, i + 1)
    } else if s[i] == '{' {
        skip_object(s, i + 1)
    } else if s[i] == '[' {
        skip_array(s, i + 1)
    } else if s[i] == 't' {
        if i + 4 <= s.len() && s[i + 1] == 'r' && s[i + 2] == 'u' && s[i + 3] == 'e' {
            Some(i + 4)
        } else {
            None
        }
    } else if s[i] == 'f' {
        if i + 5 <= s.len() && s[i + 1] == 'a' && s[i + 2] == 'l' && s[i + 3] == 's' && s[i + 4]
            == 'e' {
            Some(i + 5)
        } else {
            None
        }
    } else if s[i] == 'n' {
        if i + 4 <= s.len() && s[i + 1] == 'u' && s[i + 2] == 'l' && s[i + 3] == 'l' {
            Some(i + 4)
        } else {
            None
        }
    } else if s[i] == '-' || is_digit(s[i]) {
        scan_number(s, i)
    } else {
        None
    }
}

/// A skipped object, read just after its opening brace.
pub open spec fn skip_object(s: Seq<char>, i: int) -> Option<int>
    decreases s.len() - i, 2int,
{
    if i < 0 {
        None
    } else {
        let j = ws_end(s, i);
        if j < s.len() && s[j] == '}' {
            Some(j + 1)
        } else if i <= j && j <= s.len() {
            skip_object_members(s, j)
        } else {
            None
        }
    }
}

/// The members of a skipped object, read at the opening quote of a key.
pub open spec fn skip_object_members(s: Seq<char>, i: int) -> Option<int>
    decreases s.len() - i, 1int,
{
    if 0 <= i && i < s.len() && s[i] == '"' {
        match skip_string_lax(s, i + 1) {
            Some(k) => {
                let l = ws_end(s, k);
                if l < s.len() && s[l] == ':' {
                    let m = ws_end(s, l + 1);
                    if i <= m && m <= s.len() {
                        match scan_value(s, m) {
                            Some(p) => {
                                let q = ws_end(s, p);
                                if q < s.len() && s[q] == '}' {
                                    Some(q + 1)
                                } else if q < s.len() && s[q] == ',' {
                                    let r = ws_end(s, q + 1);
                                    if i < r && r <= s.len() {
                                        skip_object_members(s, r)
                                    } else {
                                        None
                                    }
                                } else {
                                    None
                                }
                            },
                            None => None,
                        }
                    } else {
                        None
                    }
                } else {
                    None
                }
            },
            None => None,
        }
    } else {
        None
    }
}

/// A skipped array, read just after its opening bracket.
pub open spec fn skip_array(s: Seq<char>, i: int) -> Option<int>
    decreases s.len() - i, 2int,
{
    if i < 0 {
        None
    } else {
        let j = ws_end(s, i);
        if j < s.len() && s[j] == ']' {
            Some(j + 1)
        } else if i <= j && j <= s.len() {
            skip_array_elems(s, j)
        } else {
            None
        }
    }
}

/// The elements of a skipped array, read at the first character of an
/// element.
pub open spec fn skip_array_elems(s: Seq<char>, i: int) -> Option<int>
    decreases s.len() - i, 1int,
{
    if 0 <= i && i <= s.len() {
        match scan_value(s, i) {
            Some(p) => {
                let q = ws_end(s, p);
                if q < s.len() && s[q] == ']' {
                    Some(q + 1)
                } else if q < s.len() && s[q] == ',' {
                    let r = ws_end(s, q + 1);
                    if i < r && r <= s.len() {
                        skip_array_elems(s, r)
                    } else {
                        None
                    }
                } else {
                    None
                }
            },
            None => None,
        }
    } else {
        None
    }
}

/// The members of the top-level object, read just after its opening brace or
/// a separating comma, threading the values bound so far to the two required
/// keys. A second binding of a required key rejects the document, as does a
/// required key bound to anything but a string; an unknown key's value is
/// skipped whatever JSON value it is. Yields the bindings and the position
/// just after the closing brace.
pub open spec fn scan_members(
    s: Seq<char>,
    i: int,
    ip: Option<Seq<char>>,
    tok: Option<Seq<char>>,
) -> Option<(Option<Seq<char>>, Option<Seq<char>>, int)>
    decreases s.len() - i,
{
    let j = ws_end(s, i);
    if 0 <= i && j < s.len() && s[j] == '"' {
        match scan_string(s, j + 1) {
            Some((key, k)) => {
                let l = ws_end(s, k);
                if l < s.len() && s[l] == ':' {
                    let m = ws_end(s, l + 1);
                    let after: Option<(Option<Seq<char>>, Option<Seq<char>>, int)> = if key
                        == "ip_addr"@ {
                        if ip is Some {
                            None
                        } else if m < s.len() && s[m] == '"' {
                            match scan_string(s, m + 1) {
                                Some((v, p)) => Some((Some(v), tok, p)),
                                None => None,
                            }
                        } else {
                            None
                        }
                    } else if key == "client_token"@ {
                        if tok is Some {
                            None
                        } else if m < s.len() && s[m] == '"' {
                            match scan_string(s, m + 1) {
                                Some((v, p)) => Some((ip, Some(v), p)),
                                None => None,
                            }
                        } else {
                            None
                        }
                    } else {
                        if m <= s.len() {
                            match scan_value(s, m) {
                                Some(p) => Some((ip, tok, p)),
                                None => None,
                            }
                        } else {
                            None
                        }
                    };
                    match after {
                        Some((ip2, tok2, p)) => {
                            let q = ws_end(s, p);
                            if q < s.len() && s[q] == '}' {
                                Some((ip2, tok2, q + 1))
                            } else if q < s.len() && s[q] == ',' && i < q + 1 {
                                scan_members(s, q + 1, ip2, tok2)
                            } else {
                                None
                            }
                        },
                        None => None,
                    }
                } else {
                    None
                }
            },
            None => None,
        }
    } else {
        None
    }
}

/// What a stored credential text denotes: the two field values, if the text
/// is a JSON object binding both required keys to strings exactly once, with
/// nothing but whitespace around the object.
pub open spec fn credential_of(s: Seq<char>) -> Option<(Seq<char>, Seq<char>)> {
    let i = ws_end(s, 0);
    if 0 <= i && i < s.len() && s[i] == '{' {
        let j = ws_end(s, i + 1);
        if j < s.len() && s[j] == '}' {
            None
        } else {
            match scan_members(s, i + 1, Option::<Seq<char>>::None, Option::<Seq<char>>::None) {
                Some((oip, otok, p)) => match (oip, otok) {
                    (Some(ip), Some(tok)) => if ws_end(s, p) == s.len() {
                        Some((ip, tok))
                    } else {
                        None
                    },
                    _ => None,
                },
                None => None,
            }
        }
    } else {
        None
    }
}

// --- the executable parser ---

/// The field values bound by an optional string, for speaking about the
/// executable parser's state in the grammar's terms.
pub open spec fn view_opt(o: Option<String>) -> Option<Seq<char>> {
    match o {
        Some(s) => Some(s@),
        None => None,
    }
}

fn ws_end_exec(s: &str, n: usize, i: usize) -> (j: usize)
    requires
        n as nat == s@.len(),
        i <= n,
    ensures
        j as int == ws_end(s@, i as int),
        i <= j <= n,
    decreases n - i,
{
    if i >= n {
        return i;
    }
    let c: char = s.get_char(i);
    if c == ' ' || c == '\n' || c == '\t' || c == '\r' {
        ws_end_exec(s, n, i + 1)
    } else {
        i
    }
}

fn hex_val_exec(c: char) -> (r: Option<u8>)
    ensures
        match r {
            Some(v) => hex_val(c) == Some(v as int) && v < 16,
            None => hex_val(c) is None,
        },
{
    let u: u32 = c as u32;
    if '0' as u32 <= u && u <= '9' as u32 {
        Some((u - '0' as u32) as u8)
    } else if 'a' as u32 <= u && u <= 'f' as u32 {
        Some((u - 'a' as u32 + 10) as u8)
    } else if 'A' as u32 <= u && u <= 'F' as u32 {
        Some((u - 'A' as u32 + 10) as u8)
    } else {
        None
    }
}

fn hex4_exec(s: &str, n: usize, i: usize) -> (r: Option<u32>)
    requires
        n as nat == s@.len(),
        i <= n,
    ensures
        match r {
            Some(v) => hex4(s@, i as int) == Some(v as int) && v < 0x10000,
            None => hex4(s@, i as int) is None,
        },
{
    if n - i < 4 {
        return None;
    }
    let a = hex_val_exec(s.get_char(i));
    let b = hex_val_exec(s.get_char(i + 1));
    let c = hex_val_exec(s.get_char(i + 2));
    let d = hex_val_exec(s.get_char(i + 3));
    match (a, b, c, d) {
        (Some(a), Some(b), Some(c), Some(d)) => Some(
            (a as u32) * 4096 + (b as u32) * 256 + (c as u32) * 16 + (d as u32),
        ),
        _ => None,
    }
}

fn scan_escape_exec(s: &str, n: usize, i: usize) -> (r: Option<(char, usize)>)
    requires
        n as nat == s@.len(),
        i <= n,
    ensures
        match r {
            Some(p) => scan_escape(s@, i as int) == Some((p.0, p.1 as int)) && i < p.1 <= n,
            None => scan_escape(s@, i as int) is None,
        },
{
    if i >= n {
        return None;
    }
    let c: char = s.get_char(i);
    if c == '"' {
        Some(('"', i + 1))
    } else if c == '\\' {
        Some(('\\', i + 1))
    } else if c == '/' {
        Some(('/', i + 1))
    } else if c == 'b' {
        Some(('\u{8}', i + 1))
    } else if c == 'f' {
        Some(('\u{c}', i + 1))
    } else if c == 'n' {
        Some(('\n', i + 1))
    } else if c == 'r' {
        Some(('\r', i + 1))
    } else if c == 't' {
        Some(('\t', i + 1))
    } else if c == 'u' {
        match hex4_exec(s, n, i + 1) {
            Some(v) => {
                if 0xDC00 <= v && v < 0xE000 {
                    return None;
                }
                if 0xD800 <= v && v < 0xDC00 {
                    if n - (i + 1) >= 6 && s.get_char(i + 5) == '\\' && s.get_char(i + 6) == 'u' {
                        match hex4_exec(s, n, i + 7) {
                            Some(m) => {
                                if 0xDC00 <= m && m < 0xE000 {
                                    let code: u32 = 0x10000 + (v - 0xD800) * 0x400 + (m - 0xDC00);
                                    match char_from_u32(code) {
                                        Some(ch) => {
                                            proof {
                                                vstd::utf8::char_u32_cast(ch, code);
                                            }
                                            Some((ch, i + 11))
                                        },
                                        None => {
                                            proof {
                                                assert(false);
                                            }
                                            None
                                        },
                                    }
                                } else {
                                    None
                                }
                            },
                            None => None,
                        }
                    } else {
                        None
                    }
                } else {
                    match char_from_u32(v) {
                        Some(ch) => {
                            proof {
                                vstd::utf8::char_u32_cast(ch, v);
                            }
                            Some((ch, i + 5))
                        },
                        None => {
                            proof {
                                assert(false);
                            }
                            None
                        },
                    }
                }
            },
            None => None,
        }
    } else {
        None
    }
}

fn scan_string_exec(s: &str, n: usize, i: usize) -> (r: Option<(String, usize)>)
    requires
        n as nat == s@.len(),
        i <= n,
    ensures
        match r {
            Some(p) => scan_string(s@, i as int) == Some((p.0@, p.1 as int)) && i < p.1 <= n,
            None => scan_string(s@, i as int) is None,
        },
    decreases n - i,
{
    if i >= n {
        return None;
    }
    let c: char = s.get_char(i);
    if c == '"' {
        return Some((String::new(), i + 1));
    }
    if c == '\\' {
        match scan_escape_exec(s, n, i + 1) {
            Some((ch, j)) => {
                match scan_string_exec(s, n, j) {
                    Some((body, k)) => {
                        let mut head = String::new();
                        push_char(&mut head, ch);
                        head.append(body.as_str());
                        proof {
                            assert(head@ =~= seq![ch] + body@);
                        }
                        Some((head, k))
                    },
                    None => None,
                }
            },
            None => None,
        }
    } else if (c as u32) < 0x20 {
        None
    } else {
        match scan_string_exec(s, n, i + 1) {
            Some((body, k)) => {
                let mut head = String::new();
                push_char(&mut head, c);
                head.append(body.as_str());
                proof {
                    assert(head@ =~= seq![s@[i as int]] + body@);
                }
                Some((head, k))
            },
            None => None,
        }
    }
}

fn skip_string_lax_exec(s: &str, n: usize, i: usize) -> (r: Option<usize>)
    requires
        n as nat == s@.len(),
        i <= n,
    ensures
        match r {
            Some(p) => skip_string_lax(s@, i as int) == Some(p as int) && i < p <= n,
            None => skip_string_lax(s@, i as int) is None,
        },
    decreases n - i,
{
    if i >= n {
        return None;
    }
    let c: char = s.get_char(i);
    if c == '"' {
        return Some(i + 1);
    }
    if c == '\\' {
        if i + 1 < n {
            let c2: char = s.get_char(i + 1);
            if c2 == '"' || c2 == '\\' || c2 == '/' || c2 == 'b' || c2 == 'f' || c2 == 'n' || c2
                == 'r' || c2 == 't' {
                skip_string_lax_exec(s, n, i + 2)
            } else if c2 == 'u' {
                match hex4_exec(s, n, i + 2) {
                    Some(v) => skip_string_lax_exec(s, n, i + 6),
                    None => None,
                }
            } else {
                None
            }
        } else {
            None
        }
    } else if (c as u32) < 0x20 {
        None
    } else {
        skip_string_lax_exec(s, n, i + 1)
    }
}

fn digits_end_exec(s: &str, n: usize, i: usize) -> (j: usize)
    requires
        n as nat == s@.len(),
        i <= n,
    ensures
        j as int == digits_end(s@, i as int),
        i <= j <= n,
    decreases n - i,
{
    if i >= n {
        return i;
    }
    let c: char = s.get_char(i);
    if '0' as u32 <= c as u32 && c as u32 <= '9' as u32 {
        digits_end_exec(s, n, i + 1)
    } else {
        i
    }
}

fn scan_number_exec(s: &str, n: usize, i: usize) -> (r: Option<usize>)
    requires
        n as nat == s@.len(),
        i <= n,
    ensures
        match r {
            Some(p) => scan_number(s@, i as int) == Some(p as int) && i < p <= n,
            None => scan_number(s@, i as int) is None,
        },
{
    if i >= n {
        return None;
    }
    let i1: usize = if s.get_char(i) == '-' {
        i + 1
    } else {
        i
    };
    if !(i1 < n) {
        return None;
    }
    let c1: char = s.get_char(i1);
    if !('0' as u32 <= c1 as u32 && c1 as u32 <= '9' as u32) {
        return None;
    }
    let i2: usize = if c1 == '0' {
        i1 + 1
    } else {
        digits_end_exec(s, n, i1 + 1)
    };
    proof {
        assert(is_digit(s@[i1 as int]));
        assert(digits_end(s@, i1 as int) == digits_end(s@, i1 as int + 1));
    }
    if c1 == '0' && i2 < n {
        let cz: char = s.get_char(i2);
        if '0' as u32 <= cz as u32 && cz as u32 <= '9' as u32 {
            return None;
        }
    }
    let i3: usize;
    if i2 < n && s.get_char(i2) == '.' {
        if i2 + 1 < n {
            let cf: char = s.get_char(i2 + 1);
            if '0' as u32 <= cf as u32 && cf as u32 <= '9' as u32 {
                i3 = digits_end_exec(s, n, i2 + 1);
            } else {
                return None;
            }
        } else {
            return None;
        }
    } else {
        i3 = i2;
    }
    if i3 < n {
        let ce: char = s.get_char(i3);
        if ce == 'e' || ce == 'E' {
            let i3a: usize;
            if i3 + 1 < n {
                let cs: char = s.get_char(i3 + 1);
                if cs == '+' || cs == '-' {
                    i3a = i3 + 2;
                } else {
                    i3a = i3 + 1;
                }
            } else {
                i3a = i3 + 1;
            }
            if i3a < n {
                let cd: char = s.get_char(i3a);
                if '0' as u32 <= cd as u32 && cd as u32 <= '9' as u32 {
                    return Some(digits_end_exec(s, n, i3a));
                }
            }
            return None;
        }
    }
    Some(i3)
}

fn scan_value_exec(s: &str, n: usize, i: usize) -> (r: Option<usize>)
    requires
        n as nat == s@.len(),
        i <= n,
    ensures
        match r {
            Some(p) => scan_value(s@, i as int) == Some(p as int) && i < p <= n,
            None => scan_value(s@, i as int) is None,
        },
    decreases n - i, 0int,
{
    if i >= n {
        return None;
    }
    let c: char = s.get_char(i);
    if c == '"' {
        skip_string_lax_exec(s, n, i + 1)
    } else if c == '{' {
        skip_object_exec(s, n, i + 1)
    } else if c == '[' {
        skip_array_exec(s, n, i + 1)
    } else if c == 't' {
        if n - i >= 4 && s.get_char(i + 1) == 'r' && s.get_char(i + 2) == 'u' && s.get_char(i + 3)
            == 'e' {
            Some(i + 4)
        } else {
            None
        }
    } else if c == 'f' {
        if n - i >= 5 && s.get_char(i + 1) == 'a' && s.get_char(i + 2) == 'l' && s.get_char(i + 3)
            == 's' && s.get_char(i + 4) == 'e' {
            Some(i + 5)
        } else {
            None
        }
    } else if c == 'n' {
        if n - i >= 4 && s.get_char(i + 1) == 'u' && s.get_char(i + 2) == 'l' && s.get_char(i + 3)
            == 'l' {
            Some(i + 4)
        } else {
            None
        }
    } else if c == '-' || ('0' as u32 <= c as u32 && c as u32 <= '9' as u32) {
        scan_number_exec(s, n, i)
    } else {
        None
    }
}

fn skip_object_exec(s: &str, n: usize, i: usize) -> (r: Option<usize>)
    requires
        n as nat == s@.len(),
        i <= n,
    ensures
        match r {
            Some(p) => skip_object(s@, i as int) == Some(p as int) && i < p <= n,
            None => skip_object(s@, i as int) is None,
        },
    decreases n - i, 2int,
{
    let j = ws_end_exec(s, n, i);
    if j < n && s.get_char(j) == '}' {
        return Some(j + 1);
    }
    skip_object_members_exec(s, n, j)
}

fn skip_object_members_exec(s: &str, n: usize, i: usize) -> (r: Option<usize>)
    requires
        n as nat == s@.len(),
        i <= n,
    ensures
        match r {
            Some(p) => skip_object_members(s@, i as int) == Some(p as int) && i < p <= n,
            None => skip_object_members(s@, i as int) is None,
        },
    decreases n - i, 1int,
{
    if i >= n {
        return None;
    }
    if s.get_char(i) != '"' {
        return None;
    }
    match skip_string_lax_exec(s, n, i + 1) {
        Some(k) => {
            let l = ws_end_exec(s, n, k);
            if !(l < n) {
                return None;
            }
            if s.get_char(l) != ':' {
                return None;
            }
            let m = ws_end_exec(s, n, l + 1);
            match scan_value_exec(s, n, m) {
                Some(p) => {
                    let q = ws_end_exec(s, n, p);
                    if q < n {
                        let cq: char = s.get_char(q);
                        if cq == '}' {
                            return Some(q + 1);
                        }
                        if cq == ',' {
                            let r2 = ws_end_exec(s, n, q + 1);
                            return skip_object_members_exec(s, n, r2);
                        }
                    }
                    None
                },
                None => None,
            }
        },
        None => None,
    }
}

fn skip_array_exec(s: &str, n: usize, i: usize) -> (r: Option<usize>)
    requires
        n as nat == s@.len(),
        i <= n,
    ensures
        match r {
            Some(p) => skip_array(s@, i as int) == Some(p as int) && i < p <= n,
            None => skip_array(s@, i as int) is None,
        },
    decreases n - i, 2int,
{
    let j = ws_end_exec(s, n, i);
    if j < n && s.get_char(j) == ']' {
        return Some(j + 1);
    }
    skip_array_elems_exec(s, n, j)
}

fn skip_array_elems_exec(s: &str, n: usize, i: usize) -> (r: Option<usize>)
    requires
        n as nat == s@.len(),
        i <= n,
    ensures
        match r {
            Some(p) => skip_array_elems(s@, i as int) == Some(p as int) && i < p <= n,
            None => skip_array_elems(s@, i as int) is None,
        },
    decreases n - i, 1int,
{
    match scan_value_exec(s, n, i) {
        Some(p) => {
            let q = ws_end_exec(s, n, p);
            if q < n {
                let cq: char = s.get_char(q);
                if cq == ']' {
                    return Some(q + 1);
                }
                if cq == ',' {
                    let r2 = ws_end_exec(s, n, q + 1);
                    return skip_array_elems_exec(s, n, r2);
                }
            }
            None
        },
        None => None,
    }
}

fn scan_members_exec(s: &str, n: usize, i: usize, ip: Option<String>, tok: Option<String>) -> (r:
    Option<(Option<String>, Option<String>, usize)>)
    requires
        n as nat == s@.len(),
        i <= n,
    ensures
        match r {
            Some(t) => scan_members(s@, i as int, view_opt(ip), view_opt(tok)) == Some(
                (view_opt(t.0), view_opt(t.1), t.2 as int),
            ) && t.2 <= n,
            None => scan_members(s@, i as int, view_opt(ip), view_opt(tok)) is None,
        },
    decreases n - i,
{
    let j = ws_end_exec(s, n, i);
    if !(j < n) {
        return None;
    }
    if s.get_char(j) != '"' {
        return None;
    }
    match scan_string_exec(s, n, j + 1) {
        Some((key, k)) => {
            let l = ws_end_exec(s, n, k);
            if !(l < n) {
                return None;
            }
            if s.get_char(l) != ':' {
                return None;
            }
            let m = ws_end_exec(s, n, l + 1);
            let step: (Option<String>, Option<String>, usize);
            if str_eq(key.as_str(), "ip_addr") {
                if ip.is_some() {
                    return None;
                }
                if m < n && s.get_char(m) == '"' {
                    match scan_string_exec(s, n, m + 1) {
                        Some((v, p)) => {
                            step = (Some(v), tok, p);
                        },
                        None => {
                            return None;
                        },
                    }
                } else {
                    return None;
                }
            } else if str_eq(key.as_str(), "client_token") {
                if tok.is_some() {
                    return None;
                }
                if m < n && s.get_char(m) == '"' {
                    match scan_string_exec(s, n, m + 1) {
                        Some((v, p)) => {
                            step = (ip, Some(v), p);
                        },
                        None => {
                            return None;
                        },
                    }
                } else {
                    return None;
                }
            } else {
                match scan_value_exec(s, n, m) {
                    Some(p) => {
                        step = (ip, tok, p);
                    },
                    None => {
                        return None;
                    },
                }
            }
            let (ip2, tok2, p) = step;
            let q = ws_end_exec(s, n, p);
            if q < n {
                let cq: char = s.get_char(q);
                if cq == '}' {
                    return Some((ip2, tok2, q + 1));
                }
                if cq == ',' {
                    return scan_members_exec(s, n, q + 1, ip2, tok2);
                }
            }
            None
        },
        None => None,
    }
}

/// Parse stored credential text. Returns the two fields exactly when the
/// text denotes a credential under the grammar, and `MalformedData` otherwise.
pub fn parse_bridge_info(content: &str) -> (r: Result<BridgeInfo, PersistenceError>)
    ensures
        match credential_of(content@) {
            Some(c) => r matches Ok(info) && info.ip_addr@ == c.0 && info.client_token@ == c.1,
            None => r == Err::<BridgeInfo, PersistenceError>(PersistenceError::MalformedData),
        },
{
    let n: usize = content.unicode_len();
    let i = ws_end_exec(content, n, 0);
    if !(i < n) {
        return Err(PersistenceError::MalformedData);
    }
    if content.get_char(i) != '{' {
        return Err(PersistenceError::MalformedData);
    }
    let j = ws_end_exec(content, n, i + 1);
    if j < n && content.get_char(j) == '}' {
        return Err(PersistenceError::MalformedData);
    }
    match scan_members_exec(content, n, i + 1, None, None) {
        Some((oip, otok, p)) => match (oip, otok) {
            (Some(ip), Some(tok)) => {
                let q = ws_end_exec(content, n, p);
                if q == n {
                    Ok(BridgeInfo { ip_addr: ip, client_token: tok })
                } else {
                    Err(PersistenceError::MalformedData)
                }
            },
            _ => Err(PersistenceError::MalformedData),
        },
        None => Err(PersistenceError::MalformedData),
    }
}

/// Classify a read of the credential store: an absent file is `NotFound`;
/// present content goes through the parser.
pub fn load_bridge_info(content: Option<&str>) -> (r: Result<BridgeInfo, PersistenceError>)
    ensures
        match content {
            None => r == Err::<BridgeInfo, PersistenceError>(PersistenceError::NotFound),
            Some(c) => match credential_of(c@) {
                Some(cred) => r matches Ok(info) && info.ip_addr@ == cred.0
                    && info.client_token@ == cred.1,
                None => r == Err::<BridgeInfo, PersistenceError>(PersistenceError::MalformedData),
            },
        },
{
    match content {
        None => Err(PersistenceError::NotFound),
        Some(c) => parse_bridge_info(c),
    }
}

// --- round trip: parsing a rendered record gives the record back ---

pub proof fn lemma_hex_digit_val(d: int)
    requires
        0 <= d < 16,
    ensures
        hex_val(hex_digit(d)) == Some(d),
{
}

pub proof fn lemma_escape_plain(s: Seq<char>)
    requires
        forall|k: int| 0 <= k < s.len() ==> s[k] != '"' && s[k] != '\\' && (s[k] as u32) >= 0x20,
    ensures
        escape(s) == s,
    decreases s.len(),
{
    if s.len() == 0 {
        assert(escape(s) =~= s);
    } else {
        lemma_escape_plain(s.drop_first());
        assert(escape_char(s[0]) == seq![s[0]]);
        assert(escape(s) =~= s);
    }
}

/// Scanning a string body over the escaped form of `body`, closed by a
/// quote, recovers `body` and stops just past the quote.
pub proof fn lemma_scan_escaped(t: Seq<char>, i: int, body: Seq<char>)
    requires
        0 <= i,
        i + escape(body).len() + 1 <= t.len(),
        forall|k: int| 0 <= k < escape(body).len() ==> t[i + k] == escape(body)[k],
        t[i + escape(body).len()] == '"',
    ensures
        scan_string(t, i) == Some((body, i + escape(body).len() + 1)),
    decreases body.len(),
{
    if body.len() == 0 {
        assert(escape(body).len() == 0);
        assert(t[i] == '"');
        assert(body =~= Seq::<char>::empty());
    } else {
        let c = body[0];
        let rest = body.drop_first();
        let e = escape(body);
        let ec = escape_char(c);
        let er = escape(rest);
        assert(e == ec + er);
        let w = ec.len() as int;
        assert forall|k: int| 0 <= k < w implies t[i + k] == ec[k] by {
            assert(t[i + k] == e[k]);
            assert(e[k] == ec[k]);
        }
        assert forall|k: int| 0 <= k < er.len() implies t[i + w + k] == er[k] by {
            assert(t[i + (w + k)] == e[w + k]);
            assert(e[w + k] == er[k]);
        }
        assert(t[i + w + er.len()] == '"') by {
            assert(i + w + er.len() == i + e.len());
        }
        lemma_scan_escaped(t, i + w, rest);
        assert(seq![c] + rest =~= body);
        if c == '"' || c == '\\' {
            assert(t[i] == '\\');
            assert(t[i + 1] == c);
            assert(scan_escape(t, i + 1) == Some((c, i + 2)));
        } else if c == '\u{8}' {
            assert(t[i] == '\\' && t[i + 1] == 'b');
            assert(scan_escape(t, i + 1) == Some((c, i + 2)));
        } else if c == '\t' {
            assert(t[i] == '\\' && t[i + 1] == 't');
            assert(scan_escape(t, i + 1) == Some((c, i + 2)));
        } else if c == '\n' {
            assert(t[i] == '\\' && t[i + 1] == 'n');
            assert(scan_escape(t, i + 1) == Some((c, i + 2)));
        } else if c == '\u{c}' {
            assert(t[i] == '\\' && t[i + 1] == 'f');
            assert(scan_escape(t, i + 1) == Some((c, i + 2)));
        } else if c == '\r' {
            assert(t[i] == '\\' && t[i + 1] == 'r');
            assert(scan_escape(t, i + 1) == Some((c, i + 2)));
        } else if (c as u32) < 0x20 {
            let u = (c as u32) as int;
            let h = u / 16;
            let l = u % 16;
            assert(t[i] == '\\' && t[i + 1] == 'u');
            assert(t[i + 2] == '0' && t[i + 3] == '0');
            assert(t[i + 4] == hex_digit(h) && t[i + 5] == hex_digit(l));
            lemma_hex_digit_val(h);
            lemma_hex_digit_val(l);
            assert(hex_val('0') == Some(0int));
            assert(hex4(t, i + 2) == Some(h * 16 + l));
            assert(h * 16 + l == u);
            vstd::utf8::char_u32_cast(c, c as u32);
            assert(char_of(u) == c);
            assert(scan_unicode(t, i + 2) == Some((c, i + 6)));
            assert(scan_escape(t, i + 1) == Some((c, i + 6)));
        } else {
            assert(t[i] == c);
        }
        assert(scan_string(t, i) == Some((body, i + e.len() + 1)));
    }
}

/// Round trip of the credential store: a rendered record denotes exactly the
/// field values it was rendered from, whatever characters they hold.
#[verifier::rlimit(100)]
pub proof fn lemma_render_parse_round_trip(ip: Seq<char>, tok: Seq<char>)
    ensures
        credential_of(rendered(ip, tok)) == Some((ip, tok)),
{
    reveal_strlit("{\"ip_addr\":\"");
    reveal_strlit("\",\"client_token\":\"");
    reveal_strlit("\"}");
    reveal_strlit("ip_addr");
    reveal_strlit("client_token");
    let a = "{\"ip_addr\":\""@;
    let b = "\",\"client_token\":\""@;
    let c = "\"}"@;
    let kip = "ip_addr"@;
    let ktok = "client_token"@;
    let eip = escape(ip);
    let etok = escape(tok);
    let e = eip.len() as int;
    let f = etok.len() as int;
    let p1 = a + eip;
    let p2 = p1 + b;
    let p3 = p2 + etok;
    let r = rendered(ip, tok);
    assert(r == p3 + c);
    assert(a.len() == 12);
    assert(b.len() == 18);
    assert(c.len() == 2);
    assert(r.len() == 32 + e + f);
    // lift each segment's characters to their positions in r
    assert forall|k: int| 0 <= k < 12 implies r[k] == a[k] by {
        assert(p1[k] == a[k]);
        assert(p2[k] == p1[k]);
        assert(p3[k] == p2[k]);
        assert(r[k] == p3[k]);
    }
    assert forall|k: int| 0 <= k < e implies r[12 + k] == eip[k] by {
        assert(p1[12 + k] == eip[k]);
        assert(p2[12 + k] == p1[12 + k]);
        assert(p3[12 + k] == p2[12 + k]);
        assert(r[12 + k] == p3[12 + k]);
    }
    assert forall|k: int| 0 <= k < 18 implies r[12 + e + k] == b[k] by {
        assert(p2[12 + e + k] == b[k]);
        assert(p3[12 + e + k] == p2[12 + e + k]);
        assert(r[12 + e + k] == p3[12 + e + k]);
    }
    assert forall|k: int| 0 <= k < f implies r[30 + e + k] == etok[k] by {
        assert(p3[30 + e + k] == etok[k]);
        assert(r[30 + e + k] == p3[30 + e + k]);
    }
    assert forall|k: int| 0 <= k < 2 implies r[30 + e + f + k] == c[k] by {
        assert(r[30 + e + f + k] == c[k]);
    }
    // both keys escape to themselves
    assert(forall|k: int|
        0 <= k < kip.len() ==> kip[k] != '"' && kip[k] != '\\' && (kip[k] as u32) >= 0x20);
    lemma_escape_plain(kip);
    assert(forall|k: int|
        0 <= k < ktok.len() ==> ktok[k] != '"' && ktok[k] != '\\' && (ktok[k] as u32) >= 0x20);
    lemma_escape_plain(ktok);
    // first member: key "ip_addr" at 2, value escape(ip) at 12
    assert forall|k: int| 0 <= k < 7 implies r[2 + k] == kip[k] by {
        assert(r[2 + k] == a[2 + k]);
        assert(a[2 + k] == kip[k]);
    }
    assert(r[9int] == a[9int]);
    lemma_scan_escaped(r, 2, kip);
    assert(scan_string(r, 2) == Some((kip, 10int)));
    assert(r[12 + e] == b[0]);
    lemma_scan_escaped(r, 12, ip);
    assert(scan_string(r, 12) == Some((ip, 13 + e)));
    assert(r[1] == a[1]);
    assert(r[10] == a[10]);
    assert(r[11] == a[11]);
    assert(ws_end(r, 1) == 1);
    assert(ws_end(r, 10) == 10);
    assert(ws_end(r, 11) == 11);
    assert(r[13 + e] == b[1]);
    assert(ws_end(r, 13 + e) == 13 + e);
    // second member: key "client_token" at 15 + e, value escape(tok) at 30 + e
    assert forall|k: int| 0 <= k < 12 implies r[15 + e + k] == ktok[k] by {
        assert(r[12 + e + (3 + k)] == b[3 + k]);
        assert(b[3 + k] == ktok[k]);
    }
    assert(r[15 + e + 12] == r[12 + e + 15]);
    assert(r[12 + e + 15] == b[15]);
    lemma_scan_escaped(r, 15 + e, ktok);
    assert(scan_string(r, 15 + e) == Some((ktok, 28 + e)));
    assert(r[30 + e + f + 0] == c[0]);
    lemma_scan_escaped(r, 30 + e, tok);
    assert(scan_string(r, 30 + e) == Some((tok, 31 + e + f)));
    assert(r[14 + e] == b[2]);
    assert(r[28 + e] == b[16]);
    assert(r[29 + e] == b[17]);
    assert(ws_end(r, 14 + e) == 14 + e);
    assert(ws_end(r, 28 + e) == 28 + e);
    assert(ws_end(r, 29 + e) == 29 + e);
    assert(r[31 + e + f] == c[1]);
    assert(ws_end(r, 31 + e + f) == 31 + e + f);
    assert(ws_end(r, 32 + e + f) == 32 + e + f);
    // the keys are distinct, so the second member binds the second field
    assert(kip.len() == 7 && ktok.len() == 12);
    assert(ktok != kip);
    assert(scan_members(r, 14 + e, Some(ip), Option::<Seq<char>>::None) == Some(
        (Some(ip), Some(tok), 32 + e + f),
    ));
    assert(scan_members(r, 1, Option::<Seq<char>>::None, Option::<Seq<char>>::None) == Some(
        (Some(ip), Some(tok), 32 + e + f),
    ));
    // assemble the document
    assert(r[0] == a[0]);
    assert(ws_end(r, 0) == 0);
    assert(r[1] != '}');
    assert(credential_of(r) == Some((ip, tok)));
}

} // verus!
