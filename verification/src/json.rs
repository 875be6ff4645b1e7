//! The wire format of template messages: a flat JSON object
//! `{"id":…,"content":…,"timestamp":…}` with two text fields and one
//! 64-bit integer field.
//!
//! The format is canonical: strings escape `"` and `\` and the five
//! control characters with short escape forms (`\b \t \n \f \r`); other
//! control characters have no encoding here, and the encoder rejects text
//! containing them. The integer is rendered in decimal with no leading
//! zeros and a leading `-` exactly when negative. The decoder accepts
//! exactly the encoder's outputs, so parsing succeeds precisely on
//! well-formed messages.

use vstd::prelude::*;
use vstd::string::StrSliceExecFns;
use vstd::string::StringExecFns;

use crate::text::push_char;

verus! {

/// A character the format can carry inside a string field: anything but a
/// control character without a short escape form.
pub open spec fn char_encodable(c: char) -> bool {
    c as u32 >= 0x20 || c == '\u{8}' || c == '\t' || c == '\n' || c == '\u{c}' || c == '\r'
}

/// Text the format can carry as a string field.
pub open spec fn encodable(s: Seq<char>) -> bool {
    forall|k: int| 0 <= k < s.len() ==> char_encodable(#[trigger] s[k])
}

/// The escape of one character inside a string field.
pub open spec fn escape_char(c: char) -> Seq<char> {
    if c == '"' {
        seq!['\\', '"']
    } else if c == '\\' {
        seq!['\\', '\\']
    } else if c == '\u{8}' {
        seq!['\\', 'b']
    } else if c == '\t' {
        seq!['\\', 't']
    } else if c == '\n' {
        seq!['\\', 'n']
    } else if c == '\u{c}' {
        seq!['\\', 'f']
    } else if c == '\r' {
        seq!['\\', 'r']
    } else {
        seq![c]
    }
}

/// The escaped body of a string field.
pub open spec fn escaped(s: Seq<char>) -> Seq<char>
    decreases s.len(),
{
    if s.len() == 0 {
        Seq::empty()
    } else {
        escape_char(s[0]) + escaped(s.drop_first())
    }
}

/// A complete string field: quoted, escaped body.
pub open spec fn json_string(s: Seq<char>) -> Seq<char> {
    seq!['"'] + escaped(s) + seq!['"']
}

/// The decimal digit characters.
pub open spec fn digit_char(d: int) -> char {
    if d == 0 {
        '0'
    } else if d == 1 {
        '1'
    } else if d == 2 {
        '2'
    } else if d == 3 {
        '3'
    } else if d == 4 {
        '4'
    } else if d == 5 {
        '5'
    } else if d == 6 {
        '6'
    } else if d == 7 {
        '7'
    } else if d == 8 {
        '8'
    } else {
        '9'
    }
}

/// Decimal rendering of a non-negative integer, most significant digit
/// first, no leading zeros.
pub open spec fn dec_digits(n: int) -> Seq<char>
    recommends
        n >= 0,
    decreases n,
{
    if n < 10 {
        seq![digit_char(n)]
    } else {
        dec_digits(n / 10).push(digit_char(n % 10))
    }
}

/// A complete integer field: decimal digits with a leading `-` exactly
/// when negative.
pub open spec fn json_int(n: int) -> Seq<char> {
    if n < 0 {
        seq!['-'] + dec_digits(-n)
    } else {
        dec_digits(n)
    }
}

/// The whole template message object.
pub open spec fn template_json(id: Seq<char>, content: Seq<char>, timestamp: int) -> Seq<char> {
    "{\"id\":"@ + json_string(id) + ",\"content\":"@ + json_string(content) + ",\"timestamp\":"@
        + json_int(timestamp) + "}"@
}

/// Escaping distributes over appending one character at the end.
proof fn lemma_escaped_snoc(s: Seq<char>, c: char)
    ensures
        escaped(s.push(c)) == escaped(s) + escape_char(c),
    decreases s.len(),
{
    if s.len() == 0 {
        assert(s.push(c)[0] == c);
        assert(s.push(c).drop_first() =~= Seq::<char>::empty());
        assert(escaped(s.push(c)) == escape_char(c) + escaped(Seq::<char>::empty()));
        assert(escape_char(c) + Seq::<char>::empty() =~= escape_char(c));
        assert(escaped(s) + escape_char(c) =~= escape_char(c));
    } else {
        assert(s.push(c).drop_first() =~= s.drop_first().push(c));
        lemma_escaped_snoc(s.drop_first(), c);
        assert(escaped(s.push(c)) =~= escape_char(s[0]) + (escaped(s.drop_first())
            + escape_char(c)));
        assert(escape_char(s[0]) + (escaped(s.drop_first()) + escape_char(c)) =~= (escape_char(
            s[0],
        ) + escaped(s.drop_first())) + escape_char(c));
    }
}

/// Whether every character of `s` can be carried by the format.
pub fn check_encodable(s: &str) -> (r: bool)
    ensures
        r == encodable(s@),
{
    let n: usize = s.unicode_len();
    let mut i: usize = 0;
    while i < n
        invariant
            i <= n,
            n == s@.len(),
            forall|k: int| 0 <= k < i ==> char_encodable(#[trigger] s@[k]),
        decreases n - i,
    {
        let c: char = s.get_char(i);
        if (c as u32) < 0x20 && !(c == '\u{8}' || c == '\t' || c == '\n' || c == '\u{c}' || c
            == '\r') {
            return false;
        }
        i += 1;
    }
    true
}

/// Append the escaped body of `s` to `out`.
fn push_escaped(out: &mut String, s: &str)
    requires
        encodable(s@),
    ensures
        final(out)@ == old(out)@ + escaped(s@),
{
    let n: usize = s.unicode_len();
    let mut i: usize = 0;
    proof {
        assert(s@.take(0) =~= Seq::<char>::empty());
        assert(old(out)@ + escaped(s@.take(0)) =~= old(out)@);
    }
    while i < n
        invariant
            i <= n,
            n == s@.len(),
            encodable(s@),
            out@ == old(out)@ + escaped(s@.take(i as int)),
        decreases n - i,
    {
        let c: char = s.get_char(i);
        if c == '"' {
            push_char(out, '\\');
            push_char(out, '"');
        } else if c == '\\' {
            push_char(out, '\\');
            push_char(out, '\\');
        } else if c == '\u{8}' {
            push_char(out, '\\');
            push_char(out, 'b');
        } else if c == '\t' {
            push_char(out, '\\');
            push_char(out, 't');
        } else if c == '\n' {
            push_char(out, '\\');
            push_char(out, 'n');
        } else if c == '\u{c}' {
            push_char(out, '\\');
            push_char(out, 'f');
        } else if c == '\r' {
            push_char(out, '\\');
            push_char(out, 'r');
        } else {
            push_char(out, c);
        }
        proof {
            lemma_escaped_snoc(s@.take(i as int), s@[i as int]);
            assert(s@.take(i + 1) =~= s@.take(i as int).push(s@[i as int]));
            assert((old(out)@ + escaped(s@.take(i as int))) + escape_char(s@[i as int]) =~= old(
                out,
            )@ + escaped(s@.take(i + 1)));
        }
        i += 1;
    }
    proof {
        assert(s@.take(n as int) =~= s@);
    }
}

/// Append a complete string field for `s` to `out`.
fn push_json_string(out: &mut String, s: &str)
    requires
        encodable(s@),
    ensures
        final(out)@ == old(out)@ + json_string(s@),
{
    push_char(out, '"');
    push_escaped(out, s);
    push_char(out, '"');
    proof {
        assert(old(out)@.push('"') =~= old(out)@ + seq!['"']);
        assert(((old(out)@ + seq!['"']) + escaped(s@)).push('"') =~= old(out)@ + json_string(s@));
    }
}

/// Exec mirror of [`digit_char`].
fn digit_char_exec(d: u64) -> (c: char)
    requires
        d < 10,
    ensures
        c == digit_char(d as int),
{
    if d == 0 {
        '0'
    } else if d == 1 {
        '1'
    } else if d == 2 {
        '2'
    } else if d == 3 {
        '3'
    } else if d == 4 {
        '4'
    } else if d == 5 {
        '5'
    } else if d == 6 {
        '6'
    } else if d == 7 {
        '7'
    } else if d == 8 {
        '8'
    } else {
        '9'
    }
}

/// Append the decimal rendering of `n` to `out`.
fn push_decimal(out: &mut String, n: u64)
    ensures
        final(out)@ == old(out)@ + dec_digits(n as int),
    decreases n,
{
    if n < 10 {
        push_char(out, digit_char_exec(n));
        proof {
            assert(old(out)@.push(digit_char(n as int)) =~= old(out)@ + dec_digits(n as int));
        }
    } else {
        push_decimal(out, n / 10);
        push_char(out, digit_char_exec(n % 10));
        proof {
            assert((old(out)@ + dec_digits(n as int / 10)).push(digit_char(n as int % 10)) =~= old(
                out,
            )@ + dec_digits(n as int / 10).push(digit_char(n as int % 10)));
        }
    }
}

/// Append a complete integer field for `n` to `out`.
fn push_json_int(out: &mut String, n: i64)
    ensures
        final(out)@ == old(out)@ + json_int(n as int),
{
    if n < 0 {
        push_char(out, '-');
        let magnitude: u64 = if n == i64::MIN {
            9223372036854775808u64
        } else {
            (-n) as u64
        };
        assert(magnitude as int == -(n as int));
        push_decimal(out, magnitude);
        proof {
            assert((old(out)@.push('-')) + dec_digits(magnitude as int) =~= old(out)@ + json_int(
                n as int,
            ));
        }
    } else {
        push_decimal(out, n as u64);
    }
}

/// Specification-level scanner for the body of a string field. `t` is the
/// whole input, `j` the position just after the opening quote, `acc` the
/// text decoded so far; the result is the decoded text and the position
/// just after the closing quote. The scanner accepts exactly the escaped
/// bodies the encoder emits.
pub open spec fn scan_string(t: Seq<char>, j: int, acc: Seq<char>) -> Option<(Seq<char>, int)>
    decreases t.len() - j,
{
    if j < 0 || j >= t.len() {
        None
    } else if t[j] == '"' {
        Some((acc, j + 1))
    } else if t[j] == '\\' {
        if j + 1 >= t.len() {
            None
        } else if t[j + 1] == '"' {
            scan_string(t, j + 2, acc.push('"'))
        } else if t[j + 1] == '\\' {
            scan_string(t, j + 2, acc.push('\\'))
        } else if t[j + 1] == 'b' {
            scan_string(t, j + 2, acc.push('\u{8}'))
        } else if t[j + 1] == 't' {
            scan_string(t, j + 2, acc.push('\t'))
        } else if t[j + 1] == 'n' {
            scan_string(t, j + 2, acc.push('\n'))
        } else if t[j + 1] == 'f' {
            scan_string(t, j + 2, acc.push('\u{c}'))
        } else if t[j + 1] == 'r' {
            scan_string(t, j + 2, acc.push('\r'))
        } else {
            None
        }
    } else if (t[j] as u32) < 0x20 {
        None
    } else {
        scan_string(t, j + 1, acc.push(t[j]))
    }
}

/// Soundness of the scanner: a successful scan consumed exactly the
/// escaped form of what it decoded beyond `acc`, followed by the closing
/// quote.
proof fn lemma_scan_string_sound(t: Seq<char>, j: int, acc: Seq<char>)
    requires
        0 <= j <= t.len(),
        scan_string(t, j, acc) is Some,
    ensures
        ({
            let (v, k) = scan_string(t, j, acc)->0;
            &&& j < k <= t.len()
            &&& acc.len() <= v.len()
            &&& v.take(acc.len() as int) == acc
            &&& t.subrange(j, k) == escaped(v.skip(acc.len() as int)) + seq!['"']
        }),
    decreases t.len() - j,
{
    let (v, k) = scan_string(t, j, acc)->0;
    if t[j] == '"' {
        assert(v == acc && k == j + 1);
        assert(v.take(acc.len() as int) =~= acc);
        assert(v.skip(acc.len() as int) =~= Seq::<char>::empty());
        assert(t.subrange(j, k) =~= seq!['"']);
        assert(escaped(Seq::<char>::empty()) + seq!['"'] =~= seq!['"']);
    } else if t[j] == '\\' {
        assert(j + 1 < t.len()) by {
            if j + 1 >= t.len() {
                assert(scan_string(t, j, acc) is None);
            }
        }
        assert(t[j + 1] == '"' || t[j + 1] == '\\' || t[j + 1] == 'b' || t[j + 1] == 't' || t[j
            + 1] == 'n' || t[j + 1] == 'f' || t[j + 1] == 'r') by {
            if !(t[j + 1] == '"' || t[j + 1] == '\\' || t[j + 1] == 'b' || t[j + 1] == 't' || t[j
                + 1] == 'n' || t[j + 1] == 'f' || t[j + 1] == 'r') {
                assert(scan_string(t, j, acc) is None);
            }
        }
        let c: char = if t[j + 1] == '"' {
            '"'
        } else if t[j + 1] == '\\' {
            '\\'
        } else if t[j + 1] == 'b' {
            '\u{8}'
        } else if t[j + 1] == 't' {
            '\t'
        } else if t[j + 1] == 'n' {
            '\n'
        } else if t[j + 1] == 'f' {
            '\u{c}'
        } else {
            '\r'
        };
        assert(scan_string(t, j, acc) == scan_string(t, j + 2, acc.push(c)));
        lemma_scan_string_sound(t, j + 2, acc.push(c));
        assert(v.take(acc.len() as int + 1) == acc.push(c));
        assert(v.take(acc.len() as int) =~= acc) by {
            assert(forall|p: int|
                0 <= p < acc.len() ==> v.take(acc.len() as int)[p] == #[trigger] v.take(
                    acc.len() as int + 1,
                )[p]);
        }
        assert(v[acc.len() as int] == c) by {
            assert(v.take(acc.len() as int + 1)[acc.len() as int] == c);
        }
        let w = v.skip(acc.len() as int);
        let rest = v.skip(acc.len() as int + 1);
        assert(w[0] == c);
        assert(w.drop_first() =~= rest);
        assert(escape_char(c).len() == 2 && escape_char(c)[0] == '\\' && escape_char(c)[1] == t[j
            + 1]);
        assert(escaped(w) == escape_char(c) + escaped(rest));
        assert(t.subrange(j, k) =~= escaped(w) + seq!['"']) by {
            assert(t.subrange(j + 2, k) == escaped(rest) + seq!['"']);
            assert(escaped(w).len() == 2 + escaped(rest).len());
            assert(t.subrange(j + 2, k).len() == k - (j + 2));
            assert(k - j == escaped(w).len() + 1);
            assert forall|p: int| 0 <= p < k - j implies #[trigger] t.subrange(j, k)[p] == (
            escaped(w) + seq!['"'])[p] by {
                assert(t.subrange(j, k)[p] == t[j + p]);
                if p == 0 {
                    assert((escaped(w) + seq!['"'])[0] == escaped(w)[0] == '\\');
                } else if p == 1 {
                    assert((escaped(w) + seq!['"'])[1] == escaped(w)[1] == t[j + 1]);
                } else {
                    assert(t[j + p] == t.subrange(j + 2, k)[p - 2]);
                    assert(t.subrange(j + 2, k)[p - 2] == (escaped(rest) + seq!['"'])[p - 2]);
                    if p < escaped(w).len() {
                        assert((escaped(w) + seq!['"'])[p] == escaped(w)[p]);
                        assert(escaped(w)[p] == (escape_char(c) + escaped(rest))[p]);
                        assert((escape_char(c) + escaped(rest))[p] == escaped(rest)[p - 2]);
                        assert((escaped(rest) + seq!['"'])[p - 2] == escaped(rest)[p - 2]);
                    } else {
                        assert(p == escaped(w).len());
                        assert((escaped(w) + seq!['"'])[p] == '"');
                        assert(p - 2 == escaped(rest).len());
                        assert((escaped(rest) + seq!['"'])[p - 2] == '"');
                    }
                }
            }
        }
    } else {
        let c = t[j];
        assert((t[j] as u32) >= 0x20) by {
            if (t[j] as u32) < 0x20 {
                assert(scan_string(t, j, acc) is None);
            }
        }
        assert(scan_string(t, j, acc) == scan_string(t, j + 1, acc.push(c)));
        lemma_scan_string_sound(t, j + 1, acc.push(c));
        assert(v.take(acc.len() as int + 1) == acc.push(c));
        assert(v.take(acc.len() as int) =~= acc) by {
            assert(forall|p: int|
                0 <= p < acc.len() ==> v.take(acc.len() as int)[p] == #[trigger] v.take(
                    acc.len() as int + 1,
                )[p]);
        }
        assert(v[acc.len() as int] == c) by {
            assert(v.take(acc.len() as int + 1)[acc.len() as int] == c);
        }
        let w = v.skip(acc.len() as int);
        let rest = v.skip(acc.len() as int + 1);
        assert(w[0] == c);
        assert(w.drop_first() =~= rest);
        assert(escape_char(c) == seq![c]);
        assert(escaped(w) == escape_char(c) + escaped(rest));
        assert(t.subrange(j, k) =~= escaped(w) + seq!['"']) by {
            assert(t.subrange(j + 1, k) == escaped(rest) + seq!['"']);
            assert(escaped(w).len() == 1 + escaped(rest).len());
            assert(t.subrange(j + 1, k).len() == k - (j + 1));
            assert(k - j == escaped(w).len() + 1);
            assert forall|p: int| 0 <= p < k - j implies #[trigger] t.subrange(j, k)[p] == (
            escaped(w) + seq!['"'])[p] by {
                assert(t.subrange(j, k)[p] == t[j + p]);
                if p == 0 {
                    assert((escaped(w) + seq!['"'])[0] == escaped(w)[0] == c);
                } else {
                    assert(t[j + p] == t.subrange(j + 1, k)[p - 1]);
                    assert(t.subrange(j + 1, k)[p - 1] == (escaped(rest) + seq!['"'])[p - 1]);
                    if p < escaped(w).len() {
                        assert((escaped(w) + seq!['"'])[p] == escaped(w)[p]);
                        assert(escaped(w)[p] == (escape_char(c) + escaped(rest))[p]);
                        assert((escape_char(c) + escaped(rest))[p] == escaped(rest)[p - 1]);
                        assert((escaped(rest) + seq!['"'])[p - 1] == escaped(rest)[p - 1]);
                    } else {
                        assert(p == escaped(w).len());
                        assert((escaped(w) + seq!['"'])[p] == '"');
                        assert(p - 1 == escaped(rest).len());
                        assert((escaped(rest) + seq!['"'])[p - 1] == '"');
                    }
                }
            }
        }
    }
}

/// Completeness and determinism of the scanner: on input carrying the
/// escaped form of `v` and its closing quote, the scan succeeds and
/// decodes exactly `v`, stopping exactly after the quote.
proof fn lemma_scan_string_complete(t: Seq<char>, j: int, acc: Seq<char>, v: Seq<char>)
    requires
        0 <= j,
        encodable(v),
        j + escaped(v).len() + 1 <= t.len(),
        t.subrange(j, j + escaped(v).len() + 1) == escaped(v) + seq!['"'],
    ensures
        scan_string(t, j, acc) == Some((acc + v, j + escaped(v).len() + 1)),
    decreases v.len(),
{
    let sub = t.subrange(j, j + escaped(v).len() + 1);
    if v.len() == 0 {
        assert(escaped(v).len() == 0);
        assert(t[j] == '"') by {
            assert(sub[0] == (escaped(v) + seq!['"'])[0]);
        }
        assert(acc + v =~= acc);
    } else {
        let c = v[0];
        let v2 = v.drop_first();
        assert(escaped(v) == escape_char(c) + escaped(v2));
        let e = escape_char(c).len();
        assert(sub.len() == escaped(v).len() + 1);
        assert(t[j] == escape_char(c)[0]) by {
            assert(t[j] == sub[0]);
        }
        if e == 2 {
            assert(t[j + 1] == escape_char(c)[1]) by {
                assert(t[j + 1] == sub[1]);
            }
        }
        assert(t.subrange(j + e, j + e + (escaped(v2).len() + 1)) =~= escaped(v2) + seq!['"'])
            by {
            assert forall|p: int| 0 <= p < escaped(v2).len() + 1 implies #[trigger] t.subrange(
                j + e,
                j + e + (escaped(v2).len() + 1),
            )[p] == (escaped(v2) + seq!['"'])[p] by {
                assert(t.subrange(j + e, j + e + (escaped(v2).len() + 1))[p] == t[j + (e + p)]);
                assert(t[j + (e + p)] == sub[e + p]);
                assert(sub[e + p] == (escaped(v2) + seq!['"'])[p]);
            }
        }
        assert(encodable(v2)) by {
            assert forall|k: int| 0 <= k < v2.len() implies char_encodable(#[trigger] v2[k]) by {
                assert(v2[k] == v[k + 1]);
                assert(char_encodable(v[k + 1]));
            }
        }
        lemma_scan_string_complete(t, j + e, acc.push(c), v2);
        assert(acc.push(c) + v2 =~= acc + v);
        assert(char_encodable(v[0]));
        if c == '"' {
            assert(t[j] == '\\' && t[j + 1] == '"');
            assert(scan_string(t, j, acc) == scan_string(t, j + 2, acc.push(c)));
        } else if c == '\\' {
            assert(t[j] == '\\' && t[j + 1] == '\\');
            assert(scan_string(t, j, acc) == scan_string(t, j + 2, acc.push(c)));
        } else if c == '\u{8}' {
            assert(t[j] == '\\' && t[j + 1] == 'b');
            assert(scan_string(t, j, acc) == scan_string(t, j + 2, acc.push(c)));
        } else if c == '\t' {
            assert(t[j] == '\\' && t[j + 1] == 't');
            assert(scan_string(t, j, acc) == scan_string(t, j + 2, acc.push(c)));
        } else if c == '\n' {
            assert(t[j] == '\\' && t[j + 1] == 'n');
            assert(scan_string(t, j, acc) == scan_string(t, j + 2, acc.push(c)));
        } else if c == '\u{c}' {
            assert(t[j] == '\\' && t[j + 1] == 'f');
            assert(scan_string(t, j, acc) == scan_string(t, j + 2, acc.push(c)));
        } else if c == '\r' {
            assert(t[j] == '\\' && t[j + 1] == 'r');
            assert(scan_string(t, j, acc) == scan_string(t, j + 2, acc.push(c)));
        } else {
            assert(t[j] == c);
            assert(scan_string(t, j, acc) == scan_string(t, j + 1, acc.push(c)));
        }
    }
}

/// The scanner only decodes characters the format can carry.
proof fn lemma_scan_string_encodable(t: Seq<char>, j: int, acc: Seq<char>)
    requires
        0 <= j <= t.len(),
        encodable(acc),
        scan_string(t, j, acc) is Some,
    ensures
        encodable((scan_string(t, j, acc)->0).0),
    decreases t.len() - j,
{
    if t[j] == '"' {
    } else if t[j] == '\\' {
        let c: char = if t[j + 1] == '"' {
            '"'
        } else if t[j + 1] == '\\' {
            '\\'
        } else if t[j + 1] == 'b' {
            '\u{8}'
        } else if t[j + 1] == 't' {
            '\t'
        } else if t[j + 1] == 'n' {
            '\n'
        } else if t[j + 1] == 'f' {
            '\u{c}'
        } else {
            '\r'
        };
        assert(scan_string(t, j, acc) == scan_string(t, j + 2, acc.push(c)));
        assert(encodable(acc.push(c))) by {
            assert(char_encodable(c));
            assert forall|k: int| 0 <= k < acc.push(c).len() implies char_encodable(
                #[trigger] acc.push(c)[k],
            ) by {
                if k < acc.len() {
                    assert(acc.push(c)[k] == acc[k]);
                }
            }
        }
        lemma_scan_string_encodable(t, j + 2, acc.push(c));
    } else {
        let c = t[j];
        assert((t[j] as u32) >= 0x20) by {
            if (t[j] as u32) < 0x20 {
                assert(scan_string(t, j, acc) is None);
            }
        }
        assert(scan_string(t, j, acc) == scan_string(t, j + 1, acc.push(c)));
        assert(encodable(acc.push(c))) by {
            assert(char_encodable(c));
            assert forall|k: int| 0 <= k < acc.push(c).len() implies char_encodable(
                #[trigger] acc.push(c)[k],
            ) by {
                if k < acc.len() {
                    assert(acc.push(c)[k] == acc[k]);
                }
            }
        }
        lemma_scan_string_encodable(t, j + 1, acc.push(c));
    }
}

/// A decimal digit character.
pub open spec fn is_digit(c: char) -> bool {
    '0' as u32 <= c as u32 && c as u32 <= '9' as u32
}

/// The value of a digit character.
pub open spec fn digit_val(c: char) -> int {
    c as u32 - '0' as u32
}

/// Whether every character of `ds` is a decimal digit.
pub open spec fn all_digits(ds: Seq<char>) -> bool {
    forall|k: int| 0 <= k < ds.len() ==> is_digit(#[trigger] ds[k])
}

/// Numeric value of a digit run, most significant digit first.
pub open spec fn num_val(ds: Seq<char>) -> int
    decreases ds.len(),
{
    if ds.len() == 0 {
        0
    } else {
        num_val(ds.drop_last()) * 10 + digit_val(ds.last())
    }
}

/// The decimal rendering of a non-negative integer is a non-empty run of
/// digits whose first digit is `0` exactly for zero itself.
proof fn lemma_dec_digits_shape(n: int)
    requires
        n >= 0,
    ensures
        dec_digits(n).len() >= 1,
        all_digits(dec_digits(n)),
        (dec_digits(n)[0] == '0') == (n == 0),
    decreases n,
{
    if n < 10 {
        assert(is_digit(digit_char(n)));
    } else {
        lemma_dec_digits_shape(n / 10);
        let front = dec_digits(n / 10);
        assert(dec_digits(n) == front.push(digit_char(n % 10)));
        assert(all_digits(dec_digits(n))) by {
            assert forall|k: int| 0 <= k < dec_digits(n).len() implies is_digit(
                #[trigger] dec_digits(n)[k],
            ) by {
                if k < front.len() {
                    assert(dec_digits(n)[k] == front[k]);
                } else {
                    assert(dec_digits(n)[k] == digit_char(n % 10));
                    assert(is_digit(digit_char(n % 10)));
                }
            }
        }
        assert(dec_digits(n)[0] == front[0]);
    }
}

/// A non-empty digit run whose first digit is not `0` has value at least 1.
proof fn lemma_num_val_lower(ds: Seq<char>)
    requires
        all_digits(ds),
        ds.len() >= 1,
        ds[0] != '0',
    ensures
        num_val(ds) >= 1,
    decreases ds.len(),
{
    if ds.len() == 1 {
        assert(is_digit(ds[0]));
        assert(ds.drop_last() =~= Seq::<char>::empty());
        assert(ds.last() == ds[0]);
        assert(num_val(Seq::<char>::empty()) == 0);
        assert(num_val(ds) == digit_val(ds[0]));
        assert(digit_val(ds[0]) >= 1) by {
            lemma_digit_roundtrip(ds[0]);
            if digit_val(ds[0]) == 0 {
                assert(ds[0] == digit_char(0));
            }
        }
    } else {
        let front = ds.drop_last();
        assert(all_digits(front)) by {
            assert forall|k: int| 0 <= k < front.len() implies is_digit(#[trigger] front[k]) by {
                assert(front[k] == ds[k]);
            }
        }
        assert(front[0] == ds[0]);
        lemma_num_val_lower(front);
        assert(is_digit(ds.last()));
    }
}

/// Digit runs have non-negative values.
proof fn lemma_num_val_nonneg(ds: Seq<char>)
    requires
        all_digits(ds),
    ensures
        num_val(ds) >= 0,
    decreases ds.len(),
{
    if ds.len() > 0 {
        let front = ds.drop_last();
        assert(all_digits(front)) by {
            assert forall|k: int| 0 <= k < front.len() implies is_digit(#[trigger] front[k]) by {
                assert(front[k] == ds[k]);
            }
        }
        lemma_num_val_nonneg(front);
        assert(is_digit(ds.last()));
    }
}

/// Appending one digit multiplies the value by ten and adds the digit.
proof fn lemma_num_val_snoc(ds: Seq<char>, c: char)
    ensures
        num_val(ds.push(c)) == num_val(ds) * 10 + digit_val(c),
{
    assert(ds.push(c).drop_last() =~= ds);
    assert(ds.push(c).last() == c);
}

/// A digit character is the rendering of its own value.
proof fn lemma_digit_roundtrip(c: char)
    requires
        is_digit(c),
    ensures
        0 <= digit_val(c) < 10,
        digit_char(digit_val(c)) == c,
{
    let u = c as u32;
    assert(48 <= u <= 57);
    if u == 48 {
        assert(c == '0');
    } else if u == 49 {
        assert(c == '1');
    } else if u == 50 {
        assert(c == '2');
    } else if u == 51 {
        assert(c == '3');
    } else if u == 52 {
        assert(c == '4');
    } else if u == 53 {
        assert(c == '5');
    } else if u == 54 {
        assert(c == '6');
    } else if u == 55 {
        assert(c == '7');
    } else if u == 56 {
        assert(c == '8');
    } else {
        assert(c == '9');
    }
}

/// A digit run in canonical form (non-empty, no leading zero unless it is
/// exactly `0`) is the decimal rendering of its own value.
proof fn lemma_dec_digits_of_num(ds: Seq<char>)
    requires
        all_digits(ds),
        ds.len() >= 1,
        ds[0] != '0' || ds.len() == 1,
    ensures
        num_val(ds) >= 0,
        dec_digits(num_val(ds)) == ds,
    decreases ds.len(),
{
    lemma_num_val_nonneg(ds);
    if ds.len() == 1 {
        let c = ds[0];
        assert(is_digit(c));
        assert(ds.drop_last() =~= Seq::<char>::empty());
        assert(ds.last() == c);
        assert(num_val(Seq::<char>::empty()) == 0);
        assert(num_val(ds) == digit_val(c));
        lemma_digit_roundtrip(c);
        assert(dec_digits(num_val(ds)) =~= ds);
    } else {
        let front = ds.drop_last();
        let d = digit_val(ds.last());
        assert(all_digits(front)) by {
            assert forall|k: int| 0 <= k < front.len() implies is_digit(#[trigger] front[k]) by {
                assert(front[k] == ds[k]);
            }
        }
        assert(front[0] == ds[0]);
        lemma_dec_digits_of_num(front);
        lemma_num_val_lower(front);
        let m = num_val(ds);
        assert(ds == front.push(ds.last())) by {
            assert(ds =~= front.push(ds.last()));
        }
        lemma_num_val_snoc(front, ds.last());
        assert(m == num_val(front) * 10 + d);
        assert(is_digit(ds.last()));
        assert(0 <= d < 10);
        assert(m / 10 == num_val(front) && m % 10 == d) by (nonlinear_arith)
            requires
                m == num_val(front) * 10 + d,
                0 <= d < 10,
                num_val(front) >= 1,
        ;
        assert(m >= 10) by {
            assert(num_val(front) * 10 >= 10) by (nonlinear_arith)
                requires
                    num_val(front) >= 1,
            ;
        }
        assert(dec_digits(m) == dec_digits(num_val(front)).push(digit_char(d)));
        assert(digit_char(d) == ds.last()) by {
            lemma_digit_roundtrip(ds.last());
        }
        assert(dec_digits(m) =~= ds);
    }
}

/// Shape of a complete integer field: one optional leading `-` (exactly
/// when negative), then only digits, at least one.
proof fn lemma_json_int_shape(v: int)
    ensures
        json_int(v).len() >= 1,
        v >= 0 ==> all_digits(json_int(v)),
        v < 0 ==> json_int(v)[0] == '-' && json_int(v).len() >= 2 && (forall|k: int|
            1 <= k < json_int(v).len() ==> is_digit(#[trigger] json_int(v)[k])),
        is_digit(json_int(v)[0]) == (v >= 0),
{
    if v >= 0 {
        lemma_dec_digits_shape(v);
    } else {
        lemma_dec_digits_shape(-v);
        let dd = dec_digits(-v);
        assert(json_int(v) == seq!['-'] + dd);
        assert(json_int(v)[0] == '-');
        assert(!is_digit('-'));
        assert(forall|k: int|
            1 <= k < json_int(v).len() ==> #[trigger] json_int(v)[k] == dd[k - 1]);
    }
}

/// Shape of a claimed integer field at position `i`: its sign matches the
/// presence of a leading `-`, and from the first digit position `d0` to
/// its end it is exactly the decimal rendering of its magnitude.
proof fn lemma_int_field_shape(s: Seq<char>, i: int, d0: int, w2: i64, j2: int)
    requires
        0 <= i < s.len(),
        d0 == if s[i] == '-' {
            i + 1
        } else {
            i
        },
        i <= j2 <= s.len(),
        s.subrange(i, j2) == json_int(w2 as int),
    ensures
        (w2 < 0) == (s[i] == '-'),
        d0 < j2,
        forall|p: int| d0 <= p < j2 ==> is_digit(#[trigger] s[p]),
        s.subrange(d0, j2) == dec_digits(if w2 < 0 {
            -(w2 as int)
        } else {
            w2 as int
        }),
{
    let f = json_int(w2 as int);
    lemma_json_int_shape(w2 as int);
    assert(s.subrange(i, j2).len() == j2 - i);
    assert(j2 - i == f.len());
    assert(s[i] == f[0]) by {
        assert(s.subrange(i, j2)[0] == s[i]);
    }
    assert(!is_digit('-'));
    if w2 < 0 {
        assert(f[0] == '-');
    } else {
        assert(is_digit(f[0]));
        assert(s[i] != '-');
    }
    assert((w2 < 0) == (s[i] == '-'));
    assert(d0 - i == if w2 < 0 {
        1int
    } else {
        0int
    });
    assert(d0 < j2);
    assert(forall|p: int| d0 <= p < j2 ==> is_digit(#[trigger] s[p])) by {
        assert forall|p: int| d0 <= p < j2 implies is_digit(#[trigger] s[p]) by {
            assert(s[p] == s.subrange(i, j2)[p - i]);
            assert(s.subrange(i, j2)[p - i] == f[p - i]);
            if w2 < 0 {
                assert(is_digit(f[p - i]));
            } else {
                assert(is_digit(f[p - i]));
            }
        }
    }
    assert(s.subrange(d0, j2) =~= dec_digits(if w2 < 0 {
        -(w2 as int)
    } else {
        w2 as int
    })) by {
        let dd = dec_digits(if w2 < 0 {
            -(w2 as int)
        } else {
            w2 as int
        });
        if w2 < 0 {
            assert(f == seq!['-'] + dd);
        } else {
            assert(f == dd);
        }
        assert forall|p: int| 0 <= p < j2 - d0 implies #[trigger] s.subrange(d0, j2)[p]
            == dd[p] by {
            assert(s.subrange(d0, j2)[p] == s[d0 + p]);
            assert(s[d0 + p] == s.subrange(i, j2)[(d0 - i) + p]);
            assert(s.subrange(i, j2)[(d0 - i) + p] == f[(d0 - i) + p]);
            assert(f[(d0 - i) + p] == dd[p]);
        }
    }
}

/// A claimed integer field ends exactly where the maximal digit run ends.
proof fn lemma_int_field_end(s: Seq<char>, i: int, d0: int, k: int, w2: i64, j2: int)
    requires
        0 <= i <= d0 <= k <= s.len(),
        i < s.len(),
        d0 == if s[i] == '-' {
            i + 1
        } else {
            i
        },
        forall|p: int| d0 <= p < k ==> is_digit(#[trigger] s[p]),
        k == s.len() || !is_digit(s[k]),
        i <= j2 <= s.len(),
        j2 == s.len() || !is_digit(s[j2]),
        s.subrange(i, j2) == json_int(w2 as int),
    ensures
        j2 == k,
        (w2 < 0) == (s[i] == '-'),
        d0 < j2,
        s.subrange(d0, j2) == dec_digits(if w2 < 0 {
            -(w2 as int)
        } else {
            w2 as int
        }),
{
    lemma_int_field_shape(s, i, d0, w2, j2);
    if j2 > k {
        assert(k < s.len());
        assert(is_digit(s[k]));
        assert(false);
    }
    if j2 < k {
        assert(j2 < s.len());
        assert(is_digit(s[j2]));
        assert(false);
    }
}

/// Exec mirror of [`is_digit`].
fn is_digit_exec(c: char) -> (r: bool)
    ensures
        r == is_digit(c),
{
    let u: u32 = c as u32;
    48 <= u && u <= 57
}

/// Read one complete integer field starting at position `i`: an optional
/// `-`, then a maximal run of digits in canonical form whose value fits a
/// 64-bit signed integer. Returns the value and the position just after
/// the run.
fn read_int(s: &str, i: usize) -> (r: Option<(i64, usize)>)
    requires
        i <= s@.len(),
    ensures
        r matches Some(p) ==> i < p.1 <= s@.len() && s@.subrange(i as int, p.1 as int) == json_int(
            p.0 as int,
        ) && (p.1 < s@.len() ==> !is_digit(s@[p.1 as int])),
        r matches Some(p) ==> forall|w2: i64, j2: int|
            i <= j2 <= s@.len() && (j2 == s@.len() || !is_digit(s@[j2])) && s@.subrange(
                i as int,
                j2,
            ) == json_int(w2 as int) ==> j2 == p.1 as int,
        r is None ==> forall|w2: i64, j2: int|
            i <= j2 <= s@.len() && (j2 == s@.len() || !is_digit(s@[j2]))
                ==> s@.subrange(i as int, j2) != json_int(w2 as int),
    {
    let n: usize = s.unicode_len();
    if i >= n {
        proof {
            assert forall|w2: i64, j2: int|
                i <= j2 <= s@.len() && (j2 == s@.len() || !is_digit(s@[j2])) implies s@.subrange(
                i as int,
                j2,
            ) != json_int(w2 as int) by {
                lemma_json_int_shape(w2 as int);
                assert(s@.subrange(i as int, j2).len() == j2 - i == 0);
            }
        }
        return None;
    }
    let neg: bool = s.get_char(i) == '-';
    let d0: usize = if neg {
        i + 1
    } else {
        i
    };
    if d0 >= n || !is_digit_exec(s.get_char(d0)) {
        proof {
            assert forall|w2: i64, j2: int|
                i <= j2 <= s@.len() && (j2 == s@.len() || !is_digit(s@[j2])) implies s@.subrange(
                i as int,
                j2,
            ) != json_int(w2 as int) by {
                if s@.subrange(i as int, j2) == json_int(w2 as int) {
                    lemma_int_field_end(s@, i as int, d0 as int, d0 as int, w2, j2);
                }
            }
        }
        return None;
    }
    let limit: u128 = if neg {
        9223372036854775808
    } else {
        9223372036854775807
    };
    let mut val: u128 = 0;
    let mut k: usize = d0;
    proof {
        assert(s@.subrange(d0 as int, d0 as int) =~= Seq::<char>::empty());
    }
    while k < n && is_digit_exec(s.get_char(k))
        invariant
            i < n,
            d0 <= k <= n,
            n == s@.len(),
            neg == (s@[i as int] == '-'),
            d0 == if neg {
                i + 1
            } else {
                i as int
            },
            limit == if neg {
                9223372036854775808u128
            } else {
                9223372036854775807u128
            },
            forall|p: int| d0 <= p < k ==> is_digit(#[trigger] s@[p]),
            val == num_val(s@.subrange(d0 as int, k as int)),
            val <= limit,
        decreases n - k,
    {
        let c: char = s.get_char(k);
        let d: u128 = ((c as u32) - 48) as u128;
        proof {
            lemma_num_val_snoc(s@.subrange(d0 as int, k as int), c);
            assert(s@.subrange(d0 as int, k as int + 1) =~= s@.subrange(
                d0 as int,
                k as int,
            ).push(c));
        }
        val = val * 10 + d;
        k += 1;
        if val > limit {
            proof {
                assert forall|w2: i64, j2: int|
                    i <= j2 <= s@.len() && (j2 == s@.len() || !is_digit(s@[j2]))
                        implies s@.subrange(i as int, j2) != json_int(w2 as int) by {
                    if s@.subrange(i as int, j2) == json_int(w2 as int) {
                        lemma_int_field_shape(s@, i as int, d0 as int, w2, j2);
                        if j2 < k {
                            assert(is_digit(s@[j2]));
                            assert(false);
                        } else {
                            let m = if w2 < 0 {
                                -(w2 as int)
                            } else {
                                w2 as int
                            };
                            assert(s@.subrange(d0 as int, j2) == dec_digits(m));
                            lemma_dec_digits_shape(m);
                            lemma_num_val_of_dec(m);
                            assert(num_val(s@.subrange(d0 as int, j2)) == m);
                            assert(all_digits(s@.subrange(d0 as int, j2))) by {
                                assert forall|q: int|
                                    0 <= q < j2 - d0 implies is_digit(
                                    #[trigger] s@.subrange(d0 as int, j2)[q],
                                ) by {
                                    assert(s@.subrange(d0 as int, j2)[q] == s@[d0 + q]);
                                }
                            }
                            lemma_num_val_prefix(s@.subrange(d0 as int, j2), k - d0);
                            assert(s@.subrange(d0 as int, j2).take(k - d0) =~= s@.subrange(
                                d0 as int,
                                k as int,
                            ));
                            assert(m >= val);
                            assert(m <= limit);
                        }
                    }
                }
            }
            return None;
        }
    }
    let first: char = s.get_char(d0);
    if first == '0' && k > d0 + 1 {
        proof {
            assert forall|w2: i64, j2: int|
                i <= j2 <= s@.len() && (j2 == s@.len() || !is_digit(s@[j2])) implies s@.subrange(
                i as int,
                j2,
            ) != json_int(w2 as int) by {
                if s@.subrange(i as int, j2) == json_int(w2 as int) {
                    lemma_int_field_end(s@, i as int, d0 as int, k as int, w2, j2);
                    let m = if w2 < 0 {
                        -(w2 as int)
                    } else {
                        w2 as int
                    };
                    lemma_dec_digits_shape(m);
                    assert(s@.subrange(d0 as int, j2)[0] == s@[d0 as int]);
                    assert(m == 0);
                    assert(dec_digits(0).len() == 1);
                    assert(j2 - d0 == 1);
                }
            }
        }
        return None;
    }
    if neg && val == 0 {
        proof {
            assert forall|w2: i64, j2: int|
                i <= j2 <= s@.len() && (j2 == s@.len() || !is_digit(s@[j2])) implies s@.subrange(
                i as int,
                j2,
            ) != json_int(w2 as int) by {
                if s@.subrange(i as int, j2) == json_int(w2 as int) {
                    lemma_int_field_end(s@, i as int, d0 as int, k as int, w2, j2);
                    assert(w2 < 0);
                    let m = -(w2 as int);
                    lemma_dec_digits_shape(m);
                    lemma_num_val_of_dec(m);
                    assert(num_val(s@.subrange(d0 as int, j2)) == m);
                    assert(m >= 1);
                    assert(s@.subrange(d0 as int, j2) =~= s@.subrange(d0 as int, k as int));
                }
            }
        }
        return None;
    }
    let w: i64 = if neg {
        if val == 9223372036854775808 {
            i64::MIN
        } else {
            -(val as i64)
        }
    } else {
        val as i64
    };
    proof {
        let run = s@.subrange(d0 as int, k as int);
        assert(run.len() == k - d0 >= 1);
        assert(run[0] == s@[d0 as int]);
        lemma_dec_digits_of_num(run);
        assert(dec_digits(val as int) == run);
        let m = if w < 0 {
            -(w as int)
        } else {
            w as int
        };
        assert(m == val as int);
        if neg {
            assert(val >= 1);
            assert(w < 0);
            assert(s@.subrange(i as int, k as int) =~= seq!['-'] + run) by {
                assert(s@.subrange(i as int, k as int)[0] == s@[i as int] == '-');
                assert(forall|p: int|
                    1 <= p < k - i ==> #[trigger] s@.subrange(i as int, k as int)[p] == run[p
                        - 1]);
            }
            assert(s@.subrange(i as int, k as int) == json_int(w as int));
        } else {
            assert(w >= 0);
            assert(s@.subrange(i as int, k as int) == json_int(w as int));
        }
        assert forall|w2: i64, j2: int|
            i <= j2 <= s@.len() && (j2 == s@.len() || !is_digit(s@[j2])) && s@.subrange(
                i as int,
                j2,
            ) == json_int(w2 as int) implies j2 == k as int by {
            lemma_int_field_end(s@, i as int, d0 as int, k as int, w2, j2);
        }
    }
    Some((w, k))
}

/// The decimal rendering of `m` has value `m`.
proof fn lemma_num_val_of_dec(m: int)
    requires
        m >= 0,
    ensures
        num_val(dec_digits(m)) == m,
    decreases m,
{
    if m < 10 {
        assert(dec_digits(m) == seq![digit_char(m)]);
        assert(seq![digit_char(m)].drop_last() =~= Seq::<char>::empty());
        assert(seq![digit_char(m)].last() == digit_char(m));
        assert(num_val(Seq::<char>::empty()) == 0);
        assert(num_val(dec_digits(m)) == digit_val(digit_char(m)));
        assert(digit_val(digit_char(m)) == m);
    } else {
        lemma_num_val_of_dec(m / 10);
        lemma_num_val_snoc(dec_digits(m / 10), digit_char(m % 10));
        assert(digit_val(digit_char(m % 10)) == m % 10);
    }
}

/// A prefix of a digit run has a value no larger than the whole run.
proof fn lemma_num_val_prefix(ds: Seq<char>, m: int)
    requires
        all_digits(ds),
        0 <= m <= ds.len(),
    ensures
        num_val(ds.take(m)) <= num_val(ds),
    decreases ds.len() - m,
{
    if m == ds.len() {
        assert(ds.take(m) =~= ds);
    } else {
        lemma_num_val_prefix(ds, m + 1);
        let p = ds.take(m + 1);
        assert(p.drop_last() =~= ds.take(m));
        assert(p.last() == ds[m]);
        assert(num_val(p) == num_val(ds.take(m)) * 10 + digit_val(ds[m]));
        assert(is_digit(ds[m]));
        assert(all_digits(ds.take(m))) by {
            assert forall|q: int| 0 <= q < m implies is_digit(#[trigger] ds.take(m)[q]) by {
                assert(ds.take(m)[q] == ds[q]);
            }
        }
        lemma_num_val_nonneg(ds.take(m));
        assert(num_val(ds.take(m)) * 10 >= num_val(ds.take(m))) by (nonlinear_arith)
            requires
                num_val(ds.take(m)) >= 0,
        ;
    }
}

/// Whether `pat` occurs in `s` exactly at position `i`.
fn match_lit(s: &str, i: usize, pat: &str) -> (r: bool)
    requires
        i <= s@.len(),
    ensures
        r <==> (i + pat@.len() <= s@.len() && s@.subrange(i as int, i + pat@.len()) == pat@),
{
    let n: usize = s.unicode_len();
    let m: usize = pat.unicode_len();
    if m > n - i {
        return false;
    }
    let mut j: usize = 0;
    while j < m
        invariant
            j <= m,
            i + m <= n,
            n == s@.len(),
            m == pat@.len(),
            forall|p: int| 0 <= p < j ==> s@[i + p] == pat@[p],
        decreases m - j,
    {
        if s.get_char(i + j) != pat.get_char(j) {
            proof {
                assert(s@.subrange(i as int, i + pat@.len())[j as int] == s@[i + j]);
            }
            return false;
        }
        j += 1;
    }
    proof {
        assert(s@.subrange(i as int, i + pat@.len()) =~= pat@);
    }
    true
}

/// Read one complete string field starting at position `i`; returns the
/// decoded text and the position just after the closing quote. The result
/// is exactly what the specification scanner says.
fn read_string(s: &str, i: usize) -> (r: Option<(String, usize)>)
    requires
        i <= s@.len(),
    ensures
        r matches Some(p) ==> i < s@.len() && s@[i as int] == '"' && scan_string(
            s@,
            i + 1,
            Seq::<char>::empty(),
        ) == Some((p.0@, p.1 as int)) && i < p.1 <= s@.len() && s@.subrange(i as int, p.1 as int)
            == json_string(p.0@) && encodable(p.0@),
        r is None ==> i >= s@.len() || s@[i as int] != '"' || scan_string(
            s@,
            i + 1,
            Seq::<char>::empty(),
        ) is None,
{
    let n: usize = s.unicode_len();
    if i >= n || s.get_char(i) != '"' {
        return None;
    }
    let mut out: String = String::new();
    let mut j: usize = i + 1;
    loop
        invariant
            i + 1 <= j <= n,
            i < n,
            n == s@.len(),
            s@[i as int] == '"',
            scan_string(s@, i + 1, Seq::<char>::empty()) == scan_string(s@, j as int, out@),
        decreases n - j,
    {
        if j >= n {
            proof {
                assert(scan_string(s@, j as int, out@) is None);
            }
            return None;
        }
        let c: char = s.get_char(j);
        if c == '"' {
            let end: usize = j + 1;
            proof {
                assert(scan_string(s@, j as int, out@) == Some((out@, j + 1)));
                lemma_scan_string_sound(s@, i + 1, Seq::<char>::empty());
                assert(encodable(Seq::<char>::empty()));
                lemma_scan_string_encodable(s@, i + 1, Seq::<char>::empty());
                assert(out@.skip(0) =~= out@);
                assert(s@.subrange(i + 1, end as int) == escaped(out@) + seq!['"']);
                assert(s@.subrange(i as int, end as int) =~= seq!['"'] + (escaped(out@)
                    + seq!['"'])) by {
                    assert forall|p: int| 0 <= p < end - i implies #[trigger] s@.subrange(
                        i as int,
                        end as int,
                    )[p] == (seq!['"'] + (escaped(out@) + seq!['"']))[p] by {
                        assert(s@.subrange(i as int, end as int)[p] == s@[i + p]);
                        if p > 0 {
                            assert(s@[i + p] == s@.subrange(i + 1, end as int)[p - 1]);
                        }
                    }
                }
                assert(seq!['"'] + (escaped(out@) + seq!['"']) =~= json_string(out@));
            }
            return Some((out, end));
        } else if c == '\\' {
            if j + 1 >= n {
                proof {
                    assert(scan_string(s@, j as int, out@) is None);
                }
                return None;
            }
            let c2: char = s.get_char(j + 1);
            let decoded: Option<char> = if c2 == '"' {
                Some('"')
            } else if c2 == '\\' {
                Some('\\')
            } else if c2 == 'b' {
                Some('\u{8}')
            } else if c2 == 't' {
                Some('\t')
            } else if c2 == 'n' {
                Some('\n')
            } else if c2 == 'f' {
                Some('\u{c}')
            } else if c2 == 'r' {
                Some('\r')
            } else {
                None
            };
            match decoded {
                None => {
                    proof {
                        assert(scan_string(s@, j as int, out@) is None);
                    }
                    return None;
                },
                Some(d) => {
                    proof {
                        assert(scan_string(s@, j as int, out@) == scan_string(
                            s@,
                            j as int + 2,
                            out@.push(d),
                        ));
                    }
                    push_char(&mut out, d);
                    j += 2;
                },
            }
        } else if (c as u32) < 0x20 {
            proof {
                assert(scan_string(s@, j as int, out@) is None);
            }
            return None;
        } else {
            proof {
                assert(scan_string(s@, j as int, out@) == scan_string(
                    s@,
                    j as int + 1,
                    out@.push(c),
                ));
            }
            push_char(&mut out, c);
            j += 1;
        }
    }
}

/// Positions and contents of the pieces inside a whole template object.
proof fn lemma_template_parts(id: Seq<char>, content: Seq<char>, ts: int)
    ensures
        ({
            let t = template_json(id, content, ts);
            let b1 = 6 + json_string(id).len() as int;
            let b2 = b1 + 11;
            let b3 = b2 + json_string(content).len() as int;
            let b4 = b3 + 13;
            let b5 = b4 + json_int(ts).len() as int;
            &&& t.len() == b5 + 1
            &&& t.subrange(0, 6) == "{\"id\":"@
            &&& t.subrange(6, b1) == json_string(id)
            &&& t.subrange(b1, b2) == ",\"content\":"@
            &&& t.subrange(b2, b3) == json_string(content)
            &&& t.subrange(b3, b4) == ",\"timestamp\":"@
            &&& t.subrange(b4, b5) == json_int(ts)
            &&& t[b5] == '}'
        }),
{
    reveal_strlit("{\"id\":");
    reveal_strlit(",\"content\":");
    reveal_strlit(",\"timestamp\":");
    reveal_strlit("}");
    let t = template_json(id, content, ts);
    let b1 = 6 + json_string(id).len() as int;
    let b2 = b1 + 11;
    let b3 = b2 + json_string(content).len() as int;
    let b4 = b3 + 13;
    let b5 = b4 + json_int(ts).len() as int;
    assert("{\"id\":"@.len() == 6);
    assert(",\"content\":"@.len() == 11);
    assert(",\"timestamp\":"@.len() == 13);
    assert("}"@.len() == 1);
    assert(t.len() == b5 + 1);
    assert(t.subrange(0, 6) =~= "{\"id\":"@);
    assert(t.subrange(6, b1) =~= json_string(id));
    assert(t.subrange(b1, b2) =~= ",\"content\":"@);
    assert(t.subrange(b2, b3) =~= json_string(content));
    assert(t.subrange(b3, b4) =~= ",\"timestamp\":"@);
    assert(t.subrange(b4, b5) =~= json_int(ts));
    assert(t[b5] == "}"@[0]);
    assert("}"@[0] == '}');
}

/// Milestones that a whole template object fixes for the parser: every
/// literal is where the parser expects it, and each field scan succeeds
/// with exactly the field's value and end position.
proof fn lemma_parse_milestones(s: Seq<char>, id: Seq<char>, content: Seq<char>, ts: i64)
    requires
        encodable(id),
        encodable(content),
        s == template_json(id, content, ts as int),
    ensures
        ({
            let b1 = 6 + json_string(id).len() as int;
            let b2 = b1 + 11;
            let b3 = b2 + json_string(content).len() as int;
            let b4 = b3 + 13;
            let b5 = b4 + json_int(ts as int).len() as int;
            &&& s.len() == b5 + 1
            &&& s.subrange(0, 6) == "{\"id\":"@
            &&& s[6] == '"'
            &&& scan_string(s, 7, Seq::<char>::empty()) == Some((id, b1))
            &&& s.subrange(b1, b2) == ",\"content\":"@
            &&& s[b2] == '"'
            &&& scan_string(s, b2 + 1, Seq::<char>::empty()) == Some((content, b3))
            &&& s.subrange(b3, b4) == ",\"timestamp\":"@
            &&& s.subrange(b4, b5) == json_int(ts as int)
            &&& s[b5] == '}'
            &&& !is_digit(s[b5])
        }),
{
    lemma_template_parts(id, content, ts as int);
    let b1 = 6 + json_string(id).len() as int;
    let b2 = b1 + 11;
    let b3 = b2 + json_string(content).len() as int;
    let b4 = b3 + 13;
    let b5 = b4 + json_int(ts as int).len() as int;
    assert(s[6] == '"') by {
        assert(s.subrange(6, b1)[0] == s[6]);
        assert(json_string(id)[0] == '"');
    }
    assert(s.subrange(7, 7 + (escaped(id).len() as int + 1)) =~= escaped(id) + seq!['"']) by {
        assert(json_string(id).len() == escaped(id).len() + 2);
        assert forall|p: int| 0 <= p < escaped(id).len() + 1 implies #[trigger] s.subrange(
            7,
            7 + (escaped(id).len() as int + 1),
        )[p] == (escaped(id) + seq!['"'])[p] by {
            assert(s.subrange(7, 7 + (escaped(id).len() as int + 1))[p] == s[7 + p]);
            assert(s[7 + p] == s.subrange(6, b1)[1 + p]);
            assert(s.subrange(6, b1)[1 + p] == json_string(id)[1 + p]);
            assert(json_string(id)[1 + p] == (escaped(id) + seq!['"'])[p]);
        }
    }
    lemma_scan_string_complete(s, 7, Seq::<char>::empty(), id);
    assert(Seq::<char>::empty() + id =~= id);
    assert(s[b2] == '"') by {
        assert(s.subrange(b2, b3)[0] == s[b2]);
        assert(json_string(content)[0] == '"');
    }
    assert(s.subrange(b2 + 1, b2 + 1 + (escaped(content).len() as int + 1)) =~= escaped(content)
        + seq!['"']) by {
        assert(json_string(content).len() == escaped(content).len() + 2);
        assert forall|p: int| 0 <= p < escaped(content).len() + 1 implies #[trigger] s.subrange(
            b2 + 1,
            b2 + 1 + (escaped(content).len() as int + 1),
        )[p] == (escaped(content) + seq!['"'])[p] by {
            assert(s.subrange(b2 + 1, b2 + 1 + (escaped(content).len() as int + 1))[p] == s[b2 + (1
                + p)]);
            assert(s[b2 + (1 + p)] == s.subrange(b2, b3)[1 + p]);
            assert(s.subrange(b2, b3)[1 + p] == json_string(content)[1 + p]);
            assert(json_string(content)[1 + p] == (escaped(content) + seq!['"'])[p]);
        }
    }
    lemma_scan_string_complete(s, b2 + 1, Seq::<char>::empty(), content);
    assert(Seq::<char>::empty() + content =~= content);
    assert(!is_digit('}'));
}

/// Whether `t` is the wire text of some template message.
pub open spec fn is_template_wire(t: Seq<char>) -> bool {
    exists|id: Seq<char>, content: Seq<char>, ts: i64|
        encodable(id) && encodable(content) && t == #[trigger] template_json(
            id,
            content,
            ts as int,
        )
}

/// Two integer fields with the same wire text carry the same value.
proof fn lemma_json_int_injective(a: int, b: int)
    requires
        json_int(a) == json_int(b),
    ensures
        a == b,
{
    lemma_json_int_shape(a);
    lemma_json_int_shape(b);
    if a < 0 && b < 0 {
        assert(seq!['-'] + dec_digits(-a) == seq!['-'] + dec_digits(-b));
        assert(dec_digits(-a) =~= dec_digits(-b)) by {
            assert(forall|p: int|
                0 <= p < dec_digits(-a).len() ==> #[trigger] dec_digits(-a)[p] == (seq!['-']
                    + dec_digits(-a))[p + 1]);
            assert(forall|p: int|
                0 <= p < dec_digits(-b).len() ==> #[trigger] dec_digits(-b)[p] == (seq!['-']
                    + dec_digits(-b))[p + 1]);
        }
        lemma_num_val_of_dec(-a);
        lemma_num_val_of_dec(-b);
    } else if a >= 0 && b >= 0 {
        lemma_num_val_of_dec(a);
        lemma_num_val_of_dec(b);
    } else {
        assert(is_digit(json_int(a)[0]) == is_digit(json_int(b)[0]));
        assert(false);
    }
}

/// Law: the wire format is unambiguous — one wire text carries at most one
/// message, so whatever a reader decodes from a well-formed object is the
/// message that was encoded into it.
pub proof fn lemma_template_json_injective(
    id1: Seq<char>,
    content1: Seq<char>,
    ts1: i64,
    id2: Seq<char>,
    content2: Seq<char>,
    ts2: i64,
)
    requires
        encodable(id1),
        encodable(content1),
        encodable(id2),
        encodable(content2),
        template_json(id1, content1, ts1 as int) == template_json(id2, content2, ts2 as int),
    ensures
        id1 == id2,
        content1 == content2,
        ts1 == ts2,
{
    let s = template_json(id1, content1, ts1 as int);
    lemma_parse_milestones(s, id1, content1, ts1);
    lemma_parse_milestones(s, id2, content2, ts2);
    assert(id1 == id2);
    let b1 = 6 + json_string(id1).len() as int;
    let b2 = b1 + 11;
    assert(json_string(id1) == json_string(id2));
    assert(content1 == content2);
    let b3 = b2 + json_string(content1).len() as int;
    let b4 = b3 + 13;
    let e1 = b4 + json_int(ts1 as int).len() as int;
    let e2 = b4 + json_int(ts2 as int).len() as int;
    assert(s.len() == e1 + 1 && s.len() == e2 + 1);
    assert(e1 == e2);
    assert(json_int(ts1 as int) == s.subrange(b4, e1));
    assert(json_int(ts2 as int) == s.subrange(b4, e2));
    lemma_json_int_injective(ts1 as int, ts2 as int);
}

/// Parse one template message object. Succeeds exactly on the canonical
/// encoding of a message with encodable text fields, and then returns
/// exactly the encoded fields.
#[verifier::rlimit(60)]
pub fn parse_template(s: &str) -> (r: Option<(String, String, i64)>)
    ensures
        r matches Some(t) ==> s@ == template_json(t.0@, t.1@, t.2 as int) && encodable(t.0@)
            && encodable(t.1@),
        r is None ==> forall|id: Seq<char>, content: Seq<char>, ts: i64|
            encodable(id) && encodable(content) ==> s@ != #[trigger] template_json(
                id,
                content,
                ts as int,
            ),
{
    let n: usize = s.unicode_len();
    proof {
        reveal_strlit("{\"id\":");
        reveal_strlit(",\"content\":");
        reveal_strlit(",\"timestamp\":");
        reveal_strlit("}");
    }
    if !match_lit(s, 0, "{\"id\":") {
        proof {
            assert forall|id: Seq<char>, content: Seq<char>, ts: i64|
                encodable(id) && encodable(content) implies s@ != #[trigger] template_json(
                id,
                content,
                ts as int,
            ) by {
                if s@ == template_json(id, content, ts as int) {
                    lemma_parse_milestones(s@, id, content, ts);
                }
            }
        }
        return None;
    }
    let r1 = read_string(s, 6);
    let (id_s, q1): (String, usize) = match r1 {
        Some(p) => p,
        None => {
            proof {
                assert forall|id: Seq<char>, content: Seq<char>, ts: i64|
                    encodable(id) && encodable(content) implies s@ != #[trigger] template_json(
                    id,
                    content,
                    ts as int,
                ) by {
                    if s@ == template_json(id, content, ts as int) {
                        lemma_parse_milestones(s@, id, content, ts);
                    }
                }
            }
            return None;
        },
    };
    if !match_lit(s, q1, ",\"content\":") {
        proof {
            assert forall|id: Seq<char>, content: Seq<char>, ts: i64|
                encodable(id) && encodable(content) implies s@ != #[trigger] template_json(
                id,
                content,
                ts as int,
            ) by {
                if s@ == template_json(id, content, ts as int) {
                    lemma_parse_milestones(s@, id, content, ts);
                }
            }
        }
        return None;
    }
    let p2: usize = q1 + 11;
    let r2 = read_string(s, p2);
    let (content_s, q2): (String, usize) = match r2 {
        Some(p) => p,
        None => {
            proof {
                assert forall|id: Seq<char>, content: Seq<char>, ts: i64|
                    encodable(id) && encodable(content) implies s@ != #[trigger] template_json(
                    id,
                    content,
                    ts as int,
                ) by {
                    if s@ == template_json(id, content, ts as int) {
                        lemma_parse_milestones(s@, id, content, ts);
                    }
                }
            }
            return None;
        },
    };
    if !match_lit(s, q2, ",\"timestamp\":") {
        proof {
            assert forall|id: Seq<char>, content: Seq<char>, ts: i64|
                encodable(id) && encodable(content) implies s@ != #[trigger] template_json(
                id,
                content,
                ts as int,
            ) by {
                if s@ == template_json(id, content, ts as int) {
                    lemma_parse_milestones(s@, id, content, ts);
                }
            }
        }
        return None;
    }
    let p3: usize = q2 + 13;
    let r3 = read_int(s, p3);
    let (w, q3): (i64, usize) = match r3 {
        Some(p) => p,
        None => {
            proof {
                assert forall|id: Seq<char>, content: Seq<char>, ts: i64|
                    encodable(id) && encodable(content) implies s@ != #[trigger] template_json(
                    id,
                    content,
                    ts as int,
                ) by {
                    if s@ == template_json(id, content, ts as int) {
                        lemma_parse_milestones(s@, id, content, ts);
                    }
                }
            }
            return None;
        },
    };
    if q3 >= n || s.get_char(q3) != '}' || q3 + 1 != n {
        proof {
            assert forall|id: Seq<char>, content: Seq<char>, ts: i64|
                encodable(id) && encodable(content) implies s@ != #[trigger] template_json(
                id,
                content,
                ts as int,
            ) by {
                if s@ == template_json(id, content, ts as int) {
                    lemma_parse_milestones(s@, id, content, ts);
                }
            }
        }
        return None;
    }
    proof {
        let t = template_json(id_s@, content_s@, w as int);
        lemma_template_parts(id_s@, content_s@, w as int);
        let b1 = 6 + json_string(id_s@).len() as int;
        let b2 = b1 + 11;
        let b3 = b2 + json_string(content_s@).len() as int;
        let b4 = b3 + 13;
        let b5 = b4 + json_int(w as int).len() as int;
        assert(q1 == b1);
        assert(q2 == b3);
        assert(q3 == b5);
        assert(n == b5 + 1);
        assert(s@ =~= t) by {
            assert forall|p: int| 0 <= p < n implies s@[p] == t[p] by {
                if p < 6 {
                    assert(s@[p] == s@.subrange(0, 6)[p]);
                    assert(t[p] == t.subrange(0, 6)[p]);
                } else if p < b1 {
                    assert(s@[p] == s@.subrange(6, q1 as int)[p - 6]);
                    assert(t[p] == t.subrange(6, b1)[p - 6]);
                } else if p < b2 {
                    assert(s@[p] == s@.subrange(q1 as int, q1 + 11)[p - b1]);
                    assert(t[p] == t.subrange(b1, b2)[p - b1]);
                } else if p < b3 {
                    assert(s@[p] == s@.subrange(p2 as int, q2 as int)[p - b2]);
                    assert(t[p] == t.subrange(b2, b3)[p - b2]);
                } else if p < b4 {
                    assert(s@[p] == s@.subrange(q2 as int, q2 + 13)[p - b3]);
                    assert(t[p] == t.subrange(b3, b4)[p - b3]);
                } else if p < b5 {
                    assert(s@[p] == s@.subrange(p3 as int, q3 as int)[p - b4]);
                    assert(t[p] == t.subrange(b4, b5)[p - b4]);
                } else {
                    assert(p == b5);
                    assert(s@[p] == '}');
                    assert(t[p] == '}');
                }
            }
        }
    }
    Some((id_s, content_s, w))
}

/// Encode one template message; succeeds exactly when both text fields
/// can be carried by the format, and then yields exactly the canonical
/// object.
pub fn encode_template(id: &str, content: &str, timestamp: i64) -> (r: Option<String>)
    ensures
        r is Some <==> encodable(id@) && encodable(content@),
        r matches Some(s) ==> s@ == template_json(id@, content@, timestamp as int),
{
    if !check_encodable(id) || !check_encodable(content) {
        return None;
    }
    let mut out: String = String::from_str("{\"id\":");
    push_json_string(&mut out, id);
    out.append(",\"content\":");
    push_json_string(&mut out, content);
    out.append(",\"timestamp\":");
    push_json_int(&mut out, timestamp);
    out.append("}");
    proof {
        assert(out@ =~= template_json(id@, content@, timestamp as int));
    }
    Some(out)
}

} // verus!
