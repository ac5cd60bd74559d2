//! The session token's claims as JSON text: `{"sub":<string>,"exp":<number>}`,
//! written exactly as `serde_json` writes the claims record, and read back.

use vstd::prelude::*;
use crate::text::{chars_of, decimal, digit_char, push_char, push_decimal};

verus! {

/// Lower-case hexadecimal digit of `d < 16`.
pub open spec fn hex_lower(d: nat) -> char {
    if d < 10 {
        ((d + 48) as u8) as char
    } else {
        ((d + 87) as u8) as char
    }
}

/// How one character is written inside a JSON string: `"` and `\` are escaped,
/// the control characters get their short escape where JSON has one and
/// `\u00xx` otherwise; every other character stands as it is.
pub open spec fn json_escape_char(c: char) -> Seq<char> {
    if c == '"' {
        seq!['\\', '"']
    } else if c == '\\' {
        seq!['\\', '\\']
    } else if c == '\u{8}' {
        seq!['\\', 'b']
    } else if c == '\u{c}' {
        seq!['\\', 'f']
    } else if c == '\n' {
        seq!['\\', 'n']
    } else if c == '\r' {
        seq!['\\', 'r']
    } else if c == '\t' {
        seq!['\\', 't']
    } else if (c as u32) < 0x20 {
        seq!['\\', 'u', '0', '0', hex_lower((c as u32 / 16) as nat), hex_lower((c as u32 % 16) as nat)]
    } else {
        seq![c]
    }
}

/// The escaped body of a JSON string holding `s`.
pub open spec fn json_escape(s: Seq<char>) -> Seq<char>
    decreases s.len(),
{
    if s.len() == 0 {
        seq![]
    } else {
        json_escape_char(s[0]) + json_escape(s.drop_first())
    }
}

/// `{"sub":"`
pub open spec fn claims_head() -> Seq<char> {
    seq!['{', '"', 's', 'u', 'b', '"', ':', '"']
}

/// `","exp":`
pub open spec fn claims_middle() -> Seq<char> {
    seq!['"', ',', '"', 'e', 'x', 'p', '"', ':']
}

/// The JSON text of the claims `{ sub, exp }`.
pub open spec fn claims_json(sub: Seq<char>, exp: nat) -> Seq<char> {
    claims_head() + json_escape(sub) + claims_middle() + decimal(exp) + seq!['}']
}

// ---------------------------------------------------------------------------
// Writing

pub proof fn lemma_json_escape_append(a: Seq<char>, b: Seq<char>)
    ensures
        json_escape(a + b) == json_escape(a) + json_escape(b),
    decreases a.len(),
{
    if a.len() == 0 {
        assert(a + b == b);
    } else {
        assert((a + b).drop_first() == a.drop_first() + b);
        lemma_json_escape_append(a.drop_first(), b);
        assert((a + b)[0] == a[0]);
    }
}

proof fn lemma_json_escape_single(c: char)
    ensures
        json_escape(seq![c]) == json_escape_char(c),
{
    assert(seq![c].drop_first() == Seq::<char>::empty());
    assert(json_escape(Seq::<char>::empty()) == Seq::<char>::empty());
    assert(json_escape_char(c) + Seq::<char>::empty() == json_escape_char(c));
}

fn hex_lower_exec(d: u32) -> (c: char)
    requires
        d < 16,
    ensures
        c == hex_lower(d as nat),
{
    if d < 10 {
        ((d as u8) + 48u8) as char
    } else {
        ((d as u8) + 87u8) as char
    }
}

/// Appends the JSON escape of `c`.
fn push_escaped_char(s: &mut String, c: char)
    ensures
        final(s)@ == old(s)@ + json_escape_char(c),
{
    if c == '"' {
        push_char(s, '\\');
        push_char(s, '"');
    } else if c == '\\' {
        push_char(s, '\\');
        push_char(s, '\\');
    } else if c == '\u{8}' {
        push_char(s, '\\');
        push_char(s, 'b');
    } else if c == '\u{c}' {
        push_char(s, '\\');
        push_char(s, 'f');
    } else if c == '\n' {
        push_char(s, '\\');
        push_char(s, 'n');
    } else if c == '\r' {
        push_char(s, '\\');
        push_char(s, 'r');
    } else if c == '\t' {
        push_char(s, '\\');
        push_char(s, 't');
    } else if (c as u32) < 0x20 {
        let v: u32 = c as u32;
        push_char(s, '\\');
        push_char(s, 'u');
        push_char(s, '0');
        push_char(s, '0');
        let h1 = hex_lower_exec(v / 16);
        push_char(s, h1);
        let h2 = hex_lower_exec(v % 16);
        push_char(s, h2);
    } else {
        push_char(s, c);
    }
}

/// Appends the escaped body of a JSON string holding `t`.
pub fn push_json_escaped(s: &mut String, t: &str)
    ensures
        final(s)@ == old(s)@ + json_escape(t@),
{
    let v = chars_of(t);
    let mut i: usize = 0;
    while i < v.len()
        invariant
            i <= v@.len(),
            v@ == t@,
            s@ == old(s)@ + json_escape(v@.take(i as int)),
        decreases v@.len() - i,
    {
        proof {
            assert(v@.take(i + 1) == v@.take(i as int) + seq![v@[i as int]]);
            lemma_json_escape_append(v@.take(i as int), seq![v@[i as int]]);
            lemma_json_escape_single(v@[i as int]);
        }
        push_escaped_char(s, v[i]);
        i = i + 1;
    }
    assert(v@.take(v@.len() as int) == v@);
}

/// The claims text `{"sub":<sub>,"exp":<exp>}`, as `serde_json` writes the claims record.
pub fn claims_json_text(sub: &str, exp: usize) -> (res: String)
    ensures
        res@ == claims_json(sub@, exp as nat),
{
    let mut s = String::new();
    push_char(&mut s, '{');
    push_char(&mut s, '"');
    push_char(&mut s, 's');
    push_char(&mut s, 'u');
    push_char(&mut s, 'b');
    push_char(&mut s, '"');
    push_char(&mut s, ':');
    push_char(&mut s, '"');
    assert(s@ == claims_head());
    push_json_escaped(&mut s, sub);
    push_char(&mut s, '"');
    push_char(&mut s, ',');
    push_char(&mut s, '"');
    push_char(&mut s, 'e');
    push_char(&mut s, 'x');
    push_char(&mut s, 'p');
    push_char(&mut s, '"');
    push_char(&mut s, ':');
    assert(s@ == claims_head() + json_escape(sub@) + claims_middle());
    push_decimal(&mut s, exp);
    push_char(&mut s, '}');
    s
}

// ---------------------------------------------------------------------------
// Reading

/// Value of a lower-case hexadecimal digit.
pub open spec fn hex_value(c: char) -> Option<nat> {
    if 48 <= (c as u32) <= 57 {
        Some((c as u32 - 48) as nat)
    } else if 97 <= (c as u32) <= 102 {
        Some((c as u32 - 87) as nat)
    } else {
        None
    }
}

/// Reads one (possibly escaped) character of a JSON string body at `i`, accepting
/// only the form in which `json_escape_char` writes it; gives the character and
/// the index just past it.
pub open spec fn unescape_at(t: Seq<char>, i: int) -> Option<(char, int)> {
    if i < 0 || i >= t.len() {
        None
    } else if t[i] == '\\' {
        if i + 1 >= t.len() {
            None
        } else if t[i + 1] == '"' {
            Some(('"', i + 2))
        } else if t[i + 1] == '\\' {
            Some(('\\', i + 2))
        } else if t[i + 1] == 'b' {
            Some(('\u{8}', i + 2))
        } else if t[i + 1] == 'f' {
            Some(('\u{c}', i + 2))
        } else if t[i + 1] == 'n' {
            Some(('\n', i + 2))
        } else if t[i + 1] == 'r' {
            Some(('\r', i + 2))
        } else if t[i + 1] == 't' {
            Some(('\t', i + 2))
        } else if t[i + 1] == 'u' && i + 5 < t.len() && t[i + 2] == '0' && t[i + 3] == '0' {
            match (hex_value(t[i + 4]), hex_value(t[i + 5])) {
                (Some(h1), Some(h2)) => {
                    let v = 16 * h1 + h2;
                    if h1 <= 1 && v != 8 && v != 9 && v != 10 && v != 12 && v != 13 {
                        Some(((v as u8) as char, i + 6))
                    } else {
                        None
                    }
                },
                _ => None,
            }
        } else {
            None
        }
    } else if t[i] == '"' || (t[i] as u32) < 0x20 {
        None
    } else {
        Some((t[i], i + 1))
    }
}

/// Reads a JSON string body starting at `i` up to its closing quote; gives the
/// characters read and the index of the closing quote.
pub open spec fn decode_string(t: Seq<char>, i: int) -> Option<(Seq<char>, int)>
    decreases t.len() - i,
{
    if i < 0 || i >= t.len() {
        None
    } else if t[i] == '"' {
        Some((seq![], i))
    } else {
        match unescape_at(t, i) {
            None => None,
            Some((c, k)) => if k <= i {
                None
            } else {
                match decode_string(t, k) {
                    None => None,
                    Some((r, j)) => Some((seq![c] + r, j)),
                }
            },
        }
    }
}

/// Digits only.
pub open spec fn all_digits(d: Seq<char>) -> bool {
    forall|i: int| 0 <= i < d.len() ==> 48 <= #[trigger] (d[i] as u32) <= 57
}

/// Decimal notation as `decimal` writes it: digits, no leading zero but for `0` itself.
pub open spec fn canonical_decimal(d: Seq<char>) -> bool {
    d.len() >= 1 && all_digits(d) && (d.len() == 1 || (d[0] as u32) != 48)
}

/// The number that a string of digits denotes.
pub open spec fn digits_value(d: Seq<char>) -> nat
    decreases d.len(),
{
    if d.len() == 0 {
        0
    } else {
        digits_value(d.drop_last()) * 10 + ((d.last() as u32) - 48) as nat
    }
}

/// Reads the claims text; the result is the `(sub, exp)` pair whose `claims_json`
/// the text is, when there is one and `exp` fits in `usize`.
pub open spec fn parse_claims_spec(t: Seq<char>) -> Option<(Seq<char>, nat)> {
    if !(claims_head().len() <= t.len() && t.take(8) == claims_head()) {
        None
    } else {
        match decode_string(t, 8) {
            None => None,
            Some((s, j)) => {
                let k = j + 8;
                let d = t.subrange(k, t.len() - 1);
                if k < t.len() && t.subrange(j, k) == claims_middle() && t.last() == '}'
                    && canonical_decimal(d) && digits_value(d) <= usize::MAX {
                    Some((s, digits_value(d)))
                } else {
                    None
                }
            },
        }
    }
}

proof fn lemma_hex_lower_value(d: nat)
    requires
        d < 16,
    ensures
        hex_value(hex_lower(d)) == Some(d),
{
}

proof fn lemma_hex_value_lower(c: char)
    requires
        hex_value(c) is Some,
    ensures
        hex_lower(hex_value(c)->0) == c,
{
}

proof fn lemma_small_char_code(c: char)
    requires
        (c as u32) < 0x20,
    ensures
        (((c as u32) as nat) as u8) as char == c,
{
}

/// Reading back the escape of one character gives that character.
proof fn lemma_unescape_char(t: Seq<char>, i: int, c: char)
    requires
        0 <= i,
        i + json_escape_char(c).len() <= t.len(),
        t.subrange(i, i + json_escape_char(c).len()) == json_escape_char(c),
    ensures
        unescape_at(t, i) == Some((c, i + json_escape_char(c).len())),
        t[i] != '"',
{
    let e = json_escape_char(c);
    let w = t.subrange(i, i + e.len());
    assert(t[i] == w[0]);
    if e.len() >= 2 {
        assert(t[i + 1] == w[1]);
    }
    if e.len() == 6 {
        assert(t[i + 2] == w[2]);
        assert(t[i + 3] == w[3]);
        assert(t[i + 4] == w[4]);
        assert(t[i + 5] == w[5]);
        let v = c as u32;
        lemma_hex_lower_value((v / 16) as nat);
        lemma_hex_lower_value((v % 16) as nat);
        lemma_small_char_code(c);
    }
}

/// What one step of reading accepts is the escape of the character it gives.
proof fn lemma_unescape_sound(t: Seq<char>, i: int)
    requires
        unescape_at(t, i) is Some,
    ensures
        unescape_at(t, i) matches Some((c, k)) && i < k <= t.len() && t.subrange(i, k)
            == json_escape_char(c),
        t[i] != '"',
{
    let (c, k) = unescape_at(t, i)->0;
    if t[i] == '\\' && t[i + 1] == 'u' {
        let h1 = hex_value(t[i + 4])->0;
        let h2 = hex_value(t[i + 5])->0;
        let v = 16 * h1 + h2;
        lemma_hex_value_lower(t[i + 4]);
        lemma_hex_value_lower(t[i + 5]);
        assert((c as u32) == v);
        assert((c as u32 / 16) as nat == h1);
        assert((c as u32 % 16) as nat == h2);
        assert(t.subrange(i, k) =~= json_escape_char(c));
    } else if t[i] == '\\' {
        assert(t.subrange(i, k) =~= json_escape_char(c));
    } else {
        assert(t.subrange(i, k) =~= json_escape_char(c));
    }
}

/// A string body written by `json_escape` and closed by a quote reads back as the string.
proof fn lemma_decode_complete(t: Seq<char>, i: int, s: Seq<char>)
    requires
        0 <= i,
        i + json_escape(s).len() < t.len(),
        t.subrange(i, i + json_escape(s).len()) == json_escape(s),
        t[i + json_escape(s).len()] == '"',
    ensures
        decode_string(t, i) == Some((s, i + json_escape(s).len())),
    decreases s.len(),
{
    if s.len() == 0 {
        assert(json_escape(s).len() == 0);
    } else {
        let c = s[0];
        let rest = s.drop_first();
        let e = json_escape_char(c);
        let n = json_escape(s).len();
        assert(json_escape(s) == e + json_escape(rest));
        assert(t.subrange(i, i + e.len()) == t.subrange(i, i + n).subrange(0, e.len() as int));
        assert(t.subrange(i, i + n).subrange(0, e.len() as int) == e);
        lemma_unescape_char(t, i, c);
        let k = i + e.len();
        assert(t.subrange(k, k + json_escape(rest).len()) == t.subrange(i, i + n).subrange(
            e.len() as int,
            n as int,
        ));
        assert(t.subrange(i, i + n).subrange(e.len() as int, n as int) == json_escape(rest));
        lemma_decode_complete(t, k, rest);
        assert(seq![c] + rest == s);
    }
}

/// What `decode_string` accepts is a `json_escape` body followed by a quote.
proof fn lemma_decode_sound(t: Seq<char>, i: int)
    requires
        decode_string(t, i) is Some,
    ensures
        decode_string(t, i) matches Some((r, j)) && i <= j < t.len() && t.subrange(i, j)
            == json_escape(r) && t[j] == '"',
    decreases t.len() - i,
{
    if t[i] == '"' {
        assert(t.subrange(i, i) =~= json_escape(Seq::<char>::empty()));
    } else {
        lemma_unescape_sound(t, i);
        let (c, k) = unescape_at(t, i)->0;
        lemma_decode_sound(t, k);
        let (r, j) = decode_string(t, k)->0;
        assert(t.subrange(i, j) =~= t.subrange(i, k) + t.subrange(k, j));
        let whole = seq![c] + r;
        assert(whole.drop_first() =~= r);
        assert(whole[0] == c);
        assert(json_escape(whole) == json_escape_char(c) + json_escape(r));
    }
}

proof fn lemma_digit_char_of(c: char)
    requires
        48 <= (c as u32) <= 57,
    ensures
        digit_char(((c as u32) - 48) as nat) == c,
{
    let x: nat = ((c as u32) - 48) as nat;
    assert(x + 48 == c as u32);
    assert(((x + 48) as u8) as u32 == c as u32);
}

proof fn lemma_all_digits_init(d: Seq<char>)
    requires
        d.len() >= 1,
        all_digits(d),
    ensures
        all_digits(d.drop_last()),
        48 <= (d.last() as u32) <= 57,
        digits_value(d) == digits_value(d.drop_last()) * 10 + ((d.last() as u32) - 48) as nat,
{
    let init = d.drop_last();
    assert forall|k: int| 0 <= k < init.len() implies 48 <= #[trigger] (init[k] as u32) <= 57 by {
        assert(init[k] == d[k]);
    }
    assert(48 <= (d[d.len() - 1] as u32) <= 57);
}

proof fn lemma_digits_value_positive(d: Seq<char>)
    requires
        d.len() >= 1,
        all_digits(d),
        (d[0] as u32) != 48,
    ensures
        digits_value(d) >= 1,
    decreases d.len(),
{
    lemma_all_digits_init(d);
    if d.len() > 1 {
        let init = d.drop_last();
        assert(init[0] == d[0]);
        lemma_digits_value_positive(init);
    } else {
        assert(d.last() == d[0]);
        assert(digits_value(d.drop_last()) == 0);
        assert((d.last() as u32) - 48 >= 1);
    }
}

/// `decimal` writes canonical digits that denote the number.
pub proof fn lemma_decimal_reads_back(n: nat)
    ensures
        canonical_decimal(decimal(n)),
        digits_value(decimal(n)) == n,
        n >= 1 ==> (decimal(n)[0] as u32) != 48,
    decreases n,
{
    let d = decimal(n);
    if n < 10 {
        assert(d.len() == 1);
        assert(d.drop_last().len() == 0);
        assert(d.last() == digit_char(n));
        assert((digit_char(n) as u32) == n + 48);
        assert(digits_value(d.drop_last()) == 0);
        assert(digits_value(d) == ((d.last() as u32) - 48) as nat);
    } else {
        lemma_decimal_reads_back(n / 10);
        let init = decimal(n / 10);
        assert(d == init.push(digit_char(n % 10)));
        assert(d.drop_last() =~= init);
        assert((digit_char(n % 10) as u32) == n % 10 + 48);
        assert(all_digits(d)) by {
            assert forall|k: int| 0 <= k < d.len() implies 48 <= #[trigger] (d[k] as u32)
                <= 57 by {
                if k < init.len() {
                    assert(d[k] == init[k]);
                }
            }
        }
        assert(d[0] == init[0]);
        lemma_all_digits_init(d);
        assert(d.last() == digit_char(n % 10));
        assert(n == (n / 10) * 10 + n % 10);
    }
}

/// Canonical digits are what `decimal` writes for the number they denote.
pub proof fn lemma_canonical_digits(d: Seq<char>)
    requires
        canonical_decimal(d),
    ensures
        decimal(digits_value(d)) == d,
    decreases d.len(),
{
    lemma_all_digits_init(d);
    let last = ((d.last() as u32) - 48) as nat;
    lemma_digit_char_of(d.last());
    if d.len() == 1 {
        assert(d.drop_last().len() == 0);
        assert(digits_value(d) == last);
        assert(decimal(last) =~= d);
    } else {
        let init = d.drop_last();
        assert(init[0] == d[0]);
        lemma_digits_value_positive(init);
        lemma_canonical_digits(init);
        let v = digits_value(init);
        assert(digits_value(d) == v * 10 + last);
        assert((v * 10 + last) / 10 == v);
        assert((v * 10 + last) % 10 == last);
        assert(decimal(digits_value(d)) == decimal(v).push(digit_char(last)));
        assert(init.push(d.last()) =~= d);
    }
}

/// Reading the claims text of `(sub, exp)` gives `(sub, exp)` back.
pub proof fn lemma_parse_claims_json(sub: Seq<char>, exp: nat)
    requires
        exp <= usize::MAX,
    ensures
        parse_claims_spec(claims_json(sub, exp)) == Some((sub, exp)),
{
    let t = claims_json(sub, exp);
    let e = json_escape(sub);
    let d = decimal(exp);
    let n: int = e.len() as int;
    assert(t == claims_head() + e + claims_middle() + d + seq!['}']);
    assert(t.take(8) =~= claims_head());
    assert(t.subrange(8, 8 + n) =~= e);
    assert(t[8 + n] == '"');
    lemma_decode_complete(t, 8, sub);
    let j: int = 8 + n;
    let k: int = j + 8;
    assert(t.subrange(j, k) =~= claims_middle());
    assert(t.subrange(k, t.len() - 1) =~= d);
    lemma_decimal_reads_back(exp);
}

/// Whatever the reading accepts is the claims text of what it gives.
pub proof fn lemma_claims_json_of_parse(t: Seq<char>)
    requires
        parse_claims_spec(t) is Some,
    ensures
        parse_claims_spec(t) matches Some((sub, exp)) && t == claims_json(sub, exp) && exp
            <= usize::MAX,
{
    lemma_decode_sound(t, 8);
    let (s, j) = decode_string(t, 8)->0;
    let k = j + 8;
    let d = t.subrange(k, t.len() - 1);
    lemma_canonical_digits(d);
    assert(t =~= t.take(8) + t.subrange(8, j) + t.subrange(j, k) + d + seq![t.last()]);
}

// ---------------------------------------------------------------------------
// Reading, executable

proof fn lemma_digits_value_prefix(d: Seq<char>, m: int)
    requires
        all_digits(d),
        0 <= m <= d.len(),
    ensures
        digits_value(d.take(m)) <= digits_value(d),
    decreases d.len(),
{
    if m < d.len() {
        lemma_all_digits_init(d);
        let init = d.drop_last();
        assert(init.take(m) =~= d.take(m));
        lemma_digits_value_prefix(init, m);
    } else {
        assert(d.take(m) =~= d);
    }
}

fn hex_value_exec(c: char) -> (r: Option<u32>)
    ensures
        match hex_value(c) {
            None => r is None,
            Some(h) => r == Some(h as u32),
        },
{
    let x = c as u32;
    if 48 <= x && x <= 57 {
        Some(x - 48)
    } else if 97 <= x && x <= 102 {
        Some(x - 87)
    } else {
        None
    }
}

fn unescape_exec(v: &Vec<char>, i: usize) -> (r: Option<(char, usize)>)
    ensures
        match unescape_at(v@, i as int) {
            None => r is None,
            Some((c, k)) => r matches Some((c2, k2)) && c2 == c && k2 == k,
        },
{
    if i >= v.len() {
        return None;
    }
    let c = v[i];
    if c == '\\' {
        if i + 1 >= v.len() {
            return None;
        }
        let e = v[i + 1];
        if e == '"' {
            Some(('"', i + 2))
        } else if e == '\\' {
            Some(('\\', i + 2))
        } else if e == 'b' {
            Some(('\u{8}', i + 2))
        } else if e == 'f' {
            Some(('\u{c}', i + 2))
        } else if e == 'n' {
            Some(('\n', i + 2))
        } else if e == 'r' {
            Some(('\r', i + 2))
        } else if e == 't' {
            Some(('\t', i + 2))
        } else if e == 'u' && v.len() - i > 5 && v[i + 2] == '0' && v[i + 3] == '0' {
            match (hex_value_exec(v[i + 4]), hex_value_exec(v[i + 5])) {
                (Some(h1), Some(h2)) => {
                    let code: u32 = 16 * h1 + h2;
                    if h1 <= 1 && code != 8 && code != 9 && code != 10 && code != 12 && code != 13 {
                        Some(((code as u8) as char, i + 6))
                    } else {
                        None
                    }
                },
                _ => None,
            }
        } else {
            None
        }
    } else if c == '"' || (c as u32) < 0x20 {
        None
    } else {
        Some((c, i + 1))
    }
}

/// Reads canonical decimal digits `v[from..to]` that fit in `usize`.
fn parse_digits(v: &Vec<char>, from: usize, to: usize) -> (r: Option<usize>)
    requires
        from <= to <= v@.len(),
    ensures
        ({
            let d = v@.subrange(from as int, to as int);
            if canonical_decimal(d) && digits_value(d) <= usize::MAX {
                r == Some(digits_value(d) as usize)
            } else {
                r is None
            }
        }),
{
    let ghost d = v@.subrange(from as int, to as int);
    if from == to {
        return None;
    }
    if to - from > 1 && (v[from] as u32) == 48 {
        assert(d[0] == v@[from as int]);
        return None;
    }
    let mut acc: usize = 0;
    let mut p: usize = from;
    while p < to
        invariant
            from <= p <= to <= v@.len(),
            d == v@.subrange(from as int, to as int),
            all_digits(d.take(p - from)),
            acc == digits_value(d.take(p - from)),
        decreases to - p,
    {
        let x = v[p] as u32;
        assert(d[p - from] == v@[p as int]);
        if x < 48 || x > 57 {
            assert(!all_digits(d));
            return None;
        }
        let dig: usize = (x - 48) as usize;
        let ghost pre = d.take(p - from);
        let ghost next = d.take(p - from + 1);
        proof {
            assert(next.drop_last() =~= pre);
            assert(next.last() == d[p - from]);
            assert(all_digits(next)) by {
                assert forall|k: int| 0 <= k < next.len() implies 48 <= #[trigger] (next[k] as u32)
                    <= 57 by {
                    if k < pre.len() {
                        assert(next[k] == pre[k]);
                    }
                }
            }
            lemma_all_digits_init(next);
        }
        if acc > (usize::MAX - dig) / 10 {
            proof {
                assert(acc * 10 + dig > usize::MAX) by (nonlinear_arith)
                    requires
                        acc > (usize::MAX - dig) / 10,
                        dig <= 9,
                ;
                if all_digits(d) {
                    lemma_digits_value_prefix(d, p - from + 1);
                }
            }
            return None;
        }
        assert(acc * 10 + dig <= usize::MAX) by (nonlinear_arith)
            requires
                acc <= (usize::MAX - dig) / 10,
                dig <= 9,
        ;
        acc = acc * 10 + dig;
        p = p + 1;
    }
    assert(d.take(to - from) =~= d);
    proof {
        if d.len() > 1 {
            assert(d[0] == v@[from as int]);
        }
    }
    Some(acc)
}

/// The `(sub, exp)` pair the token claims stand for, when the text is the claims
/// text of one (see `lemma_parse_claims_json` and `lemma_claims_json_of_parse`).
pub fn parse_claims_text(text: &str) -> (res: Option<(String, usize)>)
    ensures
        match parse_claims_spec(text@) {
            None => res is None,
            Some((sub, exp)) => res matches Some((s, e)) && s@ == sub && e as nat == exp,
        },
{
    let v = chars_of(text);
    let ghost t = v@;
    if v.len() < 8 || v[0] != '{' || v[1] != '"' || v[2] != 's' || v[3] != 'u' || v[4] != 'b'
        || v[5] != '"' || v[6] != ':' || v[7] != '"' {
        proof {
            if v.len() >= 8 {
                assert(t.take(8)[0] == t[0]);
                assert(t.take(8)[1] == t[1]);
                assert(t.take(8)[2] == t[2]);
                assert(t.take(8)[3] == t[3]);
                assert(t.take(8)[4] == t[4]);
                assert(t.take(8)[5] == t[5]);
                assert(t.take(8)[6] == t[6]);
                assert(t.take(8)[7] == t[7]);
            }
        }
        return None;
    }
    assert(t.take(8) =~= claims_head());
    let mut acc = String::new();
    let mut i: usize = 8;
    while i < v.len() && v[i] != '"'
        invariant
            8 <= i <= v@.len(),
            t == v@,
            t == text@,
            t.take(8) == claims_head(),
            decode_string(t, 8) == (match decode_string(t, i as int) {
                None => None,
                Some((r, j)) => Some((acc@ + r, j)),
            }),
        decreases v@.len() - i,
    {
        assert(t[i as int] != '"');
        match unescape_exec(&v, i) {
            None => {
                assert(decode_string(t, i as int) is None);
                assert(decode_string(t, 8) is None);
                return None;
            },
            Some((c, k)) => {
                let ghost old_acc = acc@;
                push_char(&mut acc, c);
                proof {
                    match decode_string(t, k as int) {
                        None => {},
                        Some((r, j)) => {
                            assert(old_acc + (seq![c] + r) =~= acc@ + r);
                        },
                    }
                }
                i = k;
            },
        }
    }
    if i >= v.len() {
        assert(decode_string(t, i as int) is None);
        assert(decode_string(t, 8) is None);
        return None;
    }
    assert(decode_string(t, i as int) == Some((Seq::<char>::empty(), i as int)));
    assert(acc@ + Seq::<char>::empty() == acc@);
    assert(decode_string(t, 8) == Some((acc@, i as int)));
    let j = i;
    if v.len() - j <= 8 || v[j + 1] != ',' || v[j + 2] != '"' || v[j + 3] != 'e' || v[j + 4]
        != 'x' || v[j + 5] != 'p' || v[j + 6] != '"' || v[j + 7] != ':' || v[v.len() - 1] != '}' {
        proof {
            let k = j + 8;
            if k < t.len() {
                let m = t.subrange(j as int, k as int);
                assert(m[1] == t[j + 1]);
                assert(m[2] == t[j + 2]);
                assert(m[3] == t[j + 3]);
                assert(m[4] == t[j + 4]);
                assert(m[5] == t[j + 5]);
                assert(m[6] == t[j + 6]);
                assert(m[7] == t[j + 7]);
            }
        }
        return None;
    }
    assert(t.subrange(j as int, j + 8) =~= claims_middle());
    match parse_digits(&v, j + 8, v.len() - 1) {
        None => None,
        Some(e) => Some((acc, e)),
    }
}

// ---------------------------------------------------------------------------
// Reading claims of any layout

/// The `(sub, exp)` that `serde_json` reads from a claims text as a JSON value:
/// the object's `sub` string and its `exp` as an unsigned integer that fits in
/// `usize`; `None` when the text is not JSON or lacks either.
pub uninterp spec fn serde_claims(text: Seq<char>) -> Option<(Seq<char>, nat)>;

/// Reads a claims text of any layout with `serde_json::from_str` into a
/// `serde_json::Value`, picking the `sub` string and the `exp` integer (converted
/// to `usize` when it fits). Claimed: the result is `serde_claims` of the text.
#[verifier::external_body]
fn read_claims_json(text: &str) -> (res: Option<(String, usize)>)
    ensures
        serde_claims(text@) == match res {
            Some((s, e)) => Some((s@, e as nat)),
            None => None,
        },
{
    let v: serde_json::Value = serde_json::from_str(text).ok()?;
    let sub = v.get("sub")?.as_str()?.to_string();
    let exp = usize::try_from(v.get("exp")?.as_u64()?).ok()?;
    Some((sub, exp))
}

/// What a claims text stands for: read as the exact text this service writes when
/// it is one, else as any JSON object with a `sub` string and an `exp` integer.
pub open spec fn claims_reading(text: Seq<char>) -> Option<(Seq<char>, nat)> {
    match parse_claims_spec(text) {
        Some(c) => Some(c),
        None => serde_claims(text),
    }
}

/// The `(sub, exp)` a claims text stands for.
pub fn read_claims(text: &str) -> (res: Option<(String, usize)>)
    ensures
        match claims_reading(text@) {
            None => res is None,
            Some((sub, exp)) => res matches Some((s, e)) && s@ == sub && e as nat == exp,
        },
{
    match parse_claims_text(text) {
        Some(c) => Some(c),
        None => read_claims_json(text),
    }
}

} // verus!
