//! Character-level building blocks of the wire format: whitespace, the
//! balanced-token scanner used to capture a parameter payload verbatim,
//! string escaping and unescaping, and decimal rendering and reading of
//! 64-bit identifiers.
//!
//! Specification functions consume a suffix of the line and return the
//! parsed value together with the remaining suffix; the executable
//! functions walk a character vector by index and are proved to agree
//! with them.

use vstd::prelude::*;

verus! {

/// Insignificant whitespace between tokens.
pub open spec fn is_ws(c: char) -> bool {
    c == ' ' || c == '\t' || c == '\n' || c == '\r'
}

/// A character that ends an unquoted token at nesting depth zero.
pub open spec fn is_token_end(c: char) -> bool {
    c == ',' || c == '}' || c == ']' || is_ws(c)
}

pub open spec fn is_digit(c: char) -> bool {
    0x30 <= (c as u32) && (c as u32) <= 0x39
}

pub open spec fn digit_val(c: char) -> u64 {
    ((c as u32) - 0x30) as u64
}

pub open spec fn digit_char(d: u64) -> char {
    ((d + 0x30) as u8) as char
}

/// The suffix of `s` that remains once leading whitespace is dropped.
pub open spec fn spec_skip_ws(s: Seq<char>) -> Seq<char>
    decreases s.len(),
{
    if s.len() > 0 && is_ws(s[0]) {
        spec_skip_ws(s.drop_first())
    } else {
        s
    }
}

pub proof fn lemma_skip_ws_len(s: Seq<char>)
    ensures
        spec_skip_ws(s).len() <= s.len(),
    decreases s.len(),
{
    if s.len() > 0 && is_ws(s[0]) {
        lemma_skip_ws_len(s.drop_first());
    }
}

pub open spec fn cons_token(c: char, r: Option<(Seq<char>, Seq<char>)>) -> Option<
    (Seq<char>, Seq<char>),
> {
    match r {
        Some((t, rem)) => Some((seq![c] + t, rem)),
        None => None,
    }
}

/// Scans one value token: a string, a number or literal word, or a
/// bracketed group with balanced braces and brackets. Returns the token
/// and the rest of the input. The token ends at an unquoted comma,
/// closing delimiter or whitespace at depth zero, at the delimiter that
/// closes the outermost group, at the quote that closes an outermost
/// string, or at the end of the input.
pub open spec fn spec_scan(s: Seq<char>, depth: nat, in_str: bool, esc: bool) -> Option<
    (Seq<char>, Seq<char>),
>
    decreases s.len(),
{
    if s.len() == 0 {
        if depth == 0 && !in_str {
            Some((Seq::empty(), Seq::empty()))
        } else {
            None
        }
    } else {
        let c = s[0];
        let rest = s.drop_first();
        if in_str {
            if esc {
                cons_token(c, spec_scan(rest, depth, true, false))
            } else if c == '\\' {
                cons_token(c, spec_scan(rest, depth, true, true))
            } else if c == '"' {
                if depth == 0 {
                    Some((seq![c], rest))
                } else {
                    cons_token(c, spec_scan(rest, depth, false, false))
                }
            } else {
                cons_token(c, spec_scan(rest, depth, true, false))
            }
        } else if depth == 0 && is_token_end(c) {
            Some((Seq::empty(), s))
        } else if c == '"' {
            cons_token(c, spec_scan(rest, depth, true, false))
        } else if c == '{' || c == '[' {
            cons_token(c, spec_scan(rest, (depth + 1) as nat, false, false))
        } else if c == '}' || c == ']' {
            if depth == 1 {
                Some((seq![c], rest))
            } else {
                cons_token(c, spec_scan(rest, (depth - 1) as nat, false, false))
            }
        } else {
            cons_token(c, spec_scan(rest, depth, false, false))
        }
    }
}

/// Scanning a whole value from rest position.
pub open spec fn spec_scan_token(s: Seq<char>) -> Option<(Seq<char>, Seq<char>)> {
    spec_scan(s, 0, false, false)
}

/// A sequence that forms exactly one non-empty value token on its own.
pub open spec fn is_value_token(p: Seq<char>) -> bool {
    p.len() > 0 && spec_scan_token(p) == Some((p, Seq::<char>::empty()))
}

/// The scanner splits its input: the token and the rest rebuild it.
pub proof fn lemma_scan_split(s: Seq<char>, depth: nat, in_str: bool, esc: bool)
    ensures
        spec_scan(s, depth, in_str, esc) matches Some((t, r)) ==> s == t + r,
    decreases s.len(),
{
    if s.len() > 0 {
        let rest = s.drop_first();
        lemma_scan_split(rest, depth, true, false);
        lemma_scan_split(rest, depth, true, true);
        lemma_scan_split(rest, depth, false, false);
        lemma_scan_split(rest, (depth + 1) as nat, false, false);
        if depth >= 1 {
            lemma_scan_split(rest, (depth - 1) as nat, false, false);
        }
        match spec_scan(s, depth, in_str, esc) {
            Some((t, r)) => {
                assert(s =~= seq![s[0]] + rest);
                assert(s =~= t + r);
            },
            None => {},
        }
    } else {
        assert(s =~= Seq::<char>::empty() + Seq::<char>::empty());
    }
}

/// Appending input that starts with a token terminator does not change
/// the token the scanner finds.
pub proof fn lemma_scan_extend(s: Seq<char>, ext: Seq<char>, depth: nat, in_str: bool, esc: bool)
    requires
        spec_scan(s, depth, in_str, esc) is Some,
        ext.len() > 0 ==> is_token_end(ext[0]),
    ensures
        spec_scan(s + ext, depth, in_str, esc) == cons_rest(spec_scan(s, depth, in_str, esc), ext),
    decreases s.len(),
{
    if s.len() == 0 {
        assert(s + ext =~= ext);
        if ext.len() == 0 {
            assert(spec_scan(s + ext, depth, in_str, esc) == Some(
                (Seq::<char>::empty(), Seq::<char>::empty()),
            ));
            assert(Seq::<char>::empty() + ext =~= Seq::<char>::empty());
        } else {
            assert(Seq::<char>::empty() + ext =~= ext);
        }
    } else {
        let c = s[0];
        let rest = s.drop_first();
        assert((s + ext)[0] == c);
        assert((s + ext).drop_first() =~= rest + ext);
        assert(s.drop_first() + ext =~= (s + ext).drop_first());
        if in_str {
            if esc {
                lemma_scan_extend(rest, ext, depth, true, false);
            } else if c == '\\' {
                lemma_scan_extend(rest, ext, depth, true, true);
            } else if c == '"' {
                if depth == 0 {
                } else {
                    lemma_scan_extend(rest, ext, depth, false, false);
                }
            } else {
                lemma_scan_extend(rest, ext, depth, true, false);
            }
        } else if depth == 0 && is_token_end(c) {
            assert(Seq::<char>::empty() + s + ext =~= s + ext);
        } else if c == '"' {
            lemma_scan_extend(rest, ext, depth, true, false);
        } else if c == '{' || c == '[' {
            lemma_scan_extend(rest, ext, (depth + 1) as nat, false, false);
        } else if c == '}' || c == ']' {
            if depth == 1 {
            } else {
                lemma_scan_extend(rest, ext, (depth - 1) as nat, false, false);
            }
        } else {
            lemma_scan_extend(rest, ext, depth, false, false);
        }
    }
}

/// Pairs a scan result with appended input left unconsumed.
pub open spec fn cons_rest(r: Option<(Seq<char>, Seq<char>)>, ext: Seq<char>) -> Option<
    (Seq<char>, Seq<char>),
> {
    match r {
        Some((t, rem)) => Some((t, rem + ext)),
        None => None,
    }
}

/// A token found inside a longer input is a complete token on its own.
pub proof fn lemma_scan_prefix(s: Seq<char>, depth: nat, in_str: bool, esc: bool)
    ensures
        spec_scan(s, depth, in_str, esc) matches Some((t, r)) ==> spec_scan(t, depth, in_str, esc)
            == Some((t, Seq::<char>::empty())),
    decreases s.len(),
{
    if s.len() == 0 {
    } else {
        let c = s[0];
        let rest = s.drop_first();
        lemma_scan_prefix(rest, depth, true, false);
        lemma_scan_prefix(rest, depth, true, true);
        lemma_scan_prefix(rest, depth, false, false);
        lemma_scan_prefix(rest, (depth + 1) as nat, false, false);
        if depth >= 1 {
            lemma_scan_prefix(rest, (depth - 1) as nat, false, false);
        }
        match spec_scan(s, depth, in_str, esc) {
            Some((t, r)) => {
                if in_str && !esc && c == '"' && depth == 0 {
                    assert(t =~= seq![c]);
                    assert(t.drop_first() =~= Seq::<char>::empty());
                } else if !in_str && depth == 0 && is_token_end(c) {
                    assert(t =~= Seq::<char>::empty());
                } else if !in_str && (c == '}' || c == ']') && depth == 1 {
                    assert(t =~= seq![c]);
                    assert(t.drop_first() =~= Seq::<char>::empty());
                } else {
                    // a cons arm: t is the first character followed by the
                    // token of the recursive scan
                    let inner = spec_scan_inner(s, depth, in_str, esc);
                    assert(spec_scan(s, depth, in_str, esc) == cons_token(c, inner));
                    let (t2, r2) = inner->Some_0;
                    assert(t =~= seq![c] + t2);
                    assert(t.drop_first() =~= t2);
                    assert(t2 + Seq::<char>::empty() =~= t2);
                    assert(seq![c] + t2 + Seq::<char>::empty() =~= t);
                }
            },
            None => {},
        }
    }
}

/// The recursive scan a non-leaf arm delegates to.
pub open spec fn spec_scan_inner(s: Seq<char>, depth: nat, in_str: bool, esc: bool) -> Option<
    (Seq<char>, Seq<char>),
>
    recommends
        s.len() > 0,
{
    let c = s[0];
    let rest = s.drop_first();
    if in_str {
        if esc {
            spec_scan(rest, depth, true, false)
        } else if c == '\\' {
            spec_scan(rest, depth, true, true)
        } else {
            spec_scan(rest, depth, if c == '"' { false } else { true }, false)
        }
    } else if c == '"' {
        spec_scan(rest, depth, true, false)
    } else if c == '{' || c == '[' {
        spec_scan(rest, (depth + 1) as nat, false, false)
    } else if c == '}' || c == ']' {
        spec_scan(rest, (depth - 1) as nat, false, false)
    } else {
        spec_scan(rest, depth, false, false)
    }
}

/// The character an escape introducer stands for; the simple escapes of
/// the wire format only. A `u` escape is refused: method names and
/// identifiers are carried literally, and the codec rejects lines that
/// need code-point escapes rather than guess at surrogate handling.
pub open spec fn spec_unescape_char(c: char) -> Option<char> {
    if c == '"' {
        Some('"')
    } else if c == '\\' {
        Some('\\')
    } else if c == '/' {
        Some('/')
    } else if c == 'b' {
        Some('\u{8}')
    } else if c == 'f' {
        Some('\u{c}')
    } else if c == 'n' {
        Some('\n')
    } else if c == 'r' {
        Some('\r')
    } else if c == 't' {
        Some('\t')
    } else {
        None
    }
}

/// Reads the body of a quoted string, after its opening quote, up to and
/// including its closing quote: the unescaped text and the remaining
/// input. Unescaped control characters and unknown escapes are refused.
pub open spec fn spec_string_body(s: Seq<char>) -> Option<(Seq<char>, Seq<char>)>
    decreases s.len(),
{
    if s.len() == 0 {
        None
    } else {
        let c = s[0];
        if c == '"' {
            Some((Seq::empty(), s.drop_first()))
        } else if c == '\\' {
            if s.len() < 2 {
                None
            } else {
                match spec_unescape_char(s[1]) {
                    Some(u) => cons_token(u, spec_string_body(s.drop_first().drop_first())),
                    None => None,
                }
            }
        } else if (c as u32) < 0x20 {
            None
        } else {
            cons_token(c, spec_string_body(s.drop_first()))
        }
    }
}

/// Reads one quoted string from the front of the input.
pub open spec fn spec_parse_string(s: Seq<char>) -> Option<(Seq<char>, Seq<char>)> {
    if s.len() > 0 && s[0] == '"' {
        spec_string_body(s.drop_first())
    } else {
        None
    }
}

pub open spec fn hex_char(d: u32) -> char {
    if d < 10 {
        ((d + 0x30) as u8) as char
    } else {
        ((d + 0x57) as u8) as char
    }
}

/// A control character the simple escapes cannot express; it would need
/// a code-point escape, which the decoder refuses.
pub open spec fn needs_code_point_escape(c: char) -> bool {
    (c as u32) < 0x20 && c != '\u{8}' && c != '\u{c}' && c != '\n' && c != '\r' && c != '\t'
}

/// The escaped form of one character on the wire.
pub open spec fn spec_escape_char(c: char) -> Seq<char> {
    if c == '"' {
        seq!['\\', '"']
    } else if c == '\\' {
        seq!['\\', '\\']
    } else if c == '\u{8}' {
        seq!['\\', 'b']
    } else if c == '\u{c}' {
        seq!['\\', 'f']
    } else if c == '\n' {
        seq!['\\', 'n']
    } else if c == '\r' {
        seq!['\\', 'r']
    } else if c == '\t' {
        seq!['\\', 't']
    } else if (c as u32) < 0x20 {
        seq!['\\', 'u', '0', '0', hex_char((c as u32) / 16), hex_char((c as u32) % 16)]
    } else {
        seq![c]
    }
}

/// The escaped form of a whole string, without the surrounding quotes.
pub open spec fn spec_escape(s: Seq<char>) -> Seq<char>
    decreases s.len(),
{
    if s.len() == 0 {
        Seq::empty()
    } else {
        spec_escape_char(s[0]) + spec_escape(s.drop_first())
    }
}

/// Law: unescaping inverts escaping. Reading an escaped string followed
/// by its closing quote yields the original text and leaves the rest of
/// the input untouched, for every string free of characters that would
/// need a code-point escape.
pub proof fn lemma_string_round_trip(m: Seq<char>, rest: Seq<char>)
    requires
        forall|i: int| 0 <= i < m.len() ==> !needs_code_point_escape(m[i]),
    ensures
        spec_string_body(spec_escape(m) + seq!['"'] + rest) == Some((m, rest)),
    decreases m.len(),
{
    if m.len() == 0 {
        assert(spec_escape(m) + seq!['"'] + rest =~= seq!['"'] + rest);
        assert((seq!['"'] + rest)[0] == '"');
        assert((seq!['"'] + rest).drop_first() =~= rest);
    } else {
        let c = m[0];
        let tail = m.drop_first();
        lemma_string_round_trip(tail, rest);
        let whole = spec_escape(m) + seq!['"'] + rest;
        let after = spec_escape(tail) + seq!['"'] + rest;
        assert(spec_escape(m) == spec_escape_char(c) + spec_escape(tail));
        if c == '"' || c == '\\' || c == '\u{8}' || c == '\u{c}' || c == '\n' || c == '\r' || c
            == '\t' {
            assert(spec_escape_char(c).len() == 2);
            assert(whole =~= seq![spec_escape_char(c)[0], spec_escape_char(c)[1]] + after);
            assert(whole[0] == '\\');
            assert(whole.len() >= 2);
            assert(spec_unescape_char(whole[1]) == Some(c));
            assert(whole.drop_first().drop_first() =~= after);
            assert(seq![c] + tail =~= m);
        } else {
            assert(!((c as u32) < 0x20));
            assert(spec_escape_char(c) =~= seq![c]);
            assert(whole =~= seq![c] + after);
            assert(whole[0] == c);
            assert(whole.drop_first() =~= after);
            assert(seq![c] + tail =~= m);
        }
    }
}

/// The decimal digits of `n`, most significant first.
pub open spec fn spec_u64_digits(n: u64) -> Seq<char>
    decreases n,
{
    if n < 10 {
        seq![digit_char(n)]
    } else {
        spec_u64_digits(n / 10).push(digit_char(n % 10))
    }
}

/// The value of a non-empty run of decimal digits, or `None` where a
/// character is not a digit or the value exceeds 64 bits.
pub open spec fn spec_digits_value(s: Seq<char>) -> Option<u64>
    decreases s.len(),
{
    if s.len() == 0 {
        None
    } else if !is_digit(s.last()) {
        None
    } else if s.len() == 1 {
        Some(digit_val(s[0]))
    } else {
        match spec_digits_value(s.drop_last()) {
            Some(v) => if v <= (u64::MAX - digit_val(s.last())) / 10 {
                Some((v * 10 + digit_val(s.last())) as u64)
            } else {
                None
            },
            None => None,
        }
    }
}

/// Law: reading the decimal rendering of an identifier gives the
/// identifier back.
pub proof fn lemma_digits_round_trip(n: u64)
    ensures
        spec_digits_value(spec_u64_digits(n)) == Some(n),
    decreases n,
{
    if n < 10 {
        assert(digit_val(digit_char(n)) == n);
        assert(is_digit(digit_char(n)));
    } else {
        lemma_digits_round_trip(n / 10);
        let d = n % 10;
        let ds = spec_u64_digits(n);
        assert(d < 10);
        assert(is_digit(digit_char(d)));
        assert(digit_val(digit_char(d)) == d);
        assert(ds.last() == digit_char(d));
        assert(ds.drop_last() =~= spec_u64_digits(n / 10));
        assert(ds.len() >= 2) by {
            lemma_u64_digits_len(n / 10);
        }
        assert(n / 10 * 10 + n % 10 == n) by (nonlinear_arith);
        assert(n / 10 <= (u64::MAX - d) / 10) by (nonlinear_arith)
            requires
                d == n % 10,
                n / 10 * 10 + d == n,
        ;
    }
}

pub proof fn lemma_u64_digits_len(n: u64)
    ensures
        spec_u64_digits(n).len() >= 1,
        forall|i: int| 0 <= i < spec_u64_digits(n).len() ==> is_digit(#[trigger] spec_u64_digits(n)[i]),
    decreases n,
{
    if n < 10 {
        assert(is_digit(digit_char(n)));
    } else {
        lemma_u64_digits_len(n / 10);
        let d = n % 10;
        assert(is_digit(digit_char(d)));
    }
}

/// A run of digits followed by input that starts with a terminator scans
/// as one token: exactly the digits.
pub proof fn lemma_scan_digits(ds: Seq<char>, rest: Seq<char>)
    requires
        ds.len() > 0,
        forall|i: int| 0 <= i < ds.len() ==> is_digit(#[trigger] ds[i]),
        rest.len() > 0 ==> is_token_end(rest[0]),
    ensures
        spec_scan_token(ds + rest) == Some((ds, rest)),
    decreases ds.len(),
{
    let c = ds[0];
    assert(is_digit(c));
    assert(!is_token_end(c) && c != '"' && c != '{' && c != '[' && c != '}' && c != ']' && c
        != '\\') by {
        assert(0x30 <= (c as u32) <= 0x39);
    }
    let whole = ds + rest;
    assert(whole[0] == c);
    if ds.len() == 1 {
        assert(whole.drop_first() =~= rest);
        if rest.len() == 0 {
            assert(spec_scan(rest, 0, false, false) == Some(
                (Seq::<char>::empty(), Seq::<char>::empty()),
            ));
            assert(seq![c] + Seq::<char>::empty() =~= ds);
            assert(rest =~= Seq::<char>::empty());
        } else {
            assert(spec_scan(rest, 0, false, false) == Some((Seq::<char>::empty(), rest)));
            assert(seq![c] + Seq::<char>::empty() =~= ds);
        }
    } else {
        assert(forall|i: int|
            0 <= i < ds.drop_first().len() ==> is_digit(#[trigger] ds.drop_first()[i]));
        lemma_scan_digits(ds.drop_first(), rest);
        assert(whole.drop_first() =~= ds.drop_first() + rest);
        assert(seq![c] + ds.drop_first() =~= ds);
    }
}

/// What reading a string yields can always be escaped back: the simple
/// escapes cover every character the reader lets through.
pub proof fn lemma_string_body_wellformed(s: Seq<char>)
    ensures
        spec_string_body(s) matches Some((m, rem)) ==> forall|i: int|
            0 <= i < m.len() ==> !needs_code_point_escape(#[trigger] m[i]),
    decreases s.len(),
{
    if s.len() > 0 {
        let c = s[0];
        if c == '"' {
        } else if c == '\\' {
            if s.len() >= 2 {
                lemma_string_body_wellformed(s.drop_first().drop_first());
                match spec_unescape_char(s[1]) {
                    Some(u) => {
                        assert(!needs_code_point_escape(u));
                        match spec_string_body(s.drop_first().drop_first()) {
                            Some((m2, rem2)) => {
                                let m = seq![u] + m2;
                                assert forall|i: int| 0 <= i < m.len() implies
                                    !needs_code_point_escape(#[trigger] m[i]) by {
                                    if i > 0 {
                                        assert(m[i] == m2[i - 1]);
                                    }
                                }
                            },
                            None => {},
                        }
                    },
                    None => {},
                }
            }
        } else if (c as u32) < 0x20 {
        } else {
            lemma_string_body_wellformed(s.drop_first());
            match spec_string_body(s.drop_first()) {
                Some((m2, rem2)) => {
                    let m = seq![c] + m2;
                    assert forall|i: int| 0 <= i < m.len() implies !needs_code_point_escape(
                        #[trigger] m[i],
                    ) by {
                        if i > 0 {
                            assert(m[i] == m2[i - 1]);
                        }
                    }
                },
                None => {},
            }
        }
    }
}

/// A character that keeps the scanner in its plain-word step: no
/// terminator, no quote, no delimiter, at any depth outside a string.
pub open spec fn is_word_char(c: char) -> bool {
    !is_token_end(c) && c != '"' && c != '{' && c != '[' && c != '}' && c != ']'
}

/// A run of word characters followed by input that starts with a
/// terminator scans as one token: exactly the run.
pub proof fn lemma_scan_word(w: Seq<char>, rest: Seq<char>)
    requires
        w.len() > 0,
        forall|i: int| 0 <= i < w.len() ==> is_word_char(#[trigger] w[i]),
        rest.len() > 0 ==> is_token_end(rest[0]),
    ensures
        spec_scan_token(w + rest) == Some((w, rest)),
    decreases w.len(),
{
    let c = w[0];
    assert(is_word_char(c));
    let whole = w + rest;
    assert(whole[0] == c);
    if w.len() == 1 {
        assert(whole.drop_first() =~= rest);
        if rest.len() == 0 {
            assert(spec_scan(rest, 0, false, false) == Some(
                (Seq::<char>::empty(), Seq::<char>::empty()),
            ));
            assert(seq![c] + Seq::<char>::empty() =~= w);
            assert(rest =~= Seq::<char>::empty());
        } else {
            assert(spec_scan(rest, 0, false, false) == Some((Seq::<char>::empty(), rest)));
            assert(seq![c] + Seq::<char>::empty() =~= w);
        }
    } else {
        assert(forall|i: int|
            0 <= i < w.drop_first().len() ==> is_word_char(#[trigger] w.drop_first()[i]));
        lemma_scan_word(w.drop_first(), rest);
        assert(whole.drop_first() =~= w.drop_first() + rest);
        assert(seq![c] + w.drop_first() =~= w);
    }
}

/// The suffix of `s` from position `i` on.
pub open spec fn suffix(s: Seq<char>, i: int) -> Seq<char> {
    s.subrange(i, s.len() as int)
}

/// Relies on String::push: appends exactly the given character.
#[verifier::external_body]
pub fn push_char(s: &mut String, c: char)
    ensures
        final(s)@ == old(s)@.push(c),
{
    s.push(c);
}

/// The characters of a string slice, one vector element per character.
pub fn str_to_chars(s: &str) -> (v: Vec<char>)
    ensures
        v@ == s@,
{
    let n = s.unicode_len();
    let mut v: Vec<char> = Vec::new();
    let mut i: usize = 0;
    while i < n
        invariant
            i <= n,
            n == s@.len(),
            v@ == s@.subrange(0, i as int),
        decreases n - i,
    {
        let c = s.get_char(i);
        v.push(c);
        assert(v@ =~= s@.subrange(0, i as int + 1));
        i = i + 1;
    }
    assert(v@ =~= s@);
    v
}

/// The text of `v` between `from` and `to`, as an owned string.
pub fn chars_to_string(v: &Vec<char>, from: usize, to: usize) -> (r: String)
    requires
        from <= to <= v@.len(),
    ensures
        r@ == v@.subrange(from as int, to as int),
{
    let mut r = String::new();
    let mut i = from;
    while i < to
        invariant
            from <= i <= to <= v@.len(),
            r@ == v@.subrange(from as int, i as int),
        decreases to - i,
    {
        push_char(&mut r, v[i]);
        assert(r@ =~= v@.subrange(from as int, i as int + 1));
        i = i + 1;
    }
    r
}

pub fn is_ws_exec(c: char) -> (b: bool)
    ensures
        b == is_ws(c),
{
    c == ' ' || c == '\t' || c == '\n' || c == '\r'
}

pub fn is_token_end_exec(c: char) -> (b: bool)
    ensures
        b == is_token_end(c),
{
    c == ',' || c == '}' || c == ']' || is_ws_exec(c)
}

/// The first position at or after `i` that holds no whitespace.
pub fn skip_ws(v: &Vec<char>, i: usize) -> (j: usize)
    requires
        i <= v@.len(),
    ensures
        i <= j <= v@.len(),
        suffix(v@, j as int) == spec_skip_ws(suffix(v@, i as int)),
    decreases v@.len() - i,
{
    let n = v.len();
    let mut j = i;
    while j < n && is_ws_exec(v[j])
        invariant
            i <= j <= n,
            n == v@.len(),
            spec_skip_ws(suffix(v@, i as int)) == spec_skip_ws(suffix(v@, j as int)),
        decreases n - j,
    {
        proof {
            assert(suffix(v@, j as int).drop_first() =~= suffix(v@, j as int + 1));
        }
        j = j + 1;
    }
    j
}

/// Scans one value token starting at `i`; returns the position just
/// past it, in agreement with the token scanner of the specification.
pub fn scan_token(v: &Vec<char>, i: usize) -> (r: Option<usize>)
    requires
        i <= v@.len(),
    ensures
        match spec_scan_token(suffix(v@, i as int)) {
            Some((t, rem)) => r matches Some(j) && i <= j <= v@.len() && t == v@.subrange(
                i as int,
                j as int,
            ) && rem == suffix(v@, j as int),
            None => r is None,
        },
{
    let n = v.len();
    let mut j = i;
    let mut depth: usize = 0;
    let mut in_str = false;
    let mut esc = false;
    loop
        invariant
            i <= j <= n,
            n == v@.len(),
            depth <= j,
            esc ==> in_str,
            spec_scan_token(suffix(v@, i as int)) == scan_prefixed(
                v@,
                i as int,
                j as int,
                spec_scan(suffix(v@, j as int), depth as nat, in_str, esc),
            ),
        decreases n - j,
    {
        if j == n {
            if depth == 0 && !in_str {
                proof {
                    assert(suffix(v@, j as int) =~= Seq::<char>::empty());
                    assert(v@.subrange(i as int, j as int) + Seq::<char>::empty() =~= v@.subrange(
                        i as int,
                        j as int,
                    ));
                }
                return Some(j);
            } else {
                proof {
                    assert(suffix(v@, j as int) =~= Seq::<char>::empty());
                }
                return None;
            }
        }
        let c = v[j];
        let ghost s_j = suffix(v@, j as int);
        proof {
            assert(s_j[0] == c);
            assert(s_j.drop_first() =~= suffix(v@, j as int + 1));
        }
        // leaf arms of the scanner: the token ends here
        if in_str && !esc && c == '"' && depth == 0 {
            proof {
                assert(v@.subrange(i as int, j as int) + seq![c] =~= v@.subrange(
                    i as int,
                    j as int + 1,
                ));
            }
            return Some(j + 1);
        }
        if !in_str && depth == 0 && is_token_end_exec(c) {
            return Some(j);
        }
        if !in_str && (c == '}' || c == ']') && depth == 1 {
            proof {
                assert(v@.subrange(i as int, j as int) + seq![c] =~= v@.subrange(
                    i as int,
                    j as int + 1,
                ));
            }
            return Some(j + 1);
        }
        // step arms: one character is consumed
        let old_depth = depth;
        let old_in_str = in_str;
        let old_esc = esc;
        if in_str {
            if esc {
                esc = false;
            } else if c == '\\' {
                esc = true;
            } else if c == '"' {
                in_str = false;
            }
        } else if c == '"' {
            in_str = true;
        } else if c == '{' || c == '[' {
            depth = depth + 1;
        } else if c == '}' || c == ']' {
            depth = depth - 1;
        }
        proof {
            let inner = spec_scan(suffix(v@, j as int + 1), depth as nat, in_str, esc);
            assert(spec_scan(s_j, old_depth as nat, old_in_str, old_esc) == cons_token(c, inner));
            match inner {
                Some((t, rem)) => {
                    assert(v@.subrange(i as int, j as int) + (seq![c] + t) =~= v@.subrange(
                        i as int,
                        j as int + 1,
                    ) + t);
                },
                None => {},
            }
        }
        j = j + 1;
    }
}

/// A scan result seen from an earlier position: the part between `i`
/// and `j` already belongs to the token.
pub open spec fn scan_prefixed(s: Seq<char>, i: int, j: int, r: Option<(Seq<char>, Seq<char>)>) -> Option<
    (Seq<char>, Seq<char>),
>
    recommends
        0 <= i <= j <= s.len(),
{
    match r {
        Some((t, rem)) => Some((s.subrange(i, j) + t, rem)),
        None => None,
    }
}

/// Reads a quoted string starting at `i`: the unescaped text and the
/// position just past the closing quote.
pub fn parse_string(v: &Vec<char>, i: usize) -> (r: Option<(String, usize)>)
    requires
        i <= v@.len(),
    ensures
        match spec_parse_string(suffix(v@, i as int)) {
            Some((m, rem)) => r matches Some((ms, j)) && i <= j <= v@.len() && ms@ == m && rem
                == suffix(v@, j as int),
            None => r is None,
        },
{
    let n = v.len();
    if i == n || v[i] != '"' {
        return None;
    }
    let mut out = String::new();
    let mut j = i + 1;
    proof {
        assert(suffix(v@, i as int).drop_first() =~= suffix(v@, i as int + 1));
        match spec_string_body(suffix(v@, i as int + 1)) {
            Some((m, rem)) => {
                assert(Seq::<char>::empty() + m =~= m);
            },
            None => {},
        }
    }
    loop
        invariant
            i < j <= n,
            n == v@.len(),
            suffix(v@, i as int)[0] == '"',
            spec_parse_string(suffix(v@, i as int)) == string_prefixed(
                out@,
                spec_string_body(suffix(v@, j as int)),
            ),
        decreases n - j,
    {
        proof {
            assert(suffix(v@, i as int).drop_first() =~= suffix(v@, i as int + 1));
        }
        if j == n {
            proof {
                assert(suffix(v@, j as int) =~= Seq::<char>::empty());
            }
            return None;
        }
        let c = v[j];
        let ghost s_j = suffix(v@, j as int);
        proof {
            assert(s_j[0] == c);
            assert(s_j.drop_first() =~= suffix(v@, j as int + 1));
        }
        if c == '"' {
            proof {
                assert(out@ + Seq::<char>::empty() =~= out@);
            }
            return Some((out, j + 1));
        }
        if c == '\\' {
            if j + 1 == n {
                proof {
                    assert(s_j.len() < 2);
                }
                return None;
            }
            let e = v[j + 1];
            proof {
                assert(s_j[1] == e);
                assert(s_j.drop_first().drop_first() =~= suffix(v@, j as int + 2));
            }
            let u: char;
            if e == '"' {
                u = '"';
            } else if e == '\\' {
                u = '\\';
            } else if e == '/' {
                u = '/';
            } else if e == 'b' {
                u = '\u{8}';
            } else if e == 'f' {
                u = '\u{c}';
            } else if e == 'n' {
                u = '\n';
            } else if e == 'r' {
                u = '\r';
            } else if e == 't' {
                u = '\t';
            } else {
                return None;
            }
            proof {
                assert(spec_unescape_char(e) == Some(u));
                match spec_string_body(suffix(v@, j as int + 2)) {
                    Some((m2, rem2)) => {
                        assert(out@ + (seq![u] + m2) =~= out@.push(u) + m2);
                    },
                    None => {},
                }
            }
            push_char(&mut out, u);
            j = j + 2;
        } else if (c as u32) < 0x20 {
            return None;
        } else {
            proof {
                match spec_string_body(suffix(v@, j as int + 1)) {
                    Some((m2, rem2)) => {
                        assert(out@ + (seq![c] + m2) =~= out@.push(c) + m2);
                    },
                    None => {},
                }
            }
            push_char(&mut out, c);
            j = j + 1;
        }
    }
}

/// A partly read string: the text already unescaped, joined with what
/// the rest of the body yields.
pub open spec fn string_prefixed(done: Seq<char>, r: Option<(Seq<char>, Seq<char>)>) -> Option<
    (Seq<char>, Seq<char>),
> {
    match r {
        Some((m, rem)) => Some((done + m, rem)),
        None => None,
    }
}

/// The value of the digits between `from` and `to`, in agreement with
/// the digit reader of the specification.
pub fn digits_value(v: &Vec<char>, from: usize, to: usize) -> (r: Option<u64>)
    requires
        from <= to <= v@.len(),
    ensures
        r == spec_digits_value(v@.subrange(from as int, to as int)),
{
    if from == to {
        return None;
    }
    let c0 = v[from];
    if !(c0 as u32 >= 0x30 && c0 as u32 <= 0x39) {
        proof {
            lemma_digits_value_none(v@.subrange(from as int, to as int));
        }
        return None;
    }
    let mut acc: u64 = (c0 as u32 - 0x30) as u64;
    let mut i = from + 1;
    while i < to
        invariant
            from < i <= to <= v@.len(),
            is_digit(v@[from as int]),
            spec_digits_value(v@.subrange(from as int, i as int)) == Some(acc),
        decreases to - i,
    {
        let c = v[i];
        let ghost pre = v@.subrange(from as int, i as int);
        let ghost cur = v@.subrange(from as int, i as int + 1);
        proof {
            assert(cur.drop_last() =~= pre);
            assert(cur.last() == c);
            assert(cur.len() >= 2);
        }
        if !(c as u32 >= 0x30 && c as u32 <= 0x39) {
            proof {
                assert(spec_digits_value(cur) is None);
                assert(v@.subrange(from as int, to as int).subrange(0, i - from + 1) =~= cur);
                lemma_digits_value_tail_none(v@.subrange(from as int, to as int), i - from + 1);
            }
            return None;
        }
        let d = (c as u32 - 0x30) as u64;
        if acc > (u64::MAX - d) / 10 {
            proof {
                assert(spec_digits_value(cur) is None);
                assert(v@.subrange(from as int, to as int).subrange(0, i - from + 1) =~= cur);
                lemma_digits_value_tail_none(v@.subrange(from as int, to as int), i - from + 1);
            }
            return None;
        }
        acc = acc * 10 + d;
        i = i + 1;
    }
    proof {
        assert(v@.subrange(from as int, i as int) =~= v@.subrange(from as int, to as int));
    }
    Some(acc)
}

/// A digit run whose first character is no digit has no value.
proof fn lemma_digits_value_none(s: Seq<char>)
    requires
        s.len() > 0,
        !is_digit(s[0]),
    ensures
        spec_digits_value(s) is None,
    decreases s.len(),
{
    if s.len() > 1 {
        assert(s.drop_last()[0] == s[0]);
        lemma_digits_value_none(s.drop_last());
    }
}

/// Once a prefix of the digits has no value, the whole run has none.
proof fn lemma_digits_value_tail_none(s: Seq<char>, k: int)
    requires
        0 < k <= s.len(),
        spec_digits_value(s.subrange(0, k)) is None,
    ensures
        spec_digits_value(s) is None,
    decreases s.len() - k,
{
    if k == s.len() {
        assert(s.subrange(0, k) =~= s);
    } else {
        assert(s.subrange(0, k + 1).drop_last() =~= s.subrange(0, k));
        lemma_digits_value_tail_none(s, k + 1);
    }
}

pub fn digit_char_exec(d: u64) -> (c: char)
    requires
        d < 10,
    ensures
        c == digit_char(d),
{
    ((d + 0x30) as u8) as char
}

/// A character the escaper passes through unchanged.
pub open spec fn is_plain_char(c: char) -> bool {
    c != '"' && c != '\\' && (c as u32) >= 0x20
}

/// Text of plain characters is its own escaped form.
pub proof fn lemma_escape_plain(s: Seq<char>)
    requires
        forall|i: int| 0 <= i < s.len() ==> is_plain_char(#[trigger] s[i]),
    ensures
        spec_escape(s) == s,
    decreases s.len(),
{
    if s.len() > 0 {
        assert(is_plain_char(s[0]));
        lemma_escape_plain(s.drop_first());
        assert(spec_escape_char(s[0]) =~= seq![s[0]]);
        assert(seq![s[0]] + s.drop_first() =~= s);
    }
}

/// Escaping one character more extends the escaped text by its escape.
pub proof fn lemma_escape_snoc(s: Seq<char>, c: char)
    ensures
        spec_escape(s.push(c)) == spec_escape(s) + spec_escape_char(c),
    decreases s.len(),
{
    if s.len() == 0 {
        assert(s.push(c)[0] == c);
        assert(s.push(c).drop_first() =~= Seq::<char>::empty());
        assert(spec_escape(s.push(c)) == spec_escape_char(c) + spec_escape(Seq::<char>::empty()));
        assert(spec_escape_char(c) + Seq::<char>::empty() =~= spec_escape_char(c));
        assert(Seq::<char>::empty() + spec_escape_char(c) =~= spec_escape_char(c));
    } else {
        assert(s.push(c)[0] == s[0]);
        assert(s.push(c).drop_first() =~= s.drop_first().push(c));
        lemma_escape_snoc(s.drop_first(), c);
        assert(spec_escape(s.push(c)) == spec_escape_char(s[0]) + spec_escape(
            s.drop_first().push(c),
        ));
        assert(spec_escape(s) == spec_escape_char(s[0]) + spec_escape(s.drop_first()));
        assert(spec_escape_char(s[0]) + (spec_escape(s.drop_first()) + spec_escape_char(c)) =~= (
        spec_escape_char(s[0]) + spec_escape(s.drop_first())) + spec_escape_char(c));
    }
}

pub fn hex_char_exec(d: u32) -> (c: char)
    requires
        d < 16,
    ensures
        c == hex_char(d),
{
    if d < 10 {
        ((d + 0x30) as u8) as char
    } else {
        ((d + 0x57) as u8) as char
    }
}

/// Appends the escaped form of `s` to `out`.
pub fn push_escaped(s: &str, out: &mut String)
    ensures
        final(out)@ == old(out)@ + spec_escape(s@),
{
    let v = str_to_chars(s);
    let n = v.len();
    proof {
        assert(s@.subrange(0, 0) =~= Seq::<char>::empty());
        assert(old(out)@ + Seq::<char>::empty() =~= old(out)@);
    }
    let mut i: usize = 0;
    while i < n
        invariant
            i <= n,
            n == v@.len(),
            v@ == s@,
            out@ == old(out)@ + spec_escape(s@.subrange(0, i as int)),
        decreases n - i,
    {
        let c = v[i];
        let ghost pre = out@;
        proof {
            assert(s@.subrange(0, i as int + 1) =~= s@.subrange(0, i as int).push(c));
            lemma_escape_snoc(s@.subrange(0, i as int), c);
        }
        if c == '"' {
            push_char(out, '\\');
            push_char(out, '"');
            assert(pre.push('\\').push('"') =~= pre + spec_escape_char(c));
        } else if c == '\\' {
            push_char(out, '\\');
            push_char(out, '\\');
            assert(pre.push('\\').push('\\') =~= pre + spec_escape_char(c));
        } else if c == '\u{8}' {
            push_char(out, '\\');
            push_char(out, 'b');
            assert(pre.push('\\').push('b') =~= pre + spec_escape_char(c));
        } else if c == '\u{c}' {
            push_char(out, '\\');
            push_char(out, 'f');
            assert(pre.push('\\').push('f') =~= pre + spec_escape_char(c));
        } else if c == '\n' {
            push_char(out, '\\');
            push_char(out, 'n');
            assert(pre.push('\\').push('n') =~= pre + spec_escape_char(c));
        } else if c == '\r' {
            push_char(out, '\\');
            push_char(out, 'r');
            assert(pre.push('\\').push('r') =~= pre + spec_escape_char(c));
        } else if c == '\t' {
            push_char(out, '\\');
            push_char(out, 't');
            assert(pre.push('\\').push('t') =~= pre + spec_escape_char(c));
        } else if (c as u32) < 0x20 {
            let code = c as u32;
            push_char(out, '\\');
            push_char(out, 'u');
            push_char(out, '0');
            push_char(out, '0');
            push_char(out, hex_char_exec(code / 16));
            push_char(out, hex_char_exec(code % 16));
            assert(pre.push('\\').push('u').push('0').push('0').push(hex_char(code / 16)).push(
                hex_char(code % 16),
            ) =~= pre + spec_escape_char(c));
        } else {
            push_char(out, c);
            assert(pre.push(c) =~= pre + spec_escape_char(c));
        }
        proof {
            assert(out@ =~= old(out)@ + spec_escape(s@.subrange(0, i as int + 1)));
        }
        i = i + 1;
    }
    proof {
        assert(s@.subrange(0, n as int) =~= s@);
    }
}

/// Appends the decimal digits of `n` to `out`.
pub fn push_u64_digits(n: u64, out: &mut String)
    ensures
        final(out)@ == old(out)@ + spec_u64_digits(n),
    decreases n,
{
    if n < 10 {
        push_char(out, digit_char_exec(n));
        assert(old(out)@.push(digit_char(n)) =~= old(out)@ + spec_u64_digits(n));
    } else {
        push_u64_digits(n / 10, out);
        push_char(out, digit_char_exec(n % 10));
        assert(old(out)@ + spec_u64_digits(n / 10) + seq![digit_char(n % 10)] =~= old(out)@
            + spec_u64_digits(n));
    }
}

} // verus!
