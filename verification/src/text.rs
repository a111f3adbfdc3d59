//! Character classes and string helpers shared by the lexers and the matcher.
use vstd::prelude::*;

verus! {

/// The characters of a string slice, in order.
pub fn chars_of(s: &str) -> (v: Vec<char>)
    ensures
        v@ == s@,
{
    let mut v: Vec<char> = Vec::new();
    broadcast use vstd::string::axiom_spec_iter;
    for c in it: s.chars()
        invariant
            v@ == it.seq().take(it.index()),
            it.seq() == s@,
    {
        v.push(c);
    }
    v
}

} // verus!

verus! {

/// Appends one character to a string.
/// Trusted: `String::push` appends `c` at the end and changes nothing else.
#[verifier::external_body]
pub fn push_char(s: &mut String, c: char)
    ensures
        final(s)@ == old(s)@.push(c),
{
    s.push(c);
}

/// A string holding the characters `cs[from..to]`.
pub fn string_of(cs: &Vec<char>, from: usize, to: usize) -> (s: String)
    requires
        from <= to <= cs.len(),
    ensures
        s@ == cs@.subrange(from as int, to as int),
{
    let mut s = String::new();
    let mut i = from;
    while i < to
        invariant
            from <= i <= to <= cs.len(),
            s@ == cs@.subrange(from as int, i as int),
        decreases to - i,
    {
        push_char(&mut s, cs[i]);
        assert(cs@.subrange(from as int, i + 1) == cs@.subrange(from as int, i as int).push(cs@[i as int]));
        i += 1;
    }
    s
}

/// Whether `c` is an ASCII decimal digit.
pub open spec fn is_digit_spec(c: char) -> bool {
    '0' <= c <= '9'
}

/// Whether `c` is an ASCII letter.
pub open spec fn is_alpha_spec(c: char) -> bool {
    ('a' <= c <= 'z') || ('A' <= c <= 'Z')
}

/// Whether `c` is an ASCII letter or digit.
pub open spec fn is_alnum_spec(c: char) -> bool {
    is_alpha_spec(c) || is_digit_spec(c)
}

/// Whether `c` has the Unicode White_Space property (what `char::is_whitespace` tests).
pub open spec fn is_whitespace_spec(c: char) -> bool {
    ('\u{9}' <= c <= '\u{d}') || c == ' ' || c == '\u{85}' || c == '\u{a0}' || c == '\u{1680}'
        || ('\u{2000}' <= c <= '\u{200a}') || c == '\u{2028}' || c == '\u{2029}' || c == '\u{202f}'
        || c == '\u{205f}' || c == '\u{3000}'
}

/// Whether `c` has the Unicode Alphabetic property (what `char::is_alphabetic` tests).
pub uninterp spec fn alphabetic(c: char) -> bool;

/// Whether `c` is alphabetic or numeric in Unicode (what `char::is_alphanumeric` tests).
pub uninterp spec fn alphanumeric(c: char) -> bool;

/// Whether `c` is a letter as `char::is_alphabetic` tells: below 0x80 an
/// ASCII letter, above it the Unicode Alphabetic property.
pub open spec fn letter(c: char) -> bool {
    if (c as u32) < 128 {
        is_alpha_spec(c)
    } else {
        alphabetic(c)
    }
}

/// Whether `c` is a letter or digit as `char::is_alphanumeric` tells: below
/// 0x80 an ASCII letter or digit, above it Unicode Alphabetic or Numeric.
pub open spec fn letter_or_digit(c: char) -> bool {
    if (c as u32) < 128 {
        is_alnum_spec(c)
    } else {
        alphanumeric(c)
    }
}

/// Trusted: `char::is_alphabetic` answers from Unicode's Alphabetic property
/// of `c` alone. Below 0x80 exactly the ASCII letters have that property;
/// the tables for the other characters are not stated here.
#[verifier::external_body]
pub fn is_alphabetic(c: char) -> (r: bool)
    ensures
        r == alphabetic(c),
        (c as u32) < 128 ==> (r <==> is_alpha_spec(c)),
{
    c.is_alphabetic()
}

/// Trusted: `char::is_alphanumeric` answers from Unicode's Alphabetic and
/// Numeric properties of `c` alone: it holds of every alphabetic character,
/// and below 0x80 exactly of the ASCII letters and digits; the tables for
/// the other characters are not stated here.
#[verifier::external_body]
pub fn is_alphanumeric(c: char) -> (r: bool)
    ensures
        r == alphanumeric(c),
        alphabetic(c) ==> r,
        (c as u32) < 128 ==> (r <==> is_alnum_spec(c)),
{
    c.is_alphanumeric()
}

pub fn is_digit(c: char) -> (r: bool)
    ensures
        r == is_digit_spec(c),
{
    '0' <= c && c <= '9'
}

pub fn is_alpha(c: char) -> (r: bool)
    ensures
        r == is_alpha_spec(c),
{
    ('a' <= c && c <= 'z') || ('A' <= c && c <= 'Z')
}

pub fn is_alnum(c: char) -> (r: bool)
    ensures
        r == is_alnum_spec(c),
{
    is_alpha(c) || is_digit(c)
}

pub fn is_whitespace(c: char) -> (r: bool)
    ensures
        r == is_whitespace_spec(c),
{
    ('\u{9}' <= c && c <= '\u{d}') || c == ' ' || c == '\u{85}' || c == '\u{a0}' || c == '\u{1680}'
        || ('\u{2000}' <= c && c <= '\u{200a}') || c == '\u{2028}' || c == '\u{2029}' || c
        == '\u{202f}' || c == '\u{205f}' || c == '\u{3000}'
}

} // verus!

verus! {

/// The decimal digits of `u`.
pub open spec fn digits_of(u: nat) -> Seq<char>
    decreases u,
{
    if u < 10 {
        seq![digit_char(u)]
    } else {
        digits_of(u / 10).push(digit_char(u % 10))
    }
}

/// The character of a decimal digit.
pub open spec fn digit_char(d: nat) -> char {
    (('0' as nat) + d) as char
}

/// The decimal representation of an integer, with a leading `-` when negative.
pub open spec fn decimal(n: int) -> Seq<char> {
    if n < 0 {
        seq!['-'] + digits_of((-n) as nat)
    } else {
        digits_of(n as nat)
    }
}

fn digit_of(d: u64) -> (c: char)
    requires
        d < 10,
    ensures
        c == digit_char(d as nat),
{
    if d == 0 { '0' } else if d == 1 { '1' } else if d == 2 { '2' } else if d == 3 { '3' } else if d
        == 4 { '4' } else if d == 5 { '5' } else if d == 6 { '6' } else if d == 7 { '7' } else if d
        == 8 { '8' } else { '9' }
}

fn u64_digits(u: u64) -> (s: String)
    ensures
        s@ == digits_of(u as nat),
    decreases u,
{
    if u < 10 {
        let mut s = String::new();
        push_char(&mut s, digit_of(u));
        assert(s@ =~= digits_of(u as nat));
        s
    } else {
        let mut s = u64_digits(u / 10);
        push_char(&mut s, digit_of(u % 10));
        s
    }
}

/// The decimal representation of `n`.
pub fn i64_to_string(n: i64) -> (s: String)
    ensures
        s@ == decimal(n as int),
{
    if n < 0 {
        let u: u64 = if n == i64::MIN {
            9223372036854775808u64
        } else {
            (-n) as u64
        };
        let mut s = String::new();
        push_char(&mut s, '-');
        let d = u64_digits(u);
        s.append(d.as_str());
        assert(s@ =~= seq!['-'] + digits_of((-(n as int)) as nat));
        s
    } else {
        u64_digits(n as u64)
    }
}

/// The text `format!("{:?}", s)` produces for a string: quoted, with escapes.
pub uninterp spec fn str_debug(s: Seq<char>) -> Seq<char>;

/// The quoted, escaped form of a string.
/// Trusted: `format!("{:?}", s)` on a `&str` yields Rust's `Debug` text for it,
/// which depends on `s` alone; its exact escaping is not stated here.
#[verifier::external_body]
pub fn debug_str(s: &str) -> (r: String)
    ensures
        r@ == str_debug(s@),
{
    format!("{:?}", s)
}

} // verus!

verus! {

/// The contents of a list of strings.
pub open spec fn strings_view(v: Seq<String>) -> Seq<Seq<char>> {
    v.map_values(|s: String| s@)
}

/// `s` without one pair of surrounding double quotes, when it has them.
pub open spec fn unquoted(s: Seq<char>) -> Seq<char> {
    if s.len() >= 2 && s[0] == '"' && s[s.len() - 1] == '"' {
        s.subrange(1, s.len() - 1)
    } else {
        s
    }
}

/// Strips surrounding double quotes from a string literal token.
pub fn strip_quotes(s: &str) -> (r: String)
    ensures
        r@ == unquoted(s@),
{
    let cs = chars_of(s);
    let n = cs.len();
    if n >= 2 && cs[0] == '"' && cs[n - 1] == '"' {
        string_of(&cs, 1, n - 1)
    } else {
        let r = string_of(&cs, 0, n);
        assert(cs@.subrange(0, n as int) =~= cs@);
        r
    }
}

/// The index of the first `::` at or after `k`.
pub open spec fn first_sep(s: Seq<char>, k: int) -> Option<int>
    decreases s.len() - k,
{
    if k < 0 || k + 1 >= s.len() {
        None
    } else if s[k] == ':' && s[k + 1] == ':' {
        Some(k)
    } else {
        first_sep(s, k + 1)
    }
}

/// The pieces of `s[start..]` between `::` separators, as `str::split("::")` yields them.
pub open spec fn split_from(s: Seq<char>, start: int) -> Seq<Seq<char>>
    decreases s.len() - start,
{
    match first_sep(s, start) {
        None => seq![s.subrange(start, s.len() as int)],
        Some(i) => if 0 <= start <= i && i + 2 <= s.len() {
            seq![s.subrange(start, i)] + split_from(s, i + 2)
        } else {
            Seq::empty()
        },
    }
}

/// The pieces of `s` between `::` separators.
pub open spec fn split_path(s: Seq<char>) -> Seq<Seq<char>> {
    split_from(s, 0)
}

/// Splits `s` on every `::`.
pub fn split_double_colon(s: &str) -> (parts: Vec<String>)
    ensures
        strings_view(parts@) == split_path(s@),
{
    let cs = chars_of(s);
    let n = cs.len();
    let mut parts: Vec<String> = Vec::new();
    let mut start: usize = 0;
    let mut j: usize = 0;
    assert(strings_view(parts@) + split_from(cs@, 0) =~= split_from(cs@, 0));
    while n > 0 && j < n - 1
        invariant
            start <= j <= n,
            n == cs.len(),
            cs@ == s@,
            split_from(cs@, 0) == strings_view(parts@) + split_from(cs@, start as int),
            first_sep(cs@, start as int) == first_sep(cs@, j as int),
        decreases n - j,
    {
        if cs[j] == ':' && cs[j + 1] == ':' {
            let piece = string_of(&cs, start, j);
            let ghost before = parts@;
            parts.push(piece);
            assert(strings_view(parts@) =~= strings_view(before).push(piece@));
            assert(split_from(cs@, 0) =~= strings_view(parts@) + split_from(cs@, j + 2));
            start = j + 2;
            j = start;
        } else {
            j += 1;
        }
    }
    let last = string_of(&cs, start, n);
    let ghost before = parts@;
    parts.push(last);
    assert(strings_view(parts@) =~= strings_view(before).push(last@));
    assert(split_from(cs@, start as int) =~= seq![last@]);
    assert(strings_view(parts@) =~= split_from(cs@, 0));
    parts
}

} // verus!

verus! {

/// The decimal representation of `n`.
pub fn u64_to_string(n: u64) -> (s: String)
    ensures
        s@ == decimal(n as int),
{
    u64_digits(n)
}

/// The decimal representation of `n`.
pub fn usize_to_string(n: usize) -> (s: String)
    ensures
        s@ == decimal(n as int),
{
    u64_digits(n as u64)
}

} // verus!

verus! {

/// The pieces of `s` between occurrences of `c`, as `str::split(c)` yields
/// them: at least one, empty pieces included.
pub open spec fn split_char(s: Seq<char>, c: char) -> Seq<Seq<char>>
    decreases s.len(),
{
    if s.len() == 0 {
        seq![Seq::empty()]
    } else {
        let init = split_char(s.drop_last(), c);
        if s.last() == c {
            init.push(Seq::empty())
        } else {
            init.update(init.len() - 1, init.last().push(s.last()))
        }
    }
}

pub proof fn lemma_split_char_len(s: Seq<char>, c: char)
    ensures
        split_char(s, c).len() >= 1,
    decreases s.len(),
{
    if s.len() > 0 {
        lemma_split_char_len(s.drop_last(), c);
    }
}

/// Splits `s` on every occurrence of `c`.
pub fn split_on_char(s: &str, c: char) -> (parts: Vec<String>)
    ensures
        strings_view(parts@) == split_char(s@, c),
{
    let cs = chars_of(s);
    let mut parts: Vec<String> = Vec::new();
    let mut cur = String::new();
    let mut i: usize = 0;
    assert(cs@.take(0) =~= Seq::<char>::empty());
    assert(strings_view(parts@).push(cur@) =~= split_char(cs@.take(0), c));
    while i < cs.len()
        invariant
            i <= cs.len(),
            cs@ == s@,
            strings_view(parts@).push(cur@) == split_char(cs@.take(i as int), c),
        decreases cs.len() - i,
    {
        let ch = cs[i];
        assert(cs@.take(i + 1).drop_last() =~= cs@.take(i as int));
        assert(cs@.take(i + 1).last() == ch);
        proof {
            lemma_split_char_len(cs@.take(i as int), c);
        }
        if ch == c {
            let ghost before = parts@;
            let done = cur;
            parts.push(done);
            cur = String::new();
            assert(strings_view(parts@) =~= strings_view(before).push(done@));
            assert(strings_view(parts@).push(cur@) =~= split_char(cs@.take(i + 1), c));
        } else {
            let ghost before = cur@;
            push_char(&mut cur, ch);
            assert(strings_view(parts@).push(cur@) =~= split_char(cs@.take(i + 1), c));
        }
        i += 1;
    }
    assert(cs@.take(i as int) =~= cs@);
    let ghost before = parts@;
    parts.push(cur);
    assert(strings_view(parts@) =~= strings_view(before).push(parts@.last()@));
    parts
}

/// What `str::to_lowercase` yields for a string.
pub uninterp spec fn lowercase(s: Seq<char>) -> Seq<char>;

/// The lowercase form of a string.
/// Trusted: `str::to_lowercase` maps each character to its Unicode lowercase
/// mapping; the result depends on `s` alone. The mapping is not stated here.
#[verifier::external_body]
pub fn to_lowercase(s: &str) -> (r: String)
    ensures
        r@ == lowercase(s@),
{
    s.to_lowercase()
}

/// A lowercase hexadecimal digit.
pub open spec fn hex_digit(d: nat) -> char {
    if d < 10 {
        (('0' as nat) + d) as char
    } else {
        (('a' as nat) + d - 10) as char
    }
}

/// How JSON writes one character inside a string literal: `"` and `\`
/// behind a backslash, the short escapes for backspace, form feed, newline,
/// carriage return and tab, `\u00xx` for the other characters below 0x20,
/// every other character as it is.
pub open spec fn json_escape(c: char) -> Seq<char> {
    if c == '"' {
        seq!['\\', '"']
    } else if c == '\\' {
        seq!['\\', '\\']
    } else if (c as nat) == 8 {
        seq!['\\', 'b']
    } else if (c as nat) == 12 {
        seq!['\\', 'f']
    } else if c == '\n' {
        seq!['\\', 'n']
    } else if c == '\r' {
        seq!['\\', 'r']
    } else if c == '\t' {
        seq!['\\', 't']
    } else if (c as nat) < 32 {
        seq!['\\', 'u', '0', '0', hex_digit((c as nat) / 16), hex_digit((c as nat) % 16)]
    } else {
        seq![c]
    }
}

/// The characters of `s`, each escaped as JSON writes it in a string.
pub open spec fn json_escaped(s: Seq<char>) -> Seq<char>
    decreases s.len(),
{
    if s.len() == 0 {
        Seq::empty()
    } else {
        json_escaped(s.drop_last()) + json_escape(s.last())
    }
}

/// The JSON text of a string: quoted, with JSON escapes.
pub open spec fn json_string_text(s: Seq<char>) -> Seq<char> {
    seq!['"'] + json_escaped(s) + seq!['"']
}

/// The JSON text of a string.
/// Trusted: `serde_json::to_string` on a `&str` writes it as a JSON string
/// literal, quoted, escaping each byte by serde_json's `ESCAPE` table
/// (`"`, `\\`, the short escapes, `\\u00xx` for the other control characters,
/// nothing else); serialising a string cannot fail.
#[verifier::external_body]
pub fn json_string(s: &str) -> (r: String)
    ensures
        r@ == json_string_text(s@),
{
    serde_json::to_string(s).unwrap_or_default()
}

} // verus!

verus! {

// ----------------------------------------------------------------------------
// Lines, searching, byte offsets
// ----------------------------------------------------------------------------

/// The index of the first newline at or after `k` (or the end).
pub open spec fn newline_at(cs: Seq<char>, k: int) -> int
    decreases cs.len() - k,
{
    if 0 <= k < cs.len() && cs[k] != '\n' {
        newline_at(cs, k + 1)
    } else {
        k
    }
}

/// `s` without one trailing carriage return.
pub open spec fn strip_cr(s: Seq<char>) -> Seq<char> {
    if s.len() > 0 && s.last() == '\r' {
        s.drop_last()
    } else {
        s
    }
}

/// The lines of `cs[i..]` as `str::lines` yields them: split at each
/// newline, a carriage return before the newline dropped, no line after a
/// final newline.
pub open spec fn lines_from(cs: Seq<char>, i: int) -> Seq<Seq<char>>
    decreases cs.len() - i,
{
    if i < 0 || i >= cs.len() {
        Seq::empty()
    } else {
        let e = newline_at(cs, i);
        if i <= e < cs.len() {
            seq![strip_cr(cs.subrange(i, e))] + lines_from(cs, e + 1)
        } else {
            seq![cs.subrange(i, cs.len() as int)]
        }
    }
}

pub open spec fn lines_of(cs: Seq<char>) -> Seq<Seq<char>> {
    lines_from(cs, 0)
}

/// The first index at or after `i` where `pat` occurs in `s`.
pub open spec fn find_from(s: Seq<char>, pat: Seq<char>, i: int) -> Option<int>
    decreases s.len() + 1 - i,
{
    if i < 0 || i + pat.len() > s.len() {
        None
    } else if s.subrange(i, i + pat.len()) == pat {
        Some(i)
    } else {
        find_from(s, pat, i + 1)
    }
}

/// Whether `pat` occurs in `s`.
pub open spec fn contains_seq(s: Seq<char>, pat: Seq<char>) -> bool {
    find_from(s, pat, 0) is Some
}

/// The number of bytes of the UTF-8 encoding of `c`.
pub open spec fn char_utf8_len(c: char) -> nat {
    if (c as u32) < 128 {
        1
    } else if (c as u32) < 2048 {
        2
    } else if (c as u32) < 65536 {
        3
    } else {
        4
    }
}

/// The number of bytes of the UTF-8 encoding of `s`.
pub open spec fn utf8_len(s: Seq<char>) -> nat
    decreases s.len(),
{
    if s.len() == 0 {
        0
    } else {
        utf8_len(s.drop_last()) + char_utf8_len(s.last())
    }
}

proof fn lemma_newline_at(cs: Seq<char>, k: int)
    requires
        0 <= k <= cs.len(),
    ensures
        k <= newline_at(cs, k) <= cs.len(),
        newline_at(cs, k) < cs.len() ==> cs[newline_at(cs, k)] == '\n',
        forall|j: int| k <= j < newline_at(cs, k) ==> cs[j] != '\n',
    decreases cs.len() - k,
{
    if k < cs.len() && cs[k] != '\n' {
        lemma_newline_at(cs, k + 1);
    }
}

/// The lines of a text, each as its characters.
pub fn lines_exec(cs: &Vec<char>) -> (r: Vec<Vec<char>>)
    ensures
        r@.map_values(|l: Vec<char>| l@) == lines_of(cs@),
{
    let mut r: Vec<Vec<char>> = Vec::new();
    let mut i: usize = 0;
    let n = cs.len();
    assert(r@.map_values(|l: Vec<char>| l@) + lines_from(cs@, 0) =~= lines_of(cs@));
    while i < n
        invariant
            n == cs.len(),
            i <= n,
            r@.map_values(|l: Vec<char>| l@) + lines_from(cs@, i as int) == lines_of(cs@),
        decreases n - i,
    {
        let mut e = i;
        while e < n && cs[e] != '\n'
            invariant
                i <= e <= n,
                n == cs.len(),
                newline_at(cs@, i as int) == newline_at(cs@, e as int),
            decreases n - e,
        {
            e += 1;
        }
        proof {
            lemma_newline_at(cs@, i as int);
        }
        let mut line: Vec<char> = Vec::new();
        let mut k = i;
        while k < e
            invariant
                i <= k <= e <= n,
                n == cs.len(),
                line@ == cs@.subrange(i as int, k as int),
            decreases e - k,
        {
            line.push(cs[k]);
            assert(line@ =~= cs@.subrange(i as int, k + 1));
            k += 1;
        }
        let ghost before = r@;
        if e < n {
            if line.len() > 0 && line[line.len() - 1] == '\r' {
                line.pop();
            }
            assert(line@ == strip_cr(cs@.subrange(i as int, e as int)));
            r.push(line);
            assert(r@.map_values(|l: Vec<char>| l@) =~= before.map_values(|l: Vec<char>| l@).push(
                strip_cr(cs@.subrange(i as int, e as int)),
            ));
            assert(r@.map_values(|l: Vec<char>| l@) + lines_from(cs@, e + 1) =~= before.map_values(
                |l: Vec<char>| l@,
            ) + lines_from(cs@, i as int));
            i = e + 1;
        } else {
            r.push(line);
            assert(r@.map_values(|l: Vec<char>| l@) =~= before.map_values(|l: Vec<char>| l@).push(
                cs@.subrange(i as int, n as int),
            ));
            assert(lines_from(cs@, n as int) =~= Seq::<Seq<char>>::empty());
            assert(r@.map_values(|l: Vec<char>| l@) + lines_from(cs@, n as int) =~= before.map_values(
                |l: Vec<char>| l@,
            ) + lines_from(cs@, i as int));
            i = n;
        }
    }
    assert(lines_from(cs@, i as int) =~= Seq::<Seq<char>>::empty());
    assert(r@.map_values(|l: Vec<char>| l@) =~= lines_of(cs@));
    r
}

/// Whether `pat` occurs in `s` at index `i`.
pub(crate) fn occurs_at(s: &Vec<char>, pat: &Vec<char>, i: usize) -> (r: bool)
    requires
        i + pat.len() <= s.len(),
    ensures
        r == (s@.subrange(i as int, i + pat.len()) == pat@),
{
    let mut j: usize = 0;
    while j < pat.len()
        invariant
            j <= pat.len(),
            i + pat.len() <= s.len(),
            forall|k: int| 0 <= k < j ==> s@[i + k] == pat@[k],
        decreases pat.len() - j,
    {
        if s[i + j] != pat[j] {
            assert(s@.subrange(i as int, i + pat.len())[j as int] != pat@[j as int]);
            return false;
        }
        j += 1;
    }
    assert(s@.subrange(i as int, i + pat.len()) =~= pat@);
    true
}

/// The first index where `pat` occurs in `s`.
pub fn find_exec(s: &Vec<char>, pat: &Vec<char>) -> (r: Option<usize>)
    ensures
        match r {
            Some(k) => find_from(s@, pat@, 0) == Some(k as int),
            None => find_from(s@, pat@, 0) is None,
        },
{
    if pat.len() > s.len() {
        return None;
    }
    let limit = s.len() - pat.len();
    let mut i: usize = 0;
    loop
        invariant
            pat.len() <= s.len(),
            limit == s.len() - pat.len(),
            i <= limit,
            find_from(s@, pat@, 0) == find_from(s@, pat@, i as int),
        decreases limit - i,
    {
        if occurs_at(s, pat, i) {
            return Some(i);
        }
        if i == limit {
            assert(find_from(s@, pat@, i + 1) is None);
            return None;
        }
        i += 1;
    }
}

/// The number of bytes of the UTF-8 encoding of `c`.
fn char_width(c: char) -> (w: usize)
    ensures
        w == char_utf8_len(c),
{
    let v = c as u32;
    if v < 128 {
        1
    } else if v < 2048 {
        2
    } else if v < 65536 {
        3
    } else {
        4
    }
}

/// The number of bytes of the UTF-8 encoding of `cs[from..to]`.
pub fn utf8_len_exec(cs: &Vec<char>, from: usize, to: usize) -> (n: usize)
    requires
        from <= to <= cs.len(),
        utf8_len(cs@.subrange(from as int, to as int)) <= usize::MAX,
    ensures
        n == utf8_len(cs@.subrange(from as int, to as int)),
{
    let mut n: usize = 0;
    let mut k = from;
    while k < to
        invariant
            from <= k <= to <= cs.len(),
            n == utf8_len(cs@.subrange(from as int, k as int)),
            utf8_len(cs@.subrange(from as int, to as int)) <= usize::MAX,
        decreases to - k,
    {
        let w = char_width(cs[k]);
        proof {
            assert(cs@.subrange(from as int, k + 1).drop_last() =~= cs@.subrange(from as int, k as int));
            lemma_utf8_len_prefix(cs@.subrange(from as int, to as int), k + 1 - from);
            assert(cs@.subrange(from as int, to as int).subrange(0, k + 1 - from) =~= cs@.subrange(
                from as int,
                k + 1,
            ));
        }
        n = n + w;
        k += 1;
    }
    n
}

/// A prefix is no longer in bytes than the whole.
pub proof fn lemma_utf8_len_prefix(s: Seq<char>, k: int)
    requires
        0 <= k <= s.len(),
    ensures
        utf8_len(s.subrange(0, k)) <= utf8_len(s),
    decreases s.len() - k,
{
    if k < s.len() {
        lemma_utf8_len_prefix(s, k + 1);
        assert(s.subrange(0, k + 1).drop_last() =~= s.subrange(0, k));
    } else {
        assert(s.subrange(0, k) =~= s);
    }
}


/// The byte length of a concatenation is the sum of the byte lengths.
pub proof fn lemma_utf8_add(x: Seq<char>, y: Seq<char>)
    ensures
        utf8_len(x + y) == utf8_len(x) + utf8_len(y),
    decreases y.len(),
{
    if y.len() == 0 {
        assert(x + y =~= x);
    } else {
        lemma_utf8_add(x, y.drop_last());
        assert((x + y).drop_last() =~= x + y.drop_last());
        assert((x + y).last() == y.last());
    }
}

/// A piece of `s` is no longer in bytes than `s`.
pub proof fn lemma_utf8_sub(s: Seq<char>, a: int, b: int)
    requires
        0 <= a <= b <= s.len(),
    ensures
        utf8_len(s.subrange(a, b)) <= utf8_len(s),
        utf8_len(s.subrange(0, a)) + utf8_len(s.subrange(a, b)) == utf8_len(s.subrange(0, b)),
{
    lemma_utf8_add(s.subrange(0, a), s.subrange(a, b));
    assert(s.subrange(0, a) + s.subrange(a, b) =~= s.subrange(0, b));
    lemma_utf8_add(s.subrange(0, b), s.subrange(b, s.len() as int));
    assert(s.subrange(0, b) + s.subrange(b, s.len() as int) =~= s);
}

/// Every line of a text is no longer in bytes than the text.
pub proof fn lemma_lines_utf8(cs: Seq<char>, i: int)
    requires
        0 <= i,
    ensures
        forall|k: int|
            0 <= k < lines_from(cs, i).len() ==> utf8_len(#[trigger] lines_from(cs, i)[k]) <= utf8_len(cs),
    decreases cs.len() - i,
{
    if 0 <= i < cs.len() {
        let e = newline_at(cs, i);
        lemma_newline_at(cs, i);
        if e < cs.len() {
            lemma_lines_utf8(cs, e + 1);
            let x = cs.subrange(i, e);
            lemma_utf8_sub(cs, i, e);
            if x.len() > 0 && x.last() == '\r' {
                assert(utf8_len(strip_cr(x)) <= utf8_len(x));
            }
            assert forall|k: int| 0 <= k < lines_from(cs, i).len() implies utf8_len(
                #[trigger] lines_from(cs, i)[k],
            ) <= utf8_len(cs) by {
                if k > 0 {
                    assert(lines_from(cs, i)[k] == lines_from(cs, e + 1)[k - 1]);
                }
            }
        } else {
            lemma_utf8_sub(cs, i, cs.len() as int);
        }
    }
}


/// Where `find_from` finds `pat`, it occurs.
pub proof fn lemma_find_from(s: Seq<char>, pat: Seq<char>, i: int)
    requires
        find_from(s, pat, i) is Some,
    ensures
        i <= find_from(s, pat, i)->0,
        find_from(s, pat, i)->0 + pat.len() <= s.len(),
        s.subrange(find_from(s, pat, i)->0, find_from(s, pat, i)->0 + pat.len()) == pat,
    decreases s.len() + 1 - i,
{
    if !(i < 0 || i + pat.len() > s.len()) && s.subrange(i, i + pat.len()) != pat {
        lemma_find_from(s, pat, i + 1);
    }
}

/// Each character takes at least one byte.
pub proof fn lemma_utf8_len_ge(s: Seq<char>)
    ensures
        s.len() <= utf8_len(s),
    decreases s.len(),
{
    if s.len() > 0 {
        lemma_utf8_len_ge(s.drop_last());
    }
}

} // verus!
