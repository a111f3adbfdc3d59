//! The document outline of a Karu policy: a `Schema` group with its `mod`
//! blocks (and the entities in them) and `assert` statements, a `Rules`
//! group and a `Tests` group, each found by scanning the source lines.
use vstd::prelude::*;
use crate::ast::{EffectAst, Program, RuleAst, SRule, STest, TestDef, rules_view, tests_view};
use crate::lsp::{
    DocumentSymbol, Position, Range, SSymbol, SymbolKind, clamp, clamp_exec, symbols_view,
    symbol_view, symbols_upto, lemma_symbols_upto,
};
use crate::lsp_core::byte_len;
use crate::karu_parser::{NumberReading, parse_source, source_program, readings_view};
use crate::text::{
    chars_of, string_of, is_whitespace, is_whitespace_spec, lines_exec, lines_of, find_exec,
    find_from, contains_seq, decimal, usize_to_string, utf8_len, lemma_lines_utf8,
    lemma_utf8_len_ge,
};

verus! {

// ----------------------------------------------------------------------------
// Text of a line
// ----------------------------------------------------------------------------

/// Whether trimming removes `c`: whitespace, or with `quotes` a double quote.
pub open spec fn strips(c: char, quotes: bool) -> bool {
    if quotes {
        c == '"'
    } else {
        is_whitespace_spec(c)
    }
}

/// `s` without the leading characters that trimming removes.
pub open spec fn trim_start_by(s: Seq<char>, quotes: bool) -> Seq<char>
    decreases s.len(),
{
    if s.len() > 0 && strips(s[0], quotes) {
        trim_start_by(s.drop_first(), quotes)
    } else {
        s
    }
}

/// `s` without the trailing characters that trimming removes.
pub open spec fn trim_end_by(s: Seq<char>, quotes: bool) -> Seq<char>
    decreases s.len(),
{
    if s.len() > 0 && strips(s.last(), quotes) {
        trim_end_by(s.drop_last(), quotes)
    } else {
        s
    }
}

/// `s` trimmed at both ends (`str::trim`, or `trim_matches('"')` with `quotes`).
pub open spec fn trim_by(s: Seq<char>, quotes: bool) -> Seq<char> {
    trim_end_by(trim_start_by(s, quotes), quotes)
}

/// `s` without surrounding whitespace.
pub open spec fn trim_ws(s: Seq<char>) -> Seq<char> {
    trim_by(s, false)
}

/// Whether `s` begins with `p`.
pub open spec fn starts_with(s: Seq<char>, p: Seq<char>) -> bool {
    p.len() <= s.len() && s.subrange(0, p.len() as int) == p
}

/// Where a name read from a declaration ends.
#[derive(Clone, Copy)]
pub enum Stop {
    /// After `mod`: at `{` or whitespace.
    ModName,
    /// After `assert`: at `<` or whitespace.
    AssertName,
    /// After an entity keyword: at `{`, a space or `;`.
    EntityName,
}

pub open spec fn stops_at(c: char, k: Stop) -> bool {
    match k {
        Stop::ModName => c == '{' || is_whitespace_spec(c),
        Stop::AssertName => c == '<' || is_whitespace_spec(c),
        Stop::EntityName => c == '{' || c == ' ' || c == ';',
    }
}

/// The longest prefix of `s` with no character where the name stops.
pub open spec fn head_until(s: Seq<char>, k: Stop) -> Seq<char>
    decreases s.len(),
{
    if s.len() == 0 || stops_at(s[0], k) {
        Seq::empty()
    } else {
        seq![s[0]] + head_until(s.drop_first(), k)
    }
}

/// How many `{` more than `}` a line holds.
pub open spec fn brace_net(s: Seq<char>) -> int
    decreases s.len(),
{
    if s.len() == 0 {
        0
    } else {
        brace_net(s.drop_last()) + if s.last() == '{' {
            1int
        } else if s.last() == '}' {
            -1int
        } else {
            0int
        }
    }
}

/// The length in bytes of line `k`, or 0 past the last line.
pub open spec fn line_len(ls: Seq<Seq<char>>, k: int) -> u32 {
    if 0 <= k < ls.len() {
        byte_len(ls[k]) as u32
    } else {
        0
    }
}

/// The range from `(l1, c1)` to `(l2, c2)`.
pub open spec fn rng(l1: u32, c1: u32, l2: u32, c2: u32) -> Range {
    Range { start: Position { line: l1, character: c1 }, end: Position { line: l2, character: c2 } }
}

/// A symbol whose selection range is brought inside its range.
pub open spec fn mk_sym(
    name: Seq<char>,
    detail: Option<Seq<char>>,
    kind: SymbolKind,
    range: Range,
    sel: Range,
    children: Option<Seq<SSymbol>>,
) -> SSymbol {
    SSymbol { name, detail, kind, range, selection_range: clamp(range, sel), children }
}

// ----------------------------------------------------------------------------
// The schema group
// ----------------------------------------------------------------------------

/// Where the scan of a `mod` block that starts on line `start` stops, now on
/// line `j` with `depth` braces open: past the line where the braces close
/// (at least two lines on), and past one more line that is only `;`.
pub open spec fn block_end(ls: Seq<Seq<char>>, start: int, j: int, depth: int) -> int
    decreases ls.len() - j,
{
    if j < 0 || j >= ls.len() {
        j
    } else {
        let d = depth + brace_net(ls[j]);
        let j2 = j + 1;
        if d == 0 && j2 > start + 1 {
            if j2 < ls.len() && trim_ws(ls[j2]) == ";"@ {
                j2 + 1
            } else {
                j2
            }
        } else {
            block_end(ls, start, j2, d)
        }
    }
}

/// The name of a `mod` line: the word after `mod`, or `(unnamed)`.
pub open spec fn mod_name(t: Seq<char>) -> Seq<char> {
    let after = trim_ws(t.skip(3));
    if after.len() > 0 && after[0] == '{' {
        "(unnamed)"@
    } else {
        head_until(after, Stop::ModName)
    }
}

/// The entity keyword a trimmed line starts with, and its symbol kind.
pub open spec fn entity_kw(t: Seq<char>) -> Option<(Seq<char>, SymbolKind)> {
    if starts_with(t, "actor "@) {
        Some(("actor"@, SymbolKind::Class))
    } else if starts_with(t, "resource "@) {
        Some(("resource"@, SymbolKind::Struct))
    } else if starts_with(t, "action "@) {
        Some(("action"@, SymbolKind::Event))
    } else if starts_with(t, "abstract "@) {
        Some(("abstract"@, SymbolKind::Interface))
    } else {
        None
    }
}

/// The name after an entity keyword, without quotes.
pub open spec fn entity_name(t: Seq<char>, kw: Seq<char>) -> Seq<char> {
    trim_by(head_until(trim_ws(t.skip(kw.len() as int)), Stop::EntityName), true)
}

/// The last line of an entity that opens a brace on line `i`: the first line
/// from `j` on (up to `end`) where the braces balance, else the last line
/// looked at.
pub open spec fn entity_last(ls: Seq<Seq<char>>, end: int, j: int, depth: int, last: int) -> int
    decreases end + 1 - j,
{
    if j < 0 || j > end || j >= ls.len() {
        last
    } else {
        let d = depth + brace_net(ls[j]);
        if d <= 0 {
            j
        } else {
            entity_last(ls, end, j + 1, d, j)
        }
    }
}

/// The entity symbols on lines `i..=end`.
pub open spec fn entity_syms(ls: Seq<Seq<char>>, end: int, i: int) -> Seq<SSymbol>
    decreases end + 1 - i,
{
    if i < 0 || i > end || i >= ls.len() {
        Seq::empty()
    } else {
        let t = trim_ws(ls[i]);
        match entity_kw(t) {
            None => entity_syms(ls, end, i + 1),
            Some((kw, kind)) => {
                let name = entity_name(t, kw);
                if name.len() == 0 {
                    entity_syms(ls, end, i + 1)
                } else {
                    let e = if t.contains('{') && !t.contains('}') {
                        entity_last(ls, end, i, 0, i)
                    } else {
                        i
                    };
                    seq![
                        mk_sym(
                            kw + " "@ + name,
                            None,
                            kind,
                            rng(i as u32, 0, e as u32, line_len(ls, e)),
                            rng(i as u32, 0, i as u32, (kw.len() + 1 + byte_len(name)) as u32),
                            None,
                        ),
                    ] + entity_syms(ls, end, i + 1)
                }
            },
        }
    }
}

/// The name of an `assert` line.
pub open spec fn assert_name(t: Seq<char>) -> Seq<char> {
    head_until(t.skip(7), Stop::AssertName)
}

/// The schema symbols from line `i` on: each `mod` block with the entities
/// in it, and each `assert` statement.
pub open spec fn schema_syms(ls: Seq<Seq<char>>, i: int) -> Seq<SSymbol>
    decreases ls.len() - i,
{
    if i < 0 || i >= ls.len() {
        Seq::empty()
    } else {
        let t = trim_ws(ls[i]);
        if starts_with(t, "mod "@) || starts_with(t, "mod{"@) {
            let e = block_end(ls, i, i, 0);
            if e <= i || e > ls.len() {
                Seq::empty()
            } else {
                let el = e - 1;
                let kids = entity_syms(ls, el, i);
                seq![
                    mk_sym(
                        "mod "@ + mod_name(t),
                        None,
                        SymbolKind::Module,
                        rng(i as u32, 0, el as u32, line_len(ls, el)),
                        rng(i as u32, 0, i as u32, line_len(ls, i)),
                        if kids.len() == 0 {
                            None
                        } else {
                            Some(kids)
                        },
                    ),
                ] + schema_syms(ls, e)
            }
        } else if starts_with(t, "assert "@) && t.contains(';') {
            let name = assert_name(t);
            seq![
                mk_sym(
                    "assert "@ + name,
                    None,
                    SymbolKind::Constant,
                    rng(i as u32, 0, i as u32, byte_len(t) as u32),
                    rng(i as u32, 0, i as u32, (7 + byte_len(name)) as u32),
                    None,
                ),
            ] + schema_syms(ls, i + 1)
        } else {
            schema_syms(ls, i + 1)
        }
    }
}

/// The symbols of the schema part of a Karu file.
pub open spec fn schema_symbols_spec(ls: Seq<Seq<char>>) -> Seq<SSymbol> {
    schema_syms(ls, 0)
}

// ----------------------------------------------------------------------------
// Rules, tests, and the outline
// ----------------------------------------------------------------------------

/// The first line from `i` on that holds `a` or `b`.
pub open spec fn line_with(ls: Seq<Seq<char>>, a: Seq<char>, b: Seq<char>, i: int) -> Option<int>
    decreases ls.len() - i,
{
    if i < 0 || i >= ls.len() {
        None
    } else if contains_seq(ls[i], a) || contains_seq(ls[i], b) {
        Some(i)
    } else {
        line_with(ls, a, b, i + 1)
    }
}

/// How an effect prints in a rule's detail.
pub open spec fn effect_word(e: EffectAst) -> Seq<char> {
    match e {
        EffectAst::Allow => "Allow"@,
        EffectAst::Deny => "Deny"@,
    }
}

/// The symbol of a rule on line `i`.
pub open spec fn rule_sym(ls: Seq<Seq<char>>, r: SRule, i: int) -> SSymbol {
    mk_sym(
        r.name,
        Some(effect_word(r.effect) + " rule"@),
        SymbolKind::Function,
        rng(i as u32, 0, i as u32, line_len(ls, i)),
        rng(i as u32, 0, i as u32, byte_len(r.name) as u32),
        None,
    )
}

/// The symbols of the first `n` rules: each on the first line that holds
/// `allow <name>` or `deny <name>`; a rule with no such line has none.
pub open spec fn rule_syms(ls: Seq<Seq<char>>, rules: Seq<SRule>, n: nat) -> Seq<SSymbol>
    decreases n,
{
    if n == 0 || n > rules.len() {
        Seq::empty()
    } else {
        let prev = rule_syms(ls, rules, (n - 1) as nat);
        let r = rules[n - 1];
        match line_with(ls, "allow "@ + r.name, "deny "@ + r.name, 0) {
            Some(i) => prev.push(rule_sym(ls, r, i)),
            None => prev,
        }
    }
}

/// What marks the first line of a test block.
pub open spec fn test_needle(name: Seq<char>) -> Seq<char> {
    "test \""@ + name + "\""@
}

/// The line where the test block that starts on `start` closes, scanning
/// from line `j` with `depth` lines that opened a brace not yet closed by a
/// line that closes one; `start` if none does.
pub open spec fn test_close(ls: Seq<Seq<char>>, start: int, j: int, depth: int) -> int
    decreases ls.len() - j,
{
    if j < 0 || j >= ls.len() {
        start
    } else {
        let d1 = if ls[j].contains('{') {
            depth + 1
        } else {
            depth
        };
        if ls[j].contains('}') {
            if d1 - 1 <= 0 {
                j
            } else {
                test_close(ls, start, j + 1, d1 - 1)
            }
        } else {
            test_close(ls, start, j + 1, d1)
        }
    }
}

/// The first and last line of the test named `name`, or `(0, 0)`.
pub open spec fn test_lines(ls: Seq<Seq<char>>, name: Seq<char>) -> (int, int) {
    let needle = test_needle(name);
    match line_with(ls, needle, needle, 0) {
        Some(i) => (i, test_close(ls, i, i, 0)),
        None => (0, 0),
    }
}

/// The symbol of a test.
pub open spec fn test_sym(ls: Seq<Seq<char>>, name: Seq<char>) -> SSymbol {
    let (s, e) = test_lines(ls, name);
    mk_sym(
        name,
        Some("test"@),
        SymbolKind::Method,
        rng(s as u32, 0, e as u32, line_len(ls, e)),
        rng(s as u32, 0, s as u32, (6 + byte_len(name) + 1) as u32),
        None,
    )
}

/// Whether some line from `i` on starts, after whitespace, with `use schema`.
pub open spec fn uses_schema(ls: Seq<Seq<char>>, i: int) -> bool
    decreases ls.len() - i,
{
    if i < 0 || i >= ls.len() {
        false
    } else {
        starts_with(trim_ws(ls[i]), "use schema"@) || uses_schema(ls, i + 1)
    }
}

/// A group symbol named `name` over `kids`, from line `first` to the end of
/// the last child, selecting `sel_end` characters of line `first`.
pub open spec fn group_sym(
    ls: Seq<Seq<char>>,
    name: Seq<char>,
    detail: Seq<char>,
    first: u32,
    sel_end: u32,
    kids: Seq<SSymbol>,
) -> SSymbol {
    let last: u32 = if kids.len() > 0 {
        kids.last().range.end.line
    } else {
        0
    };
    mk_sym(
        name,
        Some(detail),
        SymbolKind::Namespace,
        rng(first, 0, last, line_len(ls, last as int)),
        rng(first, 0, first, sel_end),
        Some(kids),
    )
}

/// The `Schema` group, present when a line begins with `use schema`.
pub open spec fn schema_group(ls: Seq<Seq<char>>) -> Seq<SSymbol> {
    if uses_schema(ls, 0) {
        let kids = schema_symbols_spec(ls);
        seq![group_sym(ls, "Schema"@, decimal(kids.len() as int) + " items"@, 0, 11, kids)]
    } else {
        Seq::empty()
    }
}

/// A group over `kids`, present when there are any.
pub open spec fn list_group(ls: Seq<Seq<char>>, name: Seq<char>, unit: Seq<char>, kids: Seq<SSymbol>) -> Seq<
    SSymbol,
> {
    if kids.len() == 0 {
        Seq::empty()
    } else {
        seq![
            group_sym(
                ls,
                name,
                decimal(kids.len() as int) + unit,
                kids[0].range.start.line,
                5,
                kids,
            ),
        ]
    }
}

/// The outline of a Karu file with these rules and tests: the `Schema`
/// group, then `Rules`, then `Tests`, each only where it has a reason to be.
pub open spec fn karu_symbols_spec(cs: Seq<char>, rules: Seq<SRule>, tests: Seq<STest>) -> Seq<SSymbol> {
    let ls = lines_of(cs);
    schema_group(ls) + list_group(ls, "Rules"@, " rules"@, rule_syms(ls, rules, rules.len()))
        + list_group(
        ls,
        "Tests"@,
        " tests"@,
        Seq::new(tests.len(), |k: int| test_sym(ls, tests[k].name)),
    )
}

// ----------------------------------------------------------------------------
// Scanning, computed
// ----------------------------------------------------------------------------

/// Every line is shorter than `u32::MAX` characters.
pub open spec fn short_lines(lv: Seq<Seq<char>>) -> bool {
    forall|k: int| 0 <= k < lv.len() ==> #[trigger] lv[k].len() < u32::MAX
}

/// The lines, each as its characters.
pub open spec fn lines_view(ls: Seq<Vec<char>>) -> Seq<Seq<char>> {
    ls.map_values(|l: Vec<char>| l@)
}

fn strips_exec(c: char, quotes: bool) -> (r: bool)
    ensures
        r == strips(c, quotes),
{
    if quotes {
        c == '"'
    } else {
        is_whitespace(c)
    }
}

/// `v[from..to]` as a new vector.
fn slice_of(v: &Vec<char>, from: usize, to: usize) -> (r: Vec<char>)
    requires
        from <= to <= v.len(),
    ensures
        r@ == v@.subrange(from as int, to as int),
{
    let mut r: Vec<char> = Vec::new();
    let mut k = from;
    while k < to
        invariant
            from <= k <= to <= v.len(),
            r@ == v@.subrange(from as int, k as int),
        decreases to - k,
    {
        r.push(v[k]);
        assert(r@ =~= v@.subrange(from as int, k + 1));
        k += 1;
    }
    r
}

/// `l` trimmed at both ends.
fn trim_by_exec(l: &Vec<char>, quotes: bool) -> (t: Vec<char>)
    ensures
        t@ == trim_by(l@, quotes),
{
    let n = l.len();
    let mut a: usize = 0;
    assert(l@.subrange(0, n as int) =~= l@);
    while a < n && strips_exec(l[a], quotes)
        invariant
            a <= n,
            n == l.len(),
            trim_start_by(l@.subrange(a as int, n as int), quotes) == trim_start_by(l@, quotes),
        decreases n - a,
    {
        assert(l@.subrange(a as int, n as int).drop_first() =~= l@.subrange(a + 1, n as int));
        a += 1;
    }
    assert(trim_start_by(l@.subrange(a as int, n as int), quotes) == l@.subrange(a as int, n as int));
    let mut b: usize = n;
    while b > a && strips_exec(l[b - 1], quotes)
        invariant
            a <= b <= n,
            n == l.len(),
            trim_end_by(l@.subrange(a as int, b as int), quotes) == trim_by(l@, quotes),
        decreases b - a,
    {
        assert(l@.subrange(a as int, b as int).drop_last() =~= l@.subrange(a as int, b - 1));
        b -= 1;
    }
    assert(trim_end_by(l@.subrange(a as int, b as int), quotes) == l@.subrange(a as int, b as int));
    slice_of(l, a, b)
}

fn stops_exec(c: char, k: Stop) -> (r: bool)
    ensures
        r == stops_at(c, k),
{
    match k {
        Stop::ModName => c == '{' || is_whitespace(c),
        Stop::AssertName => c == '<' || is_whitespace(c),
        Stop::EntityName => c == '{' || c == ' ' || c == ';',
    }
}

/// The prefix of `s` before the first character where the name stops.
fn head_until_exec(s: &Vec<char>, k: Stop) -> (h: Vec<char>)
    ensures
        h@ == head_until(s@, k),
{
    let n = s.len();
    let mut i: usize = 0;
    let mut h: Vec<char> = Vec::new();
    assert(s@.subrange(0, n as int) =~= s@);
    assert(h@ + head_until(s@.subrange(0, n as int), k) =~= head_until(s@, k));
    while i < n && !stops_exec(s[i], k)
        invariant
            i <= n,
            n == s.len(),
            h@ == s@.subrange(0, i as int),
            head_until(s@, k) == h@ + head_until(s@.subrange(i as int, n as int), k),
        decreases n - i,
    {
        let ghost m = s@.subrange(i as int, n as int);
        assert(m.drop_first() =~= s@.subrange(i + 1, n as int));
        assert(head_until(m, k) == seq![s@[i as int]] + head_until(m.drop_first(), k));
        let ghost h0 = h@;
        h.push(s[i]);
        assert(h@ + head_until(s@.subrange(i + 1, n as int), k) =~= h0 + (seq![s@[i as int]]
            + head_until(m.drop_first(), k)));
        i += 1;
    }
    assert(head_until(s@.subrange(i as int, n as int), k) =~= Seq::<char>::empty());
    assert(h@ + Seq::<char>::empty() =~= h@);
    h
}

/// `brace_net` of a line, computed.
fn brace_net_exec(l: &Vec<char>) -> (r: i64)
    requires
        l.len() < u32::MAX,
    ensures
        r == brace_net(l@),
        -(l.len() as int) <= r <= l.len(),
{
    let mut r: i64 = 0;
    let mut k: usize = 0;
    while k < l.len()
        invariant
            k <= l.len() < u32::MAX,
            r == brace_net(l@.subrange(0, k as int)),
            -(k as int) <= r <= k,
        decreases l.len() - k,
    {
        assert(l@.subrange(0, k + 1).drop_last() =~= l@.subrange(0, k as int));
        if l[k] == '{' {
            r = r + 1;
        } else if l[k] == '}' {
            r = r - 1;
        }
        k += 1;
    }
    assert(l@.subrange(0, l.len() as int) =~= l@);
    r
}

/// Whether `c` occurs in `l`.
fn has_char(l: &Vec<char>, c: char) -> (r: bool)
    ensures
        r == l@.contains(c),
{
    let mut k: usize = 0;
    while k < l.len()
        invariant
            k <= l.len(),
            forall|j: int| 0 <= j < k ==> l@[j] != c,
        decreases l.len() - k,
    {
        if l[k] == c {
            assert(l@[k as int] == c);
            return true;
        }
        k += 1;
    }
    false
}

fn starts_exec(s: &Vec<char>, p: &Vec<char>) -> (r: bool)
    ensures
        r == starts_with(s@, p@),
{
    if p.len() > s.len() {
        false
    } else {
        crate::text::occurs_at(s, p, 0)
    }
}

/// `line_len` of line `k`.
fn line_len_exec(ls: &Vec<Vec<char>>, k: usize, Ghost(lv): Ghost<Seq<Seq<char>>>) -> (r: u32)
    requires
        lv == lines_view(ls@),
    ensures
        r == line_len(lv, k as int),
{
    if k < ls.len() {
        assert(lv[k as int] == ls@[k as int]@);
        let line = string_of(&ls[k], 0, ls[k].len());
        assert(ls@[k as int]@.subrange(0, ls@[k as int]@.len() as int) =~= ls@[k as int]@);
        line.as_str().len() as u32
    } else {
        0
    }
}

/// The range from `(l1, c1)` to `(l2, c2)`.
fn range_of(l1: u32, c1: u32, l2: u32, c2: u32) -> (r: Range)
    ensures
        r == rng(l1, c1, l2, c2),
{
    Range { start: Position { line: l1, character: c1 }, end: Position { line: l2, character: c2 } }
}

/// A symbol whose selection range is brought inside its range.
fn mk_symbol(
    name: String,
    detail: Option<String>,
    kind: SymbolKind,
    range: Range,
    sel: Range,
    children: Option<Vec<DocumentSymbol>>,
) -> (d: DocumentSymbol)
    ensures
        d@ == mk_sym(
            name@,
            match detail {
                Some(x) => Some(x@),
                None => None,
            },
            kind,
            range,
            sel,
            match children {
                Some(v) => Some(symbols_view(v@)),
                None => None,
            },
        ),
{
    let ghost cv = children;
    proof {
        if let Some(v) = cv {
            lemma_symbols_upto(v@, v@.len());
            assert(v@.take(v@.len() as int) =~= v@);
        }
    }
    DocumentSymbol { name, detail, kind, range, selection_range: clamp_exec(range, sel), children }
}

/// The bytes of `s` plus `k`, as a `u32` position.
fn col_after(k: u128, s: &String) -> (r: u32)
    requires
        k < 64,
    ensures
        r == (k + byte_len(s@)) as u32,
{
    let n = s.as_str().len();
    (k + n as u128) as u32
}

/// Where the scan of the `mod` block on line `start` stops.
fn block_end_exec(ls: &Vec<Vec<char>>, start: usize, Ghost(lv): Ghost<Seq<Seq<char>>>) -> (e: usize)
    requires
        lv == lines_view(ls@),
        short_lines(lv),
        start < ls.len(),
    ensures
        e == block_end(lv, start as int, start as int, 0),
        start < e <= ls.len(),
{
    let n = ls.len();
    let mut j = start;
    let mut depth: i128 = 0;
    loop
        invariant
            lv == lines_view(ls@),
            short_lines(lv),
            n == ls.len(),
            start <= j < n,
            block_end(lv, start as int, j as int, depth as int) == block_end(
                lv,
                start as int,
                start as int,
                0,
            ),
            -((j - start) * 0x1_0000_0000) <= depth <= (j - start) * 0x1_0000_0000,
        decreases n - j,
    {
        assert(lv[j as int] == ls@[j as int]@);
        let net = brace_net_exec(&ls[j]);
        let d = depth + net as i128;
        let j2 = j + 1;
        if d == 0 && j2 > start + 1 {
            if j2 < n {
                let t = trim_by_exec(&ls[j2], false);
                assert(lv[j2 as int] == ls@[j2 as int]@);
                proof {
                    reveal_strlit(";");
                }
                if t.len() == 1 && t[0] == ';' {
                    assert(t@ =~= ";"@);
                    return j2 + 1;
                }
                assert(t@ != ";"@) by {
                    if t@ == ";"@ {
                        assert(t@[0] == ';');
                    }
                }
            }
            return j2;
        }
        if j2 >= n {
            assert(block_end(lv, start as int, j2 as int, d as int) == j2);
            return j2;
        }
        depth = d;
        j = j2;
    }
}

/// The last line of the entity that opens a brace on line `i`.
fn entity_last_exec(ls: &Vec<Vec<char>>, end: usize, i: usize, Ghost(lv): Ghost<Seq<Seq<char>>>) -> (r: usize)
    requires
        lv == lines_view(ls@),
        short_lines(lv),
        i <= end < ls.len(),
    ensures
        r == entity_last(lv, end as int, i as int, 0, i as int),
        i <= r <= end,
{
    let mut j = i;
    let mut depth: i128 = 0;
    let mut last = i;
    loop
        invariant
            lv == lines_view(ls@),
            short_lines(lv),
            i <= j <= end < ls.len(),
            i <= last <= end,
            entity_last(lv, end as int, j as int, depth as int, last as int) == entity_last(
                lv,
                end as int,
                i as int,
                0,
                i as int,
            ),
            -((j - i) * 0x1_0000_0000) <= depth <= (j - i) * 0x1_0000_0000,
        decreases end - j,
    {
        assert(lv[j as int] == ls@[j as int]@);
        let net = brace_net_exec(&ls[j]);
        let d = depth + net as i128;
        if d <= 0 {
            return j;
        }
        if j == end {
            assert(entity_last(lv, end as int, j + 1, d as int, j as int) == j);
            return j;
        }
        last = j;
        depth = d;
        j += 1;
    }
}

/// The entity keyword a trimmed line starts with.
fn entity_kw_exec(t: &Vec<char>) -> (r: Option<(Vec<char>, SymbolKind)>)
    ensures
        match r {
            Some((kw, k)) => entity_kw(t@) == Some((kw@, k)) && kw.len() < t.len() && kw.len() <= 8,
            None => entity_kw(t@) is None,
        },
{
    proof {
        reveal_strlit("actor ");
        reveal_strlit("resource ");
        reveal_strlit("action ");
        reveal_strlit("abstract ");
        reveal_strlit("actor");
        reveal_strlit("resource");
        reveal_strlit("action");
        reveal_strlit("abstract");
    }
    if starts_exec(t, &chars_of("actor ")) {
        Some((chars_of("actor"), SymbolKind::Class))
    } else if starts_exec(t, &chars_of("resource ")) {
        Some((chars_of("resource"), SymbolKind::Struct))
    } else if starts_exec(t, &chars_of("action ")) {
        Some((chars_of("action"), SymbolKind::Event))
    } else if starts_exec(t, &chars_of("abstract ")) {
        Some((chars_of("abstract"), SymbolKind::Interface))
    } else {
        None
    }
}

/// The entity symbols on lines `start..=end` of a `mod` block: each
/// `actor`, `resource`, `action` or `abstract` declaration, to the line
/// where its braces close.
fn extract_entity_symbols(
    ls: &Vec<Vec<char>>,
    start: usize,
    end: usize,
    Ghost(lv): Ghost<Seq<Seq<char>>>,
) -> (r: Vec<DocumentSymbol>)
    requires
        lv == lines_view(ls@),
        short_lines(lv),
        start <= end < ls.len(),
    ensures
        symbols_view(r@) == entity_syms(lv, end as int, start as int),
{
    let mut out: Vec<DocumentSymbol> = Vec::new();
    let mut i = start;
    assert(symbols_view(out@) + entity_syms(lv, end as int, start as int) =~= entity_syms(
        lv,
        end as int,
        start as int,
    ));
    while i <= end
        invariant
            lv == lines_view(ls@),
            short_lines(lv),
            start <= i <= end + 1,
            end < ls.len(),
            symbols_view(out@) + entity_syms(lv, end as int, i as int) == entity_syms(
                lv,
                end as int,
                start as int,
            ),
        decreases end + 1 - i,
    {
        assert(lv[i as int] == ls@[i as int]@);
        let t = trim_by_exec(&ls[i], false);
        let ghost before = out@;
        match entity_kw_exec(&t) {
            None => {},
            Some((kw, kind)) => {
                let rest = slice_of(&t, kw.len(), t.len());
                assert(rest@ == t@.skip(kw@.len() as int));
                let name = trim_by_exec(&head_until_exec(&trim_by_exec(&rest, false), Stop::EntityName), true);
                if name.len() > 0 {
                    let e = if has_char(&t, '{') && !has_char(&t, '}') {
                        entity_last_exec(ls, end, i, Ghost(lv))
                    } else {
                        i
                    };
                    let mut nm = kw.clone();
                    nm.push(' ');
                    let mut name_copy = name.clone();
                    nm.append(&mut name_copy);
                    proof {
                        reveal_strlit(" ");
                    }
                    assert(nm@ =~= kw@ + " "@ + name@);
                    let nm_s = string_of(&nm, 0, nm.len());
                    assert(nm@.subrange(0, nm@.len() as int) =~= nm@);
                    let name_s = string_of(&name, 0, name.len());
                    assert(name@.subrange(0, name@.len() as int) =~= name@);
                    let ll = line_len_exec(ls, e, Ghost(lv));
                    let sel_end = col_after((kw.len() + 1) as u128, &name_s);
                    let sym = mk_symbol(
                        nm_s,
                        None,
                        kind,
                        range_of(i as u32, 0, e as u32, ll),
                        range_of(i as u32, 0, i as u32, sel_end),
                        None,
                    );
                    out.push(sym);
                    assert(symbols_view(out@) =~= symbols_view(before).push(sym@));
                }
            },
        }
        assert(symbols_view(out@) + entity_syms(lv, end as int, i + 1) =~= entity_syms(
            lv,
            end as int,
            start as int,
        ));
        i += 1;
    }
    assert(entity_syms(lv, end as int, i as int) =~= Seq::<SSymbol>::empty());
    assert(symbols_view(out@) + Seq::<SSymbol>::empty() =~= symbols_view(out@));
    out
}

/// `mod_name` of a trimmed `mod` line.
fn mod_name_exec(t: &Vec<char>) -> (r: Vec<char>)
    requires
        t.len() >= 3,
    ensures
        r@ == mod_name(t@),
{
    let rest = slice_of(t, 3, t.len());
    assert(rest@ == t@.skip(3));
    let after = trim_by_exec(&rest, false);
    if after.len() > 0 && after[0] == '{' {
        chars_of("(unnamed)")
    } else {
        head_until_exec(&after, Stop::ModName)
    }
}

/// The schema symbols of a Karu file: each `mod` block, with the entities
/// declared in it as children, and each `assert` statement.
fn extract_schema_symbols(ls: &Vec<Vec<char>>, Ghost(lv): Ghost<Seq<Seq<char>>>) -> (r: Vec<DocumentSymbol>)
    requires
        lv == lines_view(ls@),
        short_lines(lv),
    ensures
        symbols_view(r@) == schema_symbols_spec(lv),
{
    let n = ls.len();
    let mut out: Vec<DocumentSymbol> = Vec::new();
    let mut i: usize = 0;
    let mod_sp = chars_of("mod ");
    let mod_br = chars_of("mod{");
    let assert_sp = chars_of("assert ");
    proof {
        reveal_strlit("mod ");
        reveal_strlit("mod{");
        reveal_strlit("assert ");
    }
    assert(symbols_view(out@) + schema_syms(lv, 0) =~= schema_syms(lv, 0));
    while i < n
        invariant
            lv == lines_view(ls@),
            short_lines(lv),
            n == ls.len(),
            i <= n,
            mod_sp@ == "mod "@,
            mod_br@ == "mod{"@,
            assert_sp@ == "assert "@,
            mod_sp.len() == 4,
            mod_br.len() == 4,
            assert_sp.len() == 7,
            symbols_view(out@) + schema_syms(lv, i as int) == schema_syms(lv, 0),
        decreases n - i,
    {
        assert(lv[i as int] == ls@[i as int]@);
        let t = trim_by_exec(&ls[i], false);
        let ghost before = out@;
        if starts_exec(&t, &mod_sp) || starts_exec(&t, &mod_br) {
            let e = block_end_exec(ls, i, Ghost(lv));
            let el = e - 1;
            let kids = extract_entity_symbols(ls, i, el, Ghost(lv));
            let name = mod_name_exec(&t);
            let mut nm = chars_of("mod ");
            let mut name_copy = name.clone();
            nm.append(&mut name_copy);
            let nm_s = string_of(&nm, 0, nm.len());
            assert(nm@.subrange(0, nm@.len() as int) =~= nm@);
            assert(nm@ =~= "mod "@ + mod_name(t@));
            let ll_end = line_len_exec(ls, el, Ghost(lv));
            let ll_start = line_len_exec(ls, i, Ghost(lv));
            let children = if kids.len() == 0 {
                None
            } else {
                Some(kids)
            };
            let sym = mk_symbol(
                nm_s,
                None,
                SymbolKind::Module,
                range_of(i as u32, 0, el as u32, ll_end),
                range_of(i as u32, 0, i as u32, ll_start),
                children,
            );
            out.push(sym);
            assert(symbols_view(out@) =~= symbols_view(before).push(sym@));
            assert(symbols_view(out@) + schema_syms(lv, e as int) =~= symbols_view(before)
                + schema_syms(lv, i as int));
            i = e;
        } else if starts_exec(&t, &assert_sp) && has_char(&t, ';') {
            let rest = slice_of(&t, 7, t.len());
            assert(rest@ == t@.skip(7));
            let name = head_until_exec(&rest, Stop::AssertName);
            let mut nm = chars_of("assert ");
            let mut name_copy = name.clone();
            nm.append(&mut name_copy);
            let nm_s = string_of(&nm, 0, nm.len());
            assert(nm@.subrange(0, nm@.len() as int) =~= nm@);
            assert(nm@ =~= "assert "@ + assert_name(t@));
            let t_s = string_of(&t, 0, t.len());
            assert(t@.subrange(0, t@.len() as int) =~= t@);
            let name_s = string_of(&name, 0, name.len());
            assert(name@.subrange(0, name@.len() as int) =~= name@);
            let tl = t_s.as_str().len() as u32;
            let sel_end = col_after(7, &name_s);
            let sym = mk_symbol(
                nm_s,
                None,
                SymbolKind::Constant,
                range_of(i as u32, 0, i as u32, tl),
                range_of(i as u32, 0, i as u32, sel_end),
                None,
            );
            out.push(sym);
            assert(symbols_view(out@) =~= symbols_view(before).push(sym@));
            assert(symbols_view(out@) + schema_syms(lv, i + 1) =~= symbols_view(before)
                + schema_syms(lv, i as int));
            i += 1;
        } else {
            i += 1;
        }
    }
    assert(schema_syms(lv, i as int) =~= Seq::<SSymbol>::empty());
    assert(symbols_view(out@) + Seq::<SSymbol>::empty() =~= symbols_view(out@));
    out
}

/// The first line that holds `a` or `b`.
pub(crate) fn line_with_exec(ls: &Vec<Vec<char>>, a: &Vec<char>, b: &Vec<char>, Ghost(lv): Ghost<Seq<Seq<char>>>) -> (r:
    Option<usize>)
    requires
        lv == lines_view(ls@),
    ensures
        match r {
            Some(k) => line_with(lv, a@, b@, 0) == Some(k as int) && k < ls.len(),
            None => line_with(lv, a@, b@, 0) is None,
        },
{
    let mut i: usize = 0;
    while i < ls.len()
        invariant
            i <= ls.len(),
            lv == lines_view(ls@),
            line_with(lv, a@, b@, 0) == line_with(lv, a@, b@, i as int),
        decreases ls.len() - i,
    {
        assert(lv[i as int] == ls@[i as int]@);
        if find_exec(&ls[i], a).is_some() || find_exec(&ls[i], b).is_some() {
            return Some(i);
        }
        i += 1;
    }
    None
}

/// The symbols of the rules, each on the first line that holds
/// `allow <name>` or `deny <name>`.
fn rule_symbols(ls: &Vec<Vec<char>>, rules: &Vec<RuleAst>, Ghost(lv): Ghost<Seq<Seq<char>>>) -> (r: Vec<
    DocumentSymbol,
>)
    requires
        lv == lines_view(ls@),
    ensures
        symbols_view(r@) == rule_syms(lv, rules_view(rules@), rules.len() as nat),
{
    let ghost rv = rules_view(rules@);
    let mut out: Vec<DocumentSymbol> = Vec::new();
    let mut n: usize = 0;
    while n < rules.len()
        invariant
            lv == lines_view(ls@),
            rv == rules_view(rules@),
            n <= rules.len(),
            symbols_view(out@) == rule_syms(lv, rv, n as nat),
        decreases rules.len() - n,
    {
        let rule = &rules[n];
        assert(rv[n as int] == rule@);
        let name_chars = chars_of(rule.name.as_str());
        let mut a = chars_of("allow ");
        let mut na = name_chars.clone();
        a.append(&mut na);
        let mut b = chars_of("deny ");
        let mut nb = name_chars.clone();
        b.append(&mut nb);
        let ghost before = out@;
        match line_with_exec(ls, &a, &b, Ghost(lv)) {
            Some(i) => {
                let mut detail = match rule.effect {
                    EffectAst::Allow => String::from_str("Allow"),
                    EffectAst::Deny => String::from_str("Deny"),
                };
                detail.append(" rule");
                let ll = line_len_exec(ls, i, Ghost(lv));
                let name = rule.name.clone();
                let nl = name.as_str().len() as u32;
                let sym = mk_symbol(
                    name,
                    Some(detail),
                    SymbolKind::Function,
                    range_of(i as u32, 0, i as u32, ll),
                    range_of(i as u32, 0, i as u32, nl),
                    None,
                );
                out.push(sym);
                assert(symbols_view(out@) =~= symbols_view(before).push(sym@));
            },
            None => {},
        }
        n += 1;
    }
    out
}

/// The line where the test block that starts on line `start` closes.
fn test_close_exec(ls: &Vec<Vec<char>>, start: usize, Ghost(lv): Ghost<Seq<Seq<char>>>) -> (e: usize)
    requires
        lv == lines_view(ls@),
        start < ls.len(),
    ensures
        e == test_close(lv, start as int, start as int, 0),
        e < ls.len(),
{
    let n = ls.len();
    let mut j = start;
    let mut depth: i128 = 0;
    loop
        invariant
            lv == lines_view(ls@),
            n == ls.len(),
            start < n,
            start <= j <= n,
            test_close(lv, start as int, j as int, depth as int) == test_close(
                lv,
                start as int,
                start as int,
                0,
            ),
            -(j - start) <= depth <= j - start,
        decreases n - j,
    {
        if j >= n {
            return start;
        }
        assert(lv[j as int] == ls@[j as int]@);
        let d1 = if has_char(&ls[j], '{') {
            depth + 1
        } else {
            depth
        };
        if has_char(&ls[j], '}') {
            if d1 - 1 <= 0 {
                return j;
            }
            depth = d1 - 1;
        } else {
            depth = d1;
        }
        j += 1;
    }
}

/// The first and last line of the test named `name`, or `(0, 0)`.
fn find_test_line_range(ls: &Vec<Vec<char>>, name: &Vec<char>, Ghost(lv): Ghost<Seq<Seq<char>>>) -> (r: (
    usize,
    usize,
))
    requires
        lv == lines_view(ls@),
    ensures
        (r.0 as int, r.1 as int) == test_lines(lv, name@),
{
    let mut needle = chars_of("test \"");
    let mut nc = name.clone();
    needle.append(&mut nc);
    needle.push('"');
    proof {
        reveal_strlit("\"");
    }
    assert(needle@ =~= test_needle(name@));
    match line_with_exec(ls, &needle, &needle, Ghost(lv)) {
        Some(i) => (i, test_close_exec(ls, i, Ghost(lv))),
        None => (0, 0),
    }
}

/// The symbol of each test, spanning its block.
fn test_symbols(ls: &Vec<Vec<char>>, tests: &Vec<TestDef>, Ghost(lv): Ghost<Seq<Seq<char>>>) -> (r: Vec<
    DocumentSymbol,
>)
    requires
        lv == lines_view(ls@),
    ensures
        symbols_view(r@) == Seq::new(tests.len() as nat, |k: int| test_sym(lv, tests_view(tests@)[k].name)),
{
    let ghost tv = tests_view(tests@);
    let mut out: Vec<DocumentSymbol> = Vec::new();
    let mut n: usize = 0;
    while n < tests.len()
        invariant
            lv == lines_view(ls@),
            tv == tests_view(tests@),
            n <= tests.len(),
            out.len() == n,
            forall|j: int| 0 <= j < n ==> #[trigger] out@[j]@ == test_sym(lv, tv[j].name),
        decreases tests.len() - n,
    {
        let test = &tests[n];
        assert(tv[n as int] == test@);
        let name_chars = chars_of(test.name.as_str());
        let (s, e) = find_test_line_range(ls, &name_chars, Ghost(lv));
        let ll = line_len_exec(ls, e, Ghost(lv));
        let name = test.name.clone();
        let sel_end = col_after(7, &name);
        proof {
            assert((7 + byte_len(name@)) == (6 + byte_len(name@) + 1));
        }
        let sym = mk_symbol(
            name,
            Some(String::from_str("test")),
            SymbolKind::Method,
            range_of(s as u32, 0, e as u32, ll),
            range_of(s as u32, 0, s as u32, sel_end),
            None,
        );
        out.push(sym);
        n += 1;
    }
    assert(symbols_view(out@) =~= Seq::new(tests.len() as nat, |k: int| test_sym(lv, tv[k].name)));
    out
}

/// Whether a line begins, after whitespace, with `use schema`.
fn uses_schema_exec(ls: &Vec<Vec<char>>, Ghost(lv): Ghost<Seq<Seq<char>>>) -> (r: bool)
    requires
        lv == lines_view(ls@),
    ensures
        r == uses_schema(lv, 0),
{
    let pat = chars_of("use schema");
    let mut i: usize = 0;
    while i < ls.len()
        invariant
            i <= ls.len(),
            lv == lines_view(ls@),
            pat@ == "use schema"@,
            uses_schema(lv, 0) == uses_schema(lv, i as int),
        decreases ls.len() - i,
    {
        assert(lv[i as int] == ls@[i as int]@);
        let t = trim_by_exec(&ls[i], false);
        if starts_exec(&t, &pat) {
            return true;
        }
        i += 1;
    }
    false
}

/// A group symbol over `kids`.
fn group_symbol(
    ls: &Vec<Vec<char>>,
    name: &str,
    detail: String,
    first: u32,
    sel_end: u32,
    kids: Vec<DocumentSymbol>,
    Ghost(lv): Ghost<Seq<Seq<char>>>,
) -> (d: DocumentSymbol)
    requires
        lv == lines_view(ls@),
    ensures
        d@ == group_sym(lv, name@, detail@, first, sel_end, symbols_view(kids@)),
{
    let last: u32 = if kids.len() > 0 {
        kids[kids.len() - 1].range.end.line
    } else {
        0
    };
    let ll = line_len_exec(ls, last as usize, Ghost(lv));
    mk_symbol(
        String::from_str(name),
        Some(detail),
        SymbolKind::Namespace,
        range_of(first, 0, last, ll),
        range_of(first, 0, first, sel_end),
        Some(kids),
    )
}

/// The outline of a Karu file whose parse is `program`: a `Schema` group
/// when a line begins with `use schema` (its `mod` blocks, with their
/// entities, and its `assert` statements), a `Rules` group with each rule on
/// the first line that declares it, and a `Tests` group with each test
/// spanning its block. Groups with nothing to hold are left out, the
/// schema group excepted.
pub fn document_symbols(source: &str, program: &Program) -> (r: Vec<DocumentSymbol>)
    requires
        utf8_len(source@) < u32::MAX,
    ensures
        symbols_view(r@) == karu_symbols_spec(source@, program@.rules, program@.tests),
{
    let cs = chars_of(source);
    let ls = lines_exec(&cs);
    let ghost lv = lines_of(cs@);
    assert(lines_view(ls@) == lv);
    proof {
        lemma_lines_utf8(cs@, 0);
        assert forall|k: int| 0 <= k < lv.len() implies #[trigger] lv[k].len() < u32::MAX by {
            lemma_utf8_len_ge(lv[k]);
        }
    }
    let mut top: Vec<DocumentSymbol> = Vec::new();
    let ghost schema_part = schema_group(lv);
    if uses_schema_exec(&ls, Ghost(lv)) {
        let kids = extract_schema_symbols(&ls, Ghost(lv));
        let mut detail = usize_to_string(kids.len());
        detail.append(" items");
        let g = group_symbol(&ls, "Schema", detail, 0, 11, kids, Ghost(lv));
        top.push(g);
        assert(symbols_view(top@) =~= schema_part);
    } else {
        assert(symbols_view(top@) =~= schema_part);
    }
    let rs = rule_symbols(&ls, &program.rules, Ghost(lv));
    let ghost rule_part = list_group(lv, "Rules"@, " rules"@, symbols_view(rs@));
    let ghost before = top@;
    if rs.len() > 0 {
        let first = rs[0].range.start.line;
        let mut detail = usize_to_string(rs.len());
        detail.append(" rules");
        let g = group_symbol(&ls, "Rules", detail, first, 5, rs, Ghost(lv));
        top.push(g);
    }
    assert(symbols_view(top@) =~= symbols_view(before) + rule_part);
    let ts = test_symbols(&ls, &program.tests, Ghost(lv));
    let ghost test_part = list_group(lv, "Tests"@, " tests"@, symbols_view(ts@));
    let ghost before2 = top@;
    if ts.len() > 0 {
        let first = ts[0].range.start.line;
        let mut detail = usize_to_string(ts.len());
        detail.append(" tests");
        let g = group_symbol(&ls, "Tests", detail, first, 5, ts, Ghost(lv));
        top.push(g);
    }
    assert(symbols_view(top@) =~= symbols_view(before2) + test_part);
    top
}

/// The outline of Karu source as its editor shows it: what
/// `document_symbols` gives for the program the source parses to (test
/// blocks included), and no symbols when it does not parse; `None` when a
/// number of the source has no reading in `numbers`.
pub fn document_symbols_of_source(source: &str, numbers: Vec<(String, NumberReading)>) -> (r: Option<
    Vec<DocumentSymbol>,
>)
    requires
        utf8_len(source@) < u32::MAX,
    ensures
        match source_program(source@, readings_view(numbers@), true) {
            None => r is None,
            Some(Err(_)) => r is Some && r->0@.len() == 0,
            Some(Ok(p)) => r is Some && symbols_view(r->0@) == karu_symbols_spec(source@, p.rules, p.tests),
        },
{
    proof {
        lemma_utf8_len_ge(source@);
    }
    match parse_source(source, numbers, true) {
        None => None,
        Some(Err(_)) => Some(Vec::new()),
        Some(Ok(program)) => Some(document_symbols(source, &program)),
    }
}

} // verus!
