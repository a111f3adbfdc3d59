//! Paths into JSON documents, such as `resource.context.namedArguments`.
use vstd::prelude::*;
use crate::json::{Value, JsonV, get_field_spec, get_index_spec};
use crate::text::{chars_of, string_of, is_digit, is_digit_spec};

verus! {

/// One step of a path.
#[derive(Debug, Clone, PartialEq)]
pub enum PathSegment {
    /// Access an object field by key.
    Field(String),
    /// Access an array element by index.
    Index(usize),
    /// Access using a variable's value (resolved from bindings).
    Variable(String),
}

/// The content of a path segment.
pub enum SegV {
    Field(Seq<char>),
    Index(nat),
    Variable(Seq<char>),
}

impl View for PathSegment {
    type V = SegV;

    open spec fn view(&self) -> SegV {
        match self {
            PathSegment::Field(s) => SegV::Field(s@),
            PathSegment::Index(i) => SegV::Index(*i as nat),
            PathSegment::Variable(s) => SegV::Variable(s@),
        }
    }
}

/// A path through a JSON document: a sequence of segments.
#[derive(Debug, Clone, PartialEq)]
pub struct Path {
    segments: Vec<PathSegment>,
}

/// The contents of a sequence of segments.
pub open spec fn segs_view(s: Seq<PathSegment>) -> Seq<SegV> {
    s.map_values(|x: PathSegment| x@)
}

impl View for Path {
    type V = Seq<SegV>;

    closed spec fn view(&self) -> Seq<SegV> {
        segs_view(self.segments@)
    }
}

// ---------------------------------------------------------------------------
// Parsing path strings
// ---------------------------------------------------------------------------

/// The value of a string of decimal digits.
pub open spec fn digits_value(s: Seq<char>) -> nat
    decreases s.len(),
{
    if s.len() == 0 {
        0
    } else {
        digits_value(s.drop_last()) * 10 + ((s.last() as nat) - ('0' as nat)) as nat
    }
}

/// Whether every character of `s` is a decimal digit.
pub open spec fn all_digits(s: Seq<char>) -> bool {
    forall|i: int| 0 <= i < s.len() ==> #[trigger] is_digit_spec(s[i])
}

/// What `str::parse::<usize>` yields: an optional `+` sign, then at least one
/// decimal digit, with a value that fits in `usize`.
pub open spec fn parse_usize_spec(s: Seq<char>) -> Option<nat> {
    let d = if s.len() > 0 && s[0] == '+' { s.drop_first() } else { s };
    if d.len() > 0 && all_digits(d) && digits_value(d) <= usize::MAX {
        Some(digits_value(d))
    } else {
        None
    }
}

pub proof fn lemma_digits_value_push(s: Seq<char>, c: char)
    ensures
        digits_value(s.push(c)) == digits_value(s) * 10 + ((c as nat) - ('0' as nat)) as nat,
{
    assert(s.push(c).drop_last() == s);
}

proof fn lemma_digits_value_mono(s: Seq<char>, c: char)
    requires
        all_digits(s.push(c)),
    ensures
        digits_value(s.push(c)) >= digits_value(s),
{
    lemma_digits_value_push(s, c);
}

/// `str::parse::<usize>` on `cs[from..to]`.
pub fn parse_usize(cs: &Vec<char>, from: usize, to: usize) -> (r: Option<usize>)
    requires
        from <= to <= cs.len(),
    ensures
        r matches Some(n) ==> parse_usize_spec(cs@.subrange(from as int, to as int)) == Some(
            n as nat,
        ),
        r is None ==> parse_usize_spec(cs@.subrange(from as int, to as int)) is None,
{
    let ghost s = cs@.subrange(from as int, to as int);
    let mut start = from;
    if start < to && cs[start] == '+' {
        start += 1;
    }
    let ghost d = cs@.subrange(start as int, to as int);
    assert(d == (if s.len() > 0 && s[0] == '+' { s.drop_first() } else { s }));
    if start == to {
        return None;
    }
    let mut acc: usize = 0;
    let mut i = start;
    while i < to
        invariant
            from <= start <= i <= to <= cs.len(),
            d == cs@.subrange(start as int, to as int),
            s == cs@.subrange(from as int, to as int),
            d == (if s.len() > 0 && s[0] == '+' { s.drop_first() } else { s }),
            start < to,
            all_digits(cs@.subrange(start as int, i as int)),
            acc as nat == digits_value(cs@.subrange(start as int, i as int)),
        decreases to - i,
    {
        let c = cs[i];
        assert(cs@.subrange(start as int, i + 1) == cs@.subrange(start as int, i as int).push(c));
        assert(d.len() > 0);
        if !is_digit(c) {
            assert(!all_digits(d)) by {
                assert(d[i - start] == c);
            }
            return None;
        }
        proof {
            lemma_digits_value_push(cs@.subrange(start as int, i as int), c);
        }
        let dv = ((c as u32) - ('0' as u32)) as usize;
        if acc > (usize::MAX - dv) / 10 {
            proof {
                // every longer prefix is at least as large, so the whole value overflows
                assert(digits_value(cs@.subrange(start as int, i + 1)) > usize::MAX) by (nonlinear_arith)
                    requires
                        digits_value(cs@.subrange(start as int, i + 1)) == acc * 10 + dv,
                        acc > (usize::MAX - dv) / 10,
                        dv <= 9,
                ;
                lemma_digits_value_prefix(d, i + 1 - start);
                assert(d.take(i + 1 - start) == cs@.subrange(start as int, i + 1));
            }
            return None;
        }
        proof {
            assert(acc * 10 + dv <= usize::MAX) by (nonlinear_arith)
                requires
                    acc <= (usize::MAX - dv) / 10,
                    dv <= 9,
            ;
        }
        acc = acc * 10 + dv;
        i += 1;
    }
    Some(acc)
}

/// A prefix of a digit string has a value no larger than the whole.
pub proof fn lemma_digits_value_prefix(d: Seq<char>, n: int)
    requires
        0 <= n <= d.len(),
    ensures
        all_digits(d) ==> digits_value(d.take(n)) <= digits_value(d),
    decreases d.len() - n,
{
    if n < d.len() && all_digits(d) {
        lemma_digits_value_prefix(d, n + 1);
        assert(d.take(n + 1) == d.take(n).push(d[n]));
        assert(is_digit_spec(d[n]));
        lemma_digits_value_push(d.take(n), d[n]);
    }
    if n == d.len() {
        assert(d.take(n) == d);
    }
}

} // verus!

verus! {

/// Splitting on `.` while reading `s` left to right: the non-empty pieces
/// completed so far and the piece being read.
pub open spec fn dot_split(s: Seq<char>) -> (Seq<Seq<char>>, Seq<char>)
    decreases s.len(),
{
    if s.len() == 0 {
        (Seq::empty(), Seq::empty())
    } else {
        let (done, cur) = dot_split(s.drop_last());
        if s.last() == '.' {
            (if cur.len() > 0 { done.push(cur) } else { done }, Seq::empty())
        } else {
            (done, cur.push(s.last()))
        }
    }
}

/// The non-empty pieces of `s` between dots.
pub open spec fn dot_pieces(s: Seq<char>) -> Seq<Seq<char>> {
    let (done, cur) = dot_split(s);
    if cur.len() > 0 {
        done.push(cur)
    } else {
        done
    }
}

/// Index of the first `[` in `s`.
pub open spec fn first_bracket(s: Seq<char>) -> Option<int>
    decreases s.len(),
{
    if s.len() == 0 {
        None
    } else if s[0] == '[' {
        Some(0)
    } else {
        match first_bracket(s.drop_first()) {
            Some(i) => Some(i + 1),
            None => None,
        }
    }
}

/// The segments one piece stands for: `name[3]` is a field then an index,
/// a number is an index, anything else a field.
pub open spec fn parse_piece(seg: Seq<char>) -> Seq<SegV> {
    let bracketed = match first_bracket(seg) {
        Some(b) => if seg.len() > 0 && seg.last() == ']' {
            match parse_usize_spec(seg.subrange(b + 1, seg.len() - 1)) {
                Some(n) => Some(seq![SegV::Field(seg.take(b)), SegV::Index(n)]),
                None => None,
            }
        } else {
            None
        },
        None => None,
    };
    match bracketed {
        Some(r) => r,
        None => match parse_usize_spec(seg) {
            Some(n) => seq![SegV::Index(n)],
            None => seq![SegV::Field(seg)],
        },
    }
}

/// The segments a list of pieces stands for, in order.
pub open spec fn parse_pieces(ps: Seq<Seq<char>>) -> Seq<SegV>
    decreases ps.len(),
{
    if ps.len() == 0 {
        Seq::empty()
    } else {
        parse_pieces(ps.drop_last()) + parse_piece(ps.last())
    }
}

/// The path a dotted string denotes.
pub open spec fn parse_path_spec(s: Seq<char>) -> Seq<SegV> {
    parse_pieces(dot_pieces(s))
}

proof fn lemma_first_bracket(s: Seq<char>)
    ensures
        first_bracket(s) matches Some(k) ==> 0 <= k < s.len() && s[k] == '[',
    decreases s.len(),
{
    if s.len() > 0 && s[0] != '[' {
        lemma_first_bracket(s.drop_first());
    }
}

/// Index of the first `[` in `cs[a..b]`, relative to `a`.
fn find_bracket(cs: &Vec<char>, a: usize, b: usize) -> (r: Option<usize>)
    requires
        a <= b <= cs.len(),
    ensures
        match first_bracket(cs@.subrange(a as int, b as int)) {
            Some(k) => r == Some((a + k) as usize),
            None => r is None,
        },
{
    let mut i = a;
    while i < b
        invariant
            a <= i <= b <= cs.len(),
            first_bracket(cs@.subrange(a as int, b as int)) == match first_bracket(
                cs@.subrange(i as int, b as int),
            ) {
                Some(k) => Some(k + (i - a)),
                None => None,
            },
        decreases b - i,
    {
        if cs[i] == '[' {
            return Some(i);
        }
        assert(cs@.subrange(i as int, b as int).drop_first() == cs@.subrange(i + 1, b as int));
        i += 1;
    }
    None
}

/// Appends the segments that `cs[a..b]` stands for.
fn push_piece(cs: &Vec<char>, a: usize, b: usize, out: &mut Vec<PathSegment>)
    requires
        a <= b <= cs.len(),
    ensures
        segs_view(final(out)@) == segs_view(old(out)@) + parse_piece(
            cs@.subrange(a as int, b as int),
        ),
{
    let ghost seg = cs@.subrange(a as int, b as int);
    let fb = find_bracket(cs, a, b);
    if let Some(k) = fb {
        if b > a && cs[b - 1] == ']' {
            assert(seg.last() == cs@[b - 1]);
            proof {
                lemma_first_bracket(seg);
                assert(seg[k - a] == '[');
            }
            assert(k < b - 1);
            assert(seg.subrange(k - a + 1, seg.len() - 1) == cs@.subrange(k + 1, b - 1));
            let n = parse_usize(cs, k + 1, b - 1);
            if let Some(n) = n {
                let f = string_of(cs, a, k);
                assert(seg.take(k - a) == cs@.subrange(a as int, k as int));
                let ghost before = old(out)@;
                out.push(PathSegment::Field(f));
                out.push(PathSegment::Index(n));
                assert(segs_view(out@) =~= segs_view(before) + seq![
                    SegV::Field(seg.take(k - a)),
                    SegV::Index(n as nat),
                ]);
                return;
            }
        }
    }
    let ghost before = old(out)@;
    match parse_usize(cs, a, b) {
        Some(n) => {
            out.push(PathSegment::Index(n));
            assert(segs_view(out@) =~= segs_view(before) + seq![SegV::Index(n as nat)]);
        },
        None => {
            let f = string_of(cs, a, b);
            out.push(PathSegment::Field(f));
            assert(segs_view(out@) =~= segs_view(before) + seq![SegV::Field(seg)]);
        },
    }
}

impl Path {
    /// The empty path, which denotes the whole document.
    pub fn root() -> (p: Path)
        ensures
            p@ == Seq::<SegV>::empty(),
    {
        let p = Path { segments: Vec::new() };
        assert(p@ =~= Seq::<SegV>::empty());
        p
    }

    /// Parses a dot-separated path such as `foo.bar`, `items.0` or `items[0]`.
    /// Empty pieces between dots are skipped; a piece that is a number is an
    /// index; `name[n]` is a field followed by an index.
    pub fn parse(s: &str) -> (p: Path)
        ensures
            p@ == parse_path_spec(s@),
    {
        let cs = chars_of(s);
        let mut segs: Vec<PathSegment> = Vec::new();
        let mut start: usize = 0;
        let mut i: usize = 0;
        assert(cs@.take(0) == Seq::<char>::empty());
        while i < cs.len()
            invariant
                start <= i <= cs.len(),
                segs_view(segs@) == parse_pieces(dot_split(cs@.take(i as int)).0),
                dot_split(cs@.take(i as int)).1 == cs@.subrange(start as int, i as int),
            decreases cs.len() - i,
        {
            let ghost prev = cs@.take(i as int);
            assert(cs@.take(i + 1).drop_last() == prev);
            assert(cs@.take(i + 1).last() == cs@[i as int]);
            if cs[i] == '.' {
                let ghost done = dot_split(prev).0;
                let ghost cur = dot_split(prev).1;
                if start < i {
                    push_piece(&cs, start, i, &mut segs);
                    assert(done.push(cur).drop_last() == done);
                    assert(done.push(cur).last() == cur);
                }
                start = i + 1;
            } else {
                assert(cs@.subrange(start as int, i + 1) == cs@.subrange(start as int, i as int).push(
                    cs@[i as int],
                ));
            }
            i += 1;
        }
        assert(cs@.take(cs.len() as int) == cs@);
        let ghost done = dot_split(cs@).0;
        let ghost cur = dot_split(cs@).1;
        if start < cs.len() {
            push_piece(&cs, start, cs.len(), &mut segs);
            assert(done.push(cur).drop_last() == done);
            assert(done.push(cur).last() == cur);
        }
        let p = Path { segments: segs };
        p
    }
}

} // verus!

verus! {

/// The value bound to `k` (the first binding of that name).
pub open spec fn bind_lookup(bs: Seq<(Seq<char>, JsonV)>, k: Seq<char>) -> Option<JsonV>
    decreases bs.len(),
{
    if bs.len() == 0 {
        None
    } else if bs[0].0 == k {
        Some(bs[0].1)
    } else {
        bind_lookup(bs.drop_first(), k)
    }
}

/// The contents of a list of bindings.
pub open spec fn binds_view<'a>(bs: Seq<(String, &'a Value)>) -> Seq<(Seq<char>, JsonV)> {
    bs.map_values(|p: (String, &'a Value)| (p.0@, p.1@))
}

/// Stepping into `cur` by a key value: a string selects a field, a
/// non-negative integer an element; anything else selects nothing.
pub open spec fn step_by_key(cur: JsonV, key: Option<JsonV>) -> Option<JsonV> {
    match key {
        Some(JsonV::Str(s)) => get_field_spec(cur, s),
        Some(JsonV::Number(crate::json::Number::PosInt(u))) => get_index_spec(cur, (u as usize) as int),
        _ => None,
    }
}

/// The prefix marking a variable whose key is itself a path into the document.
pub open spec fn path_var_prefix() -> Seq<char> {
    seq!['@', 'p', 'a', 't', 'h', ':']
}

/// Walking `segs[i..]` from `cur`, where `root` is the whole document and
/// `bs` the bindings. A first field named like a binding starts from the bound
/// value; a variable segment selects by its bound value, or, when written
/// `@path:p`, by the value at path `p`. With `plain`, variable segments select nothing.
pub open spec fn walk(
    segs: Seq<SegV>,
    root: JsonV,
    bs: Seq<(Seq<char>, JsonV)>,
    plain: bool,
    i: nat,
    cur: JsonV,
) -> Option<JsonV>
    decreases (if plain { 0int } else { 1int }), segs.len() - i,
{
    if i >= segs.len() {
        Some(cur)
    } else {
        let next = match segs[i as int] {
            SegV::Field(n) => if i == 0 && bind_lookup(bs, n) is Some {
                bind_lookup(bs, n)
            } else {
                get_field_spec(cur, n)
            },
            SegV::Index(k) => get_index_spec(cur, k as int),
            SegV::Variable(v) => if plain {
                None
            } else if v.len() >= 6 && v.take(6) == path_var_prefix() {
                step_by_key(cur, walk(parse_path_spec(v.skip(6)), root, bs, true, 0, root))
            } else {
                step_by_key(cur, bind_lookup(bs, v))
            },
        };
        match next {
            Some(n) => walk(segs, root, bs, plain, i + 1, n),
            None => None,
        }
    }
}

/// The value at `segs` in `root` with bindings `bs`.
pub open spec fn resolve_spec(segs: Seq<SegV>, root: JsonV, bs: Seq<(Seq<char>, JsonV)>) -> Option<JsonV> {
    walk(segs, root, bs, false, 0, root)
}

/// An optional reference has the given content.
pub open spec fn opt_view_is(r: Option<&Value>, v: Option<JsonV>) -> bool {
    match r {
        Some(x) => v == Some(x@),
        None => v is None,
    }
}

fn lookup_binding<'a>(bindings: &Vec<(String, &'a Value)>, name: &String) -> (r: Option<&'a Value>)
    ensures
        opt_view_is(r, bind_lookup(binds_view(bindings@), name@)),
{
    let ghost bs = binds_view(bindings@);
    assert(bs.skip(0) == bs);
    let mut i: usize = 0;
    while i < bindings.len()
        invariant
            i <= bindings.len(),
            bs == binds_view(bindings@),
            bind_lookup(bs, name@) == bind_lookup(bs.skip(i as int), name@),
        decreases bindings.len() - i,
    {
        assert(bs.skip(i as int).drop_first() == bs.skip(i + 1));
        assert(bs.skip(i as int)[0] == (bindings@[i as int].0@, bindings@[i as int].1@));
        if bindings[i].0 == *name {
            return Some(bindings[i].1);
        }
        i += 1;
    }
    None
}

fn step_key_exec<'a>(cur: &'a Value, key: &Value) -> (r: Option<&'a Value>)
    ensures
        opt_view_is(r, step_by_key(cur@, Some(key@))),
{
    match key {
        Value::String(s) => cur.get_field(s.as_str()),
        Value::Number(crate::json::Number::PosInt(u)) => cur.get_index(*u as usize),
        _ => None,
    }
}

impl Path {
    /// A path made of the given segments.
    pub fn from_segments(segments: Vec<PathSegment>) -> (p: Path)
        ensures
            p@ == segs_view(segments@),
    {
        Path { segments }
    }

    /// This path followed by a field access.
    pub fn field(self, name: &str) -> (p: Path)
        ensures
            p@ == self@.push(SegV::Field(name@)),
    {
        let mut segments = self.segments;
        let ghost before = segments@;
        segments.push(PathSegment::Field(String::from_str(name)));
        assert(segs_view(segments@) =~= segs_view(before).push(SegV::Field(name@)));
        Path { segments }
    }

    /// This path followed by an array index.
    pub fn index(self, idx: usize) -> (p: Path)
        ensures
            p@ == self@.push(SegV::Index(idx as nat)),
    {
        let mut segments = self.segments;
        let ghost before = segments@;
        segments.push(PathSegment::Index(idx));
        assert(segs_view(segments@) =~= segs_view(before).push(SegV::Index(idx as nat)));
        Path { segments }
    }

    /// The number of segments.
    pub fn len(&self) -> (n: usize)
        ensures
            n == self@.len(),
    {
        self.segments.len()
    }

    /// Whether this is the empty (root) path.
    pub fn is_empty(&self) -> (b: bool)
        ensures
            b == (self@.len() == 0),
    {
        self.segments.len() == 0
    }

    /// The segments of this path.
    pub fn segments(&self) -> (s: &[PathSegment])
        ensures
            segs_view(s@) == self@,
    {
        self.segments.as_slice()
    }

    /// The value at this path in `value`, or `None` where a step selects nothing.
    pub fn resolve<'a>(&self, value: &'a Value) -> (r: Option<&'a Value>)
        ensures
            opt_view_is(r, resolve_spec(self@, value@, Seq::empty())),
    {
        self.resolve_fast(value)
    }

    /// The value at this path in `value`, without bindings.
    pub fn resolve_fast<'a>(&self, value: &'a Value) -> (r: Option<&'a Value>)
        ensures
            opt_view_is(r, resolve_spec(self@, value@, Seq::empty())),
    {
        let empty: Vec<(String, &'a Value)> = Vec::new();
        assert(binds_view(empty@) =~= Seq::<(Seq<char>, JsonV)>::empty());
        self.walk_exec(value, &empty, false)
    }

    /// The value at this path in `value`, where a first field named like a
    /// binding starts from the bound value and variable segments select by
    /// their bound values (or, written `@path:p`, by the value at path `p`).
    pub fn resolve_with_bindings<'a>(
        &self,
        value: &'a Value,
        bindings: &Vec<(String, &'a Value)>,
    ) -> (r: Option<&'a Value>)
        ensures
            opt_view_is(r, resolve_spec(self@, value@, binds_view(bindings@))),
    {
        self.walk_exec(value, bindings, false)
    }

    fn walk_exec<'a>(
        &self,
        value: &'a Value,
        bindings: &Vec<(String, &'a Value)>,
        plain: bool,
    ) -> (r: Option<&'a Value>)
        ensures
            opt_view_is(r, walk(self@, value@, binds_view(bindings@), plain, 0, value@)),
        decreases (if plain { 0int } else { 1int }),
    {
        let ghost segs = self@;
        let ghost bs = binds_view(bindings@);
        let mut cur: &'a Value = value;
        let mut i: usize = 0;
        while i < self.segments.len()
            invariant
                i <= self.segments.len(),
                segs == segs_view(self.segments@),
                bs == binds_view(bindings@),
                walk(segs, value@, bs, plain, 0, value@) == walk(segs, value@, bs, plain, i as nat, cur@),
            decreases self.segments.len() - i,
        {
            let next: Option<&'a Value> = match &self.segments[i] {
                PathSegment::Field(name) => {
                    let b = if i == 0 { lookup_binding(bindings, name) } else { None };
                    match b {
                        Some(x) => Some(x),
                        None => cur.get_field(name.as_str()),
                    }
                },
                PathSegment::Index(k) => cur.get_index(*k),
                PathSegment::Variable(v) => {
                    if plain {
                        None
                    } else {
                        let vc = chars_of(v.as_str());
                        let is_path = vc.len() >= 6 && vc[0] == '@' && vc[1] == 'p' && vc[2] == 'a'
                            && vc[3] == 't' && vc[4] == 'h' && vc[5] == ':';
                        proof {
                            if vc.len() >= 6 {
                                assert(is_path == (v@.take(6) =~= path_var_prefix()));
                            }
                        }
                        if is_path {
                            let rest = string_of(&vc, 6, vc.len());
                            assert(rest@ == v@.skip(6));
                            let inner = Path::parse(rest.as_str());
                            match inner.walk_exec(value, bindings, true) {
                                Some(k) => step_key_exec(cur, k),
                                None => None,
                            }
                        } else {
                            match lookup_binding(bindings, v) {
                                Some(k) => step_key_exec(cur, k),
                                None => None,
                            }
                        }
                    }
                },
            };
            match next {
                Some(n) => {
                    cur = n;
                },
                None => {
                    return None;
                },
            }
            i += 1;
        }
        Some(cur)
    }
}

} // verus!
