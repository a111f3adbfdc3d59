//! Import resolution for multi-file Karu projects: `import "path";` lines
//! are followed from an entry file and the imported programs are merged into
//! one. Two rules hold: imports form no cycle, and a `use schema;` file
//! imports only `use schema;` files (an untyped file may import a typed one).
//!
//! Reading files is not done here. The resolver is a step function: each step
//! takes the state and the outcome of the last load, and gives the next state
//! and what to do next: load a file, or stop with the merged program or an
//! error. The caller runs the loop and performs the loads.
use vstd::prelude::*;
use crate::ast::{Program, SProgram, rules_view, tests_view, asserts_view};
use crate::schema::modules_view;
use crate::karu_parser::{
    NumberReading, parse_source, source_program, readings_view,
    parse_error_text,
};
use crate::karu_syntax::SReading;
use crate::text::{split_on_char, split_char, strings_view};
use crate::cedar_syntax::join;
use crate::cedar_parser::join_strings;
use crate::json::str_eq;

verus! {

// ----------------------------------------------------------------------------
// Paths
// ----------------------------------------------------------------------------

/// The components after `acc` once the segments `segs` are read: empty and
/// `.` segments are dropped, `..` drops the last component, others are added.
pub open spec fn norm_comps(acc: Seq<Seq<char>>, segs: Seq<Seq<char>>) -> Seq<Seq<char>>
    decreases segs.len(),
{
    if segs.len() == 0 {
        acc
    } else {
        let seg = segs[0];
        let next = if seg.len() == 0 || seg == "."@ {
            acc
        } else if seg == ".."@ {
            if acc.len() > 0 {
                acc.drop_last()
            } else {
                acc
            }
        } else {
            acc.push(seg)
        };
        norm_comps(next, segs.drop_first())
    }
}

/// The components of a path: the root `/` first for an absolute path.
pub open spec fn path_comps(cs: Seq<char>) -> Seq<Seq<char>> {
    norm_comps(
        if cs.len() > 0 && cs[0] == '/' {
            seq!["/"@]
        } else {
            Seq::empty()
        },
        split_char(cs, '/'),
    )
}

/// The text of a list of components.
pub open spec fn comps_text(comps: Seq<Seq<char>>) -> Seq<char> {
    if comps.len() > 0 && comps[0] == "/"@ {
        "/"@ + join(comps.drop_first(), "/"@)
    } else {
        join(comps, "/"@)
    }
}

/// A path with `.` and `..` resolved, without the file system.
pub open spec fn normalize_spec(cs: Seq<char>) -> Seq<char> {
    comps_text(path_comps(cs))
}

/// The file that `import` names, read in the file at `from`: relative to the
/// directory of `from` unless it is absolute.
pub open spec fn import_target(from: Seq<char>, import: Seq<char>) -> Seq<char> {
    if import.len() > 0 && import[0] == '/' {
        normalize_spec(import)
    } else {
        let base = path_comps(from);
        let parent = if base.len() > 0 {
            base.drop_last()
        } else {
            base
        };
        comps_text(norm_comps(parent, split_char(import, '/')))
    }
}

/// `norm_comps`, computed.
fn norm_comps_exec(acc: Vec<String>, segs: &Vec<String>) -> (r: Vec<String>)
    ensures
        strings_view(r@) == norm_comps(strings_view(acc@), strings_view(segs@)),
{
    let ghost init = strings_view(acc@);
    let mut acc = acc;
    let mut i: usize = 0;
    assert(strings_view(segs@).skip(0) =~= strings_view(segs@));
    while i < segs.len()
        invariant
            i <= segs.len(),
            norm_comps(strings_view(acc@), strings_view(segs@).skip(i as int)) == norm_comps(
                init,
                strings_view(segs@),
            ),
        decreases segs.len() - i,
    {
        assert(strings_view(segs@).skip(i as int)[0] == segs@[i as int]@);
        assert(strings_view(segs@).skip(i as int).drop_first() =~= strings_view(segs@).skip(i + 1));
        let seg = segs[i].as_str();
        if seg.unicode_len() == 0 || str_eq(seg, ".") {
        } else if str_eq(seg, "..") {
            if acc.len() > 0 {
                let ghost before = acc@;
                acc.pop();
                assert(strings_view(acc@) =~= strings_view(before).drop_last());
            }
        } else {
            let ghost before = acc@;
            acc.push(segs[i].clone());
            assert(strings_view(acc@) =~= strings_view(before).push(segs@[i as int]@));
        }
        i += 1;
    }
    assert(strings_view(segs@).skip(i as int) =~= Seq::<Seq<char>>::empty());
    acc
}


fn starts_with_slash(s: &str) -> (r: bool)
    ensures
        r == (s@.len() > 0 && s@[0] == '/'),
{
    s.unicode_len() > 0 && s.get_char(0) == '/'
}

/// `path_comps`, computed.
fn path_comps_exec(s: &str) -> (r: Vec<String>)
    ensures
        strings_view(r@) == path_comps(s@),
{
    let mut acc: Vec<String> = Vec::new();
    if starts_with_slash(s) {
        acc.push(String::from_str("/"));
        assert(strings_view(acc@) =~= seq!["/"@]);
    } else {
        assert(strings_view(acc@) =~= Seq::<Seq<char>>::empty());
    }
    let segs = split_on_char(s, '/');
    norm_comps_exec(acc, &segs)
}

/// `comps_text`, computed.
fn comps_text_exec(comps: Vec<String>) -> (r: String)
    ensures
        r@ == comps_text(strings_view(comps@)),
{
    let ghost cv = strings_view(comps@);
    if comps.len() > 0 && str_eq(comps[0].as_str(), "/") {
        let mut comps = comps;
        let ghost before = comps@;
        comps.remove(0);
        assert(strings_view(comps@) =~= cv.drop_first());
        let mut r = String::from_str("/");
        r.append(join_strings(&comps, "/").as_str());
        r
    } else {
        join_strings(&comps, "/")
    }
}

/// A path with `.` and `..` resolved, without the file system.
pub fn normalize_path(path: &str) -> (r: String)
    ensures
        r@ == normalize_spec(path@),
{
    comps_text_exec(path_comps_exec(path))
}

/// The file that `import` names, read in the file at `from`.
pub fn import_target_exec(from: &str, import: &str) -> (r: String)
    ensures
        r@ == import_target(from@, import@),
{
    if starts_with_slash(import) {
        normalize_path(import)
    } else {
        let mut base = path_comps_exec(from);
        if base.len() > 0 {
            let ghost before = base@;
            base.pop();
            assert(strings_view(base@) =~= strings_view(before).drop_last());
        }
        let segs = split_on_char(import, '/');
        comps_text_exec(norm_comps_exec(base, &segs))
    }
}


// ----------------------------------------------------------------------------
// The resolver's state
// ----------------------------------------------------------------------------

/// Error during import resolution: a message and the file it is about.
#[derive(Debug)]
pub struct ResolveError {
    pub message: String,
    pub path: String,
}

pub struct SResolveError {
    pub message: Seq<char>,
    pub path: Seq<char>,
}

impl View for ResolveError {
    type V = SResolveError;

    open spec fn view(&self) -> SResolveError {
        SResolveError { message: self.message@, path: self.path@ }
    }
}

/// What the resolver waits for.
#[derive(Debug, Clone, Copy, PartialEq, Eq, Structural)]
pub enum ResolvePhase {
    /// Nothing loaded yet.
    Start,
    /// The entry file.
    AwaitEntry,
    /// A file named by an import, loaded to check it.
    AwaitImport,
    /// A file named by an import, loaded to follow its own imports.
    AwaitChild,
    /// Resolution has ended.
    Finished,
}

/// A file whose imports are being followed: its path, its program and the
/// index of its next import.
#[derive(Debug)]
pub struct ImportFrame {
    pub path: String,
    pub program: Program,
    pub next: usize,
}

pub struct SFrame {
    pub path: Seq<char>,
    pub program: SProgram,
    pub next: nat,
}

impl View for ImportFrame {
    type V = SFrame;

    open spec fn view(&self) -> SFrame {
        SFrame { path: self.path@, program: self.program@, next: self.next as nat }
    }
}

/// The resolver's state: the entry path, the files on the current import
/// chain, the files already visited, the programs loaded so far (in the order
/// they were first loaded), the frames of the files being followed, the path
/// of the file asked for last, and the phase.
#[derive(Debug)]
pub struct ResolveState {
    pub entry: String,
    pub stack: Vec<String>,
    pub visited: Vec<String>,
    pub loaded: Vec<(String, Program)>,
    pub frames: Vec<ImportFrame>,
    pub pending: String,
    pub phase: ResolvePhase,
}

pub struct SResolve {
    pub entry: Seq<char>,
    pub stack: Seq<Seq<char>>,
    pub visited: Seq<Seq<char>>,
    pub loaded: Seq<(Seq<char>, SProgram)>,
    pub frames: Seq<SFrame>,
    pub pending: Seq<char>,
    pub phase: ResolvePhase,
}

pub open spec fn loaded_view(v: Seq<(String, Program)>) -> Seq<(Seq<char>, SProgram)> {
    v.map_values(|e: (String, Program)| (e.0@, e.1@))
}

pub open spec fn frames_view(v: Seq<ImportFrame>) -> Seq<SFrame> {
    v.map_values(|f: ImportFrame| f@)
}

impl View for ResolveState {
    type V = SResolve;

    open spec fn view(&self) -> SResolve {
        SResolve {
            entry: self.entry@,
            stack: strings_view(self.stack@),
            visited: strings_view(self.visited@),
            loaded: loaded_view(self.loaded@),
            frames: frames_view(self.frames@),
            pending: self.pending@,
            phase: self.phase,
        }
    }
}

/// What the caller does next.
#[derive(Debug)]
pub enum ResolveAction {
    /// Load the file at this path and hand its text (or an error message) to
    /// the next step.
    Load(String),
    /// Resolution succeeded with this merged program.
    Done(Program),
    /// Resolution failed.
    Fail(ResolveError),
    /// Resolution had already ended.
    Idle,
}

pub enum SAction {
    Load(Seq<char>),
    Done(SProgram),
    Fail(SResolveError),
    Idle,
}

impl View for ResolveAction {
    type V = SAction;

    open spec fn view(&self) -> SAction {
        match self {
            ResolveAction::Load(p) => SAction::Load(p@),
            ResolveAction::Done(p) => SAction::Done(p@),
            ResolveAction::Fail(e) => SAction::Fail(e@),
            ResolveAction::Idle => SAction::Idle,
        }
    }
}

/// The state is one the steps reach: no file is being followed before the
/// entry is parsed, and while an import is being loaded, the file that names
/// it is being followed and has that import left.
pub open spec fn resolve_wf(s: SResolve) -> bool {
    &&& (s.phase == ResolvePhase::Start || s.phase == ResolvePhase::AwaitEntry) ==> s.frames.len() == 0
    &&& (s.phase == ResolvePhase::AwaitImport || s.phase == ResolvePhase::AwaitChild) ==> s.frames.len() > 0
        && s.frames.last().next < s.frames.last().program.imports.len()
}

// ----------------------------------------------------------------------------
// One step, as a function of the state
// ----------------------------------------------------------------------------

/// The first index from `i` on where `v` holds `p` (`v.len()` if none).
pub open spec fn first_index(v: Seq<Seq<char>>, p: Seq<char>, i: int) -> int
    decreases v.len() - i,
{
    if i < 0 || i >= v.len() {
        v.len() as int
    } else if v[i] == p {
        i
    } else {
        first_index(v, p, i + 1)
    }
}

/// The error for an import cycle through `p`: the chain from the first
/// `p` on, then `p` again.
pub open spec fn cycle_text(stack: Seq<Seq<char>>, p: Seq<char>) -> Seq<char> {
    let k = first_index(stack, p, 0);
    "Circular import detected: "@ + join(stack.subrange(k, stack.len() as int), " -> "@) + " -> "@ + p
}

/// The error for a `use schema;` file that imports an untyped one.
pub open spec fn schema_error_text(import: Seq<char>) -> Seq<char> {
    "Schema file cannot import non-schema file '"@ + import
        + "'. When `use schema;` is active, all imports must also use `use schema;`."@
}

/// `loaded`, with `p` added at the end unless a program is loaded for `path`.
pub open spec fn insert_absent(loaded: Seq<(Seq<char>, SProgram)>, path: Seq<char>, p: SProgram) -> Seq<
    (Seq<char>, SProgram),
> {
    if exists|i: int| 0 <= i < loaded.len() && loaded[i].0 == path {
        loaded
    } else {
        loaded.push((path, p))
    }
}

/// `base` with the declarations of the first `n` loaded programs appended,
/// except those loaded for `entry`.
pub open spec fn merge_upto(base: SProgram, loaded: Seq<(Seq<char>, SProgram)>, entry: Seq<char>, n: nat) -> SProgram
    decreases n,
{
    if n == 0 || n > loaded.len() {
        base
    } else {
        let m = merge_upto(base, loaded, entry, (n - 1) as nat);
        if loaded[n - 1].0 == entry {
            m
        } else {
            let q = loaded[n - 1].1;
            SProgram {
                modules: m.modules + q.modules,
                assertions: m.assertions + q.assertions,
                rules: m.rules + q.rules,
                tests: m.tests + q.tests,
                ..m
            }
        }
    }
}

/// The merged program: the entry's, its imports cleared, followed by the
/// declarations of every other loaded file, in the order they were loaded.
pub open spec fn merged(entry_program: SProgram, loaded: Seq<(Seq<char>, SProgram)>, entry: Seq<char>) -> SProgram {
    merge_upto(SProgram { imports: Seq::empty(), ..entry_program }, loaded, entry, loaded.len())
}

/// The chain without its last file (empty stays empty).
pub open spec fn pop_path(v: Seq<Seq<char>>) -> Seq<Seq<char>> {
    if v.len() > 0 {
        v.drop_last()
    } else {
        v
    }
}

/// The frames with the last one moved past its current import.
pub open spec fn bump(frames: Seq<SFrame>) -> Seq<SFrame> {
    if frames.len() == 0 {
        frames
    } else {
        frames.drop_last().push(SFrame { next: frames.last().next + 1, ..frames.last() })
    }
}

/// The state ended with an error about `path`.
pub open spec fn fail(s: SResolve, message: Seq<char>, path: Seq<char>) -> (SResolve, SAction) {
    (SResolve { phase: ResolvePhase::Finished, ..s }, SAction::Fail(SResolveError { message, path }))
}

/// From the last frame on: ask for its next import, or finish it (keeping its
/// program) and go on with the frame below; after the entry's frame, the
/// merged program.
pub open spec fn advance(s: SResolve) -> (SResolve, SAction)
    decreases s.frames.len(),
{
    if s.frames.len() == 0 {
        (SResolve { phase: ResolvePhase::Finished, ..s }, SAction::Idle)
    } else {
        let f = s.frames.last();
        if f.next < f.program.imports.len() {
            let t = import_target(f.path, f.program.imports[f.next as int]);
            (SResolve { pending: t, phase: ResolvePhase::AwaitImport, ..s }, SAction::Load(t))
        } else if s.frames.len() == 1 {
            (
                SResolve {
                    stack: pop_path(s.stack),
                    loaded: Seq::empty(),
                    frames: Seq::empty(),
                    phase: ResolvePhase::Finished,
                    ..s
                },
                SAction::Done(merged(f.program, s.loaded, s.entry)),
            )
        } else {
            advance(
                SResolve {
                    stack: pop_path(s.stack),
                    loaded: insert_absent(s.loaded, f.path, f.program),
                    frames: s.frames.drop_last(),
                    ..s
                },
            )
        }
    }
}

/// After the file asked for parsed to `p`.
pub open spec fn after_parse(s: SResolve, p: SProgram) -> (SResolve, SAction) {
    if s.phase == ResolvePhase::AwaitImport {
        let f = s.frames.last();
        if f.program.use_schema && !p.use_schema {
            fail(s, schema_error_text(f.program.imports[f.next as int]), f.path)
        } else {
            let s1 = if s.visited.contains(s.pending) {
                s
            } else {
                SResolve { loaded: s.loaded.push((s.pending, p)), ..s }
            };
            if s.stack.contains(s.pending) {
                fail(s1, cycle_text(s.stack, s.pending), s.pending)
            } else if s.visited.contains(s.pending) {
                advance(SResolve { frames: bump(s.frames), ..s1 })
            } else {
                (SResolve { phase: ResolvePhase::AwaitChild, ..s1 }, SAction::Load(s.pending))
            }
        }
    } else {
        advance(
            SResolve {
                visited: s.visited.push(s.pending),
                stack: s.stack.push(s.pending),
                frames: bump(s.frames).push(SFrame { path: s.pending, program: p, next: 0 }),
                ..s
            },
        )
    }
}

/// One step of resolution, given the outcome of the last load and the
/// readings of the numbers of the loaded text. `None` when a number of the
/// loaded text has no reading.
pub open spec fn step_spec(
    s: SResolve,
    loaded: Result<Seq<char>, Seq<char>>,
    nums: Seq<(Seq<char>, SReading)>,
) -> Option<(SResolve, SAction)> {
    match s.phase {
        ResolvePhase::Start => Some(
            (SResolve { pending: s.entry, phase: ResolvePhase::AwaitEntry, ..s }, SAction::Load(s.entry)),
        ),
        ResolvePhase::Finished => Some((s, SAction::Idle)),
        _ => match loaded {
            Err(m) => Some(fail(s, m, s.pending)),
            Ok(src) => match source_program(src, nums, false) {
                None => None,
                Some(Err(e)) => Some(fail(s, "Parse error: "@ + parse_error_text(e), s.pending)),
                Some(Ok(p)) => Some(after_parse(s, p)),
            },
        },
    }
}


// ----------------------------------------------------------------------------
// One step, computed
// ----------------------------------------------------------------------------

fn contains_str(v: &Vec<String>, p: &str) -> (r: bool)
    ensures
        r == strings_view(v@).contains(p@),
{
    let mut i: usize = 0;
    while i < v.len()
        invariant
            i <= v.len(),
            forall|j: int| 0 <= j < i ==> strings_view(v@)[j] != p@,
        decreases v.len() - i,
    {
        if str_eq(v[i].as_str(), p) {
            assert(strings_view(v@)[i as int] == p@);
            return true;
        }
        i += 1;
    }
    false
}

fn cycle_message(stack: &Vec<String>, p: &str) -> (r: String)
    ensures
        r@ == cycle_text(strings_view(stack@), p@),
{
    let ghost sv = strings_view(stack@);
    let mut k: usize = 0;
    while k < stack.len() && !str_eq(stack[k].as_str(), p)
        invariant
            k <= stack.len(),
            sv == strings_view(stack@),
            first_index(sv, p@, 0) == first_index(sv, p@, k as int),
        decreases stack.len() - k,
    {
        k += 1;
    }
    let mut chain: Vec<String> = Vec::new();
    let mut j: usize = k;
    while j < stack.len()
        invariant
            k <= j <= stack.len(),
            sv == strings_view(stack@),
            strings_view(chain@) == sv.subrange(k as int, j as int),
        decreases stack.len() - j,
    {
        let ghost before = chain@;
        chain.push(stack[j].clone());
        assert(strings_view(chain@) =~= strings_view(before).push(stack@[j as int]@));
        assert(strings_view(chain@) =~= sv.subrange(k as int, j + 1));
        j += 1;
    }
    let mut r = String::from_str("Circular import detected: ");
    r.append(join_strings(&chain, " -> ").as_str());
    r.append(" -> ");
    r.append(p);
    r
}

fn schema_message(import: &str) -> (r: String)
    ensures
        r@ == schema_error_text(import@),
{
    let mut r = String::from_str("Schema file cannot import non-schema file '");
    r.append(import);
    r.append("'. When `use schema;` is active, all imports must also use `use schema;`.");
    r
}

fn has_path(loaded: &Vec<(String, Program)>, path: &str) -> (r: bool)
    ensures
        r == exists|i: int| 0 <= i < loaded_view(loaded@).len() && loaded_view(loaded@)[i].0 == path@,
{
    let mut i: usize = 0;
    while i < loaded.len()
        invariant
            i <= loaded.len(),
            forall|j: int| 0 <= j < i ==> loaded_view(loaded@)[j].0 != path@,
        decreases loaded.len() - i,
    {
        if str_eq(loaded[i].0.as_str(), path) {
            assert(loaded_view(loaded@)[i as int].0 == path@);
            return true;
        }
        i += 1;
    }
    false
}

/// The entry's program, its imports cleared, with the declarations of every
/// other loaded program appended in order.
fn merge_exec(entry_program: Program, loaded: Vec<(String, Program)>, entry: &str) -> (r: Program)
    ensures
        r@ == merged(entry_program@, loaded_view(loaded@), entry@),
{
    let ghost lv = loaded_view(loaded@);
    let ghost base = SProgram { imports: Seq::empty(), ..entry_program@ };
    let mut m = entry_program;
    m.imports = Vec::new();
    assert(m@.imports =~= Seq::<Seq<char>>::empty());
    assert(m@ == merge_upto(base, lv, entry@, 0));
    let mut rest = loaded;
    let mut i: usize = 0;
    let ghost n = lv.len();
    assert(n == rest.len());
    while rest.len() > 0
        invariant
            i + rest.len() == n,
            n == lv.len(),
            n <= usize::MAX,
            loaded_view(rest@) == lv.skip(i as int),
            m@ == merge_upto(base, lv, entry@, i as nat),
        decreases rest.len(),
    {
        let ghost before = rest@;
        let (path, mut q) = rest.remove(0);
        assert(lv[i as int] == (path@, q@)) by {
            assert(loaded_view(before)[0] == (path@, q@));
        }
        assert(loaded_view(rest@) =~= lv.skip(i + 1)) by {
            assert(loaded_view(rest@) =~= loaded_view(before).drop_first());
        }
        if !str_eq(path.as_str(), entry) {
            let ghost mv = m@;
            let ghost (om, oa, orr, ot) = (m.modules@, m.assertions@, m.rules@, m.tests@);
            let ghost (qm, qa, qr, qt) = (q.modules@, q.assertions@, q.rules@, q.tests@);
            m.modules.append(&mut q.modules);
            m.assertions.append(&mut q.assertions);
            m.rules.append(&mut q.rules);
            m.tests.append(&mut q.tests);
            proof {
                assert(modules_view(om + qm) =~= modules_view(om) + modules_view(qm));
                assert(asserts_view(oa + qa) =~= asserts_view(oa) + asserts_view(qa));
                assert(rules_view(orr + qr) =~= rules_view(orr) + rules_view(qr));
                assert(tests_view(ot + qt) =~= tests_view(ot) + tests_view(qt));
            }
        }
        i += 1;
    }
    m
}


/// `advance`, computed.
fn advance_exec(s: ResolveState) -> (r: (ResolveState, ResolveAction))
    ensures
        (r.0@, r.1@) == advance(s@),
    decreases s.frames@.len(),
{
    let ghost sv = s@;
    let ResolveState { entry, mut stack, visited, mut loaded, mut frames, pending, phase } = s;
    let n = frames.len();
    if n == 0 {
        let r = ResolveState { entry, stack, visited, loaded, frames, pending, phase: ResolvePhase::Finished };
        return (r, ResolveAction::Idle);
    }
    assert(sv.frames.last() == frames@[n - 1]@);
    let next = frames[n - 1].next;
    if next < frames[n - 1].program.imports.len() {
        assert(sv.frames.last().program.imports[next as int] == frames@[n - 1].program.imports@[next as int]@);
        let t = import_target_exec(frames[n - 1].path.as_str(), frames[n - 1].program.imports[next].as_str());
        let r = ResolveState {
            entry,
            stack,
            visited,
            loaded,
            frames,
            pending: t.clone(),
            phase: ResolvePhase::AwaitImport,
        };
        return (r, ResolveAction::Load(t));
    }
    let ghost fr = frames@;
    let f = frames.pop().unwrap();
    assert(frames_view(frames@) =~= frames_view(fr).drop_last());
    let ghost st = stack@;
    let _ = stack.pop();
    assert(strings_view(stack@) =~= pop_path(strings_view(st)));
    if n == 1 {
        let ImportFrame { path: _, program, next: _ } = f;
        let m = merge_exec(program, loaded, entry.as_str());
        let r = ResolveState {
            entry,
            stack,
            visited,
            loaded: Vec::new(),
            frames,
            pending,
            phase: ResolvePhase::Finished,
        };
        assert(loaded_view(r.loaded@) =~= Seq::<(Seq<char>, SProgram)>::empty());
        assert(frames_view(r.frames@) =~= Seq::<SFrame>::empty());
        return (r, ResolveAction::Done(m));
    }
    let ImportFrame { path, program, next: _ } = f;
    let ghost lv = loaded_view(loaded@);
    if !has_path(&loaded, path.as_str()) {
        loaded.push((path, program));
        assert(loaded_view(loaded@) =~= lv.push((sv.frames.last().path, sv.frames.last().program)));
    }
    let s2 = ResolveState { entry, stack, visited, loaded, frames, pending, phase };
    assert(s2@ == (SResolve {
        stack: pop_path(sv.stack),
        loaded: insert_absent(sv.loaded, sv.frames.last().path, sv.frames.last().program),
        frames: sv.frames.drop_last(),
        ..sv
    }));
    advance_exec(s2)
}


/// The outcome of a load, by its view.
pub open spec fn load_view(r: Result<String, String>) -> Result<Seq<char>, Seq<char>> {
    match r {
        Ok(t) => Ok(t@),
        Err(m) => Err(m@),
    }
}

proof fn lemma_advance_wf(s: SResolve)
    ensures
        resolve_wf(advance(s).0),
    decreases s.frames.len(),
{
    if s.frames.len() > 1 && !(s.frames.last().next < s.frames.last().program.imports.len()) {
        lemma_advance_wf(
            SResolve {
                stack: pop_path(s.stack),
                loaded: insert_absent(s.loaded, s.frames.last().path, s.frames.last().program),
                frames: s.frames.drop_last(),
                ..s
            },
        );
    }
}

impl ResolveState {
    /// The state before anything is loaded, for the entry file at `entry`
    /// (normalized).
    pub fn new(entry: &str) -> (s: ResolveState)
        ensures
            s@ == (SResolve {
                entry: normalize_spec(entry@),
                stack: Seq::empty(),
                visited: Seq::empty(),
                loaded: Seq::empty(),
                frames: Seq::empty(),
                pending: Seq::empty(),
                phase: ResolvePhase::Start,
            }),
            resolve_wf(s@),
    {
        let s = ResolveState {
            entry: normalize_path(entry),
            stack: Vec::new(),
            visited: Vec::new(),
            loaded: Vec::new(),
            frames: Vec::new(),
            pending: String::new(),
            phase: ResolvePhase::Start,
        };
        assert(strings_view(s.stack@) =~= Seq::<Seq<char>>::empty());
        assert(strings_view(s.visited@) =~= Seq::<Seq<char>>::empty());
        assert(loaded_view(s.loaded@) =~= Seq::<(Seq<char>, SProgram)>::empty());
        assert(frames_view(s.frames@) =~= Seq::<SFrame>::empty());
        s
    }
}

/// The last frame moved past its current import.
fn bump_exec(frames: &mut Vec<ImportFrame>)
    requires
        old(frames)@.len() > 0 ==> old(frames)@.last().next < usize::MAX,
    ensures
        frames_view(final(frames)@) == bump(frames_view(old(frames)@)),
{
    if frames.len() > 0 {
        let ghost fr = frames@;
        let mut f = frames.pop().unwrap();
        f.next = f.next + 1;
        frames.push(f);
        assert(frames_view(frames@) =~= bump(frames_view(fr)));
    }
}

/// `after_parse`, computed.
fn after_parse_exec(s: ResolveState, p: Program) -> (r: (ResolveState, ResolveAction))
    requires
        resolve_wf(s@),
        s.phase == ResolvePhase::AwaitEntry || s.phase == ResolvePhase::AwaitImport || s.phase
            == ResolvePhase::AwaitChild,
    ensures
        (r.0@, r.1@) == after_parse(s@, p@),
{
    let ghost sv = s@;
    let ResolveState { entry, mut stack, mut visited, mut loaded, mut frames, pending, phase } = s;
    if phase == ResolvePhase::AwaitImport {
        let n = frames.len();
        assert(sv.frames.last() == frames@[n - 1]@);
        let next = frames[n - 1].next;
        if frames[n - 1].program.use_schema && !p.use_schema {
            let message = schema_message(frames[n - 1].program.imports[next].as_str());
            let path = frames[n - 1].path.clone();
            let r = ResolveState { entry, stack, visited, loaded, frames, pending, phase: ResolvePhase::Finished };
            return (r, ResolveAction::Fail(ResolveError { message, path }));
        }
        let vis = contains_str(&visited, pending.as_str());
        if !vis {
            let ghost lv = loaded_view(loaded@);
            loaded.push((pending.clone(), p));
            assert(loaded_view(loaded@) =~= lv.push((sv.pending, p@)));
        }
        if contains_str(&stack, pending.as_str()) {
            let message = cycle_message(&stack, pending.as_str());
            let path = pending.clone();
            let r = ResolveState { entry, stack, visited, loaded, frames, pending, phase: ResolvePhase::Finished };
            return (r, ResolveAction::Fail(ResolveError { message, path }));
        }
        if vis {
            let il = frames[n - 1].program.imports.len();
            assert(next < il);
            bump_exec(&mut frames);
            let s2 = ResolveState { entry, stack, visited, loaded, frames, pending, phase };
            return advance_exec(s2);
        }
        let t = pending.clone();
        let r = ResolveState { entry, stack, visited, loaded, frames, pending, phase: ResolvePhase::AwaitChild };
        return (r, ResolveAction::Load(t));
    }
    let ghost (vv, st) = (visited@, stack@);
    visited.push(pending.clone());
    stack.push(pending.clone());
    assert(strings_view(visited@) =~= strings_view(vv).push(sv.pending));
    assert(strings_view(stack@) =~= strings_view(st).push(sv.pending));
    if frames.len() > 0 {
        let k = frames.len() - 1;
        let il = frames[k].program.imports.len();
        assert(sv.frames.last() == frames@[k as int]@);
        assert(frames@[k as int].next < il);
    }
    bump_exec(&mut frames);
    let ghost fb = frames@;
    frames.push(ImportFrame { path: pending.clone(), program: p, next: 0 });
    assert(frames_view(frames@) =~= frames_view(fb).push(SFrame { path: sv.pending, program: p@, next: 0 }));
    let s2 = ResolveState { entry, stack, visited, loaded, frames, pending, phase };
    advance_exec(s2)
}

/// One step of import resolution: given the state and the outcome of the
/// last load (the file's text, or the loader's error message) with the
/// readings of the numbers that text holds, the next state and what to do
/// next. A cycle of imports, a `use schema;` file importing an untyped one,
/// a load error and a parse error each end resolution with an error; a file
/// imported twice is followed once. `None` when a number of the loaded text
/// has no reading.
pub fn resolve_step(
    state: ResolveState,
    loaded: Result<String, String>,
    numbers: Vec<(String, NumberReading)>,
) -> (r: Option<(ResolveState, ResolveAction)>)
    requires
        resolve_wf(state@),
        loaded matches Ok(t) ==> t@.len() < usize::MAX,
    ensures
        match r {
            Some((s2, a)) => step_spec(state@, load_view(loaded), readings_view(numbers@)) == Some(
                (s2@, a@),
            ) && resolve_wf(s2@),
            None => step_spec(state@, load_view(loaded), readings_view(numbers@)) is None,
        },
{
    let mut state = state;
    let ghost sv = state@;
    match state.phase {
        ResolvePhase::Start => {
            let e = state.entry.clone();
            state.pending = state.entry.clone();
            state.phase = ResolvePhase::AwaitEntry;
            Some((state, ResolveAction::Load(e)))
        },
        ResolvePhase::Finished => Some((state, ResolveAction::Idle)),
        _ => match loaded {
            Err(m) => {
                let path = state.pending.clone();
                state.phase = ResolvePhase::Finished;
                Some((state, ResolveAction::Fail(ResolveError { message: m, path })))
            },
            Ok(src) => match parse_source(src.as_str(), numbers, false) {
                None => None,
                Some(Err(e)) => {
                    let mut message = String::from_str("Parse error: ");
                    message.append(e.to_string().as_str());
                    let path = state.pending.clone();
                    state.phase = ResolvePhase::Finished;
                    Some((state, ResolveAction::Fail(ResolveError { message, path })))
                },
                Some(Ok(p)) => {
                    let r = after_parse_exec(state, p);
                    proof {
                        let sp = SResolve { visited: sv.visited.push(sv.pending), stack: sv.stack.push(sv.pending), frames: bump(sv.frames).push(SFrame { path: sv.pending, program: p@, next: 0 }), ..sv };
                        lemma_advance_wf(sp);
                        if sv.phase == ResolvePhase::AwaitImport {
                            let s1 = if sv.visited.contains(sv.pending) {
                                sv
                            } else {
                                SResolve { loaded: sv.loaded.push((sv.pending, p@)), ..sv }
                            };
                            lemma_advance_wf(SResolve { frames: bump(sv.frames), ..s1 });
                        }
                    }
                    Some(r)
                },
            },
        },
    }
}

} // verus!
