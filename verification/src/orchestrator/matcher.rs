//! Which files concern which process: the include and exclude globs of each
//! process, and the reload intents that a file-system event raises.

use vstd::prelude::*;
use crate::orchestrator::watcher::ReloadEvent;
use crate::parser::ast::{GlobPattern, PatternModel};

use crate::text::{append_chars, chars_of, copy_range, string_of};

verus! {

#[verifier::external_type_specification]
#[verifier::external_body]
pub struct ExGlobSet(globset::GlobSet);

#[verifier::external_type_specification]
#[verifier::external_body]
pub struct ExGlobSetBuilder(globset::GlobSetBuilder);

/// The patterns that were added to a builder, in the order of their
/// addition.
pub uninterp spec fn builder_patterns(builder: globset::GlobSetBuilder) -> Seq<Seq<char>>;

/// The patterns of the globs that a set holds, in the order in which they
/// were added to its builder.
pub uninterp spec fn set_patterns(set: globset::GlobSet) -> Seq<Seq<char>>;

/// Whether at least one of the globs written by `patterns` matches `path`.
pub uninterp spec fn set_matches(patterns: Seq<Seq<char>>, path: Seq<char>) -> bool;

/// `GlobSetBuilder::new`: a builder to which no glob was added.
#[verifier::external_body]
fn builder_new() -> (r: globset::GlobSetBuilder)
    ensures
        builder_patterns(r).len() == 0,
{
    globset::GlobSetBuilder::new()
}

/// What `Glob::new` finds wrong with a pattern: the text of its error, or
/// nothing where the pattern is a glob.
pub uninterp spec fn pattern_fault(pattern: Seq<char>) -> Option<Seq<char>>;

/// `Glob::new` and `GlobSetBuilder::add`: parses `pattern` as a glob and adds
/// it to the builder. Where the pattern is no glob, nothing is added and the
/// text of the error comes back.
#[verifier::external_body]
fn add_pattern(builder: &mut globset::GlobSetBuilder, pattern: &str) -> (r: Result<(), String>)
    ensures
        match r {
            Ok(_) => pattern_fault(pattern@).is_none() && builder_patterns(*final(builder))
                == builder_patterns(*old(builder)).push(pattern@),
            Err(e) => pattern_fault(pattern@) == Some(e@) && builder_patterns(*final(builder))
                == builder_patterns(*old(builder)),
        },
{
    match globset::Glob::new(pattern) {
        Ok(glob) => {
            builder.add(glob);
            Ok(())
        },
        Err(e) => Err(e.to_string()),
    }
}

/// What `GlobSetBuilder::build` finds wrong with the globs written by
/// `patterns`: the text of its error, or nothing where they make a set.
pub uninterp spec fn build_fault(patterns: Seq<Seq<char>>) -> Option<Seq<char>>;

/// `GlobSetBuilder::build`: the set of the globs that were added to the
/// builder, or the text of the error where they cannot be compiled.
#[verifier::external_body]
fn build_set(builder: &globset::GlobSetBuilder) -> (r: Result<globset::GlobSet, String>)
    ensures
        match r {
            Ok(set) => build_fault(builder_patterns(*builder)).is_none() && set_patterns(set)
                == builder_patterns(*builder),
            Err(e) => build_fault(builder_patterns(*builder)) == Some(e@),
        },
{
    builder.build().map_err(|e| e.to_string())
}

/// `GlobSet::is_empty`: whether the set holds no glob.
#[verifier::external_body]
fn set_is_empty(set: &globset::GlobSet) -> (r: bool)
    ensures
        r == (set_patterns(*set).len() == 0),
{
    set.is_empty()
}

/// `GlobSet::is_match`: whether any glob of the set matches the path.
#[verifier::external_body]
fn set_is_match(set: &globset::GlobSet, path: &str) -> (r: bool)
    ensures
        r == set_matches(set_patterns(*set), path@),
{
    set.is_match(path)
}

/// `pattern` without a leading `./`.
pub open spec fn normalized(pattern: Seq<char>) -> Seq<char> {
    if pattern.len() >= 2 && pattern[0] == '.' && pattern[1] == '/' {
        pattern.skip(2)
    } else {
        pattern
    }
}

/// Strips a leading `./` from a pattern.
pub fn normalize_pattern(pattern: &str) -> (r: String)
    ensures
        r@ == normalized(pattern@),
{
    let v = chars_of(pattern);
    if v.len() >= 2 && v[0] == '.' && v[1] == '/' {
        let rest = copy_range(&v, 2, v.len());
        assert(rest@ =~= v@.skip(2));
        string_of(&rest)
    } else {
        string_of(&v)
    }
}

/// The include and exclude globs of one process.
pub struct ProcessMatcher {
    pub name: String,
    pub includes: globset::GlobSet,
    pub excludes: globset::GlobSet,
}

impl ProcessMatcher {
    /// The patterns that a path must match one of.
    pub open spec fn include_patterns(&self) -> Seq<Seq<char>> {
        set_patterns(self.includes)
    }

    /// The patterns that a path must match none of.
    pub open spec fn exclude_patterns(&self) -> Seq<Seq<char>> {
        set_patterns(self.excludes)
    }

    /// Whether `path` concerns the process: at least one include glob
    /// matches it and no exclude glob does. A process without include
    /// patterns is concerned by nothing.
    pub open spec fn concerns(&self, path: Seq<char>) -> bool {
        self.include_patterns().len() > 0 && set_matches(self.include_patterns(), path)
            && !set_matches(self.exclude_patterns(), path)
    }

    /// Whether `path` concerns the process.
    pub fn matches(&self, path: &str) -> (r: bool)
        ensures
            r == self.concerns(path@),
    {
        if set_is_empty(&self.includes) {
            return false;
        }
        let matches_include = set_is_match(&self.includes, path);
        let matches_exclude = set_is_match(&self.excludes, path);
        matches_include && !matches_exclude
    }
}

/// The law of the matcher. A path concerns a process exactly where at least
/// one of its include globs matches the path and none of its exclude globs
/// does; a process without include patterns is concerned by no path.
pub proof fn lemma_matcher_law(m: ProcessMatcher, path: Seq<char>)
    ensures
        m.concerns(path) == (m.include_patterns().len() > 0 && set_matches(
            m.include_patterns(),
            path,
        ) && !set_matches(m.exclude_patterns(), path)),
        m.include_patterns().len() == 0 ==> !m.concerns(path),
        set_matches(m.exclude_patterns(), path) ==> !m.concerns(path),
{
}

/// The patterns among the first `n` of `patterns` that exclude (`exclude`
/// set) or include (`exclude` clear), each normalised, in their order.
pub open spec fn selected(patterns: Seq<PatternModel>, n: int, exclude: bool) -> Seq<Seq<char>>
    decreases n,
{
    if n <= 0 || n > patterns.len() {
        Seq::empty()
    } else if patterns[n - 1].exclude == exclude {
        selected(patterns, n - 1, exclude).push(normalized(patterns[n - 1].pattern))
    } else {
        selected(patterns, n - 1, exclude)
    }
}

/// The index of the first of `patterns[from..]` that is no glob once it is
/// normalised, or -1.
pub open spec fn first_faulty(patterns: Seq<PatternModel>, from: int) -> int
    decreases patterns.len() - from,
{
    if from < 0 || from >= patterns.len() {
        -1
    } else if pattern_fault(normalized(patterns[from].pattern)).is_some() {
        from
    } else {
        first_faulty(patterns, from + 1)
    }
}

/// The message for a pattern that is no glob.
pub open spec fn invalid_pattern_message(pattern: Seq<char>, reason: Seq<char>) -> Seq<char> {
    "invalid glob pattern '"@ + pattern + "': "@ + reason
}

/// What keeps the watch patterns `patterns` from making a matcher, as it is
/// reported: the first pattern that is no glob, with the pattern as it was
/// written; else what keeps the includes from making a set; else what keeps
/// the excludes from making one. Nothing where a matcher can be built.
pub open spec fn matcher_fault(patterns: Seq<PatternModel>) -> Option<Seq<char>> {
    let bad = first_faulty(patterns, 0);
    let includes = selected(patterns, patterns.len() as int, false);
    let excludes = selected(patterns, patterns.len() as int, true);
    if bad >= 0 {
        Some(
            invalid_pattern_message(
                patterns[bad].pattern,
                pattern_fault(normalized(patterns[bad].pattern)).unwrap(),
            ),
        )
    } else if build_fault(includes).is_some() {
        build_fault(includes)
    } else {
        build_fault(excludes)
    }
}

/// Builds the matcher of the process `name` from its watch patterns. Each
/// pattern is normalised and compiled by the glob library; the matcher holds
/// the includes and the excludes, each in their order. Fails exactly where
/// the glob library refuses a pattern or a set, with the text that reports
/// it.
pub fn build_matcher(name: &str, patterns: &Vec<GlobPattern>) -> (r: Result<ProcessMatcher, String>)
    ensures
        match r {
            Ok(m) => matcher_fault(crate::parser::ast::patterns_view(patterns@)).is_none()
                && m.name@ == name@ && m.include_patterns() == selected(
                crate::parser::ast::patterns_view(patterns@),
                patterns@.len() as int,
                false,
            ) && m.exclude_patterns() == selected(
                crate::parser::ast::patterns_view(patterns@),
                patterns@.len() as int,
                true,
            ),
            Err(e) => matcher_fault(crate::parser::ast::patterns_view(patterns@)) == Some(e@),
        },
{
    let ghost models = crate::parser::ast::patterns_view(patterns@);
    let mut includes = builder_new();
    let mut excludes = builder_new();
    let mut i: usize = 0;
    assert(builder_patterns(includes) =~= selected(models, 0, false));
    assert(builder_patterns(excludes) =~= selected(models, 0, true));
    while i < patterns.len()
        invariant
            i <= patterns@.len(),
            models == crate::parser::ast::patterns_view(patterns@),
            builder_patterns(includes) == selected(models, i as int, false),
            builder_patterns(excludes) == selected(models, i as int, true),
            first_faulty(models, 0) == first_faulty(models, i as int),
        decreases patterns@.len() - i,
    {
        let pattern = &patterns[i];
        assert(models[i as int] == pattern@);
        let normal = normalize_pattern(pattern.pattern.as_str());
        let added = if pattern.exclude {
            add_pattern(&mut excludes, normal.as_str())
        } else {
            add_pattern(&mut includes, normal.as_str())
        };
        match added {
            Ok(_) => {},
            Err(reason) => {
                let mut text = chars_of("invalid glob pattern '");
                let shown = chars_of(pattern.pattern.as_str());
                append_chars(&mut text, &shown);
                let middle = chars_of("': ");
                append_chars(&mut text, &middle);
                let why = chars_of(reason.as_str());
                append_chars(&mut text, &why);
                assert(first_faulty(models, 0) == i);
                return Err(string_of(&text));
            },
        }
        i += 1;
    }
    assert(first_faulty(models, 0) < 0);
    let includes = match build_set(&includes) {
        Ok(set) => set,
        Err(e) => {
            return Err(e);
        },
    };
    let excludes = match build_set(&excludes) {
        Ok(set) => set,
        Err(e) => {
            return Err(e);
        },
    };
    Ok(ProcessMatcher { name: string_of(&chars_of(name)), includes, excludes })
}

/// The index of the first of `processes[from..]` whose patterns make no
/// matcher, or -1.
pub open spec fn first_unbuildable(processes: Seq<(String, Vec<GlobPattern>)>, from: int) -> int
    decreases processes.len() - from,
{
    if from < 0 || from >= processes.len() {
        -1
    } else if matcher_fault(crate::parser::ast::patterns_view(processes[from].1@)).is_some() {
        from
    } else {
        first_unbuildable(processes, from + 1)
    }
}

/// Builds the matchers of the processes that have watch patterns: for each,
/// its name and its patterns. Fails exactly where the patterns of one of
/// them make no matcher, with what is reported for the first such process.
pub fn build_matchers(processes: &Vec<(String, Vec<GlobPattern>)>) -> (r: Result<
    Vec<ProcessMatcher>,
    String,
>)
    ensures
        match r {
            Ok(matchers) => first_unbuildable(processes@, 0) < 0 && matchers@.len()
                == processes@.len() && forall|i: int|
                0 <= i < processes@.len() ==> (#[trigger] matchers@[i]).name@ == processes@[i].0@
                    && matchers@[i].include_patterns() == selected(
                    crate::parser::ast::patterns_view(processes@[i].1@),
                    processes@[i].1@.len() as int,
                    false,
                ) && matchers@[i].exclude_patterns() == selected(
                    crate::parser::ast::patterns_view(processes@[i].1@),
                    processes@[i].1@.len() as int,
                    true,
                ),
            Err(e) => first_unbuildable(processes@, 0) >= 0 && matcher_fault(
                crate::parser::ast::patterns_view(
                    processes@[first_unbuildable(processes@, 0)].1@,
                ),
            ) == Some(e@),
        },
{
    let mut matchers: Vec<ProcessMatcher> = Vec::new();
    let mut i: usize = 0;
    while i < processes.len()
        invariant
            i <= processes@.len(),
            matchers@.len() == i,
            first_unbuildable(processes@, 0) == first_unbuildable(processes@, i as int),
            forall|k: int|
                0 <= k < i ==> (#[trigger] matchers@[k]).name@ == processes@[k].0@
                    && matchers@[k].include_patterns() == selected(
                    crate::parser::ast::patterns_view(processes@[k].1@),
                    processes@[k].1@.len() as int,
                    false,
                ) && matchers@[k].exclude_patterns() == selected(
                    crate::parser::ast::patterns_view(processes@[k].1@),
                    processes@[k].1@.len() as int,
                    true,
                ),
        decreases processes@.len() - i,
    {
        match build_matcher(processes[i].0.as_str(), &processes[i].1) {
            Ok(m) => {
                matchers.push(m);
            },
            Err(e) => {
                return Err(e);
            },
        }
        i += 1;
    }
    Ok(matchers)
}

/// What happened to the paths of a file-system event.
#[derive(Debug, Clone, Copy, PartialEq, Eq, Structural)]
pub enum FsEventKind {
    Create,
    /// A change of content, of a name, or of an unknown kind.
    Modify,
    /// A change of metadata alone.
    ModifyMetadata,
    Remove,
    /// An access, or anything else.
    Other,
}

/// A file-system event: its kind and its paths, relative to the base
/// directory.
#[derive(Debug, Clone, PartialEq, Eq)]
pub struct FsEvent {
    pub kind: FsEventKind,
    pub paths: Vec<String>,
}

/// Whether events of this kind raise reload intents: creations, removals,
/// and modifications of more than metadata.
pub open spec fn kind_counts(kind: FsEventKind) -> bool {
    kind == FsEventKind::Create || kind == FsEventKind::Modify || kind == FsEventKind::Remove
}

/// The index of the first of `paths[from..]` that concerns the process of
/// `m`, or -1.
pub open spec fn first_concerning(m: ProcessMatcher, paths: Seq<String>, from: int) -> int
    decreases paths.len() - from,
{
    if from < 0 || from >= paths.len() {
        -1
    } else if m.concerns(paths[from]@) {
        from
    } else {
        first_concerning(m, paths, from + 1)
    }
}

/// Whether an event of the kind `kind` on `paths` raises an intent for the
/// process of `m`.
pub open spec fn raises(m: ProcessMatcher, kind: FsEventKind, paths: Seq<String>) -> bool {
    kind_counts(kind) && first_concerning(m, paths, 0) >= 0
}

/// The intents that the event raises for the first `n` matchers: for each
/// process that a path of the event concerns, one intent, with the first
/// such path.
pub open spec fn intents_upto(
    matchers: Seq<ProcessMatcher>,
    kind: FsEventKind,
    paths: Seq<String>,
    n: int,
) -> Seq<(Seq<char>, Seq<char>)>
    decreases n,
{
    if n <= 0 || n > matchers.len() {
        Seq::empty()
    } else if raises(matchers[n - 1], kind, paths) {
        intents_upto(matchers, kind, paths, n - 1).push(
            (matchers[n - 1].name@, paths[first_concerning(matchers[n - 1], paths, 0)]@),
        )
    } else {
        intents_upto(matchers, kind, paths, n - 1)
    }
}

/// The processes and paths of the intents in `v`.
pub open spec fn intents_view(v: Seq<ReloadEvent>) -> Seq<(Seq<char>, Seq<char>)> {
    Seq::new(v.len(), |i: int| (v[i].process@, v[i].path@))
}

/// The reload intents that a file-system event raises: at most one for each
/// process, in the order of the matchers, each with the first path of the
/// event that concerns the process. Events that only read, and changes of
/// metadata alone, raise none.
pub fn handle_event(event: &FsEvent, matchers: &Vec<ProcessMatcher>) -> (r: Vec<ReloadEvent>)
    ensures
        intents_view(r@) == intents_upto(
            matchers@,
            event.kind,
            event.paths@,
            matchers@.len() as int,
        ),
{
    let mut out: Vec<ReloadEvent> = Vec::new();
    let counts = match event.kind {
        FsEventKind::Create => true,
        FsEventKind::Modify => true,
        FsEventKind::Remove => true,
        _ => false,
    };
    let mut i: usize = 0;
    assert(intents_view(out@) =~= Seq::empty());
    while i < matchers.len()
        invariant
            i <= matchers@.len(),
            counts == kind_counts(event.kind),
            intents_view(out@) == intents_upto(matchers@, event.kind, event.paths@, i as int),
        decreases matchers@.len() - i,
    {
        if counts {
            let m = &matchers[i];
            let mut k: usize = 0;
            let mut found: Option<usize> = None;
            while k < event.paths.len() && found.is_none()
                invariant
                    k <= event.paths@.len(),
                    m == &matchers@[i as int],
                    match found {
                        Some(f) => first_concerning(*m, event.paths@, 0) == f && f
                            < event.paths@.len(),
                        None => first_concerning(*m, event.paths@, 0) == first_concerning(
                            *m,
                            event.paths@,
                            k as int,
                        ),
                    },
                decreases event.paths@.len() - k + (if found.is_none() { 1int } else { 0int }),
            {
                if m.matches(event.paths[k].as_str()) {
                    found = Some(k);
                } else {
                    k += 1;
                }
            }
            match found {
                Some(f) => {
                    let ghost before = intents_view(out@);
                    let intent = ReloadEvent {
                        process: m.name.clone(),
                        path: event.paths[f].clone(),
                    };
                    let ghost pair = (intent.process@, intent.path@);
                    out.push(intent);
                    assert(intents_view(out@) =~= before.push(pair));
                },
                None => {},
            }
        }
        i += 1;
    }
    out
}

} // verus!
