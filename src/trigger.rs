//! The trigger pipeline: from raw upgrade notices to the packages to mark for
//! rebuild, combining the curated registry, the user's overrides, the version
//! thresholds and the answers of the package database.
use std::cmp::Ordering;

use vstd::prelude::*;

use crate::overrides::{
    is_bin_package, keys, lookup, may_mark, trigger_targets, ends_with_bin, Overrides,
    OverridesView,
};
use crate::text::{chars_of, contains_string, find_first, first_index, str_eq, views};
use crate::triggers::{curated_list, curated_threshold, curated_triggers, entry_views, get_curated_threshold};
use crate::version::{
    compare_str, compare_text, exceeds, exceeds_threshold, lemma_compare_text_swap, lemma_compare_text_trans,
    opt_view, parse_version, Threshold, Version,
};

verus! {

/// One upgrade notice: `name`, or `name:oldver:newver`.
#[derive(Debug, Clone, PartialEq, Eq)]
pub struct TriggerInput {
    /// Package name.
    pub name: String,
    /// Version before the upgrade.
    pub old_version: Option<String>,
    /// Version after the upgrade.
    pub new_version: Option<String>,
}

pub struct TriggerInputView {
    pub name: Seq<char>,
    pub old_version: Option<Seq<char>>,
    pub new_version: Option<Seq<char>>,
}

impl View for TriggerInput {
    type V = TriggerInputView;

    open spec fn view(&self) -> TriggerInputView {
        TriggerInputView {
            name: self.name@,
            old_version: opt_view(self.old_version),
            new_version: opt_view(self.new_version),
        }
    }
}

/// The notice that a raw string gives: split at the first two `:`, everything
/// after the second one being the new version; without two `:` the whole
/// string is the name.
pub open spec fn parse_trigger_input(s: Seq<char>) -> TriggerInputView {
    let whole = TriggerInputView { name: s, old_version: None, new_version: None };
    match first_index(s, ':') {
        Some(a) => {
            let rest = s.skip(a + 1);
            match first_index(rest, ':') {
                Some(b) => TriggerInputView {
                    name: s.take(a),
                    old_version: Some(rest.take(b)),
                    new_version: Some(rest.skip(b + 1)),
                },
                None => whole,
            }
        },
        None => whole,
    }
}

/// Whether a notice fires under threshold `t`: always without both versions or
/// when one does not parse, else when the change clears `t`.
pub open spec fn input_exceeds(input: TriggerInputView, t: Threshold) -> bool {
    match (input.old_version, input.new_version) {
        (Some(o), Some(n)) => match (parse_version(o), parse_version(n)) {
            (Some(a), Some(b)) => exceeds(a, b, t),
            _ => true,
        },
        _ => true,
    }
}

impl TriggerInput {
    /// Reads `name` or `name:oldver:newver`.
    pub fn parse(input: &str) -> (r: TriggerInput)
        ensures
            r@ == parse_trigger_input(input@),
    {
        let cs = chars_of(input);
        let n = cs.len();
        match find_first(&cs, ':') {
            Some(a) => {
                let rest = input.substring_char(a + 1, n);
                let rc = chars_of(rest);
                match find_first(&rc, ':') {
                    Some(b) => {
                        let name = input.substring_char(0, a).to_owned();
                        let old = rest.substring_char(0, b).to_owned();
                        let new = rest.substring_char(b + 1, rc.len()).to_owned();
                        TriggerInput { name, old_version: Some(old), new_version: Some(new) }
                    },
                    None => TriggerInput {
                        name: input.to_owned(),
                        old_version: None,
                        new_version: None,
                    },
                }
            },
            None => TriggerInput { name: input.to_owned(), old_version: None, new_version: None },
        }
    }

    /// Whether this notice fires under `threshold`; it does without version
    /// information and where a version does not parse.
    pub fn exceeds_threshold(&self, threshold: Threshold) -> (r: bool)
        ensures
            r == input_exceeds(self@, threshold),
    {
        match (&self.old_version, &self.new_version) {
            (Some(old), Some(new)) => {
                match (Version::parse(old.as_str()), Version::parse(new.as_str())) {
                    (Some(a), Some(b)) => exceeds_threshold(&a, &b, threshold),
                    _ => true,
                }
            },
            _ => true,
        }
    }
}

/// A package to mark, with the trigger that marks it.
#[derive(Debug, Clone)]
pub struct MarkedPackage {
    /// The package name.
    pub package: String,
    /// The trigger that caused the mark.
    pub trigger: String,
}

impl View for MarkedPackage {
    type V = (Seq<char>, Seq<char>);

    open spec fn view(&self) -> (Seq<char>, Seq<char>) {
        (self.package@, self.trigger@)
    }
}

/// The outcome of one run of the pipeline.
#[derive(Debug)]
pub struct TriggerResult {
    /// Packages to mark, each once, attributed to the first trigger that marked it.
    pub marked: Vec<MarkedPackage>,
    /// Notices whose package is no trigger.
    pub skipped: Vec<String>,
    /// Triggers whose change of version stayed below their threshold.
    pub below_threshold: Vec<String>,
}

pub struct TriggerResultView {
    pub marked: Seq<(Seq<char>, Seq<char>)>,
    pub skipped: Seq<Seq<char>>,
    pub below_threshold: Seq<Seq<char>>,
}

pub open spec fn marked_views(v: Seq<MarkedPackage>) -> Seq<(Seq<char>, Seq<char>)> {
    v.map_values(|m: MarkedPackage| m@)
}

impl View for TriggerResult {
    type V = TriggerResultView;

    open spec fn view(&self) -> TriggerResultView {
        TriggerResultView {
            marked: marked_views(self.marked@),
            skipped: views(self.skipped@),
            below_threshold: views(self.below_threshold@),
        }
    }
}

/// The answers of the reverse-dependency lookup, by trigger name.
pub open spec fn table_view(t: Seq<(String, Vec<String>)>) -> Seq<(Seq<char>, Seq<Seq<char>>)> {
    t.map_values(|e: (String, Vec<String>)| (e.0@, views(e.1@)))
}

/// A package is a trigger when it is curated or has an override of the user's.
pub open spec fn is_trigger_name(ov: OverridesView, name: Seq<char>) -> bool {
    curated_threshold(name) is Some || lookup(ov.triggers, name) is Some
}

/// The curated threshold of a curated trigger, else the default.
pub open spec fn effective_threshold(name: Seq<char>, default: Threshold) -> Threshold {
    match curated_threshold(name) {
        Some(t) => t,
        None => default,
    }
}

/// What the reverse-dependency lookup answered for `name`; nothing when it was not asked.
pub open spec fn deps_for(table: Seq<(Seq<char>, Seq<Seq<char>>)>, name: Seq<char>) -> Seq<
    Seq<char>,
> {
    match lookup(table, name) {
        Some(d) => d,
        None => seq![],
    }
}

/// The reverse dependencies that are foreign packages and no `-bin` package, in order.
pub open spec fn foreign_dependents(deps: Seq<Seq<char>>, universe: Seq<Seq<char>>) -> Seq<
    Seq<char>,
>
    decreases deps.len(),
{
    if deps.len() == 0 {
        seq![]
    } else {
        let d = deps.last();
        foreign_dependents(deps.drop_last(), universe) + if universe.contains(d)
            && !is_bin_package(d) {
            seq![d]
        } else {
            seq![]
        }
    }
}

/// The candidates that the package overrides let `trigger` mark, in order.
pub open spec fn markable(ov: OverridesView, trigger: Seq<char>, cands: Seq<Seq<char>>) -> Seq<
    Seq<char>,
>
    decreases cands.len(),
{
    if cands.len() == 0 {
        seq![]
    } else {
        let c = cands.last();
        markable(ov, trigger, cands.drop_last()) + if may_mark(ov, c, trigger) {
            seq![c]
        } else {
            seq![]
        }
    }
}

/// The packages that a firing trigger marks: its override's targets, or else
/// its foreign reverse dependencies; then those the package overrides allow.
pub open spec fn dependents(
    ov: OverridesView,
    name: Seq<char>,
    universe: Seq<Seq<char>>,
    table: Seq<(Seq<char>, Seq<Seq<char>>)>,
) -> Seq<Seq<char>> {
    let cands = match trigger_targets(ov, name, universe) {
        Some(ts) => ts,
        None => foreign_dependents(deps_for(table, name), universe),
    };
    markable(ov, name, cands)
}

/// Each package attributed to `trigger`.
pub open spec fn attribute(ps: Seq<Seq<char>>, trigger: Seq<char>) -> Seq<(Seq<char>, Seq<char>)> {
    ps.map_values(|p: Seq<char>| (p, trigger))
}

/// Whether notice `s` fires: its package is a trigger and the change clears the threshold.
pub open spec fn fires(s: Seq<char>, default: Threshold, ov: OverridesView) -> bool {
    let inp = parse_trigger_input(s);
    is_trigger_name(ov, inp.name) && input_exceeds(inp, effective_threshold(inp.name, default))
}

/// The name whose reverse dependencies the pipeline consults for notice `s`:
/// that of a firing trigger without an override of its own.
pub open spec fn lookup_needed(s: Seq<char>, default: Threshold, ov: OverridesView) -> Option<
    Seq<char>,
> {
    let name = parse_trigger_input(s).name;
    if fires(s, default, ov) && lookup(ov.triggers, name) is None {
        Some(name)
    } else {
        None
    }
}

/// The result after one more notice, before deduplication.
pub open spec fn step(
    r: TriggerResultView,
    s: Seq<char>,
    default: Threshold,
    ov: OverridesView,
    universe: Seq<Seq<char>>,
    table: Seq<(Seq<char>, Seq<Seq<char>>)>,
) -> TriggerResultView {
    let inp = parse_trigger_input(s);
    let name = inp.name;
    if !is_trigger_name(ov, name) {
        TriggerResultView {
            marked: r.marked,
            skipped: r.skipped.push(name),
            below_threshold: r.below_threshold,
        }
    } else if !input_exceeds(inp, effective_threshold(name, default)) {
        TriggerResultView {
            marked: r.marked,
            skipped: r.skipped,
            below_threshold: r.below_threshold.push(name),
        }
    } else {
        TriggerResultView {
            marked: r.marked + attribute(dependents(ov, name, universe, table), name),
            skipped: r.skipped,
            below_threshold: r.below_threshold,
        }
    }
}

/// The notices processed in order, before deduplication.
pub open spec fn run_pipeline(
    inputs: Seq<Seq<char>>,
    default: Threshold,
    ov: OverridesView,
    universe: Seq<Seq<char>>,
    table: Seq<(Seq<char>, Seq<Seq<char>>)>,
) -> TriggerResultView
    decreases inputs.len(),
{
    if inputs.len() == 0 {
        TriggerResultView { marked: seq![], skipped: seq![], below_threshold: seq![] }
    } else {
        step(
            run_pipeline(inputs.drop_last(), default, ov, universe, table),
            inputs.last(),
            default,
            ov,
            universe,
            table,
        )
    }
}

/// Whether some entry of `ms` marks package `p`.
pub open spec fn has_package(ms: Seq<(Seq<char>, Seq<char>)>, p: Seq<char>) -> bool {
    exists|j: int| 0 <= j < ms.len() && (#[trigger] ms[j]).0 == p
}

/// The entries of `ms` that mark a package for the first time, in order.
pub open spec fn first_per_package(ms: Seq<(Seq<char>, Seq<char>)>) -> Seq<(Seq<char>, Seq<char>)>
    decreases ms.len(),
{
    if ms.len() == 0 {
        seq![]
    } else {
        let prev = first_per_package(ms.drop_last());
        if has_package(ms.drop_last(), ms.last().0) {
            prev
        } else {
            prev.push(ms.last())
        }
    }
}

/// The result of the pipeline: the marks deduplicated, first trigger winning.
pub open spec fn pipeline(
    inputs: Seq<Seq<char>>,
    default: Threshold,
    ov: OverridesView,
    universe: Seq<Seq<char>>,
    table: Seq<(Seq<char>, Seq<Seq<char>>)>,
) -> TriggerResultView {
    let r = run_pipeline(inputs, default, ov, universe, table);
    TriggerResultView {
        marked: first_per_package(r.marked),
        skipped: r.skipped,
        below_threshold: r.below_threshold,
    }
}

proof fn lemma_first_per_package_has(ms: Seq<(Seq<char>, Seq<char>)>, p: Seq<char>)
    ensures
        has_package(first_per_package(ms), p) == has_package(ms, p),
    decreases ms.len(),
{
    if ms.len() > 0 {
        let prev = ms.drop_last();
        lemma_first_per_package_has(prev, p);
        let f = first_per_package(ms);
        if has_package(ms, p) {
            let j = choose|j: int| 0 <= j < ms.len() && (#[trigger] ms[j]).0 == p;
            if j < ms.len() - 1 {
                assert(prev[j] == ms[j]);
                assert(has_package(prev, p));
                let k = choose|k: int| 0 <= k < first_per_package(prev).len() && (#[trigger] first_per_package(prev)[k]).0 == p;
                assert(f[k] == first_per_package(prev)[k]);
            } else if has_package(prev, ms.last().0) {
                let k = choose|k: int| 0 <= k < prev.len() && (#[trigger] prev[k]).0 == ms.last().0;
                assert(has_package(prev, p));
                let k2 = choose|k: int| 0 <= k < first_per_package(prev).len() && (#[trigger] first_per_package(prev)[k]).0 == p;
                assert(f[k2] == first_per_package(prev)[k2]);
            } else {
                assert(f[f.len() - 1] == ms.last());
            }
        }
        if has_package(f, p) {
            let j = choose|j: int| 0 <= j < f.len() && (#[trigger] f[j]).0 == p;
            if j < first_per_package(prev).len() {
                assert(first_per_package(prev)[j] == f[j]);
                assert(has_package(first_per_package(prev), p));
                let k = choose|k: int| 0 <= k < prev.len() && (#[trigger] prev[k]).0 == p;
                assert(ms[k] == prev[k]);
            } else {
                assert(ms[ms.len() - 1].0 == p);
            }
        }
    }
}

fn clone_marked(m: &MarkedPackage) -> (r: MarkedPackage)
    ensures
        r@ == m@,
{
    MarkedPackage { package: m.package.clone(), trigger: m.trigger.clone() }
}

fn marks_package(ms: &Vec<MarkedPackage>, p: &str) -> (r: bool)
    ensures
        r == has_package(marked_views(ms@), p@),
{
    let ghost mv = marked_views(ms@);
    let mut i: usize = 0;
    while i < ms.len()
        invariant
            mv == marked_views(ms@),
            i <= ms.len(),
            forall|j: int| 0 <= j < i ==> (#[trigger] mv[j]).0 != p@,
        decreases ms.len() - i,
    {
        if str_eq(ms[i].package.as_str(), p) {
            assert(mv[i as int].0 == p@);
            return true;
        }
        i = i + 1;
    }
    false
}

/// Keeps the first entry for each package, in order; later entries for a
/// package already marked are dropped, whatever their trigger.
pub fn deduplicate_marked(marked: &mut Vec<MarkedPackage>)
    ensures
        marked_views(final(marked)@) == first_per_package(marked_views(old(marked)@)),
{
    let ghost mv = marked_views(marked@);
    let mut out: Vec<MarkedPackage> = Vec::new();
    let mut i: usize = 0;
    while i < marked.len()
        invariant
            mv == marked_views(marked@),
            i <= marked.len(),
            marked_views(out@) == first_per_package(mv.take(i as int)),
        decreases marked.len() - i,
    {
        let ghost pre = mv.take(i as int);
        assert(mv.take(i + 1).drop_last() =~= pre);
        assert(mv.take(i + 1).last() == marked@[i as int]@);
        proof {
            lemma_first_per_package_has(pre, marked@[i as int]@.0);
        }
        if !marks_package(&out, marked[i].package.as_str()) {
            let m = clone_marked(&marked[i]);
            let ghost before = out@;
            out.push(m);
            assert(marked_views(out@) =~= marked_views(before).push(m@));
        }
        i = i + 1;
    }
    assert(mv.take(marked.len() as int) =~= mv);
    *marked = out;
}

/// Whether `package` is a trigger: curated, or with an override of the user's.
pub fn is_trigger(package: &str, overrides: &Overrides) -> (r: bool)
    ensures
        r == is_trigger_name(overrides@, package@),
{
    get_curated_threshold(package).is_some() || overrides.is_user_trigger(package)
}

fn table_entry(table: &Vec<(String, Vec<String>)>, name: &str) -> (r: Option<usize>)
    ensures
        match r {
            Some(i) => lookup(table_view(table@), name@) == Some(views(table@[i as int].1@)) && i
                < table.len(),
            None => lookup(table_view(table@), name@) is None,
        },
{
    let ghost es = table_view(table@);
    let mut i: usize = table.len();
    assert(es.take(i as int) =~= es);
    while i > 0
        invariant
            es == table_view(table@),
            i <= table.len(),
            crate::overrides::key_index(es, name@) == crate::overrides::key_index(
                es.take(i as int),
                name@,
            ),
        decreases i,
    {
        assert(es.take(i as int).drop_last() =~= es.take(i - 1));
        if str_eq(table[i - 1].0.as_str(), name) {
            return Some(i - 1);
        }
        i = i - 1;
    }
    None
}

fn keep_markable(overrides: &Overrides, trigger: &str, cands: &Vec<String>) -> (r: Vec<String>)
    ensures
        views(r@) == markable(overrides@, trigger@, views(cands@)),
{
    let ghost cs = views(cands@);
    let mut out: Vec<String> = Vec::new();
    let mut i: usize = 0;
    while i < cands.len()
        invariant
            cs == views(cands@),
            i <= cands.len(),
            views(out@) == markable(overrides@, trigger@, cs.take(i as int)),
        decreases cands.len() - i,
    {
        assert(cs.take(i + 1).drop_last() =~= cs.take(i as int));
        assert(cs.take(i + 1).last() == cands@[i as int]@);
        let ghost before = out@;
        if overrides.should_mark_package(cands[i].as_str(), trigger) {
            out.push(cands[i].clone());
            assert(views(out@) =~= views(before) + seq![cands@[i as int]@]);
        } else {
            assert(views(out@) =~= views(before) + Seq::<Seq<char>>::empty());
        }
        i = i + 1;
    }
    assert(cs.take(cands.len() as int) =~= cs);
    out
}

fn keep_foreign(deps: &Vec<String>, aur_packages: &Vec<String>) -> (r: Vec<String>)
    ensures
        views(r@) == foreign_dependents(views(deps@), views(aur_packages@)),
{
    let ghost ds = views(deps@);
    let mut out: Vec<String> = Vec::new();
    let mut i: usize = 0;
    while i < deps.len()
        invariant
            ds == views(deps@),
            i <= deps.len(),
            views(out@) == foreign_dependents(ds.take(i as int), views(aur_packages@)),
        decreases deps.len() - i,
    {
        assert(ds.take(i + 1).drop_last() =~= ds.take(i as int));
        assert(ds.take(i + 1).last() == deps@[i as int]@);
        let d = deps[i].as_str();
        let ghost before = out@;
        if contains_string(aur_packages, d) && !ends_with_bin(d) {
            out.push(deps[i].clone());
            assert(views(out@) =~= views(before) + seq![deps@[i as int]@]);
        } else {
            assert(views(out@) =~= views(before) + Seq::<Seq<char>>::empty());
        }
        i = i + 1;
    }
    assert(ds.take(deps.len() as int) =~= ds);
    out
}

/// The packages that firing trigger `package` marks: the targets of its
/// override if it has one, else its reverse dependencies (as `reverse_deps`
/// holds them) that are foreign and no `-bin` package; of those, the ones the
/// package overrides allow.
pub fn get_aur_dependents(
    package: &str,
    aur_packages: &Vec<String>,
    overrides: &Overrides,
    reverse_deps: &Vec<(String, Vec<String>)>,
) -> (r: Vec<String>)
    ensures
        views(r@) == dependents(overrides@, package@, views(aur_packages@), table_view(reverse_deps@)),
{
    match overrides.get_trigger_targets(package, aur_packages) {
        Some(targets) => keep_markable(overrides, package, &targets),
        None => {
            let found = match table_entry(reverse_deps, package) {
                Some(i) => keep_foreign(&reverse_deps[i].1, aur_packages),
                None => {
                    let v: Vec<String> = Vec::new();
                    assert(views(v@) =~= Seq::<Seq<char>>::empty());
                    v
                },
            };
            keep_markable(overrides, package, &found)
        },
    }
}

/// The name whose reverse dependencies the pipeline needs for `input`, if any:
/// that of a trigger that fires and has no override of its own.
pub fn dependency_lookup_for(input: &str, default_threshold: Threshold, overrides: &Overrides) -> (r:
    Option<String>)
    ensures
        opt_view(r) == lookup_needed(input@, default_threshold, overrides@),
{
    let parsed = TriggerInput::parse(input);
    if !is_trigger(parsed.name.as_str(), overrides) {
        return None;
    }
    let threshold = match get_curated_threshold(parsed.name.as_str()) {
        Some(t) => t,
        None => default_threshold,
    };
    if !parsed.exceeds_threshold(threshold) || overrides.is_user_trigger(parsed.name.as_str()) {
        None
    } else {
        Some(parsed.name)
    }
}

/// Runs the pipeline over the upgrade notices `packages`, in order. Notices
/// whose package is no trigger go to `skipped`; triggers whose change stays
/// below their threshold (the curated one, else `default_threshold`) go to
/// `below_threshold`; each other trigger marks its dependents. A package is
/// marked once, by the first trigger that marks it. `aur_packages` is the set
/// of foreign packages, taken once for the whole run; `reverse_deps` holds the
/// answers of the reverse-dependency lookup for the names that
/// `dependency_lookup_for` asks about.
pub fn process_triggers(
    packages: &Vec<String>,
    default_threshold: Threshold,
    overrides: &Overrides,
    aur_packages: &Vec<String>,
    reverse_deps: &Vec<(String, Vec<String>)>,
) -> (r: TriggerResult)
    ensures
        r@ == pipeline(
            views(packages@),
            default_threshold,
            overrides@,
            views(aur_packages@),
            table_view(reverse_deps@),
        ),
{
    let ghost ins = views(packages@);
    let ghost ov = overrides@;
    let ghost u = views(aur_packages@);
    let ghost tb = table_view(reverse_deps@);
    let mut result = TriggerResult { marked: Vec::new(), skipped: Vec::new(), below_threshold: Vec::new() };
    let mut i: usize = 0;
    assert(ins.take(0) =~= Seq::<Seq<char>>::empty());
    assert(result@.marked =~= Seq::<(Seq<char>, Seq<char>)>::empty());
    assert(result@.skipped =~= Seq::<Seq<char>>::empty());
    assert(result@.below_threshold =~= Seq::<Seq<char>>::empty());
    assert(result@ == run_pipeline(ins.take(0), default_threshold, ov, u, tb));
    while i < packages.len()
        invariant
            ins == views(packages@),
            ov == overrides@,
            u == views(aur_packages@),
            tb == table_view(reverse_deps@),
            i <= packages.len(),
            result@ == run_pipeline(ins.take(i as int), default_threshold, ov, u, tb),
        decreases packages.len() - i,
    {
        assert(ins.take(i + 1).drop_last() =~= ins.take(i as int));
        assert(ins.take(i + 1).last() == packages@[i as int]@);
        let ghost before = result@;
        let input = TriggerInput::parse(packages[i].as_str());
        if !is_trigger(input.name.as_str(), overrides) {
            result.skipped.push(input.name);
            assert(result@.skipped =~= before.skipped.push(input@.name));
        } else {
            let threshold = match get_curated_threshold(input.name.as_str()) {
                Some(t) => t,
                None => default_threshold,
            };
            if !input.exceeds_threshold(threshold) {
                result.below_threshold.push(input.name);
                assert(result@.below_threshold =~= before.below_threshold.push(input@.name));
            } else {
                let deps = get_aur_dependents(input.name.as_str(), aur_packages, overrides, reverse_deps);
                let ghost ds = views(deps@);
                let mut k: usize = 0;
                while k < deps.len()
                    invariant
                        ds == views(deps@),
                        k <= deps.len(),
                        result@.skipped == before.skipped,
                        result@.below_threshold == before.below_threshold,
                        result@.marked == before.marked + attribute(ds.take(k as int), input@.name),
                    decreases deps.len() - k,
                {
                    let ghost mid = result@.marked;
                    result.marked.push(MarkedPackage { package: deps[k].clone(), trigger: input.name.clone() });
                    assert(result@.marked =~= mid.push((ds[k as int], input@.name)));
                    assert(attribute(ds.take(k + 1), input@.name) =~= attribute(ds.take(k as int), input@.name).push((ds[k as int], input@.name)));
                    k = k + 1;
                }
                assert(ds.take(deps.len() as int) =~= ds);
            }
        }
        i = i + 1;
    }
    assert(ins.take(packages.len() as int) =~= ins);
    deduplicate_marked(&mut result.marked);
    result
}

/// Index of the first entry of `ms` that marks package `p`.
pub open spec fn first_pos(ms: Seq<(Seq<char>, Seq<char>)>, p: Seq<char>) -> int
    decreases ms.len(),
{
    if ms.len() == 0 {
        0
    } else if has_package(ms.drop_last(), p) {
        first_pos(ms.drop_last(), p)
    } else {
        ms.len() - 1
    }
}

proof fn lemma_first_pos(ms: Seq<(Seq<char>, Seq<char>)>, p: Seq<char>)
    requires
        has_package(ms, p),
    ensures
        0 <= first_pos(ms, p) < ms.len(),
        ms[first_pos(ms, p)].0 == p,
        forall|j: int| 0 <= j < first_pos(ms, p) ==> (#[trigger] ms[j]).0 != p,
    decreases ms.len(),
{
    let prev = ms.drop_last();
    if has_package(prev, p) {
        lemma_first_pos(prev, p);
        assert forall|j: int| 0 <= j < first_pos(ms, p) implies (#[trigger] ms[j]).0 != p by {
            assert(ms[j] == prev[j]);
        }
    } else {
        let j = choose|j: int| 0 <= j < ms.len() && (#[trigger] ms[j]).0 == p;
        if j < ms.len() - 1 {
            assert(prev[j] == ms[j]);
        }
        assert forall|k: int| 0 <= k < first_pos(ms, p) implies (#[trigger] ms[k]).0 != p by {
            assert(ms[k] == prev[k]);
        }
    }
}

/// Deduplication keeps, for each marked package, exactly the entry that marked
/// it first: the same packages as before, each entry being the first that
/// marks its package, in the order of those first entries. A package marked by
/// two triggers thus stays attributed to the earlier one.
pub proof fn lemma_first_trigger_wins(ms: Seq<(Seq<char>, Seq<char>)>)
    ensures
        forall|p: Seq<char>| has_package(first_per_package(ms), p) == has_package(ms, p),
        forall|i: int|
            0 <= i < first_per_package(ms).len() ==> #[trigger] first_per_package(ms)[i]
                == ms[first_pos(ms, first_per_package(ms)[i].0)],
        forall|i: int, j: int|
            0 <= i < j < first_per_package(ms).len() ==> first_pos(
                ms,
                #[trigger] first_per_package(ms)[i].0,
            ) < first_pos(ms, #[trigger] first_per_package(ms)[j].0),
    decreases ms.len(),
{
    assert forall|p: Seq<char>| has_package(first_per_package(ms), p) == has_package(ms, p) by {
        lemma_first_per_package_has(ms, p);
    }
    if ms.len() > 0 {
        let prev = ms.drop_last();
        let fp = first_per_package(prev);
        let f = first_per_package(ms);
        lemma_first_trigger_wins(prev);
        assert forall|i: int| 0 <= i < fp.len() implies f[i] == fp[i] && first_pos(ms, fp[i].0)
            == first_pos(prev, fp[i].0) && first_pos(prev, fp[i].0) < prev.len() && ms[first_pos(
            ms,
            fp[i].0,
        )] == prev[first_pos(prev, fp[i].0)] by {
            assert(has_package(fp, fp[i].0));
            lemma_first_per_package_has(prev, fp[i].0);
            lemma_first_pos(prev, fp[i].0);
        }
        if !has_package(prev, ms.last().0) {
            assert(f.len() == fp.len() + 1);
            assert(f[fp.len() as int] == ms.last());
            assert(first_pos(ms, ms.last().0) == ms.len() - 1);
        }
        assert forall|i: int| 0 <= i < f.len() implies #[trigger] f[i] == ms[first_pos(ms, f[i].0)]
            by {
            if i < fp.len() {
                assert(fp[i] == prev[first_pos(prev, fp[i].0)]);
            }
        }
        assert forall|i: int, j: int| 0 <= i < j < f.len() implies first_pos(
            ms,
            #[trigger] f[i].0,
        ) < first_pos(ms, #[trigger] f[j].0) by {
            if j < fp.len() {
                assert(first_pos(prev, fp[i].0) < first_pos(prev, fp[j].0));
            }
        }
    }
}

/// The curated triggers, then each user trigger not listed yet with the default threshold.
pub open spec fn with_user_triggers(
    acc: Seq<(Seq<char>, Threshold)>,
    names: Seq<Seq<char>>,
    default: Threshold,
) -> Seq<(Seq<char>, Threshold)>
    decreases names.len(),
{
    if names.len() == 0 {
        acc
    } else {
        let prev = with_user_triggers(acc, names.drop_last(), default);
        if exists|j: int| 0 <= j < prev.len() && (#[trigger] prev[j]).0 == names.last() {
            prev
        } else {
            prev.push((names.last(), default))
        }
    }
}

/// All known triggers with their thresholds, before sorting.
pub open spec fn all_triggers(ov: OverridesView, default: Threshold) -> Seq<(Seq<char>, Threshold)> {
    with_user_triggers(curated_list(), keys(ov.triggers), default)
}

/// Entries in order of name.
pub open spec fn sorted_by_name(s: Seq<(Seq<char>, Threshold)>) -> bool {
    forall|a: int, b: int|
        0 <= a < b < s.len() ==> compare_text(#[trigger] s[a].0, #[trigger] s[b].0)
            != Ordering::Greater
}

fn has_entry(v: &Vec<(String, Threshold)>, name: &str) -> (r: bool)
    ensures
        r == exists|j: int| 0 <= j < v.len() && (#[trigger] entry_views(v@)[j]).0 == name@,
{
    let ghost es = entry_views(v@);
    let mut i: usize = 0;
    while i < v.len()
        invariant
            es == entry_views(v@),
            i <= v.len(),
            forall|j: int| 0 <= j < i ==> (#[trigger] es[j]).0 != name@,
        decreases v.len() - i,
    {
        if str_eq(v[i].0.as_str(), name) {
            assert(es[i as int].0 == name@);
            return true;
        }
        i = i + 1;
    }
    false
}

/// Inserts `e` after every entry whose name is not above its own.
fn insert_sorted(v: &mut Vec<(String, Threshold)>, e: (String, Threshold))
    requires
        sorted_by_name(entry_views(old(v)@)),
    ensures
        sorted_by_name(entry_views(final(v)@)),
        entry_views(final(v)@).to_multiset() == entry_views(old(v)@).to_multiset().insert(
            (e.0@, e.1),
        ),
{
    let ghost es = entry_views(v@);
    let ghost ev = (e.0@, e.1);
    let mut k: usize = 0;
    while k < v.len() && !matches!(compare_str(v[k].0.as_str(), e.0.as_str()), Ordering::Greater)
        invariant
            es == entry_views(v@),
            ev == (e.0@, e.1),
            k <= v.len(),
            forall|j: int| 0 <= j < k ==> compare_text((#[trigger] es[j]).0, ev.0) != Ordering::Greater,
        decreases v.len() - k,
    {
        assert(es[k as int].0 == v@[k as int].0@);
        k = k + 1;
    }
    let ghost at_k = k < v.len();
    v.insert(k, e);
    let ghost ns = entry_views(v@);
    assert(ns =~= es.insert(k as int, ev));
    proof {
        broadcast use vstd::seq_lib::to_multiset_insert;
        assert(ns.to_multiset() == es.to_multiset().insert(ev));
        assert forall|a: int, b: int| 0 <= a < b < ns.len() implies compare_text(
            #[trigger] ns[a].0,
            #[trigger] ns[b].0,
        ) != Ordering::Greater by {
            if b == k {
                assert(ns[a] == es[a]);
            } else if a == k {
                assert(ns[b] == es[b - 1]);
                assert(compare_text(es[k as int].0, ev.0) == Ordering::Greater);
                lemma_compare_text_swap(es[k as int].0, ev.0);
                if b - 1 > k {
                    assert(compare_text(es[k as int].0, es[b - 1].0) != Ordering::Greater);
                } else {
                    lemma_compare_text_swap(es[k as int].0, es[k as int].0);
                }
                lemma_compare_text_trans(ev.0, es[k as int].0, es[b - 1].0);
            } else {
                let a0 = if a < k { a } else { a - 1 };
                let b0 = if b < k { b } else { b - 1 };
                assert(ns[a] == es[a0]);
                assert(ns[b] == es[b0]);
            }
        }
    }
}

/// All known triggers with their thresholds, in order of name: the curated
/// ones with their own thresholds, and each user trigger not curated with
/// `default_threshold`.
pub fn list_all_triggers(overrides: &Overrides, default_threshold: Threshold) -> (r: Vec<
    (String, Threshold),
>)
    ensures
        sorted_by_name(entry_views(r@)),
        entry_views(r@).to_multiset() == all_triggers(overrides@, default_threshold).to_multiset(),
{
    let mut all = curated_triggers();
    let names = overrides.user_triggers();
    let ghost ns = views(names@);
    let mut i: usize = 0;
    assert(ns.take(0) =~= Seq::<Seq<char>>::empty());
    while i < names.len()
        invariant
            ns == views(names@),
            ns == keys(overrides@.triggers),
            i <= names.len(),
            entry_views(all@) == with_user_triggers(curated_list(), ns.take(i as int), default_threshold),
        decreases names.len() - i,
    {
        assert(ns.take(i + 1).drop_last() =~= ns.take(i as int));
        assert(ns.take(i + 1).last() == names@[i as int]@);
        if !has_entry(&all, names[i].as_str()) {
            let ghost before = entry_views(all@);
            all.push((names[i].clone(), default_threshold));
            assert(entry_views(all@) =~= before.push((names@[i as int]@, default_threshold)));
        }
        i = i + 1;
    }
    assert(ns.take(names.len() as int) =~= ns);
    let ghost src = entry_views(all@);
    let mut sorted: Vec<(String, Threshold)> = Vec::new();
    let mut j: usize = 0;
    assert(src.take(0) =~= Seq::<(Seq<char>, Threshold)>::empty());
    assert(entry_views(sorted@) =~= src.take(0));
    while j < all.len()
        invariant
            src == entry_views(all@),
            j <= all.len(),
            sorted_by_name(entry_views(sorted@)),
            entry_views(sorted@).to_multiset() == src.take(j as int).to_multiset(),
        decreases all.len() - j,
    {
        let e = (all[j].0.clone(), all[j].1);
        insert_sorted(&mut sorted, e);
        proof {
            broadcast use vstd::seq_lib::to_multiset_build;
            assert(src.take(j + 1) =~= src.take(j as int).push(src[j as int]));
        }
        j = j + 1;
    }
    assert(src.take(all.len() as int) =~= src);
    sorted
}

/// In the result of a run, each marked package carries the trigger of the
/// first notice that marked it, and the marks come in the order of those first
/// marks.
pub proof fn lemma_pipeline_first_trigger_wins(
    inputs: Seq<Seq<char>>,
    default: Threshold,
    ov: OverridesView,
    universe: Seq<Seq<char>>,
    table: Seq<(Seq<char>, Seq<Seq<char>>)>,
)
    ensures
        ({
            let all = run_pipeline(inputs, default, ov, universe, table).marked;
            let kept = pipeline(inputs, default, ov, universe, table).marked;
            &&& forall|p: Seq<char>| has_package(kept, p) == has_package(all, p)
            &&& forall|i: int| 0 <= i < kept.len() ==> #[trigger] kept[i] == all[first_pos(all, kept[i].0)]
            &&& forall|i: int, j: int|
                0 <= i < j < kept.len() ==> first_pos(all, #[trigger] kept[i].0) < first_pos(
                    all,
                    #[trigger] kept[j].0,
                )
        }),
{
    lemma_first_trigger_wins(run_pipeline(inputs, default, ov, universe, table).marked);
}

} // verus!
