//! User overrides: per-trigger lists of target patterns and per-package lists
//! of the triggers allowed to mark the package. An override read from a file
//! with no pattern blocks everything for its entity.
use vstd::prelude::*;

use crate::glob::{glob_matches, matches_glob};
use crate::text::{lines_of, split_lines, trim, trim_str, views};

verus! {

/// Override for a trigger.
#[derive(Debug, Clone, PartialEq, Eq)]
pub enum TriggerOverride {
    /// The trigger marks nothing (its file holds no pattern).
    Disabled,
    /// The trigger marks the foreign packages matching these patterns.
    Patterns(Vec<String>),
}

/// Override for a package.
#[derive(Debug, Clone, PartialEq, Eq)]
pub enum PackageOverride {
    /// The package is never marked (its file holds no pattern).
    NeverMark,
    /// The package is only marked by triggers matching these patterns.
    OnlyTriggers(Vec<String>),
}

pub enum TriggerOverrideView {
    Disabled,
    Patterns(Seq<Seq<char>>),
}

pub enum PackageOverrideView {
    NeverMark,
    OnlyTriggers(Seq<Seq<char>>),
}

impl View for TriggerOverride {
    type V = TriggerOverrideView;

    open spec fn view(&self) -> TriggerOverrideView {
        match self {
            TriggerOverride::Disabled => TriggerOverrideView::Disabled,
            TriggerOverride::Patterns(p) => TriggerOverrideView::Patterns(views(p@)),
        }
    }
}

impl View for PackageOverride {
    type V = PackageOverrideView;

    open spec fn view(&self) -> PackageOverrideView {
        match self {
            PackageOverride::NeverMark => PackageOverrideView::NeverMark,
            PackageOverride::OnlyTriggers(p) => PackageOverrideView::OnlyTriggers(views(p@)),
        }
    }
}

/// The trigger override that a file with these patterns gives.
pub open spec fn trigger_override_of(patterns: Seq<Seq<char>>) -> TriggerOverrideView {
    if patterns.len() == 0 {
        TriggerOverrideView::Disabled
    } else {
        TriggerOverrideView::Patterns(patterns)
    }
}

/// The package override that a file with these patterns gives.
pub open spec fn package_override_of(patterns: Seq<Seq<char>>) -> PackageOverrideView {
    if patterns.len() == 0 {
        PackageOverrideView::NeverMark
    } else {
        PackageOverrideView::OnlyTriggers(patterns)
    }
}

impl TriggerOverride {
    /// The override given by the patterns of a trigger's file.
    pub fn from_patterns(patterns: Vec<String>) -> (r: TriggerOverride)
        ensures
            r@ == trigger_override_of(views(patterns@)),
    {
        if patterns.len() == 0 {
            TriggerOverride::Disabled
        } else {
            TriggerOverride::Patterns(patterns)
        }
    }
}

impl PackageOverride {
    /// The override given by the patterns of a package's file.
    pub fn from_patterns(patterns: Vec<String>) -> (r: PackageOverride)
        ensures
            r@ == package_override_of(views(patterns@)),
    {
        if patterns.len() == 0 {
            PackageOverride::NeverMark
        } else {
            PackageOverride::OnlyTriggers(patterns)
        }
    }
}

/// A line of an override file that holds a pattern: not blank, not a comment.
pub open spec fn is_pattern_line(t: Seq<char>) -> bool {
    t.len() > 0 && t[0] != '#'
}

/// The trimmed pattern lines among `lines`, in order.
pub open spec fn patterns_of_lines(lines: Seq<Seq<char>>) -> Seq<Seq<char>>
    decreases lines.len(),
{
    if lines.len() == 0 {
        seq![]
    } else {
        let t = trim(lines.last());
        patterns_of_lines(lines.drop_last()) + if is_pattern_line(t) {
            seq![t]
        } else {
            seq![]
        }
    }
}

/// The patterns of an override file's text.
pub open spec fn override_patterns(content: Seq<char>) -> Seq<Seq<char>> {
    patterns_of_lines(split_lines(content))
}

/// Reads the patterns of an override file: each line trimmed, blank lines and
/// lines starting with `#` left out.
pub fn parse_override_content(content: &str) -> (r: Vec<String>)
    ensures
        views(r@) == override_patterns(content@),
{
    let lines = lines_of(content);
    let ghost ls = views(lines@);
    let mut out: Vec<String> = Vec::new();
    let mut i: usize = 0;
    while i < lines.len()
        invariant
            ls == views(lines@),
            ls == split_lines(content@),
            i <= lines.len(),
            views(out@) == patterns_of_lines(ls.take(i as int)),
        decreases lines.len() - i,
    {
        assert(ls.take(i + 1).drop_last() =~= ls.take(i as int));
        assert(ls.take(i + 1).last() == lines@[i as int]@);
        let t = trim_str(lines[i].as_str());
        let ghost before = out@;
        if t.as_str().unicode_len() > 0 && t.as_str().get_char(0) != '#' {
            out.push(t);
            assert(views(out@) =~= views(before) + seq![t@]);
        } else {
            assert(views(out@) =~= views(before) + Seq::<Seq<char>>::empty());
        }
        i = i + 1;
    }
    assert(ls.take(lines.len() as int) =~= ls);
    out
}

/// Loaded user overrides, keyed by trigger name and by package name.
#[derive(Debug)]
pub struct Overrides {
    triggers: Vec<(String, TriggerOverride)>,
    packages: Vec<(String, PackageOverride)>,
}

pub struct OverridesView {
    pub triggers: Seq<(Seq<char>, TriggerOverrideView)>,
    pub packages: Seq<(Seq<char>, PackageOverrideView)>,
}

impl View for Overrides {
    type V = OverridesView;

    closed spec fn view(&self) -> OverridesView {
        OverridesView {
            triggers: self.triggers@.map_values(|e: (String, TriggerOverride)| (e.0@, e.1@)),
            packages: self.packages@.map_values(|e: (String, PackageOverride)| (e.0@, e.1@)),
        }
    }
}

/// Index of the last entry with key `k`.
pub open spec fn key_index<V>(entries: Seq<(Seq<char>, V)>, k: Seq<char>) -> Option<int>
    decreases entries.len(),
{
    if entries.len() == 0 {
        None
    } else if entries.last().0 == k {
        Some(entries.len() - 1)
    } else {
        key_index(entries.drop_last(), k)
    }
}

/// The value stored under key `k`: the last entry with that key.
pub open spec fn lookup<V>(entries: Seq<(Seq<char>, V)>, k: Seq<char>) -> Option<V> {
    match key_index(entries, k) {
        Some(i) => Some(entries[i].1),
        None => None,
    }
}

/// The keys of the entries, in order.
pub open spec fn keys<V>(entries: Seq<(Seq<char>, V)>) -> Seq<Seq<char>> {
    entries.map_values(|e: (Seq<char>, V)| e.0)
}

proof fn lemma_key_index_bounds<V>(entries: Seq<(Seq<char>, V)>, k: Seq<char>)
    ensures
        key_index(entries, k) matches Some(i) ==> 0 <= i < entries.len() && entries[i].0 == k,
    decreases entries.len(),
{
    if entries.len() > 0 {
        lemma_key_index_bounds(entries.drop_last(), k);
    }
}

/// Overwriting the entry that a key finds stores the new value under that key
/// and leaves every other key as it was.
proof fn lemma_lookup_update<V>(entries: Seq<(Seq<char>, V)>, k: Seq<char>, i: int, v: V, q: Seq<char>)
    requires
        key_index(entries, k) == Some(i),
    ensures
        lookup(entries.update(i, (k, v)), q) == if q == k {
            Some(v)
        } else {
            lookup(entries, q)
        },
    decreases entries.len(),
{
    lemma_key_index_bounds(entries, k);
    let u = entries.update(i, (k, v));
    let n = entries.len() - 1;
    lemma_key_index_bounds(entries.drop_last(), q);
    lemma_key_index_bounds(u.drop_last(), q);
    if i == n {
        assert(u.drop_last() =~= entries.drop_last());
    } else {
        assert(u.drop_last() =~= entries.drop_last().update(i, (k, v)));
        assert(entries.last().0 != k);
        assert(key_index(entries.drop_last(), k) == Some(i));
        lemma_lookup_update(entries.drop_last(), k, i, v, q);
        if entries.last().0 == q {
            assert(u.last() == entries.last());
        }
    }
}

/// Whether a pattern of `patterns` matches `text`.
pub open spec fn any_matches(patterns: Seq<Seq<char>>, text: Seq<char>) -> bool {
    exists|i: int| 0 <= i < patterns.len() && glob_matches(#[trigger] patterns[i], text)
}

/// A package name that ends in `-bin`: a binary repackaging, not worth rebuilding.
pub open spec fn is_bin_package(s: Seq<char>) -> bool {
    s.len() >= 4 && s[s.len() - 4] == '-' && s[s.len() - 3] == 'b' && s[s.len() - 2] == 'i'
        && s[s.len() - 1] == 'n'
}

/// The members of `universe`, in order, that a pattern matches and that are no
/// `-bin` package.
pub open spec fn select_targets(patterns: Seq<Seq<char>>, universe: Seq<Seq<char>>) -> Seq<
    Seq<char>,
>
    decreases universe.len(),
{
    if universe.len() == 0 {
        seq![]
    } else {
        let p = universe.last();
        select_targets(patterns, universe.drop_last()) + if any_matches(patterns, p)
            && !is_bin_package(p) {
            seq![p]
        } else {
            seq![]
        }
    }
}

/// What a trigger's override makes it mark among `universe`; `None` when the
/// trigger has no override.
pub open spec fn trigger_targets(
    ov: OverridesView,
    trigger: Seq<char>,
    universe: Seq<Seq<char>>,
) -> Option<Seq<Seq<char>>> {
    match lookup(ov.triggers, trigger) {
        None => None,
        Some(TriggerOverrideView::Disabled) => Some(seq![]),
        Some(TriggerOverrideView::Patterns(ps)) => Some(select_targets(ps, universe)),
    }
}

/// Whether the overrides let `trigger` mark `package`.
pub open spec fn may_mark(ov: OverridesView, package: Seq<char>, trigger: Seq<char>) -> bool {
    match lookup(ov.packages, package) {
        None => true,
        Some(PackageOverrideView::NeverMark) => false,
        Some(PackageOverrideView::OnlyTriggers(ps)) => any_matches(ps, trigger),
    }
}

pub open spec fn opt_views(o: Option<Vec<String>>) -> Option<Seq<Seq<char>>> {
    match o {
        Some(v) => Some(views(v@)),
        None => None,
    }
}

/// Whether a pattern of `patterns` matches `text`.
pub fn matches_any(patterns: &Vec<String>, text: &str) -> (r: bool)
    ensures
        r == any_matches(views(patterns@), text@),
{
    let ghost ps = views(patterns@);
    let mut i: usize = 0;
    while i < patterns.len()
        invariant
            ps == views(patterns@),
            i <= patterns.len(),
            forall|j: int| 0 <= j < i ==> !glob_matches(#[trigger] ps[j], text@),
        decreases patterns.len() - i,
    {
        if matches_glob(patterns[i].as_str(), text) {
            assert(glob_matches(ps[i as int], text@));
            return true;
        }
        i = i + 1;
    }
    false
}

/// Whether `s` ends in `-bin`.
pub fn ends_with_bin(s: &str) -> (r: bool)
    ensures
        r == is_bin_package(s@),
{
    let n = s.unicode_len();
    n >= 4 && s.get_char(n - 4) == '-' && s.get_char(n - 3) == 'b' && s.get_char(n - 2) == 'i'
        && s.get_char(n - 1) == 'n'
}

fn trigger_entry(entries: &Vec<(String, TriggerOverride)>, name: &str) -> (r: Option<usize>)
    ensures
        key_index(entries@.map_values(|e: (String, TriggerOverride)| (e.0@, e.1@)), name@) == match r {
            Some(i) => Some(i as int),
            None => None,
        },
{
    let ghost es = entries@.map_values(|e: (String, TriggerOverride)| (e.0@, e.1@));
    let mut i: usize = entries.len();
    assert(es.take(i as int) =~= es);
    while i > 0
        invariant
            es == entries@.map_values(|e: (String, TriggerOverride)| (e.0@, e.1@)),
            i <= entries.len(),
            key_index(es, name@) == key_index(es.take(i as int), name@),
        decreases i,
    {
        assert(es.take(i as int).drop_last() =~= es.take(i - 1));
        if crate::text::str_eq(entries[i - 1].0.as_str(), name) {
            return Some(i - 1);
        }
        i = i - 1;
    }
    None
}

fn package_entry(entries: &Vec<(String, PackageOverride)>, name: &str) -> (r: Option<usize>)
    ensures
        key_index(entries@.map_values(|e: (String, PackageOverride)| (e.0@, e.1@)), name@) == match r {
            Some(i) => Some(i as int),
            None => None,
        },
{
    let ghost es = entries@.map_values(|e: (String, PackageOverride)| (e.0@, e.1@));
    let mut i: usize = entries.len();
    assert(es.take(i as int) =~= es);
    while i > 0
        invariant
            es == entries@.map_values(|e: (String, PackageOverride)| (e.0@, e.1@)),
            i <= entries.len(),
            key_index(es, name@) == key_index(es.take(i as int), name@),
        decreases i,
    {
        assert(es.take(i as int).drop_last() =~= es.take(i - 1));
        if crate::text::str_eq(entries[i - 1].0.as_str(), name) {
            return Some(i - 1);
        }
        i = i - 1;
    }
    None
}

impl Overrides {
    /// No override at all.
    pub fn new() -> (r: Overrides)
        ensures
            r@.triggers.len() == 0,
            r@.packages.len() == 0,
    {
        Overrides { triggers: Vec::new(), packages: Vec::new() }
    }

    /// Stores the override of trigger `name`, replacing an earlier one.
    pub fn insert_trigger(&mut self, name: String, ov: TriggerOverride)
        ensures
            forall|q: Seq<char>|
                #![trigger lookup(final(self)@.triggers, q)]
                lookup(final(self)@.triggers, q) == if q == name@ {
                    Some(ov@)
                } else {
                    lookup(old(self)@.triggers, q)
                },
            final(self)@.packages == old(self)@.packages,
    {
        let ghost es = self@.triggers;
        let ghost k = name@;
        let ghost v = ov@;
        match trigger_entry(&self.triggers, name.as_str()) {
            Some(i) => {
                proof {
                    lemma_key_index_bounds(es, k);
                }
                self.triggers.set(i, (name, ov));
                assert(self@.triggers =~= es.update(i as int, (k, v)));
                assert forall|q: Seq<char>| #[trigger]
                    lookup(self@.triggers, q) == if q == k {
                        Some(v)
                    } else {
                        lookup(es, q)
                    } by {
                    lemma_lookup_update(es, k, i as int, v, q);
                }
            },
            None => {
                self.triggers.push((name, ov));
                assert(self@.triggers =~= es.push((k, v)));
                assert(self@.triggers.drop_last() =~= es);
                assert forall|q: Seq<char>| #[trigger]
                    lookup(self@.triggers, q) == if q == k {
                        Some(v)
                    } else {
                        lookup(es, q)
                    } by {
                    lemma_key_index_bounds(es, q);
                }
            },
        }
    }

    /// Stores the override of package `name`, replacing an earlier one.
    pub fn insert_package(&mut self, name: String, ov: PackageOverride)
        ensures
            forall|q: Seq<char>|
                #![trigger lookup(final(self)@.packages, q)]
                lookup(final(self)@.packages, q) == if q == name@ {
                    Some(ov@)
                } else {
                    lookup(old(self)@.packages, q)
                },
            final(self)@.triggers == old(self)@.triggers,
    {
        let ghost es = self@.packages;
        let ghost k = name@;
        let ghost v = ov@;
        match package_entry(&self.packages, name.as_str()) {
            Some(i) => {
                proof {
                    lemma_key_index_bounds(es, k);
                }
                self.packages.set(i, (name, ov));
                assert(self@.packages =~= es.update(i as int, (k, v)));
                assert forall|q: Seq<char>| #[trigger]
                    lookup(self@.packages, q) == if q == k {
                        Some(v)
                    } else {
                        lookup(es, q)
                    } by {
                    lemma_lookup_update(es, k, i as int, v, q);
                }
            },
            None => {
                self.packages.push((name, ov));
                assert(self@.packages =~= es.push((k, v)));
                assert(self@.packages.drop_last() =~= es);
                assert forall|q: Seq<char>| #[trigger]
                    lookup(self@.packages, q) == if q == k {
                        Some(v)
                    } else {
                        lookup(es, q)
                    } by {
                    lemma_key_index_bounds(es, q);
                }
            },
        }
    }
}

/// The members of `universe`, in order, that a pattern matches and that are
/// no `-bin` package.
fn select_matching(patterns: &Vec<String>, universe: &Vec<String>) -> (r: Vec<String>)
    ensures
        views(r@) == select_targets(views(patterns@), views(universe@)),
{
    let ghost ps = views(patterns@);
    let ghost us = views(universe@);
    let mut out: Vec<String> = Vec::new();
    let mut i: usize = 0;
    while i < universe.len()
        invariant
            ps == views(patterns@),
            us == views(universe@),
            i <= universe.len(),
            views(out@) == select_targets(ps, us.take(i as int)),
        decreases universe.len() - i,
    {
        assert(us.take(i + 1).drop_last() =~= us.take(i as int));
        assert(us.take(i + 1).last() == universe@[i as int]@);
        let p = universe[i].as_str();
        let ghost before = out@;
        if matches_any(patterns, p) && !ends_with_bin(p) {
            out.push(universe[i].clone());
            assert(views(out@) =~= views(before) + seq![universe@[i as int]@]);
        } else {
            assert(views(out@) =~= views(before) + Seq::<Seq<char>>::empty());
        }
        i = i + 1;
    }
    assert(us.take(universe.len() as int) =~= us);
    out
}

impl Default for Overrides {
    fn default() -> (r: Overrides)
        ensures
            r@.triggers.len() == 0,
            r@.packages.len() == 0,
    {
        Overrides::new()
    }
}

impl Overrides {
    /// Whether trigger `name` has an override of the user's.
    pub fn is_user_trigger(&self, name: &str) -> (r: bool)
        ensures
            r == (lookup(self@.triggers, name@) is Some),
    {
        trigger_entry(&self.triggers, name).is_some()
    }

    /// The packages among `aur_packages` that the override of `trigger` marks:
    /// `None` without an override, nothing for a disabled trigger, else those
    /// that a pattern matches, `-bin` packages left out, in the order of
    /// `aur_packages`.
    pub fn get_trigger_targets(&self, trigger: &str, aur_packages: &Vec<String>) -> (r: Option<
        Vec<String>,
    >)
        ensures
            opt_views(r) == trigger_targets(self@, trigger@, views(aur_packages@)),
    {
        match trigger_entry(&self.triggers, trigger) {
            None => None,
            Some(i) => {
                proof {
                    lemma_key_index_bounds(self@.triggers, trigger@);
                }
                match &self.triggers[i].1 {
                    TriggerOverride::Disabled => {
                        let v: Vec<String> = Vec::new();
                        assert(views(v@) =~= Seq::<Seq<char>>::empty());
                        Some(v)
                    },
                    TriggerOverride::Patterns(patterns) => Some(
                        select_matching(patterns, aur_packages),
                    ),
                }
            },
        }
    }

    /// Whether `trigger` may mark `package`: yes without an override for the
    /// package, never for a package that is never marked, else when a pattern
    /// of the package's list matches the trigger.
    pub fn should_mark_package(&self, package: &str, trigger: &str) -> (r: bool)
        ensures
            r == may_mark(self@, package@, trigger@),
    {
        match package_entry(&self.packages, package) {
            None => true,
            Some(i) => {
                proof {
                    lemma_key_index_bounds(self@.packages, package@);
                }
                match &self.packages[i].1 {
                    PackageOverride::NeverMark => false,
                    PackageOverride::OnlyTriggers(allowed) => matches_any(allowed, trigger),
                }
            },
        }
    }

    /// The names of the triggers that have an override.
    pub fn user_triggers(&self) -> (r: Vec<String>)
        ensures
            views(r@) == keys(self@.triggers),
    {
        let ghost es = self@.triggers;
        let mut out: Vec<String> = Vec::new();
        let mut i: usize = 0;
        while i < self.triggers.len()
            invariant
                es == self@.triggers,
                i <= self.triggers.len(),
                views(out@) == keys(es).take(i as int),
            decreases self.triggers.len() - i,
        {
            let name = self.triggers[i].0.clone();
            assert(es[i as int].0 == self.triggers@[i as int].0@);
            assert(keys(es)[i as int] == name@);
            let ghost before = out@;
            out.push(name);
            assert(views(out@) =~= views(before).push(name@));
            assert(views(out@) =~= keys(es).take(i + 1));
            i = i + 1;
        }
        assert(keys(es).take(self.triggers.len() as int) =~= keys(es));
        out
    }
}

/// A package whose override file holds no pattern is marked by no trigger.
pub proof fn lemma_empty_package_file_blocks(
    ov: OverridesView,
    package: Seq<char>,
    content: Seq<char>,
    trigger: Seq<char>,
)
    requires
        lookup(ov.packages, package) == Some(package_override_of(override_patterns(content))),
        override_patterns(content).len() == 0,
    ensures
        !may_mark(ov, package, trigger),
{
}

} // verus!
