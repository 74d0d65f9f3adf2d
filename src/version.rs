//! Version strings of packages: parsing into epoch, segments and release,
//! a total order over them, and the threshold test on a change of version.
use std::cmp::Ordering;

use vstd::prelude::*;

use crate::text::{
    chars_of, digit_value, digits_value, find_first, find_last,
    first_index, is_digit, last_index, parse_u32, parse_unsigned, str_eq,
};

verus! {

/// How large a change of version must be before dependents are rebuilt.
#[derive(Debug, Clone, Copy, PartialEq, Eq, Structural)]
pub enum Threshold {
    /// Only a change of the major number (or of the epoch).
    Major,
    /// A change of the major or the minor number.
    Minor,
    /// Any change of the version, the release number aside.
    Patch,
    /// Any change at all, the release number included.
    Always,
}

/// One piece of a version: a run of digits or a run of other characters.
#[derive(Debug, Clone, PartialEq, Eq)]
pub enum Segment {
    Numeric(u64),
    Alpha(String),
}

/// What a segment stands for.
pub enum SegmentView {
    Numeric(u64),
    Alpha(Seq<char>),
}

impl View for Segment {
    type V = SegmentView;

    open spec fn view(&self) -> SegmentView {
        match self {
            Segment::Numeric(n) => SegmentView::Numeric(*n),
            Segment::Alpha(s) => SegmentView::Alpha(s@),
        }
    }
}

/// A parsed version: `epoch:segments-pkgrel`.
#[derive(Debug, Clone, PartialEq, Eq)]
pub struct Version {
    /// The number before the first `:`, 0 when there is none.
    pub epoch: u32,
    /// The pieces of the version proper, never empty after a parse.
    pub segments: Vec<Segment>,
    /// The release number after the last `-`, when it is made of digits and dots.
    pub pkgrel: Option<String>,
}

/// What a version stands for.
pub struct VersionView {
    pub epoch: u32,
    pub segments: Seq<SegmentView>,
    pub pkgrel: Option<Seq<char>>,
}

pub open spec fn opt_view(o: Option<String>) -> Option<Seq<char>> {
    match o {
        Some(s) => Some(s@),
        None => None,
    }
}

pub open spec fn segment_views(v: Seq<Segment>) -> Seq<SegmentView> {
    v.map_values(|s: Segment| s@)
}

impl View for Version {
    type V = VersionView;

    open spec fn view(&self) -> VersionView {
        VersionView {
            epoch: self.epoch,
            segments: segment_views(self.segments@),
            pkgrel: opt_view(self.pkgrel),
        }
    }
}

/// The characters that separate the pieces of a version.
pub open spec fn is_separator(c: char) -> bool {
    c == '.' || c == '_' || c == '-'
}

/// Separators, digits and everything else form three classes of characters.
pub open spec fn char_class(c: char) -> int {
    if is_separator(c) {
        0
    } else if is_digit(c) {
        1
    } else {
        2
    }
}

/// The maximal runs of characters of one class, left to right.
pub open spec fn runs(s: Seq<char>) -> Seq<Seq<char>>
    decreases s.len(),
{
    if s.len() == 0 {
        seq![]
    } else {
        let prev = runs(s.drop_last());
        let c = s.last();
        if prev.len() > 0 && char_class(prev.last().last()) == char_class(c) {
            prev.update(prev.len() - 1, prev.last().push(c))
        } else {
            prev.push(seq![c])
        }
    }
}

/// The segment that a run gives, if any: separators give none, and so does a
/// run of digits too large for 64 bits.
pub open spec fn run_segment(r: Seq<char>) -> Seq<SegmentView> {
    if is_separator(r[0]) {
        seq![]
    } else if is_digit(r[0]) {
        if digits_value(r) <= u64::MAX {
            seq![SegmentView::Numeric(digits_value(r) as u64)]
        } else {
            seq![]
        }
    } else {
        seq![SegmentView::Alpha(r)]
    }
}

pub open spec fn runs_segments(rs: Seq<Seq<char>>) -> Seq<SegmentView>
    decreases rs.len(),
{
    if rs.len() == 0 {
        seq![]
    } else {
        runs_segments(rs.drop_last()) + run_segment(rs.last())
    }
}

/// The segments of a version body.
pub open spec fn segments_of(body: Seq<char>) -> Seq<SegmentView> {
    runs_segments(runs(body))
}

/// All characters of `r` fall in class `k`.
pub open spec fn of_class(r: Seq<char>, k: int) -> bool {
    forall|j: int| 0 <= j < r.len() ==> char_class(#[trigger] r[j]) == k
}

fn class_of(c: char) -> (k: u8)
    ensures
        k as int == char_class(c),
{
    if c == '.' || c == '_' || c == '-' {
        0
    } else if '0' <= c && c <= '9' {
        1
    } else {
        2
    }
}

/// Splits a version body into segments.
fn parse_segments(body: &str) -> (r: Vec<Segment>)
    ensures
        segment_views(r@) == segments_of(body@),
{
    let cs = chars_of(body);
    let n = cs.len();
    let mut segs: Vec<Segment> = Vec::new();
    let ghost mut done: Seq<Seq<char>> = seq![];
    let mut start: usize = 0;
    let mut cls: u8 = 0;
    let mut acc: u64 = 0;
    let mut overflow: bool = false;
    let mut i: usize = 0;
    while i < n
        invariant
            n == cs.len(),
            cs@ == body@,
            start <= i <= n,
            i == 0 ==> start == 0,
            i > 0 ==> start < i,
            i > 0 ==> runs(cs@.take(i as int)) == done.push(cs@.subrange(start as int, i as int)),
            i == 0 ==> done.len() == 0,
            of_class(cs@.subrange(start as int, i as int), cls as int),
            cls == 1 && !overflow ==> acc as nat == digits_value(cs@.subrange(start as int, i as int)),
            cls == 1 && overflow ==> digits_value(cs@.subrange(start as int, i as int)) > u64::MAX,
            segment_views(segs@) == runs_segments(done),
        decreases n - i,
    {
        let c = cs[i];
        let k = class_of(c);
        let ghost pre = cs@.take(i as int);
        assert(cs@.take(i + 1).drop_last() =~= pre);
        assert(cs@.take(i + 1).last() == c);
        if i > 0 && k == cls {
            let ghost cur = cs@.subrange(start as int, i as int);
            assert(cs@.subrange(start as int, i + 1) =~= cur.push(c));
            assert(cur.push(c).drop_last() =~= cur);
            assert(runs(pre).last() == cur);
            assert(runs(cs@.take(i + 1)) =~= done.push(cur.push(c)));
            assert(k == 1 ==> digits_value(cur.push(c)) == digits_value(cur) * 10 + digit_value(c));
            if k == 1 && !overflow {
                let d = (c as u32 - '0' as u32) as u64;
                match acc.checked_mul(10) {
                    Some(m) => match m.checked_add(d) {
                        Some(a) => {
                            acc = a;
                        },
                        None => {
                            overflow = true;
                        },
                    },
                    None => {
                        overflow = true;
                        proof {
                            let v = digits_value(cur);
                            assert(v * 10 + digit_value(c) >= v * 10) by (nonlinear_arith)
                                requires v >= 0;
                        }
                    },
                }
            } else if k == 1 {
                proof {
                    let v = digits_value(cur);
                    assert(v * 10 + digit_value(c) >= v) by (nonlinear_arith)
                        requires v >= 0;
                }
            }
        } else {
            if i > 0 {
                let ghost cur = cs@.subrange(start as int, i as int);
                proof {
                    assert(done.push(cur).drop_last() =~= done);
                }
                if cls == 1 {
                    if !overflow {
                        segs.push(Segment::Numeric(acc));
                    }
                } else if cls == 2 {
                    let text = body.substring_char(start, i);
                    segs.push(Segment::Alpha(text.to_owned()));
                }
                proof {
                    assert(cur[0] == cs@[start as int]);
                    assert(char_class(cur[0]) == cls as int);
                    assert(char_class(cur[cur.len() - 1]) == cls as int);
                    assert(runs(pre) == done.push(cur));
                    assert(runs(pre).last().last() == cur[cur.len() - 1]);
                    assert(char_class(c) != cls as int);
                    assert(runs(cs@.take(i + 1)) == runs(pre).push(seq![c]));
                    done = done.push(cur);
                }
            } else {
                assert(pre =~= Seq::<char>::empty());
                assert(runs(pre) =~= Seq::<Seq<char>>::empty());
                assert(runs(cs@.take(i + 1)) == runs(pre).push(seq![c]));
            }
            assert(runs(cs@.take(i + 1)) =~= done.push(seq![c]));
            start = i;
            cls = k;
            overflow = false;
            assert(cs@.subrange(start as int, i + 1) =~= seq![c]);
            assert(seq![c].drop_last() =~= Seq::<char>::empty());
            assert(seq![c].last() == c);
            assert(digits_value(Seq::<char>::empty()) == 0);
            assert(digits_value(seq![c]) == digit_value(c));
            if k == 1 {
                acc = (c as u32 - '0' as u32) as u64;
            } else {
                acc = 0;
            }
        }
        i = i + 1;
    }
    if n > 0 {
        let ghost cur = cs@.subrange(start as int, n as int);
        proof {
            assert(done.push(cur).drop_last() =~= done);
            assert(cur[0] == cs@[start as int]);
        }
        if cls == 1 {
            if !overflow {
                segs.push(Segment::Numeric(acc));
            }
        } else if cls == 2 {
            let text = body.substring_char(start, n);
            segs.push(Segment::Alpha(text.to_owned()));
        }
        proof {
            done = done.push(cur);
        }
    }
    assert(cs@.take(n as int) =~= cs@);
    assert(segment_views(segs@) == runs_segments(runs(body@)));
    segs
}

/// The epoch before the first `:` and what follows it; `None` when the text
/// before the `:` is no number that fits 32 bits.
pub open spec fn split_epoch(s: Seq<char>) -> Option<(u32, Seq<char>)> {
    match first_index(s, ':') {
        Some(k) => match parse_unsigned(s.take(k), u32::MAX as nat) {
            Some(e) => Some((e as u32, s.skip(k + 1))),
            None => None,
        },
        None => Some((0, s)),
    }
}

/// A character that may appear in a release number.
pub open spec fn is_release_char(c: char) -> bool {
    is_digit(c) || c == '.'
}

pub open spec fn all_release_chars(t: Seq<char>) -> bool {
    forall|j: int| 0 <= j < t.len() ==> is_release_char(#[trigger] t[j])
}

/// The release number after the last `-`, when what follows it is non-empty
/// and made of digits and dots, and the version body before it.
pub open spec fn split_release(r: Seq<char>) -> (Option<Seq<char>>, Seq<char>) {
    match last_index(r, '-') {
        Some(k) => {
            let t = r.skip(k + 1);
            if t.len() > 0 && all_release_chars(t) {
                (Some(t), r.take(k))
            } else {
                (None, r)
            }
        },
        None => (None, r),
    }
}

/// The version that a string denotes, if any.
pub open spec fn parse_version(s: Seq<char>) -> Option<VersionView> {
    if s.len() == 0 {
        None
    } else {
        match split_epoch(s) {
            None => None,
            Some((e, rest)) => {
                let (rel, body) = split_release(rest);
                let segs = segments_of(body);
                if segs.len() == 0 {
                    None
                } else {
                    Some(VersionView { epoch: e, segments: segs, pkgrel: rel })
                }
            },
        }
    }
}

fn check_release_chars(t: &str) -> (r: bool)
    ensures
        r == all_release_chars(t@),
{
    let cs = chars_of(t);
    let mut i: usize = 0;
    while i < cs.len()
        invariant
            cs@ == t@,
            i <= cs.len(),
            forall|j: int| 0 <= j < i ==> is_release_char(#[trigger] cs@[j]),
        decreases cs.len() - i,
    {
        let c = cs[i];
        if !(('0' <= c && c <= '9') || c == '.') {
            assert(!is_release_char(t@[i as int]));
            return false;
        }
        i = i + 1;
    }
    true
}

impl Version {
    /// Parses `epoch:version-pkgrel`, where the epoch and the release number
    /// are optional. Returns `None` for an empty string, an epoch that is no
    /// number, or a version that yields no segment.
    pub fn parse(input: &str) -> (r: Option<Version>)
        ensures
            match r {
                Some(v) => parse_version(input@) == Some(v@),
                None => parse_version(input@) is None,
            },
    {
        let cs = chars_of(input);
        let n = cs.len();
        if n == 0 {
            return None;
        }
        let epoch: u32;
        let rest: &str;
        match find_first(&cs, ':') {
            Some(k) => {
                match parse_u32(input.substring_char(0, k)) {
                    Some(e) => {
                        epoch = e;
                        rest = input.substring_char(k + 1, n);
                    },
                    None => {
                        return None;
                    },
                }
            },
            None => {
                epoch = 0;
                rest = input;
            },
        }
        let rc = chars_of(rest);
        let pkgrel: Option<String>;
        let body: &str;
        match find_last(&rc, '-') {
            Some(k) => {
                let tail = rest.substring_char(k + 1, rc.len());
                if k + 1 < rc.len() && check_release_chars(tail) {
                    pkgrel = Some(tail.to_owned());
                    body = rest.substring_char(0, k);
                } else {
                    pkgrel = None;
                    body = rest;
                }
            },
            None => {
                pkgrel = None;
                body = rest;
            },
        }
        let segments = parse_segments(body);
        if segments.len() == 0 {
            None
        } else {
            Some(Version { epoch, segments, pkgrel })
        }
    }
}

/// The numeric segments, in order.
pub open spec fn numerics(segs: Seq<SegmentView>) -> Seq<u64>
    decreases segs.len(),
{
    if segs.len() == 0 {
        seq![]
    } else {
        let prev = numerics(segs.drop_last());
        match segs.last() {
            SegmentView::Numeric(n) => prev.push(n),
            SegmentView::Alpha(_) => prev,
        }
    }
}

/// The `n`-th numeric segment (from 0), alpha segments skipped.
pub open spec fn nth_numeric(segs: Seq<SegmentView>, n: int) -> Option<u64> {
    let ns = numerics(segs);
    if 0 <= n < ns.len() {
        Some(ns[n])
    } else {
        None
    }
}

pub open spec fn compare_int(x: int, y: int) -> Ordering {
    if x < y {
        Ordering::Less
    } else if x > y {
        Ordering::Greater
    } else {
        Ordering::Equal
    }
}

/// Lexicographic order of texts by character.
pub open spec fn compare_text(x: Seq<char>, y: Seq<char>) -> Ordering
    decreases x.len(),
{
    if x.len() == 0 {
        if y.len() == 0 {
            Ordering::Equal
        } else {
            Ordering::Less
        }
    } else if y.len() == 0 {
        Ordering::Greater
    } else if x[0] != y[0] {
        compare_int(x[0] as int, y[0] as int)
    } else {
        compare_text(x.skip(1), y.skip(1))
    }
}

/// Order of two segments: a numeric segment is above any alpha segment.
pub open spec fn compare_segment(a: SegmentView, b: SegmentView) -> Ordering {
    match (a, b) {
        (SegmentView::Numeric(x), SegmentView::Numeric(y)) => compare_int(x as int, y as int),
        (SegmentView::Alpha(x), SegmentView::Alpha(y)) => compare_text(x, y),
        (SegmentView::Numeric(_), SegmentView::Alpha(_)) => Ordering::Greater,
        (SegmentView::Alpha(_), SegmentView::Numeric(_)) => Ordering::Less,
    }
}

/// Order of segment lists: the first differing position decides; where one
/// list ends, a numeric segment left over makes its list the greater and an
/// alpha segment left over makes it the lesser.
pub open spec fn compare_segments(a: Seq<SegmentView>, b: Seq<SegmentView>) -> Ordering
    decreases a.len(),
{
    if a.len() == 0 && b.len() == 0 {
        Ordering::Equal
    } else if a.len() == 0 {
        if b[0] is Numeric {
            Ordering::Less
        } else {
            Ordering::Greater
        }
    } else if b.len() == 0 {
        if a[0] is Numeric {
            Ordering::Greater
        } else {
            Ordering::Less
        }
    } else if compare_segment(a[0], b[0]) != Ordering::Equal {
        compare_segment(a[0], b[0])
    } else {
        compare_segments(a.skip(1), b.skip(1))
    }
}

/// Order of versions: epoch first, then segments; the release number plays no part.
pub open spec fn compare_versions(a: VersionView, b: VersionView) -> Ordering {
    if a.epoch != b.epoch {
        compare_int(a.epoch as int, b.epoch as int)
    } else {
        compare_segments(a.segments, b.segments)
    }
}

/// Whether the change from `old` to `new` is large enough for `t`.
pub open spec fn exceeds(old: VersionView, new: VersionView, t: Threshold) -> bool {
    let differ = compare_versions(old, new) != Ordering::Equal;
    let old_major = nth_numeric(old.segments, 0);
    let new_major = nth_numeric(new.segments, 0);
    let old_minor = nth_numeric(old.segments, 1);
    let new_minor = nth_numeric(new.segments, 1);
    match t {
        Threshold::Always => differ || old.pkgrel != new.pkgrel,
        Threshold::Major => if old.epoch != new.epoch {
            true
        } else if old_major is Some && new_major is Some {
            old_major != new_major
        } else {
            differ
        },
        Threshold::Minor => if old.epoch != new.epoch {
            true
        } else if old_major is Some && new_major is Some && old_major != new_major {
            true
        } else if old_minor is Some && new_minor is Some {
            old_minor != new_minor
        } else if old_minor is Some || new_minor is Some {
            true
        } else {
            old_major != new_major
        },
        Threshold::Patch => old.epoch != new.epoch || differ,
    }
}

fn nth_numeric_of(segs: &Vec<Segment>, n: usize) -> (r: Option<u64>)
    ensures
        r == nth_numeric(segment_views(segs@), n as int),
{
    let ghost sv = segment_views(segs@);
    let mut found: Option<u64> = None;
    let mut count: usize = 0;
    let mut i: usize = 0;
    while i < segs.len()
        invariant
            sv == segment_views(segs@),
            i <= segs.len(),
            count as int == numerics(sv.take(i as int)).len(),
            count <= i,
            found == nth_numeric(sv.take(i as int), n as int),
        decreases segs.len() - i,
    {
        assert(sv.take(i + 1).drop_last() =~= sv.take(i as int));
        assert(sv.take(i + 1).last() == segs@[i as int]@);
        match &segs[i] {
            Segment::Numeric(x) => {
                if count == n {
                    found = Some(*x);
                }
                count = count + 1;
            },
            Segment::Alpha(_) => {},
        }
        i = i + 1;
    }
    assert(sv.take(segs.len() as int) =~= sv);
    found
}

fn compare_u64(x: u64, y: u64) -> (r: Ordering)
    ensures
        r == compare_int(x as int, y as int),
{
    if x < y {
        Ordering::Less
    } else if x > y {
        Ordering::Greater
    } else {
        Ordering::Equal
    }
}

/// Lexicographic comparison of two texts by character.
pub fn compare_str(x: &str, y: &str) -> (r: Ordering)
    ensures
        r == compare_text(x@, y@),
{
    let a = chars_of(x);
    let b = chars_of(y);
    let mut i: usize = 0;
    assert(a@.skip(0) =~= a@);
    assert(b@.skip(0) =~= b@);
    while i < a.len() && i < b.len()
        invariant
            a@ == x@,
            b@ == y@,
            i <= a.len(),
            i <= b.len(),
            compare_text(x@, y@) == compare_text(a@.skip(i as int), b@.skip(i as int)),
        decreases a.len() - i,
    {
        assert(a@.skip(i as int).skip(1) =~= a@.skip(i + 1));
        assert(b@.skip(i as int).skip(1) =~= b@.skip(i + 1));
        if a[i] != b[i] {
            return if a[i] < b[i] {
                Ordering::Less
            } else {
                Ordering::Greater
            };
        }
        i = i + 1;
    }
    if i < a.len() {
        Ordering::Greater
    } else if i < b.len() {
        Ordering::Less
    } else {
        Ordering::Equal
    }
}

fn compare_segment_exec(a: &Segment, b: &Segment) -> (r: Ordering)
    ensures
        r == compare_segment(a@, b@),
{
    match (a, b) {
        (Segment::Numeric(x), Segment::Numeric(y)) => compare_u64(*x, *y),
        (Segment::Alpha(x), Segment::Alpha(y)) => compare_str(x.as_str(), y.as_str()),
        (Segment::Numeric(_), Segment::Alpha(_)) => Ordering::Greater,
        (Segment::Alpha(_), Segment::Numeric(_)) => Ordering::Less,
    }
}

impl Version {
    /// The first numeric segment.
    pub fn major(&self) -> (r: Option<u64>)
        ensures
            r == nth_numeric(self@.segments, 0),
    {
        nth_numeric_of(&self.segments, 0)
    }

    /// The second numeric segment.
    pub fn minor(&self) -> (r: Option<u64>)
        ensures
            r == nth_numeric(self@.segments, 1),
    {
        nth_numeric_of(&self.segments, 1)
    }

    /// The third numeric segment.
    pub fn patch(&self) -> (r: Option<u64>)
        ensures
            r == nth_numeric(self@.segments, 2),
    {
        nth_numeric_of(&self.segments, 2)
    }

    /// Compares two versions by epoch, then segment by segment.
    pub fn cmp_to(&self, other: &Self) -> (r: Ordering)
        ensures
            r == compare_versions(self@, other@),
    {
        if self.epoch != other.epoch {
            return compare_u64(self.epoch as u64, other.epoch as u64);
        }
        let a = &self.segments;
        let b = &other.segments;
        let ghost av = segment_views(a@);
        let ghost bv = segment_views(b@);
        let mut i: usize = 0;
        assert(av.skip(0) =~= av);
        assert(bv.skip(0) =~= bv);
        while i < a.len() && i < b.len()
            invariant
                self.epoch == other.epoch,
                a == self.segments,
                b == other.segments,
                av == segment_views(a@),
                bv == segment_views(b@),
                i <= a.len(),
                i <= b.len(),
                compare_segments(av, bv) == compare_segments(av.skip(i as int), bv.skip(i as int)),
            decreases a.len() - i,
        {
            assert(av.skip(i as int).skip(1) =~= av.skip(i + 1));
            assert(bv.skip(i as int).skip(1) =~= bv.skip(i + 1));
            assert(av.skip(i as int)[0] == a@[i as int]@);
            assert(bv.skip(i as int)[0] == b@[i as int]@);
            let c = compare_segment_exec(&a[i], &b[i]);
            match c {
                Ordering::Equal => {},
                _ => {
                    assert(av.skip(i as int).len() > 0 && bv.skip(i as int).len() > 0);
                    assert(compare_segment(av.skip(i as int)[0], bv.skip(i as int)[0]) != Ordering::Equal);
                    return c;
                },
            }
            i = i + 1;
        }
        assert(i < a.len() ==> av.skip(i as int)[0] == a@[i as int]@);
        assert(i < b.len() ==> bv.skip(i as int)[0] == b@[i as int]@);
        if i < a.len() {
            match &a[i] {
                Segment::Numeric(_) => Ordering::Greater,
                Segment::Alpha(_) => Ordering::Less,
            }
        } else if i < b.len() {
            match &b[i] {
                Segment::Numeric(_) => Ordering::Less,
                Segment::Alpha(_) => Ordering::Greater,
            }
        } else {
            Ordering::Equal
        }
    }
}

fn opt_str_eq(a: &Option<String>, b: &Option<String>) -> (r: bool)
    ensures
        r == (opt_view(*a) == opt_view(*b)),
{
    match (a, b) {
        (Some(x), Some(y)) => str_eq(x.as_str(), y.as_str()),
        (None, None) => true,
        _ => false,
    }
}

fn opt_u64_eq(a: Option<u64>, b: Option<u64>) -> (r: bool)
    ensures
        r == (a == b),
{
    match (a, b) {
        (Some(x), Some(y)) => x == y,
        (None, None) => true,
        _ => false,
    }
}

/// Whether the change from `old` to `new` clears `threshold`.
pub fn exceeds_threshold(old: &Version, new: &Version, threshold: Threshold) -> (r: bool)
    ensures
        r == exceeds(old@, new@, threshold),
{
    let differ = match old.cmp_to(new) {
        Ordering::Equal => false,
        _ => true,
    };
    match threshold {
        Threshold::Always => differ || !opt_str_eq(&old.pkgrel, &new.pkgrel),
        Threshold::Major => {
            if old.epoch != new.epoch {
                return true;
            }
            match (old.major(), new.major()) {
                (Some(a), Some(b)) => a != b,
                _ => differ,
            }
        },
        Threshold::Minor => {
            if old.epoch != new.epoch {
                return true;
            }
            let old_major = old.major();
            let new_major = new.major();
            match (old_major, new_major) {
                (Some(a), Some(b)) => {
                    if a != b {
                        return true;
                    }
                },
                _ => {},
            }
            match (old.minor(), new.minor()) {
                (Some(a), Some(b)) => a != b,
                (None, Some(_)) => true,
                (Some(_), None) => true,
                (None, None) => !opt_u64_eq(old_major, new_major),
            }
        },
        Threshold::Patch => old.epoch != new.epoch || differ,
    }
}

/// Texts that compare equal are the same text.
pub proof fn lemma_compare_text_equal(x: Seq<char>, y: Seq<char>)
    ensures
        compare_text(x, y) == Ordering::Equal ==> x == y,
    decreases x.len(),
{
    if x.len() > 0 && y.len() > 0 && x[0] == y[0] {
        lemma_compare_text_equal(x.skip(1), y.skip(1));
        if compare_text(x, y) == Ordering::Equal {
            assert(x =~= seq![x[0]] + x.skip(1));
            assert(y =~= seq![y[0]] + y.skip(1));
        }
    }
}

/// Segment lists that compare equal are the same list.
pub proof fn lemma_compare_segments_equal(a: Seq<SegmentView>, b: Seq<SegmentView>)
    ensures
        compare_segments(a, b) == Ordering::Equal ==> a == b,
    decreases a.len(),
{
    if a.len() > 0 && b.len() > 0 && compare_segment(a[0], b[0]) == Ordering::Equal {
        lemma_compare_segments_equal(a.skip(1), b.skip(1));
        match (a[0], b[0]) {
            (SegmentView::Alpha(x), SegmentView::Alpha(y)) => {
                lemma_compare_text_equal(x, y);
            },
            _ => {},
        }
        if compare_segments(a, b) == Ordering::Equal {
            assert(a[0] == b[0]);
            assert(a =~= seq![a[0]] + a.skip(1));
            assert(b =~= seq![b[0]] + b.skip(1));
        }
    }
}

/// Versions that compare equal have the same epoch and the same segments.
pub proof fn lemma_compare_versions_equal(a: VersionView, b: VersionView)
    ensures
        compare_versions(a, b) == Ordering::Equal ==> a.epoch == b.epoch && a.segments
            == b.segments,
{
    lemma_compare_segments_equal(a.segments, b.segments);
}

/// Thresholds nest: a change that clears `Major` clears `Minor`, one that
/// clears `Minor` clears `Patch`, and one that clears `Patch` clears `Always`.
/// The first step needs a numeric segment on one side, or versions that compare
/// equal: between two different versions without any numeric segment, `Major`
/// falls back on the full comparison while `Minor` compares the absent major
/// numbers and finds no change.
pub proof fn lemma_thresholds_nest(a: VersionView, b: VersionView)
    requires
        nth_numeric(a.segments, 0) is Some || nth_numeric(b.segments, 0) is Some
            || compare_versions(a, b) == Ordering::Equal,
    ensures
        exceeds(a, b, Threshold::Major) ==> exceeds(a, b, Threshold::Minor),
        exceeds(a, b, Threshold::Minor) ==> exceeds(a, b, Threshold::Patch),
        exceeds(a, b, Threshold::Patch) ==> exceeds(a, b, Threshold::Always),
{
    lemma_compare_versions_equal(a, b);
}

/// The name of a threshold in configuration files.
pub open spec fn threshold_name(t: Threshold) -> Seq<char> {
    match t {
        Threshold::Major => "major"@,
        Threshold::Minor => "minor"@,
        Threshold::Patch => "patch"@,
        Threshold::Always => "always"@,
    }
}

/// The threshold that a name stands for.
pub open spec fn threshold_of_name(s: Seq<char>) -> Option<Threshold> {
    if s == "major"@ {
        Some(Threshold::Major)
    } else if s == "minor"@ {
        Some(Threshold::Minor)
    } else if s == "patch"@ {
        Some(Threshold::Patch)
    } else if s == "always"@ {
        Some(Threshold::Always)
    } else {
        None
    }
}

impl Threshold {
    /// The lower-case name: `major`, `minor`, `patch` or `always`.
    pub fn as_str(&self) -> (r: &'static str)
        ensures
            r@ == threshold_name(*self),
    {
        match self {
            Threshold::Major => "major",
            Threshold::Minor => "minor",
            Threshold::Patch => "patch",
            Threshold::Always => "always",
        }
    }

    /// The threshold named `s`, if any; names are lower case.
    pub fn from_name(s: &str) -> (r: Option<Threshold>)
        ensures
            r == threshold_of_name(s@),
    {
        if str_eq(s, "major") {
            Some(Threshold::Major)
        } else if str_eq(s, "minor") {
            Some(Threshold::Minor)
        } else if str_eq(s, "patch") {
            Some(Threshold::Patch)
        } else if str_eq(s, "always") {
            Some(Threshold::Always)
        } else {
            None
        }
    }
}

/// Texts compare in opposite ways when swapped, and each text equals itself.
pub proof fn lemma_compare_text_swap(x: Seq<char>, y: Seq<char>)
    ensures
        (compare_text(x, y) == Ordering::Less) == (compare_text(y, x) == Ordering::Greater),
        (compare_text(x, y) == Ordering::Equal) == (compare_text(y, x) == Ordering::Equal),
        compare_text(x, x) == Ordering::Equal,
    decreases x.len(),
{
    if x.len() > 0 && y.len() > 0 && x[0] == y[0] {
        lemma_compare_text_swap(x.skip(1), y.skip(1));
    }
    if x.len() > 0 {
        lemma_compare_text_swap(x.skip(1), x.skip(1));
    }
}

/// The order of texts is transitive.
pub proof fn lemma_compare_text_trans(x: Seq<char>, y: Seq<char>, z: Seq<char>)
    requires
        compare_text(x, y) != Ordering::Greater,
        compare_text(y, z) != Ordering::Greater,
    ensures
        compare_text(x, z) != Ordering::Greater,
    decreases x.len(),
{
    if x.len() > 0 && y.len() > 0 && z.len() > 0 && x[0] == y[0] && y[0] == z[0] {
        lemma_compare_text_trans(x.skip(1), y.skip(1), z.skip(1));
    }
}

} // verus!
