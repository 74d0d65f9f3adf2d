//! The curated registry: packages known to break the ABI of their dependents
//! when upgraded, each with the threshold that fits its release habits.
use vstd::prelude::*;
use vstd::string::StringExecFns;

use crate::text::str_eq;
use crate::version::Threshold;

verus! {

/// Version of the curated list; raised whenever the list changes.
pub const TRIGGER_LIST_VERSION: u32 = 3;

/// The curated triggers with their thresholds, in the order of the list.
pub open spec fn curated_list() -> Seq<(Seq<char>, Threshold)> {
    seq![
        ("glibc"@, Threshold::Major),
        ("gcc-libs"@, Threshold::Major),
        ("glib2"@, Threshold::Minor),
        ("qt5-base"@, Threshold::Minor),
        ("qt6-base"@, Threshold::Minor),
        ("gtk2"@, Threshold::Minor),
        ("gtk3"@, Threshold::Minor),
        ("gtk4"@, Threshold::Minor),
        ("wxwidgets"@, Threshold::Minor),
        ("electron"@, Threshold::Major),
        ("freetype2"@, Threshold::Minor),
        ("mesa"@, Threshold::Minor),
        ("vulkan-icd-loader"@, Threshold::Minor),
        ("ffmpeg"@, Threshold::Minor),
        ("pipewire"@, Threshold::Minor),
        ("llvm-libs"@, Threshold::Major),
        ("protobuf"@, Threshold::Patch),
        ("abseil-cpp"@, Threshold::Always),
        ("grpc"@, Threshold::Minor),
        ("openssl"@, Threshold::Minor),
        ("gnutls"@, Threshold::Minor),
        ("icu"@, Threshold::Minor),
        ("curl"@, Threshold::Minor),
        ("boost"@, Threshold::Minor),
        ("opencv"@, Threshold::Minor),
        ("vtk"@, Threshold::Minor),
        ("postgresql-libs"@, Threshold::Major),
        ("libffi"@, Threshold::Minor),
        ("python"@, Threshold::Minor),
        ("nodejs"@, Threshold::Major),
        ("ruby"@, Threshold::Minor),
        ("lua"@, Threshold::Minor),
    ]
}

/// The threshold of the first entry named `name`, if any.
pub open spec fn first_threshold(entries: Seq<(Seq<char>, Threshold)>, name: Seq<char>) -> Option<
    Threshold,
>
    decreases entries.len(),
{
    if entries.len() == 0 {
        None
    } else {
        match first_threshold(entries.drop_last(), name) {
            Some(t) => Some(t),
            None => if entries.last().0 == name {
                Some(entries.last().1)
            } else {
                None
            },
        }
    }
}

/// The curated threshold of `name`, if it is a curated trigger.
pub open spec fn curated_threshold(name: Seq<char>) -> Option<Threshold> {
    first_threshold(curated_list(), name)
}

pub open spec fn entry_views(v: Seq<(String, Threshold)>) -> Seq<(Seq<char>, Threshold)> {
    v.map_values(|e: (String, Threshold)| (e.0@, e.1))
}

/// The curated list.
pub fn curated_triggers() -> (r: Vec<(String, Threshold)>)
    ensures
        entry_views(r@) == curated_list(),
{
    let mut v: Vec<(String, Threshold)> = Vec::new();
    v.push((String::from_str("glibc"), Threshold::Major));
    v.push((String::from_str("gcc-libs"), Threshold::Major));
    v.push((String::from_str("glib2"), Threshold::Minor));
    v.push((String::from_str("qt5-base"), Threshold::Minor));
    v.push((String::from_str("qt6-base"), Threshold::Minor));
    v.push((String::from_str("gtk2"), Threshold::Minor));
    v.push((String::from_str("gtk3"), Threshold::Minor));
    v.push((String::from_str("gtk4"), Threshold::Minor));
    v.push((String::from_str("wxwidgets"), Threshold::Minor));
    v.push((String::from_str("electron"), Threshold::Major));
    v.push((String::from_str("freetype2"), Threshold::Minor));
    v.push((String::from_str("mesa"), Threshold::Minor));
    v.push((String::from_str("vulkan-icd-loader"), Threshold::Minor));
    v.push((String::from_str("ffmpeg"), Threshold::Minor));
    v.push((String::from_str("pipewire"), Threshold::Minor));
    v.push((String::from_str("llvm-libs"), Threshold::Major));
    v.push((String::from_str("protobuf"), Threshold::Patch));
    v.push((String::from_str("abseil-cpp"), Threshold::Always));
    v.push((String::from_str("grpc"), Threshold::Minor));
    v.push((String::from_str("openssl"), Threshold::Minor));
    v.push((String::from_str("gnutls"), Threshold::Minor));
    v.push((String::from_str("icu"), Threshold::Minor));
    v.push((String::from_str("curl"), Threshold::Minor));
    v.push((String::from_str("boost"), Threshold::Minor));
    v.push((String::from_str("opencv"), Threshold::Minor));
    v.push((String::from_str("vtk"), Threshold::Minor));
    v.push((String::from_str("postgresql-libs"), Threshold::Major));
    v.push((String::from_str("libffi"), Threshold::Minor));
    v.push((String::from_str("python"), Threshold::Minor));
    v.push((String::from_str("nodejs"), Threshold::Major));
    v.push((String::from_str("ruby"), Threshold::Minor));
    v.push((String::from_str("lua"), Threshold::Minor));
    assert(entry_views(v@) =~= curated_list());
    v
}

/// Whether `package` is a curated trigger.
pub fn is_curated_trigger(package: &str) -> (r: bool)
    ensures
        r == (curated_threshold(package@) is Some),
{
    get_curated_threshold(package).is_some()
}

/// The curated threshold of `package`, if it is a curated trigger.
pub fn get_curated_threshold(package: &str) -> (r: Option<Threshold>)
    ensures
        r == curated_threshold(package@),
{
    let list = curated_triggers();
    let ghost es = entry_views(list@);
    let mut found: Option<Threshold> = None;
    let mut i: usize = 0;
    while i < list.len()
        invariant
            es == entry_views(list@),
            es == curated_list(),
            i <= list.len(),
            found == first_threshold(es.take(i as int), package@),
        decreases list.len() - i,
    {
        assert(es.take(i + 1).drop_last() =~= es.take(i as int));
        assert(es.take(i + 1).last() == (list@[i as int].0@, list@[i as int].1));
        if found.is_none() && str_eq(list[i].0.as_str(), package) {
            found = Some(list[i].1);
        }
        i = i + 1;
    }
    assert(es.take(list.len() as int) =~= es);
    found
}

} // verus!
