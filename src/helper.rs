//! Rebuild helpers: how to call one, which one to use, what to rebuild, and
//! what to say when it fails.
use vstd::prelude::*;
use vstd::string::StringExecFns;

use crate::config::{known_helper_list, known_helpers, Config};
use crate::text::{
    contains_string, join, join_strings, signed_decimal, signed_decimal_string, split_words, str_eq,
    views, words,
};

verus! {

/// How to call a rebuild helper.
#[derive(Debug)]
pub struct HelperInvocation {
    /// The program to run.
    pub command: String,
    /// The arguments that come before the package names.
    pub base_args: Vec<String>,
}

pub struct HelperInvocationView {
    pub command: Seq<char>,
    pub base_args: Seq<Seq<char>>,
}

impl View for HelperInvocation {
    type V = HelperInvocationView;

    open spec fn view(&self) -> HelperInvocationView {
        HelperInvocationView { command: self.command@, base_args: views(self.base_args@) }
    }
}

/// The call of a helper whose command line is built in: `aura` rebuilds with
/// `-A --rebuild`, the others with `-S --rebuild`.
pub open spec fn known_invocation(name: Seq<char>) -> HelperInvocationView {
    HelperInvocationView {
        command: name,
        base_args: if name == "aura"@ {
            seq!["-A"@, "--rebuild"@]
        } else {
            seq!["-S"@, "--rebuild"@]
        },
    }
}

/// The call that a command line of the user's gives: its first word runs,
/// with the other words as arguments; a blank line runs as it is.
pub open spec fn custom_invocation(cmd: Seq<char>) -> HelperInvocationView {
    let ws = words(cmd);
    if ws.len() == 0 {
        HelperInvocationView { command: cmd, base_args: seq![] }
    } else {
        HelperInvocationView { command: ws[0], base_args: ws.skip(1) }
    }
}

impl HelperInvocation {
    /// The call of a helper whose command line is built in.
    pub fn for_known_helper(name: &str) -> (r: HelperInvocation)
        ensures
            r@ == known_invocation(name@),
    {
        let mut base_args: Vec<String> = Vec::new();
        if str_eq(name, "aura") {
            base_args.push(String::from_str("-A"));
        } else {
            base_args.push(String::from_str("-S"));
        }
        base_args.push(String::from_str("--rebuild"));
        let r = HelperInvocation { command: String::from_str(name), base_args };
        assert(r@.base_args =~= known_invocation(name@).base_args);
        r
    }

    /// The call that a command line of the user's gives.
    pub fn from_custom(cmd: &str) -> (r: HelperInvocation)
        ensures
            r@ == custom_invocation(cmd@),
    {
        let mut parts = split_words(cmd);
        if parts.len() == 0 {
            let r = HelperInvocation { command: String::from_str(cmd), base_args: Vec::new() };
            assert(r@.base_args =~= Seq::<Seq<char>>::empty());
            r
        } else {
            let ghost ws = views(parts@);
            let command = parts.remove(0);
            assert(views(parts@) =~= ws.skip(1));
            HelperInvocation { command, base_args: parts }
        }
    }
}

/// Why a rebuild could not go ahead.
#[derive(Debug)]
pub enum RebuildError {
    /// No helper was found on the path.
    NoHelper,
    /// Several helpers were found; the user must choose one.
    AmbiguousHelper(Vec<String>),
    /// The chosen helper is not on the path.
    HelperNotFound(String),
    /// The helper could not be started; the text says why.
    HelperSpawn(String),
    /// The helper exited with this code.
    HelperFailed(i32),
    /// `checkrebuild` could not be run; the text says why.
    CheckrebuildFailed(String),
    /// A package asked for is not in the queue.
    PackageNotInQueue(String),
}

/// What the user is told about a rebuild error.
pub open spec fn rebuild_message(e: RebuildError) -> Seq<char> {
    match e {
        RebuildError::NoHelper => "No AUR helper detected. Set 'helper' in /etc/anneal/config.conf\nSupported helpers: "@
            + join(known_helper_list(), ", "@),
        RebuildError::AmbiguousHelper(hs) => "Multiple AUR helpers found: "@ + join(views(hs@), ", "@)
            + ". Set 'helper' in /etc/anneal/config.conf"@,
        RebuildError::HelperNotFound(name) => "AUR helper '"@ + name@ + "' not found in PATH"@,
        RebuildError::HelperSpawn(e) => "Failed to start AUR helper: "@ + e@,
        RebuildError::HelperFailed(code) => "AUR helper exited with code "@ + signed_decimal(code as int),
        RebuildError::CheckrebuildFailed(e) => "Failed to run checkrebuild: "@ + e@,
        RebuildError::PackageNotInQueue(pkg) => "Package '"@ + pkg@ + "' is not in the queue (use -f to force)"@,
    }
}

impl RebuildError {
    /// The text that tells the user about this error.
    pub fn message(&self) -> (r: String)
        ensures
            r@ == rebuild_message(*self),
    {
        match self {
            RebuildError::NoHelper => {
                let mut s = String::from_str(
                    "No AUR helper detected. Set 'helper' in /etc/anneal/config.conf\nSupported helpers: ",
                );
                let helpers = known_helpers();
                let list = join_strings(&helpers, ", ");
                s.append(list.as_str());
                s
            },
            RebuildError::AmbiguousHelper(hs) => {
                let mut s = String::from_str("Multiple AUR helpers found: ");
                let list = join_strings(hs, ", ");
                s.append(list.as_str());
                s.append(". Set 'helper' in /etc/anneal/config.conf");
                s
            },
            RebuildError::HelperNotFound(name) => {
                let mut s = String::from_str("AUR helper '");
                s.append(name.as_str());
                s.append("' not found in PATH");
                s
            },
            RebuildError::HelperSpawn(e) => {
                let mut s = String::from_str("Failed to start AUR helper: ");
                s.append(e.as_str());
                s
            },
            RebuildError::HelperFailed(code) => {
                let mut s = String::from_str("AUR helper exited with code ");
                let digits = signed_decimal_string(*code);
                s.append(digits.as_str());
                s
            },
            RebuildError::CheckrebuildFailed(e) => {
                let mut s = String::from_str("Failed to run checkrebuild: ");
                s.append(e.as_str());
                s
            },
            RebuildError::PackageNotInQueue(pkg) => {
                let mut s = String::from_str("Package '");
                s.append(pkg.as_str());
                s.append("' is not in the queue (use -f to force)");
                s
            },
        }
    }
}

/// The program whose presence on the path decides whether `helper` can run:
/// the helper itself if its command line is built in, else the first word of
/// the user's command line (the whole line when it has no word).
pub open spec fn helper_program(helper: Seq<char>) -> Seq<char> {
    if known_helper_list().contains(helper) {
        helper
    } else {
        let ws = words(helper);
        if ws.len() == 0 {
            helper
        } else {
            ws[0]
        }
    }
}

/// The program whose presence on the path decides whether `helper` can run.
pub fn helper_program_of(helper: &str) -> (r: String)
    ensures
        r@ == helper_program(helper@),
{
    if Config::is_known_helper(helper) {
        return String::from_str(helper);
    }
    let mut ws = split_words(helper);
    if ws.len() == 0 {
        String::from_str(helper)
    } else {
        ws.swap_remove(0)
    }
}

/// How to call `helper`, given whether its program (`helper_program_of`) is on
/// the path: a helper whose command line is built in is called in its way, any
/// other command line as the user wrote it; an absent program is an error that
/// names it.
pub fn resolve_helper(helper: &str, on_path: bool) -> (r: Result<HelperInvocation, RebuildError>)
    ensures
        match r {
            Ok(inv) => on_path && inv@ == if known_helper_list().contains(helper@) {
                known_invocation(helper@)
            } else {
                custom_invocation(helper@)
            },
            Err(RebuildError::HelperNotFound(name)) => !on_path && name@ == helper_program(helper@),
            Err(_) => false,
        },
{
    if !on_path {
        return Err(RebuildError::HelperNotFound(helper_program_of(helper)));
    }
    if Config::is_known_helper(helper) {
        Ok(HelperInvocation::for_known_helper(helper))
    } else {
        Ok(HelperInvocation::from_custom(helper))
    }
}

/// The helper to use among those found on the path: the only one, else an
/// error saying that there is none or that there are several.
pub fn pick_detected_helper(found: Vec<String>) -> (r: Result<HelperInvocation, RebuildError>)
    ensures
        found.len() == 0 ==> r matches Err(RebuildError::NoHelper),
        found.len() == 1 ==> (r matches Ok(inv) && inv@ == known_invocation(found@[0]@)),
        found.len() > 1 ==> (r matches Err(RebuildError::AmbiguousHelper(hs)) && views(hs@)
            == views(found@)),
{
    if found.len() == 0 {
        Err(RebuildError::NoHelper)
    } else if found.len() == 1 {
        Ok(HelperInvocation::for_known_helper(found[0].as_str()))
    } else {
        Err(RebuildError::AmbiguousHelper(found))
    }
}

/// The first package of `requested` that is not in `queue`.
pub open spec fn first_missing(queue: Seq<Seq<char>>, requested: Seq<Seq<char>>) -> Option<
    Seq<char>,
>
    decreases requested.len(),
{
    if requested.len() == 0 {
        None
    } else {
        match first_missing(queue, requested.drop_last()) {
            Some(p) => Some(p),
            None => if queue.contains(requested.last()) {
                None
            } else {
                Some(requested.last())
            },
        }
    }
}

/// The queued packages to rebuild: the whole queue when none is asked for;
/// else those asked for, all of which must be queued unless `force` is set.
pub open spec fn rebuild_selection(
    queue: Seq<Seq<char>>,
    requested: Seq<Seq<char>>,
    force: bool,
) -> Result<Seq<Seq<char>>, Seq<char>> {
    if requested.len() == 0 {
        Ok(queue)
    } else if force {
        Ok(requested)
    } else {
        match first_missing(queue, requested) {
            Some(p) => Err(p),
            None => Ok(requested),
        }
    }
}

fn clone_all(v: &Vec<String>) -> (r: Vec<String>)
    ensures
        views(r@) == views(v@),
{
    let mut out: Vec<String> = Vec::new();
    let mut i: usize = 0;
    while i < v.len()
        invariant
            i <= v.len(),
            views(out@) == views(v@).take(i as int),
        decreases v.len() - i,
    {
        let ghost before = out@;
        let c = v[i].clone();
        out.push(c);
        assert(views(out@) =~= views(before).push(v@[i as int]@));
        assert(views(out@) =~= views(v@).take(i + 1));
        i = i + 1;
    }
    assert(views(v@).take(v.len() as int) =~= views(v@));
    out
}

/// The packages to rebuild from the queue; an error names the first package
/// asked for that is not queued, when `force` is not set.
pub fn select_rebuild_packages(queue: &Vec<String>, requested: &Vec<String>, force: bool) -> (r:
    Result<Vec<String>, RebuildError>)
    ensures
        match r {
            Ok(v) => rebuild_selection(views(queue@), views(requested@), force) == Ok::<
                Seq<Seq<char>>,
                Seq<char>,
            >(views(v@)),
            Err(RebuildError::PackageNotInQueue(p)) => rebuild_selection(
                views(queue@),
                views(requested@),
                force,
            ) == Err::<Seq<Seq<char>>, Seq<char>>(p@),
            Err(_) => false,
        },
{
    if requested.len() == 0 {
        return Ok(clone_all(queue));
    }
    if force {
        return Ok(clone_all(requested));
    }
    let ghost rs = views(requested@);
    let ghost qs = views(queue@);
    let mut i: usize = 0;
    assert(rs.take(0) =~= Seq::<Seq<char>>::empty());
    while i < requested.len()
        invariant
            rs == views(requested@),
            qs == views(queue@),
            !force,
            requested.len() > 0,
            i <= requested.len(),
            first_missing(qs, rs.take(i as int)) is None,
        decreases requested.len() - i,
    {
        assert(rs.take(i + 1).drop_last() =~= rs.take(i as int));
        assert(rs.take(i + 1).last() == requested@[i as int]@);
        if !contains_string(queue, requested[i].as_str()) {
            proof {
                lemma_first_missing_stays(qs, rs, i + 1);
            }
            return Err(RebuildError::PackageNotInQueue(requested[i].clone()));
        }
        i = i + 1;
    }
    assert(rs.take(requested.len() as int) =~= rs);
    Ok(clone_all(requested))
}

/// Once a package is missing, later ones change nothing.
proof fn lemma_first_missing_stays(queue: Seq<Seq<char>>, requested: Seq<Seq<char>>, k: int)
    requires
        0 < k <= requested.len(),
        first_missing(queue, requested.take(k)) is Some,
    ensures
        first_missing(queue, requested) == first_missing(queue, requested.take(k)),
    decreases requested.len() - k,
{
    if k == requested.len() {
        assert(requested.take(k) =~= requested);
    } else {
        assert(requested.take(k + 1).drop_last() =~= requested.take(k));
        lemma_first_missing_stays(queue, requested, k + 1);
    }
}

/// The packages of `found` that are not already in `from_queue`, in order.
pub open spec fn extra_packages(from_queue: Seq<Seq<char>>, found: Seq<Seq<char>>) -> Seq<
    Seq<char>,
>
    decreases found.len(),
{
    if found.len() == 0 {
        seq![]
    } else {
        extra_packages(from_queue, found.drop_last()) + if from_queue.contains(found.last()) {
            seq![]
        } else {
            seq![found.last()]
        }
    }
}

/// What `checkrebuild` adds to the packages taken from the queue.
pub fn merge_checkrebuild(from_queue: &Vec<String>, found: &Vec<String>) -> (r: Vec<String>)
    ensures
        views(r@) == extra_packages(views(from_queue@), views(found@)),
{
    let ghost fs = views(found@);
    let mut out: Vec<String> = Vec::new();
    let mut i: usize = 0;
    while i < found.len()
        invariant
            fs == views(found@),
            i <= found.len(),
            views(out@) == extra_packages(views(from_queue@), fs.take(i as int)),
        decreases found.len() - i,
    {
        assert(fs.take(i + 1).drop_last() =~= fs.take(i as int));
        assert(fs.take(i + 1).last() == found@[i as int]@);
        let ghost before = out@;
        if !contains_string(from_queue, found[i].as_str()) {
            out.push(found[i].clone());
            assert(views(out@) =~= views(before) + seq![found@[i as int]@]);
        } else {
            assert(views(out@) =~= views(before) + Seq::<Seq<char>>::empty());
        }
        i = i + 1;
    }
    assert(fs.take(found.len() as int) =~= fs);
    out
}

} // verus!
