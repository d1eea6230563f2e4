//! The decisions of the native-library assembler: its worker count, where
//! each package's library goes, which packages are rebuilt, how the results
//! of the workers combine, and which leftover files a cleanup removes.

use vstd::prelude::*;
use crate::paths::{get_cache_dir, temp_file_name, temp_file_spec, CacheOption, ToolchainId, cache_dir_spec};

verus! {

/// Workers of an assembler built without a count.
pub const DEFAULT_THREAD_COUNT: usize = 2;

/// Why library generation failed.
#[derive(Debug, Clone, Copy, PartialEq, Eq, Structural)]
pub enum GenLibsError {
    /// The assembler was asked for zero workers.
    InvalidThreadCount,
    /// A package's library could not be built.
    CompilationFailure,
    /// The generation ran past its deadline.
    Timeout,
    /// A library handed to the linker is missing.
    LinkError,
}

/// The assembler: compiles the packages of a program into libraries on a
/// fixed number of workers.
pub struct KclvmAssembler {
    thread_count: usize,
}

/// What became of one package's library.
pub enum JobOutcome {
    /// Taken from the cache without building.
    Reused(String),
    /// Built at the given path.
    Built(String),
    /// The backend failed.
    Failed,
    /// The deadline passed before it finished.
    TimedOut,
}

/// One package to compile: its intermediate file and its library.
pub struct LibJob {
    pub pkgpath: String,
    pub ir_path: String,
    pub lib_path: String,
}

/// What to do for one non-main package.
pub enum PackageStep {
    /// Its library is in the cache at this path.
    Reuse(String),
    /// It must be compiled.
    Compile(LibJob),
}

/// The library path of an outcome that succeeded.
pub open spec fn outcome_path(o: JobOutcome) -> Option<Seq<char>> {
    match o {
        JobOutcome::Reused(p) => Some(p@),
        JobOutcome::Built(p) => Some(p@),
        _ => None,
    }
}

/// The library of a package inside the namespace directory `cache_dir`.
pub open spec fn pkg_lib_spec(cache_dir: Seq<char>, pkgpath: Seq<char>, suffix: Seq<char>) -> Seq<
    char,
> {
    cache_dir + seq!['/'] + pkgpath + suffix
}

/// `candidate` is `path`, a dot, a token without `/`, and `suffix`: a
/// numbered or duplicate intermediate left beside `path`.
pub open spec fn is_leftover_spec(path: Seq<char>, suffix: Seq<char>, candidate: Seq<char>) -> bool {
    exists|t: Seq<char>| !t.contains('/') && candidate == path + seq!['.'] + t + suffix
}

/// A cleanup after generating `path` with `suffix` removes `candidate`.
pub open spec fn is_cleanup_target(path: Seq<char>, suffix: Seq<char>, candidate: Seq<char>) -> bool {
    candidate == path || is_leftover_spec(path, suffix, candidate)
}

/// What a cleanup leaves of a listing.
pub open spec fn cleanup_leaves(path: Seq<char>, suffix: Seq<char>, listing: Seq<Seq<char>>) -> Seq<
    Seq<char>,
> {
    listing.filter(|c: Seq<char>| !is_cleanup_target(path, suffix, c))
}

/// Cleaning up twice removes nothing more than cleaning up once: of a
/// listing, what the first cleanup leaves holds nothing that a second would
/// remove.
pub proof fn lemma_cleanup_idempotent(path: Seq<char>, suffix: Seq<char>, listing: Seq<Seq<char>>)
    ensures
        forall|i: int|
            0 <= i < cleanup_leaves(path, suffix, listing).len() ==> !is_cleanup_target(
                path,
                suffix,
                #[trigger] cleanup_leaves(path, suffix, listing)[i],
            ),
{
    broadcast use vstd::seq_lib::group_filter_ensures;

}

impl KclvmAssembler {
    pub closed spec fn spec_thread_count(&self) -> usize {
        self.thread_count
    }

    /// An assembler with the default number of workers.
    pub fn new() -> (r: Self)
        ensures
            r.spec_thread_count() == DEFAULT_THREAD_COUNT,
    {
        KclvmAssembler { thread_count: DEFAULT_THREAD_COUNT }
    }

    /// An assembler with `thread_count` workers; zero is refused with
    /// `InvalidThreadCount`.
    pub fn try_with_thread_count(thread_count: usize) -> (r: Result<Self, GenLibsError>)
        ensures
            thread_count == 0 <==> r is Err,
            r matches Err(e) ==> e == GenLibsError::InvalidThreadCount,
            r matches Ok(a) ==> a.spec_thread_count() == thread_count,
    {
        if thread_count == 0 {
            Err(GenLibsError::InvalidThreadCount)
        } else {
            Ok(KclvmAssembler { thread_count })
        }
    }

    /// An assembler with `thread_count` workers, at least one.
    pub fn new_with_thread_count(thread_count: usize) -> (r: Self)
        requires
            thread_count > 0,
        ensures
            r.spec_thread_count() == thread_count,
    {
        KclvmAssembler { thread_count }
    }

    /// The number of workers, fixed when the assembler was made.
    pub fn get_thread_count(&self) -> (r: usize)
        ensures
            r == self.spec_thread_count(),
    {
        self.thread_count
    }

    /// The namespace directory under the default cache directory, where the
    /// libraries of the non-main packages of the program at `root` go.
    pub fn construct_cache_dir(&self, root: &str, toolchain: &ToolchainId) -> (r: String)
        ensures
            r@ == cache_dir_spec(
                root@,
                crate::paths::DEFAULT_CACHE_DIR@,
                toolchain.version@,
                toolchain.checksum@,
            ),
    {
        let option = CacheOption::default();
        get_cache_dir(root, &option, toolchain)
    }

    /// The library of the main package: `entry_file` with the library suffix.
    pub fn main_lib_path(&self, entry_file: &str, suffix: &str) -> (r: String)
        ensures
            r@ == entry_file@ + suffix@,
    {
        let mut s = String::from_str(entry_file);
        s.append(suffix);
        s
    }

    /// The library of `pkgpath` in the namespace directory `cache_dir`.
    pub fn pkg_lib_path(&self, cache_dir: &str, pkgpath: &str, suffix: &str) -> (r: String)
        ensures
            r@ == pkg_lib_spec(cache_dir@, pkgpath@, suffix@),
    {
        proof {
            reveal_strlit("/");
        }
        let mut s = String::from_str(cache_dir);
        s.append("/");
        s.append(pkgpath);
        s.append(suffix);
        s
    }

    /// What to do for the non-main package `pkgpath`: reuse `cached`, a
    /// library that the cache holds for it and that exists, or else compile
    /// it to its library in `cache_dir` through an intermediate file in
    /// `tmp_dir` named after the process `pid` and the `timestamp`.
    pub fn plan_package(
        &self,
        pkgpath: &str,
        cache_dir: &str,
        tmp_dir: &str,
        suffix: &str,
        cached: Option<String>,
        pid: u32,
        timestamp: i64,
    ) -> (r: PackageStep)
        ensures
            cached matches Some(p) ==> r == PackageStep::Reuse(p),
            cached is None ==> (r matches PackageStep::Compile(j) && j.pkgpath@ == pkgpath@
                && j.lib_path@ == pkg_lib_spec(cache_dir@, pkgpath@, suffix@) && j.ir_path@
                == temp_file_spec(tmp_dir@, pkgpath@, pid as nat, timestamp as int)),
    {
        match cached {
            Some(p) => PackageStep::Reuse(p),
            None => PackageStep::Compile(
                LibJob {
                    pkgpath: String::from_str(pkgpath),
                    ir_path: temp_file_name(tmp_dir, pkgpath, pid, timestamp),
                    lib_path: self.pkg_lib_path(cache_dir, pkgpath, suffix),
                },
            ),
        }
    }

    /// Which entries of a directory listing a cleanup after generating
    /// `path` with `suffix` removes: `path` itself and its leftovers.
    pub fn clean_path_for_genlibs(&self, path: &str, suffix: &str, listing: &Vec<String>) -> (r: Vec<
        bool,
    >)
        ensures
            r@.len() == listing@.len(),
            forall|i: int|
                0 <= i < listing@.len() ==> r@[i] == is_cleanup_target(path@, suffix@, listing@[i]@),
    {
        let mut marks: Vec<bool> = Vec::new();
        let mut i: usize = 0;
        while i < listing.len()
            invariant
                i <= listing@.len(),
                marks@.len() == i,
                forall|k: int|
                    0 <= k < i ==> marks@[k] == (listing@[k]@ == path@ || is_leftover_spec(
                        path@,
                        suffix@,
                        listing@[k]@,
                    )),
            decreases listing@.len() - i,
        {
            let c = listing[i].as_str();
            let same = str_eq(c, path);
            marks.push(same || is_leftover(path, suffix, c));
            i = i + 1;
        }
        marks
    }

    /// Whether `candidate` is a leftover of generating `path` with `suffix`:
    /// `path`, a dot, a token without `/`, and `suffix`.
    pub fn is_genlibs_leftover(&self, path: &str, suffix: &str, candidate: &str) -> (r: bool)
        ensures
            r == is_leftover_spec(path@, suffix@, candidate@),
    {
        is_leftover(path, suffix, candidate)
    }
}

fn str_eq(a: &str, b: &str) -> (r: bool)
    ensures
        r == (a@ == b@),
{
    let x = crate::paths::chars_of(a);
    let y = crate::paths::chars_of(b);
    if x.len() != y.len() {
        return false;
    }
    assert(x@.subrange(0, y@.len() as int) =~= x@);
    chars_equal_at(&x, 0, &y)
}

fn chars_equal_at(s: &Vec<char>, at: usize, p: &Vec<char>) -> (r: bool)
    requires
        at + p@.len() <= s@.len(),
    ensures
        r == (s@.subrange(at as int, at + p@.len()) == p@),
{
    let n = p.len();
    let m = s.len();
    let mut i: usize = 0;
    while i < n
        invariant
            n == p@.len(),
            m == s@.len(),
            at + n <= m,
            i <= n,
            forall|k: int| 0 <= k < i ==> s@[at + k] == p@[k],
        decreases n - i,
    {
        if s[at + i] != p[i] {
            assert(s@.subrange(at as int, at + n)[i as int] != p@[i as int]);
            return false;
        }
        i = i + 1;
    }
    assert(s@.subrange(at as int, at + n) =~= p@);
    true
}


fn is_leftover(path: &str, suffix: &str, candidate: &str) -> (r: bool)
    ensures
        r == is_leftover_spec(path@, suffix@, candidate@),
{
    let c = crate::paths::chars_of(candidate);
    let p = crate::paths::chars_of(path);
    let s = crate::paths::chars_of(suffix);
    let n = c.len();
    if p.len() >= n || n - p.len() - 1 < s.len() {
        proof {
            assert forall|t: Seq<char>| !(candidate@ == path@ + seq!['.'] + t + suffix@) by {
                if candidate@ == path@ + seq!['.'] + t + suffix@ {
                    assert(candidate@.len() == path@.len() + 1 + t.len() + suffix@.len());
                }
            }
        }
        return false;
    }
    let start = p.len() + 1;
    let end = n - s.len();
    let ok_prefix = chars_equal_at(&c, 0, &p);
    let ok_dot = c[p.len()] == '.';
    let ok_suffix = chars_equal_at(&c, end, &s);
    let mut ok_token = true;
    let mut i: usize = start;
    while i < end
        invariant
            start <= end <= n,
            n == c@.len(),
            start <= i <= end,
            ok_token == forall|k: int| start <= k < i ==> c@[k] != '/',
        decreases end - i,
    {
        if c[i] == '/' {
            ok_token = false;
        }
        i = i + 1;
    }
    let ghost t = c@.subrange(start as int, end as int);
    proof {
        if ok_prefix && ok_dot && ok_suffix && ok_token {
            assert(!t.contains('/')) by {
                if t.contains('/') {
                    let k = choose|k: int| 0 <= k < t.len() && t[k] == '/';
                    assert(c@[start + k] == '/');
                }
            }
            assert(candidate@ =~= path@ + seq!['.'] + t + suffix@);
        } else {
            assert forall|u: Seq<char>| !(!u.contains('/') && candidate@ == path@ + seq!['.'] + u
                + suffix@) by {
                if !u.contains('/') && candidate@ == path@ + seq!['.'] + u + suffix@ {
                    assert(u.len() == t.len());
                    assert(c@.subrange(0, p@.len() as int) =~= p@);
                    assert(c@[p@.len() as int] == '.');
                    assert(c@.subrange(end as int, end + s@.len()) =~= s@);
                    assert(u =~= t);
                    if !ok_token {
                        let k = choose|k: int| start <= k < end && c@[k] == '/';
                        assert(u[k - start] == '/');
                    }
                }
            }
        }
    }
    ok_prefix && ok_dot && ok_suffix && ok_token
}

/// Every outcome succeeded.
pub open spec fn all_succeeded(s: Seq<JobOutcome>) -> bool {
    forall|i: int| 0 <= i < s.len() ==> outcome_path(s[i]) is Some
}

/// Some outcome ran past the deadline.
pub open spec fn any_timed_out(s: Seq<JobOutcome>) -> bool {
    exists|i: int| 0 <= i < s.len() && s[i] is TimedOut
}

/// Combines the main library and the outcomes of the non-main packages into
/// the full list of libraries: the main library first, then one per package
/// in the order of `outcomes`. Fails as a whole where any package failed:
/// with `Timeout` where one ran past the deadline, else with
/// `CompilationFailure`.
pub fn collect_lib_paths(main_lib: String, outcomes: Vec<JobOutcome>) -> (r: Result<
    Vec<String>,
    GenLibsError,
>)
    ensures
        r is Ok <==> all_succeeded(outcomes@),
        r matches Ok(v) ==> {
            &&& v@.len() == outcomes@.len() + 1
            &&& v@[0]@ == main_lib@
            &&& forall|i: int|
                0 <= i < outcomes@.len() ==> outcome_path(outcomes@[i]) == Some(v@[i + 1]@)
        },
        r matches Err(e) ==> (e == GenLibsError::Timeout <==> any_timed_out(outcomes@)),
        r matches Err(e) ==> e == GenLibsError::Timeout || e == GenLibsError::CompilationFailure,
{
    let mut libs: Vec<String> = Vec::new();
    libs.push(main_lib);
    let mut failed = false;
    let mut timed_out = false;
    let n = outcomes.len();
    let mut i: usize = 0;
    while i < n
        invariant
            n == outcomes@.len(),
            i <= n,
            timed_out == exists|k: int| 0 <= k < i && outcomes@[k] is TimedOut,
            !failed ==> forall|k: int| 0 <= k < i ==> outcome_path(outcomes@[k]) is Some,
            failed ==> exists|k: int| 0 <= k < i && outcome_path(outcomes@[k]) is None,
            !failed ==> libs@.len() == i + 1,
            !failed ==> forall|k: int|
                0 <= k < i ==> outcome_path(outcomes@[k]) == Some(libs@[k + 1]@),
            libs@.len() >= 1,
            libs@[0]@ == main_lib@,
        decreases n - i,
    {
        match &outcomes[i] {
            JobOutcome::Reused(p) => {
                libs.push(p.clone());
            },
            JobOutcome::Built(p) => {
                libs.push(p.clone());
            },
            JobOutcome::Failed => {
                failed = true;
            },
            JobOutcome::TimedOut => {
                failed = true;
                timed_out = true;
            },
        }
        i = i + 1;
    }
    if timed_out {
        Err(GenLibsError::Timeout)
    } else if failed {
        Err(GenLibsError::CompilationFailure)
    } else {
        Ok(libs)
    }
}

/// Checks the inputs of the linker: every library must be present
/// (`present[i]` for `lib_paths[i]`), else `LinkError` and no artifact.
pub fn check_link_inputs(lib_paths: &Vec<String>, present: &Vec<bool>) -> (r: Result<(), GenLibsError>)
    requires
        present@.len() == lib_paths@.len(),
    ensures
        r is Ok <==> forall|i: int| 0 <= i < present@.len() ==> present@[i],
        r matches Err(e) ==> e == GenLibsError::LinkError,
{
    let mut i: usize = 0;
    while i < present.len()
        invariant
            i <= present@.len(),
            forall|k: int| 0 <= k < i ==> present@[k],
        decreases present@.len() - i,
    {
        if !present[i] {
            return Err(GenLibsError::LinkError);
        }
        i = i + 1;
    }
    Ok(())
}

} // verus!
