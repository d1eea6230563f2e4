//! Paths of the build cache: namespaces, artifact files, the fingerprint
//! record, lock files, temporary files and package sources.

use vstd::prelude::*;

verus! {

/// Suffix of the advisory lock file that guards a target file.
pub const LOCK_SUFFIX: &'static str = ".lock";

/// Root-relative directory of the cache when none is configured.
pub const DEFAULT_CACHE_DIR: &'static str = ".kclvm/cache";

/// File name of the fingerprint record inside a namespace.
pub const CACHE_INFO_FILENAME: &'static str = "info";

/// Suffix of a KCL source file.
pub const KCL_FILE_SUFFIX: &'static str = ".k";

/// Where the cache lives, relative to the session root.
pub struct CacheOption {
    pub cache_dir: String,
}

/// The toolchain build identity that keys a cache namespace.
pub struct ToolchainId {
    pub version: String,
    pub checksum: String,
}

impl Default for CacheOption {
    fn default() -> (r: Self)
        ensures
            r.cache_dir@ == DEFAULT_CACHE_DIR@,
    {
        CacheOption { cache_dir: String::from_str(DEFAULT_CACHE_DIR) }
    }
}

impl CacheOption {
    /// A cache rooted at `cache_dir` below the session root.
    pub fn new(cache_dir: &str) -> (r: Self)
        ensures
            r.cache_dir@ == cache_dir@,
    {
        CacheOption { cache_dir: String::from_str(cache_dir) }
    }
}

impl ToolchainId {
    pub fn new(version: &str, checksum: &str) -> (r: Self)
        ensures
            r.version@ == version@,
            r.checksum@ == checksum@,
    {
        ToolchainId { version: String::from_str(version), checksum: String::from_str(checksum) }
    }
}

/// The namespace directory: `<root>/<cache_dir>/<version>-<checksum>`.
pub open spec fn cache_dir_spec(
    root: Seq<char>,
    cache_dir: Seq<char>,
    version: Seq<char>,
    checksum: Seq<char>,
) -> Seq<char> {
    root + seq!['/'] + cache_dir + seq!['/'] + version + seq!['-'] + checksum
}

/// A file directly inside the namespace directory.
pub open spec fn cache_file_spec(
    root: Seq<char>,
    cache_dir: Seq<char>,
    version: Seq<char>,
    checksum: Seq<char>,
    name: Seq<char>,
) -> Seq<char> {
    cache_dir_spec(root, cache_dir, version, checksum) + seq!['/'] + name
}

/// A dotted package path with each `.` turned into `/`.
pub open spec fn dots_to_slashes(p: Seq<char>) -> Seq<char> {
    Seq::new(p.len(), |i: int| if p[i] == '.' { '/' } else { p[i] })
}

/// The source directory (or suffix-less file path) of a package.
pub open spec fn pkg_source_spec(root: Seq<char>, pkgpath: Seq<char>) -> Seq<char> {
    root + seq!['/'] + dots_to_slashes(pkgpath)
}

/// The single source file that a package may be.
pub open spec fn pkg_source_file_spec(root: Seq<char>, pkgpath: Seq<char>) -> Seq<char> {
    pkg_source_spec(root, pkgpath) + seq!['.', 'k']
}

/// Appends `tail` to `s`.
fn push_str(s: &mut String, tail: &str)
    ensures
        final(s)@ == old(s)@ + tail@,
{
    s.append(tail);
}

/// The namespace directory of `toolchain` for the session at `root`.
pub fn get_cache_dir(root: &str, option: &CacheOption, toolchain: &ToolchainId) -> (r: String)
    ensures
        r@ == cache_dir_spec(root@, option.cache_dir@, toolchain.version@, toolchain.checksum@),
{
    proof {
        reveal_strlit("/");
        reveal_strlit("-");
    }
    let mut s = String::from_str(root);
    push_str(&mut s, "/");
    push_str(&mut s, option.cache_dir.as_str());
    push_str(&mut s, "/");
    push_str(&mut s, toolchain.version.as_str());
    push_str(&mut s, "-");
    push_str(&mut s, toolchain.checksum.as_str());
    s
}

/// The artifact file of `pkgpath` in the namespace of `toolchain`.
pub fn get_cache_filename(
    root: &str,
    pkgpath: &str,
    option: &CacheOption,
    toolchain: &ToolchainId,
) -> (r: String)
    ensures
        r@ == cache_file_spec(
            root@,
            option.cache_dir@,
            toolchain.version@,
            toolchain.checksum@,
            pkgpath@,
        ),
{
    proof {
        reveal_strlit("/");
    }
    let mut s = get_cache_dir(root, option, toolchain);
    push_str(&mut s, "/");
    push_str(&mut s, pkgpath);
    s
}

/// The fingerprint record file in the namespace of `toolchain`.
pub fn get_cache_info_filename(root: &str, option: &CacheOption, toolchain: &ToolchainId) -> (r:
    String)
    ensures
        r@ == cache_file_spec(
            root@,
            option.cache_dir@,
            toolchain.version@,
            toolchain.checksum@,
            CACHE_INFO_FILENAME@,
        ),
{
    proof {
        reveal_strlit("/");
    }
    let mut s = get_cache_dir(root, option, toolchain);
    push_str(&mut s, "/");
    push_str(&mut s, CACHE_INFO_FILENAME);
    s
}

/// The lock file that guards `target`.
pub fn lock_path(target: &str) -> (r: String)
    ensures
        r@ == target@ + LOCK_SUFFIX@,
{
    let mut s = String::from_str(target);
    push_str(&mut s, LOCK_SUFFIX);
    s
}

/// `root/` followed by `pkgpath` with its dots turned into slashes.
pub fn get_pkg_source_path(root: &str, pkgpath: &str) -> (r: String)
    ensures
        r@ == pkg_source_spec(root@, pkgpath@),
{
    proof {
        reveal_strlit("/");
    }
    let mut s = String::from_str(root);
    push_str(&mut s, "/");
    let ghost start = s@;
    let n = pkgpath.unicode_len();
    let mut i: usize = 0;
    while i < n
        invariant
            n == pkgpath@.len(),
            i <= n,
            s@ == start + dots_to_slashes(pkgpath@).subrange(0, i as int),
        decreases n - i,
    {
        let ghost before = s@;
        proof {
            reveal_strlit("/");
        }
        let c = pkgpath.get_char(i);
        if c == '.' {
            push_str(&mut s, "/");
        } else {
            push_str(&mut s, pkgpath.substring_char(i, i + 1));
            assert(pkgpath@.subrange(i as int, i + 1) =~= seq![c]);
        }
        assert(s@ =~= before.push(dots_to_slashes(pkgpath@)[i as int]));
        assert(dots_to_slashes(pkgpath@).subrange(0, i + 1) =~= dots_to_slashes(
            pkgpath@,
        ).subrange(0, i as int).push(dots_to_slashes(pkgpath@)[i as int]));
        i = i + 1;
    }
    assert(dots_to_slashes(pkgpath@).subrange(0, n as int) =~= dots_to_slashes(pkgpath@));
    s
}

/// The path that a package would have as a single source file.
pub fn get_pkg_source_file(root: &str, pkgpath: &str) -> (r: String)
    ensures
        r@ == pkg_source_file_spec(root@, pkgpath@),
{
    proof {
        reveal_strlit(".k");
    }
    let mut s = get_pkg_source_path(root, pkgpath);
    push_str(&mut s, KCL_FILE_SUFFIX);
    s
}

/// The real source path of a package: its single source file where that is
/// a file (`file_is_present`), else its directory.
pub fn get_pkg_realpath_from_pkgpath(root: &str, pkgpath: &str, file_is_present: bool) -> (r:
    String)
    ensures
        file_is_present ==> r@ == pkg_source_file_spec(root@, pkgpath@),
        !file_is_present ==> r@ == pkg_source_spec(root@, pkgpath@),
{
    if file_is_present {
        get_pkg_source_file(root, pkgpath)
    } else {
        get_pkg_source_path(root, pkgpath)
    }
}

/// Whether `p` occurs in `s` at position `i`.
pub open spec fn occurs_at(s: Seq<char>, p: Seq<char>, i: int) -> bool {
    0 <= i && i + p.len() <= s.len() && s.subrange(i, i + p.len()) == p
}

/// Whether `i` is the first position at which `p` occurs in `s`.
pub open spec fn first_occurrence(s: Seq<char>, p: Seq<char>, i: int) -> bool {
    occurs_at(s, p, i) && forall|j: int| 0 <= j < i ==> !occurs_at(s, p, j)
}

/// `s` with the first occurrence of `p` replaced by `rep`; `s` itself where
/// `p` does not occur.
pub open spec fn replace_first(s: Seq<char>, p: Seq<char>, rep: Seq<char>) -> Seq<char> {
    if exists|i: int| occurs_at(s, p, i) {
        let i = choose|i: int| first_occurrence(s, p, i);
        s.subrange(0, i) + rep + s.subrange(i + p.len(), s.len() as int)
    } else {
        s
    }
}

/// The path recorded for a source path: its first occurrence of `root`
/// replaced by `.`.
pub open spec fn relative_path_spec(root: Seq<char>, path: Seq<char>) -> Seq<char> {
    replace_first(path, root, seq!['.'])
}

/// A first occurrence exists wherever some occurrence does.
proof fn lemma_first_occurrence_exists(s: Seq<char>, p: Seq<char>, k: int)
    requires
        occurs_at(s, p, k),
    ensures
        exists|i: int| first_occurrence(s, p, i),
    decreases k,
{
    if exists|j: int| 0 <= j < k && occurs_at(s, p, j) {
        let j = choose|j: int| 0 <= j < k && occurs_at(s, p, j);
        lemma_first_occurrence_exists(s, p, j);
    } else {
        assert(first_occurrence(s, p, k));
    }
}

/// The characters of `s`.
pub fn chars_of(s: &str) -> (r: Vec<char>)
    ensures
        r@ == s@,
{
    let n = s.unicode_len();
    let mut v: Vec<char> = Vec::new();
    let mut i: usize = 0;
    while i < n
        invariant
            n == s@.len(),
            i <= n,
            v@ == s@.subrange(0, i as int),
        decreases n - i,
    {
        v.push(s.get_char(i));
        assert(v@ =~= s@.subrange(0, i + 1));
        i = i + 1;
    }
    assert(v@ =~= s@);
    v
}

/// Whether `p` occurs in `s` at position `i`.
fn matches_at(s: &Vec<char>, p: &Vec<char>, i: usize) -> (r: bool)
    requires
        i + p@.len() <= s@.len(),
    ensures
        r == occurs_at(s@, p@, i as int),
{
    let m = p.len();
    let n = s.len();
    let mut j: usize = 0;
    while j < m
        invariant
            m == p@.len(),
            n == s@.len(),
            i + m <= n,
            j <= m,
            forall|k: int| 0 <= k < j ==> s@[i + k] == p@[k],
        decreases m - j,
    {
        if s[i + j] != p[j] {
            assert(s@.subrange(i as int, i + m)[j as int] != p@[j as int]);
            return false;
        }
        j = j + 1;
    }
    assert(s@.subrange(i as int, i + m) =~= p@);
    true
}

/// The position of the first occurrence of `p` in `s`, if any.
fn find_first(s: &Vec<char>, p: &Vec<char>) -> (r: Option<usize>)
    ensures
        r matches Some(i) ==> first_occurrence(s@, p@, i as int),
        r is None ==> forall|i: int| !occurs_at(s@, p@, i),
{
    let n = s.len();
    let m = p.len();
    if m > n {
        return None;
    }
    let mut i: usize = 0;
    loop
        invariant
            n == s@.len(),
            m == p@.len(),
            m <= n,
            i <= n - m,
            forall|j: int| 0 <= j < i ==> !occurs_at(s@, p@, j),
        decreases n - m - i,
    {
        if matches_at(s, p, i) {
            return Some(i);
        }
        if i == n - m {
            return None;
        }
        i = i + 1;
    }
}

/// The root-relative form of `path`: its first occurrence of `root` replaced
/// by `.`.
pub fn relative_path(root: &str, path: &str) -> (r: String)
    ensures
        r@ == relative_path_spec(root@, path@),
{
    proof {
        reveal_strlit(".");
    }
    let sv = chars_of(path);
    let pv = chars_of(root);
    match find_first(&sv, &pv) {
        None => String::from_str(path),
        Some(i) => {
            proof {
                lemma_first_occurrence_exists(path@, root@, i as int);
                let k = choose|k: int| first_occurrence(path@, root@, k);
                assert(!(k < i));
                assert(!(i < k));
            }
            let n = sv.len();
            let mut s = String::from_str(path.substring_char(0, i));
            push_str(&mut s, ".");
            push_str(&mut s, path.substring_char(i + pv.len(), n));
            s
        },
    }
}

/// The decimal digits of `n`.
pub open spec fn nat_decimal(n: nat) -> Seq<char>
    decreases n,
{
    if n < 10 {
        seq![digit_char(n)]
    } else {
        nat_decimal(n / 10) + seq![digit_char(n % 10)]
    }
}

/// The character of the digit `d`.
pub open spec fn digit_char(d: nat) -> char {
    if d == 0 {
        '0'
    } else if d == 1 {
        '1'
    } else if d == 2 {
        '2'
    } else if d == 3 {
        '3'
    } else if d == 4 {
        '4'
    } else if d == 5 {
        '5'
    } else if d == 6 {
        '6'
    } else if d == 7 {
        '7'
    } else if d == 8 {
        '8'
    } else {
        '9'
    }
}

/// The decimal form of `n`, with a leading `-` where it is negative.
pub open spec fn int_decimal(n: int) -> Seq<char> {
    if n < 0 {
        seq!['-'] + nat_decimal((-n) as nat)
    } else {
        nat_decimal(n as nat)
    }
}

fn digit_str(d: u64) -> (r: &'static str)
    requires
        d < 10,
    ensures
        r@ == seq![digit_char(d as nat)],
{
    proof {
        reveal_strlit("0");
        reveal_strlit("1");
        reveal_strlit("2");
        reveal_strlit("3");
        reveal_strlit("4");
        reveal_strlit("5");
        reveal_strlit("6");
        reveal_strlit("7");
        reveal_strlit("8");
        reveal_strlit("9");
    }
    if d == 0 {
        "0"
    } else if d == 1 {
        "1"
    } else if d == 2 {
        "2"
    } else if d == 3 {
        "3"
    } else if d == 4 {
        "4"
    } else if d == 5 {
        "5"
    } else if d == 6 {
        "6"
    } else if d == 7 {
        "7"
    } else if d == 8 {
        "8"
    } else {
        "9"
    }
}

/// Appends the decimal digits of `n` to `s`.
fn push_decimal(s: &mut String, n: u64)
    ensures
        final(s)@ == old(s)@ + nat_decimal(n as nat),
    decreases n,
{
    if n >= 10 {
        push_decimal(s, n / 10);
    }
    push_str(s, digit_str(n % 10));
}

/// Appends the decimal form of `n` to `s`.
fn push_int_decimal(s: &mut String, n: i64)
    ensures
        final(s)@ == old(s)@ + int_decimal(n as int),
{
    proof {
        reveal_strlit("-");
    }
    if n < 0 {
        push_str(s, "-");
        let m: u64 = (-(n as i128)) as u64;
        push_decimal(s, m);
    } else {
        push_decimal(s, n as u64);
    }
}

/// The temporary file for `name` in `dir`:
/// `<dir>/<name>.<pid>.<timestamp>.tmp`.
pub open spec fn temp_file_spec(dir: Seq<char>, name: Seq<char>, pid: nat, timestamp: int) -> Seq<
    char,
> {
    dir + seq!['/'] + name + seq!['.'] + nat_decimal(pid) + seq!['.'] + int_decimal(timestamp)
        + seq!['.', 't', 'm', 'p']
}

/// The temporary file name for `name` in `dir`, made unique by the process
/// id and a timestamp in nanoseconds.
pub fn temp_file_name(dir: &str, name: &str, pid: u32, timestamp: i64) -> (r: String)
    ensures
        r@ == temp_file_spec(dir@, name@, pid as nat, timestamp as int),
{
    proof {
        reveal_strlit("/");
        reveal_strlit(".");
        reveal_strlit(".tmp");
    }
    let mut s = String::from_str(dir);
    push_str(&mut s, "/");
    push_str(&mut s, name);
    push_str(&mut s, ".");
    push_decimal(&mut s, pid as u64);
    push_str(&mut s, ".");
    push_int_decimal(&mut s, timestamp);
    push_str(&mut s, ".tmp");
    s
}

/// Whether `s` holds no `-`.
pub open spec fn has_no_dash(s: Seq<char>) -> bool {
    forall|i: int| 0 <= i < s.len() ==> s[i] != '-'
}

/// The name of the namespace directory: `<version>-<checksum>`.
pub open spec fn namespace_name(version: Seq<char>, checksum: Seq<char>) -> Seq<char> {
    version + seq!['-'] + checksum
}

/// Two toolchain identities whose namespace names differ never share a
/// file: an artifact or fingerprint record saved under one is invisible
/// under the other, whatever the sources. Identities that differ but spell
/// the same name (`a-b` with `c`, `a` with `b-c`) share their namespace.
pub proof fn lemma_version_isolation(
    root: Seq<char>,
    cache_dir: Seq<char>,
    v1: Seq<char>,
    c1: Seq<char>,
    v2: Seq<char>,
    c2: Seq<char>,
    name: Seq<char>,
)
    requires
        namespace_name(v1, c1) != namespace_name(v2, c2),
    ensures
        cache_file_spec(root, cache_dir, v1, c1, name) != cache_file_spec(
            root,
            cache_dir,
            v2,
            c2,
            name,
        ),
{
    let a = cache_file_spec(root, cache_dir, v1, c1, name);
    let b = cache_file_spec(root, cache_dir, v2, c2, name);
    if a == b {
        let pre = root + seq!['/'] + cache_dir + seq!['/'];
        let m1 = namespace_name(v1, c1);
        let m2 = namespace_name(v2, c2);
        assert(a =~= pre + m1 + (seq!['/'] + name));
        assert(b =~= pre + m2 + (seq!['/'] + name));
        assert(m1.len() == m2.len());
        assert(m1 =~= a.subrange(pre.len() as int, (pre.len() + m1.len()) as int));
        assert(m2 =~= b.subrange(pre.len() as int, (pre.len() + m2.len()) as int));
    }
}

/// Toolchain identities whose checksums hold no `-` (a hex digest holds
/// none) and that differ in version or checksum have different namespace
/// names.
pub proof fn lemma_namespace_names_differ(
    v1: Seq<char>,
    c1: Seq<char>,
    v2: Seq<char>,
    c2: Seq<char>,
)
    requires
        has_no_dash(c1),
        has_no_dash(c2),
        v1 != v2 || c1 != c2,
    ensures
        namespace_name(v1, c1) != namespace_name(v2, c2),
{
    let m1 = namespace_name(v1, c1);
    let m2 = namespace_name(v2, c2);
    if m1 == m2 {
        assert(m1.len() == v1.len() + 1 + c1.len());
        assert(m2.len() == v2.len() + 1 + c2.len());
        if c1.len() < c2.len() {
            let k = v1.len() as int;
            assert(k > v2.len());
            assert(m1[k] == '-');
            assert(m2[k] == c2[k - v2.len() - 1]);
        } else if c2.len() < c1.len() {
            let k = v2.len() as int;
            assert(k > v1.len());
            assert(m2[k] == '-');
            assert(m1[k] == c1[k - v1.len() - 1]);
        } else {
            assert(v1 =~= m1.subrange(0, v1.len() as int));
            assert(v2 =~= m2.subrange(0, v2.len() as int));
            assert(c1 =~= m1.subrange(v1.len() + 1int, m1.len() as int));
            assert(c2 =~= m2.subrange(v2.len() + 1int, m2.len() as int));
        }
    }
}

} // verus!
