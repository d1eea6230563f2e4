//! Cache validity: when a saved package artifact may be used, and where a
//! save writes.

use vstd::prelude::*;
use crate::info::CacheInfo;
use crate::paths::{
    cache_dir_spec, cache_file_spec, get_cache_dir, get_cache_filename, get_cache_info_filename,
    get_pkg_realpath_from_pkgpath, pkg_source_file_spec, pkg_source_spec, relative_path,
    relative_path_spec, CacheOption, ToolchainId, CACHE_INFO_FILENAME,
};

verus! {

/// The real source path of a package: its single file where that is a
/// file, else its directory.
pub open spec fn real_path_spec(root: Seq<char>, pkgpath: Seq<char>, file_is_present: bool) -> Seq<
    char,
> {
    if file_is_present {
        pkg_source_file_spec(root, pkgpath)
    } else {
        pkg_source_spec(root, pkgpath)
    }
}

/// The record holds `current` as the fingerprint of the package's source.
pub open spec fn source_unchanged(
    root: Seq<char>,
    pkgpath: Seq<char>,
    file_is_present: bool,
    record: Map<Seq<char>, Seq<char>>,
    current: Seq<char>,
) -> bool {
    let key = relative_path_spec(root, real_path_spec(root, pkgpath, file_is_present));
    record.contains_key(key) && record[key] == current
}

/// What the caller found of a package's source, where it exists: whether it
/// is a single file, the namespace's fingerprint record, and the source's
/// fingerprint now.
pub struct SourceCheck {
    pub file_is_present: bool,
    pub record: CacheInfo,
    pub current: String,
}

/// A saved artifact may be used: root and package are named, the artifact
/// file exists, and, where the source exists, the record holds its current
/// fingerprint.
pub open spec fn load_allowed(
    root: Seq<char>,
    pkgpath: Seq<char>,
    has_artifact: bool,
    source: Option<SourceCheck>,
) -> bool {
    root.len() > 0 && pkgpath.len() > 0 && has_artifact && match source {
        None => true,
        Some(c) => source_unchanged(root, pkgpath, c.file_is_present, c.record.view(), c.current@),
    }
}

/// Decides a cache lookup: gives back the saved artifact text (`artifact`,
/// `None` where there is no artifact file) where it may be used, else `None`,
/// a miss that makes the caller rebuild.
pub fn load_pkg_cache(
    root: &str,
    pkgpath: &str,
    artifact: Option<String>,
    source: Option<SourceCheck>,
) -> (r: Option<String>)
    requires
        source matches Some(c) ==> c.record.wf(),
    ensures
        r is Some <==> load_allowed(root@, pkgpath@, artifact is Some, source),
        r matches Some(t) ==> artifact == Some(t),
{
    if root.is_empty() || pkgpath.is_empty() {
        return None;
    }
    match artifact {
        None => None,
        Some(a) => match source {
            None => Some(a),
            Some(c) => {
                let real_path = get_pkg_realpath_from_pkgpath(root, pkgpath, c.file_is_present);
                let key = relative_path(root, real_path.as_str());
                match c.record.get(&key) {
                    Some(recorded) => {
                        if *recorded == c.current {
                            Some(a)
                        } else {
                            None
                        }
                    },
                    None => None,
                }
            },
        },
    }
}

/// The files that saving a package writes.
pub struct SaveTargets {
    /// The namespace directory, created where missing.
    pub cache_dir: String,
    /// The artifact file.
    pub artifact_file: String,
    /// The fingerprint record file.
    pub info_file: String,
    /// The package's real source path.
    pub real_path: String,
}

/// Where saving `pkgpath` writes; `None` where root or package is empty,
/// and nothing is saved.
pub fn save_pkg_cache(
    root: &str,
    pkgpath: &str,
    option: &CacheOption,
    toolchain: &ToolchainId,
    file_is_present: bool,
) -> (r: Option<SaveTargets>)
    ensures
        r is None <==> root@.len() == 0 || pkgpath@.len() == 0,
        r matches Some(t) ==> {
            &&& t.cache_dir@ == cache_dir_spec(
                root@,
                option.cache_dir@,
                toolchain.version@,
                toolchain.checksum@,
            )
            &&& t.artifact_file@ == cache_file_spec(
                root@,
                option.cache_dir@,
                toolchain.version@,
                toolchain.checksum@,
                pkgpath@,
            )
            &&& t.info_file@ == cache_file_spec(
                root@,
                option.cache_dir@,
                toolchain.version@,
                toolchain.checksum@,
                CACHE_INFO_FILENAME@,
            )
            &&& t.real_path@ == real_path_spec(root@, pkgpath@, file_is_present)
        },
{
    if root.is_empty() || pkgpath.is_empty() {
        return None;
    }
    Some(
        SaveTargets {
            cache_dir: get_cache_dir(root, option, toolchain),
            artifact_file: get_cache_filename(root, pkgpath, option, toolchain),
            info_file: get_cache_info_filename(root, option, toolchain),
            real_path: get_pkg_realpath_from_pkgpath(root, pkgpath, file_is_present),
        },
    )
}

/// Saving a package and then loading it with its source unchanged gives
/// the saved artifact back: once the record maps the package's relative
/// source path to the fingerprint that its source still has, a lookup that
/// finds the artifact file may use it.
pub proof fn lemma_round_trip(
    root: Seq<char>,
    pkgpath: Seq<char>,
    before: Map<Seq<char>, Seq<char>>,
    c: SourceCheck,
)
    requires
        root.len() > 0,
        pkgpath.len() > 0,
        c.record.view() == before.insert(
            relative_path_spec(root, real_path_spec(root, pkgpath, c.file_is_present)),
            c.current@,
        ),
    ensures
        load_allowed(root, pkgpath, true, Some(c)),
{
}

/// A source whose fingerprint now differs from the recorded one is never
/// taken from the cache.
pub proof fn lemma_invalidation(
    root: Seq<char>,
    pkgpath: Seq<char>,
    has_artifact: bool,
    c: SourceCheck,
)
    requires
        c.record.view().contains_key(
            relative_path_spec(root, real_path_spec(root, pkgpath, c.file_is_present)),
        ),
        c.record.view()[relative_path_spec(root, real_path_spec(root, pkgpath, c.file_is_present))]
            != c.current@,
    ensures
        !load_allowed(root, pkgpath, has_artifact, Some(c)),
{
}

} // verus!
