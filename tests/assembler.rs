use kclvm_cache::assembler::{
    collect_lib_paths, check_link_inputs, GenLibsError, JobOutcome, KclvmAssembler, PackageStep,
};
use kclvm_cache::paths::ToolchainId;

#[test]
fn test_new_assembler_with_thread_count() {
    let assembler = KclvmAssembler::new_with_thread_count(5);
    assert_eq!(assembler.get_thread_count(), 5);
}

#[test]
fn test_new_assembler_with_thread_count_invalid() {
    let result = KclvmAssembler::try_with_thread_count(0);
    assert!(matches!(result, Err(GenLibsError::InvalidThreadCount)));
}

#[test]
fn try_with_thread_count_keeps_count() {
    let assembler = KclvmAssembler::try_with_thread_count(5).unwrap();
    assert_eq!(assembler.get_thread_count(), 5);
    assert_eq!(KclvmAssembler::new().get_thread_count(), 2);
}

#[test]
fn test_clean_path_for_genlibs() {
    let temp_dir_path = "/tmp/work";
    let tmp_file_path = &format!("{}/{}", temp_dir_path, "genlibs");

    let file_name = &format!("{}/{}", tmp_file_path, "test");
    let file_suffix = ".ll";

    let listing = vec![file_name.to_string()];
    let marks = KclvmAssembler::new().clean_path_for_genlibs(file_name, file_suffix, &listing);
    assert_eq!(marks, vec![true]);

    let test1 = &format!("{}{}", file_name, ".test1.ll");
    let test2 = &format!("{}{}", file_name, ".test2.ll");
    let listing = vec![test1.to_string(), test2.to_string()];
    let marks = KclvmAssembler::new().clean_path_for_genlibs(file_name, file_suffix, &listing);
    assert_eq!(marks, vec![true, true]);
}

#[test]
fn cleanup_leaves_unrelated_files() {
    let a = KclvmAssembler::new();
    let listing: Vec<String> = ["x", "x.test1.ll", "x.test2.ll", "y.ll", "xy.test1.ll", "x.test1.bc", "x.ll"]
        .iter()
        .map(|s| s.to_string())
        .collect();
    let marks = a.clean_path_for_genlibs("x", ".ll", &listing);
    assert_eq!(marks, vec![true, true, true, false, false, false, false]);
    // Once removed, nothing more is marked.
    let rest: Vec<String> = listing.iter().zip(marks.iter()).filter(|(_, m)| !**m).map(|(s, _)| s.clone()).collect();
    let again = a.clean_path_for_genlibs("x", ".ll", &rest);
    assert!(again.iter().all(|m| !m));
    assert_eq!(a.clean_path_for_genlibs("x", ".ll", &vec![]), Vec::<bool>::new());
}

#[test]
fn leftover_names() {
    let a = KclvmAssembler::new();
    assert!(a.is_genlibs_leftover("x", ".ll", "x.test1.ll"));
    assert!(a.is_genlibs_leftover("x", ".ll", "x.test2.ll"));
    assert!(a.is_genlibs_leftover("x", ".ll", "x..ll"));
    assert!(!a.is_genlibs_leftover("x", ".ll", "x"));
    assert!(!a.is_genlibs_leftover("x", ".ll", "x.ll"));
    assert!(!a.is_genlibs_leftover("x", ".ll", "y.test1.ll"));
    assert!(!a.is_genlibs_leftover("x", ".ll", "x.test1.bc"));
    assert!(!a.is_genlibs_leftover("x", ".ll", "x.a/b.ll"));
    assert!(!a.is_genlibs_leftover("x", ".ll", "x_test1.ll"));
}

#[test]
fn lib_paths() {
    let a = KclvmAssembler::new();
    assert_eq!(a.main_lib_path("/tmp/main", ".so"), "/tmp/main.so");
    assert_eq!(a.pkg_lib_path("/r/.kclvm/cache/v-c", "pkg.sub", ".so"), "/r/.kclvm/cache/v-c/pkg.sub.so");
    let t = ToolchainId::new("0.4.3", "abc");
    assert_eq!(a.construct_cache_dir("/r", &t), "/r/.kclvm/cache/0.4.3-abc");
}

#[test]
fn plan_package_reuses_or_compiles() {
    let a = KclvmAssembler::new();
    match a.plan_package("pkg", "/c", "/tmp", ".so", Some("/c/pkg.so".to_string()), 7, 11) {
        PackageStep::Reuse(p) => assert_eq!(p, "/c/pkg.so"),
        PackageStep::Compile(_) => panic!("expected reuse"),
    }
    match a.plan_package("pkg", "/c", "/tmp", ".so", None, 7, 11) {
        PackageStep::Compile(j) => {
            assert_eq!(j.pkgpath, "pkg");
            assert_eq!(j.lib_path, "/c/pkg.so");
            assert_eq!(j.ir_path, "/tmp/pkg.7.11.tmp");
        }
        PackageStep::Reuse(_) => panic!("expected compile"),
    }
}

#[test]
fn gen_libs_completeness() {
    let r = collect_lib_paths(
        "main.so".to_string(),
        vec![JobOutcome::Built("a.so".to_string()), JobOutcome::Reused("b.so".to_string())],
    );
    assert_eq!(r, Ok(vec!["main.so".to_string(), "a.so".to_string(), "b.so".to_string()]));
}

#[test]
fn gen_libs_partial_failure_gives_nothing() {
    let r = collect_lib_paths(
        "main.so".to_string(),
        vec![JobOutcome::Failed, JobOutcome::Built("b.so".to_string())],
    );
    assert_eq!(r, Err(GenLibsError::CompilationFailure));
}

#[test]
fn gen_libs_timeout() {
    let r = collect_lib_paths(
        "main.so".to_string(),
        vec![JobOutcome::Failed, JobOutcome::TimedOut, JobOutcome::Built("b.so".to_string())],
    );
    assert_eq!(r, Err(GenLibsError::Timeout));
}

#[test]
fn gen_libs_main_only() {
    let r = collect_lib_paths("main.so".to_string(), vec![]);
    assert_eq!(r, Ok(vec!["main.so".to_string()]));
}

#[test]
fn link_inputs_must_exist() {
    let libs = vec!["a.so".to_string(), "b.so".to_string()];
    assert_eq!(check_link_inputs(&libs, &vec![true, true]), Ok(()));
    assert_eq!(check_link_inputs(&libs, &vec![true, false]), Err(GenLibsError::LinkError));
}
