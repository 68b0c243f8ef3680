use stack_installer::error::{to_reply, ErrorKind, InstallError};
use stack_installer::paths::{get_installer_dir, join, resolve};
use stack_installer::rules::{CopyRules, Entry};
use stack_installer::staging::{bundle_rules, copy_qwm_folder, staging_outcome};
use stack_installer::text::{copy_texts, has_prefix, has_suffix, prefixed, same_text};

#[test]
fn prefix_and_suffix_of_text() {
    assert!(has_prefix("migrations_old", "migrations"));
    assert!(has_prefix("migrations", "migrations"));
    assert!(has_prefix("anything", ""));
    assert!(!has_prefix("migration", "migrations"));
    assert!(!has_prefix("my_migrations", "migrations"));
    assert!(has_suffix("payload.zip", ".zip"));
    assert!(has_suffix(".zip", ".zip"));
    assert!(has_suffix("anything", ""));
    assert!(!has_suffix("payload.zip.txt", ".zip"));
    assert!(!has_suffix("zip", ".zip"));
}

#[test]
fn prefix_counts_characters_not_bytes() {
    assert!(has_prefix("übung/datei", "übung"));
    assert!(has_suffix("pfad/größe", "größe"));
    assert!(!has_prefix("ubung", "übung"));
}

#[test]
fn same_text_compares_whole_texts() {
    assert!(same_text("installer.exe", "installer.exe"));
    assert!(same_text("", ""));
    assert!(!same_text("installer.exe", "installer.ex"));
    assert!(!same_text("installer.ex", "installer.exe"));
    assert!(!same_text("Installer.exe", "installer.exe"));
}

#[test]
fn prefixed_puts_label_first() {
    assert_eq!(prefixed("not found: ", "C:\\x"), "not found: C:\\x");
    assert_eq!(prefixed("", ""), "");
}

#[test]
fn copy_texts_copies_every_item() {
    let items = vec!["a".to_string(), "".to_string(), "c".to_string()];
    assert_eq!(copy_texts(&items), items);
    assert_eq!(copy_texts(&Vec::new()), Vec::<String>::new());
}

#[test]
fn join_puts_one_backslash_between() {
    assert_eq!(join("C:\\installer", "qwm_src"), "C:\\installer\\qwm_src");
    assert_eq!(join("C:\\installer\\", "qwm_src"), "C:\\installer\\qwm_src");
    assert_eq!(join("C:/installer/", "qwm_src"), "C:/installer/qwm_src");
    assert_eq!(join("C:/installer", "qwm_src"), "C:/installer\\qwm_src");
    assert_eq!(join("", "qwm_src"), "qwm_src");
    assert_eq!(join("base", ""), "base\\");
}

#[test]
fn resolve_joins_a_chain_in_order() {
    let chain = vec!["A".to_string(), "sub".to_string(), "file1".to_string()];
    assert_eq!(resolve("D:\\target", &chain), "D:\\target\\A\\sub\\file1");
    assert_eq!(resolve("D:\\target", &Vec::new()), "D:\\target");
    assert_eq!(resolve("D:\\", &vec!["x".to_string()]), "D:\\x");
}

#[test]
fn installer_dir_is_the_directory_given() {
    let dir = get_installer_dir(Ok(Some("C:\\Users\\me\\Downloads".to_string()))).unwrap();
    assert_eq!(dir, "C:\\Users\\me\\Downloads");
}

#[test]
fn installer_dir_without_parent_fails() {
    let err = get_installer_dir(Ok(None)).unwrap_err();
    assert_eq!(err.kind, ErrorKind::PathResolutionFailure);
    assert_eq!(err.message, "Failed to resolve parent directory");
}

#[test]
fn installer_dir_unknown_to_the_system_fails() {
    let err = get_installer_dir(Err("access denied".to_string())).unwrap_err();
    assert_eq!(err.kind, ErrorKind::PathResolutionFailure);
    assert_eq!(err.message, "Failed to locate current directory: access denied");
}

#[test]
fn rules_leave_out_directories_by_prefix() {
    let rules = CopyRules::new().without_dirs_starting("migrations");
    assert!(rules.is_excluded("migrations", true));
    assert!(rules.is_excluded("migrations_2024", true));
    assert!(!rules.is_excluded("migration", true));
    assert!(!rules.is_excluded("old_migrations", true));
    assert!(!rules.is_excluded("Migrations", true));
    assert!(!rules.is_excluded("migrations", false));
}

#[test]
fn rules_leave_out_files_by_name() {
    let rules = CopyRules::new().without_file("installer.exe");
    assert!(rules.is_excluded("installer.exe", false));
    assert!(!rules.is_excluded("installer.exe.bak", false));
    assert!(!rules.is_excluded("my_installer.exe", false));
    assert!(!rules.is_excluded("installer.exe", true));
}

#[test]
fn empty_rules_leave_nothing_out() {
    let rules = CopyRules::new();
    assert!(!rules.is_excluded("migrations", true));
    assert!(!rules.is_excluded("postgres_installer.exe", false));
    assert!(!rules.is_excluded("", true));
}

#[test]
fn several_rules_apply_together() {
    let rules = CopyRules::new()
        .without_dirs_starting("migrations")
        .without_dirs_starting("tmp")
        .without_file("a.exe")
        .without_file("b.exe");
    assert!(rules.is_excluded("tmp1", true));
    assert!(rules.is_excluded("migrations", true));
    assert!(rules.is_excluded("b.exe", false));
    assert!(rules.is_excluded("a.exe", false));
    assert!(!rules.is_excluded("c.exe", false));
    assert_eq!(rules.dir_prefixes, vec!["migrations".to_string(), "tmp".to_string()]);
    assert_eq!(rules.file_names, vec!["a.exe".to_string(), "b.exe".to_string()]);
}

#[test]
fn bundle_rules_are_those_of_staging() {
    let rules = bundle_rules();
    assert_eq!(rules.dir_prefixes, vec!["migrations".to_string()]);
    assert_eq!(rules.file_names, vec!["postgres_installer.exe".to_string()]);
    assert!(rules.is_excluded("migrations", true));
    assert!(rules.is_excluded("postgres_installer.exe", false));
    assert!(!rules.is_excluded("QWM", true));
    assert!(!rules.is_excluded("start_service.bat", false));
}

#[test]
fn entry_keeps_name_and_kind() {
    let entry = Entry::new("QWM", true);
    assert_eq!(entry.name, "QWM");
    assert!(entry.is_dir);
    let entry = Entry::new("start.bat", false);
    assert_eq!(entry.name, "start.bat");
    assert!(!entry.is_dir);
}

#[test]
fn staging_plan_names_bundle_and_target() {
    let plan = copy_qwm_folder("C:\\Users\\me\\Downloads", "D:\\Apps\\QWM");
    assert_eq!(plan.source, "C:\\Users\\me\\Downloads\\qwm_src");
    assert_eq!(plan.target, "D:\\Apps\\QWM");
    assert_eq!(plan.rules.dir_prefixes, vec!["migrations".to_string()]);
    assert_eq!(plan.rules.file_names, vec!["postgres_installer.exe".to_string()]);
}

#[test]
fn staging_success_has_its_message() {
    assert_eq!(staging_outcome(Ok(())).unwrap(), "QWM folder copied successfully!");
}

#[test]
fn staging_without_bundle_asks_for_the_bundle() {
    let walk_error = InstallError::new(ErrorKind::SourceMissing, "source directory not found".to_string());
    let err = staging_outcome(Err(walk_error)).unwrap_err();
    assert_eq!(err.kind, ErrorKind::SourceMissing);
    assert_eq!(
        err.message,
        "QWM Ordner nicht gefunden, bitte in den selben Ordner packen wie den Installer!"
    );
}

#[test]
fn staging_passes_other_failures_on() {
    let walk_error = InstallError::new(ErrorKind::CopyFailure, "Access is denied. (os error 5)".to_string());
    let err = staging_outcome(Err(walk_error)).unwrap_err();
    assert_eq!(err.kind, ErrorKind::CopyFailure);
    assert_eq!(err.message, "Access is denied. (os error 5)");
}

#[test]
fn reply_is_text_either_way() {
    assert_eq!(to_reply(Ok("done".to_string())), Ok("done".to_string()));
    let failure = InstallError::labelled(ErrorKind::ToolNotFound, "not found: ", "C:\\tool.exe");
    assert_eq!(failure.kind, ErrorKind::ToolNotFound);
    assert_eq!(failure.describe(), "not found: C:\\tool.exe");
    let copy = failure.clone();
    assert_eq!(copy.kind, ErrorKind::ToolNotFound);
    assert_eq!(copy.message, "not found: C:\\tool.exe");
    assert_eq!(to_reply(Err(failure)), Err("not found: C:\\tool.exe".to_string()));
}
