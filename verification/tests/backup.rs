use l4addon_enforcer::backup::{
    backup_path_choice, calculate_md5, default_gameinfo_md5, pug_check_status, pug_switch_plan,
    reset_plan, BackupPathChoice, PugSwitchPlan, ResetPlan,
};

#[test]
fn md5_of_known_inputs() {
    assert_eq!(calculate_md5(&b"".to_vec()), "d41d8cd98f00b204e9800998ecf8427e");
    assert_eq!(calculate_md5(&b"abc".to_vec()), "900150983cd24fb0d6963f7d28e17f72");
    assert_eq!(
        calculate_md5(&b"The quick brown fox jumps over the lazy dog".to_vec()),
        "9e107d9d372bb6826bd81d3542a419d6"
    );
}

#[test]
fn md5_is_32_lowercase_hex_chars() {
    let h = calculate_md5(&b"anything".to_vec());
    assert_eq!(h.len(), 32);
    assert!(h.chars().all(|c| c.is_ascii_hexdigit() && !c.is_ascii_uppercase()));
}

#[test]
fn default_digest_is_the_pristine_gameinfo() {
    assert_eq!(default_gameinfo_md5(), "586b3b0b39bc44ddfb07792b1932c479");
}

#[test]
fn pug_switch_decision_table() {
    // no backup, modified file: fail outright
    assert_eq!(pug_switch_plan(false, false, false), PugSwitchPlan::FailModifiedNoBackup);
    assert_eq!(pug_switch_plan(false, false, true), PugSwitchPlan::FailModifiedNoBackup);
    // no backup, pristine file: back it up, then need a custom copy
    assert_eq!(pug_switch_plan(false, true, false), PugSwitchPlan::BackupThenFailNoCustom);
    assert_eq!(pug_switch_plan(false, true, true), PugSwitchPlan::BackupThenDisable);
    // backup present: modified file means enabling, pristine means disabling
    assert_eq!(pug_switch_plan(true, false, false), PugSwitchPlan::Enable);
    assert_eq!(pug_switch_plan(true, false, true), PugSwitchPlan::Enable);
    assert_eq!(pug_switch_plan(true, true, false), PugSwitchPlan::Disable);
    assert_eq!(pug_switch_plan(true, true, true), PugSwitchPlan::Disable);
}

#[test]
fn pug_check_codes() {
    assert_eq!(pug_check_status(true), 1);
    assert_eq!(pug_check_status(false), 2);
}

#[test]
fn backup_location_decision_table() {
    // a set path override wins, and must name a file
    assert_eq!(backup_path_choice(Some(true), None), BackupPathChoice::EnvPath);
    assert_eq!(
        backup_path_choice(Some(true), Some(&b"x".to_vec())),
        BackupPathChoice::EnvPath
    );
    assert_eq!(backup_path_choice(Some(false), None), BackupPathChoice::EnvPathNotFile);
    // a set name override names a file under left4dead2/
    assert_eq!(
        backup_path_choice(None, Some(&b"my.backup".to_vec())),
        BackupPathChoice::Named(b"left4dead2/my.backup".to_vec())
    );
    assert_eq!(backup_path_choice(None, Some(&b"".to_vec())), BackupPathChoice::EmptyName);
    // neither override: the default location
    assert_eq!(backup_path_choice(None, None), BackupPathChoice::Default);
}

#[test]
fn reset_decision_table() {
    assert_eq!(reset_plan(false, false), ResetPlan::WarnModifiedNoBackup);
    assert_eq!(reset_plan(false, true), ResetPlan::FailAlreadyDefault);
    assert_eq!(reset_plan(true, true), ResetPlan::FailAlreadyDefault);
    assert_eq!(reset_plan(true, false), ResetPlan::Restore);
}
