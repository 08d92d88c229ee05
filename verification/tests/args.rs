use l4addon_enforcer::args::{
    Args, InstallArgs, ListArgs, PuGArgs, QuietErr, RenameArgs, ResetArgs, SubCommands,
    UninstallArgs,
};

#[test]
fn quiet_err_message() {
    let with = QuietErr(Some("something went wrong".to_string()));
    assert_eq!(with.message(), "something went wrong");
    let without = QuietErr(None);
    assert_eq!(without.message(), "");
}

#[test]
fn argument_records_carry_their_fields() {
    let args = Args {
        command: Some(SubCommands::Install(InstallArgs {
            file: Some("addon.vpk".to_string()),
            name: None,
            quiet: false,
            verbose: true,
        })),
        quiet: false,
        verbose: true,
        help: false,
        help_long: false,
    };
    match args.command {
        Some(SubCommands::Install(install)) => {
            assert_eq!(install.file.as_deref(), Some("addon.vpk"));
            assert!(install.name.is_none());
            assert!(install.verbose);
        }
        _ => panic!("expected the install subcommand"),
    }
    let _ = SubCommands::List(ListArgs { details: true, quiet: false, verbose: false });
    let _ = SubCommands::Uninstall(UninstallArgs {
        name: Some("x".to_string()),
        quiet: false,
        verbose: false,
    });
    let _ = SubCommands::Rename(RenameArgs {
        current: Some("a".to_string()),
        new: Some("b".to_string()),
        verbose: false,
    });
    let _ = SubCommands::PuG(PuGArgs { check: true, switch: false, verbose: false });
    let _ = SubCommands::Reset(ResetArgs { confirm: true, verbose: false });
}
