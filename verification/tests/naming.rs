use l4addon_enforcer::naming::{autoinstall_name, name_seed};

#[test]
fn seed_replaces_spaces_and_drops_apostrophes() {
    assert_eq!(name_seed("My Addon's Pack"), "My_Addons_Pack");
    assert_eq!(name_seed("plain"), "plain");
    assert_eq!(name_seed(""), "");
    assert_eq!(name_seed("  "), "__");
}

#[test]
fn empty_title_gives_no_name() {
    assert_eq!(autoinstall_name(""), None);
}

#[test]
fn derived_names() {
    assert_eq!(autoinstall_name("Ion's Vocalizer").as_deref(), Some("Ions_Vocalizer"));
    // the sanitiser strips characters a file name cannot hold
    assert_eq!(autoinstall_name("a:b").as_deref(), Some("ab"));
    assert_eq!(autoinstall_name("x/y").as_deref(), Some("xy"));
}
