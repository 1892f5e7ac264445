use nitro::cli::list_options_from_flags;

#[test]
fn list_flag_translation_defaults() {
    // No flags => include_tmux true, include_zox true, no limit
    let lo = list_options_from_flags(false, None, false, true);
    assert!(lo.include_tmux);
    assert!(lo.include_zox);
    assert_eq!(lo.z_limit, None);
    assert!(!lo.icons);
    assert!(lo.no_color);
}

#[test]
fn list_flag_translation_tmux_only() {
    let lo = list_options_from_flags(true, None, false, true);
    assert!(lo.include_tmux);
    assert!(!lo.include_zox);
}

#[test]
fn list_flag_translation_zoxide_only_unlimited() {
    let lo = list_options_from_flags(false, Some(None), false, false);
    assert!(!lo.include_tmux);
    assert!(lo.include_zox);
    assert_eq!(lo.z_limit, None);
}

#[test]
fn list_flag_translation_zoxide_with_limit() {
    let lo = list_options_from_flags(false, Some(Some(5)), true, false);
    assert!(!lo.include_tmux);
    assert!(lo.include_zox);
    assert_eq!(lo.z_limit, Some(5));
    assert!(lo.icons);
}
