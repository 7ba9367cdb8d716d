use bap_core::system::from_os_release;

#[test]
fn cachyos_is_arch_like() {
    let s = from_os_release(
        "NAME=\"CachyOS Linux\"\nPRETTY_NAME=\"CachyOS\"\nID=cachyos\nID_LIKE=arch\n",
        "x86_64",
        None,
        None,
    );
    assert_eq!(s.distro_id, "cachyos");
    assert!(s.is_arch_like());
    assert!(!s.is_debian_like());
    assert_eq!(s.pretty_name, "CachyOS");
}

#[test]
fn ubuntu_is_debian_like_and_mint_is_too() {
    let u = from_os_release("ID=ubuntu\nID_LIKE=debian\n", "x86_64", None, None);
    assert!(u.is_debian_like());
    let m = from_os_release("ID=linuxmint\nID_LIKE=\"ubuntu debian\"\n", "x86_64", None, None);
    assert!(m.is_debian_like());
}

#[test]
fn an_empty_file_is_still_a_system() {
    let s = from_os_release("", "x86_64", None, None);
    assert_eq!(s.distro_id, "linux");
    assert_eq!(s.pretty_name, "linux");
}

#[test]
fn the_caller_s_architecture_and_session_are_kept() {
    let s = from_os_release("ID=arch\n", "aarch64", Some("KDE".to_string()), None);
    assert_eq!(s.arch, "aarch64");
    assert_eq!(s.desktop.as_deref(), Some("KDE"));
    assert_eq!(s.session, None);
    assert!(s.is_arch_like());
}
