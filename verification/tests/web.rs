use bap_core::web::{cache_name, host, USER_AGENT};

#[test]
fn the_host_is_what_follows_the_scheme_up_to_the_path() {
    assert_eq!(host("https://flathub.org/api/v2/summary/x"), "flathub.org");
    assert_eq!(host("http://localhost:8080/x"), "localhost:8080");
    assert_eq!(host("https://aur.archlinux.org"), "aur.archlinux.org");
    assert_eq!(host("no scheme here"), "no scheme here");
    assert_eq!(host("a://b://c/d"), "b");
}

#[test]
fn a_cache_file_is_named_by_host_and_a_hash_of_the_url() {
    assert_eq!(
        cache_name("https://flathub.org/api/v2/summary/org.gimp.GIMP"),
        "flathub.org-a38d83b38243e04c.json"
    );
    assert_eq!(
        cache_name("http://localhost:8080/x"),
        "localhost_8080-787f12f98b8785f5.json"
    );
    assert_eq!(cache_name("plain"), "plain-fd4d194e1652b207.json");
}

#[test]
fn the_user_agent_names_the_application_and_its_home() {
    assert!(USER_AGENT.starts_with("bap-store/"));
    assert!(USER_AGENT.ends_with("(+https://github.com/Spillebulle/BAP-Store)"));
}
