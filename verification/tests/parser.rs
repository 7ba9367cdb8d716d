use std::io::Write;
use bap_core::appstream::parser::{absolute, collapse_whitespace, date_to_unix, parse};
use bap_core::appstream::reader::IconFiles;
use bap_core::appstream::Component;
use bap_core::model::Picture;

fn one(xml: &str) -> Component {
    let mut found = parse(xml.as_bytes(), None, None).unwrap();
    assert_eq!(found.len(), 1, "expected one component in {xml}");
    found.remove(0)
}

fn wrap(inner: &str) -> String {
    format!(
        "<components origin=\"test\"><component type=\"desktop-application\"><id>a.b</id>{inner}</component></components>"
    )
}

#[test]
fn description_markup_is_kept_and_whitespace_collapsed() {
    let c = one(&wrap(
        "<description>\n    <p>\n      GIMP is   an acronym.\n      It is <em>Free</em> Software &amp; more.\n    </p>\n    <p xml:lang=\"de\">Nicht.</p>\n    <ul>\n      <li>One &lt;thing&gt;</li>\n      <li><code>two</code> </li>\n    </ul>\n    <p>Last</p>\n  </description>",
    ));
    assert_eq!(
        c.description.as_deref(),
        Some(
            "<p>GIMP is an acronym. It is <em>Free</em> Software &amp; more.</p>\n<ul><li>One &lt;thing&gt;</li><li><code>two</code></li></ul>\n<p>Last</p>"
        )
    );
}

#[test]
fn unknown_tags_in_a_description_are_dropped_but_their_text_kept() {
    let c = one(&wrap(
        "<description><p>See <a href=\"x\">the site</a> now.</p><ol><li>a</li></ol></description>",
    ));
    assert_eq!(
        c.description.as_deref(),
        Some("<p>See the site now.</p>\n<ol><li>a</li></ol>")
    );
}

#[test]
fn an_empty_description_is_none() {
    assert_eq!(
        one(&wrap("<description>  </description>")).description,
        None
    );
    assert_eq!(one(&wrap("<description/>")).description, None);
}

#[test]
fn a_release_description_is_not_the_component_description() {
    let c = one(&wrap(
        "<releases><release version=\"2\" timestamp=\"20\"><description><p>notes</p></description></release><release version=\"1\" timestamp=\"10\"/></releases><description><p>real</p></description>",
    ));
    assert_eq!(c.description.as_deref(), Some("<p>real</p>"));
    assert_eq!(c.latest_release, Some(("2".into(), Some(20))));
}

#[test]
fn the_newest_release_wins_by_timestamp_or_date_regardless_of_order() {
    let c = one(&wrap(
        "<releases><release version=\"1\" timestamp=\"10\"/><release version=\"3\" date=\"2024-01-15\"/><release version=\"2\" timestamp=\"20\"/></releases>",
    ));
    assert_eq!(c.latest_release, Some(("3".into(), Some(1_705_276_800))));
    let undated = one(&wrap(
        "<releases><release version=\"9\"/><release version=\"8\"/></releases>",
    ));
    assert_eq!(undated.latest_release, Some(("9".into(), None)));
    let mixed = one(&wrap(
        "<releases><release version=\"9\"/><release version=\"8\" timestamp=\"5\"/></releases>",
    ));
    assert_eq!(mixed.latest_release, Some(("8".into(), Some(5))));
}

#[test]
fn dates_convert_to_unix_seconds() {
    assert_eq!(date_to_unix("1970-01-01"), Some(0));
    assert_eq!(date_to_unix("2000-03-01"), Some(951_868_800));
    assert_eq!(date_to_unix("2024-01-15"), Some(1_705_276_800));
    assert_eq!(
        date_to_unix("2024-01-15T10:30:15Z"),
        Some(1_705_276_800 + 10 * 3600 + 30 * 60 + 15)
    );
    assert_eq!(date_to_unix("1969-12-31"), Some(-86_400));
    assert_eq!(date_to_unix("2024-13-01"), None);
    assert_eq!(date_to_unix("soon"), None);
}

#[test]
fn translated_elements_are_skipped_wherever_they_are() {
    let c = one(&wrap(
        "<name xml:lang=\"de\">Deutsch</name><name>English</name><name xml:lang=\"fr\">Français</name><summary xml:lang=\"de\">S</summary><summary>Sum</summary><developer><name xml:lang=\"de\">Wer</name><name>Who</name></developer><keywords xml:lang=\"de\"><keyword>eins</keyword></keywords><keywords><keyword>one</keyword></keywords><screenshots><screenshot><caption xml:lang=\"de\">Bild</caption><caption>Picture</caption><image type=\"source\">https://e/1.png</image></screenshot></screenshots>",
    ));
    assert_eq!(c.name, "English");
    assert_eq!(c.summary.as_deref(), Some("Sum"));
    assert_eq!(c.developer.as_deref(), Some("Who"));
    assert_eq!(c.keywords, vec!["one"]);
    assert_eq!(c.screenshots[0].caption.as_deref(), Some("Picture"));
}

#[test]
fn the_id_loses_a_trailing_desktop_and_the_name_falls_back_to_it() {
    let c = one(
        "<components origin=\"o\"><component type=\"desktop-application\"><id>steam.desktop</id></component></components>",
    );
    assert_eq!(c.id, "steam");
    assert_eq!(c.name, "steam");
    let c = one(
        "<components origin=\"o\"><component><id>org.example.desktop.Tool</id><name>T</name></component></components>",
    );
    assert_eq!(c.id, "org.example.desktop.Tool");
    assert_eq!(c.component_type, "generic");
    assert!(!c.is_app);
}

#[test]
fn a_component_without_an_id_is_dropped() {
    let found = parse(b"<components origin=\"o\"><component type=\"desktop-application\"><name>Nameless</name></component></components>", None, None).unwrap();
    assert!(found.is_empty());
}

#[test]
fn the_callers_origin_wins_over_the_files() {
    let xml = "<components origin=\"in-file\"><component type=\"desktop-application\"><id>a</id></component></components>";
    assert_eq!(
        parse(xml.as_bytes(), None, None).unwrap()[0].origin,
        "in-file"
    );
    assert_eq!(
        parse(xml.as_bytes(), None, Some("caller")).unwrap()[0].origin,
        "caller"
    );
    let bare = "<component type=\"desktop-application\"><id>a</id></component>";
    assert_eq!(
        parse(bare.as_bytes(), None, Some("caller")).unwrap()[0].origin,
        "caller"
    );
    assert_eq!(parse(bare.as_bytes(), None, None).unwrap()[0].origin, "");
}

#[test]
fn component_types_decide_is_app() {
    for (t, app) in [
        ("desktop-application", true),
        ("console-application", true),
        ("web-application", true),
        ("desktop", true),
        ("addon", false),
        ("font", false),
        ("runtime", false),
    ] {
        let c = one(&format!(
            "<components><component type=\"{t}\"><id>a</id></component></components>"
        ));
        assert_eq!(c.is_app, app, "{t}");
        assert_eq!(c.component_type, t);
    }
}

#[test]
fn bundles_and_urls_are_filtered_by_type() {
    let c = one(&wrap(
        "<bundle type=\"limba\">no</bundle><bundle type=\"flatpak\">app/a.b/x86_64/stable</bundle><url type=\"bugtracker\">https://bugs</url><url type=\"homepage\">https://home</url>",
    ));
    assert_eq!(c.bundle.as_deref(), Some("app/a.b/x86_64/stable"));
    assert_eq!(c.homepage.as_deref(), Some("https://home"));
}

#[test]
fn developer_prefers_the_current_form_over_developer_name() {
    let both = one(&wrap(
        "<developer id=\"x\"><name>New</name></developer><developer_name>Old</developer_name>",
    ));
    assert_eq!(both.developer.as_deref(), Some("New"));
    let legacy = one(&wrap("<developer_name>Old</developer_name>"));
    assert_eq!(legacy.developer.as_deref(), Some("Old"));
    assert_eq!(one(&wrap("")).developer, None);
}

#[test]
fn provides_id_is_not_the_component_id_and_licence_and_categories_are_read() {
    let c = one(&wrap(
        "<name>N</name><provides><id>other.id</id><binary>n</binary></provides><project_license>GPL-3.0-or-later</project_license><categories><category>Graphics</category><category>2DGraphics</category></categories>",
    ));
    assert_eq!(c.id, "a.b");
    assert_eq!(c.licence.as_deref(), Some("GPL-3.0-or-later"));
    assert_eq!(c.categories, vec!["Graphics", "2DGraphics"]);
}

#[test]
fn screenshots_keep_sizes_captions_thumbnails_and_put_the_default_first() {
    let c = one(&wrap(
        "<screenshots><screenshot><image type=\"source\" width=\"1200\" height=\"800\">https://e/a.png</image></screenshot><screenshot type=\"default\"><caption>Main</caption><image type=\"source\" width=\"1000\" height=\"600\">https://e/b.png</image><image type=\"thumbnail\" width=\"224\" height=\"134\">https://e/b-224.png</image><image type=\"thumbnail\" width=\"624\" height=\"374\">https://e/b-624.png</image></screenshot><screenshot><image type=\"thumbnail\" width=\"100\">https://e/c-thumb.png</image></screenshot><screenshot><caption>Empty</caption></screenshot></screenshots>",
    ));
    assert_eq!(c.screenshots.len(), 3);
    let first = &c.screenshots[0];
    assert_eq!(first.image, Picture::Url("https://e/b.png".into()));
    assert_eq!(
        first.thumbnail,
        Some(Picture::Url("https://e/b-624.png".into()))
    );
    assert_eq!(first.caption.as_deref(), Some("Main"));
    assert_eq!((first.width, first.height), (Some(1000), Some(600)));
    assert_eq!(
        c.screenshots[1].image,
        Picture::Url("https://e/a.png".into())
    );
    assert_eq!(c.screenshots[1].thumbnail, None);
    assert_eq!(
        c.screenshots[2].image,
        Picture::Url("https://e/c-thumb.png".into())
    );
    assert_eq!(c.screenshots[2].width, Some(100));
}

#[test]
fn relative_urls_join_media_baseurl_or_are_dropped() {
    assert_eq!(
        absolute("https://e/x.png", None).as_deref(),
        Some("https://e/x.png")
    );
    assert_eq!(
        absolute("org/x.png", Some("https://media/")).as_deref(),
        Some("https://media/org/x.png")
    );
    assert_eq!(
        absolute("/org/x.png", Some("https://media")).as_deref(),
        Some("https://media/org/x.png")
    );
    assert_eq!(absolute("org/x.png", None), None);
    assert_eq!(absolute("  ", Some("https://media")), None);
    let xml = "<components origin=\"debian-bookworm-main\" media_baseurl=\"https://appstream.debian.org/media/bookworm\"><component type=\"desktop-application\"><id>a</id><icon type=\"remote\" width=\"64\">a/icons/64x64/a.png</icon><screenshots><screenshot><image type=\"source\">a/screenshots/image-1.png</image></screenshot></screenshots></component></components>";
    let c = parse(xml.as_bytes(), None, None).unwrap().remove(0);
    assert_eq!(
        c.icon,
        Some(Picture::Url(
            "https://appstream.debian.org/media/bookworm/a/icons/64x64/a.png".into()
        ))
    );
    assert_eq!(
        c.screenshots[0].image,
        Picture::Url(
            "https://appstream.debian.org/media/bookworm/a/screenshots/image-1.png".into()
        )
    );
    let no_base = "<components origin=\"o\"><component type=\"desktop-application\"><id>a</id><icon type=\"remote\">rel/a.png</icon></component></components>";
    assert_eq!(parse(no_base.as_bytes(), None, None).unwrap()[0].icon, None);
}

#[test]
fn icons_resolve_against_the_largest_file_on_disk_or_fall_back_to_remote() {
    let icons = "/tmp/catalogue/icons".to_string();
    let on_disk = || {
        IconFiles::new(
            icons.clone(),
            vec!["test".to_string()],
            vec!["test/48x48/a.png".to_string(), "test/64x64/a.png".to_string()],
        )
    };
    let xml = wrap(
        "<icon type=\"stock\">a</icon><icon type=\"cached\" width=\"48\" height=\"48\">a.png</icon><icon type=\"cached\" width=\"64\" height=\"64\">a.png</icon><icon type=\"cached\" width=\"128\" height=\"128\">a.png</icon><icon type=\"remote\" width=\"32\">https://e/small.png</icon><icon type=\"remote\" width=\"128\">https://e/big.png</icon>",
    );
    let c = parse(xml.as_bytes(), Some(on_disk()), None).unwrap().remove(0);
    assert_eq!(c.icon, Some(Picture::File(format!("{icons}/test/64x64/a.png"))));
    let missing = parse(
        xml.replace("a.png", "missing.png").as_bytes(),
        Some(on_disk()),
        None,
    )
    .unwrap()
    .remove(0);
    assert_eq!(missing.icon, Some(Picture::Url("https://e/big.png".into())));
    let none = parse(xml.as_bytes(), None, None).unwrap().remove(0);
    assert_eq!(
        none.icon,
        Some(Picture::Url("https://e/big.png".into())),
        "no icons directory: the remote one"
    );
    let stock_only = one(&wrap(
        "<icon type=\"stock\">a</icon><icon type=\"local\">/usr/share/pixmaps/a.png</icon>",
    ));
    assert_eq!(stock_only.icon, None);
}

#[test]
fn entities_are_resolved_in_text_and_escaped_again_in_descriptions() {
    let c = one(&wrap(
        "<name>Tools &amp; Toys</name><summary>&lt;b&gt; &#169; &#x41;</summary><description><p>A &amp; B &lt; C</p></description>",
    ));
    assert_eq!(c.name, "Tools & Toys");
    assert_eq!(c.summary.as_deref(), Some("<b> © A"));
    assert_eq!(c.description.as_deref(), Some("<p>A &amp; B &lt; C</p>"));
}

#[test]
fn gzip_and_plain_bytes_parse_the_same() {
    let xml = wrap("<name>Zipped</name>");
    let mut encoder = flate2::write::GzEncoder::new(Vec::new(), flate2::Compression::fast());
    encoder.write_all(xml.as_bytes()).unwrap();
    let gz = encoder.finish().unwrap();
    assert_eq!(
        parse(&gz, None, None).unwrap(),
        parse(xml.as_bytes(), None, None).unwrap()
    );
    assert_eq!(parse(&gz, None, None).unwrap()[0].name, "Zipped");
}

#[test]
fn broken_input_is_an_error_that_says_so() {
    let truncated = parse(
        b"<components origin=\"o\"><component><id>a</id>",
        None,
        None,
    )
    .unwrap_err();
    assert!(
        truncated.message.contains("truncated"),
        "{}",
        truncated.message
    );
    let mismatched =
        parse(b"<components><component></wrong></components>", None, None).unwrap_err();
    assert!(
        mismatched.message.contains("not well-formed"),
        "{}",
        mismatched.message
    );
    let bad_gzip = parse(&[0x1f, 0x8b, 0x08, 0x00, 0xff, 0xff], None, None).unwrap_err();
    assert!(
        bad_gzip.message.contains("could not be read"),
        "{}",
        bad_gzip.message
    );
    for e in [&truncated, &mismatched, &bad_gzip] {
        assert!(
            e.message.ends_with("Refresh the catalogue and try again."),
            "{}",
            e.message
        );
    }
    assert!(parse(b"", None, None).unwrap().is_empty());
}

#[test]
fn whitespace_collapses_to_single_spaces() {
    assert_eq!(collapse_whitespace("  a \n\t b  "), " a b ");
    assert_eq!(collapse_whitespace("ab"), "ab");
    assert_eq!(collapse_whitespace(""), "");
}
