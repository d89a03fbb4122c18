use total5::paths::{join_path, kind_from_name, DirectoryKind, TPath};

#[test]
fn route_absolute_path_ignores_directory() {
    let paths = TPath::new("src".to_string());
    assert_eq!(paths.route("~etc/passwd", "public"), "etc/passwd");
    assert_eq!(paths.route("~etc/passwd", "logs"), "etc/passwd");
    assert_eq!(paths.route("~/var/www/site.db", "databases"), "/var/www/site.db");
}

#[test]
fn route_plugin_path_skips_two_characters_after_name() {
    let paths = TPath::new(String::new());
    // The plugin name is `shop`; the rest starts two characters after it.
    assert_eq!(
        paths.route("_shop/public/style.css", "public"),
        "plugins/shop/public/ublic/style.css"
    );
    assert_eq!(paths.route("_shop//style.css", "public"), "plugins/shop/public/style.css");
}

#[test]
fn route_plugin_path_under_base() {
    let paths = TPath::new("src".to_string());
    assert_eq!(paths.route("_shop//style.css", "public"), "src/plugins/shop/public/style.css");
    assert_eq!(paths.route("_shop//index.html", "root"), "src/plugins/shop//index.html");
    assert_eq!(paths.route("_shop/", "public"), "src/plugins/shop/public/");
    assert_eq!(paths.route("_/x", "public"), "src/plugins//public/");
    assert_eq!(paths.route("_//etc/passwd", "root"), "src/plugins///etc/passwd");
}

#[test]
fn route_underscore_without_slash_is_regular() {
    let paths = TPath::new("src".to_string());
    assert_eq!(paths.route("_shop", "public"), "src/public/_shop");
}

#[test]
fn route_named_directories() {
    let paths = TPath::new("src".to_string());
    assert_eq!(paths.route("a.txt", "root"), "src/a.txt");
    assert_eq!(paths.route("a.txt", "logs"), "src/logs/a.txt");
    assert_eq!(paths.route("a.txt", "scripts"), "src/scripts/a.txt");
    assert_eq!(paths.route("a.txt", "public"), "src/public/a.txt");
    assert_eq!(paths.route("a.txt", "private"), "src/private/a.txt");
    assert_eq!(paths.route("a.txt", "databases"), "src/databases/a.txt");
    assert_eq!(paths.route("a.txt", "plugins"), "src/plugins/a.txt");
    assert_eq!(paths.route("a.txt", "templates"), "src/templates/a.txt");
    assert_eq!(paths.route("a.txt", "flowstreams"), "src/flowstreams/a.txt");
    assert_eq!(paths.route("a.txt", "modules"), "src/modules/a.txt");
    assert_eq!(paths.route("a.txt", "tmp"), "src/tmp/a.txt");
}

#[test]
fn route_unknown_directory_gives_base() {
    let paths = TPath::new("src".to_string());
    assert_eq!(paths.route("a.txt", "uploads"), "src");
    assert_eq!(paths.route("a.txt", ""), "src");
}

#[test]
fn named_directories_with_and_without_fragment() {
    let paths = TPath::new("src".to_string());
    assert_eq!(paths.root(None), "src");
    assert_eq!(paths.root(Some("x")), "src/x");
    assert_eq!(paths.logs(None), "src/logs");
    assert_eq!(paths.logs(Some("debug.log")), "src/logs/debug.log");
    assert_eq!(paths.scripts(Some("a.js")), "src/scripts/a.js");
    assert_eq!(paths.public(Some("assets")), "src/public/assets");
    assert_eq!(paths.private(None), "src/private");
    assert_eq!(paths.databases(Some("db.nosql")), "src/databases/db.nosql");
    assert_eq!(paths.plugins(None), "src/plugins");
    assert_eq!(paths.templates(Some("default.html")), "src/templates/default.html");
    assert_eq!(paths.flowstreams(None), "src/flowstreams");
    assert_eq!(paths.modules(Some("m.js")), "src/modules/m.js");
    assert_eq!(paths.tmp(Some("t")), "src/tmp/t");
    assert_eq!(paths.temp(Some("t")), paths.tmp(Some("t")));
}

#[test]
fn directory_lookup_by_name() {
    let paths = TPath::new("src".to_string());
    assert_eq!(paths.directory("logs", Some("a")), "src/logs/a");
    assert_eq!(paths.directory("tmp", None), "src/tmp");
    assert_eq!(paths.directory("root", Some("a")), "src");
    assert_eq!(paths.directory("cache", Some("a")), "src");
}

#[test]
fn resolve_by_kind() {
    let paths = TPath::new("/srv/app".to_string());
    assert_eq!(paths.resolve(DirectoryKind::Logs, Some("x.log")), "/srv/app/logs/x.log");
    assert_eq!(paths.resolve(DirectoryKind::Root, None), "/srv/app");
}

#[test]
fn join_rules() {
    assert_eq!(join_path("src", "a"), "src/a");
    assert_eq!(join_path("src/", "a"), "src/a");
    assert_eq!(join_path("", "a"), "a");
    assert_eq!(join_path("src", "/abs"), "/abs");
    assert_eq!(join_path("src", ""), "src/");
    let paths = TPath::new("src/".to_string());
    assert_eq!(paths.logs(None), "src/logs");
    assert_eq!(paths.logs(Some("/var/log/x")), "/var/log/x");
}

#[test]
fn kind_names_round_trip() {
    for i in 0..11 {
        let k = DirectoryKind::at(i);
        assert_eq!(k.index(), i);
        assert_eq!(kind_from_name(k.name()), Some(k));
    }
    assert_eq!(kind_from_name("Logs"), None);
    assert_eq!(DirectoryKind::Flowstreams.name(), "flowstreams");
}
