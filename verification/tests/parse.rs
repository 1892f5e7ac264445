use nitro::connect::{normalize_name, parse_connect_line};

#[test]
fn parse_prefixes_and_path() {
    let p = parse_connect_line(&vec![
        "[t]".to_string(),
        "my".to_string(),
        "session".to_string(),
        "/work/x".to_string(),
    ]);
    assert_eq!(p.name, "my-session");
    assert_eq!(p.path.as_deref(), Some("/work/x"));

    let p2 = parse_connect_line(&vec![
        "".to_string(),
        " ".to_string(),
        "api".to_string(),
        "/srv/api".to_string(),
    ]);
    assert_eq!(p2.name, "api");
    assert_eq!(p2.path.as_deref(), Some("/srv/api"));
}

#[test]
fn parse_name_from_basename_when_missing() {
    let p = parse_connect_line(&vec!["/a/b/c".to_string()]);
    assert_eq!(p.name, "c");
    assert_eq!(p.path.as_deref(), Some("/a/b/c"));
}

#[test]
fn parse_strips_glyph_marker() {
    let p = parse_connect_line(&vec!["\u{ebc8}".to_string(), "web".to_string()]);
    assert_eq!(p.name, "web");
    assert_eq!(p.path, None);

    let p2 = parse_connect_line(&vec!["\u{f114}".to_string(), "/srv/api".to_string()]);
    assert_eq!(p2.name, "api");
    assert_eq!(p2.path.as_deref(), Some("/srv/api"));
}

#[test]
fn parse_dash_name_uses_basename() {
    let p = parse_connect_line(&vec!["-".to_string(), "/x/y".to_string()]);
    assert_eq!(p.name, "y");
    assert_eq!(p.path.as_deref(), Some("/x/y"));
}

#[test]
fn parse_without_slash_keeps_whole_line_as_name() {
    let p = parse_connect_line(&vec!["a".to_string(), "b".to_string()]);
    assert_eq!(p.name, "a-b");
    assert_eq!(p.path, None);
}

#[test]
fn parse_trailing_slash_basename() {
    let p = parse_connect_line(&vec!["/a/b/".to_string()]);
    assert_eq!(p.name, "b");
    assert_eq!(p.path.as_deref(), Some("/a/b/"));
}

#[test]
fn parse_root_path_has_no_name() {
    let p = parse_connect_line(&vec!["/".to_string()]);
    assert_eq!(p.name, "");
    assert_eq!(p.path.as_deref(), Some("/"));
}

#[test]
fn parse_keeps_malformed_markers() {
    // a bracket pair with no following space is not a marker
    let p = parse_connect_line(&vec!["[t]x".to_string()]);
    assert_eq!(p.name, "[t]x");
    assert_eq!(p.path, None);
    // an empty tag is not a marker
    let p2 = parse_connect_line(&vec!["[]".to_string(), "x".to_string()]);
    assert_eq!(p2.name, "[]-x");
    assert_eq!(p2.path, None);
}

#[test]
fn normalize_replaces_separators_and_whitespace() {
    assert_eq!(normalize_name("My: Project #1"), "My--Project--1");
    assert_eq!(normalize_name("  a  b  "), "a-b");
    assert_eq!(normalize_name("--x--"), "x");
    assert_eq!(normalize_name(""), "");
    assert_eq!(normalize_name(" : "), "");
}

#[test]
fn normalize_is_idempotent_on_samples() {
    for s in ["My: Project #1", "  a  b  ", "--x--", "web", "a.b.c", "#:#"] {
        let once = normalize_name(s);
        let twice = normalize_name(&once);
        assert_eq!(twice, once);
    }
}
