use std::collections::HashMap;

use nitro::list::{build_list_lines, ListOptions};
use nitro::shell::{Shell, ShellError};

#[derive(Default)]
struct MockShell {
    map: HashMap<(String, Vec<String>), String>,
    env: HashMap<String, String>,
}

impl MockShell {
    fn with(mut self, program: &str, args: &[&str], output: &str) -> Self {
        self.map.insert(
            (program.into(), args.iter().map(|s| s.to_string()).collect()),
            output.into(),
        );
        self
    }
}

impl Shell for MockShell {
    fn run(&self, program: &str, args: &Vec<String>) -> Result<String, ShellError> {
        Ok(self
            .map
            .get(&(program.to_string(), args.clone()))
            .cloned()
            .unwrap_or_default())
    }
    fn run_status(&self, _program: &str, _args: &Vec<String>) -> Result<bool, ShellError> {
        Ok(true)
    }
    fn run_tty(&self, _program: &str, _args: &Vec<String>) -> Result<(), ShellError> {
        Ok(())
    }
    fn env_var(&self, key: &str) -> Option<String> {
        self.env.get(key).cloned()
    }
}

fn opts_ascii(no_color: bool) -> ListOptions {
    ListOptions {
        include_tmux: true,
        include_zox: true,
        z_limit: None,
        icons: false,
        no_color,
    }
}

fn opts_icons(no_color: bool) -> ListOptions {
    ListOptions {
        include_tmux: true,
        include_zox: true,
        z_limit: None,
        icons: true,
        no_color,
    }
}

#[test]
fn list_tmux_and_zoxide_ascii_and_limit() {
    let sh = MockShell::default()
        .with("tmux", &["list-sessions", "-F", "#S"], "b\na\n")
        .with("tmux", &["display-message", "-p", "-F", "#S"], "\n")
        .with(
            "zoxide",
            &["query", "-l"],
            "/home/u/one\n/home/u/two\n/home/u/three\n",
        );

    let opts = ListOptions {
        include_tmux: true,
        include_zox: true,
        z_limit: Some(2),
        icons: false,
        no_color: true,
    };
    let lines = build_list_lines(&sh, &opts).unwrap();
    assert_eq!(
        lines,
        vec![
            String::from("[t] a"),
            String::from("[t] b"),
            String::from("[z] /home/u/one"),
            String::from("[z] /home/u/two"),
        ]
    );
}

#[test]
fn list_filters_zoxide_duplicates_matching_tmux() {
    // tmux sessions a and b; zoxide lists dirs whose basenames are a, b, c
    let sh = MockShell::default()
        .with("tmux", &["list-sessions", "-F", "#S"], "b\na\n")
        .with("tmux", &["display-message", "-p", "-F", "#S"], "\n")
        .with("zoxide", &["query", "-l"], "/x/a\n/y/b\n/z/c\n");
    let lines = build_list_lines(&sh, &opts_ascii(true)).unwrap();
    assert_eq!(
        lines,
        vec![
            String::from("[t] a"),
            String::from("[t] b"),
            String::from("[z] /z/c"),
        ]
    );
}

#[test]
fn list_icons_with_color() {
    let sh = MockShell::default()
        .with("tmux", &["list-sessions", "-F", "#S"], "x\n")
        .with("tmux", &["display-message", "-p", "-F", "#S"], "x\n")
        .with("zoxide", &["query", "-l"], "/a/b\n");
    let lines = build_list_lines(&sh, &opts_icons(false)).unwrap();
    assert_eq!(lines.len(), 2);
    assert!(lines[0].contains("\u{001b}["));
    assert!(lines[0].contains("x"));
    assert!(lines[1].contains("\u{001b}["));
    assert!(lines[1].contains("/a/b"));
}

#[test]
fn list_graceful_empty() {
    let sh = MockShell::default()
        .with("tmux", &["list-sessions", "-F", "#S"], "\n\n")
        .with("tmux", &["display-message", "-p", "-F", "#S"], "\n")
        .with("zoxide", &["query", "-l"], "\n");
    let lines = build_list_lines(&sh, &opts_ascii(true)).unwrap();
    assert!(lines.is_empty());
}

#[test]
fn list_promotes_active_tmux_first() {
    let sh = MockShell::default()
        .with("tmux", &["list-sessions", "-F", "#S"], "b\na\n")
        .with("tmux", &["display-message", "-p", "-F", "#S"], "b\n");
    let lines = build_list_lines(&sh, &opts_ascii(true)).unwrap();
    assert_eq!(lines[..2], [String::from("[t] b"), String::from("[t] a")]);
}

#[test]
fn list_promotes_attached_session_from_tagged_listing() {
    // the direct current-session query says nothing; the tagged listing
    // reports only b as attached, so b is promoted over a
    let sh = MockShell::default()
        .with("tmux", &["list-sessions", "-F", "#S"], "b\na\n")
        .with("tmux", &["display-message", "-p", "-F", "#S"], "\n")
        .with(
            "tmux",
            &["list-sessions", "-F", "#{?session_attached,1,0}\t#S"],
            "0\ta\n1\tb\n",
        );
    let lines = build_list_lines(&sh, &opts_ascii(true)).unwrap();
    assert_eq!(lines, vec![String::from("[t] b"), String::from("[t] a")]);
}

#[test]
fn list_only_tmux_when_zoxide_excluded() {
    let sh = MockShell::default()
        .with("tmux", &["list-sessions", "-F", "#S"], "a\n")
        .with("tmux", &["display-message", "-p", "-F", "#S"], "\n")
        .with("zoxide", &["query", "-l"], "/x/q\n");
    let opts = ListOptions {
        include_tmux: true,
        include_zox: false,
        z_limit: None,
        icons: false,
        no_color: true,
    };
    let lines = build_list_lines(&sh, &opts).unwrap();
    assert_eq!(lines, vec![String::from("[t] a")]);
}

#[test]
fn list_only_zoxide_when_tmux_excluded() {
    // with sessions excluded, no session names are recorded, so even a
    // matching basename is emitted
    let sh = MockShell::default()
        .with("tmux", &["list-sessions", "-F", "#S"], "a\n")
        .with("tmux", &["display-message", "-p", "-F", "#S"], "\n")
        .with("zoxide", &["query", "-l"], "/x/a\n");
    let opts = ListOptions {
        include_tmux: false,
        include_zox: true,
        z_limit: None,
        icons: false,
        no_color: true,
    };
    let lines = build_list_lines(&sh, &opts).unwrap();
    assert_eq!(lines, vec![String::from("[z] /x/a")]);
}

#[test]
fn list_ascii_with_color_wraps_prefix() {
    let sh = MockShell::default()
        .with("tmux", &["list-sessions", "-F", "#S"], "x\n")
        .with("tmux", &["display-message", "-p", "-F", "#S"], "\n");
    let opts = ListOptions {
        include_tmux: true,
        include_zox: false,
        z_limit: None,
        icons: false,
        no_color: false,
    };
    let lines = build_list_lines(&sh, &opts).unwrap();
    assert_eq!(lines, vec![String::from("\u{001b}[35m[t]\u{001b}[0m x")]);
}
