use std::cell::RefCell;
use std::collections::HashMap;

use nitro::connect::{run_connect, ConnectError, ConnectOptions};
use nitro::shell::{Shell, ShellError};
use nitro::tmux::{
    attach_args, attach_or_switch, create_session_args, has_session, has_session_args,
    list_sessions, list_sessions_args,
};

#[derive(Default)]
struct MockShell {
    outputs: HashMap<(String, Vec<String>), String>,
    status: HashMap<(String, Vec<String>), bool>,
    env: HashMap<String, String>,
    calls: RefCell<Vec<(String, Vec<String>)>>,
}

impl MockShell {
    fn with(mut self, program: &str, args: &[&str], output: &str) -> Self {
        self.outputs.insert(
            (program.into(), args.iter().map(|s| s.to_string()).collect()),
            output.into(),
        );
        self
    }
    fn status(mut self, program: &str, args: &[&str], ok: bool) -> Self {
        self.status.insert(
            (program.into(), args.iter().map(|s| s.to_string()).collect()),
            ok,
        );
        self
    }
    fn with_env(mut self, k: &str, v: &str) -> Self {
        self.env.insert(k.into(), v.into());
        self
    }
    fn ran(&self, program: &str, first_arg: &str) -> Vec<Vec<String>> {
        self.calls
            .borrow()
            .iter()
            .filter(|(p, a)| p == program && a.first().map(|s| s.as_str()) == Some(first_arg))
            .map(|(_, a)| a.clone())
            .collect()
    }
}

impl Shell for MockShell {
    fn run(&self, program: &str, args: &Vec<String>) -> Result<String, ShellError> {
        self.calls
            .borrow_mut()
            .push((program.to_string(), args.clone()));
        Ok(self
            .outputs
            .get(&(program.to_string(), args.clone()))
            .cloned()
            .unwrap_or_default())
    }
    fn run_status(&self, program: &str, args: &Vec<String>) -> Result<bool, ShellError> {
        self.calls
            .borrow_mut()
            .push((program.to_string(), args.clone()));
        Ok(*self
            .status
            .get(&(program.to_string(), args.clone()))
            .unwrap_or(&true))
    }
    fn run_tty(&self, program: &str, args: &Vec<String>) -> Result<(), ShellError> {
        self.calls
            .borrow_mut()
            .push((program.to_string(), args.clone()));
        Ok(())
    }
    fn env_var(&self, key: &str) -> Option<String> {
        self.env.get(key).cloned()
    }
}

#[test]
fn list_sessions_sorts() {
    let sh = MockShell::default().with("tmux", &["list-sessions", "-F", "#S"], "b\na\n");
    let v = list_sessions(&sh).unwrap();
    assert_eq!(v, vec!["a", "b"]);
}

#[test]
fn has_session_true_false() {
    let sh_true = MockShell::default().status("tmux", &["has-session", "-t", "x"], true);
    assert!(has_session(&sh_true, "x").unwrap());
    let sh_false = MockShell::default().status("tmux", &["has-session", "-t", "x"], false);
    assert!(!has_session(&sh_false, "x").unwrap());
}

#[test]
fn attach_or_switch_respects_tmux_env() {
    let sh_in = MockShell::default().with_env("TMUX", "1");
    attach_or_switch(&sh_in, "name").unwrap();
    assert_eq!(sh_in.ran("tmux", "switch-client").len(), 1);
    let sh_out = MockShell::default();
    attach_or_switch(&sh_out, "name").unwrap();
    assert_eq!(sh_out.ran("tmux", "switch-client").len(), 0);
}

#[test]
fn connect_attaches_if_exists_switch_inside_tmux() {
    // tmux present, session exists
    let sh = MockShell::default()
        .status("tmux", &["has-session", "-t", "web"], true)
        .with_env("TMUX", "1");
    run_connect(
        &sh,
        ConnectOptions {
            tokens: vec!["web".into()],
            dir: None,
        },
    )
    .unwrap();
}

#[test]
fn connect_creates_with_dir_then_attaches() {
    let sh = MockShell::default().status("tmux", &["has-session", "-t", "web"], false);
    run_connect(
        &sh,
        ConnectOptions {
            tokens: vec!["web".into()],
            dir: Some("/x".to_string()),
        },
    )
    .unwrap();
}

#[test]
fn connect_existing_never_creates() {
    // the session exists: no creation, whatever the directory hints say
    let sh = MockShell::default()
        .status("tmux", &["has-session", "-t", "web"], true)
        .with_env("TMUX", "1");
    run_connect(
        &sh,
        ConnectOptions {
            tokens: vec!["web".into()],
            dir: Some("/somewhere".to_string()),
        },
    )
    .unwrap();
    assert!(sh.ran("tmux", "new-session").is_empty());
    assert_eq!(sh.ran("tmux", "switch-client").len(), 1);
}

#[test]
fn connect_dir_override_beats_frecency() {
    // a frecency match exists elsewhere, but the explicit override wins
    let sh = MockShell::default()
        .status("tmux", &["has-session", "-t", "web"], false)
        .with("zoxide", &["query", "web"], "/elsewhere\n");
    run_connect(
        &sh,
        ConnectOptions {
            tokens: vec!["web".into()],
            dir: Some("/x".to_string()),
        },
    )
    .unwrap();
    let creates = sh.ran("tmux", "new-session");
    assert_eq!(
        creates,
        vec![vec![
            "new-session".to_string(),
            "-ds".to_string(),
            "web".to_string(),
            "-c".to_string(),
            "/x".to_string(),
        ]]
    );
    assert!(sh.ran("zoxide", "query").is_empty());
    assert_eq!(sh.ran("tmux", "attach").len(), 1);
}

#[test]
fn connect_parsed_path_beats_frecency() {
    // no override; the path parsed from the line wins over the match
    let sh = MockShell::default()
        .status("tmux", &["has-session", "-t", "web"], false)
        .with("zoxide", &["query", "web"], "/elsewhere\n");
    run_connect(
        &sh,
        ConnectOptions {
            tokens: vec!["web".into(), "/parsed".into()],
            dir: None,
        },
    )
    .unwrap();
    let creates = sh.ran("tmux", "new-session");
    assert_eq!(creates.len(), 1);
    assert_eq!(creates[0][4], "/parsed");
    assert!(sh.ran("zoxide", "query").is_empty());
}

#[test]
fn connect_falls_back_to_frecency_match() {
    let sh = MockShell::default()
        .status("tmux", &["has-session", "-t", "web"], false)
        .with("zoxide", &["query", "web"], "/from/frecency\n");
    run_connect(
        &sh,
        ConnectOptions {
            tokens: vec!["web".into()],
            dir: None,
        },
    )
    .unwrap();
    let creates = sh.ran("tmux", "new-session");
    assert_eq!(creates.len(), 1);
    assert_eq!(creates[0][4], "/from/frecency");
}

#[test]
fn connect_empty_name_is_rejected() {
    let sh = MockShell::default();
    let r = run_connect(
        &sh,
        ConnectOptions {
            tokens: vec!["   ".into()],
            dir: None,
        },
    );
    assert!(matches!(r, Err(ConnectError::EmptyName)));
    assert!(sh.calls.borrow().is_empty());
}

#[test]
fn connect_error_message_names_empty_name() {
    let e = ConnectError::EmptyName;
    assert_eq!(e.message(), "empty session name");
}

struct FailingAttachShell;

impl Shell for FailingAttachShell {
    fn run(&self, _p: &str, _a: &Vec<String>) -> Result<String, ShellError> {
        Err(ShellError::new("boom".to_string()))
    }
    fn run_status(&self, _p: &str, _a: &Vec<String>) -> Result<bool, ShellError> {
        Ok(true)
    }
    fn run_tty(&self, _p: &str, _a: &Vec<String>) -> Result<(), ShellError> {
        Err(ShellError::new("attach failed".to_string()))
    }
    fn env_var(&self, _k: &str) -> Option<String> {
        None
    }
}

#[test]
fn connect_surfaces_attach_failure() {
    // the session exists, but attaching fails: the shell error comes back
    let r = run_connect(
        &FailingAttachShell,
        ConnectOptions {
            tokens: vec!["web".into()],
            dir: None,
        },
    );
    match r {
        Err(ConnectError::Shell(e)) => assert_eq!(e.message(), "attach failed"),
        _ => panic!("expected a shell error"),
    }
}

#[test]
fn attach_args_follow_environment_marker() {
    assert_eq!(attach_args(true, "n"), vec!["switch-client", "-t", "n"]);
    assert_eq!(attach_args(false, "n"), vec!["attach", "-t", "n"]);
}

#[test]
fn command_builders_fix_the_issued_vectors() {
    assert_eq!(has_session_args("x"), vec!["has-session", "-t", "x"]);
    assert_eq!(
        create_session_args("x", "/d"),
        vec!["new-session", "-ds", "x", "-c", "/d"]
    );
    assert_eq!(list_sessions_args(), vec!["list-sessions", "-F", "#S"]);
    assert_eq!(nitro::zoxide::list_all_args(), vec!["query", "-l"]);
    assert_eq!(nitro::zoxide::best_match_args("web"), vec!["query", "web"]);
}
