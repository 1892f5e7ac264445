use nitro::shell::{Shell, ShellError};
use nitro::zoxide::{best_match_dir, list_all};

struct RShell;

impl Shell for RShell {
    fn run(&self, _p: &str, _a: &Vec<String>) -> Result<String, ShellError> {
        Ok("/a\n\n /b \n".into())
    }
    fn run_status(&self, _p: &str, _a: &Vec<String>) -> Result<bool, ShellError> {
        Ok(true)
    }
    fn run_tty(&self, _p: &str, _a: &Vec<String>) -> Result<(), ShellError> {
        Ok(())
    }
    fn env_var(&self, _k: &str) -> Option<String> {
        None
    }
}

struct OkShell;

impl Shell for OkShell {
    fn run(&self, _p: &str, _a: &Vec<String>) -> Result<String, ShellError> {
        Ok("/match\n".into())
    }
    fn run_status(&self, _p: &str, _a: &Vec<String>) -> Result<bool, ShellError> {
        Ok(true)
    }
    fn run_tty(&self, _p: &str, _a: &Vec<String>) -> Result<(), ShellError> {
        Ok(())
    }
    fn env_var(&self, _k: &str) -> Option<String> {
        None
    }
}

struct ErrShell;

impl Shell for ErrShell {
    fn run(&self, _p: &str, _a: &Vec<String>) -> Result<String, ShellError> {
        Err(ShellError::new("boom".to_string()))
    }
    fn run_status(&self, _p: &str, _a: &Vec<String>) -> Result<bool, ShellError> {
        Ok(true)
    }
    fn run_tty(&self, _p: &str, _a: &Vec<String>) -> Result<(), ShellError> {
        Ok(())
    }
    fn env_var(&self, _k: &str) -> Option<String> {
        None
    }
}

#[test]
fn list_all_parses_and_ignores_empty() {
    let v = list_all(&RShell).unwrap();
    assert_eq!(v.len(), 2);
    assert_eq!(v[0].path, "/a");
    assert_eq!(v[1].path, "/b");
}

#[test]
fn best_match_ok_and_err() {
    assert_eq!(best_match_dir(&OkShell, "x"), Some("/match".to_string()));
    assert_eq!(best_match_dir(&ErrShell, "x"), None);
}
