use e4pty::command::{BoxedPty, Script, ScriptExecutor};
use e4pty::script::{Materialized, Resolved, UnknownShell};
use e4pty::OsText;

fn text(os: &OsText) -> String {
    String::from_utf8(os.as_bytes().to_vec()).unwrap()
}

fn argv(command: Materialized) -> Vec<String> {
    match command {
        Materialized::Ready(Resolved { program, args }) => {
            let mut list = vec![text(&program)];
            list.extend(args.iter().map(text));
            list
        }
        other => panic!("no command: {:?}", other),
    }
}

#[test]
fn whole_line() {
    assert_eq!(argv(Script::from("ls  -la\t/").into_command()), ["ls", "-la", "/"]);
}

#[test]
fn split_arguments() {
    let script = Script::new("printf", vec!["a b", ""]);
    assert_eq!(argv(script.into_command()), ["printf", "a b", ""]);
    let script = Script::from_argv(&["echo", "x y", "z"]);
    assert_eq!(argv(script.into_command()), ["echo", "x y", "z"]);
    assert_eq!(argv(Script::from_argv(&["true"]).into_command()), ["true"]);
}

#[test]
fn script_file() {
    match Script::sh("exit 3").into_command() {
        Materialized::Temp(file) => {
            assert_eq!(file.suffix, None);
            assert_eq!(file.contents, b"\ntrap 'rm -f -- \"$0\"' EXIT;\nexit 3");
            let command = file.resolve(OsText::from("/tmp/s"));
            assert_eq!(argv(Materialized::Ready(command)), ["sh", "/tmp/s"]);
        }
        other => panic!("no script file: {:?}", other),
    }
    match Script::powershell("exit 3").into_command() {
        Materialized::Temp(file) => {
            assert_eq!(file.suffix, Some(".ps1"));
            assert_eq!(
                file.contents,
                b"\r\nRemove-Item $MyInvocation.MyCommand.Path\r\nexit 3"
            );
            let command = file.resolve(OsText::from("s.ps1"));
            assert_eq!(argv(Materialized::Ready(command)), ["powershell", "s.ps1"]);
        }
        other => panic!("no script file: {:?}", other),
    }
}

#[test]
fn executor_hooks() {
    let trap: &[u8] = b"\ntrap 'rm -f -- \"$0\"' EXIT;";
    assert_eq!(ScriptExecutor::Sh.prepare_clean(), trap);
    assert_eq!(ScriptExecutor::Bash.prepare_clean(), trap);
    assert_eq!(
        ScriptExecutor::Powershell.prepare_clean(),
        b"\r\nRemove-Item $MyInvocation.MyCommand.Path"
    );
}

#[test]
fn executor_names() {
    for (executor, name) in [
        (ScriptExecutor::Sh, "sh"),
        (ScriptExecutor::Bash, "bash"),
        (ScriptExecutor::Powershell, "powershell"),
    ] {
        assert_eq!(executor.as_ref(), name);
        assert_eq!(executor.to_text(), name);
        assert_eq!(ScriptExecutor::from_str(name), Ok(executor));
    }
    assert_eq!(ScriptExecutor::from_str("cmd"), Err(UnknownShell));
}

#[test]
fn bundle_of_handles() {
    let pty = BoxedPty::new(1u8, "writer", 'r');
    assert_eq!(pty.writer, "writer");
    assert_eq!(pty.destruct(), (1u8, "writer", 'r'));
}
