use e4pty::environment::{bind, same_variable, unbind, Names, Variable};
use e4pty::spawn::EnvMod;
use e4pty::{openpty, OsText, PtyBuilder, Script, WindowSize};

fn var(name: &str, value: &str) -> Variable {
    (OsText::from(name), OsText::from(value))
}

fn text(os: &OsText) -> String {
    String::from_utf8(os.as_bytes().to_vec()).unwrap()
}

fn listed(vars: &[Variable]) -> Vec<String> {
    vars.iter().map(|v| format!("{}={}", text(&v.0), text(&v.1))).collect()
}

fn parent() -> Vec<Variable> {
    vec![var("PATH", "/bin"), var("HOME", "/root"), var("LANG", "C")]
}

fn builder() -> PtyBuilder {
    PtyBuilder::new(WindowSize::default(), Script::line("env"))
}

fn child(builder: PtyBuilder) -> Vec<String> {
    listed(&builder.spawn(&parent()).env.unwrap())
}

#[test]
fn untouched_environment_is_inherited() {
    assert!(!builder().needs_parent_env());
    assert!(builder().spawn(&parent()).env.is_none());
    assert!(EnvMod::new().is_noop());
    assert!(EnvMod::new().materialize(Names::Exact, &parent()).is_none());
}

#[test]
fn env_adds_or_overrides() {
    let b = builder().env(OsText::from("E4PTY_TEST"), OsText::from("hello-env"));
    assert!(b.needs_parent_env());
    assert_eq!(child(b), ["PATH=/bin", "HOME=/root", "LANG=C", "E4PTY_TEST=hello-env"]);

    let b = builder()
        .env(OsText::from("HOME"), OsText::from("/a"))
        .env(OsText::from("HOME"), OsText::from("/b"));
    assert_eq!(child(b), ["PATH=/bin", "HOME=/b", "LANG=C"]);
}

#[test]
fn names_are_told_apart_by_case() {
    let b = builder().env(OsText::from("home"), OsText::from("/h"));
    assert_eq!(child(b), ["PATH=/bin", "HOME=/root", "LANG=C", "home=/h"]);
}

#[test]
fn envs_adds_or_overrides() {
    let b = builder().envs(vec![var("A", "1"), var("LANG", "de"), var("A", "2")]);
    assert_eq!(child(b), ["PATH=/bin", "HOME=/root", "LANG=de", "A=2"]);
}

#[test]
fn env_remove_removes() {
    let b = builder().env_remove(OsText::from("PATH"));
    assert!(b.needs_parent_env());
    assert_eq!(child(b), ["LANG=C", "HOME=/root"]);

    let b = builder().env_remove(OsText::from("NOT_THERE"));
    assert_eq!(child(b), ["PATH=/bin", "HOME=/root", "LANG=C"]);
}

#[test]
fn later_calls_override_earlier_ones() {
    let b = builder()
        .env(OsText::from("A"), OsText::from("1"))
        .env_remove(OsText::from("A"));
    assert_eq!(child(b), ["PATH=/bin", "HOME=/root", "LANG=C"]);

    let b = builder()
        .env_remove(OsText::from("LANG"))
        .env(OsText::from("LANG"), OsText::from("en"));
    assert_eq!(child(b), ["PATH=/bin", "HOME=/root", "LANG=en"]);
}

#[test]
fn env_clear_starts_empty() {
    let b = builder()
        .env(OsText::from("GONE"), OsText::from("1"))
        .env_clear()
        .env(OsText::from("PATH"), OsText::from("/usr/bin:/bin"));
    assert!(!b.needs_parent_env());
    assert_eq!(child(b), ["PATH=/usr/bin:/bin"]);
    assert!(child(builder().env_clear()).is_empty());
}

#[test]
fn repeated_names_of_the_parent_are_kept() {
    let twice = vec![var("A", "1"), var("B", "2"), var("A", "3")];
    let spec = builder()
        .env(OsText::from("C"), OsText::from("4"))
        .spawn(&twice);
    assert_eq!(listed(&spec.env.unwrap()), ["A=1", "B=2", "A=3", "C=4"]);
}

#[test]
fn repeated_names_are_set_and_removed_together() {
    let twice = vec![var("A", "1"), var("B", "2"), var("A", "3")];
    let spec = builder()
        .env(OsText::from("A"), OsText::from("4"))
        .spawn(&twice);
    assert_eq!(listed(&spec.env.unwrap()), ["A=4", "B=2", "A=4"]);
    let spec = builder().env_remove(OsText::from("A")).spawn(&twice);
    assert_eq!(listed(&spec.env.unwrap()), ["B=2"]);
    // The last `A` stays the last.
    let spec = builder()
        .env_remove(OsText::from("X"))
        .spawn(&vec![var("X", "0"), var("A", "1"), var("A", "2")]);
    assert_eq!(listed(&spec.env.unwrap()), ["A=1", "A=2"]);
}

#[test]
fn task_of_a_session() {
    let spec = PtyBuilder::new(WindowSize::new(40, 120), Script::line("pwd"))
        .current_dir(OsText::from("/tmp"))
        .spawn(&Vec::new());
    assert_eq!(spec.window_size, WindowSize { rows: 40, cols: 120 });
    assert_eq!(text(&spec.current_dir.unwrap()), "/tmp");
    assert!(matches!(spec.script, Script::Line(ref l) if l == "pwd"));
    assert!(spec.env.is_none());

    let spec = openpty(WindowSize::default(), Script::sh("exit 0"));
    assert_eq!(spec.window_size, WindowSize { rows: 24, cols: 80 });
    assert!(spec.current_dir.is_none());
    assert!(spec.env.is_none());
    assert!(matches!(spec.script, Script::Shell { ref source, .. } if source == "exit 0"));
}

#[test]
fn changes_one_by_one() {
    let mut changes = EnvMod::new();
    changes.set(OsText::from("X"), OsText::from("1"));
    assert!(!changes.is_noop());
    assert!(changes.needs_parent());
    changes.remove(OsText::from("X"));
    assert_eq!(
        listed(&changes.materialize(Names::Exact, &parent()).unwrap()),
        ["PATH=/bin", "HOME=/root", "LANG=C"]
    );
    changes.clear();
    assert!(!changes.needs_parent());
    assert!(changes.materialize(Names::Exact, &parent()).unwrap().is_empty());
}

#[test]
fn binding_and_unbinding() {
    let mut vars = parent();
    bind(Names::Exact, &mut vars, OsText::from("HOME"), OsText::from("/h"));
    bind(Names::Exact, &mut vars, OsText::from("NEW"), OsText::from(""));
    assert_eq!(listed(&vars), ["PATH=/bin", "HOME=/h", "LANG=C", "NEW="]);
    unbind(Names::Exact, &mut vars, &OsText::from("PATH"));
    assert_eq!(listed(&vars), ["NEW=", "HOME=/h", "LANG=C"]);
    unbind(Names::Exact, &mut vars, &OsText::from("PATH"));
    assert_eq!(vars.len(), 3);
}

fn windows_child(builder: PtyBuilder) -> Vec<String> {
    let parent = vec![var("Path", "C:\\bin"), var("TEMP", "t"), var("ä", "1")];
    listed(&builder.spawn_ignoring_case(&parent).env.unwrap())
}

#[test]
fn removing_ignores_case_on_windows() {
    let b = builder().env_remove(OsText::from("PATH"));
    assert_eq!(windows_child(b), ["ä=1", "TEMP=t"]);
    let b = builder().env_remove(OsText::from("Ä"));
    assert_eq!(windows_child(b).len(), 3);
    // Without regard to case only where it is asked for.
    let b = builder().env_remove(OsText::from("path"));
    assert_eq!(child(b), ["PATH=/bin", "HOME=/root", "LANG=C"]);
}

#[test]
fn setting_ignores_case_on_windows() {
    let b = builder()
        .env(OsText::from("PATH"), OsText::from("new"))
        .env(OsText::from("New"), OsText::from("1"))
        .env(OsText::from("NEW"), OsText::from("2"));
    assert_eq!(windows_child(b), ["Path=new", "TEMP=t", "ä=1", "New=2"]);
}

#[test]
fn later_calls_override_whatever_the_case_on_windows() {
    let b = builder()
        .env(OsText::from("a"), OsText::from("1"))
        .env_remove(OsText::from("A"));
    assert_eq!(windows_child(b), ["Path=C:\\bin", "TEMP=t", "ä=1"]);
    let b = builder()
        .env_remove(OsText::from("temp"))
        .env(OsText::from("Temp"), OsText::from("u"));
    assert_eq!(windows_child(b), ["Path=C:\\bin", "ä=1", "Temp=u"]);
    let b = builder()
        .env_clear()
        .env(OsText::from("x"), OsText::from("1"))
        .env(OsText::from("X"), OsText::from("2"));
    assert_eq!(windows_child(b), ["x=2"]);
    assert!(builder().spawn_ignoring_case(&Vec::new()).env.is_none());
}

#[test]
fn names_of_one_variable() {
    let (a, b) = (OsText::from("Path"), OsText::from("PATH"));
    assert!(same_variable(Names::AnyCase, &a, &b));
    assert!(!same_variable(Names::Exact, &a, &b));
    assert!(same_variable(Names::Exact, &a, &OsText::from("Path")));
    assert!(!same_variable(Names::AnyCase, &a, &OsText::from("Pat")));
    assert!(!same_variable(Names::AnyCase, &OsText::from("["), &OsText::from("{")));
}
