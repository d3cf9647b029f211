use e4pty::error::{Error, ErrorKind, IoError, OsError};
use e4pty::script::{Materialized, Resolved, TempScript, UnknownShell};
use e4pty::words::split_words;
use e4pty::{OsText, Script, Shell};

fn text(os: &OsText) -> String {
    String::from_utf8(os.as_bytes().to_vec()).unwrap()
}

fn texts(list: &[OsText]) -> Vec<String> {
    list.iter().map(text).collect()
}

fn ready(script: Script) -> Resolved {
    match script.materialize() {
        Ok(Materialized::Ready(command)) => command,
        other => panic!("no command: {:?}", other),
    }
}

fn temp(script: Script) -> TempScript {
    match script.materialize() {
        Ok(Materialized::Temp(file)) => file,
        other => panic!("no script file: {:?}", other),
    }
}

#[test]
fn line_is_split_on_white_space() {
    let command = ready(Script::line("echo line-form-works"));
    assert_eq!(text(&command.program), "echo");
    assert_eq!(texts(&command.args), ["line-form-works"]);

    let command = ready(Script::from(" \t vim   /tmp/f\n"));
    assert_eq!(text(&command.program), "vim");
    assert_eq!(texts(&command.args), ["/tmp/f"]);

    let command = ready(Script::from(String::from("true")));
    assert_eq!(text(&command.program), "true");
    assert!(command.args.is_empty());
}

#[test]
fn line_does_not_interpret_quotes() {
    let command = ready(Script::line("echo 'a b' \"c\" \\d"));
    assert_eq!(texts(&command.args), ["'a", "b'", "\"c\"", "\\d"]);
}

#[test]
fn line_takes_unicode_white_space_and_text() {
    let command = ready(Script::line("grüß\u{3000}日本\u{2028}🦀\u{85}x\u{200b}y"));
    assert_eq!(text(&command.program), "grüß");
    assert_eq!(texts(&command.args), ["日本", "🦀", "x\u{200b}y"]);
}

#[test]
fn every_character_is_white_space_or_not() {
    let mut breaks: Vec<u32> = Vec::new();
    let mut code: u32 = 0;
    while code <= 0x10ffff {
        if let Some(c) = char::from_u32(code) {
            let mut line = String::from("a");
            line.push(c);
            line.push('b');
            let parts = split_words(&line).len();
            assert_eq!(parts == 2, c.is_whitespace());
            if parts == 2 {
                breaks.push(code);
            }
        }
        code += 1;
    }
    let mut expected: Vec<u32> = vec![9, 10, 11, 12, 13, 0x20, 0x85, 0xa0, 0x1680];
    expected.extend(0x2000..=0x200a);
    expected.extend([0x2028, 0x2029, 0x202f, 0x205f, 0x3000]);
    assert_eq!(breaks, expected);
}

#[test]
fn words_of_a_line() {
    assert_eq!(texts(&split_words("a  b\tc ")), ["a", "b", "c"]);
    assert!(split_words("").is_empty());
    assert!(split_words(" \r\n").is_empty());
    for word in split_words("one two\u{a0}three") {
        assert!(!text(&word).contains(char::is_whitespace));
    }
}

#[test]
fn blank_line_is_refused() {
    for line in ["", " ", "\t\n\u{3000}"] {
        match Script::line(line).materialize() {
            Err(IoError { kind, message }) => {
                assert_eq!(kind, ErrorKind::InvalidInput);
                assert_eq!(message, "empty command line");
            }
            other => panic!("accepted: {:?}", other),
        }
    }
    assert!(Script::line(" x ").materialize().is_ok());
}

#[test]
fn exec_is_verbatim() {
    let argv = vec![OsText::from("-c"), OsText::from("printf 'argv with  spaces'; exit 0")];
    let command = ready(Script::exec(OsText::from("sh"), argv));
    assert_eq!(text(&command.program), "sh");
    assert_eq!(texts(&command.args), ["-c", "printf 'argv with  spaces'; exit 0"]);

    let odd = ready(Script::exec(
        OsText::from_bytes(vec![0xff, 0x20, 0xfe]),
        vec![OsText::from("")],
    ));
    assert_eq!(odd.program.as_bytes(), [0xff, 0x20, 0xfe]);
    assert_eq!(texts(&odd.args), [""]);
}

#[test]
fn argv_slice() {
    let argv: &[&str] = &["ls", "-la", "a b"];
    let command = ready(Script::from(argv));
    assert_eq!(text(&command.program), "ls");
    assert_eq!(texts(&command.args), ["-la", "a b"]);

    let none: &[&str] = &[];
    let error = Script::from(none).materialize().unwrap_err();
    assert_eq!(error.kind, ErrorKind::InvalidInput);
}

#[test]
fn shell_script_starts_with_its_hook() {
    let file = temp(Script::sh("echo done; exit 0"));
    assert_eq!(text(&file.program), "sh");
    assert!(file.flags.is_empty());
    assert_eq!(file.suffix, None);
    assert_eq!(
        file.contents,
        b"\ntrap 'rm -f -- \"$0\"' EXIT;\necho done; exit 0"
    );
    let command = file.resolve(OsText::from("/tmp/.tmpX"));
    assert_eq!(text(&command.program), "sh");
    assert_eq!(texts(&command.args), ["/tmp/.tmpX"]);

    let file = temp(Script::bash(""));
    assert_eq!(text(&file.program), "bash");
    assert_eq!(file.contents, b"\ntrap 'rm -f -- \"$0\"' EXIT;\n");
}

#[test]
fn powershell_script_runs_as_a_file() {
    let file = temp(Script::powershell("Write-Host é"));
    assert_eq!(text(&file.program), "powershell");
    assert_eq!(file.suffix, Some(".ps1"));
    assert_eq!(
        file.contents,
        "\r\nRemove-Item $MyInvocation.MyCommand.Path\r\nWrite-Host é".as_bytes()
    );
    let command = file.resolve(OsText::from("C:\\x.ps1"));
    assert_eq!(texts(&command.args), ["-File", "C:\\x.ps1"]);
}

#[test]
fn no_shell_unless_asked() {
    assert!(matches!(
        Script::line("sh -c ls").materialize(),
        Ok(Materialized::Ready(_))
    ));
    assert!(matches!(
        Script::exec(OsText::from("bash"), Vec::new()).materialize(),
        Ok(Materialized::Ready(_))
    ));
    assert!(matches!(
        Script::bash("ls").materialize(),
        Ok(Materialized::Temp(_))
    ));
}

#[test]
fn shell_names() {
    for (shell, name) in [
        (Shell::Sh, "sh"),
        (Shell::Bash, "bash"),
        (Shell::Powershell, "powershell"),
    ] {
        assert_eq!(shell.binary(), name);
        assert_eq!(shell.as_ref(), name);
        assert_eq!(shell.to_text(), name);
        assert_eq!(Shell::from_str(name), Ok(shell));
    }
    assert_eq!(Shell::from_str("Sh"), Err(UnknownShell));
    assert_eq!(Shell::from_str(""), Err(UnknownShell));
    assert_eq!(Shell::from_str("zsh"), Err(UnknownShell));
}

#[test]
fn errors_as_text() {
    let io = Error::from(IoError::new(ErrorKind::Other, "no such file"));
    assert_eq!(io.describe(), "io error: no such file");
    let errno = Error::Errno(OsError { code: 24, text: String::from("too many files") });
    assert_eq!(errno.describe(), "openpty error: too many files");
    let win = Error::Windows(OsError { code: 5, text: String::from("denied") });
    assert_eq!(win.describe(), "openpty error: denied");
}

#[test]
fn os_text_keeps_its_bytes() {
    let a = OsText::from("päth");
    let b = a.clone();
    assert!(a.same(&b));
    assert!(!a.same(&OsText::from("path")));
    assert!(!a.same(&OsText::from("pät")));
    assert_eq!(b.into_bytes(), "päth".as_bytes());
}
