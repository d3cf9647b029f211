//! What to run inside the pty: [`Script`] descriptions, the [`Shell`]
//! selector, and the single shared resolution step ([`Script::materialize`])
//! that both backends consume.
//!
//! Shell-script execution works by writing the source into a temp file,
//! prefixed with a self-cleanup hook, and invoking the interpreter on it.
//! The hook is written *before* the user source so it is installed even
//! when the script calls `exit` early; the interpreter removes the file
//! itself once it stops.

use vstd::prelude::*;
use vstd::utf8::encode_utf8;

use crate::error::{ErrorKind, IoError};
use crate::os_text::{same_bytes, texts, OsText};
use crate::words::{encoded, split_words, white_space, words};

verus! {

/// Interpreter used to run [`Script::Shell`] payloads.
#[derive(Debug, Clone, Copy, PartialEq, Eq, Structural)]
pub enum Shell {
    /// POSIX `sh`, looked up on `PATH`.
    Sh,
    /// `bash`, looked up on `PATH`.
    Bash,
    /// Windows PowerShell, invoked with `-File <script>`.
    Powershell,
}

/// A name that belongs to no interpreter.
#[derive(Debug, Clone, Copy, PartialEq, Eq, Structural)]
pub struct UnknownShell;

impl Shell {
    /// The name of the interpreter.
    pub open spec fn name(&self) -> Seq<char> {
        match self {
            Shell::Sh => "sh"@,
            Shell::Bash => "bash"@,
            Shell::Powershell => "powershell"@,
        }
    }

    /// The lines that make the interpreter delete the script file.
    pub open spec fn hook(&self) -> Seq<char> {
        match self {
            Shell::Sh | Shell::Bash => "\ntrap 'rm -f -- \"$0\"' EXIT;\n"@,
            Shell::Powershell => "\r\nRemove-Item $MyInvocation.MyCommand.Path\r\n"@,
        }
    }

    /// Interpreter binary name to look up on `PATH`.
    pub fn binary(&self) -> (binary: &'static str)
        ensures
            binary@ == self.name(),
    {
        match self {
            Shell::Sh => "sh",
            Shell::Bash => "bash",
            Shell::Powershell => "powershell",
        }
    }

    /// Interpreter-specific self-cleanup hook, prepended to the user
    /// source (see the module docs for why it comes first).
    pub fn cleanup_hook(&self) -> (hook: &'static str)
        ensures
            hook@ == self.hook(),
    {
        match self {
            // sh/bash: an EXIT trap deletes the script file ($0).
            Shell::Sh | Shell::Bash => "\ntrap 'rm -f -- \"$0\"' EXIT;\n",
            // PowerShell parses the whole file before running, so deleting
            // itself on the first line is safe and fires on early `exit`.
            Shell::Powershell => "\r\nRemove-Item $MyInvocation.MyCommand.Path\r\n",
        }
    }

    /// The name as text, as [`Shell::from_str`] reads it.
    pub fn as_ref(&self) -> (name: &'static str)
        ensures
            name@ == self.name(),
    {
        self.binary()
    }

    /// The name as an owned string.
    pub fn to_text(&self) -> (name: String)
        ensures
            name@ == self.name(),
    {
        self.as_ref().to_owned()
    }

    /// The interpreter called `name`, if there is one.
    pub fn from_str(name: &str) -> (found: Result<Shell, UnknownShell>)
        ensures
            match found {
                Ok(shell) => shell.name() == name@,
                Err(_) => forall|shell: Shell| #[trigger] shell.name() != name@,
            },
    {
        let bytes: &[u8] = name.as_bytes();
        proof {
            lemma_encoding_tells_apart(name@, "sh"@);
            lemma_encoding_tells_apart(name@, "bash"@);
            lemma_encoding_tells_apart(name@, "powershell"@);
        }
        if same_bytes(bytes, "sh".as_bytes()) {
            Ok(Shell::Sh)
        } else if same_bytes(bytes, "bash".as_bytes()) {
            Ok(Shell::Bash)
        } else if same_bytes(bytes, "powershell".as_bytes()) {
            Ok(Shell::Powershell)
        } else {
            Err(UnknownShell)
        }
    }
}

/// Two texts with the same encoding are the same text.
pub proof fn lemma_encoding_tells_apart(a: Seq<char>, b: Seq<char>)
    ensures
        encode_utf8(a) == encode_utf8(b) ==> a == b,
{
    vstd::utf8::encode_utf8_decode_utf8(a);
    vstd::utf8::encode_utf8_decode_utf8(b);
}

/// What to spawn inside the pty.
///
/// All variants are exec'd directly — no shell is ever involved unless
/// you ask for one via [`Script::sh`] and friends.
#[derive(Debug, Clone)]
pub enum Script {
    /// A full command line string, tokenized on whitespace and exec'd
    /// directly. Convenient for quick commands; quoting is *not*
    /// interpreted — use [`Script::Exec`] when arguments may contain
    /// whitespace.
    Line(String),
    /// Explicit argv: `program` plus verbatim arguments.
    Exec {
        /// Executable to launch (looked up on `PATH` by the OS).
        program: OsText,
        /// Arguments passed verbatim.
        args: Vec<OsText>,
    },
    /// Script source executed through a [`Shell`] via a self-cleaning
    /// temp file.
    Shell {
        /// Interpreter to run the source with.
        shell: Shell,
        /// Script source code.
        source: String,
    },
}

/// A resolved, ready-to-spawn command; the common currency shared by the
/// platform backends after [`Script::materialize`].
#[derive(Debug)]
pub struct Resolved {
    /// Executable to launch.
    pub program: OsText,
    /// Its arguments.
    pub args: Vec<OsText>,
}

impl Resolved {
    /// Whether this is the command with that program and those arguments.
    pub open spec fn is(&self, program: Seq<u8>, args: Seq<Seq<u8>>) -> bool {
        self.program@ == program && texts(self.args@) == args
    }
}

/// A temp file that has to be written before its command can run. The file
/// is *kept*: the hook at its front deletes it after the interpreter ran.
#[derive(Debug)]
pub struct TempScript {
    /// Interpreter to launch.
    pub program: OsText,
    /// Arguments in front of the path of the file.
    pub flags: Vec<OsText>,
    /// What the name of the file has to end in.
    pub suffix: Option<&'static str>,
    /// What the file holds.
    pub contents: Vec<u8>,
}

impl TempScript {
    /// The command to run once the file stands at `path`.
    pub fn resolve(self, path: OsText) -> (command: Resolved)
        ensures
            command.is(self.program@, texts(self.flags@).push(path@)),
            command.program == self.program,
            command.args@ == self.flags@.push(path),
    {
        let ghost flags = texts(self.flags@);
        let mut args: Vec<OsText> = self.flags;
        args.push(path);
        assert(texts(args@) == flags.push(path@));
        Resolved { program: self.program, args }
    }
}

/// A script made ready for a backend.
#[derive(Debug)]
pub enum Materialized {
    /// The command can run as it is.
    Ready(Resolved),
    /// A temp file comes first; [`TempScript::resolve`] gives the command.
    Temp(TempScript),
}

/// The bytes of `hook` followed by those of `source`.
pub fn hook_then_source(hook: &str, source: &str) -> (contents: Vec<u8>)
    ensures
        contents@ == encode_utf8(hook@) + encode_utf8(source@),
{
    let mut contents: Vec<u8> = vstd::slice::slice_to_vec(hook.as_bytes());
    contents.extend_from_slice(source.as_bytes());
    assert(contents@ == encode_utf8(hook@) + encode_utf8(source@));
    contents
}

impl Script {
    /// Tokenize `line` on whitespace and exec it directly.
    pub fn line(line: &str) -> (script: Script)
        ensures
            script matches Script::Line(l) && l@ == line@,
    {
        Script::Line(line.to_owned())
    }

    /// Exec `program` with verbatim `args` (no shell, no re-tokenization).
    pub fn exec(program: OsText, args: Vec<OsText>) -> (script: Script)
        ensures
            script == (Script::Exec { program, args }),
    {
        Script::Exec { program, args }
    }

    /// Run `source` through POSIX `sh` via a self-cleaning temp file.
    pub fn sh(source: &str) -> (script: Script)
        ensures
            script matches Script::Shell { shell: Shell::Sh, source: s } && s@ == source@,
    {
        Script::Shell { shell: Shell::Sh, source: source.to_owned() }
    }

    /// Run `source` through `bash` via a self-cleaning temp file.
    pub fn bash(source: &str) -> (script: Script)
        ensures
            script matches Script::Shell { shell: Shell::Bash, source: s } && s@ == source@,
    {
        Script::Shell { shell: Shell::Bash, source: source.to_owned() }
    }

    /// Run `source` through PowerShell via a self-cleaning `.ps1` temp file.
    pub fn powershell(source: &str) -> (script: Script)
        ensures
            script matches Script::Shell { shell: Shell::Powershell, source: s } && s@ == source@,
    {
        Script::Shell { shell: Shell::Powershell, source: source.to_owned() }
    }

    /// What [`Script::materialize`] makes of a script.
    pub open spec fn materializes_to(&self, result: Result<Materialized, IoError>) -> bool {
        match self {
            Script::Line(line) => {
                let found = encoded(words(line@));
                if found.len() == 0 {
                    &&& result matches Err(e)
                    &&& e.kind == ErrorKind::InvalidInput
                    &&& e.message@ == "empty command line"@
                } else {
                    &&& result matches Ok(Materialized::Ready(command))
                    &&& command.is(found[0], found.skip(1))
                }
            },
            Script::Exec { program, args } => {
                &&& result matches Ok(Materialized::Ready(command))
                &&& command == (Resolved { program: *program, args: *args })
            },
            Script::Shell { shell, source } => {
                &&& result matches Ok(Materialized::Temp(file))
                &&& file.program@ == encode_utf8(shell.name())
                &&& texts(file.flags@) == shell_flags(*shell)
                &&& match (file.suffix, shell_suffix(*shell)) {
                    (Some(suffix), Some(wanted)) => suffix@ == wanted,
                    (None, None) => true,
                    _ => false,
                }
                &&& file.contents@ == encode_utf8(shell.hook()) + encode_utf8(source@)
            },
        }
    }

    /// Resolve the script into a flat `(program, args)` pair, or into the
    /// temp file that has to be written first.
    ///
    /// This is the single place where scripts are resolved, so both platform
    /// backends see the exact same behavior.
    pub fn materialize(self) -> (result: Result<Materialized, IoError>)
        ensures
            self.materializes_to(result),
    {
        match self {
            Script::Line(line) => {
                let mut found: Vec<OsText> = split_words(line.as_str());
                if found.is_empty() {
                    assert(texts(found@).len() == 0);
                    return Err(IoError::new(ErrorKind::InvalidInput, "empty command line"));
                }
                let ghost list = texts(found@);
                let program: OsText = found.remove(0);
                assert(texts(found@) == list.skip(1));
                Ok(Materialized::Ready(Resolved { program, args: found }))
            },
            Script::Exec { program, args } => Ok(Materialized::Ready(Resolved { program, args })),
            Script::Shell { shell, source } => {
                // Cleanup hook FIRST, user source after: the hook must be
                // installed before the script can possibly `exit`.
                let contents: Vec<u8> = hook_then_source(shell.cleanup_hook(), source.as_str());
                let mut flags: Vec<OsText> = Vec::new();
                let suffix: Option<&'static str> = match shell {
                    Shell::Sh | Shell::Bash => None,
                    Shell::Powershell => {
                        flags.push(OsText::from("-File"));
                        Some(".ps1")
                    },
                };
                assert(texts(flags@) == shell_flags(shell));
                Ok(
                    Materialized::Temp(
                        TempScript {
                            program: OsText::from(shell.binary()),
                            flags,
                            suffix,
                            contents,
                        },
                    ),
                )
            },
        }
    }
}

/// What stands between an interpreter and the path of its script.
pub open spec fn shell_flags(shell: Shell) -> Seq<Seq<u8>> {
    match shell {
        Shell::Sh | Shell::Bash => Seq::empty(),
        Shell::Powershell => seq![encode_utf8("-File"@)],
    }
}

/// What the name of a script file has to end in.
pub open spec fn shell_suffix(shell: Shell) -> Option<Seq<char>> {
    match shell {
        Shell::Sh | Shell::Bash => None,
        Shell::Powershell => Some(".ps1"@),
    }
}

impl From<&str> for Script {
    fn from(line: &str) -> (script: Script)
        ensures
            script matches Script::Line(l) && l@ == line@,
    {
        Script::line(line)
    }
}

impl vstd::std_specs::convert::FromSpecImpl<&str> for Script {
    open spec fn obeys_from_spec() -> bool {
        false
    }

    open spec fn from_spec(line: &str) -> Script {
        arbitrary()
    }
}

impl From<String> for Script {
    fn from(line: String) -> (script: Script)
        ensures
            script == Script::Line(line),
    {
        Script::Line(line)
    }
}

impl vstd::std_specs::convert::FromSpecImpl<String> for Script {
    open spec fn obeys_from_spec() -> bool {
        true
    }

    open spec fn from_spec(line: String) -> Script {
        Script::Line(line)
    }
}

impl From<&[&str]> for Script {
    /// The command with the first text as its program and the others as its
    /// arguments. Without any text the command line is empty, which
    /// [`Script::materialize`] reports.
    fn from(argv: &[&str]) -> (script: Script)
        ensures
            argv@.len() == 0 ==> (script matches Script::Line(l) && l@.len() == 0),
            argv@.len() > 0 ==> {
                &&& script matches Script::Exec { program, args }
                &&& program@ == encode_utf8(argv@[0]@)
                &&& texts(args@) == argv@.skip(1).map_values(|a: &str| encode_utf8(a@))
                &&& args@.len() == argv@.len() - 1
                &&& forall|i: int|
                    0 <= i < args@.len() ==> (#[trigger] args@[i])@ == encode_utf8(argv@[i + 1]@)
            },
    {
        if argv.len() == 0 {
            return Script::Line(String::new());
        }
        let ghost wanted = argv@.skip(1).map_values(|a: &str| encode_utf8(a@));
        let program: OsText = OsText::from(argv[0]);
        let mut args: Vec<OsText> = Vec::new();
        let mut i: usize = 1;
        while i < argv.len()
            invariant
                1 <= i <= argv.len(),
                wanted == argv@.skip(1).map_values(|a: &str| encode_utf8(a@)),
                texts(args@) == wanted.take(i - 1),
            decreases argv.len() - i,
        {
            let ghost before = texts(args@);
            args.push(OsText::from(argv[i]));
            assert(texts(args@) == before.push(encode_utf8(argv@[i as int]@)));
            assert(wanted[i - 1] == encode_utf8(argv@[i as int]@));
            assert(wanted.take(i as int) == wanted.take(i - 1).push(wanted[i - 1]));
            i += 1;
        }
        assert(wanted.take(wanted.len() as int) == wanted);
        assert(texts(args@).len() == args@.len());
        assert forall|i: int| 0 <= i < args@.len() implies (#[trigger] args@[i])@ == encode_utf8(
            argv@[i + 1]@,
        ) by {
            assert(texts(args@)[i] == wanted[i]);
            assert(argv@.skip(1)[i] == argv@[i + 1]);
        }
        Script::Exec { program, args }
    }
}

impl vstd::std_specs::convert::FromSpecImpl<&[&str]> for Script {
    open spec fn obeys_from_spec() -> bool {
        false
    }

    open spec fn from_spec(argv: &[&str]) -> Script {
        arbitrary()
    }
}

// ---------------------------------------------------------------------
// Laws
// ---------------------------------------------------------------------
/// The cleanup hook is installed before the user source: a script file starts
/// with the whole hook of its interpreter, and the source follows it
/// unchanged, so that an early `exit` in it cannot leak the file.
pub proof fn law_hook_comes_first(
    shell: Shell,
    source: String,
    result: Result<Materialized, IoError>,
)
    requires
        (Script::Shell { shell, source }).materializes_to(result),
    ensures
        result matches Ok(Materialized::Temp(file)) && {
            let hook = encode_utf8(shell.hook());
            &&& hook.len() <= file.contents@.len()
            &&& file.contents@.take(hook.len() as int) == hook
            &&& file.contents@.skip(hook.len() as int) == encode_utf8(source@)
        },
{
    let hook = encode_utf8(shell.hook());
    let whole = hook + encode_utf8(source@);
    assert(whole.take(hook.len() as int) == hook);
    assert(whole.skip(hook.len() as int) == encode_utf8(source@));
}

/// No two interpreters share a name, so [`Shell::from_str`] gives back the
/// interpreter whose name it is handed.
pub proof fn law_names_tell_shells_apart(a: Shell, b: Shell)
    ensures
        a.name() == b.name() ==> a == b,
{
    reveal_strlit("sh");
    reveal_strlit("bash");
    reveal_strlit("powershell");
    assert("sh"@.len() == 2 && "bash"@.len() == 4 && "powershell"@.len() == 10);
}

/// No shell is involved unless one is asked for: a command line and an
/// explicit argv are never turned into a script file.
pub proof fn law_no_shell_unless_asked(script: Script, result: Result<Materialized, IoError>)
    requires
        script.materializes_to(result),
    ensures
        (result matches Ok(Materialized::Temp(_))) <==> script is Shell,
{
}

/// A command line is refused if and only if it holds nothing but white space.
pub proof fn law_blank_line_is_refused(line: String, result: Result<Materialized, IoError>)
    requires
        Script::Line(line).materializes_to(result),
    ensures
        result is Err <==> forall|i: int| 0 <= i < line@.len() ==> white_space(#[trigger] line@[i]),
{
    lemma_no_words(line@);
}

/// A line has no words if and only if it holds nothing but white space.
proof fn lemma_no_words(line: Seq<char>)
    ensures
        words(line).len() == 0 <==> forall|i: int|
            0 <= i < line.len() ==> white_space(#[trigger] line[i]),
    decreases line.len(),
{
    if line.len() > 0 && white_space(line[0]) {
        let rest = line.skip(1);
        lemma_no_words(rest);
        if words(line).len() == 0 {
            assert forall|i: int| 0 <= i < line.len() implies white_space(#[trigger] line[i]) by {
                if i > 0 {
                    assert(rest[i - 1] == line[i]);
                }
            }
        } else {
            let i = choose|i: int| 0 <= i < rest.len() && !white_space(#[trigger] rest[i]);
            assert(!white_space(line[i + 1]));
        }
    } else if line.len() > 0 {
        assert(!white_space(line[0]));
        assert(words(line).len() > 0);
    }
}

/// A command line that is not blank becomes its words: the first is the
/// program, and every other one is an argument, in order.
pub proof fn law_line_becomes_its_words(line: String, result: Result<Materialized, IoError>)
    requires
        Script::Line(line).materializes_to(result),
        words(line@).len() > 0,
    ensures
        result matches Ok(Materialized::Ready(command)) && {
            &&& command.program@ == encode_utf8(words(line@)[0])
            &&& command.args@.len() == words(line@).len() - 1
            &&& forall|i: int|
                0 <= i < command.args@.len() ==> (#[trigger] command.args@[i])@ == encode_utf8(
                    words(line@)[i + 1],
                )
        },
{
    let found = encoded(words(line@));
    let command = result->Ok_0->Ready_0;
    assert(texts(command.args@).len() == command.args@.len());
    assert forall|i: int| 0 <= i < command.args@.len() implies (#[trigger] command.args@[i])@
        == encode_utf8(words(line@)[i + 1]) by {
        assert(texts(command.args@)[i] == found.skip(1)[i]);
    }
}

/// A command line without any word is an invalid input with its own message.
pub proof fn law_blank_line_is_invalid_input(line: String, result: Result<Materialized, IoError>)
    requires
        Script::Line(line).materializes_to(result),
        forall|i: int| 0 <= i < line@.len() ==> white_space(#[trigger] line@[i]),
    ensures
        result matches Err(e) && e.kind == ErrorKind::InvalidInput && e.message@
            == "empty command line"@,
{
    lemma_no_words(line@);
}

/// An explicit argv is passed on verbatim: the very program and the very
/// arguments.
pub proof fn law_argv_is_verbatim(
    program: OsText,
    args: Vec<OsText>,
    result: Result<Materialized, IoError>,
)
    requires
        (Script::Exec { program, args }).materializes_to(result),
    ensures
        result matches Ok(Materialized::Ready(command)) && command.program == program
            && command.args == args,
{
}

/// A script file is run by its own interpreter. Only PowerShell needs a flag
/// in front of the file and an ending of its name.
pub proof fn law_script_runs_with_its_shell(
    shell: Shell,
    source: String,
    result: Result<Materialized, IoError>,
)
    requires
        (Script::Shell { shell, source }).materializes_to(result),
    ensures
        result matches Ok(Materialized::Temp(file)) && {
            &&& shell is Sh ==> file.program@ == encode_utf8("sh"@)
            &&& shell is Bash ==> file.program@ == encode_utf8("bash"@)
            &&& shell is Powershell ==> {
                &&& file.program@ == encode_utf8("powershell"@)
                &&& file.flags@.len() == 1
                &&& file.flags@[0]@ == encode_utf8("-File"@)
                &&& file.suffix matches Some(suffix) && suffix@ == ".ps1"@
            }
            &&& !(shell is Powershell) ==> file.flags@.len() == 0 && file.suffix is None
        },
{
    let file = result->Ok_0->Temp_0;
    assert(texts(file.flags@).len() == file.flags@.len());
    if shell is Powershell {
        assert(texts(file.flags@)[0] == encode_utf8("-File"@));
    }
}

} // verus!
