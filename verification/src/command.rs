//! Borrowed command descriptions.
//!
//! [`Script`] here borrows its texts and is turned into a command in one
//! step, [`Script::into_command`]; [`ScriptExecutor`] selects the
//! interpreter. A script file starts with the cleanup hook, as everywhere in
//! the library.

use vstd::prelude::*;
use vstd::utf8::encode_utf8;

use crate::os_text::{same_bytes, texts, OsText};
use crate::script::{lemma_encoding_tells_apart, Materialized, Resolved, TempScript, UnknownShell};
use crate::words::{encoded, split_words, words};

verus! {

/// The three handles of one spawned pty session.
pub struct BoxedPty<C, W, R> {
    /// Lifecycle control.
    pub ctl: C,
    /// Input / resize side.
    pub writer: W,
    /// Output side.
    pub reader: R,
}

impl<C, W, R> BoxedPty<C, W, R> {
    /// Bundle three handles.
    pub fn new(ctl: C, writer: W, reader: R) -> (pty: Self)
        ensures
            pty == (BoxedPty { ctl, writer, reader }),
    {
        BoxedPty { ctl, writer, reader }
    }

    /// Consume the bundle and return the three handles separately.
    pub fn destruct(self) -> (handles: (C, W, R))
        ensures
            handles == (self.ctl, self.writer, self.reader),
    {
        (self.ctl, self.writer, self.reader)
    }
}

/// Interpreter used to run [`Script::Script`] payloads.
#[derive(Debug, Clone, Copy, PartialEq, Eq, Structural)]
pub enum ScriptExecutor {
    /// POSIX `sh`.
    Sh,
    /// `bash`.
    Bash,
    /// Windows PowerShell.
    Powershell,
}

impl ScriptExecutor {
    /// The name of the interpreter.
    pub open spec fn name(&self) -> Seq<char> {
        match self {
            ScriptExecutor::Sh => "sh"@,
            ScriptExecutor::Bash => "bash"@,
            ScriptExecutor::Powershell => "powershell"@,
        }
    }

    /// The line that makes the interpreter delete the script file.
    pub open spec fn hook(&self) -> Seq<char> {
        match self {
            ScriptExecutor::Sh | ScriptExecutor::Bash => "\ntrap 'rm -f -- \"$0\"' EXIT;"@,
            ScriptExecutor::Powershell => "\r\nRemove-Item $MyInvocation.MyCommand.Path"@,
        }
    }

    /// What ends a line for the interpreter.
    pub open spec fn line_end(&self) -> Seq<char> {
        match self {
            ScriptExecutor::Sh | ScriptExecutor::Bash => "\n"@,
            ScriptExecutor::Powershell => "\r\n"@,
        }
    }

    /// What the name of a script file has to end in.
    pub open spec fn file_suffix(&self) -> Option<Seq<char>> {
        match self {
            ScriptExecutor::Sh | ScriptExecutor::Bash => None,
            ScriptExecutor::Powershell => Some(".ps1"@),
        }
    }

    /// The self-cleanup hook, as bytes of the script file.
    pub fn prepare_clean(&self) -> (hook: Vec<u8>)
        ensures
            hook@ == encode_utf8(self.hook()),
    {
        let text: &'static str = match self {
            ScriptExecutor::Sh | ScriptExecutor::Bash => "\ntrap 'rm -f -- \"$0\"' EXIT;",
            ScriptExecutor::Powershell => "\r\nRemove-Item $MyInvocation.MyCommand.Path",
        };
        vstd::slice::slice_to_vec(text.as_bytes())
    }

    /// The name as text, as [`ScriptExecutor::from_str`] reads it.
    pub fn as_ref(&self) -> (name: &'static str)
        ensures
            name@ == self.name(),
    {
        match self {
            ScriptExecutor::Sh => "sh",
            ScriptExecutor::Bash => "bash",
            ScriptExecutor::Powershell => "powershell",
        }
    }

    /// The name as an owned string.
    pub fn to_text(&self) -> (name: String)
        ensures
            name@ == self.name(),
    {
        self.as_ref().to_owned()
    }

    /// The interpreter called `name`, if there is one.
    pub fn from_str(name: &str) -> (found: Result<ScriptExecutor, UnknownShell>)
        ensures
            match found {
                Ok(executor) => executor.name() == name@,
                Err(_) => forall|executor: ScriptExecutor| #[trigger] executor.name() != name@,
            },
    {
        let bytes: &[u8] = name.as_bytes();
        proof {
            lemma_encoding_tells_apart(name@, "sh"@);
            lemma_encoding_tells_apart(name@, "bash"@);
            lemma_encoding_tells_apart(name@, "powershell"@);
        }
        if same_bytes(bytes, "sh".as_bytes()) {
            Ok(ScriptExecutor::Sh)
        } else if same_bytes(bytes, "bash".as_bytes()) {
            Ok(ScriptExecutor::Bash)
        } else if same_bytes(bytes, "powershell".as_bytes()) {
            Ok(ScriptExecutor::Powershell)
        } else {
            Err(UnknownShell)
        }
    }
}

/// No two interpreters share a name, so [`ScriptExecutor::from_str`] gives back
/// the interpreter whose name it is handed.
pub proof fn law_names_tell_executors_apart(a: ScriptExecutor, b: ScriptExecutor)
    ensures
        a.name() == b.name() ==> a == b,
{
    reveal_strlit("sh");
    reveal_strlit("bash");
    reveal_strlit("powershell");
    assert("sh"@.len() == 2 && "bash"@.len() == 4 && "powershell"@.len() == 10);
}

/// What to run.
#[derive(Debug)]
pub enum Script<'a> {
    /// A full command line, tokenized on whitespace and exec'd directly.
    Whole(&'a str),
    /// A program with verbatim arguments.
    Split {
        /// Executable to launch.
        program: &'a str,
        /// Arguments passed verbatim.
        args: Vec<&'a str>,
    },
    /// Script source executed through an interpreter via a self-cleaning
    /// temp file.
    Script {
        /// Interpreter to run the source with.
        executor: ScriptExecutor,
        /// Script source code.
        input: &'a str,
    },
}

/// The UTF-8 encoding of each text.
pub open spec fn encoded_args(args: Seq<&str>) -> Seq<Seq<u8>> {
    args.map_values(|a: &str| encode_utf8(a@))
}

impl<'a> Script<'a> {
    /// Run `input` through POSIX `sh`.
    pub fn sh(input: &'a str) -> (script: Script<'a>)
        ensures
            script == (Script::Script { executor: ScriptExecutor::Sh, input }),
    {
        Script::Script { executor: ScriptExecutor::Sh, input }
    }

    /// Run `input` through PowerShell.
    pub fn powershell(input: &'a str) -> (script: Script<'a>)
        ensures
            script == (Script::Script { executor: ScriptExecutor::Powershell, input }),
    {
        Script::Script { executor: ScriptExecutor::Powershell, input }
    }

    /// Exec `program` with verbatim `args`.
    pub fn new(program: &'a str, args: Vec<&'a str>) -> (script: Script<'a>)
        ensures
            script == (Script::Split { program, args }),
    {
        Script::Split { program, args }
    }

    /// The command with the first text as its program and the others as its
    /// arguments.
    pub fn from_argv(argv: &[&'a str]) -> (script: Script<'a>)
        requires
            argv@.len() > 0,
        ensures
            script matches Script::Split { program, args } && program == argv@[0] && args@
                == argv@.skip(1),
    {
        let mut args: Vec<&'a str> = Vec::new();
        let mut i: usize = 1;
        while i < argv.len()
            invariant
                1 <= i <= argv.len(),
                args@ == argv@.subrange(1, i as int),
            decreases argv.len() - i,
        {
            args.push(argv[i]);
            i += 1;
        }
        assert(args@ == argv@.skip(1));
        Script::Split { program: argv[0], args }
    }

    /// Whether [`Script::into_command`] has a program to run: a whole command
    /// line needs a word.
    pub open spec fn has_program(&self) -> bool {
        self matches Script::Whole(line) ==> words(line@).len() > 0
    }

    /// What [`Script::into_command`] makes of a script.
    pub open spec fn becomes(&self, command: Materialized) -> bool {
        match self {
            Script::Whole(line) => {
                let found = encoded(words(line@));
                &&& command matches Materialized::Ready(resolved)
                &&& resolved.is(found[0], found.skip(1))
            },
            Script::Split { program, args } => {
                &&& command matches Materialized::Ready(resolved)
                &&& resolved.is(encode_utf8(program@), encoded_args(args@))
            },
            Script::Script { executor, input } => {
                &&& command matches Materialized::Temp(file)
                &&& file.program@ == encode_utf8(executor.name())
                &&& texts(file.flags@) == Seq::<Seq<u8>>::empty()
                &&& match (file.suffix, executor.file_suffix()) {
                    (Some(suffix), Some(wanted)) => suffix@ == wanted,
                    (None, None) => true,
                    _ => false,
                }
                &&& file.contents@ == encode_utf8(executor.hook()) + encode_utf8(
                    executor.line_end(),
                ) + encode_utf8(input@)
            },
        }
    }

    /// Turns the script into a command, or into the temp file that has to be
    /// written first.
    pub fn into_command(self) -> (command: Materialized)
        requires
            self.has_program(),
        ensures
            self.becomes(command),
    {
        match self {
            Script::Whole(line) => {
                let mut found: Vec<OsText> = split_words(line);
                let ghost list = texts(found@);
                assert(list.len() == words(line@).len());
                let program: OsText = found.remove(0);
                assert(texts(found@) == list.skip(1));
                Materialized::Ready(Resolved { program, args: found })
            },
            Script::Split { program, args } => {
                let ghost wanted = encoded_args(args@);
                let mut list: Vec<OsText> = Vec::new();
                let mut i: usize = 0;
                while i < args.len()
                    invariant
                        i <= args.len(),
                        wanted == encoded_args(args@),
                        texts(list@) == wanted.take(i as int),
                    decreases args.len() - i,
                {
                    let ghost before = texts(list@);
                    list.push(OsText::from(args[i]));
                    assert(texts(list@) == before.push(wanted[i as int]));
                    assert(wanted.take(i + 1) == wanted.take(i as int).push(wanted[i as int]));
                    i += 1;
                }
                assert(wanted.take(wanted.len() as int) == wanted);
                Materialized::Ready(Resolved { program: OsText::from(program), args: list })
            },
            Script::Script { executor, input } => {
                // The hook comes first, on a line of its own: it must be
                // installed before the script can possibly `exit`.
                let line_end: &'static str = match executor {
                    ScriptExecutor::Sh | ScriptExecutor::Bash => "\n",
                    ScriptExecutor::Powershell => "\r\n",
                };
                let suffix: Option<&'static str> = match executor {
                    ScriptExecutor::Sh | ScriptExecutor::Bash => None,
                    ScriptExecutor::Powershell => Some(".ps1"),
                };
                let mut contents: Vec<u8> = executor.prepare_clean();
                contents.extend_from_slice(line_end.as_bytes());
                contents.extend_from_slice(input.as_bytes());
                assert(contents@ == encode_utf8(executor.hook()) + encode_utf8(executor.line_end())
                    + encode_utf8(input@));
                let flags: Vec<OsText> = Vec::new();
                assert(texts(flags@) == Seq::<Seq<u8>>::empty());
                Materialized::Temp(
                    TempScript {
                        program: OsText::from(executor.as_ref()),
                        flags,
                        suffix,
                        contents,
                    },
                )
            },
        }
    }
}

/// The cleanup hook is installed before the user source: a script file starts
/// with the whole hook on a line of its own, and the source follows it
/// unchanged, so that an early `exit` in it cannot leak the file.
pub proof fn law_clean_hook_comes_first(executor: ScriptExecutor, input: &str, command: Materialized)
    requires
        (Script::Script { executor, input }).becomes(command),
    ensures
        command matches Materialized::Temp(file) && {
            let front = encode_utf8(executor.hook()) + encode_utf8(executor.line_end());
            &&& front.len() <= file.contents@.len()
            &&& file.contents@.take(front.len() as int) == front
            &&& file.contents@.skip(front.len() as int) == encode_utf8(input@)
        },
{
    let front = encode_utf8(executor.hook()) + encode_utf8(executor.line_end());
    let whole = front + encode_utf8(input@);
    assert(whole.take(front.len() as int) == front);
    assert(whole.skip(front.len() as int) == encode_utf8(input@));
}

impl<'a> From<&'a str> for Script<'a> {
    fn from(line: &'a str) -> (script: Script<'a>)
        ensures
            script == Script::Whole(line),
    {
        Script::Whole(line)
    }
}

impl<'a> vstd::std_specs::convert::FromSpecImpl<&'a str> for Script<'a> {
    open spec fn obeys_from_spec() -> bool {
        true
    }

    open spec fn from_spec(line: &'a str) -> Script<'a> {
        Script::Whole(line)
    }
}

/// A whole command line becomes its words: the first is the program, and
/// every other one is an argument, in order.
pub proof fn law_whole_line_becomes_its_words(line: &str, command: Materialized)
    requires
        Script::Whole(line).has_program(),
        Script::Whole(line).becomes(command),
    ensures
        words(line@).len() > 0,
        command matches Materialized::Ready(resolved) && {
            &&& resolved.program@ == encode_utf8(words(line@)[0])
            &&& resolved.args@.len() == words(line@).len() - 1
            &&& forall|i: int|
                0 <= i < resolved.args@.len() ==> (#[trigger] resolved.args@[i])@ == encode_utf8(
                    words(line@)[i + 1],
                )
        },
{
    let found = encoded(words(line@));
    let resolved = command->Ready_0;
    assert(texts(resolved.args@).len() == resolved.args@.len());
    assert forall|i: int| 0 <= i < resolved.args@.len() implies (#[trigger] resolved.args@[i])@
        == encode_utf8(words(line@)[i + 1]) by {
        assert(texts(resolved.args@)[i] == found.skip(1)[i]);
    }
}

/// Only a whole command line can lack a program, and it does so exactly when
/// it has no word.
pub proof fn law_only_a_blank_line_lacks_a_program(script: Script)
    ensures
        !script.has_program() <==> (script matches Script::Whole(line) && words(line@).len() == 0),
{
}

/// A program with arguments is passed on verbatim: every argument, in order.
pub proof fn law_split_is_verbatim(program: &str, args: Vec<&str>, command: Materialized)
    requires
        (Script::Split { program, args }).becomes(command),
    ensures
        command matches Materialized::Ready(resolved) && {
            &&& resolved.program@ == encode_utf8(program@)
            &&& resolved.args@.len() == args@.len()
            &&& forall|i: int|
                0 <= i < args@.len() ==> (#[trigger] resolved.args@[i])@ == encode_utf8(args@[i]@)
        },
{
    let resolved = command->Ready_0;
    assert(texts(resolved.args@).len() == resolved.args@.len());
    assert forall|i: int| 0 <= i < args@.len() implies (#[trigger] resolved.args@[i])@
        == encode_utf8(args@[i]@) by {
        assert(texts(resolved.args@)[i] == encoded_args(args@)[i]);
    }
}

/// A script file is run by its own interpreter with nothing but its path, and
/// only that of PowerShell needs an ending.
pub proof fn law_script_runs_with_its_executor(
    executor: ScriptExecutor,
    input: &str,
    command: Materialized,
)
    requires
        (Script::Script { executor, input }).becomes(command),
    ensures
        command matches Materialized::Temp(file) && {
            &&& executor is Sh ==> file.program@ == encode_utf8("sh"@)
            &&& executor is Bash ==> file.program@ == encode_utf8("bash"@)
            &&& executor is Powershell ==> {
                &&& file.program@ == encode_utf8("powershell"@)
                &&& file.suffix matches Some(suffix) && suffix@ == ".ps1"@
            }
            &&& !(executor is Powershell) ==> file.suffix is None
            &&& file.flags@.len() == 0
        },
{
    let file = command->Temp_0;
    assert(texts(file.flags@).len() == file.flags@.len());
}

/// `sh` and `bash` clean up in the same way.
pub proof fn law_sh_and_bash_clean_up_alike()
    ensures
        ScriptExecutor::Sh.hook() == ScriptExecutor::Bash.hook(),
        ScriptExecutor::Sh.line_end() == ScriptExecutor::Bash.line_end(),
        ScriptExecutor::Sh.line_end() == "\n"@,
        ScriptExecutor::Powershell.line_end() == "\r\n"@,
{
}

} // verus!
