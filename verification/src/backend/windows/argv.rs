//! The command line handed to `CreateProcessW`.
//!
//! Windows passes a child one string, and the child's C runtime splits it
//! into arguments again. [`quote_arg`] writes an argument so that this
//! splitting gives it back unchanged, and [`command_line`] assembles the
//! program path and the quoted arguments into one NUL-terminated buffer.
//! The splitting itself is stated here as [`split_line`], and
//! [`law_command_line_splits_back`] relates the two.

use vstd::prelude::*;

verus! {

/// Horizontal tab, as a UTF-16 unit.
pub const TAB: u16 = 0x09;

/// Space, as a UTF-16 unit.
pub const SPACE: u16 = 0x20;

/// Double quote, as a UTF-16 unit.
pub const QUOTE: u16 = 0x22;

/// Backslash, as a UTF-16 unit.
pub const BACKSLASH: u16 = 0x5c;

/// The unit that ends a command line.
pub const NUL: u16 = 0;

// ---------------------------------------------------------------------
// How a child splits its command line
// ---------------------------------------------------------------------
/// What separates two arguments outside quotes.
pub open spec fn is_blank(unit: u16) -> bool {
    unit == SPACE || unit == TAB
}

/// `n` backslashes.
pub open spec fn backslashes(n: nat) -> Seq<u16> {
    Seq::new(n, |i: int| BACKSLASH)
}

/// Reads the rest of one argument by the standard argv rules, and returns
/// the argument with what follows it.
///
/// `slashes` backslashes have been read and not decided yet, `quoted` says
/// whether a double quote is open, and `arg` is the argument so far.
/// - `2n` backslashes before a quote stand for `n`, and the quote opens or
///   closes a quoted part;
/// - `2n + 1` backslashes before a quote stand for `n` and a literal quote;
/// - any other backslash stands for itself;
/// - inside a quoted part two quotes in a row stand for one literal quote;
/// - a blank outside a quoted part ends the argument.
pub open spec fn read_arg(text: Seq<u16>, slashes: nat, quoted: bool, arg: Seq<u16>) -> (
    Seq<u16>,
    Seq<u16>,
)
    decreases text.len(),
{
    if text.len() == 0 {
        (arg + backslashes(slashes), text)
    } else if text[0] == BACKSLASH {
        read_arg(text.skip(1), slashes + 1, quoted, arg)
    } else if text[0] == QUOTE {
        let halved = arg + backslashes(slashes / 2);
        if slashes % 2 == 1 {
            read_arg(text.skip(1), 0, quoted, halved.push(QUOTE))
        } else if quoted && text.len() > 1 && text[1] == QUOTE {
            read_arg(text.skip(2), 0, true, halved.push(QUOTE))
        } else {
            read_arg(text.skip(1), 0, !quoted, halved)
        }
    } else if is_blank(text[0]) && !quoted {
        (arg + backslashes(slashes), text)
    } else {
        read_arg(text.skip(1), 0, quoted, (arg + backslashes(slashes)).push(text[0]))
    }
}

/// The arguments in `text`: blanks are skipped, then one argument is read,
/// until nothing is left.
pub open spec fn split_args(text: Seq<u16>) -> Seq<Seq<u16>>
    decreases text.len(),
{
    if text.len() == 0 {
        Seq::empty()
    } else if is_blank(text[0]) {
        split_args(text.skip(1))
    } else {
        let (arg, rest) = read_arg(text, 0, false, Seq::empty());
        if rest.len() < text.len() {
            seq![arg] + split_args(rest)
        } else {
            seq![arg]
        }
    }
}

/// Length of the leading part of `text` that holds no quote (`quoted`), or
/// no blank.
pub open spec fn program_len(text: Seq<u16>, quoted: bool) -> nat
    decreases text.len(),
{
    if text.len() == 0 || (if quoted {
        text[0] == QUOTE
    } else {
        is_blank(text[0])
    }) {
        0
    } else {
        1 + program_len(text.skip(1), quoted)
    }
}

/// The part of `buffer` before its first NUL: what a C string reader sees.
pub open spec fn c_string(buffer: Seq<u16>) -> Seq<u16>
    decreases buffer.len(),
{
    if buffer.len() == 0 || buffer[0] == NUL {
        Seq::empty()
    } else {
        seq![buffer[0]] + c_string(buffer.skip(1))
    }
}

/// The program name at the front of a command line, with what follows it: a
/// name that starts with a quote goes to the next quote, any other to the
/// first blank. Backslashes in it stand for themselves.
pub open spec fn read_program(text: Seq<u16>) -> (Seq<u16>, Seq<u16>) {
    if text.len() > 0 && text[0] == QUOTE {
        let name = text.skip(1);
        let n = program_len(name, true) as int;
        (name.take(n), name.skip(n + 1))
    } else {
        let n = program_len(text, false) as int;
        (text.take(n), text.skip(n))
    }
}

/// The argument vector that a child finds in its command line.
pub open spec fn split_line(line: Seq<u16>) -> Seq<Seq<u16>> {
    let (program, rest) = read_program(c_string(line));
    seq![program] + split_args(rest)
}

// ---------------------------------------------------------------------
// How an argument is written
// ---------------------------------------------------------------------
/// Whether `arg` has to stand in double quotes: it is empty, or it holds a
/// blank or a quote.
pub open spec fn needs_quotes(arg: Seq<u16>) -> bool {
    arg.len() == 0 || exists|i: int| 0 <= i < arg.len() && (is_blank(arg[i]) || arg[i] == QUOTE)
}

/// What follows between the quotes for the rest of an argument, where `n`
/// backslashes have just been copied: a quote gets `n + 1` more in front,
/// so that `2n + 1` stand before it, and at the end `n` more follow.
pub open spec fn escaped(rest: Seq<u16>, n: nat) -> Seq<u16>
    decreases rest.len(),
{
    if rest.len() == 0 {
        backslashes(n)
    } else if rest[0] == BACKSLASH {
        seq![BACKSLASH] + escaped(rest.skip(1), n + 1)
    } else if rest[0] == QUOTE {
        backslashes(n + 1) + seq![QUOTE] + escaped(rest.skip(1), 0)
    } else {
        seq![rest[0]] + escaped(rest.skip(1), 0)
    }
}

/// One argument as it stands on the command line.
pub open spec fn quoted_arg(arg: Seq<u16>) -> Seq<u16> {
    if needs_quotes(arg) {
        seq![QUOTE] + escaped(arg, 0) + seq![QUOTE]
    } else {
        arg
    }
}

/// The program path as it stands on the command line: in quotes if it holds
/// a blank.
pub open spec fn quoted_program(program: Seq<u16>) -> Seq<u16> {
    if exists|i: int| 0 <= i < program.len() && is_blank(#[trigger] program[i]) {
        seq![QUOTE] + program + seq![QUOTE]
    } else {
        program
    }
}

/// The arguments as they follow the program: a space before each.
pub open spec fn args_tail(args: Seq<Seq<u16>>) -> Seq<u16>
    decreases args.len(),
{
    if args.len() == 0 {
        Seq::empty()
    } else {
        args_tail(args.drop_last()) + seq![SPACE] + quoted_arg(args.last())
    }
}

/// The whole command line: program, arguments, NUL.
pub open spec fn line_units(program: Seq<u16>, args: Seq<Seq<u16>>) -> Seq<u16> {
    quoted_program(program) + args_tail(args) + seq![NUL]
}

/// Appends `n` backslashes to `out`.
fn push_backslashes(out: &mut Vec<u16>, n: usize)
    ensures
        final(out)@ == old(out)@ + backslashes(n as nat),
{
    let mut i: usize = 0;
    while i < n
        invariant
            i <= n,
            out@ == old(out)@ + backslashes(i as nat),
        decreases n - i,
    {
        out.push(BACKSLASH);
        i += 1;
    }
}

/// Quotes one argument with the standard Windows argv escaping rules:
/// backslashes before a quote are doubled, embedded quotes are escaped, and
/// an argument that is empty or holds a blank or a quote is wrapped in
/// double quotes. Any other argument stays as it is.
pub fn quote_arg(arg: &[u16]) -> (out: Vec<u16>)
    ensures
        out@ == quoted_arg(arg@),
{
    let mut quotes: bool = arg.len() == 0;
    let mut i: usize = 0;
    while i < arg.len()
        invariant
            i <= arg.len(),
            quotes == (arg@.len() == 0 || exists|k: int|
                0 <= k < i && (is_blank(arg@[k]) || arg@[k] == QUOTE)),
        decreases arg.len() - i,
    {
        let unit: u16 = arg[i];
        if unit == SPACE || unit == TAB || unit == QUOTE {
            quotes = true;
            assert(is_blank(arg@[i as int]) || arg@[i as int] == QUOTE);
        }
        i += 1;
    }
    if !quotes {
        return vstd::slice::slice_to_vec(arg);
    }
    let mut out: Vec<u16> = Vec::new();
    out.push(QUOTE);
    let mut slashes: usize = 0;
    let mut j: usize = 0;
    assert(arg@.skip(0) == arg@);
    while j < arg.len()
        invariant
            j <= arg.len(),
            slashes <= j,
            out@ + escaped(arg@.skip(j as int), slashes as nat) == seq![QUOTE] + escaped(arg@, 0),
        decreases arg.len() - j,
    {
        let ghost rest = arg@.skip(j as int);
        assert(rest.skip(1) == arg@.skip(j + 1));
        let ghost before = out@;
        let unit: u16 = arg[j];
        if unit == BACKSLASH {
            slashes += 1;
            out.push(unit);
            assert(out@ + escaped(rest.skip(1), slashes as nat) == before + (seq![BACKSLASH]
                + escaped(rest.skip(1), slashes as nat)));
        } else if unit == QUOTE {
            push_backslashes(&mut out, slashes + 1);
            out.push(unit);
            assert(out@ + escaped(rest.skip(1), 0) == before + (backslashes((slashes + 1) as nat)
                + seq![QUOTE] + escaped(rest.skip(1), 0)));
            slashes = 0;
        } else {
            slashes = 0;
            out.push(unit);
            assert(out@ + escaped(rest.skip(1), 0) == before + (seq![unit] + escaped(
                rest.skip(1),
                0,
            )));
        }
        j += 1;
    }
    push_backslashes(&mut out, slashes);
    out.push(QUOTE);
    out
}

/// `units` followed by a NUL, as Win32 calls take strings.
pub fn nul_terminated(units: &[u16]) -> (out: Vec<u16>)
    ensures
        out@ == units@.push(NUL),
{
    let mut out: Vec<u16> = vstd::slice::slice_to_vec(units);
    out.push(NUL);
    out
}

/// The absolute path that `SearchPathW` found: it wrote the path into `buf`
/// and returned its length `len`, without the NUL behind it. A length of 0
/// means that there is no such program. A length beyond the buffer is the
/// size that the path needs: nothing was written, so there is no path.
pub fn found_program(len: u32, buf: Vec<u16>) -> (path: Option<Vec<u16>>)
    ensures
        path is None <==> len == 0 || len > buf@.len(),
        path matches Some(units) ==> units@ == buf@.take(len as int),
{
    if len == 0 || len as usize > buf.len() {
        return None;
    }
    let mut path: Vec<u16> = buf;
    path.truncate(len as usize);
    Some(path)
}

/// Puts a program path in quotes if it holds a blank. A path holds no
/// quotes, and the reader of a command line takes the backslashes of the
/// program name literally, so nothing in it is escaped.
pub fn quote_program(program: &[u16]) -> (out: Vec<u16>)
    ensures
        out@ == quoted_program(program@),
{
    let mut blank: bool = false;
    let mut i: usize = 0;
    while i < program.len()
        invariant
            i <= program.len(),
            blank == exists|k: int| 0 <= k < i && is_blank(#[trigger] program@[k]),
        decreases program.len() - i,
    {
        if program[i] == SPACE || program[i] == TAB {
            blank = true;
            assert(is_blank(program@[i as int]));
        }
        i += 1;
    }
    if !blank {
        return vstd::slice::slice_to_vec(program);
    }
    let mut name: Vec<u16> = vstd::slice::slice_to_vec(program);
    let mut out: Vec<u16> = Vec::new();
    out.push(QUOTE);
    out.append(&mut name);
    out.push(QUOTE);
    out
}

/// Joins the resolved program path and the quoted arguments, separated by
/// spaces and ended by a NUL, as `CreateProcessW` takes them.
pub fn command_line(program: &[u16], args: &[Vec<u16>]) -> (line: Vec<u16>)
    ensures
        line@ == line_units(program@, args@.map_values(|a: Vec<u16>| a@)),
{
    let ghost units = args@.map_values(|a: Vec<u16>| a@);
    let mut line: Vec<u16> = quote_program(program);
    let mut i: usize = 0;
    assert(units.take(0) == Seq::<Seq<u16>>::empty());
    while i < args.len()
        invariant
            i <= args.len(),
            units == args@.map_values(|a: Vec<u16>| a@),
            line@ == quoted_program(program@) + args_tail(units.take(i as int)),
        decreases args.len() - i,
    {
        let mut quoted: Vec<u16> = quote_arg(args[i].as_slice());
        line.push(SPACE);
        line.append(&mut quoted);
        assert(units.take(i + 1).drop_last() == units.take(i as int));
        i += 1;
    }
    assert(units.take(units.len() as int) == units);
    line.push(NUL);
    line
}

// ---------------------------------------------------------------------
// Laws
// ---------------------------------------------------------------------
/// Reading `n` backslashes adds `n` to the undecided ones.
proof fn lemma_read_backslashes(n: nat, tail: Seq<u16>, slashes: nat, quoted: bool, arg: Seq<u16>)
    ensures
        read_arg(backslashes(n) + tail, slashes, quoted, arg) == read_arg(
            tail,
            slashes + n,
            quoted,
            arg,
        ),
    decreases n,
{
    if n == 0 {
        assert(backslashes(0) + tail == tail);
    } else {
        let text = backslashes(n) + tail;
        assert(text.skip(1) == backslashes((n - 1) as nat) + tail);
        lemma_read_backslashes((n - 1) as nat, tail, slashes + 1, quoted, arg);
    }
}

/// Whether a quoted argument may be followed by `tail`: nothing, or a blank.
pub open spec fn ends_arg(tail: Seq<u16>) -> bool {
    tail.len() == 0 || is_blank(tail[0])
}

/// Inside quotes, reading what [`escaped`] wrote gives the rest back.
proof fn lemma_read_escaped(rest: Seq<u16>, n: nat, tail: Seq<u16>, arg: Seq<u16>)
    requires
        ends_arg(tail),
    ensures
        read_arg(escaped(rest, n) + seq![QUOTE] + tail, n, true, arg) == (
            arg + backslashes(n) + rest,
            tail,
        ),
    decreases rest.len(),
{
    let text = escaped(rest, n) + seq![QUOTE] + tail;
    if rest.len() == 0 {
        let close = seq![QUOTE] + tail;
        assert(text == backslashes(n) + close);
        lemma_read_backslashes(n, close, n, true, arg);
        assert(close.skip(1) == tail);
        assert(tail.len() > 0 ==> close[1] == tail[0]);
        assert((n + n) / 2 == n);
        assert((n + n) % 2 == 0);
        let halved = arg + backslashes(n);
        assert(read_arg(close, n + n, true, arg) == read_arg(tail, 0, false, halved));
        assert(halved + backslashes(0) == arg + backslashes(n) + rest);
    } else if rest[0] == BACKSLASH {
        lemma_read_escaped(rest.skip(1), n + 1, tail, arg);
        assert(text.skip(1) == escaped(rest.skip(1), n + 1) + seq![QUOTE] + tail);
        assert(arg + backslashes(n + 1) + rest.skip(1) == arg + backslashes(n) + rest);
    } else if rest[0] == QUOTE {
        let after = escaped(rest.skip(1), 0) + seq![QUOTE] + tail;
        let from_quote = seq![QUOTE] + after;
        assert(text == backslashes(n + 1) + from_quote);
        lemma_read_backslashes(n + 1, from_quote, n, true, arg);
        assert((n + (n + 1)) % 2 == 1);
        assert((n + (n + 1)) / 2 == n);
        assert(from_quote.skip(1) == after);
        let arg2 = (arg + backslashes(n)).push(QUOTE);
        lemma_read_escaped(rest.skip(1), 0, tail, arg2);
        assert(arg2 + backslashes(0) + rest.skip(1) == arg + backslashes(n) + rest);
    } else {
        let arg2 = (arg + backslashes(n)).push(rest[0]);
        assert(text.skip(1) == escaped(rest.skip(1), 0) + seq![QUOTE] + tail);
        lemma_read_escaped(rest.skip(1), 0, tail, arg2);
        assert(arg2 + backslashes(0) + rest.skip(1) == arg + backslashes(n) + rest);
    }
}

/// Outside quotes, text without blanks and quotes is read as it stands.
proof fn lemma_read_plain(rest: Seq<u16>, slashes: nat, tail: Seq<u16>, arg: Seq<u16>)
    requires
        ends_arg(tail),
        forall|i: int| 0 <= i < rest.len() ==> !is_blank(rest[i]) && rest[i] != QUOTE,
    ensures
        read_arg(rest + tail, slashes, false, arg) == (arg + backslashes(slashes) + rest, tail),
    decreases rest.len(),
{
    let text = rest + tail;
    if rest.len() == 0 {
        assert(text == tail);
        assert(arg + backslashes(slashes) + rest == arg + backslashes(slashes));
    } else if rest[0] == BACKSLASH {
        assert(text.skip(1) == rest.skip(1) + tail);
        lemma_read_plain(rest.skip(1), slashes + 1, tail, arg);
        assert(arg + backslashes(slashes + 1) + rest.skip(1) == arg + backslashes(slashes) + rest);
    } else {
        assert(text.skip(1) == rest.skip(1) + tail);
        let arg2 = (arg + backslashes(slashes)).push(rest[0]);
        lemma_read_plain(rest.skip(1), 0, tail, arg2);
        assert(arg2 + backslashes(0) + rest.skip(1) == arg + backslashes(slashes) + rest);
    }
}

/// A quoted argument reads back as the argument: whatever `arg` holds, the
/// standard argv rules, applied to its quoted form followed by nothing or by
/// a blank, give `arg` and stop right behind it.
pub proof fn law_quoted_arg_reads_back(arg: Seq<u16>, tail: Seq<u16>)
    requires
        ends_arg(tail),
    ensures
        read_arg(quoted_arg(arg) + tail, 0, false, Seq::empty()) == (arg, tail),
{
    let none = Seq::<u16>::empty();
    if needs_quotes(arg) {
        let text = quoted_arg(arg) + tail;
        let inner = escaped(arg, 0) + seq![QUOTE] + tail;
        assert(text.skip(1) == inner);
        assert(none + backslashes(0) == none);
        lemma_read_escaped(arg, 0, tail, none);
        assert(none + backslashes(0) + arg == arg);
    } else {
        lemma_read_plain(arg, 0, tail, none);
        assert(none + backslashes(0) + arg == arg);
    }
}

/// [`args_tail`], taken from the front.
proof fn lemma_args_tail_front(args: Seq<Seq<u16>>)
    requires
        args.len() > 0,
    ensures
        args_tail(args) == seq![SPACE] + quoted_arg(args[0]) + args_tail(args.skip(1)),
    decreases args.len(),
{
    if args.len() == 1 {
        assert(args.drop_last() == Seq::<Seq<u16>>::empty());
        assert(args.skip(1) == Seq::<Seq<u16>>::empty());
        assert(args_tail(args) == seq![SPACE] + quoted_arg(args[0]) + args_tail(args.skip(1)));
    } else {
        lemma_args_tail_front(args.drop_last());
        assert(args.drop_last().skip(1) == args.skip(1).drop_last());
        assert(args_tail(args) == seq![SPACE] + quoted_arg(args[0]) + args_tail(args.skip(1)));
    }
}

/// The quoted arguments split back into the arguments.
proof fn lemma_split_args_tail(args: Seq<Seq<u16>>)
    ensures
        split_args(args_tail(args)) == args,
        ends_arg(args_tail(args)),
    decreases args.len(),
{
    if args.len() == 0 {
        assert(split_args(args_tail(args)) == args);
    } else {
        lemma_args_tail_front(args);
        lemma_split_args_tail(args.skip(1));
        let rest = args_tail(args.skip(1));
        let text = quoted_arg(args[0]) + rest;
        assert(args_tail(args).skip(1) == text);
        assert(split_args(args_tail(args)) == split_args(text));
        law_quoted_arg_reads_back(args[0], rest);
        assert(quoted_arg(args[0]).len() > 0 && !is_blank(quoted_arg(args[0])[0]));
        assert(text[0] == quoted_arg(args[0])[0]);
        assert(split_args(text) == seq![args[0]] + split_args(rest));
        assert(seq![args[0]] + args.skip(1) == args);
    }
}

/// Escaping keeps NULs out.
proof fn lemma_escaped_without_nul(rest: Seq<u16>, n: nat)
    requires
        !rest.contains(NUL),
    ensures
        !escaped(rest, n).contains(NUL),
    decreases rest.len(),
{
    if rest.len() > 0 {
        assert(forall|i: int| 0 <= i < rest.skip(1).len() ==> rest.skip(1)[i] == rest[i + 1]);
        assert(rest[0] != NUL);
        if rest[0] == BACKSLASH {
            lemma_escaped_without_nul(rest.skip(1), n + 1);
        } else {
            lemma_escaped_without_nul(rest.skip(1), 0);
        }
    }
}

/// The quoted arguments hold no NUL if the arguments hold none.
proof fn lemma_args_tail_without_nul(args: Seq<Seq<u16>>)
    requires
        forall|i: int| 0 <= i < args.len() ==> !(#[trigger] args[i]).contains(NUL),
    ensures
        !args_tail(args).contains(NUL),
    decreases args.len(),
{
    if args.len() > 0 {
        lemma_args_tail_without_nul(args.drop_last());
        assert(!args.last().contains(NUL));
        lemma_escaped_without_nul(args.last(), 0);
    }
}

/// A buffer that ends in its only NUL holds, as a C string, all before it.
proof fn lemma_c_string(text: Seq<u16>)
    requires
        !text.contains(NUL),
    ensures
        c_string(text + seq![NUL]) == text,
    decreases text.len(),
{
    let buffer = text + seq![NUL];
    if text.len() > 0 {
        assert(text[0] != NUL);
        assert(forall|i: int| 0 <= i < text.skip(1).len() ==> text.skip(1)[i] == text[i + 1]);
        assert(buffer.skip(1) == text.skip(1) + seq![NUL]);
        lemma_c_string(text.skip(1));
        assert(seq![text[0]] + text.skip(1) == text);
    }
}

/// A program name ends where its quote or its blank stands.
proof fn lemma_program_len(program: Seq<u16>, tail: Seq<u16>, quoted: bool)
    requires
        quoted ==> tail.len() > 0 && tail[0] == QUOTE && !program.contains(QUOTE),
        !quoted ==> ends_arg(tail) && forall|i: int|
            0 <= i < program.len() ==> !is_blank(#[trigger] program[i]),
    ensures
        program_len(program + tail, quoted) == program.len(),
    decreases program.len(),
{
    let text = program + tail;
    if program.len() == 0 {
        assert(text == tail);
    } else {
        assert(text.skip(1) == program.skip(1) + tail);
        assert(forall|i: int|
            0 <= i < program.skip(1).len() ==> program.skip(1)[i] == program[i + 1]);
        assert(text[0] == program[0]);
        lemma_program_len(program.skip(1), tail, quoted);
    }
}

/// A command line splits back into what it was made of: the child finds the
/// program path as its first argument and then every argument unchanged, be
/// it empty or full of blanks, quotes and backslashes.
///
/// A path holds no quote, and since a NUL ends the line, none of the parts
/// may hold one.
pub proof fn law_command_line_splits_back(program: Seq<u16>, args: Seq<Seq<u16>>)
    requires
        !program.contains(QUOTE),
        !program.contains(NUL),
        forall|i: int| 0 <= i < args.len() ==> !(#[trigger] args[i]).contains(NUL),
    ensures
        split_line(line_units(program, args)) == seq![program] + args,
{
    let tail = args_tail(args);
    let head = quoted_program(program);
    let text = head + tail;
    lemma_args_tail_without_nul(args);
    lemma_c_string(text);
    lemma_split_args_tail(args);
    if exists|i: int| 0 <= i < program.len() && is_blank(#[trigger] program[i]) {
        let close = seq![QUOTE] + tail;
        assert(text.skip(1) == program + close);
        lemma_program_len(program, close, true);
        assert((program + close).take(program.len() as int) == program);
        assert((program + close).skip(program.len() as int + 1) == tail);
    } else {
        lemma_program_len(program, tail, false);
        assert(program.len() > 0 ==> text[0] == program[0]);
        assert(text.take(program.len() as int) == program);
        assert(text.skip(program.len() as int) == tail);
    }
}

/// Space and tab separate arguments, and nothing else does.
pub proof fn law_blanks(unit: u16)
    ensures
        is_blank(unit) <==> unit == 0x20 || unit == 0x09,
{
}

/// An argument stays as it is if and only if it holds something, and neither
/// a blank nor a quote; any other stands between two quotes.
pub proof fn law_plain_argument_stays(arg: Seq<u16>)
    ensures
        ({
            let plain = arg.len() > 0 && forall|i: int|
                0 <= i < arg.len() ==> #[trigger] arg[i] != 0x20 && arg[i] != 0x09 && arg[i]
                    != 0x22;
            let out = quoted_arg(arg);
            &&& plain ==> out == arg
            &&& !plain ==> out.len() >= 2 && out[0] == 0x22 && out[out.len() - 1] == 0x22 && out
                == seq![0x22u16] + escaped(arg, 0) + seq![0x22u16]
        }),
{
    if arg.len() > 0 && forall|i: int|
        0 <= i < arg.len() ==> #[trigger] arg[i] != 0x20 && arg[i] != 0x09 && arg[i] != 0x22 {
        assert(!needs_quotes(arg)) by {
            if exists|i: int| 0 <= i < arg.len() && (is_blank(arg[i]) || arg[i] == QUOTE) {
                let i = choose|i: int| 0 <= i < arg.len() && (is_blank(arg[i]) || arg[i] == QUOTE);
                assert(arg[i] != 0x20 && arg[i] != 0x09 && arg[i] != 0x22);
            }
        }
    } else if arg.len() > 0 {
        let i = choose|i: int|
            0 <= i < arg.len() && !(#[trigger] arg[i] != 0x20 && arg[i] != 0x09 && arg[i] != 0x22);
        assert(is_blank(arg[i]) || arg[i] == QUOTE);
    }
}

/// What ends in something else than a backslash is escaped on its own.
proof fn lemma_escaped_apart(front: Seq<u16>, rest: Seq<u16>, n: nat)
    requires
        front.len() > 0,
        front.last() != BACKSLASH,
    ensures
        escaped(front + rest, n) == escaped(front, n) + escaped(rest, 0),
    decreases front.len(),
{
    let text = front + rest;
    let tail = front.skip(1);
    assert(text[0] == front[0]);
    assert(text.skip(1) == tail + rest);
    let m = if front[0] == BACKSLASH {
        n + 1
    } else {
        0
    };
    if front.len() == 1 {
        assert(tail + rest == rest);
        assert(escaped(tail, 0) == backslashes(0));
        if front[0] == QUOTE {
            assert(backslashes(n + 1) + seq![QUOTE] + backslashes(0) + escaped(rest, 0)
                == backslashes(n + 1) + seq![QUOTE] + escaped(rest, 0));
        } else {
            assert(seq![front[0]] + backslashes(0) + escaped(rest, 0) == seq![front[0]] + escaped(
                rest,
                0,
            ));
        }
    } else {
        assert(tail.last() == front.last());
        lemma_escaped_apart(tail, rest, m);
        if front[0] == QUOTE {
            assert(backslashes(n + 1) + seq![QUOTE] + (escaped(tail, m) + escaped(rest, 0)) == (
            backslashes(n + 1) + seq![QUOTE] + escaped(tail, m)) + escaped(rest, 0));
        } else {
            assert(seq![front[0]] + (escaped(tail, m) + escaped(rest, 0)) == (seq![front[0]]
                + escaped(tail, m)) + escaped(rest, 0));
        }
    }
}

/// Copied backslashes are counted.
proof fn lemma_escaped_backslashes(k: nat, rest: Seq<u16>, n: nat)
    ensures
        escaped(backslashes(k) + rest, n) == backslashes(k) + escaped(rest, n + k),
    decreases k,
{
    let text = backslashes(k) + rest;
    if k == 0 {
        assert(text == rest);
        assert(backslashes(0) + escaped(rest, n) == escaped(rest, n));
    } else {
        let fewer = (k - 1) as nat;
        assert(text.skip(1) == backslashes(fewer) + rest);
        lemma_escaped_backslashes(fewer, rest, n + 1);
        assert(seq![BACKSLASH] + (backslashes(fewer) + escaped(rest, n + k)) == backslashes(k)
            + escaped(rest, n + k));
    }
}

/// Text without quotes that does not end in a backslash stands between the
/// quotes as it is.
proof fn lemma_escaped_plain(text: Seq<u16>, n: nat)
    requires
        forall|i: int| 0 <= i < text.len() ==> #[trigger] text[i] != QUOTE,
        text.len() > 0 ==> text.last() != BACKSLASH,
        text.len() == 0 ==> n == 0,
    ensures
        escaped(text, n) == text,
    decreases text.len(),
{
    if text.len() == 0 {
        assert(backslashes(0) == text);
    } else {
        let tail = text.skip(1);
        assert(text[0] != QUOTE);
        assert forall|i: int| 0 <= i < tail.len() implies #[trigger] tail[i] != QUOTE by {
            assert(tail[i] == text[i + 1]);
        }
        if tail.len() > 0 {
            assert(tail.last() == text.last());
        }
        if text[0] == BACKSLASH {
            lemma_escaped_plain(tail, n + 1);
        } else {
            lemma_escaped_plain(tail, 0);
        }
        assert(seq![text[0]] + tail == text);
    }
}

/// How an argument is escaped, piece by piece, where a piece `text` is empty
/// or ends in something else than a backslash:
/// - without quotes it stands as it is;
/// - `n` backslashes at the end are doubled;
/// - `n` backslashes before a quote become `2n + 1`, and what follows the
///   quote is escaped on its own.
pub proof fn law_escaping_piece_by_piece(text: Seq<u16>, n: nat, rest: Seq<u16>)
    requires
        text.len() > 0 ==> text.last() != 0x5c,
    ensures
        (forall|i: int| 0 <= i < text.len() ==> #[trigger] text[i] != 0x22) ==> escaped(text, 0)
            == text,
        escaped(text + backslashes(n), 0) == escaped(text, 0) + backslashes(n + n),
        escaped(text + backslashes(n) + seq![0x22u16] + rest, 0) == escaped(text, 0) + backslashes(
            n + n + 1,
        ) + seq![0x22u16] + escaped(rest, 0),
        backslashes(n).len() == n && forall|i: int|
            0 <= i < n ==> #[trigger] backslashes(n)[i] == 0x5c,
{
    if forall|i: int| 0 <= i < text.len() ==> #[trigger] text[i] != 0x22 {
        lemma_escaped_plain(text, 0);
    }
    let none = Seq::<u16>::empty();
    let end = backslashes(n);
    let quote = seq![QUOTE] + rest;
    lemma_escaped_backslashes(n, none, 0);
    assert(backslashes(n) + none == end);
    assert(escaped(end, 0) == backslashes(n + n)) by {
        assert(backslashes(n) + backslashes(n) == backslashes(n + n));
    }
    lemma_escaped_backslashes(n, quote, 0);
    assert(quote.skip(1) == rest);
    assert(escaped(quote, n) == backslashes(n + 1) + seq![QUOTE] + escaped(rest, 0));
    assert(escaped(end + quote, 0) == backslashes(n + n + 1) + seq![QUOTE] + escaped(rest, 0)) by {
        assert(backslashes(n) + (backslashes(n + 1) + seq![QUOTE] + escaped(rest, 0))
            == backslashes(n + n + 1) + seq![QUOTE] + escaped(rest, 0));
    }
    assert(text + backslashes(n) + seq![QUOTE] + rest == text + (end + quote));
    if text.len() > 0 {
        lemma_escaped_apart(text, end, 0);
        lemma_escaped_apart(text, end + quote, 0);
        assert(escaped(text, 0) + (backslashes(n + n + 1) + seq![QUOTE] + escaped(rest, 0))
            == escaped(text, 0) + backslashes(n + n + 1) + seq![QUOTE] + escaped(rest, 0));
    } else {
        assert(escaped(text, 0) == none);
        assert(text + end == end);
        assert(text + (end + quote) == end + quote);
        assert(none + backslashes(n + n) == backslashes(n + n));
        assert(none + backslashes(n + n + 1) + seq![QUOTE] + escaped(rest, 0) == backslashes(
            n + n + 1,
        ) + seq![QUOTE] + escaped(rest, 0));
    }
}

/// A program path stands as it is, between quotes if and only if it holds a
/// blank.
pub proof fn law_program_is_quoted_for_blanks_alone(program: Seq<u16>)
    ensures
        (exists|i: int|
            0 <= i < program.len() && (#[trigger] program[i] == 0x20 || program[i] == 0x09))
            ==> quoted_program(program) == seq![0x22u16] + program + seq![0x22u16],
        (forall|i: int|
            0 <= i < program.len() ==> #[trigger] program[i] != 0x20 && program[i] != 0x09)
            ==> quoted_program(program) == program,
{
    if exists|i: int|
        0 <= i < program.len() && (#[trigger] program[i] == 0x20 || program[i] == 0x09) {
        let i = choose|i: int|
            0 <= i < program.len() && (#[trigger] program[i] == 0x20 || program[i] == 0x09);
        assert(is_blank(program[i]));
    }
    if forall|i: int|
        0 <= i < program.len() ==> #[trigger] program[i] != 0x20 && program[i] != 0x09 {
        assert forall|i: int| 0 <= i < program.len() implies !is_blank(#[trigger] program[i]) by {
            assert(program[i] != 0x20 && program[i] != 0x09);
        }
    }
}

/// A command line grows by one space and the quoted argument, in front of the
/// NUL that ends it; without arguments it is the program and the NUL.
pub proof fn law_command_line_grows_by_its_arguments(
    program: Seq<u16>,
    args: Seq<Seq<u16>>,
    arg: Seq<u16>,
)
    ensures
        line_units(program, Seq::empty()) == quoted_program(program) + seq![0u16],
        line_units(program, args.push(arg)) == line_units(program, args).drop_last()
            + seq![0x20u16] + quoted_arg(arg) + seq![0u16],
{
    assert(args.push(arg).drop_last() == args);
    let none = Seq::<u16>::empty();
    assert(quoted_program(program) + none + seq![NUL] == quoted_program(program) + seq![NUL]);
    let before = quoted_program(program) + args_tail(args);
    assert(line_units(program, args).drop_last() == before);
    assert(quoted_program(program) + (args_tail(args) + seq![SPACE] + quoted_arg(arg)) + seq![NUL]
        == before + seq![SPACE] + quoted_arg(arg) + seq![NUL]);
}

} // verus!
