//! The grammar of the shell's commands.
//!
//! A command line, split into words, names a command by the file stem of its
//! first word (so `bin/scan` and `quit.exe` name `scan` and `quit`), and then
//! gives its arguments:
//!
//! * `quit` (or its alias `exit`) and `disconnect` take no argument;
//! * `scan [TIMEOUT] [-a|--all] [-l|--list]`: the scan time in seconds
//!   (5 when absent), whether unnamed peripherals are shown, and whether the
//!   last scan list is shown in place of a new scan;
//! * `connect (-i|--id ID | IDENTIFIER)`: exactly one of the two, the id of a
//!   peripheral of the scan list or an identifier;
//! * `help` asks for the shell's help, `help COMMAND` (`help` included) or
//!   `-h`/`--help` among a command's arguments for that command's; so does a
//!   line with no word.
//!
//! Words are read from left to right and the first fault met is the one
//! reported. A word `--` ends the options: every later word is a value.
//! Short flags may be grouped (`-al`); the value of `-i` may follow it in the
//! same word (`-i3`, `-i=3`), and that of `--id` after `=` (`--id=3`). Numbers
//! are read as `usize::from_str` reads them.

use vstd::prelude::*;
use crate::text::{parse_usize, parse_usize_spec, str_eq};

verus! {

/// A command of the shell, with its arguments.
#[derive(Debug, PartialEq, Eq)]
pub enum ReplCommand {
    /// Leave the shell.
    Quit,
    /// Scan for `timeout` seconds (`list` false), or show the last scan list
    /// (`list` true); `all` shows unnamed peripherals too.
    Scan { timeout: usize, all: bool, list: bool },
    /// Connect to the peripheral with this id in the scan list.
    ConnectById(usize),
    /// Connect to a peripheral named by an identifier.
    ConnectByIdentifier(String),
    /// Disconnect from the connected peripheral.
    Disconnect,
}

/// What help is asked for: the shell's, or a command's.
#[derive(Debug, Clone, Copy, PartialEq, Eq)]
pub enum HelpTopic {
    Shell,
    Help,
    Quit,
    Scan,
    Connect,
    Disconnect,
}

/// Why a command line is not a command.
#[derive(Debug, PartialEq, Eq)]
pub enum CommandError {
    /// Help was asked for, on this topic.
    HelpRequested(HelpTopic),
    /// The first word names no command.
    UnknownCommand(String),
    /// A word that the command does not take.
    UnexpectedArgument(String),
    /// A value that is not a number in the range of `usize`.
    InvalidValue(String),
    /// `-i` or `--id` without a value.
    MissingValue,
    /// `connect` given both an id and an identifier.
    ConflictingArguments,
    /// `connect` given neither an id nor an identifier.
    MissingArgument,
}

/// The mathematical value of a [`ReplCommand`].
pub enum ReplCommandView {
    Quit,
    Scan { timeout: usize, all: bool, list: bool },
    ConnectById(usize),
    ConnectByIdentifier(Seq<char>),
    Disconnect,
}

/// The mathematical value of a [`CommandError`].
pub enum CommandErrorView {
    HelpRequested(HelpTopic),
    UnknownCommand(Seq<char>),
    UnexpectedArgument(Seq<char>),
    InvalidValue(Seq<char>),
    MissingValue,
    ConflictingArguments,
    MissingArgument,
}

impl View for ReplCommand {
    type V = ReplCommandView;

    open spec fn view(&self) -> ReplCommandView {
        match self {
            ReplCommand::Quit => ReplCommandView::Quit,
            ReplCommand::Scan { timeout, all, list } => ReplCommandView::Scan {
                timeout: *timeout,
                all: *all,
                list: *list,
            },
            ReplCommand::ConnectById(id) => ReplCommandView::ConnectById(*id),
            ReplCommand::ConnectByIdentifier(s) => ReplCommandView::ConnectByIdentifier(s@),
            ReplCommand::Disconnect => ReplCommandView::Disconnect,
        }
    }
}

impl View for CommandError {
    type V = CommandErrorView;

    open spec fn view(&self) -> CommandErrorView {
        match self {
            CommandError::HelpRequested(t) => CommandErrorView::HelpRequested(*t),
            CommandError::UnknownCommand(s) => CommandErrorView::UnknownCommand(s@),
            CommandError::UnexpectedArgument(s) => CommandErrorView::UnexpectedArgument(s@),
            CommandError::InvalidValue(s) => CommandErrorView::InvalidValue(s@),
            CommandError::MissingValue => CommandErrorView::MissingValue,
            CommandError::ConflictingArguments => CommandErrorView::ConflictingArguments,
            CommandError::MissingArgument => CommandErrorView::MissingArgument,
        }
    }
}

/// The message that reports a command line that is not a command (none for a
/// request for help, which is answered with the help itself). The wording is
/// that of the first line of clap's reports for the same faults; clap goes on
/// with the usage of the command, and names the argument and the parse error
/// of an invalid value, which these messages leave out.
pub open spec fn command_error_message(e: CommandErrorView) -> Seq<char> {
    match e {
        CommandErrorView::HelpRequested(_) => Seq::empty(),
        CommandErrorView::UnknownCommand(n) => "error: The subcommand '"@ + n + "' wasn't recognized"@,
        CommandErrorView::UnexpectedArgument(a) => "error: Found argument '"@ + a
            + "' which wasn't expected, or isn't valid in this context"@,
        CommandErrorView::InvalidValue(v) => "error: Invalid value \""@ + v + "\": not a number"@,
        CommandErrorView::MissingValue => "error: The argument '--id <id>' requires a value but none was supplied"@,
        CommandErrorView::ConflictingArguments => "error: The argument '--id <id>' cannot be used with '<identifier>'"@,
        CommandErrorView::MissingArgument => "error: The following required arguments were not provided: --id <id> | <identifier>"@,
    }
}

/// `before`, then `word`, then `after`.
fn framed(before: &str, word: &str, after: &str) -> (r: String)
    ensures
        r@ == before@ + word@ + after@,
{
    let mut m = before.to_owned();
    m.append(word);
    m.append(after);
    m
}

impl CommandError {
    /// The message that reports this error to the user (see [`command_error_message`]).
    pub fn message(&self) -> (r: String)
        ensures
            r@ == command_error_message(self@),
    {
        match self {
            CommandError::HelpRequested(_) => String::new(),
            CommandError::UnknownCommand(n) => framed(
                "error: The subcommand '",
                n.as_str(),
                "' wasn't recognized",
            ),
            CommandError::UnexpectedArgument(a) => framed(
                "error: Found argument '",
                a.as_str(),
                "' which wasn't expected, or isn't valid in this context",
            ),
            CommandError::InvalidValue(v) => framed("error: Invalid value \"", v.as_str(), "\": not a number"),
            CommandError::MissingValue => "error: The argument '--id <id>' requires a value but none was supplied".to_owned(),
            CommandError::ConflictingArguments => "error: The argument '--id <id>' cannot be used with '<identifier>'".to_owned(),
            CommandError::MissingArgument => "error: The following required arguments were not provided: --id <id> | <identifier>".to_owned(),
        }
    }
}

/// A result of the grammar, with its error taken by its view.
pub open spec fn err_view<T>(r: Result<T, CommandError>) -> Result<T, CommandErrorView> {
    match r {
        Ok(t) => Ok(t),
        Err(e) => Err(e@),
    }
}

/// A parsed command line, taken by its view.
pub open spec fn command_result_view(r: Result<ReplCommand, CommandError>) -> Result<
    ReplCommandView,
    CommandErrorView,
> {
    match r {
        Ok(c) => Ok(c@),
        Err(e) => Err(e@),
    }
}

/// The word `--`, after which every word is a value.
pub open spec fn is_escape(t: Seq<char>) -> bool {
    t == "--"@
}

/// A long option: `--` and a name.
pub open spec fn is_long(t: Seq<char>) -> bool {
    t.len() > 2 && t[0] == '-' && t[1] == '-'
}

/// A group of short flags: `-` and at least one character other than `-`.
pub open spec fn is_short(t: Seq<char>) -> bool {
    t.len() >= 2 && t[0] == '-' && t[1] != '-'
}

/// A word that asks for help: `--help`, or a group of short flags that starts with `h`.
pub open spec fn is_help_flag(t: Seq<char>) -> bool {
    t == "--help"@ || (is_short(t) && t[1] == 'h')
}

/// The first fault among the arguments of a command that takes none, from word `i` on.
pub open spec fn bare_from(ts: Seq<Seq<char>>, i: int, escaped: bool, topic: HelpTopic) -> Option<
    CommandErrorView,
>
    decreases ts.len() - i,
{
    if i >= ts.len() {
        None
    } else {
        let t = ts[i];
        if !escaped && is_escape(t) {
            bare_from(ts, i + 1, true, topic)
        } else if !escaped && is_help_flag(t) {
            Some(CommandErrorView::HelpRequested(topic))
        } else {
            Some(CommandErrorView::UnexpectedArgument(t))
        }
    }
}

/// A command that takes no argument, given the words that follow its name.
pub open spec fn bare_result(ts: Seq<Seq<char>>, cmd: ReplCommandView, topic: HelpTopic) -> Result<
    ReplCommandView,
    CommandErrorView,
> {
    match bare_from(ts, 0, false, topic) {
        None => Ok(cmd),
        Some(e) => Err(e),
    }
}

/// What the arguments of `scan` read so far have set.
#[derive(Clone, Copy)]
pub struct ScanState {
    pub all: bool,
    pub list: bool,
    pub timeout: Option<usize>,
    pub escaped: bool,
}

/// Nothing read yet.
pub open spec fn scan_start() -> ScanState {
    ScanState { all: false, list: false, timeout: None, escaped: false }
}

/// The flags of a group of short flags of `scan`, from character `j` on.
pub open spec fn scan_cluster(t: Seq<char>, j: int, st: ScanState) -> Result<
    ScanState,
    CommandErrorView,
>
    decreases t.len() - j,
{
    if j >= t.len() {
        Ok(st)
    } else if t[j] == 'a' {
        scan_cluster(t, j + 1, ScanState { all: true, ..st })
    } else if t[j] == 'l' {
        scan_cluster(t, j + 1, ScanState { list: true, ..st })
    } else if t[j] == 'h' {
        Err(CommandErrorView::HelpRequested(HelpTopic::Scan))
    } else {
        Err(CommandErrorView::UnexpectedArgument(t))
    }
}

/// One word of the arguments of `scan`.
pub open spec fn scan_token(t: Seq<char>, st: ScanState) -> Result<ScanState, CommandErrorView> {
    if !st.escaped && is_escape(t) {
        Ok(ScanState { escaped: true, ..st })
    } else if !st.escaped && is_long(t) {
        if t == "--all"@ {
            Ok(ScanState { all: true, ..st })
        } else if t == "--list"@ {
            Ok(ScanState { list: true, ..st })
        } else if t == "--help"@ {
            Err(CommandErrorView::HelpRequested(HelpTopic::Scan))
        } else {
            Err(CommandErrorView::UnexpectedArgument(t))
        }
    } else if !st.escaped && is_short(t) {
        scan_cluster(t, 1, st)
    } else if st.timeout is Some {
        Err(CommandErrorView::UnexpectedArgument(t))
    } else {
        match parse_usize_spec(t) {
            Some(v) => Ok(ScanState { timeout: Some(v), ..st }),
            None => Err(CommandErrorView::InvalidValue(t)),
        }
    }
}

/// The `scan` command, from word `i` of its arguments on.
pub open spec fn scan_from(ts: Seq<Seq<char>>, i: int, st: ScanState) -> Result<
    ReplCommandView,
    CommandErrorView,
>
    decreases ts.len() - i,
{
    if i >= ts.len() {
        Ok(
            ReplCommandView::Scan {
                timeout: match st.timeout {
                    Some(v) => v,
                    None => 5,
                },
                all: st.all,
                list: st.list,
            },
        )
    } else {
        match scan_token(ts[i], st) {
            Ok(next) => scan_from(ts, i + 1, next),
            Err(e) => Err(e),
        }
    }
}

/// What the arguments of `connect` read so far have set: the first id given,
/// the position of the identifier, and whether `-i`/`--id` awaits its value.
#[derive(Clone, Copy)]
pub struct ConnectState {
    pub id: Option<usize>,
    pub ident_at: Option<usize>,
    pub escaped: bool,
    pub pending: bool,
}

/// Nothing read yet.
pub open spec fn connect_start() -> ConnectState {
    ConnectState { id: None, ident_at: None, escaped: false, pending: false }
}

/// The value of an id read; an id given again leaves the first one.
pub open spec fn set_id(st: ConnectState, v: Seq<char>) -> Result<ConnectState, CommandErrorView> {
    match parse_usize_spec(v) {
        None => Err(CommandErrorView::InvalidValue(v)),
        Some(n) => Ok(
            ConnectState {
                id: match st.id {
                    Some(first) => Some(first),
                    None => Some(n),
                },
                pending: false,
                ..st
            },
        ),
    }
}

/// The value attached to `-i` in the same word: what follows `-i`, less a leading `=`.
pub open spec fn short_value(t: Seq<char>) -> Seq<char> {
    let v = t.subrange(2, t.len() as int);
    if v.len() > 0 && v[0] == '=' {
        v.drop_first()
    } else {
        v
    }
}

/// Word `i` of the arguments of `connect`.
pub open spec fn connect_token(ts: Seq<Seq<char>>, i: int, st: ConnectState) -> Result<
    ConnectState,
    CommandErrorView,
> {
    let t = ts[i];
    if st.pending {
        if t.len() > 0 && t[0] == '-' {
            Err(CommandErrorView::MissingValue)
        } else {
            set_id(st, t)
        }
    } else if !st.escaped && is_escape(t) {
        Ok(ConnectState { escaped: true, ..st })
    } else if !st.escaped && is_long(t) {
        if t == "--help"@ {
            Err(CommandErrorView::HelpRequested(HelpTopic::Connect))
        } else if t == "--id"@ {
            Ok(ConnectState { pending: true, ..st })
        } else if t.len() >= 5 && t.subrange(0, 5) == "--id="@ {
            set_id(st, t.subrange(5, t.len() as int))
        } else {
            Err(CommandErrorView::UnexpectedArgument(t))
        }
    } else if !st.escaped && is_short(t) {
        if t[1] == 'h' {
            Err(CommandErrorView::HelpRequested(HelpTopic::Connect))
        } else if t[1] == 'i' {
            if t.len() == 2 {
                Ok(ConnectState { pending: true, ..st })
            } else {
                set_id(st, short_value(t))
            }
        } else {
            Err(CommandErrorView::UnexpectedArgument(t))
        }
    } else if st.ident_at is Some {
        Err(CommandErrorView::UnexpectedArgument(t))
    } else {
        Ok(ConnectState { ident_at: Some(i as usize), ..st })
    }
}

/// The `connect` command once all its arguments are read.
pub open spec fn connect_finish(ts: Seq<Seq<char>>, st: ConnectState) -> Result<
    ReplCommandView,
    CommandErrorView,
> {
    if st.pending {
        Err(CommandErrorView::MissingValue)
    } else {
        match (st.id, st.ident_at) {
            (Some(_), Some(_)) => Err(CommandErrorView::ConflictingArguments),
            (Some(n), None) => Ok(ReplCommandView::ConnectById(n)),
            (None, Some(k)) => Ok(ReplCommandView::ConnectByIdentifier(ts[k as int])),
            (None, None) => Err(CommandErrorView::MissingArgument),
        }
    }
}

/// The `connect` command, from word `i` of its arguments on.
pub open spec fn connect_from(ts: Seq<Seq<char>>, i: int, st: ConnectState) -> Result<
    ReplCommandView,
    CommandErrorView,
>
    decreases ts.len() - i,
{
    if i >= ts.len() {
        connect_finish(ts, st)
    } else {
        match connect_token(ts, i, st) {
            Ok(next) => connect_from(ts, i + 1, next),
            Err(e) => Err(e),
        }
    }
}

/// The command that a name names, and the topic of its help.
pub open spec fn topic_of(name: Seq<char>) -> Option<HelpTopic> {
    if name == "quit"@ || name == "exit"@ {
        Some(HelpTopic::Quit)
    } else if name == "disconnect"@ {
        Some(HelpTopic::Disconnect)
    } else if name == "scan"@ {
        Some(HelpTopic::Scan)
    } else if name == "connect"@ {
        Some(HelpTopic::Connect)
    } else if name == "help"@ {
        Some(HelpTopic::Help)
    } else {
        None
    }
}

/// `help`, followed by the words `ts`: the shell's help, or that of the
/// command named next (`help` included); any other word is an unknown command.
pub open spec fn help_spec(ts: Seq<Seq<char>>) -> Result<ReplCommandView, CommandErrorView> {
    if ts.len() == 0 {
        Err(CommandErrorView::HelpRequested(HelpTopic::Shell))
    } else {
        match topic_of(ts[0]) {
            Some(t) => if ts.len() == 1 {
                Err(CommandErrorView::HelpRequested(t))
            } else {
                Err(CommandErrorView::UnknownCommand(ts[1]))
            },
            None => Err(CommandErrorView::UnknownCommand(ts[0])),
        }
    }
}

/// The command named `name`, with the words `ts` as its arguments.
pub open spec fn dispatch(name: Seq<char>, ts: Seq<Seq<char>>) -> Result<
    ReplCommandView,
    CommandErrorView,
> {
    if name == "quit"@ || name == "exit"@ {
        bare_result(ts, ReplCommandView::Quit, HelpTopic::Quit)
    } else if name == "disconnect"@ {
        bare_result(ts, ReplCommandView::Disconnect, HelpTopic::Disconnect)
    } else if name == "scan"@ {
        scan_from(ts, 0, scan_start())
    } else if name == "connect"@ {
        connect_from(ts, 0, connect_start())
    } else if name == "help"@ {
        help_spec(ts)
    } else {
        Err(CommandErrorView::UnknownCommand(name))
    }
}

/// The command that a line split into words `args` names, where `stem` is the
/// file stem of the first word (the word without directories or extension),
/// which names the command. A line with no word asks for the shell's help. A
/// first word without a stem (such as `..`) is passed over with the word that
/// follows it, which names the program: the third word names the command, and
/// without one the shell's help is asked for.
pub open spec fn parse_spec(stem: Option<Seq<char>>, args: Seq<Seq<char>>) -> Result<
    ReplCommandView,
    CommandErrorView,
> {
    if args.len() == 0 {
        Err(CommandErrorView::HelpRequested(HelpTopic::Shell))
    } else {
        match stem {
            Some(name) => dispatch(name, args.skip(1)),
            None => if args.len() <= 2 {
                Err(CommandErrorView::HelpRequested(HelpTopic::Shell))
            } else {
                dispatch(args[2], args.skip(3))
            },
        }
    }
}

/// The characters of `w` after its last `/` (all of them when it has none).
pub open spec fn last_segment(w: Seq<char>) -> Seq<char>
    decreases w.len(),
{
    if w.len() == 0 || w.last() == '/' {
        Seq::empty()
    } else {
        last_segment(w.drop_last()).push(w.last())
    }
}

/// The last segment of a word is a suffix of it, and is empty only after a `/`.
pub proof fn lemma_last_segment(w: Seq<char>)
    ensures
        last_segment(w).len() <= w.len(),
        w.len() > 0 && w.last() != '/' ==> last_segment(w).len() > 0,
        last_segment(w) =~= w.subrange(w.len() - last_segment(w).len(), w.len() as int),
        forall|i: int| 0 <= i < last_segment(w).len() ==> #[trigger] last_segment(w)[i] != '/',
    decreases w.len(),
{
    if w.len() > 0 && w.last() != '/' {
        lemma_last_segment(w.drop_last());
    }
}

/// The last component of a path written with `/` as separator, as
/// `Path::file_name` reads it before it turns `..` away: repeated and
/// trailing separators are passed over, and so is a `.` component.
pub open spec fn last_component(w: Seq<char>) -> Option<Seq<char>>
    decreases w.len(),
{
    if w.len() == 0 {
        None
    } else if w.last() == '/' {
        last_component(w.drop_last())
    } else {
        let seg = last_segment(w);
        if seg == seq!['.'] {
            proof {
                lemma_last_segment(w);
            }
            last_component(w.take(w.len() - seg.len()))
        } else {
            Some(seg)
        }
    }
}

/// The position of the last `.` of a file name, if it has one.
pub open spec fn last_dot(n: Seq<char>) -> Option<int>
    decreases n.len(),
{
    if n.len() == 0 {
        None
    } else if n.last() == '.' {
        Some(n.len() - 1)
    } else {
        last_dot(n.drop_last())
    }
}

/// The stem of a file name, as `Path::file_stem` documents it: the whole name
/// when it has no `.`, or its only `.` comes first; else the part before its last `.`.
pub open spec fn name_stem(n: Seq<char>) -> Seq<char> {
    match last_dot(n) {
        Some(k) => if k == 0 {
            n
        } else {
            n.take(k)
        },
        None => n,
    }
}

/// The file stem of a path written with `/` as separator: none when it has
/// no file name (nothing but separators and `.`, or a last component `..`).
pub open spec fn path_stem(w: Seq<char>) -> Option<Seq<char>> {
    match last_component(w) {
        None => None,
        Some(n) => if n == seq!['.', '.'] {
            None
        } else {
            Some(name_stem(n))
        },
    }
}

/// A word that every platform reads as a path with `/` as its only
/// separator and no prefix: no `\\`, not starting with `//`, and not starting
/// with a drive (an ASCII letter and `:`).
pub open spec fn is_portable_path(w: Seq<char>) -> bool {
    &&& forall|i: int| 0 <= i < w.len() ==> #[trigger] w[i] != '\\'
    &&& !(w.len() >= 2 && w[0] == '/' && w[1] == '/')
    &&& !(w.len() >= 2 && w[1] == ':' && (('a' <= w[0] && w[0] <= 'z') || ('A' <= w[0] && w[0] <= 'Z')))
}

/// `s` is a stretch of `w`: not empty, and made of consecutive characters of `w`.
pub open spec fn is_part_of(s: Seq<char>, w: Seq<char>) -> bool {
    s.len() > 0 && exists|i: int, j: int|
        0 <= i <= j <= w.len() && s == #[trigger] w.subrange(i, j)
}

/// `s` holds no `/`.
pub open spec fn has_no_slash(s: Seq<char>) -> bool {
    forall|i: int| 0 <= i < s.len() ==> #[trigger] s[i] != '/'
}

/// The last component of a path is a stretch of it with no `/`.
pub proof fn lemma_last_component_part(w: Seq<char>)
    ensures
        last_component(w) matches Some(n) ==> is_part_of(n, w) && has_no_slash(n),
    decreases w.len(),
{
    if w.len() == 0 {
    } else if w.last() == '/' {
        lemma_last_component_part(w.drop_last());
        if let Some(n) = last_component(w.drop_last()) {
            let (i, j) = choose|i: int, j: int|
                0 <= i <= j <= w.drop_last().len() && n == #[trigger] w.drop_last().subrange(i, j);
            assert(w.drop_last().subrange(i, j) =~= w.subrange(i, j));
        }
    } else {
        lemma_last_segment(w);
        let seg = last_segment(w);
        if seg == seq!['.'] {
            let v = w.take(w.len() - seg.len());
            lemma_last_component_part(v);
            if let Some(n) = last_component(v) {
                let (i, j) = choose|i: int, j: int|
                    0 <= i <= j <= v.len() && n == #[trigger] v.subrange(i, j);
                assert(v.subrange(i, j) =~= w.subrange(i, j));
            }
        } else {
            assert(seg == w.subrange(w.len() - seg.len(), w.len() as int));
        }
    }
}

/// The stem that [`path_stem`] gives is a stretch of the path with no `/`.
pub proof fn lemma_path_stem_part(w: Seq<char>)
    ensures
        path_stem(w) matches Some(s) ==> is_part_of(s, w) && has_no_slash(s),
{
    lemma_last_component_part(w);
    if let Some(n) = last_component(w) {
        if n != seq!['.', '.'] {
            let (i, j) = choose|i: int, j: int| 0 <= i <= j <= w.len() && n == #[trigger] w.subrange(i, j);
            match last_dot(n) {
                Some(k) => if k != 0 {
                    lemma_last_dot_range(n);
                    assert(n.take(k) =~= w.subrange(i, i + k));
                },
                None => {},
            }
        }
    }
}

/// The stem of a portable path meets everything that [`file_stem`] states of
/// it: what that wrapper claims of such words can hold.
pub proof fn lemma_portable_stem_admissible(w: Seq<char>)
    requires
        is_portable_path(w),
    ensures
        admissible_stem(w, path_stem(w)),
{
    lemma_path_stem_part(w);
}

proof fn lemma_last_dot_range(n: Seq<char>)
    ensures
        last_dot(n) matches Some(k) ==> 0 <= k < n.len(),
    decreases n.len(),
{
    if n.len() > 0 && n.last() != '.' {
        lemma_last_dot_range(n.drop_last());
    }
}

/// A word that is its own file stem: not empty, and free of `/`, `\\`, `.` and `:`.
pub open spec fn is_plain_word(w: Seq<char>) -> bool {
    w.len() > 0 && forall|i: int|
        0 <= i < w.len() ==> #[trigger] w[i] != '/' && w[i] != '\\' && w[i] != '.' && w[i] != ':'
}

/// What is known of the file stem of a word on every platform: that of a
/// portable path is [`path_stem`]; any stem is a stretch of the word, with no
/// `/` in it where the word has no `\\` (a `\\` can start a prefix in which
/// `/` is no separator).
pub open spec fn admissible_stem(word: Seq<char>, stem: Option<Seq<char>>) -> bool {
    &&& is_portable_path(word) ==> stem == path_stem(word)
    &&& match stem {
        Some(s) => is_part_of(s, word) && ((forall|i: int|
            0 <= i < word.len() ==> #[trigger] word[i] != '\\') ==> has_no_slash(s)),
        None => true,
    }
}

/// `r` is what the words `args` give, for some stem of the first word that
/// the platform's path syntax may give (see [`admissible_stem`]).
pub open spec fn parses_as(args: Seq<Seq<char>>, r: Result<ReplCommandView, CommandErrorView>) -> bool {
    if args.len() == 0 {
        r == Err::<ReplCommandView, CommandErrorView>(CommandErrorView::HelpRequested(HelpTopic::Shell))
    } else {
        exists|stem: Option<Seq<char>>|
            #[trigger] admissible_stem(args[0], stem) && r == parse_spec(stem, args)
    }
}

/// Calls `std::path::Path::file_stem` on a word: its last path component,
/// less its extension, or `None` where it has no file name. How a word splits
/// into components depends on the platform (`\\` and drive or network
/// prefixes differ between them), so what is stated is the result that
/// `Path`'s documentation gives on every platform for a portable path (see
/// [`is_portable_path`]): repeated and trailing `/` are passed over, `.`
/// components are dropped, a last component `..` or none at all gives `None`,
/// and the stem is taken as [`name_stem`] says. Of every word it states that
/// the stem, a piece of the word's last component, is a stretch of the word
/// that holds no `/` unless the word holds a `\\`.
#[verifier::external_body]
fn file_stem(word: &str) -> (r: Option<String>)
    ensures
        admissible_stem(word@, r.deep_view()),
{
    std::path::Path::new(word).file_stem().and_then(|f| f.to_str()).map(|f| f.to_owned())
}

/// An owned copy of a word.
fn owned(t: &str) -> (r: String)
    ensures
        r@ == t@,
{
    t.to_owned()
}

fn is_long_word(t: &str) -> (r: bool)
    ensures
        r == is_long(t@),
{
    let n = t.unicode_len();
    n > 2 && t.get_char(0) == '-' && t.get_char(1) == '-'
}

fn is_short_word(t: &str) -> (r: bool)
    ensures
        r == is_short(t@),
{
    let n = t.unicode_len();
    n >= 2 && t.get_char(0) == '-' && t.get_char(1) != '-'
}

fn is_help_word(t: &str) -> (r: bool)
    ensures
        r == is_help_flag(t@),
{
    str_eq(t, "--help") || (is_short_word(t) && t.get_char(1) == 'h')
}

/// A command that takes no argument: `cmd`, unless a word follows its name.
fn parse_bare(args: &Vec<String>, start: usize, cmd: ReplCommand, topic: HelpTopic) -> (r: Result<ReplCommand, CommandError>)
    requires
        start <= args.len(),
    ensures
        command_result_view(r) == bare_result(args.deep_view().skip(start as int), cmd@, topic),
{
    let ghost ts = args.deep_view().skip(start as int);
    let n = args.len();
    let mut k: usize = 0;
    let mut escaped = false;
    while k + start < n
        invariant
            n == args.len(),
            start <= n,
            ts == args.deep_view().skip(start as int),
            k + start <= n,
            bare_from(ts, 0, false, topic) == bare_from(ts, k as int, escaped, topic),
        decreases n - k,
    {
        let t = args[k + start].as_str();
        assert(t@ == ts[k as int]);
        if !escaped && str_eq(t, "--") {
            escaped = true;
        } else if !escaped && is_help_word(t) {
            return Err(CommandError::HelpRequested(topic));
        } else {
            return Err(CommandError::UnexpectedArgument(args[k + start].clone()));
        }
        k = k + 1;
    }
    Ok(cmd)
}

/// The flags of a group of short flags of `scan`.
fn scan_cluster_exec(t: &str, st: ScanState) -> (r: Result<ScanState, CommandError>)
    requires
        is_short(t@),
    ensures
        err_view(r) == scan_cluster(t@, 1, st),
{
    let n = t.unicode_len();
    let mut j: usize = 1;
    let mut cur = st;
    while j < n
        invariant
            n == t@.len(),
            1 <= j <= n,
            scan_cluster(t@, 1, st) == scan_cluster(t@, j as int, cur),
        decreases n - j,
    {
        let c = t.get_char(j);
        if c == 'a' {
            cur = ScanState { all: true, ..cur };
        } else if c == 'l' {
            cur = ScanState { list: true, ..cur };
        } else if c == 'h' {
            return Err(CommandError::HelpRequested(HelpTopic::Scan));
        } else {
            return Err(CommandError::UnexpectedArgument(owned(t)));
        }
        j = j + 1;
    }
    Ok(cur)
}

/// One word of the arguments of `scan`.
fn scan_token_exec(t: &str, st: ScanState) -> (r: Result<ScanState, CommandError>)
    ensures
        err_view(r) == scan_token(t@, st),
{
    if !st.escaped && str_eq(t, "--") {
        Ok(ScanState { escaped: true, ..st })
    } else if !st.escaped && is_long_word(t) {
        if str_eq(t, "--all") {
            Ok(ScanState { all: true, ..st })
        } else if str_eq(t, "--list") {
            Ok(ScanState { list: true, ..st })
        } else if str_eq(t, "--help") {
            Err(CommandError::HelpRequested(HelpTopic::Scan))
        } else {
            Err(CommandError::UnexpectedArgument(owned(t)))
        }
    } else if !st.escaped && is_short_word(t) {
        scan_cluster_exec(t, st)
    } else if st.timeout.is_some() {
        Err(CommandError::UnexpectedArgument(owned(t)))
    } else {
        match parse_usize(t) {
            Some(v) => Ok(ScanState { timeout: Some(v), ..st }),
            None => Err(CommandError::InvalidValue(owned(t))),
        }
    }
}

/// The `scan` command.
fn parse_scan(args: &Vec<String>, start: usize) -> (r: Result<ReplCommand, CommandError>)
    requires
        start <= args.len(),
    ensures
        command_result_view(r) == scan_from(args.deep_view().skip(start as int), 0, scan_start()),
{
    let ghost ts = args.deep_view().skip(start as int);
    let n = args.len();
    let mut k: usize = 0;
    let mut st = ScanState { all: false, list: false, timeout: None, escaped: false };
    while k + start < n
        invariant
            n == args.len(),
            start <= n,
            ts == args.deep_view().skip(start as int),
            k + start <= n,
            scan_from(ts, 0, scan_start()) == scan_from(ts, k as int, st),
        decreases n - k,
    {
        let t = args[k + start].as_str();
        assert(t@ == ts[k as int]);
        match scan_token_exec(t, st) {
            Ok(next) => {
                st = next;
            },
            Err(e) => {
                return Err(e);
            },
        }
        k = k + 1;
    }
    let timeout = match st.timeout {
        Some(v) => v,
        None => 5,
    };
    Ok(ReplCommand::Scan { timeout, all: st.all, list: st.list })
}

/// The value of an id.
fn set_id_exec(st: ConnectState, v: &str) -> (r: Result<ConnectState, CommandError>)
    ensures
        err_view(r) == set_id(st, v@),
{
    match parse_usize(v) {
        None => Err(CommandError::InvalidValue(owned(v))),
        Some(n) => {
            let id = match st.id {
                Some(first) => Some(first),
                None => Some(n),
            };
            Ok(ConnectState { id, pending: false, ..st })
        },
    }
}

/// Word `k` of the arguments of `connect`.
fn connect_token_exec(args: &Vec<String>, start: usize, k: usize, st: ConnectState) -> (r: Result<
    ConnectState,
    CommandError,
>)
    requires
        k + start < args.len(),
    ensures
        err_view(r) == connect_token(args.deep_view().skip(start as int), k as int, st),
{
    let ghost ts = args.deep_view().skip(start as int);
    let t = args[k + start].as_str();
    assert(t@ == ts[k as int]);
    let n = t.unicode_len();
    if st.pending {
        if n > 0 && t.get_char(0) == '-' {
            Err(CommandError::MissingValue)
        } else {
            set_id_exec(st, t)
        }
    } else if !st.escaped && str_eq(t, "--") {
        Ok(ConnectState { escaped: true, ..st })
    } else if !st.escaped && is_long_word(t) {
        if str_eq(t, "--help") {
            Err(CommandError::HelpRequested(HelpTopic::Connect))
        } else if str_eq(t, "--id") {
            Ok(ConnectState { pending: true, ..st })
        } else if n >= 5 && str_eq(t.substring_char(0, 5), "--id=") {
            set_id_exec(st, t.substring_char(5, n))
        } else {
            Err(CommandError::UnexpectedArgument(owned(t)))
        }
    } else if !st.escaped && is_short_word(t) {
        let c = t.get_char(1);
        if c == 'h' {
            Err(CommandError::HelpRequested(HelpTopic::Connect))
        } else if c == 'i' {
            if n == 2 {
                Ok(ConnectState { pending: true, ..st })
            } else {
                let v = t.substring_char(2, n);
                let m = v.unicode_len();
                if m > 0 && v.get_char(0) == '=' {
                    let w = v.substring_char(1, m);
                    assert(w@ =~= v@.drop_first());
                    set_id_exec(st, w)
                } else {
                    set_id_exec(st, v)
                }
            }
        } else {
            Err(CommandError::UnexpectedArgument(owned(t)))
        }
    } else if st.ident_at.is_some() {
        Err(CommandError::UnexpectedArgument(owned(t)))
    } else {
        Ok(ConnectState { ident_at: Some(k), ..st })
    }
}

/// The `connect` command.
fn parse_connect(args: &Vec<String>, start: usize) -> (r: Result<ReplCommand, CommandError>)
    requires
        start <= args.len(),
    ensures
        command_result_view(r) == connect_from(args.deep_view().skip(start as int), 0, connect_start()),
{
    let ghost ts = args.deep_view().skip(start as int);
    let n = args.len();
    let mut k: usize = 0;
    let mut st = ConnectState { id: None, ident_at: None, escaped: false, pending: false };
    while k + start < n
        invariant
            n == args.len(),
            start <= n,
            ts == args.deep_view().skip(start as int),
            k + start <= n,
            connect_from(ts, 0, connect_start()) == connect_from(ts, k as int, st),
            match st.ident_at {
                Some(j) => j < k,
                None => true,
            },
        decreases n - k,
    {
        match connect_token_exec(args, start, k, st) {
            Ok(next) => {
                st = next;
            },
            Err(e) => {
                return Err(e);
            },
        }
        k = k + 1;
    }
    if st.pending {
        return Err(CommandError::MissingValue);
    }
    match (st.id, st.ident_at) {
        (Some(_), Some(_)) => Err(CommandError::ConflictingArguments),
        (Some(id), None) => Ok(ReplCommand::ConnectById(id)),
        (None, Some(j)) => {
            assert(args.deep_view()[j + start] == ts[j as int]);
            Ok(ReplCommand::ConnectByIdentifier(args[j + start].clone()))
        },
        (None, None) => Err(CommandError::MissingArgument),
    }
}

fn topic_of_exec(name: &str) -> (r: Option<HelpTopic>)
    ensures
        r == topic_of(name@),
{
    if str_eq(name, "quit") || str_eq(name, "exit") {
        Some(HelpTopic::Quit)
    } else if str_eq(name, "disconnect") {
        Some(HelpTopic::Disconnect)
    } else if str_eq(name, "scan") {
        Some(HelpTopic::Scan)
    } else if str_eq(name, "connect") {
        Some(HelpTopic::Connect)
    } else if str_eq(name, "help") {
        Some(HelpTopic::Help)
    } else {
        None
    }
}

/// `help` with the words of `args` from `start` on.
fn parse_help(args: &Vec<String>, start: usize) -> (r: Result<ReplCommand, CommandError>)
    requires
        start <= args.len(),
    ensures
        command_result_view(r) == help_spec(args.deep_view().skip(start as int)),
{
    let ghost ts = args.deep_view().skip(start as int);
    let n = args.len();
    if start == n {
        return Err(CommandError::HelpRequested(HelpTopic::Shell));
    }
    assert(args[start as int]@ == ts[0]);
    match topic_of_exec(args[start].as_str()) {
        Some(t) => {
            if start + 1 == n {
                Err(CommandError::HelpRequested(t))
            } else {
                assert(args[start + 1]@ == ts[1]);
                Err(CommandError::UnknownCommand(args[start + 1].clone()))
            }
        },
        None => Err(CommandError::UnknownCommand(args[start].clone())),
    }
}

/// The command named `name`, with the words of `args` from `start` on as its arguments.
fn dispatch_exec(name: &str, args: &Vec<String>, start: usize) -> (r: Result<ReplCommand, CommandError>)
    requires
        start <= args.len(),
    ensures
        command_result_view(r) == dispatch(name@, args.deep_view().skip(start as int)),
{
    if str_eq(name, "quit") || str_eq(name, "exit") {
        parse_bare(args, start, ReplCommand::Quit, HelpTopic::Quit)
    } else if str_eq(name, "disconnect") {
        parse_bare(args, start, ReplCommand::Disconnect, HelpTopic::Disconnect)
    } else if str_eq(name, "scan") {
        parse_scan(args, start)
    } else if str_eq(name, "connect") {
        parse_connect(args, start)
    } else if str_eq(name, "help") {
        parse_help(args, start)
    } else {
        Err(CommandError::UnknownCommand(owned(name)))
    }
}

/// Reads a command line split into words (see the module's documentation),
/// given the file stem of its first word (see [`parse_spec`]).
pub fn parse_words(stem: Option<String>, args: &Vec<String>) -> (r: Result<ReplCommand, CommandError>)
    ensures
        command_result_view(r) == parse_spec(stem.deep_view(), args.deep_view()),
{
    if args.len() == 0 {
        return Err(CommandError::HelpRequested(HelpTopic::Shell));
    }
    match stem {
        Some(name) => dispatch_exec(name.as_str(), args, 1),
        None => {
            if args.len() <= 2 {
                Err(CommandError::HelpRequested(HelpTopic::Shell))
            } else {
                assert(args[2]@ == args.deep_view()[2]);
                dispatch_exec(args[2].as_str(), args, 3)
            }
        },
    }
}

/// Reads a command line split into words: the file stem of the first word
/// names the command, the others are its arguments (see the module's documentation).
pub fn parse_command(args: &Vec<String>) -> (r: Result<ReplCommand, CommandError>)
    ensures
        parses_as(args.deep_view(), command_result_view(r)),
{
    if args.len() == 0 {
        return Err(CommandError::HelpRequested(HelpTopic::Shell));
    }
    let stem = file_stem(args[0].as_str());
    assert(args[0]@ == args.deep_view()[0]);
    let r = parse_words(stem, args);
    assert(admissible_stem(args.deep_view()[0], stem.deep_view()));
    r
}

/// `exit` is another name of `quit`: the words that follow read the same after either.
pub proof fn lemma_exit_is_quit(args: Seq<Seq<char>>)
    ensures
        parse_spec(Some("exit"@), args) == parse_spec(Some("quit"@), args),
{
}

/// A plain word (see [`is_plain_word`]) is a portable path and its own file stem.
pub proof fn lemma_plain_word_stem(w: Seq<char>)
    requires
        is_plain_word(w),
    ensures
        is_portable_path(w),
        path_stem(w) == Some(w),
{
    lemma_last_segment(w);
    lemma_no_slash_segment(w);
    lemma_no_dot(w);
    assert(w[0] != '.');
    assert(w != seq!['.']);
    assert(w != seq!['.', '.']);
}

proof fn lemma_no_slash_segment(w: Seq<char>)
    requires
        forall|i: int| 0 <= i < w.len() ==> #[trigger] w[i] != '/',
    ensures
        last_segment(w) == w,
    decreases w.len(),
{
    if w.len() > 0 {
        lemma_no_slash_segment(w.drop_last());
        assert(w.drop_last().push(w.last()) =~= w);
    }
}

proof fn lemma_no_dot(n: Seq<char>)
    requires
        forall|i: int| 0 <= i < n.len() ==> #[trigger] n[i] != '.',
    ensures
        last_dot(n) is None,
    decreases n.len(),
{
    if n.len() > 0 {
        lemma_no_dot(n.drop_last());
    }
}

/// A line whose first word is a portable path (see [`is_portable_path`])
/// reads the same on every platform: the file stem of that word names the command.
pub proof fn lemma_portable_command_word(args: Seq<Seq<char>>, r: Result<ReplCommandView, CommandErrorView>)
    requires
        args.len() > 0,
        is_portable_path(args[0]),
        parses_as(args, r),
    ensures
        r == parse_spec(path_stem(args[0]), args),
{
    let stem = choose|stem: Option<Seq<char>>|
        #[trigger] admissible_stem(args[0], stem) && r == parse_spec(stem, args);
    assert(admissible_stem(args[0], stem));
}

/// In particular a plain first word names the command itself.
pub proof fn lemma_plain_command_word(args: Seq<Seq<char>>, r: Result<ReplCommandView, CommandErrorView>)
    requires
        args.len() > 0,
        is_plain_word(args[0]),
        parses_as(args, r),
    ensures
        r == parse_spec(Some(args[0]), args),
{
    lemma_plain_word_stem(args[0]);
    lemma_portable_command_word(args, r);
}

/// Every command but `help` asks for its own help when its first argument is `--help`,
/// whatever follows.
pub proof fn lemma_help_first_argument(name: Seq<char>, args: Seq<Seq<char>>)
    requires
        args.len() >= 2,
        topic_of(name) is Some,
        name != "help"@,
        args[1] == "--help"@,
    ensures
        parse_spec(Some(name), args) == Err::<ReplCommandView, CommandErrorView>(
            CommandErrorView::HelpRequested(topic_of(name)->0),
        ),
{
    reveal_strlit("--help");
    reveal_strlit("--");
    reveal_strlit("--all");
    reveal_strlit("--list");
    let ts = args.skip(1);
    let t = ts[0];
    assert(t == "--help"@);
    assert(t.len() == 6);
    assert(t != "--"@);
    assert(t != "--all"@);
    assert(t != "--list"@);
    assert(is_long(t));
}

/// The flags of `scan`: `-a`, `-l`, `--all` and `--list`.
pub open spec fn is_scan_flag(t: Seq<char>) -> bool {
    t == "-a"@ || t == "-l"@ || t == "--all"@ || t == "--list"@
}

/// A flag that shows unnamed peripherals: `-a` or `--all`.
pub open spec fn shows_all(t: Seq<char>) -> bool {
    t == "-a"@ || t == "--all"@
}

/// A flag that shows the last list in place of a new scan: `-l` or `--list`.
pub open spec fn shows_list(t: Seq<char>) -> bool {
    t == "-l"@ || t == "--list"@
}

/// Some word of `ts` between positions `i` (included) and `j` (excluded) shows unnamed peripherals.
pub open spec fn any_shows_all(ts: Seq<Seq<char>>, i: int, j: int) -> bool {
    exists|k: int| i <= k < j && #[trigger] shows_all(ts[k])
}

/// Some word of `ts` between positions `i` (included) and `j` (excluded) shows the last list.
pub open spec fn any_shows_list(ts: Seq<Seq<char>>, i: int, j: int) -> bool {
    exists|k: int| i <= k < j && #[trigger] shows_list(ts[k])
}

proof fn lemma_scan_flag_token(t: Seq<char>, st: ScanState)
    requires
        is_scan_flag(t),
        !st.escaped,
    ensures
        scan_token(t, st) == Ok::<ScanState, CommandErrorView>(
            ScanState { all: st.all || shows_all(t), list: st.list || shows_list(t), ..st },
        ),
{
    reveal_strlit("-a");
    reveal_strlit("-l");
    reveal_strlit("--all");
    reveal_strlit("--list");
    reveal_strlit("--");
    reveal_strlit("--help");
    reveal_with_fuel(scan_cluster, 2);
    if t == "-a"@ {
        assert(t != "--"@ && t != "-l"@ && t != "--list"@ && t != "--all"@);
        assert(!is_long(t) && is_short(t));
    } else if t == "-l"@ {
        assert(t != "--"@ && t != "-a"@ && t != "--list"@ && t != "--all"@);
        assert(!is_long(t) && is_short(t));
    } else if t == "--all"@ {
        assert(t != "--"@ && t != "-a"@ && t != "-l"@ && t != "--list"@);
        assert(is_long(t));
    } else {
        assert(t != "--"@ && t != "-a"@ && t != "-l"@ && t != "--all"@);
        assert(is_long(t));
    }
}

proof fn lemma_scan_flags_run(ts: Seq<Seq<char>>, i: int, j: int, st: ScanState)
    requires
        0 <= i <= j <= ts.len(),
        forall|k: int| i <= k < j ==> is_scan_flag(#[trigger] ts[k]),
        !st.escaped,
    ensures
        scan_from(ts, i, st) == scan_from(
            ts,
            j,
            ScanState {
                all: st.all || any_shows_all(ts, i, j),
                list: st.list || any_shows_list(ts, i, j),
                ..st
            },
        ),
    decreases j - i,
{
    if i < j {
        let t = ts[i];
        lemma_scan_flag_token(t, st);
        let next = ScanState { all: st.all || shows_all(t), list: st.list || shows_list(t), ..st };
        lemma_scan_flags_run(ts, i + 1, j, next);
        assert((st.all || any_shows_all(ts, i, j)) == (next.all || any_shows_all(ts, i + 1, j))) by {
            if any_shows_all(ts, i, j) {
                let k = choose|k: int| i <= k < j && #[trigger] shows_all(ts[k]);
                if k > i {
                    assert(i + 1 <= k < j && shows_all(ts[k]));
                }
            }
        }
        assert((st.list || any_shows_list(ts, i, j)) == (next.list || any_shows_list(ts, i + 1, j))) by {
            if any_shows_list(ts, i, j) {
                let k = choose|k: int| i <= k < j && #[trigger] shows_list(ts[k]);
                if k > i {
                    assert(i + 1 <= k < j && shows_list(ts[k]));
                }
            }
        }
        assert(ScanState {
            all: st.all || any_shows_all(ts, i, j),
            list: st.list || any_shows_list(ts, i, j),
            ..st
        } == ScanState {
            all: next.all || any_shows_all(ts, i + 1, j),
            list: next.list || any_shows_list(ts, i + 1, j),
            ..next
        });
    } else {
        assert(!any_shows_all(ts, i, j));
        assert(!any_shows_list(ts, i, j));
        assert(ScanState { all: st.all || false, list: st.list || false, ..st } == st);
    }
}

proof fn lemma_scan_number_token(t: Seq<char>, st: ScanState)
    requires
        parse_usize_spec(t) is Some,
        !st.escaped,
        st.timeout is None,
    ensures
        scan_token(t, st) == Ok::<ScanState, CommandErrorView>(
            ScanState { timeout: parse_usize_spec(t), ..st },
        ),
{
    reveal_strlit("--");
    let d = crate::text::unsigned_digits(t);
    assert(d.len() > 0 && crate::text::is_digit(d[0]));
    if t.len() > 0 && t[0] == '-' {
        assert(d == t);
        assert(false);
    }
    assert(t != "--"@);
}

/// The words of `scan` read the same in any order of its flags and its
/// timeout: flags `-a`, `-l`, `--all`, `--list` (any of them, any number of
/// times) with a number before them or after them give a scan for that many
/// seconds, showing unnamed peripherals exactly when `-a` or `--all` is among
/// them, and the last list in place of a new scan exactly when `-l` or
/// `--list` is; with no number the scan lasts 5 seconds.
pub proof fn lemma_scan_flags_and_timeout(fs: Seq<Seq<char>>, num: Seq<char>)
    requires
        forall|k: int| 0 <= k < fs.len() ==> is_scan_flag(#[trigger] fs[k]),
        parse_usize_spec(num) is Some,
    ensures
        parse_spec(Some("scan"@), seq!["scan"@] + fs + seq![num]) == Ok::<
            ReplCommandView,
            CommandErrorView,
        >(
            ReplCommandView::Scan {
                timeout: parse_usize_spec(num)->0,
                all: any_shows_all(fs, 0, fs.len() as int),
                list: any_shows_list(fs, 0, fs.len() as int),
            },
        ),
        parse_spec(Some("scan"@), seq!["scan"@, num] + fs) == parse_spec(
            Some("scan"@),
            seq!["scan"@] + fs + seq![num],
        ),
        parse_spec(Some("scan"@), seq!["scan"@] + fs) == Ok::<ReplCommandView, CommandErrorView>(
            ReplCommandView::Scan {
                timeout: 5,
                all: any_shows_all(fs, 0, fs.len() as int),
                list: any_shows_list(fs, 0, fs.len() as int),
            },
        ),
{
    reveal_strlit("scan");
    reveal_strlit("quit");
    reveal_strlit("exit");
    reveal_strlit("disconnect");
    assert("scan"@[0] == 's' && "quit"@[0] == 'q' && "exit"@[0] == 'e');
    assert("scan"@.len() == 4 && "disconnect"@.len() == 10);
    assert("scan"@ != "quit"@ && "scan"@ != "exit"@ && "scan"@ != "disconnect"@);
    let n = fs.len() as int;
    let start = scan_start();
    let all = any_shows_all(fs, 0, n);
    let list = any_shows_list(fs, 0, n);
    // Flags, then the number.
    let a = fs.push(num);
    assert((seq!["scan"@] + fs + seq![num]).skip(1) =~= a);
    assert forall|k: int| 0 <= k < n implies is_scan_flag(#[trigger] a[k]) by {
        assert(a[k] == fs[k]);
    }
    lemma_scan_flags_run(a, 0, n, start);
    assert(any_shows_all(a, 0, n) == all) by {
        if all {
            let k = choose|k: int| 0 <= k < n && #[trigger] shows_all(fs[k]);
            assert(shows_all(a[k]));
        }
        if any_shows_all(a, 0, n) {
            let k = choose|k: int| 0 <= k < n && #[trigger] shows_all(a[k]);
            assert(shows_all(fs[k]));
        }
    }
    assert(any_shows_list(a, 0, n) == list) by {
        if list {
            let k = choose|k: int| 0 <= k < n && #[trigger] shows_list(fs[k]);
            assert(shows_list(a[k]));
        }
        if any_shows_list(a, 0, n) {
            let k = choose|k: int| 0 <= k < n && #[trigger] shows_list(a[k]);
            assert(shows_list(fs[k]));
        }
    }
    let mid = ScanState { all, list, ..start };
    lemma_scan_number_token(num, mid);
    assert(a[n] == num);
    let fin = ScanState { timeout: parse_usize_spec(num), ..mid };
    assert(scan_from(a, n + 1, fin) == Ok::<ReplCommandView, CommandErrorView>(
        ReplCommandView::Scan { timeout: parse_usize_spec(num)->0, all, list },
    ));
    // The number, then the flags.
    let b = seq![num] + fs;
    assert((seq!["scan"@, num] + fs).skip(1) =~= b);
    lemma_scan_number_token(num, start);
    assert(b[0] == num);
    let first = ScanState { timeout: parse_usize_spec(num), ..start };
    assert forall|k: int| 1 <= k < n + 1 implies is_scan_flag(#[trigger] b[k]) by {
        assert(b[k] == fs[k - 1]);
    }
    lemma_scan_flags_run(b, 1, n + 1, first);
    assert(any_shows_all(b, 1, n + 1) == all) by {
        if all {
            let k = choose|k: int| 0 <= k < n && #[trigger] shows_all(fs[k]);
            assert(b[k + 1] == fs[k]);
            assert(shows_all(b[k + 1]));
        }
        if any_shows_all(b, 1, n + 1) {
            let k = choose|k: int| 1 <= k < n + 1 && #[trigger] shows_all(b[k]);
            assert(b[k] == fs[k - 1]);
            assert(shows_all(fs[k - 1]));
        }
    }
    assert(any_shows_list(b, 1, n + 1) == list) by {
        if list {
            let k = choose|k: int| 0 <= k < n && #[trigger] shows_list(fs[k]);
            assert(b[k + 1] == fs[k]);
            assert(shows_list(b[k + 1]));
        }
        if any_shows_list(b, 1, n + 1) {
            let k = choose|k: int| 1 <= k < n + 1 && #[trigger] shows_list(b[k]);
            assert(b[k] == fs[k - 1]);
            assert(shows_list(fs[k - 1]));
        }
    }
    assert(ScanState { all: first.all || all, list: first.list || list, ..first } == fin);
    assert(scan_from(b, n + 1, fin) == scan_from(a, n + 1, fin));
    // The flags alone.
    assert((seq!["scan"@] + fs).skip(1) =~= fs);
    lemma_scan_flags_run(fs, 0, n, start);
}

proof fn lemma_connect_differs()
    ensures
        "connect"@ != "quit"@,
        "connect"@ != "exit"@,
        "connect"@ != "disconnect"@,
        "connect"@ != "scan"@,
{
    reveal_strlit("connect");
    reveal_strlit("quit");
    reveal_strlit("exit");
    reveal_strlit("disconnect");
    reveal_strlit("scan");
    assert("connect"@.len() == 7 && "quit"@.len() == 4 && "exit"@.len() == 4);
    assert("disconnect"@.len() == 10 && "scan"@.len() == 4);
}

/// A number never starts with `-`.
proof fn lemma_number_not_dash(num: Seq<char>)
    requires
        parse_usize_spec(num) is Some,
    ensures
        num.len() > 0,
        num[0] != '-',
{
    let d = crate::text::unsigned_digits(num);
    assert(d.len() > 0 && crate::text::is_digit(d[0]));
}

proof fn lemma_connect_short_id(num: Seq<char>)
    requires
        parse_usize_spec(num) is Some,
    ensures
        parse_spec(Some("connect"@), seq!["connect"@, "-i"@, num]) == Ok::<ReplCommandView, CommandErrorView>(
            ReplCommandView::ConnectById(parse_usize_spec(num)->0),
        ),
{
    lemma_connect_differs();
    lemma_number_not_dash(num);
    reveal_strlit("-i");
    reveal_strlit("--id");
    reveal_strlit("--id=");
    reveal_strlit("--");
    reveal_strlit("--help");
    let st0 = connect_start();
    let pend = ConnectState { pending: true, ..st0 };
    let done = ConnectState { id: Some(parse_usize_spec(num)->0), ..st0 };
    let ts = seq!["-i"@, num];
    assert(seq!["connect"@, "-i"@, num].skip(1) =~= ts);
    assert(ts[0] != "--"@);
    assert(!is_long(ts[0]) && is_short(ts[0]) && ts[0][1] == 'i' && ts[0].len() == 2);
    assert(connect_token(ts, 0, st0) == Ok::<ConnectState, CommandErrorView>(pend));
    assert(connect_token(ts, 1, pend) == Ok::<ConnectState, CommandErrorView>(done));
    assert(connect_from(ts, 2, done) == connect_finish(ts, done));
    assert(connect_from(ts, 1, pend) == connect_from(ts, 2, done));
    assert(connect_from(ts, 0, st0) == connect_from(ts, 1, pend));
}

proof fn lemma_connect_long_id(num: Seq<char>)
    requires
        parse_usize_spec(num) is Some,
    ensures
        parse_spec(Some("connect"@), seq!["connect"@, "--id"@, num]) == Ok::<ReplCommandView, CommandErrorView>(
            ReplCommandView::ConnectById(parse_usize_spec(num)->0),
        ),
{
    lemma_connect_differs();
    lemma_number_not_dash(num);
    reveal_strlit("-i");
    reveal_strlit("--id");
    reveal_strlit("--id=");
    reveal_strlit("--");
    reveal_strlit("--help");
    let st0 = connect_start();
    let pend = ConnectState { pending: true, ..st0 };
    let done = ConnectState { id: Some(parse_usize_spec(num)->0), ..st0 };
    let ts = seq!["--id"@, num];
    assert(seq!["connect"@, "--id"@, num].skip(1) =~= ts);
    assert(ts[0] != "--"@ && ts[0] != "--help"@ && is_long(ts[0]));
    assert(connect_token(ts, 0, st0) == Ok::<ConnectState, CommandErrorView>(pend));
    assert(connect_token(ts, 1, pend) == Ok::<ConnectState, CommandErrorView>(done));
    assert(connect_from(ts, 2, done) == connect_finish(ts, done));
    assert(connect_from(ts, 1, pend) == connect_from(ts, 2, done));
    assert(connect_from(ts, 0, st0) == connect_from(ts, 1, pend));
}

proof fn lemma_connect_attached_id(num: Seq<char>)
    requires
        parse_usize_spec(num) is Some,
    ensures
        parse_spec(Some("connect"@), seq!["connect"@, "--id="@ + num]) == Ok::<ReplCommandView, CommandErrorView>(
            ReplCommandView::ConnectById(parse_usize_spec(num)->0),
        ),
{
    lemma_connect_differs();
    lemma_number_not_dash(num);
    reveal_strlit("-i");
    reveal_strlit("--id");
    reveal_strlit("--id=");
    reveal_strlit("--");
    reveal_strlit("--help");
    let st0 = connect_start();
    let done = ConnectState { id: Some(parse_usize_spec(num)->0), ..st0 };
    let w = "--id="@ + num;
    let ts = seq![w];
    assert(seq!["connect"@, w].skip(1) =~= ts);
    assert(w.len() >= 6);
    assert(w[0] == '-' && w[1] == '-' && w[2] == 'i');
    assert(w != "--"@ && w != "--help"@ && w != "--id"@ && is_long(w));
    assert(w.subrange(0, 5) =~= "--id="@);
    assert(w.subrange(5, w.len() as int) =~= num);
    assert(connect_token(ts, 0, st0) == Ok::<ConnectState, CommandErrorView>(done));
    assert(connect_from(ts, 1, done) == connect_finish(ts, done));
    assert(connect_from(ts, 0, st0) == connect_from(ts, 1, done));
}

proof fn lemma_connect_identifier(ident: Seq<char>)
    requires
        ident.len() > 0 ==> ident[0] != '-',
    ensures
        parse_spec(Some("connect"@), seq!["connect"@, ident]) == Ok::<ReplCommandView, CommandErrorView>(
            ReplCommandView::ConnectByIdentifier(ident),
        ),
{
    lemma_connect_differs();
    reveal_strlit("--");
    let st0 = connect_start();
    let ts = seq![ident];
    assert(seq!["connect"@, ident].skip(1) =~= ts);
    assert(ident != "--"@);
    assert(!is_long(ident) && !is_short(ident));
    let named = ConnectState { ident_at: Some(0usize), ..st0 };
    assert(connect_token(ts, 0, st0) == Ok::<ConnectState, CommandErrorView>(named));
    assert(connect_from(ts, 1, named) == connect_finish(ts, named));
    assert(connect_from(ts, 0, st0) == connect_from(ts, 1, named));
}

proof fn lemma_connect_conflict(num: Seq<char>, ident: Seq<char>)
    requires
        parse_usize_spec(num) is Some,
        ident.len() > 0 ==> ident[0] != '-',
    ensures
        parse_spec(Some("connect"@), seq!["connect"@, "-i"@, num, ident]) == Err::<
            ReplCommandView,
            CommandErrorView,
        >(CommandErrorView::ConflictingArguments),
{
    lemma_connect_differs();
    lemma_number_not_dash(num);
    reveal_strlit("-i");
    reveal_strlit("--id");
    reveal_strlit("--id=");
    reveal_strlit("--");
    reveal_strlit("--help");
    let st0 = connect_start();
    let pend = ConnectState { pending: true, ..st0 };
    let done = ConnectState { id: Some(parse_usize_spec(num)->0), ..st0 };
    let ts = seq!["-i"@, num, ident];
    assert(seq!["connect"@, "-i"@, num, ident].skip(1) =~= ts);
    assert(ts[0] != "--"@);
    assert(!is_long(ts[0]) && is_short(ts[0]) && ts[0][1] == 'i' && ts[0].len() == 2);
    assert(connect_token(ts, 0, st0) == Ok::<ConnectState, CommandErrorView>(pend));
    assert(connect_token(ts, 1, pend) == Ok::<ConnectState, CommandErrorView>(done));
    assert(ident != "--"@);
    assert(!is_long(ident) && !is_short(ident));
    let both = ConnectState { ident_at: Some(2usize), ..done };
    assert(connect_token(ts, 2, done) == Ok::<ConnectState, CommandErrorView>(both));
    assert(connect_from(ts, 3, both) == connect_finish(ts, both));
    assert(connect_from(ts, 2, done) == connect_from(ts, 3, both));
    assert(connect_from(ts, 1, pend) == connect_from(ts, 2, done));
    assert(connect_from(ts, 0, st0) == connect_from(ts, 1, pend));
}

/// `connect` with an id given as `-i N`, `--id N` or `--id=N` connects by
/// that id; with one word that does not start with `-`, by that identifier;
/// with both an id and an identifier it is refused as a conflict.
pub proof fn lemma_connect_forms(num: Seq<char>, ident: Seq<char>)
    requires
        parse_usize_spec(num) is Some,
        ident.len() > 0 ==> ident[0] != '-',
    ensures
        parse_spec(Some("connect"@), seq!["connect"@, "-i"@, num]) == Ok::<ReplCommandView, CommandErrorView>(
            ReplCommandView::ConnectById(parse_usize_spec(num)->0),
        ),
        parse_spec(Some("connect"@), seq!["connect"@, "--id"@, num]) == Ok::<ReplCommandView, CommandErrorView>(
            ReplCommandView::ConnectById(parse_usize_spec(num)->0),
        ),
        parse_spec(Some("connect"@), seq!["connect"@, "--id="@ + num]) == Ok::<ReplCommandView, CommandErrorView>(
            ReplCommandView::ConnectById(parse_usize_spec(num)->0),
        ),
        parse_spec(Some("connect"@), seq!["connect"@, ident]) == Ok::<ReplCommandView, CommandErrorView>(
            ReplCommandView::ConnectByIdentifier(ident),
        ),
        parse_spec(Some("connect"@), seq!["connect"@, "-i"@, num, ident]) == Err::<
            ReplCommandView,
            CommandErrorView,
        >(CommandErrorView::ConflictingArguments),
{
    lemma_connect_short_id(num);
    lemma_connect_long_id(num);
    lemma_connect_attached_id(num);
    lemma_connect_identifier(ident);
    lemma_connect_conflict(num, ident);
}

/// `quit`, `exit` and `disconnect` alone are commands.
pub proof fn lemma_bare_commands()
    ensures
        parse_spec(Some("quit"@), seq!["quit"@]) == Ok::<ReplCommandView, CommandErrorView>(
            ReplCommandView::Quit,
        ),
        parse_spec(Some("exit"@), seq!["exit"@]) == Ok::<ReplCommandView, CommandErrorView>(
            ReplCommandView::Quit,
        ),
        parse_spec(Some("disconnect"@), seq!["disconnect"@]) == Ok::<
            ReplCommandView,
            CommandErrorView,
        >(ReplCommandView::Disconnect),
{
    reveal_strlit("quit");
    reveal_strlit("exit");
    reveal_strlit("disconnect");
    assert("disconnect"@.len() == 10 && "quit"@.len() == 4 && "exit"@.len() == 4);
    assert(seq!["quit"@].skip(1) =~= Seq::<Seq<char>>::empty());
    assert(seq!["exit"@].skip(1) =~= Seq::<Seq<char>>::empty());
    assert(seq!["disconnect"@].skip(1) =~= Seq::<Seq<char>>::empty());
}

} // verus!
