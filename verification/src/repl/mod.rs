//! The shell: what it makes of each line it reads, and what it does for each command.

pub mod cli;
pub mod commands;

use vstd::prelude::*;
use crate::controllers::{BleController, BleError, BleErrorView};
use crate::controllers::ScanResultView;
use crate::controllers::btleplug::{BtleplugController, ControllerView, after_connect, after_disconnect,
    after_scan};
use crate::repl::cli::{CommandError, CommandErrorView, ReplCommand, ReplCommandView, parse_command,
    parses_as};
use crate::repl::commands::connect::{by_identifier, by_identifier_spec, by_index, by_index_spec,
    lemma_by_identifier, lemma_by_index, lemma_by_index_after_scan};
use crate::text::parse_usize_spec;
use crate::text::{is_blank, is_blank_spec};

verus! {

/// The words that `shlex::split` makes of a line (shell quoting), or `None`
/// where its quotes do not close.
pub uninterp spec fn shlex_split(line: Seq<char>) -> Option<Seq<Seq<char>>>;

/// Calls `shlex::split`, which splits a line into words as a POSIX shell
/// does and gives `None` where the line's quoting is broken. The contract
/// names that result; it says nothing of how the words are made.
#[verifier::external_body]
fn split_words(line: &str) -> (r: Option<Vec<String>>)
    ensures
        r.deep_view() == shlex_split(line@),
{
    shlex::split(line)
}

/// What a line read by the shell amounts to.
#[derive(Debug, PartialEq, Eq)]
pub enum LineOutcome {
    /// Nothing but white space: the line is skipped.
    Blank,
    /// The line's quotes do not close.
    InvalidQuotes,
    /// The line's words are not a command.
    Rejected(CommandError),
    /// A command to run.
    Command(ReplCommand),
}

/// The mathematical value of a [`LineOutcome`].
pub enum LineOutcomeView {
    Blank,
    InvalidQuotes,
    Rejected(CommandErrorView),
    Command(ReplCommandView),
}

impl View for LineOutcome {
    type V = LineOutcomeView;

    open spec fn view(&self) -> LineOutcomeView {
        match self {
            LineOutcome::Blank => LineOutcomeView::Blank,
            LineOutcome::InvalidQuotes => LineOutcomeView::InvalidQuotes,
            LineOutcome::Rejected(e) => LineOutcomeView::Rejected(e@),
            LineOutcome::Command(c) => LineOutcomeView::Command(c@),
        }
    }
}

/// The reading of a line's words that an outcome reports, if it reports one.
pub open spec fn outcome_result(out: LineOutcomeView) -> Option<Result<ReplCommandView, CommandErrorView>> {
    match out {
        LineOutcomeView::Command(c) => Some(Ok(c)),
        LineOutcomeView::Rejected(e) => Some(Err(e)),
        _ => None,
    }
}

/// `out` is what a line amounts to: a blank line is skipped; a line whose
/// quotes do not close is refused; else its words are read as a command
/// (see [`parses_as`]).
pub open spec fn line_outcome(line: Seq<char>, out: LineOutcomeView) -> bool {
    if is_blank_spec(line) {
        out == LineOutcomeView::Blank
    } else {
        match shlex_split(line) {
            None => out == LineOutcomeView::InvalidQuotes,
            Some(words) => match outcome_result(out) {
                Some(res) => parses_as(words, res),
                None => false,
            },
        }
    }
}

/// Reads one line of the shell (see [`line_outcome`]).
pub fn process_line(line: &str) -> (r: LineOutcome)
    ensures
        line_outcome(line@, r@),
{
    if is_blank(line) {
        return LineOutcome::Blank;
    }
    match split_words(line) {
        None => LineOutcome::InvalidQuotes,
        Some(words) => match parse_command(&words) {
            Ok(c) => LineOutcome::Command(c),
            Err(e) => LineOutcome::Rejected(e),
        },
    }
}

/// What the shell does for a command.
#[derive(Debug, PartialEq, Eq)]
pub enum ReplAction {
    /// Leave the shell.
    Exit,
    /// Show the last scan list, unnamed peripherals too if `show_all`.
    PrintScanList { show_all: bool },
    /// Scan for `timeout` seconds, then show the list.
    RunScan { timeout: usize, show_all: bool },
    /// Connect to the peripheral with this id, at this address (or UUID).
    Connect { id: usize, address_uuid: String },
    /// Disconnect from the connected peripheral.
    Disconnect,
    /// Report this error.
    Fail(BleError),
}

/// The mathematical value of a [`ReplAction`].
pub enum ReplActionView {
    Exit,
    PrintScanList { show_all: bool },
    RunScan { timeout: usize, show_all: bool },
    Connect { id: usize, address_uuid: Seq<char> },
    Disconnect,
    Fail(BleErrorView),
}

impl View for ReplAction {
    type V = ReplActionView;

    open spec fn view(&self) -> ReplActionView {
        match self {
            ReplAction::Exit => ReplActionView::Exit,
            ReplAction::PrintScanList { show_all } => ReplActionView::PrintScanList {
                show_all: *show_all,
            },
            ReplAction::RunScan { timeout, show_all } => ReplActionView::RunScan {
                timeout: *timeout,
                show_all: *show_all,
            },
            ReplAction::Connect { id, address_uuid } => ReplActionView::Connect {
                id: *id,
                address_uuid: address_uuid@,
            },
            ReplAction::Disconnect => ReplActionView::Disconnect,
            ReplAction::Fail(e) => ReplActionView::Fail(e@),
        }
    }
}

/// What the shell does for `cmd` with the controller in state `v`:
/// `quit` leaves; `scan --list` shows the last list and `scan` scans anew;
/// `connect --id` connects to that peripheral of the scan list (or reports
/// `IdNotFound`); `connect IDENTIFIER` connects to the first peripheral of the
/// scan list whose name, address or id matches the identifier (or reports
/// `IdentifierNotFound`); `disconnect` needs a connection (else `NotConnected`).
pub open spec fn plan_spec(v: ControllerView, cmd: ReplCommandView) -> ReplActionView {
    match cmd {
        ReplCommandView::Quit => ReplActionView::Exit,
        ReplCommandView::Scan { timeout, all, list } => if list {
            ReplActionView::PrintScanList { show_all: all }
        } else {
            ReplActionView::RunScan { timeout, show_all: all }
        },
        ReplCommandView::ConnectById(id) => match by_index_spec(v.scan_list, id) {
            Ok(a) => ReplActionView::Connect { id, address_uuid: a },
            Err(e) => ReplActionView::Fail(e),
        },
        ReplCommandView::ConnectByIdentifier(ident) => match by_identifier_spec(v.scan_list, ident) {
            Ok((id, a)) => ReplActionView::Connect { id, address_uuid: a },
            Err(e) => ReplActionView::Fail(e),
        },
        ReplCommandView::Disconnect => match v.peripheral {
            None => ReplActionView::Fail(BleErrorView::NotConnected),
            Some(_) => ReplActionView::Disconnect,
        },
    }
}

/// Decides what the shell does for `cmd` (see [`plan_spec`]).
pub fn plan_command(bt: &BtleplugController, cmd: &ReplCommand) -> (r: ReplAction)
    ensures
        r@ == plan_spec(bt@, cmd@),
{
    match cmd {
        ReplCommand::Quit => ReplAction::Exit,
        ReplCommand::Scan { timeout, all, list } => {
            if *list {
                ReplAction::PrintScanList { show_all: *all }
            } else {
                ReplAction::RunScan { timeout: *timeout, show_all: *all }
            }
        },
        ReplCommand::ConnectById(id) => {
            let scan_list = bt.get_scan_list();
            match by_index(&scan_list, *id) {
                Ok(a) => ReplAction::Connect { id: *id, address_uuid: a },
                Err(e) => ReplAction::Fail(e),
            }
        },
        ReplCommand::ConnectByIdentifier(ident) => {
            let scan_list = bt.get_scan_list();
            match by_identifier(&scan_list, ident.as_str()) {
                Ok((id, a)) => ReplAction::Connect { id, address_uuid: a },
                Err(e) => ReplAction::Fail(e),
            }
        },
        ReplCommand::Disconnect => {
            if !bt.is_connected() {
                ReplAction::Fail(BleError::NotConnected)
            } else {
                ReplAction::Disconnect
            }
        },
    }
}

/// After a scan, `connect --id id` connects to the `id`-th peripheral found,
/// at its address, and reports `IdNotFound` when the scan found fewer.
pub proof fn lemma_connect_by_id_after_scan(v: ControllerView, found: Seq<ScanResultView>, id: usize)
    requires
        found.len() <= usize::MAX,
    ensures
        plan_spec(after_scan(v, found), ReplCommandView::ConnectById(id)) == (if id < found.len() {
            ReplActionView::Connect { id, address_uuid: found[id as int].address_uuid }
        } else {
            ReplActionView::Fail(BleErrorView::IdNotFound)
        }),
{
    lemma_by_index_after_scan(found, id);
}

/// `disconnect` reaches the controller only while a peripheral is connected:
/// after a connection it disconnects, after a disconnection (or before any
/// connection) it reports `NotConnected`.
pub proof fn lemma_disconnect_needs_connection(v: ControllerView, address_uuid: Seq<char>)
    ensures
        plan_spec(after_connect(v, address_uuid), ReplCommandView::Disconnect)
            == ReplActionView::Disconnect,
        plan_spec(after_disconnect(v), ReplCommandView::Disconnect) == ReplActionView::Fail(
            BleErrorView::NotConnected,
        ),
        v.peripheral is None ==> plan_spec(v, ReplCommandView::Disconnect) == ReplActionView::Fail(
            BleErrorView::NotConnected,
        ),
{
}

/// A scan changes neither the connection nor what `disconnect` does.
pub proof fn lemma_scan_keeps_connection(v: ControllerView, found: Seq<ScanResultView>)
    ensures
        plan_spec(after_scan(v, found), ReplCommandView::Disconnect) == plan_spec(
            v,
            ReplCommandView::Disconnect,
        ),
{
}

/// What the shell does for `quit` and `scan`, whatever the controller's state:
/// `quit` leaves; `scan --list` shows the last list and `scan` scans anew for
/// the timeout given; in both, unnamed peripherals are shown exactly when
/// `--all` was given.
pub proof fn lemma_plan_quit_and_scan(v: ControllerView, timeout: usize, all: bool, list: bool)
    ensures
        plan_spec(v, ReplCommandView::Quit) == ReplActionView::Exit,
        list ==> plan_spec(v, ReplCommandView::Scan { timeout, all, list }) == (
        ReplActionView::PrintScanList { show_all: all }),
        !list ==> plan_spec(v, ReplCommandView::Scan { timeout, all, list }) == (
        ReplActionView::RunScan { timeout, show_all: all }),
{
}

/// `connect --id id` plans a connection, with that id, to the address of the
/// first peripheral of the scan list with that id, and reports `IdNotFound`
/// exactly when the list has no such peripheral.
pub proof fn lemma_plan_connect_by_id(v: ControllerView, id: usize)
    ensures
        match plan_spec(v, ReplCommandView::ConnectById(id)) {
            ReplActionView::Connect { id: i, address_uuid: a } => i == id && exists|k: int|
                0 <= k < v.scan_list.len() && v.scan_list[k].id == id && v.scan_list[k].address_uuid
                    == a && forall|j: int| 0 <= j < k ==> (#[trigger] v.scan_list[j]).id != id,
            ReplActionView::Fail(e) => e == BleErrorView::IdNotFound && forall|k: int|
                0 <= k < v.scan_list.len() ==> (#[trigger] v.scan_list[k]).id != id,
            _ => false,
        },
{
    lemma_by_index(v.scan_list, id);
}

/// `connect IDENTIFIER` plans a connection to the first peripheral of the
/// scan list whose name or address (or UUID) equals the identifier, or whose
/// id is the identifier read as a number, by that peripheral's id and
/// address; it reports `IdentifierNotFound` exactly when none is such.
pub proof fn lemma_plan_connect_by_identifier(v: ControllerView, ident: Seq<char>)
    ensures
        match plan_spec(v, ReplCommandView::ConnectByIdentifier(ident)) {
            ReplActionView::Connect { id, address_uuid: a } => exists|k: int|
                0 <= k < v.scan_list.len() && v.scan_list[k].id == id && v.scan_list[k].address_uuid
                    == a && (v.scan_list[k].name == ident || v.scan_list[k].address_uuid == ident
                    || parse_usize_spec(ident) == Some(v.scan_list[k].id)) && forall|j: int|
                    0 <= j < k ==> !((#[trigger] v.scan_list[j]).name == ident
                        || v.scan_list[j].address_uuid == ident || parse_usize_spec(ident) == Some(
                        v.scan_list[j].id,
                    )),
            ReplActionView::Fail(e) => e == BleErrorView::IdentifierNotFound(ident) && forall|k: int|
                0 <= k < v.scan_list.len() ==> !((#[trigger] v.scan_list[k]).name == ident
                    || v.scan_list[k].address_uuid == ident || parse_usize_spec(ident) == Some(
                    v.scan_list[k].id,
                )),
            _ => false,
        },
{
    lemma_by_identifier(v.scan_list, ident);
}

} // verus!
