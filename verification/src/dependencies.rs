use rand::seq::IteratorRandom;
use std::collections::HashSet;
use vstd::prelude::*;
use vstd::string::StringExecFns;

use crate::error::ExecError;

verus! {

/// The strategy by which a port is picked from those that are still free.
///
/// An implementation is expected to answer with one of `available_ports`, and
/// with `None` only where there is none to pick. The allocator does not rely on
/// that: it checks every answer.
pub trait ChoosePort {
    fn choose_port(&self, available_ports: &HashSet<u16>) -> Option<u16>;
}

/// Picks a free port at random, every one with the same chance.
pub struct RandomChoice;

impl ChoosePort for RandomChoice {
    fn choose_port(&self, available_ports: &HashSet<u16>) -> (port: Option<u16>)
        ensures
            port matches Some(p) ==> available_ports@.contains(p),
            port is None <==> available_ports@ =~= Set::<u16>::empty(),
    {
        choose_random(available_ports)
    }
}

/// Calls `rand::seq::IteratorRandom::choose` on the iterator of
/// `available_ports`, with the generator of `rand::thread_rng`.
///
/// Trusted: `choose` answers with an item that the iterator yields, and with
/// `None` if and only if the iterator is empty; the iterator of a `HashSet`
/// yields exactly its members. Which member comes out is left open.
/// `thread_rng` panics where the operating system gives it no seed.
#[verifier::external_body]
fn choose_random(available_ports: &HashSet<u16>) -> (port: Option<u16>)
    ensures
        port matches Some(p) ==> available_ports@.contains(p),
        port is None <==> available_ports@ =~= Set::<u16>::empty(),
{
    available_ports.iter().choose(&mut rand::thread_rng()).copied()
}


/// How a command that was run has ended.
#[derive(Debug, PartialEq, Eq)]
pub enum ExecStatus {
    Success { output: String },
    Failure { output: String, code: i32 },
    Termination { output: String },
}

impl ExecStatus {
    /// The status of a command that has ended, from what the operating system
    /// tells of it: whether it succeeded, its exit code if it has one, and
    /// what it wrote. The output is what it wrote to its standard output
    /// where it succeeded and what it wrote to its standard error where not.
    pub fn from_exit(success: bool, code: Option<i32>, stdout: String, stderr: String) -> (status:
        ExecStatus)
        ensures
            status == if success {
                (ExecStatus::Success { output: stdout })
            } else {
                match code {
                    Some(code) => (ExecStatus::Failure { output: stderr, code }),
                    None => (ExecStatus::Termination { output: stderr }),
                }
            },
    {
        if success {
            ExecStatus::Success { output: stdout }
        } else {
            match code {
                Some(code) => ExecStatus::Failure { output: stderr, code },
                None => ExecStatus::Termination { output: stderr },
            }
        }
    }
}

/// The words of a command with one space between them.
pub open spec fn command_text(words: Seq<Seq<char>>) -> Seq<char>
    decreases words.len(),
{
    if words.len() == 0 {
        Seq::empty()
    } else if words.len() == 1 {
        words.last()
    } else {
        command_text(words.drop_last()) + " "@ + words.last()
    }
}

/// A readable form of the command that runs `program` with `args`.
pub fn format_command(program: &str, args: &Vec<String>) -> (text: String)
    ensures
        text@ == command_text(seq![program@] + args@.map_values(|arg: String| arg@)),
{
    let mut text = String::from_str(program);
    let ghost words = seq![program@] + args@.map_values(|arg: String| arg@);
    assert(words.take(1) =~= seq![program@]);
    let mut i: usize = 0;
    while i < args.len()
        invariant
            i <= args.len(),
            words == seq![program@] + args@.map_values(|arg: String| arg@),
            text@ == command_text(words.take(i + 1)),
        decreases args.len() - i,
    {
        text.append(" ");
        text.append(args[i].as_str());
        proof {
            assert(words.take(i + 2).drop_last() == words.take(i + 1));
            assert(words.take(i + 2).last() == args@[i as int]@);
        }
        i += 1;
    }
    assert(words.take(i + 1) == words);
    text
}

/// The output of a command that succeeded, or the error that tells how the
/// command `command` has failed.
pub fn exec_outcome(command: String, status: ExecStatus) -> (result: Result<String, ExecError>)
    ensures
        result == match status {
            ExecStatus::Success { output } => Ok::<String, ExecError>(output),
            ExecStatus::Failure { output, code } => Err(
                ExecError::Failed { command, code, output },
            ),
            ExecStatus::Termination { output } => Err(ExecError::Terminated { command, output }),
        },
{
    match status {
        ExecStatus::Success { output } => Ok(output),
        ExecStatus::Failure { output, code } => Err(ExecError::Failed { command, code, output }),
        ExecStatus::Termination { output } => Err(ExecError::Terminated { command, output }),
    }
}

/// What reading the file at `path` comes to: its content, `None` where the
/// file does not exist, and an error with the path where it could not be
/// read. `read` is the content, or whether the file was not found.
pub fn read_outcome(path: &str, read: Result<String, bool>) -> (result: Result<
    Option<String>,
    String,
>)
    ensures
        match read {
            Ok(content) => result == Ok::<Option<String>, String>(Some(content)),
            Err(not_found) => if not_found {
                result == Ok::<Option<String>, String>(None)
            } else {
                result matches Err(message) && message@ == "Failed to read file at \""@ + path@
                    + "\""@
            },
        },
{
    match read {
        Ok(content) => Ok(Some(content)),
        Err(not_found) => {
            if not_found {
                Ok(None)
            } else {
                let mut message = String::from_str("Failed to read file at \"");
                message.append(path);
                message.append("\"");
                Err(message)
            }
        },
    }
}

} // verus!
