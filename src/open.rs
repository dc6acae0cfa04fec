//! Decisions of opening a URL in a browser: candidate commands are tried in
//! order until one reports success. Running a command is left to the caller.
use vstd::prelude::*;
use crate::error::Error;

verus! {

/// What to do next while opening a URL.
#[derive(Debug, PartialEq, Eq)]
pub enum OpenAction {
    /// Run the candidate command with this index, with the URL as its last
    /// argument.
    Launch(usize),
    /// Stop with this outcome.
    Finish(Result<(), Error>),
}

pub open spec fn cannot_open(r: OpenAction, url: Seq<char>) -> bool {
    match r {
        OpenAction::Finish(Err(Error::CannotOpenUrl(u))) => u@ == url,
        _ => false,
    }
}

/// The candidate commands: the one that the user configured, if any, else
/// those of the platform.
pub fn open_commands(configured: Option<String>, platform: Vec<Vec<String>>) -> (r: Vec<Vec<String>>)
    ensures
        configured is None ==> r == platform,
        configured matches Some(c) ==> r@.len() == 1 && r@[0]@.len() == 1 && r@[0]@[0] == c,
{
    match configured {
        Some(c) => {
            let mut cmd: Vec<String> = Vec::new();
            cmd.push(c);
            let mut r: Vec<Vec<String>> = Vec::new();
            r.push(cmd);
            r
        },
        None => platform,
    }
}

/// The first step: the first candidate, unless there is none.
pub fn first_open_action(n_commands: usize) -> (r: OpenAction)
    ensures
        n_commands == 0 ==> r == OpenAction::Finish(Err(Error::OpenNotSupported)),
        n_commands > 0 ==> r == OpenAction::Launch(0),
{
    if n_commands == 0 {
        OpenAction::Finish(Err(Error::OpenNotSupported))
    } else {
        OpenAction::Launch(0)
    }
}

/// The step after candidate `tried` ran and reported `succeeded`: done on
/// success, else the next candidate, else the URL could not be opened.
pub fn next_open_action(url: &str, n_commands: usize, tried: usize, succeeded: bool) -> (r:
    OpenAction)
    requires
        tried < n_commands,
    ensures
        succeeded ==> r == OpenAction::Finish(Ok(())),
        !succeeded && tried + 1 < n_commands ==> r == OpenAction::Launch((tried + 1) as usize),
        !succeeded && tried + 1 == n_commands ==> cannot_open(r, url@),
{
    if succeeded {
        OpenAction::Finish(Ok(()))
    } else if tried + 1 < n_commands {
        OpenAction::Launch(tried + 1)
    } else {
        OpenAction::Finish(Err(Error::CannotOpenUrl(String::from_str(url))))
    }
}

} // verus!
