//! The decisions of the commands that the shell carries out itself, and the prompt.

use vstd::prelude::*;
use vstd::string::*;
use crate::environment::Environment;
use crate::tokenization::{get_env_variable, home, value_of};

verus! {

/// Why the working directory was not changed.
#[derive(Debug, Clone, Copy, PartialEq, Eq, Structural)]
pub enum CdError {
    /// More than one directory was named.
    TooManyArguments,
    /// There is nothing at the target.
    Missing,
    /// The target is not a directory.
    NotADirectory,
}

/// The prompt: `user@host:directory> `, each part from its variable.
pub open spec fn prompt_text(env: Map<Seq<char>, Seq<char>>) -> Seq<char> {
    value_of(env, "USER"@) + "@"@ + value_of(env, "HOSTNAME"@) + ":"@ + value_of(env, "PWD"@)
        + "> "@
}

/// Where `cd` is to go: to the directory named after it, or home where none is named.
/// More than one name is an error.
pub open spec fn cd_destination(input: Seq<Seq<char>>, env: Map<Seq<char>, Seq<char>>) -> Result<
    Seq<char>,
    CdError,
> {
    if input.len() > 2 {
        Err(CdError::TooManyArguments)
    } else if input.len() == 2 {
        Ok(input[1])
    } else {
        Ok(value_of(env, home()))
    }
}

/// Whether the working directory can be changed to a target: it has to exist, and to
/// be a directory.
pub open spec fn cd_judged(exists: bool, is_directory: bool) -> Result<(), CdError> {
    if !exists {
        Err(CdError::Missing)
    } else if !is_directory {
        Err(CdError::NotADirectory)
    } else {
        Ok(())
    }
}

/// What is said about an error of `cd`.
pub open spec fn cd_complaint(error: CdError) -> Seq<char> {
    match error {
        CdError::TooManyArguments => "Too many arguments provided for cd"@,
        CdError::Missing => "Target does not exist"@,
        CdError::NotADirectory => "Target is not a directory"@,
    }
}

/// The end of a line.
pub open spec fn newline() -> Seq<char> {
    seq!['\n']
}

/// What the shell prints when it ends: the last three lines of its history, each on a
/// line of its own; where the history holds fewer, the last one alone, without an end
/// of line; where it holds none, a line that says so.
pub open spec fn farewell(history: Seq<Seq<char>>) -> Seq<char> {
    let n = history.len() as int;
    if n == 0 {
        "No valid command history"@ + newline()
    } else if n < 3 {
        history[n - 1]
    } else {
        history[n - 3] + newline() + history[n - 2] + newline() + history[n - 1] + newline()
    }
}

/// The text of the prompt.
pub fn prompt(env: &Environment) -> (text: String)
    ensures
        text@ == prompt_text(env@),
{
    let mut text = get_env_variable(&String::from_str("USER"), env);
    text.append("@");
    text.append(get_env_variable(&String::from_str("HOSTNAME"), env).as_str());
    text.append(":");
    text.append(get_env_variable(&String::from_str("PWD"), env).as_str());
    text.append("> ");
    text
}

/// Decides where the `cd` command with the tokens `input` is to go.
pub fn cd_target(input: &Vec<String>, env: &Environment) -> (target: Result<String, CdError>)
    ensures
        match cd_destination(input.deep_view(), env@) {
            Ok(path) => target is Ok && target->Ok_0@ == path,
            Err(e) => target == Err::<String, CdError>(e),
        },
{
    if input.len() > 2 {
        Err(CdError::TooManyArguments)
    } else if input.len() == 2 {
        Ok(input[1].clone())
    } else {
        Ok(get_env_variable(&String::from_str("HOME"), env))
    }
}

/// Decides whether the working directory can be changed to a target of which the host
/// says whether it exists and whether it is a directory.
pub fn cd_verdict(exists: bool, is_directory: bool) -> (verdict: Result<(), CdError>)
    ensures
        verdict == cd_judged(exists, is_directory),
{
    if !exists {
        Err(CdError::Missing)
    } else if !is_directory {
        Err(CdError::NotADirectory)
    } else {
        Ok(())
    }
}

/// The line that is printed for an error of `cd`.
pub fn cd_message(error: CdError) -> (line: String)
    ensures
        line@ == cd_complaint(error),
{
    match error {
        CdError::TooManyArguments => String::from_str("Too many arguments provided for cd"),
        CdError::Missing => String::from_str("Target does not exist"),
        CdError::NotADirectory => String::from_str("Target is not a directory"),
    }
}

/// The text that the shell prints when it ends.
pub fn exit_report(history: &Vec<String>) -> (text: String)
    ensures
        text@ == farewell(history.deep_view()),
{
    proof {
        reveal_strlit("\n");
    }
    let n = history.len();
    if n == 0 {
        let mut text = String::from_str("No valid command history");
        text.append("\n");
        text
    } else if n < 3 {
        history[n - 1].clone()
    } else {
        let mut text = history[n - 3].clone();
        text.append("\n");
        text.append(history[n - 2].as_str());
        text.append("\n");
        text.append(history[n - 1].as_str());
        text.append("\n");
        text
    }
}

} // verus!
