//! What a line of tokens asks the shell to do.

use vstd::prelude::*;
use vstd::string::*;
use crate::launch::bar;
use crate::text::{is_single, same_text, split};

verus! {

/// The kinds of line.
#[derive(Debug, Clone, Copy, PartialEq, Eq, Structural)]
pub enum Dispatch {
    /// There is no token.
    Empty,
    /// The built-in command that lists the background jobs.
    Jobs,
    /// The built-in command that changes the working directory.
    Cd,
    /// The built-in command that ends the shell.
    Exit,
    /// A command with a redirection of its standard streams.
    Redirected,
    /// Several commands joined by pipes.
    Pipeline,
    /// A single command.
    Command,
}

/// The token that sends a line to the background.
pub open spec fn ampersand() -> Seq<char> {
    seq!['&']
}

/// Whether the line is to run in the background: its last token is `&`.
pub open spec fn in_background(tokens: Seq<Seq<char>>) -> bool {
    tokens.len() > 0 && tokens.last() == ampersand()
}

/// The line without the token that sends it to the background.
pub open spec fn foreground_part(tokens: Seq<Seq<char>>) -> Seq<Seq<char>> {
    if in_background(tokens) {
        tokens.drop_last()
    } else {
        tokens
    }
}

/// Whether a token redirects a standard stream.
pub open spec fn is_redirect(token: Seq<char>) -> bool {
    token == seq!['<'] || token == seq!['>']
}

/// What a line asks for. The first token decides where it names a built-in command;
/// otherwise a redirection anywhere in the line comes before a pipe.
pub open spec fn classified(tokens: Seq<Seq<char>>) -> Dispatch {
    if tokens.len() == 0 {
        Dispatch::Empty
    } else if tokens[0] == "jobs"@ {
        Dispatch::Jobs
    } else if tokens[0] == "cd"@ {
        Dispatch::Cd
    } else if tokens[0] == "exit"@ {
        Dispatch::Exit
    } else if exists|i: int| 0 <= i < tokens.len() && is_redirect(#[trigger] tokens[i]) {
        Dispatch::Redirected
    } else if exists|i: int| 0 <= i < tokens.len() && #[trigger] tokens[i] == bar() {
        Dispatch::Pipeline
    } else {
        Dispatch::Command
    }
}

/// Takes the `&` off the end of the line, if there is one, and says whether there was.
pub fn strip_background(tokens: &mut Vec<String>) -> (background: bool)
    ensures
        background == in_background(old(tokens).deep_view()),
        final(tokens).deep_view() == foreground_part(old(tokens).deep_view()),
{
    let n = tokens.len();
    if n == 0 {
        return false;
    }
    if is_single(&tokens[n - 1], '&') {
        tokens.pop();
        true
    } else {
        false
    }
}

/// Whether some token is `<` or `>`.
fn has_redirect(tokens: &Vec<String>) -> (found: bool)
    ensures
        found == exists|i: int|
            0 <= i < tokens.deep_view().len() && is_redirect(#[trigger] tokens.deep_view()[i]),
{
    let mut i: usize = 0;
    while i < tokens.len()
        invariant
            i <= tokens.len(),
            forall|k: int| 0 <= k < i ==> !is_redirect(#[trigger] tokens.deep_view()[k]),
        decreases tokens.len() - i,
    {
        assert(tokens.deep_view()[i as int] == tokens[i as int]@);
        if is_single(&tokens[i], '<') || is_single(&tokens[i], '>') {
            return true;
        }
        i += 1;
    }
    false
}

/// Whether some token is `|`.
fn has_bar(tokens: &Vec<String>) -> (found: bool)
    ensures
        found == exists|i: int|
            0 <= i < tokens.deep_view().len() && #[trigger] tokens.deep_view()[i] == bar(),
{
    let mut i: usize = 0;
    while i < tokens.len()
        invariant
            i <= tokens.len(),
            forall|k: int| 0 <= k < i ==> #[trigger] tokens.deep_view()[k] != bar(),
        decreases tokens.len() - i,
    {
        assert(tokens.deep_view()[i as int] == tokens[i as int]@);
        if is_single(&tokens[i], '|') {
            return true;
        }
        i += 1;
    }
    false
}

/// Says what a line of tokens asks for.
pub fn classify(tokens: &Vec<String>) -> (kind: Dispatch)
    ensures
        kind == classified(tokens.deep_view()),
{
    if tokens.len() == 0 {
        return Dispatch::Empty;
    }
    if same_text(&tokens[0], "jobs") {
        Dispatch::Jobs
    } else if same_text(&tokens[0], "cd") {
        Dispatch::Cd
    } else if same_text(&tokens[0], "exit") {
        Dispatch::Exit
    } else if has_redirect(tokens) {
        Dispatch::Redirected
    } else if has_bar(tokens) {
        Dispatch::Pipeline
    } else {
        Dispatch::Command
    }
}

/// Cuts a line at every `|` into the commands of a pipeline.
pub fn split_pipeline(tokens: &Vec<String>) -> (stages: Vec<Vec<String>>)
    ensures
        stages.deep_view() == split(tokens.deep_view(), bar()),
{
    let ghost all = tokens.deep_view();
    let mut stages: Vec<Vec<String>> = Vec::new();
    let mut current: Vec<String> = Vec::new();
    let mut i: usize = 0;
    assert(stages.deep_view().push(current.deep_view()) =~~= split(all.take(0), bar()));
    while i < tokens.len()
        invariant
            all == tokens.deep_view(),
            i <= tokens.len(),
            split(all.take(i as int), bar()) == stages.deep_view().push(current.deep_view()),
        decreases tokens.len() - i,
    {
        let ghost open = current.deep_view();
        assert(all.take(i + 1).drop_last() =~~= all.take(i as int));
        if is_single(&tokens[i], '|') {
            stages.push(current);
            current = Vec::new();
            assert(current.deep_view() =~~= Seq::empty());
        } else {
            current.push(tokens[i].clone());
            assert(current.deep_view() =~~= open.push(tokens[i as int]@));
        }
        i += 1;
    }
    stages.push(current);
    assert(all.take(tokens.len() as int) =~~= all);
    stages
}

} // verus!
