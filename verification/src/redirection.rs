//! Redirection of a command's standard streams: `<` and `>` each take the token that
//! follows as a file name, and what is left is the command.

use vstd::prelude::*;
use vstd::string::*;
use crate::text::is_single;

verus! {

/// A command with the files that replace its standard input and output.
#[derive(Debug, Clone, PartialEq, Eq)]
pub struct Redirection {
    /// The program name and its arguments; never empty.
    pub command: Vec<String>,
    /// The file to read standard input from.
    pub input: Option<String>,
    /// The file to write standard output to.
    pub output: Option<String>,
}

/// What a `Redirection` holds, as sequences of characters.
pub struct RedirectionView {
    pub command: Seq<Seq<char>>,
    pub input: Option<Seq<char>>,
    pub output: Option<Seq<char>>,
}

impl View for Redirection {
    type V = RedirectionView;

    open spec fn view(&self) -> RedirectionView {
        RedirectionView {
            command: self.command.deep_view(),
            input: self.input.deep_view(),
            output: self.output.deep_view(),
        }
    }
}

/// Why a line with redirection tokens names no runnable command.
#[derive(Debug, Clone, Copy, PartialEq, Eq, Structural)]
pub enum RedirectionError {
    /// A `<` is the last token: no file name follows it.
    NoInputFile,
    /// A `>` is the last token: no file name follows it.
    NoOutputFile,
    /// Nothing is left once the redirections are taken out.
    NoCommand,
}

/// What is said about a line that names no runnable command.
pub open spec fn complaint(error: RedirectionError) -> Seq<char> {
    match error {
        RedirectionError::NoInputFile => "No input file specified"@,
        RedirectionError::NoOutputFile => "No output file specified"@,
        RedirectionError::NoCommand => "No Command Provided"@,
    }
}

/// The part a token plays in a line, decided from left to right.
pub enum Role {
    /// Part of the command.
    Word,
    /// A `<` or `>` that takes the next token.
    Operator,
    /// The file name taken by the operator before it.
    Operand,
}

pub open spec fn is_input_operator(token: Seq<char>) -> bool {
    token == seq!['<']
}

pub open spec fn is_output_operator(token: Seq<char>) -> bool {
    token == seq!['>']
}

/// The role of token `i`. A token right after an operator is its operand, whatever it
/// reads; any other `<` or `>` is an operator.
pub open spec fn role(tokens: Seq<Seq<char>>, i: int) -> Role
    decreases i,
{
    if i > 0 && role(tokens, i - 1) is Operator {
        Role::Operand
    } else if is_input_operator(tokens[i]) || is_output_operator(tokens[i]) {
        Role::Operator
    } else {
        Role::Word
    }
}

/// The words among the first `n` tokens, in order.
pub open spec fn words(tokens: Seq<Seq<char>>, n: int) -> Seq<Seq<char>>
    decreases n,
{
    if n <= 0 {
        Seq::empty()
    } else if role(tokens, n - 1) is Word {
        words(tokens, n - 1).push(tokens[n - 1])
    } else {
        words(tokens, n - 1)
    }
}

/// The operand of the last `<` among the first `n` tokens.
pub open spec fn input_file(tokens: Seq<Seq<char>>, n: int) -> Option<Seq<char>>
    decreases n,
{
    if n <= 1 {
        None
    } else if role(tokens, n - 1) is Operand && is_input_operator(tokens[n - 2]) {
        Some(tokens[n - 1])
    } else {
        input_file(tokens, n - 1)
    }
}

/// The operand of the last `>` among the first `n` tokens.
pub open spec fn output_file(tokens: Seq<Seq<char>>, n: int) -> Option<Seq<char>>
    decreases n,
{
    if n <= 1 {
        None
    } else if role(tokens, n - 1) is Operand && is_output_operator(tokens[n - 2]) {
        Some(tokens[n - 1])
    } else {
        output_file(tokens, n - 1)
    }
}

/// What a line of tokens asks for. An operator without a file name can only be the last
/// token, and is the first thing reported; an empty command is reported after it.
pub open spec fn parsed(tokens: Seq<Seq<char>>) -> Result<RedirectionView, RedirectionError> {
    let n = tokens.len() as int;
    if n > 0 && role(tokens, n - 1) is Operator {
        if is_input_operator(tokens[n - 1]) {
            Err(RedirectionError::NoInputFile)
        } else {
            Err(RedirectionError::NoOutputFile)
        }
    } else if words(tokens, n).len() == 0 {
        Err(RedirectionError::NoCommand)
    } else {
        Ok(
            RedirectionView {
                command: words(tokens, n),
                input: input_file(tokens, n),
                output: output_file(tokens, n),
            },
        )
    }
}

/// The line that is printed for a line of tokens that names no runnable command.
pub fn redirection_message(error: RedirectionError) -> (line: String)
    ensures
        line@ == complaint(error),
{
    match error {
        RedirectionError::NoInputFile => String::from_str("No input file specified"),
        RedirectionError::NoOutputFile => String::from_str("No output file specified"),
        RedirectionError::NoCommand => String::from_str("No Command Provided"),
    }
}

/// Past an operator at `i` and its operand, the words are those before the operator, and
/// the operand is the newest file of the operator's kind.
proof fn lemma_operator_step(tokens: Seq<Seq<char>>, i: int)
    requires
        0 <= i,
        i + 1 < tokens.len(),
        role(tokens, i) is Operator,
    ensures
        role(tokens, i + 1) is Operand,
        words(tokens, i + 2) == words(tokens, i),
        is_input_operator(tokens[i]) ==> input_file(tokens, i + 2) == Some(tokens[i + 1])
            && output_file(tokens, i + 2) == output_file(tokens, i),
        !is_input_operator(tokens[i]) ==> output_file(tokens, i + 2) == Some(tokens[i + 1])
            && input_file(tokens, i + 2) == input_file(tokens, i),
{
    assert(role(tokens, i + 1) is Operand);
    assert(words(tokens, i + 1) == words(tokens, i));
    assert(words(tokens, i + 2) == words(tokens, i + 1));
    assert(input_file(tokens, i + 1) == input_file(tokens, i));
    assert(output_file(tokens, i + 1) == output_file(tokens, i));
    assert(is_input_operator(tokens[i]) || is_output_operator(tokens[i]));
    if is_input_operator(tokens[i]) {
        assert(tokens[i][0] == '<');
        assert(!is_output_operator(tokens[i]));
        assert(output_file(tokens, i + 2) == output_file(tokens, i + 1));
    } else {
        assert(input_file(tokens, i + 2) == input_file(tokens, i + 1));
    }
}

/// Takes the redirections out of a line of tokens.
pub fn parse_redirection(tokens: &Vec<String>) -> (result: Result<Redirection, RedirectionError>)
    ensures
        match parsed(tokens.deep_view()) {
            Ok(v) => result is Ok && result->Ok_0@ == v,
            Err(e) => result == Err::<Redirection, RedirectionError>(e),
        },
{
    let ghost all = tokens.deep_view();
    let mut command: Vec<String> = Vec::new();
    let mut input: Option<String> = None;
    let mut output: Option<String> = None;
    let mut i: usize = 0;
    while i < tokens.len()
        invariant
            all == tokens.deep_view(),
            i <= tokens.len(),
            i > 0 ==> !(role(all, i - 1) is Operator),
            command.deep_view() == words(all, i as int),
            input.deep_view() == input_file(all, i as int),
            output.deep_view() == output_file(all, i as int),
        decreases tokens.len() - i,
    {
        if is_single(&tokens[i], '<') {
            if i + 1 < tokens.len() {
                input = Some(tokens[i + 1].clone());
                proof {
                    lemma_operator_step(all, i as int);
                }
                i += 2;
            } else {
                return Err(RedirectionError::NoInputFile);
            }
        } else if is_single(&tokens[i], '>') {
            if i + 1 < tokens.len() {
                output = Some(tokens[i + 1].clone());
                proof {
                    lemma_operator_step(all, i as int);
                }
                i += 2;
            } else {
                return Err(RedirectionError::NoOutputFile);
            }
        } else {
            command.push(tokens[i].clone());
            i += 1;
        }
    }
    if command.len() == 0 {
        return Err(RedirectionError::NoCommand);
    }
    Ok(Redirection { command, input, output })
}

} // verus!
