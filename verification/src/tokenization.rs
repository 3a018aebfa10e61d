//! From a line of input to tokens: the line is cut at white space, and a token that
//! names a variable or the home directory is replaced by what it stands for.

use vstd::prelude::*;
use vstd::string::*;
use crate::environment::Environment;

verus! {

/// Whether `c` is white space: a character with the Unicode property `White_Space`.
pub open spec fn is_whitespace(c: char) -> bool {
    let n = c as u32;
    ||| 0x09 <= n <= 0x0D
    ||| n == 0x20
    ||| n == 0x85
    ||| n == 0xA0
    ||| n == 0x1680
    ||| 0x2000 <= n <= 0x200A
    ||| n == 0x2028
    ||| n == 0x2029
    ||| n == 0x202F
    ||| n == 0x205F
    ||| n == 0x3000
}

/// The words of a text, read from left to right: white space adds nothing, a character
/// that follows white space or stands first begins a word, and any other character
/// goes on with the word before it.
pub open spec fn words(s: Seq<char>) -> Seq<Seq<char>>
    decreases s.len(),
{
    if s.len() == 0 {
        Seq::empty()
    } else if is_whitespace(s.last()) {
        words(s.drop_last())
    } else if s.len() >= 2 && !is_whitespace(s[s.len() - 2]) {
        let before = words(s.drop_last());
        before.update(before.len() - 1, before.last().push(s.last()))
    } else {
        words(s.drop_last()).push(seq![s.last()])
    }
}

/// The characters of `s` that are not white space, in order.
pub open spec fn without_whitespace(s: Seq<char>) -> Seq<char> {
    s.filter(|c: char| !is_whitespace(c))
}

/// The parts laid end to end.
pub open spec fn concat(parts: Seq<Seq<char>>) -> Seq<char>
    decreases parts.len(),
{
    if parts.len() == 0 {
        Seq::empty()
    } else {
        concat(parts.drop_last()) + parts.last()
    }
}

/// What the words of a text are.
///
/// No word is empty, no word holds white space, and the words laid end to end are the
/// text without its white space. A text that ends in a character other than white space
/// has a last word, which ends in that character.
pub proof fn lemma_words(s: Seq<char>)
    ensures
        forall|k: int| 0 <= k < words(s).len() ==> (#[trigger] words(s)[k]).len() > 0,
        forall|k: int, j: int|
            0 <= k < words(s).len() && 0 <= j < words(s)[k].len() ==> !is_whitespace(
                #[trigger] words(s)[k][j],
            ),
        concat(words(s)) == without_whitespace(s),
        s.len() > 0 && !is_whitespace(s.last()) ==> words(s).len() > 0 && words(s).last().last()
            == s.last(),
    decreases s.len(),
{
    reveal(Seq::filter);
    if s.len() == 0 {
        assert(without_whitespace(s) =~= Seq::<char>::empty());
    } else {
        let init = s.drop_last();
        let before = words(init);
        lemma_words(init);
        assert(without_whitespace(s) == if is_whitespace(s.last()) {
            without_whitespace(init)
        } else {
            without_whitespace(init).push(s.last())
        });
        if is_whitespace(s.last()) {
            // Nothing is added to the words.
        } else if s.len() >= 2 && !is_whitespace(s[s.len() - 2]) {
            assert(init.last() == s[s.len() - 2]);
            let grown = before.last().push(s.last());
            let after = before.update(before.len() - 1, grown);
            assert(after.drop_last() =~= before.drop_last());
            assert(concat(before) == concat(before.drop_last()) + before.last());
            assert(concat(after) == concat(after.drop_last()) + grown);
            assert(concat(after) =~= concat(before).push(s.last()));
            assert forall|k: int, j: int|
                0 <= k < after.len() && 0 <= j < after[k].len() implies !is_whitespace(
                #[trigger] after[k][j],
            ) by {
                if k == before.len() - 1 {
                    if j < before.last().len() {
                        assert(after[k][j] == before[k][j]);
                    }
                } else {
                    assert(after[k][j] == before[k][j]);
                }
            }
        } else {
            let after = before.push(seq![s.last()]);
            assert(after.drop_last() =~= before);
            assert(concat(after) =~= concat(before).push(s.last()));
            assert forall|k: int, j: int|
                0 <= k < after.len() && 0 <= j < after[k].len() implies !is_whitespace(
                #[trigger] after[k][j],
            ) by {
                if k < before.len() {
                    assert(after[k][j] == before[k][j]);
                }
            }
        }
    }
}

/// The value that stands for a variable without a value.
pub open spec fn unknown() -> Seq<char> {
    "unknown"@
}

/// The value of the variable `name`, or `unknown()` where it has none.
pub open spec fn value_of(env: Map<Seq<char>, Seq<char>>, name: Seq<char>) -> Seq<char> {
    if env.contains_key(name) {
        env[name]
    } else {
        unknown()
    }
}

/// The name of the variable that holds the home directory.
pub open spec fn home() -> Seq<char> {
    "HOME"@
}

/// Whether a word stands for the home directory or a path below it: it is `~` or
/// begins with `~/`.
pub open spec fn is_home_path(word: Seq<char>) -> bool {
    &&& word.len() >= 1
    &&& word[0] == '~'
    &&& word.len() >= 2 ==> word[1] == '/'
}

/// What a word stands for. A word that begins with `$` is the value of the variable
/// named by the rest of it; in a word that is `~` or begins with `~/`, the `~` is the
/// value of the variable `HOME`; any other word is itself.
pub open spec fn expand(word: Seq<char>, env: Map<Seq<char>, Seq<char>>) -> Seq<char> {
    if word.len() >= 1 && word[0] == '$' {
        value_of(env, word.skip(1))
    } else if is_home_path(word) {
        value_of(env, home()) + word.skip(1)
    } else {
        word
    }
}

/// The tokens of a line: its words, each replaced by what it stands for.
pub open spec fn tokens(input: Seq<char>, env: Map<Seq<char>, Seq<char>>) -> Seq<Seq<char>> {
    Seq::new(words(input).len(), |k: int| expand(words(input)[k], env))
}

/// Whether `c` is white space.
pub fn is_blank(c: char) -> (blank: bool)
    ensures
        blank == is_whitespace(c),
{
    let n: u32 = c as u32;
    (0x09 <= n && n <= 0x0D) || n == 0x20 || n == 0x85 || n == 0xA0 || n == 0x1680 || (0x2000
        <= n && n <= 0x200A) || n == 0x2028 || n == 0x2029 || n == 0x202F || n == 0x205F || n
        == 0x3000
}

/// Cuts a text into its words.
pub fn split_words(text: &str) -> (found: Vec<String>)
    ensures
        found.deep_view() == words(text@),
{
    let n = text.unicode_len();
    let mut found: Vec<String> = Vec::new();
    let mut start: usize = 0;
    let mut open: bool = false;
    let mut i: usize = 0;
    for c in it: text.chars()
        invariant
            it.seq() == text@,
            i == it.index(),
            i <= n,
            n == text@.len(),
            open ==> start < i && !is_whitespace(text@[i - 1]) && words(text@.take(i as int))
                == found.deep_view().push(text@.subrange(start as int, i as int)),
            !open ==> (i == 0 || is_whitespace(text@[i - 1])) && words(text@.take(i as int))
                == found.deep_view(),
    {
        let ghost upto = text@.take(i + 1);
        assert(upto.drop_last() =~= text@.take(i as int));
        if is_blank(c) {
            if open {
                found.push(String::from_str(text.substring_char(start, i)));
                open = false;
            }
        } else {
            if open {
                assert(text@.subrange(start as int, i + 1) =~= text@.subrange(
                    start as int,
                    i as int,
                ).push(c));
            } else {
                start = i;
                open = true;
                assert(text@.subrange(i as int, i + 1) =~= seq![c]);
            }
        }
        i += 1;
    }
    assert(text@.take(n as int) =~= text@);
    if open {
        found.push(String::from_str(text.substring_char(start, n)));
    }
    found
}

/// The value of the variable `name` in `env`, or `unknown` where it has none.
pub fn get_env_variable(name: &String, env: &Environment) -> (value: String)
    ensures
        value@ == value_of(env@, name@),
{
    match env.get(name) {
        Some(value) => value,
        None => String::from_str("unknown"),
    }
}

/// Replaces a word by what it stands for.
pub fn expand_word(word: &String, env: &Environment) -> (token: String)
    ensures
        token@ == expand(word@, env@),
{
    let text = word.as_str();
    let n = text.unicode_len();
    if n >= 1 && text.get_char(0) == '$' {
        let name = String::from_str(text.substring_char(1, n));
        get_env_variable(&name, env)
    } else if n >= 1 && text.get_char(0) == '~' && (n == 1 || text.get_char(1) == '/') {
        let mut token = get_env_variable(&String::from_str("HOME"), env);
        token.append(text.substring_char(1, n));
        token
    } else {
        word.clone()
    }
}

/// Cuts a line of input into tokens and replaces each by what it stands for.
pub fn tokenize(input: &String, env: &Environment) -> (result: Vec<String>)
    ensures
        result.deep_view() == tokens(input@, env@),
{
    let found = split_words(input.as_str());
    let mut result: Vec<String> = Vec::new();
    let mut k: usize = 0;
    while k < found.len()
        invariant
            k <= found.len(),
            result.len() == k,
            forall|j: int| 0 <= j < k ==> (#[trigger] result[j])@ == expand(found[j]@, env@),
        decreases found.len() - k,
    {
        result.push(expand_word(&found[k], env));
        k += 1;
    }
    result
}

} // verus!
