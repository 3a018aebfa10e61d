use shell_engine::dispatch::{classify, split_pipeline, strip_background, Dispatch};
use shell_engine::environment::Environment;
use shell_engine::redirection::{parse_redirection, Redirection, RedirectionError};
use shell_engine::tokenization::{expand_word, get_env_variable, is_blank, split_words, tokenize};

fn words(items: &[&str]) -> Vec<String> {
    items.iter().map(|w| w.to_string()).collect()
}

fn sample_env() -> Environment {
    let mut env = Environment::new();
    env.set("HOME".to_string(), "/home/ada".to_string());
    env.set("USER".to_string(), "ada".to_string());
    env.set("EMPTY".to_string(), String::new());
    env
}

#[test]
fn a_variable_has_the_value_it_was_given_last() {
    let mut env = Environment::new();
    assert_eq!(env.get(&"PWD".to_string()), None);
    env.set("PWD".to_string(), "/".to_string());
    env.set("USER".to_string(), "ada".to_string());
    assert_eq!(env.get(&"PWD".to_string()), Some("/".to_string()));
    env.set("PWD".to_string(), "/tmp".to_string());
    assert_eq!(env.get(&"PWD".to_string()), Some("/tmp".to_string()));
    assert_eq!(env.get(&"USER".to_string()), Some("ada".to_string()));
    assert_eq!(env.get(&"pwd".to_string()), None);
}

#[test]
fn a_variable_without_a_value_is_unknown() {
    let env = sample_env();
    assert_eq!(get_env_variable(&"USER".to_string(), &env), "ada");
    assert_eq!(get_env_variable(&"EMPTY".to_string(), &env), "");
    assert_eq!(get_env_variable(&"HOSTNAME".to_string(), &env), "unknown");
}

#[test]
fn white_space_is_what_the_standard_library_says() {
    let mut n: u32 = 0;
    while n <= 0x10FFFF {
        if let Some(c) = char::from_u32(n) {
            assert_eq!(is_blank(c), c.is_whitespace(), "U+{:04X}", n);
        }
        n += 1;
    }
}

#[test]
fn words_are_the_runs_between_white_space() {
    assert_eq!(split_words(""), Vec::<String>::new());
    assert_eq!(split_words("   \t\n"), Vec::<String>::new());
    assert_eq!(split_words("ls"), words(&["ls"]));
    assert_eq!(split_words("  echo   hi  "), words(&["echo", "hi"]));
    assert_eq!(split_words("a\tb\u{3000}c\n"), words(&["a", "b", "c"]));
    assert_eq!(split_words("x"), words(&["x"]));
    assert_eq!(split_words(" x"), words(&["x"]));
    assert_eq!(split_words("é ü"), words(&["é", "ü"]));
}

#[test]
fn words_agree_with_the_standard_library() {
    for text in ["", " ", "a", " a b ", "cat < in.txt > out.txt\n", "\u{85}x\u{a0}y", "sleep 5 &"] {
        let expected: Vec<String> = text.split_whitespace().map(|w| w.to_string()).collect();
        assert_eq!(split_words(text), expected);
    }
}

#[test]
fn a_word_is_replaced_by_what_it_stands_for() {
    let env = sample_env();
    assert_eq!(expand_word(&"$USER".to_string(), &env), "ada");
    assert_eq!(expand_word(&"$NOPE".to_string(), &env), "unknown");
    assert_eq!(expand_word(&"$".to_string(), &env), "unknown");
    assert_eq!(expand_word(&"~".to_string(), &env), "/home/ada");
    assert_eq!(expand_word(&"~/notes.txt".to_string(), &env), "/home/ada/notes.txt");
    assert_eq!(expand_word(&"~/".to_string(), &env), "/home/ada/");
    assert_eq!(expand_word(&"~ada".to_string(), &env), "~ada");
    assert_eq!(expand_word(&"a$USER".to_string(), &env), "a$USER");
    assert_eq!(expand_word(&"plain".to_string(), &env), "plain");
    assert_eq!(expand_word(&"".to_string(), &env), "");
}

#[test]
fn home_is_unknown_where_it_is_not_set() {
    let env = Environment::new();
    assert_eq!(expand_word(&"~".to_string(), &env), "unknown");
    assert_eq!(expand_word(&"~/x".to_string(), &env), "unknown/x");
}

#[test]
fn a_line_becomes_tokens() {
    let env = sample_env();
    assert_eq!(tokenize(&"\n".to_string(), &env), Vec::<String>::new());
    assert_eq!(
        tokenize(&"  ls -l ~/src $USER $NOPE &\n".to_string(), &env),
        words(&["ls", "-l", "/home/ada/src", "ada", "unknown", "&"])
    );
    assert_eq!(
        tokenize(&"cat < in.txt > out.txt".to_string(), &env),
        words(&["cat", "<", "in.txt", ">", "out.txt"])
    );
    assert_eq!(tokenize(&"echo $EMPTY".to_string(), &env), words(&["echo", ""]));
}

#[test]
fn the_background_marker_is_taken_off_the_end() {
    let mut tokens = words(&["sleep", "5", "&"]);
    assert!(strip_background(&mut tokens));
    assert_eq!(tokens, words(&["sleep", "5"]));

    let mut tokens = words(&["sleep", "&", "5"]);
    assert!(!strip_background(&mut tokens));
    assert_eq!(tokens, words(&["sleep", "&", "5"]));

    let mut tokens = words(&["&"]);
    assert!(strip_background(&mut tokens));
    assert_eq!(tokens, Vec::<String>::new());

    let mut tokens: Vec<String> = Vec::new();
    assert!(!strip_background(&mut tokens));
    assert_eq!(tokens, Vec::<String>::new());

    let mut tokens = words(&["a", "&", "&"]);
    assert!(strip_background(&mut tokens));
    assert_eq!(tokens, words(&["a", "&"]));
}

#[test]
fn a_line_is_classified() {
    assert_eq!(classify(&words(&[])), Dispatch::Empty);
    assert_eq!(classify(&words(&["jobs"])), Dispatch::Jobs);
    assert_eq!(classify(&words(&["cd", "/tmp"])), Dispatch::Cd);
    assert_eq!(classify(&words(&["exit"])), Dispatch::Exit);
    assert_eq!(classify(&words(&["cat", "<", "in.txt"])), Dispatch::Redirected);
    assert_eq!(classify(&words(&["ls", ">", "out.txt"])), Dispatch::Redirected);
    assert_eq!(classify(&words(&["echo", "hi", "|", "cat"])), Dispatch::Pipeline);
    assert_eq!(classify(&words(&["ls", "-l"])), Dispatch::Command);
}

#[test]
fn a_built_in_command_is_known_by_its_first_token() {
    assert_eq!(classify(&words(&["jobs", "|", "cat"])), Dispatch::Jobs);
    assert_eq!(classify(&words(&["cd", ">", "x"])), Dispatch::Cd);
    assert_eq!(classify(&words(&["echo", "exit"])), Dispatch::Command);
    assert_eq!(classify(&words(&["Jobs"])), Dispatch::Command);
}

#[test]
fn a_redirection_comes_before_a_pipe() {
    assert_eq!(classify(&words(&["a", "|", "b", ">", "f"])), Dispatch::Redirected);
    assert_eq!(classify(&words(&["a", "<", "f", "|", "b"])), Dispatch::Redirected);
    assert_eq!(classify(&words(&["a", "<<", "f"])), Dispatch::Command);
    assert_eq!(classify(&words(&["a", "||", "b"])), Dispatch::Command);
}

#[test]
fn a_pipeline_is_cut_at_every_bar() {
    assert_eq!(
        split_pipeline(&words(&["echo", "hi", "|", "cat"])),
        vec![words(&["echo", "hi"]), words(&["cat"])]
    );
    assert_eq!(
        split_pipeline(&words(&["a", "|", "b", "-x", "|", "c"])),
        vec![words(&["a"]), words(&["b", "-x"]), words(&["c"])]
    );
    assert_eq!(split_pipeline(&words(&["ls", "-l"])), vec![words(&["ls", "-l"])]);
    assert_eq!(split_pipeline(&words(&[])), vec![words(&[])]);
    assert_eq!(split_pipeline(&words(&["|", "a"])), vec![words(&[]), words(&["a"])]);
    assert_eq!(split_pipeline(&words(&["a", "|"])), vec![words(&["a"]), words(&[])]);
    assert_eq!(
        split_pipeline(&words(&["a", "|", "|", "b"])),
        vec![words(&["a"]), words(&[]), words(&["b"])]
    );
}

#[test]
fn redirections_are_taken_out_of_the_line() {
    assert_eq!(
        parse_redirection(&words(&["cat", "<", "in.txt", ">", "out.txt"])),
        Ok(Redirection {
            command: words(&["cat"]),
            input: Some("in.txt".to_string()),
            output: Some("out.txt".to_string()),
        })
    );
    assert_eq!(
        parse_redirection(&words(&["sort", "-r", ">", "out.txt", "extra"])),
        Ok(Redirection {
            command: words(&["sort", "-r", "extra"]),
            input: None,
            output: Some("out.txt".to_string()),
        })
    );
    assert_eq!(
        parse_redirection(&words(&["<", "in.txt", "wc"])),
        Ok(Redirection { command: words(&["wc"]), input: Some("in.txt".to_string()), output: None })
    );
    assert_eq!(
        parse_redirection(&words(&["ls"])),
        Ok(Redirection { command: words(&["ls"]), input: None, output: None })
    );
}

#[test]
fn the_last_file_of_a_kind_counts() {
    assert_eq!(
        parse_redirection(&words(&["cat", "<", "a", "<", "b", ">", "c", ">", "d"])),
        Ok(Redirection {
            command: words(&["cat"]),
            input: Some("b".to_string()),
            output: Some("d".to_string()),
        })
    );
}

#[test]
fn the_token_after_an_operator_is_a_file_name() {
    assert_eq!(
        parse_redirection(&words(&["cat", "<", ">", "x"])),
        Ok(Redirection {
            command: words(&["cat", "x"]),
            input: Some(">".to_string()),
            output: None,
        })
    );
    assert_eq!(
        parse_redirection(&words(&["cat", ">", "<"])),
        Ok(Redirection { command: words(&["cat"]), input: None, output: Some("<".to_string()) })
    );
}

#[test]
fn an_operator_at_the_end_lacks_its_file() {
    assert_eq!(parse_redirection(&words(&["cat", "<"])), Err(RedirectionError::NoInputFile));
    assert_eq!(parse_redirection(&words(&["cat", ">"])), Err(RedirectionError::NoOutputFile));
    assert_eq!(parse_redirection(&words(&["<"])), Err(RedirectionError::NoInputFile));
    assert_eq!(
        parse_redirection(&words(&["cat", "<", "a", ">"])),
        Err(RedirectionError::NoOutputFile)
    );
    assert_eq!(parse_redirection(&words(&[">", "a", "<"])), Err(RedirectionError::NoInputFile));
}

#[test]
fn a_line_of_redirections_alone_has_no_command() {
    assert_eq!(parse_redirection(&words(&["<", "in.txt"])), Err(RedirectionError::NoCommand));
    assert_eq!(
        parse_redirection(&words(&[">", "o", "<", "i"])),
        Err(RedirectionError::NoCommand)
    );
    assert_eq!(parse_redirection(&words(&[])), Err(RedirectionError::NoCommand));
}
