use shell_engine::search::{path_in, search_candidates};
use shell_engine::text::{
    copy_words, format_number, is_single, join_words, push_number, same_text, split_text,
};

fn strings(words: &[&str]) -> Vec<String> {
    words.iter().map(|w| w.to_string()).collect()
}

#[test]
fn numbers_are_written_in_decimal() {
    assert_eq!(format_number(0), "0");
    assert_eq!(format_number(7), "7");
    assert_eq!(format_number(10), "10");
    assert_eq!(format_number(12345), "12345");
    assert_eq!(format_number(-1), "-1");
    assert_eq!(format_number(-908), "-908");
    assert_eq!(format_number(i32::MAX), "2147483647");
    assert_eq!(format_number(i32::MIN), "-2147483648");
}

#[test]
fn numbers_agree_with_the_standard_library() {
    let mut n: i64 = i32::MIN as i64;
    while n <= i32::MAX as i64 {
        assert_eq!(format_number(n as i32), (n as i32).to_string());
        n += 7_654_321;
    }
}

#[test]
fn a_number_is_appended_to_what_is_there() {
    let mut text = String::from("pid ");
    push_number(&mut text, 4242);
    assert_eq!(text, "pid 4242");
}

#[test]
fn words_are_joined_with_the_separator_between_them() {
    assert_eq!(join_words(&strings(&[]), " "), "");
    assert_eq!(join_words(&strings(&["ls"]), " "), "ls");
    assert_eq!(join_words(&strings(&["ls", "-l", "/tmp"]), " "), "ls -l /tmp");
    assert_eq!(join_words(&strings(&["a", "", "b"]), ", "), "a, , b");
}

#[test]
fn a_copy_of_words_holds_the_same_words() {
    let words = strings(&["echo", "héllo", ""]);
    assert_eq!(copy_words(&words), words);
}

#[test]
fn text_is_split_at_every_separator() {
    assert_eq!(split_text("", ':'), strings(&[""]));
    assert_eq!(split_text("/bin", ':'), strings(&["/bin"]));
    assert_eq!(split_text("/bin:/usr/bin", ':'), strings(&["/bin", "/usr/bin"]));
    assert_eq!(split_text(":/bin:", ':'), strings(&["", "/bin", ""]));
    assert_eq!(split_text("a::b", ':'), strings(&["a", "", "b"]));
    assert_eq!(split_text(":", ':'), strings(&["", ""]));
}

#[test]
fn splitting_agrees_with_the_standard_library() {
    for text in ["", ":", "a", "a:b:c", "::", "é:ü", "/usr/local/bin:/usr/bin:/bin:"] {
        let expected: Vec<String> = text.split(':').map(|p| p.to_string()).collect();
        assert_eq!(split_text(text, ':'), expected);
    }
}

#[test]
fn joining_undoes_splitting() {
    for text in ["", ":", "a", "a:b:c", "::", "/usr/local/bin:/usr/bin:/bin:"] {
        let parts = split_text(text, ':');
        assert_eq!(join_words(&parts, ":"), text);
        assert!(parts.iter().all(|p| !p.contains(':')));
    }
}

#[test]
fn texts_are_compared_as_a_whole() {
    assert!(same_text(&"jobs".to_string(), "jobs"));
    assert!(!same_text(&"jobs".to_string(), "job"));
    assert!(!same_text(&"".to_string(), "cd"));
    assert!(is_single(&"&".to_string(), '&'));
    assert!(!is_single(&"&&".to_string(), '&'));
    assert!(!is_single(&"".to_string(), '&'));
    assert!(!is_single(&"|".to_string(), '&'));
}

#[test]
fn a_name_follows_its_directory() {
    assert_eq!(path_in(&"/bin".to_string(), &"ls".to_string()), "/bin/ls");
    assert_eq!(path_in(&"/bin/".to_string(), &"ls".to_string()), "/bin/ls");
    assert_eq!(path_in(&"".to_string(), &"ls".to_string()), "ls");
    assert_eq!(path_in(&"/bin".to_string(), &"/opt/tool".to_string()), "/opt/tool");
    assert_eq!(path_in(&"/bin".to_string(), &"".to_string()), "/bin/");
    assert_eq!(path_in(&"rel".to_string(), &"sub/tool".to_string()), "rel/sub/tool");
}

#[test]
fn joining_paths_agrees_with_the_standard_library() {
    for dir in ["", "/", "/bin", "/bin/", "rel", "rel/", "//", "a//"] {
        for name in ["", "ls", "/abs", "sub/x", "x/", "/"] {
            let expected = std::path::Path::new(dir).join(name);
            assert_eq!(
                path_in(&dir.to_string(), &name.to_string()),
                expected.to_str().unwrap(),
                "{:?} joined with {:?}",
                dir,
                name
            );
        }
    }
}

#[test]
fn candidates_follow_the_search_path() {
    let ls = "ls".to_string();
    assert_eq!(
        search_candidates(&Some("/usr/bin:/bin".to_string()), &ls),
        strings(&["/usr/bin/ls", "/bin/ls"])
    );
    assert_eq!(
        search_candidates(&Some("/usr/bin::/bin/".to_string()), &ls),
        strings(&["/usr/bin/ls", "ls", "/bin/ls"])
    );
    assert_eq!(search_candidates(&Some("/bin".to_string()), &ls), strings(&["/bin/ls"]));
}

#[test]
fn there_is_no_candidate_without_a_search_path() {
    let ls = "ls".to_string();
    assert_eq!(search_candidates(&None, &ls), Vec::<String>::new());
    assert_eq!(search_candidates(&Some(String::new()), &ls), Vec::<String>::new());
}
