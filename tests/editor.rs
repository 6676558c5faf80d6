use rshell::completion::{get_partial_matches, longest_common_prefix};
use rshell::editor::{candidates_line, KeyEffect, Shell};

fn strings(v: &[&str]) -> Vec<String> {
    v.iter().map(|s| s.to_string()).collect()
}

fn type_text(sh: &mut Shell, text: &str) {
    for c in text.chars() {
        assert_eq!(sh.handle_key(c), KeyEffect::Echo(c.to_string()));
    }
}

fn buffer(sh: &Shell) -> String {
    sh.buffer.iter().collect()
}

#[test]
fn ambiguous_prefix_rings_then_lists() {
    let mut sh = Shell::new();
    type_text(&mut sh, "e");
    let path = strings(&["ls", "cat"]);
    assert_eq!(sh.tab(&path), KeyEffect::Bell);
    assert!(sh.in_multiple_opts_state);
    assert_eq!(sh.matches_cache, strings(&["echo", "exit"]));
    assert_eq!(sh.tab(&path), KeyEffect::ListCandidates("echo  exit".to_string()));
    assert!(!sh.in_multiple_opts_state);
    assert_eq!(buffer(&sh), "e");
    assert_eq!(sh.cursor_pos, 1);
}

#[test]
fn unique_candidate_is_completed_with_a_space() {
    let mut sh = Shell::new();
    type_text(&mut sh, "pw");
    assert_eq!(sh.tab(&vec![]), KeyEffect::Echo("d ".to_string()));
    assert_eq!(buffer(&sh), "pwd ");
    assert_eq!(sh.cursor_pos, 4);
    assert!(!sh.in_multiple_opts_state);
    assert!(sh.matches_cache.is_empty());
}

#[test]
fn no_candidate_rings_the_bell() {
    let mut sh = Shell::new();
    type_text(&mut sh, "zz");
    assert_eq!(sh.tab(&strings(&["ls"])), KeyEffect::Bell);
    assert!(!sh.in_multiple_opts_state);
    assert_eq!(buffer(&sh), "zz");
}

#[test]
fn shared_prefix_is_appended() {
    let mut sh = Shell::new();
    type_text(&mut sh, "ca");
    let path = strings(&["cargo-fmt", "cargo", "cat"]);
    assert_eq!(sh.tab(&path), KeyEffect::Bell);
    let mut sh = Shell::new();
    type_text(&mut sh, "car");
    assert_eq!(sh.tab(&path), KeyEffect::Echo("go".to_string()));
    assert_eq!(buffer(&sh), "cargo");
    assert_eq!(sh.cursor_pos, 5);
    assert!(!sh.in_multiple_opts_state);
    assert_eq!(sh.matches_cache, strings(&["cargo", "cargo-fmt"]));
}

#[test]
fn completion_uses_the_last_word() {
    let mut sh = Shell::new();
    type_text(&mut sh, "echo ty");
    assert_eq!(sh.tab(&vec![]), KeyEffect::Echo("pe ".to_string()));
    assert_eq!(buffer(&sh), "echo type ");
}

#[test]
fn other_keys_clear_the_pending_bell() {
    let mut sh = Shell::new();
    type_text(&mut sh, "e");
    assert_eq!(sh.tab(&vec![]), KeyEffect::Bell);
    assert!(sh.in_multiple_opts_state);
    type_text(&mut sh, "x");
    assert!(!sh.in_multiple_opts_state);
    assert_eq!(sh.tab(&vec![]), KeyEffect::Echo("it ".to_string()));
}

#[test]
fn tab_key_asks_for_completion() {
    let mut sh = Shell::new();
    type_text(&mut sh, "ec");
    assert_eq!(sh.handle_key('\t'), KeyEffect::Complete);
    assert_eq!(buffer(&sh), "ec");
}

#[test]
fn backspace_erases_before_cursor() {
    let mut sh = Shell::new();
    type_text(&mut sh, "ab");
    assert_eq!(sh.handle_key('\x7f'), KeyEffect::Erase);
    assert_eq!(buffer(&sh), "a");
    assert_eq!(sh.cursor_pos, 1);
    assert_eq!(sh.handle_key('\x7f'), KeyEffect::Erase);
    assert_eq!(sh.handle_key('\x7f'), KeyEffect::Nothing);
    assert_eq!(buffer(&sh), "");
    assert_eq!(sh.cursor_pos, 0);
}

#[test]
fn enter_submits_and_resets() {
    let mut sh = Shell::new();
    type_text(&mut sh, "pwd");
    assert_eq!(sh.line(), "pwd");
    assert_eq!(sh.handle_key('\n'), KeyEffect::Submit("pwd".to_string()));
    assert_eq!(buffer(&sh), "");
    assert_eq!(sh.cursor_pos, 0);
}

#[test]
fn end_of_transmission_exits() {
    let mut sh = Shell::new();
    assert_eq!(sh.handle_key('\x04'), KeyEffect::Exit);
}

#[test]
fn current_word_follows_last_blank() {
    let mut sh = Shell::new();
    type_text(&mut sh, "ls -l");
    assert_eq!(sh.current_word(), vec!['-', 'l']);
    type_text(&mut sh, " ");
    assert!(sh.current_word().is_empty());
}

#[test]
fn partial_matches_are_sorted_and_unique() {
    let path = strings(&["env", "echo", "ls", "exit", "e"]);
    assert_eq!(get_partial_matches("e", &path), strings(&["e", "echo", "env", "exit"]));
    assert_eq!(get_partial_matches("x", &path), strings(&[]));
    assert_eq!(get_partial_matches("", &vec![]), strings(&["cd", "echo", "exit", "pwd", "type"]));
}

#[test]
fn common_prefix_of_candidates() {
    assert_eq!(longest_common_prefix(&strings(&["echo", "exit"])), "e");
    assert_eq!(longest_common_prefix(&strings(&["cargo", "cargo-fmt"])), "cargo");
    assert_eq!(longest_common_prefix(&strings(&["abc"])), "abc");
    assert_eq!(longest_common_prefix(&strings(&["abc", "xyz"])), "");
    assert_eq!(longest_common_prefix(&[]), "");
}

#[test]
fn candidate_listing_uses_two_spaces() {
    assert_eq!(candidates_line(&strings(&["echo", "exit", "env"])), "echo  exit  env");
    assert_eq!(candidates_line(&strings(&[])), "");
}
