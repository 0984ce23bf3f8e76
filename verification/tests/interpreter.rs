use department_roster::roster::{
    handle_add_command, handle_command, handle_list_company, handle_list_department, Roster,
};

fn run(roster: &mut Roster, line: &str) -> Vec<String> {
    handle_command(line, roster)
}

#[test]
fn add_reports_the_person_and_department() {
    let mut roster = Roster::new();
    let out = run(&mut roster, "add Alice to Engineering");
    assert_eq!(out, vec!["Added Alice to the Engineering department".to_string()]);
}

#[test]
fn add_then_list_shows_the_person() {
    let mut roster = Roster::new();
    run(&mut roster, "add Alice to Engineering");
    let out = run(&mut roster, "list Engineering");
    assert_eq!(out, vec!["1. Alice".to_string()]);
}

#[test]
fn add_replaces_the_previous_member() {
    let mut roster = Roster::new();
    run(&mut roster, "add Alice to Engineering");
    run(&mut roster, "add Bob to Engineering");
    let out = run(&mut roster, "list Engineering");
    assert_eq!(out, vec!["1. Bob".to_string()]);
}

#[test]
fn list_unknown_department_reports_nobody() {
    let mut roster = Roster::new();
    let out = run(&mut roster, "list Nonexistent");
    assert_eq!(out, vec!["Nobody was found in the Nonexistent department".to_string()]);
}

#[test]
fn list_all_on_empty_roster_reports_nobody_employed() {
    let mut roster = Roster::new();
    let out = run(&mut roster, "list-all");
    assert_eq!(out, vec!["Nobody is currently employed to any department.".to_string()]);
}

#[test]
fn list_all_sorts_across_departments() {
    let mut roster = Roster::new();
    run(&mut roster, "add Zoe to HR");
    run(&mut roster, "add Amy to IT");
    let out = run(&mut roster, "list-all");
    assert_eq!(out, vec!["1. Amy".to_string(), "2. Zoe".to_string()]);
}

#[test]
fn listing_twice_gives_identical_output() {
    let mut roster = Roster::new();
    run(&mut roster, "add Carol to Sales");
    let first = run(&mut roster, "list Sales");
    let second = run(&mut roster, "list Sales");
    assert_eq!(first, second);
    let first_all = run(&mut roster, "list-all");
    let second_all = run(&mut roster, "list-all");
    assert_eq!(first_all, second_all);
}

#[test]
fn wrong_token_counts_are_ignored() {
    let mut roster = Roster::new();
    assert!(run(&mut roster, "add Alice Engineering").is_empty());
    assert!(run(&mut roster, "add Alice to the Engineering").is_empty());
    assert!(run(&mut roster, "").is_empty());
    assert!(run(&mut roster, "   ").is_empty());
    let out = run(&mut roster, "list-all");
    assert_eq!(out, vec!["Nobody is currently employed to any department.".to_string()]);
}

#[test]
fn wrong_verbs_are_ignored() {
    let mut roster = Roster::new();
    assert!(run(&mut roster, "put Alice to Engineering").is_empty());
    assert!(run(&mut roster, "show Engineering").is_empty());
    assert!(run(&mut roster, "quit").is_empty());
    let out = run(&mut roster, "list-all");
    assert_eq!(out, vec!["Nobody is currently employed to any department.".to_string()]);
}

#[test]
fn command_words_ignore_ascii_case() {
    let mut roster = Roster::new();
    let out = run(&mut roster, "ADD Alice To Engineering");
    assert_eq!(out, vec!["Added Alice to the Engineering department".to_string()]);
    let out = run(&mut roster, "List Engineering");
    assert_eq!(out, vec!["1. Alice".to_string()]);
    let out = run(&mut roster, "LIST-ALL");
    assert_eq!(out, vec!["1. Alice".to_string()]);
}

#[test]
fn department_names_are_case_sensitive() {
    let mut roster = Roster::new();
    run(&mut roster, "add Alice to HR");
    let out = run(&mut roster, "list hr");
    assert_eq!(out, vec!["Nobody was found in the hr department".to_string()]);
}

#[test]
fn separator_token_is_never_examined() {
    let mut roster = Roster::new();
    let out = run(&mut roster, "add Alice into Engineering");
    assert_eq!(out, vec!["Added Alice to the Engineering department".to_string()]);
    let out = run(&mut roster, "list Engineering");
    assert_eq!(out, vec!["1. Alice".to_string()]);
}

#[test]
fn extra_whitespace_between_tokens_is_fine() {
    let mut roster = Roster::new();
    let out = run(&mut roster, "  add\tAlice   to \u{2003} Engineering \n");
    assert_eq!(out, vec!["Added Alice to the Engineering department".to_string()]);
}

#[test]
fn handlers_can_be_called_directly() {
    let mut roster = Roster::new();
    let msg = handle_add_command("Dora", "Support", &mut roster);
    assert_eq!(msg, "Added Dora to the Support department");
    let out = handle_list_department("Support", &mut roster);
    assert_eq!(out, vec!["1. Dora".to_string()]);
    let out = handle_list_company(&roster);
    assert_eq!(out, vec!["1. Dora".to_string()]);
}

#[test]
fn list_all_merges_and_numbers_many_departments() {
    let mut roster = Roster::new();
    run(&mut roster, "add Walter to Physics");
    run(&mut roster, "add Ada to Computing");
    run(&mut roster, "add Marie to Chemistry");
    run(&mut roster, "add Walter to Physics");
    let out = run(&mut roster, "list-all");
    assert_eq!(
        out,
        vec!["1. Ada".to_string(), "2. Marie".to_string(), "3. Walter".to_string()],
    );
}
