use rawk_core::{Program, Rule};

#[test]
fn test_skeleton() {
    assert!(true);
}

#[test]
fn a_new_program_has_no_rules() {
    let program = Program::new();
    assert_eq!(program.len(), 0);
    assert_eq!(program.to_string(), "");
    let rules: &Vec<Rule> = program.rules();
    assert!(rules.is_empty());
}
