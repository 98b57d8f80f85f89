use winuxsh::completion::VariableCompleter;

#[test]
fn test_get_common_variables() {
    let vars = VariableCompleter::get_common_variables();
    assert!(vars.contains(&"PATH".to_string()));
    assert!(vars.contains(&"HOME".to_string()));
}

#[test]
fn test_expand_variables() {
    let vars = vec![("TEST".to_string(), "value".to_string())];
    let result = VariableCompleter::expand_variables("echo $TEST", &vars, &[]);
    assert!(result.contains("echo"));
    assert_eq!(result, "echo value");
}

#[test]
fn expand_variables_prefers_shell_variables_over_the_environment() {
    let vars = vec![("A".to_string(), "shell".to_string())];
    let env = vec![("A".to_string(), "env".to_string()), ("B".to_string(), "b".to_string())];
    assert_eq!(VariableCompleter::expand_variables("${A}-$B-$C", &vars, &env), "shell-b-");
}

#[test]
fn variable_names_take_unicode_letters() {
    let vars = vec![("café".to_string(), "latte".to_string())];
    assert_eq!(VariableCompleter::expand_variables("$café!", &vars, &[]), "latte!");
    assert_eq!(VariableCompleter::expand_variables("$a-b", &[("a".to_string(), "x".to_string())], &[]), "x-b");
}

#[test]
fn expanded_text_has_no_dollar_left() {
    let vars = vec![("A".to_string(), "x".to_string())];
    let result = VariableCompleter::expand_variables("$A ${A} $ $? ${B} $", &vars, &[]);
    assert_eq!(result, "x x  ?  ");
    assert!(!result.contains('$'));
}

#[test]
fn unrelated_dollar_values_do_not_matter() {
    let vars = vec![("TEST".to_string(), "value".to_string()), ("PS1".to_string(), "$USER> ".to_string())];
    assert_eq!(VariableCompleter::expand_variables("echo $TEST", &vars, &[]), "echo value");
}
