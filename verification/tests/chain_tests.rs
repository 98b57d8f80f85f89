use winuxsh::chain::{first_command, next_command, CommandTree};

fn single(k: usize) -> Box<CommandTree> {
    Box::new(CommandTree::Single(k))
}

#[test]
fn and_runs_right_only_after_success() {
    let (k, mut stack) = first_command(CommandTree::And(single(0), single(1)));
    assert_eq!(k, 0);
    assert_eq!(next_command(&mut stack, 0), Some(1));
    assert_eq!(next_command(&mut stack, 0), None);

    let (_, mut stack) = first_command(CommandTree::And(single(0), single(1)));
    assert_eq!(next_command(&mut stack, 2), None);
    assert!(stack.is_empty());
}

#[test]
fn or_runs_right_only_after_failure() {
    let (k, mut stack) = first_command(CommandTree::Or(single(0), single(1)));
    assert_eq!(k, 0);
    assert_eq!(next_command(&mut stack, 1), Some(1));
    assert_eq!(next_command(&mut stack, 1), None);

    let (_, mut stack) = first_command(CommandTree::Or(single(0), single(1)));
    assert_eq!(next_command(&mut stack, 0), None);
}

#[test]
fn sequence_runs_everything() {
    let line = CommandTree::Sequence(
        Box::new(CommandTree::And(single(0), single(1))),
        single(2),
    );
    let (k, mut stack) = first_command(line);
    assert_eq!(k, 0);
    assert_eq!(next_command(&mut stack, 1), Some(2));
    assert_eq!(next_command(&mut stack, 0), None);
}

#[test]
fn nested_or_inside_and() {
    // (0 || 1) && 2
    let line = CommandTree::And(Box::new(CommandTree::Or(single(0), single(1))), single(2));
    let (k, mut stack) = first_command(line);
    assert_eq!(k, 0);
    assert_eq!(next_command(&mut stack, 0), Some(2));
    assert_eq!(next_command(&mut stack, 0), None);

    let line = CommandTree::And(Box::new(CommandTree::Or(single(0), single(1))), single(2));
    let (_, mut stack) = first_command(line);
    assert_eq!(next_command(&mut stack, 1), Some(1));
    assert_eq!(next_command(&mut stack, 1), None);
}

#[test]
fn single_command_line() {
    let (k, mut stack) = first_command(CommandTree::Single(7));
    assert_eq!(k, 7);
    assert_eq!(next_command(&mut stack, 0), None);
}
