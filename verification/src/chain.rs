//! Command lists joined by `&&`, `||` and `;`: which command runs next,
//! given the exit status of the one that ran before. A line is a tree whose
//! leaves are its commands (a single command or a pipeline, by position);
//! the runner keeps a stack of what is left to do.
use vstd::prelude::*;

verus! {

/// A command line: a command (or pipeline) by its position, or two parts
/// joined by `&&`, `||` or `;`.
#[derive(Debug)]
pub enum CommandTree {
    Single(usize),
    And(Box<CommandTree>, Box<CommandTree>),
    Or(Box<CommandTree>, Box<CommandTree>),
    Sequence(Box<CommandTree>, Box<CommandTree>),
}

/// What is left to run after the current command: a part to run in any
/// case, only after success (exit status 0), or only after failure.
#[derive(Debug)]
pub enum Pending {
    Then(CommandTree),
    IfOk(CommandTree),
    IfFail(CommandTree),
}

/// The number of commands in a tree.
pub open spec fn leaves(t: CommandTree) -> nat
    decreases t,
{
    match t {
        CommandTree::Single(_) => 1,
        CommandTree::And(l, r) => leaves(*l) + leaves(*r),
        CommandTree::Or(l, r) => leaves(*l) + leaves(*r),
        CommandTree::Sequence(l, r) => leaves(*l) + leaves(*r),
    }
}

/// The tree a pending entry holds.
pub open spec fn pending_tree(p: Pending) -> CommandTree {
    match p {
        Pending::Then(t) => t,
        Pending::IfOk(t) => t,
        Pending::IfFail(t) => t,
    }
}

/// The number of commands a stack may still run.
pub open spec fn weight(s: Seq<Pending>) -> nat
    decreases s.len(),
{
    if s.len() == 0 {
        0
    } else {
        weight(s.drop_last()) + leaves(pending_tree(s.last()))
    }
}

/// The first command of `t`, and the stack once the parts after it are
/// pushed onto `stack`: the right part of `&&` to run after success, of
/// `||` after failure, of `;` in any case.
pub open spec fn descend(t: CommandTree, stack: Seq<Pending>) -> (usize, Seq<Pending>)
    decreases t,
{
    match t {
        CommandTree::Single(k) => (k, stack),
        CommandTree::And(l, r) => descend(*l, stack.push(Pending::IfOk(*r))),
        CommandTree::Or(l, r) => descend(*l, stack.push(Pending::IfFail(*r))),
        CommandTree::Sequence(l, r) => descend(*l, stack.push(Pending::Then(*r))),
    }
}

/// The next command after one that exited with `status`, and the stack
/// after it: entries whose condition `status` fails are dropped; `None`
/// when nothing is left.
pub open spec fn resume(stack: Seq<Pending>, status: int) -> Option<(usize, Seq<Pending>)>
    decreases stack.len(),
{
    if stack.len() == 0 {
        None
    } else {
        match stack.last() {
            Pending::Then(t) => Some(descend(t, stack.drop_last())),
            Pending::IfOk(t) => if status == 0 {
                Some(descend(t, stack.drop_last()))
            } else {
                resume(stack.drop_last(), status)
            },
            Pending::IfFail(t) => if status != 0 {
                Some(descend(t, stack.drop_last()))
            } else {
                resume(stack.drop_last(), status)
            },
        }
    }
}

/// Descending adds the tree's commands but the first to the stack.
pub proof fn lemma_descend_weight(t: CommandTree, stack: Seq<Pending>)
    ensures
        leaves(t) >= 1,
        weight(descend(t, stack).1) + 1 == weight(stack) + leaves(t),
    decreases t,
{
    match t {
        CommandTree::Single(_) => {},
        CommandTree::And(l, r) => {
            let s2 = stack.push(Pending::IfOk(*r));
            assert(s2.drop_last() =~= stack);
            lemma_descend_weight(*l, s2);
            lemma_descend_weight(*r, stack);
        },
        CommandTree::Or(l, r) => {
            let s2 = stack.push(Pending::IfFail(*r));
            assert(s2.drop_last() =~= stack);
            lemma_descend_weight(*l, s2);
            lemma_descend_weight(*r, stack);
        },
        CommandTree::Sequence(l, r) => {
            let s2 = stack.push(Pending::Then(*r));
            assert(s2.drop_last() =~= stack);
            lemma_descend_weight(*l, s2);
            lemma_descend_weight(*r, stack);
        },
    }
}

/// Each step runs one command of the stack, so the stack's weight drops.
pub proof fn lemma_resume_weight(stack: Seq<Pending>, status: int)
    ensures
        resume(stack, status) matches Some((_, s)) ==> weight(s) < weight(stack),
    decreases stack.len(),
{
    if stack.len() > 0 {
        let t = pending_tree(stack.last());
        lemma_descend_weight(t, stack.drop_last());
        lemma_resume_weight(stack.drop_last(), status);
    }
}

/// The commands that `t` runs, in order, when the `n`-th command run (from
/// `pos` on) exits with `outcome(n)`, with the last exit status and the
/// position after them: `&&` runs its right part only after success, `||`
/// only after failure, `;` always.
pub open spec fn runs(t: CommandTree, outcome: spec_fn(nat) -> int, pos: nat) -> (Seq<usize>, int, nat)
    decreases t,
{
    match t {
        CommandTree::Single(k) => (seq![k], outcome(pos), pos + 1),
        CommandTree::And(l, r) => {
            let (a, s, p) = runs(*l, outcome, pos);
            if s == 0 {
                let (b, s2, p2) = runs(*r, outcome, p);
                (a + b, s2, p2)
            } else {
                (a, s, p)
            }
        },
        CommandTree::Or(l, r) => {
            let (a, s, p) = runs(*l, outcome, pos);
            if s != 0 {
                let (b, s2, p2) = runs(*r, outcome, p);
                (a + b, s2, p2)
            } else {
                (a, s, p)
            }
        },
        CommandTree::Sequence(l, r) => {
            let (a, s, p) = runs(*l, outcome, pos);
            let (b, s2, p2) = runs(*r, outcome, p);
            (a + b, s2, p2)
        },
    }
}

/// The commands that stepping through `stack` runs, after one that exited
/// with `status`, when the `n`-th command run exits with `outcome(n)`; and
/// the last exit status.
pub open spec fn stepped(stack: Seq<Pending>, outcome: spec_fn(nat) -> int, pos: nat, status: int) -> (
    Seq<usize>,
    int,
)
    decreases weight(stack),
{
    match resume(stack, status) {
        None => (Seq::empty(), status),
        Some((k, s)) => {
            proof {
                lemma_resume_weight(stack, status);
            }
            let (rest, last) = stepped(s, outcome, pos + 1, outcome(pos));
            (seq![k] + rest, last)
        },
    }
}

proof fn lemma_stepped_tree(
    t: CommandTree,
    stack: Seq<Pending>,
    outcome: spec_fn(nat) -> int,
    pos: nat,
    status: int,
)
    ensures
        ({
            let (a, s, p) = runs(t, outcome, pos);
            let (b, last) = stepped(stack, outcome, p, s);
            stepped(stack.push(Pending::Then(t)), outcome, pos, status) == (a + b, last)
        }),
    decreases t,
{
    let top = stack.push(Pending::Then(t));
    assert(top.drop_last() =~= stack);
    lemma_resume_weight(top, status);
    match t {
        CommandTree::Single(k) => {
            let (b, last) = stepped(stack, outcome, pos + 1, outcome(pos));
            assert(seq![k] + b =~= seq![k] + b);
        },
        CommandTree::And(l, r) => {
            let s2 = stack.push(Pending::IfOk(*r));
            let inner = s2.push(Pending::Then(*l));
            assert(inner.drop_last() =~= s2);
            assert(s2.drop_last() =~= stack);
            assert(resume(top, status) == resume(inner, status));
            lemma_resume_weight(inner, status);
            assert(stepped(top, outcome, pos, status) == stepped(inner, outcome, pos, status));
            lemma_stepped_tree(*l, s2, outcome, pos, status);
            let (a, s, p) = runs(*l, outcome, pos);
            if s == 0 {
                let sr = stack.push(Pending::Then(*r));
                assert(sr.drop_last() =~= stack);
                assert(resume(s2, s) == resume(sr, s));
                lemma_resume_weight(s2, s);
                lemma_resume_weight(sr, s);
                assert(stepped(s2, outcome, p, s) == stepped(sr, outcome, p, s));
                lemma_stepped_tree(*r, stack, outcome, p, s);
                let (b, s3, p3) = runs(*r, outcome, p);
                let (c, last) = stepped(stack, outcome, p3, s3);
                assert(a + (b + c) =~= (a + b) + c);
            } else {
                assert(resume(s2, s) == resume(stack, s));
                lemma_resume_weight(s2, s);
                lemma_resume_weight(stack, s);
                assert(stepped(s2, outcome, p, s) == stepped(stack, outcome, p, s));
            }
        },
        CommandTree::Or(l, r) => {
            let s2 = stack.push(Pending::IfFail(*r));
            let inner = s2.push(Pending::Then(*l));
            assert(inner.drop_last() =~= s2);
            assert(s2.drop_last() =~= stack);
            assert(resume(top, status) == resume(inner, status));
            lemma_resume_weight(inner, status);
            assert(stepped(top, outcome, pos, status) == stepped(inner, outcome, pos, status));
            lemma_stepped_tree(*l, s2, outcome, pos, status);
            let (a, s, p) = runs(*l, outcome, pos);
            if s != 0 {
                let sr = stack.push(Pending::Then(*r));
                assert(sr.drop_last() =~= stack);
                assert(resume(s2, s) == resume(sr, s));
                lemma_resume_weight(s2, s);
                lemma_resume_weight(sr, s);
                assert(stepped(s2, outcome, p, s) == stepped(sr, outcome, p, s));
                lemma_stepped_tree(*r, stack, outcome, p, s);
                let (b, s3, p3) = runs(*r, outcome, p);
                let (c, last) = stepped(stack, outcome, p3, s3);
                assert(a + (b + c) =~= (a + b) + c);
            } else {
                assert(resume(s2, s) == resume(stack, s));
                lemma_resume_weight(s2, s);
                lemma_resume_weight(stack, s);
                assert(stepped(s2, outcome, p, s) == stepped(stack, outcome, p, s));
            }
        },
        CommandTree::Sequence(l, r) => {
            let s2 = stack.push(Pending::Then(*r));
            let inner = s2.push(Pending::Then(*l));
            assert(inner.drop_last() =~= s2);
            assert(s2.drop_last() =~= stack);
            assert(resume(top, status) == resume(inner, status));
            lemma_resume_weight(inner, status);
            assert(stepped(top, outcome, pos, status) == stepped(inner, outcome, pos, status));
            lemma_stepped_tree(*l, s2, outcome, pos, status);
            let (a, s, p) = runs(*l, outcome, pos);
            lemma_stepped_tree(*r, stack, outcome, p, s);
            let (b, s3, p3) = runs(*r, outcome, p);
            let (c, last) = stepped(stack, outcome, p3, s3);
            assert(a + (b + c) =~= (a + b) + c);
        },
    }
}

/// Law: stepping through a line from its start runs exactly the commands
/// that the line's `&&`, `||` and `;` call for, in order, and ends with the
/// exit status of the last of them.
pub proof fn law_steps_follow_the_line(t: CommandTree, outcome: spec_fn(nat) -> int, status: int)
    ensures
        stepped(seq![Pending::Then(t)], outcome, 0, status) == (runs(t, outcome, 0).0, runs(
            t,
            outcome,
            0,
        ).1),
{
    let empty = Seq::<Pending>::empty();
    assert(empty.push(Pending::Then(t)) =~= seq![Pending::Then(t)]);
    lemma_stepped_tree(t, empty, outcome, 0, status);
    let (a, s, p) = runs(t, outcome, 0);
    assert(resume(empty, s) is None);
    assert(a + Seq::<usize>::empty() =~= a);
}

/// Pushes the parts of `t` after its first command onto `stack` and
/// returns that command.
fn descend_into(t: CommandTree, stack: &mut Vec<Pending>) -> (k: usize)
    ensures
        (k, final(stack)@) == descend(t, old(stack)@),
    decreases t,
{
    match t {
        CommandTree::Single(k) => k,
        CommandTree::And(l, r) => {
            stack.push(Pending::IfOk(*r));
            descend_into(*l, stack)
        },
        CommandTree::Or(l, r) => {
            stack.push(Pending::IfFail(*r));
            descend_into(*l, stack)
        },
        CommandTree::Sequence(l, r) => {
            stack.push(Pending::Then(*r));
            descend_into(*l, stack)
        },
    }
}

/// The first command of a line, and what is left to run after it.
pub fn first_command(t: CommandTree) -> (r: (usize, Vec<Pending>))
    ensures
        (r.0, r.1@) == descend(t, Seq::empty()),
{
    let mut stack: Vec<Pending> = Vec::new();
    let k = descend_into(t, &mut stack);
    (k, stack)
}

/// The next command to run after one that exited with `status`, taken
/// from `stack`; `None` when the line is done.
pub fn next_command(stack: &mut Vec<Pending>, status: i32) -> (r: Option<usize>)
    ensures
        match resume(old(stack)@, status as int) {
            Some((k, s)) => r == Some(k) && final(stack)@ == s,
            None => r is None && final(stack)@.len() == 0,
        },
{
    loop
        invariant
            resume(stack@, status as int) == resume(old(stack)@, status as int),
        decreases stack@.len(),
    {
        let ghost before = stack@;
        match stack.pop() {
            None => {
                return None;
            },
            Some(p) => {
                assert(before.drop_last() =~= stack@);
                match p {
                    Pending::Then(t) => {
                        return Some(descend_into(t, stack));
                    },
                    Pending::IfOk(t) => {
                        if status == 0 {
                            return Some(descend_into(t, stack));
                        }
                    },
                    Pending::IfFail(t) => {
                        if status != 0 {
                            return Some(descend_into(t, stack));
                        }
                    },
                }
            },
        }
    }
}

} // verus!
