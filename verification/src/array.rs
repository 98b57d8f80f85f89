//! Shell values: a plain string or an array of strings.
use vstd::prelude::*;
use crate::script::{
    first_key, key_index, keys_unique, lemma_first_key, lemma_keys_unique_push, lemma_keys_unique_update,
    lemma_lookup_push, lemma_lookup_update, lookup,
};
use crate::text::{nat_text, owned, parse_unsigned, parse_unsigned_str, push_char, str_eq, u64_text, views};

verus! {

/// A shell variable's value.
#[derive(Debug, PartialEq)]
pub enum ArrayValue {
    String(String),
    Array(Vec<String>),
}

/// The texts joined with single spaces.
pub open spec fn spaced(items: Seq<Seq<char>>) -> Seq<char>
    decreases items.len(),
{
    if items.len() == 0 {
        Seq::<char>::empty()
    } else if items.len() == 1 {
        items[0]
    } else {
        spaced(items.drop_last()) + seq![' '] + items.last()
    }
}

/// Joins strings with single spaces.
pub fn join_spaced(items: &[String]) -> (r: String)
    ensures
        r@ == spaced(crate::text::views(items@)),
{
    let mut r = String::new();
    let mut i: usize = 0;
    while i < items.len()
        invariant
            i <= items@.len(),
            r@ == spaced(crate::text::views(items@.subrange(0, i as int))),
        decreases items.len() - i,
    {
        let ghost pre = crate::text::views(items@.subrange(0, i as int));
        let ghost next = crate::text::views(items@.subrange(0, i + 1));
        assert(next.drop_last() =~= pre);
        assert(next.last() == items@[i as int]@);
        if i > 0 {
            push_char(&mut r, ' ');
        }
        r = r.concat(items[i].as_str());
        if i == 0 {
            assert(next.len() == 1);
            assert(r@ =~= spaced(next));
        } else {
            assert(r@ =~= spaced(next));
        }
        i = i + 1;
    }
    assert(items@.subrange(0, items@.len() as int) =~= items@);
    r
}

/// The text that displaying a value prints: the string itself, or the
/// elements in parentheses separated by spaces.
pub open spec fn display_text(v: ArrayValue) -> Seq<char> {
    match v {
        ArrayValue::String(s) => s@,
        ArrayValue::Array(a) => seq!['('] + spaced(crate::text::views(a@)) + seq![')'],
    }
}

impl ArrayValue {
    /// The string, if this value is one.
    pub fn as_string(&self) -> (r: Option<&str>)
        ensures
            match self {
                ArrayValue::String(s) => r is Some && r->0@ == s@,
                ArrayValue::Array(_) => r is None,
            },
    {
        match self {
            ArrayValue::String(s) => Some(s.as_str()),
            _ => None,
        }
    }

    /// The value as displayed: `hello` or `(a b c)`.
    pub fn to_string(&self) -> (r: String)
        ensures
            r@ == display_text(*self),
    {
        match self {
            ArrayValue::String(s) => owned(s.as_str()),
            ArrayValue::Array(arr) => {
                let mut r = String::new();
                push_char(&mut r, '(');
                let inner = join_spaced(arr.as_slice());
                let r2 = r.concat(inner.as_str());
                let mut r3 = r2;
                push_char(&mut r3, ')');
                assert(r3@ =~= seq!['('] + spaced(crate::text::views(arr@)) + seq![')']);
                r3
            },
        }
    }
}

/// The usage line of the `array` builtin.
pub open spec fn array_usage() -> Seq<char> {
    "Array commands: define, get, len, list"@
}

/// The elements of the array variable `name`, if that variable is an array.
pub open spec fn array_entry(env: Seq<(String, ArrayValue)>, name: Seq<char>) -> Option<Seq<Seq<char>>> {
    match lookup(env, name) {
        Some(ArrayValue::Array(a)) => Some(views(a@)),
        _ => None,
    }
}

/// `NAME=(a b c)` for every array variable, in order.
pub open spec fn list_lines(env: Seq<(String, ArrayValue)>) -> Seq<Seq<char>>
    decreases env.len(),
{
    if env.len() == 0 {
        Seq::empty()
    } else {
        list_lines(env.drop_last()) + match env.last().1 {
            ArrayValue::Array(a) => seq![env.last().0@ + "=("@ + spaced(views(a@)) + ")"@],
            ArrayValue::String(_) => Seq::empty(),
        }
    }
}

/// What `array ARGS` prints: `define NAME A B...` reports the new array,
/// `get NAME I` prints element `I` (0 when `I` is not a number), `len NAME`
/// its length, `list` every array; a missing array, a bad index and an
/// unknown subcommand are reported. Missing operands print nothing.
pub open spec fn array_output(args: Seq<Seq<char>>, env: Seq<(String, ArrayValue)>) -> Seq<Seq<char>> {
    if args.len() == 0 {
        seq![array_usage()]
    } else if args[0] == "define"@ {
        if args.len() > 2 {
            seq!["Array '"@ + args[1] + "' defined with "@ + nat_text((args.len() - 2) as nat) + " elements"@]
        } else {
            Seq::empty()
        }
    } else if args[0] == "get"@ {
        if args.len() > 2 {
            let idx = match parse_unsigned(args[2], usize::MAX as int) {
                Some(n) => n,
                None => 0,
            };
            match array_entry(env, args[1]) {
                Some(a) => if idx < a.len() {
                    seq![a[idx]]
                } else {
                    seq!["Index out of bounds"@]
                },
                None => seq!["Array '"@ + args[1] + "' not found"@],
            }
        } else {
            Seq::empty()
        }
    } else if args[0] == "len"@ {
        if args.len() > 1 {
            match array_entry(env, args[1]) {
                Some(a) => seq![nat_text(a.len())],
                None => seq!["Array '"@ + args[1] + "' not found"@],
            }
        } else {
            Seq::empty()
        }
    } else if args[0] == "list"@ {
        list_lines(env)
    } else {
        seq![array_usage()]
    }
}

fn array_at<'a>(env: &'a Vec<(String, ArrayValue)>, name: &str) -> (r: Option<&'a Vec<String>>)
    ensures
        match r {
            Some(a) => array_entry(env@, name@) == Some(views(a@)),
            None => array_entry(env@, name@) is None,
        },
{
    proof {
        lemma_first_key(env@, name@);
    }
    match key_index(env, name) {
        Some(k) => match &env[k].1 {
            ArrayValue::Array(a) => Some(a),
            ArrayValue::String(_) => None,
        },
        None => None,
    }
}

fn not_found(name: &str) -> (r: String)
    ensures
        r@ == "Array '"@ + name@ + "' not found"@,
{
    owned("Array '").concat(name).concat("' not found")
}

/// Runs the `array` builtin on the shell variables `env`: `define` sets
/// the array variable (replacing a variable of that name), the other
/// subcommands only read. The result is what it prints, line by line.
pub fn array_command(args: &[String], env: &mut Vec<(String, ArrayValue)>) -> (r: Vec<String>)
    ensures
        views(r@) == array_output(views(args@), old(env)@),
        if args@.len() > 2 && args@[0]@ == "define"@ {
            &&& lookup(final(env)@, args@[1]@) matches Some(ArrayValue::Array(a)) && views(a@) == views(args@).subrange(2, args@.len() as int)
            &&& forall|n: Seq<char>| n != args@[1]@ ==> lookup(final(env)@, n) == lookup(old(env)@, n)
            &&& keys_unique(old(env)@) ==> keys_unique(final(env)@)
        } else {
            final(env)@ == old(env)@
        },
{
    let mut out: Vec<String> = Vec::new();
    let ghost av = views(args@);
    if args.len() == 0 {
        out.push(owned("Array commands: define, get, len, list"));
        assert(views(out@) =~= array_output(av, env@));
        return out;
    }
    let sub = args[0].as_str();
    if str_eq(sub, "define") {
        if args.len() > 2 {
            let name = owned(args[1].as_str());
            let mut elements: Vec<String> = Vec::new();
            let mut i: usize = 2;
            while i < args.len()
                invariant
                    2 <= i <= args@.len(),
                    views(elements@) == views(args@).subrange(2, i as int),
                decreases args.len() - i,
            {
                let e = owned(args[i].as_str());
                let ghost before = views(elements@);
                elements.push(e);
                assert(views(elements@) =~= before.push(e@));
                assert(views(args@)[i as int] == args@[i as int]@);
                assert(views(elements@) =~= views(args@).subrange(2, i + 1));
                i += 1;
            }
            let count = u64_text((args.len() - 2) as u64);
            out.push(owned("Array '").concat(name.as_str()).concat("' defined with ").concat(count.as_str()).concat(" elements"));
            let ghost old_env = env@;
            let ghost key = name@;
            match key_index(env, name.as_str()) {
                Some(k) => {
                    proof {
                        lemma_first_key(old_env, key);
                    }
                    env.set(k, (name, ArrayValue::Array(elements)));
                    proof {
                        assert forall|n: Seq<char>| n != key implies lookup(env@, n) == lookup(old_env, n) by {
                            lemma_lookup_update(old_env, key, k as int, env@[k as int], n);
                        }
                        lemma_lookup_update(old_env, key, k as int, env@[k as int], key);
                        if keys_unique(old_env) {
                            lemma_keys_unique_update(old_env, key, k as int, env@[k as int]);
                        }
                    }
                },
                None => {
                    env.push((name, ArrayValue::Array(elements)));
                    proof {
                        assert(old_env.push(env@.last()) =~= env@);
                        assert forall|n: Seq<char>| n != key implies lookup(env@, n) == lookup(old_env, n) by {
                            lemma_lookup_push(old_env, env@.last(), n);
                        }
                        lemma_lookup_push(old_env, env@.last(), key);
                        if keys_unique(old_env) {
                            lemma_keys_unique_push(old_env, env@.last());
                        }
                    }
                },
            }
            assert(views(out@) =~= array_output(av, old_env));
        } else {
            assert(views(out@) =~= array_output(av, env@));
        }
        return out;
    }
    if str_eq(sub, "get") {
        if args.len() > 2 {
            let idx: usize = match parse_unsigned_str(args[2].as_str(), usize::MAX as u64) {
                Some(n) => n as usize,
                None => 0,
            };
            match array_at(env, args[1].as_str()) {
                Some(a) => {
                    if idx < a.len() {
                        out.push(owned(a[idx].as_str()));
                        assert(views(a@)[idx as int] == a@[idx as int]@);
                    } else {
                        out.push(owned("Index out of bounds"));
                    }
                },
                None => {
                    out.push(not_found(args[1].as_str()));
                },
            }
        }
        assert(views(out@) =~= array_output(av, env@));
        return out;
    }
    if str_eq(sub, "len") {
        if args.len() > 1 {
            match array_at(env, args[1].as_str()) {
                Some(a) => {
                    out.push(u64_text(a.len() as u64));
                },
                None => {
                    out.push(not_found(args[1].as_str()));
                },
            }
        }
        assert(views(out@) =~= array_output(av, env@));
        return out;
    }
    if str_eq(sub, "list") {
        let mut i: usize = 0;
        while i < env.len()
            invariant
                i <= env@.len(),
                views(out@) == list_lines(env@.subrange(0, i as int)),
            decreases env.len() - i,
        {
            assert(env@.subrange(0, i + 1).drop_last() =~= env@.subrange(0, i as int));
            let ghost before = views(out@);
            match &env[i].1 {
                ArrayValue::Array(a) => {
                    let line = owned(env[i].0.as_str()).concat("=(").concat(join_spaced(a.as_slice()).as_str()).concat(")");
                    out.push(line);
                    assert(views(out@) =~= before + seq![line@]);
                },
                ArrayValue::String(_) => {
                    assert(views(out@) =~= before + Seq::<Seq<char>>::empty());
                },
            }
            i += 1;
        }
        assert(env@.subrange(0, env@.len() as int) =~= env@);
        assert(views(out@) =~= array_output(av, env@));
        return out;
    }
    out.push(owned("Array commands: define, get, len, list"));
    assert(views(out@) =~= array_output(av, env@));
    out
}

/// Law: what `array define` stored is what `array get` and `array len`
/// read back: with `name` an array of `elems`, `get name I` prints element
/// `I` for every in-range index text `I`, and `len name` its length.
pub proof fn law_array_reads_back(
    env: Seq<(String, ArrayValue)>,
    name: Seq<char>,
    elems: Seq<Seq<char>>,
    index_text: Seq<char>,
    i: int,
)
    requires
        lookup(env, name) matches Some(ArrayValue::Array(a)) && views(a@) == elems,
        parse_unsigned(index_text, usize::MAX as int) == Some(i),
        0 <= i < elems.len(),
    ensures
        array_output(seq!["get"@, name, index_text], env) == seq![elems[i]],
        array_output(seq!["len"@, name], env) == seq![nat_text(elems.len())],
{
    reveal_strlit("get");
    reveal_strlit("len");
    reveal_strlit("define");
    assert("get"@.len() != "define"@.len());
    assert("len"@.len() != "define"@.len());
    assert("len"@[0] != "get"@[0]);
}

} // verus!
