//! The command history file: what saving a command leaves in it, and what
//! the `history` builtin lists from it.
use vstd::prelude::*;
use crate::text::{
    has_char, has_prefix, in_set, nat_text, owned, push_char, split_by, str_starts_with, trim, trim_end,
    trim_start, u64_text, views, TrimSet,
};
use crate::runtime::clean_command_name;

verus! {

/// The history text once `command` is saved: the command without white
/// space and byte-order marks at its ends, after a line break when the
/// history is not empty; nothing is saved for a blank command.
pub open spec fn saved_history(history: Seq<char>, command: Seq<char>) -> Option<Seq<char>> {
    let clean = trim(command, TrimSet::WhitespaceOrBom);
    if clean.len() == 0 {
        None
    } else if history.len() == 0 {
        Some(clean)
    } else {
        Some(history + seq!['\n'] + clean)
    }
}

/// The history text to write back after `command` is saved, or `None` when
/// the command is blank and the file is left alone.
pub fn history_after(history: &str, command: &str) -> (r: Option<String>)
    ensures
        match r {
            Some(h) => saved_history(history@, command@) == Some(h@),
            None => saved_history(history@, command@) is None,
        },
{
    let clean = clean_command_name(command);
    if clean.as_str().unicode_len() == 0 {
        return None;
    }
    if history.unicode_len() == 0 {
        return Some(clean);
    }
    let mut h = owned(history);
    push_char(&mut h, '\n');
    Some(h.concat(clean.as_str()))
}

/// The entries of the history: its lines without white space and
/// byte-order marks at their ends, leaving out empty lines and comments.
pub open spec fn history_entries(lines: Seq<Seq<char>>) -> Seq<Seq<char>>
    decreases lines.len(),
{
    if lines.len() == 0 {
        Seq::empty()
    } else {
        let t = trim(lines.last(), TrimSet::WhitespaceOrBom);
        history_entries(lines.drop_last()) + if t.len() == 0 || has_prefix(t, "#"@) {
            Seq::empty()
        } else {
            seq![t]
        }
    }
}

/// What the `history` builtin prints for the history's lines: a title, then
/// each entry numbered from 1.
pub open spec fn history_listing(lines: Seq<Seq<char>>) -> Seq<Seq<char>> {
    let e = history_entries(lines);
    seq!["Command History:"@] + Seq::new(
        e.len(),
        |i: int| "  "@ + nat_text((i + 1) as nat) + "  "@ + e[i],
    )
}

/// The lines the `history` builtin prints for the lines of the history
/// file.
pub fn history_report(lines: &[String]) -> (r: Vec<String>)
    requires
        lines@.len() < u64::MAX,
    ensures
        views(r@) == history_listing(views(lines@)),
{
    let mut entries: Vec<String> = Vec::new();
    let mut i: usize = 0;
    while i < lines.len()
        invariant
            i <= lines@.len(),
            entries@.len() <= i,
            views(entries@) == history_entries(views(lines@).subrange(0, i as int)),
        decreases lines.len() - i,
    {
        let ghost pre = views(lines@).subrange(0, i + 1);
        assert(pre.drop_last() =~= views(lines@).subrange(0, i as int));
        assert(pre.last() == lines@[i as int]@);
        let t = clean_command_name(lines[i].as_str());
        let ghost before = views(entries@);
        if t.as_str().unicode_len() > 0 && !str_starts_with(t.as_str(), "#") {
            entries.push(t);
            assert(views(entries@) =~= before + seq![t@]);
        } else {
            assert(views(entries@) =~= before + Seq::<Seq<char>>::empty());
        }
        i += 1;
    }
    assert(views(lines@).subrange(0, i as int) =~= views(lines@));
    let ghost e = history_entries(views(lines@));
    let ghost want = history_listing(views(lines@));
    let mut out: Vec<String> = Vec::new();
    out.push(owned("Command History:"));
    let mut k: usize = 0;
    while k < entries.len()
        invariant
            k <= entries@.len(),
            entries@.len() <= lines@.len() < u64::MAX,
            views(entries@) == e,
            e == history_entries(views(lines@)),
            want == history_listing(views(lines@)),
            views(out@) == want.subrange(0, k + 1),
        decreases entries.len() - k,
    {
        let line = owned("  ").concat(u64_text((k + 1) as u64).as_str()).concat("  ").concat(
            entries[k].as_str(),
        );
        let ghost before = views(out@);
        assert(want.len() == e.len() + 1);
        assert(want[k + 1] == "  "@ + nat_text((k + 1) as nat) + "  "@ + e[k as int]);
        assert(want[k + 1] =~= line@);
        out.push(line);
        assert(views(out@) =~= before.push(line@));
        assert(want.subrange(0, k + 2) =~= want.subrange(0, k + 1).push(want[k + 1]));
        k += 1;
    }
    assert(want.subrange(0, k + 1) =~= want);
    out
}

/// What `trim_start` leaves does not start with a trimmed character.
proof fn lemma_trim_start_first(s: Seq<char>, k: TrimSet)
    ensures
        trim_start(s, k).len() > 0 ==> !in_set(k, trim_start(s, k)[0]),
    decreases s.len(),
{
    if s.len() > 0 && in_set(k, s[0]) {
        lemma_trim_start_first(s.drop_first(), k);
    }
}

/// What `trim_end` leaves is a prefix of its input that does not end with a
/// trimmed character.
proof fn lemma_trim_end_prefix(s: Seq<char>, k: TrimSet)
    ensures
        trim_end(s, k).len() <= s.len(),
        trim_end(s, k) == s.subrange(0, trim_end(s, k).len() as int),
        trim_end(s, k).len() > 0 ==> !in_set(k, trim_end(s, k).last()),
    decreases s.len(),
{
    if s.len() > 0 && in_set(k, s.last()) {
        lemma_trim_end_prefix(s.drop_last(), k);
        let t = trim_end(s.drop_last(), k);
        assert(s.drop_last().subrange(0, t.len() as int) =~= s.subrange(0, t.len() as int));
    } else {
        assert(s.subrange(0, s.len() as int) =~= s);
    }
}

/// Trimming twice trims no more than trimming once.
proof fn lemma_trim_twice(s: Seq<char>, k: TrimSet)
    ensures
        trim(trim(s, k), k) == trim(s, k),
{
    let a = trim_start(s, k);
    let t = trim_end(a, k);
    lemma_trim_start_first(s, k);
    lemma_trim_end_prefix(a, k);
    if t.len() > 0 {
        assert(t[0] == a[0]);
        assert(trim_start(t, k) == t);
        assert(trim_end(t, k) == t);
    } else {
        assert(trim_start(t, k) == t);
        assert(trim_end(t, k) == t);
    }
}

/// A text without the separator is one piece.
proof fn lemma_split_whole(s: Seq<char>, c: char)
    requires
        !has_char(s, c),
    ensures
        split_by(s, c) == seq![s],
    decreases s.len(),
{
    if s.len() > 0 {
        assert(!has_char(s.drop_last(), c)) by {
            if has_char(s.drop_last(), c) {
                let i = choose|i: int| 0 <= i < s.drop_last().len() && s.drop_last()[i] == c;
                assert(s[i] == c);
            }
        }
        lemma_split_whole(s.drop_last(), c);
        assert(s.last() != c) by {
            if s.last() == c {
                assert(s[s.len() - 1] == c);
            }
        }
        assert(s.drop_last().push(s.last()) =~= s);
        let prev = split_by(s.drop_last(), c);
        assert(prev == seq![s.drop_last()]);
        assert(split_by(s, c) == prev.update(prev.len() - 1, prev.last().push(s.last())));
        assert(seq![s.drop_last()].update(0, s.drop_last().push(s.last())) =~= seq![s]);
    } else {
        assert(s =~= Seq::<char>::empty());
    }
}

/// Appending a separator and a piece without it adds that piece.
proof fn lemma_split_append(h: Seq<char>, piece: Seq<char>, c: char)
    requires
        !has_char(piece, c),
    ensures
        split_by(h + seq![c] + piece, c) == split_by(h, c).push(piece),
    decreases piece.len(),
{
    if piece.len() == 0 {
        let whole = h + seq![c] + piece;
        assert(whole =~= h.push(c));
        assert(whole.drop_last() =~= h);
        assert(whole.last() == c);
        assert(piece =~= Seq::<char>::empty());
        assert(split_by(whole, c) == split_by(whole.drop_last(), c).push(Seq::<char>::empty()));
    } else {
        let shorter = piece.drop_last();
        assert(!has_char(shorter, c)) by {
            if has_char(shorter, c) {
                let i = choose|i: int| 0 <= i < shorter.len() && shorter[i] == c;
                assert(piece[i] == c);
            }
        }
        lemma_split_append(h, shorter, c);
        let whole = h + seq![c] + piece;
        assert(whole.drop_last() =~= h + seq![c] + shorter);
        assert(whole.last() == piece.last());
        assert(piece.last() != c) by {
            assert(piece[piece.len() - 1] == piece.last());
        }
        assert(shorter.push(piece.last()) =~= piece);
        let before = split_by(h, c).push(shorter);
        assert(before.len() - 1 == split_by(h, c).len());
        assert(before.last() == shorter);
        assert(before.update(before.len() - 1, before.last().push(piece.last())) =~= split_by(h, c).push(
            piece,
        ));
        assert(split_by(whole.drop_last(), c) == before);
        assert(split_by(whole, c) == before.update(before.len() - 1, before.last().push(whole.last())));
    }
}

/// Law: a command saved to the history is listed last. Saving a one-line
/// command that is not a comment and listing the history lines afterwards
/// gives the entries listed before, then the command as saved.
pub proof fn law_saved_command_is_listed_last(history: Seq<char>, command: Seq<char>)
    requires
        saved_history(history, command) is Some,
        !has_char(trim(command, TrimSet::WhitespaceOrBom), '\n'),
        !has_prefix(trim(command, TrimSet::WhitespaceOrBom), "#"@),
    ensures
        history_entries(split_by(saved_history(history, command)->0, '\n')) == history_entries(
            split_by(history, '\n'),
        ).push(trim(command, TrimSet::WhitespaceOrBom)),
{
    let clean = trim(command, TrimSet::WhitespaceOrBom);
    let saved = saved_history(history, command)->0;
    lemma_trim_twice(command, TrimSet::WhitespaceOrBom);
    if history.len() == 0 {
        lemma_split_whole(clean, '\n');
        assert(split_by(history, '\n') == seq![Seq::<char>::empty()]);
        let none = seq![Seq::<char>::empty()];
        assert(none.drop_last() =~= Seq::<Seq<char>>::empty());
        assert(none.last() == Seq::<char>::empty());
        assert(trim_start(Seq::<char>::empty(), TrimSet::WhitespaceOrBom) == Seq::<char>::empty());
        assert(trim_end(Seq::<char>::empty(), TrimSet::WhitespaceOrBom) == Seq::<char>::empty());
        assert(trim(Seq::<char>::empty(), TrimSet::WhitespaceOrBom) == Seq::<char>::empty());
        assert(history_entries(Seq::<Seq<char>>::empty()) == Seq::<Seq<char>>::empty());
        assert(history_entries(none) =~= Seq::<Seq<char>>::empty());
        assert(seq![clean].drop_last() =~= Seq::<Seq<char>>::empty());
        assert(history_entries(seq![clean]) =~= seq![clean]);
    } else {
        lemma_split_append(history, clean, '\n');
        assert(saved == history + seq!['\n'] + clean);
        let pieces = split_by(history, '\n').push(clean);
        assert(pieces.drop_last() =~= split_by(history, '\n'));
        assert(pieces.last() == clean);
    }
}

} // verus!
