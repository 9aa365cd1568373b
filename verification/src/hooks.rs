//! What a build says about the git hooks it installs.

use crate::text::{chars_of, joined, split_at_char, split_lines, starts_with, string_of, trimmed};
use vstd::prelude::*;

verus! {

/// Whether a line of the installer is meant for a person: a hook it would not
/// overwrite, or hooks that are kept elsewhere.
pub open spec fn is_notice(line: Seq<char>) -> bool {
    "KEEP"@.is_prefix_of(line) || "NOTE"@.is_prefix_of(line)
}

/// The lines of the installer's output without the white space around them.
pub open spec fn trimmed_lines(stdout: Seq<char>) -> Seq<Seq<char>> {
    crate::text::lines(stdout).map_values(|l: Seq<char>| crate::text::trim(l))
}

/// The lines of the installer that a person is shown.
pub open spec fn notices(stdout: Seq<char>) -> Seq<Seq<char>> {
    trimmed_lines(stdout).filter(|l: Seq<char>| is_notice(l))
}

/// The lines of the installer's output that a person should see, in order.
pub fn hook_notices(stdout: &str) -> (r: Vec<String>)
    ensures
        crate::text::texts(r@) == notices(stdout@),
{
    let keep = chars_of("KEEP");
    let note = chars_of("NOTE");
    let lines = split_lines(chars_of(stdout).as_slice());
    let ghost all = trimmed_lines(stdout@);
    let ghost f = |l: Seq<char>| is_notice(l);
    let mut r: Vec<String> = Vec::new();
    assert(crate::text::texts(r@) =~= all.take(0).filter(f)) by {
        reveal(Seq::filter);
    }
    for i in 0..lines.len()
        invariant
            keep@ == "KEEP"@,
            note@ == "NOTE"@,
            crate::text::views(lines@) == crate::text::lines(stdout@),
            all == trimmed_lines(stdout@),
            all.len() == lines@.len(),
            f == |l: Seq<char>| is_notice(l),
            crate::text::texts(r@) == all.take(i as int).filter(f),
    {
        let line = trimmed(lines[i].as_slice());
        proof {
            let next = all.take(i + 1);
            assert(next.drop_last() =~= all.take(i as int));
            assert(crate::text::views(lines@)[i as int] == lines@[i as int]@);
            assert(next.last() == line@);
            reveal(Seq::filter);
        }
        if starts_with(line, keep.as_slice()) || starts_with(line, note.as_slice()) {
            let ghost before = r@;
            r.push(string_of(line));
            assert(crate::text::texts(r@) =~= crate::text::texts(before).push(line@));
        }
    }
    assert(all.take(all.len() as int) =~= all);
    r
}

/// A reason on one line, or the one that is given where there is none.
pub open spec fn one_line(reason: Seq<char>) -> Seq<char> {
    let joined = crate::text::join(crate::text::split(crate::text::trim(reason), '\n'), "; "@);
    if joined.len() == 0 {
        "scripts/install-git-hooks.sh failed"@
    } else {
        joined
    }
}

/// What a build says where the hooks could not be installed.
pub fn hook_failure(reason: &str) -> (r: String)
    ensures
        r@ == "could not install the git hooks ("@ + one_line(reason@) + "); run make hooks"@,
{
    let all = chars_of(reason);
    let parts = split_at_char(trimmed(all.as_slice()), '\n');
    let mut strings: Vec<String> = Vec::new();
    for i in 0..parts.len()
        invariant
            strings@.len() == i,
            forall|k: int| 0 <= k < i ==> (#[trigger] strings@[k])@ == parts@[k]@,
    {
        strings.push(string_of(parts[i].as_slice()));
    }
    assert(crate::text::texts(strings@) =~= crate::text::views(parts@));
    let joined_text = joined(&strings, "; ");
    let said = chars_of(joined_text.as_str());
    let mut r: String = "could not install the git hooks (".to_owned();
    if said.len() == 0 {
        r.append("scripts/install-git-hooks.sh failed");
    } else {
        r.append(joined_text.as_str());
    }
    r.append("); run make hooks");
    r
}

/// The parts that a text is split into hold nothing of what it is split at.
proof fn lemma_split_parts(s: Seq<char>, c: char)
    ensures
        forall|i: int|
            0 <= i < crate::text::split(s, c).len() ==> !(#[trigger] crate::text::split(
                s,
                c,
            )[i]).contains(c),
    decreases s.len(),
{
    crate::text::lemma_find_char(s, c);
    let parts = crate::text::split(s, c);
    if let Some(at) = crate::text::find_char(s, c) {
        let rest = s.skip(at + 1);
        lemma_split_parts(rest, c);
        assert forall|i: int| 0 <= i < parts.len() implies !(#[trigger] parts[i]).contains(c) by {
            if i > 0 {
                assert(parts[i] == crate::text::split(rest, c)[i - 1]);
            }
        }
    }
}

/// Texts without a character, put together with a separator without it, do not
/// hold it either.
proof fn lemma_join_free(s: Seq<Seq<char>>, sep: Seq<char>, c: char)
    requires
        forall|i: int| 0 <= i < s.len() ==> !(#[trigger] s[i]).contains(c),
        !sep.contains(c),
    ensures
        !crate::text::join(s, sep).contains(c),
    decreases s.len(),
{
    if s.len() > 1 {
        let front = s.drop_last();
        assert forall|i: int| 0 <= i < front.len() implies !(#[trigger] front[i]).contains(c) by {
            assert(front[i] == s[i]);
        }
        lemma_join_free(front, sep, c);
        assert(!s[s.len() - 1].contains(c));
        let a = crate::text::join(front, sep);
        let b = a + sep + s.last();
        assert forall|i: int| 0 <= i < b.len() implies b[i] != c by {
            if i < a.len() {
                assert(a.contains(b[i]));
            } else if i < a.len() + sep.len() {
                assert(b[i] == sep[i - a.len()]);
                assert(sep.contains(b[i]));
            } else {
                assert(b[i] == s.last()[i - a.len() - sep.len()]);
                assert(s.last().contains(b[i]));
            }
        }
    } else if s.len() == 1 {
        assert(!s[0].contains(c));
    }
}

/// What a build says of a failure is one line, however many the reason had.
pub proof fn law_failure_is_one_line(reason: Seq<char>)
    ensures
        !one_line(reason).contains('\n'),
{
    reveal_strlit("; ");
    reveal_strlit("scripts/install-git-hooks.sh failed");
    let t = crate::text::trim(reason);
    lemma_split_parts(t, '\n');
    lemma_join_free(crate::text::split(t, '\n'), "; "@, '\n');
}

/// Lines of a reason are told one after the other, in order and as they are;
/// a reason that is blank is told as the failure of the installer.
pub proof fn law_every_line_of_a_reason_is_told(first: Seq<char>, rest: Seq<Seq<char>>)
    requires
        first.len() > 0,
        !crate::text::white_space(first[0]),
        crate::text::without(first, '\n'),
        forall|i: int| 0 <= i < rest.len() ==> crate::text::without(#[trigger] rest[i], '\n'),
        ({
            let last = if rest.len() > 0 {
                rest.last()
            } else {
                first
            };
            last.len() > 0 && !crate::text::white_space(last[last.len() - 1])
        }),
    ensures
        one_line(crate::text::join_lines(seq![first] + rest)) == crate::text::join(
            seq![first] + rest,
            "; "@,
        ),
{
    let all = seq![first] + rest;
    let j = crate::text::join_lines(all);
    let none = Seq::<char>::empty();
    crate::text::lemma_join_lines_first(all);
    assert(all.drop_first() =~= rest);
    assert(j[0] == first[0]);
    if rest.len() > 0 {
        assert(all.last() == rest.last());
        assert(j.last() == rest.last().last());
    } else {
        assert(j == first);
    }
    crate::text::law_trim_takes_off_white_space(none, j, none);
    assert(none + j + none =~= j);
    assert forall|i: int| 0 <= i < all.len() implies crate::text::without(
        #[trigger] all[i],
        '\n',
    ) by {
        if i > 0 {
            assert(all[i] == rest[i - 1]);
        }
    }
    lemma_split_joined(all);
    crate::text::law_join_in_parts(seq![first], rest, "; "@);
    crate::text::law_join_in_parts(seq![first], Seq::empty(), "; "@);
    if rest.len() == 0 {
        assert(all =~= seq![first]);
    }
    assert(crate::text::join(all, "; "@).len() >= first.len());
}

/// Lines that are put together are taken apart into the same lines.
proof fn lemma_split_joined(lines: Seq<Seq<char>>)
    requires
        lines.len() > 0,
        forall|i: int| 0 <= i < lines.len() ==> crate::text::without(#[trigger] lines[i], '\n'),
    ensures
        crate::text::split(crate::text::join_lines(lines), '\n') == lines,
    decreases lines.len(),
{
    crate::text::lemma_join_lines_first(lines);
    let rest = lines.drop_first();
    assert(crate::text::without(lines[0], '\n'));
    let joined = crate::text::join_lines(rest);
    crate::text::law_split_at_each(lines[0], '\n', joined);
    if lines.len() == 1 {
        assert(seq![lines[0]] =~= lines);
    } else {
        assert forall|i: int| 0 <= i < rest.len() implies crate::text::without(
            #[trigger] rest[i],
            '\n',
        ) by {
            assert(rest[i] == lines[i + 1]);
        }
        lemma_split_joined(rest);
        assert(lines[0].push('\n') + joined =~= lines[0] + seq!['\n'] + joined);
        assert(seq![lines[0]] + rest =~= lines);
    }
}

/// A blank reason is told as the failure of the installer, and the white space
/// around any other is not told.
pub proof fn law_a_blank_reason_is_the_installer(
    blank: Seq<char>,
    a: Seq<char>,
    reason: Seq<char>,
    b: Seq<char>,
)
    requires
        crate::text::all_white(blank),
        crate::text::all_white(a),
        crate::text::all_white(b),
        crate::text::bare_ends(reason),
    ensures
        one_line(blank) == "scripts/install-git-hooks.sh failed"@,
        one_line(a + reason + b) == one_line(reason),
{
    let none = Seq::<char>::empty();
    crate::text::law_trim_keeps_the_rest(blank);
    assert(crate::text::trim(blank) =~= none);
    crate::text::law_split_at_each(none, '\n', none);
    crate::text::law_join_in_parts(seq![none], Seq::empty(), "; "@);
    crate::text::law_trim_takes_off_white_space(a, reason, b);
    crate::text::law_trim_takes_off_white_space(none, reason, none);
    assert(none + reason + none =~= reason);
}

/// A line of the installer is shown, without the white space around it and in
/// its place, exactly where it then begins with `KEEP` or `NOTE`.
pub proof fn law_which_lines_are_shown(a: Seq<char>, line: Seq<char>, b: Seq<char>, rest: Seq<char>)
    requires
        crate::text::all_white(a),
        crate::text::all_white(b),
        crate::text::bare_ends(line),
        crate::text::without(a + line + b, '\n'),
        (a + line + b).len() > 0 ==> (a + line + b).last() != '\r',
    ensures
        notices((a + line + b) + seq!['\n'] + rest) == if line.len() >= 4 && (line.take(4)
            == seq!['K', 'E', 'E', 'P'] || line.take(4) == seq!['N', 'O', 'T', 'E']) {
            seq![line] + notices(rest)
        } else {
            notices(rest)
        },
{
    reveal_strlit("KEEP");
    reveal_strlit("NOTE");
    let f = |l: Seq<char>| is_notice(l);
    let whole = a + line + b;
    crate::text::law_lines_end_at_line_feeds(whole, rest);
    crate::text::law_trim_takes_off_white_space(a, line, b);
    let s = whole + seq!['\n'] + rest;
    assert(trimmed_lines(s) =~= seq![line] + trimmed_lines(rest));
    Seq::filter_distributes_over_add(seq![line], trimmed_lines(rest), f);
    assert(seq![line].filter(f) =~= if is_notice(line) {
        seq![line]
    } else {
        Seq::<Seq<char>>::empty()
    }) by {
        reveal_with_fuel(Seq::filter, 2);
        assert(seq![line].drop_last() =~= Seq::<Seq<char>>::empty());
    }
    assert(Seq::<Seq<char>>::empty() + notices(rest) =~= notices(rest));
    assert("KEEP"@ =~= seq!['K', 'E', 'E', 'P']);
    assert("NOTE"@ =~= seq!['N', 'O', 'T', 'E']);
    if line.len() >= 4 {
        assert(line.subrange(0, 4) =~= line.take(4));
    }
}

} // verus!
