//! Strings as sequences of characters: the few operations the rest of the
//! library is written in, each with its exact meaning.

use vstd::prelude::*;
use vstd::slice::slice_subrange;

verus! {

/// `String::push` appends one character to the end of the string.
pub assume_specification[ String::push ](s: &mut String, c: char)
    ensures
        final(s)@ == old(s)@.push(c),
;

/// The characters with the Unicode `White_Space` property.
pub open spec fn white_space(c: char) -> bool {
    let u = c as u32;
    ||| 0x09 <= u <= 0x0d
    ||| u == 0x20
    ||| u == 0x85
    ||| u == 0xa0
    ||| u == 0x1680
    ||| 0x2000 <= u <= 0x200a
    ||| u == 0x2028
    ||| u == 0x2029
    ||| u == 0x202f
    ||| u == 0x205f
    ||| u == 0x3000
}

/// Whether a character is white space.
pub fn is_white_space(c: char) -> (r: bool)
    ensures
        r == white_space(c),
{
    let u: u32 = c as u32;
    (0x09 <= u && u <= 0x0d) || u == 0x20 || u == 0x85 || u == 0xa0 || u == 0x1680 || (0x2000 <= u
        && u <= 0x200a) || u == 0x2028 || u == 0x2029 || u == 0x202f || u == 0x205f || u == 0x3000
}

/// The characters of a string.
pub fn chars_of(s: &str) -> (r: Vec<char>)
    ensures
        r@ == s@,
{
    let mut r: Vec<char> = Vec::new();
    for c in iter: s.chars()
        invariant
            r@ == iter.seq().take(iter.index() as int),
            iter.seq() == s@,
    {
        r.push(c);
    }
    r
}

/// The string made of the given characters.
pub fn string_of(cs: &[char]) -> (r: String)
    ensures
        r@ == cs@,
{
    let mut r = String::new();
    let n: usize = cs.len();
    for i in 0..n
        invariant
            n == cs@.len(),
            r@ == cs@.take(i as int),
    {
        r.push(cs[i]);
        assert(cs@.take(i + 1) =~= cs@.take(i as int).push(cs@[i as int]));
    }
    assert(cs@.take(n as int) =~= cs@);
    r
}

/// Whether two strings are the same.
pub fn same_text(a: &str, b: &str) -> (r: bool)
    ensures
        r == (a@ == b@),
{
    a.to_owned() == b.to_owned()
}

/// The text without the white space in front of it.
pub open spec fn trim_start(s: Seq<char>) -> Seq<char>
    decreases s.len(),
{
    if s.len() > 0 && white_space(s[0]) {
        trim_start(s.drop_first())
    } else {
        s
    }
}

/// The text without the white space behind it.
pub open spec fn trim_end(s: Seq<char>) -> Seq<char>
    decreases s.len(),
{
    if s.len() > 0 && white_space(s.last()) {
        trim_end(s.drop_last())
    } else {
        s
    }
}

/// The text without the white space around it.
pub open spec fn trim(s: Seq<char>) -> Seq<char> {
    trim_end(trim_start(s))
}

/// The front of a trimmed text is no white space.
proof fn lemma_trim_start_first(s: Seq<char>)
    ensures
        trim_start(s).len() > 0 ==> !white_space(trim_start(s)[0]),
    decreases s.len(),
{
    if s.len() > 0 && white_space(s[0]) {
        lemma_trim_start_first(s.drop_first());
    }
}

/// Trimming the end leaves the front alone.
proof fn lemma_trim_end_shape(s: Seq<char>)
    ensures
        trim_end(s).len() <= s.len(),
        trim_end(s) == s.take(trim_end(s).len() as int),
        trim_end(s).len() > 0 ==> !white_space(trim_end(s).last()),
    decreases s.len(),
{
    if s.len() > 0 && white_space(s.last()) {
        lemma_trim_end_shape(s.drop_last());
        assert(s.drop_last().take(trim_end(s).len() as int) =~= s.take(trim_end(s).len() as int));
    } else {
        assert(s.take(s.len() as int) =~= s);
    }
}

/// A trimmed text is trimmed.
pub proof fn lemma_trim_trim(s: Seq<char>)
    ensures
        trim(trim(s)) == trim(s),
{
    let t = trim_start(s);
    lemma_trim_start_first(s);
    lemma_trim_end_shape(t);
    let u = trim_end(t);
    if u.len() > 0 {
        assert(u[0] == t[0]);
        assert(trim_start(u) == u);
    }
}

/// Drops the white space in front of a text.
pub fn trimmed_start(cs: &[char]) -> (r: &[char])
    ensures
        r@ == trim_start(cs@),
{
    let n: usize = cs.len();
    let mut i: usize = 0;
    assert(cs@.skip(0) =~= cs@);
    while i < n && is_white_space(cs[i])
        invariant
            n == cs@.len(),
            i <= n,
            trim_start(cs@) == trim_start(cs@.skip(i as int)),
        decreases n - i,
    {
        assert(cs@.skip(i as int).drop_first() =~= cs@.skip(i + 1));
        i = i + 1;
    }
    assert(cs@.skip(i as int) =~= cs@.subrange(i as int, n as int));
    slice_subrange(cs, i, n)
}

/// Drops the white space behind a text.
pub fn trimmed_end(cs: &[char]) -> (r: &[char])
    ensures
        r@ == trim_end(cs@),
{
    let mut i: usize = cs.len();
    assert(cs@.take(i as int) =~= cs@);
    while i > 0 && is_white_space(cs[i - 1])
        invariant
            i <= cs@.len(),
            trim_end(cs@) == trim_end(cs@.take(i as int)),
        decreases i,
    {
        assert(cs@.take(i as int).drop_last() =~= cs@.take(i - 1));
        i = i - 1;
    }
    assert(cs@.take(i as int) =~= cs@.subrange(0, i as int));
    slice_subrange(cs, 0, i)
}

/// Drops the white space around a text.
pub fn trimmed(cs: &[char]) -> (r: &[char])
    ensures
        r@ == trim(cs@),
{
    trimmed_end(trimmed_start(cs))
}

/// Whether there is nothing but white space in a text.
pub fn is_blank(cs: &[char]) -> (r: bool)
    ensures
        r == (trim(cs@).len() == 0),
{
    trimmed(cs).len() == 0
}

/// Whether two texts are the same.
pub fn same_chars(a: &[char], b: &[char]) -> (r: bool)
    ensures
        r == (a@ == b@),
{
    if a.len() != b.len() {
        return false;
    }
    let n: usize = a.len();
    for i in 0..n
        invariant
            n == a@.len(),
            n == b@.len(),
            forall|k: int| 0 <= k < i ==> a@[k] == b@[k],
    {
        if a[i] != b[i] {
            return false;
        }
    }
    assert(a@ =~= b@);
    true
}

/// Whether `part` stands in `s` at place `i`.
pub open spec fn occurs_at(part: Seq<char>, s: Seq<char>, i: int) -> bool {
    0 <= i && i + part.len() <= s.len() && s.subrange(i, i + part.len()) == part
}

/// Whether `part` stands anywhere in `s`.
pub open spec fn is_infix(part: Seq<char>, s: Seq<char>) -> bool {
    exists|i: int| #[trigger] occurs_at(part, s, i)
}

/// Whether `part` stands in `s` at place `i`.
pub fn part_at(part: &[char], s: &[char], i: usize) -> (r: bool)
    ensures
        r == occurs_at(part@, s@, i as int),
{
    if i > s.len() || part.len() > s.len() - i {
        return false;
    }
    same_chars(slice_subrange(s, i, i + part.len()), part)
}

/// Whether a text starts with `part`.
pub fn starts_with(s: &[char], part: &[char]) -> (r: bool)
    ensures
        r == part@.is_prefix_of(s@),
{
    part_at(part, s, 0)
}

/// Whether a text ends with `part`.
pub fn ends_with(s: &[char], part: &[char]) -> (r: bool)
    ensures
        r == part@.is_suffix_of(s@),
{
    if part.len() > s.len() {
        return false;
    }
    part_at(part, s, s.len() - part.len())
}

/// Whether `part` stands anywhere in a text.
pub fn contains_part(s: &[char], part: &[char]) -> (r: bool)
    ensures
        r == is_infix(part@, s@),
{
    if part.len() > s.len() {
        return false;
    }
    let last: usize = s.len() - part.len();
    let mut i: usize = 0;
    while i <= last
        invariant
            part@.len() <= s@.len(),
            last == s@.len() - part@.len(),
            i <= last + 1,
            forall|k: int| 0 <= k < i ==> !occurs_at(part@, s@, k),
        decreases last + 1 - i,
    {
        if part_at(part, s, i) {
            return true;
        }
        if i == last {
            assert forall|k: int| !occurs_at(part@, s@, k) by {}
            return false;
        }
        i = i + 1;
    }
    false
}

/// The place of the first `c` in a text.
pub open spec fn find_char(s: Seq<char>, c: char) -> Option<int>
    decreases s.len(),
{
    if s.len() == 0 {
        None
    } else if s[0] == c {
        Some(0)
    } else {
        match find_char(s.drop_first(), c) {
            Some(i) => Some(i + 1),
            None => None,
        }
    }
}

/// The first `c` stands at `i` where none stands before it.
pub proof fn lemma_find_char_at(s: Seq<char>, c: char, i: int)
    requires
        0 <= i < s.len(),
        s[i] == c,
        forall|k: int| 0 <= k < i ==> s[k] != c,
    ensures
        find_char(s, c) == Some(i),
    decreases i,
{
    if i > 0 {
        let t = s.drop_first();
        assert forall|k: int| 0 <= k < i - 1 implies t[k] != c by {
            assert(t[k] == s[k + 1]);
        }
        lemma_find_char_at(t, c, i - 1);
    }
}

/// Where no `c` stands in a text none is found.
pub proof fn lemma_find_char_none(s: Seq<char>, c: char)
    requires
        forall|k: int| 0 <= k < s.len() ==> s[k] != c,
    ensures
        find_char(s, c) is None,
    decreases s.len(),
{
    if s.len() > 0 {
        let t = s.drop_first();
        assert forall|k: int| 0 <= k < t.len() implies t[k] != c by {
            assert(t[k] == s[k + 1]);
        }
        lemma_find_char_none(t, c);
    }
}

/// What is found stands where it is found, and nowhere before.
pub proof fn lemma_find_char(s: Seq<char>, c: char)
    ensures
        match find_char(s, c) {
            Some(i) => 0 <= i < s.len() && s[i] == c && forall|k: int| 0 <= k < i ==> s[k] != c,
            None => forall|k: int| 0 <= k < s.len() ==> s[k] != c,
        },
    decreases s.len(),
{
    if s.len() > 0 && s[0] != c {
        let t = s.drop_first();
        lemma_find_char(t, c);
        match find_char(t, c) {
            Some(i) => {
                assert(t[i] == s[i + 1]);
                assert forall|k: int| 0 <= k < i + 1 implies s[k] != c by {
                    if k > 0 {
                        assert(t[k - 1] == s[k]);
                    }
                }
            },
            None => {
                assert forall|k: int| 0 <= k < s.len() implies s[k] != c by {
                    if k > 0 {
                        assert(t[k - 1] == s[k]);
                    }
                }
            },
        }
    }
}

/// Finds the first `c` in a text.
pub fn position_of(s: &[char], c: char) -> (r: Option<usize>)
    ensures
        match r {
            Some(i) => find_char(s@, c) == Some(i as int) && i < s@.len(),
            None => find_char(s@, c) is None,
        },
{
    let n: usize = s.len();
    for i in 0..n
        invariant
            n == s@.len(),
            forall|k: int| 0 <= k < i ==> s@[k] != c,
    {
        if s[i] == c {
            proof {
                lemma_find_char_at(s@, c, i as int);
            }
            return Some(i);
        }
    }
    proof {
        lemma_find_char_none(s@, c);
    }
    None
}

/// A line without the carriage return in front of its line feed.
pub open spec fn drop_cr(s: Seq<char>) -> Seq<char> {
    if s.len() > 0 && s.last() == '\r' {
        s.drop_last()
    } else {
        s
    }
}

/// The lines of a text. A line ends with a line feed, or a carriage return and
/// a line feed; the last line needs no ending.
pub open spec fn lines(s: Seq<char>) -> Seq<Seq<char>>
    decreases s.len(),
    via lines_decreases
{
    if s.len() == 0 {
        Seq::empty()
    } else {
        match find_char(s, '\n') {
            Some(i) => seq![drop_cr(s.take(i))] + lines(s.skip(i + 1)),
            None => seq![s],
        }
    }
}

#[via_fn]
proof fn lines_decreases(s: Seq<char>) {
    lemma_find_char(s, '\n');
}

/// The text made of the given lines, each ended by a line feed.
pub open spec fn unlines(s: Seq<Seq<char>>) -> Seq<char>
    decreases s.len(),
{
    if s.len() == 0 {
        Seq::empty()
    } else {
        s[0].push('\n') + unlines(s.drop_first())
    }
}

/// Whether a text can be a line: no line feed in it and no carriage return at
/// its end.
pub open spec fn is_line(s: Seq<char>) -> bool {
    &&& forall|k: int| 0 <= k < s.len() ==> s[k] != '\n'
    &&& s.len() > 0 ==> s.last() != '\r'
}

/// Lines put together into a text are the lines of that text.
pub proof fn law_lines_of_unlines(s: Seq<Seq<char>>)
    requires
        forall|i: int| 0 <= i < s.len() ==> is_line(#[trigger] s[i]),
    ensures
        lines(unlines(s)) == s,
    decreases s.len(),
{
    if s.len() > 0 {
        let t = unlines(s);
        let rest = s.drop_first();
        let i = s[0].len() as int;
        assert(is_line(s[0]));
        assert(t[i] == '\n');
        assert forall|k: int| 0 <= k < i implies t[k] != '\n' by {
            assert(t[k] == s[0][k]);
        }
        lemma_find_char_at(t, '\n', i);
        assert(t.take(i) =~= s[0]);
        assert(t.skip(i + 1) =~= unlines(rest));
        assert forall|k: int| 0 <= k < rest.len() implies is_line(#[trigger] rest[k]) by {
            assert(rest[k] == s[k + 1]);
        }
        law_lines_of_unlines(rest);
        assert(seq![s[0]] + rest =~= s);
    } else {
        assert(lines(unlines(s)) =~= s);
    }
}

/// The models of a list of texts.
pub open spec fn views(v: Seq<Vec<char>>) -> Seq<Seq<char>> {
    v.map_values(|x: Vec<char>| x@)
}

/// The characters of a part of a text.
pub fn copy_chars(cs: &[char]) -> (r: Vec<char>)
    ensures
        r@ == cs@,
{
    let mut r: Vec<char> = Vec::new();
    let n: usize = cs.len();
    for i in 0..n
        invariant
            n == cs@.len(),
            r@ == cs@.take(i as int),
    {
        r.push(cs[i]);
        assert(cs@.take(i + 1) =~= cs@.take(i as int).push(cs@[i as int]));
    }
    assert(cs@.take(n as int) =~= cs@);
    r
}

/// Takes a text apart into its lines.
pub fn split_lines(s: &[char]) -> (r: Vec<Vec<char>>)
    ensures
        views(r@) == lines(s@),
{
    let mut r: Vec<Vec<char>> = Vec::new();
    let n: usize = s.len();
    let mut start: usize = 0;
    assert(s@.skip(0) =~= s@);
    assert(views(r@) + lines(s@) =~= lines(s@));
    while start < n
        invariant
            n == s@.len(),
            start <= n,
            views(r@) + lines(s@.skip(start as int)) == lines(s@),
        decreases n - start,
    {
        let rest = slice_subrange(s, start, n);
        assert(rest@ =~= s@.skip(start as int));
        let ghost before = r@;
        match position_of(rest, '\n') {
            Some(i) => {
                let mut end: usize = i;
                if end > 0 && rest[end - 1] == '\r' {
                    end = end - 1;
                }
                let line = copy_chars(slice_subrange(rest, 0, end));
                assert(line@ =~= drop_cr(rest@.take(i as int)));
                r.push(line);
                assert(rest@.skip(i + 1) =~= s@.skip(start + i + 1));
                assert(views(r@) =~= views(before).push(line@));
                assert(views(r@) + lines(s@.skip(start + i + 1)) =~= views(before) + (seq![line@]
                    + lines(s@.skip(start + i + 1))));
                start = start + i + 1;
            },
            None => {
                let line = copy_chars(rest);
                r.push(line);
                assert(views(r@) =~= views(before) + seq![rest@]);
                assert(s@.skip(n as int) =~= Seq::<char>::empty());
                assert(views(r@) + lines(s@.skip(n as int)) =~= views(r@));
                start = n;
            },
        }
    }
    assert(s@.skip(n as int) =~= Seq::<char>::empty());
    assert(views(r@) + lines(s@.skip(n as int)) =~= views(r@));
    r
}

/// The parts of a text between the characters `c`.
pub open spec fn split(s: Seq<char>, c: char) -> Seq<Seq<char>>
    decreases s.len(),
    via split_decreases
{
    match find_char(s, c) {
        Some(i) => seq![s.take(i)] + split(s.skip(i + 1), c),
        None => seq![s],
    }
}

#[via_fn]
proof fn split_decreases(s: Seq<char>, c: char) {
    lemma_find_char(s, c);
}

/// Takes a text apart at each `c`.
pub fn split_at_char(s: &[char], c: char) -> (r: Vec<Vec<char>>)
    ensures
        views(r@) == split(s@, c),
{
    let mut r: Vec<Vec<char>> = Vec::new();
    let n: usize = s.len();
    let mut start: usize = 0;
    assert(s@.skip(0) =~= s@);
    assert(views(r@) + split(s@, c) =~= split(s@, c));
    loop
        invariant
            n == s@.len(),
            start <= n,
            views(r@) + split(s@.skip(start as int), c) == split(s@, c),
        decreases n - start,
    {
        let rest = slice_subrange(s, start, n);
        assert(rest@ =~= s@.skip(start as int));
        let ghost before = r@;
        match position_of(rest, c) {
            Some(i) => {
                let part = copy_chars(slice_subrange(rest, 0, i));
                assert(part@ =~= rest@.take(i as int));
                r.push(part);
                assert(rest@.skip(i + 1) =~= s@.skip(start + i + 1));
                assert(views(r@) =~= views(before).push(part@));
                assert(views(r@) + split(s@.skip(start + i + 1), c) =~= views(before) + (seq![part@]
                    + split(s@.skip(start + i + 1), c)));
                start = start + i + 1;
            },
            None => {
                r.push(copy_chars(rest));
                assert(views(r@) =~= views(before) + seq![rest@]);
                return r;
            },
        }
    }
}

/// What stands behind the last `c` in a text.
pub open spec fn after_last(s: Seq<char>, c: char) -> Option<Seq<char>>
    decreases s.len(),
{
    if s.len() == 0 {
        None
    } else if s.last() == c {
        Some(Seq::empty())
    } else {
        match after_last(s.drop_last(), c) {
            Some(t) => Some(t.push(s.last())),
            None => None,
        }
    }
}

proof fn lemma_after_last_at(s: Seq<char>, c: char, i: int)
    requires
        0 <= i < s.len(),
        s[i] == c,
        forall|k: int| i < k < s.len() ==> s[k] != c,
    ensures
        after_last(s, c) == Some(s.skip(i + 1)),
    decreases s.len(),
{
    if i == s.len() - 1 {
        assert(s.skip(i + 1) =~= Seq::<char>::empty());
    } else {
        lemma_after_last_at(s.drop_last(), c, i);
        assert(s.drop_last().skip(i + 1).push(s.last()) =~= s.skip(i + 1));
    }
}

proof fn lemma_after_last_none(s: Seq<char>, c: char)
    requires
        forall|k: int| 0 <= k < s.len() ==> s[k] != c,
    ensures
        after_last(s, c) is None,
    decreases s.len(),
{
    if s.len() > 0 {
        lemma_after_last_none(s.drop_last(), c);
    }
}

/// What stands behind the last `c` in a text.
pub fn tail_after_last(s: &[char], c: char) -> (r: Option<&[char]>)
    ensures
        match r {
            Some(t) => after_last(s@, c) == Some(t@),
            None => after_last(s@, c) is None,
        },
{
    let n: usize = s.len();
    let mut i: usize = n;
    while i > 0
        invariant
            n == s@.len(),
            i <= n,
            forall|k: int| i <= k < n ==> s@[k] != c,
        decreases i,
    {
        i = i - 1;
        if s[i] == c {
            proof {
                lemma_after_last_at(s@, c, i as int);
                assert(s@.skip(i + 1) =~= s@.subrange(i + 1, n as int));
            }
            return Some(slice_subrange(s, i + 1, n));
        }
    }
    proof {
        lemma_after_last_none(s@, c);
    }
    None
}

/// An ASCII capital letter as the small one; any other character as it is.
pub open spec fn ascii_lower(c: char) -> char {
    if 'A' <= c <= 'Z' {
        ((c as u32 + 32) as u32) as char
    } else {
        c
    }
}

/// A text with ASCII capital letters made small.
pub open spec fn ascii_lowercase(s: Seq<char>) -> Seq<char> {
    s.map_values(|c: char| ascii_lower(c))
}

/// Makes the ASCII capital letters of a text small.
pub fn to_lower(s: &[char]) -> (r: Vec<char>)
    ensures
        r@ == ascii_lowercase(s@),
{
    let mut r: Vec<char> = Vec::new();
    let n: usize = s.len();
    for i in 0..n
        invariant
            n == s@.len(),
            r@.len() == i,
            forall|k: int| 0 <= k < i ==> #[trigger] r@[k] == ascii_lower(s@[k]),
    {
        let c: char = s[i];
        if 'A' <= c && c <= 'Z' {
            let u: u8 = c as u8;
            r.push((u + 32) as char);
        } else {
            r.push(c);
        }
    }
    assert(r@ =~= ascii_lowercase(s@));
    r
}

/// The order of texts: by the first character in which they differ, a text
/// before any longer one that it starts.
pub open spec fn text_lt(a: Seq<char>, b: Seq<char>) -> bool
    decreases a.len(),
{
    if b.len() == 0 {
        false
    } else if a.len() == 0 {
        true
    } else if a[0] != b[0] {
        a[0] < b[0]
    } else {
        text_lt(a.drop_first(), b.drop_first())
    }
}

/// No text is before itself.
pub proof fn lemma_text_lt_irreflexive(a: Seq<char>)
    ensures
        !text_lt(a, a),
    decreases a.len(),
{
    if a.len() > 0 {
        lemma_text_lt_irreflexive(a.drop_first());
    }
}

/// What is before what is before a text is before it.
pub proof fn lemma_text_lt_transitive(a: Seq<char>, b: Seq<char>, c: Seq<char>)
    requires
        text_lt(a, b),
        text_lt(b, c),
    ensures
        text_lt(a, c),
    decreases a.len(),
{
    if a.len() > 0 && b.len() > 0 && c.len() > 0 && a[0] == b[0] && b[0] == c[0] {
        lemma_text_lt_transitive(a.drop_first(), b.drop_first(), c.drop_first());
    }
}

/// Of two texts that differ one is before the other.
pub proof fn lemma_text_lt_total(a: Seq<char>, b: Seq<char>)
    ensures
        a == b || text_lt(a, b) || text_lt(b, a),
    decreases a.len(),
{
    if a.len() > 0 && b.len() > 0 && a[0] == b[0] {
        lemma_text_lt_total(a.drop_first(), b.drop_first());
        if a.drop_first() == b.drop_first() {
            assert(a =~= seq![a[0]] + a.drop_first());
            assert(b =~= seq![b[0]] + b.drop_first());
        }
    } else if a.len() == 0 && b.len() == 0 {
        assert(a =~= b);
    }
}

/// Whether a text is before another.
pub fn comes_before(a: &[char], b: &[char]) -> (r: bool)
    ensures
        r == text_lt(a@, b@),
{
    let mut i: usize = 0;
    assert(a@.skip(0) =~= a@);
    assert(b@.skip(0) =~= b@);
    while i < a.len() && i < b.len()
        invariant
            i <= a@.len(),
            i <= b@.len(),
            text_lt(a@, b@) == text_lt(a@.skip(i as int), b@.skip(i as int)),
        decreases a@.len() - i,
    {
        if a[i] != b[i] {
            return a[i] < b[i];
        }
        assert(a@.skip(i as int).drop_first() =~= a@.skip(i + 1));
        assert(b@.skip(i as int).drop_first() =~= b@.skip(i + 1));
        i = i + 1;
    }
    i < b.len()
}

/// The number of bytes of a text in UTF-8.
pub open spec fn byte_len(s: Seq<char>) -> nat {
    vstd::utf8::encode_utf8(s).len()
}

/// The number of bytes of a string.
pub fn bytes_in(s: &str) -> (r: usize)
    ensures
        r == byte_len(s@),
{
    s.as_bytes().len()
}

/// Every character takes at least one byte.
proof fn lemma_byte_len_step(s: Seq<char>)
    requires
        s.len() > 0,
    ensures
        byte_len(s) > byte_len(s.drop_first()),
{
}

/// Texts behind each other have the bytes of both.
pub proof fn lemma_byte_len_concat(a: Seq<char>, b: Seq<char>)
    ensures
        byte_len(a + b) == byte_len(a) + byte_len(b),
    decreases a.len(),
{
    if a.len() == 0 {
        assert(a + b =~= b);
    } else {
        assert((a + b).drop_first() =~= a.drop_first() + b);
        assert((a + b)[0] == a[0]);
        lemma_byte_len_concat(a.drop_first(), b);
    }
}

/// Only the empty text has no bytes.
pub proof fn lemma_byte_len_zero(s: Seq<char>)
    requires
        byte_len(s) == 0,
    ensures
        s.len() == 0,
{
    if s.len() > 0 {
        lemma_byte_len_step(s);
    }
}

/// The character of a decimal or hexadecimal digit.
pub open spec fn digit(d: int) -> char {
    if d < 10 {
        ((48 + d) as u32) as char
    } else {
        ((87 + d) as u32) as char
    }
}

/// A number in decimal.
pub open spec fn decimal(n: nat) -> Seq<char>
    decreases n,
{
    if n < 10 {
        seq![digit(n as int)]
    } else {
        decimal(n / 10).push(digit((n % 10) as int))
    }
}

/// Appends a number in decimal.
pub fn push_decimal(s: &mut String, n: usize)
    ensures
        final(s)@ == old(s)@ + decimal(n as nat),
    decreases n,
{
    let ghost before = s@;
    if n >= 10 {
        push_decimal(s, n / 10);
    }
    let d: u8 = (n % 10) as u8;
    s.push((48 + d) as char);
    assert(s@ =~= before + decimal(n as nat));
}

/// Whether a character is a decimal digit.
pub open spec fn is_digit(c: char) -> bool {
    '0' <= c <= '9'
}

/// The number that decimal digits stand for.
pub open spec fn digits_value(s: Seq<char>) -> int
    decreases s.len(),
{
    if s.len() == 0 {
        0
    } else {
        digits_value(s.drop_last()) * 10 + (s.last() as int - '0' as int)
    }
}

/// More digits make no smaller number.
proof fn lemma_digits_value_take(s: Seq<char>, i: int)
    requires
        0 <= i <= s.len(),
        all_digits(s),
    ensures
        0 <= digits_value(s.take(i)) <= digits_value(s),
    decreases s.len(),
{
    if s.len() == 0 {
        assert(s.take(i) =~= s);
    } else {
        let front = s.drop_last();
        assert forall|k: int| 0 <= k < front.len() implies is_digit(#[trigger] front[k]) by {
            assert(front[k] == s[k]);
        }
        assert(is_digit(s[s.len() - 1]));
        lemma_digits_value_take(front, 0);
        assert(front.take(0) =~= Seq::<char>::empty());
        if i == s.len() {
            assert(s.take(i) =~= s);
        } else {
            lemma_digits_value_take(front, i);
            assert(front.take(i) =~= s.take(i));
        }
    }
}

/// Whether a text holds digits only.
pub open spec fn all_digits(s: Seq<char>) -> bool {
    forall|k: int| 0 <= k < s.len() ==> is_digit(#[trigger] s[k])
}

/// A text without the plus sign in front.
pub open spec fn unsigned(s: Seq<char>) -> Seq<char> {
    if s.len() > 0 && s[0] == '+' {
        s.skip(1)
    } else {
        s
    }
}

/// The number that a text is in decimal, where it is one that a `usize` holds.
/// A plus sign may stand in front, and any number of zeros.
pub open spec fn index_of(s: Seq<char>) -> Option<usize> {
    let digits = unsigned(s);
    if digits.len() > 0 && all_digits(digits) && digits_value(digits) <= usize::MAX {
        Some(digits_value(digits) as usize)
    } else {
        None
    }
}

/// Reads a `usize` in decimal.
pub fn parse_index(s: &[char]) -> (r: Option<usize>)
    ensures
        r == index_of(s@),
{
    let start: usize = if s.len() > 0 && s[0] == '+' {
        1
    } else {
        0
    };
    let ghost digits = unsigned(s@);
    assert(digits =~= s@.skip(start as int));
    let mut value: usize = 0;
    assert(digits.take(0) =~= Seq::<char>::empty());
    for i in start..s.len()
        invariant
            digits == unsigned(s@),
            digits == s@.skip(start as int),
            start <= s@.len(),
            all_digits(digits.take(i - start)),
            value == digits_value(digits.take(i - start)),
    {
        let c = s[i];
        let ghost n = i - start;
        assert(digits[n] == c);
        if c < '0' || c > '9' {
            assert(!is_digit(digits[n]));
            assert(!all_digits(digits));
            return None;
        }
        let d: usize = (c as u32 - '0' as u32) as usize;
        assert(digits.take(n + 1).drop_last() =~= digits.take(n));
        assert(digits.take(n + 1).last() == c);
        assert forall|k: int| 0 <= k < n + 1 implies is_digit(
            #[trigger] digits.take(n + 1)[k],
        ) by {
            if k < n {
                assert(digits.take(n)[k] == digits.take(n + 1)[k]);
            }
        }
        if value > (usize::MAX - d) / 10 {
            proof {
                assert(digits_value(digits.take(n + 1)) > usize::MAX);
                if all_digits(digits) {
                    lemma_digits_value_take(digits, n + 1);
                }
            }
            return None;
        }
        value = value * 10 + d;
    }
    assert(digits.take(digits.len() as int) =~= digits);
    if start >= s.len() {
        return None;
    }
    Some(value)
}

/// A text without the copies of `part` at its start.
pub open spec fn strip_start(s: Seq<char>, part: Seq<char>) -> Seq<char>
    decreases s.len(),
{
    if 0 < part.len() && part.is_prefix_of(s) {
        strip_start(s.skip(part.len() as int), part)
    } else {
        s
    }
}

/// A text without the copies of `part` at its end.
pub open spec fn strip_end(s: Seq<char>, part: Seq<char>) -> Seq<char>
    decreases s.len(),
{
    if 0 < part.len() && part.is_suffix_of(s) {
        strip_end(s.take(s.len() - part.len()), part)
    } else {
        s
    }
}

/// Drops the copies of `part` at the start of a text.
pub fn stripped_start<'a>(s: &'a [char], part: &[char]) -> (r: &'a [char])
    ensures
        r@ == strip_start(s@, part@),
{
    let mut rest: &'a [char] = s;
    while part.len() > 0 && starts_with(rest, part)
        invariant
            strip_start(rest@, part@) == strip_start(s@, part@),
        decreases rest@.len(),
    {
        assert(rest@.skip(part@.len() as int) =~= rest@.subrange(
            part@.len() as int,
            rest@.len() as int,
        ));
        rest = slice_subrange(rest, part.len(), rest.len());
    }
    rest
}

/// Drops the copies of `part` at the end of a text.
pub fn stripped_end<'a>(s: &'a [char], part: &[char]) -> (r: &'a [char])
    ensures
        r@ == strip_end(s@, part@),
{
    let mut rest: &'a [char] = s;
    while part.len() > 0 && ends_with(rest, part)
        invariant
            strip_end(rest@, part@) == strip_end(s@, part@),
        decreases rest@.len(),
    {
        assert(rest@.take(rest@.len() - part@.len()) =~= rest@.subrange(
            0,
            rest@.len() - part@.len(),
        ));
        rest = slice_subrange(rest, 0, rest.len() - part.len());
    }
    rest
}

/// The lowest `width` hexadecimal digits of a number.
pub open spec fn hex(n: nat, width: nat) -> Seq<char>
    decreases width,
{
    if width == 0 {
        Seq::empty()
    } else {
        hex(n / 16, (width - 1) as nat).push(digit((n % 16) as int))
    }
}

/// Appends the lowest `width` hexadecimal digits of a number.
pub fn push_hex(s: &mut String, n: u64, width: usize)
    ensures
        final(s)@ == old(s)@ + hex(n as nat, width as nat),
    decreases width,
{
    let ghost before = s@;
    if width > 0 {
        push_hex(s, n / 16, width - 1);
        let d: u8 = (n % 16) as u8;
        if d < 10 {
            s.push((48 + d) as char);
        } else {
            s.push((87 + d) as char);
        }
    }
    assert(s@ =~= before + hex(n as nat, width as nat));
}

/// The given texts with `sep` between each two.
pub open spec fn join(s: Seq<Seq<char>>, sep: Seq<char>) -> Seq<char>
    decreases s.len(),
{
    if s.len() == 0 {
        Seq::empty()
    } else if s.len() == 1 {
        s[0]
    } else {
        join(s.drop_last(), sep) + sep + s.last()
    }
}

/// The models of a list of strings.
pub open spec fn texts(v: Seq<String>) -> Seq<Seq<char>> {
    v.map_values(|s: String| s@)
}

/// Puts strings together with `sep` between each two.
pub fn joined(v: &Vec<String>, sep: &str) -> (r: String)
    ensures
        r@ == join(texts(v@), sep@),
{
    let mut r = String::new();
    let ghost all = texts(v@);
    assert(all.take(0) =~= Seq::<Seq<char>>::empty());
    for i in 0..v.len()
        invariant
            all == texts(v@),
            r@ == join(all.take(i as int), sep@),
    {
        assert(all.take(i + 1).drop_last() =~= all.take(i as int));
        assert(all.take(i + 1).last() == v@[i as int]@);
        if i > 0 {
            r.append(sep);
        }
        r.append(v[i].as_str());
        if i == 0 {
            assert(all.take(1)[0] == v@[0]@);
            assert(r@ =~= v@[0]@);
        }
    }
    assert(all.take(v@.len() as int) =~= all);
    r
}

/// The given texts with a line feed between each two.
pub open spec fn join_lines(s: Seq<Seq<char>>) -> Seq<char>
    decreases s.len(),
{
    if s.len() == 0 {
        Seq::empty()
    } else if s.len() == 1 {
        s[0]
    } else {
        join_lines(s.drop_last()).push('\n') + s.last()
    }
}

/// Puts texts together with a line feed between each two.
pub fn joined_lines(v: &Vec<Vec<char>>) -> (r: Vec<char>)
    ensures
        r@ == join_lines(views(v@)),
{
    let mut r: Vec<char> = Vec::new();
    let ghost all = views(v@);
    assert(all.take(0) =~= Seq::<Seq<char>>::empty());
    for i in 0..v.len()
        invariant
            all == views(v@),
            r@ == join_lines(all.take(i as int)),
    {
        assert(all.take(i + 1).drop_last() =~= all.take(i as int));
        assert(all.take(i + 1).last() == v@[i as int]@);
        let ghost before = r@;
        if i > 0 {
            r.push('\n');
        }
        let ghost mid = r@;
        let n: usize = v[i].len();
        for k in 0..n
            invariant
                n == v@[i as int]@.len(),
                i < v@.len(),
                r@ == mid + v@[i as int]@.take(k as int),
        {
            r.push(v[i][k]);
            assert(v@[i as int]@.take(k + 1) =~= v@[i as int]@.take(k as int).push(
                v@[i as int]@[k as int],
            ));
        }
        assert(v@[i as int]@.take(n as int) =~= v@[i as int]@);
        if i == 0 {
            assert(all.take(1)[0] == v@[0]@);
            assert(r@ =~= v@[0]@);
        }
    }
    assert(all.take(v@.len() as int) =~= all);
    r
}

/// Whether a text is nothing but white space.
pub open spec fn all_white(s: Seq<char>) -> bool {
    forall|k: int| 0 <= k < s.len() ==> white_space(#[trigger] s[k])
}

/// Whether a text has no white space at either end.
pub open spec fn bare_ends(s: Seq<char>) -> bool {
    s.len() > 0 ==> !white_space(s[0]) && !white_space(s[s.len() - 1])
}

/// White space in front is dropped, whatever follows.
pub proof fn lemma_trim_start_white(a: Seq<char>, s: Seq<char>)
    requires
        all_white(a),
    ensures
        trim_start(a + s) == trim_start(s),
    decreases a.len(),
{
    if a.len() == 0 {
        assert(a + s =~= s);
    } else {
        assert((a + s)[0] == a[0]);
        assert((a + s).drop_first() =~= a.drop_first() + s);
        lemma_trim_start_white(a.drop_first(), s);
    }
}

/// White space behind is dropped, whatever stands before it.
pub proof fn lemma_trim_end_white(s: Seq<char>, b: Seq<char>)
    requires
        all_white(b),
    ensures
        trim_end(s + b) == trim_end(s),
    decreases b.len(),
{
    if b.len() == 0 {
        assert(s + b =~= s);
    } else {
        assert((s + b).last() == b[b.len() - 1]);
        assert((s + b).drop_last() =~= s + b.drop_last());
        lemma_trim_end_white(s, b.drop_last());
    }
}

/// A text is taken out of the white space around it, and nothing else of it is
/// lost: what has no white space at its ends is what comes out, however much
/// stands around it.
pub proof fn law_trim_takes_off_white_space(a: Seq<char>, s: Seq<char>, b: Seq<char>)
    requires
        all_white(a),
        all_white(b),
        bare_ends(s),
    ensures
        trim(a + s + b) == s,
        trim_end(s + b) == s,
        trim_start(a + s) == s,
{
    assert(a + s + b =~= a + (s + b));
    lemma_trim_start_white(a, s + b);
    lemma_trim_start_white(a, s);
    lemma_trim_end_white(s, b);
    if s.len() > 0 {
        assert((s + b)[0] == s[0]);
        assert(trim_start(s + b) == s + b);
    } else {
        assert(s + b =~= b);
        lemma_trim_start_white(b, Seq::empty());
        assert(b + Seq::<char>::empty() =~= b);
        assert(trim_start(b) =~= Seq::<char>::empty());
        assert(trim_end(b) =~= Seq::<char>::empty());
    }
}

/// Where a text is cut by trimming.
pub proof fn lemma_trim_cuts(s: Seq<char>) -> (r: (Seq<char>, Seq<char>))
    ensures
        s == r.0 + trim(s) + r.1,
        all_white(r.0),
        all_white(r.1),
        bare_ends(trim(s)),
    decreases s.len(),
{
    if s.len() > 0 && white_space(s[0]) {
        let (a, b) = lemma_trim_cuts(s.drop_first());
        let front = seq![s[0]] + a;
        assert(s =~= seq![s[0]] + s.drop_first());
        assert(s =~= front + trim(s) + b);
        assert forall|k: int| 0 <= k < front.len() implies white_space(#[trigger] front[k]) by {
            if k > 0 {
                assert(front[k] == a[k - 1]);
            }
        }
        (front, b)
    } else if s.len() > 0 && white_space(s.last()) {
        let t = s.drop_last();
        assert(trim_start(s) == s);
        if t.len() > 0 {
            assert(t[0] == s[0]);
            assert(trim_start(t) == t);
        } else {
            assert(s[0] == s.last());
        }
        let (a, b) = lemma_trim_cuts(t);
        let back = b.push(s.last());
        assert(s =~= t.push(s.last()));
        assert(trim(s) == trim(t));
        assert(s =~= a + trim(s) + back);
        assert forall|k: int| 0 <= k < back.len() implies white_space(#[trigger] back[k]) by {
            if k < b.len() {
                assert(back[k] == b[k]);
            }
        }
        (a, back)
    } else {
        let none = Seq::<char>::empty();
        assert(trim(s) == s);
        assert(s =~= none + s + none);
        (none, none)
    }
}

/// Only white space is trimmed away, and only at the ends; a text is trimmed to
/// nothing exactly where it is nothing but white space.
pub proof fn law_trim_keeps_the_rest(s: Seq<char>)
    ensures
        exists|a: Seq<char>, b: Seq<char>|
            all_white(a) && all_white(b) && s == #[trigger] (a + trim(s) + b),
        bare_ends(trim(s)),
        trim(s).len() == 0 <==> all_white(s),
{
    let (a, b) = lemma_trim_cuts(s);
    assert(s == a + trim(s) + b);
    if trim(s).len() > 0 {
        assert(s[a.len() as int] == trim(s)[0]);
    } else {
        assert(s =~= a + b);
        assert forall|k: int| 0 <= k < s.len() implies white_space(#[trigger] s[k]) by {
            if k < a.len() {
                assert(s[k] == a[k]);
            } else {
                assert(s[k] == b[k - a.len()]);
            }
        }
    }
}

/// Whether a text has no `c` in it.
pub open spec fn without(s: Seq<char>, c: char) -> bool {
    forall|k: int| 0 <= k < s.len() ==> #[trigger] s[k] != c
}

/// The first line of a text ends at its first line feed, and the carriage
/// return in front of that, one if there are several, is not part of it. The
/// lines behind it are those of the rest.
pub proof fn law_lines_end_at_line_feeds(a: Seq<char>, rest: Seq<char>)
    requires
        without(a, '\n'),
    ensures
        lines(a + seq!['\r', '\n'] + rest) == seq![a] + lines(rest),
        (a.len() > 0 ==> a[a.len() - 1] != '\r') ==> lines(a + seq!['\n'] + rest) == seq![a]
            + lines(rest),
{
    let s = a + seq!['\r', '\n'] + rest;
    let n = a.len() as int;
    assert forall|k: int| 0 <= k < n + 1 implies s[k] != '\n' by {
        if k < n {
            assert(s[k] == a[k]);
        }
    }
    assert(s[n + 1] == '\n');
    lemma_find_char_at(s, '\n', n + 1);
    assert(s.take(n + 1) =~= a.push('\r'));
    assert(a.push('\r').drop_last() =~= a);
    assert(s.skip(n + 2) =~= rest);
    let t = a + seq!['\n'] + rest;
    assert forall|k: int| 0 <= k < n implies t[k] != '\n' by {
        assert(t[k] == a[k]);
    }
    assert(t[n] == '\n');
    lemma_find_char_at(t, '\n', n);
    assert(t.take(n) =~= a);
    assert(t.skip(n + 1) =~= rest);
}

/// What stands behind the last line feed is a line of its own where there is
/// anything, with all of its characters.
pub proof fn law_last_line_needs_no_ending(a: Seq<char>)
    requires
        without(a, '\n'),
    ensures
        a.len() > 0 ==> lines(a) == seq![a],
        a.len() == 0 ==> lines(a).len() == 0,
{
    if a.len() > 0 {
        assert forall|k: int| 0 <= k < a.len() implies a[k] != '\n' by {
            assert(a[k] != '\n');
        }
        lemma_find_char_none(a, '\n');
    }
}

/// A text is taken apart at each `c`: the first part ends at the first one, and
/// the other parts are those of what stands behind it.
pub proof fn law_split_at_each(a: Seq<char>, c: char, rest: Seq<char>)
    requires
        without(a, c),
    ensures
        split(a, c) == seq![a],
        split(a + seq![c] + rest, c) == seq![a] + split(rest, c),
{
    assert forall|k: int| 0 <= k < a.len() implies a[k] != c by {
        assert(a[k] != c);
    }
    lemma_find_char_none(a, c);
    let s = a + seq![c] + rest;
    let n = a.len() as int;
    assert forall|k: int| 0 <= k < n implies s[k] != c by {
        assert(s[k] == a[k]);
    }
    assert(s[n] == c);
    lemma_find_char_at(s, c, n);
    assert(s.take(n) =~= a);
    assert(s.skip(n + 1) =~= rest);
}

/// The last `c` of a text decides what stands behind it; where there is none,
/// nothing does.
pub proof fn law_after_the_last(a: Seq<char>, c: char, b: Seq<char>)
    requires
        without(b, c),
    ensures
        after_last(a + seq![c] + b, c) == Some(b),
        after_last(b, c) is None,
    decreases b.len(),
{
    let s = a + seq![c] + b;
    if b.len() == 0 {
        assert(s.last() == c);
        assert(b =~= Seq::<char>::empty());
    } else {
        let t = b.drop_last();
        assert(b[b.len() - 1] != c);
        assert forall|k: int| 0 <= k < t.len() implies #[trigger] t[k] != c by {
            assert(t[k] == b[k]);
        }
        law_after_the_last(a, c, t);
        assert(s.drop_last() =~= a + seq![c] + t);
        assert(t.push(b.last()) =~= b);
    }
}

/// Capital ASCII letters become their small ones and every other character
/// stays, place by place.
pub proof fn law_lowercase_is_by_character(s: Seq<char>)
    ensures
        ascii_lowercase(s).len() == s.len(),
        forall|k: int|
            0 <= k < s.len() ==> (#[trigger] ascii_lowercase(s)[k]) as u32 == if 65 <= s[k] as u32
                && s[k] as u32 <= 90 {
                s[k] as u32 + 32
            } else {
                s[k] as int
            },
{
}

/// Texts are in the order of their first different characters, and a text comes
/// before every longer one that begins with it.
pub proof fn law_order_is_by_the_first_difference(
    p: Seq<char>,
    a: char,
    x: Seq<char>,
    b: char,
    y: Seq<char>,
)
    requires
        (a as u32) < (b as u32),
    ensures
        text_lt(p + seq![a] + x, p + seq![b] + y),
        !text_lt(p + seq![b] + y, p + seq![a] + x),
        text_lt(p, p + seq![a] + x),
        !text_lt(p + seq![a] + x, p),
    decreases p.len(),
{
    let s = p + seq![a] + x;
    let t = p + seq![b] + y;
    if p.len() > 0 {
        let q = p.drop_first();
        law_order_is_by_the_first_difference(q, a, x, b, y);
        assert(s.drop_first() =~= q + seq![a] + x);
        assert(t.drop_first() =~= q + seq![b] + y);
        assert(s[0] == p[0] && t[0] == p[0]);
    } else {
        assert(s[0] == a && t[0] == b);
    }
}

/// What is put together can be put together in parts.
pub proof fn law_join_in_parts(a: Seq<Seq<char>>, b: Seq<Seq<char>>, sep: Seq<char>)
    ensures
        a.len() > 0 && b.len() > 0 ==> join(a + b, sep) == join(a, sep) + sep + join(b, sep),
        a.len() == 1 ==> join(a, sep) == a[0],
        a.len() == 0 ==> join(a, sep).len() == 0,
    decreases b.len(),
{
    if a.len() > 0 && b.len() > 0 {
        let all = a + b;
        assert(all.last() == b.last());
        if b.len() == 1 {
            assert(all.drop_last() =~= a);
        } else {
            let front = b.drop_last();
            law_join_in_parts(a, front, sep);
            assert(all.drop_last() =~= a + front);
            assert(join(a + b, sep) =~= join(a, sep) + sep + join(b, sep));
        }
    }
}

/// Lines that are put together, with a line feed at the very end, are the
/// lines one after the other, each ended by a line feed.
pub proof fn law_joined_lines_are_the_lines(s: Seq<Seq<char>>)
    requires
        s.len() > 0,
    ensures
        join_lines(s).push('\n') == unlines(s),
    decreases s.len(),
{
    if s.len() == 1 {
        assert(s.drop_first() =~= Seq::<Seq<char>>::empty());
        lemma_join_lines_first(s);
        assert(unlines(s.drop_first()) =~= Seq::<char>::empty());
        assert(join_lines(s).push('\n') =~= unlines(s));
    } else {
        law_joined_lines_are_the_lines(s.drop_first());
        lemma_join_lines_first(s);
        assert(join_lines(s).push('\n') =~= unlines(s));
    }
}

/// The first line, taken off what is put together.
pub proof fn lemma_join_lines_first(s: Seq<Seq<char>>)
    requires
        s.len() > 0,
    ensures
        join_lines(s) == if s.len() == 1 {
            s[0]
        } else {
            s[0].push('\n') + join_lines(s.drop_first())
        },
    decreases s.len(),
{
    if s.len() > 1 {
        lemma_join_lines_first(s.drop_last());
        assert(s.drop_last()[0] == s[0]);
        assert(s.drop_first().last() == s.last());
        assert(s.drop_last().drop_first() =~= s.drop_first().drop_last());
        assert(join_lines(s) =~= s[0].push('\n') + join_lines(s.drop_first()));
    }
}

/// A copy in front is taken off, and what does not begin with one is left.
pub proof fn law_copies_are_stripped(s: Seq<char>, part: Seq<char>)
    requires
        part.len() > 0,
    ensures
        strip_start(part + s, part) == strip_start(s, part),
        !part.is_prefix_of(s) ==> strip_start(s, part) == s,
        strip_end(s + part, part) == strip_end(s, part),
        !part.is_suffix_of(s) ==> strip_end(s, part) == s,
{
    let a = part + s;
    assert(part =~= a.subrange(0, part.len() as int));
    assert(a.skip(part.len() as int) =~= s);
    let b = s + part;
    assert(part =~= b.subrange(b.len() - part.len(), b.len() as int));
    assert(b.take(b.len() - part.len()) =~= s);
}

/// The digits of a number stand for it, the first of them is no zero unless the
/// number is, and every one of them is a digit.
pub proof fn law_decimal_stands_for_its_number(n: nat)
    ensures
        digits_value(decimal(n)) == n,
        all_digits(decimal(n)),
        decimal(n).len() > 0,
        n > 0 ==> decimal(n)[0] != '0',
        n == 0 ==> decimal(n) == seq!['0'],
    decreases n,
{
    if n >= 10 {
        law_decimal_stands_for_its_number(n / 10);
        let front = decimal(n / 10);
        assert(decimal(n).drop_last() =~= front);
        assert(decimal(n)[0] == front[0]);
        assert forall|k: int| 0 <= k < decimal(n).len() implies is_digit(
            #[trigger] decimal(n)[k],
        ) by {
            if k < front.len() {
                assert(decimal(n)[k] == front[k]);
            }
        }
    } else {
        assert(decimal(n).drop_last() =~= Seq::<char>::empty());
        assert(digits_value(Seq::<char>::empty()) == 0);
    }
}

/// One more digit makes a number ten times as large and adds the digit.
pub proof fn law_digits_are_decimal(s: Seq<char>, c: char)
    ensures
        digits_value(s.push(c)) == 10 * digits_value(s) + (c as int - 48),
        digits_value(Seq::<char>::empty()) == 0,
{
    assert(s.push(c).drop_last() =~= s);
}

/// A place that is written in decimal is read as that place, with a plus sign
/// in front too, and so is one with zeros in front.
pub proof fn law_places_are_read_back(i: usize)
    ensures
        index_of(decimal(i as nat)) == Some(i),
        index_of(seq!['+'] + decimal(i as nat)) == Some(i),
        index_of(seq!['0'] + decimal(i as nat)) == Some(i),
{
    let d = decimal(i as nat);
    law_decimal_stands_for_its_number(i as nat);
    assert(is_digit(d[0]));
    let plus = seq!['+'] + d;
    assert(plus.skip(1) =~= d);
    let zero = seq!['0'] + d;
    lemma_leading_zero(d);
    assert forall|k: int| 0 <= k < zero.len() implies is_digit(#[trigger] zero[k]) by {
        if k > 0 {
            assert(zero[k] == d[k - 1]);
        }
    }
}

/// A zero in front changes no number.
proof fn lemma_leading_zero(s: Seq<char>)
    ensures
        digits_value(seq!['0'] + s) == digits_value(s),
    decreases s.len(),
{
    let z = seq!['0'] + s;
    if s.len() == 0 {
        assert(z =~= seq!['0']);
        assert(z.drop_last() =~= Seq::<char>::empty());
        assert(digits_value(Seq::<char>::empty()) == 0);
    } else {
        lemma_leading_zero(s.drop_last());
        assert(z.drop_last() =~= seq!['0'] + s.drop_last());
        assert(z.last() == s.last());
    }
}

/// What is read as a place is made of decimal digits, but for a plus sign in
/// front, and has at least one; every such text whose number is not too great
/// is read as a place.
pub proof fn law_only_digits_are_places(s: Seq<char>)
    ensures
        index_of(s) is Some ==> s.len() > 0 && (forall|k: int|
            0 < k < s.len() ==> '0' <= #[trigger] s[k] <= '9') && ('0' <= s[0] <= '9' || (s[0]
            == '+' && s.len() > 1)),
        s.len() > 0 && (forall|k: int|
            0 <= k < s.len() ==> '0' <= #[trigger] s[k] <= '9') ==> (index_of(s)
            == if digits_value(s) <= usize::MAX {
            Some(digits_value(s) as usize)
        } else {
            None
        }),
{
    if index_of(s) is Some {
        let d = unsigned(s);
        assert forall|k: int| 0 < k < s.len() implies '0' <= #[trigger] s[k] <= '9' by {
            if s[0] == '+' {
                assert(d[k - 1] == s[k]);
                assert(is_digit(d[k - 1]));
            } else {
                assert(is_digit(d[k]));
            }
        }
        if s[0] != '+' {
            assert(is_digit(d[0]));
        }
    }
    if s.len() > 0 && (forall|k: int| 0 <= k < s.len() ==> '0' <= #[trigger] s[k] <= '9') {
        assert('0' <= s[0] <= '9');
        assert(unsigned(s) == s);
        assert(all_digits(s));
        lemma_digits_value_take(s, 0);
        assert(s.take(0) =~= Seq::<char>::empty());
    }
}

/// The last hexadecimal digit of a number is its remainder by sixteen, the
/// others are those of the rest, and a digit is its place among
/// `0123456789abcdef`.
pub proof fn law_hex_digit_by_digit(n: nat, d: nat, width: nat)
    requires
        d < 16,
    ensures
        hex(16 * n + d, width + 1).len() == hex(n, width).len() + 1,
        hex(16 * n + d, width + 1).drop_last() == hex(n, width),
        hex(16 * n + d, width + 1).last() as u32 == if d < 10 {
            48 + d
        } else {
            87 + d
        },
        hex(n, 0).len() == 0,
{
    assert((16 * n + d) / 16 == n);
    assert((16 * n + d) % 16 == d);
    assert(hex(16 * n + d, width + 1).drop_last() =~= hex(n, width));
}

/// Every character takes as many bytes as UTF-8 has for it, so that texts
/// behind each other have the bytes of both.
pub proof fn law_bytes_add_up(a: Seq<char>, b: Seq<char>)
    ensures
        byte_len(a + b) == byte_len(a) + byte_len(b),
        byte_len(a) >= a.len(),
    decreases a.len(),
{
    lemma_byte_len_concat(a, b);
    if a.len() > 0 {
        lemma_byte_len_step(a);
        law_bytes_add_up(a.drop_first(), b);
    }
}

/// The models of texts are the texts, one for one and in order.
pub proof fn law_models_of_texts(strings: Seq<String>, vecs: Seq<Vec<char>>, i: int)
    ensures
        texts(strings).len() == strings.len(),
        0 <= i < strings.len() ==> texts(strings)[i] == strings[i]@,
        views(vecs).len() == vecs.len(),
        0 <= i < vecs.len() ==> views(vecs)[i] == vecs[i]@,
{
}

} // verus!
