//! A cache of answers for the time of one call, keyed on a term, its English
//! anchor and the context around it.

use crate::issue::copy_text;
use crate::text::{chars_of, is_white_space, push_decimal, string_of};
use vstd::hash_map::StringHashMap;
use vstd::prelude::*;

verus! {

/// How many characters of a context a key keeps at most.
pub const CONTEXT_KEPT: usize = 80;

/// A text without its white space.
pub open spec fn squeezed(s: Seq<char>) -> Seq<char> {
    s.filter(|c: char| !crate::text::white_space(c))
}

/// The middle of a text: all of it where it is short, else forty characters to
/// either side of its centre.
pub open spec fn middle(s: Seq<char>) -> Seq<char> {
    if s.len() <= CONTEXT_KEPT {
        s
    } else {
        let center = (s.len() / 2) as int;
        s.subrange(center - 40, center + 40)
    }
}

/// What a key keeps of a context.
pub open spec fn normalized(context: Seq<char>) -> Seq<char> {
    middle(squeezed(context))
}

/// The characters of a text without its white space.
fn squeeze(s: &[char]) -> (r: Vec<char>)
    ensures
        r@ == squeezed(s@),
{
    let ghost keep = |c: char| !crate::text::white_space(c);
    let mut r: Vec<char> = Vec::new();
    assert(s@.take(0) =~= Seq::<char>::empty());
    for i in 0..s.len()
        invariant
            keep == (|c: char| !crate::text::white_space(c)),
            r@ == s@.take(i as int).filter(keep),
    {
        assert(s@.take(i + 1).drop_last() =~= s@.take(i as int));
        assert(s@.take(i + 1).last() == s@[i as int]);
        reveal(Seq::filter);
        if !is_white_space(s[i]) {
            r.push(s[i]);
        }
    }
    assert(s@.take(s@.len() as int) =~= s@);
    r
}

/// What a key keeps of a context: no white space, and the middle of the rest.
pub fn normalize_cache_context(context: &str) -> (r: String)
    ensures
        r@ == normalized(context@),
{
    let all = chars_of(context);
    let filtered = squeeze(all.as_slice());
    let count: usize = filtered.len();
    if count <= CONTEXT_KEPT {
        string_of(filtered.as_slice())
    } else {
        let center: usize = count / 2;
        string_of(vstd::slice::slice_subrange(filtered.as_slice(), center - 40, center + 40))
    }
}

/// The key of a term, an anchor and a context. Each of the first two is
/// written behind its length in bytes, so that nothing in it can be taken for
/// a separator.
pub open spec fn key_of(found: Seq<char>, english: Seq<char>, context: Seq<char>) -> Seq<char> {
    counted(found, counted(english, normalized(context)))
}

/// A text behind its length in bytes, and what follows it.
pub open spec fn counted(s: Seq<char>, rest: Seq<char>) -> Seq<char> {
    crate::text::decimal(crate::text::byte_len(s)) + (seq![':'] + (s + (seq!['\n'] + rest)))
}

/// The anchor as it stands in a key: a missing one is empty.
pub open spec fn anchor(english: Option<Seq<char>>) -> Seq<char> {
    match english {
        Some(e) => e,
        None => Seq::empty(),
    }
}

/// Appends a text behind its length in bytes.
fn push_counted(key: &mut String, s: &str)
    ensures
        forall|rest: Seq<char>|
            final(key)@ + rest == old(key)@ + #[trigger] counted(s@, rest),
{
    push_decimal(key, crate::text::bytes_in(s));
    key.push(':');
    key.append(s);
    key.push('\n');
    assert forall|rest: Seq<char>| key@ + rest == old(key)@ + #[trigger] counted(s@, rest) by {
        assert(key@ + rest =~= old(key)@ + counted(s@, rest));
    }
}

/// A decimal number holds digits only.
proof fn lemma_decimal_digits(n: nat)
    ensures
        crate::text::decimal(n).len() > 0,
        forall|i: int|
            0 <= i < crate::text::decimal(n).len() ==> '0' <= #[trigger] crate::text::decimal(n)[i]
                <= '9',
    decreases n,
{
    if n >= 10 {
        lemma_decimal_digits(n / 10);
    }
}

/// Different numbers are written differently.
proof fn lemma_decimal_injective(a: nat, b: nat)
    requires
        crate::text::decimal(a) == crate::text::decimal(b),
    ensures
        a == b,
    decreases a,
{
    let x = crate::text::decimal(a);
    let y = crate::text::decimal(b);
    lemma_decimal_digits(a / 10);
    lemma_decimal_digits(b / 10);
    assert(x.last() == y.last());
    if a >= 10 && b >= 10 {
        assert(x.drop_last() =~= crate::text::decimal(a / 10));
        assert(y.drop_last() =~= crate::text::decimal(b / 10));
        lemma_decimal_injective(a / 10, b / 10);
    }
}

/// Where two texts begin with digits up to a colon, the digits are the same and
/// so is the rest, if the texts are.
proof fn lemma_digits_end(a: Seq<char>, x: Seq<char>, b: Seq<char>, y: Seq<char>)
    requires
        forall|i: int| 0 <= i < a.len() ==> #[trigger] a[i] != ':',
        forall|i: int| 0 <= i < b.len() ==> #[trigger] b[i] != ':',
        a + (seq![':'] + x) == b + (seq![':'] + y),
    ensures
        a == b,
        x == y,
{
    let s = a + (seq![':'] + x);
    let t = b + (seq![':'] + y);
    assert(s[a.len() as int] == ':');
    assert(t[b.len() as int] == ':');
    if a.len() < b.len() {
        assert(t[a.len() as int] == b[a.len() as int]);
        assert(false);
    }
    if b.len() < a.len() {
        assert(s[b.len() as int] == a[b.len() as int]);
        assert(false);
    }
    assert(s.take(a.len() as int) =~= a);
    assert(t.take(b.len() as int) =~= b);
    assert(s.skip(a.len() as int + 1) =~= x);
    assert(t.skip(b.len() as int + 1) =~= y);
}

/// Two texts of as many bytes that begin one text are the same.
proof fn lemma_same_bytes(a: Seq<char>, x: Seq<char>, b: Seq<char>, y: Seq<char>)
    requires
        a + x == b + y,
        crate::text::byte_len(a) == crate::text::byte_len(b),
    ensures
        a == b,
        x == y,
    decreases a.len(),
{
    if a.len() > b.len() {
        lemma_same_bytes(b, y, a, x);
    } else {
        let s = a + x;
        let t = b + y;
        let rest = b.skip(a.len() as int);
        assert(s.take(a.len() as int) =~= a);
        assert(t.take(a.len() as int) =~= b.take(a.len() as int));
        assert(b =~= a + rest);
        crate::text::lemma_byte_len_concat(a, rest);
        crate::text::lemma_byte_len_zero(rest);
        assert(a =~= b);
        assert(s.skip(a.len() as int) =~= x);
        assert(t.skip(b.len() as int) =~= y);
    }
}

/// A text behind its length can be told from what follows it.
proof fn lemma_counted(a: Seq<char>, x: Seq<char>, b: Seq<char>, y: Seq<char>)
    requires
        counted(a, x) == counted(b, y),
    ensures
        a == b,
        x == y,
{
    lemma_decimal_digits(crate::text::byte_len(a));
    lemma_decimal_digits(crate::text::byte_len(b));
    lemma_digits_end(
        crate::text::decimal(crate::text::byte_len(a)),
        a + (seq!['\n'] + x),
        crate::text::decimal(crate::text::byte_len(b)),
        b + (seq!['\n'] + y),
    );
    lemma_decimal_injective(crate::text::byte_len(a), crate::text::byte_len(b));
    lemma_same_bytes(a, seq!['\n'] + x, b, seq!['\n'] + y);
    assert((seq!['\n'] + x).skip(1) =~= x);
    assert((seq!['\n'] + y).skip(1) =~= y);
}

/// No two questions share a key by accident: equal keys mean the same term, the
/// same anchor and the same context, as far as a key keeps one.
pub proof fn law_keys_do_not_collide(
    found_a: Seq<char>,
    english_a: Seq<char>,
    context_a: Seq<char>,
    found_b: Seq<char>,
    english_b: Seq<char>,
    context_b: Seq<char>,
)
    requires
        key_of(found_a, english_a, context_a) == key_of(found_b, english_b, context_b),
    ensures
        found_a == found_b,
        english_a == english_b,
        normalized(context_a) == normalized(context_b),
{
    let x = counted(english_a, normalized(context_a));
    let y = counted(english_b, normalized(context_b));
    lemma_counted(found_a, x, found_b, y);
    lemma_counted(english_a, normalized(context_a), english_b, normalized(context_b));
}

/// A key keeps no white space of a context and at most eighty characters.
pub proof fn law_kept_context_is_bounded(context: Seq<char>)
    ensures
        normalized(context).len() <= CONTEXT_KEPT,
        forall|i: int|
            0 <= i < normalized(context).len() ==> !crate::text::white_space(
                #[trigger] normalized(context)[i],
            ),
{
    let keep = |c: char| !crate::text::white_space(c);
    assert forall|i: int| 0 <= i < squeezed(context).len() implies !crate::text::white_space(
        #[trigger] squeezed(context)[i],
    ) by {
        context.lemma_filter_pred(keep, i);
    }
}

/// What is no white space is kept, punctuation too, as long as the context is
/// not cut to its middle.
pub proof fn law_other_characters_are_kept(before: Seq<char>, c: char, after: Seq<char>)
    requires
        !crate::text::white_space(c),
        squeezed(before + (seq![c] + after)).len() <= CONTEXT_KEPT,
    ensures
        normalized(before + (seq![c] + after)) == squeezed(before) + (seq![c] + squeezed(after)),
{
    let keep = |c: char| !crate::text::white_space(c);
    Seq::filter_distributes_over_add(before, seq![c] + after, keep);
    Seq::filter_distributes_over_add(seq![c], after, keep);
    assert(seq![c].filter(keep) =~= seq![c]) by {
        reveal_with_fuel(Seq::filter, 2);
        assert(seq![c].drop_last() =~= Seq::<char>::empty());
    }
}

/// White space tells no two contexts apart.
pub proof fn law_white_space_is_ignored(before: Seq<char>, c: char, after: Seq<char>)
    requires
        crate::text::white_space(c),
    ensures
        normalized(before + (seq![c] + after)) == normalized(before + after),
{
    let keep = |c: char| !crate::text::white_space(c);
    Seq::filter_distributes_over_add(before, seq![c] + after, keep);
    Seq::filter_distributes_over_add(seq![c], after, keep);
    Seq::filter_distributes_over_add(before, after, keep);
    assert(seq![c].filter(keep) =~= Seq::<char>::empty()) by {
        reveal_with_fuel(Seq::filter, 2);
    }
    assert(seq![c].filter(keep) + after.filter(keep) =~= after.filter(keep));
}

/// An answer to a question: the term it named, if it named one.
#[derive(Debug)]
pub struct CachedDisambiguation {
    pub matched_term: Option<String>,
}

impl Clone for CachedDisambiguation {
    fn clone(&self) -> (r: CachedDisambiguation)
        ensures
            crate::issue::text_view(r.matched_term) == crate::issue::text_view(self.matched_term),
    {
        CachedDisambiguation { matched_term: copy_text(&self.matched_term) }
    }
}

/// The answers that came in during one call.
pub struct DisambiguationCache {
    entries: StringHashMap<CachedDisambiguation>,
}

impl View for DisambiguationCache {
    type V = Map<Seq<char>, Option<Seq<char>>>;

    /// The term that each key's answer named.
    closed spec fn view(&self) -> Map<Seq<char>, Option<Seq<char>>> {
        self.entries@.map_values(
            |c: CachedDisambiguation| crate::issue::text_view(c.matched_term),
        )
    }
}

impl DisambiguationCache {
    /// A cache without answers.
    pub fn new() -> (r: DisambiguationCache)
        ensures
            r@ == Map::<Seq<char>, Option<Seq<char>>>::empty(),
    {
        let r = DisambiguationCache { entries: StringHashMap::new() };
        assert(r@ =~= Map::<Seq<char>, Option<Seq<char>>>::empty());
        r
    }

    /// The key of a term, an anchor and a context.
    pub fn make_key(found: &str, english: Option<&str>, context: &str) -> (r: String)
        ensures
            r@ == key_of(found@, anchor(crate::issue::str_view(english)), context@),
    {
        let kept = normalize_cache_context(context);
        let eng: &str = match english {
            Some(e) => e,
            None => "",
        };
        proof {
            reveal_strlit("");
            assert(english is None ==> eng@ =~= Seq::<char>::empty());
        }
        let mut key = String::new();
        push_counted(&mut key, found);
        let ghost first = key@;
        push_counted(&mut key, eng);
        let ghost second = key@;
        key.append(kept.as_str());
        proof {
            assert(second + kept@ == first + counted(eng@, kept@));
            assert(first + counted(eng@, kept@) == Seq::<char>::empty() + counted(
                found@,
                counted(eng@, kept@),
            ));
            assert(Seq::<char>::empty() + counted(found@, counted(eng@, kept@)) =~= counted(
                found@,
                counted(eng@, kept@),
            ));
        }
        key
    }

    /// The answer to a question, if it came in before.
    pub fn get(&self, found: &str, english: Option<&str>, context: &str) -> (r: Option<
        &CachedDisambiguation,
    >)
        ensures
            ({
                let key = key_of(found@, anchor(crate::issue::str_view(english)), context@);
                match r {
                    Some(c) => self@.contains_key(key) && self@[key] == crate::issue::text_view(
                        c.matched_term,
                    ),
                    None => !self@.contains_key(key),
                }
            }),
    {
        let key = Self::make_key(found, english, context);
        self.entries.get(key.as_str())
    }

    /// Keeps the answer to a question.
    pub fn insert(
        &mut self,
        found: &str,
        english: Option<&str>,
        context: &str,
        result: CachedDisambiguation,
    )
        ensures
            final(self)@ == old(self)@.insert(
                key_of(found@, anchor(crate::issue::str_view(english)), context@),
                crate::issue::text_view(result.matched_term),
            ),
    {
        let key = Self::make_key(found, english, context);
        let ghost before = self@;
        let ghost k = key@;
        let ghost term = crate::issue::text_view(result.matched_term);
        self.entries.insert(key, result);
        assert(self@ =~= before.insert(k, term));
    }
}

/// Of a long context exactly the middle is kept: eighty characters in a row,
/// with as many before them as behind them, or one more behind them.
pub proof fn law_the_middle_is_kept(a: Seq<char>, m: Seq<char>, b: Seq<char>)
    requires
        forall|k: int| 0 <= k < a.len() ==> !crate::text::white_space(#[trigger] a[k]),
        forall|k: int| 0 <= k < m.len() ==> !crate::text::white_space(#[trigger] m[k]),
        forall|k: int| 0 <= k < b.len() ==> !crate::text::white_space(#[trigger] b[k]),
        m.len() == 80,
        b.len() == a.len() || b.len() == a.len() + 1,
    ensures
        normalized(a + m + b) == m,
{
    let s = a + m + b;
    assert forall|k: int| 0 <= k < s.len() implies !crate::text::white_space(#[trigger] s[k]) by {
        if k < a.len() {
            assert(s[k] == a[k]);
        } else if k < a.len() + 80 {
            assert(s[k] == m[k - a.len()]);
        } else {
            assert(s[k] == b[k - a.len() - 80]);
        }
    }
    lemma_nothing_to_squeeze(s);
    assert(s.len() == a.len() + 80 + b.len());
    if s.len() > 80 {
        let center = (s.len() / 2) as int;
        assert(center - 40 == a.len());
        assert(s.subrange(center - 40, center + 40) =~= m);
    } else {
        assert(s =~= m);
    }
}

/// A text without white space is left as it is.
proof fn lemma_nothing_to_squeeze(s: Seq<char>)
    requires
        forall|k: int| 0 <= k < s.len() ==> !crate::text::white_space(#[trigger] s[k]),
    ensures
        squeezed(s) == s,
    decreases s.len(),
{
    let keep = |c: char| !crate::text::white_space(c);
    reveal(Seq::filter);
    if s.len() > 0 {
        let front = s.drop_last();
        assert forall|k: int| 0 <= k < front.len() implies !crate::text::white_space(
            #[trigger] front[k],
        ) by {
            assert(front[k] == s[k]);
        }
        lemma_nothing_to_squeeze(front);
        assert(!crate::text::white_space(s[s.len() - 1]));
        assert(front.push(s.last()) =~= s);
    } else {
        assert(squeezed(s) =~= s);
    }
}

/// A short context without white space is kept as it is.
pub proof fn law_a_short_context_is_kept(s: Seq<char>)
    requires
        s.len() <= 80,
        forall|k: int| 0 <= k < s.len() ==> !crate::text::white_space(#[trigger] s[k]),
    ensures
        normalized(s) == s,
{
    lemma_nothing_to_squeeze(s);
}

/// Questions have one key exactly where they have the same term, the same
/// anchor and the same context as far as a key keeps it; a missing anchor is an
/// empty one.
pub proof fn law_what_a_key_rests_on(
    found_a: Seq<char>,
    english_a: Option<Seq<char>>,
    context_a: Seq<char>,
    found_b: Seq<char>,
    english_b: Option<Seq<char>>,
    context_b: Seq<char>,
)
    ensures
        key_of(found_a, anchor(english_a), context_a) == key_of(
            found_b,
            anchor(english_b),
            context_b,
        ) <==> {
            &&& found_a == found_b
            &&& anchor(english_a) == anchor(english_b)
            &&& normalized(context_a) == normalized(context_b)
        },
        english_a matches Some(e) ==> anchor(english_a) == e,
        english_a is None ==> anchor(english_a).len() == 0,
{
    if key_of(found_a, anchor(english_a), context_a) == key_of(
        found_b,
        anchor(english_b),
        context_b,
    ) {
        law_keys_do_not_collide(
            found_a,
            anchor(english_a),
            context_a,
            found_b,
            anchor(english_b),
            context_b,
        );
    }
}

/// A key is the term behind the number of its bytes, the anchor behind the
/// number of its bytes, and what is kept of the context, on a line each.
pub proof fn law_how_a_key_is_written(found: Seq<char>, english: Seq<char>, context: Seq<char>)
    ensures
        key_of(found, english, context) == crate::text::decimal(crate::text::byte_len(found)) + seq![
            ':',
        ] + found + seq!['\n'] + crate::text::decimal(crate::text::byte_len(english)) + seq![':']
            + english + seq!['\n'] + normalized(context),
{
    assert(key_of(found, english, context) =~= crate::text::decimal(crate::text::byte_len(found))
        + seq![':'] + found + seq!['\n'] + crate::text::decimal(crate::text::byte_len(english))
        + seq![':'] + english + seq!['\n'] + normalized(context));
}

} // verus!
