//! File discovery: what the paths and the git ref on a command line come to.

use crate::text::{
    chars_of, comes_before, contains_part, ends_with, same_chars, split_at_char, starts_with,
    string_of, tail_after_last, to_lower, trimmed,
};
use vstd::prelude::*;
use vstd::slice::slice_subrange;

verus! {

/// Whether an extension is one of those that are scanned.
pub open spec fn supported(ext: Seq<char>) -> bool {
    ext == "md"@ || ext == "markdown"@ || ext == "yml"@ || ext == "yaml"@ || ext == "txt"@
}

/// Whether what stands behind the last dot of a path is a supported extension,
/// whatever its case.
pub open spec fn supported_path(path: Seq<char>) -> bool {
    match crate::text::after_last(path, '.') {
        Some(ext) => supported(crate::text::ascii_lowercase(ext)),
        None => false,
    }
}

/// Whether a text is one of the supported extensions.
fn is_supported(ext: &[char]) -> (r: bool)
    ensures
        r == supported(ext@),
{
    same_chars(ext, chars_of("md").as_slice()) || same_chars(ext, chars_of("markdown").as_slice())
        || same_chars(ext, chars_of("yml").as_slice()) || same_chars(
        ext,
        chars_of("yaml").as_slice(),
    ) || same_chars(ext, chars_of("txt").as_slice())
}

/// The one extension test for both ways of discovery.
pub fn has_supported_extension(path: &str) -> (r: bool)
    ensures
        r == supported_path(path@),
{
    let cs = chars_of(path);
    match tail_after_last(cs.as_slice(), '.') {
        Some(ext) => is_supported(to_lower(ext).as_slice()),
        None => false,
    }
}

/// A path with `/` for its separator. Only where backslashes separate are they
/// rewritten: elsewhere one is part of a file name.
pub open spec fn slashed(path: Seq<char>, windows: bool) -> Seq<char> {
    if windows {
        path.map_values(
            |c: char|
                if c == '\\' {
                    '/'
                } else {
                    c
                },
        )
    } else {
        path
    }
}

/// Whether a pattern excludes a path.
///
/// - `*.ext` excludes the paths that end in `.ext`;
/// - `dir/**` excludes everything under a directory component `dir`, wherever
///   in the path it stands, and `dir` itself where it stands behind a `/`;
///   `/**` alone excludes the paths with an empty component behind a `/`;
/// - any other pattern excludes the paths that have it as a component.
pub open spec fn pattern_excludes(pat: Seq<char>, path: Seq<char>) -> bool {
    let slash = seq!['/'];
    if "*."@.is_prefix_of(pat) {
        pat.skip(1).is_suffix_of(path)
    } else if "/**"@.is_suffix_of(pat) {
        let dir = pat.take(pat.len() - "/**"@.len());
        ||| crate::text::is_infix(slash + dir + slash, path)
        ||| (slash + dir).is_suffix_of(path)
        ||| dir.len() > 0 && (dir + slash).is_prefix_of(path)
    } else {
        ||| crate::text::is_infix(slash + pat + slash, path)
        ||| (slash + pat).is_suffix_of(path)
        ||| (pat + slash).is_prefix_of(path)
        ||| path == pat
    }
}

/// Whether one of the patterns excludes a path.
pub open spec fn excluded(path: Seq<char>, patterns: Seq<Seq<char>>, windows: bool) -> bool {
    exists|i: int|
        0 <= i < patterns.len() && pattern_excludes(
            #[trigger] patterns[i],
            slashed(path, windows),
        )
}

/// The text `a`, then `b`, then `c`.
fn glue(a: &[char], b: &[char], c: &[char]) -> (r: Vec<char>)
    ensures
        r@ == a@ + b@ + c@,
{
    let mut s = string_of(a);
    s.append(string_of(b).as_str());
    s.append(string_of(c).as_str());
    chars_of(s.as_str())
}

/// Whether a text stands in a path behind a separator, as a component or as
/// several.
fn stands_behind(part: &[char], path: &[char]) -> (r: bool)
    ensures
        r == (crate::text::is_infix(seq!['/'] + part@ + seq!['/'], path@) || (seq!['/']
            + part@).is_suffix_of(path@)),
{
    let mut slash: Vec<char> = Vec::new();
    slash.push('/');
    let none: Vec<char> = Vec::new();
    assert(slash@ =~= seq!['/']);
    let middle = glue(slash.as_slice(), part, slash.as_slice());
    let last = glue(slash.as_slice(), part, none.as_slice());
    assert(last@ =~= slash@ + part@);
    contains_part(path, middle.as_slice()) || ends_with(path, last.as_slice())
}

/// Whether a text stands in a path in front of a separator, as its first
/// component or its first several.
fn stands_first(part: &[char], path: &[char]) -> (r: bool)
    ensures
        r == (part@ + seq!['/']).is_prefix_of(path@),
{
    let mut slash: Vec<char> = Vec::new();
    slash.push('/');
    let none: Vec<char> = Vec::new();
    let first = glue(part, slash.as_slice(), none.as_slice());
    assert(first@ =~= part@ + seq!['/']);
    starts_with(path, first.as_slice())
}

/// Whether one pattern excludes a path.
fn matches_pattern(pat: &[char], path: &[char]) -> (r: bool)
    ensures
        r == pattern_excludes(pat@, path@),
{
    let star_dot = chars_of("*.");
    let stars = chars_of("/**");
    if starts_with(pat, star_dot.as_slice()) {
        proof {
            reveal_strlit("*.");
        }
        let ext = slice_subrange(pat, 1, pat.len());
        assert(ext@ =~= pat@.skip(1));
        return ends_with(path, ext);
    }
    if ends_with(pat, stars.as_slice()) {
        let dir = slice_subrange(pat, 0, pat.len() - stars.len());
        assert(dir@ =~= pat@.take(pat@.len() - "/**"@.len()));
        return stands_behind(dir, path) || (dir.len() > 0 && stands_first(dir, path));
    }
    stands_behind(pat, path) || stands_first(pat, path) || same_chars(path, pat)
}

/// Rewrites the separators of a path where backslashes separate.
fn with_slashes(path: &[char], windows: bool) -> (r: Vec<char>)
    ensures
        r@ == slashed(path@, windows),
{
    let mut r: Vec<char> = Vec::new();
    let n: usize = path.len();
    for i in 0..n
        invariant
            n == path@.len(),
            r@.len() == i,
            forall|k: int|
                0 <= k < i ==> #[trigger] r@[k] == (if windows && path@[k] == '\\' {
                    '/'
                } else {
                    path@[k]
                }),
    {
        if windows && path[i] == '\\' {
            r.push('/');
        } else {
            r.push(path[i]);
        }
    }
    assert(r@ =~= slashed(path@, windows));
    r
}

/// Whether a path matches one of the exclude patterns. `windows` says whether
/// backslashes separate the components of the path.
pub fn path_excluded(path: &str, patterns: &Vec<String>, windows: bool) -> (r: bool)
    ensures
        r == excluded(path@, crate::text::texts(patterns@), windows),
{
    let p = with_slashes(chars_of(path).as_slice(), windows);
    for i in 0..patterns.len()
        invariant
            p@ == slashed(path@, windows),
            forall|k: int|
                0 <= k < i ==> !pattern_excludes(#[trigger] crate::text::texts(patterns@)[k], p@),
    {
        assert(crate::text::texts(patterns@)[i as int] == patterns@[i as int]@);
        if matches_pattern(chars_of(patterns[i].as_str()).as_slice(), p.as_slice()) {
            return true;
        }
    }
    false
}

/// Whether a character may stand in a git ref that is compared against.
pub open spec fn ref_char(c: char) -> bool {
    ||| 'a' <= c <= 'z'
    ||| 'A' <= c <= 'Z'
    ||| '0' <= c <= '9'
    ||| "_./-~^@{}+"@.contains(c)
}

/// The arguments that make git list the files changed since a ref, or why the
/// ref is refused.
pub open spec fn diff_args(git_ref: Seq<char>) -> Result<Seq<Seq<char>>, Seq<char>> {
    if git_ref.len() > 0 && git_ref[0] == '-' {
        Err("--diff-from ref must not start with '-'"@)
    } else if exists|i: int| 0 <= i < git_ref.len() && !ref_char(#[trigger] git_ref[i]) {
        Err("--diff-from ref contains invalid characters"@)
    } else {
        Ok(seq!["diff"@, "-z"@, "--name-only"@, git_ref + "...HEAD"@])
    }
}

/// Whether a character may stand in a git ref.
fn is_ref_char(c: char, others: &Vec<char>) -> (r: bool)
    requires
        others@ == "_./-~^@{}+"@,
    ensures
        r == ref_char(c),
{
    if ('a' <= c && c <= 'z') || ('A' <= c && c <= 'Z') || ('0' <= c && c <= '9') {
        return true;
    }
    for i in 0..others.len()
        invariant
            others@ == "_./-~^@{}+"@,
            forall|k: int| 0 <= k < i ==> others@[k] != c,
    {
        if others[i] == c {
            assert(others@.contains(c));
            return true;
        }
    }
    false
}

/// The arguments that make git list the files changed since a ref.
///
/// A ref that starts with `-` would be read as a flag, so it is refused, and
/// so is one with a character that no ref needs.
pub fn git_diff_args(git_ref: &str) -> (r: Result<Vec<String>, String>)
    ensures
        match r {
            Ok(args) => diff_args(git_ref@) == Ok::<Seq<Seq<char>>, Seq<char>>(
                crate::text::texts(args@),
            ),
            Err(m) => diff_args(git_ref@) == Err::<Seq<Seq<char>>, Seq<char>>(m@),
        },
{
    let cs = chars_of(git_ref);
    let others = chars_of("_./-~^@{}+");
    if cs.len() > 0 && cs[0] == '-' {
        return Err("--diff-from ref must not start with '-'".to_owned());
    }
    for i in 0..cs.len()
        invariant
            cs@ == git_ref@,
            others@ == "_./-~^@{}+"@,
            !(git_ref@.len() > 0 && git_ref@[0] == '-'),
            forall|k: int| 0 <= k < i ==> ref_char(#[trigger] git_ref@[k]),
    {
        if !is_ref_char(cs[i], &others) {
            assert(!ref_char(git_ref@[i as int]));
            return Err("--diff-from ref contains invalid characters".to_owned());
        }
    }
    let mut range: String = git_ref.to_owned();
    range.append("...HEAD");
    let mut args: Vec<String> = Vec::new();
    args.push("diff".to_owned());
    args.push("-z".to_owned());
    args.push("--name-only".to_owned());
    args.push(range);
    assert(crate::text::texts(args@) =~= seq![
        "diff"@,
        "-z"@,
        "--name-only"@,
        git_ref@ + "...HEAD"@,
    ]);
    Ok(args)
}

/// The directory in the output of `git rev-parse --show-toplevel`.
pub fn toplevel_dir(stdout: &str) -> (r: String)
    ensures
        r@ == crate::text::trim(stdout@),
{
    string_of(trimmed(chars_of(stdout).as_slice()))
}

/// Whether a name in the output of `git diff -z --name-only` is a file to scan.
pub open spec fn diff_name(name: Seq<char>) -> bool {
    name.len() > 0 && supported_path(name)
}

/// The names that are taken from the output of git.
pub open spec fn names_taken(stdout: Seq<char>) -> Seq<Seq<char>> {
    crate::text::split(stdout, '\0').filter(|n: Seq<char>| diff_name(n))
}

/// The names in the NUL-separated output of `git diff -z --name-only` that are
/// files to scan, in the order of the output.
pub fn diff_names(stdout: &str) -> (r: Vec<String>)
    ensures
        crate::text::texts(r@) == names_taken(stdout@),
{
    let parts = split_at_char(chars_of(stdout).as_slice(), '\0');
    let ghost all = crate::text::views(parts@);
    let ghost f = |n: Seq<char>| diff_name(n);
    let mut r: Vec<String> = Vec::new();
    assert(crate::text::texts(r@) =~= all.take(0).filter(f)) by {
        reveal(Seq::filter);
    }
    for i in 0..parts.len()
        invariant
            all == crate::text::views(parts@),
            f == |n: Seq<char>| diff_name(n),
            crate::text::texts(r@) == all.take(i as int).filter(f),
    {
        proof {
            let next = all.take(i + 1);
            assert(next.drop_last() =~= all.take(i as int));
            assert(next.last() == parts@[i as int]@);
            reveal(Seq::filter);
        }
        let name = string_of(parts[i].as_slice());
        if parts[i].len() > 0 && has_supported_extension(name.as_str()) {
            let ghost before = r@;
            r.push(name);
            assert(crate::text::texts(r@) =~= crate::text::texts(before).push(parts@[i as int]@));
        }
    }
    assert(all.take(parts@.len() as int) =~= all);
    r
}

/// What kind of thing a path names, itself, not what a link points to.
#[derive(Debug, Clone, Copy, PartialEq, Eq, Structural)]
pub enum EntryKind {
    Symlink,
    Dir,
    File,
    Other,
}

/// What is to be done with an argument.
#[derive(Debug)]
pub enum ArgAction {
    /// It has been dealt with.
    Done,
    /// It is a directory to walk.
    Walk,
    /// It names nothing; the message says so.
    Fail(String),
}

/// What is to be done with an entry of a directory.
#[derive(Debug, Clone, Copy, PartialEq, Eq, Structural)]
pub enum EntryAction {
    /// It has been dealt with.
    Done,
    /// It is a directory to walk.
    Walk,
}

/// Whether texts stand in strictly rising order.
pub open spec fn rising(s: Seq<Seq<char>>) -> bool {
    forall|i: int, j: int|
        0 <= i < j < s.len() ==> crate::text::text_lt(#[trigger] s[i], #[trigger] s[j])
}

/// Where an argument leads: the file it adds, if any, and whether it is a
/// directory to walk.
pub enum Decision {
    Add(Seq<char>),
    Walk,
    Skip,
    Missing,
}

/// What an argument comes to. `found` is the kind of what it names and the
/// normalized path of that, or `None` where it names nothing.
///
/// `--` stands for standard input and is passed on as it is. A file is added
/// unless it is excluded, whatever its extension; a directory is walked; a
/// link and anything else is skipped.
pub open spec fn arg_decision(
    arg: Seq<char>,
    found: Option<(EntryKind, Seq<char>)>,
    exclude: Seq<Seq<char>>,
    windows: bool,
) -> Decision {
    if arg == "--"@ {
        Decision::Add(arg)
    } else {
        match found {
            None => Decision::Missing,
            Some((EntryKind::Dir, _)) => Decision::Walk,
            Some((EntryKind::File, path)) => if excluded(path, exclude, windows) {
                Decision::Skip
            } else {
                Decision::Add(path)
            },
            Some(_) => Decision::Skip,
        }
    }
}

/// What an entry of a walked directory comes to: its name, its path, its kind
/// and its normalized path.
///
/// Links and hidden entries are skipped. A directory is walked unless it is
/// excluded. A file is added where its extension is supported and it is not
/// excluded.
pub open spec fn entry_decision(
    name: Seq<char>,
    path: Seq<char>,
    kind: EntryKind,
    canonical: Seq<char>,
    exclude: Seq<Seq<char>>,
    windows: bool,
) -> Decision {
    if kind == EntryKind::Symlink || (name.len() > 0 && name[0] == '.') {
        Decision::Skip
    } else if kind == EntryKind::Dir {
        if excluded(canonical, exclude, windows) {
            Decision::Skip
        } else {
            Decision::Walk
        }
    } else if kind == EntryKind::File && supported_path(path) && !excluded(
        canonical,
        exclude,
        windows,
    ) {
        Decision::Add(canonical)
    } else {
        Decision::Skip
    }
}

/// The files found so far.
pub struct Discovery {
    files: Vec<String>,
    exclude: Vec<String>,
    windows: bool,
}

impl Discovery {
    /// The files found so far, in order.
    pub closed spec fn files(&self) -> Seq<Seq<char>> {
        crate::text::texts(self.files@)
    }

    /// The exclude patterns.
    pub closed spec fn exclude(&self) -> Seq<Seq<char>> {
        crate::text::texts(self.exclude@)
    }

    /// Whether backslashes separate the components of a path.
    pub closed spec fn windows(&self) -> bool {
        self.windows
    }

    /// The files are sorted and none occurs twice.
    pub open spec fn wf(&self) -> bool {
        rising(self.files())
    }

    /// The state after a decision: an added file is in the list, everything
    /// else is as it was.
    pub open spec fn after(&self, d: Decision, next: Discovery) -> bool {
        &&& next.wf()
        &&& next.exclude() == self.exclude()
        &&& next.windows() == self.windows()
        &&& match d {
            Decision::Add(path) => next.files().to_set() == self.files().to_set().insert(path),
            _ => next.files() == self.files(),
        }
    }

    /// Nothing found yet.
    pub fn new(exclude: Vec<String>, windows: bool) -> (r: Discovery)
        ensures
            r.wf(),
            r.files() == Seq::<Seq<char>>::empty(),
            r.exclude() == crate::text::texts(exclude@),
            r.windows() == windows,
    {
        let r = Discovery { files: Vec::new(), exclude, windows };
        assert(r.files() =~= Seq::<Seq<char>>::empty());
        r
    }

    /// Adds a file where it has not been found before.
    fn add_file(&mut self, path: &str)
        requires
            old(self).wf(),
        ensures
            old(self).after(Decision::Add(path@), *final(self)),
    {
        let cs = chars_of(path);
        let n: usize = self.files.len();
        let mut i: usize = 0;
        let ghost all = self.files();
        while i < n && comes_before(chars_of(self.files[i].as_str()).as_slice(), cs.as_slice())
            invariant
                n == self.files@.len(),
                all == self.files(),
                all == crate::text::texts(self.files@),
                i <= n,
                cs@ == path@,
                *self == *old(self),
                forall|k: int| 0 <= k < i ==> crate::text::text_lt(#[trigger] all[k], path@),
            decreases n - i,
        {
            i = i + 1;
        }
        if i < n && same_chars(chars_of(self.files[i].as_str()).as_slice(), cs.as_slice()) {
            assert(all[i as int] == path@);
            assert(all.to_set() =~= all.to_set().insert(path@));
            return;
        }
        proof {
            assert forall|k: int| i <= k < n implies crate::text::text_lt(
                path@,
                #[trigger] all[k],
            ) by {
                crate::text::lemma_text_lt_total(all[i as int], path@);
                if k > i {
                    crate::text::lemma_text_lt_transitive(path@, all[i as int], all[k]);
                }
            }
        }
        self.files.insert(i, path.to_owned());
        proof {
            let next = self.files();
            assert(next =~= all.insert(i as int, path@));
            assert forall|a: int, b: int| 0 <= a < b < next.len() implies crate::text::text_lt(
                #[trigger] next[a],
                #[trigger] next[b],
            ) by {
                if a < i && b < i {
                    assert(next[a] == all[a] && next[b] == all[b]);
                } else if a < i && b == i {
                    assert(next[a] == all[a]);
                } else if a < i {
                    assert(next[a] == all[a] && next[b] == all[b - 1]);
                } else if a == i {
                    assert(next[b] == all[b - 1]);
                } else {
                    assert(next[a] == all[a - 1] && next[b] == all[b - 1]);
                }
            }
            assert forall|x: Seq<char>| next.to_set().contains(x) <==> all.to_set().insert(
                path@,
            ).contains(x) by {
                if next.contains(x) {
                    let k = choose|k: int| 0 <= k < next.len() && next[k] == x;
                    if k < i {
                        assert(all[k] == x);
                    } else if k > i {
                        assert(all[k - 1] == x);
                    }
                }
                if all.contains(x) {
                    let k = choose|k: int| 0 <= k < all.len() && all[k] == x;
                    if k < i {
                        assert(next[k] == x);
                    } else {
                        assert(next[k + 1] == x);
                    }
                }
                assert(next[i as int] == path@);
            }
            assert(next.to_set() =~= all.to_set().insert(path@));
        }
    }

    /// Takes one argument of the command line.
    pub fn take_arg(&mut self, arg: &str, found: Option<(EntryKind, String)>) -> (r: ArgAction)
        requires
            old(self).wf(),
        ensures
            ({
                let d = arg_decision(
                    arg@,
                    match found {
                        Some((kind, path)) => Some((kind, path@)),
                        None => None,
                    },
                    old(self).exclude(),
                    old(self).windows(),
                );
                &&& old(self).after(d, *final(self))
                &&& match r {
                    ArgAction::Done => d is Add || d is Skip,
                    ArgAction::Walk => d is Walk,
                    ArgAction::Fail(m) => d is Missing && m@ == "path does not exist: "@ + arg@,
                }
            }),
    {
        if same_chars(chars_of(arg).as_slice(), chars_of("--").as_slice()) {
            self.add_file(arg);
            return ArgAction::Done;
        }
        match found {
            None => {
                let mut m: String = "path does not exist: ".to_owned();
                m.append(arg);
                ArgAction::Fail(m)
            },
            Some((kind, canonical)) => match kind {
                EntryKind::Dir => ArgAction::Walk,
                EntryKind::File => {
                    if !path_excluded(canonical.as_str(), &self.exclude, self.windows) {
                        self.add_file(canonical.as_str());
                    }
                    ArgAction::Done
                },
                _ => ArgAction::Done,
            },
        }
    }

    /// Takes one entry of a walked directory.
    pub fn take_entry(
        &mut self,
        name: &str,
        path: &str,
        kind: EntryKind,
        canonical: &str,
    ) -> (r: EntryAction)
        requires
            old(self).wf(),
        ensures
            ({
                let d = entry_decision(
                    name@,
                    path@,
                    kind,
                    canonical@,
                    old(self).exclude(),
                    old(self).windows(),
                );
                &&& old(self).after(d, *final(self))
                &&& r == match d {
                    Decision::Walk => EntryAction::Walk,
                    _ => EntryAction::Done,
                }
            }),
    {
        let cs = chars_of(name);
        if cs.len() > 0 && cs[0] == '.' {
            return EntryAction::Done;
        }
        match kind {
            EntryKind::Dir => {
                if path_excluded(canonical, &self.exclude, self.windows) {
                    EntryAction::Done
                } else {
                    EntryAction::Walk
                }
            },
            EntryKind::File => {
                if has_supported_extension(path) && !path_excluded(
                    canonical,
                    &self.exclude,
                    self.windows,
                ) {
                    self.add_file(canonical);
                }
                EntryAction::Done
            },
            _ => EntryAction::Done,
        }
    }

    /// The files found, sorted and each once, or the message that there are
    /// none.
    pub fn finish(self) -> (r: Result<Vec<String>, String>)
        requires
            self.wf(),
        ensures
            match r {
                Ok(files) => self.files().len() > 0 && crate::text::texts(files@) == self.files(),
                Err(m) => self.files().len() == 0 && m@
                    == "no supported files found in the given paths"@,
            },
    {
        if self.files.len() == 0 {
            return Err("no supported files found in the given paths".to_owned());
        }
        Ok(self.files)
    }
}

/// A ref that is accepted is handed to git in an argument that is no flag.
pub proof fn law_accepted_ref_is_no_flag(git_ref: Seq<char>)
    requires
        diff_args(git_ref) is Ok,
    ensures
        ({
            let args = diff_args(git_ref)->Ok_0;
            &&& args.len() == 4
            &&& args[3] == git_ref + "...HEAD"@
            &&& args[3][0] != '-'
        }),
{
    reveal_strlit("...HEAD");
    if git_ref.len() == 0 {
        assert((git_ref + "...HEAD"@)[0] == "...HEAD"@[0]);
    } else {
        assert((git_ref + "...HEAD"@)[0] == git_ref[0]);
    }
}

/// A ref is accepted exactly where it does not start with `-` and has no
/// character but those a ref needs.
pub proof fn law_accepted_refs(git_ref: Seq<char>)
    ensures
        diff_args(git_ref) is Ok <==> (git_ref.len() > 0 ==> git_ref[0] != '-') && forall|i: int|
            0 <= i < git_ref.len() ==> ref_char(#[trigger] git_ref[i]),
{
}

/// The extension test does not depend on the case of ASCII letters.
pub proof fn law_extension_ignores_case(path: Seq<char>)
    ensures
        supported_path(crate::text::ascii_lowercase(path)) == supported_path(path),
{
    lemma_after_last_lowercase(path);
    if let Some(ext) = crate::text::after_last(path, '.') {
        let low = crate::text::ascii_lowercase(ext);
        assert(crate::text::ascii_lowercase(low) =~= low);
    }
}

/// The extension of a path in small letters is its extension in small letters.
proof fn lemma_after_last_lowercase(path: Seq<char>)
    ensures
        crate::text::after_last(crate::text::ascii_lowercase(path), '.')
            == match crate::text::after_last(path, '.') {
            Some(ext) => Some(crate::text::ascii_lowercase(ext)),
            None => None,
        },
    decreases path.len(),
{
    let low = crate::text::ascii_lowercase(path);
    if path.len() > 0 {
        lemma_after_last_lowercase(path.drop_last());
        assert(low.drop_last() =~= crate::text::ascii_lowercase(path.drop_last()));
        assert(low.last() == crate::text::ascii_lower(path.last()));
        if path.last() == '.' {
            assert(crate::text::ascii_lowercase(Seq::empty()) =~= Seq::<char>::empty());
        } else if let Some(ext) = crate::text::after_last(path.drop_last(), '.') {
            assert(crate::text::ascii_lowercase(ext.push(path.last()))
                =~= crate::text::ascii_lowercase(ext).push(low.last()));
        }
    }
}

/// The components of a path.
pub open spec fn components(path: Seq<char>) -> Seq<Seq<char>> {
    crate::text::split(path, '/')
}

/// Whether a text has no `/` in it.
pub open spec fn no_slash(s: Seq<char>) -> bool {
    forall|k: int| 0 <= k < s.len() ==> s[k] != '/'
}

/// Whether `pat` stands in a path as one component: as the whole of it, in
/// front, behind, or between two separators.
spec fn stands_as_component(pat: Seq<char>, s: Seq<char>) -> bool {
    ||| s == pat
    ||| (pat + seq!['/']).is_prefix_of(s)
    ||| (seq!['/'] + pat).is_suffix_of(s)
    ||| crate::text::is_infix(seq!['/'] + pat + seq!['/'], s)
}

/// Behind the first separator, the same holds of the rest of the path.
proof fn lemma_component_step(pat: Seq<char>, s: Seq<char>, i: int)
    requires
        no_slash(pat),
        0 <= i < s.len(),
        s[i] == '/',
        forall|k: int| 0 <= k < i ==> s[k] != '/',
    ensures
        stands_as_component(pat, s) <==> (s.take(i) == pat || stands_as_component(
            pat,
            s.skip(i + 1),
        )),
{
    let t = s.skip(i + 1);
    let front = pat + seq!['/'];
    let back = seq!['/'] + pat;
    let both = seq!['/'] + pat + seq!['/'];
    if s.take(i) == pat {
        assert(front =~= s.subrange(0, front.len() as int));
    }
    if t == pat {
        assert(back =~= s.subrange(s.len() - back.len(), s.len() as int));
    }
    if front.is_prefix_of(t) {
        assert(s.subrange(i, i + both.len()) =~= both) by {
            assert forall|k: int| 0 <= k < both.len() implies s.subrange(i, i + both.len())[k]
                == both[k] by {
                if k > 0 {
                    assert(t.subrange(0, front.len() as int)[k - 1] == front[k - 1]);
                    assert(both[k] == front[k - 1]);
                }
            }
        }
        assert(crate::text::occurs_at(both, s, i));
    }
    if back.is_suffix_of(t) {
        assert(s.subrange(s.len() - back.len(), s.len() as int) =~= t.subrange(
            t.len() - back.len(),
            t.len() as int,
        ));
    }
    if crate::text::is_infix(both, t) {
        let j = choose|j: int| #[trigger] crate::text::occurs_at(both, t, j);
        assert(s.subrange(i + 1 + j, i + 1 + j + both.len()) =~= t.subrange(j, j + both.len()));
        assert(crate::text::occurs_at(both, s, i + 1 + j));
    }
    if s == pat {
        assert(pat[i] == '/');
    }
    if front.is_prefix_of(s) {
        let n = pat.len() as int;
        assert(s.subrange(0, n + 1)[n] == front[n]);
        if n > i {
            assert(s.subrange(0, n + 1)[i] == front[i]);
            assert(pat[i] == '/');
        }
        assert(n == i);
        assert(s.take(i) =~= pat) by {
            assert forall|k: int| 0 <= k < i implies s[k] == pat[k] by {
                assert(s.subrange(0, n + 1)[k] == front[k]);
            }
        }
    }
    if back.is_suffix_of(s) {
        let p = s.len() - back.len();
        assert(s.subrange(p, s.len() as int)[0] == back[0]);
        assert(p >= i);
        if p == i {
            assert(t =~= pat) by {
                assert forall|k: int| 0 <= k < pat.len() implies t[k] == pat[k] by {
                    assert(s.subrange(p, s.len() as int)[k + 1] == back[k + 1]);
                }
            }
        } else {
            assert(t.subrange(t.len() - back.len(), t.len() as int) =~= s.subrange(
                p,
                s.len() as int,
            ));
        }
    }
    if crate::text::is_infix(both, s) {
        let p = choose|p: int| #[trigger] crate::text::occurs_at(both, s, p);
        assert(s.subrange(p, p + both.len())[0] == both[0]);
        assert(p >= i);
        if p == i {
            assert(front =~= t.subrange(0, front.len() as int)) by {
                assert forall|k: int| 0 <= k < front.len() implies front[k] == t[k] by {
                    assert(s.subrange(p, p + both.len())[k + 1] == both[k + 1]);
                    assert(both[k + 1] == front[k]);
                }
            }
        } else {
            assert(t.subrange(p - i - 1, p - i - 1 + both.len()) =~= s.subrange(
                p,
                p + both.len(),
            ));
            assert(crate::text::occurs_at(both, t, p - i - 1));
        }
    }
}

/// A text without separators stands in a path as a component exactly where it
/// is one of the components.
proof fn lemma_components(pat: Seq<char>, s: Seq<char>)
    requires
        no_slash(pat),
    ensures
        components(s).contains(pat) <==> stands_as_component(pat, s),
    decreases s.len(),
{
    crate::text::lemma_find_char(s, '/');
    match crate::text::find_char(s, '/') {
        Some(i) => {
            let t = s.skip(i + 1);
            lemma_component_step(pat, s, i);
            lemma_components(pat, t);
            let all = components(s);
            assert(all == seq![s.take(i)] + components(t));
            if s.take(i) == pat {
                assert(all[0] == pat);
            }
            if components(t).contains(pat) {
                let k = choose|k: int| 0 <= k < components(t).len() && components(t)[k] == pat;
                assert(all[k + 1] == pat);
            }
            if all.contains(pat) {
                let k = choose|k: int| 0 <= k < all.len() && all[k] == pat;
                if k > 0 {
                    assert(components(t)[k - 1] == pat);
                }
            }
        },
        None => {
            assert(components(s) == seq![s]);
            if s == pat {
                assert(components(s)[0] == pat);
            }
            let front = pat + seq!['/'];
            let back = seq!['/'] + pat;
            let both = seq!['/'] + pat + seq!['/'];
            if front.is_prefix_of(s) {
                assert(s.subrange(0, front.len() as int)[pat.len() as int] == '/');
            }
            if back.is_suffix_of(s) {
                assert(s.subrange(s.len() - back.len(), s.len() as int)[0] == back[0]);
            }
            if crate::text::is_infix(both, s) {
                let p = choose|p: int| #[trigger] crate::text::occurs_at(both, s, p);
                assert(s.subrange(p, p + both.len())[0] == both[0]);
            }
        },
    }
}

/// A plain pattern excludes exactly the paths that have it as a component.
pub proof fn law_plain_pattern_is_a_component(pat: Seq<char>, path: Seq<char>)
    requires
        no_slash(pat),
        !"*."@.is_prefix_of(pat),
    ensures
        pattern_excludes(pat, path) <==> components(path).contains(pat),
{
    lemma_components(pat, path);
    if "/**"@.is_suffix_of(pat) {
        reveal_strlit("/**");
        assert(pat.subrange(pat.len() - 3, pat.len() as int)[0] == "/**"@[0]);
    }
}

/// A `dir/**` pattern excludes exactly the paths that have `dir` as a
/// component, wherever it stands, and something besides it.
pub proof fn law_directory_pattern_is_a_component(dir: Seq<char>, path: Seq<char>)
    requires
        dir.len() > 0,
        no_slash(dir),
        !"*."@.is_prefix_of(dir + "/**"@),
    ensures
        pattern_excludes(dir + "/**"@, path) <==> components(path).contains(dir) && path != dir,
{
    reveal_strlit("/**");
    let pat = dir + "/**"@;
    assert(pat.subrange(pat.len() - "/**"@.len(), pat.len() as int) =~= "/**"@);
    assert(pat.take(pat.len() - "/**"@.len()) =~= dir);
    lemma_components(dir, path);
    if path == dir {
        // Every other way to stand in a path makes it longer.
        assert((dir + seq!['/']).len() > path.len());
        assert((seq!['/'] + dir).len() > path.len());
        assert((seq!['/'] + dir + seq!['/']).len() > path.len());
    }
}

/// An excluded path is never added, except for the `--` that stands for
/// standard input.
pub proof fn law_excluded_is_never_added(
    arg: Seq<char>,
    found: Option<(EntryKind, Seq<char>)>,
    exclude: Seq<Seq<char>>,
    windows: bool,
)
    ensures
        arg_decision(arg, found, exclude, windows) matches Decision::Add(path) ==> path == "--"@
            || !excluded(path, exclude, windows),
{
}

/// What a walk adds is a file whose extension is supported, that is not
/// hidden, not a link and not excluded; and a walk never enters a directory
/// that is hidden, a link or excluded.
pub proof fn law_walk_keeps_to_the_rules(
    name: Seq<char>,
    path: Seq<char>,
    kind: EntryKind,
    canonical: Seq<char>,
    exclude: Seq<Seq<char>>,
    windows: bool,
)
    ensures
        ({
            let d = entry_decision(name, path, kind, canonical, exclude, windows);
            let visible = name.len() == 0 || name[0] != '.';
            &&& d == Decision::Add(canonical) <==> kind == EntryKind::File && visible
                && supported_path(path) && !excluded(canonical, exclude, windows)
            &&& d is Walk <==> kind == EntryKind::Dir && visible && !excluded(
                canonical,
                exclude,
                windows,
            )
        }),
{
}

/// Two lists in strictly rising order with the same elements are the same, so
/// the result does not depend on the order in which files were found.
pub proof fn law_rising_lists_are_equal(a: Seq<Seq<char>>, b: Seq<Seq<char>>)
    requires
        rising(a),
        rising(b),
        a.to_set() == b.to_set(),
    ensures
        a == b,
    decreases a.len(),
{
    if a.len() == 0 {
        if b.len() > 0 {
            assert(b.to_set().contains(b[0]));
            assert(a.contains(b[0]));
        }
        assert(a =~= b);
    } else {
        assert(a.to_set().contains(a[0]));
        assert(b.contains(a[0]));
        assert(b.to_set().contains(b[0]));
        assert(a.contains(b[0]));
        let i = choose|i: int| 0 <= i < b.len() && b[i] == a[0];
        let j = choose|j: int| 0 <= j < a.len() && a[j] == b[0];
        if i > 0 && j > 0 {
            crate::text::lemma_text_lt_transitive(a[0], b[0], a[0]);
            crate::text::lemma_text_lt_irreflexive(a[0]);
        }
        assert(a[0] == b[0]);
        let s = a.drop_first();
        let t = b.drop_first();
        assert(rising(s)) by {
            assert forall|i: int, j: int| 0 <= i < j < s.len() implies crate::text::text_lt(
                #[trigger] s[i],
                #[trigger] s[j],
            ) by {
                assert(s[i] == a[i + 1] && s[j] == a[j + 1]);
            }
        }
        assert(rising(t)) by {
            assert forall|i: int, j: int| 0 <= i < j < t.len() implies crate::text::text_lt(
                #[trigger] t[i],
                #[trigger] t[j],
            ) by {
                assert(t[i] == b[i + 1] && t[j] == b[j + 1]);
            }
        }
        crate::text::lemma_text_lt_irreflexive(a[0]);
        assert forall|x: Seq<char>| s.to_set().contains(x) <==> t.to_set().contains(x) by {
            if s.contains(x) {
                let k = choose|k: int| 0 <= k < s.len() && s[k] == x;
                assert(a[k + 1] == x);
                assert(crate::text::text_lt(a[0], a[k + 1]));
                assert(a.to_set().contains(x));
                let m = choose|m: int| 0 <= m < b.len() && b[m] == x;
                assert(t[m - 1] == x);
            }
            if t.contains(x) {
                let k = choose|k: int| 0 <= k < t.len() && t[k] == x;
                assert(b[k + 1] == x);
                assert(crate::text::text_lt(b[0], b[k + 1]));
                assert(b.to_set().contains(x));
                let m = choose|m: int| 0 <= m < a.len() && a[m] == x;
                assert(s[m - 1] == x);
            }
        }
        assert(s.to_set() =~= t.to_set());
        law_rising_lists_are_equal(s, t);
        assert(a =~= seq![a[0]] + s);
        assert(b =~= seq![b[0]] + t);
    }
}

/// The paths that a run of decisions adds.
pub open spec fn added(decisions: Seq<Decision>) -> Set<Seq<char>>
    decreases decisions.len(),
{
    if decisions.len() == 0 {
        Set::empty()
    } else {
        match decisions.last() {
            Decision::Add(path) => added(decisions.drop_last()).insert(path),
            _ => added(decisions.drop_last()),
        }
    }
}

/// After any run of decisions the files are those that were there and those
/// that were added, sorted and each once.
pub proof fn law_run_collects_what_is_added(states: Seq<Discovery>, decisions: Seq<Decision>)
    requires
        states.len() == decisions.len() + 1,
        states[0].wf(),
        forall|i: int|
            0 <= i < decisions.len() ==> (#[trigger] states[i]).after(
                decisions[i],
                states[i + 1],
            ),
    ensures
        states.last().wf(),
        states.last().files().to_set() == states[0].files().to_set().union(added(decisions)),
    decreases decisions.len(),
{
    if decisions.len() == 0 {
        assert(states.last().files().to_set() =~= states[0].files().to_set().union(
            added(decisions),
        ));
    } else {
        let s = states.drop_last();
        let d = decisions.drop_last();
        assert forall|i: int| 0 <= i < d.len() implies (#[trigger] s[i]).after(
            d[i],
            s[i + 1],
        ) by {
            assert(states[i].after(decisions[i], states[i + 1]));
        }
        law_run_collects_what_is_added(s, d);
        let k = decisions.len() - 1;
        assert(states[k].after(decisions[k], states[k + 1]));
        assert(states.last().files().to_set() =~= states[0].files().to_set().union(
            added(decisions),
        ));
    }
}

/// `*.ext` excludes every path that ends in `.ext`, whatever stands before it,
/// dots and separators too, and no other path.
pub proof fn law_extension_pattern_is_an_ending(ext: Seq<char>, stem: Seq<char>, path: Seq<char>)
    ensures
        pattern_excludes("*."@ + ext, stem + seq!['.'] + ext),
        pattern_excludes("*."@ + ext, path) <==> exists|before: Seq<char>|
            path == #[trigger] (before + seq!['.'] + ext),
{
    reveal_strlit("*.");
    let pat = "*."@ + ext;
    let ending = seq!['.'] + ext;
    assert("*."@ =~= pat.subrange(0, "*."@.len() as int));
    assert(pat.skip(1) =~= ending);
    let whole = stem + seq!['.'] + ext;
    assert(whole =~= stem + ending);
    assert(ending =~= whole.subrange(whole.len() - ending.len(), whole.len() as int));
    if pattern_excludes(pat, path) {
        let before = path.take(path.len() - ending.len());
        assert(path =~= before + ending);
        assert(path =~= before + seq!['.'] + ext);
    }
    if exists|before: Seq<char>| path == #[trigger] (before + seq!['.'] + ext) {
        let before = choose|before: Seq<char>| path == #[trigger] (before + seq!['.'] + ext);
        assert(path =~= before + ending);
        assert(ending =~= path.subrange(path.len() - ending.len(), path.len() as int));
    }
}

/// Whether a text stands in a path between two separators.
pub open spec fn between_separators(part: Seq<char>, path: Seq<char>) -> bool {
    exists|a: Seq<char>, b: Seq<char>| path == #[trigger] (a + seq!['/'] + part + seq!['/'] + b)
}

/// Whether a path ends in a text behind a separator.
pub open spec fn behind_separator(part: Seq<char>, path: Seq<char>) -> bool {
    exists|a: Seq<char>| path == #[trigger] (a + seq!['/'] + part)
}

/// Whether a path begins with a text in front of a separator.
pub open spec fn before_separator(part: Seq<char>, path: Seq<char>) -> bool {
    exists|b: Seq<char>| path == #[trigger] (part + seq!['/'] + b)
}

/// Where a text stands, said in parts of the path and in places.
proof fn lemma_parts_of_path(part: Seq<char>, path: Seq<char>)
    ensures
        between_separators(part, path) <==> crate::text::is_infix(
            seq!['/'] + part + seq!['/'],
            path,
        ),
        behind_separator(part, path) <==> (seq!['/'] + part).is_suffix_of(path),
        before_separator(part, path) <==> (part + seq!['/']).is_prefix_of(path),
{
    let both = seq!['/'] + part + seq!['/'];
    let back = seq!['/'] + part;
    let front = part + seq!['/'];
    if between_separators(part, path) {
        let (a, b) = choose|a: Seq<char>, b: Seq<char>|
            path == #[trigger] (a + seq!['/'] + part + seq!['/'] + b);
        assert(path.subrange(a.len() as int, (a.len() + both.len()) as int) =~= both);
        assert(crate::text::occurs_at(both, path, a.len() as int));
    }
    if crate::text::is_infix(both, path) {
        let i = choose|i: int| #[trigger] crate::text::occurs_at(both, path, i);
        let a = path.take(i);
        let b = path.skip(i + both.len());
        assert(path =~= a + path.subrange(i, i + both.len()) + b);
        assert(path =~= a + seq!['/'] + part + seq!['/'] + b);
    }
    if behind_separator(part, path) {
        let a = choose|a: Seq<char>| path == #[trigger] (a + seq!['/'] + part);
        assert(back =~= path.subrange(path.len() - back.len(), path.len() as int));
    }
    if back.is_suffix_of(path) {
        let a = path.take(path.len() - back.len());
        assert(path =~= a + path.subrange(path.len() - back.len(), path.len() as int));
        assert(path =~= a + seq!['/'] + part);
    }
    if before_separator(part, path) {
        let b = choose|b: Seq<char>| path == #[trigger] (part + seq!['/'] + b);
        assert(front =~= path.subrange(0, front.len() as int));
    }
    if front.is_prefix_of(path) {
        let b = path.skip(front.len() as int);
        assert(path =~= path.subrange(0, front.len() as int) + b);
        assert(path =~= part + seq!['/'] + b);
    }
}

/// `dir/**` excludes exactly the paths in which `dir`, one component or
/// several, is followed by a separator or ends the path behind one.
pub proof fn law_directory_pattern_by_parts(dir: Seq<char>, path: Seq<char>)
    requires
        dir.len() > 0,
        !(dir.len() > 1 && dir[0] == '*' && dir[1] == '.'),
    ensures
        pattern_excludes(dir + "/**"@, path) <==> between_separators(dir, path)
            || behind_separator(dir, path) || before_separator(dir, path),
{
    reveal_strlit("/**");
    reveal_strlit("*.");
    let pat = dir + "/**"@;
    assert(pat.subrange(pat.len() - "/**"@.len(), pat.len() as int) =~= "/**"@);
    assert(pat.take(pat.len() - "/**"@.len()) =~= dir);
    if "*."@.is_prefix_of(pat) {
        assert(pat.subrange(0, 2)[0] == '*');
        assert(pat.subrange(0, 2)[1] == '.');
        assert(pat[0] == dir[0]);
        if dir.len() == 1 {
            assert(pat[1] == '/');
        } else {
            assert(pat[1] == dir[1]);
        }
        assert(false);
    }
    lemma_parts_of_path(dir, path);
}

/// A pattern that is neither `*.ext` nor `dir/**` excludes exactly the paths
/// that it is, that begin or end with it at a separator, or that have it
/// between two.
pub proof fn law_plain_pattern_by_parts(pat: Seq<char>, path: Seq<char>)
    requires
        !(pat.len() > 1 && pat[0] == '*' && pat[1] == '.'),
        !(pat.len() > 2 && pat.skip(pat.len() - 3) == seq!['/', '*', '*']),
    ensures
        pattern_excludes(pat, path) <==> path == pat || between_separators(pat, path)
            || behind_separator(pat, path) || before_separator(pat, path),
{
    reveal_strlit("/**");
    reveal_strlit("*.");
    if "*."@.is_prefix_of(pat) {
        assert(pat.subrange(0, 2)[0] == '*');
        assert(pat.subrange(0, 2)[1] == '.');
        assert(false);
    }
    if "/**"@.is_suffix_of(pat) {
        assert(pat.subrange(pat.len() - 3, pat.len() as int) =~= pat.skip(pat.len() - 3));
        assert("/**"@ =~= seq!['/', '*', '*']);
        assert(false);
    }
    lemma_parts_of_path(pat, path);
}

/// Patterns exclude together what each of them excludes, and no pattern
/// excludes nothing.
pub proof fn law_patterns_add_up(
    path: Seq<char>,
    a: Seq<Seq<char>>,
    pat: Seq<char>,
    b: Seq<Seq<char>>,
    windows: bool,
)
    ensures
        excluded(path, a + b, windows) <==> excluded(path, a, windows) || excluded(
            path,
            b,
            windows,
        ),
        !excluded(path, Seq::empty(), windows),
        excluded(path, seq![pat], false) <==> pattern_excludes(pat, path),
{
    let all = a + b;
    let p = slashed(path, windows);
    if excluded(path, a, windows) {
        let i = choose|i: int| 0 <= i < a.len() && pattern_excludes(#[trigger] a[i], p);
        assert(pattern_excludes(all[i], p));
    }
    if excluded(path, b, windows) {
        let i = choose|i: int| 0 <= i < b.len() && pattern_excludes(#[trigger] b[i], p);
        assert(pattern_excludes(all[a.len() + i], p));
    }
    if excluded(path, all, windows) {
        let i = choose|i: int| 0 <= i < all.len() && pattern_excludes(#[trigger] all[i], p);
        if i < a.len() {
            assert(pattern_excludes(a[i], p));
        } else {
            assert(pattern_excludes(b[i - a.len()], p));
        }
    }
    if pattern_excludes(pat, path) {
        assert(pattern_excludes(seq![pat][0], slashed(path, false)));
    }
}

/// Where backslashes separate, a path is excluded exactly where its spelling
/// with slashes is; elsewhere a backslash is a character like any other.
pub proof fn law_backslashes_separate_on_windows(
    path: Seq<char>,
    spelled: Seq<char>,
    patterns: Seq<Seq<char>>,
)
    requires
        spelled.len() == path.len(),
        forall|k: int|
            0 <= k < path.len() ==> #[trigger] spelled[k] == if path[k] == '\\' {
                '/'
            } else {
                path[k]
            },
    ensures
        excluded(path, patterns, true) <==> excluded(spelled, patterns, false),
        slashed(path, false) == path,
{
    assert(slashed(path, true) =~= spelled);
}

/// The extensions that are scanned, in small letters.
pub open spec fn scanned_extensions() -> Seq<Seq<char>> {
    seq!["md"@, "markdown"@, "yml"@, "yaml"@, "txt"@]
}

/// A path is scanned exactly where what stands behind its last dot is one of
/// the five extensions but for the case of its letters, whatever stands before
/// that dot; a path without a dot is not.
pub proof fn law_the_last_dot_decides(stem: Seq<char>, ext: Seq<char>)
    requires
        crate::text::without(ext, '.'),
    ensures
        supported_path(stem + seq!['.'] + ext) <==> scanned_extensions().contains(
            crate::text::ascii_lowercase(ext),
        ),
        !supported_path(ext),
{
    crate::text::law_after_the_last(stem, '.', ext);
    let low = crate::text::ascii_lowercase(ext);
    let all = scanned_extensions();
    if supported(low) {
        assert(all[0] == "md"@ && all[1] == "markdown"@ && all[2] == "yml"@ && all[3] == "yaml"@
            && all[4] == "txt"@);
        assert(all.contains(low));
    }
}

/// A character may stand in a ref exactly where it is an ASCII letter or digit
/// or one of ten others.
pub proof fn law_which_characters_a_ref_has(c: char)
    ensures
        ref_char(c) <==> {
            ||| 'a' <= c <= 'z'
            ||| 'A' <= c <= 'Z'
            ||| '0' <= c <= '9'
            ||| c == '_' || c == '.' || c == '/' || c == '-' || c == '~'
            ||| c == '^' || c == '@' || c == '{' || c == '}' || c == '+'
        },
{
    reveal_strlit("_./-~^@{}+");
    let others = "_./-~^@{}+"@;
    assert(others.len() == 10);
    assert(others[0] == '_' && others[1] == '.' && others[2] == '/' && others[3] == '-' && others[4]
        == '~' && others[5] == '^' && others[6] == '@' && others[7] == '{' && others[8] == '}'
        && others[9] == '+');
    if others.contains(c) {
        let k = choose|k: int| 0 <= k < others.len() && others[k] == c;
        assert(k == 0 || k == 1 || k == 2 || k == 3 || k == 4 || k == 5 || k == 6 || k == 7 || k
            == 8 || k == 9);
    }
}

/// A ref that starts with `-` is refused for that, whatever else it holds; any
/// other ref with a character that no ref has is refused for the character; and
/// every other ref is compared with `HEAD`, in an argument of its own behind
/// those that make git list unquoted names.
pub proof fn law_what_becomes_of_a_ref(git_ref: Seq<char>)
    ensures
        git_ref.len() > 0 && git_ref[0] == '-' ==> diff_args(git_ref) == Err::<
            Seq<Seq<char>>,
            Seq<char>,
        >("--diff-from ref must not start with '-'"@),
        (git_ref.len() == 0 || git_ref[0] != '-') && (exists|k: int|
            0 <= k < git_ref.len() && !ref_char(#[trigger] git_ref[k])) ==> diff_args(git_ref)
            == Err::<Seq<Seq<char>>, Seq<char>>("--diff-from ref contains invalid characters"@),
        (git_ref.len() == 0 || git_ref[0] != '-') && (forall|k: int|
            0 <= k < git_ref.len() ==> ref_char(#[trigger] git_ref[k])) ==> diff_args(git_ref)
            == Ok::<Seq<Seq<char>>, Seq<char>>(
            seq!["diff"@, "-z"@, "--name-only"@, git_ref + "...HEAD"@],
        ),
{
}

/// The names of changed files end at NUL characters and at nothing else. A name
/// is taken, as it is and in its place, exactly where it is not empty and is
/// scanned by its extension.
pub proof fn law_changed_names_end_at_nul(name: Seq<char>, rest: Seq<char>)
    requires
        crate::text::without(name, '\0'),
    ensures
        names_taken(name + seq!['\0'] + rest) == if name.len() > 0 && supported_path(name) {
            seq![name] + names_taken(rest)
        } else {
            names_taken(rest)
        },
        names_taken(name) == if name.len() > 0 && supported_path(name) {
            seq![name]
        } else {
            Seq::empty()
        },
{
    let f = |n: Seq<char>| diff_name(n);
    crate::text::law_split_at_each(name, '\0', rest);
    Seq::filter_distributes_over_add(seq![name], crate::text::split(rest, '\0'), f);
    assert(seq![name].filter(f) =~= if diff_name(name) {
        seq![name]
    } else {
        Seq::<Seq<char>>::empty()
    }) by {
        reveal_with_fuel(Seq::filter, 2);
        assert(seq![name].drop_last() =~= Seq::<Seq<char>>::empty());
    }
    assert(Seq::<Seq<char>>::empty() + names_taken(rest) =~= names_taken(rest));
}

/// What becomes of an argument: `--` is passed on whatever it names; else what
/// names nothing is missing, a directory is walked, a file is added under its
/// normalized path unless that is excluded, whatever its extension, and anything
/// else is skipped.
pub proof fn law_what_becomes_of_an_argument(
    arg: Seq<char>,
    kind: EntryKind,
    path: Seq<char>,
    exclude: Seq<Seq<char>>,
    windows: bool,
)
    ensures
        arg == "--"@ ==> arg_decision(arg, None, exclude, windows) == Decision::Add("--"@)
            && arg_decision(arg, Some((kind, path)), exclude, windows) == Decision::Add("--"@),
        arg != "--"@ ==> {
            let d = arg_decision(arg, Some((kind, path)), exclude, windows);
            &&& arg_decision(arg, None, exclude, windows) is Missing
            &&& d is Walk <==> kind == EntryKind::Dir
            &&& kind == EntryKind::File && !excluded(path, exclude, windows) ==> d == Decision::Add(
                path,
            )
            &&& kind == EntryKind::File && excluded(path, exclude, windows) ==> d is Skip
            &&& kind == EntryKind::Symlink || kind == EntryKind::Other ==> d is Skip
        },
{
}

/// What becomes of an entry: a file or a directory that is not hidden and not
/// excluded is added or walked, the file only where its extension is scanned;
/// anything else is skipped. A hidden entry is one whose name begins with a
/// dot.
pub proof fn law_what_becomes_of_an_entry(
    name: Seq<char>,
    path: Seq<char>,
    kind: EntryKind,
    canonical: Seq<char>,
    exclude: Seq<Seq<char>>,
    windows: bool,
)
    ensures
        ({
            let d = entry_decision(name, path, kind, canonical, exclude, windows);
            let seen = !(name.len() > 0 && name[0] == '.') && !excluded(
                canonical,
                exclude,
                windows,
            );
            &&& kind == EntryKind::Dir && seen ==> d is Walk
            &&& kind == EntryKind::File && seen && supported_path(path) ==> d == Decision::Add(
                canonical,
            )
            &&& !seen || kind == EntryKind::Symlink || kind == EntryKind::Other ==> d is Skip
            &&& kind == EntryKind::File && !supported_path(path) ==> d is Skip
        }),
{
}

/// Adding a file keeps those that are there, adds that one, and nothing else.
pub proof fn law_added_file_is_in_the_list(
    before: Discovery,
    path: Seq<char>,
    after: Discovery,
    other: Seq<char>,
)
    requires
        before.after(Decision::Add(path), after),
    ensures
        after.files().contains(path),
        other != path ==> (after.files().contains(other) <==> before.files().contains(other)),
        forall|i: int, j: int|
            0 <= i < j < after.files().len() ==> #[trigger] after.files()[i]
                != #[trigger] after.files()[j],
{
    assert(after.files().to_set().contains(path));
    assert(after.files().to_set().contains(other) == after.files().contains(other));
    assert(before.files().to_set().contains(other) == before.files().contains(other));
    assert forall|i: int, j: int| 0 <= i < j < after.files().len() implies #[trigger] after.files()[i]
        != #[trigger] after.files()[j] by {
        crate::text::lemma_text_lt_irreflexive(after.files()[i]);
    }
}

} // verus!
