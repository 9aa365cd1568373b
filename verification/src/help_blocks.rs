//! Extraction of the help texts that `<!-- cli:name -->` and
//! `<!-- cli:end -->` markers wrap in a Markdown document.

use crate::text::{
    chars_of, copy_chars, ends_with, joined_lines, position_of, same_chars, split_lines,
    starts_with, string_of, trimmed, trimmed_end,
};
use vstd::prelude::*;
use vstd::slice::slice_subrange;

verus! {

/// The name in a `<!-- cli:name -->` marker line.
pub open spec fn marker(line: Seq<char>) -> Option<Seq<char>> {
    let t = crate::text::trim(line);
    let opening = "<!-- cli:"@;
    let closing = "-->"@;
    if opening.is_prefix_of(t) && closing.is_suffix_of(t.skip(opening.len() as int)) {
        Some(crate::text::trim(t.subrange(opening.len() as int, t.len() - closing.len())))
    } else {
        None
    }
}

/// The name in a marker line, or `None` for a line that is no marker.
pub fn marker_name(line: &[char]) -> (r: Option<Vec<char>>)
    ensures
        match r {
            Some(name) => marker(line@) == Some(name@),
            None => marker(line@) is None,
        },
{
    let t = trimmed(line);
    let opening = chars_of("<!-- cli:");
    let closing = chars_of("-->");
    if !starts_with(t, opening.as_slice()) {
        return None;
    }
    let rest = slice_subrange(t, opening.len(), t.len());
    assert(rest@ =~= t@.skip(opening@.len() as int));
    if !ends_with(rest, closing.as_slice()) {
        return None;
    }
    let inner = slice_subrange(rest, 0, rest.len() - closing.len());
    assert(inner@ =~= t@.subrange(opening@.len() as int, t@.len() - closing@.len()));
    Some(copy_chars(trimmed(inner)))
}

/// The text inside a code fence that the body opens with, or `None` where the
/// fence never closes. What stands behind the opening fence on its line is
/// dropped.
pub open spec fn fenced(rest: Seq<char>) -> Option<Seq<char>> {
    match crate::text::find_char(rest, '\n') {
        Some(i) => {
            let inner = crate::text::trim_end(rest.skip(i + 1));
            let fence = "```"@;
            if fence.is_suffix_of(inner) {
                Some(crate::text::trim(inner.take(inner.len() - fence.len())))
            } else {
                None
            }
        },
        None => None,
    }
}

/// The help text of a block: its lines without the white space around them and
/// without the optional code fence, and a final line feed.
pub open spec fn help_text(name: Seq<char>, lines: Seq<Seq<char>>) -> Result<Seq<char>, Seq<char>> {
    let joined = crate::text::trim(crate::text::join_lines(lines));
    let fence = "```"@;
    let body = if fence.is_prefix_of(joined) {
        fenced(joined.skip(fence.len() as int))
    } else {
        Some(joined)
    };
    match body {
        None => Err("cli:"@ + name + " block's code fence never closes"@),
        Some(b) => if b.len() == 0 {
            Err("cli:"@ + name + " block is empty"@)
        } else {
            Ok(b.push('\n'))
        },
    }
}

/// The model of a text or of an error message.
pub open spec fn text_result(r: Result<String, String>) -> Result<Seq<char>, Seq<char>> {
    match r {
        Ok(s) => Ok(s@),
        Err(e) => Err(e@),
    }
}

/// The message about a block: `cli:`, the name, and what is wrong.
fn block_error(name: &[char], what: &str) -> (r: String)
    ensures
        r@ == "cli:"@ + name@ + what@,
{
    let mut m: String = "cli:".to_owned();
    m.append(string_of(name).as_str());
    m.append(what);
    m
}

/// Turns the lines of a block into its help text.
pub fn block_text(name: &[char], lines: &Vec<Vec<char>>) -> (r: Result<String, String>)
    ensures
        text_result(r) == help_text(name@, crate::text::views(lines@)),
{
    let all = joined_lines(lines);
    let joined = trimmed(all.as_slice());
    let fence = chars_of("```");
    let mut body = joined;
    if starts_with(joined, fence.as_slice()) {
        let rest = slice_subrange(joined, fence.len(), joined.len());
        assert(rest@ =~= joined@.skip(fence@.len() as int));
        match position_of(rest, '\n') {
            None => {
                return Err(block_error(name, " block's code fence never closes"));
            },
            Some(i) => {
                let tail = slice_subrange(rest, i + 1, rest.len());
                assert(tail@ =~= rest@.skip(i + 1));
                let inner = trimmed_end(tail);
                if !ends_with(inner, fence.as_slice()) {
                    return Err(block_error(name, " block's code fence never closes"));
                }
                let fenced_text = slice_subrange(inner, 0, inner.len() - fence.len());
                assert(fenced_text@ =~= inner@.take(inner@.len() - fence@.len()));
                body = trimmed(fenced_text);
            },
        }
    }
    if body.len() == 0 {
        return Err(block_error(name, " block is empty"));
    }
    let mut text = string_of(body);
    text.push('\n');
    Ok(text)
}

/// A block that has been opened and not yet closed: its name and its lines so
/// far.
pub struct OpenBlock {
    pub name: Vec<char>,
    pub lines: Vec<Vec<char>>,
}

/// The model of an [`OpenBlock`].
pub struct OpenView {
    pub name: Seq<char>,
    pub lines: Seq<Seq<char>>,
}

impl View for OpenBlock {
    type V = OpenView;

    open spec fn view(&self) -> OpenView {
        OpenView { name: self.name@, lines: crate::text::views(self.lines@) }
    }
}

/// The model of a block that may be open.
pub open spec fn open_view(open: Option<OpenBlock>) -> Option<OpenView> {
    match open {
        Some(b) => Some(b@),
        None => None,
    }
}

/// A name and a help text.
pub type Block = (Seq<char>, Seq<char>);

/// The models of a list of blocks.
pub open spec fn block_views(v: Seq<(String, String)>) -> Seq<Block> {
    v.map_values(|b: (String, String)| (b.0@, b.1@))
}

/// Whether a name has been used by one of the blocks.
pub open spec fn has_name(blocks: Seq<Block>, name: Seq<char>) -> bool {
    exists|i: int| 0 <= i < blocks.len() && (#[trigger] blocks[i]).0 == name
}

/// What one line does to the blocks closed so far and the block that is open.
pub open spec fn step(blocks: Seq<Block>, open: Option<OpenView>, line: Seq<char>) -> Result<
    (Seq<Block>, Option<OpenView>),
    Seq<char>,
> {
    match (marker(line), open) {
        (None, None) => Ok((blocks, None)),
        (None, Some(b)) => Ok(
            (blocks, Some(OpenView { name: b.name, lines: b.lines.push(line) })),
        ),
        (Some(name), None) => if name == "end"@ {
            Err("cli:end without an open block"@)
        } else if has_name(blocks, name) {
            Err("duplicate cli:"@ + name + " block"@)
        } else {
            Ok((blocks, Some(OpenView { name, lines: Seq::empty() })))
        },
        (Some(name), Some(b)) => if name == "end"@ {
            match help_text(b.name, b.lines) {
                Ok(text) => Ok((blocks.push((b.name, text)), None)),
                Err(e) => Err(e),
            }
        } else {
            Err("cli:"@ + b.name + " block not closed before cli:"@ + name)
        },
    }
}

/// What the lines of a document do, one after the other, to the blocks closed
/// so far and the block that is open.
pub open spec fn scan(
    lines: Seq<Seq<char>>,
    blocks: Seq<Block>,
    open: Option<OpenView>,
) -> Result<Seq<Block>, Seq<char>>
    decreases lines.len(),
{
    if lines.len() == 0 {
        match open {
            Some(b) => Err("cli:"@ + b.name + " block never closed"@),
            None => Ok(blocks),
        }
    } else {
        match step(blocks, open, lines[0]) {
            Ok((b, o)) => scan(lines.drop_first(), b, o),
            Err(e) => Err(e),
        }
    }
}

/// The blocks of a document, or what is wrong with them.
pub open spec fn cli_blocks(md: Seq<char>) -> Result<Seq<Block>, Seq<char>> {
    scan(crate::text::lines(md), Seq::empty(), None)
}

/// The model of what was extracted.
pub open spec fn extracted(r: Result<Vec<(String, String)>, String>) -> Result<
    Seq<Block>,
    Seq<char>,
> {
    match r {
        Ok(v) => Ok(block_views(v@)),
        Err(e) => Err(e@),
    }
}

/// Whether a name has been used by one of the blocks.
fn name_taken(blocks: &Vec<(String, String)>, name: &String) -> (r: bool)
    ensures
        r == has_name(block_views(blocks@), name@),
{
    for i in 0..blocks.len()
        invariant
            forall|k: int|
                0 <= k < i ==> (#[trigger] block_views(blocks@)[k]).0 != name@,
    {
        assert(block_views(blocks@)[i as int].0 == blocks@[i as int].0@);
        if blocks[i].0 == *name {
            return true;
        }
    }
    false
}

/// Does what one line does.
fn take_line(
    blocks: &mut Vec<(String, String)>,
    open: Option<OpenBlock>,
    line: Vec<char>,
) -> (r: Result<Option<OpenBlock>, String>)
    ensures
        match r {
            Ok(o) => step(block_views(old(blocks)@), open_view(open), line@) == Ok::<
                (Seq<Block>, Option<OpenView>),
                Seq<char>,
            >((block_views(final(blocks)@), open_view(o))),
            Err(e) => step(block_views(old(blocks)@), open_view(open), line@) == Err::<
                (Seq<Block>, Option<OpenView>),
                Seq<char>,
            >(e@),
        },
{
    let end = chars_of("end");
    match (marker_name(line.as_slice()), open) {
        (None, None) => Ok(None),
        (None, Some(b)) => {
            let mut b = b;
            let ghost before = b@.lines;
            b.lines.push(line);
            assert(b@.lines =~= before.push(line@));
            Ok(Some(b))
        },
        (Some(name), None) => {
            if same_chars(name.as_slice(), end.as_slice()) {
                return Err("cli:end without an open block".to_owned());
            }
            let title = string_of(name.as_slice());
            if name_taken(blocks, &title) {
                let mut m: String = "duplicate cli:".to_owned();
                m.append(title.as_str());
                m.append(" block");
                return Err(m);
            }
            let b = OpenBlock { name, lines: Vec::new() };
            assert(b@.lines =~= Seq::<Seq<char>>::empty());
            Ok(Some(b))
        },
        (Some(name), Some(b)) => {
            if !same_chars(name.as_slice(), end.as_slice()) {
                let mut m = block_error(b.name.as_slice(), " block not closed before cli:");
                m.append(string_of(name.as_slice()).as_str());
                return Err(m);
            }
            match block_text(b.name.as_slice(), &b.lines) {
                Err(e) => Err(e),
                Ok(text) => {
                    let ghost before = blocks@;
                    blocks.push((string_of(b.name.as_slice()), text));
                    assert(block_views(blocks@) =~= block_views(before).push((b.name@, text@)));
                    Ok(None)
                },
            }
        },
    }
}

/// Extracts every marked help block as a name and a text, in document order.
///
/// A block may wrap its text in a Markdown code fence; the fence lines are
/// dropped. The text ends with a line feed.
pub fn extract_cli_blocks(md: &str) -> (r: Result<Vec<(String, String)>, String>)
    ensures
        extracted(r) == cli_blocks(md@),
{
    let lines = split_lines(chars_of(md).as_slice());
    let ghost all = crate::text::views(lines@);
    let mut blocks: Vec<(String, String)> = Vec::new();
    let mut open: Option<OpenBlock> = None;
    assert(all.skip(0) =~= all);
    assert(block_views(blocks@) =~= Seq::<Block>::empty());
    for i in 0..lines.len()
        invariant
            all == crate::text::views(lines@),
            scan(all.skip(i as int), block_views(blocks@), open_view(open)) == cli_blocks(md@),
    {
        assert(all.skip(i as int)[0] == lines@[i as int]@);
        assert(all.skip(i as int).drop_first() =~= all.skip(i + 1));
        match take_line(&mut blocks, open, copy_chars(lines[i].as_slice())) {
            Ok(o) => {
                open = o;
            },
            Err(e) => {
                return Err(e);
            },
        }
    }
    assert(all.skip(lines@.len() as int) =~= Seq::<Seq<char>>::empty());
    match open {
        Some(b) => Err(block_error(b.name.as_slice(), " block never closed")),
        None => Ok(blocks),
    }
}

/// One part of a document: prose, and behind it a block between its markers.
pub struct Section {
    pub prose: Seq<Seq<char>>,
    pub opening: Seq<char>,
    pub body: Seq<Seq<char>>,
    pub closing: Seq<char>,
}

/// Whether none of the lines is a marker.
pub open spec fn no_marker(lines: Seq<Seq<char>>) -> bool {
    forall|i: int| 0 <= i < lines.len() ==> marker(#[trigger] lines[i]) is None
}

impl Section {
    /// The name in the opening marker.
    pub open spec fn name(self) -> Seq<char> {
        marker(self.opening)->0
    }

    /// The block that the section holds.
    pub open spec fn block(self) -> Block {
        (self.name(), help_text(self.name(), self.body)->Ok_0)
    }

    /// Whether the section is what it should be: its markers are markers, no
    /// other line is one, and the body makes a help text.
    pub open spec fn well_formed(self) -> bool {
        &&& no_marker(self.prose)
        &&& marker(self.opening) is Some
        &&& self.name() != "end"@
        &&& no_marker(self.body)
        &&& marker(self.closing) == Some("end"@)
        &&& help_text(self.name(), self.body) is Ok
    }

    /// The lines of the section.
    pub open spec fn lines(self) -> Seq<Seq<char>> {
        self.prose + seq![self.opening] + self.body + seq![self.closing]
    }
}

/// The lines of a document made of sections and prose behind the last one.
pub open spec fn document(sections: Seq<Section>, tail: Seq<Seq<char>>) -> Seq<Seq<char>>
    decreases sections.len(),
{
    if sections.len() == 0 {
        tail
    } else {
        sections[0].lines() + document(sections.drop_first(), tail)
    }
}

/// Prose outside a block does nothing.
proof fn lemma_scan_prose(prose: Seq<Seq<char>>, rest: Seq<Seq<char>>, blocks: Seq<Block>)
    requires
        no_marker(prose),
    ensures
        scan(prose + rest, blocks, None) == scan(rest, blocks, None),
    decreases prose.len(),
{
    if prose.len() > 0 {
        assert((prose + rest)[0] == prose[0]);
        assert((prose + rest).drop_first() =~= prose.drop_first() + rest);
        assert(no_marker(prose.drop_first())) by {
            assert forall|i: int| 0 <= i < prose.drop_first().len() implies marker(
                #[trigger] prose.drop_first()[i],
            ) is None by {
                assert(prose.drop_first()[i] == prose[i + 1]);
            }
        }
        lemma_scan_prose(prose.drop_first(), rest, blocks);
    } else {
        assert(prose + rest =~= rest);
    }
}

/// Lines inside a block are collected.
proof fn lemma_scan_body(
    body: Seq<Seq<char>>,
    rest: Seq<Seq<char>>,
    blocks: Seq<Block>,
    open: OpenView,
)
    requires
        no_marker(body),
    ensures
        scan(body + rest, blocks, Some(open)) == scan(
            rest,
            blocks,
            Some(OpenView { name: open.name, lines: open.lines + body }),
        ),
    decreases body.len(),
{
    if body.len() > 0 {
        let next = OpenView { name: open.name, lines: open.lines.push(body[0]) };
        assert((body + rest)[0] == body[0]);
        assert((body + rest).drop_first() =~= body.drop_first() + rest);
        assert(no_marker(body.drop_first())) by {
            assert forall|i: int| 0 <= i < body.drop_first().len() implies marker(
                #[trigger] body.drop_first()[i],
            ) is None by {
                assert(body.drop_first()[i] == body[i + 1]);
            }
        }
        lemma_scan_body(body.drop_first(), rest, blocks, next);
        assert(next.lines + body.drop_first() =~= open.lines + body);
    } else {
        assert(body + rest =~= rest);
        assert(open.lines + body =~= open.lines);
    }
}

/// A well-formed section adds its block.
proof fn lemma_scan_section(section: Section, rest: Seq<Seq<char>>, blocks: Seq<Block>)
    requires
        section.well_formed(),
        !has_name(blocks, section.name()),
    ensures
        scan(section.lines() + rest, blocks, None) == scan(
            rest,
            blocks.push(section.block()),
            None,
        ),
{
    let after_body = seq![section.closing] + rest;
    let after_opening = section.body + after_body;
    let after_prose = seq![section.opening] + after_opening;
    assert(section.lines() + rest =~= section.prose + after_prose);
    lemma_scan_prose(section.prose, after_prose, blocks);
    assert(after_prose.drop_first() =~= after_opening);
    let open = OpenView { name: section.name(), lines: Seq::empty() };
    assert(scan(after_prose, blocks, None) == scan(after_opening, blocks, Some(open)));
    lemma_scan_body(section.body, after_body, blocks, open);
    assert(open.lines + section.body =~= section.body);
    assert(after_body.drop_first() =~= rest);
}

/// The blocks of the given sections.
pub open spec fn section_blocks(sections: Seq<Section>) -> Seq<Block> {
    sections.map_values(|s: Section| s.block())
}

/// Well-formed sections with names of their own add their blocks, one after the
/// other.
proof fn lemma_scan_document(sections: Seq<Section>, tail: Seq<Seq<char>>, blocks: Seq<Block>)
    requires
        forall|i: int| 0 <= i < sections.len() ==> (#[trigger] sections[i]).well_formed(),
        forall|i: int, j: int|
            0 <= i < j < sections.len() ==> (#[trigger] sections[i]).name() != (
            #[trigger] sections[j]).name(),
        forall|i: int|
            0 <= i < sections.len() ==> !has_name(blocks, (#[trigger] sections[i]).name()),
        no_marker(tail),
    ensures
        scan(document(sections, tail), blocks, None) == Ok::<Seq<Block>, Seq<char>>(
            blocks + section_blocks(sections),
        ),
    decreases sections.len(),
{
    if sections.len() == 0 {
        assert(tail + Seq::<Seq<char>>::empty() =~= tail);
        lemma_scan_prose(tail, Seq::empty(), blocks);
        assert(blocks + section_blocks(sections) =~= blocks);
    } else {
        let first = sections[0];
        let rest = sections.drop_first();
        let next = blocks.push(first.block());
        lemma_scan_section(first, document(rest, tail), blocks);
        assert forall|i: int| 0 <= i < rest.len() implies (#[trigger] rest[i]).well_formed()
            && !has_name(next, rest[i].name()) by {
            assert(rest[i] == sections[i + 1]);
            assert(sections[0].name() != sections[i + 1].name());
            if has_name(next, rest[i].name()) {
                let k = choose|k: int|
                    0 <= k < next.len() && (#[trigger] next[k]).0 == rest[i].name();
                if k < blocks.len() {
                    assert(blocks[k].0 == rest[i].name());
                }
            }
        }
        assert forall|i: int, j: int| 0 <= i < j < rest.len() implies (
        #[trigger] rest[i]).name() != (#[trigger] rest[j]).name() by {
            assert(rest[i] == sections[i + 1] && rest[j] == sections[j + 1]);
        }
        lemma_scan_document(rest, tail, next);
        assert(next + section_blocks(rest) =~= blocks + section_blocks(sections));
    }
}

/// A document of prose and well-formed blocks with distinct names is extracted
/// into exactly those blocks, in document order.
pub proof fn law_well_formed_document(sections: Seq<Section>, tail: Seq<Seq<char>>)
    requires
        forall|i: int| 0 <= i < sections.len() ==> (#[trigger] sections[i]).well_formed(),
        forall|i: int, j: int|
            0 <= i < j < sections.len() ==> (#[trigger] sections[i]).name() != (
            #[trigger] sections[j]).name(),
        no_marker(tail),
        forall|k: int|
            0 <= k < document(sections, tail).len() ==> crate::text::is_line(
                #[trigger] document(sections, tail)[k],
            ),
    ensures
        cli_blocks(crate::text::unlines(document(sections, tail))) == Ok::<Seq<Block>, Seq<char>>(
            section_blocks(sections),
        ),
{
    crate::text::law_lines_of_unlines(document(sections, tail));
    lemma_scan_document(sections, tail, Seq::empty());
    assert(Seq::<Block>::empty() + section_blocks(sections) =~= section_blocks(sections));
}

/// What holds of the blocks of every document that is extracted.
pub open spec fn good_blocks(blocks: Seq<Block>) -> bool {
    &&& forall|i: int, j: int|
        0 <= i < j < blocks.len() ==> (#[trigger] blocks[i]).0 != (#[trigger] blocks[j]).0
    &&& forall|i: int|
        0 <= i < blocks.len() ==> (#[trigger] blocks[i]).0 != "end"@ && good_text(blocks[i].1)
}

/// A help text: something without white space around it, and a line feed.
pub open spec fn good_text(text: Seq<char>) -> bool {
    &&& text.len() > 1
    &&& text.last() == '\n'
    &&& crate::text::trim(text.drop_last()) == text.drop_last()
}

/// Every help text is good.
proof fn lemma_help_text_good(name: Seq<char>, lines: Seq<Seq<char>>)
    ensures
        help_text(name, lines) matches Ok(text) ==> good_text(text),
{
    let joined = crate::text::join_lines(lines);
    crate::text::lemma_trim_trim(joined);
    if help_text(name, lines) is Ok {
        let text = help_text(name, lines)->Ok_0;
        let t = crate::text::trim(joined);
        if "```"@.is_prefix_of(t) {
            let rest = t.skip("```"@.len() as int);
            let i = crate::text::find_char(rest, '\n')->0;
            let inner = crate::text::trim_end(rest.skip(i + 1));
            let body = inner.take(inner.len() - "```"@.len());
            crate::text::lemma_trim_trim(body);
            assert(text.drop_last() =~= crate::text::trim(body));
        } else {
            assert(text.drop_last() =~= t);
        }
    }
}

/// Whatever the lines are, good blocks stay good.
proof fn lemma_scan_good(lines: Seq<Seq<char>>, blocks: Seq<Block>, open: Option<OpenView>)
    requires
        good_blocks(blocks),
        open matches Some(b) ==> b.name != "end"@ && !has_name(blocks, b.name),
    ensures
        scan(lines, blocks, open) matches Ok(all) ==> good_blocks(all) && blocks.is_prefix_of(all),
    decreases lines.len(),
{
    if lines.len() > 0 {
        if let Ok((b, o)) = step(blocks, open, lines[0]) {
            if let Some(was) = open {
                lemma_help_text_good(was.name, was.lines);
            }
            assert(good_blocks(b));
            lemma_scan_good(lines.drop_first(), b, o);
            if scan(lines, blocks, open) is Ok {
                let all = scan(lines, blocks, open)->Ok_0;
                assert(b.is_prefix_of(all));
                assert(blocks =~= all.subrange(0, blocks.len() as int));
            }
        }
    } else {
        assert(blocks =~= blocks.subrange(0, blocks.len() as int));
    }
}

/// The blocks of a document have distinct names, none of them `end`, and each
/// text is something without white space around it, and a line feed.
pub proof fn law_extracted_blocks_are_good(md: Seq<char>)
    ensures
        cli_blocks(md) matches Ok(all) ==> good_blocks(all),
{
    lemma_scan_good(crate::text::lines(md), Seq::empty(), None);
}

/// How many lines stand in front of the first marker.
proof fn lemma_first_marker(lines: Seq<Seq<char>>) -> (n: int)
    ensures
        0 <= n <= lines.len(),
        no_marker(lines.take(n)),
        n < lines.len() ==> marker(lines[n]) is Some,
    decreases lines.len(),
{
    if lines.len() == 0 {
        0
    } else {
        let front = lines.drop_last();
        let n = lemma_first_marker(front);
        assert(front.take(n) =~= lines.take(n));
        if n < front.len() {
            n
        } else if marker(lines.last()) is Some {
            n
        } else {
            assert forall|i: int| 0 <= i < lines.len() implies marker(
                #[trigger] lines.take(lines.len() as int)[i],
            ) is None by {
                if i < n {
                    assert(lines.take(n)[i] == lines[i]);
                }
            }
            lines.len() as int
        }
    }
}

/// Lines that are scanned without an error are those of some well-formed
/// sections.
proof fn lemma_scan_sections(lines: Seq<Seq<char>>, blocks: Seq<Block>) -> (r: (
    Seq<Section>,
    Seq<Seq<char>>,
))
    requires
        scan(lines, blocks, None) is Ok,
    ensures
        forall|i: int| 0 <= i < r.0.len() ==> (#[trigger] r.0[i]).well_formed(),
        no_marker(r.1),
        document(r.0, r.1) == lines,
        scan(lines, blocks, None)->Ok_0 == blocks + section_blocks(r.0),
    decreases lines.len(),
{
    let n = lemma_first_marker(lines);
    let prose = lines.take(n);
    let after_prose = lines.skip(n);
    assert(prose + after_prose =~= lines);
    lemma_scan_prose(prose, after_prose, blocks);
    if n == lines.len() {
        assert(after_prose =~= Seq::<Seq<char>>::empty());
        assert(prose =~= lines);
        let none = Seq::<Section>::empty();
        assert(blocks + section_blocks(none) =~= blocks);
        (none, lines)
    } else {
        let opening = lines[n];
        let after_opening = after_prose.drop_first();
        let open = OpenView { name: marker(opening)->0, lines: Seq::empty() };
        assert(after_prose[0] == opening);
        let m = lemma_first_marker(after_opening);
        let body = after_opening.take(m);
        let after_body = after_opening.skip(m);
        assert(body + after_body =~= after_opening);
        lemma_scan_body(body, after_body, blocks, open);
        assert(open.lines + body =~= body);
        if m == after_opening.len() {
            assert(after_body =~= Seq::<Seq<char>>::empty());
            assert(false);
        }
        let closing = after_body[0];
        assert(closing == after_opening[m]);
        let rest = after_body.drop_first();
        let section = Section { prose, opening, body, closing };
        assert(section.well_formed());
        let next = blocks.push(section.block());
        let (sections, tail) = lemma_scan_sections(rest, next);
        let all = seq![section] + sections;
        assert(all.drop_first() =~= sections);
        assert forall|i: int| 0 <= i < all.len() implies (#[trigger] all[i]).well_formed() by {
            if i > 0 {
                assert(all[i] == sections[i - 1]);
            }
        }
        assert(section.lines() + rest =~= lines);
        assert(next + section_blocks(sections) =~= blocks + section_blocks(all));
        (all, tail)
    }
}

/// A document is extracted only where it is one of prose and well-formed blocks
/// with distinct names, and what is extracted are those blocks.
pub proof fn law_extracted_document_is_well_formed(md: Seq<char>)
    requires
        cli_blocks(md) is Ok,
    ensures
        exists|sections: Seq<Section>, tail: Seq<Seq<char>>|
            {
                &&& #[trigger] document(sections, tail) == crate::text::lines(md)
                &&& no_marker(tail)
                &&& forall|i: int|
                    0 <= i < sections.len() ==> (#[trigger] sections[i]).well_formed()
                &&& forall|i: int, j: int|
                    0 <= i < j < sections.len() ==> (#[trigger] sections[i]).name() != (
                    #[trigger] sections[j]).name()
                &&& cli_blocks(md)->Ok_0 == section_blocks(sections)
            },
{
    let (sections, tail) = lemma_scan_sections(crate::text::lines(md), Seq::empty());
    law_extracted_blocks_are_good(md);
    let all = cli_blocks(md)->Ok_0;
    assert(Seq::<Block>::empty() + section_blocks(sections) =~= section_blocks(sections));
    assert forall|i: int, j: int| 0 <= i < j < sections.len() implies (
    #[trigger] sections[i]).name() != (#[trigger] sections[j]).name() by {
        assert(all[i].0 == sections[i].name());
        assert(all[j].0 == sections[j].name());
    }
    assert(document(sections, tail) == crate::text::lines(md));
}

/// A line is a marker where it is `<!-- cli:`, a name and `-->`, with any white
/// space around the whole and around the name; the name is what is left.
pub proof fn law_what_a_marker_is(
    a: Seq<char>,
    x: Seq<char>,
    name: Seq<char>,
    y: Seq<char>,
    b: Seq<char>,
)
    requires
        crate::text::all_white(a),
        crate::text::all_white(x),
        crate::text::bare_ends(name),
        crate::text::all_white(y),
        crate::text::all_white(b),
    ensures
        marker(a + ("<!-- cli:"@ + (x + name + y) + "-->"@) + b) == Some(name),
{
    reveal_strlit("<!-- cli:");
    reveal_strlit("-->");
    let inner = x + name + y;
    let core = "<!-- cli:"@ + inner + "-->"@;
    assert(core[0] == '<');
    assert(core[core.len() - 1] == '>');
    crate::text::law_trim_takes_off_white_space(a, core, b);
    crate::text::law_trim_takes_off_white_space(x, name, y);
    assert("<!-- cli:"@ =~= core.subrange(0, 9));
    let rest = core.skip(9);
    assert("-->"@ =~= rest.subrange(rest.len() - 3, rest.len() as int));
    assert(core.subrange(9, core.len() - 3) =~= inner);
}

/// No other line is a marker.
pub proof fn law_only_that_is_a_marker(line: Seq<char>)
    requires
        marker(line) is Some,
    ensures
        exists|inner: Seq<char>|
            crate::text::trim(line) == #[trigger] ("<!-- cli:"@ + inner + "-->"@) && marker(line)
                == Some(crate::text::trim(inner)),
        crate::text::is_infix("<!-- cli:"@, line),
{
    reveal_strlit("<!-- cli:");
    reveal_strlit("-->");
    let t = crate::text::trim(line);
    let inner = t.subrange(9, t.len() - 3);
    let rest = t.skip(9);
    assert(t =~= t.subrange(0, 9) + rest);
    assert(rest =~= inner + rest.subrange(rest.len() - 3, rest.len() as int));
    assert(t =~= "<!-- cli:"@ + inner + "-->"@);
    let (a, b) = crate::text::lemma_trim_cuts(line);
    assert(line.subrange(a.len() as int, (a.len() + 9) as int) =~= "<!-- cli:"@);
    assert(crate::text::occurs_at("<!-- cli:"@, line, a.len() as int));
}

/// Whether a text begins with the mark of a code fence.
pub open spec fn opens_fence(s: Seq<char>) -> bool {
    s.len() >= 3 && s[0] == '`' && s[1] == '`' && s[2] == '`'
}

/// Whether a text ends with the mark of a code fence.
pub open spec fn closes_fence(s: Seq<char>) -> bool {
    s.len() >= 3 && s[s.len() - 1] == '`' && s[s.len() - 2] == '`' && s[s.len() - 3] == '`'
}

/// Whether the first line begins, and the last one ends, with something else
/// than white space.
pub open spec fn bare_lines(lines: Seq<Seq<char>>) -> bool {
    &&& lines.len() > 0
    &&& lines[0].len() > 0
    &&& !crate::text::white_space(lines[0][0])
    &&& lines.last().len() > 0
    &&& !crate::text::white_space(lines.last()[lines.last().len() - 1])
}

/// A fence at either end, said by characters.
proof fn lemma_fences(s: Seq<char>)
    ensures
        "```"@.is_prefix_of(s) <==> opens_fence(s),
        "```"@.is_suffix_of(s) <==> closes_fence(s),
        "```"@.len() == 3,
{
    reveal_strlit("```");
    if "```"@.is_prefix_of(s) {
        assert(s.subrange(0, 3)[0] == '`' && s.subrange(0, 3)[1] == '`' && s.subrange(0, 3)[2]
            == '`');
    }
    if opens_fence(s) {
        assert("```"@ =~= s.subrange(0, 3));
    }
    if "```"@.is_suffix_of(s) {
        let e = s.subrange(s.len() - 3, s.len() as int);
        assert(e[0] == '`' && e[1] == '`' && e[2] == '`');
    }
    if closes_fence(s) {
        assert("```"@ =~= s.subrange(s.len() - 3, s.len() as int));
    }
}

/// The ends of lines that are put together are those of the first and of the
/// last.
proof fn lemma_joined_ends(lines: Seq<Seq<char>>)
    requires
        lines.len() > 0,
    ensures
        ({
            let j = crate::text::join_lines(lines);
            let first = lines[0];
            let last = lines.last();
            &&& j.len() >= first.len()
            &&& j.len() >= last.len()
            &&& j.take(first.len() as int) == first
            &&& j.skip(j.len() - last.len()) == last
            &&& lines.len() > 1 ==> j.len() > first.len() && j[first.len() as int] == '\n'
            &&& lines.len() > 1 ==> j.len() > last.len() && j[j.len() - last.len() - 1] == '\n'
        }),
{
    crate::text::lemma_join_lines_first(lines);
    let j = crate::text::join_lines(lines);
    assert(j.take(lines[0].len() as int) =~= lines[0]);
    assert(j.skip(j.len() - lines.last().len()) =~= lines.last());
}

/// Lines with bare ends have a text with bare ends.
proof fn lemma_joined_bare(lines: Seq<Seq<char>>)
    requires
        bare_lines(lines),
    ensures
        crate::text::join_lines(lines).len() > 0,
        crate::text::bare_ends(crate::text::join_lines(lines)),
{
    lemma_joined_ends(lines);
    let j = crate::text::join_lines(lines);
    let first = lines[0];
    let last = lines.last();
    assert(j.take(first.len() as int)[0] == j[0]);
    assert(j.skip(j.len() - last.len())[last.len() - 1] == j[j.len() - 1]);
}

/// Whether the text of lines begins with a fence is decided by the first of
/// them.
proof fn lemma_joined_fence(lines: Seq<Seq<char>>)
    requires
        lines.len() > 0,
    ensures
        opens_fence(crate::text::join_lines(lines)) <==> opens_fence(lines[0]),
        closes_fence(crate::text::join_lines(lines)) <==> closes_fence(lines.last()),
{
    lemma_joined_ends(lines);
    let j = crate::text::join_lines(lines);
    let f = lines[0];
    let l = lines.last();
    assert forall|k: int| 0 <= k < f.len() implies j[k] == f[k] by {
        assert(j.take(f.len() as int)[k] == j[k]);
    }
    assert forall|k: int| 0 <= k < l.len() implies j[j.len() - l.len() + k] == l[k] by {
        assert(j.skip(j.len() - l.len())[k] == l[k]);
    }
    if l.len() >= 3 {
        assert(j[j.len() - l.len() + (l.len() - 1)] == l[l.len() - 1]);
        assert(j[j.len() - l.len() + (l.len() - 2)] == l[l.len() - 2]);
        assert(j[j.len() - l.len() + (l.len() - 3)] == l[l.len() - 3]);
    }
}

/// Help that is not fenced is what `--help` prints, verbatim: every line of the
/// block, with the white space in it, ended by a line feed.
pub proof fn law_plain_help_is_verbatim(name: Seq<char>, lines: Seq<Seq<char>>)
    requires
        bare_lines(lines),
        !opens_fence(lines[0]),
    ensures
        help_text(name, lines) == Ok::<Seq<char>, Seq<char>>(crate::text::unlines(lines)),
{
    let j = crate::text::join_lines(lines);
    let none = Seq::<char>::empty();
    lemma_joined_bare(lines);
    crate::text::law_trim_takes_off_white_space(none, j, none);
    assert(none + j + none =~= j);
    lemma_joined_fence(lines);
    lemma_fences(j);
    crate::text::law_joined_lines_are_the_lines(lines);
}

/// The text inside a fence, from the text around it.
proof fn lemma_fenced_text(
    a: Seq<char>,
    info: Seq<char>,
    body: Seq<char>,
    x: Seq<char>,
    b: Seq<char>,
)
    requires
        crate::text::all_white(a),
        crate::text::without(info, '\n'),
        crate::text::all_white(x),
        crate::text::all_white(b),
    ensures
        ({
            let core = "```"@ + info + seq!['\n'] + body + seq!['\n'] + x + "```"@;
            &&& crate::text::trim(a + core + b) == core
            &&& fenced(core.skip(3)) == Some(crate::text::trim(body))
        }),
{
    reveal_strlit("```");
    let fence = "```"@;
    let core = fence + info + seq!['\n'] + body + seq!['\n'] + x + fence;
    assert(core[0] == '`' && core[core.len() - 1] == '`');
    crate::text::law_trim_takes_off_white_space(a, core, b);
    let rest = core.skip(3);
    let n = info.len() as int;
    assert forall|k: int| 0 <= k < n implies rest[k] != '\n' by {
        assert(rest[k] == info[k]);
    }
    assert(rest[n] == '\n');
    crate::text::lemma_find_char_at(rest, '\n', n);
    let tail = rest.skip(n + 1);
    let space = seq!['\n'] + x;
    assert(tail =~= body + space + fence);
    assert(tail.last() == '`');
    assert(crate::text::trim_end(tail) == tail);
    lemma_fences(tail);
    assert(closes_fence(tail));
    assert(tail.take(tail.len() - 3) =~= body + space);
    assert forall|k: int| 0 <= k < space.len() implies crate::text::white_space(
        #[trigger] space[k],
    ) by {
        if k > 0 {
            assert(space[k] == x[k - 1]);
        }
    }
    lemma_trim_ignores_white(Seq::empty(), body, space);
    assert(Seq::<char>::empty() + body + space =~= body + space);
}

/// White space around a text does not change what is left of it.
proof fn lemma_trim_ignores_white(a: Seq<char>, s: Seq<char>, b: Seq<char>)
    requires
        crate::text::all_white(a),
        crate::text::all_white(b),
    ensures
        crate::text::trim(a + s + b) == crate::text::trim(s),
{
    let (c, d) = crate::text::lemma_trim_cuts(s);
    let t = crate::text::trim(s);
    let front = a + c;
    let back = d + b;
    assert(a + s + b =~= front + t + back);
    assert forall|k: int| 0 <= k < front.len() implies crate::text::white_space(
        #[trigger] front[k],
    ) by {
        if k < a.len() {
            assert(front[k] == a[k]);
        } else {
            assert(front[k] == c[k - a.len()]);
        }
    }
    assert forall|k: int| 0 <= k < back.len() implies crate::text::white_space(
        #[trigger] back[k],
    ) by {
        if k < d.len() {
            assert(back[k] == d[k]);
        } else {
            assert(back[k] == b[k - d.len()]);
        }
    }
    crate::text::law_trim_takes_off_white_space(front, t, back);
}

/// The lines of a fenced block: the line that opens the fence, what is inside,
/// and the line that closes it.
pub open spec fn fenced_lines(
    a: Seq<char>,
    info: Seq<char>,
    body: Seq<Seq<char>>,
    x: Seq<char>,
    b: Seq<char>,
) -> Seq<Seq<char>> {
    seq![a + "```"@ + info] + body + seq![x + "```"@ + b]
}

/// Fenced lines put together.
proof fn lemma_fenced_lines_joined(
    a: Seq<char>,
    info: Seq<char>,
    body: Seq<Seq<char>>,
    x: Seq<char>,
    b: Seq<char>,
)
    requires
        body.len() > 0,
    ensures
        crate::text::join_lines(fenced_lines(a, info, body, x, b)) == a + ("```"@ + info
            + seq!['\n'] + crate::text::join_lines(body) + seq!['\n'] + x + "```"@) + b,
{
    let all = fenced_lines(a, info, body, x, b);
    let opening = a + "```"@ + info;
    let closing = x + "```"@ + b;
    crate::text::lemma_join_lines_first(all);
    let rest = all.drop_first();
    assert(rest =~= body + seq![closing]);
    assert(rest.last() == closing);
    assert(rest.drop_last() =~= body);
    assert(all[0] == opening);
    assert(crate::text::join_lines(rest) == crate::text::join_lines(body).push('\n') + closing);
    assert(crate::text::join_lines(all) =~= a + ("```"@ + info + seq!['\n']
        + crate::text::join_lines(body) + seq!['\n'] + x + "```"@) + b);
}

/// Help inside a code fence is verbatim too: the two lines of the fence are
/// dropped, whatever stands behind the opening mark, and every line between
/// them is printed as it is.
pub proof fn law_fenced_help_is_verbatim(
    name: Seq<char>,
    a: Seq<char>,
    info: Seq<char>,
    body: Seq<Seq<char>>,
    x: Seq<char>,
    b: Seq<char>,
)
    requires
        crate::text::all_white(a),
        crate::text::without(info, '\n'),
        bare_lines(body),
        crate::text::all_white(x),
        crate::text::all_white(b),
    ensures
        help_text(name, fenced_lines(a, info, body, x, b)) == Ok::<Seq<char>, Seq<char>>(
            crate::text::unlines(body),
        ),
{
    reveal_strlit("```");
    let j = crate::text::join_lines(body);
    let none = Seq::<char>::empty();
    lemma_fenced_lines_joined(a, info, body, x, b);
    lemma_fenced_text(a, info, j, x, b);
    let core = "```"@ + info + seq!['\n'] + j + seq!['\n'] + x + "```"@;
    lemma_fences(core);
    assert(opens_fence(core));
    lemma_joined_bare(body);
    crate::text::law_trim_takes_off_white_space(none, j, none);
    assert(none + j + none =~= j);
    crate::text::law_joined_lines_are_the_lines(body);
}

/// Whether a block is fenced does not matter: lines between the two lines of a
/// fence have the help text, or the error, that they have by themselves.
pub proof fn law_a_fence_changes_nothing(
    name: Seq<char>,
    a: Seq<char>,
    info: Seq<char>,
    body: Seq<Seq<char>>,
    x: Seq<char>,
    b: Seq<char>,
)
    requires
        crate::text::all_white(a),
        crate::text::without(info, '\n'),
        body.len() > 0,
        !opens_fence(crate::text::trim(crate::text::join_lines(body))),
        crate::text::all_white(x),
        crate::text::all_white(b),
    ensures
        help_text(name, fenced_lines(a, info, body, x, b)) == help_text(name, body),
{
    reveal_strlit("```");
    let j = crate::text::join_lines(body);
    lemma_fenced_lines_joined(a, info, body, x, b);
    lemma_fenced_text(a, info, j, x, b);
    let core = "```"@ + info + seq!['\n'] + j + seq!['\n'] + x + "```"@;
    lemma_fences(core);
    assert(opens_fence(core));
    lemma_fences(crate::text::trim(j));
}

/// Blank lines around the others do not matter.
pub proof fn law_blank_lines_around_do_not_matter(
    name: Seq<char>,
    blank: Seq<char>,
    lines: Seq<Seq<char>>,
)
    requires
        crate::text::all_white(blank),
    ensures
        help_text(name, seq![blank] + lines) == help_text(name, lines),
        help_text(name, lines.push(blank)) == help_text(name, lines),
{
    let j = crate::text::join_lines(lines);
    let none = Seq::<char>::empty();
    let first = seq![blank] + lines;
    let last = lines.push(blank);
    let front = blank.push('\n');
    let back = seq!['\n'] + blank;
    assert forall|k: int| 0 <= k < front.len() implies crate::text::white_space(
        #[trigger] front[k],
    ) by {
        if k < blank.len() {
            assert(front[k] == blank[k]);
        }
    }
    assert forall|k: int| 0 <= k < back.len() implies crate::text::white_space(
        #[trigger] back[k],
    ) by {
        if k > 0 {
            assert(back[k] == blank[k - 1]);
        }
    }
    if lines.len() == 0 {
        assert(first =~= seq![blank]);
        assert(last =~= seq![blank]);
        lemma_trim_ignores_white(blank, none, none);
        assert(blank + none + none =~= blank);
        assert(j =~= none);
    } else {
        crate::text::lemma_join_lines_first(first);
        assert(first.drop_first() =~= lines);
        lemma_trim_ignores_white(front, j, none);
        assert(front + j + none =~= front + j);
        assert(last.drop_last() =~= lines);
        lemma_trim_ignores_white(none, j, back);
        assert(crate::text::join_lines(last) =~= none + j + back);
    }
}

/// A block of nothing but blank lines is refused as empty.
pub proof fn law_blank_block_is_refused(name: Seq<char>, lines: Seq<Seq<char>>)
    requires
        forall|i: int| 0 <= i < lines.len() ==> crate::text::all_white(#[trigger] lines[i]),
    ensures
        help_text(name, lines) == Err::<Seq<char>, Seq<char>>("cli:"@ + name + " block is empty"@),
    decreases lines.len(),
{
    if lines.len() == 0 {
        let none = Seq::<char>::empty();
        assert(crate::text::join_lines(lines) =~= none);
        assert(crate::text::trim(none) =~= none);
        lemma_fences(none);
    } else {
        let front = lines.drop_last();
        assert forall|i: int| 0 <= i < front.len() implies crate::text::all_white(
            #[trigger] front[i],
        ) by {
            assert(front[i] == lines[i]);
        }
        law_blank_block_is_refused(name, front);
        assert(crate::text::all_white(lines[lines.len() - 1]));
        law_blank_lines_around_do_not_matter(name, lines.last(), front);
        assert(front.push(lines.last()) =~= lines);
    }
}

/// A fence that is opened and not closed by the last line is refused.
pub proof fn law_open_fence_is_refused(
    name: Seq<char>,
    info: Seq<char>,
    body: Seq<Seq<char>>,
)
    requires
        crate::text::without(info, '\n'),
        info.len() > 0 ==> !crate::text::white_space(info[info.len() - 1]),
        body.len() > 0 ==> body.last().len() > 0 && !crate::text::white_space(
            body.last()[body.last().len() - 1],
        ) && !closes_fence(body.last()),
    ensures
        help_text(name, seq!["```"@ + info] + body) == Err::<Seq<char>, Seq<char>>(
            "cli:"@ + name + " block's code fence never closes"@,
        ),
{
    reveal_strlit("```");
    let opening = "```"@ + info;
    let all = seq![opening] + body;
    let j = crate::text::join_lines(all);
    let none = Seq::<char>::empty();
    crate::text::lemma_join_lines_first(all);
    assert(all.drop_first() =~= body);
    assert(j[0] == '`');
    lemma_joined_ends(all);
    lemma_joined_fence(all);
    assert(opening[0] == '`' && opening[1] == '`' && opening[2] == '`');
    if body.len() > 0 {
        assert(all.last() == body.last());
        let last = body.last();
        assert(j.skip(j.len() - last.len())[last.len() - 1] == j[j.len() - 1]);
    } else {
        assert(j == opening);
        if info.len() > 0 {
            assert(j[j.len() - 1] == info[info.len() - 1]);
        } else {
            assert(j[j.len() - 1] == '`');
        }
    }
    crate::text::law_trim_takes_off_white_space(none, j, none);
    assert(none + j + none =~= j);
    lemma_fences(j);
    let rest = j.skip(3);
    let n = info.len() as int;
    assert forall|k: int| 0 <= k < n implies rest[k] != '\n' by {
        assert(rest[k] == info[k]);
    }
    if body.len() == 0 {
        assert(rest =~= info);
        crate::text::lemma_find_char_none(rest, '\n');
    } else {
        let inner = crate::text::join_lines(body);
        assert(j =~= opening.push('\n') + inner);
        assert(rest[n] == '\n');
        crate::text::lemma_find_char_at(rest, '\n', n);
        assert(rest.skip(n + 1) =~= inner);
        lemma_joined_ends(body);
        lemma_joined_fence(body);
        let last = body.last();
        assert(inner.skip(inner.len() - last.len())[last.len() - 1] == inner[inner.len() - 1]);
        assert(crate::text::trim_end(inner) == inner);
        lemma_fences(inner);
    }
}

/// Well-formed sections add their blocks, whatever follows them.
proof fn lemma_scan_sections_then(
    sections: Seq<Section>,
    tail: Seq<Seq<char>>,
    blocks: Seq<Block>,
)
    requires
        forall|i: int| 0 <= i < sections.len() ==> (#[trigger] sections[i]).well_formed(),
        forall|i: int, j: int|
            0 <= i < j < sections.len() ==> (#[trigger] sections[i]).name() != (
            #[trigger] sections[j]).name(),
        forall|i: int|
            0 <= i < sections.len() ==> !has_name(blocks, (#[trigger] sections[i]).name()),
    ensures
        scan(document(sections, tail), blocks, None) == scan(
            tail,
            blocks + section_blocks(sections),
            None,
        ),
    decreases sections.len(),
{
    if sections.len() == 0 {
        assert(blocks + section_blocks(sections) =~= blocks);
    } else {
        let first = sections[0];
        let rest = sections.drop_first();
        let next = blocks.push(first.block());
        lemma_scan_section(first, document(rest, tail), blocks);
        assert forall|i: int| 0 <= i < rest.len() implies (#[trigger] rest[i]).well_formed()
            && !has_name(next, rest[i].name()) by {
            assert(rest[i] == sections[i + 1]);
            assert(sections[0].name() != sections[i + 1].name());
            if has_name(next, rest[i].name()) {
                let k = choose|k: int|
                    0 <= k < next.len() && (#[trigger] next[k]).0 == rest[i].name();
                if k < blocks.len() {
                    assert(blocks[k].0 == rest[i].name());
                }
            }
        }
        assert forall|i: int, j: int| 0 <= i < j < rest.len() implies (
        #[trigger] rest[i]).name() != (#[trigger] rest[j]).name() by {
            assert(rest[i] == sections[i + 1] && rest[j] == sections[j + 1]);
        }
        lemma_scan_sections_then(rest, tail, next);
        assert(next + section_blocks(rest) =~= blocks + section_blocks(sections));
    }
}

/// Whether sections are well-formed and have names of their own.
pub open spec fn good_sections(sections: Seq<Section>) -> bool {
    &&& forall|i: int| 0 <= i < sections.len() ==> (#[trigger] sections[i]).well_formed()
    &&& forall|i: int, j: int|
        0 <= i < j < sections.len() ==> (#[trigger] sections[i]).name() != (
        #[trigger] sections[j]).name()
}

/// What the blocks of sections are called.
proof fn lemma_section_names(sections: Seq<Section>, name: Seq<char>)
    ensures
        has_name(section_blocks(sections), name) <==> exists|i: int|
            0 <= i < sections.len() && (#[trigger] sections[i]).name() == name,
{
    let blocks = section_blocks(sections);
    if has_name(blocks, name) {
        let k = choose|k: int| 0 <= k < blocks.len() && (#[trigger] blocks[k]).0 == name;
        assert(sections[k].name() == name);
    }
    if exists|i: int| 0 <= i < sections.len() && (#[trigger] sections[i]).name() == name {
        let i = choose|i: int| 0 <= i < sections.len() && (#[trigger] sections[i]).name() == name;
        assert(blocks[i].0 == name);
    }
}

/// Behind good sections and prose, the first thing that is wrong is what the
/// document is refused for: an end without a block, a name that was used, a
/// block that is never closed, a block that is opened inside another, or a
/// block without a help text.
pub proof fn law_first_fault_is_told(
    sections: Seq<Section>,
    prose: Seq<Seq<char>>,
    opening: Seq<char>,
    body: Seq<Seq<char>>,
    next: Seq<char>,
    rest: Seq<Seq<char>>,
    md: Seq<char>,
)
    requires
        good_sections(sections),
        no_marker(prose),
        no_marker(body),
        marker(opening) is Some,
        marker(next) is Some,
    ensures
        ({
            let name = marker(opening)->0;
            let used = exists|i: int|
                0 <= i < sections.len() && (#[trigger] sections[i]).name() == name;
            let opened = prose + seq![opening] + body;
            &&& name == "end"@ && crate::text::lines(md) == document(
                sections,
                prose + seq![opening] + rest,
            ) ==> cli_blocks(md) == Err::<Seq<Block>, Seq<char>>(
                "cli:end without an open block"@,
            )
            &&& name != "end"@ && used && crate::text::lines(md) == document(
                sections,
                prose + seq![opening] + rest,
            ) ==> cli_blocks(md) == Err::<Seq<Block>, Seq<char>>(
                "duplicate cli:"@ + name + " block"@,
            )
            &&& name != "end"@ && !used && crate::text::lines(md) == document(sections, opened)
                ==> cli_blocks(md) == Err::<Seq<Block>, Seq<char>>(
                "cli:"@ + name + " block never closed"@,
            )
            &&& name != "end"@ && !used && marker(next)->0 != "end"@ && crate::text::lines(md)
                == document(sections, opened + seq![next] + rest) ==> cli_blocks(md) == Err::<
                Seq<Block>,
                Seq<char>,
            >("cli:"@ + name + " block not closed before cli:"@ + marker(next)->0)
            &&& name != "end"@ && !used && marker(next)->0 == "end"@ && crate::text::lines(md)
                == document(sections, opened + seq![next] + rest) ==> (help_text(
                name,
                body,
            ) matches Err(e) ==> cli_blocks(md) == Err::<Seq<Block>, Seq<char>>(e))
        }),
{
    let name = marker(opening)->0;
    let none = Seq::<Block>::empty();
    let blocks = none + section_blocks(sections);
    assert(blocks =~= section_blocks(sections));
    lemma_section_names(sections, name);
    let short = prose + seq![opening] + rest;
    let opened = prose + seq![opening] + body;
    let long = opened + seq![next] + rest;
    lemma_scan_sections_then(sections, short, none);
    lemma_scan_sections_then(sections, opened, none);
    lemma_scan_sections_then(sections, long, none);
    let after = seq![opening] + rest;
    assert(short =~= prose + after);
    lemma_scan_prose(prose, after, blocks);
    assert(after[0] == opening);
    let open = OpenView { name, lines: Seq::empty() };
    let empty = Seq::<Seq<char>>::empty();
    let from_opening = seq![opening] + body;
    assert(opened =~= prose + from_opening);
    lemma_scan_prose(prose, from_opening, blocks);
    assert(from_opening.drop_first() =~= body + empty);
    lemma_scan_body(body, empty, blocks, open);
    assert(open.lines + body =~= body);
    let tail = seq![next] + rest;
    let from_opening_long = seq![opening] + (body + tail);
    assert(long =~= prose + from_opening_long);
    lemma_scan_prose(prose, from_opening_long, blocks);
    assert(from_opening_long.drop_first() =~= body + tail);
    lemma_scan_body(body, tail, blocks, open);
    assert(tail[0] == next);
}

/// Lines without the beginning of a marker are no markers.
proof fn lemma_no_marker(lines: Seq<Seq<char>>)
    requires
        forall|i: int|
            0 <= i < lines.len() ==> !crate::text::is_infix("<!-- cli:"@, #[trigger] lines[i]),
    ensures
        no_marker(lines),
{
    assert forall|i: int| 0 <= i < lines.len() implies marker(#[trigger] lines[i]) is None by {
        if marker(lines[i]) is Some {
            law_only_that_is_a_marker(lines[i]);
        }
    }
}

/// The parts of a document are lines, so all of it is.
proof fn lemma_section_is_lines(
    before: Seq<Seq<char>>,
    opening: Seq<char>,
    body: Seq<Seq<char>>,
    closing: Seq<char>,
    after: Seq<Seq<char>>,
)
    requires
        forall|i: int| 0 <= i < before.len() ==> crate::text::is_line(#[trigger] before[i]),
        crate::text::is_line(opening),
        forall|i: int| 0 <= i < body.len() ==> crate::text::is_line(#[trigger] body[i]),
        crate::text::is_line(closing),
        forall|i: int| 0 <= i < after.len() ==> crate::text::is_line(#[trigger] after[i]),
    ensures
        ({
            let all = before + seq![opening] + body + seq![closing] + after;
            forall|k: int| 0 <= k < all.len() ==> crate::text::is_line(#[trigger] all[k])
        }),
{
    let all = before + seq![opening] + body + seq![closing] + after;
    assert forall|k: int| 0 <= k < all.len() implies crate::text::is_line(#[trigger] all[k]) by {
        let n = before.len();
        if k < n {
            assert(all[k] == before[k]);
        } else if k == n {
            assert(all[k] == opening);
        } else if k < n + 1 + body.len() {
            assert(all[k] == body[k - n - 1]);
        } else if k == n + 1 + body.len() {
            assert(all[k] == closing);
        } else {
            assert(all[k] == after[k - n - 2 - body.len()]);
        }
    }
}

/// A block comes out of a document under its name and verbatim, wherever in the
/// document it stands: the lines between its markers, each ended by a line feed.
#[verifier::rlimit(40)]
#[verifier::spinoff_prover]
pub proof fn law_block_comes_out_verbatim(
    before: Seq<Seq<char>>,
    name: Seq<char>,
    body: Seq<Seq<char>>,
    after: Seq<Seq<char>>,
)
    requires
        crate::text::bare_ends(name),
        name != "end"@,
        bare_lines(body),
        !opens_fence(body[0]),
        forall|i: int|
            0 <= i < before.len() ==> !crate::text::is_infix("<!-- cli:"@, #[trigger] before[i]),
        forall|i: int|
            0 <= i < body.len() ==> !crate::text::is_infix("<!-- cli:"@, #[trigger] body[i]),
        forall|i: int|
            0 <= i < after.len() ==> !crate::text::is_infix("<!-- cli:"@, #[trigger] after[i]),
        crate::text::without(name, '\n'),
        forall|i: int| 0 <= i < before.len() ==> crate::text::is_line(#[trigger] before[i]),
        forall|i: int| 0 <= i < body.len() ==> crate::text::is_line(#[trigger] body[i]),
        forall|i: int| 0 <= i < after.len() ==> crate::text::is_line(#[trigger] after[i]),
    ensures
        cli_blocks(
            crate::text::unlines(
                before + seq!["<!-- cli:"@ + name + " -->"@] + body + seq!["<!-- cli:end -->"@]
                    + after,
            ),
        ) == Ok::<Seq<Block>, Seq<char>>(seq![(name, crate::text::unlines(body))]),
{
    reveal_strlit("<!-- cli:");
    reveal_strlit("-->");
    reveal_strlit(" -->");
    reveal_strlit("end");
    reveal_strlit("<!-- cli:end -->");
    let none = Seq::<char>::empty();
    let space = seq![' '];
    let opening = "<!-- cli:"@ + name + " -->"@;
    let closing = "<!-- cli:end -->"@;
    law_what_a_marker_is(none, none, name, space, none);
    law_what_a_marker_is(none, none, "end"@, space, none);
    assert(opening =~= none + ("<!-- cli:"@ + (none + name + space) + "-->"@) + none);
    assert(closing =~= none + ("<!-- cli:"@ + (none + "end"@ + space) + "-->"@) + none);
    lemma_no_marker(before);
    lemma_no_marker(body);
    lemma_no_marker(after);
    law_plain_help_is_verbatim(name, body);
    let section = Section { prose: before, opening, body, closing };
    let sections = seq![section];
    assert(section.well_formed());
    let all = before + seq![opening] + body + seq![closing] + after;
    assert(sections.drop_first() =~= Seq::<Section>::empty());
    assert(document(sections.drop_first(), after) == after);
    assert(document(sections, after) == section.lines() + after);
    assert(document(sections, after) =~= all);
    assert(closing.last() == '>');
    assert(forall|p: int| 0 <= p < closing.len() ==> closing[p] != '\n');
    assert(opening.last() == '>');
    assert forall|p: int| 0 <= p < opening.len() implies opening[p] != '\n' by {
        if 9 <= p < 9 + name.len() {
            assert(opening[p] == name[p - 9]);
        }
    }
    lemma_section_is_lines(before, opening, body, closing, after);
    law_well_formed_document(sections, after);
    assert(section_blocks(sections) =~= seq![(name, crate::text::unlines(body))]);
}

/// The text in front of a closing mark, from the text around it.
proof fn lemma_closed_text(a: Seq<char>, info: Seq<char>, body: Seq<char>, b: Seq<char>)
    requires
        crate::text::all_white(a),
        crate::text::without(info, '\n'),
        crate::text::all_white(b),
    ensures
        ({
            let core = "```"@ + info + seq!['\n'] + body + "```"@;
            &&& crate::text::trim(a + core + b) == core
            &&& opens_fence(core)
            &&& fenced(core.skip(3)) == Some(crate::text::trim(body))
        }),
{
    reveal_strlit("```");
    let fence = "```"@;
    let core = fence + info + seq!['\n'] + body + fence;
    assert(core[0] == '`' && core[1] == '`' && core[2] == '`' && core[core.len() - 1] == '`');
    crate::text::law_trim_takes_off_white_space(a, core, b);
    let rest = core.skip(3);
    let n = info.len() as int;
    assert forall|k: int| 0 <= k < n implies rest[k] != '\n' by {
        assert(rest[k] == info[k]);
    }
    assert(rest[n] == '\n');
    crate::text::lemma_find_char_at(rest, '\n', n);
    let tail = rest.skip(n + 1);
    assert(tail =~= body + fence);
    assert(tail.last() == '`');
    assert(crate::text::trim_end(tail) == tail);
    lemma_fences(tail);
    assert(closes_fence(tail));
    assert(tail.take(tail.len() - 3) =~= body);
}

/// Lines with a closing mark behind the last, put together.
proof fn lemma_closed_lines_joined(
    opening: Seq<char>,
    body: Seq<Seq<char>>,
    last: Seq<char>,
    end: Seq<char>,
)
    ensures
        crate::text::join_lines(seq![opening] + body + seq![last + end]) == opening + seq!['\n']
            + crate::text::join_lines(body.push(last)) + end,
{
    let closing = last + end;
    let all = seq![opening] + body + seq![closing];
    let inside = body.push(last);
    crate::text::lemma_join_lines_first(all);
    let rest = all.drop_first();
    assert(rest =~= body.push(closing));
    assert(rest.drop_last() =~= body);
    assert(inside.drop_last() =~= body);
    assert(crate::text::join_lines(rest) =~= crate::text::join_lines(inside) + end);
    assert(all[0] == opening);
    assert(crate::text::join_lines(all) =~= opening + seq!['\n'] + crate::text::join_lines(inside)
        + end);
}

/// The closing mark may stand behind text on the last line, which is then the
/// last line of the help: a fence from the first line to the end of the last
/// has the help text, or the error, of what stands between its two marks.
pub proof fn law_fence_may_close_behind_text(
    name: Seq<char>,
    a: Seq<char>,
    info: Seq<char>,
    body: Seq<Seq<char>>,
    last: Seq<char>,
    b: Seq<char>,
)
    requires
        crate::text::all_white(a),
        crate::text::without(info, '\n'),
        !opens_fence(crate::text::trim(crate::text::join_lines(body.push(last)))),
        crate::text::all_white(b),
    ensures
        help_text(name, fenced_lines(a, info, body, last, b)) == help_text(name, body.push(last)),
{
    let fence = "```"@;
    let j = crate::text::join_lines(body.push(last));
    let core = fence + info + seq!['\n'] + j + fence;
    lemma_closed_lines_joined(a + fence + info, body, last, fence + b);
    assert(last + fence + b =~= last + (fence + b));
    assert(a + fence + info + seq!['\n'] + j + (fence + b) =~= a + core + b);
    lemma_closed_text(a, info, j, b);
    lemma_fences(core);
    lemma_fences(crate::text::trim(j));
}

} // verus!
