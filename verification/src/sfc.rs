//! Splits a `.vrs` single-file component into its top-level blocks.
//!
//! Top-level `<template>`, `<script>`, and `<style>` blocks are located by their
//! opening/closing tags. As in HTML, a block's content cannot contain its own
//! closing tag, so the first matching `</tag>` terminates the block.
use vstd::prelude::*;
use crate::text::{
    chars_of, concat, find, find_from, is_ascii_alnum, is_ascii_alphanumeric, lemma_find_from,
    slice_chars, string_of, trim, trim_seq, trim_start_seq, trim_end_seq, is_ws,
};

verus! {

/// A compilation failure, with a human-readable message.
#[derive(Debug)]
pub struct CompileError(pub String);

impl CompileError {
    /// The failure message.
    pub fn message(&self) -> (m: &str)
        ensures
            m@ == self.0@,
    {
        self.0.as_str()
    }
}

/// The blocks of a parsed single-file component.
pub struct Sfc {
    pub template: String,
    pub script: Option<String>,
    pub style: Option<String>,
}

/// A character that may continue a tag name (so `<template-foo>` is not `<template>`).
pub open spec fn is_name_continue(c: char) -> bool {
    is_ascii_alnum(c) || c == '-' || c == '_'
}

/// The message for an opening tag with no `>`.
pub open spec fn unterminated_open_msg(tag: Seq<char>) -> Seq<char> {
    "unterminated <"@ + tag + "> opening tag"@
}

/// The message for a block with no closing tag.
pub open spec fn missing_close_msg(tag: Seq<char>) -> Seq<char> {
    "missing </"@ + tag + "> closing tag"@
}

/// The message for a source with no `<template>` block.
pub open spec fn missing_template_msg() -> Seq<char> {
    "`.vrs` is missing a <template> block"@
}

/// The inner content of the first `<tag ...>...</tag>` block whose opening
/// `<tag` is found at or after `from` and is not merely a prefix of a longer name.
pub open spec fn block_from(src: Seq<char>, tag: Seq<char>, from: int) -> Result<Option<Seq<char>>, Seq<char>>
    decreases src.len() + 1 - from,
{
    let open = seq!['<'] + tag;
    if from < 0 {
        Ok(None)
    } else {
        match find_from(src, open, from) {
            None => Ok(None),
            Some(start) => {
                let after = start + open.len();
                if after < src.len() && is_name_continue(src[after]) {
                    proof { lemma_find_from(src, open, from); }
                    block_from(src, tag, after)
                } else {
                    match find_from(src, seq!['>'], start) {
                        None => Err(unterminated_open_msg(tag)),
                        Some(open_end) => match find_from(src, seq!['<', '/'] + tag + seq!['>'], open_end + 1) {
                            None => Err(missing_close_msg(tag)),
                            Some(close) => Ok(Some(src.subrange(open_end + 1, close))),
                        },
                    }
                }
            }
        }
    }
}

/// The inner content of the first `<tag ...>...</tag>` block of `src`, if any.
pub open spec fn spec_block(src: Seq<char>, tag: Seq<char>) -> Result<Option<Seq<char>>, Seq<char>> {
    block_from(src, tag, 0)
}

/// What splitting `src` yields: the trimmed template, script and style blocks,
/// or the failure message.
pub open spec fn spec_split_sfc(src: Seq<char>) -> Result<(Seq<char>, Option<Seq<char>>, Option<Seq<char>>), Seq<char>> {
    match spec_block(src, "template"@) {
        Err(e) => Err(e),
        Ok(None) => Err(missing_template_msg()),
        Ok(Some(t)) => match spec_block(src, "script"@) {
            Err(e) => Err(e),
            Ok(script) => match spec_block(src, "style"@) {
                Err(e) => Err(e),
                Ok(style) => Ok((
                    trim_seq(t),
                    match script { Some(s) => Some(trim_seq(s)), None => None },
                    match style { Some(s) => Some(trim_seq(s)), None => None },
                )),
            },
        },
    }
}

/// The view of an optional string.
pub open spec fn opt_view(o: Option<String>) -> Option<Seq<char>> {
    match o {
        Some(s) => Some(s@),
        None => None,
    }
}

impl Sfc {
    /// The template, script and style contents.
    pub open spec fn blocks(&self) -> (Seq<char>, Option<Seq<char>>, Option<Seq<char>>) {
        (self.template@, opt_view(self.script), opt_view(self.style))
    }
}

/// Return the inner content of the first `<tag ...>...</tag>` block, if present.
fn extract_block(source: &[char], tag: &[char]) -> (r: Result<Option<Vec<char>>, Vec<char>>)
    ensures
        match (r, spec_block(source@, tag@)) {
            (Ok(Some(v)), Ok(Some(s))) => v@ == s,
            (Ok(None), Ok(None)) => true,
            (Err(v), Err(s)) => v@ == s,
            _ => false,
        },
{
    let lt = ['<'];
    let open = concat(&lt, tag);
    let gt = ['>'];
    let close = concat(&concat(&['<', '/'], tag), &gt);
    assert(gt@ =~= seq!['>']);
    assert(open@ =~= seq!['<'] + tag@);
    assert(close@ == seq!['<', '/'] + tag@ + seq!['>']);
    let n = source.len();
    let mut from: usize = 0;
    loop
        invariant
            from <= source@.len() + 1,
            n == source@.len(),
            gt@ == seq!['>'],
            open@ == seq!['<'] + tag@,
            close@ == seq!['<', '/'] + tag@ + seq!['>'],
            block_from(source@, tag@, 0) == block_from(source@, tag@, from as int),
        decreases source@.len() + 1 - from,
    {
        match find(source, &open, from) {
            None => return Ok(None),
            Some(start) => {
                proof { lemma_find_from(source@, open@, from as int); }
                let after = start + open.len();
                if after < source.len() && (is_ascii_alphanumeric(source[after]) || source[after] == '-'
                    || source[after] == '_') {
                    from = after;
                    continue;
                }
                match find(source, &gt, start) {
                    None => {
                        let msg = concat(&concat(&chars_of("unterminated <"), tag), &chars_of("> opening tag"));
                        return Err(msg);
                    },
                    Some(open_end) => {
                        proof { lemma_find_from(source@, gt@, start as int); }
                        match find(source, &close, open_end + 1) {
                            None => {
                                let msg = concat(&concat(&chars_of("missing </"), tag), &chars_of("> closing tag"));
                                return Err(msg);
                            },
                            Some(c) => {
                                proof { lemma_find_from(source@, close@, open_end + 1); }
                                return Ok(Some(slice_chars(source, open_end + 1, c)));
                            },
                        }
                    },
                }
            },
        }
    }
}

/// Trim an optional block.
fn trim_opt(o: Option<Vec<char>>) -> (r: Option<String>)
    ensures
        opt_view(r) == match o { Some(v) => Some(trim_seq(v@)), None => None::<Seq<char>> },
{
    match o {
        Some(v) => Some(string_of(&trim(&v))),
        None => None,
    }
}

/// Split a `.vrs` source into its `<template>`, `<script>`, and `<style>` blocks.
pub fn split_sfc(source: &str) -> (r: Result<Sfc, CompileError>)
    ensures
        match (r, spec_split_sfc(source@)) {
            (Ok(sfc), Ok(blocks)) => sfc.blocks() == blocks,
            (Err(e), Err(m)) => e.0@ == m,
            _ => false,
        },
{
    let src = chars_of(source);
    let template = match extract_block(&src, &chars_of("template")) {
        Err(e) => return Err(CompileError(string_of(&e))),
        Ok(None) => return Err(CompileError(String::from_str("`.vrs` is missing a <template> block"))),
        Ok(Some(t)) => t,
    };
    let script = match extract_block(&src, &chars_of("script")) {
        Err(e) => return Err(CompileError(string_of(&e))),
        Ok(s) => s,
    };
    let style = match extract_block(&src, &chars_of("style")) {
        Err(e) => return Err(CompileError(string_of(&e))),
        Ok(s) => s,
    };
    Ok(Sfc { template: string_of(&trim(&template)), script: trim_opt(script), style: trim_opt(style) })
}

} // verus!

verus! {

/// `t` is a contiguous piece of `src`.
pub open spec fn is_part_of(t: Seq<char>, src: Seq<char>) -> bool {
    exists|a: int, b: int| 0 <= a <= b <= src.len() && t == #[trigger] src.subrange(a, b)
}

/// Trimming the start drops a prefix.
proof fn lemma_trim_start_suffix(s: Seq<char>)
    ensures
        exists|a: int| 0 <= a <= s.len() && trim_start_seq(s) == #[trigger] s.skip(a),
    decreases s.len(),
{
    if s.len() > 0 && is_ws(s[0]) {
        let t = s.drop_first();
        lemma_trim_start_suffix(t);
        let a = choose|a: int| 0 <= a <= t.len() && trim_start_seq(t) == #[trigger] t.skip(a);
        assert(t.skip(a) =~= s.skip(a + 1));
    } else {
        assert(s.skip(0) =~= s);
    }
}

/// Trimming the end drops a suffix.
proof fn lemma_trim_end_prefix(s: Seq<char>)
    ensures
        exists|b: int| 0 <= b <= s.len() && trim_end_seq(s) == #[trigger] s.take(b),
    decreases s.len(),
{
    if s.len() > 0 && is_ws(s.last()) {
        let t = s.drop_last();
        lemma_trim_end_prefix(t);
        let b = choose|b: int| 0 <= b <= t.len() && trim_end_seq(t) == #[trigger] t.take(b);
        assert(t.take(b) =~= s.take(b));
    } else {
        assert(s.take(s.len() as int) =~= s);
    }
}

/// A trimmed piece of `src` is a piece of `src`.
proof fn lemma_trim_part(t: Seq<char>, src: Seq<char>)
    requires
        is_part_of(t, src),
    ensures
        is_part_of(trim_seq(t), src),
{
    let (a, b) = choose|a: int, b: int| 0 <= a <= b <= src.len() && t == #[trigger] src.subrange(a, b);
    lemma_trim_start_suffix(t);
    let i = choose|i: int| 0 <= i <= t.len() && trim_start_seq(t) == #[trigger] t.skip(i);
    let u = trim_start_seq(t);
    lemma_trim_end_prefix(u);
    let j = choose|j: int| 0 <= j <= u.len() && trim_end_seq(u) == #[trigger] u.take(j);
    assert(trim_seq(t) =~= src.subrange(a + i, a + i + j));
}

/// A block found from `from` on is a piece of `src`.
proof fn lemma_block_from_part(src: Seq<char>, tag: Seq<char>, from: int)
    ensures
        block_from(src, tag, from) matches Ok(Some(x)) ==> is_part_of(x, src),
    decreases src.len() + 1 - from,
{
    let open = seq!['<'] + tag;
    if from >= 0 {
        lemma_find_from(src, open, from);
        match find_from(src, open, from) {
            None => {},
            Some(start) => {
                let after = start + open.len();
                if after < src.len() && is_name_continue(src[after]) {
                    lemma_block_from_part(src, tag, after);
                } else {
                    lemma_find_from(src, seq!['>'], start);
                    match find_from(src, seq!['>'], start) {
                        None => {},
                        Some(open_end) => {
                            let close_tag = seq!['<', '/'] + tag + seq!['>'];
                            lemma_find_from(src, close_tag, open_end + 1);
                            match find_from(src, close_tag, open_end + 1) {
                                None => {},
                                Some(close) => {
                                    assert(0 <= open_end + 1 <= close <= src.len());
                                    assert(is_part_of(src.subrange(open_end + 1, close), src));
                                },
                            }
                        },
                    }
                }
            },
        }
    }
}

/// Splitting loses no text and invents none: the template, script and style
/// it returns are each a contiguous piece of the source.
pub proof fn law_sfc_blocks_from_source(src: Seq<char>)
    ensures
        spec_split_sfc(src) matches Ok((t, script, style)) ==> {
            &&& is_part_of(t, src)
            &&& (script matches Some(s) ==> is_part_of(s, src))
            &&& (style matches Some(s) ==> is_part_of(s, src))
        },
{
    lemma_block_from_part(src, "template"@, 0);
    lemma_block_from_part(src, "script"@, 0);
    lemma_block_from_part(src, "style"@, 0);
    match spec_block(src, "template"@) {
        Ok(Some(t)) => lemma_trim_part(t, src),
        _ => {},
    }
    match spec_block(src, "script"@) {
        Ok(Some(s)) => lemma_trim_part(s, src),
        _ => {},
    }
    match spec_block(src, "style"@) {
        Ok(Some(s)) => lemma_trim_part(s, src),
        _ => {},
    }
}

} // verus!
