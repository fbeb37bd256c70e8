//! Minimal recursive-descent parser for the supported template subset:
//! elements (incl. self-closing), nested children, text with `{{ expr }}`
//! interpolation, static attributes, `:name` bound attributes, and `@name`
//! event handlers.
use vstd::prelude::*;
use crate::compiler::ast::{
    attrs_view, element_view, lemma_nodes_view_add, lemma_nodes_view_index, lemma_nodes_view_push, node_view,
    nodes_view, Attr, AttrV, Element, ElementV, Node, NodeV,
};
use crate::text::{
    chars_eq, chars_of, concat, is_ascii_alnum, is_ascii_alphanumeric, is_whitespace, is_ws, matches_at,
    occurs_at, slice_chars, string_of, trim, trim_end, trim_end_seq, trim_seq, trim_start,
    trim_start_seq,
};

verus! {

/// The `Debug` rendering of a character (`format!("{:?}", c)`), e.g. `'<'`.
pub uninterp spec fn char_debug(c: char) -> Seq<char>;

/// Renders a character with its `Debug` formatting (`format!("{:?}", c)`):
/// quoted, with `char::escape_debug` escapes. The contract only names the
/// result; the escaping rules themselves are std's.
#[verifier::external_body]
fn debug_char(c: char) -> (s: String)
    ensures
        s@ == char_debug(c),
{
    format!("{:?}", c)
}

/// The `Debug` rendering of an optional character: `None` or `Some(<char>)`.
pub open spec fn opt_char_debug(c: Option<char>) -> Seq<char> {
    match c {
        None => "None"@,
        Some(c) => "Some("@ + char_debug(c) + ")"@,
    }
}

/// The character at `p`, if any.
pub open spec fn peek_at(s: Seq<char>, p: int) -> Option<char> {
    if 0 <= p < s.len() { Some(s[p]) } else { None }
}

/// A character that may appear in a tag or attribute name.
pub open spec fn is_name_char(c: char) -> bool {
    is_ascii_alnum(c) || c == '-' || c == '_' || c == ':' || c == '@'
}

/// The end of the whitespace run starting at `p`.
pub open spec fn skip_ws_at(s: Seq<char>, p: int) -> int
    decreases s.len() - p,
{
    if 0 <= p < s.len() && is_ws(s[p]) { skip_ws_at(s, p + 1) } else { p }
}

/// The end of the name starting at `p`.
pub open spec fn name_end(s: Seq<char>, p: int) -> int
    decreases s.len() - p,
{
    if 0 <= p < s.len() && is_name_char(s[p]) { name_end(s, p + 1) } else { p }
}

/// The end of the attribute name starting at `p`: name characters and `.`
/// (modifiers), with `[ .. ]` dynamic-argument groups taken whole. Inside a
/// group (`in_group`) everything up to and including the closing `]` belongs
/// to the name.
pub open spec fn attr_name_end(s: Seq<char>, p: int, in_group: bool) -> int
    decreases s.len() - p,
{
    if p < 0 || p >= s.len() {
        p
    } else if in_group {
        attr_name_end(s, p + 1, s[p] != ']')
    } else if is_name_char(s[p]) || s[p] == '.' {
        attr_name_end(s, p + 1, false)
    } else if s[p] == '[' {
        attr_name_end(s, p + 1, true)
    } else {
        p
    }
}

/// The message when `expected` is not the character at `p`.
pub open spec fn expect_msg(s: Seq<char>, p: int, expected: char) -> Seq<char> {
    "expected "@ + char_debug(expected) + ", found "@ + opt_char_debug(peek_at(s, p))
}

/// Where the comment whose body starts at `q` ends (just past `-->`).
pub open spec fn comment_end(s: Seq<char>, q: int) -> Result<int, Seq<char>>
    decreases s.len() + 1 - q,
{
    if occurs_at(s, "-->"@, q) {
        Ok(q + 3)
    } else if 0 <= q < s.len() {
        comment_end(s, q + 1)
    } else {
        Err("unterminated comment `<!--`"@)
    }
}

/// Where the interpolation whose expression starts at `q` is closed by `}}`.
pub open spec fn interp_end(s: Seq<char>, q: int) -> Result<int, Seq<char>>
    decreases s.len() + 1 - q,
{
    if occurs_at(s, "}}"@, q) {
        Ok(q)
    } else if 0 <= q < s.len() {
        interp_end(s, q + 1)
    } else {
        Err("unterminated interpolation `{{`"@)
    }
}

/// A comment body starting at `q` ends past its `-->`, within the input.
pub proof fn lemma_comment_end(s: Seq<char>, q: int)
    requires
        0 <= q,
    ensures
        comment_end(s, q) matches Ok(e) ==> q + 3 <= e <= s.len(),
    decreases s.len() + 1 - q,
{
    if occurs_at(s, "-->"@, q) {
        assert("-->"@.len() == 3) by { reveal_strlit("-->"); }
    } else if 0 <= q < s.len() {
        lemma_comment_end(s, q + 1);
    }
}

/// An interpolation body starting at `q` ends at a `}}` within the input.
pub proof fn lemma_interp_end(s: Seq<char>, q: int)
    requires
        0 <= q,
    ensures
        interp_end(s, q) matches Ok(e) ==> q <= e && e + 2 <= s.len(),
    decreases s.len() + 1 - q,
{
    if occurs_at(s, "}}"@, q) {
        assert("}}"@.len() == 2) by { reveal_strlit("}}"); }
    } else if 0 <= q < s.len() {
        lemma_interp_end(s, q + 1);
    }
}

/// A static text segment that is empty once trimmed.
pub open spec fn is_blank_static(n: NodeV) -> bool {
    match n {
        NodeV::StaticText(t) => trim_seq(t).len() == 0,
        _ => false,
    }
}

/// An empty static text segment.
pub open spec fn is_empty_static(n: NodeV) -> bool {
    match n {
        NodeV::StaticText(t) => t.len() == 0,
        _ => false,
    }
}

/// Trim the start of a static text segment.
pub open spec fn trim_start_node(n: NodeV) -> NodeV {
    match n {
        NodeV::StaticText(t) => NodeV::StaticText(trim_start_seq(t)),
        _ => n,
    }
}

/// Trim the end of a static text segment.
pub open spec fn trim_end_node(n: NodeV) -> NodeV {
    match n {
        NodeV::StaticText(t) => NodeV::StaticText(trim_end_seq(t)),
        _ => n,
    }
}

/// Drop formatting whitespace runs and trim the outer edges of a text run,
/// while preserving meaningful inner spacing (e.g. `"count is "` before an
/// interpolation).
pub open spec fn normalize_text_spec(segs: Seq<NodeV>) -> Seq<NodeV> {
    if forall|i: int| 0 <= i < segs.len() ==> is_blank_static(#[trigger] segs[i]) {
        seq![]
    } else {
        let first = segs.update(0, trim_start_node(segs[0]));
        let both = first.update(first.len() - 1, trim_end_node(first.last()));
        both.filter(|n: NodeV| !is_empty_static(n))
    }
}

/// Normalizing a text run drops it entirely when it is only whitespace; it
/// never leaves an empty text node; and when the run holds more than
/// whitespace, every non-empty segment strictly inside it is kept as it was.
pub proof fn law_normalize_text(segs: Seq<NodeV>)
    ensures
        (forall|i: int| 0 <= i < segs.len() ==> is_blank_static(#[trigger] segs[i]))
            ==> normalize_text_spec(segs).len() == 0,
        forall|i: int| 0 <= i < normalize_text_spec(segs).len()
            ==> !is_empty_static(#[trigger] normalize_text_spec(segs)[i]),
        !(forall|i: int| 0 <= i < segs.len() ==> is_blank_static(#[trigger] segs[i])) ==> forall|i: int|
            0 < i < segs.len() - 1 && !is_empty_static(#[trigger] segs[i]) ==> normalize_text_spec(segs).contains(segs[i]),
{
    broadcast use vstd::seq_lib::group_filter_ensures;
    if !(forall|i: int| 0 <= i < segs.len() ==> is_blank_static(#[trigger] segs[i])) {
        let first = segs.update(0, trim_start_node(segs[0]));
        let both = first.update(first.len() - 1, trim_end_node(first.last()));
        let keep = |n: NodeV| !is_empty_static(n);
        assert(normalize_text_spec(segs) == both.filter(keep));
        assert forall|i: int| 0 < i < segs.len() - 1 && !is_empty_static(#[trigger] segs[i])
            implies normalize_text_spec(segs).contains(segs[i]) by {
            assert(both[i] == segs[i]);
            assert(keep(both[i]));
        }
    }
}

/// `segs` with the pending static buffer `buf` appended, when non-empty.
pub open spec fn flush_buf(segs: Seq<NodeV>, buf: Seq<char>) -> Seq<NodeV> {
    if buf.len() == 0 { segs } else { segs.push(NodeV::StaticText(buf)) }
}

/// Read a text run from `q`, with segments `segs` so far and pending static
/// characters `buf`: up to the next tag (comments are skipped), splitting out
/// `{{ expr }}` interpolations. Yields the normalized segments and the end.
pub open spec fn text_run(s: Seq<char>, q: int, segs: Seq<NodeV>, buf: Seq<char>) -> Result<(Seq<NodeV>, int), Seq<char>>
    decreases s.len() - q,
{
    if q < 0 || q >= s.len() {
        Ok((normalize_text_spec(flush_buf(segs, buf)), q))
    } else if s[q] == '<' {
        if occurs_at(s, "<!--"@, q) {
            match comment_end(s, q + 4) {
                Err(e) => Err(e),
                Ok(q2) => {
                    proof { lemma_comment_end(s, q + 4); }
                    text_run(s, q2, segs, buf)
                },
            }
        } else {
            Ok((normalize_text_spec(flush_buf(segs, buf)), q))
        }
    } else if occurs_at(s, "{{"@, q) {
        match interp_end(s, q + 2) {
            Err(e) => Err(e),
            Ok(e) => {
                proof { lemma_interp_end(s, q + 2); }
                text_run(s, e + 2, flush_buf(segs, buf).push(NodeV::DynText(trim_seq(s.subrange(q + 2, e)))), seq![])
            },
        }
    } else {
        text_run(s, q + 1, segs, buf.push(s[q]))
    }
}

/// The value of a quoted attribute from `i` (after the opening quote) up to
/// the closing `quote`: a backslash before the quote yields the quote, any
/// other backslash escape is kept verbatim. Yields the value and where it ends.
pub open spec fn quoted_value(s: Seq<char>, i: int, quote: char, v: Seq<char>) -> (Seq<char>, int)
    decreases s.len() - i,
{
    if i < 0 || i >= s.len() {
        (v, i)
    } else if s[i] == '\\' {
        if i + 1 < s.len() {
            if s[i + 1] == quote {
                quoted_value(s, i + 2, quote, v.push(quote))
            } else {
                quoted_value(s, i + 2, quote, v + seq!['\\', s[i + 1]])
            }
        } else {
            quoted_value(s, i + 1, quote, v.push('\\'))
        }
    } else if s[i] == quote {
        (v, i)
    } else {
        quoted_value(s, i + 1, quote, v.push(s[i]))
    }
}

/// Reading on from `i` with `v` read so far, when every backslash up to `j`
/// is followed by a character that is neither a backslash nor the quote.
proof fn lemma_quoted_value_verbatim(s: Seq<char>, i: int, j: int, quote: char, start: int)
    requires
        0 <= start <= i <= j < s.len(),
        quote != '\\',
        s[j] == quote,
        forall|k: int| start <= k < j ==> s[k] != quote,
        forall|k: int| i <= k < j && #[trigger] s[k] == '\\' ==> k + 1 < j && s[k + 1] != '\\',
    ensures
        quoted_value(s, i, quote, s.subrange(start, i)) == (s.subrange(start, j), j),
    decreases j - i,
{
    if i < j {
        if s[i] == '\\' {
            assert(s.subrange(start, i) + seq!['\\', s[i + 1]] =~= s.subrange(start, i + 2));
            lemma_quoted_value_verbatim(s, i + 2, j, quote, start);
        } else {
            assert(s.subrange(start, i).push(s[i]) =~= s.subrange(start, i + 1));
            lemma_quoted_value_verbatim(s, i + 1, j, quote, start);
        }
    }
}

/// A quoted attribute value is read verbatim up to its closing quote: when
/// the text from `i` to the quote at `j` holds no quote and every backslash in
/// it is followed by another character that is not a backslash (`\d`, `\n`),
/// the value is exactly that text, backslashes included, and it ends at `j`.
pub proof fn law_quoted_value_keeps_escapes(s: Seq<char>, i: int, j: int, quote: char)
    requires
        0 <= i <= j < s.len(),
        quote == '"' || quote == '\'',
        s[j] == quote,
        forall|k: int| i <= k < j ==> s[k] != quote,
        forall|k: int| i <= k < j && #[trigger] s[k] == '\\' ==> k + 1 < j && s[k + 1] != '\\',
    ensures
        quoted_value(s, i, quote, seq![]) == (s.subrange(i, j), j),
{
    assert(s.subrange(i, i) =~= Seq::<char>::empty());
    lemma_quoted_value_verbatim(s, i, j, quote, i);
}

/// The attribute for a raw name and (possibly absent) value: a `:` prefix
/// binds, an `@` prefix listens, anything else is static.
pub open spec fn classify_attr(raw: Seq<char>, value: Seq<char>) -> AttrV {
    if raw.len() > 0 && raw[0] == ':' {
        AttrV::Dyn { name: raw.drop_first(), expr: value }
    } else if raw.len() > 0 && raw[0] == '@' {
        AttrV::Event { name: raw.drop_first(), handler: value }
    } else {
        AttrV::Static { name: raw, value: value }
    }
}

/// Parse one attribute at `p`, yielding it and where it ends.
pub open spec fn parse_attr_spec(s: Seq<char>, p: int) -> Result<(AttrV, int), Seq<char>> {
    let raw_end = attr_name_end(s, p, false);
    let raw = s.subrange(p, raw_end);
    if raw.len() == 0 {
        Err("unexpected character "@ + opt_char_debug(peek_at(s, p)) + " in tag"@)
    } else {
        let r = skip_ws_at(s, raw_end);
        if peek_at(s, r) == Some('=') {
            let r2 = skip_ws_at(s, r + 1);
            match peek_at(s, r2) {
                None => Err("expected attribute value"@),
                Some(quote) => if quote != '"' && quote != '\'' {
                    Err("attribute value must be quoted"@)
                } else {
                    let (v, end) = quoted_value(s, r2 + 1, quote, seq![]);
                    if peek_at(s, end) == Some(quote) {
                        Ok((classify_attr(raw, v), end + 1))
                    } else {
                        Err(expect_msg(s, end, quote))
                    }
                },
            }
        } else {
            Ok((classify_attr(raw, seq![]), raw_end))
        }
    }
}

/// Parse the attributes of an open tag named `tag` from `q` up to and
/// including `>` or `/>`. Yields the attributes, whether the tag self-closes,
/// and where it ends.
pub open spec fn attrs_run(s: Seq<char>, q: int, tag: Seq<char>, attrs: Seq<AttrV>) -> Result<(Seq<AttrV>, bool, int), Seq<char>>
    decreases s.len() - q,
{
    let r = skip_ws_at(s, q);
    match peek_at(s, r) {
        Some('/') => if peek_at(s, r + 1) == Some('>') {
            Ok((attrs, true, r + 2))
        } else {
            Err(expect_msg(s, r + 1, '>'))
        },
        Some('>') => Ok((attrs, false, r + 1)),
        None => Err("unterminated tag <"@ + tag + ">"@),
        _ => match parse_attr_spec(s, r) {
            Err(e) => Err(e),
            Ok((a, q2)) => if q < q2 <= s.len() { attrs_run(s, q2, tag, attrs.push(a)) } else { Err(seq![]) },
        },
    }
}

/// Parse sibling nodes from `q` (appending to `acc`) until the input ends or a
/// closing tag `</` starts. Yields the nodes and where they end.
pub open spec fn nodes_run(s: Seq<char>, q: int, acc: Seq<NodeV>) -> Result<(Seq<NodeV>, int), Seq<char>>
    decreases s.len() - q, 1int,
{
    if q < 0 || q >= s.len() {
        Ok((acc, q))
    } else if s[q] == '<' && occurs_at(s, "<!--"@, q) {
        match comment_end(s, q + 4) {
            Err(e) => Err(e),
            Ok(q2) => if q < q2 <= s.len() { nodes_run(s, q2, acc) } else { Err(seq![]) },
        }
    } else if s[q] == '<' && occurs_at(s, "</"@, q) {
        Ok((acc, q))
    } else if s[q] == '<' {
        match element_at(s, q) {
            Err(e) => Err(e),
            Ok((el, q2)) => if q < q2 <= s.len() { nodes_run(s, q2, acc.push(NodeV::Element(el))) } else { Err(seq![]) },
        }
    } else {
        match text_run(s, q, seq![], seq![]) {
            Err(e) => Err(e),
            Ok((segs, q2)) => if q < q2 <= s.len() { nodes_run(s, q2, acc + segs) } else { Err(seq![]) },
        }
    }
}

/// Parse the element whose `<` is at `p`. Yields it and where it ends.
pub open spec fn element_at(s: Seq<char>, p: int) -> Result<(ElementV, int), Seq<char>>
    decreases s.len() - p, 0int,
{
    if peek_at(s, p) != Some('<') {
        Err(expect_msg(s, p, '<'))
    } else {
        let tag_end = name_end(s, p + 1);
        let tag = s.subrange(p + 1, tag_end);
        if tag.len() == 0 {
            Err("expected tag name"@)
        } else {
            match attrs_run(s, tag_end, tag, seq![]) {
                Err(e) => Err(e),
                Ok((attrs, true, q)) => Ok((ElementV { tag, attrs, children: seq![] }, q)),
                Ok((attrs, false, q)) => if p < q <= s.len() {
                    match nodes_run(s, q, seq![]) {
                        Err(e) => Err(e),
                        Ok((children, c)) => if !occurs_at(s, "</"@, c) {
                            Err("expected closing tag </"@ + tag + ">"@)
                        } else {
                            let close_end = name_end(s, c + 2);
                            let close = s.subrange(c + 2, close_end);
                            let w = skip_ws_at(s, close_end);
                            if peek_at(s, w) != Some('>') {
                                Err(expect_msg(s, w, '>'))
                            } else if close != tag {
                                Err("mismatched closing tag: <"@ + tag + "> closed by </"@ + close + ">"@)
                            } else {
                                Ok((ElementV { tag, attrs, children }, w + 1))
                            }
                        },
                    }
                } else {
                    Err(seq![])
                },
            }
        }
    }
}

/// Parse a whole template: its top-level nodes, which must consume all input.
pub open spec fn spec_parse(s: Seq<char>) -> Result<Seq<NodeV>, Seq<char>> {
    match nodes_run(s, 0, seq![]) {
        Err(e) => Err(e),
        Ok((nodes, q)) => if q != s.len() { Err("unexpected trailing input"@) } else { Ok(nodes) },
    }
}

} // verus!

verus! {

/// The characters of `opt_char_debug(c)`.
fn opt_char_debug_exec(c: Option<char>) -> (r: Vec<char>)
    ensures
        r@ == opt_char_debug(c),
{
    match c {
        None => chars_of("None"),
        Some(c) => {
            let d = debug_char(c);
            concat(&concat(&chars_of("Some("), &chars_of(d.as_str())), &chars_of(")"))
        },
    }
}

/// Whether `c` may appear in a tag or attribute name.
fn is_name_character(c: char) -> (b: bool)
    ensures
        b == is_name_char(c),
{
    is_ascii_alphanumeric(c) || c == '-' || c == '_' || c == ':' || c == '@'
}

/// A cursor over the characters of a template.
struct Parser {
    chars: Vec<char>,
    pos: usize,
}

impl Parser {
    /// The cursor lies within the input (or at its end).
    spec fn wf(&self) -> bool {
        self.pos <= self.chars@.len() <= usize::MAX
    }

    fn peek(&self) -> (r: Option<char>)
        ensures
            r == peek_at(self.chars@, self.pos as int),
    {
        if self.pos < self.chars.len() {
            Some(self.chars[self.pos])
        } else {
            None
        }
    }

    fn bump(&mut self) -> (r: Option<char>)
        requires
            old(self).wf(),
        ensures
            final(self).wf(),
            final(self).chars == old(self).chars,
            old(self).pos <= final(self).pos,
            r == peek_at(old(self).chars@, old(self).pos as int),
            final(self).pos == if r is Some { old(self).pos + 1 } else { old(self).pos as int },
    {
        let c = self.peek();
        if c.is_some() {
            self.pos += 1;
        }
        c
    }

    fn starts_with(&self, s: &str) -> (r: bool)
        ensures
            r == occurs_at(self.chars@, s@, self.pos as int),
    {
        let target = chars_of(s);
        matches_at(&self.chars, &target, self.pos)
    }

    fn skip_ws(&mut self)
        requires
            old(self).wf(),
        ensures
            final(self).wf(),
            final(self).chars == old(self).chars,
            final(self).pos == skip_ws_at(old(self).chars@, old(self).pos as int),
            old(self).pos <= final(self).pos,
    {
        while self.pos < self.chars.len() && is_whitespace(self.chars[self.pos])
            invariant
                self.wf(),
                self.chars == old(self).chars,
                old(self).pos <= self.pos,
                skip_ws_at(self.chars@, old(self).pos as int) == skip_ws_at(self.chars@, self.pos as int),
            decreases self.chars@.len() - self.pos,
        {
            self.pos += 1;
        }
    }

    fn expect(&mut self, c: char) -> (r: Result<(), String>)
        requires
            old(self).wf(),
        ensures
            final(self).wf(),
            final(self).chars == old(self).chars,
            old(self).pos <= final(self).pos,
            match r {
                Ok(()) => peek_at(old(self).chars@, old(self).pos as int) == Some(c) && final(self).pos == old(self).pos + 1,
                Err(m) => peek_at(old(self).chars@, old(self).pos as int) != Some(c)
                    && m@ == expect_msg(old(self).chars@, old(self).pos as int, c)
                    && final(self).pos == old(self).pos,
            },
    {
        if self.peek() == Some(c) {
            self.pos += 1;
            Ok(())
        } else {
            let d = debug_char(c);
            let found = opt_char_debug_exec(self.peek());
            let m = concat(&concat(&concat(&chars_of("expected "), &chars_of(d.as_str())), &chars_of(", found ")), &found);
            Err(string_of(&m))
        }
    }

    fn read_name(&mut self) -> (name: String)
        requires
            old(self).wf(),
        ensures
            final(self).wf(),
            final(self).chars == old(self).chars,
            final(self).pos == name_end(old(self).chars@, old(self).pos as int),
            old(self).pos <= final(self).pos,
            name@ == old(self).chars@.subrange(old(self).pos as int, final(self).pos as int),
    {
        let start = self.pos;
        while self.pos < self.chars.len() && is_name_character(self.chars[self.pos])
            invariant
                self.wf(),
                start <= self.pos,
                self.chars == old(self).chars,
                old(self).pos == start,
                name_end(self.chars@, start as int) == name_end(self.chars@, self.pos as int),
            decreases self.chars@.len() - self.pos,
        {
            self.pos += 1;
        }
        string_of(&slice_chars(&self.chars, start, self.pos))
    }

    /// Read an attribute name: name characters, `.` modifiers, and `[ .. ]`
    /// dynamic-argument groups.
    fn read_attr_name(&mut self) -> (name: String)
        requires
            old(self).wf(),
        ensures
            final(self).wf(),
            final(self).chars == old(self).chars,
            final(self).pos == attr_name_end(old(self).chars@, old(self).pos as int, false),
            old(self).pos <= final(self).pos,
            name@ == old(self).chars@.subrange(old(self).pos as int, final(self).pos as int),
    {
        let start = self.pos;
        let mut in_group = false;
        let mut done = false;
        while !done && self.pos < self.chars.len()
            invariant
                self.wf(),
                start <= self.pos,
                self.chars == old(self).chars,
                old(self).pos == start,
                attr_name_end(self.chars@, start as int, false) == attr_name_end(self.chars@, self.pos as int, in_group),
                done ==> attr_name_end(self.chars@, self.pos as int, in_group) == self.pos,
            decreases self.chars@.len() - self.pos + (if done { 0int } else { 1int }),
        {
            let c = self.chars[self.pos];
            if in_group {
                in_group = c != ']';
                self.pos += 1;
            } else if is_name_character(c) || c == '.' {
                self.pos += 1;
            } else if c == '[' {
                in_group = true;
                self.pos += 1;
            } else {
                done = true;
            }
        }
        string_of(&slice_chars(&self.chars, start, self.pos))
    }

    /// Skip an HTML comment `<!-- ... -->`, assuming the cursor is at `<!--`.
    fn skip_comment(&mut self) -> (r: Result<(), String>)
        requires
            old(self).wf(),
            occurs_at(old(self).chars@, "<!--"@, old(self).pos as int),
        ensures
            final(self).wf(),
            final(self).chars == old(self).chars,
            old(self).pos <= final(self).pos,
            match (r, comment_end(old(self).chars@, old(self).pos + 4)) {
                (Ok(()), Ok(e)) => final(self).pos == e,
                (Err(m), Err(e)) => m@ == e,
                _ => false,
            },
    {
        proof { reveal_strlit("<!--"); }
        self.pos += 4;
        while !self.starts_with("-->")
            invariant
                self.wf(),
                self.chars == old(self).chars,
                old(self).pos <= self.pos,
                comment_end(self.chars@, old(self).pos + 4) == comment_end(self.chars@, self.pos as int),
            decreases self.chars@.len() - self.pos,
        {
            if self.bump().is_none() {
                return Err(String::from_str("unterminated comment `<!--`"));
            }
        }
        proof { reveal_strlit("-->"); }
        self.pos += 3;
        Ok(())
    }
}

} // verus!

verus! {

/// Whether a node is a static text segment that is blank once trimmed.
fn is_blank_static_node(n: &Node) -> (b: bool)
    ensures
        b == is_blank_static(node_view(*n)),
{
    match n {
        Node::StaticText(s) => trim(&chars_of(s.as_str())).len() == 0,
        _ => false,
    }
}

/// Whether a node is an empty static text segment.
fn is_empty_static_node(n: &Node) -> (b: bool)
    ensures
        b == is_empty_static(node_view(*n)),
{
    match n {
        Node::StaticText(s) => s.as_str().unicode_len() == 0,
        _ => false,
    }
}

/// Drop formatting whitespace runs and trim the outer edges of a text run, while
/// preserving meaningful inner spacing (e.g. `"count is "` before an interpolation).
fn normalize_text(segments: Vec<Node>) -> (r: Vec<Node>)
    ensures
        nodes_view(r@) == normalize_text_spec(nodes_view(segments@)),
{
    let ghost sv = nodes_view(segments@);
    proof { lemma_nodes_view_index(segments@); }
    let mut all_blank = true;
    let mut i: usize = 0;
    while i < segments.len()
        invariant
            i <= segments@.len(),
            sv == nodes_view(segments@),
            sv.len() == segments@.len(),
            forall|k: int| 0 <= k < segments@.len() ==> #[trigger] sv[k] == node_view(segments@[k]),
            all_blank == forall|k: int| 0 <= k < i ==> is_blank_static(#[trigger] sv[k]),
        decreases segments@.len() - i,
    {
        let b = is_blank_static_node(&segments[i]);
        assert(b == is_blank_static(sv[i as int]));
        if !b {
            all_blank = false;
        }
        i += 1;
        assert(all_blank == forall|k: int| 0 <= k < i ==> is_blank_static(#[trigger] sv[k])) by {
            if !b {
                assert(!is_blank_static(sv[i - 1]));
            }
        }
    }
    if all_blank {
        return Vec::new();
    }
    let ghost both = {
        let first = sv.update(0, trim_start_node(sv[0]));
        first.update(first.len() - 1, trim_end_node(first.last()))
    };
    let ghost p = |n: NodeV| !is_empty_static(n);
    let n = segments.len();
    let mut segs = segments;
    let mut out: Vec<Node> = Vec::new();
    let mut i: usize = 0;
    proof {
        lemma_nodes_view_index(out@);
        assert(both.take(0) =~= Seq::<NodeV>::empty());
        reveal_with_fuel(Seq::filter, 1);
    }
    while i < n
        invariant
            0 < n == sv.len(),
            i <= n,
            segs@.len() == n - i,
            forall|k: int| 0 <= k < segs@.len() ==> node_view(#[trigger] segs@[k]) == sv[k + i],
            both == sv.update(0, trim_start_node(sv[0])).update(n - 1, trim_end_node(sv.update(0, trim_start_node(sv[0])).last())),
            nodes_view(out@) == both.take(i as int).filter(p),
            p == (|n: NodeV| !is_empty_static(n)),
        decreases n - i,
    {
        let node = segs.remove(0);
        assert(node_view(node) == sv[i as int]);
        let node = if i == 0 {
            match node {
                Node::StaticText(s) => Node::StaticText(string_of(&trim_start(&chars_of(s.as_str())))),
                other => other,
            }
        } else {
            node
        };
        let node = if i == n - 1 {
            match node {
                Node::StaticText(s) => Node::StaticText(string_of(&trim_end(&chars_of(s.as_str())))),
                other => other,
            }
        } else {
            node
        };
        assert(node_view(node) == both[i as int]);
        let keep = !is_empty_static_node(&node);
        let ghost before = out@;
        if keep {
            out.push(node);
            proof { lemma_nodes_view_push(before, node); }
        }
        proof {
            assert(both.take(i + 1) =~= both.take(i as int).push(both[i as int]));
            both.take(i as int).lemma_filter_push(both[i as int], p);
        }
        i += 1;
    }
    assert(both.take(n as int) =~= both);
    out
}

} // verus!

verus! {

/// `segments` with the pending static buffer appended when non-empty.
fn flush(segments: &mut Vec<Node>, buf: &Vec<char>)
    ensures
        nodes_view(final(segments)@) == flush_buf(nodes_view(old(segments)@), buf@),
{
    if buf.len() > 0 {
        let ghost before = segments@;
        let n = Node::StaticText(string_of(buf));
        segments.push(n);
        proof { lemma_nodes_view_push(before, n); }
    }
}

impl Parser {
    fn parse_text(&mut self) -> (r: Result<Vec<Node>, String>)
        requires
            old(self).wf(),
        ensures
            final(self).wf(),
            final(self).chars == old(self).chars,
            old(self).pos <= final(self).pos,
            match (r, text_run(old(self).chars@, old(self).pos as int, seq![], seq![])) {
                (Ok(v), Ok((segs, q))) => nodes_view(v@) == segs && final(self).pos == q,
                (Err(m), Err(e)) => m@ == e,
                _ => false,
            },
    {
        let mut segments: Vec<Node> = Vec::new();
        let mut buf: Vec<char> = Vec::new();
        proof {
            lemma_nodes_view_index(segments@);
            assert(nodes_view(segments@) =~= Seq::<NodeV>::empty());
        }
        loop
            invariant
                self.wf(),
                self.chars == old(self).chars,
                old(self).pos <= self.pos,
                text_run(self.chars@, old(self).pos as int, seq![], seq![])
                    == text_run(self.chars@, self.pos as int, nodes_view(segments@), buf@),
            decreases self.chars@.len() - self.pos,
        {
            match self.peek() {
                None => {
                    flush(&mut segments, &buf);
                    return Ok(normalize_text(segments));
                },
                Some(c) => {
                    if c == '<' {
                        if self.starts_with("<!--") {
                            let ghost q = self.pos as int;
                            match self.skip_comment() {
                                Err(e) => return Err(e),
                                Ok(()) => {
                                    proof { lemma_comment_end(self.chars@, q + 4); }
                                    continue;
                                },
                            }
                        }
                        flush(&mut segments, &buf);
                        return Ok(normalize_text(segments));
                    }
                    if self.starts_with("{{") {
                        proof { reveal_strlit("{{"); }
                        let ghost q = self.pos as int;
                        let ghost tr = text_run(self.chars@, q, nodes_view(segments@), buf@);
                        flush(&mut segments, &buf);
                        buf = Vec::new();
                        self.pos += 2;
                        let start = self.pos;
                        let mut expr: Vec<char> = Vec::new();
                        assert(start == q + 2);
                        proof { lemma_interp_end(self.chars@, start as int); }
                        while !self.starts_with("}}")
                            invariant
                                self.wf(),
                                text_run(self.chars@, old(self).pos as int, seq![], seq![]) == tr,
                                tr == match interp_end(self.chars@, start as int) {
                                    Err(e) => Err(e),
                                    Ok(e) => text_run(self.chars@, e + 2, nodes_view(segments@).push(
                                        NodeV::DynText(trim_seq(self.chars@.subrange(start as int, e)))), seq![]),
                                },
                                self.chars == old(self).chars,
                                old(self).pos <= self.pos,
                                start <= self.pos,
                                interp_end(self.chars@, start as int) == interp_end(self.chars@, self.pos as int),
                                expr@ == self.chars@.subrange(start as int, self.pos as int),
                            decreases self.chars@.len() - self.pos,
                        {
                            match self.bump() {
                                Some(ch) => {
                                    expr.push(ch);
                                    assert(expr@ =~= self.chars@.subrange(start as int, self.pos as int));
                                },
                                None => {
                                    assert(interp_end(self.chars@, self.pos as int) is Err);
                                    return Err(String::from_str("unterminated interpolation `{{`"));
                                },
                            }
                        }
                        proof { reveal_strlit("}}"); }
                        self.pos += 2;
                        let ghost before = segments@;
                        let d = Node::DynText(string_of(&trim(&expr)));
                        segments.push(d);
                        proof {
                            lemma_nodes_view_push(before, d);
                            lemma_interp_end(self.chars@, q + 2);
                        }
                    } else {
                        buf.push(c);
                        self.pos += 1;
                    }
                },
            }
        }
    }
}

} // verus!

verus! {

/// The attribute for a raw name and (possibly absent) value.
fn classify(raw: &Vec<char>, value: Option<Vec<char>>) -> (a: Attr)
    ensures
        a@ == classify_attr(raw@, match value { Some(v) => v@, None => seq![] }),
{
    let v = match value {
        Some(v) => v,
        None => Vec::new(),
    };
    if raw.len() > 0 && raw[0] == ':' {
        let name = slice_chars(raw, 1, raw.len());
        assert(name@ =~= raw@.drop_first());
        Attr::Dyn { name: string_of(&name), expr: string_of(&v) }
    } else if raw.len() > 0 && raw[0] == '@' {
        let name = slice_chars(raw, 1, raw.len());
        assert(name@ =~= raw@.drop_first());
        Attr::Event { name: string_of(&name), handler: string_of(&v) }
    } else {
        Attr::Static { name: string_of(raw), value: string_of(&v) }
    }
}

impl Parser {
    fn parse_attr(&mut self) -> (r: Result<Attr, String>)
        requires
            old(self).wf(),
        ensures
            final(self).wf(),
            final(self).chars == old(self).chars,
            old(self).pos <= final(self).pos,
            match (r, parse_attr_spec(old(self).chars@, old(self).pos as int)) {
                (Ok(a), Ok((av, q))) => a@ == av && final(self).pos == q,
                (Err(m), Err(e)) => m@ == e,
                _ => false,
            },
            r is Ok ==> old(self).pos < final(self).pos,
    {
        let start = self.pos;
        let raw_s = self.read_attr_name();
        let raw = chars_of(raw_s.as_str());
        if raw.len() == 0 {
            assert(self.chars@.subrange(start as int, self.pos as int).len() == 0);
            assert(self.pos == start);
            let found = opt_char_debug_exec(self.peek());
            let m = concat(&concat(&chars_of("unexpected character "), &found), &chars_of(" in tag"));
            return Err(string_of(&m));
        }
        let raw_end = self.pos;
        self.skip_ws();
        if self.peek() == Some('=') {
            self.bump();
            self.skip_ws();
            let quote = match self.bump() {
                None => return Err(String::from_str("expected attribute value")),
                Some(q) => q,
            };
            if quote != '"' && quote != '\'' {
                return Err(String::from_str("attribute value must be quoted"));
            }
            let vstart = self.pos;
            let mut v: Vec<char> = Vec::new();
            assert(v@ =~= Seq::<char>::empty());
            while self.pos < self.chars.len() && self.chars[self.pos] != quote
                invariant
                    self.wf(),
                    self.chars == old(self).chars,
                    old(self).pos <= self.pos,
                    vstart <= self.pos,
                    quoted_value(self.chars@, vstart as int, quote, seq![])
                        == quoted_value(self.chars@, self.pos as int, quote, v@),
                decreases self.chars@.len() - self.pos,
            {
                let c = self.chars[self.pos];
                if c == '\\' {
                    self.pos += 1;
                    match self.peek() {
                        Some(n) => {
                            if n == quote {
                                v.push(n);
                            } else {
                                let ghost before = v@;
                                v.push('\\');
                                v.push(n);
                                assert(v@ =~= before + seq!['\\', n]);
                            }
                            self.pos += 1;
                        },
                        None => {
                            v.push('\\');
                        },
                    }
                } else {
                    v.push(c);
                    self.pos += 1;
                }
            }
            match self.expect(quote) {
                Err(m) => return Err(m),
                Ok(()) => {},
            }
            Ok(classify(&raw, Some(v)))
        } else {
            self.pos = raw_end;
            Ok(classify(&raw, None))
        }
    }
}

} // verus!

verus! {

/// A text run from `q` ends within the input, and past `q` when it does not
/// start at a `<`.
pub proof fn lemma_text_run_bounds(s: Seq<char>, q: int, segs: Seq<NodeV>, buf: Seq<char>)
    requires
        0 <= q <= s.len(),
    ensures
        text_run(s, q, segs, buf) matches Ok((_, q2)) ==> q <= q2 <= s.len()
            && (q < s.len() && s[q] != '<' ==> q < q2),
    decreases s.len() - q,
{
    if q < s.len() {
        if s[q] == '<' {
            if occurs_at(s, "<!--"@, q) {
                lemma_comment_end(s, q + 4);
                if let Ok(q2) = comment_end(s, q + 4) {
                    lemma_text_run_bounds(s, q2, segs, buf);
                }
            }
        } else if occurs_at(s, "{{"@, q) {
            lemma_interp_end(s, q + 2);
            if let Ok(e) = interp_end(s, q + 2) {
                lemma_text_run_bounds(s, e + 2, flush_buf(segs, buf).push(NodeV::DynText(trim_seq(s.subrange(q + 2, e)))), seq![]);
            }
        } else {
            lemma_text_run_bounds(s, q + 1, segs, buf.push(s[q]));
        }
    }
}

/// The views of a sequence of attributes.
proof fn lemma_attrs_view_push(a: Seq<Attr>, x: Attr)
    ensures
        attrs_view(a.push(x)) == attrs_view(a).push(x@),
{
    assert(attrs_view(a.push(x)) =~= attrs_view(a).push(x@));
}

impl Parser {
    /// Parse the attributes of the open tag `tag` up to and including its `>`
    /// or `/>`, reporting whether it self-closes.
    fn parse_attrs(&mut self, tag: &Vec<char>) -> (r: Result<(Vec<Attr>, bool), String>)
        requires
            old(self).wf(),
        ensures
            final(self).wf(),
            final(self).chars == old(self).chars,
            old(self).pos <= final(self).pos,
            match (r, attrs_run(old(self).chars@, old(self).pos as int, tag@, seq![])) {
                (Ok((a, sc)), Ok((av, sc2, q))) => attrs_view(a@) == av && sc == sc2 && final(self).pos == q,
                (Err(m), Err(e)) => m@ == e,
                _ => false,
            },
    {
        let mut attrs: Vec<Attr> = Vec::new();
        assert(attrs_view(attrs@) =~= Seq::<AttrV>::empty());
        loop
            invariant
                self.wf(),
                self.chars == old(self).chars,
                old(self).pos <= self.pos,
                attrs_run(self.chars@, old(self).pos as int, tag@, seq![])
                    == attrs_run(self.chars@, self.pos as int, tag@, attrs_view(attrs@)),
            decreases self.chars@.len() - self.pos,
        {
            let ghost q = self.pos as int;
            self.skip_ws();
            match self.peek() {
                Some('/') => {
                    self.bump();
                    match self.expect('>') {
                        Err(m) => return Err(m),
                        Ok(()) => return Ok((attrs, true)),
                    }
                },
                Some('>') => {
                    self.bump();
                    return Ok((attrs, false));
                },
                None => {
                    let m = concat(&concat(&chars_of("unterminated tag <"), tag), &chars_of(">"));
                    return Err(string_of(&m));
                },
                _ => {
                    match self.parse_attr() {
                        Err(m) => return Err(m),
                        Ok(a) => {
                            let ghost before = attrs@;
                            attrs.push(a);
                            proof { lemma_attrs_view_push(before, a); }
                        },
                    }
                },
            }
        }
    }

    fn parse_element(&mut self) -> (r: Result<Element, String>)
        requires
            old(self).wf(),
        ensures
            final(self).wf(),
            final(self).chars == old(self).chars,
            old(self).pos <= final(self).pos,
            match (r, element_at(old(self).chars@, old(self).pos as int)) {
                (Ok(e), Ok((ev, q))) => element_view(e) == ev && final(self).pos == q,
                (Err(m), Err(e)) => m@ == e,
                _ => false,
            },
            r is Ok ==> old(self).pos < final(self).pos,
        decreases old(self).chars@.len() - old(self).pos, 0int,
    {
        match self.expect('<') {
            Err(m) => return Err(m),
            Ok(()) => {},
        }
        let tag_s = self.read_name();
        let tag = chars_of(tag_s.as_str());
        if tag.len() == 0 {
            return Err(String::from_str("expected tag name"));
        }
        let (attrs, self_closing) = match self.parse_attrs(&tag) {
            Err(m) => return Err(m),
            Ok(r) => r,
        };
        if self_closing {
            proof { lemma_nodes_view_index(Seq::<Node>::empty()); }
            let children: Vec<Node> = Vec::new();
            assert(nodes_view(children@) =~= Seq::<NodeV>::empty());
            return Ok(Element { tag: tag_s, attrs, children });
        }
        let children = match self.parse_nodes() {
            Err(m) => return Err(m),
            Ok(c) => c,
        };
        if !self.starts_with("</") {
            let m = concat(&concat(&chars_of("expected closing tag </"), &tag), &chars_of(">"));
            return Err(string_of(&m));
        }
        proof { reveal_strlit("</"); }
        self.pos += 2;
        let close_s = self.read_name();
        let close = chars_of(close_s.as_str());
        self.skip_ws();
        match self.expect('>') {
            Err(m) => return Err(m),
            Ok(()) => {},
        }
        if !chars_eq(&close, &tag) {
            let m = concat(
                &concat(&concat(&concat(&chars_of("mismatched closing tag: <"), &tag), &chars_of("> closed by </")), &close),
                &chars_of(">"),
            );
            return Err(string_of(&m));
        }
        Ok(Element { tag: tag_s, attrs, children })
    }

    fn parse_nodes(&mut self) -> (r: Result<Vec<Node>, String>)
        requires
            old(self).wf(),
        ensures
            final(self).wf(),
            final(self).chars == old(self).chars,
            old(self).pos <= final(self).pos,
            match (r, nodes_run(old(self).chars@, old(self).pos as int, seq![])) {
                (Ok(v), Ok((nv, q))) => nodes_view(v@) == nv && final(self).pos == q,
                (Err(m), Err(e)) => m@ == e,
                _ => false,
            },
        decreases old(self).chars@.len() - old(self).pos, 1int,
    {
        let mut nodes: Vec<Node> = Vec::new();
        proof {
            lemma_nodes_view_index(nodes@);
            assert(nodes_view(nodes@) =~= Seq::<NodeV>::empty());
        }
        loop
            invariant
                self.wf(),
                self.chars == old(self).chars,
                old(self).pos <= self.pos,
                nodes_run(self.chars@, old(self).pos as int, seq![])
                    == nodes_run(self.chars@, self.pos as int, nodes_view(nodes@)),
            decreases self.chars@.len() - self.pos,
        {
            let ghost q = self.pos as int;
            match self.peek() {
                None => return Ok(nodes),
                Some(c) => {
                    if c == '<' && self.starts_with("<!--") {
                        match self.skip_comment() {
                            Err(e) => return Err(e),
                            Ok(()) => {
                                proof { lemma_comment_end(self.chars@, q + 4); }
                            },
                        }
                    } else if c == '<' && self.starts_with("</") {
                        return Ok(nodes);
                    } else if c == '<' {
                        match self.parse_element() {
                            Err(e) => return Err(e),
                            Ok(el) => {
                                let ghost before = nodes@;
                                let n = Node::Element(el);
                                nodes.push(n);
                                proof { lemma_nodes_view_push(before, n); }
                            },
                        }
                    } else {
                        proof { lemma_text_run_bounds(self.chars@, q, seq![], seq![]); }
                        match self.parse_text() {
                            Err(e) => return Err(e),
                            Ok(segs) => {
                                let ghost before = nodes@;
                                let ghost added = segs@;
                                let mut segs = segs;
                                nodes.append(&mut segs);
                                proof { lemma_nodes_view_add(before, added); }
                            },
                        }
                    }
                },
            }
        }
    }
}

/// Parse a template into its top-level nodes.
pub fn parse(input: &str) -> (r: Result<Vec<Node>, String>)
    ensures
        match (r, spec_parse(input@)) {
            (Ok(v), Ok(nv)) => nodes_view(v@) == nv,
            (Err(m), Err(e)) => m@ == e,
            _ => false,
        },
{
    let chars = chars_of(input);
    let n = chars.len();
    let mut parser = Parser { chars, pos: 0 };
    let nodes = match parser.parse_nodes() {
        Err(e) => return Err(e),
        Ok(v) => v,
    };
    if parser.pos != n {
        return Err(String::from_str("unexpected trailing input"));
    }
    Ok(nodes)
}

} // verus!
