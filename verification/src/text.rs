//! Character-level string utilities shared by the compiler and DOM layers.
use vstd::prelude::*;

verus! {

/// `char::is_whitespace`: the Unicode `White_Space` property.
pub open spec fn is_ws(c: char) -> bool {
    ||| c == ' '
    ||| ('\t' <= c && c <= '\r')
    ||| c == '\u{85}'
    ||| c == '\u{a0}'
    ||| c == '\u{1680}'
    ||| ('\u{2000}' <= c && c <= '\u{200a}')
    ||| c == '\u{2028}'
    ||| c == '\u{2029}'
    ||| c == '\u{202f}'
    ||| c == '\u{205f}'
    ||| c == '\u{3000}'
}

/// Executable `char::is_whitespace`.
pub fn is_whitespace(c: char) -> (b: bool)
    ensures
        b == is_ws(c),
{
    c == ' ' || ('\t' <= c && c <= '\r') || c == '\u{85}' || c == '\u{a0}' || c == '\u{1680}'
        || ('\u{2000}' <= c && c <= '\u{200a}') || c == '\u{2028}' || c == '\u{2029}'
        || c == '\u{202f}' || c == '\u{205f}' || c == '\u{3000}'
}

/// The characters of a string slice, in order.
pub fn chars_of(s: &str) -> (v: Vec<char>)
    ensures
        v@ == s@,
{
    let mut v: Vec<char> = Vec::new();
    for c in it: s.chars()
        invariant
            v@ == it.seq().take(it.index() as int),
    {
        v.push(c);
    }
    v
}

/// Appends one character to a `String` (`String::push`).
#[verifier::external_body]
fn push_char(s: &mut String, c: char)
    ensures
        final(s)@ == old(s)@.push(c),
{
    s.push(c);
}

/// A `String` holding exactly the given characters.
pub fn string_of(v: &[char]) -> (s: String)
    ensures
        s@ == v@,
{
    let mut s = String::new();
    let mut i: usize = 0;
    while i < v.len()
        invariant
            i <= v@.len(),
            s@ == v@.take(i as int),
        decreases v@.len() - i,
    {
        push_char(&mut s, v[i]);
        i += 1;
        assert(v@.take(i as int) == v@.take(i - 1 as int).push(v@[i - 1 as int]));
    }
    assert(v@.take(v@.len() as int) == v@);
    s
}

} // verus!

verus! {

/// `s` with its leading whitespace removed (`str::trim_start`).
pub open spec fn trim_start_seq(s: Seq<char>) -> Seq<char>
    decreases s.len(),
{
    if s.len() > 0 && is_ws(s[0]) {
        trim_start_seq(s.drop_first())
    } else {
        s
    }
}

/// `s` with its trailing whitespace removed (`str::trim_end`).
pub open spec fn trim_end_seq(s: Seq<char>) -> Seq<char>
    decreases s.len(),
{
    if s.len() > 0 && is_ws(s.last()) {
        trim_end_seq(s.drop_last())
    } else {
        s
    }
}

/// `s` with whitespace removed from both ends (`str::trim`).
pub open spec fn trim_seq(s: Seq<char>) -> Seq<char> {
    trim_end_seq(trim_start_seq(s))
}

/// Every character of `s` is whitespace.
pub open spec fn all_ws(s: Seq<char>) -> bool {
    forall|i: int| 0 <= i < s.len() ==> is_ws(#[trigger] s[i])
}

/// Leading whitespace ends at `i`: `trim_start_seq(s)` is the suffix from `i`.
pub proof fn lemma_trim_start_at(s: Seq<char>, i: int)
    requires
        0 <= i <= s.len(),
        all_ws(s.take(i)),
        i == s.len() || !is_ws(s[i]),
    ensures
        trim_start_seq(s) == s.skip(i),
    decreases i,
{
    if i == 0 {
        assert(s.skip(0) =~= s);
    } else {
        assert(is_ws(s.take(i)[0]));
        let t = s.drop_first();
        assert(t.take(i - 1) =~= s.take(i).drop_first());
        assert forall|k: int| 0 <= k < t.take(i - 1).len() implies is_ws(#[trigger] t.take(i - 1)[k]) by {
            assert(t.take(i - 1)[k] == s.take(i)[k + 1]);
        }
        lemma_trim_start_at(t, i - 1);
        assert(t.skip(i - 1) =~= s.skip(i));
    }
}

/// Trailing whitespace starts at `j`: `trim_end_seq(s)` is the prefix up to `j`.
pub proof fn lemma_trim_end_at(s: Seq<char>, j: int)
    requires
        0 <= j <= s.len(),
        all_ws(s.skip(j)),
        j == 0 || !is_ws(s[j - 1]),
    ensures
        trim_end_seq(s) == s.take(j),
    decreases s.len() - j,
{
    if j == s.len() {
        assert(s.take(j) =~= s);
    } else {
        assert(is_ws(s.skip(j)[s.len() - j - 1]));
        let t = s.drop_last();
        assert forall|k: int| 0 <= k < t.skip(j).len() implies is_ws(#[trigger] t.skip(j)[k]) by {
            assert(t.skip(j)[k] == s.skip(j)[k]);
        }
        lemma_trim_end_at(t, j);
        assert(t.take(j) =~= s.take(j));
    }
}

/// A copy of `v[lo..hi]`.
pub fn slice_chars(v: &[char], lo: usize, hi: usize) -> (r: Vec<char>)
    requires
        lo <= hi <= v@.len(),
    ensures
        r@ == v@.subrange(lo as int, hi as int),
{
    let mut r: Vec<char> = Vec::new();
    let mut i = lo;
    while i < hi
        invariant
            lo <= i <= hi <= v@.len(),
            r@ == v@.subrange(lo as int, i as int),
        decreases hi - i,
    {
        r.push(v[i]);
        i += 1;
        assert(r@ =~= v@.subrange(lo as int, i as int));
    }
    r
}

/// The index of the first non-whitespace character at or after `lo`
/// (or `v.len()` when there is none).
fn skip_ws_from(v: &[char], lo: usize) -> (i: usize)
    requires
        lo <= v@.len(),
    ensures
        lo <= i <= v@.len(),
        forall|k: int| lo <= k < i ==> is_ws(#[trigger] v@[k]),
        i == v@.len() || !is_ws(v@[i as int]),
{
    let mut i = lo;
    while i < v.len() && is_whitespace(v[i])
        invariant
            lo <= i <= v@.len(),
            forall|k: int| lo <= k < i ==> is_ws(#[trigger] v@[k]),
        decreases v@.len() - i,
    {
        i += 1;
    }
    i
}

/// `v` with leading whitespace removed.
pub fn trim_start(v: &[char]) -> (r: Vec<char>)
    ensures
        r@ == trim_start_seq(v@),
{
    let i = skip_ws_from(v, 0);
    proof {
        assert forall|k: int| 0 <= k < v@.take(i as int).len() implies is_ws(#[trigger] v@.take(i as int)[k]) by {
            assert(v@.take(i as int)[k] == v@[k]);
        }
        lemma_trim_start_at(v@, i as int);
        assert(v@.skip(i as int) =~= v@.subrange(i as int, v@.len() as int));
    }
    slice_chars(v, i, v.len())
}

/// `v` with trailing whitespace removed.
pub fn trim_end(v: &[char]) -> (r: Vec<char>)
    ensures
        r@ == trim_end_seq(v@),
{
    let mut j = v.len();
    while j > 0 && is_whitespace(v[j - 1])
        invariant
            j <= v@.len(),
            forall|k: int| j <= k < v@.len() ==> is_ws(#[trigger] v@[k]),
        decreases j,
    {
        j -= 1;
    }
    proof {
        assert forall|k: int| 0 <= k < v@.skip(j as int).len() implies is_ws(#[trigger] v@.skip(j as int)[k]) by {
            assert(v@.skip(j as int)[k] == v@[j + k]);
        }
        lemma_trim_end_at(v@, j as int);
        assert(v@.take(j as int) =~= v@.subrange(0, j as int));
    }
    slice_chars(v, 0, j)
}

/// `v` with whitespace removed from both ends.
pub fn trim(v: &[char]) -> (r: Vec<char>)
    ensures
        r@ == trim_seq(v@),
{
    let s = trim_start(v);
    trim_end(&s)
}

/// `needle` occurs in `hay` starting at index `i`.
pub open spec fn occurs_at(hay: Seq<char>, needle: Seq<char>, i: int) -> bool {
    0 <= i && i + needle.len() <= hay.len() && hay.subrange(i, i + needle.len()) == needle
}

/// The first index at or after `from` where `needle` occurs in `hay`.
pub open spec fn find_from(hay: Seq<char>, needle: Seq<char>, from: int) -> Option<int>
    decreases hay.len() + 1 - from,
{
    if from < 0 || from + needle.len() > hay.len() {
        None
    } else if occurs_at(hay, needle, from) {
        Some(from)
    } else {
        find_from(hay, needle, from + 1)
    }
}

/// `find_from` is the least match at or after `from`.
pub proof fn lemma_find_from(hay: Seq<char>, needle: Seq<char>, from: int)
    requires
        0 <= from,
    ensures
        find_from(hay, needle, from) matches Some(i) ==> from <= i && occurs_at(hay, needle, i)
            && forall|k: int| from <= k < i ==> !occurs_at(hay, needle, k),
        find_from(hay, needle, from) is None ==> forall|k: int| from <= k ==> !occurs_at(hay, needle, k),
    decreases hay.len() + 1 - from,
{
    if from + needle.len() > hay.len() {
    } else if occurs_at(hay, needle, from) {
    } else {
        lemma_find_from(hay, needle, from + 1);
    }
}

/// Whether `needle` occurs in `hay` at index `i`.
pub fn matches_at(hay: &[char], needle: &[char], i: usize) -> (b: bool)
    ensures
        b == occurs_at(hay@, needle@, i as int),
{
    if i > hay.len() || needle.len() > hay.len() - i {
        return false;
    }
    let mut k: usize = 0;
    while k < needle.len()
        invariant
            i + needle.len() <= hay.len(),
            k <= needle@.len(),
            forall|j: int| 0 <= j < k ==> hay@[i + j] == needle@[j],
        decreases needle@.len() - k,
    {
        assert(i + k < hay@.len());
        if hay[i + k] != needle[k] {
            assert(hay@.subrange(i as int, i + needle@.len())[k as int] != needle@[k as int]);
            return false;
        }
        k += 1;
    }
    assert(hay@.subrange(i as int, i + needle@.len()) =~= needle@);
    true
}

/// The first index at or after `from` where `needle` occurs in `hay`.
pub fn find(hay: &[char], needle: &[char], from: usize) -> (r: Option<usize>)
    ensures
        r matches Some(i) ==> find_from(hay@, needle@, from as int) == Some(i as int),
        r is None ==> find_from(hay@, needle@, from as int) is None,
{
    let mut i = from;
    proof { lemma_find_from(hay@, needle@, from as int); }
    while i <= hay.len() && needle.len() <= hay.len() - i
        invariant
            from <= i,
            find_from(hay@, needle@, from as int) == find_from(hay@, needle@, i as int),
        decreases hay@.len() + 1 - i,
    {
        if matches_at(hay, needle, i) {
            return Some(i);
        }
        if i == hay.len() {
            assert(find_from(hay@, needle@, i + 1) is None);
            return None;
        }
        i += 1;
    }
    None
}

} // verus!

verus! {

/// `char::is_ascii_alphanumeric`.
pub open spec fn is_ascii_alnum(c: char) -> bool {
    ('0' <= c && c <= '9') || ('a' <= c && c <= 'z') || ('A' <= c && c <= 'Z')
}

/// Executable `char::is_ascii_alphanumeric`.
pub fn is_ascii_alphanumeric(c: char) -> (b: bool)
    ensures
        b == is_ascii_alnum(c),
{
    ('0' <= c && c <= '9') || ('a' <= c && c <= 'z') || ('A' <= c && c <= 'Z')
}

/// `char::is_ascii_uppercase`.
pub open spec fn is_ascii_upper(c: char) -> bool {
    'A' <= c && c <= 'Z'
}

/// The concatenation of two character vectors.
pub fn concat(a: &[char], b: &[char]) -> (r: Vec<char>)
    ensures
        r@ == a@ + b@,
{
    let mut r = slice_chars(a, 0, a.len());
    let mut i: usize = 0;
    while i < b.len()
        invariant
            i <= b@.len(),
            r@ == a@ + b@.take(i as int),
        decreases b@.len() - i,
    {
        r.push(b[i]);
        i += 1;
        assert(r@ =~= a@ + b@.take(i as int));
    }
    assert(b@.take(b@.len() as int) =~= b@);
    r
}

/// Two character slices are equal.
pub fn chars_eq(a: &[char], b: &[char]) -> (r: bool)
    ensures
        r == (a@ == b@),
{
    if a.len() != b.len() {
        return false;
    }
    let r = matches_at(a, b, 0);
    assert(a@.subrange(0, b@.len() as int) =~= a@);
    r
}

} // verus!

verus! {

/// The views of a vector of character vectors.
pub open spec fn views(v: Seq<Vec<char>>) -> Seq<Seq<char>> {
    v.map_values(|x: Vec<char>| x@)
}

/// `str::split(d)`: the pieces of `s` between occurrences of `d` (always at least one).
pub open spec fn split_seq(s: Seq<char>, d: char) -> Seq<Seq<char>>
    decreases s.len(),
{
    match find_from(s, seq![d], 0) {
        None => seq![s],
        Some(i) => {
            proof { lemma_find_from(s, seq![d], 0); }
            seq![s.take(i)] + split_seq(s.skip(i + 1), d)
        },
    }
}

/// Splitting always yields at least one piece.
pub proof fn lemma_split_nonempty(s: Seq<char>, d: char)
    ensures
        split_seq(s, d).len() >= 1,
{
}

/// The pieces of `parts` joined with `sep` between consecutive pieces.
pub open spec fn join_seq(parts: Seq<Seq<char>>, sep: Seq<char>) -> Seq<char>
    decreases parts.len(),
{
    if parts.len() == 0 {
        seq![]
    } else if parts.len() == 1 {
        parts[0]
    } else {
        parts[0] + sep + join_seq(parts.drop_first(), sep)
    }
}

/// `str::split(d)` on a character slice.
pub fn split_chars(s: &[char], d: char) -> (r: Vec<Vec<char>>)
    ensures
        views(r@) == split_seq(s@, d),
{
    let ds = [d];
    assert(ds@ =~= seq![d]);
    let mut r: Vec<Vec<char>> = Vec::new();
    let mut start: usize = 0;
    assert(s@.skip(0) =~= s@);
    assert(views(r@) =~= Seq::<Seq<char>>::empty());
    loop
        invariant
            start <= s@.len(),
            ds@ == seq![d],
            split_seq(s@, d) == views(r@) + split_seq(s@.skip(start as int), d),
        decreases s@.len() - start,
    {
        let rest = slice_chars(s, start, s.len());
        assert(rest@ =~= s@.skip(start as int));
        match find(&rest, &ds, 0) {
            None => {
                assert(split_seq(rest@, d) == seq![rest@]);
                let ghost before = views(r@);
                r.push(rest);
                assert(views(r@) =~= before + seq![rest@]);
                return r;
            },
            Some(i) => {
                proof { lemma_find_from(rest@, ds@, 0); }
                let piece = slice_chars(&rest, 0, i);
                assert(piece@ =~= rest@.take(i as int));
                assert(rest@.skip(i + 1) =~= s@.skip(start + i + 1));
                let ghost before = views(r@);
                r.push(piece);
                assert(views(r@) =~= before + seq![piece@]);
                assert(split_seq(rest@, d) == seq![rest@.take(i as int)] + split_seq(rest@.skip(i + 1), d));
                start = start + i + 1;
            },
        }
    }
}

/// Join character vectors with `sep` between consecutive pieces.
pub fn join_chars(parts: &Vec<Vec<char>>, sep: &[char]) -> (r: Vec<char>)
    ensures
        r@ == join_seq(views(parts@), sep@),
    decreases parts@.len(),
{
    let n = parts.len();
    if n == 0 {
        return Vec::new();
    }
    let mut r: Vec<char> = slice_chars(&parts[n - 1], 0, parts[n - 1].len());
    let mut i = n - 1;
    proof {
        assert(views(parts@).skip(i as int) =~= seq![parts@[i as int]@]);
    }
    while i > 0
        invariant
            0 <= i < n == parts@.len(),
            r@ == join_seq(views(parts@).skip(i as int), sep@),
        decreases i,
    {
        let ghost tail = views(parts@).skip(i as int);
        i -= 1;
        let with_sep = concat(&parts[i], sep);
        r = concat(&with_sep, &r);
        proof {
            let t = views(parts@).skip(i as int);
            assert(t.drop_first() =~= tail);
            assert(t[0] == parts@[i as int]@);
            assert(tail.len() >= 1);
        }
    }
    assert(views(parts@).skip(0) =~= views(parts@));
    r
}

} // verus!

verus! {

/// A string argument that may be given as `&str`, `&String` or `String`.
pub trait TextArg {
    /// The characters of the argument.
    spec fn text(&self) -> Seq<char>;

    /// The argument as a string slice.
    fn as_text(&self) -> (s: &str)
        ensures
            s@ == self.text(),
    ;
}

impl<'a> TextArg for &'a str {
    open spec fn text(&self) -> Seq<char> {
        (*self)@
    }

    fn as_text(&self) -> (s: &str) {
        *self
    }
}

impl TextArg for String {
    open spec fn text(&self) -> Seq<char> {
        self@
    }

    fn as_text(&self) -> (s: &str) {
        self.as_str()
    }
}

impl<'a> TextArg for &'a String {
    open spec fn text(&self) -> Seq<char> {
        (*self)@
    }

    fn as_text(&self) -> (s: &str) {
        (*self).as_str()
    }
}

} // verus!

verus! {

/// `acc` after appending `frag`: an empty fragment is skipped, others are
/// separated from a non-empty `acc` by `sep`.
pub open spec fn push_sep(acc: Seq<char>, frag: Seq<char>, sep: Seq<char>) -> Seq<char> {
    if frag.len() == 0 {
        acc
    } else if acc.len() == 0 {
        frag
    } else {
        acc + sep + frag
    }
}

/// `acc` after pushing each fragment in turn.
pub open spec fn push_sep_all(acc: Seq<char>, frags: Seq<Seq<char>>, sep: Seq<char>) -> Seq<char>
    decreases frags.len(),
{
    if frags.len() == 0 {
        acc
    } else {
        push_sep_all(push_sep(acc, frags[0], sep), frags.drop_first(), sep)
    }
}

/// The non-empty fragments of `frags`, in order.
pub open spec fn non_empty(frags: Seq<Seq<char>>) -> Seq<Seq<char>> {
    frags.filter(|f: Seq<char>| f.len() > 0)
}

pub proof fn lemma_join_push(parts: Seq<Seq<char>>, sep: Seq<char>, x: Seq<char>)
    requires
        parts.len() > 0,
    ensures
        join_seq(parts.push(x), sep) == join_seq(parts, sep) + sep + x,
    decreases parts.len(),
{
    assert(parts.push(x).len() > 1);
    assert(join_seq(parts.push(x), sep) == parts.push(x)[0] + sep + join_seq(parts.push(x).drop_first(), sep));
    if parts.len() == 1 {
        assert(join_seq(seq![x], sep) == x);
        assert(parts.push(x).drop_first() =~= seq![x]);
        assert(parts.push(x)[0] == parts[0]);
    } else {
        lemma_join_push(parts.drop_first(), sep, x);
        assert(parts.push(x).drop_first() =~= parts.drop_first().push(x));
        let j = join_seq(parts.drop_first(), sep);
        assert(parts.push(x)[0] == parts[0]);
        assert(parts[0] + sep + (j + sep + x) =~= parts[0] + sep + j + sep + x);
    }
}

/// Every fragment is non-empty.
pub open spec fn all_non_empty(parts: Seq<Seq<char>>) -> bool {
    forall|i: int| 0 <= i < parts.len() ==> (#[trigger] parts[i]).len() > 0
}

proof fn lemma_join_empty(parts: Seq<Seq<char>>, sep: Seq<char>)
    requires
        all_non_empty(parts),
    ensures
        join_seq(parts, sep).len() == 0 <==> parts.len() == 0,
{
    if parts.len() > 1 {
        assert(parts[0].len() > 0);
    } else if parts.len() == 1 {
        assert(parts[0].len() > 0);
    }
}

/// Pushing onto the join of non-empty fragments `parts` joins the new
/// fragment as well, when it is non-empty.
proof fn lemma_push_join(parts: Seq<Seq<char>>, frags: Seq<Seq<char>>, sep: Seq<char>)
    requires
        all_non_empty(parts),
    ensures
        push_sep_all(join_seq(parts, sep), frags, sep) == join_seq(parts + non_empty(frags), sep),
    decreases frags.len(),
{
    let p = |f: Seq<char>| f.len() > 0;
    if frags.len() == 0 {
        assert(non_empty(frags) =~= Seq::<Seq<char>>::empty());
        assert(parts + non_empty(frags) =~= parts);
    } else {
        let f = frags[0];
        let rest = frags.drop_first();
        assert(frags =~= seq![f] + rest);
        rest.lemma_filter_prepend(f, p);
        let next = if f.len() > 0 { parts.push(f) } else { parts };
        lemma_join_empty(parts, sep);
        if f.len() > 0 {
            if parts.len() == 0 {
                assert(parts.push(f) =~= seq![f]);
            } else {
                lemma_join_push(parts, sep, f);
            }
        }
        assert(push_sep(join_seq(parts, sep), f, sep) == join_seq(next, sep));
        assert(all_non_empty(next));
        lemma_push_join(next, rest, sep);
        assert(parts + non_empty(frags) =~= next + non_empty(rest));
    }
}

/// Pushing fragments one by one onto an empty accumulator yields the
/// non-empty fragments joined by `sep`.
pub proof fn lemma_push_sep_all(frags: Seq<Seq<char>>, sep: Seq<char>)
    ensures
        push_sep_all(Seq::empty(), frags, sep) == join_seq(non_empty(frags), sep),
{
    let empty = Seq::<Seq<char>>::empty();
    assert(join_seq(empty, sep) =~= Seq::<char>::empty());
    lemma_push_join(empty, frags, sep);
    assert(empty + non_empty(frags) =~= non_empty(frags));
}


} // verus!

verus! {

/// Filtering a prefix one element longer adds that element when it passes.
pub proof fn lemma_filter_take_step<A>(s: Seq<A>, i: int, p: spec_fn(A) -> bool)
    requires
        0 <= i < s.len(),
    ensures
        s.take(i + 1).filter(p) == if p(s[i]) { s.take(i).filter(p).push(s[i]) } else { s.take(i).filter(p) },
{
    assert(s.take(i + 1) =~= s.take(i).push(s[i]));
    s.take(i).lemma_filter_push(s[i], p);
}

} // verus!

verus! {

/// Two string slices hold the same characters.
pub fn str_eq(a: &str, b: &str) -> (r: bool)
    ensures
        r == (a@ == b@),
{
    chars_eq(&chars_of(a), &chars_of(b))
}

/// `s` begins with `p` (`str::starts_with`).
pub open spec fn starts_with(s: Seq<char>, p: Seq<char>) -> bool {
    p.len() <= s.len() && s.take(p.len() as int) == p
}

/// Executable `str::starts_with`.
pub fn str_starts_with(s: &str, p: &str) -> (r: bool)
    ensures
        r == starts_with(s@, p@),
{
    let sv = chars_of(s);
    let pv = chars_of(p);
    let r = matches_at(&sv, &pv, 0);
    proof {
        if pv@.len() <= sv@.len() {
            assert(sv@.subrange(0, pv@.len() as int) =~= sv@.take(pv@.len() as int));
        }
    }
    r
}

/// `a` followed by `b`, as a new `String`.
pub fn cat(a: &str, b: &str) -> (r: String)
    ensures
        r@ == a@ + b@,
{
    let mut r = String::from_str(a);
    r.append(b);
    r
}

/// `a`, `b` and `c` in turn, as a new `String`.
pub fn cat3(a: &str, b: &str, c: &str) -> (r: String)
    ensures
        r@ == a@ + b@ + c@,
{
    let mut r = String::from_str(a);
    r.append(b);
    r.append(c);
    r
}

/// The views of a sequence of strings.
pub open spec fn string_views(v: Seq<String>) -> Seq<Seq<char>> {
    v.map_values(|x: String| x@)
}

/// The strings of `parts` joined with `sep` between consecutive ones.
pub fn join_strings(parts: &Vec<String>, sep: &str) -> (r: String)
    ensures
        r@ == join_seq(string_views(parts@), sep@),
{
    let mut r = String::new();
    let mut i: usize = 0;
    while i < parts.len()
        invariant
            i <= parts@.len(),
            r@ == join_seq(string_views(parts@.take(i as int)), sep@),
        decreases parts@.len() - i,
    {
        proof {
            assert(parts@.take(i + 1) =~= parts@.take(i as int).push(parts@[i as int]));
            assert(string_views(parts@.take(i + 1)) =~= string_views(parts@.take(i as int)).push(parts@[i as int]@));
        }
        if i > 0 {
            r.append(sep);
            proof { lemma_join_push(string_views(parts@.take(i as int)), sep@, parts@[i as int]@); }
        } else {
            assert(string_views(parts@.take(1)) =~= seq![parts@[0]@]);
        }
        r.append(parts[i].as_str());
        i += 1;
    }
    assert(parts@.take(parts@.len() as int) =~= parts@);
    r
}

} // verus!
