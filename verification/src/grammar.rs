//! The grammar recognizer: classifies one trimmed line of an event-model
//! document as a node declaration, a link declaration, or unrecognized text.
//!
//! The grammar, applied to each non-blank line after trimming surrounding
//! whitespace, with keywords matched case-insensitively:
//!
//! - node line: `<kind>(<id>)? : "<label>"` with `<kind>` one of `command`,
//!   `aggregate`, `event`, `policy`; the closing parenthesis is optional and
//!   the id may be empty; the label is everything between the first quote and
//!   the final quote of the line.
//! - link line: `link : <start_id> -> <end_id>`, identifiers made of ASCII
//!   letters and digits.
//!
//! Whitespace here is the ASCII kind: space, tab, carriage return, line feed,
//! vertical tab and form feed.

use vstd::prelude::*;

use crate::data_model::NodeType;

verus! {

/// ASCII whitespace.
pub open spec fn is_space(c: char) -> bool {
    c == ' ' || c == '\t' || c == '\n' || c == '\r' || c == '\u{b}' || c == '\u{c}'
}

/// An identifier character: an ASCII letter or digit.
pub open spec fn is_id_char(c: char) -> bool {
    let u = c as u32;
    (('a' as u32) <= u && u <= ('z' as u32)) || (('A' as u32) <= u && u <= ('Z' as u32)) || (('0'
        as u32) <= u && u <= ('9' as u32))
}

/// ASCII lowercasing; other characters are left alone.
pub open spec fn lower(c: char) -> char {
    let u = c as u32;
    if ('A' as u32) <= u && u <= ('Z' as u32) {
        (u + 32) as char
    } else {
        c
    }
}

/// The first index at or after `i` whose character is not whitespace
/// (`s.len()` if all of the rest is).
pub open spec fn skip_spaces(s: Seq<char>, i: int) -> int
    decreases s.len() - i,
    when 0 <= i <= s.len()
{
    if i < s.len() && is_space(s[i]) {
        skip_spaces(s, i + 1)
    } else {
        i
    }
}

/// The first index at or after `i` whose character is not an identifier
/// character (`s.len()` if all of the rest are).
pub open spec fn skip_id(s: Seq<char>, i: int) -> int
    decreases s.len() - i,
    when 0 <= i <= s.len()
{
    if i < s.len() && is_id_char(s[i]) {
        skip_id(s, i + 1)
    } else {
        i
    }
}

/// `s` without trailing whitespace.
pub open spec fn trim_end(s: Seq<char>) -> Seq<char>
    decreases s.len(),
{
    if s.len() > 0 && is_space(s[s.len() - 1]) {
        trim_end(s.drop_last())
    } else {
        s
    }
}

/// `s` without leading and trailing whitespace.
pub open spec fn trim(s: Seq<char>) -> Seq<char> {
    trim_end(s.subrange(skip_spaces(s, 0), s.len() as int))
}

/// `trim_end` keeps exactly the prefix that ends at the last non-space
/// character.
proof fn lemma_trim_end_prefix(s: Seq<char>, m: int)
    requires
        0 <= m <= s.len(),
        forall|k: int| m <= k < s.len() ==> is_space(#[trigger] s[k]),
        m == 0 || !is_space(s[m - 1]),
    ensures
        trim_end(s) == s.subrange(0, m),
    decreases s.len(),
{
    if s.len() > m {
        assert(is_space(s[s.len() - 1]));
        assert(s.drop_last() == s.subrange(0, s.len() - 1));
        lemma_trim_end_prefix(s.drop_last(), m);
        assert(s.drop_last().subrange(0, m) =~= s.subrange(0, m));
    } else {
        assert(trim_end(s) == s);
        assert(s.subrange(0, m) =~= s);
    }
}

/// The keyword that declares a node of kind `kind`.
pub open spec fn keyword(kind: NodeType) -> Seq<char> {
    match kind {
        NodeType::Command => seq!['c', 'o', 'm', 'm', 'a', 'n', 'd'],
        NodeType::Aggregate => seq!['a', 'g', 'g', 'r', 'e', 'g', 'a', 't', 'e'],
        NodeType::Event => seq!['e', 'v', 'e', 'n', 't'],
        NodeType::Policy => seq!['p', 'o', 'l', 'i', 'c', 'y'],
    }
}

/// The keyword that declares a link.
pub open spec fn link_keyword() -> Seq<char> {
    seq!['l', 'i', 'n', 'k']
}

/// Whether `s` starts with `kw`, compared case-insensitively (`kw` is given
/// in lowercase).
pub open spec fn has_ci_prefix(s: Seq<char>, kw: Seq<char>) -> bool {
    kw.len() <= s.len() && forall|i: int| 0 <= i < kw.len() ==> lower(#[trigger] s[i]) == kw[i]
}

/// The node kind whose keyword starts the line, if any.
pub open spec fn node_prefix(s: Seq<char>) -> Option<NodeType> {
    if has_ci_prefix(s, keyword(NodeType::Command)) {
        Some(NodeType::Command)
    } else if has_ci_prefix(s, keyword(NodeType::Aggregate)) {
        Some(NodeType::Aggregate)
    } else if has_ci_prefix(s, keyword(NodeType::Event)) {
        Some(NodeType::Event)
    } else if has_ci_prefix(s, keyword(NodeType::Policy)) {
        Some(NodeType::Policy)
    } else {
        None
    }
}

/// What follows a node keyword: `(<id>)? : "<label>"` — an opening
/// parenthesis, an optionally closed, possibly empty id, a colon, and a
/// quoted label reaching to the line's final character.  Returns the id and
/// the label, or `None` if the line does not fit.
pub open spec fn parse_node_body(t: Seq<char>, j0: int) -> Option<(Seq<char>, Seq<char>)>
    recommends
        0 <= j0 <= t.len(),
{
    let i1 = skip_spaces(t, j0);
    if !(i1 < t.len() && t[i1] == '(') {
        None
    } else {
        let i2 = skip_id(t, i1 + 1);
        let id = t.subrange(i1 + 1, i2);
        let i3: int = if i2 < t.len() && t[i2] == ')' {
            i2 + 1
        } else {
            i2
        };
        let i4 = skip_spaces(t, i3);
        if !(i4 < t.len() && t[i4] == ':') {
            None
        } else {
            let i5 = skip_spaces(t, i4 + 1);
            if !(i5 + 1 < t.len() && t[i5] == '"' && t[t.len() - 1] == '"') {
                None
            } else {
                Some((id, t.subrange(i5 + 1, t.len() - 1)))
            }
        }
    }
}

/// What follows the `link` keyword: `: <start_id> -> <end_id>`, reaching the
/// end of the line.  Returns the two ids, or `None` if the line does not fit.
pub open spec fn parse_link_body(t: Seq<char>) -> Option<(Seq<char>, Seq<char>)>
    recommends
        4 <= t.len(),
{
    let i1 = skip_spaces(t, 4);
    if !(i1 < t.len() && t[i1] == ':') {
        None
    } else {
        let i2 = skip_spaces(t, i1 + 1);
        let i3 = skip_id(t, i2);
        let start_id = t.subrange(i2, i3);
        let i4 = skip_spaces(t, i3);
        if !(i4 + 1 < t.len() && t[i4] == '-' && t[i4 + 1] == '>') {
            None
        } else {
            let i5 = skip_spaces(t, i4 + 2);
            let i6 = skip_id(t, i5);
            if i6 == t.len() {
                Some((start_id, t.subrange(i5, i6)))
            } else {
                None
            }
        }
    }
}

/// What one line of the document means.
pub enum Line {
    /// Nothing but whitespace.
    Blank,
    /// A full node declaration.
    NodeDecl { kind: NodeType, id: Seq<char>, label: Seq<char> },
    /// A full link declaration.
    LinkDecl { start_id: Seq<char>, end_id: Seq<char> },
    /// Starts with a node keyword but does not fit that construct's grammar.
    MalformedNode { kind: NodeType },
    /// Starts with the link keyword but does not fit the link grammar.
    MalformedLink,
    /// Starts with no recognized keyword.
    Unrecognized,
}

/// Classify one raw line (trimming is part of classification).
pub open spec fn classify(line: Seq<char>) -> Line {
    let t = trim(line);
    if t.len() == 0 {
        Line::Blank
    } else {
        match node_prefix(t) {
            Some(kind) => match parse_node_body(t, keyword(kind).len() as int) {
                Some(p) => Line::NodeDecl { kind, id: p.0, label: p.1 },
                None => Line::MalformedNode { kind },
            },
            None => if has_ci_prefix(t, link_keyword()) {
                match parse_link_body(t) {
                    Some(p) => Line::LinkDecl { start_id: p.0, end_id: p.1 },
                    None => Line::MalformedLink,
                }
            } else {
                Line::Unrecognized
            },
        }
    }
}

/// Whether `c` is ASCII whitespace.
pub(crate) fn is_space_exec(c: char) -> (r: bool)
    ensures
        r == is_space(c),
{
    c == ' ' || c == '\t' || c == '\n' || c == '\r' || c == '\u{b}' || c == '\u{c}'
}

/// Whether `c` is an ASCII letter or digit.
pub(crate) fn is_id_char_exec(c: char) -> (r: bool)
    ensures
        r == is_id_char(c),
{
    let u = c as u32;
    (97 <= u && u <= 122) || (65 <= u && u <= 90) || (48 <= u && u <= 57)
}

/// ASCII-lowercase `c`.
pub(crate) fn lower_char(c: char) -> (r: char)
    ensures
        r == lower(c),
{
    let u = c as u32;
    if 65 <= u && u <= 90 {
        let b = (u as u8) + 32;
        b as char
    } else {
        c
    }
}

/// First non-whitespace index of `t` at or after `from`.
pub(crate) fn skip_spaces_exec(t: &Vec<char>, from: usize) -> (r: usize)
    requires
        from <= t@.len(),
    ensures
        from <= r <= t@.len(),
        r == skip_spaces(t@, from as int),
{
    let mut i: usize = from;
    while i < t.len() && is_space_exec(t[i])
        invariant
            from <= i <= t@.len(),
            skip_spaces(t@, from as int) == skip_spaces(t@, i as int),
        decreases t@.len() - i,
    {
        i = i + 1;
    }
    i
}

/// First non-identifier index of `t` at or after `from`.
pub(crate) fn skip_id_exec(t: &Vec<char>, from: usize) -> (r: usize)
    requires
        from <= t@.len(),
    ensures
        from <= r <= t@.len(),
        r == skip_id(t@, from as int),
{
    let mut i: usize = from;
    while i < t.len() && is_id_char_exec(t[i])
        invariant
            from <= i <= t@.len(),
            skip_id(t@, from as int) == skip_id(t@, i as int),
        decreases t@.len() - i,
    {
        i = i + 1;
    }
    i
}

/// The window `[a, b)` of `chars` that holds the trimmed content of the
/// window `[lo, hi)`.
pub(crate) fn trim_bounds(chars: &Vec<char>, lo: usize, hi: usize) -> (r: (usize, usize))
    requires
        lo <= hi <= chars@.len(),
    ensures
        lo <= r.0 <= r.1 <= hi,
        chars@.subrange(r.0 as int, r.1 as int) == trim(chars@.subrange(lo as int, hi as int)),
{
    let ghost line = chars@.subrange(lo as int, hi as int);
    let mut a: usize = lo;
    while a < hi && is_space_exec(chars[a])
        invariant
            lo <= a <= hi <= chars@.len(),
            line == chars@.subrange(lo as int, hi as int),
            skip_spaces(line, 0) == skip_spaces(line, (a - lo) as int),
        decreases hi - a,
    {
        proof {
            assert(line[a - lo] == chars@[a as int]);
        }
        a = a + 1;
    }
    proof {
        assert(a < hi ==> line[a - lo] == chars@[a as int]);
        assert(skip_spaces(line, (a - lo) as int) == a - lo);
    }
    let mut b: usize = hi;
    while b > a && is_space_exec(chars[b - 1])
        invariant
            lo <= a <= b <= hi <= chars@.len(),
            forall|k: int| b <= k < hi ==> is_space(#[trigger] chars@[k]),
        decreases b,
    {
        b = b - 1;
    }
    proof {
        let u = line.subrange(a - lo, line.len() as int);
        let m = b - a;
        assert forall|k: int| m <= k < u.len() implies is_space(#[trigger] u[k]) by {
            assert(u[k] == chars@[a + k]);
        }
        if m > 0 {
            assert(u[m - 1] == chars@[b - 1]);
        }
        lemma_trim_end_prefix(u, m);
        assert(trim(line) == u.subrange(0, m));
        assert(u.subrange(0, m) =~= chars@.subrange(a as int, b as int));
    }
    (a, b)
}

/// A copy of the characters of `chars` in the window `[lo, hi)`.
pub(crate) fn copy_range(chars: &Vec<char>, lo: usize, hi: usize) -> (out: Vec<char>)
    requires
        lo <= hi <= chars@.len(),
    ensures
        out@ == chars@.subrange(lo as int, hi as int),
{
    let mut out: Vec<char> = Vec::new();
    proof {
        assert(out@ =~= chars@.subrange(lo as int, lo as int));
    }
    let mut i: usize = lo;
    while i < hi
        invariant
            lo <= i <= hi <= chars@.len(),
            out@ == chars@.subrange(lo as int, i as int),
        decreases hi - i,
    {
        out.push(chars[i]);
        proof {
            assert(out@ =~= chars@.subrange(lo as int, (i + 1) as int));
        }
        i = i + 1;
    }
    out
}

/// The keyword of `kind`, as executable characters.
pub(crate) fn keyword_chars(kind: NodeType) -> (kw: Vec<char>)
    ensures
        kw@ == keyword(kind),
        kw@.len() > 0,
{
    let mut kw: Vec<char> = Vec::new();
    match kind {
        NodeType::Command => {
            kw.push('c');
            kw.push('o');
            kw.push('m');
            kw.push('m');
            kw.push('a');
            kw.push('n');
            kw.push('d');
        },
        NodeType::Aggregate => {
            kw.push('a');
            kw.push('g');
            kw.push('g');
            kw.push('r');
            kw.push('e');
            kw.push('g');
            kw.push('a');
            kw.push('t');
            kw.push('e');
        },
        NodeType::Event => {
            kw.push('e');
            kw.push('v');
            kw.push('e');
            kw.push('n');
            kw.push('t');
        },
        NodeType::Policy => {
            kw.push('p');
            kw.push('o');
            kw.push('l');
            kw.push('i');
            kw.push('c');
            kw.push('y');
        },
    }
    proof {
        assert(kw@ =~= keyword(kind));
    }
    kw
}

/// Whether `t` starts with the lowercase keyword `kw`, case-insensitively.
fn has_ci_prefix_exec(t: &Vec<char>, kw: &Vec<char>) -> (r: bool)
    ensures
        r == has_ci_prefix(t@, kw@),
{
    if kw.len() > t.len() {
        return false;
    }
    let mut i: usize = 0;
    while i < kw.len()
        invariant
            kw@.len() <= t@.len(),
            i <= kw@.len(),
            forall|j: int| 0 <= j < i ==> lower(#[trigger] t@[j]) == kw@[j],
        decreases kw@.len() - i,
    {
        if lower_char(t[i]) != kw[i] {
            return false;
        }
        i = i + 1;
    }
    true
}

/// The node kind whose keyword starts `t`, if any.
pub(crate) fn node_prefix_exec(t: &Vec<char>) -> (r: Option<NodeType>)
    ensures
        r == node_prefix(t@),
{
    if has_ci_prefix_exec(t, &keyword_chars(NodeType::Command)) {
        Some(NodeType::Command)
    } else if has_ci_prefix_exec(t, &keyword_chars(NodeType::Aggregate)) {
        Some(NodeType::Aggregate)
    } else if has_ci_prefix_exec(t, &keyword_chars(NodeType::Event)) {
        Some(NodeType::Event)
    } else if has_ci_prefix_exec(t, &keyword_chars(NodeType::Policy)) {
        Some(NodeType::Policy)
    } else {
        None
    }
}

/// Whether `t` starts with the link keyword, case-insensitively.
pub(crate) fn is_link_prefix_exec(t: &Vec<char>) -> (r: bool)
    ensures
        r == has_ci_prefix(t@, link_keyword()),
{
    let mut kw: Vec<char> = Vec::new();
    kw.push('l');
    kw.push('i');
    kw.push('n');
    kw.push('k');
    proof {
        assert(kw@ =~= link_keyword());
    }
    has_ci_prefix_exec(t, &kw)
}

/// A half-open index window into a line's characters.
#[derive(Clone, Copy)]
pub(crate) struct Span {
    pub lo: usize,
    pub hi: usize,
}

/// Recognize a node body in `t` after a keyword of length `kw_len`,
/// returning the windows of the id and of the label.
pub(crate) fn parse_node_body_exec(t: &Vec<char>, kw_len: usize) -> (r: Option<(Span, Span)>)
    requires
        kw_len <= t@.len(),
    ensures
        r is Some <==> parse_node_body(t@, kw_len as int) is Some,
        r matches Some(p) ==> {
            &&& p.0.lo <= p.0.hi <= t@.len()
            &&& p.1.lo <= p.1.hi <= t@.len()
            &&& parse_node_body(t@, kw_len as int) == Some(
                (
                    t@.subrange(p.0.lo as int, p.0.hi as int),
                    t@.subrange(p.1.lo as int, p.1.hi as int),
                ),
            )
        },
{
    let i1 = skip_spaces_exec(t, kw_len);
    if !(i1 < t.len() && t[i1] == '(') {
        return None;
    }
    let i2 = skip_id_exec(t, i1 + 1);
    let i3: usize = if i2 < t.len() && t[i2] == ')' {
        i2 + 1
    } else {
        i2
    };
    let i4 = skip_spaces_exec(t, i3);
    if !(i4 < t.len() && t[i4] == ':') {
        return None;
    }
    let i5 = skip_spaces_exec(t, i4 + 1);
    if !(i5 < t.len() && t[i5] == '"') {
        return None;
    }
    if !(i5 + 1 < t.len() && t[t.len() - 1] == '"') {
        return None;
    }
    Some((Span { lo: i1 + 1, hi: i2 }, Span { lo: i5 + 1, hi: t.len() - 1 }))
}

/// Recognize a link body in `t` after the `link` keyword, returning the
/// windows of the start and end ids.
pub(crate) fn parse_link_body_exec(t: &Vec<char>) -> (r: Option<(Span, Span)>)
    requires
        4 <= t@.len(),
    ensures
        r is Some <==> parse_link_body(t@) is Some,
        r matches Some(p) ==> {
            &&& p.0.lo <= p.0.hi <= t@.len()
            &&& p.1.lo <= p.1.hi <= t@.len()
            &&& parse_link_body(t@) == Some(
                (
                    t@.subrange(p.0.lo as int, p.0.hi as int),
                    t@.subrange(p.1.lo as int, p.1.hi as int),
                ),
            )
        },
{
    let i1 = skip_spaces_exec(t, 4);
    if !(i1 < t.len() && t[i1] == ':') {
        return None;
    }
    let i2 = skip_spaces_exec(t, i1 + 1);
    let i3 = skip_id_exec(t, i2);
    let i4 = skip_spaces_exec(t, i3);
    if !(i4 < t.len() && t[i4] == '-') {
        return None;
    }
    if !(i4 + 1 < t.len() && t[i4 + 1] == '>') {
        return None;
    }
    let i5 = skip_spaces_exec(t, i4 + 2);
    let i6 = skip_id_exec(t, i5);
    if i6 == t.len() {
        Some((Span { lo: i2, hi: i3 }, Span { lo: i5, hi: i6 }))
    } else {
        None
    }
}

} // verus!
