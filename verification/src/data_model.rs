//! The validated graph an event-model document describes: typed nodes and
//! directed links, in declaration order, together with the parser that
//! builds it and the errors the parser reports.

use vstd::prelude::*;
use vstd::string::{StrSliceExecFns, StringExecFns};

use crate::grammar::{
    classify, copy_range, node_prefix_exec, is_link_prefix_exec, keyword_chars, link_keyword,
    parse_link_body_exec, parse_node_body_exec, trim, trim_bounds, Line,
};

verus! {

/// The closed set of node kinds.
#[derive(Clone, Copy, Debug, PartialEq, Eq, Structural)]
pub enum NodeType {
    Command,
    Aggregate,
    Event,
    Policy,
}

/// One modeling element: a unique id, a kind, and free-form display text.
#[derive(Debug, PartialEq, Eq)]
pub struct Node {
    pub id: String,
    pub node_type: NodeType,
    pub text: String,
}

/// A directed edge between two declared nodes, named by their ids.
#[derive(Debug, PartialEq, Eq)]
pub struct Link {
    pub start_id: String,
    pub end_id: String,
}

/// The parsed document: nodes and links in declaration order.
#[derive(Debug, PartialEq, Eq)]
pub struct DataModel {
    pub nodes: Vec<Node>,
    pub links: Vec<Link>,
}

/// Mathematical content of a [`Node`].
pub struct NodeView {
    pub id: Seq<char>,
    pub node_type: NodeType,
    pub text: Seq<char>,
}

/// Mathematical content of a [`Link`].
pub struct LinkView {
    pub start_id: Seq<char>,
    pub end_id: Seq<char>,
}

/// Mathematical content of a [`DataModel`].
pub struct DataModelView {
    pub nodes: Seq<NodeView>,
    pub links: Seq<LinkView>,
}

impl View for Node {
    type V = NodeView;

    open spec fn view(&self) -> NodeView {
        NodeView { id: self.id@, node_type: self.node_type, text: self.text@ }
    }
}

impl DeepView for Node {
    type V = NodeView;

    open spec fn deep_view(&self) -> NodeView {
        self.view()
    }
}

impl View for Link {
    type V = LinkView;

    open spec fn view(&self) -> LinkView {
        LinkView { start_id: self.start_id@, end_id: self.end_id@ }
    }
}

impl DeepView for Link {
    type V = LinkView;

    open spec fn deep_view(&self) -> LinkView {
        self.view()
    }
}

impl View for DataModel {
    type V = DataModelView;

    open spec fn view(&self) -> DataModelView {
        DataModelView { nodes: self.nodes.deep_view(), links: self.links.deep_view() }
    }
}

impl Clone for Node {
    /// An exact copy: same id, kind and text.
    fn clone(&self) -> (r: Self)
        ensures
            r == *self,
    {
        Node { id: self.id.clone(), node_type: self.node_type, text: self.text.clone() }
    }
}

impl Clone for Link {
    /// An exact copy: same endpoint ids.
    fn clone(&self) -> (r: Self)
        ensures
            r == *self,
    {
        Link { start_id: self.start_id.clone(), end_id: self.end_id.clone() }
    }
}

/// Whether some node in `nodes` carries the id `id` (ids are compared
/// case-sensitively, character for character).
pub open spec fn has_node_id(nodes: Seq<NodeView>, id: Seq<char>) -> bool {
    exists|k: int| 0 <= k < nodes.len() && (#[trigger] nodes[k]).id == id
}

impl DataModelView {
    /// No two nodes share an id.
    pub open spec fn unique_ids(self) -> bool {
        forall|i: int, j: int|
            0 <= i < j < self.nodes.len() ==> (#[trigger] self.nodes[i]).id != (
            #[trigger] self.nodes[j]).id
    }

    /// Every link's endpoints name declared nodes.
    pub open spec fn links_resolve(self) -> bool {
        forall|j: int|
            0 <= j < self.links.len() ==> has_node_id(self.nodes, (#[trigger] self.links[j]).start_id)
                && has_node_id(self.nodes, self.links[j].end_id)
    }

    /// The documented invariants of a parsed document.
    pub open spec fn wf(self) -> bool {
        self.unique_ids() && self.links_resolve()
    }
}

/// The construct a malformed line was recognized as, by its leading keyword.
#[derive(Clone, Copy, Debug, PartialEq, Eq, Structural)]
pub enum Construct {
    Command,
    Aggregate,
    Event,
    Policy,
    Link,
}

/// The construct keyword of a node kind.
pub open spec fn construct_of(kind: NodeType) -> Construct {
    match kind {
        NodeType::Command => Construct::Command,
        NodeType::Aggregate => Construct::Aggregate,
        NodeType::Event => Construct::Event,
        NodeType::Policy => Construct::Policy,
    }
}

/// Why a document was rejected.  Every variant carries the 1-based number of
/// the offending line.
#[derive(Debug, PartialEq, Eq)]
pub enum ParseError {
    /// The line matches no recognized construct; `construct` names the
    /// keyword the line started with, where one was recognized but the rest
    /// of the line did not fit that construct's grammar.  `line` is the
    /// line's trimmed text.
    Syntax { construct: Option<Construct>, line_number: usize, line: String },
    /// A node declaration reuses an id; `line_number` is the duplicate's.
    DuplicateId { id: String, line_number: usize },
    /// A link names an id that no earlier node declaration carries.
    DanglingReference { id: String, line_number: usize },
}

/// Mathematical content of a [`ParseError`].
pub enum ParseErrorView {
    Syntax { construct: Option<Construct>, line_number: int, line: Seq<char> },
    DuplicateId { id: Seq<char>, line_number: int },
    DanglingReference { id: Seq<char>, line_number: int },
}

impl View for ParseError {
    type V = ParseErrorView;

    open spec fn view(&self) -> ParseErrorView {
        match self {
            ParseError::Syntax { construct, line_number, line } => ParseErrorView::Syntax {
                construct: *construct,
                line_number: *line_number as int,
                line: line@,
            },
            ParseError::DuplicateId { id, line_number } => ParseErrorView::DuplicateId {
                id: id@,
                line_number: *line_number as int,
            },
            ParseError::DanglingReference { id, line_number } => ParseErrorView::DanglingReference {
                id: id@,
                line_number: *line_number as int,
            },
        }
    }
}

/// The index of the first line feed at or after `from` (`s.len()` if there
/// is none).
pub open spec fn first_newline(s: Seq<char>, from: int) -> int
    decreases s.len() - from,
    when 0 <= from <= s.len()
{
    if from < s.len() && s[from] != '\n' {
        first_newline(s, from + 1)
    } else {
        from
    }
}

pub proof fn lemma_first_newline_bounds(s: Seq<char>, from: int)
    requires
        0 <= from <= s.len(),
    ensures
        from <= first_newline(s, from) <= s.len(),
        first_newline(s, from) < s.len() ==> s[first_newline(s, from)] == '\n',
        forall|k: int| from <= k < first_newline(s, from) ==> s[k] != '\n',
    decreases s.len() - from,
{
    if from < s.len() && s[from] != '\n' {
        lemma_first_newline_bounds(s, from + 1);
    }
}

/// The document's lines from position `from` on: the segments between line
/// feeds.  A document always has at least one (possibly empty) line.
pub open spec fn split_from(s: Seq<char>, from: int) -> Seq<Seq<char>>
    decreases s.len() - from,
    when 0 <= from <= s.len()
    via split_from_decreases
{
    let k = first_newline(s, from);
    if k == s.len() {
        seq![s.subrange(from, k)]
    } else {
        seq![s.subrange(from, k)].add(split_from(s, k + 1))
    }
}

#[via_fn]
proof fn split_from_decreases(s: Seq<char>, from: int) {
    lemma_first_newline_bounds(s, from);
}

/// The parser state: the nodes and links accumulated so far.
pub type ParseState = (Seq<NodeView>, Seq<LinkView>);

/// Consume one line (`line_number` is 1-based): a blank line is skipped, a
/// node declaration with a fresh id or a link declaration whose ids resolve
/// extends the state, and anything else is the document's error.
pub open spec fn step_line(st: ParseState, line: Seq<char>, line_number: int) -> Result<
    ParseState,
    ParseErrorView,
> {
    match classify(line) {
        Line::Blank => Ok(st),
        Line::NodeDecl { kind, id, label } => if has_node_id(st.0, id) {
            Err(ParseErrorView::DuplicateId { id, line_number })
        } else {
            Ok((st.0.push(NodeView { id, node_type: kind, text: label }), st.1))
        },
        Line::LinkDecl { start_id, end_id } => if !has_node_id(st.0, start_id) {
            Err(ParseErrorView::DanglingReference { id: start_id, line_number })
        } else if !has_node_id(st.0, end_id) {
            Err(ParseErrorView::DanglingReference { id: end_id, line_number })
        } else {
            Ok((st.0, st.1.push(LinkView { start_id, end_id })))
        },
        Line::MalformedNode { kind } => Err(
            ParseErrorView::Syntax {
                construct: Some(construct_of(kind)),
                line_number,
                line: trim(line),
            },
        ),
        Line::MalformedLink => Err(
            ParseErrorView::Syntax { construct: Some(Construct::Link), line_number, line: trim(line) },
        ),
        Line::Unrecognized => Err(
            ParseErrorView::Syntax { construct: None, line_number, line: trim(line) },
        ),
    }
}

/// The parser state after the first `n` lines of `segs`, or the error met on
/// the way.  Parsing is single-pass and stops at the first failing line.
pub open spec fn parse_prefix(segs: Seq<Seq<char>>, n: int) -> Result<ParseState, ParseErrorView>
    decreases n,
{
    if n <= 0 {
        Ok((Seq::empty(), Seq::empty()))
    } else {
        match parse_prefix(segs, n - 1) {
            Ok(st) => step_line(st, segs[n - 1], n),
            Err(e) => Err(e),
        }
    }
}

/// What parsing a whole document yields: the graph it declares, or the first
/// error, with its 1-based line number.
pub open spec fn spec_parse(text: Seq<char>) -> Result<DataModelView, ParseErrorView> {
    let segs = split_from(text, 0);
    match parse_prefix(segs, segs.len() as int) {
        Ok(st) => Ok(DataModelView { nodes: st.0, links: st.1 }),
        Err(e) => Err(e),
    }
}

/// A failing line decides the whole document: the lines after it change
/// nothing.
pub proof fn lemma_error_persists(segs: Seq<Seq<char>>, n: int, m: int)
    requires
        0 <= n <= m,
        parse_prefix(segs, n) is Err,
    ensures
        parse_prefix(segs, m) == parse_prefix(segs, n),
    decreases m - n,
{
    if m > n {
        lemma_error_persists(segs, n, m - 1);
    }
}

/// Parsing is a function of the text alone: two parses of the same document
/// yield the same model — equal node and link order, ids, kinds and labels.
pub proof fn lemma_parse_deterministic(text: Seq<char>, m1: DataModelView, m2: DataModelView)
    requires
        spec_parse(text) == Ok::<DataModelView, ParseErrorView>(m1),
        spec_parse(text) == Ok::<DataModelView, ParseErrorView>(m2),
    ensures
        m1.nodes == m2.nodes,
        m1.links == m2.links,
{
}

/// After any successfully parsed prefix, ids are unique and every link
/// resolves.
proof fn lemma_parse_prefix_wf(segs: Seq<Seq<char>>, n: int, nodes: Seq<NodeView>, links: Seq<
    LinkView,
>)
    requires
        0 <= n,
        parse_prefix(segs, n) == Ok::<ParseState, ParseErrorView>((nodes, links)),
    ensures
        (DataModelView { nodes, links }).wf(),
    decreases n,
{
    if n > 0 {
        match parse_prefix(segs, n - 1) {
            Ok(st) => {
                lemma_parse_prefix_wf(segs, n - 1, st.0, st.1);
                match classify(segs[n - 1]) {
                    Line::NodeDecl { kind, id, label } => {
                        let nv = NodeView { id, node_type: kind, text: label };
                        assert(nodes == st.0.push(nv));
                        assert forall|a: int, b: int| 0 <= a < b < nodes.len() implies (
                        #[trigger] nodes[a]).id != (#[trigger] nodes[b]).id by {
                            assert(nodes[a] == st.0[a]);
                            if b < st.0.len() {
                                assert(nodes[b] == st.0[b]);
                            } else {
                                assert(!(0 <= a < st.0.len() && st.0[a].id == id));
                            }
                        }
                        let dm = DataModelView { nodes: st.0, links: st.1 };
                        assert forall|j: int| 0 <= j < links.len() implies has_node_id(
                            nodes,
                            (#[trigger] links[j]).start_id,
                        ) && has_node_id(nodes, links[j].end_id) by {
                            assert(dm.links[j] == links[j]);
                            assert(has_node_id(st.0, links[j].start_id));
                            assert(has_node_id(st.0, links[j].end_id));
                            let ks = choose|k: int|
                                0 <= k < st.0.len() && (#[trigger] st.0[k]).id == links[j].start_id;
                            assert(nodes[ks] == st.0[ks]);
                            let ke = choose|k: int|
                                0 <= k < st.0.len() && (#[trigger] st.0[k]).id == links[j].end_id;
                            assert(nodes[ke] == st.0[ke]);
                        }
                    },
                    Line::LinkDecl { start_id, end_id } => {
                        assert(nodes == st.0);
                        assert(links == st.1.push(LinkView { start_id, end_id }));
                        let dm = DataModelView { nodes: st.0, links: st.1 };
                        assert forall|j: int| 0 <= j < links.len() implies has_node_id(
                            nodes,
                            (#[trigger] links[j]).start_id,
                        ) && has_node_id(nodes, links[j].end_id) by {
                            if j < st.1.len() {
                                assert(dm.links[j] == links[j]);
                            } else {
                                assert(links[j] == (LinkView { start_id, end_id }));
                            }
                        }
                    },
                    _ => {},
                }
            },
            Err(_) => {
                assert(false);
            },
        }
    }
}

/// A parsed document carries the documented invariants: no two nodes share
/// an id, and every link's two ids name declared nodes.
pub proof fn lemma_parsed_model_well_formed(text: Seq<char>, m: DataModelView)
    requires
        spec_parse(text) == Ok::<DataModelView, ParseErrorView>(m),
    ensures
        m.wf(),
{
    let segs = split_from(text, 0);
    lemma_parse_prefix_wf(segs, segs.len() as int, m.nodes, m.links);
}

/// The node declarations among the first `n` lines, in document order.
pub open spec fn declared_nodes(segs: Seq<Seq<char>>, n: int) -> Seq<NodeView>
    decreases n,
{
    if n <= 0 {
        Seq::empty()
    } else {
        let rest = declared_nodes(segs, n - 1);
        match classify(segs[n - 1]) {
            Line::NodeDecl { kind, id, label } => rest.push(
                NodeView { id, node_type: kind, text: label },
            ),
            _ => rest,
        }
    }
}

/// The link declarations among the first `n` lines, in document order.
pub open spec fn declared_links(segs: Seq<Seq<char>>, n: int) -> Seq<LinkView>
    decreases n,
{
    if n <= 0 {
        Seq::empty()
    } else {
        let rest = declared_links(segs, n - 1);
        match classify(segs[n - 1]) {
            Line::LinkDecl { start_id, end_id } => rest.push(LinkView { start_id, end_id }),
            _ => rest,
        }
    }
}

proof fn lemma_prefix_declaration_order(
    segs: Seq<Seq<char>>,
    n: int,
    nodes: Seq<NodeView>,
    links: Seq<LinkView>,
)
    requires
        0 <= n,
        parse_prefix(segs, n) == Ok::<ParseState, ParseErrorView>((nodes, links)),
    ensures
        nodes == declared_nodes(segs, n),
        links == declared_links(segs, n),
    decreases n,
{
    if n > 0 {
        match parse_prefix(segs, n - 1) {
            Ok(st) => {
                lemma_prefix_declaration_order(segs, n - 1, st.0, st.1);
            },
            Err(_) => {
                assert(false);
            },
        }
    }
}

/// Declaration order is kept: a parsed document's node sequence is exactly
/// the text's node declarations in document order, and its link sequence is
/// exactly the text's link declarations in document order.
pub proof fn lemma_declaration_order_preserved(text: Seq<char>, m: DataModelView)
    requires
        spec_parse(text) == Ok::<DataModelView, ParseErrorView>(m),
    ensures
        m.nodes == declared_nodes(split_from(text, 0), split_from(text, 0).len() as int),
        m.links == declared_links(split_from(text, 0), split_from(text, 0).len() as int),
{
    let segs = split_from(text, 0);
    lemma_prefix_declaration_order(segs, segs.len() as int, m.nodes, m.links);
}

/// A node declaration whose id an earlier node already carries fails the
/// parse with a `DuplicateId` error naming that id and the duplicate's own
/// 1-based line number — whatever the node's kind.
pub proof fn lemma_duplicate_id_reported(
    text: Seq<char>,
    i: int,
    nodes: Seq<NodeView>,
    links: Seq<LinkView>,
    kind: NodeType,
    id: Seq<char>,
    label: Seq<char>,
)
    requires
        0 <= i < split_from(text, 0).len(),
        parse_prefix(split_from(text, 0), i) == Ok::<ParseState, ParseErrorView>((nodes, links)),
        classify(split_from(text, 0)[i]) == (Line::NodeDecl { kind, id, label }),
        has_node_id(nodes, id),
    ensures
        spec_parse(text) == Err::<DataModelView, ParseErrorView>(
            ParseErrorView::DuplicateId { id, line_number: i + 1 },
        ),
{
    let segs = split_from(text, 0);
    assert(parse_prefix(segs, i + 1) == Err::<ParseState, ParseErrorView>(
        ParseErrorView::DuplicateId { id, line_number: i + 1 },
    ));
    lemma_error_persists(segs, i + 1, segs.len() as int);
}

/// A link naming an id that no node declared on an earlier line carries
/// fails the parse with a `DanglingReference` error naming the missing id
/// and the link's own 1-based line number — even where a later line declares
/// that id (`nodes` holds only what the lines before line `i + 1` declared).
pub proof fn lemma_dangling_reference_reported(
    text: Seq<char>,
    i: int,
    nodes: Seq<NodeView>,
    links: Seq<LinkView>,
    start_id: Seq<char>,
    end_id: Seq<char>,
)
    requires
        0 <= i < split_from(text, 0).len(),
        parse_prefix(split_from(text, 0), i) == Ok::<ParseState, ParseErrorView>((nodes, links)),
        classify(split_from(text, 0)[i]) == (Line::LinkDecl { start_id, end_id }),
    ensures
        !has_node_id(nodes, start_id) ==> spec_parse(text) == Err::<DataModelView, ParseErrorView>(
            ParseErrorView::DanglingReference { id: start_id, line_number: i + 1 },
        ),
        has_node_id(nodes, start_id) && !has_node_id(nodes, end_id) ==> spec_parse(text) == Err::<
            DataModelView,
            ParseErrorView,
        >(ParseErrorView::DanglingReference { id: end_id, line_number: i + 1 }),
{
    let segs = split_from(text, 0);
    if !has_node_id(nodes, start_id) || !has_node_id(nodes, end_id) {
        assert(parse_prefix(segs, i + 1) is Err);
        lemma_error_persists(segs, i + 1, segs.len() as int);
    }
}

/// A line that matches no construct at all fails the parse with a syntax
/// error citing the line's correct 1-based number and its trimmed text.
pub proof fn lemma_unrecognized_line_reported(
    text: Seq<char>,
    i: int,
    nodes: Seq<NodeView>,
    links: Seq<LinkView>,
)
    requires
        0 <= i < split_from(text, 0).len(),
        parse_prefix(split_from(text, 0), i) == Ok::<ParseState, ParseErrorView>((nodes, links)),
        classify(split_from(text, 0)[i]) is Unrecognized,
    ensures
        spec_parse(text) == Err::<DataModelView, ParseErrorView>(
            ParseErrorView::Syntax {
                construct: None,
                line_number: i + 1,
                line: trim(split_from(text, 0)[i]),
            },
        ),
{
    let segs = split_from(text, 0);
    assert(parse_prefix(segs, i + 1) is Err);
    lemma_error_persists(segs, i + 1, segs.len() as int);
}

/// A line that starts with a recognized keyword but does not fit that
/// construct's grammar fails the parse with a syntax error naming the
/// construct, at the line's own 1-based number.
pub proof fn lemma_malformed_construct_reported(
    text: Seq<char>,
    i: int,
    nodes: Seq<NodeView>,
    links: Seq<LinkView>,
)
    requires
        0 <= i < split_from(text, 0).len(),
        parse_prefix(split_from(text, 0), i) == Ok::<ParseState, ParseErrorView>((nodes, links)),
    ensures
        classify(split_from(text, 0)[i]) matches Line::MalformedNode { kind } ==> spec_parse(text)
            == Err::<DataModelView, ParseErrorView>(
            ParseErrorView::Syntax {
                construct: Some(construct_of(kind)),
                line_number: i + 1,
                line: trim(split_from(text, 0)[i]),
            },
        ),
        classify(split_from(text, 0)[i]) is MalformedLink ==> spec_parse(text) == Err::<
            DataModelView,
            ParseErrorView,
        >(
            ParseErrorView::Syntax {
                construct: Some(Construct::Link),
                line_number: i + 1,
                line: trim(split_from(text, 0)[i]),
            },
        ),
{
    let segs = split_from(text, 0);
    if classify(segs[i]) is MalformedNode || classify(segs[i]) is MalformedLink {
        assert(parse_prefix(segs, i + 1) is Err);
        lemma_error_persists(segs, i + 1, segs.len() as int);
    }
}

/// The characters of `s`, as a vector.
fn chars_of(s: &str) -> (v: Vec<char>)
    ensures
        v@ == s@,
{
    let n = s.unicode_len();
    let mut v: Vec<char> = Vec::new();
    proof {
        assert(v@ =~= s@.subrange(0, 0));
    }
    let mut i: usize = 0;
    while i < n
        invariant
            n == s@.len(),
            i <= n,
            v@ == s@.subrange(0, i as int),
        decreases n - i,
    {
        v.push(s.get_char(i));
        proof {
            assert(v@ =~= s@.subrange(0, (i + 1) as int));
        }
        i = i + 1;
    }
    proof {
        assert(s@.subrange(0, n as int) =~= s@);
    }
    v
}

/// First line-feed index in `chars` at or after `from`.
fn first_newline_exec(chars: &Vec<char>, from: usize) -> (r: usize)
    requires
        from <= chars@.len(),
    ensures
        from <= r <= chars@.len(),
        r == first_newline(chars@, from as int),
{
    let mut i: usize = from;
    while i < chars.len() && chars[i] != '\n'
        invariant
            from <= i <= chars@.len(),
            first_newline(chars@, from as int) == first_newline(chars@, i as int),
        decreases chars@.len() - i,
    {
        i = i + 1;
    }
    i
}

/// The `[lo, hi)` windows of the document's lines, in order.
fn line_ranges(chars: &Vec<char>) -> (ranges: Vec<(usize, usize)>)
    ensures
        ranges@.len() == split_from(chars@, 0).len(),
        forall|i: int|
            0 <= i < ranges@.len() ==> {
                &&& (#[trigger] ranges@[i]).0 <= ranges@[i].1 <= chars@.len()
                &&& chars@.subrange(ranges@[i].0 as int, ranges@[i].1 as int) == split_from(
                    chars@,
                    0,
                )[i]
            },
{
    let ghost segs = split_from(chars@, 0);
    let mut ranges: Vec<(usize, usize)> = Vec::new();
    let mut pos: usize = 0;
    let mut k = first_newline_exec(chars, 0);
    while k < chars.len()
        invariant
            pos <= k <= chars@.len(),
            k == first_newline(chars@, pos as int),
            segs == split_from(chars@, 0),
            split_from(chars@, pos as int) == segs.skip(ranges@.len() as int),
            ranges@.len() + split_from(chars@, pos as int).len() == segs.len(),
            forall|i: int|
                0 <= i < ranges@.len() ==> {
                    &&& (#[trigger] ranges@[i]).0 <= ranges@[i].1 <= chars@.len()
                    &&& chars@.subrange(ranges@[i].0 as int, ranges@[i].1 as int) == segs[i]
                },
        decreases chars@.len() - pos,
    {
        proof {
            let n = ranges@.len() as int;
            let tail = split_from(chars@, (k + 1) as int);
            assert(split_from(chars@, pos as int) == seq![
                chars@.subrange(pos as int, k as int),
            ].add(tail));
            assert(segs[n] == segs.skip(n)[0]);
            assert(segs.skip(n + 1) =~= tail) by {
                assert forall|j: int| 0 <= j < segs.len() - n - 1 implies segs.skip(n + 1)[j]
                    == tail[j] by {
                    assert(segs.skip(n + 1)[j] == segs[n + 1 + j]);
                    assert(segs.skip(n)[1 + j] == segs[n + 1 + j]);
                    assert(segs.skip(n)[1 + j] == tail[j]);
                }
            }
        }
        ranges.push((pos, k));
        pos = k + 1;
        k = first_newline_exec(chars, pos);
    }
    proof {
        let n = ranges@.len() as int;
        assert(split_from(chars@, pos as int) == seq![chars@.subrange(pos as int, k as int)]);
        assert(segs[n] == segs.skip(n)[0]);
    }
    ranges.push((pos, k));
    ranges
}

/// Whether some node already carries the id `id`.
fn contains_id(nodes: &Vec<Node>, id: &String) -> (r: bool)
    ensures
        r == has_node_id(nodes.deep_view(), id@),
{
    let mut i: usize = 0;
    while i < nodes.len()
        invariant
            i <= nodes@.len(),
            forall|m: int| 0 <= m < i ==> (#[trigger] nodes.deep_view()[m]).id != id@,
        decreases nodes@.len() - i,
    {
        if nodes[i].id == *id {
            proof {
                assert(nodes.deep_view()[i as int].id == id@);
            }
            return true;
        }
        i = i + 1;
    }
    false
}

/// The construct keyword of a node kind.
fn construct_exec(kind: NodeType) -> (c: Construct)
    ensures
        c == construct_of(kind),
{
    match kind {
        NodeType::Command => Construct::Command,
        NodeType::Aggregate => Construct::Aggregate,
        NodeType::Event => Construct::Event,
        NodeType::Policy => Construct::Policy,
    }
}

impl DataModel {
    /// Parse a whole document: build the graph its lines declare, or report
    /// the first offending line.  The result is exactly what [`spec_parse`]
    /// says of the text.
    pub fn from(input: String) -> (r: Result<DataModel, ParseError>)
        ensures
            r matches Ok(m) ==> spec_parse(input@) == Ok::<DataModelView, ParseErrorView>(m@),
            r matches Err(e) ==> spec_parse(input@) == Err::<DataModelView, ParseErrorView>(e@),
    {
        let s = input.as_str();
        let chars = chars_of(s);
        let ranges = line_ranges(&chars);
        let ghost segs = split_from(input@, 0);
        let mut nodes: Vec<Node> = Vec::new();
        let mut links: Vec<Link> = Vec::new();
        proof {
            assert(nodes.deep_view() =~= Seq::<NodeView>::empty());
            assert(links.deep_view() =~= Seq::<LinkView>::empty());
        }
        let mut i: usize = 0;
        while i < ranges.len()
            invariant
                s@ == input@,
                chars@ == input@,
                segs == split_from(input@, 0),
                ranges@.len() == segs.len(),
                forall|j: int|
                    0 <= j < ranges@.len() ==> {
                        &&& (#[trigger] ranges@[j]).0 <= ranges@[j].1 <= chars@.len()
                        &&& chars@.subrange(ranges@[j].0 as int, ranges@[j].1 as int) == segs[j]
                    },
                i <= ranges@.len(),
                parse_prefix(segs, i as int) == Ok::<ParseState, ParseErrorView>(
                    (nodes.deep_view(), links.deep_view()),
                ),
            decreases ranges@.len() - i,
        {
            let (lo, hi) = ranges[i];
            let tb = trim_bounds(&chars, lo, hi);
            let a = tb.0;
            let b = tb.1;
            let t = copy_range(&chars, a, b);
            let ghost seg = segs[i as int];
            let ghost st = (nodes.deep_view(), links.deep_view());
            let ghost ln = (i + 1) as int;
            proof {
                assert(t@ == trim(seg));
            }
            if t.len() == 0 {
                proof {
                    assert(step_line(st, seg, ln) == Ok::<ParseState, ParseErrorView>(st));
                }
                i = i + 1;
                continue;
            }
            match node_prefix_exec(&t) {
                Some(kind) => {
                    proof {
                        assert(crate::grammar::has_ci_prefix(t@, crate::grammar::keyword(kind)));
                    }
                    let kw = keyword_chars(kind);
                    match parse_node_body_exec(&t, kw.len()) {
                        Some(p) => {
                            let id = String::from_str(s.substring_char(a + p.0.lo, a + p.0.hi));
                            let label = String::from_str(
                                s.substring_char(a + p.1.lo, a + p.1.hi),
                            );
                            proof {
                                assert(id@ =~= t@.subrange(p.0.lo as int, p.0.hi as int));
                                assert(label@ =~= t@.subrange(p.1.lo as int, p.1.hi as int));
                                assert(classify(seg) == (Line::NodeDecl {
                                    kind,
                                    id: id@,
                                    label: label@,
                                }));
                            }
                            if contains_id(&nodes, &id) {
                                let e = ParseError::DuplicateId { id, line_number: i + 1 };
                                proof {
                                    assert(parse_prefix(segs, ln) == Err::<
                                        ParseState,
                                        ParseErrorView,
                                    >(e@));
                                    lemma_error_persists(segs, ln, segs.len() as int);
                                }
                                return Err(e);
                            }
                            nodes.push(Node { id, node_type: kind, text: label });
                            proof {
                                assert(nodes.deep_view() =~= st.0.push(
                                    NodeView {
                                        id: nodes@[nodes@.len() - 1].id@,
                                        node_type: kind,
                                        text: nodes@[nodes@.len() - 1].text@,
                                    },
                                ));
                            }
                        },
                        None => {
                            let line_text = String::from_str(s.substring_char(a, b));
                            proof {
                                assert(line_text@ == trim(seg));
                                assert(classify(seg) == (Line::MalformedNode { kind }));
                            }
                            let e = ParseError::Syntax {
                                construct: Some(construct_exec(kind)),
                                line_number: i + 1,
                                line: line_text,
                            };
                            proof {
                                assert(parse_prefix(segs, ln) == Err::<ParseState, ParseErrorView>(
                                    e@,
                                ));
                                lemma_error_persists(segs, ln, segs.len() as int);
                            }
                            return Err(e);
                        },
                    }
                },
                None => {
                    if is_link_prefix_exec(&t) {
                        proof {
                            assert(link_keyword().len() == 4);
                        }
                        match parse_link_body_exec(&t) {
                            Some(p) => {
                                let start_id = String::from_str(
                                    s.substring_char(a + p.0.lo, a + p.0.hi),
                                );
                                let end_id = String::from_str(
                                    s.substring_char(a + p.1.lo, a + p.1.hi),
                                );
                                proof {
                                    assert(start_id@ =~= t@.subrange(p.0.lo as int, p.0.hi as int));
                                    assert(end_id@ =~= t@.subrange(p.1.lo as int, p.1.hi as int));
                                    assert(classify(seg) == (Line::LinkDecl {
                                        start_id: start_id@,
                                        end_id: end_id@,
                                    }));
                                }
                                if !contains_id(&nodes, &start_id) {
                                    let e = ParseError::DanglingReference {
                                        id: start_id,
                                        line_number: i + 1,
                                    };
                                    proof {
                                        assert(parse_prefix(segs, ln) == Err::<
                                            ParseState,
                                            ParseErrorView,
                                        >(e@));
                                        lemma_error_persists(segs, ln, segs.len() as int);
                                    }
                                    return Err(e);
                                }
                                if !contains_id(&nodes, &end_id) {
                                    let e = ParseError::DanglingReference {
                                        id: end_id,
                                        line_number: i + 1,
                                    };
                                    proof {
                                        assert(parse_prefix(segs, ln) == Err::<
                                            ParseState,
                                            ParseErrorView,
                                        >(e@));
                                        lemma_error_persists(segs, ln, segs.len() as int);
                                    }
                                    return Err(e);
                                }
                                links.push(Link { start_id, end_id });
                                proof {
                                    assert(links.deep_view() =~= st.1.push(
                                        LinkView {
                                            start_id: links@[links@.len() - 1].start_id@,
                                            end_id: links@[links@.len() - 1].end_id@,
                                        },
                                    ));
                                }
                            },
                            None => {
                                let line_text = String::from_str(s.substring_char(a, b));
                                proof {
                                    assert(line_text@ == trim(seg));
                                    assert(classify(seg) is MalformedLink);
                                }
                                let e = ParseError::Syntax {
                                    construct: Some(Construct::Link),
                                    line_number: i + 1,
                                    line: line_text,
                                };
                                proof {
                                    assert(parse_prefix(segs, ln) == Err::<
                                        ParseState,
                                        ParseErrorView,
                                    >(e@));
                                    lemma_error_persists(segs, ln, segs.len() as int);
                                }
                                return Err(e);
                            },
                        }
                    } else {
                        let line_text = String::from_str(s.substring_char(a, b));
                        proof {
                            assert(line_text@ == trim(seg));
                            assert(classify(seg) is Unrecognized);
                        }
                        let e = ParseError::Syntax {
                            construct: None,
                            line_number: i + 1,
                            line: line_text,
                        };
                        proof {
                            assert(parse_prefix(segs, ln) == Err::<ParseState, ParseErrorView>(e@));
                            lemma_error_persists(segs, ln, segs.len() as int);
                        }
                        return Err(e);
                    }
                },
            }
            i = i + 1;
        }
        let m = DataModel { nodes, links };
        proof {
            assert(m@ == DataModelView { nodes: m.nodes.deep_view(), links: m.links.deep_view() });
        }
        Ok(m)
    }

    /// Whether every link's two ids name declared nodes — the condition the
    /// layout engine's contract asks of its input.
    pub fn all_links_resolve(&self) -> (r: bool)
        ensures
            r == self@.links_resolve(),
    {
        let mut j: usize = 0;
        while j < self.links.len()
            invariant
                j <= self.links@.len(),
                forall|m: int|
                    0 <= m < j ==> has_node_id(
                        self@.nodes,
                        (#[trigger] self@.links[m]).start_id,
                    ) && has_node_id(self@.nodes, self@.links[m].end_id),
            decreases self.links@.len() - j,
        {
            if !contains_id(&self.nodes, &self.links[j].start_id) {
                proof {
                    assert(!has_node_id(self@.nodes, self@.links[j as int].start_id));
                }
                return false;
            }
            if !contains_id(&self.nodes, &self.links[j].end_id) {
                proof {
                    assert(!has_node_id(self@.nodes, self@.links[j as int].end_id));
                }
                return false;
            }
            j = j + 1;
        }
        true
    }
}

} // verus!
