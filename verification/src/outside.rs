use vstd::prelude::*;

verus! {

use crate::tree::NodeKind;
use crate::tree::TreeNode;

#[verifier::external_type_specification]
#[verifier::external_body]
pub struct ExHtml(scraper::Html);

#[verifier::external_type_specification]
#[verifier::external_body]
pub struct ExSelector(scraper::Selector);

#[verifier::external_type_specification]
#[verifier::external_body]
pub struct ExNodeId(ego_tree::NodeId);

#[verifier::external_type_specification]
#[verifier::external_body]
pub struct ExBacktrace(backtrace::Backtrace);

/// The outcome of `scraper::Selector::parse` on this string: the compiled
/// selector, or nothing on the strings it rejects. Compilation is
/// deterministic in the string.
pub uninterp spec fn compiled_opt(s: Seq<char>) -> Option<scraper::Selector>;

/// Whether `scraper::Selector::parse` accepts this selector string.
pub open spec fn valid_selector(s: Seq<char>) -> bool {
    compiled_opt(s) is Some
}

/// The compiled selector built from an accepted selector string.
pub open spec fn compiled_of(s: Seq<char>) -> scraper::Selector {
    compiled_opt(s)->Some_0
}

/// The arena positions that selector matching yields: for the matches of
/// `sel` under the subtree of the element whose id sits at position `root`
/// of `ids`, in document order, the position in `ids` of each match's id.
/// A function of the tree, the id table, the root, and the selector alone.
pub uninterp spec fn matches_in(
    html: scraper::Html,
    ids: Seq<ego_tree::NodeId>,
    root: usize,
    sel: scraper::Selector,
) -> Seq<usize>;

/// Relies on scraper::Selector::parse: it compiles a selector string
/// deterministically, and returns an error exactly on the strings it does
/// not accept.
#[verifier::external_body]
pub(crate) fn compile_checked(s: &str) -> (r: Option<scraper::Selector>)
    ensures
        r == compiled_opt(s@),
{
    scraper::Selector::parse(s).ok()
}

/// Relies on scraper::ElementRef::select: it yields the matching elements of
/// the subtree below the given element, in document order; their tree ids are
/// turned into positions in the id table, a deterministic conversion.
#[verifier::external_body]
pub(crate) fn select_in(
    html: &scraper::Html,
    ids: &Vec<ego_tree::NodeId>,
    root: usize,
    sel: &scraper::Selector,
) -> (r: Vec<usize>)
    ensures
        r@ == matches_in(*html, ids@, root, *sel),
{
    let elem = ids.get(root).and_then(|id| html.tree.get(*id)).and_then(scraper::ElementRef::wrap);
    match elem {
        None => Vec::new(),
        Some(e) => e.select(sel).map(
            |m| ids.iter().position(|x| *x == m.id()).unwrap_or(usize::MAX),
        ).collect(),
    }
}

/// What parsing this markup yields: the flattened arena records, the table
/// of each record's tree id beside them, and the parsed tree value. Parsing
/// is deterministic in the markup.
pub uninterp spec fn parsed_of(markup: Seq<char>) -> (
    Seq<TreeNode>,
    Seq<ego_tree::NodeId>,
    scraper::Html,
);

/// Relies on scraper::Html::parse_document: it parses any markup, without
/// failing, into a tree with an `html` root element, deterministically in
/// the markup. The tree is flattened, preorder, into arena records beside
/// the table of each record's tree id.
#[verifier::external_body]
pub(crate) fn parse_markup(markup: &str) -> (r: (Vec<TreeNode>, Vec<ego_tree::NodeId>, scraper::Html))
    ensures
        r.0@ == parsed_of(markup@).0,
        r.1@ == parsed_of(markup@).1,
        r.2 == parsed_of(markup@).2,
{
    let html = scraper::Html::parse_document(markup);
    let mut nodes: Vec<TreeNode> = Vec::new();
    let mut ids: Vec<ego_tree::NodeId> = Vec::new();
    let root = html.root_element().id();
    flatten(&html, root, &mut nodes, &mut ids);
    (nodes, ids, html)
}

/// Relies on ego_tree's child iteration: children come in document order, so
/// the depth-first walk fills the arena in preorder, parents before their
/// children. Only elements and text runs carry content; comments and the
/// like are left out.
#[verifier::external_body]
fn flatten(
    html: &scraper::Html,
    root: ego_tree::NodeId,
    nodes: &mut Vec<TreeNode>,
    ids: &mut Vec<ego_tree::NodeId>,
) {
    let mut stack: Vec<(ego_tree::NodeId, Option<usize>)> = vec![(root, None)];
    while let Some((id, parent)) = stack.pop() {
        let node = match html.tree.get(id) { Some(n) => n, None => continue };
        let kind = match raw_kind(html, id) { Some(k) => k, None => continue };
        let idx = nodes.len();
        nodes.push(TreeNode { kind, parent });
        ids.push(id);
        for child in node.children().rev() {
            stack.push((child.id(), Some(idx)));
        }
    }
}

/// Relies on the variants of scraper's node value: an element's name and
/// attributes, or a text run's content, become one arena record; other
/// kinds carry none.
#[verifier::external_body]
fn raw_kind(html: &scraper::Html, id: ego_tree::NodeId) -> Option<NodeKind> {
    match html.tree.get(id)?.value() {
        scraper::Node::Element(e) => Some(NodeKind::Element { name: e.name().to_string(), attrs: e.attrs().map(|(k, v)| (k.to_string(), v.to_string())).collect() }),
        scraper::Node::Text(t) => Some(NodeKind::Text { content: t.text.to_string() }),
        _ => None,
    }
}

/// Relies on backtrace::Backtrace::new to capture the call stack at the
/// failure site; nothing is assumed of the captured value.
#[verifier::external_body]
pub(crate) fn capture_backtrace() -> backtrace::Backtrace {
    backtrace::Backtrace::new()
}

/// Whether an executable parse outcome is the one the specification fixes:
/// same value on success, the stated message text on failure.
pub open spec fn text_result_matches<T>(r: Result<T, String>, fixed: Result<T, Seq<char>>) -> bool {
    match (r, fixed) {
        (Ok(v), Ok(w)) => v == w,
        (Err(m), Err(t)) => m@ == t,
        _ => false,
    }
}

/// A value parseable from extracted text; a failure is reported through the
/// parser's own display text.
pub trait FromText: Sized {
    /// What parsing this text yields, as the parser behind `from_text`
    /// fixes it: a function of the text alone.
    spec fn parse_of(s: Seq<char>) -> Result<Self, Seq<char>>;

    /// Parses `s`, or describes why it cannot be parsed.
    fn from_text(s: &str) -> (r: Result<Self, String>)
        ensures
            text_result_matches(r, Self::parse_of(s@)),
    ;
}

/// What `str::parse` yields for i64 on this text: the value, or the
/// error's display text.
pub uninterp spec fn i64_of_text(s: Seq<char>) -> Result<i64, Seq<char>>;

/// What `str::parse` yields for u64 on this text.
pub uninterp spec fn u64_of_text(s: Seq<char>) -> Result<u64, Seq<char>>;

/// What `str::parse` yields for usize on this text.
pub uninterp spec fn usize_of_text(s: Seq<char>) -> Result<usize, Seq<char>>;

/// What `str::parse` yields for bool on this text.
pub uninterp spec fn bool_of_text(s: Seq<char>) -> Result<bool, Seq<char>>;

/// Relies on str::parse for i64: the outcome depends on the string alone.
#[verifier::external_body]
fn parse_i64(s: &str) -> (r: Result<i64, String>)
    ensures
        text_result_matches(r, i64_of_text(s@)),
{
    s.parse::<i64>().map_err(|e| format!("{}", e))
}

/// Relies on str::parse for u64: the outcome depends on the string alone.
#[verifier::external_body]
fn parse_u64(s: &str) -> (r: Result<u64, String>)
    ensures
        text_result_matches(r, u64_of_text(s@)),
{
    s.parse::<u64>().map_err(|e| format!("{}", e))
}

/// Relies on str::parse for usize: the outcome depends on the string alone.
#[verifier::external_body]
fn parse_usize(s: &str) -> (r: Result<usize, String>)
    ensures
        text_result_matches(r, usize_of_text(s@)),
{
    s.parse::<usize>().map_err(|e| format!("{}", e))
}

/// Relies on str::parse for bool: the outcome depends on the string alone.
#[verifier::external_body]
fn parse_bool(s: &str) -> (r: Result<bool, String>)
    ensures
        text_result_matches(r, bool_of_text(s@)),
{
    s.parse::<bool>().map_err(|e| format!("{}", e))
}

impl FromText for i64 {
    open spec fn parse_of(s: Seq<char>) -> Result<i64, Seq<char>> {
        i64_of_text(s)
    }

    fn from_text(s: &str) -> (r: Result<i64, String>) {
        parse_i64(s)
    }
}

impl FromText for u64 {
    open spec fn parse_of(s: Seq<char>) -> Result<u64, Seq<char>> {
        u64_of_text(s)
    }

    fn from_text(s: &str) -> (r: Result<u64, String>) {
        parse_u64(s)
    }
}

impl FromText for usize {
    open spec fn parse_of(s: Seq<char>) -> Result<usize, Seq<char>> {
        usize_of_text(s)
    }

    fn from_text(s: &str) -> (r: Result<usize, String>) {
        parse_usize(s)
    }
}

impl FromText for bool {
    open spec fn parse_of(s: Seq<char>) -> Result<bool, Seq<char>> {
        bool_of_text(s)
    }

    fn from_text(s: &str) -> (r: Result<bool, String>) {
        parse_bool(s)
    }
}


} // verus!
