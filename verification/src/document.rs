use vstd::prelude::*;

verus! {

use crate::cache::ArenaCache;
use crate::ops::Operation;
use crate::ops::Reason;
use crate::ops::op_text;
use crate::ops::reason_text;
use crate::outside::capture_backtrace;
use crate::outside::compile_checked;
use crate::outside::compiled_of;
use crate::outside::matches_in;
use crate::outside::parse_markup;
use crate::outside::parsed_of;
use crate::outside::select_in;
use crate::outside::valid_selector;
use crate::outside::FromText;
use crate::tree::NodeKind;
use crate::tree::TreeNode;
use crate::tree::attr_find;
use crate::tree::attr_lookup;
use crate::tree::collect_multiline;
use crate::tree::collect_text;
use crate::tree::find_child;
use crate::tree::normalize;
use crate::tree::nth_child;
use crate::tree::render_node;
use crate::tree::render_node_exec;
use crate::tree::subtree_multiline;
use crate::tree::subtree_text;
use crate::tree::tree_wf;
use crate::tree::trim_str;
use crate::tree::trimmed;

/// One record of the derivation arena: the derivation step that produced a
/// node. `source` is the arena index of the record it was derived from,
/// `None` when it was derived from the document itself; `element` is the
/// arena index of the tree element the node denotes.
#[derive(Debug)]
pub struct Deriv {
    pub source: Option<usize>,
    pub operation: Operation,
    pub element: usize,
}

/// A parsed document: the element tree, the derivation records of every node
/// handed out so far, and the memoizing cache of compiled selectors. The
/// trees of the outside parser are kept alongside for the selector engine.
pub struct Document {
    nodes: Vec<TreeNode>,
    ids: Vec<ego_tree::NodeId>,
    html: scraper::Html,
    derivs: Vec<Deriv>,
    cache: ArenaCache<scraper::Selector>,
}

/// A queryable view into the tree, produced by the document or by one
/// operation applied to a prior node: a handle into the derivation arena.
#[derive(Clone, Copy, Debug)]
pub struct Node {
    deriv: usize,
}

/// A terminal failure: the reason, the operations from the root to the
/// failing step (the failing one last), one document snapshot per chain
/// level (root first), and a captured call stack.
#[derive(Debug)]
pub struct Error {
    pub reason: Reason,
    pub operations: Vec<Operation>,
    pub snapshots: Vec<String>,
    pub backtrace: backtrace::Backtrace,
}

/// A forward-only cursor over the elements one selector matched: each item
/// it yields becomes a node whose operation records the selector and the
/// running position in this traversal.
#[derive(Debug)]
pub struct Collection {
    source: Option<usize>,
    selector: String,
    matches: Vec<usize>,
    pos: usize,
}

/// An extracted string value, tied to the node it was extracted from by the
/// operation that extracted it.
#[derive(Debug)]
pub struct Text {
    source: usize,
    operation: Operation,
    value: String,
}

/// How far source links can run from here: a measure for walking them.
pub open spec fn src_rank(src: Option<usize>) -> int {
    match src {
        None => 0,
        Some(s) => s + 1,
    }
}

/// The source link points into the derivation arena.
pub open spec fn src_ok(doc: Document, src: Option<usize>) -> bool {
    match src {
        None => true,
        Some(s) => s < doc.chain().len(),
    }
}

impl Document {
    /// The arena view of the element tree.
    pub closed spec fn tree(&self) -> Seq<TreeNode> {
        self.nodes@
    }

    /// The derivation records made so far, in the order they were made.
    pub closed spec fn chain(&self) -> Seq<Deriv> {
        self.derivs@
    }

    /// The table of the outside tree id of each arena node.
    pub closed spec fn id_table(&self) -> Seq<ego_tree::NodeId> {
        self.ids@
    }

    /// The parsed tree value the selector engine works on.
    pub closed spec fn html_value(&self) -> scraper::Html {
        self.html
    }

    /// How many distinct selectors have been compiled and cached.
    pub closed spec fn cache_len(&self) -> nat {
        self.cache.len()
    }

    /// A derivation record in order: its source precedes it, and it denotes
    /// an element node of the tree.
    pub open spec fn deriv_ok(&self, d: int) -> bool {
        &&& 0 <= d < self.chain().len()
        &&& (self.chain()[d].source matches Some(s) ==> s < d)
        &&& self.chain()[d].element < self.tree().len()
        &&& self.tree()[self.chain()[d].element as int].kind is Element
    }

    /// The document invariant: a well-formed tree, every derivation record
    /// in order, and the cache holding exactly the compiled form of each of
    /// its keys.
    pub closed spec fn wf(&self) -> bool {
        &&& tree_wf(self.nodes@)
        &&& forall|d: int| 0 <= d < self.derivs@.len() ==> #[trigger] self.deriv_ok(d)
        &&& self.cache.wf()
        &&& forall|i: int|
            0 <= i < self.cache.len() ==> #[trigger] self.cache.val_at(i) == compiled_of(
                self.cache.key_at(i),
            )
    }

    /// What matching a selector under the subtree of element `e` yields:
    /// the outside matcher's answer, kept to in-range element positions.
    pub closed spec fn sel_matches(&self, e: usize, sel: Seq<char>) -> Seq<usize> {
        keep_valid_spec(matches_in(self.html, self.ids@, e, compiled_of(sel)), self.nodes@)
    }
}

/// `raw` restricted, in order, to positions that denote element nodes.
pub open spec fn keep_valid_spec(raw: Seq<usize>, nodes: Seq<TreeNode>) -> Seq<usize>
    decreases raw.len(),
{
    if raw.len() == 0 {
        Seq::empty()
    } else {
        keep_valid_spec(raw.drop_last(), nodes) + if raw.last() < nodes.len()
            && nodes[raw.last() as int].kind is Element {
            seq![raw.last()]
        } else {
            Seq::empty()
        }
    }
}

proof fn lemma_keep_valid_members(raw: Seq<usize>, nodes: Seq<TreeNode>)
    ensures
        forall|k: int|
            0 <= k < keep_valid_spec(raw, nodes).len() ==> (#[trigger] keep_valid_spec(
                raw,
                nodes,
            )[k]) < nodes.len() && nodes[keep_valid_spec(raw, nodes)[k] as int].kind is Element,
    decreases raw.len(),
{
    if raw.len() > 0 {
        lemma_keep_valid_members(raw.drop_last(), nodes);
        let whole = keep_valid_spec(raw, nodes);
        let prefix = keep_valid_spec(raw.drop_last(), nodes);
        assert forall|k: int|
            0 <= k < whole.len() implies (#[trigger] whole[k]) < nodes.len()
            && nodes[whole[k] as int].kind is Element by {
            if k < prefix.len() {
                assert(whole[k] == prefix[k]);
            } else {
                assert(whole[k] == raw.last());
            }
        }
    }
}

fn keep_valid(raw: Vec<usize>, nodes: &Vec<TreeNode>) -> (r: Vec<usize>)
    ensures
        r@ == keep_valid_spec(raw@, nodes@),
{
    let m = raw.len();
    let mut r: Vec<usize> = Vec::new();
    let mut j: usize = 0;
    while j < m
        invariant
            j <= m,
            m == raw@.len(),
            r@ == keep_valid_spec(raw@.subrange(0, j as int), nodes@),
        decreases m - j,
    {
        let ghost pre = r@;
        let candidate = raw[j];
        let keep = candidate < nodes.len() && matches!(
            nodes[candidate].kind,
            crate::tree::NodeKind::Element { .. },
        );
        if keep {
            r.push(candidate);
        }
        proof {
            let part = raw@.subrange(0, j + 1);
            assert(part.drop_last() =~= raw@.subrange(0, j as int));
            assert(part.last() == raw@[j as int]);
            assert(r@ =~= keep_valid_spec(part, nodes@));
        }
        j += 1;
    }
    proof {
        assert(raw@.subrange(0, m as int) =~= raw@);
    }
    r
}

/// The operations along the source chain ending at `src`, root first.
pub closed spec fn doc_ops(doc: Document, src: Option<usize>) -> Seq<Operation>
    decreases src_rank(src),
    when src_ok(doc, src) && doc.wf()
    via doc_ops_decreases
{
    match src {
        None => Seq::empty(),
        Some(s) => doc_ops(doc, doc.chain()[s as int].source).push(
            doc.chain()[s as int].operation,
        ),
    }
}

#[via_fn]
proof fn doc_ops_decreases(doc: Document, src: Option<usize>) {
    if src_ok(doc, src) && doc.wf() {
        if let Some(s) = src {
            assert(doc.deriv_ok(s as int));
        }
    }
}

/// The subtree snapshots along the source chain ending at `src`: the root's
/// rendering first, then the rendering of each derived element in turn.
pub closed spec fn doc_snaps(doc: Document, src: Option<usize>) -> Seq<Seq<char>>
    decreases src_rank(src),
    when src_ok(doc, src) && doc.wf()
    via doc_snaps_decreases
{
    match src {
        None => seq![render_node(doc.tree(), 0)],
        Some(s) => doc_snaps(doc, doc.chain()[s as int].source).push(
            render_node(doc.tree(), doc.chain()[s as int].element as int),
        ),
    }
}

#[via_fn]
proof fn doc_snaps_decreases(doc: Document, src: Option<usize>) {
    if src_ok(doc, src) && doc.wf() {
        if let Some(s) = src {
            assert(doc.deriv_ok(s as int));
        }
    }
}

/// How many chained operations lead to `src`.
pub closed spec fn doc_depth(doc: Document, src: Option<usize>) -> nat
    decreases src_rank(src),
    when src_ok(doc, src) && doc.wf()
    via doc_depth_decreases
{
    match src {
        None => 0,
        Some(s) => doc_depth(doc, doc.chain()[s as int].source) + 1,
    }
}

#[via_fn]
proof fn doc_depth_decreases(doc: Document, src: Option<usize>) {
    if src_ok(doc, src) && doc.wf() {
        if let Some(s) = src {
            assert(doc.deriv_ok(s as int));
        }
    }
}

/// What the document invariant gives of the parts: a well-formed tree, and
/// every derivation record in order.
pub proof fn lemma_wf_parts(doc: Document)
    requires
        doc.wf(),
    ensures
        tree_wf(doc.tree()),
        forall|d: int| 0 <= d < doc.chain().len() ==> #[trigger] doc.deriv_ok(d),
{
}

/// The chain reconstruction at the document itself: no operations, depth
/// zero, and the root's rendering as the one snapshot.
pub proof fn lemma_chain_base(doc: Document)
    requires
        doc.wf(),
    ensures
        doc_ops(doc, None) == Seq::<Operation>::empty(),
        doc_depth(doc, None) == 0,
        doc_snaps(doc, None) == seq![render_node(doc.tree(), 0)],
{
}

/// Unfolds the reconstructed chain one step: at a record, the operations
/// are those at its source followed by the record's own operation, the
/// snapshots gain the record's element rendering, and the depth grows by
/// one.
pub proof fn lemma_chain_unfold(doc: Document, d: usize)
    requires
        doc.wf(),
        d < doc.chain().len(),
    ensures
        doc_ops(doc, Some(d)) == doc_ops(doc, doc.chain()[d as int].source).push(
            doc.chain()[d as int].operation,
        ),
        doc_snaps(doc, Some(d)) == doc_snaps(doc, doc.chain()[d as int].source).push(
            render_node(doc.tree(), doc.chain()[d as int].element as int),
        ),
        doc_depth(doc, Some(d)) == doc_depth(doc, doc.chain()[d as int].source) + 1,
{
    assert(doc.deriv_ok(d as int));
}

/// The error half of the derivation-chain law: an error the chain protocol
/// assembled at a context reached by `k` chained operations carries exactly
/// `k + 1` operations and `k + 1` snapshots.
pub proof fn lemma_error_chain_length(e: Error, doc: Document, src: Option<usize>)
    requires
        doc.wf(),
        src_ok(doc, src),
        chain_error(e, doc, src),
    ensures
        e.operations@.len() == doc_depth(doc, src) + 1,
        e.snapshots@.len() == doc_depth(doc, src) + 1,
{
    lemma_chain_length(doc, src);
    assert(e.snapshots@.len() == e.snapshots.deep_view().len());
}

/// The derivation-chain law: a context reached by `k` chained operations
/// reconstructs an operation list of length exactly `k`, and one document
/// snapshot per chain level, the root included, so `k + 1` of those. An
/// error raised there appends the one failing operation to the list.
pub proof fn lemma_chain_length(doc: Document, src: Option<usize>)
    requires
        doc.wf(),
        src_ok(doc, src),
    ensures
        doc_ops(doc, src).len() == doc_depth(doc, src),
        doc_snaps(doc, src).len() == doc_depth(doc, src) + 1,
    decreases src_rank(src),
{
    match src {
        None => {},
        Some(s) => {
            assert(doc.deriv_ok(s as int));
            lemma_chain_length(doc, doc.chain()[s as int].source);
        },
    }
}

impl Document {
    /// Walks the source chain, collecting each record's operation, root
    /// first.
    fn collect_operations(&self, src: Option<usize>) -> (ops: Vec<Operation>)
        requires
            self.wf(),
            src_ok(*self, src),
        ensures
            ops@ == doc_ops(*self, src),
        decreases src_rank(src),
    {
        match src {
            None => Vec::new(),
            Some(s) => {
                proof {
                    assert(self.deriv_ok(s as int));
                }
                let rec = self.derivs[s].source;
                let mut ops = self.collect_operations(rec);
                ops.push(self.derivs[s].operation.duplicate());
                ops
            },
        }
    }

    /// Walks the source chain, rendering one subtree snapshot per level,
    /// the document root's rendering first.
    fn collect_snapshots(&self, src: Option<usize>) -> (sss: Vec<String>)
        requires
            self.wf(),
            src_ok(*self, src),
        ensures
            sss.deep_view() == doc_snaps(*self, src),
        decreases src_rank(src),
    {
        match src {
            None => {
                let mut v: Vec<String> = Vec::new();
                v.push(render_node_exec(&self.nodes, 0));
                proof {
                    assert(v.deep_view() =~= doc_snaps(*self, None));
                }
                v
            },
            Some(s) => {
                proof {
                    assert(self.deriv_ok(s as int));
                }
                let rec = self.derivs[s].source;
                let mut v = self.collect_snapshots(rec);
                v.push(render_node_exec(&self.nodes, self.derivs[s].element));
                proof {
                    assert(v.deep_view() =~= doc_snaps(*self, src));
                }
                v
            },
        }
    }

    /// Builds the error for a failure at the context whose source link is
    /// `src`: the chain's operations with the failing one appended, and the
    /// chain's snapshots.
    fn make_error(&self, src: Option<usize>, reason: Reason, failing: Operation) -> (e: Error)
        requires
            self.wf(),
            src_ok(*self, src),
        ensures
            e.reason == reason,
            e.operations@ == doc_ops(*self, src).push(failing),
            e.snapshots.deep_view() == doc_snaps(*self, src),
    {
        let mut operations = self.collect_operations(src);
        operations.push(failing);
        let snapshots = self.collect_snapshots(src);
        Error { reason, operations, snapshots, backtrace: capture_backtrace() }
    }
}

/// Derivation records are append-only: reconstruction at an existing record
/// is unchanged by later records, as long as the tree stands.
pub proof fn lemma_chain_extend(d0: Document, d1: Document, src: Option<usize>)
    requires
        d0.wf(),
        d1.wf(),
        d1.tree() == d0.tree(),
        d0.chain().len() <= d1.chain().len(),
        forall|j: int| 0 <= j < d0.chain().len() ==> d1.chain()[j] == d0.chain()[j],
        src_ok(d0, src),
    ensures
        doc_ops(d1, src) == doc_ops(d0, src),
        doc_snaps(d1, src) == doc_snaps(d0, src),
        doc_depth(d1, src) == doc_depth(d0, src),
    decreases src_rank(src),
{
    match src {
        None => {},
        Some(s) => {
            assert(d0.deriv_ok(s as int));
            assert(d1.chain()[s as int] == d0.chain()[s as int]);
            lemma_chain_extend(d0, d1, d0.chain()[s as int].source);
        },
    }
}

impl Node {
    /// The derivation record this handle stands for.
    pub closed spec fn idx(&self) -> usize {
        self.deriv
    }

    /// The handle points into the document's derivation arena.
    pub open spec fn valid(&self, doc: Document) -> bool {
        self.idx() < doc.chain().len()
    }

    /// The tree element this node denotes.
    pub open spec fn elem(&self, doc: Document) -> usize {
        doc.chain()[self.idx() as int].element
    }
}

impl Collection {
    /// The source record of every node this cursor yields.
    pub closed spec fn src(&self) -> Option<usize> {
        self.source
    }

    /// The selector string this cursor was made with.
    pub closed spec fn sel_string(&self) -> String {
        self.selector
    }

    /// The selector, as a character sequence.
    pub open spec fn sel(&self) -> Seq<char> {
        self.sel_string()@
    }

    /// The matched elements, in document order.
    pub closed spec fn items(&self) -> Seq<usize> {
        self.matches@
    }

    /// How many items were yielded already.
    pub closed spec fn cursor(&self) -> usize {
        self.pos
    }

    /// The cursor fits the document: its source record exists and every
    /// matched position denotes an element of the tree.
    pub open spec fn wf_for(&self, doc: Document) -> bool {
        &&& src_ok(doc, self.src())
        &&& forall|k: int|
            0 <= k < self.items().len() ==> (#[trigger] self.items()[k]) < doc.tree().len()
                && doc.tree()[self.items()[k] as int].kind is Element
        &&& self.cursor() <= self.items().len()
    }
}

impl Text {
    /// The derivation record of the node this text was extracted from.
    pub closed spec fn src(&self) -> usize {
        self.source
    }

    /// The operation that extracted this text.
    pub closed spec fn op(&self) -> Operation {
        self.operation
    }

    /// The extracted characters.
    pub closed spec fn val(&self) -> Seq<char> {
        self.value@
    }

    /// The text's source points into the document's derivation arena.
    pub open spec fn valid(&self, doc: Document) -> bool {
        self.src() < doc.chain().len()
    }
}

/// The one mutation queries make besides caching: nothing about the tree,
/// the parsed source, or what selectors match has changed.
pub open spec fn preserves_queries(d0: Document, d1: Document) -> bool {
    &&& d1.wf()
    &&& d1.tree() == d0.tree()
    &&& d1.id_table() == d0.id_table()
    &&& d1.html_value() == d0.html_value()
    &&& forall|e: usize, s: Seq<char>| d1.sel_matches(e, s) == d0.sel_matches(e, s)
}

/// Documents whose parsed source agrees see the same matches for every
/// selector: two documents built from equal markup, or one document before
/// and after any chain of queries, answer alike.
pub proof fn lemma_same_source_same_matches(d0: Document, d1: Document, e: usize, sel: Seq<char>)
    requires
        d0.tree() == d1.tree(),
        d0.id_table() == d1.id_table(),
        d0.html_value() == d1.html_value(),
    ensures
        d0.sel_matches(e, sel) == d1.sel_matches(e, sel),
{
}

/// Two separate runs over the same selector see the same matches: what a
/// query preserves fixes every later answer, so iterating `find_all` twice
/// yields equal result sets.
pub proof fn lemma_find_all_repeatable(d0: Document, d1: Document, e: usize, sel: Seq<char>)
    requires
        preserves_queries(d0, d1),
    ensures
        d1.sel_matches(e, sel) == d0.sel_matches(e, sel),
{
}

/// The shape of every error the chain protocol builds for a context whose
/// source link is `src`: the chain's operations plus one failing operation,
/// and the chain's snapshots, root first.
pub open spec fn chain_error(e: Error, doc: Document, src: Option<usize>) -> bool {
    &&& e.operations@.len() == doc_ops(doc, src).len() + 1
    &&& e.operations@.drop_last() == doc_ops(doc, src)
    &&& e.snapshots.deep_view() == doc_snaps(doc, src)
}

/// What `find` did: with exactly one match a new node on that match, with
/// zero matches a NotFound error, with several a MultipleFound error.
pub open spec fn find_post(
    d0: Document,
    d1: Document,
    source: Option<usize>,
    element: usize,
    sel: Seq<char>,
    r: Result<Node, Error>,
) -> bool {
    let ms = d0.sel_matches(element, sel);
    &&& preserves_queries(d0, d1)
    &&& ms.len() == 1 ==> {
        &&& r matches Ok(n) && n.idx() == d0.chain().len()
        &&& d1.chain().len() == d0.chain().len() + 1
        &&& forall|j: int| 0 <= j < d0.chain().len() ==> d1.chain()[j] == d0.chain()[j]
        &&& d1.chain().last().source == source
        &&& d1.chain().last().element == ms[0]
        &&& (d1.chain().last().operation matches Operation::Find { selector: st } && st@ == sel)
    }
    &&& ms.len() != 1 ==> {
        &&& d1.chain() == d0.chain()
        &&& r matches Err(e) && {
            &&& ms.len() == 0 ==> e.reason is NotFound
            &&& ms.len() >= 2 ==> e.reason is MultipleFound
            &&& chain_error(e, d0, source)
            &&& (e.operations@.last() matches Operation::Find { selector: st } && st@ == sel)
        }
    }
}

/// What `find_first` did: with at least one match a new node on the first,
/// with none a NotFound error.
pub open spec fn find_first_post(
    d0: Document,
    d1: Document,
    source: Option<usize>,
    element: usize,
    sel: Seq<char>,
    r: Result<Node, Error>,
) -> bool {
    let ms = d0.sel_matches(element, sel);
    &&& preserves_queries(d0, d1)
    &&& ms.len() >= 1 ==> {
        &&& r matches Ok(n) && n.idx() == d0.chain().len()
        &&& d1.chain().len() == d0.chain().len() + 1
        &&& forall|j: int| 0 <= j < d0.chain().len() ==> d1.chain()[j] == d0.chain()[j]
        &&& d1.chain().last().source == source
        &&& d1.chain().last().element == ms[0]
        &&& (d1.chain().last().operation matches Operation::FindFirst { selector: st } && st@
            == sel)
    }
    &&& ms.len() == 0 ==> {
        &&& d1.chain() == d0.chain()
        &&& r matches Err(e) && {
            &&& e.reason is NotFound
            &&& chain_error(e, d0, source)
            &&& (e.operations@.last() matches Operation::FindFirst { selector: st } && st@ == sel)
        }
    }
}

/// What `find_nth` did: with more than `index` matches a new node on the
/// zero-based `index`-th one, otherwise a NotFound error.
pub open spec fn find_nth_post(
    d0: Document,
    d1: Document,
    source: Option<usize>,
    element: usize,
    sel: Seq<char>,
    index: usize,
    r: Result<Node, Error>,
) -> bool {
    let ms = d0.sel_matches(element, sel);
    &&& preserves_queries(d0, d1)
    &&& ms.len() > index ==> {
        &&& r matches Ok(n) && n.idx() == d0.chain().len()
        &&& d1.chain().len() == d0.chain().len() + 1
        &&& forall|j: int| 0 <= j < d0.chain().len() ==> d1.chain()[j] == d0.chain()[j]
        &&& d1.chain().last().source == source
        &&& d1.chain().last().element == ms[index as int]
        &&& (d1.chain().last().operation matches Operation::FindNth { selector: st, index: ix }
            && st@ == sel && ix == index)
    }
    &&& ms.len() <= index ==> {
        &&& d1.chain() == d0.chain()
        &&& r matches Err(e) && {
            &&& e.reason is NotFound
            &&& chain_error(e, d0, source)
            &&& (e.operations@.last() matches Operation::FindNth { selector: st, index: ix } && st@
                == sel && ix == index)
        }
    }
}

/// What `find_all` did: a fresh cursor over exactly the matches under
/// `element`, tagged with its selector and source; the document's records
/// are untouched.
pub open spec fn find_all_post(
    d0: Document,
    d1: Document,
    source: Option<usize>,
    element: usize,
    sel: Seq<char>,
    c: Collection,
) -> bool {
    &&& preserves_queries(d0, d1)
    &&& d1.chain() == d0.chain()
    &&& c.src() == source
    &&& c.sel() == sel
    &&& c.items() == d0.sel_matches(element, sel)
    &&& c.cursor() == 0
    &&& c.wf_for(d1)
}

impl Document {
    /// Compiles `selector` through the cache: at most one compilation per
    /// distinct selector string for the life of the document.
    fn compile(&mut self, selector: &str) -> (i: usize)
        requires
            old(self).wf(),
            valid_selector(selector@),
        ensures
            final(self).wf(),
            final(self).tree() == old(self).tree(),
            final(self).id_table() == old(self).id_table(),
            final(self).html_value() == old(self).html_value(),
            final(self).chain() == old(self).chain(),
            forall|e2: usize, s2: Seq<char>|
                final(self).sel_matches(e2, s2) == old(self).sel_matches(e2, s2),
            final(self).cache.wf(),
            i < final(self).cache.len(),
            final(self).cache.val_at(i as int) == compiled_of(selector@),
    {
        let compute = |s: &str| -> (r: scraper::Selector)
            requires
                valid_selector(s@),
            ensures
                r == compiled_of(s@),
            {
                compile_sel(s)
            };
        let i = self.cache.query(selector, compute);
        proof {
            assert forall|j: int|
                0 <= j < self.cache.len() implies #[trigger] self.cache.val_at(j) == compiled_of(
                self.cache.key_at(j),
            ) by {
                if j < old(self).cache.len() {
                    assert(old(self).cache.val_at(j) == compiled_of(old(self).cache.key_at(j)));
                }
            }
            assert forall|d: int| 0 <= d < self.derivs@.len() implies #[trigger] self.deriv_ok(
                d,
            ) by {
                assert(old(self).deriv_ok(d));
            }
        }
        i
    }
}

/// Compiles a selector that is known to be accepted.
fn compile_sel(s: &str) -> (r: scraper::Selector)
    requires
        valid_selector(s@),
    ensures
        r == compiled_of(s@),
{
    match compile_checked(s) {
        Some(c) => c,
        None => vstd::pervasive::unreached(),
    }
}

/// Creates one derivation record and the node handle onto it.
fn push_deriv(doc: &mut Document, source: Option<usize>, operation: Operation, element: usize) -> (n:
    Node)
    requires
        old(doc).wf(),
        src_ok(*old(doc), source),
        element < old(doc).tree().len(),
        old(doc).tree()[element as int].kind is Element,
    ensures
        final(doc).wf(),
        final(doc).tree() == old(doc).tree(),
        final(doc).id_table() == old(doc).id_table(),
        final(doc).html_value() == old(doc).html_value(),
        forall|e2: usize, s2: Seq<char>|
            final(doc).sel_matches(e2, s2) == old(doc).sel_matches(e2, s2),
        final(doc).chain() == old(doc).chain().push(Deriv { source, operation, element }),
        n.idx() == old(doc).chain().len(),
{
    let n = doc.derivs.len();
    doc.derivs.push(Deriv { source, operation, element });
    proof {
        assert forall|d: int| 0 <= d < doc.derivs@.len() implies #[trigger] doc.deriv_ok(d) by {
            if d < old(doc).derivs@.len() {
                assert(old(doc).deriv_ok(d));
            }
        }
    }
    Node { deriv: n }
}

/// Runs the matcher for one selector under one element, after compiling the
/// selector through the cache.
fn find_all_in(doc: &mut Document, source: Option<usize>, element: usize, selector: &str) -> (c:
    Collection)
    requires
        old(doc).wf(),
        src_ok(*old(doc), source),
        valid_selector(selector@),
        element < old(doc).tree().len(),
    ensures
        find_all_post(*old(doc), *final(doc), source, element, selector@, c),
{
    let ci = doc.compile(selector);
    let sel = doc.cache.get(ci);
    let raw = select_in(&doc.html, &doc.ids, element, sel);
    let matches = keep_valid(raw, &doc.nodes);
    proof {
        lemma_keep_valid_members(raw@, doc.nodes@);
    }
    Collection { source, selector: selector.to_owned(), matches, pos: 0 }
}

fn find_in(doc: &mut Document, source: Option<usize>, element: usize, selector: &str) -> (r: Result<
    Node,
    Error,
>)
    requires
        old(doc).wf(),
        src_ok(*old(doc), source),
        valid_selector(selector@),
        element < old(doc).tree().len(),
    ensures
        find_post(*old(doc), *final(doc), source, element, selector@, r),
{
    let c = find_all_in(doc, source, element, selector);
    let own = selector.to_owned();
    if c.matches.len() == 1 {
        let elem = c.matches[0];
        Ok(push_deriv(doc, source, Operation::Find { selector: own }, elem))
    } else {
        proof {
            lemma_chain_extend(*old(doc), *doc, source);
        }
        let reason = if c.matches.len() == 0 {
            Reason::NotFound
        } else {
            Reason::MultipleFound
        };
        let e = doc.make_error(source, reason, Operation::Find { selector: own });
        proof {
            assert(e.operations@.drop_last() =~= doc_ops(*old(doc), source));
        }
        Err(e)
    }
}

fn find_first_in(doc: &mut Document, source: Option<usize>, element: usize, selector: &str) -> (r:
    Result<Node, Error>)
    requires
        old(doc).wf(),
        src_ok(*old(doc), source),
        valid_selector(selector@),
        element < old(doc).tree().len(),
    ensures
        find_first_post(*old(doc), *final(doc), source, element, selector@, r),
{
    let c = find_all_in(doc, source, element, selector);
    let own = selector.to_owned();
    if c.matches.len() >= 1 {
        let elem = c.matches[0];
        Ok(push_deriv(doc, source, Operation::FindFirst { selector: own }, elem))
    } else {
        proof {
            lemma_chain_extend(*old(doc), *doc, source);
        }
        let e = doc.make_error(source, Reason::NotFound, Operation::FindFirst { selector: own });
        proof {
            assert(e.operations@.drop_last() =~= doc_ops(*old(doc), source));
        }
        Err(e)
    }
}

fn find_nth_in(
    doc: &mut Document,
    source: Option<usize>,
    element: usize,
    selector: &str,
    index: usize,
) -> (r: Result<Node, Error>)
    requires
        old(doc).wf(),
        src_ok(*old(doc), source),
        valid_selector(selector@),
        element < old(doc).tree().len(),
    ensures
        find_nth_post(*old(doc), *final(doc), source, element, selector@, index, r),
{
    let c = find_all_in(doc, source, element, selector);
    let own = selector.to_owned();
    if index < c.matches.len() {
        let elem = c.matches[index];
        Ok(push_deriv(doc, source, Operation::FindNth { selector: own, index }, elem))
    } else {
        proof {
            lemma_chain_extend(*old(doc), *doc, source);
        }
        let e = doc.make_error(
            source,
            Reason::NotFound,
            Operation::FindNth { selector: own, index },
        );
        proof {
            assert(e.operations@.drop_last() =~= doc_ops(*old(doc), source));
        }
        Err(e)
    }
}

impl Document {
    /// Parses markup into a document. Parsing itself is the outside parser's
    /// work and never fails; its named output is kept whole whenever it is
    /// well-formed, and normalized into a well-formed arena otherwise. No
    /// derivation records exist yet and no selector has been compiled.
    pub fn new(markup: &str) -> (d: Document)
        ensures
            d.wf(),
            d.chain().len() == 0,
            d.cache_len() == 0,
            tree_wf(d.tree()),
            d.id_table() == parsed_of(markup@).1,
            d.html_value() == parsed_of(markup@).2,
            tree_wf(parsed_of(markup@).0) ==> d.tree() == parsed_of(markup@).0,
    {
        let (raw, ids, html) = parse_markup(markup);
        let nodes = normalize(raw);
        Document { nodes, ids, html, derivs: Vec::new(), cache: ArenaCache::new() }
    }

    /// Renders the whole document.
    pub fn html(&self) -> (r: String)
        requires
            self.wf(),
        ensures
            r@ == render_node(self.tree(), 0),
    {
        render_node_exec(&self.nodes, 0)
    }

    /// Finds the element matching `selector` under the document root,
    /// failing when there is none or more than one.
    pub fn find(&mut self, selector: &str) -> (r: Result<Node, Error>)
        requires
            old(self).wf(),
            valid_selector(selector@),
        ensures
            find_post(*old(self), *final(self), None, 0, selector@, r),
    {
        find_in(self, None, 0, selector)
    }

    /// Finds the first element matching `selector` under the document root.
    pub fn find_first(&mut self, selector: &str) -> (r: Result<Node, Error>)
        requires
            old(self).wf(),
            valid_selector(selector@),
        ensures
            find_first_post(*old(self), *final(self), None, 0, selector@, r),
    {
        find_first_in(self, None, 0, selector)
    }

    /// Finds the zero-based `index`-th element matching `selector` under the
    /// document root.
    pub fn find_nth(&mut self, selector: &str, index: usize) -> (r: Result<Node, Error>)
        requires
            old(self).wf(),
            valid_selector(selector@),
        ensures
            find_nth_post(*old(self), *final(self), None, 0, selector@, index, r),
    {
        find_nth_in(self, None, 0, selector, index)
    }

    /// All elements matching `selector` under the document root, as a
    /// forward-only cursor. An empty collection is not a failure.
    pub fn find_all(&mut self, selector: &str) -> (c: Collection)
        requires
            old(self).wf(),
            valid_selector(selector@),
        ensures
            find_all_post(*old(self), *final(self), None, 0, selector@, c),
    {
        find_all_in(self, None, 0, selector)
    }

    /// Like `find`, testing the selector first: `None` exactly when the
    /// selector string is one the selector engine does not accept.
    pub fn find_checked(&mut self, selector: &str) -> (r: Option<Result<Node, Error>>)
        requires
            old(self).wf(),
        ensures
            r is Some <==> valid_selector(selector@),
            r matches Some(res) ==> find_post(*old(self), *final(self), None, 0, selector@, res),
            r is None ==> *final(self) == *old(self),
    {
        match compile_checked(selector) {
            Some(_) => Some(self.find(selector)),
            None => None,
        }
    }

    /// Like `find_first`, testing the selector first.
    pub fn find_first_checked(&mut self, selector: &str) -> (r: Option<Result<Node, Error>>)
        requires
            old(self).wf(),
        ensures
            r is Some <==> valid_selector(selector@),
            r matches Some(res) ==> find_first_post(
                *old(self),
                *final(self),
                None,
                0,
                selector@,
                res,
            ),
            r is None ==> *final(self) == *old(self),
    {
        match compile_checked(selector) {
            Some(_) => Some(self.find_first(selector)),
            None => None,
        }
    }

    /// Like `find_nth`, testing the selector first.
    pub fn find_nth_checked(&mut self, selector: &str, index: usize) -> (r: Option<
        Result<Node, Error>,
    >)
        requires
            old(self).wf(),
        ensures
            r is Some <==> valid_selector(selector@),
            r matches Some(res) ==> find_nth_post(
                *old(self),
                *final(self),
                None,
                0,
                selector@,
                index,
                res,
            ),
            r is None ==> *final(self) == *old(self),
    {
        match compile_checked(selector) {
            Some(_) => Some(self.find_nth(selector, index)),
            None => None,
        }
    }

    /// Like `find_all`, testing the selector first.
    pub fn find_all_checked(&mut self, selector: &str) -> (r: Option<Collection>)
        requires
            old(self).wf(),
        ensures
            r is Some <==> valid_selector(selector@),
            r matches Some(c) ==> find_all_post(*old(self), *final(self), None, 0, selector@, c),
            r is None ==> *final(self) == *old(self),
    {
        match compile_checked(selector) {
            Some(_) => Some(self.find_all(selector)),
            None => None,
        }
    }

    /// Raises a caller-defined failure at the document itself: the chain is
    /// empty, so the error carries the message, the one External operation,
    /// and the root snapshot.
    pub fn error(&self, message: String) -> (e: Error)
        requires
            self.wf(),
        ensures
            e.reason == Reason::Logic(message),
            chain_error(e, *self, None),
            e.operations@.last() == Operation::External,
    {
        let e = self.make_error(None, Reason::Logic(message), Operation::External);
        proof {
            assert(e.operations@.drop_last() =~= doc_ops(*self, None));
        }
        e
    }
}

impl Collection {
    /// Yields the next matched node, if one is left: a fresh node whose
    /// operation records the selector and the running position in this
    /// traversal. Forward-only; an exhausted cursor stays exhausted.
    pub fn next(&mut self, doc: &mut Document) -> (r: Option<Node>)
        requires
            old(doc).wf(),
            old(self).wf_for(*old(doc)),
        ensures
            preserves_queries(*old(doc), *final(doc)),
            final(self).wf_for(*final(doc)),
            final(self).src() == old(self).src(),
            final(self).sel_string() == old(self).sel_string(),
            final(self).items() == old(self).items(),
            old(self).cursor() < old(self).items().len() ==> {
                &&& r matches Some(n) && n.idx() == old(doc).chain().len()
                &&& final(doc).chain() == old(doc).chain().push(
                    Deriv {
                        source: old(self).src(),
                        operation: Operation::FindAll {
                            selector: old(self).sel_string(),
                            index: old(self).cursor(),
                        },
                        element: old(self).items()[old(self).cursor() as int],
                    },
                )
                &&& final(self).cursor() == old(self).cursor() + 1
            },
            old(self).cursor() >= old(self).items().len() ==> r is None && *final(doc) == *old(doc)
                && *final(self) == *old(self),
    {
        if self.pos < self.matches.len() {
            let elem = self.matches[self.pos];
            proof {
                assert(old(self).items()[old(self).cursor() as int] == elem);
            }
            let op = Operation::FindAll { selector: self.selector.clone(), index: self.pos };
            let n = push_deriv(doc, self.source, op, elem);
            self.pos = self.pos + 1;
            Some(n)
        } else {
            None
        }
    }

    /// How many matched items this cursor still has to yield.
    pub fn remaining(&self) -> (r: usize)
        requires
            self.cursor() <= self.items().len(),
        ensures
            r == self.items().len() - self.cursor(),
    {
        self.matches.len() - self.pos
    }
}

impl Node {
    /// Finds the element matching `selector` under this node's subtree,
    /// failing when there is none or more than one.
    pub fn find(&self, doc: &mut Document, selector: &str) -> (r: Result<Node, Error>)
        requires
            old(doc).wf(),
            self.valid(*old(doc)),
            valid_selector(selector@),
        ensures
            find_post(*old(doc), *final(doc), Some(self.idx()), self.elem(*old(doc)), selector@, r),
    {
        proof {
            assert(old(doc).deriv_ok(self.deriv as int));
        }
        let element = doc.derivs[self.deriv].element;
        find_in(doc, Some(self.deriv), element, selector)
    }

    /// Finds the first element matching `selector` under this node's subtree.
    pub fn find_first(&self, doc: &mut Document, selector: &str) -> (r: Result<Node, Error>)
        requires
            old(doc).wf(),
            self.valid(*old(doc)),
            valid_selector(selector@),
        ensures
            find_first_post(
                *old(doc),
                *final(doc),
                Some(self.idx()),
                self.elem(*old(doc)),
                selector@,
                r,
            ),
    {
        proof {
            assert(old(doc).deriv_ok(self.deriv as int));
        }
        let element = doc.derivs[self.deriv].element;
        find_first_in(doc, Some(self.deriv), element, selector)
    }

    /// Finds the zero-based `index`-th element matching `selector` under
    /// this node's subtree.
    pub fn find_nth(&self, doc: &mut Document, selector: &str, index: usize) -> (r: Result<
        Node,
        Error,
    >)
        requires
            old(doc).wf(),
            self.valid(*old(doc)),
            valid_selector(selector@),
        ensures
            find_nth_post(
                *old(doc),
                *final(doc),
                Some(self.idx()),
                self.elem(*old(doc)),
                selector@,
                index,
                r,
            ),
    {
        proof {
            assert(old(doc).deriv_ok(self.deriv as int));
        }
        let element = doc.derivs[self.deriv].element;
        find_nth_in(doc, Some(self.deriv), element, selector, index)
    }

    /// All elements matching `selector` under this node's subtree.
    pub fn find_all(&self, doc: &mut Document, selector: &str) -> (c: Collection)
        requires
            old(doc).wf(),
            self.valid(*old(doc)),
            valid_selector(selector@),
        ensures
            find_all_post(
                *old(doc),
                *final(doc),
                Some(self.idx()),
                self.elem(*old(doc)),
                selector@,
                c,
            ),
    {
        proof {
            assert(old(doc).deriv_ok(self.deriv as int));
        }
        let element = doc.derivs[self.deriv].element;
        find_all_in(doc, Some(self.deriv), element, selector)
    }

    /// Like `find`, testing the selector first: `None` exactly when the
    /// selector string is one the selector engine does not accept.
    pub fn find_checked(&self, doc: &mut Document, selector: &str) -> (r: Option<
        Result<Node, Error>,
    >)
        requires
            old(doc).wf(),
            self.valid(*old(doc)),
        ensures
            r is Some <==> valid_selector(selector@),
            r matches Some(res) ==> find_post(
                *old(doc),
                *final(doc),
                Some(self.idx()),
                self.elem(*old(doc)),
                selector@,
                res,
            ),
            r is None ==> *final(doc) == *old(doc),
    {
        match compile_checked(selector) {
            Some(_) => Some(self.find(doc, selector)),
            None => None,
        }
    }

    /// Like `find_first`, testing the selector first.
    pub fn find_first_checked(&self, doc: &mut Document, selector: &str) -> (r: Option<
        Result<Node, Error>,
    >)
        requires
            old(doc).wf(),
            self.valid(*old(doc)),
        ensures
            r is Some <==> valid_selector(selector@),
            r matches Some(res) ==> find_first_post(
                *old(doc),
                *final(doc),
                Some(self.idx()),
                self.elem(*old(doc)),
                selector@,
                res,
            ),
            r is None ==> *final(doc) == *old(doc),
    {
        match compile_checked(selector) {
            Some(_) => Some(self.find_first(doc, selector)),
            None => None,
        }
    }

    /// Like `find_nth`, testing the selector first.
    pub fn find_nth_checked(&self, doc: &mut Document, selector: &str, index: usize) -> (r: Option<
        Result<Node, Error>,
    >)
        requires
            old(doc).wf(),
            self.valid(*old(doc)),
        ensures
            r is Some <==> valid_selector(selector@),
            r matches Some(res) ==> find_nth_post(
                *old(doc),
                *final(doc),
                Some(self.idx()),
                self.elem(*old(doc)),
                selector@,
                index,
                res,
            ),
            r is None ==> *final(doc) == *old(doc),
    {
        match compile_checked(selector) {
            Some(_) => Some(self.find_nth(doc, selector, index)),
            None => None,
        }
    }

    /// Like `find_all`, testing the selector first.
    pub fn find_all_checked(&self, doc: &mut Document, selector: &str) -> (r: Option<Collection>)
        requires
            old(doc).wf(),
            self.valid(*old(doc)),
        ensures
            r is Some <==> valid_selector(selector@),
            r matches Some(c) ==> find_all_post(
                *old(doc),
                *final(doc),
                Some(self.idx()),
                self.elem(*old(doc)),
                selector@,
                c,
            ),
            r is None ==> *final(doc) == *old(doc),
    {
        match compile_checked(selector) {
            Some(_) => Some(self.find_all(doc, selector)),
            None => None,
        }
    }

    /// Steps to the `index`-th child node, counting children of every kind:
    /// NotFound when fewer children exist, ExpectedElement when the child is
    /// not an element.
    pub fn child(&self, doc: &mut Document, index: usize) -> (r: Result<Node, Error>)
        requires
            old(doc).wf(),
            self.valid(*old(doc)),
        ensures
            preserves_queries(*old(doc), *final(doc)),
            ({
                let e0 = self.elem(*old(doc));
                match nth_child(old(doc).tree(), e0, index as nat) {
                    Some(c) => if old(doc).tree()[c].kind is Element {
                        &&& r matches Ok(n) && n.idx() == old(doc).chain().len()
                        &&& final(doc).chain() == old(doc).chain().push(
                            Deriv {
                                source: Some(self.idx()),
                                operation: Operation::Child { index },
                                element: c as usize,
                            },
                        )
                    } else {
                        &&& final(doc).chain() == old(doc).chain()
                        &&& r matches Err(e) && e.reason is ExpectedElement && chain_error(
                            e,
                            *old(doc),
                            Some(self.idx()),
                        ) && e.operations@.last() == Operation::Child { index }
                    },
                    None => {
                        &&& final(doc).chain() == old(doc).chain()
                        &&& r matches Err(e) && e.reason is NotFound && chain_error(
                            e,
                            *old(doc),
                            Some(self.idx()),
                        ) && e.operations@.last() == Operation::Child { index }
                    },
                }
            }),
    {
        proof {
            assert(old(doc).deriv_ok(self.deriv as int));
        }
        let element = doc.derivs[self.deriv].element;
        match find_child(&doc.nodes, element, index) {
            Some(c) => {
                if matches!(doc.nodes[c].kind, NodeKind::Element { .. }) {
                    Ok(push_deriv(doc, Some(self.deriv), Operation::Child { index }, c))
                } else {
                    let e = doc.make_error(
                        Some(self.deriv),
                        Reason::ExpectedElement,
                        Operation::Child { index },
                    );
                    proof {
                        assert(e.operations@.drop_last() =~= doc_ops(*doc, Some(self.idx())));
                    }
                    Err(e)
                }
            },
            None => {
                let e = doc.make_error(
                    Some(self.deriv),
                    Reason::NotFound,
                    Operation::Child { index },
                );
                proof {
                    assert(e.operations@.drop_last() =~= doc_ops(*doc, Some(self.idx())));
                }
                Err(e)
            },
        }
    }

    /// Extracts the `index`-th child as text, counting children of every
    /// kind: NotFound when fewer children exist, ExpectedText when the child
    /// is not a text node. The value comes trimmed.
    pub fn text_child(&self, doc: &Document, index: usize) -> (r: Result<Text, Error>)
        requires
            doc.wf(),
            self.valid(*doc),
        ensures
            ({
                let e0 = self.elem(*doc);
                match nth_child(doc.tree(), e0, index as nat) {
                    Some(c) => match doc.tree()[c].kind {
                        NodeKind::Text { content } => r matches Ok(t) && t.src() == self.idx()
                            && t.op() == Operation::ChildText { index } && t.val() == trimmed(
                            content@,
                        ),
                        NodeKind::Element { .. } => r matches Err(e) && e.reason is ExpectedText
                            && chain_error(e, *doc, Some(self.idx())) && e.operations@.last()
                            == Operation::ChildText { index },
                    },
                    None => r matches Err(e) && e.reason is NotFound && chain_error(
                        e,
                        *doc,
                        Some(self.idx()),
                    ) && e.operations@.last() == Operation::ChildText { index },
                }
            }),
    {
        proof {
            assert(doc.deriv_ok(self.deriv as int));
        }
        let element = doc.derivs[self.deriv].element;
        match find_child(&doc.nodes, element, index) {
            Some(c) => {
                match &doc.nodes[c].kind {
                    NodeKind::Text { content } => Ok(
                        Text {
                            source: self.deriv,
                            operation: Operation::ChildText { index },
                            value: trim_str(content.as_str()),
                        },
                    ),
                    NodeKind::Element { .. } => {
                        let e = doc.make_error(
                            Some(self.deriv),
                            Reason::ExpectedText,
                            Operation::ChildText { index },
                        );
                        proof {
                            assert(e.operations@.drop_last() =~= doc_ops(*doc, Some(self.idx())));
                        }
                        Err(e)
                    },
                }
            },
            None => {
                let e = doc.make_error(
                    Some(self.deriv),
                    Reason::NotFound,
                    Operation::ChildText { index },
                );
                proof {
                    assert(e.operations@.drop_last() =~= doc_ops(*doc, Some(self.idx())));
                }
                Err(e)
            },
        }
    }

    /// Steps to the parent element; NotFound at the tree root.
    pub fn parent(&self, doc: &mut Document) -> (r: Result<Node, Error>)
        requires
            old(doc).wf(),
            self.valid(*old(doc)),
        ensures
            preserves_queries(*old(doc), *final(doc)),
            ({
                let e0 = self.elem(*old(doc));
                match old(doc).tree()[e0 as int].parent {
                    Some(p) => {
                        &&& r matches Ok(n) && n.idx() == old(doc).chain().len()
                        &&& final(doc).chain() == old(doc).chain().push(
                            Deriv {
                                source: Some(self.idx()),
                                operation: Operation::Parent,
                                element: p,
                            },
                        )
                    },
                    None => {
                        &&& final(doc).chain() == old(doc).chain()
                        &&& r matches Err(e) && e.reason is NotFound && chain_error(
                            e,
                            *old(doc),
                            Some(self.idx()),
                        ) && e.operations@.last() == Operation::Parent
                    },
                }
            }),
    {
        proof {
            assert(old(doc).deriv_ok(self.deriv as int));
        }
        let element = doc.derivs[self.deriv].element;
        match doc.nodes[element].parent {
            Some(p) => {
                proof {
                    assert(crate::tree::node_ok(old(doc).tree(), element as int));
                }
                Ok(push_deriv(doc, Some(self.deriv), Operation::Parent, p))
            },
            None => {
                let e = doc.make_error(Some(self.deriv), Reason::NotFound, Operation::Parent);
                proof {
                    assert(e.operations@.drop_last() =~= doc_ops(*doc, Some(self.idx())));
                }
                Err(e)
            },
        }
    }

    /// All text under this node, concatenated in document order and trimmed.
    /// Never fails.
    pub fn text(&self, doc: &Document) -> (t: Text)
        requires
            doc.wf(),
            self.valid(*doc),
        ensures
            t.src() == self.idx(),
            t.op() == Operation::Text,
            t.val() == trimmed(subtree_text(doc.tree(), self.elem(*doc) as int)),
    {
        proof {
            assert(doc.deriv_ok(self.deriv as int));
        }
        let element = doc.derivs[self.deriv].element;
        let raw = collect_text(&doc.nodes, element);
        let value = trim_str(raw.as_str());
        Text { source: self.deriv, operation: Operation::Text, value }
    }

    /// Like `text`, but each `br` element renders as a newline. Never fails.
    pub fn text_multiline(&self, doc: &Document) -> (t: Text)
        requires
            doc.wf(),
            self.valid(*doc),
        ensures
            t.src() == self.idx(),
            t.op() == Operation::TextMultiline,
            t.val() == trimmed(subtree_multiline(doc.tree(), self.elem(*doc) as int)),
    {
        proof {
            assert(doc.deriv_ok(self.deriv as int));
        }
        let element = doc.derivs[self.deriv].element;
        let raw = collect_multiline(&doc.nodes, element);
        let value = trim_str(raw.as_str());
        Text { source: self.deriv, operation: Operation::TextMultiline, value }
    }

    /// Reads an attribute of this element; NotFound when absent. The value
    /// is handed out raw, not trimmed.
    pub fn attr(&self, doc: &Document, key: &str) -> (r: Result<Text, Error>)
        requires
            doc.wf(),
            self.valid(*doc),
        ensures
            ({
                let e0 = self.elem(*doc);
                match doc.tree()[e0 as int].kind {
                    NodeKind::Element { attrs, .. } => match attr_lookup(attrs@, key@) {
                        Some(v) => r matches Ok(t) && t.src() == self.idx() && (t.op()
                            matches Operation::Attr { key: k } && k@ == key@) && t.val() == v,
                        None => r matches Err(e) && e.reason is NotFound && chain_error(
                            e,
                            *doc,
                            Some(self.idx()),
                        ) && (e.operations@.last() matches Operation::Attr { key: k } && k@
                            == key@),
                    },
                    NodeKind::Text { .. } => true,
                }
            }),
    {
        proof {
            assert(doc.deriv_ok(self.deriv as int));
        }
        let element = doc.derivs[self.deriv].element;
        match &doc.nodes[element].kind {
            NodeKind::Element { attrs, .. } => {
                match attr_find(attrs, key) {
                    Some(v) => Ok(
                        Text {
                            source: self.deriv,
                            operation: Operation::Attr { key: key.to_owned() },
                            value: v,
                        },
                    ),
                    None => {
                        let e = doc.make_error(
                            Some(self.deriv),
                            Reason::NotFound,
                            Operation::Attr { key: key.to_owned() },
                        );
                        proof {
                            assert(e.operations@.drop_last() =~= doc_ops(*doc, Some(self.idx())));
                        }
                        Err(e)
                    },
                }
            },
            NodeKind::Text { .. } => {
                proof {
                    assert(false);
                }
                vstd::pervasive::unreached()
            },
        }
    }

    /// Renders this node's subtree.
    pub fn html(&self, doc: &Document) -> (r: String)
        requires
            doc.wf(),
            self.valid(*doc),
        ensures
            r@ == render_node(doc.tree(), self.elem(*doc) as int),
    {
        proof {
            assert(doc.deriv_ok(self.deriv as int));
        }
        render_node_exec(&doc.nodes, self.derivs_element(doc))
    }

    /// Raises a caller-defined failure at this node, carrying its chain.
    pub fn error(&self, doc: &Document, message: String) -> (e: Error)
        requires
            doc.wf(),
            self.valid(*doc),
        ensures
            e.reason == Reason::Logic(message),
            chain_error(e, *doc, Some(self.idx())),
            e.operations@.last() == Operation::External,
    {
        let e = doc.make_error(Some(self.deriv), Reason::Logic(message), Operation::External);
        proof {
            assert(e.operations@.drop_last() =~= doc_ops(*doc, Some(self.idx())));
        }
        e
    }

    fn derivs_element(&self, doc: &Document) -> (e: usize)
        requires
            doc.wf(),
            self.valid(*doc),
        ensures
            e == self.elem(*doc),
            e < doc.tree().len(),
    {
        proof {
            assert(doc.deriv_ok(self.deriv as int));
        }
        doc.derivs[self.deriv].element
    }
}

impl Text {
    /// The extracted value, as an owned string.
    pub fn string(&self) -> (r: String)
        ensures
            r@ == self.val(),
    {
        self.value.clone()
    }

    /// The extracted value, borrowed.
    pub fn as_str(&self) -> (r: &str)
        ensures
            r@ == self.val(),
    {
        self.value.as_str()
    }

    /// Parses the value through the target type's string parser: success and
    /// value exactly as the parser fixes them for the stored text. A failure
    /// becomes an External error tagged Parse, wrapping the parser's message
    /// and carrying this text's chain.
    pub fn parse<T: FromText>(&self, doc: &Document) -> (r: Result<T, Error>)
        requires
            doc.wf(),
            self.valid(*doc),
        ensures
            (match (r, T::parse_of(self.val())) {
                (Ok(v), Ok(w)) => v == w,
                (Err(_), Err(_)) => true,
                _ => false,
            }),
            r matches Err(e) ==> {
                &&& text_chain_error(e, *doc, *self)
                &&& e.operations@.last() == Operation::Parse
                &&& (e.reason matches Reason::External(m) && T::parse_of(self.val())
                    matches Err(t) && m@ == t)
            },
    {
        match T::from_text(self.value.as_str()) {
            Ok(v) => Ok(v),
            Err(msg) => Err(text_error(doc, self, Reason::External(msg), Operation::Parse)),
        }
    }

    /// Maps the value through a caller-supplied conversion. A failure
    /// message becomes an External error tagged External, carrying this
    /// text's chain.
    pub fn map<T, F: FnOnce(&str) -> Result<T, String>>(&self, doc: &Document, f: F) -> (r: Result<
        T,
        Error,
    >)
        requires
            doc.wf(),
            self.valid(*doc),
            forall|s: &str| s@ == self.val() ==> call_requires(f, (s,)),
        ensures
            r matches Ok(v) ==> exists|s: &str|
                s@ == self.val() && call_ensures(f, (s,), Ok(v)),
            r matches Err(e) ==> {
                &&& e.reason is External
                &&& text_chain_error(e, *doc, *self)
                &&& e.operations@.last() == Operation::External
                &&& exists|s: &str, msg: String|
                    s@ == self.val() && call_ensures(f, (s,), Err(msg)) && e.reason
                        == Reason::External(msg)
            },
    {
        let arg = self.value.as_str();
        match f(arg) {
            Ok(v) => Ok(v),
            Err(msg) => Err(
                text_error(doc, self, Reason::External(msg), Operation::External),
            ),
        }
    }

    /// Raises a caller-defined failure at this text, carrying its chain.
    pub fn error(&self, doc: &Document, message: String) -> (e: Error)
        requires
            doc.wf(),
            self.valid(*doc),
        ensures
            e.reason == Reason::Logic(message),
            text_chain_error(e, *doc, *self),
            e.operations@.last() == Operation::External,
    {
        text_error(doc, self, Reason::Logic(message), Operation::External)
    }
}

/// The rendering of `ops[i..]`, walked leaf-first: the last operation's
/// text first, each earlier one appended after a space.
pub open spec fn rev_chunk(ops: Seq<Operation>, i: int) -> Seq<char>
    decreases ops.len() - i,
{
    if i < 0 || i >= ops.len() {
        Seq::empty()
    } else if i == ops.len() - 1 {
        op_text(ops[i])
    } else {
        rev_chunk(ops, i + 1) + " "@ + op_text(ops[i])
    }
}

/// The one-line rendering of an error: the reason, a space, then the
/// operation chain innermost-to-outermost.
pub open spec fn message_text(reason: Reason, ops: Seq<Operation>) -> Seq<char> {
    reason_text(reason) + " "@ + rev_chunk(ops, 0)
}

impl Error {
    /// Renders the error for a human reader: the reason followed by the
    /// operation chain in reverse, the innermost description first.
    pub fn message(&self) -> (r: String)
        ensures
            r@ == message_text(self.reason, self.operations@),
    {
        let mut s = self.reason.describe();
        s.append(" ");
        let n = self.operations.len();
        let mut i: usize = n;
        proof {
            assert(s@ =~= reason_text(self.reason) + " "@ + rev_chunk(self.operations@, n as int));
        }
        while i > 0
            invariant
                i <= n,
                n == self.operations@.len(),
                s@ == reason_text(self.reason) + " "@ + rev_chunk(self.operations@, i as int),
            decreases i,
        {
            let d = self.operations[i - 1].describe();
            if i < n {
                s.append(" ");
            }
            s.append(d.as_str());
            proof {
                assert(s@ =~= reason_text(self.reason) + " "@ + rev_chunk(
                    self.operations@,
                    i - 1,
                ));
            }
            i -= 1;
        }
        s
    }
}

/// The shape of every error raised at a text value: the chain of the node it
/// was extracted from, then the extracting operation, then the failing one.
pub open spec fn text_chain_error(e: Error, doc: Document, t: Text) -> bool {
    &&& e.operations@.len() == doc_ops(doc, Some(t.src())).len() + 2
    &&& e.operations@.subrange(0, e.operations@.len() - 2) == doc_ops(doc, Some(t.src()))
    &&& e.operations@[e.operations@.len() - 2] == t.op()
    &&& e.snapshots.deep_view() == doc_snaps(doc, Some(t.src()))
}

fn text_error(doc: &Document, t: &Text, reason: Reason, failing: Operation) -> (e: Error)
    requires
        doc.wf(),
        t.valid(*doc),
    ensures
        e.reason == reason,
        text_chain_error(e, *doc, *t),
        e.operations@.last() == failing,
{
    let mut operations = doc.collect_operations(Some(t.source));
    operations.push(t.operation.duplicate());
    operations.push(failing);
    let snapshots = doc.collect_snapshots(Some(t.source));
    proof {
        assert(operations@.subrange(0, operations@.len() - 2) =~= doc_ops(*doc, Some(t.src())));
    }
    Error { reason, operations, snapshots, backtrace: capture_backtrace() }
}

} // verus!

