use vstd::prelude::*;

verus! {

use vstd::string::StrSliceExecFns;
use vstd::string::StringExecFns;

/// String-slice equality, decided through owned strings.
pub fn str_eq(a: &str, b: &str) -> (r: bool)
    ensures
        r == (a@ == b@),
{
    let x: String = a.to_owned();
    let y: String = b.to_owned();
    x == y
}

/// What a tree node is: an element with a name and attributes, or a run of
/// text.
pub enum NodeKind {
    Element { name: String, attrs: Vec<(String, String)> },
    Text { content: String },
}

/// One node of the document tree. The tree lives in an arena: `parent` is the
/// arena index of the parent node, `None` only for the root. Children of a
/// node are exactly the later nodes whose `parent` points at it, in index
/// order, which is document order.
pub struct TreeNode {
    pub kind: NodeKind,
    pub parent: Option<usize>,
}

/// A non-root node is in order when its parent precedes it and is an element.
pub open spec fn node_ok(nodes: Seq<TreeNode>, i: int) -> bool {
    nodes[i].parent matches Some(p) && p < i && nodes[p as int].kind is Element
}

/// A well-formed arena: one root element at index 0 and every later node in
/// order. Parents preceding their children rules out cycles.
pub open spec fn tree_wf(nodes: Seq<TreeNode>) -> bool {
    &&& nodes.len() >= 1
    &&& nodes[0].parent is None
    &&& nodes[0].kind is Element
    &&& forall|i: int| 1 <= i < nodes.len() ==> #[trigger] node_ok(nodes, i)
}

/// Keeps the longest well-formed prefix of a freshly built arena, so that all
/// later work runs over a tree satisfying `tree_wf`. Input that already
/// satisfies it is kept whole; otherwise it is cut at the first misplaced
/// node, or replaced by a bare root element when the root itself is off.
pub fn normalize(nodes: Vec<TreeNode>) -> (r: Vec<TreeNode>)
    ensures
        tree_wf(r@),
        tree_wf(nodes@) ==> r@ == nodes@,
{
    let root_ok = nodes.len() >= 1 && matches!(nodes[0].parent, None) && matches!(
        nodes[0].kind,
        NodeKind::Element { .. },
    );
    if !root_ok {
        let mut r: Vec<TreeNode> = Vec::new();
        r.push(
            TreeNode {
                kind: NodeKind::Element { name: "html".to_owned(), attrs: Vec::new() },
                parent: None,
            },
        );
        return r;
    }
    let n = nodes.len();
    let mut cut: usize = n;
    let mut i: usize = 1;
    while i < n
        invariant
            1 <= i <= n,
            n == nodes@.len(),
            cut <= n,
            cut == n ==> forall|j: int| 1 <= j < i ==> node_ok(nodes@, j),
            cut < n ==> 1 <= cut < i && !node_ok(nodes@, cut as int) && forall|j: int|
                1 <= j < cut ==> node_ok(nodes@, j),
        decreases n - i,
    {
        if cut == n {
            let ok = match nodes[i].parent {
                Some(p) => p < i && matches!(nodes[p].kind, NodeKind::Element { .. }),
                None => false,
            };
            if !ok {
                cut = i;
            }
        }
        i += 1;
    }
    let mut r = nodes;
    r.truncate(cut);
    proof {
        assert(r@ == nodes@.subrange(0, cut as int));
        assert forall|j: int| 1 <= j < r@.len() implies #[trigger] node_ok(r@, j) by {
            assert(node_ok(nodes@, j));
            assert(r@[j] == nodes@[j]);
            let p = nodes@[j].parent->Some_0;
            assert(r@[p as int] == nodes@[p as int]);
        }
        if tree_wf(nodes@) {
            if cut < n {
                assert(node_ok(nodes@, cut as int));
            }
            assert(r@ =~= nodes@);
        }
    }
    r
}

/// The `index`-th child of `e`, scanning from position `j` with `k` children
/// still to skip.
pub open spec fn nth_child_from(nodes: Seq<TreeNode>, e: usize, k: nat, j: nat) -> Option<int>
    decreases nodes.len() - j,
{
    if j >= nodes.len() {
        None
    } else if nodes[j as int].parent == Some(e) {
        if k == 0 {
            Some(j as int)
        } else {
            nth_child_from(nodes, e, (k - 1) as nat, j + 1)
        }
    } else {
        nth_child_from(nodes, e, k, j + 1)
    }
}

/// The arena index of the `index`-th child node of `e`, if that many exist.
pub open spec fn nth_child(nodes: Seq<TreeNode>, e: usize, index: nat) -> Option<int> {
    nth_child_from(nodes, e, index, 0)
}

/// Finds the `index`-th child node of `e`.
pub fn find_child(nodes: &Vec<TreeNode>, e: usize, index: usize) -> (r: Option<usize>)
    ensures
        match r {
            Some(c) => nth_child(nodes@, e, index as nat) == Some(c as int) && c < nodes@.len(),
            None => nth_child(nodes@, e, index as nat) is None,
        },
{
    let n = nodes.len();
    let mut k = index;
    let mut j: usize = 0;
    while j < n
        invariant
            j <= n,
            n == nodes@.len(),
            k <= index,
            nth_child(nodes@, e, index as nat) == nth_child_from(nodes@, e, k as nat, j as nat),
        decreases n - j,
    {
        let is_child = match nodes[j].parent {
            Some(p) => p == e,
            None => false,
        };
        if is_child {
            if k == 0 {
                return Some(j);
            }
            k -= 1;
        }
        j += 1;
    }
    None
}

/// Whether `a` is a strict descendant of `e`: following parents from `a`
/// reaches `e`.
pub open spec fn is_descendant(nodes: Seq<TreeNode>, a: int, e: int) -> bool
    decreases a,
    when 0 <= a < nodes.len() && tree_wf(nodes)
    via is_descendant_decreases
{
    match nodes[a].parent {
        Some(p) => p == e || is_descendant(nodes, p as int, e),
        None => false,
    }
}

#[via_fn]
proof fn is_descendant_decreases(nodes: Seq<TreeNode>, a: int, e: int) {
    if 1 <= a < nodes.len() && tree_wf(nodes) {
        assert(node_ok(nodes, a));
    }
}

/// Decides `is_descendant` by walking the parent chain.
pub fn is_descendant_exec(nodes: &Vec<TreeNode>, a: usize, e: usize) -> (r: bool)
    requires
        tree_wf(nodes@),
        a < nodes@.len(),
    ensures
        r == is_descendant(nodes@, a as int, e as int),
{
    let mut cur = a;
    loop
        invariant
            tree_wf(nodes@),
            cur < nodes@.len(),
            is_descendant(nodes@, a as int, e as int) == is_descendant(
                nodes@,
                cur as int,
                e as int,
            ),
        decreases cur,
    {
        match nodes[cur].parent {
            Some(p) => {
                if p == e {
                    return true;
                }
                proof {
                    if cur >= 1 {
                        assert(node_ok(nodes@, cur as int));
                    }
                }
                cur = p;
            },
            None => {
                return false;
            },
        }
    }
}

/// The text contributed by node `j` to the plain text of `e`'s subtree.
pub open spec fn text_piece(nodes: Seq<TreeNode>, e: int, j: int) -> Seq<char> {
    if is_descendant(nodes, j, e) {
        match nodes[j].kind {
            NodeKind::Text { content } => content@,
            NodeKind::Element { .. } => Seq::empty(),
        }
    } else {
        Seq::empty()
    }
}

pub open spec fn texts_from(nodes: Seq<TreeNode>, e: int, j: nat) -> Seq<char>
    decreases nodes.len() - j,
{
    if j >= nodes.len() {
        Seq::empty()
    } else {
        text_piece(nodes, e, j as int) + texts_from(nodes, e, j + 1)
    }
}

/// All text under `e`, concatenated in document order, untrimmed.
pub open spec fn subtree_text(nodes: Seq<TreeNode>, e: int) -> Seq<char> {
    texts_from(nodes, e, 0)
}

/// Concatenates all text under `e` in document order.
pub fn collect_text(nodes: &Vec<TreeNode>, e: usize) -> (r: String)
    requires
        tree_wf(nodes@),
        e < nodes@.len(),
    ensures
        r@ == subtree_text(nodes@, e as int),
{
    let n = nodes.len();
    let mut s = String::new();
    let mut j: usize = 0;
    while j < n
        invariant
            j <= n,
            n == nodes@.len(),
            tree_wf(nodes@),
            e < nodes@.len(),
            subtree_text(nodes@, e as int) == s@ + texts_from(nodes@, e as int, j as nat),
        decreases n - j,
    {
        let ghost pre = s@;
        if is_descendant_exec(nodes, j, e) {
            match &nodes[j].kind {
                NodeKind::Text { content } => {
                    s.append(content.as_str());
                },
                NodeKind::Element { .. } => {},
            }
        }
        proof {
            assert(s@ =~= pre + text_piece(nodes@, e as int, j as int));
            assert(s@ + texts_from(nodes@, e as int, (j + 1) as nat) =~= pre + texts_from(
                nodes@,
                e as int,
                j as nat,
            ));
        }
        j += 1;
    }
    s
}

/// The text contributed by node `j` to the multi-line text of `e`'s subtree:
/// text content, a newline for a `br` element, nothing otherwise.
pub open spec fn multiline_piece(nodes: Seq<TreeNode>, e: int, j: int) -> Seq<char> {
    if j == e || is_descendant(nodes, j, e) {
        match nodes[j].kind {
            NodeKind::Text { content } => content@,
            NodeKind::Element { name, .. } => if name@ == "br"@ {
                seq!['\n']
            } else {
                Seq::empty()
            },
        }
    } else {
        Seq::empty()
    }
}

pub open spec fn multiline_from(nodes: Seq<TreeNode>, e: int, j: nat) -> Seq<char>
    decreases nodes.len() - j,
{
    if j >= nodes.len() {
        Seq::empty()
    } else {
        multiline_piece(nodes, e, j as int) + multiline_from(nodes, e, j + 1)
    }
}

/// The multi-line text of `e`'s subtree: like `subtree_text`, but each `br`
/// element renders as a newline.
pub open spec fn subtree_multiline(nodes: Seq<TreeNode>, e: int) -> Seq<char> {
    multiline_from(nodes, e, 0)
}

/// Concatenates the multi-line text under `e` in document order.
pub fn collect_multiline(nodes: &Vec<TreeNode>, e: usize) -> (r: String)
    requires
        tree_wf(nodes@),
        e < nodes@.len(),
    ensures
        r@ == subtree_multiline(nodes@, e as int),
{
    let n = nodes.len();
    let mut s = String::new();
    let mut j: usize = 0;
    while j < n
        invariant
            j <= n,
            n == nodes@.len(),
            tree_wf(nodes@),
            e < nodes@.len(),
            subtree_multiline(nodes@, e as int) == s@ + multiline_from(nodes@, e as int, j as nat),
        decreases n - j,
    {
        let ghost pre = s@;
        if j == e || is_descendant_exec(nodes, j, e) {
            match &nodes[j].kind {
                NodeKind::Text { content } => {
                    s.append(content.as_str());
                },
                NodeKind::Element { name, .. } => {
                    if str_eq(name.as_str(), "br") {
                        s.append("\n");
                        proof {
                            reveal_strlit("\n");
                            assert(s@ =~= pre + multiline_piece(nodes@, e as int, j as int));
                        }
                    }
                },
            }
        }
        proof {
            assert(s@ =~= pre + multiline_piece(nodes@, e as int, j as int));
            assert(s@ + multiline_from(nodes@, e as int, (j + 1) as nat) =~= pre + multiline_from(
                nodes@,
                e as int,
                j as nat,
            ));
        }
        j += 1;
    }
    s
}

/// The contents of `e`'s direct text children from position `j` on,
/// concatenated in order.
pub open spec fn child_texts_from(nodes: Seq<TreeNode>, e: usize, j: nat) -> Seq<char>
    decreases nodes.len() - j,
{
    if j >= nodes.len() {
        Seq::empty()
    } else {
        (if nodes[j as int].parent == Some(e) {
            match nodes[j as int].kind {
                NodeKind::Text { content } => content@,
                NodeKind::Element { .. } => Seq::empty(),
            }
        } else {
            Seq::empty()
        }) + child_texts_from(nodes, e, j + 1)
    }
}

/// The contents of `e`'s direct text children, concatenated in order.
pub open spec fn child_texts(nodes: Seq<TreeNode>, e: usize) -> Seq<char> {
    child_texts_from(nodes, e, 0)
}

proof fn lemma_desc_through_child(nodes: Seq<TreeNode>, j: int, e: usize)
    requires
        tree_wf(nodes),
        0 <= j < nodes.len(),
        is_descendant(nodes, j, e as int),
        nodes[j].parent != Some(e),
    ensures
        exists|c: int|
            0 <= c < nodes.len() && nodes[c].parent == Some(e) && nodes[c].kind is Element,
    decreases j,
{
    assert(node_ok(nodes, j));
    let p = nodes[j].parent->Some_0;
    assert(is_descendant(nodes, p as int, e as int));
    if nodes[p as int].parent == Some(e) {
        assert(0 <= p < nodes.len() && nodes[p as int].parent == Some(e) && nodes[p as int].kind
            is Element);
    } else {
        lemma_desc_through_child(nodes, p as int, e);
    }
}

/// The round-trip law for text extraction: on an element whose children are
/// all text nodes, the subtree's text is exactly the concatenation of those
/// children's contents, in document order. `text()` then returns it trimmed.
pub proof fn lemma_text_round_trip(nodes: Seq<TreeNode>, e: usize)
    requires
        tree_wf(nodes),
        e < nodes.len(),
        forall|c: int|
            0 <= c < nodes.len() && nodes[c].parent == Some(e) ==> (#[trigger] nodes[c].kind)
                is Text,
    ensures
        subtree_text(nodes, e as int) == child_texts(nodes, e),
{
    lemma_texts_agree(nodes, e, 0);
}

proof fn lemma_texts_agree(nodes: Seq<TreeNode>, e: usize, j: nat)
    requires
        tree_wf(nodes),
        e < nodes.len(),
        forall|c: int|
            0 <= c < nodes.len() && nodes[c].parent == Some(e) ==> (#[trigger] nodes[c].kind)
                is Text,
    ensures
        texts_from(nodes, e as int, j) == child_texts_from(nodes, e, j),
    decreases nodes.len() - j,
{
    if j < nodes.len() {
        lemma_texts_agree(nodes, e, j + 1);
        if nodes[j as int].parent == Some(e) {
            assert(is_descendant(nodes, j as int, e as int));
        } else {
            if is_descendant(nodes, j as int, e as int) && nodes[j as int].kind is Text {
                lemma_desc_through_child(nodes, j as int, e);
                let c = choose|c: int|
                    0 <= c < nodes.len() && nodes[c].parent == Some(e) && nodes[c].kind is Element;
                assert(nodes[c].kind is Text);
            }
            assert(text_piece(nodes, e as int, j as int) =~= Seq::<char>::empty());
        }
    }
}

/// The first value among `attrs` stored under `key`.
pub open spec fn attr_lookup(attrs: Seq<(String, String)>, key: Seq<char>) -> Option<Seq<char>>
    decreases attrs.len(),
{
    if attrs.len() == 0 {
        None
    } else if attrs[0].0@ == key {
        Some(attrs[0].1@)
    } else {
        attr_lookup(attrs.drop_first(), key)
    }
}

/// Looks `key` up among `attrs`, returning the first value stored under it.
pub fn attr_find(attrs: &Vec<(String, String)>, key: &str) -> (r: Option<String>)
    ensures
        match r {
            Some(v) => attr_lookup(attrs@, key@) == Some(v@),
            None => attr_lookup(attrs@, key@) is None,
        },
{
    let n = attrs.len();
    let mut j: usize = 0;
    proof {
        assert(attrs@.subrange(0, n as int) =~= attrs@);
    }
    while j < n
        invariant
            j <= n,
            n == attrs@.len(),
            attr_lookup(attrs@, key@) == attr_lookup(attrs@.subrange(j as int, n as int), key@),
        decreases n - j,
    {
        proof {
            assert(attrs@.subrange(j as int, n as int).drop_first() =~= attrs@.subrange(
                j + 1,
                n as int,
            ));
            assert(attrs@.subrange(j as int, n as int)[0] == attrs@[j as int]);
        }
        if str_eq(attrs[j].0.as_str(), key) {
            return Some(attrs[j].1.clone());
        }
        j += 1;
    }
    None
}

/// Whether a character counts as trimmable whitespace: the Unicode
/// White_Space set, as `char::is_whitespace` draws it.
pub open spec fn is_space(c: char) -> bool {
    ||| c == '\t'
    ||| c == '\n'
    ||| c == '\u{000B}'
    ||| c == '\u{000C}'
    ||| c == '\r'
    ||| c == ' '
    ||| c == '\u{0085}'
    ||| c == '\u{00A0}'
    ||| c == '\u{1680}'
    ||| c == '\u{2000}'
    ||| c == '\u{2001}'
    ||| c == '\u{2002}'
    ||| c == '\u{2003}'
    ||| c == '\u{2004}'
    ||| c == '\u{2005}'
    ||| c == '\u{2006}'
    ||| c == '\u{2007}'
    ||| c == '\u{2008}'
    ||| c == '\u{2009}'
    ||| c == '\u{200A}'
    ||| c == '\u{2028}'
    ||| c == '\u{2029}'
    ||| c == '\u{202F}'
    ||| c == '\u{205F}'
    ||| c == '\u{3000}'
}

pub open spec fn trim_start_text(s: Seq<char>) -> Seq<char>
    decreases s.len(),
{
    if s.len() == 0 {
        s
    } else if is_space(s[0]) {
        trim_start_text(s.drop_first())
    } else {
        s
    }
}

pub open spec fn trim_end_text(s: Seq<char>) -> Seq<char>
    decreases s.len(),
{
    if s.len() == 0 {
        s
    } else if is_space(s[s.len() - 1]) {
        trim_end_text(s.drop_last())
    } else {
        s
    }
}

/// `s` without leading and trailing whitespace.
pub open spec fn trimmed(s: Seq<char>) -> Seq<char> {
    trim_end_text(trim_start_text(s))
}

proof fn lemma_trim_start(s: Seq<char>, i: int)
    requires
        0 <= i <= s.len(),
        forall|j: int| 0 <= j < i ==> is_space(#[trigger] s[j]),
        i < s.len() ==> !is_space(s[i]),
    ensures
        trim_start_text(s) == s.subrange(i, s.len() as int),
    decreases i,
{
    if i == 0 {
        if s.len() == 0 || !is_space(s[0]) {
            assert(trim_start_text(s) =~= s.subrange(0, s.len() as int));
        }
    } else {
        let t = s.drop_first();
        assert forall|j: int| 0 <= j < i - 1 implies is_space(#[trigger] t[j]) by {
            assert(t[j] == s[j + 1]);
        }
        lemma_trim_start(t, i - 1);
        assert(t.subrange(i - 1, t.len() as int) =~= s.subrange(i, s.len() as int));
    }
}

proof fn lemma_trim_end(s: Seq<char>, i: int)
    requires
        0 <= i <= s.len(),
        forall|j: int| i <= j < s.len() ==> is_space(#[trigger] s[j]),
        i > 0 ==> !is_space(s[i - 1]),
    ensures
        trim_end_text(s) == s.subrange(0, i),
    decreases s.len(),
{
    if i == s.len() {
        if s.len() == 0 || !is_space(s[s.len() - 1]) {
            assert(trim_end_text(s) =~= s.subrange(0, i));
        } else {
            lemma_trim_end(s.drop_last(), i - 1);
        }
    } else {
        let t = s.drop_last();
        lemma_trim_end(t, i);
        assert(t.subrange(0, i) =~= s.subrange(0, i));
    }
}

fn is_space_exec(c: char) -> (r: bool)
    ensures
        r == is_space(c),
{
    c == '\t' || c == '\n' || c == '\u{000B}' || c == '\u{000C}' || c == '\r' || c == ' ' || c
        == '\u{0085}' || c == '\u{00A0}' || c == '\u{1680}' || c == '\u{2000}' || c == '\u{2001}'
        || c == '\u{2002}' || c == '\u{2003}' || c == '\u{2004}' || c == '\u{2005}' || c
        == '\u{2006}' || c == '\u{2007}' || c == '\u{2008}' || c == '\u{2009}' || c == '\u{200A}'
        || c == '\u{2028}' || c == '\u{2029}' || c == '\u{202F}' || c == '\u{205F}' || c
        == '\u{3000}'
}

/// Removes leading and trailing whitespace.
pub fn trim_str(s: &str) -> (r: String)
    ensures
        r@ == trimmed(s@),
{
    let n = s.unicode_len();
    let mut lo: usize = 0;
    while lo < n && is_space_exec(s.get_char(lo))
        invariant
            lo <= n,
            n == s@.len(),
            forall|j: int| 0 <= j < lo ==> is_space(#[trigger] s@[j]),
        decreases n - lo,
    {
        lo += 1;
    }
    let mut hi: usize = n;
    while hi > lo && is_space_exec(s.get_char(hi - 1))
        invariant
            lo <= hi <= n,
            n == s@.len(),
            forall|j: int| 0 <= j < lo ==> is_space(#[trigger] s@[j]),
            forall|j: int| hi <= j < n ==> is_space(#[trigger] s@[j]),
        decreases hi,
    {
        hi -= 1;
    }
    proof {
        lemma_trim_start(s@, lo as int);
        let t = s@.subrange(lo as int, n as int);
        assert forall|j: int| hi - lo <= j < t.len() implies is_space(#[trigger] t[j]) by {
            assert(t[j] == s@[j + lo]);
        }
        if hi > lo {
            assert(t[hi - lo - 1] == s@[hi - 1]);
        }
        lemma_trim_end(t, hi - lo);
        assert(t.subrange(0, hi - lo) =~= s@.subrange(lo as int, hi as int));
    }
    s.substring_char(lo, hi).to_owned()
}

/// The serialized form of one character of text content: markup characters
/// become entities.
pub open spec fn escaped_char(c: char) -> Seq<char> {
    if c == '&' {
        "&amp;"@
    } else if c == '<' {
        "&lt;"@
    } else if c == '>' {
        "&gt;"@
    } else {
        seq![c]
    }
}

/// Text content with its markup characters escaped.
pub open spec fn escaped_text(s: Seq<char>) -> Seq<char>
    decreases s.len(),
{
    if s.len() == 0 {
        Seq::empty()
    } else {
        escaped_text(s.drop_last()) + escaped_char(s.last())
    }
}

/// The serialized form of one character of an attribute value.
pub open spec fn escaped_attr_char(c: char) -> Seq<char> {
    if c == '&' {
        "&amp;"@
    } else if c == '"' {
        "&quot;"@
    } else {
        seq![c]
    }
}

/// An attribute value with its markup characters escaped.
pub open spec fn escaped_attr(s: Seq<char>) -> Seq<char>
    decreases s.len(),
{
    if s.len() == 0 {
        Seq::empty()
    } else {
        escaped_attr(s.drop_last()) + escaped_attr_char(s.last())
    }
}

fn escape_text(s: &str) -> (r: String)
    ensures
        r@ == escaped_text(s@),
{
    let n = s.unicode_len();
    let mut out = String::new();
    let mut i: usize = 0;
    while i < n
        invariant
            i <= n,
            n == s@.len(),
            out@ == escaped_text(s@.subrange(0, i as int)),
        decreases n - i,
    {
        let c = s.get_char(i);
        if c == '&' {
            out.append("&amp;");
        } else if c == '<' {
            out.append("&lt;");
        } else if c == '>' {
            out.append("&gt;");
        } else {
            out.append(s.substring_char(i, i + 1));
        }
        proof {
            let part = s@.subrange(0, i + 1);
            assert(part.drop_last() =~= s@.subrange(0, i as int));
            assert(part.last() == s@[i as int]);
            assert(s@.subrange(i as int, i + 1) =~= seq![s@[i as int]]);
            assert(out@ =~= escaped_text(part));
        }
        i += 1;
    }
    proof {
        assert(s@.subrange(0, n as int) =~= s@);
    }
    out
}

fn escape_attr(s: &str) -> (r: String)
    ensures
        r@ == escaped_attr(s@),
{
    let n = s.unicode_len();
    let mut out = String::new();
    let mut i: usize = 0;
    while i < n
        invariant
            i <= n,
            n == s@.len(),
            out@ == escaped_attr(s@.subrange(0, i as int)),
        decreases n - i,
    {
        let c = s.get_char(i);
        if c == '&' {
            out.append("&amp;");
        } else if c == '"' {
            out.append("&quot;");
        } else {
            out.append(s.substring_char(i, i + 1));
        }
        proof {
            let part = s@.subrange(0, i + 1);
            assert(part.drop_last() =~= s@.subrange(0, i as int));
            assert(part.last() == s@[i as int]);
            assert(s@.subrange(i as int, i + 1) =~= seq![s@[i as int]]);
            assert(out@ =~= escaped_attr(part));
        }
        i += 1;
    }
    proof {
        assert(s@.subrange(0, n as int) =~= s@);
    }
    out
}

/// The elements serialized as a bare start tag: the HTML void set.
pub open spec fn is_void_name(name: Seq<char>) -> bool {
    ||| name == "area"@
    ||| name == "base"@
    ||| name == "br"@
    ||| name == "col"@
    ||| name == "embed"@
    ||| name == "hr"@
    ||| name == "img"@
    ||| name == "input"@
    ||| name == "link"@
    ||| name == "meta"@
    ||| name == "param"@
    ||| name == "source"@
    ||| name == "track"@
    ||| name == "wbr"@
}

fn is_void(name: &str) -> (r: bool)
    ensures
        r == is_void_name(name@),
{
    str_eq(name, "area") || str_eq(name, "base") || str_eq(name, "br") || str_eq(name, "col")
        || str_eq(name, "embed") || str_eq(name, "hr") || str_eq(name, "img") || str_eq(
        name,
        "input",
    ) || str_eq(name, "link") || str_eq(name, "meta") || str_eq(name, "param") || str_eq(
        name,
        "source",
    ) || str_eq(name, "track") || str_eq(name, "wbr")
}

/// The rendering of an attribute list, one ` key="value"` piece per entry,
/// values escaped.
pub open spec fn attrs_text(attrs: Seq<(String, String)>) -> Seq<char>
    decreases attrs.len(),
{
    if attrs.len() == 0 {
        Seq::empty()
    } else {
        attrs_text(attrs.drop_last()) + " "@ + attrs.last().0@ + "=\""@ + escaped_attr(
            attrs.last().1@,
        ) + "\""@
    }
}

fn render_attrs(attrs: &Vec<(String, String)>) -> (r: String)
    ensures
        r@ == attrs_text(attrs@),
{
    let n = attrs.len();
    let mut s = String::new();
    let mut j: usize = 0;
    while j < n
        invariant
            j <= n,
            n == attrs@.len(),
            s@ == attrs_text(attrs@.subrange(0, j as int)),
        decreases n - j,
    {
        s.append(" ");
        s.append(attrs[j].0.as_str());
        s.append("=\"");
        let v = escape_attr(attrs[j].1.as_str());
        s.append(v.as_str());
        s.append("\"");
        proof {
            let part = attrs@.subrange(0, j + 1);
            assert(part.drop_last() =~= attrs@.subrange(0, j as int));
            assert(part.last() == attrs@[j as int]);
            assert(s@ =~= attrs_text(part));
        }
        j += 1;
    }
    proof {
        assert(attrs@.subrange(0, n as int) =~= attrs@);
    }
    s
}

/// The rendering of the subtree rooted at `e`: text content escaped, an
/// element as `<name attrs>` + children + `</name>`, a void element as its
/// bare start tag.
pub open spec fn render_node(nodes: Seq<TreeNode>, e: int) -> Seq<char>
    decreases nodes.len() - e, nodes.len() + 1,
    when 0 <= e < nodes.len() && tree_wf(nodes)
{
    match nodes[e].kind {
        NodeKind::Text { content } => escaped_text(content@),
        NodeKind::Element { name, attrs } => if is_void_name(name@) {
            "<"@ + name@ + attrs_text(attrs@) + ">"@
        } else {
            "<"@ + name@ + attrs_text(attrs@) + ">"@ + render_children(nodes, e, e + 1) + "</"@
                + name@ + ">"@
        },
    }
}

/// The renderings of the children of `e` at positions `j` onward, in order.
pub open spec fn render_children(nodes: Seq<TreeNode>, e: int, j: int) -> Seq<char>
    decreases nodes.len() - e, nodes.len() - j,
    when 0 <= e < j && e < nodes.len() && tree_wf(nodes)
{
    if j >= nodes.len() {
        Seq::empty()
    } else if nodes[j].parent == Some(e as usize) {
        render_node(nodes, j) + render_children(nodes, e, j + 1)
    } else {
        render_children(nodes, e, j + 1)
    }
}

/// Renders the subtree rooted at `e`.
pub fn render_node_exec(nodes: &Vec<TreeNode>, e: usize) -> (r: String)
    requires
        tree_wf(nodes@),
        e < nodes@.len(),
    ensures
        r@ == render_node(nodes@, e as int),
    decreases nodes@.len() - e, nodes@.len() + 1,
{
    match &nodes[e].kind {
        NodeKind::Text { content } => escape_text(content.as_str()),
        NodeKind::Element { name, attrs } => {
            let n = nodes.len();
            let mut s = "<".to_owned();
            s.append(name.as_str());
            let at = render_attrs(attrs);
            s.append(at.as_str());
            s.append(">");
            if is_void(name.as_str()) {
                proof {
                    assert(s@ =~= render_node(nodes@, e as int));
                }
                return s;
            }
            proof {
                assert(e < n);
            }
            let kids = render_children_exec(nodes, e, e + 1);
            s.append(kids.as_str());
            s.append("</");
            s.append(name.as_str());
            s.append(">");
            proof {
                assert(s@ =~= render_node(nodes@, e as int));
            }
            s
        },
    }
}

fn render_children_exec(nodes: &Vec<TreeNode>, e: usize, j0: usize) -> (r: String)
    requires
        tree_wf(nodes@),
        e < nodes@.len(),
        e < j0,
    ensures
        r@ == render_children(nodes@, e as int, j0 as int),
    decreases nodes@.len() - e, nodes@.len() - j0,
{
    let n = nodes.len();
    let mut s = String::new();
    let mut j = j0;
    while j < n
        invariant
            tree_wf(nodes@),
            e < nodes@.len(),
            e < j0 <= j,
            n == nodes@.len(),
            render_children(nodes@, e as int, j0 as int) == s@ + render_children(
                nodes@,
                e as int,
                j as int,
            ),
        decreases n - j,
    {
        let ghost pre = s@;
        let is_child = match nodes[j].parent {
            Some(p) => p == e,
            None => false,
        };
        if is_child {
            let piece = render_node_exec(nodes, j);
            s.append(piece.as_str());
            proof {
                assert(s@ + render_children(nodes@, e as int, j + 1) =~= pre + render_children(
                    nodes@,
                    e as int,
                    j as int,
                ));
            }
        }
        j += 1;
    }
    s
}

} // verus!
