//! Dictionary entries from the answer of the Korean learners' dictionary
//! search service: for each `item` whose `word` is the query, the
//! translated words and translated definitions of each of its senses.

use vstd::prelude::*;
use crate::text::{chars_eq, chars_of, string_of, string_views, trim, trim_chars};

verus! {

#[verifier::external_type_specification]
#[verifier::external_body]
pub struct ExXmlError(roxmltree::Error);

/// A dictionary entry: the looked-up word, its translations and their
/// explanations.
#[derive(Debug, Clone, PartialEq)]
pub struct Entry {
    pub word: String,
    pub definition: Vec<String>,
    pub explaination: Vec<String>,
}

impl Entry {
    /// An entry from its parts.
    pub fn new(word: String, definition: Vec<String>, explaination: Vec<String>) -> (e: Entry)
        ensures
            e == (Entry { word, definition, explaination }),
    {
        Entry { word, definition, explaination }
    }
}

/// One node of a parsed XML document, in document order: its id, the id of
/// its parent (none for the document node), whether it is an element, its
/// local tag name (empty for non-elements) and its text (for an element,
/// the text node that is its first child, if any).
#[derive(Debug)]
pub struct XmlNode {
    pub id: u32,
    pub parent: Option<u32>,
    pub element: bool,
    pub name: String,
    pub text: Option<String>,
}

/// The abstract content of an XML node.
pub type NodeView = (u32, Option<u32>, bool, Seq<char>, Option<Seq<char>>);

/// The abstract content of a node.
pub open spec fn node_view(n: XmlNode) -> NodeView {
    (n.id, n.parent, n.element, n.name@, match n.text {
        Some(t) => Some(t@),
        None => None,
    })
}

/// The nodes that `roxmltree` reads from `data`, in document order, or
/// `None` when it rejects the document.
pub uninterp spec fn xml_nodes(data: Seq<char>) -> Option<Seq<NodeView>>;

/// Parses `data` with `roxmltree::Document::parse` and lists its nodes in
/// document order (`descendants` of the document node). The contract claims
/// that the result is `Ok` exactly when `xml_nodes` has a value and then
/// holds those nodes, and, as `Document::parse` refuses a document without a
/// root element, that the first node is the document node and some node is
/// its child. What counts as well-formed XML is not stated here.
#[verifier::external_body]
fn read_xml(data: &str) -> (r: Result<Vec<XmlNode>, roxmltree::Error>)
    ensures
        r is Ok <==> xml_nodes(data@) is Some,
        r matches Ok(v) ==> {
            &&& v@.map_values(|n: XmlNode| node_view(n)) == xml_nodes(data@)->0
            &&& v@.len() > 0
            &&& v@[0].parent is None
            &&& exists|k: int| 0 <= k < v@.len() && v@[k].parent == Some(v@[0].id)
        },
{
    roxmltree::Document::parse(data).map(|doc| doc.descendants().map(|n| XmlNode {
        id: n.id().get(),
        parent: n.parent().map(|p| p.id().get()),
        element: n.is_element(),
        name: n.tag_name().name().to_string(),
        text: n.text().map(String::from),
    }).collect())
}

/// Why a dictionary answer could not be read.
#[derive(Debug)]
pub enum SearchError {
    /// The answer is not well-formed XML.
    Xml(roxmltree::Error),
}

/// Tag names of the dictionary answer.
pub open spec fn item_tag() -> Seq<char> {
    seq!['i', 't', 'e', 'm']
}

pub open spec fn word_tag() -> Seq<char> {
    seq!['w', 'o', 'r', 'd']
}

pub open spec fn sense_tag() -> Seq<char> {
    seq!['s', 'e', 'n', 's', 'e']
}

pub open spec fn translation_tag() -> Seq<char> {
    seq!['t', 'r', 'a', 'n', 's', 'l', 'a', 't', 'i', 'o', 'n']
}

pub open spec fn trans_word_tag() -> Seq<char> {
    seq!['t', 'r', 'a', 'n', 's', '_', 'w', 'o', 'r', 'd']
}

pub open spec fn trans_dfn_tag() -> Seq<char> {
    seq!['t', 'r', 'a', 'n', 's', '_', 'd', 'f', 'n']
}

/// `n` is an element named `name` whose parent is `p` (`has_tag_name` on a child of `p`).
pub open spec fn is_named_child(n: NodeView, p: u32, name: Seq<char>) -> bool {
    n.1 == Some(p) && n.2 && n.3 == name
}

/// The text of a node, or the empty text.
pub open spec fn text_or_empty(n: NodeView) -> Seq<char> {
    match n.4 {
        Some(t) => t,
        None => seq![],
    }
}

/// The texts of the children of `p` named `name` among the first `upto` nodes.
pub open spec fn child_texts(ns: Seq<NodeView>, upto: int, p: u32, name: Seq<char>) -> Seq<Seq<char>>
    decreases upto,
{
    if upto <= 0 {
        seq![]
    } else {
        let rest = child_texts(ns, upto - 1, p, name);
        if is_named_child(ns[upto - 1], p, name) {
            rest.push(text_or_empty(ns[upto - 1]))
        } else {
            rest
        }
    }
}

/// Whether, among the first `upto` nodes, the last child of `p` named `tag`
/// has the text `query` (`has_child_tag`).
pub open spec fn has_child_tag(ns: Seq<NodeView>, upto: int, p: u32, tag: Seq<char>, query: Seq<char>) -> bool
    decreases upto,
{
    if upto <= 0 {
        false
    } else if is_named_child(ns[upto - 1], p, tag) {
        ns[upto - 1].4 == Some(query)
    } else {
        has_child_tag(ns, upto - 1, p, tag, query)
    }
}

/// The `leaf` texts of every `translation` child of sense `s`, in order.
pub open spec fn sense_texts(ns: Seq<NodeView>, upto: int, s: u32, leaf: Seq<char>) -> Seq<Seq<char>>
    decreases upto,
{
    if upto <= 0 {
        seq![]
    } else {
        let rest = sense_texts(ns, upto - 1, s, leaf);
        if is_named_child(ns[upto - 1], s, translation_tag()) {
            rest + child_texts(ns, ns.len() as int, ns[upto - 1].0, leaf)
        } else {
            rest
        }
    }
}

/// The `leaf` texts of every `sense` child of item `i`, in order.
pub open spec fn item_texts(ns: Seq<NodeView>, upto: int, i: u32, leaf: Seq<char>) -> Seq<Seq<char>>
    decreases upto,
{
    if upto <= 0 {
        seq![]
    } else {
        let rest = item_texts(ns, upto - 1, i, leaf);
        if is_named_child(ns[upto - 1], i, sense_tag()) {
            rest + sense_texts(ns, ns.len() as int, ns[upto - 1].0, leaf)
        } else {
            rest
        }
    }
}

/// The `leaf` texts of every `item` child of `root` whose `word` is `query`.
pub open spec fn answer_texts(ns: Seq<NodeView>, upto: int, root: u32, query: Seq<char>, leaf: Seq<char>) -> Seq<Seq<char>>
    decreases upto,
{
    if upto <= 0 {
        seq![]
    } else {
        let rest = answer_texts(ns, upto - 1, root, query, leaf);
        let n = ns[upto - 1];
        if is_named_child(n, root, item_tag()) && has_child_tag(ns, ns.len() as int, n.0, word_tag(), query) {
            rest + item_texts(ns, ns.len() as int, n.0, leaf)
        } else {
            rest
        }
    }
}

/// The position of the first node from `k` on whose parent is `p`.
pub open spec fn first_child_from(ns: Seq<NodeView>, p: u32, k: int) -> Option<int>
    decreases ns.len() - k,
{
    if k < 0 || k >= ns.len() {
        None
    } else if ns[k].1 == Some(p) {
        Some(k)
    } else {
        first_child_from(ns, p, k + 1)
    }
}

/// The entry that an answer gives for `query`: the top node is the first
/// child of the document node; its `item` children whose `word` is the
/// query contribute, sense by sense and translation by translation, their
/// `trans_word` texts as definitions and their `trans_dfn` texts as
/// explanations.
pub open spec fn answer_entry(ns: Seq<NodeView>, query: Seq<char>) -> (Seq<Seq<char>>, Seq<Seq<char>>) {
    let top = ns[first_child_from(ns, ns[0].0, 0)->0].0;
    (
        answer_texts(ns, ns.len() as int, top, query, trans_word_tag()),
        answer_texts(ns, ns.len() as int, top, query, trans_dfn_tag()),
    )
}


/// The abstract content of a list of nodes.
pub open spec fn nodes_view(ns: Seq<XmlNode>) -> Seq<NodeView> {
    ns.map_values(|n: XmlNode| node_view(n))
}

fn named_child(n: &XmlNode, p: u32, name: &Vec<char>) -> (b: bool)
    ensures
        b == is_named_child(node_view(*n), p, name@),
{
    if n.parent != Some(p) || !n.element {
        return false;
    }
    chars_eq(&chars_of(n.name.as_str()), name)
}

fn node_text(n: &XmlNode) -> (t: String)
    ensures
        t@ == text_or_empty(node_view(*n)),
{
    match &n.text {
        Some(t) => t.clone(),
        None => String::new(),
    }
}

fn child_texts_exec(ns: &Vec<XmlNode>, p: u32, name: &Vec<char>) -> (r: Vec<String>)
    ensures
        string_views(r@) == child_texts(nodes_view(ns@), ns@.len() as int, p, name@),
{
    let ghost nv = nodes_view(ns@);
    let mut r: Vec<String> = Vec::new();
    let mut k: usize = 0;
    while k < ns.len()
        invariant
            k <= ns.len(),
            nv == nodes_view(ns@),
            string_views(r@) == child_texts(nv, k as int, p, name@),
        decreases ns.len() - k,
    {
        assert(nv[k as int] == node_view(ns@[k as int]));
        if named_child(&ns[k], p, name) {
            let t = node_text(&ns[k]);
            let ghost before = string_views(r@);
            r.push(t);
            assert(string_views(r@) =~= before.push(t@));
        }
        k = k + 1;
    }
    r
}

fn has_child_tag_exec(ns: &Vec<XmlNode>, p: u32, tag: &Vec<char>, query: &Vec<char>) -> (b: bool)
    ensures
        b == has_child_tag(nodes_view(ns@), ns@.len() as int, p, tag@, query@),
{
    let ghost nv = nodes_view(ns@);
    let mut flag = false;
    let mut k: usize = 0;
    while k < ns.len()
        invariant
            k <= ns.len(),
            nv == nodes_view(ns@),
            flag == has_child_tag(nv, k as int, p, tag@, query@),
        decreases ns.len() - k,
    {
        assert(nv[k as int] == node_view(ns@[k as int]));
        if named_child(&ns[k], p, tag) {
            flag = match &ns[k].text {
                Some(t) => chars_eq(&chars_of(t.as_str()), query),
                None => false,
            };
        }
        k = k + 1;
    }
    flag
}

fn append_strings(acc: &mut Vec<String>, more: Vec<String>)
    ensures
        string_views(final(acc)@) == string_views(old(acc)@) + string_views(more@),
{
    let mut more = more;
    let ghost a = string_views(acc@);
    let ghost b = string_views(more@);
    acc.append(&mut more);
    assert(string_views(acc@) =~= a + b);
}

fn sense_texts_exec(ns: &Vec<XmlNode>, s: u32, leaf: &Vec<char>) -> (r: Vec<String>)
    ensures
        string_views(r@) == sense_texts(nodes_view(ns@), ns@.len() as int, s, leaf@),
{
    let ghost nv = nodes_view(ns@);
    let translation: Vec<char> = vec!['t', 'r', 'a', 'n', 's', 'l', 'a', 't', 'i', 'o', 'n'];
    assert(translation@ =~= translation_tag());
    let mut r: Vec<String> = Vec::new();
    let mut k: usize = 0;
    while k < ns.len()
        invariant
            k <= ns.len(),
            nv == nodes_view(ns@),
            translation@ == translation_tag(),
            string_views(r@) == sense_texts(nv, k as int, s, leaf@),
        decreases ns.len() - k,
    {
        assert(nv[k as int] == node_view(ns@[k as int]));
        if named_child(&ns[k], s, &translation) {
            let more = child_texts_exec(ns, ns[k].id, leaf);
            append_strings(&mut r, more);
        }
        k = k + 1;
    }
    r
}

fn item_texts_exec(ns: &Vec<XmlNode>, i: u32, leaf: &Vec<char>) -> (r: Vec<String>)
    ensures
        string_views(r@) == item_texts(nodes_view(ns@), ns@.len() as int, i, leaf@),
{
    let ghost nv = nodes_view(ns@);
    let sense: Vec<char> = vec!['s', 'e', 'n', 's', 'e'];
    assert(sense@ =~= sense_tag());
    let mut r: Vec<String> = Vec::new();
    let mut k: usize = 0;
    while k < ns.len()
        invariant
            k <= ns.len(),
            nv == nodes_view(ns@),
            sense@ == sense_tag(),
            string_views(r@) == item_texts(nv, k as int, i, leaf@),
        decreases ns.len() - k,
    {
        assert(nv[k as int] == node_view(ns@[k as int]));
        if named_child(&ns[k], i, &sense) {
            let more = sense_texts_exec(ns, ns[k].id, leaf);
            append_strings(&mut r, more);
        }
        k = k + 1;
    }
    r
}

fn answer_texts_exec(ns: &Vec<XmlNode>, root: u32, query: &Vec<char>, leaf: &Vec<char>) -> (r: Vec<
    String,
>)
    ensures
        string_views(r@) == answer_texts(nodes_view(ns@), ns@.len() as int, root, query@, leaf@),
{
    let ghost nv = nodes_view(ns@);
    let item: Vec<char> = vec!['i', 't', 'e', 'm'];
    let word: Vec<char> = vec!['w', 'o', 'r', 'd'];
    assert(item@ =~= item_tag());
    assert(word@ =~= word_tag());
    let mut r: Vec<String> = Vec::new();
    let mut k: usize = 0;
    while k < ns.len()
        invariant
            k <= ns.len(),
            nv == nodes_view(ns@),
            item@ == item_tag(),
            word@ == word_tag(),
            string_views(r@) == answer_texts(nv, k as int, root, query@, leaf@),
        decreases ns.len() - k,
    {
        assert(nv[k as int] == node_view(ns@[k as int]));
        if named_child(&ns[k], root, &item) && has_child_tag_exec(ns, ns[k].id, &word, query) {
            let more = item_texts_exec(ns, ns[k].id, leaf);
            append_strings(&mut r, more);
        }
        k = k + 1;
    }
    r
}

/// The position of the first child of the document node.
fn first_child(ns: &Vec<XmlNode>) -> (k: usize)
    requires
        ns@.len() > 0,
        exists|j: int| 0 <= j < ns@.len() && ns@[j].parent == Some(ns@[0].id),
    ensures
        first_child_from(nodes_view(ns@), ns@[0].id, 0) == Some(k as int),
        k < ns@.len(),
{
    let ghost nv = nodes_view(ns@);
    let root = ns[0].id;
    let mut k: usize = 0;
    while k < ns.len() && ns[k].parent != Some(root)
        invariant
            k <= ns.len(),
            nv == nodes_view(ns@),
            root == ns@[0].id,
            forall|j: int| 0 <= j < k ==> ns@[j].parent != Some(root),
            first_child_from(nv, root, 0) == first_child_from(nv, root, k as int),
        decreases ns.len() - k,
    {
        assert(nv[k as int] == node_view(ns@[k as int]));
        k = k + 1;
    }
    if k == ns.len() {
        proof {
            let j = choose|j: int| 0 <= j < ns@.len() && ns@[j].parent == Some(ns@[0].id);
            assert(ns@[j].parent != Some(root));
        }
    }
    assert(nv[k as int] == node_view(ns@[k as int]));
    k
}

/// Reads the dictionary's XML answer for `query`: the definitions and
/// explanations that it gives for the items whose word is `query`.
pub fn parse(data: String, query: String) -> (r: Result<Entry, SearchError>)
    ensures
        match xml_nodes(data@) {
            None => r matches Err(SearchError::Xml(_)),
            Some(ns) => r matches Ok(e) && e.word@ == query@ && (
            string_views(e.definition@),
            string_views(e.explaination@),
            ) == answer_entry(ns, query@),
        },
{
    let doc = match read_xml(data.as_str()) {
        Ok(v) => v,
        Err(e) => {
            return Err(SearchError::Xml(e));
        },
    };
    let top = first_child(&doc);
    let root = doc[top].id;
    let q = chars_of(query.as_str());
    let tw: Vec<char> = vec!['t', 'r', 'a', 'n', 's', '_', 'w', 'o', 'r', 'd'];
    let td: Vec<char> = vec!['t', 'r', 'a', 'n', 's', '_', 'd', 'f', 'n'];
    assert(tw@ =~= trans_word_tag());
    assert(td@ =~= trans_dfn_tag());
    let defi = answer_texts_exec(&doc, root, &q, &tw);
    let expl = answer_texts_exec(&doc, root, &q, &td);
    proof {
        let nv = nodes_view(doc@);
        assert(nv[0] == node_view(doc@[0]));
        assert(nv[top as int] == node_view(doc@[top as int]));
    }
    Ok(Entry::new(query, defi, expl))
}


/// Every text with its surrounding whitespace removed.
pub open spec fn trim_all(s: Seq<Seq<char>>) -> Seq<Seq<char>> {
    s.map_values(|t: Seq<char>| trim(t))
}

fn trim_each(v: Vec<String>) -> (r: Vec<String>)
    ensures
        string_views(r@) == trim_all(string_views(v@)),
{
    let mut r: Vec<String> = Vec::new();
    let mut i: usize = 0;
    while i < v.len()
        invariant
            i <= v.len(),
            string_views(r@) == trim_all(string_views(v@)).take(i as int),
        decreases v.len() - i,
    {
        let t = string_of(&trim_chars(&chars_of(v[i].as_str())));
        let ghost before = string_views(r@);
        r.push(t);
        assert(string_views(r@) =~= before.push(t@));
        assert(trim_all(string_views(v@)).take(i + 1) =~= trim_all(string_views(v@)).take(
            i as int,
        ).push(trim(v@[i as int]@)));
        i = i + 1;
    }
    assert(trim_all(string_views(v@)).take(v.len() as int) =~= trim_all(string_views(v@)));
    r
}

/// Like `parse`, with each definition and explanation text trimmed of
/// surrounding whitespace.
pub fn parse_trimmed(data: String, query: String) -> (r: Result<Entry, SearchError>)
    ensures
        match xml_nodes(data@) {
            None => r matches Err(SearchError::Xml(_)),
            Some(ns) => r matches Ok(e) && e.word@ == query@ && string_views(e.definition@)
                == trim_all(answer_entry(ns, query@).0) && string_views(e.explaination@) == trim_all(
                answer_entry(ns, query@).1,
            ),
        },
{
    match parse(data, query) {
        Ok(e) => Ok(Entry::new(e.word, trim_each(e.definition), trim_each(e.explaination))),
        Err(err) => Err(err),
    }
}

/// The dictionary search request for `query` with key `api_key`, asking for
/// English translations.
pub fn request_url(api_key: &str, query: &str) -> (s: String)
    ensures
        s@ == "https://krdict.korean.go.kr/api/search?key="@ + api_key@ + "&q="@ + query@
            + "&translated=y&trans_lang=1"@,
{
    let mut s = "https://krdict.korean.go.kr/api/search?key=".to_owned();
    s.append(api_key);
    s.append("&q=");
    s.append(query);
    s.append("&translated=y&trans_lang=1");
    s
}

} // verus!
