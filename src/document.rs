//! Reading a descriptor's text as YAML and classifying its `dependencies`.
//! yaml-rust2 parses the text; the library reads the parsed documents as a tree
//! of its own, `YamlNode`, whose strings, sequences and mappings it can inspect.
use vstd::prelude::*;
use vstd::string::*;
use yaml_rust2::{ScanError, Yaml, YamlLoader};
use crate::purl::{
    conda_prefix, conda_purl, hyphenated, lemma_conda_purl_shape, lemma_pypi_purl_shape,
    lower_of, pypi_prefix, pypi_purl,
};
use crate::resolve::{
    all_purls, declaration_purls, first_malformed, keys, resolves_to, Declaration, Entry,
    ResolveError,
};

verus! {

broadcast use vstd::std_specs::vec::axiom_vec_index_decreases;

/// The longest descriptor text, in characters, that the library reads.
/// yaml-rust2 descends a few stack frames for every level of nesting, with no
/// limit on block nesting. A block level takes at least two characters and a
/// flow level one, with at most 255 flow levels, so this bound keeps the
/// nesting under 640 levels, well within a 2 MiB thread stack.
pub const MAX_DESCRIPTOR_CHARS: usize = 1024;

#[verifier::external_type_specification]
#[verifier::external_body]
pub struct ExYaml(Yaml);

#[verifier::external_type_specification]
#[verifier::external_body]
pub struct ExScanError(ScanError);

/// One node of a parsed YAML document.
#[derive(Debug)]
pub enum YamlNode {
    /// A string scalar.
    Str(String),
    /// A sequence, items in document order.
    List(Vec<YamlNode>),
    /// A mapping: its keys, and the value of each key at the same position, in document order.
    Mapping(Vec<YamlNode>, Vec<YamlNode>),
    /// Any other node: a number, a boolean, null, an alias.
    Other,
}

/// A YAML node as plain values.
pub enum NodeView {
    Str(Seq<char>),
    List(Seq<NodeView>),
    Mapping(Seq<NodeView>, Seq<NodeView>),
    Other,
}

pub open spec fn node_view(n: YamlNode) -> NodeView
    decreases n,
{
    match n {
        YamlNode::Str(s) => NodeView::Str(s@),
        YamlNode::List(v) => NodeView::List(
            Seq::new(
                v.len() as nat,
                |i: int|
                    if 0 <= i < v.len() {
                        node_view(v[i])
                    } else {
                        NodeView::Other
                    },
            ),
        ),
        YamlNode::Mapping(ks, vs) => NodeView::Mapping(
            Seq::new(
                ks.len() as nat,
                |i: int|
                    if 0 <= i < ks.len() {
                        node_view(ks[i])
                    } else {
                        NodeView::Other
                    },
            ),
            Seq::new(
                vs.len() as nat,
                |i: int|
                    if 0 <= i < vs.len() {
                        node_view(vs[i])
                    } else {
                        NodeView::Other
                    },
            ),
        ),
        YamlNode::Other => NodeView::Other,
    }
}

/// Whether yaml-rust2 accepts the text as YAML.
pub uninterp spec fn yaml_parses(text: Seq<char>) -> bool;

/// The documents that yaml-rust2 reads from the text, as trees of `YamlNode`.
pub uninterp spec fn yaml_documents(text: Seq<char>) -> Seq<NodeView>;

/// Reads one yaml-rust2 node into a `YamlNode`, variant by variant: strings,
/// sequences and mappings keep their contents, every other node is `Other`.
#[verifier::external_body]
fn node_of(y: &Yaml) -> YamlNode {
    match y {
        Yaml::String(s) => YamlNode::Str(s.clone()),
        Yaml::Array(items) => YamlNode::List(items.iter().map(node_of).collect()),
        Yaml::Hash(h) => YamlNode::Mapping(
            h.keys().map(node_of).collect(),
            h.values().map(node_of).collect(),
        ),
        _ => YamlNode::Other,
    }
}

/// Relies on yaml-rust2's `YamlLoader::load_from_str`: whether the text parses,
/// and the documents it holds, depend on the text alone. Each document is read
/// into a `YamlNode` by `node_of`.
#[verifier::external_body]
fn load_documents(text: &str) -> (r: Result<Vec<YamlNode>, ScanError>)
    requires
        text@.len() <= MAX_DESCRIPTOR_CHARS,
    ensures
        r is Ok <==> yaml_parses(text@),
        r matches Ok(docs) ==> docs@.map_values(|n: YamlNode| node_view(n)) == yaml_documents(
            text@,
        ),
{
    YamlLoader::load_from_str(text).map(|docs| docs.iter().map(node_of).collect())
}

/// The value at the position of the first key that is the string `key`.
pub open spec fn lookup(ks: Seq<NodeView>, vs: Seq<NodeView>, key: Seq<char>) -> Option<NodeView>
    decreases ks.len(),
{
    if ks.len() == 0 || vs.len() == 0 {
        None
    } else if ks[0] == NodeView::Str(key) {
        Some(vs[0])
    } else {
        lookup(ks.drop_first(), vs.drop_first(), key)
    }
}

/// The value under the string key `key` of a mapping node.
pub open spec fn field_of(n: NodeView, key: Seq<char>) -> Option<NodeView> {
    match n {
        NodeView::Mapping(ks, vs) => lookup(ks, vs, key),
        _ => None,
    }
}

/// `pip`
pub open spec fn pip_key() -> Seq<char> {
    seq!['p', 'i', 'p']
}

/// `dependencies`
pub open spec fn dependencies_key() -> Seq<char> {
    seq!['d', 'e', 'p', 'e', 'n', 'd', 'e', 'n', 'c', 'i', 'e', 's']
}

/// The texts of a node's `pip` sequence, when it is a sequence of strings.
pub open spec fn pip_names(n: NodeView) -> Option<Seq<Seq<char>>> {
    match field_of(n, pip_key()) {
        Some(NodeView::List(items)) => if forall|i: int| 0 <= i < items.len() ==> #[trigger] items[i] is Str {
            Some(items.map_values(|x: NodeView| x->Str_0))
        } else {
            None
        },
        _ => None,
    }
}

/// `d` is the classification of the node `n`: a string is a Conda declaration,
/// a node with a `pip` sequence of strings is a list of pip declarations, and
/// anything else is malformed.
pub open spec fn classifies(d: Declaration, n: NodeView) -> bool {
    match n {
        NodeView::Str(t) => d matches Declaration::Scalar(s) && s@ == t,
        _ => match pip_names(n) {
            Some(names) => d matches Declaration::NestedPipList(v) && v@.map_values(
                |s: String| s@,
            ) == names,
            None => d is Other,
        },
    }
}

/// Whether a dependency node has an unusable shape.
pub open spec fn node_malformed(n: NodeView) -> bool {
    !(n is Str) && pip_names(n) is None
}

/// The package URLs that one dependency node gives.
pub open spec fn node_purls(n: NodeView) -> Seq<Seq<char>> {
    match n {
        NodeView::Str(t) => seq![conda_purl(t)],
        _ => match pip_names(n) {
            Some(names) => names.map_values(|p: Seq<char>| pypi_purl(p)),
            None => Seq::empty(),
        },
    }
}

/// The package URLs that a list of dependency nodes gives, in document order.
pub open spec fn dependency_purls(items: Seq<NodeView>) -> Seq<Seq<char>>
    decreases items.len(),
{
    if items.len() == 0 {
        Seq::empty()
    } else {
        dependency_purls(items.drop_last()) + node_purls(items.last())
    }
}

/// The position of the first dependency node of an unusable shape, if any.
pub open spec fn first_malformed_node(items: Seq<NodeView>) -> Option<int>
    decreases items.len(),
{
    if items.len() == 0 {
        None
    } else {
        match first_malformed_node(items.drop_last()) {
            Some(i) => Some(i),
            None => if node_malformed(items.last()) {
                Some(items.len() - 1)
            } else {
                None
            },
        }
    }
}

/// The items of the `dependencies` sequence of the text's first document.
pub open spec fn dependency_items(text: Seq<char>) -> Option<Seq<NodeView>> {
    let docs = yaml_documents(text);
    if docs.len() == 0 {
        None
    } else {
        match field_of(docs[0], dependencies_key()) {
            Some(NodeView::List(items)) => Some(items),
            _ => None,
        }
    }
}

/// Each declaration is the classification of the node at its position.
pub open spec fn classifies_all(ds: Seq<Declaration>, items: Seq<NodeView>) -> bool {
    &&& ds.len() == items.len()
    &&& forall|i: int| 0 <= i < items.len() ==> classifies(#[trigger] ds[i], items[i])
}

/// A classified declaration gives the node's package URLs, and is malformed
/// exactly when the node is.
proof fn lemma_classified_purls(d: Declaration, n: NodeView)
    requires
        classifies(d, n),
    ensures
        declaration_purls(d) == node_purls(n),
        d is Other <==> node_malformed(n),
{
    match n {
        NodeView::Str(t) => {},
        _ => match pip_names(n) {
            Some(names) => {
                let v = d->NestedPipList_0;
                assert(v@.map_values(|p: String| pypi_purl(p@)) =~= names.map_values(
                    |p: Seq<char>| pypi_purl(p),
                ));
            },
            None => {},
        },
    }
}

/// Classified declarations give the nodes' package URLs and first malformed position.
pub proof fn lemma_classified_list(ds: Seq<Declaration>, items: Seq<NodeView>)
    requires
        classifies_all(ds, items),
    ensures
        all_purls(ds) == dependency_purls(items),
        first_malformed(ds) == first_malformed_node(items),
    decreases items.len(),
{
    if items.len() > 0 {
        let n = items.len() - 1;
        assert(classifies(ds[n], items[n]));
        lemma_classified_purls(ds.last(), items.last());
        assert forall|i: int| 0 <= i < n implies classifies(
            #[trigger] ds.drop_last()[i],
            items.drop_last()[i],
        ) by {
            assert(classifies(ds[i], items[i]));
        }
        lemma_classified_list(ds.drop_last(), items.drop_last());
    }
}

/// Every package URL of the node at position `i` is one of the list's.
proof fn lemma_node_purls_in_list(items: Seq<NodeView>, i: int)
    requires
        0 <= i < items.len(),
    ensures
        forall|p: Seq<char>|
            node_purls(items[i]).contains(p) ==> #[trigger] dependency_purls(items).contains(p),
    decreases items.len(),
{
    let init = items.drop_last();
    let a = dependency_purls(init);
    let b = node_purls(items.last());
    assert(dependency_purls(items) == a + b);
    if i == items.len() - 1 {
        assert forall|p: Seq<char>| b.contains(p) implies #[trigger] (a + b).contains(p) by {
            let k = choose|k: int| 0 <= k < b.len() && b[k] == p;
            assert((a + b)[a.len() + k] == p);
        }
    } else {
        lemma_node_purls_in_list(init, i);
        assert(init[i] == items[i]);
        assert forall|p: Seq<char>| a.contains(p) implies #[trigger] (a + b).contains(p) by {
            let k = choose|k: int| 0 <= k < a.len() && a[k] == p;
            assert((a + b)[k] == p);
        }
    }
}

/// A Conda declaration `name=version` among a descriptor's dependencies gives the
/// key `pkg:conda/name@version` of the resolved mapping, and a bare `name` gives
/// `pkg:conda/name`. The name holds no `=`; the version is any non-empty text.
pub proof fn lemma_descriptor_conda_entry(
    items: Seq<NodeView>,
    i: int,
    es: Seq<Entry>,
    name: Seq<char>,
    version: Seq<char>,
)
    requires
        0 <= i < items.len(),
        resolves_to(es, dependency_purls(items)),
        !name.contains('='),
        version.len() > 0,
    ensures
        items[i] == NodeView::Str(name + seq!['='] + version) ==> keys(es).contains(
            conda_prefix() + name + seq!['@'] + version,
        ),
        items[i] == NodeView::Str(name) ==> keys(es).contains(conda_prefix() + name),
{
    lemma_conda_purl_shape(name, version);
    lemma_node_purls_in_list(items, i);
    if let NodeView::Str(t) = items[i] {
        assert(node_purls(items[i])[0] == conda_purl(t));
        assert(dependency_purls(items).contains(conda_purl(t)));
        assert(keys(es).to_set().contains(conda_purl(t)));
    }
}

/// A pip declaration `name==version` in the `pip` list of a descriptor's
/// dependency gives the key `pkg:pypi/<n>@version` of the resolved mapping, and a
/// bare `name` gives `pkg:pypi/<n>`, where `<n>` is the name lower-cased with
/// underscores turned into hyphens. The name holds no `=`; the version is any
/// non-empty text.
pub proof fn lemma_descriptor_pypi_entry(
    items: Seq<NodeView>,
    i: int,
    k: int,
    es: Seq<Entry>,
    name: Seq<char>,
    version: Seq<char>,
)
    requires
        0 <= i < items.len(),
        !(items[i] is Str),
        pip_names(items[i]) matches Some(names) && 0 <= k < names.len(),
        resolves_to(es, dependency_purls(items)),
        !name.contains('='),
        version.len() > 0,
    ensures
        pip_names(items[i])->0[k] == name + seq!['=', '='] + version ==> keys(es).contains(
            pypi_prefix() + hyphenated(lower_of(name)) + seq!['@'] + version,
        ),
        pip_names(items[i])->0[k] == name ==> keys(es).contains(
            pypi_prefix() + hyphenated(lower_of(name)),
        ),
{
    lemma_pypi_purl_shape(name, version);
    lemma_node_purls_in_list(items, i);
    let names = pip_names(items[i])->0;
    assert(node_purls(items[i]) == names.map_values(|p: Seq<char>| pypi_purl(p)));
    assert(node_purls(items[i])[k] == pypi_purl(names[k]));
    assert(dependency_purls(items).contains(pypi_purl(names[k])));
    assert(keys(es).to_set().contains(pypi_purl(names[k])));
}

/// Declaring again what a descriptor's dependencies already declare raises no
/// error and leaves the resolved mapping as it was: the mappings that the longer
/// list resolves to are those that the shorter one resolves to.
pub proof fn lemma_descriptor_redeclared(items: Seq<NodeView>, n: NodeView, es: Seq<Entry>)
    requires
        !node_malformed(n),
        forall|p: Seq<char>|
            node_purls(n).contains(p) ==> #[trigger] dependency_purls(items).contains(p),
    ensures
        first_malformed_node(items.push(n)) == first_malformed_node(items),
        resolves_to(es, dependency_purls(items.push(n))) <==> resolves_to(
            es,
            dependency_purls(items),
        ),
{
    let longer = items.push(n);
    assert(longer.drop_last() =~= items);
    assert(longer.last() == n);
    let a = dependency_purls(items);
    let b = node_purls(n);
    assert(dependency_purls(longer) == a + b);
    assert((a + b).to_set() =~= a.to_set()) by {
        assert forall|p: Seq<char>| (a + b).to_set().contains(p) implies a.to_set().contains(p) by {
            let k = choose|k: int| 0 <= k < (a + b).len() && (a + b)[k] == p;
            if k >= a.len() {
                assert(b[k - a.len()] == p);
                assert(b.contains(p));
            }
        }
        assert forall|p: Seq<char>| a.to_set().contains(p) implies (a + b).to_set().contains(p) by {
            let k = choose|k: int| 0 <= k < a.len() && a[k] == p;
            assert((a + b)[k] == p);
        }
    }
}

/// The value under the string key `key` of a mapping node.
pub fn field<'a>(node: &'a YamlNode, key: &str) -> (r: Option<&'a YamlNode>)
    ensures
        field_of(node_view(*node), key@) == match r {
            Some(x) => Some(node_view(*x)),
            None => None::<NodeView>,
        },
{
    match node {
        YamlNode::Mapping(ks, vs) => {
            let ghost kv = node_view(*node)->Mapping_0;
            let ghost vv = node_view(*node)->Mapping_1;
            assert(node_view(*node) == NodeView::Mapping(kv, vv));
            let k = String::from_str(key);
            let mut j: usize = 0;
            assert(kv.subrange(0, kv.len() as int) =~= kv);
            assert(vv.subrange(0, vv.len() as int) =~= vv);
            while j < ks.len() && j < vs.len()
                invariant
                    j <= ks@.len(),
                    j <= vs@.len(),
                    k@ == key@,
                    node_view(*node) == NodeView::Mapping(kv, vv),
                    kv.len() == ks@.len(),
                    vv.len() == vs@.len(),
                    forall|i: int| 0 <= i < ks@.len() ==> #[trigger] kv[i] == node_view(ks@[i]),
                    forall|i: int| 0 <= i < vs@.len() ==> #[trigger] vv[i] == node_view(vs@[i]),
                    lookup(kv, vv, key@) == lookup(
                        kv.subrange(j as int, kv.len() as int),
                        vv.subrange(j as int, vv.len() as int),
                        key@,
                    ),
                decreases ks@.len() - j,
            {
                let ghost krest = kv.subrange(j as int, kv.len() as int);
                let ghost vrest = vv.subrange(j as int, vv.len() as int);
                assert(krest[0] == kv[j as int]);
                assert(vrest[0] == vv[j as int]);
                assert(krest.drop_first() =~= kv.subrange(j + 1, kv.len() as int));
                assert(vrest.drop_first() =~= vv.subrange(j + 1, vv.len() as int));
                if let YamlNode::Str(s) = &ks[j] {
                    if *s == k {
                        assert(kv[j as int] == NodeView::Str(key@));
                        assert(vrest[0] == node_view(vs@[j as int]));
                        assert(krest.len() > 0 && vrest.len() > 0);
                        assert(lookup(krest, vrest, key@) == Some(vrest[0]));
                        let found = &vs[j];
                        assert(node_view(*found) == vrest[0]);
                        return Some(found);
                    }
                }
                assert(kv[j as int] != NodeView::Str(key@));
                j = j + 1;
            }
            assert(kv.subrange(j as int, kv.len() as int).len() == 0 || vv.subrange(
                j as int,
                vv.len() as int,
            ).len() == 0);
            None
        },
        _ => None,
    }
}

/// Classifies one item of `dependencies`: a string is a Conda declaration, a
/// mapping whose `pip` key holds a sequence of strings is a list of pip
/// declarations, and anything else is malformed.
pub fn classify(node: &YamlNode) -> (r: Declaration)
    ensures
        classifies(r, node_view(*node)),
{
    if let YamlNode::Str(s) = node {
        return Declaration::Scalar(s.clone());
    }
    proof {
        reveal_strlit("pip");
    }
    assert("pip"@ =~= pip_key());
    assert(!(node_view(*node) is Str));
    match field(node, "pip") {
        Some(YamlNode::List(items)) => {
            let ghost iv = node_view(YamlNode::List(*items))->List_0;
            let mut names: Vec<String> = Vec::new();
            let mut k: usize = 0;
            while k < items.len()
                invariant
                    k <= items@.len(),
                    names@.len() == k,
                    field_of(node_view(*node), pip_key()) == Some(NodeView::List(iv)),
                    !(node_view(*node) is Str),
                    iv.len() == items@.len(),
                    forall|i: int| 0 <= i < items@.len() ==> #[trigger] iv[i] == node_view(items@[i]),
                    forall|i: int| 0 <= i < k ==> #[trigger] iv[i] is Str,
                    names@.map_values(|s: String| s@) =~= iv.subrange(0, k as int).map_values(
                        |x: NodeView| x->Str_0,
                    ),
                decreases items@.len() - k,
            {
                match &items[k] {
                    YamlNode::Str(s) => {
                        let ghost before = names@;
                        names.push(s.clone());
                        assert(iv[k as int] == NodeView::Str(s@));
                        assert(names@.map_values(|s: String| s@) =~= before.map_values(
                            |s: String| s@,
                        ).push(s@));
                        assert(iv.subrange(0, k + 1) =~= iv.subrange(0, k as int).push(
                            iv[k as int],
                        ));
                    },
                    _ => {
                        assert(!(iv[k as int] is Str));
                        return Declaration::Other;
                    },
                }
                k = k + 1;
            }
            assert(iv.subrange(0, k as int) =~= iv);
            Declaration::NestedPipList(names)
        },
        _ => Declaration::Other,
    }
}

/// Whether the text is short enough for the library to read.
pub fn descriptor_fits(content: &str) -> (r: bool)
    ensures
        r == (content@.len() <= MAX_DESCRIPTOR_CHARS),
{
    content.unicode_len() <= MAX_DESCRIPTOR_CHARS
}

/// Parses a descriptor's text and classifies each item of the top-level
/// `dependencies` sequence of its first document, in document order.
pub fn read_declarations(content: &str) -> (r: Result<Vec<Declaration>, ResolveError>)
    requires
        content@.len() <= MAX_DESCRIPTOR_CHARS,
    ensures
        !yaml_parses(content@) ==> r == Err::<Vec<Declaration>, ResolveError>(
            ResolveError::DescriptorParseError,
        ),
        yaml_parses(content@) ==> match dependency_items(content@) {
            None => r == Err::<Vec<Declaration>, ResolveError>(
                ResolveError::MissingDependencyList,
            ),
            Some(items) => r matches Ok(ds) && classifies_all(ds@, items),
        },
{
    let docs = match load_documents(content) {
        Ok(docs) => docs,
        Err(_) => {
            return Err(ResolveError::DescriptorParseError);
        },
    };
    let ghost dv = docs@.map_values(|n: YamlNode| node_view(n));
    assert(dv.len() == docs@.len());
    if docs.len() == 0 {
        return Err(ResolveError::MissingDependencyList);
    }
    assert(dv[0] == node_view(docs@[0]));
    proof {
        reveal_strlit("dependencies");
    }
    assert("dependencies"@ =~= dependencies_key());
    let items = match field(&docs[0], "dependencies") {
        Some(YamlNode::List(items)) => items,
        _ => {
            return Err(ResolveError::MissingDependencyList);
        },
    };
    let ghost iv = node_view(YamlNode::List(*items))->List_0;
    let mut ds: Vec<Declaration> = Vec::new();
    let mut k: usize = 0;
    while k < items.len()
        invariant
            k <= items@.len(),
            iv.len() == items@.len(),
            forall|i: int| 0 <= i < items@.len() ==> #[trigger] iv[i] == node_view(items@[i]),
            ds@.len() == k,
            forall|i: int| 0 <= i < k ==> classifies(#[trigger] ds@[i], iv[i]),
        decreases items@.len() - k,
    {
        let d = classify(&items[k]);
        ds.push(d);
        k = k + 1;
    }
    Ok(ds)
}

} // verus!
