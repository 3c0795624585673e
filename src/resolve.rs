//! The resolution pass: from classified declarations to the deduplicated
//! mapping of package URLs that forms a manifest's body.
use vstd::prelude::*;
use vstd::string::*;
use crate::purl::{conda_package_url, conda_purl, pypi_package_url, pypi_purl};

verus! {

/// One dependency declaration of a descriptor, after classification.
#[derive(Clone, Debug)]
pub enum Declaration {
    /// A plain string: a Conda package `name[=version]`.
    Scalar(String),
    /// A mapping whose `pip` key holds a list of pip packages `name[==version]`.
    NestedPipList(Vec<String>),
    /// Any other shape.
    Other,
}

/// Why a descriptor could not be resolved.
#[derive(Clone, Copy, PartialEq, Eq, Debug)]
pub enum ResolveError {
    /// The document is not valid YAML.
    DescriptorParseError,
    /// The document has no `dependencies` sequence.
    MissingDependencyList,
    /// The declaration at this position of `dependencies` has an unusable shape.
    MalformedDependencyDeclaration(usize),
}

/// One resolved package of a manifest.
#[derive(Clone, Debug)]
pub struct Entry {
    pub package_url: String,
    pub relationship: String,
    pub dependencies: Vec<String>,
}

/// `direct`
pub open spec fn direct() -> Seq<char> {
    seq!['d', 'i', 'r', 'e', 'c', 't']
}

impl Entry {
    /// Whether this entry is a direct dependency with no dependencies of its own.
    pub open spec fn is_direct_leaf(&self) -> bool {
        &&& self.relationship@ == direct()
        &&& self.dependencies@.len() == 0
    }

    /// A direct entry for the given package URL.
    pub fn new(package_url: &str) -> (r: Entry)
        ensures
            r.package_url@ == package_url@,
            r.is_direct_leaf(),
    {
        proof {
            reveal_strlit("direct");
        }
        let relationship = String::from_str("direct");
        assert(relationship@ =~= direct());
        Entry { package_url: String::from_str(package_url), relationship, dependencies: Vec::new() }
    }
}

impl Default for Entry {
    fn default() -> (r: Entry)
        ensures
            r.package_url@.len() == 0,
            r.is_direct_leaf(),
    {
        proof {
            reveal_strlit("");
        }
        Entry::new("")
    }
}

/// The package URLs that one declaration contributes, in document order.
pub open spec fn declaration_purls(d: Declaration) -> Seq<Seq<char>> {
    match d {
        Declaration::Scalar(s) => seq![conda_purl(s@)],
        Declaration::NestedPipList(v) => v@.map_values(|p: String| pypi_purl(p@)),
        Declaration::Other => Seq::empty(),
    }
}

/// The package URLs of all declarations, in document order, repetitions kept.
pub open spec fn all_purls(ds: Seq<Declaration>) -> Seq<Seq<char>>
    decreases ds.len(),
{
    if ds.len() == 0 {
        Seq::empty()
    } else {
        all_purls(ds.drop_last()) + declaration_purls(ds.last())
    }
}

/// The position of the first declaration of an unusable shape, if any.
pub open spec fn first_malformed(ds: Seq<Declaration>) -> Option<int>
    decreases ds.len(),
{
    if ds.len() == 0 {
        None
    } else {
        match first_malformed(ds.drop_last()) {
            Some(i) => Some(i),
            None => if ds.last() is Other {
                Some(ds.len() - 1)
            } else {
                None
            },
        }
    }
}

/// The keys of a list of entries.
pub open spec fn keys(es: Seq<Entry>) -> Seq<Seq<char>> {
    es.map_values(|e: Entry| e.package_url@)
}

/// The entries are a mapping keyed by package URL: keys unique, every entry direct.
pub open spec fn is_mapping(es: Seq<Entry>) -> bool {
    &&& keys(es).no_duplicates()
    &&& forall|i: int| 0 <= i < es.len() ==> (#[trigger] es[i]).is_direct_leaf()
}

/// The entries are the mapping that the given package URLs resolve to:
/// exactly one direct entry for each distinct URL.
pub open spec fn resolves_to(es: Seq<Entry>, purls: Seq<Seq<char>>) -> bool {
    &&& is_mapping(es)
    &&& keys(es).to_set() == purls.to_set()
}

/// What an entry holds, as plain values: its URL, relationship and dependencies.
pub open spec fn entry_view(e: Entry) -> (Seq<char>, Seq<char>, Seq<Seq<char>>) {
    (e.package_url@, e.relationship@, e.dependencies@.map_values(|d: String| d@))
}

/// The key-value pairs of a list of entries.
pub open spec fn mapping_view(es: Seq<Entry>) -> Set<(Seq<char>, Seq<char>, Seq<Seq<char>>)> {
    es.map_values(|e: Entry| entry_view(e)).to_set()
}

/// Resolution is a function of the declarations: two resolutions of the same
/// declarations hold the same key-value pairs.
pub proof fn lemma_resolution_idempotent(ds: Seq<Declaration>, r1: Seq<Entry>, r2: Seq<Entry>)
    requires
        resolves_to(r1, all_purls(ds)),
        resolves_to(r2, all_purls(ds)),
    ensures
        mapping_view(r1) == mapping_view(r2),
{
    lemma_mapping_view_in(r1, r2);
    lemma_mapping_view_in(r2, r1);
    assert(mapping_view(r1) =~= mapping_view(r2));
}

/// Every key-value pair of `a` is one of `b` when both are mappings of the same keys.
proof fn lemma_mapping_view_in(a: Seq<Entry>, b: Seq<Entry>)
    requires
        is_mapping(a),
        is_mapping(b),
        keys(a).to_set() == keys(b).to_set(),
    ensures
        forall|x| mapping_view(a).contains(x) ==> mapping_view(b).contains(x),
{
    assert forall|x| mapping_view(a).contains(x) implies mapping_view(b).contains(x) by {
        let va = a.map_values(|e: Entry| entry_view(e));
        let i = choose|i: int| 0 <= i < va.len() && #[trigger] va[i] == x;
        assert(keys(a)[i] == a[i].package_url@);
        assert(keys(a).to_set().contains(a[i].package_url@));
        let kb = keys(b);
        let j = choose|j: int| 0 <= j < kb.len() && #[trigger] kb[j] == a[i].package_url@;
        assert(a[i].is_direct_leaf());
        assert(b[j].is_direct_leaf());
        assert(a[i].dependencies@.map_values(|d: String| d@) =~= b[j].dependencies@.map_values(
            |d: String| d@,
        ));
        assert(entry_view(b[j]) == x);
        assert(b.map_values(|e: Entry| entry_view(e))[j] == x);
    }
}

/// A resolution holds exactly one entry for each distinct package URL that the
/// declarations give, so never more entries than distinct URLs, and no more than
/// the declarations give URLs at all.
pub proof fn lemma_resolution_unique(ds: Seq<Declaration>, es: Seq<Entry>)
    requires
        resolves_to(es, all_purls(ds)),
    ensures
        es.len() == all_purls(ds).to_set().len(),
        es.len() <= all_purls(ds).len(),
        forall|i: int, j: int|
            0 <= i < j < es.len() ==> es[i].package_url@ != es[j].package_url@,
{
    keys(es).unique_seq_to_set();
    all_purls(ds).lemma_cardinality_of_set();
    assert forall|i: int, j: int| 0 <= i < j < es.len() implies es[i].package_url@
        != es[j].package_url@ by {
        assert(keys(es)[i] == es[i].package_url@);
        assert(keys(es)[j] == es[j].package_url@);
    }
}

/// A Conda declaration written twice gives one entry, not two, and no error.
pub proof fn lemma_redeclared_once(decl: String, es: Seq<Entry>)
    requires
        resolves_to(
            es,
            all_purls(seq![Declaration::Scalar(decl), Declaration::Scalar(decl)]),
        ),
    ensures
        es.len() == 1,
        es[0].package_url@ == conda_purl(decl@),
        first_malformed(seq![Declaration::Scalar(decl), Declaration::Scalar(decl)]) is None,
{
    let ds = seq![Declaration::Scalar(decl), Declaration::Scalar(decl)];
    let p = conda_purl(decl@);
    assert(ds.drop_last() =~= seq![Declaration::Scalar(decl)]);
    assert(ds.drop_last().drop_last() =~= Seq::<Declaration>::empty());
    let one = seq![Declaration::Scalar(decl)];
    assert(one.drop_last() =~= Seq::<Declaration>::empty());
    assert(one.last() == Declaration::Scalar(decl));
    assert(ds.last() == Declaration::Scalar(decl));
    assert(all_purls(one.drop_last()) == Seq::<Seq<char>>::empty());
    assert(declaration_purls(Declaration::Scalar(decl)) == seq![p]);
    assert(all_purls(one) =~= seq![p]);
    assert(all_purls(ds) =~= seq![p, p]);
    assert(first_malformed(one.drop_last()) is None);
    assert(first_malformed(one) is None);
    assert(seq![p, p].to_set() =~= set![p]);
    lemma_resolution_unique(ds, es);
    assert(set![p].len() == 1);
    assert(keys(es).to_set().contains(keys(es)[0]));
}

/// Inserts a direct entry for `purl`, replacing an entry with the same key.
fn insert_entry(entries: &mut Vec<Entry>, purl: String)
    requires
        is_mapping(old(entries)@),
    ensures
        is_mapping(final(entries)@),
        keys(final(entries)@).to_set() == keys(old(entries)@).to_set().insert(purl@),
{
    let ghost before = keys(entries@);
    let mut j: usize = 0;
    while j < entries.len()
        invariant
            entries@ == old(entries)@,
            is_mapping(entries@),
            before == keys(entries@),
            j <= entries@.len(),
            forall|k: int| 0 <= k < j ==> entries@[k].package_url@ != purl@,
        decreases entries@.len() - j,
    {
        if entries[j].package_url == purl {
            let entry = Entry::new(purl.as_str());
            entries.set(j, entry);
            assert(forall|k: int|
                0 <= k < entries@.len() ==> (#[trigger] entries@[k]).is_direct_leaf());
            assert(keys(entries@) =~= before);
            assert(before[j as int] == purl@);
            assert(keys(entries@).to_set() =~= before.to_set().insert(purl@));
            return;
        }
        j = j + 1;
    }
    let entry = Entry::new(purl.as_str());
    entries.push(entry);
    assert(keys(entries@) =~= before.push(purl@));
    assert(!before.contains(purl@));
    proof {
        before.lemma_push_to_set_commute(purl@);
    }
}

/// Resolves classified declarations, walked in document order, into the
/// mapping of package URLs. A later entry with the same URL replaces an earlier one.
pub fn resolve_declarations(ds: &Vec<Declaration>) -> (r: Result<Vec<Entry>, ResolveError>)
    ensures
        match first_malformed(ds@) {
            Some(i) => r == Err::<Vec<Entry>, ResolveError>(
                ResolveError::MalformedDependencyDeclaration(i as usize),
            ),
            None => r is Ok && resolves_to(r->Ok_0@, all_purls(ds@)),
        },
{
    let mut entries: Vec<Entry> = Vec::new();
    let mut i: usize = 0;
    assert(keys(entries@).to_set() =~= all_purls(ds@.subrange(0, 0)).to_set());
    while i < ds.len()
        invariant
            i <= ds@.len(),
            first_malformed(ds@.subrange(0, i as int)) is None,
            is_mapping(entries@),
            keys(entries@).to_set() == all_purls(ds@.subrange(0, i as int)).to_set(),
        decreases ds@.len() - i,
    {
        let ghost prefix = ds@.subrange(0, i as int);
        let ghost next = ds@.subrange(0, i + 1);
        assert(next.drop_last() =~= prefix);
        match &ds[i] {
            Declaration::Scalar(s) => {
                let purl = conda_package_url(s.as_str());
                insert_entry(&mut entries, purl);
                assert(all_purls(next) =~= all_purls(prefix).push(conda_purl(s@)));
                proof {
                    all_purls(prefix).lemma_push_to_set_commute(conda_purl(s@));
                }
                assert(keys(entries@).to_set() =~= all_purls(next).to_set());
            },
            Declaration::NestedPipList(v) => {
                let ghost pips = v@.map_values(|p: String| pypi_purl(p@));
                let mut k: usize = 0;
                assert(pips.subrange(0, 0) =~= Seq::<Seq<char>>::empty());
                assert(all_purls(prefix) + pips.subrange(0, 0) =~= all_purls(prefix));
                while k < v.len()
                    invariant
                        k <= v@.len(),
                        pips == v@.map_values(|p: String| pypi_purl(p@)),
                        is_mapping(entries@),
                        keys(entries@).to_set() == (all_purls(prefix) + pips.subrange(
                            0,
                            k as int,
                        )).to_set(),
                    decreases v@.len() - k,
                {
                    let purl = pypi_package_url(v[k].as_str());
                    insert_entry(&mut entries, purl);
                    assert(all_purls(prefix) + pips.subrange(0, k + 1) =~= (all_purls(prefix)
                        + pips.subrange(0, k as int)).push(pypi_purl(v@[k as int]@)));
                    proof {
                        (all_purls(prefix) + pips.subrange(0, k as int)).lemma_push_to_set_commute(
                            pypi_purl(v@[k as int]@),
                        );
                    }
                    assert(keys(entries@).to_set() =~= (all_purls(prefix) + pips.subrange(
                        0,
                        k + 1,
                    )).to_set());
                    k = k + 1;
                }
                assert(pips.subrange(0, v@.len() as int) =~= pips);
                assert(all_purls(next) =~= all_purls(prefix) + pips);
            },
            Declaration::Other => {
                assert(first_malformed(next) == Some(i as int));
                proof {
                    lemma_first_malformed_prefix(ds@, i as int + 1);
                }
                return Err(ResolveError::MalformedDependencyDeclaration(i));
            },
        }
        i = i + 1;
    }
    assert(ds@.subrange(0, ds@.len() as int) =~= ds@);
    Ok(entries)
}

/// An unusable declaration in a prefix is the first one of the whole list.
proof fn lemma_first_malformed_prefix(ds: Seq<Declaration>, n: int)
    requires
        0 <= n <= ds.len(),
        first_malformed(ds.subrange(0, n)) is Some,
    ensures
        first_malformed(ds) == first_malformed(ds.subrange(0, n)),
    decreases ds.len() - n,
{
    if n < ds.len() {
        let longer = ds.subrange(0, n + 1);
        assert(longer.drop_last() =~= ds.subrange(0, n));
        lemma_first_malformed_prefix(ds, n + 1);
    } else {
        assert(ds.subrange(0, n) =~= ds);
    }
}

} // verus!
