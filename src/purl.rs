//! Canonical package identifiers (package URLs) and the rules that build them
//! from a single dependency declaration.
use vstd::prelude::*;
use vstd::string::*;

verus! {

/// The two package ecosystems that an environment descriptor can declare.
#[derive(Clone, Copy, PartialEq, Eq, Debug)]
pub enum Ecosystem {
    /// A package of the environment's own ecosystem (`name=version`).
    Conda,
    /// A package nested under a `pip` list (`name==version`).
    Pypi,
}

/// `pkg:conda/`
pub open spec fn conda_prefix() -> Seq<char> {
    seq!['p', 'k', 'g', ':', 'c', 'o', 'n', 'd', 'a', '/']
}

/// `pkg:pypi/`
pub open spec fn pypi_prefix() -> Seq<char> {
    seq!['p', 'k', 'g', ':', 'p', 'y', 'p', 'i', '/']
}

pub open spec fn scheme_prefix(eco: Ecosystem) -> Seq<char> {
    match eco {
        Ecosystem::Conda => conda_prefix(),
        Ecosystem::Pypi => pypi_prefix(),
    }
}

/// The delimiter between name and version: `=` for Conda, `==` for pip.
pub open spec fn delimiter(eco: Ecosystem) -> Seq<char> {
    match eco {
        Ecosystem::Conda => seq!['='],
        Ecosystem::Pypi => seq!['=', '='],
    }
}

/// Whether `d` occurs in `s` starting at position `i`.
pub open spec fn occurs_at(s: Seq<char>, d: Seq<char>, i: int) -> bool {
    0 <= i && i + d.len() <= s.len() && s.subrange(i, i + d.len()) == d
}

/// The first position at or after `i` where `d` occurs in `s`.
pub open spec fn first_occurrence(s: Seq<char>, d: Seq<char>, i: int) -> Option<int>
    decreases s.len() + 1 - i,
{
    if i < 0 || i + d.len() > s.len() {
        None
    } else if s.subrange(i, i + d.len()) == d {
        Some(i)
    } else {
        first_occurrence(s, d, i + 1)
    }
}

/// The text before the first occurrence of `d` (all of `s` when there is none).
pub open spec fn name_part(s: Seq<char>, d: Seq<char>) -> Seq<char> {
    match first_occurrence(s, d, 0) {
        Some(i) => s.subrange(0, i),
        None => s,
    }
}

/// The text after the first occurrence of `d` (empty when there is none).
pub open spec fn version_part(s: Seq<char>, d: Seq<char>) -> Seq<char> {
    match first_occurrence(s, d, 0) {
        Some(i) => s.subrange(i + d.len(), s.len() as int),
        None => Seq::empty(),
    }
}

/// `pkg:<scheme>/<name>`, followed by `@<version>` when the version is not empty.
pub open spec fn purl_of(eco: Ecosystem, name: Seq<char>, version: Seq<char>) -> Seq<char> {
    if version.len() > 0 {
        scheme_prefix(eco) + name + seq!['@'] + version
    } else {
        scheme_prefix(eco) + name
    }
}

/// Every underscore replaced by a hyphen.
pub open spec fn hyphenated(s: Seq<char>) -> Seq<char> {
    s.map_values(|c: char| if c == '_' { '-' } else { c })
}

/// What `str::to_lowercase` returns for the given characters.
pub uninterp spec fn lower_of(s: Seq<char>) -> Seq<char>;

/// The normalized name of a pip package: lower-cased, underscores turned into hyphens.
pub open spec fn pypi_name(raw: Seq<char>) -> Seq<char> {
    hyphenated(lower_of(raw))
}

/// The package URL of a Conda declaration `name[=version]`; the name is kept verbatim.
pub open spec fn conda_purl(decl: Seq<char>) -> Seq<char> {
    purl_of(
        Ecosystem::Conda,
        name_part(decl, delimiter(Ecosystem::Conda)),
        version_part(decl, delimiter(Ecosystem::Conda)),
    )
}

/// The package URL of a pip declaration `name[==version]`; the name is normalized.
pub open spec fn pypi_purl(decl: Seq<char>) -> Seq<char> {
    purl_of(
        Ecosystem::Pypi,
        pypi_name(name_part(decl, delimiter(Ecosystem::Pypi))),
        version_part(decl, delimiter(Ecosystem::Pypi)),
    )
}

/// The first occurrence at or after `i` is at `j` when `d` occurs at `j` and nowhere in between.
proof fn lemma_first_occurrence_is(s: Seq<char>, d: Seq<char>, i: int, j: int)
    requires
        0 <= i <= j,
        occurs_at(s, d, j),
        forall|k: int| i <= k < j ==> !occurs_at(s, d, k),
    ensures
        first_occurrence(s, d, i) == Some(j),
    decreases j - i,
{
    if i < j {
        assert(!occurs_at(s, d, i));
        lemma_first_occurrence_is(s, d, i + 1, j);
    }
}

/// There is no first occurrence at or after `i` when `d` occurs nowhere there.
proof fn lemma_no_occurrence(s: Seq<char>, d: Seq<char>, i: int)
    requires
        0 <= i,
        forall|k: int| i <= k ==> !occurs_at(s, d, k),
    ensures
        first_occurrence(s, d, i) is None,
    decreases s.len() + 1 - i,
{
    if i + d.len() <= s.len() {
        assert(!occurs_at(s, d, i));
        lemma_no_occurrence(s, d, i + 1);
    }
}

/// In `name + d + rest`, where `name` holds no `=` and `d` starts with `=`,
/// the first occurrence of `d` is right after `name`.
proof fn lemma_split_after_name(name: Seq<char>, d: Seq<char>, rest: Seq<char>)
    requires
        !name.contains('='),
        d.len() > 0,
        d[0] == '=',
    ensures
        name_part(name + d + rest, d) == name,
        version_part(name + d + rest, d) == rest,
{
    let s = name + d + rest;
    assert(s.subrange(name.len() as int, (name.len() + d.len()) as int) =~= d);
    assert forall|k: int| 0 <= k < name.len() implies !occurs_at(s, d, k) by {
        if occurs_at(s, d, k) {
            assert(s.subrange(k, k + d.len())[0] == s[k]);
            assert(name[k] == '=');
        }
    }
    lemma_first_occurrence_is(s, d, 0, name.len() as int);
    assert(s.subrange(0, name.len() as int) =~= name);
    assert(s.subrange((name.len() + d.len()) as int, s.len() as int) =~= rest);
}

/// A text without `=` holds no occurrence of a delimiter that starts with `=`.
proof fn lemma_split_without_delimiter(name: Seq<char>, d: Seq<char>)
    requires
        !name.contains('='),
        d.len() > 0,
        d[0] == '=',
    ensures
        name_part(name, d) == name,
        version_part(name, d) == Seq::<char>::empty(),
{
    assert forall|k: int| 0 <= k implies !occurs_at(name, d, k) by {
        if occurs_at(name, d, k) {
            assert(name.subrange(k, k + d.len())[0] == name[k]);
        }
    }
    lemma_no_occurrence(name, d, 0);
}

/// A Conda declaration `name=version` gives `pkg:conda/name@version`, and a
/// bare `name` gives `pkg:conda/name` with no `@`. The name holds no `=`; the
/// version is any non-empty text.
pub proof fn lemma_conda_purl_shape(name: Seq<char>, version: Seq<char>)
    requires
        !name.contains('='),
        version.len() > 0,
    ensures
        conda_purl(name + seq!['='] + version) == conda_prefix() + name + seq!['@'] + version,
        conda_purl(name) == conda_prefix() + name,
{
    lemma_split_after_name(name, seq!['='], version);
    lemma_split_without_delimiter(name, seq!['=']);
}

/// A pip declaration `name==version` gives `pkg:pypi/<n>@version`, and a bare
/// `name` gives `pkg:pypi/<n>` with no `@`, where `<n>` is the name lower-cased
/// with underscores turned into hyphens. The name holds no `=`; the version is
/// any non-empty text.
pub proof fn lemma_pypi_purl_shape(name: Seq<char>, version: Seq<char>)
    requires
        !name.contains('='),
        version.len() > 0,
    ensures
        pypi_purl(name + seq!['=', '='] + version) == pypi_prefix() + hyphenated(lower_of(name))
            + seq!['@'] + version,
        pypi_purl(name) == pypi_prefix() + hyphenated(lower_of(name)),
{
    lemma_split_after_name(name, seq!['=', '='], version);
    lemma_split_without_delimiter(name, seq!['=', '=']);
}

/// Relies on `str::to_lowercase`: the result depends on the characters alone.
#[verifier::external_body]
fn lowercase(s: &str) -> (r: String)
    ensures
        r@ == lower_of(s@),
{
    s.to_lowercase()
}

/// Relies on `String::push`: the character is appended at the end.
#[verifier::external_body]
fn push_char(s: &mut String, c: char)
    ensures
        final(s)@ == old(s)@.push(c),
{
    s.push(c)
}

/// The literal text `d` for the ecosystem's delimiter.
fn delimiter_str(eco: Ecosystem) -> (r: &'static str)
    ensures
        r@ == delimiter(eco),
{
    match eco {
        Ecosystem::Conda => {
            proof {
                reveal_strlit("=");
            }
            "="
        },
        Ecosystem::Pypi => {
            proof {
                reveal_strlit("==");
            }
            "=="
        },
    }
}

/// Splits `s` at the first occurrence of `d` into the text before and the text after.
pub fn split_first<'a>(s: &'a str, d: &str) -> (r: (&'a str, &'a str))
    ensures
        r.0@ == name_part(s@, d@),
        r.1@ == version_part(s@, d@),
{
    let n = s.unicode_len();
    let m = d.unicode_len();
    let mut i: usize = 0;
    while i <= n && m <= n - i
        invariant
            n == s@.len(),
            m == d@.len(),
            i <= n + 1,
            first_occurrence(s@, d@, 0) == first_occurrence(s@, d@, i as int),
        decreases n + 1 - i,
    {
        let mut j: usize = 0;
        let mut same = true;
        while j < m
            invariant
                n == s@.len(),
                m == d@.len(),
                i + m <= n,
                j <= m,
                same == (forall|k: int| 0 <= k < j ==> s@[i + k] == d@[k]),
            decreases m - j,
        {
            if s.get_char(i + j) != d.get_char(j) {
                same = false;
            }
            j = j + 1;
        }
        if same {
            assert(s@.subrange(i as int, i + m) =~= d@);
            let before = s.substring_char(0, i);
            let after = s.substring_char(i + m, n);
            return (before, after);
        }
        assert(s@.subrange(i as int, i + m)[0] == s@[i as int] || m == 0);
        assert(!(s@.subrange(i as int, i + m) =~= d@));
        i = i + 1;
    }
    assert(first_occurrence(s@, d@, i as int) is None);
    (s, s.substring_char(n, n))
}

/// `pkg:<scheme>/<name>`, with `@<version>` when `version` is not empty.
pub fn purl_string(eco: Ecosystem, name: &str, version: &str) -> (r: String)
    ensures
        r@ == purl_of(eco, name@, version@),
{
    let mut r = match eco {
        Ecosystem::Conda => {
            proof {
                reveal_strlit("pkg:conda/");
            }
            String::from_str("pkg:conda/")
        },
        Ecosystem::Pypi => {
            proof {
                reveal_strlit("pkg:pypi/");
            }
            String::from_str("pkg:pypi/")
        },
    };
    assert(r@ =~= scheme_prefix(eco));
    r.append(name);
    if version.unicode_len() > 0 {
        push_char(&mut r, '@');
        r.append(version);
        assert(r@ =~= purl_of(eco, name@, version@));
    }
    r
}

/// `s` with every underscore replaced by a hyphen.
pub fn hyphenate(s: &str) -> (r: String)
    ensures
        r@ == hyphenated(s@),
{
    let n = s.unicode_len();
    let mut r = String::new();
    let mut i: usize = 0;
    while i < n
        invariant
            n == s@.len(),
            i <= n,
            r@ =~= hyphenated(s@.subrange(0, i as int)),
        decreases n - i,
    {
        let c = s.get_char(i);
        push_char(&mut r, if c == '_' { '-' } else { c });
        assert(s@.subrange(0, i + 1) =~= s@.subrange(0, i as int).push(c));
        i = i + 1;
    }
    assert(s@.subrange(0, n as int) =~= s@);
    r
}

/// The package URL of a Conda declaration `name[=version]`.
pub fn conda_package_url(decl: &str) -> (r: String)
    ensures
        r@ == conda_purl(decl@),
{
    let (name, version) = split_first(decl, delimiter_str(Ecosystem::Conda));
    purl_string(Ecosystem::Conda, name, version)
}

/// The package URL of a pip package whose name has already been lower-cased.
pub fn pypi_package_url_lowered(lowered_name: &str, version: &str) -> (r: String)
    ensures
        r@ == purl_of(Ecosystem::Pypi, hyphenated(lowered_name@), version@),
{
    let name = hyphenate(lowered_name);
    purl_string(Ecosystem::Pypi, name.as_str(), version)
}

/// The package URL of a pip declaration `name[==version]`.
pub fn pypi_package_url(decl: &str) -> (r: String)
    ensures
        r@ == pypi_purl(decl@),
{
    let (name, version) = split_first(decl, delimiter_str(Ecosystem::Pypi));
    let lowered = lowercase(name);
    pypi_package_url_lowered(lowered.as_str(), version)
}

} // verus!
