//! Comparing file locations: schemes, authorities and paths of URIs.

use vstd::prelude::*;
use vstd::string::*;

use crate::outside;
use crate::outside::to_lowercase;
use crate::text::chars_of;

verus! {

/// Whether `://` stands at position `i` of `s`.
pub open spec fn separator_at(s: Seq<char>, i: int) -> bool {
    &&& 0 <= i
    &&& i + 3 <= s.len()
    &&& s[i] == ':'
    &&& s[i + 1] == '/'
    &&& s[i + 2] == '/'
}

/// The first position of `://` in `s` that is not before `from`.
pub open spec fn first_separator(s: Seq<char>, from: int) -> Option<int>
    decreases s.len() - from,
{
    if from + 3 > s.len() {
        None
    } else if separator_at(s, from) {
        Some(from)
    } else {
        first_separator(s, from + 1)
    }
}

/// What stands before the first `://` of a URI and what stands after it.
pub open spec fn split_scheme(s: Seq<char>) -> Option<(Seq<char>, Seq<char>)> {
    match first_separator(s, 0) {
        Some(i) => Some((s.take(i), s.skip(i + 3))),
        None => None,
    }
}

/// The first position of a slash in `s` that is not before `from`, or the length
/// of `s` where there is none.
pub open spec fn first_slash(s: Seq<char>, from: int) -> int
    decreases s.len() - from,
{
    if from >= s.len() {
        s.len() as int
    } else if s[from] == '/' {
        from
    } else {
        first_slash(s, from + 1)
    }
}

/// The authority of a URI, given what follows its `://`.
pub open spec fn authority_of(rest: Seq<char>) -> Seq<char> {
    rest.take(first_slash(rest, 0))
}

/// The path of a URI, with its leading slash, given what follows its `://`.
pub open spec fn path_of(rest: Seq<char>) -> Seq<char> {
    rest.skip(first_slash(rest, 0))
}

/// `s` without the slashes at its end.
pub open spec fn trim_slashes(s: Seq<char>) -> Seq<char>
    decreases s.len(),
{
    if s.len() > 0 && s.last() == '/' {
        trim_slashes(s.drop_last())
    } else {
        s
    }
}

/// The text between scheme and authority.
pub open spec fn separator() -> Seq<char> {
    seq![':', '/', '/']
}

/// A URI in the form in which two of them are compared.
pub open spec fn normalized(s: Seq<char>) -> Seq<char> {
    match split_scheme(s) {
        Some((scheme, rest)) => outside::lower_case(scheme) + separator() + trim_slashes(rest),
        None => trim_slashes(s),
    }
}

/// The part of a URI up to the end of its authority, where it has one.
pub open spec fn scheme_authority(s: Seq<char>) -> Option<Seq<char>> {
    match split_scheme(s) {
        Some((scheme, rest)) => Some(
            outside::lower_case(scheme) + separator() + authority_of(rest),
        ),
        None => None,
    }
}

/// One text that stands for another.
#[derive(Debug)]
pub struct Alias {
    pub from: String,
    pub to: String,
}

/// Texts that have been declared equivalent, one declaration after the other. Each
/// replaces what a text stood for by what another one stood for.
#[derive(Debug)]
pub struct Aliases {
    pub pairs: Vec<Alias>,
}

impl View for Aliases {
    type V = Seq<(Seq<char>, Seq<char>)>;

    open spec fn view(&self) -> Seq<(Seq<char>, Seq<char>)> {
        self.pairs@.map_values(|a: Alias| (a.from@, a.to@))
    }
}

/// What `key` stands for after the replacements `pairs`.
pub open spec fn resolved(pairs: Seq<(Seq<char>, Seq<char>)>, key: Seq<char>) -> Seq<char>
    decreases pairs.len(),
{
    if pairs.len() == 0 {
        key
    } else {
        let before = resolved(pairs.drop_last(), key);
        if before == pairs.last().0 {
            pairs.last().1
        } else {
            before
        }
    }
}

/// `pairs` with `alias` declared equivalent to `canonical`: whatever stood for the same
/// as `alias` now stands for the same as `canonical`.
pub open spec fn declared(
    pairs: Seq<(Seq<char>, Seq<char>)>,
    alias: Seq<char>,
    canonical: Seq<char>,
) -> Seq<(Seq<char>, Seq<char>)> {
    pairs.push((resolved(pairs, alias), resolved(pairs, canonical)))
}

/// Whether under `after` whatever stood for the same as `alias` under `before` stands for
/// what `canonical` stood for, and everything else for what it did.
pub open spec fn makes_equivalent(
    before: Seq<(Seq<char>, Seq<char>)>,
    after: Seq<(Seq<char>, Seq<char>)>,
    alias: Seq<char>,
    canonical: Seq<char>,
) -> bool {
    forall|x: Seq<char>| #[trigger]
        resolved(after, x) == (if resolved(before, x) == resolved(before, alias) {
            resolved(before, canonical)
        } else {
            resolved(before, x)
        })
}

impl Aliases {
    /// No text stands for another.
    pub fn new() -> (aliases: Self)
        ensures
            aliases@ == Seq::<(Seq<char>, Seq<char>)>::empty(),
    {
        let aliases = Aliases { pairs: Vec::new() };
        assert(aliases@ =~= Seq::<(Seq<char>, Seq<char>)>::empty());
        aliases
    }

    /// Tells whether nothing has been declared.
    pub fn is_empty(&self) -> (r: bool)
        ensures
            r == (self@.len() == 0),
    {
        self.pairs.len() == 0
    }

    /// What `key` stands for.
    pub fn resolve(&self, key: &str) -> (text: String)
        ensures
            text@ == resolved(self@, key@),
    {
        let mut text = key.to_owned();
        let mut i: usize = 0;
        while i < self.pairs.len()
            invariant
                i <= self.pairs.len(),
                text@ == resolved(self@.take(i as int), key@),
            decreases self.pairs.len() - i,
        {
            assert(self@.take(i + 1).drop_last() =~= self@.take(i as int));
            if text == self.pairs[i].from {
                text = self.pairs[i].to.clone();
            }
            i = i + 1;
        }
        assert(self@.take(self.pairs.len() as int) =~= self@);
        text
    }

    /// Declares `alias` equivalent to `canonical`.
    pub fn declare(&mut self, alias: &str, canonical: &str)
        ensures
            final(self)@ == declared(old(self)@, alias@, canonical@),
            makes_equivalent(old(self)@, final(self)@, alias@, canonical@),
    {
        let from = self.resolve(alias);
        let to = self.resolve(canonical);
        self.pairs.push(Alias { from, to });
        assert(self@ =~= declared(old(self)@, alias@, canonical@));
        assert(self@.drop_last() =~= old(self)@);
    }
}

/// Two texts that are declared equivalent stand for the same, and so does whatever was
/// equivalent to one of them; and what was equivalent before stays so.
pub proof fn law_declared_texts_are_equivalent(
    pairs: Seq<(Seq<char>, Seq<char>)>,
    alias: Seq<char>,
    canonical: Seq<char>,
    x: Seq<char>,
    y: Seq<char>,
)
    requires
        ({
            let p = resolved(pairs, x);
            let q = resolved(pairs, y);
            ||| p == q
            ||| p == resolved(pairs, alias) && q == resolved(pairs, canonical)
        }),
    ensures
        resolved(declared(pairs, alias, canonical), alias) == resolved(
            declared(pairs, alias, canonical),
            canonical,
        ),
        resolved(declared(pairs, alias, canonical), x) == resolved(
            declared(pairs, alias, canonical),
            y,
        ),
{
    assert(declared(pairs, alias, canonical).drop_last() =~= pairs);
}

/// A URI with its scheme and its authority replaced by what they stand for.
pub open spec fn canonical(
    schemes: Seq<(Seq<char>, Seq<char>)>,
    authorities: Seq<(Seq<char>, Seq<char>)>,
    s: Seq<char>,
) -> Seq<char> {
    match split_scheme(s) {
        Some((scheme, rest)) => resolved(schemes, outside::lower_case(scheme)) + separator()
            + resolved(authorities, authority_of(rest)) + path_of(rest),
        None => s,
    }
}

/// Splits a URI at its first `://`.
pub fn split_at_scheme(uri: &str) -> (parts: Option<(&str, &str)>)
    ensures
        match parts {
            Some((scheme, rest)) => split_scheme(uri@) == Some((scheme@, rest@)),
            None => split_scheme(uri@) is None,
        },
{
    let chars = chars_of(uri);
    let n: usize = chars.len();
    let mut i: usize = 0;
    while n >= 3 && i <= n - 3
        invariant
            chars@ == uri@,
            n == chars.len(),
            i <= n,
            first_separator(uri@, 0) == first_separator(uri@, i as int),
        decreases n - i,
    {
        if chars[i] == ':' && chars[i + 1] == '/' && chars[i + 2] == '/' {
            assert(separator_at(uri@, i as int));
            let scheme = uri.substring_char(0, i);
            let rest = uri.substring_char(i + 3, n);
            assert(scheme@ =~= uri@.take(i as int));
            assert(rest@ =~= uri@.skip(i + 3));
            return Some((scheme, rest));
        }
        i = i + 1;
    }
    None
}

/// Splits what follows `://` into authority and path.
pub fn split_authority(rest: &str) -> (parts: (&str, &str))
    ensures
        parts.0@ == authority_of(rest@),
        parts.1@ == path_of(rest@),
{
    let chars = chars_of(rest);
    let n: usize = chars.len();
    let mut i: usize = 0;
    while i < n && chars[i] != '/'
        invariant
            chars@ == rest@,
            n == chars.len(),
            i <= n,
            first_slash(rest@, 0) == first_slash(rest@, i as int),
        decreases n - i,
    {
        i = i + 1;
    }
    let authority = rest.substring_char(0, i);
    let path = rest.substring_char(i, n);
    assert(authority@ =~= authority_of(rest@));
    assert(path@ =~= path_of(rest@));
    (authority, path)
}

/// Cuts the slashes off the end of a text.
pub fn trim_end_slashes(s: &str) -> (trimmed: &str)
    ensures
        trimmed@ == trim_slashes(s@),
{
    let chars = chars_of(s);
    let mut n: usize = chars.len();
    assert(s@.take(n as int) =~= s@);
    while n > 0 && chars[n - 1] == '/'
        invariant
            chars@ == s@,
            n <= chars.len(),
            trim_slashes(s@) == trim_slashes(s@.take(n as int)),
        decreases n,
    {
        assert(s@.take(n as int).drop_last() =~= s@.take(n - 1));
        n = n - 1;
    }
    let trimmed = s.substring_char(0, n);
    assert(trimmed@ =~= s@.take(n as int));
    trimmed
}

/// Joins scheme and the rest of a URI.
fn join_scheme(scheme: String, rest: &str) -> (uri: String)
    ensures
        uri@ == scheme@ + separator() + rest@,
{
    proof {
        reveal_strlit("://");
    }
    let mut uri = scheme;
    uri.append("://");
    uri.append(rest);
    assert("://"@ =~= separator());
    uri
}

/// Extracts the `scheme://authority` prefix of a URI, with the scheme in lower
/// case. A bare path such as `/tmp/foo` has none.
pub fn extract_scheme_authority(uri: &str) -> (prefix: Option<String>)
    ensures
        match prefix {
            Some(p) => scheme_authority(uri@) == Some(p@),
            None => scheme_authority(uri@) is None,
        },
{
    match split_at_scheme(uri) {
        Some((scheme, rest)) => {
            let (authority, _) = split_authority(rest);
            Some(join_scheme(to_lowercase(scheme), authority))
        },
        None => None,
    }
}

/// Normalizes a URI for comparison: the scheme in lower case, no slashes at the
/// end.
pub fn normalize_uri(uri: &str) -> (text: String)
    ensures
        text@ == normalized(uri@),
{
    match split_at_scheme(uri) {
        Some((scheme, rest)) => join_scheme(to_lowercase(scheme), trim_end_slashes(rest)),
        None => trim_end_slashes(uri).to_owned(),
    }
}

/// Replaces the scheme and the authority of a URI by what they stand for.
pub fn canonical_uri(schemes: &Aliases, authorities: &Aliases, uri: &str) -> (text: String)
    ensures
        text@ == canonical(schemes@, authorities@, uri@),
{
    match split_at_scheme(uri) {
        Some((scheme, rest)) => {
            let canonical_scheme = schemes.resolve(to_lowercase(scheme).as_str());
            let (authority, path) = split_authority(rest);
            let canonical_authority = authorities.resolve(authority);
            let mut text = join_scheme(canonical_scheme, canonical_authority.as_str());
            text.append(path);
            text
        },
        None => uri.to_owned(),
    }
}

/// The first slash is not past the end.
pub proof fn lemma_first_slash_bounds(s: Seq<char>, from: int)
    requires
        0 <= from <= s.len(),
    ensures
        from <= first_slash(s, from) <= s.len(),
    decreases s.len() - from,
{
    if from < s.len() && s[from] != '/' {
        lemma_first_slash_bounds(s, from + 1);
    }
}

proof fn lemma_no_separator(s: Seq<char>, from: int, i: int)
    requires
        first_separator(s, from) is None,
        from <= i,
    ensures
        !separator_at(s, i),
    decreases s.len() - from,
{
    if from + 3 <= s.len() && from < i {
        lemma_no_separator(s, from + 1, i);
    }
}

proof fn lemma_first_separator_is_first(s: Seq<char>, from: int)
    requires
        0 <= from,
        first_separator(s, from) is Some,
    ensures
        ({
            let k = first_separator(s, from)->0;
            &&& from <= k
            &&& separator_at(s, k)
            &&& forall|i: int| from <= i < k ==> !separator_at(s, i)
        }),
    decreases s.len() - from,
{
    if !separator_at(s, from) {
        lemma_first_separator_is_first(s, from + 1);
    }
}

proof fn lemma_first_separator_at(s: Seq<char>, from: int, k: int)
    requires
        0 <= from <= k,
        separator_at(s, k),
        forall|i: int| from <= i < k ==> !separator_at(s, i),
    ensures
        first_separator(s, from) == Some(k),
    decreases k - from,
{
    if from < k {
        assert(!separator_at(s, from));
        lemma_first_separator_at(s, from + 1, k);
    }
}

proof fn lemma_none_without_separator(s: Seq<char>, from: int)
    requires
        0 <= from,
        forall|i: int| !separator_at(s, i),
    ensures
        first_separator(s, from) is None,
    decreases s.len() - from,
{
    if from + 3 <= s.len() {
        assert(!separator_at(s, from));
        lemma_none_without_separator(s, from + 1);
    }
}

/// Splitting a URI that was put together from a scheme without `://` and a rest
/// gives the two back.
pub proof fn law_split_of_join(scheme: Seq<char>, rest: Seq<char>)
    requires
        forall|i: int| !separator_at(scheme, i),
    ensures
        split_scheme(scheme + separator() + rest) == Some((scheme, rest)),
{
    let s = scheme + separator() + rest;
    let k = scheme.len() as int;
    assert(separator_at(s, k));
    assert forall|i: int| 0 <= i < k implies !separator_at(s, i) by {
        assert(!separator_at(scheme, i));
        if separator_at(s, i) {
            if i + 3 <= k {
                assert(s[i] == scheme[i] && s[i + 1] == scheme[i + 1] && s[i + 2] == scheme[i + 2]);
            } else if i == k - 1 {
                assert(s[i + 1] == ':');
            } else {
                assert(s[i + 2] == ':');
            }
        }
    }
    lemma_first_separator_at(s, 0, k);
    assert(s.take(k) =~= scheme);
    assert(s.skip(k + 3) =~= rest);
}

/// The scheme of a URI holds no `://`, and neither does its lower case where it is
/// ASCII.
pub proof fn law_scheme_has_no_separator(s: Seq<char>)
    requires
        split_scheme(s) is Some,
    ensures
        forall|i: int| !separator_at((split_scheme(s)->0).0, i),
        outside::all_ascii((split_scheme(s)->0).0) ==> forall|i: int|
            !separator_at(outside::lower_case((split_scheme(s)->0).0), i),
{
    lemma_first_separator_is_first(s, 0);
    let k = first_separator(s, 0)->0;
    let scheme = s.take(k);
    assert forall|i: int| !separator_at(scheme, i) by {
        if separator_at(scheme, i) {
            assert(separator_at(s, i));
        }
    }
    if outside::all_ascii(scheme) {
        let lower = outside::lower_case(scheme);
        assert forall|i: int| !separator_at(lower, i) by {
            if separator_at(lower, i) {
                assert(scheme[i] == ':' && scheme[i + 1] == '/' && scheme[i + 2] == '/');
                assert(separator_at(scheme, i));
            }
        }
    }
}

proof fn lemma_trim_is_prefix(s: Seq<char>)
    ensures
        trim_slashes(s).len() <= s.len(),
        trim_slashes(s) == s.take(trim_slashes(s).len() as int),
        trim_slashes(trim_slashes(s)) == trim_slashes(s),
    decreases s.len(),
{
    if s.len() > 0 && s.last() == '/' {
        lemma_trim_is_prefix(s.drop_last());
        let n = trim_slashes(s).len() as int;
        assert(s.drop_last().take(n) =~= s.take(n));
    } else {
        assert(s.take(s.len() as int) =~= s);
    }
}

pub proof fn lemma_lower_case_twice(s: Seq<char>)
    requires
        outside::all_ascii(s),
    ensures
        outside::all_ascii(outside::lower_case(s)),
        outside::lower_case(outside::lower_case(s))
            == outside::lower_case(s),
{
    let lower = outside::lower_case(s);
    assert forall|i: int| 0 <= i < lower.len() implies (#[trigger] lower[i] as u32) < 128 by {
        assert((s[i] as u32) < 128);
    }
    assert(outside::ascii_lowercase(lower) =~= lower);
}

/// Normalizing is idempotent, for a URI whose scheme is ASCII and for a text
/// without a scheme.
pub proof fn law_normalizing_is_idempotent(s: Seq<char>)
    requires
        match split_scheme(s) {
            Some((scheme, _)) => outside::all_ascii(scheme),
            None => true,
        },
    ensures
        normalized(normalized(s)) == normalized(s),
{
    match split_scheme(s) {
        Some((scheme, rest)) => {
            let lower = outside::lower_case(scheme);
            law_scheme_has_no_separator(s);
            lemma_trim_is_prefix(rest);
            lemma_lower_case_twice(scheme);
            law_split_of_join(lower, trim_slashes(rest));
        },
        None => {
            lemma_trim_is_prefix(s);
            let t = trim_slashes(s);
            assert forall|i: int| !separator_at(t, i) by {
                if separator_at(t, i) {
                    lemma_no_separator(s, 0, i);
                    assert(separator_at(s, i));
                }
            }
            lemma_none_without_separator(t, 0);
        },
    }
}

/// Slashes at the end do not belong to the authority.
pub proof fn lemma_authority_of_trimmed(rest: Seq<char>)
    ensures
        authority_of(trim_slashes(rest)) == authority_of(rest),
    decreases rest.len(),
{
    if rest.len() > 0 && rest.last() == '/' {
        let front = rest.drop_last();
        lemma_authority_of_trimmed(front);
        lemma_first_slash_of_push(front, 0);
        lemma_first_slash_bounds(front, 0);
        assert(front.push('/') =~= rest);
        assert(rest.take(first_slash(rest, 0)) =~= front.take(first_slash(front, 0)));
    }
}

proof fn lemma_first_slash_of_push(s: Seq<char>, from: int)
    requires
        0 <= from <= s.len(),
    ensures
        first_slash(s.push('/'), from) == first_slash(s, from),
    decreases s.len() - from,
{
    let more = s.push('/');
    if from < s.len() {
        assert(more[from] == s[from]);
        if s[from] != '/' {
            lemma_first_slash_of_push(s, from + 1);
        }
    } else {
        assert(more[from] == '/');
    }
}

/// Normalizing a URI keeps its scheme and authority, where the scheme is ASCII; and a
/// text without a scheme gets none.
pub proof fn law_normalizing_keeps_scheme_and_authority(s: Seq<char>)
    requires
        match split_scheme(s) {
            Some((scheme, _)) => outside::all_ascii(scheme),
            None => true,
        },
    ensures
        scheme_authority(normalized(s)) == scheme_authority(s),
{
    match split_scheme(s) {
        Some((scheme, rest)) => {
            let lower = outside::lower_case(scheme);
            law_scheme_has_no_separator(s);
            lemma_lower_case_twice(scheme);
            law_split_of_join(lower, trim_slashes(rest));
            lemma_authority_of_trimmed(rest);
        },
        None => {
            lemma_trim_is_prefix(s);
            let t = trim_slashes(s);
            assert forall|i: int| !separator_at(t, i) by {
                if separator_at(t, i) {
                    lemma_no_separator(s, 0, i);
                    assert(separator_at(s, i));
                }
            }
            lemma_none_without_separator(t, 0);
        },
    }
}

/// Whether the characters `:`, `/`, `/` follow one another in `s` from position `i` on.
pub open spec fn colon_slashes(s: Seq<char>, i: int) -> bool {
    0 <= i && i + 2 < s.len() && s[i] == ':' && s[i + 1] == '/' && s[i + 2] == '/'
}

/// A URI splits at the first place where `://` stands in it, and not at all exactly where
/// it stands nowhere.
pub proof fn law_split_at_first_separator(s: Seq<char>)
    ensures
        match split_scheme(s) {
            Some((scheme, rest)) => {
                &&& s == scheme + seq![':', '/', '/'] + rest
                &&& colon_slashes(s, scheme.len() as int)
                &&& forall|i: int| 0 <= i < scheme.len() ==> !colon_slashes(s, i)
            },
            None => forall|i: int| !colon_slashes(s, i),
        },
{
    match first_separator(s, 0) {
        Some(k) => {
            lemma_first_separator_is_first(s, 0);
            assert(s.take(k) + seq![':', '/', '/'] + s.skip(k + 3) =~= s);
            assert forall|i: int| 0 <= i < k implies !colon_slashes(s, i) by {
                assert(!separator_at(s, i));
            }
        },
        None => {
            assert forall|i: int| !colon_slashes(s, i) by {
                if i >= 0 {
                    lemma_no_separator(s, 0, i);
                }
            }
        },
    }
}

/// The authority of a URI is what stands before its first slash, and its path is the
/// rest.
pub proof fn law_authority_and_path(rest: Seq<char>)
    ensures
        authority_of(rest) + path_of(rest) == rest,
        forall|i: int| 0 <= i < authority_of(rest).len() ==> #[trigger] authority_of(rest)[i] != '/',
        path_of(rest).len() > 0 ==> path_of(rest)[0] == '/',
{
    lemma_first_slash_bounds(rest, 0);
    lemma_before_first_slash(rest, 0);
    assert(authority_of(rest) + path_of(rest) =~= rest);
}

proof fn lemma_before_first_slash(s: Seq<char>, from: int)
    requires
        0 <= from <= s.len(),
    ensures
        forall|i: int| from <= i < first_slash(s, from) ==> #[trigger] s[i] != '/',
        first_slash(s, from) < s.len() ==> s[first_slash(s, from)] == '/',
    decreases s.len() - from,
{
    if from < s.len() && s[from] != '/' {
        lemma_before_first_slash(s, from + 1);
    }
}

/// Trimming takes off slashes at the end, all of them and nothing else.
pub proof fn law_trimming(s: Seq<char>)
    ensures
        trim_slashes(s).len() <= s.len(),
        trim_slashes(s) == s.take(trim_slashes(s).len() as int),
        forall|i: int| trim_slashes(s).len() <= i < s.len() ==> #[trigger] s[i] == '/',
        trim_slashes(s).len() > 0 ==> trim_slashes(s).last() != '/',
    decreases s.len(),
{
    lemma_trim_is_prefix(s);
    if s.len() > 0 && s.last() == '/' {
        law_trimming(s.drop_last());
        assert forall|i: int| trim_slashes(s).len() <= i < s.len() implies #[trigger] s[i]
            == '/' by {
            if i < s.len() - 1 {
                assert(s.drop_last()[i] == '/');
            }
        }
    }
}

/// The lower case of an ASCII text has the letters `A` to `Z` replaced by those 32
/// places further on, and every other character as it is.
pub proof fn law_lower_case_of_ascii(s: Seq<char>)
    requires
        forall|i: int| 0 <= i < s.len() ==> (#[trigger] s[i] as u32) < 128,
    ensures
        outside::lower_case(s).len() == s.len(),
        forall|i: int|
            0 <= i < s.len() ==> #[trigger] outside::lower_case(s)[i] as int == (if 'A' <= s[i]
                <= 'Z' {
                s[i] as int + 32
            } else {
                s[i] as int
            }),
{
    assert(outside::all_ascii(s));
}

/// In normal form a URI has its scheme in lower case and ends in no slash beyond its
/// `://`; the rest of it stays as it is, and so does the rest of a text without a scheme.
pub proof fn law_normal_form(s: Seq<char>)
    ensures
        match split_scheme(s) {
            Some((scheme, rest)) => normalized(s) == outside::lower_case(scheme) + seq![
                ':',
                '/',
                '/',
            ] + trim_slashes(rest),
            None => normalized(s) == trim_slashes(s),
        },
{
}

/// The prefix of a URI is its scheme in lower case and its authority as it is; a text
/// without a scheme has none.
pub proof fn law_prefix(s: Seq<char>)
    ensures
        match split_scheme(s) {
            Some((scheme, rest)) => scheme_authority(s) == Some(
                outside::lower_case(scheme) + seq![':', '/', '/'] + authority_of(rest),
            ),
            None => scheme_authority(s) is None,
        },
{
}

/// In canonical form a URI has its scheme, in lower case, and its authority replaced by
/// what they stand for, and its path as it is; a text without a scheme stays as it is.
pub proof fn law_canonical_form(
    schemes: Seq<(Seq<char>, Seq<char>)>,
    authorities: Seq<(Seq<char>, Seq<char>)>,
    s: Seq<char>,
)
    ensures
        match split_scheme(s) {
            Some((scheme, rest)) => canonical(schemes, authorities, s) == resolved(
                schemes,
                outside::lower_case(scheme),
            ) + seq![':', '/', '/'] + resolved(authorities, authority_of(rest)) + path_of(rest),
            None => canonical(schemes, authorities, s) == s,
        },
{
}

/// Without declarations each text stands for itself, and a declaration changes only what
/// stood for the same as the text declared.
pub proof fn law_declarations_change_nothing_else(
    pairs: Seq<(Seq<char>, Seq<char>)>,
    alias: Seq<char>,
    canonical: Seq<char>,
    x: Seq<char>,
)
    ensures
        resolved(Seq::empty(), x) == x,
        resolved(pairs, x) == resolved(pairs, alias) ==> resolved(
            declared(pairs, alias, canonical),
            x,
        ) == resolved(pairs, canonical),
        resolved(pairs, x) != resolved(pairs, alias) ==> resolved(
            declared(pairs, alias, canonical),
            x,
        ) == resolved(pairs, x),
        declared(pairs, alias, canonical).len() > 0,
{
    assert(declared(pairs, alias, canonical).drop_last() =~= pairs);
}

} // verus!
