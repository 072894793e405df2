//! Links to the indicator pages of companies, and the rewriting of those
//! links by a mapping of link fragments.

use vstd::prelude::*;
use crate::text::{contains_seq, replace_seq, str_contains, str_replace};

verus! {

broadcast use vstd::string::group_string_axioms;

/// The mapping `entries` applied to `url`: the first entry, in mapping order,
/// whose key occurs in `url` has every occurrence of its key replaced by its
/// value; with no such entry, `url` is left as it is.
pub open spec fn modify_seq(entries: Seq<(Seq<char>, Seq<char>)>, url: Seq<char>) -> Seq<char>
    decreases entries.len(),
{
    if entries.len() == 0 {
        url
    } else if contains_seq(url, entries[0].0) {
        replace_seq(url, entries[0].0, entries[0].1)
    } else {
        modify_seq(entries.drop_first(), url)
    }
}

/// No two entries have the same key.
pub open spec fn keys_distinct(entries: Seq<(Seq<char>, Seq<char>)>) -> bool {
    forall|i: int, j: int| 0 <= i < j < entries.len() ==> entries[i].0 != entries[j].0
}

/// Modify company data link
#[derive(Debug)]
pub struct UrlsModifier {
    pub path: String,
    map: Vec<(String, String)>,
}

impl UrlsModifier {
    /// The mapping, as (fragment, replacement) pairs in the order in which they
    /// are tried.
    pub closed spec fn entries(&self) -> Seq<(Seq<char>, Seq<char>)> {
        self.map@.map_values(|e: (String, String)| (e.0@, e.1@))
    }

    /// The path of the mapping file.
    pub closed spec fn path_seq(&self) -> Seq<char> {
        self.path@
    }

    /// The mapping has no key twice.
    pub open spec fn wf(&self) -> bool {
        keys_distinct(self.entries())
    }

    /// A modifier for the mapping file at `path`, with an empty mapping.
    pub fn new(path: String) -> (r: Self)
        ensures
            r.path_seq() == path@,
            r.entries() == Seq::<(Seq<char>, Seq<char>)>::empty(),
            r.wf(),
    {
        let r = Self { path, map: Vec::new() };
        assert(r.entries() =~= Seq::<(Seq<char>, Seq<char>)>::empty());
        r
    }

    /// A modifier for the mapping file at `path` that holds `entries`, tried
    /// in the given order; `None` when two entries have the same key, which a
    /// mapping cannot hold.
    pub fn with_mapping(path: String, entries: Vec<(String, String)>) -> (r: Option<Self>)
        ensures
            r is Some <==> keys_distinct(
                entries@.map_values(|e: (String, String)| (e.0@, e.1@)),
            ),
            r matches Some(m) ==> m.path_seq() == path@ && m.entries() == entries@.map_values(
                |e: (String, String)| (e.0@, e.1@),
            ) && m.wf(),
    {
        let ghost es = entries@.map_values(|e: (String, String)| (e.0@, e.1@));
        let n = entries.len();
        let mut i: usize = 0;
        while i < n
            invariant
                n == entries@.len(),
                es == entries@.map_values(|e: (String, String)| (e.0@, e.1@)),
                i <= n,
                forall|a: int, b: int| 0 <= a < b < i ==> es[a].0 != es[b].0,
            decreases n - i,
        {
            let mut j: usize = 0;
            while j < i
                invariant
                    n == entries@.len(),
                    es == entries@.map_values(|e: (String, String)| (e.0@, e.1@)),
                    i < n,
                    j <= i,
                    forall|a: int, b: int| 0 <= a < b < i ==> es[a].0 != es[b].0,
                    forall|a: int| 0 <= a < j ==> es[a].0 != es[i as int].0,
                decreases i - j,
            {
                if entries[j].0 == entries[i].0 {
                    assert(es[j as int].0 == es[i as int].0);
                    return None;
                }
                j = j + 1;
            }
            i = i + 1;
        }
        let r = Self { path, map: entries };
        Some(r)
    }

    /// The mapping applied to `input_url`, without giving up the modifier.
    pub fn apply(&self, input_url: String) -> (r: String)
        ensures
            r@ == modify_seq(self.entries(), input_url@),
    {
        let n = self.map.len();
        let mut i: usize = 0;
        assert(self.entries().skip(0) =~= self.entries());
        while i < n
            invariant
                n == self.map@.len(),
                i <= n,
                modify_seq(self.entries(), input_url@) == modify_seq(
                    self.entries().skip(i as int),
                    input_url@,
                ),
            decreases n - i,
        {
            let ghost rest = self.entries().skip(i as int);
            assert(rest[0] == (self.map@[i as int].0@, self.map@[i as int].1@));
            assert(rest.drop_first() =~= self.entries().skip(i + 1));
            let (default_url_content, replace_url_content) = &self.map[i];
            if str_contains(input_url.as_str(), default_url_content.as_str()) {
                return str_replace(
                    input_url.as_str(),
                    default_url_content.as_str(),
                    replace_url_content.as_str(),
                );
            }
            i = i + 1;
        }
        assert(self.entries().skip(n as int).len() == 0);
        input_url
    }

    /// The mapping applied to `input_url`.
    pub fn modify(self, input_url: String) -> (r: String)
        ensures
            r@ == modify_seq(self.entries(), input_url@),
    {
        self.apply(input_url)
    }
}

impl Default for UrlsModifier {
    fn default() -> (r: Self)
        ensures
            r.path_seq() == Seq::<char>::empty(),
            r.entries() == Seq::<(Seq<char>, Seq<char>)>::empty(),
            r.wf(),
    {
        UrlsModifier::new(String::new())
    }
}

/// The link to the indicators page of a company, before any rewriting.
pub open spec fn indicators_link_seq(base_link: Seq<char>, name: Seq<char>, ticker: Seq<char>) -> Seq<char> {
    base_link + name + "-"@ + ticker + "/wskazniki-finansowe"@
}

impl Clone for UrlsModifier {
    fn clone(&self) -> (r: Self)
        ensures
            r.path_seq() == self.path_seq(),
            r.entries() == self.entries(),
    {
        let mut map: Vec<(String, String)> = Vec::new();
        let n = self.map.len();
        let mut i: usize = 0;
        while i < n
            invariant
                n == self.map@.len(),
                i <= n,
                map@.len() == i,
                forall|j: int| 0 <= j < i ==> #[trigger] map@[j] == self.map@[j],
            decreases n - i,
        {
            let (key, value) = (self.map[i].0.clone(), self.map[i].1.clone());
            map.push((key, value));
            i = i + 1;
        }
        assert(map@ =~= self.map@);
        UrlsModifier { path: self.path.clone(), map }
    }
}

/// Provide url for given company
#[derive(Debug)]
pub struct CompanyDataUrlProvider {
    pub base_link: String,
    urls_modifier: Option<UrlsModifier>,
}

/// What `str::to_lowercase` returns for `s`: the Unicode lower case of the
/// text (character by character, but for a final capital sigma, which depends
/// on its neighbours).
pub uninterp spec fn lowercase(s: Seq<char>) -> Seq<char>;

/// ASCII upper-case letters to lower case; every other character kept.
pub open spec fn ascii_lowercase(s: Seq<char>) -> Seq<char> {
    s.map_values(|c: char| if 'A' <= c && c <= 'Z' { ((c as u32) + 32) as char } else { c })
}

/// Calls std's `str::to_lowercase`. Claimed: the result is `lowercase` of the
/// argument, and for text of ASCII characters only it is the text with
/// `A`-`Z` turned into `a`-`z` (the Unicode lower case of an ASCII character
/// is its ASCII lower case). Unsaid: what other characters become.
#[verifier::external_body]
fn to_lowercase(s: &str) -> (r: String)
    ensures
        r@ == lowercase(s@),
        vstd::utf8::is_ascii_chars(s@) ==> r@ == ascii_lowercase(s@),
{
    s.to_lowercase()
}

impl Clone for CompanyDataUrlProvider {
    fn clone(&self) -> (r: Self)
        ensures
            r.base_seq() == self.base_seq(),
            r.modifier_entries() == self.modifier_entries(),
    {
        let urls_modifier = match &self.urls_modifier {
            Some(m) => Some(m.clone()),
            None => None,
        };
        CompanyDataUrlProvider { base_link: self.base_link.clone(), urls_modifier }
    }
}

impl CompanyDataUrlProvider {
    /// The base of the links.
    pub closed spec fn base_seq(&self) -> Seq<char> {
        self.base_link@
    }

    /// The rewriting mapping, if the provider has one.
    pub closed spec fn modifier_entries(&self) -> Option<Seq<(Seq<char>, Seq<char>)>> {
        match self.urls_modifier {
            Some(m) => Some(m.entries()),
            None => None,
        }
    }

    /// `link` rewritten by the provider's mapping, if it has one.
    pub open spec fn rewritten(&self, link: Seq<char>) -> Seq<char> {
        match self.modifier_entries() {
            Some(es) => modify_seq(es, link),
            None => link,
        }
    }

    pub fn new(base_link: String, urls_modifier: Option<UrlsModifier>) -> (r: Self)
        ensures
            r.base_seq() == base_link@,
            r.modifier_entries() == (match urls_modifier {
                Some(m) => Some(m.entries()),
                None => None,
            }),
    {
        Self { base_link, urls_modifier }
    }

    /// Sets the mapping by which links are rewritten.
    pub fn set_urls_modifier(&mut self, modifier: UrlsModifier)
        ensures
            final(self).base_seq() == old(self).base_seq(),
            final(self).modifier_entries() == Some(modifier.entries()),
    {
        self.urls_modifier = Some(modifier);
    }

    /// The indicators page of the company, in lower case, rewritten by the
    /// mapping.
    pub fn get_company_data_url(&mut self, company_name: &str, company_ticker: &str) -> (r: String)
        ensures
            *final(self) == *old(self),
            r@ == old(self).rewritten(
                lowercase(indicators_link_seq(old(self).base_seq(), company_name@, company_ticker@)),
            ),
            vstd::utf8::is_ascii_chars(
                indicators_link_seq(old(self).base_seq(), company_name@, company_ticker@),
            ) ==> r@ == old(self).rewritten(
                ascii_lowercase(
                    indicators_link_seq(old(self).base_seq(), company_name@, company_ticker@),
                ),
            ),
    {
        let mut link = self.base_link.clone();
        link.append(company_name);
        link.append("-");
        link.append(company_ticker);
        link.append("/wskazniki-finansowe");
        assert(link@ == indicators_link_seq(self.base_seq(), company_name@, company_ticker@));
        let link = to_lowercase(link.as_str());
        self.update_indicators_link(link)
    }

    /// `link` rewritten by the mapping, if there is one.
    pub fn update_indicators_link(&mut self, link: String) -> (r: String)
        ensures
            *final(self) == *old(self),
            r@ == old(self).rewritten(link@),
    {
        match &self.urls_modifier {
            Some(modifier) => modifier.apply(link),
            None => link,
        }
    }
}

impl Default for CompanyDataUrlProvider {
    fn default() -> (r: Self)
        ensures
            r.base_seq() == Seq::<char>::empty(),
            r.modifier_entries() is None,
    {
        Self { base_link: String::new(), urls_modifier: None }
    }
}

// ----- laws -----

/// ASCII lower-casing keeps the length, turns each of `A`-`Z` into the
/// letter 32 code points later (`a`-`z`), and keeps every other character.
pub proof fn lemma_ascii_lowercase(s: Seq<char>)
    ensures
        ascii_lowercase(s).len() == s.len(),
        forall|j: int|
            0 <= j < s.len() ==> if ('A' as int) <= (s[j] as int) <= ('Z' as int) {
                (#[trigger] ascii_lowercase(s)[j] as int) == (s[j] as int) + 32 && ('a' as int) <= (
                ascii_lowercase(s)[j] as int) <= ('z' as int)
            } else {
                ascii_lowercase(s)[j] == s[j]
            },
{
    assert forall|j: int| 0 <= j < s.len() implies if ('A' as int) <= (s[j] as int) <= ('Z' as int) {
        (#[trigger] ascii_lowercase(s)[j] as int) == (s[j] as int) + 32 && ('a' as int) <= (
        ascii_lowercase(s)[j] as int) <= ('z' as int)
    } else {
        ascii_lowercase(s)[j] == s[j]
    } by {
        let c = s[j];
        assert(('A' as int) == 65 && ('Z' as int) == 90 && ('a' as int) == 97 && ('z' as int) == 122);
        assert(ascii_lowercase(s)[j] == (if 'A' <= c && c <= 'Z' {
            ((c as u32) + 32) as char
        } else {
            c
        }));
        if 'A' <= c && c <= 'Z' {
            let x: int = (c as int) + 32;
            assert(65 <= c as int <= 90);
            assert(97 <= x <= 122);
            assert(((((c as u32) + 32) as u32) as char) as int == x);
            assert(ascii_lowercase(s)[j] as int == x);
        } else {
            assert(!(65 <= c as int <= 90));
        }
    }
}

/// The empty mapping leaves every link as it is.
pub proof fn lemma_empty_mapping_keeps_links(url: Seq<char>)
    ensures
        modify_seq(Seq::empty(), url) == url,
{
}

/// A link in which no fragment of the mapping occurs is left as it is.
pub proof fn lemma_modify_without_match(entries: Seq<(Seq<char>, Seq<char>)>, url: Seq<char>)
    requires
        forall|i: int| 0 <= i < entries.len() ==> !contains_seq(url, #[trigger] entries[i].0),
    ensures
        modify_seq(entries, url) == url,
    decreases entries.len(),
{
    if entries.len() > 0 {
        assert(!contains_seq(url, entries[0].0));
        assert forall|i: int| 0 <= i < entries.drop_first().len() implies !contains_seq(
            url,
            #[trigger] entries.drop_first()[i].0,
        ) by {
            assert(entries.drop_first()[i] == entries[i + 1]);
        }
        lemma_modify_without_match(entries.drop_first(), url);
    }
}

/// The rewriting uses the first entry whose fragment occurs in the link: with
/// the entries before it not occurring, the link has that fragment replaced.
pub proof fn lemma_modify_first_match(
    entries: Seq<(Seq<char>, Seq<char>)>,
    url: Seq<char>,
    k: int,
)
    requires
        0 <= k < entries.len(),
        contains_seq(url, entries[k].0),
        forall|i: int| 0 <= i < k ==> !contains_seq(url, #[trigger] entries[i].0),
    ensures
        modify_seq(entries, url) == replace_seq(url, entries[k].0, entries[k].1),
    decreases k,
{
    if k > 0 {
        assert(!contains_seq(url, entries[0].0));
        assert forall|i: int| 0 <= i < k - 1 implies !contains_seq(
            url,
            #[trigger] entries.drop_first()[i].0,
        ) by {
            assert(entries.drop_first()[i] == entries[i + 1]);
        }
        lemma_modify_first_match(entries.drop_first(), url, k - 1);
    }
}

} // verus!
