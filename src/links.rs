use crate::text::{has_prefix, same_text, starts_with};
use vstd::prelude::*;
use vstd::string::StrSliceExecFns;

verus! {

/// The characters of an optional string.
pub open spec fn opt_text(o: Option<String>) -> Option<Seq<char>> {
    match o {
        Some(s) => Some(s@),
        None => None,
    }
}

/// The `href` of each anchor element of the HTML document `html`, in
/// document order (`None` for an anchor without one).
pub uninterp spec fn anchor_hrefs_of(html: Seq<char>) -> Seq<Option<Seq<char>>>;

/// The serialization of the URL that `href` resolves to against `base`, or
/// `None` when `base` is no absolute URL or `href` cannot be joined to it.
pub uninterp spec fn joined_url(base: Seq<char>, href: Seq<char>) -> Option<Seq<char>>;

/// Relies on scraper::Html::parse_document and Html::select with the
/// selector `a`: one parse of the page, the anchors in document order, and
/// each anchor's `href` attribute.
#[verifier::external_body]
fn anchor_hrefs(html: &str) -> (r: Vec<Option<String>>)
    ensures
        r@.map_values(|o: Option<String>| opt_text(o)) == anchor_hrefs_of(html@),
{
    let document = scraper::Html::parse_document(html);
    let selector = scraper::Selector::parse("a").unwrap();
    let mut hrefs = Vec::new();
    for element in document.select(&selector) {
        hrefs.push(element.attr("href").map(String::from));
    }
    hrefs
}

/// Relies on reqwest::Url::parse for `base` and Url::join for `href`
/// (standard relative resolution), giving the joined URL as text.
#[verifier::external_body]
fn resolve_link(base: &str, href: &str) -> (r: Option<String>)
    ensures
        opt_text(r) == joined_url(base@, href@),
{
    match reqwest::Url::parse(base) {
        Ok(parsed) => match parsed.join(href) {
            Ok(joined) => Some(joined.to_string()),
            Err(_) => None,
        },
        Err(_) => None,
    }
}

/// Links that lead nowhere in the listing: the parent directory, a bare
/// fragment, a script, mail or phone link, or a query on the same page.
pub open spec fn skipped_href(href: Seq<char>) -> bool {
    ||| href == "../"@
    ||| href == "#"@
    ||| starts_with(href, "javascript:"@)
    ||| starts_with(href, "mailto:"@)
    ||| starts_with(href, "tel:"@)
    ||| starts_with(href, "?"@)
}

/// Whether a link's raw `href` is one that is never followed.
pub fn should_skip_url(href: &str) -> (r: bool)
    ensures
        r == skipped_href(href@),
{
    same_text(href, "../") || same_text(href, "#") || has_prefix(href, "javascript:")
        || has_prefix(href, "mailto:") || has_prefix(href, "tel:") || has_prefix(href, "?")
}

/// The raw `href` names a directory: it ends with `/`.
pub open spec fn names_directory(href: Seq<char>) -> bool {
    href.len() > 0 && href.last() == '/'
}

/// The hrefs that the classifier keeps, in document order.
pub open spec fn kept_hrefs(hrefs: Seq<Option<Seq<char>>>) -> Seq<Seq<char>>
    decreases hrefs.len(),
{
    if hrefs.len() == 0 {
        Seq::empty()
    } else {
        let rest = kept_hrefs(hrefs.drop_last());
        match hrefs.last() {
            Some(h) => if skipped_href(h) {
                rest
            } else {
                rest.push(h)
            },
            None => rest,
        }
    }
}

/// One link of a listing page.
#[derive(Debug, Clone)]
pub struct Link {
    /// The `href` as written in the page.
    pub href: String,
    /// The absolute URL it resolves to.
    pub url: String,
    /// Whether it names a subdirectory.
    pub is_dir: bool,
}

/// `links` are the kept hrefs of `hrefs`, each resolved against `base` and
/// classified.
pub open spec fn classified(links: Seq<Link>, hrefs: Seq<Seq<char>>, base: Seq<char>) -> bool {
    &&& links.len() == hrefs.len()
    &&& forall|i: int|
        0 <= i < links.len() ==> {
            &&& (#[trigger] links[i]).href@ == hrefs[i]
            &&& joined_url(base, hrefs[i]) == Some(links[i].url@)
            &&& links[i].is_dir == names_directory(hrefs[i])
        }
}

/// Some kept href does not resolve against `base`.
pub open spec fn some_link_unresolved(hrefs: Seq<Seq<char>>, base: Seq<char>) -> bool {
    exists|i: int| 0 <= i < hrefs.len() && joined_url(base, #[trigger] hrefs[i]) is None
}

/// A link that does not resolve against the page's URL.
#[derive(Clone, Copy, Debug, PartialEq, Eq, Structural)]
pub struct UnresolvedLink {
    /// Its position among the page's kept links.
    pub position: usize,
}

/// Extracts the links of a listing page: the anchors' hrefs in document
/// order, without those that are never followed, each resolved against
/// `base_url` and classified as a directory when the raw href ends with `/`.
pub fn extract_links(html: &str, base_url: &str) -> (r: Result<Vec<Link>, UnresolvedLink>)
    ensures
        r is Ok <==> !some_link_unresolved(kept_hrefs(anchor_hrefs_of(html@)), base_url@),
        r matches Ok(links) ==> classified(links@, kept_hrefs(anchor_hrefs_of(html@)), base_url@),
{
    let hrefs = anchor_hrefs(html);
    let ghost all = anchor_hrefs_of(html@);
    let mut links: Vec<Link> = Vec::new();
    let mut i: usize = 0;
    assert(all.subrange(0, 0) =~= Seq::<Option<Seq<char>>>::empty());
    while i < hrefs.len()
        invariant
            i <= hrefs@.len(),
            all == anchor_hrefs_of(html@),
            hrefs@.map_values(|o: Option<String>| opt_text(o)) == all,
            classified(links@, kept_hrefs(all.subrange(0, i as int)), base_url@),
        decreases hrefs@.len() - i,
    {
        let ghost before = all.subrange(0, i as int);
        assert(all.subrange(0, i + 1).drop_last() =~= before);
        assert(all[i as int] == opt_text(hrefs@[i as int]));
        match &hrefs[i] {
            Some(href) => {
                if !should_skip_url(href.as_str()) {
                    match resolve_link(base_url, href.as_str()) {
                        Some(url) => {
                            let is_dir = !href.as_str().is_empty() && ends_with_slash(href.as_str());
                            links.push(Link { href: href.clone(), url, is_dir });
                        },
                        None => {
                            proof {
                                let kept = kept_hrefs(all);
                                let upto = all.subrange(0, i as int + 1);
                                lemma_kept_prefix(all, i as int + 1);
                                let k = links@.len() as int;
                                assert(upto.drop_last() =~= before);
                                assert(kept_hrefs(upto) == kept_hrefs(before).push(href@));
                                assert(kept_hrefs(upto)[k] == href@);
                                assert(kept[k] == href@);
                                assert(0 <= k < kept.len());
                                assert(joined_url(base_url@, kept[k]) is None);
                            }
                            return Err(UnresolvedLink { position: links.len() });
                        },
                    }
                }
            },
            None => {},
        }
        i = i + 1;
    }
    assert(all.subrange(0, hrefs@.len() as int) =~= all);
    proof {
        let kept = kept_hrefs(all);
        assert forall|k: int| 0 <= k < kept.len() implies joined_url(base_url@, #[trigger] kept[k]) is Some by {
            assert(links@[k].href@ == kept[k]);
        }
    }
    Ok(links)
}

/// Whether a nonempty `s` ends with `/`.
fn ends_with_slash(s: &str) -> (r: bool)
    requires
        s@.len() > 0,
    ensures
        r == names_directory(s@),
{
    let n = s.unicode_len();
    s.get_char(n - 1) == '/'
}

/// The kept hrefs of a prefix of the page are a prefix of the page's kept
/// hrefs.
proof fn lemma_kept_prefix(hrefs: Seq<Option<Seq<char>>>, n: int)
    requires
        0 <= n <= hrefs.len(),
    ensures
        kept_hrefs(hrefs.subrange(0, n)).len() <= kept_hrefs(hrefs).len(),
        forall|k: int|
            0 <= k < kept_hrefs(hrefs.subrange(0, n)).len() ==> #[trigger] kept_hrefs(
                hrefs.subrange(0, n),
            )[k] == kept_hrefs(hrefs)[k],
    decreases hrefs.len() - n,
{
    if n < hrefs.len() {
        lemma_kept_prefix(hrefs, n + 1);
        let a = hrefs.subrange(0, n);
        let b = hrefs.subrange(0, n + 1);
        assert(b.drop_last() =~= a);
        assert(kept_hrefs(a).len() <= kept_hrefs(b).len());
        assert forall|k: int| 0 <= k < kept_hrefs(a).len() implies #[trigger] kept_hrefs(a)[k]
            == kept_hrefs(hrefs)[k] by {
            assert(kept_hrefs(b)[k] == kept_hrefs(a)[k]);
        }
    } else {
        assert(hrefs.subrange(0, n) =~= hrefs);
    }
}

} // verus!
