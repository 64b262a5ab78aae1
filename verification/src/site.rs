//! Small rules of the site: where Baseline banners are mocked, the key of a document in
//! the git history, the MIME type of a blog image, and the pages of the blog index.
use vstd::prelude::*;
use crate::locale::{spec_folder_str, Locale};
use crate::numbers::{nat_digits, u64_digits};
use crate::page::SiteIndex;
use crate::resolve::{spec_folder_path, spec_url_meta, url_meta_from, UrlMeta};
use crate::text::{
    chars_of, push_chars, push_str, rfind_char, rsplit_once, seq_eq, slice_of, starts_with,
    str_eq, string_of,
};

verus! {

/// Baseline banners are mocked under `Web/` and `WebAssembly/`, but not under
/// `Web/Accessibility/`.
pub open spec fn spec_is_mocked_banner_section(slug: Seq<char>) -> bool {
    ("Web/"@.is_prefix_of(slug) || "WebAssembly/"@.is_prefix_of(slug)) && !"Web/Accessibility/"@.is_prefix_of(slug)
}

/// Whether Baseline banners are mocked for pages with slug `slug`.
pub fn is_mocked_banner_section(slug: &str) -> (r: bool)
    ensures
        r == spec_is_mocked_banner_section(slug@),
{
    let v = chars_of(slug);
    let web = chars_of("Web/");
    let wasm = chars_of("WebAssembly/");
    let a11y = chars_of("Web/Accessibility/");
    (starts_with(v.as_slice(), web.as_slice()) || starts_with(v.as_slice(), wasm.as_slice()))
        && !starts_with(v.as_slice(), a11y.as_slice())
}

/// `a` joined with `b` as `Path::join` does: `b` where it is absolute, else `b` after
/// `a` and a `/` (unless `a` is empty or already ends in `/`).
pub open spec fn path_join(a: Seq<char>, b: Seq<char>) -> Seq<char> {
    if b.len() > 0 && b[0] == '/' {
        b
    } else if a.len() == 0 || a.last() == '/' {
        a + b
    } else {
        a + "/"@ + b
    }
}

fn path_join_exec(a: &str, b: &str) -> (r: String)
    ensures
        r@ == path_join(a@, b@),
{
    let va = chars_of(a);
    let vb = chars_of(b);
    if vb.len() > 0 && vb[0] == '/' {
        return string_of(vb.as_slice());
    }
    let mut out = string_of(va.as_slice());
    if !(va.len() == 0 || va[va.len() - 1] == '/') {
        push_str(&mut out, "/");
    }
    push_str(&mut out, b);
    out
}

/// The key of the document at `url` in the git history: the locale's folder, the
/// document's folder and `index.md`, joined as paths; none where the URL names no page.
pub open spec fn spec_url_to_history_key(url: Seq<char>, site: &SiteIndex) -> Option<Seq<char>> {
    match spec_url_meta(url, site) {
        Ok((_, slug, locale)) => Some(path_join(path_join(spec_folder_str(locale), spec_folder_path(slug)), "index.md"@)),
        Err(_) => None,
    }
}

/// The key of the document at `url` in the git history (see `spec_url_to_history_key`),
/// e.g. `fr/web/http/status/303/index.md` for `/fr/docs/Web/HTTP/Status/303`.
pub fn url_to_history_key(url: &str, site: &SiteIndex) -> (r: Option<String>)
    ensures
        match spec_url_to_history_key(url@, site) {
            Some(k) => r matches Some(s) && s@ == k,
            None => r is None,
        },
{
    match url_meta_from(url, site) {
        Ok(UrlMeta { folder_path, locale, .. }) => {
            let a = path_join_exec(locale.as_folder_str(), folder_path.as_str());
            Some(path_join_exec(a.as_str(), "index.md"))
        },
        Err(_) => None,
    }
}

/// The MIME type of an image file, by its extension (after the last `.`); empty for
/// other files.
pub open spec fn spec_guess_mime(file: Seq<char>) -> Seq<char> {
    match rsplit_once(file, '.') {
        Some((_, ext)) => if ext == "jpeg"@ || ext == "jpg"@ {
            "image/jpeg"@
        } else if ext == "png"@ {
            "image/png"@
        } else if ext == "avif"@ {
            "image/avif"@
        } else if ext == "jxl"@ {
            "image/jxl"@
        } else if ext == "webp"@ {
            "image/webp"@
        } else {
            ""@
        },
        None => ""@,
    }
}

/// The MIME type of an image file (see `spec_guess_mime`).
pub fn guess_mime(file: &str) -> (r: &'static str)
    ensures
        r@ == spec_guess_mime(file@),
{
    let v = chars_of(file);
    let n = v.len();
    match rfind_char(v.as_slice(), '.') {
        Some(i) => {
            let ext = slice_of(v.as_slice(), i + 1, v.len());
            assert(ext@ =~= v@.skip(i + 1));
            let e = string_of(ext.as_slice());
            if str_eq(e.as_str(), "jpeg") || str_eq(e.as_str(), "jpg") {
                "image/jpeg"
            } else if str_eq(e.as_str(), "png") {
                "image/png"
            } else if str_eq(e.as_str(), "avif") {
                "image/avif"
            } else if str_eq(e.as_str(), "jxl") {
                "image/jxl"
            } else if str_eq(e.as_str(), "webp") {
                "image/webp"
            } else {
                ""
            }
        },
        None => "",
    }
}

/// Which page of a paginated listing this is, and of how many.
#[derive(Debug, Clone, Copy, PartialEq, Eq, Structural)]
pub struct PaginationData {
    pub current_page: usize,
    pub num_pages: usize,
}

/// The slug of page `page` of the blog index: `blog` for the first, `blog/<page>` after.
pub open spec fn blog_index_slug(page: nat) -> Seq<char> {
    if page == 1 {
        "blog"@
    } else {
        "blog/"@ + nat_digits(page)
    }
}

/// The pages of the blog index for `num_posts` posts and `posts_per_page` posts a page:
/// the first page, then pages 2 to the number of full pages, each with its slug.
pub fn blog_indices(num_posts: usize, posts_per_page: usize) -> (r: Vec<(String, PaginationData)>)
    requires
        posts_per_page > 0,
    ensures
        ({
            let pages = num_posts / posts_per_page;
            &&& r@.len() == if pages >= 2 { pages as int } else { 1int }
            &&& forall|k: int| 0 <= k < r@.len() ==> (#[trigger] r@[k]).0@ == blog_index_slug((k + 1) as nat)
                && r@[k].1 == (PaginationData { current_page: (k + 1) as usize, num_pages: pages })
        }),
{
    let pages = num_posts / posts_per_page;
    let mut r: Vec<(String, PaginationData)> = Vec::new();
    r.push((string_of(chars_of("blog").as_slice()), PaginationData { current_page: 1, num_pages: pages }));
    let mut page: usize = 1;
    while page < pages
        invariant
            1 <= page,
            page <= pages || pages < 2,
            pages < 2 ==> page == 1,
            pages == num_posts / posts_per_page,
            r@.len() == page,
            forall|k: int| 0 <= k < r@.len() ==> (#[trigger] r@[k]).0@ == blog_index_slug((k + 1) as nat)
                && r@[k].1 == (PaginationData { current_page: (k + 1) as usize, num_pages: pages }),
        decreases pages - page,
    {
        page += 1;
        let mut slug = String::new();
        push_str(&mut slug, "blog/");
        let d = u64_digits(page as u64);
        push_chars(&mut slug, d.as_slice());
        r.push((slug, PaginationData { current_page: page, num_pages: pages }));
    }
    r
}

/// A status declared in a page's front matter.
#[derive(Debug, Clone, Copy, PartialEq, Eq, Structural)]
pub enum FeatureStatus {
    Experimental,
    NonStandard,
    Deprecated,
}

/// The Baseline status a banner shows.
#[derive(Debug, Clone, Copy, PartialEq, Eq, Structural)]
pub enum BaselineStatus {
    High,
    Low,
    Limited,
    Discouraged,
}

/// A deprecated page in a section with Baseline banners gets a mocked `Discouraged`
/// banner; any other page none.
pub fn get_mocked_baseline_status(fm_status: &[FeatureStatus], slug: &str) -> (r: Option<BaselineStatus>)
    ensures
        r == if fm_status@.contains(FeatureStatus::Deprecated) && spec_is_mocked_banner_section(slug@) {
            Some(BaselineStatus::Discouraged)
        } else {
            None::<BaselineStatus>
        },
{
    let n = fm_status.len();
    let mut i: usize = 0;
    let mut deprecated = false;
    while i < n
        invariant
            n == fm_status@.len(),
            i <= n,
            deprecated == exists|j: int| 0 <= j < i && fm_status@[j] == FeatureStatus::Deprecated,
        decreases n - i,
    {
        if fm_status[i] == FeatureStatus::Deprecated {
            deprecated = true;
        }
        i += 1;
    }
    if !deprecated {
        return None;
    }
    if !is_mocked_banner_section(slug) {
        return None;
    }
    Some(BaselineStatus::Discouraged)
}

/// Whether a feature is Baseline: widely available, newly available, or not.
#[derive(Debug, Clone, Copy, PartialEq, Eq, Structural)]
pub enum BaselineHighLow {
    High,
    Low,
    False,
}

/// The Baseline support of the web feature that a compat key belongs to.
#[derive(Debug, Clone)]
pub struct Baseline {
    /// The id of the web feature.
    pub feature_id: String,
    pub baseline: BaselineHighLow,
}

/// The web features, as the compat keys that belong to each: `(key, baseline)` pairs.
#[derive(Debug, Clone)]
pub struct WebFeatures {
    pub by_bcd_key: Vec<(String, Baseline)>,
}

/// The first entry for `key` in `entries`.
pub open spec fn spec_baseline_by_key(entries: Seq<(String, Baseline)>, key: Seq<char>) -> Option<Baseline>
    decreases entries.len(),
{
    if entries.len() == 0 {
        None
    } else if entries[0].0@ == key {
        Some(entries[0].1)
    } else {
        spec_baseline_by_key(entries.drop_first(), key)
    }
}

/// The compat key `key` belongs to the feature `id`.
pub open spec fn key_in_feature(entries: Seq<(String, Baseline)>, key: Seq<char>, id: Seq<char>) -> bool {
    match spec_baseline_by_key(entries, key) {
        Some(b) => b.feature_id@ == id,
        None => false,
    }
}

/// Every key after the first belongs to the feature `id`.
pub open spec fn rest_share_feature(entries: Seq<(String, Baseline)>, keys: Seq<String>, id: Seq<char>) -> bool {
    forall|i: int| 1 <= i < keys.len() ==> #[trigger] key_in_feature(entries, keys[i]@, id)
}

/// The Baseline of the feature that all of `keys` belong to: none where there are no
/// keys, where one is unknown, or where two belong to different features.
pub open spec fn spec_baseline_from(entries: Seq<(String, Baseline)>, keys: Seq<String>) -> Option<Baseline> {
    if keys.len() == 0 {
        None
    } else {
        match spec_baseline_by_key(entries, keys[0]@) {
            None => None,
            Some(first) => if rest_share_feature(entries, keys, first.feature_id@) {
                Some(first)
            } else {
                None
            },
        }
    }
}

impl WebFeatures {
    /// The Baseline of the feature that the compat key `key` belongs to.
    pub fn baseline_by_bcd_key(&self, key: &str) -> (r: Option<&Baseline>)
        ensures
            match spec_baseline_by_key(self.by_bcd_key@, key@) {
                Some(b) => r matches Some(x) && *x == b,
                None => r is None,
            },
    {
        let n = self.by_bcd_key.len();
        let mut i: usize = 0;
        assert(self.by_bcd_key@.skip(0) =~= self.by_bcd_key@);
        while i < n
            invariant
                n == self.by_bcd_key@.len(),
                i <= n,
                spec_baseline_by_key(self.by_bcd_key@, key@) == spec_baseline_by_key(self.by_bcd_key@.skip(i as int), key@),
            decreases n - i,
        {
            assert(self.by_bcd_key@.skip(i as int).drop_first() =~= self.by_bcd_key@.skip(i + 1));
            if str_eq(self.by_bcd_key[i].0.as_str(), key) {
                return Some(&self.by_bcd_key[i].1);
            }
            i += 1;
        }
        None
    }
}

/// The Baseline shared by the compat keys `browser_compat` (see `spec_baseline_from`).
pub fn get_baseline_from<'a>(browser_compat: &[String], web_features: &'a WebFeatures) -> (r: Option<&'a Baseline>)
    ensures
        match spec_baseline_from(web_features.by_bcd_key@, browser_compat@) {
            Some(b) => r matches Some(x) && *x == b,
            None => r is None,
        },
{
    let n = browser_compat.len();
    if n == 0 {
        return None;
    }
    let first = match web_features.baseline_by_bcd_key(browser_compat[0].as_str()) {
        Some(f) => f,
        None => return None,
    };
    let ghost entries = web_features.by_bcd_key@;
    let mut i: usize = 1;
    while i < n
        invariant
            n == browser_compat@.len(),
            1 <= i <= n,
            entries == web_features.by_bcd_key@,
            spec_baseline_by_key(entries, browser_compat@[0]@) == Some(*first),
            forall|j: int| 1 <= j < i ==> #[trigger] key_in_feature(entries, browser_compat@[j]@, first.feature_id@),
        decreases n - i,
    {
        match web_features.baseline_by_bcd_key(browser_compat[i].as_str()) {
            Some(b) => {
                if !str_eq(b.feature_id.as_str(), first.feature_id.as_str()) {
                    assert(!key_in_feature(entries, browser_compat@[i as int]@, first.feature_id@));
                    assert(!rest_share_feature(entries, browser_compat@, first.feature_id@));
                    return None;
                }
            },
            None => {
                assert(!key_in_feature(entries, browser_compat@[i as int]@, first.feature_id@));
                assert(!rest_share_feature(entries, browser_compat@, first.feature_id@));
                return None;
            },
        }
        i += 1;
    }
    Some(first)
}

} // verus!
