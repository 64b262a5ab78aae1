//! Contributor spotlight pages and the contributors file of a document.
use vstd::prelude::*;
use crate::locale::{spec_url_str, Locale};
use crate::resolve::{path_strip_prefix, strip_path_prefix, DocError};
use crate::text::{chars_of, push_str, replace, replace_str, split, split_vec, string_of};

verus! {

/// A contributor's account names.
#[derive(Clone, Debug, Default, PartialEq)]
pub struct Usernames {
    pub github: String,
}

/// The front matter of a contributor spotlight.
#[derive(Clone, Debug, Default, PartialEq)]
pub struct ContributorFrontMatter {
    pub contributor_name: String,
    pub folder_name: String,
    pub is_featured: bool,
    pub img_alt: String,
    pub usernames: Usernames,
    pub quote: String,
}

/// The metadata of a contributor spotlight.
#[derive(Clone, Debug, Default, PartialEq)]
pub struct ContributorMeta {
    pub slug: String,
    pub title: String,
    pub contributor_name: String,
    pub folder_name: String,
    pub is_featured: bool,
    pub img: String,
    pub img_alt: String,
    pub usernames: Usernames,
    pub quote: String,
}

/// The contributors of a document from the time of the wiki.
#[derive(Clone, Debug)]
pub struct WikiHistoryEntry {
    pub contributors: Vec<String>,
}

/// The names joined, each but the last followed by a newline.
pub open spec fn join_lines(names: Seq<String>) -> Seq<char>
    decreases names.len(),
{
    if names.len() == 0 {
        seq![]
    } else if names.len() == 1 {
        names[0]@
    } else {
        join_lines(names.drop_last()) + "\n"@ + names.last()@
    }
}

/// The contributors file of a document: a link to the commit history of its file (its
/// GitHub URL with `blob` as `commits`) and, where there is one, the wiki contributors.
pub open spec fn spec_contributors_txt(wiki: Option<Seq<String>>, github_file_url: Seq<char>) -> Seq<char> {
    "# Contributors by commit history\n"@ + replace(github_file_url, "blob"@, "commits"@) + "\n\n"@
        + match wiki {
        Some(names) => "# Original Wiki contributors\n"@ + join_lines(names) + "\n"@,
        None => seq![],
    }
}

/// The contributors file of a document (see `spec_contributors_txt`).
pub fn contributors_txt(wiki_history: Option<&WikiHistoryEntry>, github_file_url: &str) -> (r: String)
    ensures
        r@ == spec_contributors_txt(match wiki_history {
            Some(w) => Some(w.contributors@),
            None => None,
        }, github_file_url@),
{
    let mut out = String::new();
    push_str(&mut out, "# Contributors by commit history\n");
    proof {
        reveal_strlit("blob");
    }
    let c = replace_str(github_file_url, "blob", "commits");
    push_str(&mut out, c.as_str());
    push_str(&mut out, "\n\n");
    match wiki_history {
        Some(wh) => {
            push_str(&mut out, "# Original Wiki contributors\n");
            let names = &wh.contributors;
            let n = names.len();
            let mut i: usize = 0;
            let ghost start = out@;
            assert(names@.take(0) =~= Seq::<String>::empty());
            while i < n
                invariant
                    n == names@.len(),
                    i <= n,
                    out@ == start + join_lines(names@.take(i as int)),
                decreases n - i,
            {
                assert(names@.take(i + 1).drop_last() =~= names@.take(i as int));
                assert(names@.take(i + 1).last() == names@[i as int]);
                if i > 0 {
                    push_str(&mut out, "\n");
                }
                push_str(&mut out, names[i].as_str());
                proof {
                    if i == 0 {
                        assert(names@.take(1) =~= seq![names@[0]]);
                    }
                }
                i += 1;
            }
            assert(names@.take(n as int) =~= names@);
            push_str(&mut out, "\n");
        },
        None => {},
    }
    out
}


/// The metadata of a contributor spotlight as the build reads it: where it is, and what
/// its page shows.
#[derive(Clone, Debug, PartialEq)]
pub struct ContributorBuildMeta {
    pub locale: Locale,
    pub slug: String,
    pub title: String,
    pub url: String,
    pub contributor_name: String,
    pub folder_name: String,
    pub is_featured: bool,
    pub img: String,
    pub img_alt: String,
    pub usernames: Usernames,
    pub quote: String,
    /// The file's path below the spotlight root.
    pub path: String,
    pub full_path: String,
}

/// The slug of the spotlight in folder `folder`.
pub open spec fn spotlight_slug(folder: Seq<char>) -> Seq<char> {
    "spotlight/"@ + folder
}

/// The URL of the spotlight with slug `slug` in `locale`.
pub open spec fn spotlight_url(locale: Locale, slug: Seq<char>) -> Seq<char> {
    "/"@ + spec_url_str(locale) + "/community/"@ + slug
}

/// `m` is the build metadata of front matter `fm` read from file `full_path` below
/// `path`, in `locale`: its slug `spotlight/<folder>`, its URL below `/<locale>/community/`,
/// its title `Contributor Spotlight - <name> | MDN`, the image `profile-image.jpg`, the
/// rest as the front matter has it.
pub open spec fn is_build_meta(m: ContributorBuildMeta, fm: ContributorFrontMatter, full_path: Seq<char>, path: Seq<char>, locale: Locale) -> bool {
    &&& m.locale == locale
    &&& m.slug@ == spotlight_slug(fm.folder_name@)
    &&& m.url@ == spotlight_url(locale, spotlight_slug(fm.folder_name@))
    &&& m.title@ == "Contributor Spotlight - "@ + fm.contributor_name@ + " | MDN"@
    &&& m.contributor_name == fm.contributor_name
    &&& m.folder_name == fm.folder_name
    &&& m.is_featured == fm.is_featured
    &&& m.img@ == "profile-image.jpg"@
    &&& m.img_alt == fm.img_alt
    &&& m.usernames == fm.usernames
    &&& m.quote == fm.quote
    &&& m.path@ == path
    &&& m.full_path@ == full_path
}

impl ContributorBuildMeta {
    /// The build metadata of the spotlight with front matter `fm` in file `full_path`,
    /// in `locale` (see `is_build_meta`); `root` is the root of the spotlights, and the
    /// error is that of a file not below it.
    pub fn from_fm(fm: ContributorFrontMatter, full_path: &str, root: &str, locale: Locale) -> (r: Result<ContributorBuildMeta, DocError>)
        ensures
            match path_strip_prefix(full_path@, root@) {
                Some(path) => r matches Ok(m) && is_build_meta(m, fm, full_path@, path, locale),
                None => r matches Err(DocError::NoSuchPrefix(_)),
            },
    {
        let path = match strip_path_prefix(full_path, root) {
            Ok(p) => p,
            Err(e) => return Err(DocError::NoSuchPrefix(e)),
        };
        let ContributorFrontMatter { contributor_name, folder_name, is_featured, img_alt, usernames, quote } = fm;
        let mut slug = String::new();
        push_str(&mut slug, "spotlight/");
        push_str(&mut slug, folder_name.as_str());
        let mut url = String::new();
        push_str(&mut url, "/");
        push_str(&mut url, locale.as_url_str());
        push_str(&mut url, "/community/");
        push_str(&mut url, slug.as_str());
        let mut title = String::new();
        push_str(&mut title, "Contributor Spotlight - ");
        push_str(&mut title, contributor_name.as_str());
        push_str(&mut title, " | MDN");
        let mut img = String::new();
        push_str(&mut img, "profile-image.jpg");
        let mut fp = String::new();
        push_str(&mut fp, full_path);
        Ok(ContributorBuildMeta {
            locale,
            slug,
            title,
            url,
            contributor_name,
            folder_name,
            is_featured,
            img,
            img_alt,
            usernames,
            quote,
            path,
            full_path: fp,
        })
    }

    /// The same spotlight in `locale`: its locale and URL changed, the rest kept.
    pub fn as_locale(&self, locale: Locale) -> (r: ContributorBuildMeta)
        ensures
            r.locale == locale,
            r.url@ == spotlight_url(locale, self.slug@),
            r.slug@ == self.slug@,
            r.title@ == self.title@,
            r.contributor_name@ == self.contributor_name@,
            r.folder_name@ == self.folder_name@,
            r.is_featured == self.is_featured,
            r.img@ == self.img@,
            r.img_alt@ == self.img_alt@,
            r.usernames.github@ == self.usernames.github@,
            r.quote@ == self.quote@,
            r.path@ == self.path@,
            r.full_path@ == self.full_path@,
    {
        let mut url = String::new();
        push_str(&mut url, "/");
        push_str(&mut url, locale.as_url_str());
        push_str(&mut url, "/community/");
        push_str(&mut url, self.slug.as_str());
        ContributorBuildMeta {
            locale,
            slug: self.slug.clone(),
            title: self.title.clone(),
            url,
            contributor_name: self.contributor_name.clone(),
            folder_name: self.folder_name.clone(),
            is_featured: self.is_featured,
            img: self.img.clone(),
            img_alt: self.img_alt.clone(),
            usernames: Usernames { github: self.usernames.github.clone() },
            quote: self.quote.clone(),
            path: self.path.clone(),
            full_path: self.full_path.clone(),
        }
    }
}

impl<'a> From<&'a ContributorBuildMeta> for ContributorMeta {
    /// The metadata of the spotlight page: the build metadata without its locale, URL
    /// and paths.
    fn from(value: &'a ContributorBuildMeta) -> (r: ContributorMeta) {
        ContributorMeta {
            slug: value.slug.clone(),
            title: value.title.clone(),
            contributor_name: value.contributor_name.clone(),
            folder_name: value.folder_name.clone(),
            is_featured: value.is_featured,
            img: value.img.clone(),
            img_alt: value.img_alt.clone(),
            usernames: Usernames { github: value.usernames.github.clone() },
            quote: value.quote.clone(),
        }
    }
}

impl<'a> vstd::std_specs::convert::FromSpecImpl<&'a ContributorBuildMeta> for ContributorMeta {
    open spec fn obeys_from_spec() -> bool {
        true
    }

    open spec fn from_spec(value: &'a ContributorBuildMeta) -> ContributorMeta {
        ContributorMeta {
            slug: value.slug,
            title: value.title,
            contributor_name: value.contributor_name,
            folder_name: value.folder_name,
            is_featured: value.is_featured,
            img: value.img,
            img_alt: value.img_alt,
            usernames: Usernames { github: value.usernames.github },
            quote: value.quote,
        }
    }
}

/// The folder of the spotlight a URL names: its fifth `/`-separated piece
/// (`/<locale>/community/spotlight/<folder>`); none where it has fewer.
pub open spec fn spec_spotlight_folder(url: Seq<char>) -> Option<Seq<char>> {
    let parts = split(url, '/');
    if parts.len() > 4 {
        Some(parts[4])
    } else {
        None
    }
}

/// The folder of the spotlight that `url` names (see `spec_spotlight_folder`); the page
/// is the `index.md` file in that folder below the spotlight root.
pub fn spotlight_folder(url: &str) -> (r: Option<String>)
    ensures
        match spec_spotlight_folder(url@) {
            Some(f) => r matches Some(s) && s@ == f,
            None => r is None,
        },
{
    let parts = split_vec(chars_of(url).as_slice(), '/');
    if parts.len() > 4 {
        Some(string_of(parts[4].as_slice()))
    } else {
        None
    }
}

} // verus!
