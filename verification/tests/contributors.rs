use rari_doc::contributors::{
    contributors_txt, spotlight_folder, ContributorBuildMeta, ContributorFrontMatter, ContributorMeta,
    Usernames, WikiHistoryEntry,
};
use rari_doc::locale::Locale;
use rari_doc::resolve::DocError;

fn fm() -> ContributorFrontMatter {
    ContributorFrontMatter {
        contributor_name: "Ada Lovelace".to_string(),
        folder_name: "ada".to_string(),
        is_featured: true,
        img_alt: "Ada".to_string(),
        usernames: Usernames { github: "ada".to_string() },
        quote: "Hello".to_string(),
    }
}

#[test]
fn spotlight_meta_from_front_matter() {
    let m = ContributorBuildMeta::from_fm(fm(), "/content/spotlight/ada/index.md", "/content/spotlight", Locale::EnUs)
        .expect("below the root");
    assert_eq!(m.slug, "spotlight/ada");
    assert_eq!(m.url, "/en-US/community/spotlight/ada");
    assert_eq!(m.title, "Contributor Spotlight - Ada Lovelace | MDN");
    assert_eq!(m.img, "profile-image.jpg");
    assert_eq!(m.path, "ada/index.md");
    assert_eq!(m.full_path, "/content/spotlight/ada/index.md");
    assert!(m.is_featured);
    assert_eq!(m.usernames.github, "ada");
}

#[test]
fn spotlight_outside_its_root_is_an_error() {
    let r = ContributorBuildMeta::from_fm(fm(), "/elsewhere/ada/index.md", "/content/spotlight", Locale::EnUs);
    assert!(matches!(r, Err(DocError::NoSuchPrefix(_))));
}

#[test]
fn spotlight_in_another_locale() {
    let m = ContributorBuildMeta::from_fm(fm(), "/root/ada/index.md", "/root", Locale::EnUs).expect("below the root");
    let de = m.as_locale(Locale::De);
    assert_eq!(de.locale, Locale::De);
    assert_eq!(de.url, "/de/community/spotlight/ada");
    assert_eq!(de.slug, m.slug);
    assert_eq!(de.path, m.path);
}

#[test]
fn spotlight_page_meta() {
    let m = ContributorBuildMeta::from_fm(fm(), "/root/ada/index.md", "/root", Locale::Fr).expect("below the root");
    let meta = ContributorMeta::from(&m);
    assert_eq!(meta.slug, "spotlight/ada");
    assert_eq!(meta.title, m.title);
    assert_eq!(meta.quote, "Hello");
    assert_eq!(meta.img, "profile-image.jpg");
}

#[test]
fn spotlight_folder_from_url() {
    assert_eq!(spotlight_folder("/en-US/community/spotlight/ada"), Some("ada".to_string()));
    assert_eq!(spotlight_folder("/en-US/community/spotlight/ada/more"), Some("ada".to_string()));
    assert_eq!(spotlight_folder("/en-US/community/spotlight"), None);
}

#[test]
fn contributors_file_with_wiki_history() {
    let wh = WikiHistoryEntry { contributors: vec!["a".to_string(), "b".to_string()] };
    let txt = contributors_txt(Some(&wh), "https://github.com/mdn/content/blob/main/files/x.md");
    assert_eq!(
        txt,
        "# Contributors by commit history\nhttps://github.com/mdn/content/commits/main/files/x.md\n\n# Original Wiki contributors\na\nb\n"
    );
}
