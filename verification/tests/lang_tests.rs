use channelserver::lang::{get_preferred_language_element, preferred_languages};

fn tags(langs: &[&str]) -> Vec<Vec<u8>> {
    langs.iter().map(|l| l.as_bytes().to_vec()).collect()
}

fn from_tags(langs: Vec<Vec<u8>>) -> Vec<String> {
    langs.into_iter().map(|l| String::from_utf8(l).unwrap()).collect()
}

#[test]
fn test_preferred_language() {
    let langs = preferred_languages(
        &"en-US,es;q=0.1,en;q=0.5,*;q=0.2".as_bytes().to_vec(),
        &"en".as_bytes().to_vec(),
    );
    assert_eq!(
        vec![
            "en-us".to_owned(),
            "en".to_owned(),
            "*".to_owned(),
            "es".to_owned(),
            "en".to_owned(),
        ],
        from_tags(langs)
    );
}

#[test]
fn test_bad_preferred_language() {
    let langs = preferred_languages(&"-".as_bytes().to_vec(), &"en".as_bytes().to_vec());
    assert_eq!(vec!["en".to_owned()], from_tags(langs));
}

#[test]
fn test_get_preferred_language_element() {
    let langs = tags(&["en-us", "en", "es", "en"]);
    // Don't include the default "en" so we can test no matching languages.
    let bad_lang = tags(&["fu"]);
    // Include the "*" so we can return any language.
    let any_lang = tags(&["fu", "*", "en"]);
    let elements: Vec<(Vec<u8>, String)> = vec![
        (b"de".to_vec(), "Kalifornien".to_owned()),
        (b"en".to_vec(), "California".to_owned()),
        (b"fr".to_vec(), "Californie".to_owned()),
        (b"ja".to_vec(), "カリフォルニア州".to_owned()),
    ];
    assert_eq!(
        Some("California".to_owned()),
        get_preferred_language_element(&langs, &elements)
    );
    assert_eq!(None, get_preferred_language_element(&bad_lang, &elements));
    // Returns the first entry, since the tag is a wildcard.
    assert!(get_preferred_language_element(&any_lang, &elements).is_some());
    let goof_lang = tags(&["🙄💩"]);
    assert_eq!(None, get_preferred_language_element(&goof_lang, &elements));
}

#[test]
fn wildcard_takes_first_entry() {
    let elements: Vec<(Vec<u8>, String)> = vec![
        (b"de".to_vec(), "Kalifornien".to_owned()),
        (b"en".to_vec(), "California".to_owned()),
    ];
    assert_eq!(
        Some("Kalifornien".to_owned()),
        get_preferred_language_element(&tags(&["*"]), &elements)
    );
    // Only `*` is the wildcard; `-` matches nothing.
    assert_eq!(None, get_preferred_language_element(&tags(&["-"]), &elements));
}

#[test]
fn dialect_rounds_up_to_primary_subtag() {
    let elements: Vec<(Vec<u8>, String)> = vec![(b"fr".to_vec(), "Californie".to_owned())];
    assert_eq!(
        Some("Californie".to_owned()),
        get_preferred_language_element(&tags(&["fr-ca"]), &elements)
    );
}

#[test]
fn weights_order_and_default() {
    // Equal weights keep appearance order; junk weights sink to the bottom.
    let langs = preferred_languages(
        &"fr;q=0.5, de;q=0.5, ja;q=zz, nl".as_bytes().to_vec(),
        &"en".as_bytes().to_vec(),
    );
    assert_eq!(
        vec![
            "nl".to_owned(),
            "fr".to_owned(),
            "de".to_owned(),
            "ja".to_owned(),
            "en".to_owned(),
        ],
        from_tags(langs)
    );
}
