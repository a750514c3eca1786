use shuttle_codegen::template::{substitute, SubstError};

fn vars(pairs: &[(&str, &str)]) -> Vec<(String, String)> {
    pairs.iter().map(|(k, v)| (k.to_string(), v.to_string())).collect()
}

#[test]
fn substitutes_named_tokens() {
    let v = vars(&[("secrets.password", "hunter2"), ("secrets.user", "admin")]);
    let out = substitute("user:{secrets.user} pass:{secrets.password}", &v).unwrap();
    assert_eq!(out, "user:admin pass:hunter2");
}

#[test]
fn passes_plain_text_through() {
    let v = vars(&[]);
    assert_eq!(substitute("10Gb", &v).unwrap(), "10Gb");
    assert_eq!(substitute("", &v).unwrap(), "");
}

#[test]
fn unknown_key_fails_fast() {
    let v = vars(&[("secrets.user", "admin")]);
    match substitute("user:{secrets.password}", &v) {
        Err(SubstError::UnknownKey(k)) => assert_eq!(k, "secrets.password"),
        other => panic!("expected an unknown-key failure, got {:?}", other),
    }
}

#[test]
fn unterminated_token_fails_fast() {
    let v = vars(&[("secrets.user", "admin")]);
    assert!(matches!(
        substitute("user:{secrets.user", &v),
        Err(SubstError::MissingBrace)
    ));
}

#[test]
fn first_matching_key_wins() {
    let v = vars(&[("key", "first"), ("key", "second")]);
    assert_eq!(substitute("{key}", &v).unwrap(), "first");
}

#[test]
fn empty_token_resolves_an_empty_key() {
    let v = vars(&[("", "nothing")]);
    assert_eq!(substitute("<{}>", &v).unwrap(), "<nothing>");
}
