use typst_docx::args::parse_input_pair;

fn pair(k: &str, v: &str) -> Result<(String, String), String> {
    Ok((k.to_string(), v.to_string()))
}

#[test]
fn input_pairs_are_split_at_the_first_equal_sign() {
    assert_eq!(parse_input_pair("a=b"), pair("a", "b"));
    assert_eq!(parse_input_pair("a=b=c"), pair("a", "b=c"));
    assert_eq!(parse_input_pair("key="), pair("key", ""));
}

#[test]
fn input_pairs_are_trimmed() {
    assert_eq!(parse_input_pair("  key \t=  some value \n"), pair("key", "some value"));
    assert_eq!(parse_input_pair("\u{3000}k\u{a0}=\u{2003}v"), pair("k", "v"));
}

#[test]
fn input_pair_errors() {
    assert_eq!(
        parse_input_pair("novalue"),
        Err("input must be a key and a value separated by an equal sign".to_string())
    );
    assert_eq!(
        parse_input_pair(""),
        Err("input must be a key and a value separated by an equal sign".to_string())
    );
    assert_eq!(parse_input_pair("=v"), Err("the key was missing or empty".to_string()));
    assert_eq!(parse_input_pair("   =v"), Err("the key was missing or empty".to_string()));
}
