use obfuscator::bridge::{obfuscate_module, parse_program};

/// The identifier tokens of a source text, split at non-identifier characters.
fn tokens(text: &str) -> Vec<String> {
    text.split(|c: char| !(c.is_ascii_alphanumeric() || c == '_' || c == '$'))
        .filter(|t| !t.is_empty())
        .map(|t| t.to_string())
        .collect()
}

fn count(text: &str, word: &str) -> usize {
    tokens(text).iter().filter(|t| t.as_str() == word).count()
}

#[test]
fn valid_source_parses() {
    assert!(parse_program("let a = 1; a + 2;").is_ok());
}

#[test]
fn syntax_error_yields_a_diagnostic() {
    let failure = parse_program("let = ;");
    assert!(failure.is_err());
    assert!(!failure.unwrap_err().is_empty());
}

#[test]
fn renamed_output_parses_again() {
    let code = "let abc = 1; let def = abc + 2; eval(\"a\" + \"b\"); abc + def;";
    let module = parse_program(code).ok().expect("input parses");
    let declared = vec!["abc".to_string(), "def".to_string()];
    let avoid: Vec<String> = Vec::new();
    let (_pairs, text) = obfuscate_module(module, &declared, &avoid).ok().expect("output serializes");
    assert!(parse_program(&text).is_ok(), "rewritten source must re-parse: {}", text);
}

#[test]
fn every_reference_maps_to_the_same_generated_name() {
    let code = "let abc = 1; let def = abc + 2; abc + def + abc;";
    let module = parse_program(code).ok().expect("input parses");
    let declared = vec!["abc".to_string(), "def".to_string()];
    let avoid: Vec<String> = Vec::new();
    let (pairs, text) = obfuscate_module(module, &declared, &avoid).ok().expect("output serializes");
    let abc_new = &pairs.iter().find(|p| p.0 == "abc").expect("abc mapped").1;
    let def_new = &pairs.iter().find(|p| p.0 == "def").expect("def mapped").1;
    assert_ne!(abc_new, def_new);
    assert_eq!(count(&text, "abc"), 0);
    assert_eq!(count(&text, "def"), 0);
    assert_eq!(count(&text, abc_new), 4, "all sites of abc carry one name: {}", text);
    assert_eq!(count(&text, def_new), 2, "all sites of def carry one name: {}", text);
}

#[test]
fn names_not_declared_in_the_tree_stay_unchanged() {
    let code = "let abc = 1; foo(abc);";
    let module = parse_program(code).ok().expect("input parses");
    let declared = vec!["abc".to_string()];
    let avoid: Vec<String> = Vec::new();
    let (_pairs, text) = obfuscate_module(module, &declared, &avoid).ok().expect("output serializes");
    assert_eq!(count(&text, "foo"), 1);
    assert_eq!(count(&text, "abc"), 0);
}

#[test]
fn rename_map_is_complete_unique_and_fresh() {
    let code = "let abc = 1; let abc = 2; let def = 3; qq;";
    let module = parse_program(code).ok().expect("input parses");
    let declared = vec!["abc".to_string(), "abc".to_string(), "def".to_string()];
    let avoid = vec!["qq".to_string()];
    let (pairs, _text) = obfuscate_module(module, &declared, &avoid).ok().expect("output serializes");
    let sources: Vec<&String> = pairs.iter().map(|p| &p.0).collect();
    assert_eq!(sources, vec!["abc", "def"]);
    let targets: Vec<&String> = pairs.iter().map(|p| &p.1).collect();
    assert_ne!(targets[0], targets[1]);
    for t in &targets {
        assert!(!declared.contains(t));
        assert!(!avoid.contains(t));
    }
}

#[test]
fn generated_names_avoid_every_listed_name() {
    let code = "let a = 1;";
    let module = parse_program(code).ok().expect("input parses");
    let declared = vec!["a".to_string()];
    // the first candidates a grower would try, handed in as names to avoid
    let avoid = vec!["_x".to_string(), "_xx".to_string(), "_xxx".to_string()];
    let (pairs, _text) = obfuscate_module(module, &declared, &avoid).ok().expect("output serializes");
    assert_eq!(pairs.len(), 1);
    assert!(!avoid.contains(&pairs[0].1));
    assert_ne!(pairs[0].1, "a");
}
