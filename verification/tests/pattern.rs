use awatchlog::pattern::{contains_directive, directive, needs_escape, to_pattern, PERCENT};

#[test]
fn directives_have_their_fragments() {
    assert_eq!(PERCENT, '%');
    assert_eq!(directive('Y'), Some(r"\d{4}"));
    assert_eq!(directive('m'), Some(r"\d{2}"));
    assert_eq!(directive('d'), Some(r"\d{2}"));
    assert_eq!(directive('e'), Some(r"[ \d]\d"));
    assert_eq!(directive('j'), Some(r"\d{3}"));
    assert_eq!(directive('b'), Some("[A-Za-z]{3}"));
    assert_eq!(directive('a'), Some("[A-Za-z]{3}"));
    assert_eq!(directive('B'), Some("[A-Za-z]+"));
    assert_eq!(directive('A'), Some("[A-Za-z]+"));
    assert_eq!(directive('H'), Some(r"\d{2}"));
    assert_eq!(directive('I'), Some(r"\d{2}"));
    assert_eq!(directive('M'), Some(r"\d{2}"));
    assert_eq!(directive('S'), Some(r"\d{2}"));
    assert_eq!(directive('p'), Some("[AaPp][Mm]"));
    assert_eq!(directive('f'), Some(r"\d+"));
    assert_eq!(directive('z'), Some(r"[+-]\d{2}:?\d{2}"));
    assert_eq!(directive('Z'), Some("[A-Za-z]+"));
    assert_eq!(directive('t'), Some(r"\t"));
    assert_eq!(directive('n'), Some(r"\n"));
    assert_eq!(directive('%'), Some("%"));
    assert_eq!(directive('q'), None);
    assert_eq!(directive(' '), None);
}

#[test]
fn meta_characters_are_escaped() {
    for c in ['\\', '.', '+', '*', '?', '(', ')', '|', '[', ']', '{', '}', '^', '$', '#', '&', '-', '~'] {
        assert!(needs_escape(c));
    }
    for c in ['a', 'Z', '0', ' ', ':', '/', '%', ',', 'T'] {
        assert!(!needs_escape(c));
    }
}

#[test]
fn formats_become_patterns() {
    assert_eq!(to_pattern(""), "");
    assert_eq!(to_pattern("%b %d %H:%M:%S"), r"[A-Za-z]{3} \d{2} \d{2}:\d{2}:\d{2}");
    assert_eq!(to_pattern("%Y/%m/%d %H:%M:%S"), r"\d{4}/\d{2}/\d{2} \d{2}:\d{2}:\d{2}");
    assert_eq!(to_pattern("%Y-%m-%dT%H:%M:%S%z"), r"\d{4}\-\d{2}\-\d{2}T\d{2}:\d{2}:\d{2}[+-]\d{2}:?\d{2}");
    assert_eq!(to_pattern("[%d/%b/%Y]"), r"\[\d{2}/[A-Za-z]{3}/\d{4}\]");
    assert_eq!(to_pattern("%H.%M"), r"\d{2}\.\d{2}");
}

#[test]
fn unknown_directives_stand_for_themselves() {
    assert_eq!(to_pattern("100%"), "100%");
    assert_eq!(to_pattern("%q"), "%q");
    assert_eq!(to_pattern("%%Y"), "%Y");
    assert_eq!(to_pattern("%%%Y"), r"%\d{4}");
    assert_eq!(to_pattern("%."), r"%\.");
    assert_eq!(to_pattern("%t%n"), r"\t\n");
}

#[test]
fn directives_are_found_in_a_format() {
    assert!(contains_directive("%Y-%m-%d", 'Y'));
    assert!(contains_directive("%Y-%m-%d", 'd'));
    assert!(!contains_directive("%Y-%m-%d", 'z'));
    assert!(!contains_directive("%b %d %H:%M:%S", 'Y'));
    // `%%` is a literal percent sign: no directive `%Y` follows it.
    assert!(!contains_directive("%%Y", 'Y'));
    assert!(contains_directive("%%%Y", 'Y'));
    assert!(!contains_directive("Y", 'Y'));
    assert!(!contains_directive("", 'Y'));
}
