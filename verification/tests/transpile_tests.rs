use kleenexp::{Error, Kleenexp, RegexFlavor};

fn transpile(pattern: &str) -> Result<String, Error> {
    kleenexp::transpile(pattern, RegexFlavor::Python)
}

#[test]
fn no_braces() {
    assert_eq!(transpile("abc def!").unwrap(), "abc def!");
}

#[test]
fn empty_braces() {
    assert_eq!(transpile("[]").unwrap(), "");
}

#[test]
fn macros() {
    assert_eq!(transpile("[#letter]").unwrap(), "[A-Za-z]");
    assert_eq!(transpile("[#integer]").unwrap(), "-?\\d+");
}

#[test]
fn escapes() {
    assert_eq!(transpile("\n").unwrap(), "\\n");
    assert_eq!(transpile("[#crlf]").unwrap(), "\\r\\n");
    assert_eq!(transpile("\r\n").unwrap(), "\\r\\n");
    assert_eq!(transpile("['\r\n']").unwrap(), "\\r\\n");
    assert_eq!(
        transpile("[#start_string][#newline][#end_string]").unwrap(),
        "\\A(?:[\\n\\r\\u2028\\u2029]|\\r\\n)\\Z"
    );
}

#[test]
fn empty_op() {
    assert_eq!(transpile("[capture 3-5 []]").ok(), None);
}

#[test]
fn code_comment() {
    assert_eq!(transpile("[comment 'hi']").unwrap(), "");
}

#[test]
fn def_macro() {
    assert_eq!(
        transpile("[#x=[#0..9] #x #x #x]").unwrap(),
        r"[0-9][0-9][0-9]"
    );
}

#[test]
fn recursive_dog_macro() {
    let expected = "Yo dawg, I heard you like Yo dawg, I heard you like this, so I put some of this in your regex so you can recurse while you recurse, so I put some Yo dawg, I heard you like this, so I put some of this in your regex so you can recurse while you recurse in your Yo dawg, I heard you like this, so I put some of this in your regex so you can recurse while you recurse so you can recurse while you recurse";
    assert_eq!(
        transpile(
            r#"[#recursive_dawg][
                #yo=["Yo dawg, I heard you like "]
                #so_i_put=[", so I put some "]
                #in_your=[" in your "]
                #so_you_can=[" so you can "]
                #while_you=[" while you "]
                #dawg=[#yo "this" #so_i_put "of this" #in_your "regex" #so_you_can "recurse" #while_you "recurse"]
                #recursive_dawg=[#yo #dawg #so_i_put #dawg #in_your #dawg #so_you_can "recurse" #while_you "recurse"]
            ]"#
        )
        .unwrap(),
        expected
    );
}

#[test]
fn lookahead() {
    assert_eq!(transpile("[lookahead 'a']a").unwrap(), "(?=a)a");
}

#[test]
fn rust_regex() {
    let re = regex::Regex::kleenexp("[capture #word_boundary #token #word_boundary]");
    let result: String = re.unwrap().captures("123,user12,150.34").unwrap()[0].to_string();
    assert_eq!(result, "user12");
}

#[test]
fn quantifiers_render_minimal() {
    assert_eq!(transpile("[0+ 'a']").unwrap(), "a*");
    assert_eq!(transpile("[1+ 'a']").unwrap(), "a+");
    assert_eq!(transpile("[0-1 'a']").unwrap(), "a?");
    assert_eq!(transpile("[2+ 'a']").unwrap(), "a{2,}");
    assert_eq!(transpile("[3 'a']").unwrap(), "a{3}");
    assert_eq!(transpile("[3-3 'a']").unwrap(), "a{3}");
    assert_eq!(transpile("[2-5 'a']").unwrap(), "a{2,5}");
    assert_eq!(transpile("[0-0 'a']").unwrap(), "");
}

#[test]
fn quantified_multichar_literal_wraps() {
    assert_eq!(transpile("[2+ 'ab']").unwrap(), "(?:ab){2,}");
    // A literal that escapes to more than one character wraps too.
    assert_eq!(transpile("[2 '.']").unwrap(), "(?:\\.){2}");
}

#[test]
fn float_macro() {
    let float = transpile("[#float]").unwrap();
    let re = regex::Regex::new(&format!("^(?:{})$", float)).unwrap();
    assert!(re.is_match("-12.5e3"));
    assert!(re.is_match("3.25"));
    assert!(re.is_match(".5"));
    assert!(re.is_match("1e9"));
    assert!(!re.is_match("abc"));
    assert!(!re.is_match("."));
}

#[test]
fn alternation_of_singles_fuses_sorted() {
    assert_eq!(transpile("['b' | 'a' | #digit]").unwrap(), "[\\dab]");
    assert_eq!(transpile("[#hex_digit]").unwrap(), "[A-F\\da-f]");
    assert_eq!(transpile("[1+ #hex_digit]").unwrap(), "[A-F\\da-f]+");
}

#[test]
fn alternation_of_longer_literals_stays() {
    assert_eq!(transpile("['ab' | 'c']").unwrap(), "ab|c");
    assert_eq!(transpile("x['ab' | 'c']y").unwrap(), "x(?:ab|c)y");
}

#[test]
fn double_inversion_is_identity() {
    assert_eq!(transpile("[not #digit]").unwrap(), "\\D");
    assert_eq!(transpile("[not not #digit]").unwrap(), "\\d");
    assert_eq!(transpile("[not 'a']").unwrap(), "[^a]");
    assert_eq!(transpile("[not not 'a']").unwrap(), "a");
    assert_eq!(
        transpile("[not not #letter]").unwrap(),
        transpile("[#letter]").unwrap()
    );
}

#[test]
fn short_names_match_canonical_names() {
    let pairs = [
        ("lf", "linefeed"),
        ("cr", "carriage_return"),
        ("t", "tab"),
        ("d", "digit"),
        ("l", "letter"),
        ("lc", "lowercase"),
        ("uc", "uppercase"),
        ("s", "space"),
        ("tc", "token_character"),
        ("wb", "word_boundary"),
        ("a", "any"),
        ("aaa", "any_at_all"),
        ("n", "newline"),
        ("nc", "newline_character"),
        ("crlf", "windows_newline"),
        ("ss", "start_string"),
        ("es", "end_string"),
        ("sl", "start_line"),
        ("el", "end_line"),
        ("q", "quote"),
        ("dq", "double_quote"),
        ("lb", "left_brace"),
        ("rb", "right_brace"),
        ("int", "integer"),
        ("ds", "digits"),
        ("hexd", "hex_digit"),
        ("hexn", "hex_number"),
        ("c0", "capture_0+_any"),
        ("c1", "capture_1+_any"),
    ];
    for (short, canonical) in pairs {
        let a = transpile(&format!("[#{}]", short)).unwrap();
        let b = transpile(&format!("[#{}]", canonical)).unwrap();
        assert_eq!(a, b, "short name #{} differs from #{}", short, canonical);
    }
}

#[test]
fn derived_macros() {
    assert_eq!(transpile("[#digits]").unwrap(), "\\d+");
    assert_eq!(transpile("[#decimal]").unwrap(), "-?\\d+(?:\\.\\d+)?");
    assert_eq!(transpile("[#token]").unwrap(), "[A-Z_a-z]\\w*");
    assert_eq!(transpile("[#letters]").unwrap(), "[A-Za-z]+");
    assert_eq!(transpile("[#capture_0+_any]").unwrap(), "(.*)");
}

#[test]
fn boundaries() {
    assert_eq!(transpile("[#start_line]a[#end_line]").unwrap(), "^a$");
    assert_eq!(transpile("[#word_boundary]").unwrap(), "\\b");
    assert_eq!(transpile("[not #word_boundary]").unwrap(), "\\B");
}

#[test]
fn any_and_never() {
    assert_eq!(transpile("[#any]").unwrap(), ".");
    assert_eq!(transpile("[not #any]").unwrap(), "(?!).");
}

#[test]
fn captures_per_flavor() {
    assert_eq!(transpile("[capture 'a']").unwrap(), "(a)");
    assert_eq!(transpile("[capture:hi 'a']").unwrap(), "(?P<hi>a)");
    assert_eq!(
        kleenexp::transpile("[capture:hi 'a']", RegexFlavor::Javascript).unwrap(),
        "(?<hi>a)"
    );
    assert_eq!(
        kleenexp::transpile("[capture:hi 'a']", RegexFlavor::Rust).unwrap(),
        "(?P<hi>a)"
    );
    assert_eq!(
        kleenexp::transpile("[capture:hi 'a']", RegexFlavor::RustFancy).unwrap(),
        "(?P<hi>a)"
    );
}

#[test]
fn lookarounds() {
    assert_eq!(transpile("[lookbehind 'a']").unwrap(), "(?<=a)");
    assert_eq!(transpile("[not lookahead 'a']").unwrap(), "(?!a)");
    assert_eq!(transpile("[not lookbehind 'a']").unwrap(), "(?<!a)");
}

#[test]
fn comment_body_is_not_compiled() {
    assert_eq!(transpile("[comment #no_such_macro]").unwrap(), "");
}

#[test]
fn error_kinds() {
    assert!(matches!(transpile("["), Err(Error::ParseError(_))));
    assert!(matches!(transpile("['']"), Err(Error::ParseError(_))));
    assert!(matches!(
        transpile("[#no_such_macro]"),
        Err(Error::CompileError(_))
    ));
    assert!(matches!(
        transpile("[frobnicate 'a']"),
        Err(Error::CompileError(_))
    ));
    assert!(matches!(
        transpile("[not:x 'a']"),
        Err(Error::CompileError(_))
    ));
    assert!(matches!(
        transpile("[capture:HI 'a']"),
        Err(Error::CompileError(_))
    ));
    assert!(matches!(
        transpile("[#9..a]"),
        Err(Error::CompileError(_))
    ));
    assert!(matches!(
        transpile("[not 'ab']"),
        Err(Error::CompileError(_))
    ));
    assert!(matches!(
        transpile("[#x=['a'] #x=['b'] #x]"),
        Err(Error::CompileError(_))
    ));
}

#[test]
fn whitespace_in_brackets_is_insignificant() {
    assert_eq!(transpile("[ #letter ]").unwrap(), transpile("[#letter]").unwrap());
    assert_eq!(
        transpile("[  1+  #digit  ]").unwrap(),
        transpile("[1+#digit]").unwrap()
    );
    assert_eq!(
        transpile("[ 'a' | 'b' ]").unwrap(),
        transpile("['a'|'b']").unwrap()
    );
}

#[test]
fn plain_pattern_roundtrip() {
    assert_eq!(transpile("hello world").unwrap(), "hello world");
    assert_eq!(transpile("a.b").unwrap(), "a\\.b");
    assert_eq!(transpile("x+y").unwrap(), "x\\+y");
}

#[test]
fn definition_groups_feed_their_surroundings() {
    // A bracket group holding only definitions contributes them to the
    // surrounding scope, wherever it stands.
    assert_eq!(transpile("[#x=['a']][#x #x]").unwrap(), "aa");
    assert_eq!(transpile("[#x #x][#x=['b']]").unwrap(), "bb");
}

#[test]
fn macro_scoping() {
    // An inner definition shadows an outer one.
    assert_eq!(
        transpile("[#x=['a'] #x [#x=['b'] #x] #x]").unwrap(),
        "aba"
    );
    // A definition may use an earlier sibling.
    assert_eq!(transpile("[#x=['a'] #y=[#x 'b'] #y]").unwrap(), "ab");
    // A definition is not visible outside its bracket group.
    assert!(transpile("[[#x=['a'] #x]][#x]").is_err());
}
