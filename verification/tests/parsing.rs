use std::rc::Rc;

use reburn::selector::Selector;
use reburn::selector_tokens::Token;
use reburn::parse_selector;

fn w(s: &str) -> Selector {
    Selector::Word(s.to_string())
}

fn n(s: Selector) -> Selector {
    Selector::Not(Rc::new(s))
}

#[test]
fn test_tokens() {
    assert_eq!(
        Token::many_from("word.rs"),
        Some(vec![Token::Word("word.rs".to_string())])
    );
    assert_eq!(
        Token::many_from("***"),
        Some(vec![Token::WildCardDepth, Token::WildCard])
    );
    assert_eq!(
        Token::many_from("./.rs"),
        Some(vec![
            Token::Word(".".to_string()),
            Token::Slash,
            Token::Word(".rs".to_string()),
        ])
    );
    assert_eq!(
        Token::many_from("../.."),
        Some(vec![
            Token::Word("..".to_string()),
            Token::Slash,
            Token::Word("..".to_string()),
        ])
    );
    assert_eq!(
        Token::many_from("..test{.rs,.go}"),
        Some(vec![
            Token::Word("..test".to_string()),
            Token::Open,
            Token::Word(".rs".to_string()),
            Token::Comma,
            Token::Word(".go".to_string()),
            Token::Close,
        ])
    );
    assert_eq!(Token::many_from(""), None);
    assert_eq!(
        Token::many_from("/**/something/file.*"),
        Some(vec![
            Token::Slash,
            Token::WildCardDepth,
            Token::Slash,
            Token::Word("something".to_string()),
            Token::Slash,
            Token::Word("file.".to_string()),
            Token::WildCard,
        ])
    );
    assert_eq!(
        Token::many_from("{Cargo.toml,*.rs}/"),
        Some(vec![
            Token::Open,
            Token::Word("Cargo.toml".to_string()),
            Token::Comma,
            Token::WildCard,
            Token::Word(".rs".to_string()),
            Token::Close,
            Token::Slash,
        ])
    );
    assert_eq!(
        Token::many_from("!test!{c,!d}"),
        Some(vec![
            Token::Not,
            Token::Word("test".to_string()),
            Token::Not,
            Token::Open,
            Token::Word("c".to_string()),
            Token::Comma,
            Token::Not,
            Token::Word("d".to_string()),
            Token::Close,
        ])
    );
}

#[test]
fn test_selector() {
    assert_eq!(parse_selector("word.rs"), Ok(w("word.rs")));
    assert_eq!(
        parse_selector("word.rs/*"),
        Ok(Selector::Route(vec![w("word.rs"), Selector::WildCard]))
    );
    assert_eq!(
        parse_selector("**/*"),
        Ok(Selector::Route(vec![Selector::WildCardDepth, Selector::WildCard]))
    );
    assert!(matches!(parse_selector("**//*"), Err(_)));
    assert!(matches!(parse_selector("{,a}"), Err(_)));
    assert!(matches!(parse_selector(""), Err(_)));
    assert!(matches!(parse_selector("{}"), Err(_)));
    assert_eq!(
        parse_selector("{ab,cd}/c"),
        Ok(Selector::Route(vec![
            Selector::Option(vec![w("ab"), w("cd")]),
            w("c"),
        ]))
    );
    assert_eq!(
        parse_selector("{a,b}"),
        Ok(Selector::Option(vec![w("a"), w("b")]))
    );
    assert_eq!(
        parse_selector("a,b/c"),
        Ok(Selector::Option(vec![
            w("a"),
            Selector::Route(vec![w("b"), w("c")]),
        ]))
    );
    assert_eq!(
        parse_selector("**/{{ab,cd},*d}.rs"),
        Ok(Selector::Route(vec![
            Selector::WildCardDepth,
            Selector::Concat(vec![
                Selector::Option(vec![
                    Selector::Option(vec![w("ab"), w("cd")]),
                    Selector::Concat(vec![Selector::WildCard, w("d")]),
                ]),
                w(".rs"),
            ]),
        ]))
    );
    assert_eq!(
        parse_selector("ab/{cd,ef}/{g}"),
        Ok(Selector::Route(vec![
            w("ab"),
            Selector::Option(vec![w("cd"), w("ef")]),
            w("g"),
        ]))
    );
    assert_eq!(
        parse_selector("{ab/cd/*,./**}"),
        Ok(Selector::Option(vec![
            Selector::Route(vec![w("ab"), w("cd"), Selector::WildCard]),
            Selector::Route(vec![w("."), Selector::WildCardDepth]),
        ]))
    );
    assert_eq!(
        parse_selector("a/b{c,d}"),
        Ok(Selector::Route(vec![
            w("a"),
            Selector::Concat(vec![w("b"), Selector::Option(vec![w("c"), w("d")])]),
        ]))
    );
    assert_eq!(
        parse_selector("a/b/{c,d}"),
        Ok(Selector::Route(vec![
            w("a"),
            w("b"),
            Selector::Option(vec![w("c"), w("d")]),
        ]))
    );
    assert!(matches!(parse_selector("a/!b/!{c,d}!"), Err(_)));
    assert_eq!(
        parse_selector("a/!b/!{c,d}"),
        Ok(Selector::Route(vec![
            w("a"),
            n(w("b")),
            n(Selector::Option(vec![w("c"), w("d")])),
        ]))
    );
    assert_eq!(
        parse_selector("!{a,*c}"),
        Ok(n(Selector::Option(vec![
            w("a"),
            Selector::Concat(vec![Selector::WildCard, w("c")]),
        ])))
    );
}

#[test]
fn parse_error_reasons() {
    assert_eq!(parse_selector(""), Err("Invalid pattern"));
    assert_eq!(parse_selector("{}"), Err("Empty"));
    assert_eq!(parse_selector("{a"), Err("Unclosed group"));
    assert_eq!(parse_selector("a}"), Err("No opened group"));
    assert_eq!(parse_selector("/a"), Err("Nothing before the slash"));
    assert_eq!(parse_selector("**//*"), Err("Nothing before the slash"));
    assert_eq!(parse_selector(",a"), Err("Nothing before the comma"));
    assert_eq!(parse_selector("{,a}"), Err("Nothing before the comma"));
    assert_eq!(parse_selector("!"), Err("Unused negation mark"));
    assert_eq!(parse_selector("a/!b/!{c,d}!"), Err("Unused negation mark"));
}

fn words_of(sel: &Selector, out: &mut Vec<String>) {
    match sel {
        Selector::Option(v) | Selector::Route(v) | Selector::Concat(v) => {
            for child in v {
                words_of(child, out);
            }
        }
        Selector::Not(inner) => words_of(inner, out),
        Selector::Word(word) => out.push(word.clone()),
        Selector::WildCard | Selector::WildCardDepth => {}
    }
}

#[test]
fn parse_keeps_words() {
    // the tree's literal atoms are the pattern's words, in order
    let sel = parse_selector("a/!b{c,d}/**/*.rs").unwrap();
    let mut words = Vec::new();
    words_of(&sel, &mut words);
    assert_eq!(words, vec!["a", "b", "c", "d", ".rs"]);
}

#[test]
fn tokens_reconstruct_pattern() {
    // the literal texts of the tokens, concatenated in order, give the
    // pattern back
    let pattern = "file.*{a,b}/**/!x";
    let tokens = Token::many_from(pattern).unwrap();
    let mut rebuilt = String::new();
    for t in &tokens {
        match t {
            Token::WildCard => rebuilt.push('*'),
            Token::WildCardDepth => rebuilt.push_str("**"),
            Token::Word(s) => rebuilt.push_str(s),
            Token::Open => rebuilt.push('{'),
            Token::Close => rebuilt.push('}'),
            Token::Comma => rebuilt.push(','),
            Token::Slash => rebuilt.push('/'),
            Token::Not => rebuilt.push('!'),
        }
    }
    assert_eq!(rebuilt, pattern);
}

#[test]
fn token_steps_merge_wildcards() {
    // a * merges with a pending * into **; any other pending token is
    // flushed out
    let (push, next) = Token::next('*', Some(Token::WildCard));
    assert_eq!(push, None);
    assert_eq!(next, Token::WildCardDepth);
    let (push, next) = Token::next('*', Some(Token::Word("a".to_string())));
    assert_eq!(push, Some(Token::Word("a".to_string())));
    assert_eq!(next, Token::WildCard);
    let (push, next) = Token::next('b', Some(Token::Word("a".to_string())));
    assert_eq!(push, None);
    assert_eq!(next, Token::Word("ab".to_string()));
}
