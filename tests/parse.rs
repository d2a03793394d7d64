use gon_rs::{Gon, GonError};

#[test]
fn parse_gon() {
    let gon1 = Gon::parse("    
            whirly_widgets 10
            twirly_widgets 15
            girly_widgets 4
            burly_widgets 1
        ").unwrap();
    println!("{:#?}", gon1);
    assert_eq!(gon1.index_key("girly_widgets").get::<i32>(), 4);

    let gon2 = Gon::parse(r#"    
            big_factory {
                location "New York City"
            
                whirly_widgets 8346
                twirly_widgets 854687
                girly_widgets 44336
                burly_widgets 2673
            }
            
            little_factory {
                location "My Basement"
            
                whirly_widgets 10
                twirly_widgets 15
                girly_widgets 4
                burly_widgets 1
            }
        "#).unwrap();
    println!("{:#?}", gon2);
    assert_eq!(gon2.index_key("little_factory").index_key("twirly_widgets").get::<i32>(), 15);

    let gon3 = Gon::parse("    
            weekdays [Monday Tuesday Wednesday Thursday Friday Saturday Sunday]
        ").unwrap();
    println!("{:#?}", gon3);
    assert_eq!(gon3.index_key("weekdays").index_at(2).str(), "Wednesday")
}

#[test]
fn json_gon() {
    let gon1 = Gon::parse(r#"
        {
            "Accept-Language": "en-US,en;q=0.8",
            "Host": "headers.jsontest.com",
            "Accept-Charset": "ISO-8859-1,utf-8;q=0.7,*;q=0.3",
            "Accept": "text/html,application/xhtml+xml,application/xml;q=0.9,*/*;q=0.8"
         }
        "#).unwrap();
    println!("{:#?}", gon1);
    assert_eq!(gon1.index_key("Accept-Charset").str(), "ISO-8859-1,utf-8;q=0.7,*;q=0.3");

    let gon2 = Gon::parse(r#"
        [
            {
                "_id": "5973782bdb9a930533b05cb2",
                "isActive": true,
                "balance": "$1,446.35",
                "age": 32,
                "eyeColor": "green",
                "name": "Logan Keller",
                "gender": "male",
                "company": "ARTIQ",
                "email": "logankeller@artiq.com",
                "phone": "+1 (952) 533-2258",
                "friends": [
                    {
                        "id": 0,
                        "name": "Colon Salazar"
                    },
                    {
                        "id": 1,
                        "name": "French Mcneil"
                    },
                    {
                        "id": 2,
                        "name": "Carol Martin"
                    }
                ],
                "favoriteFruit": "banana"
            }
        ]
        "#).unwrap();
    println!("Json Gon 2: {:#?}", gon2);
    assert_eq!(gon2.index_at(0).index_key("phone").str(), "+1 (952) 533-2258");
}

#[test]
fn single_values() {
    assert_eq!(Gon::parse("123.456").unwrap().str().parse::<f32>().unwrap(), 123.456);
    assert_eq!(Gon::parse(r#"
            "Hello World"
        "#).unwrap().str(), "Hello World");

    // This should be recognized as a map, not as a single value:
    let obj = Gon::parse(r#"
            Hello World
        "#).unwrap();
    assert_eq!(obj.index_key("Hello").str(), "World");
}

fn err_of(text: &str) -> GonError {
    match Gon::parse(text) {
        Ok(g) => panic!("expected an error, got {:?}", g),
        Err(e) => e,
    }
}

#[test]
fn duplicate_keys_are_refused() {
    assert_eq!(err_of("{ a 1 a 2 }"), GonError::DuplicateKey("a".to_string()));
    assert_eq!(err_of("a 1 a 2"), GonError::DuplicateKey("a".to_string()));
}

#[test]
fn bare_number_is_a_value() {
    assert_eq!(Gon::parse("123.456").unwrap().str(), "123.456");
}

#[test]
fn key_and_value_make_an_object() {
    let g = Gon::parse("whirly_widgets 10").unwrap();
    assert!(matches!(&g, Gon::Object(e) if e.len() == 1));
    assert_eq!(g.index_key("whirly_widgets").str(), "10");
}

#[test]
fn bare_array_has_three_values() {
    let g = Gon::parse("[A B C]").unwrap();
    match &g {
        Gon::Array(items) => {
            assert_eq!(items.len(), 3);
            assert_eq!(items[0].str(), "A");
            assert_eq!(items[1].str(), "B");
            assert_eq!(items[2].str(), "C");
        }
        other => panic!("not an array: {:?}", other),
    }
}

#[test]
fn comment_after_key_is_skipped() {
    let g = Gon::parse("{ b # a comment\n13 }").unwrap();
    assert_eq!(g.index_key("b").str(), "13");
    let g = Gon::parse("b # a comment\n13").unwrap();
    assert_eq!(g.index_key("b").str(), "13");
}

#[test]
fn hash_inside_bare_token_is_kept() {
    assert_eq!(Gon::parse("Hashes_#inside_text#").unwrap().str(), "Hashes_#inside_text#");
    let g = Gon::parse("k Hashes_#inside_or_next_to#").unwrap();
    assert_eq!(g.index_key("k").str(), "Hashes_#inside_or_next_to#");
}

#[test]
fn unmatched_bracket_and_quote() {
    assert_eq!(err_of("[a b"), GonError::ClosingBracketExpected);
    assert_eq!(err_of("k [a b"), GonError::ClosingBracketExpected);
    assert_eq!(err_of("\"abc"), GonError::QuoteExpected);
    assert_eq!(err_of("k \"abc"), GonError::QuoteExpected);
}

#[test]
fn escapes_decode() {
    let g = Gon::parse(r#""\b\f\n\r\t\"\\\/""#).unwrap();
    assert_eq!(g.str(), "\u{8}\u{c}\n\r\t\"\\/");
    let g = Gon::parse(r#"k a\tb"#).unwrap();
    assert_eq!(g.index_key("k").str(), "a\tb");
}

#[test]
fn escape_errors() {
    assert_eq!(err_of("\"\\u0041\""), GonError::HexEscapesNotSupported);
    assert_eq!(err_of(r#""\q""#), GonError::UnexpectedEscapeCharacter('q'));
    assert_eq!(err_of("\"\\"), GonError::EscapeCharacterExpected);
}

#[test]
fn whitespace_and_comments_are_invisible() {
    let plain = Gon::parse("a 1 b [x y]").unwrap();
    let noisy = Gon::parse("# head\n  \t a # one\n\n 1 \r\n# two\n b # three\n [ # four\n x\n # five\n y ] # tail").unwrap();
    assert_eq!(plain.index_key("a").str(), noisy.index_key("a").str());
    assert_eq!(plain.index_key("b").index_at(1).str(), noisy.index_key("b").index_at(1).str());
    assert_eq!(noisy.index_key("b").index_at(0).str(), "x");
}

#[test]
fn structural_errors() {
    assert_eq!(err_of("{ a 1"), GonError::ClosingBraceExpected);
    assert_eq!(err_of("{ a"), GonError::ValueExpected);
    assert_eq!(err_of("a b }"), GonError::EndOfFileExpected);
    assert_eq!(err_of("[ : ]"), GonError::UnexpectedCharacter(':'));
    assert_eq!(err_of("[ } ]"), GonError::UnexpectedCharacter('}'));
}

#[test]
fn separators_are_optional() {
    let a = Gon::parse("{ x: 1, y: [1, 2,], }").unwrap();
    assert_eq!(a.index_key("x").str(), "1");
    assert_eq!(a.index_key("y").index_at(1).str(), "2");
}

#[test]
fn empty_document_is_an_empty_object() {
    assert!(matches!(Gon::parse("  # nothing\n").unwrap(), Gon::Object(e) if e.is_empty()));
}

#[test]
fn deep_clone_copies_everything() {
    let g = Gon::parse("a { b [1 2] c \"x y\" }").unwrap();
    let c = g.deep_clone();
    assert_eq!(c.index_key("a").index_key("b").index_at(1).str(), "2");
    assert_eq!(c.index_key("a").index_key("c").str(), "x y");
}

#[test]
fn canonical_text_reads_back() {
    let g = Gon::parse(r#"{"k"["a""b\"c"]"m"{"x""\\"}}"#).unwrap();
    assert_eq!(g.index_key("k").index_at(0).str(), "a");
    assert_eq!(g.index_key("k").index_at(1).str(), "b\"c");
    assert_eq!(g.index_key("m").index_key("x").str(), "\\");
}

#[test]
fn spaced_text_reads_back() {
    let g = Gon::parse("{\"k\" [\"a\" \"b\"] \"m\" {\"x\" \"y\"}}").unwrap();
    assert_eq!(g.index_key("k").index_at(1).str(), "b");
    assert_eq!(g.index_key("m").index_key("x").str(), "y");
    let g = Gon::parse(" # c\n{\"k\"\n# c\n[\"a\"\n# c\n\"b\"]}\n").unwrap();
    assert_eq!(g.index_key("k").index_at(0).str(), "a");
}

#[test]
fn string_at_end_of_input() {
    let mut p = gon_rs::parser::StrParser::new("");
    assert_eq!(p.parse_string(), Err(GonError::StringExpected));
    assert_eq!(p.peek(), None);
}
