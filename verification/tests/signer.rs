use blawg::article::Article;
use blawg::auth::{
    authorization_header, canonical_params, create_request_hmac, hex_encode, sign_request,
};
use blawg::order::{bytes_precede, sort_strs, str_precedes};

fn article(title: &str, content: &str) -> Article {
    Article::new(String::from(title), String::from(content))
}

#[test]
fn canonical_text_is_sorted_concatenation() {
    let a = article("b", "a");
    assert_eq!(canonical_params(&a, &vec!["content", "title"]), "abcontenttitle");
}

#[test]
fn canonical_text_of_nothing_is_empty() {
    assert_eq!(canonical_params(&article("", ""), &vec![]), "");
}

#[test]
fn canonical_order_is_by_bytes() {
    // upper case before lower case, and any ASCII before what takes two bytes
    let a = article("Zebra", "apple");
    assert_eq!(canonical_params(&a, &vec!["content", "title"]), "Zebraapplecontenttitle");
    let b = article("\u{e9}", "z");
    assert_eq!(canonical_params(&b, &vec!["~", "a"]), "az~\u{e9}");
}

#[test]
fn canonical_text_ignores_the_order_of_the_keys() {
    let a = article("Hello", "World");
    assert_eq!(
        canonical_params(&a, &vec!["title", "content", "article"]),
        canonical_params(&a, &vec!["article", "content", "title"])
    );
    assert_eq!(
        canonical_params(&article("World", "Hello"), &vec!["content", "title"]),
        canonical_params(&a, &vec!["content", "title"])
    );
}

#[test]
fn create_flow_token_is_pinned() {
    let a = article("Hello", "World");
    assert_eq!(canonical_params(&a, &vec!["content", "title"]), "HelloWorldcontenttitle");
    assert_eq!(
        create_request_hmac(&a, vec!["content", "title"], "k"),
        "hmac 4135ff6fad7f0441ab6402e65e2dabdfe92a60295c9e7613fb176da97ae8d8c1"
    );
}

#[test]
fn update_flow_token_is_pinned() {
    let a = article("Hello", "World");
    assert_eq!(
        create_request_hmac(&a, vec!["article", "content", "title"], "k"),
        "hmac a60a58df7d697fb66d94dee82e8ef49a1c761ce6bd927f02fc286fc721df6152"
    );
}

#[test]
fn token_of_the_empty_article_depends_on_the_key() {
    let a = article("", "");
    assert_eq!(
        create_request_hmac(&a, vec![], "k"),
        "hmac 8bb990c40a7d61cb97597a942125025be50ac8beb74436e3735b98893a7f6620"
    );
    assert_eq!(
        create_request_hmac(&a, vec![], "secret"),
        "hmac f9e66e179b6747ae54108f82f8ade8b3c25d76fd30afde6c395822c530196169"
    );
}

#[test]
fn key_longer_than_a_block_is_accepted() {
    let a = article("Hello", "World");
    assert_eq!(
        create_request_hmac(
            &a,
            vec!["content", "title"],
            "a key that is longer than the sixty-four bytes of one block of SHA-256"
        ),
        "hmac c37f4a56421b8e6d5f49a27129113e7c29cf90f01e08c1f2c0d92010be85e09a"
    );
}

#[test]
fn token_has_scheme_and_sixty_four_digits() {
    let token = create_request_hmac(&article("t", "c"), vec!["content", "title"], "k");
    assert!(token.starts_with("hmac "));
    assert_eq!(token.len(), 5 + 64);
    assert!(token[5..].chars().all(|c| c.is_ascii_digit() || ('a'..='f').contains(&c)));
}

#[test]
fn signing_twice_gives_the_same_token() {
    let a = article("Hello", "World");
    let first = create_request_hmac(&a, vec!["content", "title"], "k");
    let second = create_request_hmac(&a.clone(), vec!["content", "title"], "k");
    assert_eq!(first, second);
    assert_eq!(sign_request(&a, &vec!["content", "title"], "k"), Some(first));
}

#[test]
fn changing_one_character_changes_the_token() {
    let base = create_request_hmac(&article("Hello", "World"), vec!["content", "title"], "k");
    let changed = [
        create_request_hmac(&article("Hellp", "World"), vec!["content", "title"], "k"),
        create_request_hmac(&article("hello", "World"), vec!["content", "title"], "k"),
        create_request_hmac(&article("Hello", "World!"), vec!["content", "title"], "k"),
        create_request_hmac(&article("Hello", "Xorld"), vec!["content", "title"], "k"),
        create_request_hmac(&article("Hello", "World"), vec!["content", "titlf"], "k"),
        create_request_hmac(&article("Hello", "World"), vec!["bontent", "title"], "k"),
        create_request_hmac(&article("Hello", "World"), vec!["content", "title"], "l"),
    ];
    for (i, token) in changed.iter().enumerate() {
        assert_ne!(*token, base);
        for other in changed.iter().skip(i + 1) {
            assert_ne!(token, other);
        }
    }
}

#[test]
fn hex_is_lowercase_two_digits_per_byte() {
    assert_eq!(hex_encode(&[0x00, 0x0f, 0xa0, 0xff, 0x5c]), "000fa0ff5c");
    assert_eq!(hex_encode(&[0x01, 0x23, 0x45, 0x67, 0x89, 0xab, 0xcd, 0xef]), "0123456789abcdef");
    assert_eq!(hex_encode(&[]), "");
}

#[test]
fn authorization_value_has_the_scheme_before_the_code() {
    assert_eq!(authorization_header(&[0xbe, 0xef]), "hmac beef");
    assert_eq!(authorization_header(&[]), "hmac ");
}

#[test]
fn byte_order_is_lexicographic() {
    assert!(bytes_precede(b"", b""));
    assert!(bytes_precede(b"", b"a"));
    assert!(!bytes_precede(b"a", b""));
    assert!(bytes_precede(b"ab", b"abc"));
    assert!(!bytes_precede(b"abc", b"ab"));
    assert!(bytes_precede(b"abc", b"abd"));
    assert!(!bytes_precede(b"abd", b"abc"));
    assert!(bytes_precede(b"abc", b"abc"));
    assert!(bytes_precede(&[0x7f], &[0x80]));
    assert!(str_precedes("Z", "a"));
    assert!(str_precedes("z", "\u{e9}"));
    assert!(!str_precedes("\u{e9}", "z"));
}

#[test]
fn sorting_keeps_every_string() {
    let sorted = sort_strs(&vec!["b", "a", "", "b", "ab", "B"]);
    assert_eq!(sorted, vec!["", "B", "a", "ab", "b", "b"]);
    let mut expected = vec!["pear", "Apple", "fig", "apple", "\u{e9}clair", "fig"];
    let sorted = sort_strs(&expected);
    expected.sort();
    assert_eq!(sorted, expected);
    assert_eq!(sort_strs(&vec![]), Vec::<&str>::new());
}
