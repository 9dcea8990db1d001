use blawg::article::Article;
use blawg::codec::{
    extract, format_article_for_file, format_file_content_to_article, string_to_article,
    DecodeError, ExtractError,
};
use blawg::marker::{Marker, CONTENT_BEGIN, DATE_BEGIN, END, TITLE_BEGIN};

fn article(title: &str, content: &str) -> Article {
    Article::new(String::from(title), String::from(content))
}

#[test]
fn document_has_the_fixed_layout() {
    let text = format_article_for_file(article("Hello", "World"));
    let expected = format!(
        "{}\nHello\n\n{}\nWorld\n\n{}\n",
        TITLE_BEGIN, CONTENT_BEGIN, DATE_BEGIN
    );
    assert_eq!(text, expected);
}

#[test]
fn new_document_has_no_title() {
    let text = format_file_content_to_article(String::from("draft"));
    let expected = format!("{}\n\n\n{}\ndraft\n\n{}\n", TITLE_BEGIN, CONTENT_BEGIN, DATE_BEGIN);
    assert_eq!(text, expected);
    assert_eq!(text, format_article_for_file(article("", "draft")));
}

#[test]
fn decode_of_encode_gives_the_article_back() {
    let a = article("A title", "First line\n\nsecond line, with \u{2588} in it");
    let decoded = string_to_article(&format_article_for_file(a.clone())).unwrap();
    assert_eq!(decoded, a);
}

#[test]
fn decode_of_empty_article() {
    let a = article("", "");
    assert_eq!(string_to_article(&format_article_for_file(a.clone())), Ok(a));
}

#[test]
fn decode_trims_the_fields() {
    let text = format!(
        "junk{}  \t A title \u{a0}\n{} \n body \n\n{}\n 2020-01-01 \n",
        TITLE_BEGIN, CONTENT_BEGIN, DATE_BEGIN
    );
    assert_eq!(string_to_article(&text), Ok(article("A title", "body")));
    assert_eq!(extract(&text, (DATE_BEGIN, END)), Ok(String::from("2020-01-01")));
}

#[test]
fn missing_content_banner_is_an_error() {
    let text = format!("{}\nT\n\n\nC\n\n{}\n", TITLE_BEGIN, DATE_BEGIN);
    assert_eq!(
        string_to_article(&text),
        Err(DecodeError::MarkerNotFound(Marker::Content))
    );
}

#[test]
fn missing_title_banner_is_an_error() {
    let text = format!("T\n\n{}\nC\n\n{}\n", CONTENT_BEGIN, DATE_BEGIN);
    assert_eq!(
        string_to_article(&text),
        Err(DecodeError::MarkerNotFound(Marker::Title))
    );
}

#[test]
fn missing_date_banner_is_an_error() {
    let text = format!("{}\nT\n\n{}\nC\n\n", TITLE_BEGIN, CONTENT_BEGIN);
    assert_eq!(
        string_to_article(&text),
        Err(DecodeError::MarkerNotFound(Marker::Date))
    );
}

#[test]
fn content_banner_before_the_title_banner_is_not_found_after_it() {
    let text = format!("{}\nC\n\n{}\n{}\nT\n", CONTENT_BEGIN, DATE_BEGIN, TITLE_BEGIN);
    assert_eq!(
        string_to_article(&text),
        Err(DecodeError::MarkerNotFound(Marker::Content))
    );
}

#[test]
fn extract_reports_which_delimiter_is_missing() {
    let text = String::from("a [b] c");
    assert_eq!(extract(&text, ("[", "]")), Ok(String::from("b")));
    assert_eq!(extract(&text, ("(", "]")), Err(ExtractError::StartNotFound));
    assert_eq!(extract(&text, ("[", ")")), Err(ExtractError::EndNotFound));
    assert_eq!(extract(&text, ("]", "[")), Err(ExtractError::EndNotFound));
    assert_eq!(extract(&text, ("a", END)), Ok(String::from("[b] c")));
}

#[test]
fn extract_takes_first_occurrence_to_next_occurrence() {
    let text = String::from("x<<1>>y<<2>>z");
    assert_eq!(extract(&text, ("<<", ">>")), Ok(String::from("1")));
    let twice = String::from("<<<<1>>");
    assert_eq!(extract(&twice, ("<<", ">>")), Ok(String::from("<<1")));
}

#[test]
fn banner_inside_the_title_cuts_it_short() {
    let title = format!("before {} after", CONTENT_BEGIN);
    let text = format_article_for_file(article(&title, "body"));
    let decoded = string_to_article(&text).unwrap();
    assert_eq!(decoded.article.title, "before");
}

#[test]
fn round_trip_over_a_corpus() {
    let fields = [
        "",
        "x",
        "Hello, world",
        "two\nlines",
        "a blank\n\nline inside",
        "\u{2588}\u{2588}\u{2588} glyphs \u{2588}",
        "tabs\tand \u{a0} inside",
        "TITLE",
        "\u{e9}t\u{e9}",
    ];
    for title in fields {
        for content in fields {
            let a = article(title, content);
            assert_eq!(string_to_article(&format_article_for_file(a.clone())), Ok(a));
        }
    }
}

#[test]
fn round_trip_keeps_harmless_banners() {
    let title = format!("a {} b {} c", TITLE_BEGIN, DATE_BEGIN);
    let content = format!("d {} e {} f", TITLE_BEGIN, CONTENT_BEGIN);
    let a = article(&title, &content);
    assert_eq!(string_to_article(&format_article_for_file(a.clone())), Ok(a));
}

#[test]
fn whitespace_around_a_field_does_not_come_back() {
    let a = article(" Hello\n", "\tWorld ");
    assert_eq!(
        string_to_article(&format_article_for_file(a)),
        Ok(article("Hello", "World"))
    );
}

#[test]
fn title_that_completes_a_banner_does_not_come_back() {
    // the last row of the title banner, a line break and this title read as the content banner
    let tail: String = CONTENT_BEGIN.chars().skip(41).collect();
    assert!(!tail.contains(CONTENT_BEGIN) && !tail.contains(TITLE_BEGIN) && !tail.contains(DATE_BEGIN));
    let a = article(&tail, "body");
    let decoded = string_to_article(&format_article_for_file(a.clone())).unwrap();
    assert_eq!(decoded.article.title, tail);
    assert_ne!(decoded.article.content, "body");
}

#[test]
fn date_banner_inside_the_content_cuts_it_short() {
    let content = format!("before {} after", DATE_BEGIN);
    let decoded = string_to_article(&format_article_for_file(article("t", &content))).unwrap();
    assert_eq!(decoded, article("t", "before"));
}

#[test]
fn text_around_the_sections_is_tolerated() {
    let text = format!(
        "preamble\n{}\nT\n{}\nC\n{}\n2021-02-03\ntrailer",
        TITLE_BEGIN, CONTENT_BEGIN, DATE_BEGIN
    );
    assert_eq!(string_to_article(&text), Ok(article("T", "C")));
    assert_eq!(extract(&text, (DATE_BEGIN, END)), Ok(String::from("2021-02-03\ntrailer")));
}

#[test]
fn sections_in_another_order_are_read_each_from_the_whole_text() {
    let text = format!("{}\nC\n{}\nD\n{}\nT\n{}\n", CONTENT_BEGIN, DATE_BEGIN, TITLE_BEGIN, CONTENT_BEGIN);
    assert_eq!(string_to_article(&text), Ok(article("T", "C")));
}

#[test]
fn decoded_fields_are_never_padded() {
    let text = format!("{}\u{3000} \u{2003}{}\n\r\n{}", TITLE_BEGIN, CONTENT_BEGIN, DATE_BEGIN);
    assert_eq!(string_to_article(&text), Ok(article("", "")));
}
