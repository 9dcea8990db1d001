use blawg::article::Article;
use blawg::codec::{format_article_for_file, format_file_content_to_article, DecodeError};
use blawg::edit::{conclude_edit, EditOutcome};
use blawg::marker::{Marker, CONTENT_BEGIN, DATE_BEGIN, TITLE_BEGIN};

fn document(title: &str, content: &str) -> String {
    format_article_for_file(Article::new(String::from(title), String::from(content)))
}

#[test]
fn unedited_document_means_no_changes() {
    for (title, content) in [("", ""), ("Hello", "World"), (" padded ", "\n\n"), ("t", "")] {
        let text = document(title, content);
        assert_eq!(conclude_edit(&text, &text.clone()), Ok(EditOutcome::NoChanges));
    }
    let fresh = format_file_content_to_article(String::from("seed"));
    assert_eq!(conclude_edit(&fresh, &fresh.clone()), Ok(EditOutcome::NoChanges));
}

#[test]
fn any_difference_is_a_change() {
    let offered = document("Hello", "World");
    let edited = format!("{} ", offered);
    assert_eq!(
        conclude_edit(&offered, &edited),
        Ok(EditOutcome::Publish(Article::new(String::from("Hello"), String::from("World"))))
    );
}

#[test]
fn edited_document_is_published() {
    let offered = document("", "");
    let edited = document("Hello", "World");
    assert_eq!(
        conclude_edit(&offered, &edited),
        Ok(EditOutcome::Publish(Article::new(String::from("Hello"), String::from("World"))))
    );
}

#[test]
fn empty_content_is_not_published() {
    let offered = document("Hello", "World");
    assert_eq!(conclude_edit(&offered, &document("Hello", "")), Ok(EditOutcome::NoContent));
    assert_eq!(
        conclude_edit(&offered, &document("Hello", " \n\t ")),
        Ok(EditOutcome::NoContent)
    );
}

#[test]
fn edited_document_without_a_banner_is_an_error() {
    let offered = document("Hello", "World");
    let edited = format!("{}\nHello\n\nWorld\n\n{}\n", TITLE_BEGIN, DATE_BEGIN);
    assert_eq!(
        conclude_edit(&offered, &edited),
        Err(DecodeError::MarkerNotFound(Marker::Content))
    );
    let edited = format!("{}\nHello\n\n{}\n\n\n", TITLE_BEGIN, CONTENT_BEGIN);
    assert_eq!(
        conclude_edit(&offered, &edited),
        Err(DecodeError::MarkerNotFound(Marker::Date))
    );
}
