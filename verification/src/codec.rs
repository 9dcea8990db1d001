//! The document codec: an article rendered as a banner-delimited text
//! document for editing, and an edited document read back as an article.

use crate::article::{Article, ArticleData, ArticleText};
use crate::marker::{
    banner_len, lemma_banner_apart, lemma_content_banner, lemma_date_banner, lemma_end_sentinel,
    lemma_title_banner, Marker, CONTENT_BEGIN, DATE_BEGIN, END, TITLE_BEGIN,
};
use crate::text::{
    chars_of, find, first_occurrence, is_first_occurrence, is_trimmed,
    lemma_first_occurrence_unique, lemma_occurs_in_part, lemma_trimmed_is_trimmed,
    lemma_trimmed_padded, occurs, occurs_at, occurs_from, trim_bounds, trimmed,
};
use vstd::prelude::*;
use vstd::string::*;

verus! {

/// Why a field could not be taken out of a text.
#[derive(Debug, Clone, Copy, PartialEq, Eq)]
pub enum ExtractError {
    /// The delimiter that opens the field is not in the text.
    StartNotFound,
    /// The delimiter that closes the field does not follow the one that
    /// opens it.
    EndNotFound,
}

/// Why a text could not be read as a document.
#[derive(Debug, Clone, Copy, PartialEq, Eq)]
pub enum DecodeError {
    /// The banner is not in the text where a section needs it.
    MarkerNotFound(Marker),
}

/// The document of an article: each banner on lines of its own, the title
/// and the content each followed by a blank line, and an empty date.
pub open spec fn document(title: Seq<char>, content: Seq<char>) -> Seq<char> {
    TITLE_BEGIN@ + seq!['\n'] + title + seq!['\n', '\n'] + CONTENT_BEGIN@ + seq!['\n'] + content
        + seq!['\n', '\n'] + DATE_BEGIN@ + seq!['\n']
}

/// The field between two delimiters: what follows the first occurrence of
/// `start` up to the next occurrence of `end`, or up to the end of the text
/// where `end` is the sentinel, without the whitespace around it.
pub open spec fn extracted(text: Seq<char>, start: Seq<char>, end: Seq<char>) -> Result<
    Seq<char>,
    ExtractError,
> {
    if !occurs(text, start) {
        Err(ExtractError::StartNotFound)
    } else {
        let from = first_occurrence(text, start, 0) + start.len();
        if end == END@ {
            Ok(trimmed(text.skip(from)))
        } else if !occurs_from(text, end, from) {
            Err(ExtractError::EndNotFound)
        } else {
            Ok(trimmed(text.subrange(from, first_occurrence(text, end, from))))
        }
    }
}

/// The banner that is missing where the field between the banners of
/// `start` and `end` cannot be taken out.
pub open spec fn missing_marker(start: Marker, end: Marker, error: ExtractError) -> Marker {
    match error {
        ExtractError::StartNotFound => start,
        ExtractError::EndNotFound => end,
    }
}

/// The article that a document holds. Content, date and title are taken
/// out in this order, each from the whole text; the date is not kept.
pub open spec fn decoded(text: Seq<char>) -> Result<ArticleText, DecodeError> {
    match extracted(text, CONTENT_BEGIN@, DATE_BEGIN@) {
        Err(e) => Err(
            DecodeError::MarkerNotFound(missing_marker(Marker::Content, Marker::Date, e)),
        ),
        Ok(content) => match extracted(text, DATE_BEGIN@, END@) {
            Err(_) => Err(DecodeError::MarkerNotFound(Marker::Date)),
            Ok(_) => match extracted(text, TITLE_BEGIN@, CONTENT_BEGIN@) {
                Err(e) => Err(
                    DecodeError::MarkerNotFound(
                        missing_marker(Marker::Title, Marker::Content, e),
                    ),
                ),
                Ok(title) => Ok(ArticleText { title, content }),
            },
        },
    }
}

/// Where the content banner stands in the document of an article.
pub open spec fn content_banner_at(title: Seq<char>) -> int {
    banner_len() + 1 + title.len() + 2
}

/// Where the date banner stands in the document of an article.
pub open spec fn date_banner_at(title: Seq<char>, content: Seq<char>) -> int {
    content_banner_at(title) + banner_len() + 1 + content.len() + 2
}

/// In the document of an article the content banner stands first where it
/// was written, unless it already occurs in the title banner and the title
/// after it.
proof fn lemma_content_banner_first(title: Seq<char>, content: Seq<char>)
    requires
        !occurs(TITLE_BEGIN@ + seq!['\n'] + title, CONTENT_BEGIN@),
    ensures
        is_first_occurrence(
            document(title, content),
            CONTENT_BEGIN@,
            0,
            content_banner_at(title),
        ),
{
    lemma_title_banner();
    lemma_content_banner();
    lemma_date_banner();
    let text = document(title, content);
    let at = content_banner_at(title);
    let head = TITLE_BEGIN@ + seq!['\n'] + title;
    assert(text.subrange(at, at + banner_len()) =~= CONTENT_BEGIN@);
    assert forall|earlier: int| 0 <= earlier < at implies !occurs_at(
        text,
        CONTENT_BEGIN@,
        earlier,
    ) by {
        if occurs_at(text, CONTENT_BEGIN@, earlier) {
            lemma_banner_apart(text, CONTENT_BEGIN@, earlier, head.len() as int);
            lemma_occurs_in_part(text, CONTENT_BEGIN@, earlier, 0, head.len() as int);
            assert(text.subrange(0, head.len() as int) =~= head);
            assert(occurs_at(head, CONTENT_BEGIN@, earlier));
        }
    }
}

/// In the document of an article the date banner stands first after the
/// content banner where it was written, unless it occurs in the content.
proof fn lemma_date_banner_next(title: Seq<char>, content: Seq<char>)
    requires
        !occurs(content, DATE_BEGIN@),
    ensures
        is_first_occurrence(
            document(title, content),
            DATE_BEGIN@,
            content_banner_at(title) + banner_len(),
            date_banner_at(title, content),
        ),
{
    lemma_title_banner();
    lemma_content_banner();
    lemma_date_banner();
    let text = document(title, content);
    let from = content_banner_at(title) + banner_len();
    let at = date_banner_at(title, content);
    assert(text.subrange(at, at + banner_len()) =~= DATE_BEGIN@);
    assert forall|earlier: int| from <= earlier < at implies !occurs_at(
        text,
        DATE_BEGIN@,
        earlier,
    ) by {
        if occurs_at(text, DATE_BEGIN@, earlier) {
            lemma_banner_apart(text, DATE_BEGIN@, earlier, at - 2);
            if earlier == from {
                assert(text.subrange(earlier, earlier + banner_len())[0] == '\n');
            } else {
                lemma_occurs_in_part(text, DATE_BEGIN@, earlier, from + 1, at - 2);
                assert(text.subrange(from + 1, at - 2) =~= content);
                assert(occurs_at(content, DATE_BEGIN@, earlier - (from + 1)));
            }
        }
    }
}

/// A line break before a text and a blank line after it are trimmed away.
proof fn lemma_trimmed_section(field: Seq<char>)
    requires
        is_trimmed(field),
    ensures
        trimmed(seq!['\n'] + field + seq!['\n', '\n']) == field,
{
    lemma_trimmed_padded(seq!['\n'], field, seq!['\n', '\n']);
}

/// Decoding the document of an article gives the article back: its
/// title and its content, where neither begins or ends with whitespace,
/// the content banner does not occur in the title banner followed by the
/// title, and the date banner does not occur in the content.
pub proof fn lemma_decode_document(title: Seq<char>, content: Seq<char>)
    requires
        is_trimmed(title),
        is_trimmed(content),
        !occurs(TITLE_BEGIN@ + seq!['\n'] + title, CONTENT_BEGIN@),
        !occurs(content, DATE_BEGIN@),
    ensures
        decoded(document(title, content)) == Ok::<ArticleText, DecodeError>(
            ArticleText { title, content },
        ),
{
    lemma_title_banner();
    lemma_content_banner();
    lemma_date_banner();
    lemma_end_sentinel();
    let text = document(title, content);
    let content_at = content_banner_at(title);
    let date_at = date_banner_at(title, content);

    // the content lies between the content banner and the date banner
    lemma_content_banner_first(title, content);
    lemma_first_occurrence_unique(text, CONTENT_BEGIN@, 0, content_at);
    lemma_date_banner_next(title, content);
    lemma_first_occurrence_unique(text, DATE_BEGIN@, content_at + banner_len(), date_at);
    assert(text.subrange(content_at + banner_len(), date_at) =~= seq!['\n'] + content + seq![
        '\n',
        '\n',
    ]);
    lemma_trimmed_section(content);
    assert(extracted(text, CONTENT_BEGIN@, DATE_BEGIN@) == Ok::<Seq<char>, ExtractError>(
        content,
    ));

    // the date banner is there
    assert(occurs_at(text, DATE_BEGIN@, date_at));
    assert(extracted(text, DATE_BEGIN@, END@) is Ok);

    // the title lies between the title banner and the content banner
    assert(text.subrange(0, banner_len()) =~= TITLE_BEGIN@);
    assert(is_first_occurrence(text, TITLE_BEGIN@, 0, 0));
    lemma_first_occurrence_unique(text, TITLE_BEGIN@, 0, 0);
    assert(is_first_occurrence(text, CONTENT_BEGIN@, banner_len(), content_at));
    lemma_first_occurrence_unique(text, CONTENT_BEGIN@, banner_len(), content_at);
    assert(text.subrange(banner_len(), content_at) =~= seq!['\n'] + title + seq!['\n', '\n']);
    lemma_trimmed_section(title);
    assert(extracted(text, TITLE_BEGIN@, CONTENT_BEGIN@) == Ok::<Seq<char>, ExtractError>(
        title,
    ));
}

/// A text without the content banner is no document, and the error names
/// that banner; a text that decodes holds all three banners.
pub proof fn lemma_decode_needs_every_banner(text: Seq<char>)
    ensures
        !occurs(text, CONTENT_BEGIN@) ==> decoded(text) == Err::<ArticleText, DecodeError>(
            DecodeError::MarkerNotFound(Marker::Content),
        ),
        decoded(text) is Ok ==> occurs(text, TITLE_BEGIN@) && occurs(text, CONTENT_BEGIN@)
            && occurs(text, DATE_BEGIN@),
{
}

/// The title and the content of a decoded article neither begin nor end
/// with whitespace.
pub proof fn lemma_decoded_fields_are_trimmed(text: Seq<char>)
    ensures
        decoded(text) matches Ok(article) ==> is_trimmed(article.title) && is_trimmed(
            article.content,
        ),
{
    lemma_content_banner();
    lemma_date_banner();
    lemma_end_sentinel();
    if decoded(text) is Ok {
        let from = first_occurrence(text, CONTENT_BEGIN@, 0) + CONTENT_BEGIN@.len();
        lemma_trimmed_is_trimmed(
            text.subrange(from, first_occurrence(text, DATE_BEGIN@, from)),
        );
        let from = first_occurrence(text, TITLE_BEGIN@, 0) + TITLE_BEGIN@.len();
        lemma_trimmed_is_trimmed(
            text.subrange(from, first_occurrence(text, CONTENT_BEGIN@, from)),
        );
    }
}

/// The document with the given title and content.
fn render(title: &str, content: &str) -> (text: String)
    ensures
        text@ == document(title@, content@),
{
    proof {
        reveal_strlit("\n");
        reveal_strlit("\n\n");
    }
    let mut text = String::from_str(TITLE_BEGIN);
    text.append("\n");
    text.append(title);
    text.append("\n\n");
    text.append(CONTENT_BEGIN);
    text.append("\n");
    text.append(content);
    text.append("\n\n");
    text.append(DATE_BEGIN);
    text.append("\n");
    proof {
        assert("\n"@ =~= seq!['\n']);
        assert("\n\n"@ =~= seq!['\n', '\n']);
    }
    text
}

/// Renders an article as the document that is handed to the editor.
pub fn format_article_for_file(article: Article) -> (text: String)
    ensures
        text@ == document(article@.title, article@.content),
{
    render(article.article.title.as_str(), article.article.content.as_str())
}

/// Renders the document of a new article: no title, and as content the
/// text that the article starts from.
pub fn format_file_content_to_article(content: String) -> (text: String)
    ensures
        text@ == document(Seq::<char>::empty(), content@),
{
    proof {
        reveal_strlit("");
        assert(""@ =~= Seq::<char>::empty());
    }
    render("", content.as_str())
}

/// Where the field between two delimiters begins and ends in the text.
fn field_bounds(text: &[char], start: &[char], end: &[char]) -> (bounds: Result<
    (usize, usize),
    ExtractError,
>)
    ensures
        match extracted(text@, start@, end@) {
            Ok(field) => bounds matches Ok((from, to)) && from <= to <= text@.len()
                && text@.subrange(from as int, to as int) == field,
            Err(e) => bounds matches Err(f) && f == e,
        },
{
    let opened = match find(text, start, 0) {
        None => {
            return Err(ExtractError::StartNotFound);
        },
        Some(at) => at,
    };
    proof {
        lemma_first_occurrence_unique(text@, start@, 0, opened as int);
        lemma_end_sentinel();
    }
    let length: usize = text.len();
    let from: usize = opened + start.len();
    let to: usize = if end.len() == 1 && end[0] == '\n' {
        proof {
            assert(end@ =~= seq!['\n']);
            assert(text@.skip(from as int) =~= text@.subrange(from as int, text@.len() as int));
        }
        length
    } else {
        match find(text, end, from) {
            None => {
                return Err(ExtractError::EndNotFound);
            },
            Some(at) => {
                proof {
                    lemma_first_occurrence_unique(text@, end@, from as int, at as int);
                }
                at
            },
        }
    };
    Ok(trim_bounds(text, from, to))
}

/// Takes the field between the delimiters `delim.0` and `delim.1` out of
/// `content`.
pub fn extract(content: &String, delim: (&str, &str)) -> (field: Result<String, ExtractError>)
    ensures
        match extracted(content@, delim.0@, delim.1@) {
            Ok(text) => field matches Ok(s) && s@ == text,
            Err(e) => field matches Err(f) && f == e,
        },
{
    let text = chars_of(content.as_str());
    let start = chars_of(delim.0);
    let end = chars_of(delim.1);
    match field_bounds(text.as_slice(), start.as_slice(), end.as_slice()) {
        Err(e) => Err(e),
        Ok((from, to)) => Ok(String::from_str(content.as_str().substring_char(from, to))),
    }
}

/// Reads a document back as an article.
pub fn string_to_article(article_data: &String) -> (article: Result<Article, DecodeError>)
    ensures
        match decoded(article_data@) {
            Ok(text) => article matches Ok(a) && a@ == text,
            Err(e) => article matches Err(f) && f == e,
        },
{
    let content = match extract(article_data, (CONTENT_BEGIN, DATE_BEGIN)) {
        Ok(content) => content,
        Err(ExtractError::StartNotFound) => {
            return Err(DecodeError::MarkerNotFound(Marker::Content));
        },
        Err(ExtractError::EndNotFound) => {
            return Err(DecodeError::MarkerNotFound(Marker::Date));
        },
    };
    let _date = match extract(article_data, (DATE_BEGIN, END)) {
        Ok(date) => date,
        Err(_) => {
            return Err(DecodeError::MarkerNotFound(Marker::Date));
        },
    };
    let title = match extract(article_data, (TITLE_BEGIN, CONTENT_BEGIN)) {
        Ok(title) => title,
        Err(ExtractError::StartNotFound) => {
            return Err(DecodeError::MarkerNotFound(Marker::Title));
        },
        Err(ExtractError::EndNotFound) => {
            return Err(DecodeError::MarkerNotFound(Marker::Content));
        },
    };
    Ok(Article { article: ArticleData { content, title } })
}

} // verus!
