//! What an editing session comes to: nothing to do, or an article to
//! publish.

use crate::article::{Article, ArticleText};
use crate::codec::{decoded, document, lemma_decode_document, string_to_article, DecodeError};
use crate::marker::{CONTENT_BEGIN, DATE_BEGIN, TITLE_BEGIN};
use crate::text::{is_trimmed, occurs};
use vstd::prelude::*;
use vstd::string::*;

verus! {

/// How the publish flow goes on after the editor has closed.
#[derive(Debug, Clone, PartialEq, Eq)]
pub enum EditOutcome {
    /// The document was left as it was: the flow ends, and nothing is sent.
    NoChanges,
    /// The edited document has no content: the flow ends, and nothing is
    /// sent.
    NoContent,
    /// The article of the edited document is to be signed and sent.
    Publish(Article),
}

/// An outcome with the article it carries as text.
pub enum EditOutcomeText {
    NoChanges,
    NoContent,
    Publish(ArticleText),
}

impl View for EditOutcome {
    type V = EditOutcomeText;

    open spec fn view(&self) -> EditOutcomeText {
        match self {
            EditOutcome::NoChanges => EditOutcomeText::NoChanges,
            EditOutcome::NoContent => EditOutcomeText::NoContent,
            EditOutcome::Publish(article) => EditOutcomeText::Publish(article@),
        }
    }
}

/// The outcome of an editing session, from the document that was handed to
/// the editor and the document that it left. Documents that are the same
/// character for character mean no change. Any other document is decoded,
/// and an article without content is not published.
pub open spec fn edit_outcome(offered: Seq<char>, edited: Seq<char>) -> Result<
    EditOutcomeText,
    DecodeError,
> {
    if edited == offered {
        Ok(EditOutcomeText::NoChanges)
    } else {
        match decoded(edited) {
            Err(e) => Err(e),
            Ok(article) => if article.content.len() == 0 {
                Ok(EditOutcomeText::NoContent)
            } else {
                Ok(EditOutcomeText::Publish(article))
            },
        }
    }
}

/// A document that comes back from the editor as it went in means no
/// change, whatever the article.
pub proof fn lemma_unedited_is_no_change(title: Seq<char>, content: Seq<char>)
    ensures
        edit_outcome(document(title, content), document(title, content)) == Ok::<
            EditOutcomeText,
            DecodeError,
        >(EditOutcomeText::NoChanges),
{
}

/// Decoding a document and rendering the article again gives the same
/// document, for the articles that decoding gives back.
pub proof fn lemma_decoded_document_renders_the_same(title: Seq<char>, content: Seq<char>)
    requires
        is_trimmed(title),
        is_trimmed(content),
        !occurs(TITLE_BEGIN@ + seq!['\n'] + title, CONTENT_BEGIN@),
        !occurs(content, DATE_BEGIN@),
    ensures
        decoded(document(title, content)) matches Ok(article) && document(
            article.title,
            article.content,
        ) == document(title, content),
{
    lemma_decode_document(title, content);
}

/// An edited document without content never leads to a request.
pub proof fn lemma_empty_content_is_not_published(offered: Seq<char>, edited: Seq<char>)
    requires
        decoded(edited) matches Ok(article) && article.content.len() == 0,
    ensures
        edit_outcome(offered, edited) == Ok::<EditOutcomeText, DecodeError>(
            EditOutcomeText::NoChanges,
        ) || edit_outcome(offered, edited) == Ok::<EditOutcomeText, DecodeError>(
            EditOutcomeText::NoContent,
        ),
{
}

/// Decides how the flow goes on, from the document that was handed to the
/// editor and the document that it left.
pub fn conclude_edit(offered: &String, edited: &String) -> (outcome: Result<
    EditOutcome,
    DecodeError,
>)
    ensures
        match edit_outcome(offered@, edited@) {
            Ok(text) => outcome matches Ok(o) && o@ == text,
            Err(e) => outcome matches Err(f) && f == e,
        },
{
    if *edited == *offered {
        return Ok(EditOutcome::NoChanges);
    }
    let article = match string_to_article(edited) {
        Err(e) => {
            return Err(e);
        },
        Ok(article) => article,
    };
    if article.article.content.as_str().is_empty() {
        Ok(EditOutcome::NoContent)
    } else {
        Ok(EditOutcome::Publish(article))
    }
}

} // verus!
