//! The article: the unit of content that is edited, signed and published.

use vstd::prelude::*;

verus! {

/// Title and body of an article. An empty string stands for "no value".
#[derive(Debug, Clone, PartialEq, Eq)]
pub struct ArticleData {
    pub content: String,
    pub title: String,
}

/// An article as the remote API exchanges it.
#[derive(Debug, Clone, PartialEq, Eq)]
pub struct Article {
    pub article: ArticleData,
}

/// What an article is, mathematically: its title and its content as
/// sequences of characters.
pub struct ArticleText {
    pub title: Seq<char>,
    pub content: Seq<char>,
}

impl View for ArticleData {
    type V = ArticleText;

    open spec fn view(&self) -> ArticleText {
        ArticleText { title: self.title@, content: self.content@ }
    }
}

impl View for Article {
    type V = ArticleText;

    open spec fn view(&self) -> ArticleText {
        self.article@
    }
}

impl Article {
    /// An article with the given title and content.
    pub fn new(title: String, content: String) -> (article: Article)
        ensures
            article@.title == title@,
            article@.content == content@,
    {
        Article { article: ArticleData { content, title } }
    }

    /// The article without title and content, as a deletion is signed with.
    pub fn empty() -> (article: Article)
        ensures
            article@.title == Seq::<char>::empty(),
            article@.content == Seq::<char>::empty(),
    {
        Article { article: ArticleData { content: String::new(), title: String::new() } }
    }
}

} // verus!
