//! The requests to the remote API: which parameters each is signed over,
//! and where each is sent.

use crate::article::{Article, ArticleText};
use crate::auth::{request_authorization, request_params, sign_request, signable};
use crate::order::texts_of;
use crate::text::{
    chars_of, find, first_occurrence, lemma_first_occurrence, lemma_first_occurrence_unique,
    occurs_from,
};
use vstd::prelude::*;
use vstd::string::*;

verus! {

/// Stands in an endpoint for the identifier of the article.
pub const SLUG_PLACEHOLDER: &'static str = "{slug}";

/// The one status that means success.
pub const STATUS_OK: u16 = 200;

/// What can be done to an article on the remote API.
#[derive(Debug, Clone, Copy, PartialEq, Eq)]
pub enum Operation {
    Create,
    Update,
    Delete,
}

/// The HTTP method of a request.
#[derive(Debug, Clone, Copy, PartialEq, Eq)]
pub enum Method {
    Post,
    Patch,
    Delete,
}

/// What the remote API made of a request.
#[derive(Debug, Clone, Copy, PartialEq, Eq)]
pub enum Reply {
    /// The request was carried out.
    Success,
    /// The request was not carried out; the status is reported as it came.
    Failure(u16),
}

impl Operation {
    /// The key names that are signed with the article, by operation.
    pub open spec fn key_texts(self) -> Seq<Seq<char>> {
        match self {
            Operation::Create => seq!["content"@, "title"@],
            Operation::Update => seq!["article"@, "content"@, "title"@],
            Operation::Delete => Seq::empty(),
        }
    }

    /// The method that the operation is requested with.
    pub open spec fn method_of(self) -> Method {
        match self {
            Operation::Create => Method::Post,
            Operation::Update => Method::Patch,
            Operation::Delete => Method::Delete,
        }
    }

    /// The key names that are signed with the article.
    pub fn param_keys(self) -> (keys: Vec<&'static str>)
        ensures
            texts_of(keys@) == self.key_texts(),
    {
        let mut keys: Vec<&'static str> = Vec::new();
        match self {
            Operation::Create => {
                keys.push("content");
                keys.push("title");
            },
            Operation::Update => {
                keys.push("article");
                keys.push("content");
                keys.push("title");
            },
            Operation::Delete => {},
        }
        proof {
            assert(texts_of(keys@) =~= self.key_texts());
        }
        keys
    }

    /// The method that the operation is requested with.
    pub fn method(self) -> (method: Method)
        ensures
            method == self.method_of(),
    {
        match self {
            Operation::Create => Method::Post,
            Operation::Update => Method::Patch,
            Operation::Delete => Method::Delete,
        }
    }
}

/// A request that changes something on the remote API.
#[derive(Debug, Clone, PartialEq, Eq)]
pub enum Request {
    /// Publish a new article.
    Create { article: Article },
    /// Replace the article that `slug` identifies.
    Update { slug: String, article: Article },
    /// Remove the article that `slug` identifies.
    Delete { slug: String },
}

/// The text with each occurrence of the pattern, from the place `from`
/// on and from left to right, replaced.
pub open spec fn replaced_from(
    text: Seq<char>,
    pattern: Seq<char>,
    with: Seq<char>,
    from: int,
) -> Seq<char>
    decreases text.len() - from,
{
    if pattern.len() > 0 && 0 <= from && occurs_from(text, pattern, from) {
        let at = first_occurrence(text, pattern, from);
        proof {
            lemma_first_occurrence(text, pattern, from);
        }
        text.subrange(from, at) + with + replaced_from(text, pattern, with, at + pattern.len())
    } else {
        text.skip(from)
    }
}

/// The endpoint with the slug in the place of each placeholder.
pub open spec fn with_slug(endpoint: Seq<char>, slug: Seq<char>) -> Seq<char> {
    replaced_from(endpoint, SLUG_PLACEHOLDER@, slug, 0)
}

/// The address at which the article that `slug` identifies is fetched.
pub open spec fn fetch_address(base: Seq<char>, slug: Seq<char>) -> Seq<char> {
    base + seq!['/'] + slug
}

impl Request {
    /// The operation that is requested.
    pub open spec fn operation_of(&self) -> Operation {
        match self {
            Request::Create { .. } => Operation::Create,
            Request::Update { .. } => Operation::Update,
            Request::Delete { .. } => Operation::Delete,
        }
    }

    /// The article that the request is signed with: a deletion is signed
    /// with the article that has no title and no content.
    pub open spec fn signed_article(&self) -> ArticleText {
        match self {
            Request::Create { article } => article@,
            Request::Update { article, .. } => article@,
            Request::Delete { .. } => ArticleText {
                title: Seq::empty(),
                content: Seq::empty(),
            },
        }
    }

    /// The parameters that the request is signed over.
    pub open spec fn params(&self) -> Seq<Seq<char>> {
        request_params(self.signed_article(), self.operation_of().key_texts())
    }

    /// The address that the request goes to, for the endpoint of its
    /// operation.
    pub open spec fn address(&self, endpoint: Seq<char>) -> Seq<char> {
        match self {
            Request::Create { .. } => endpoint,
            Request::Update { slug, .. } => with_slug(endpoint, slug@),
            Request::Delete { slug } => with_slug(endpoint, slug@),
        }
    }

    /// The operation that is requested.
    pub fn operation(&self) -> (operation: Operation)
        ensures
            operation == self.operation_of(),
    {
        match self {
            Request::Create { .. } => Operation::Create,
            Request::Update { .. } => Operation::Update,
            Request::Delete { .. } => Operation::Delete,
        }
    }

    /// The value of the `Authorization` header of the request, or nothing
    /// where key and parameters are too long to be signed.
    pub fn sign(&self, secret_key: &str) -> (token: Option<String>)
        ensures
            match token {
                Some(token) => signable(secret_key@, self.params()) && token@
                    == request_authorization(secret_key@, self.params()),
                None => !signable(secret_key@, self.params()),
            },
    {
        let param_keys = self.operation().param_keys();
        match self {
            Request::Create { article } => sign_request(article, &param_keys, secret_key),
            Request::Update { article, .. } => sign_request(article, &param_keys, secret_key),
            Request::Delete { .. } => {
                let empty_article = Article::empty();
                sign_request(&empty_article, &param_keys, secret_key)
            },
        }
    }

    /// The address that the request goes to, for the endpoint of its
    /// operation.
    pub fn url(&self, endpoint: &str) -> (url: String)
        ensures
            url@ == self.address(endpoint@),
    {
        match self {
            Request::Create { .. } => String::from_str(endpoint),
            Request::Update { slug, .. } => endpoint_url(endpoint, slug.as_str()),
            Request::Delete { slug } => endpoint_url(endpoint, slug.as_str()),
        }
    }
}

/// The endpoint with the slug in the place of each placeholder.
pub fn endpoint_url(endpoint: &str, slug: &str) -> (url: String)
    ensures
        url@ == with_slug(endpoint@, slug@),
{
    let text = chars_of(endpoint);
    let placeholder = chars_of(SLUG_PLACEHOLDER);
    proof {
        reveal_strlit("{slug}");
    }
    let mut url = String::new();
    let mut from: usize = 0;
    let length: usize = text.len();
    loop
        invariant
            from <= length == text@.len(),
            text@ == endpoint@,
            placeholder@ == SLUG_PLACEHOLDER@,
            placeholder@.len() == 6,
            url@ + replaced_from(endpoint@, SLUG_PLACEHOLDER@, slug@, from as int) == with_slug(
                endpoint@,
                slug@,
            ),
        decreases length - from,
    {
        match find(text.as_slice(), placeholder.as_slice(), from) {
            None => {
                url.append(endpoint.substring_char(from, length));
                proof {
                    assert(endpoint@.skip(from as int) =~= endpoint@.subrange(
                        from as int,
                        length as int,
                    ));
                }
                return url;
            },
            Some(at) => {
                proof {
                    lemma_first_occurrence_unique(
                        endpoint@,
                        SLUG_PLACEHOLDER@,
                        from as int,
                        at as int,
                    );
                    let rest = replaced_from(endpoint@, SLUG_PLACEHOLDER@, slug@, at + 6);
                    assert(url@ + (endpoint@.subrange(from as int, at as int) + slug@ + rest)
                        =~= url@ + endpoint@.subrange(from as int, at as int) + slug@ + rest);
                }
                url.append(endpoint.substring_char(from, at));
                url.append(slug);
                from = at + placeholder.len();
            },
        }
    }
}

/// The address at which the article that `slug` identifies is fetched:
/// the base, a slash, and the slug.
pub fn fetch_url(base: &str, slug: &str) -> (url: String)
    ensures
        url@ == fetch_address(base@, slug@),
{
    proof {
        reveal_strlit("/");
        assert("/"@ =~= seq!['/']);
    }
    let mut url = String::from_str(base);
    url.append("/");
    url.append(slug);
    url
}

/// Reads the status of a response: 200 is success, any other status a
/// failure.
pub fn classify_status(status: u16) -> (reply: Reply)
    ensures
        reply == if status == STATUS_OK {
            Reply::Success
        } else {
            Reply::Failure(status)
        },
{
    if status == STATUS_OK {
        Reply::Success
    } else {
        Reply::Failure(status)
    }
}

} // verus!
