//! Authoring and publishing text articles from a plain-text editor.
//!
//! The library holds the logic of the tool, and leaves the editor, the
//! network and the environment to its caller.
//!
//! - [`codec`] renders an [`article::Article`] as a text document whose
//!   sections are opened by the banners of [`marker`], and reads an edited
//!   document back; [`edit`] decides what an editing session has come to.
//! - [`auth`] puts the parameters of a request into the canonical order of
//!   [`order`] and derives the value of the `Authorization` header from
//!   them; [`request`] says which parameters each request is signed over
//!   and where it is sent.
//! - [`text`] searches and trims sequences of characters.

pub mod article;
pub mod auth;
pub mod codec;
pub mod edit;
pub mod marker;
pub mod order;
pub mod request;
pub mod text;
