//! A store of free-text notes and the tags that label them, with keyword and
//! tag filtering, whose behaviour is stated in contracts and proved.
//!
//! [`state::AppState`] is the single aggregate that a presentation layer
//! reads from and issues commands against. It is built from an
//! [`ident::IdService`], a [`tag::TagStore`] and a [`note::NoteStore`]; the
//! filter that decides which notes are shown lives in [`filter`].

pub mod clock;
pub mod error;
pub mod filter;
pub mod ident;
pub mod note;
pub mod sequences;
pub mod state;
pub mod tag;
