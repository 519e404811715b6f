//! Source transforms for JavaScript modules: dynamic-import ids for async
//! components, translation loaders for i18n hooks and web-worker loader
//! imports, all stated and proved over a plain syntax tree.

pub mod ast;
pub mod fold;
pub mod text;
pub mod async_transform;
pub mod translations;
pub mod comments;
pub mod i18n_transform;
pub mod i18n_laws;
pub mod web_worker;
pub mod webworker_transform;
pub mod process;
