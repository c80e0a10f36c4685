//! Keeps a local directory of source files in step with one project of a
//! remote code-editing service that is reached through its web pages.
//!
//! The library decides; its caller acts. `bootstrap` says, step by step,
//! what has to be fetched and written to make the local mirror of a project.
//! `engine` takes the notifications of the file system about the mirror,
//! lets each path settle (`debounce`), tells what a settled notification
//! means (`event`) and what it asks of the remote service (`dispatch`).
//! `remote`, `scrape` and `decode` know the addresses and pages of the
//! service; `names` and `whitelist` know the files of the mirror.

pub mod bootstrap;
pub mod debounce;
pub mod decode;
pub mod dispatch;
pub mod engine;
pub mod event;
pub mod failure;
pub mod names;
pub mod project;
pub mod remote;
pub mod scrape;
pub mod text;
pub mod whitelist;
