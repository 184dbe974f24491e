//! Core of a server-rendered web application: a named-template store with a
//! development mode that recompiles templates from their current source on
//! every request, and a production mode that compiles every template once at
//! startup and never reloads; plus the request-level units that render pages
//! and fragments from that store.

pub mod assoc;
pub mod context;
pub mod environment;
pub mod engine;
pub mod errors;
pub mod forms;
pub mod handlers;
