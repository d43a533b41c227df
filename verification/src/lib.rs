//! Client-side logic for polling an Alpha Innotec heat pump over its
//! `Lux_WS` text protocol: the menu tree and its path lookup, the page
//! scanner that pulls readings out of a reply, the rules of a session and
//! of one request/response exchange, the poll that walks through the
//! pages, and the reconciliation of a fresh set of samples with the
//! previous one.
//!
//! Everything here works on plain values. The socket itself, the decoding
//! of the menu document and all arithmetic on binary64 numbers are done by
//! the caller.

pub mod error;
pub mod exporter_service;
pub mod model;
pub mod navigation;
pub mod page;
pub mod poll;
pub mod reconcile;
pub mod session;
pub mod text;
pub mod websocket_client;
