//! Annessaia: a runtime, registry and toolkit for small WebAssembly apps.
pub mod admin;
pub mod admin_app;
pub mod admin_page;
pub mod browser;
pub mod calculator;
pub mod calculator_page;
pub mod canvas;
pub mod canvas_view;
pub mod chance;
pub mod cli;
pub mod color;
pub mod demos;
pub mod digits;
pub mod embed;
pub mod entry;
pub mod gallery;
pub mod gallery_page;
pub mod gossip;
pub mod host;
pub mod image;
pub mod input;
pub mod layout;
pub mod ledger;
pub mod memory;
pub mod names;
pub mod nav;
pub mod net;
pub mod node;
pub mod nova;
pub mod numerals;
pub mod order;
pub mod package;
pub mod page;
pub mod paint;
pub mod peers;
pub mod pixel;
pub mod png;
pub mod prelude;
pub mod prism;
pub mod ratings;
pub mod registry;
pub mod replies;
pub mod reports;
pub mod requests;
pub mod scene;
pub mod search;
pub mod search_app;
pub mod search_page;
pub mod search_view;
pub mod slots;
pub mod storage;
pub mod sys;
pub mod table;
pub mod text;
pub mod upload;
pub mod urls;
pub mod vectors;
pub mod widget;
