//! A small markdown dialect for static sites.
//!
//! A document goes through three stages. The lexer ([`lexer`]) turns its
//! text into tokens, the parser ([`parser`]) turns the tokens into a tree of
//! elements ([`tree`]), and the resolver ([`resolve`]) expands the custom
//! elements of the tree with the plugins and templates that they name
//! ([`plugins`]). The renderer ([`render`]) writes the tree as HTML.
//!
//! What each stage computes is defined as a function on plain values in
//! [`lex_model`], [`parse_model`] and [`resolve_model`]; what holds of those
//! functions is proved in [`lex_laws`], [`parse_laws`], [`resolve_laws`] and
//! [`tree_laws`].

pub mod config;
pub mod custom;
pub mod dump;
pub mod error_ui;
pub mod frontmatter;
pub mod html_element;
pub mod lex_laws;
pub mod lex_model;
pub mod lexer;
pub mod markup;
pub mod parse_laws;
pub mod parse_model;
pub mod parser;
pub mod plugins;
pub mod prompt;
pub mod render;
pub mod resolve;
pub mod resolve_laws;
pub mod resolve_model;
pub mod site;
pub mod strmap;
pub mod text;
pub mod token;
pub mod tree;
pub mod tree_laws;
