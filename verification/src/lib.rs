//! A converter for documents in a small markup language that is read line by
//! line.
//!
//! A [`lexer::Lexer`] turns a text into block tokens, one for each line and
//! one for each block of code. A [`parser::Parser`] turns the tokens into a
//! tree: it numbers the headings, nests the lists, gathers rows into tables
//! and lines into paragraphs, and reads the styled spans and links inside
//! every text. [`html`] shows a tree as markup, and a
//! [`document::Document`] makes a page of it.
//!
//! Every function states what it returns over the mathematical value of its
//! arguments. The rules of the language are spec functions: [`grammar`] for a
//! line, [`lexer::lex`] for a text, [`inline::inline_spans`] for the spans of
//! a text, [`blocks::document`] for the tree. What follows from the rules is
//! proved in [`nesting`], [`numbering`], [`grouping`] and [`counting`].
pub mod artefact;
pub mod blocks;
pub mod chars;
pub mod counting;
pub mod document;
pub mod error;
pub mod grammar;
pub mod grouping;
pub mod html;
pub mod inline;
pub mod lexer;
pub mod nesting;
pub mod numbering;
pub mod parser;
pub mod tags;
pub mod token;
