//! Core of a miniature browser engine: markup tokenizer and tree
//! constructor, stylesheet tokenizer and rule parser, document node model,
//! and a block/inline/text layout pass over the resulting tree.

pub mod constants;
pub mod strutil;
pub mod attribute;
pub mod css_token;
pub mod cssom;
pub mod html_token;
pub mod dom_node;
pub mod html_parser;
pub mod dom_api;
pub mod computed_style;
pub mod layout_object;
pub mod layout_view;
pub mod url;
