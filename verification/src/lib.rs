//! Layout, text, font, style, and resource logic of a small browser engine.
pub mod layout;
pub mod text_util;
pub mod fonts;
pub mod shaping;
pub mod line_breaking;
pub mod storage;
pub mod encoding;
pub mod fragments;
pub mod engine;
pub mod style;
pub mod script;
pub mod interaction;
pub mod renderer;
pub mod profile;
pub mod images;
pub mod variables;
pub mod fragment_tree;
pub mod interaction_state;
pub mod history;
pub mod paint;
pub mod document_view;
pub mod layout_tree;
pub mod timers;
pub mod flex;
pub mod overlay;
pub mod fetch;
pub mod framebuffer;
