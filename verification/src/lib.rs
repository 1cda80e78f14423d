//! A Klondike solitaire engine.
//!
//! The heart of the crate is a solvability search: given a fixed 52-card deal
//! and a draw rule (draw-1 or draw-3), [`search::solve_deck`] decides whether
//! the deal can be won under perfect play within a bounded time budget,
//! returning `Winnable`, `Unwinnable`, or `Timeout`.
//!
//! Around it stand the pieces the search is built from -- a card codec
//! ([`cards`]), a compressed stock/waste pile ([`kplus`]), the solver's game
//! state with its normalization pass ([`state`]), move generation and
//! application ([`moves`]), and state hashing -- together with an interactive
//! game model ([`engine`]) and a token parser for test fixtures ([`parse`]).
//! A few small helpers for a desktop-overlay companion tool live in
//! [`overlay`], [`hotkeys`] and [`labels`].

pub mod cards;
pub mod clock;
pub mod engine;
pub mod hotkeys;
pub mod labels;
pub mod kplus;
pub mod moves;
pub mod overlay;
pub mod parse;
pub mod search;
pub mod state;
