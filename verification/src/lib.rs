//! Client-side logic for the line-oriented pipe protocol spoken by the
//! `ispell` family of spelling checkers (`ispell`, `aspell`, `hunspell`).
//!
//! This crate holds the verified core of such a client: the protocol
//! decoder that turns response lines into typed outcomes, the word-count
//! driven accounting loop, the frame-boundary rules for the reader, the
//! command builders for the writer, and the launcher configuration.
//! Spawning the subordinate process and moving bytes over its pipes is
//! left to an unverified shell around this library.

mod error;
mod framing;
mod ispell_result;
mod spell_checker;
mod spell_launcher;
mod text;
mod transport;

pub use error::Error;
pub use error::ErrorType;

pub use framing::frame_complete;
pub use framing::frame_complete_spec;

pub use ispell_result::IspellError;
pub use ispell_result::IspellResult;
pub use ispell_result::IssueView;
pub use ispell_result::OutcomeView;

pub use spell_checker::add_word_command;
pub use spell_checker::add_word_persist_commands;
pub use spell_checker::decode_frames_spec;
pub use spell_checker::decode_issues;
pub use spell_checker::decode_line_spec;
pub use spell_checker::decode_lines_spec;
pub use spell_checker::decode_outcomes;
pub use spell_checker::filter_issues;
pub use spell_checker::get_ispell_error;
pub use spell_checker::is_issue;
pub use spell_checker::ispell_error_ok;
pub use spell_checker::ispell_error_view;
pub use spell_checker::issue_payload;
pub use spell_checker::issues_of;
pub use spell_checker::lemma_issues_of_step;
pub use spell_checker::parse_line;
pub use spell_checker::suggestions_of;
pub use spell_checker::CheckState;
pub use spell_checker::FramesDecode;

pub use spell_launcher::Mode;
pub use spell_launcher::SpellLauncher;

pub use text::count_words;
pub use text::is_alphabetic_char;
pub use text::is_whitespace_char;
pub use text::lines_of;
pub use text::parse_usize;
pub use text::parses_as_usize;
pub use text::split_lines;
pub use text::split_on;
pub use text::split_on_char;
pub use text::split_whitespace_tokens;
pub use text::split_ws;
pub use text::trim_spec;
pub use text::trim_str;
pub use text::word_count;

pub use transport::check_command;
pub use transport::frame_result;
pub use transport::handshake;
pub use transport::ReadEvent;
