//! A small character cursor for lexers and tokenizers.
//!
//! A [`Cursor`] walks the code points of a borrowed text from front to back,
//! offers one and two code points of lookahead, and keeps the byte offset of
//! its position in the text, so that a caller can slice tokens out of it.
mod cursor;
mod laws;
mod utf8;

pub use cursor::{Cursor, CursorView};
pub use laws::{
    lemma_bump_moves_by_width, lemma_bump_two_is_two_bumps, lemma_exhaust,
    lemma_rest_at_byte_pos, lemma_second_is_next_after_bump,
};
pub use utf8::{char_utf8_len, utf8_len};
