//! Serial debug console core: numeric codec, command-line tokenizer and
//! dispatcher, line editor, and the flash command transport state machine.

pub mod byte_str;
pub mod cmdline;
pub mod editor;
pub mod flash;
