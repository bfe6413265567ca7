//! Morse code keying: text is encoded into on/off time units, which a
//! transmission then plays out on a keying device, run by run.

pub mod code;
pub mod join;
pub mod key;
pub mod letter;
pub mod lock;
pub mod mark;
pub mod phrase;
pub mod script;
pub mod text;
pub mod timing;
pub mod transmission;
pub mod word;
