//! A codec for the Redis serialization protocol (RESP): commands are encoded
//! into request frames, and reply bytes are decoded into `Resp` values.
pub mod buffer;
pub mod command;
pub mod decimal;
pub mod hex_color;
pub mod laws;
pub mod resp;

pub use command::{Commands, ExistOP};
pub use hex_color::{hex_color, hex_primary, is_hex_digit, to_num, Color};
pub use resp::{
    parse, parse_batch, parse_err, parse_int, parse_multi_batch, parse_single_line, ParseError,
    Resp,
};
