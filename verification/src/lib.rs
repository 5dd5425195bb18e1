//! Reader for GTA V `.ycd` clip dictionaries: lists the clip (animation) names they
//! hold.
pub mod error;
pub mod resource_reader;
pub mod resource_flags;
pub mod inflate;
pub mod short_name;
pub mod name_set;
pub mod ycd_parse;
pub mod clip_index;

pub use ycd_parse::{
    decompress_ycd_buffer, parse_ycd_animations, to_short_name, try_parse_ycd_animations,
    ParseResult,
};
pub use short_name::dict_name_from_path;
