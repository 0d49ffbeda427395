//! Compact CSS `@font-face` metadata for the characters a text actually uses:
//! the distinct character set, its `unicode-range` value, a fingerprint of the
//! set, and the full declaration with its font sources inlined or referenced.

pub mod charset;
pub mod digits;
pub mod error;
pub mod fingerprint;
pub mod font_face;
pub mod path;
pub mod unicode_range;

pub use charset::sort_characters;
pub use error::SubsetError;
pub use fingerprint::{fingerprint_of_digest, hash};
pub use font_face::{
    classify, compute_font_face, font_face, font_family_value, font_src, inline_src, is_inlined,
    url_src, FontBytes, FontFaceParameters, FontFormat,
};
pub use path::{extension, file_name_extension, file_name_stem, file_stem};
pub use unicode_range::{format_range, unicodes};
