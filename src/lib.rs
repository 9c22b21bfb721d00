//! Escape-time rendering of the Mandelbrot set: the split of the output
//! buffer into bands for concurrent workers, the per-band renderer, and the
//! parsing of the geometry strings that describe an image.

pub mod bands;
pub mod divisor;
pub mod pair;
pub mod render;
pub mod sprinkle;

pub use bands::{band_layout, Band};
pub use divisor::{gcd, gcd_all};
pub use pair::{parse_decimal, parse_pair, split_pair};
pub use render::{render_band, shade, Escape, ITERATION_LIMIT};
pub use sprinkle::{sprinkle_line, trim_end, Affix, DECORATIONS};
