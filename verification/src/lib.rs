//! Perceptual comparison of two equally sized RGBA images.
//!
//! The comparison classifies every pixel as unchanged, anti-aliased, or a
//! genuine difference, renders a diff image, and counts the genuine
//! differences. Colors are compared by a weighted squared distance in the
//! YIQ color space after alpha-blending each sample against a white
//! background.
//!
//! All arithmetic is carried out exactly: the decimal coefficients of the
//! YIQ projection and the distance weights are held as integer numerators
//! over fixed powers of ten, so every quantity the algorithm compares is an
//! integer and every contract states its exact value.

pub mod antialias;
pub mod color;
pub mod diff;
pub mod lemmas;

pub use antialias::anti_aliased;
pub use antialias::has_many_siblings;
pub use color::color_delta;
pub use color::gray_pixel;
pub use diff::draw_pixel;
pub use diff::pixelmatch;
pub use diff::PixelmatchError;
pub use diff::PixelmatchOption;
pub use diff::PixelmatchOutput;
pub use diff::PixelmatchResult;
pub use diff::Rgba;
