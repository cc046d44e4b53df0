//! Image handling, FITS/PGM file formats and alignment helpers for
//! astrophotography, with their behaviour stated as Verus contracts.
pub mod bytes;
pub mod camera;
pub mod channel;
pub mod correlation;
pub mod cross_range;
pub mod fits;
pub mod gphoto;
pub mod gray_image;
pub mod identify;
pub mod guide;
pub mod image;
pub mod pgm;
pub mod rgb;
pub mod rgb_bayer;
pub mod rgb_image;
pub mod text;
