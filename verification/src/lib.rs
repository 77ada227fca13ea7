//! A verified image-editing transform pipeline.
//!
//! The pipeline takes a decoded RGBA raster and an edit request
//! (rotation, flips, grayscale, brightness/contrast, localized
//! pixelation, chroma-key background removal, crop, resize) and
//! produces a new pixel buffer, which can then be encoded as PNG
//! or JPEG. Every transform is specified pixel-exactly and verified.

pub mod chroma;
pub mod codec;
pub mod geom;
pub mod img;
pub mod pipeline;
pub mod pixelate;
pub mod tone;

pub use codec::EditError;
pub use codec::ImageInfo;
pub use geom::CropRect;
pub use img::ImgV;
pub use img::PixelBuffer;
pub use pipeline::ApplyPayload;
pub use pipeline::BgRemovalSettings;
pub use pipeline::ExportPayload;
pub use pipeline::OutputFormat;
pub use pipeline::ResizeMode;
pub use pixelate::PixelateStroke;
