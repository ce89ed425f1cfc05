//! Content-aware cropping: a saliency map built from skin, detail and saturation cues,
//! scored against a positional weighting over a grid of crop candidates.
pub mod analyzer;
pub mod color;
pub mod crop;
pub mod detect;
pub mod fixed;
pub mod map;
pub mod search;

pub use analyzer::{analyse, Analyzer, CropSettings, Error, Image, Prescale, ResizableImage};
pub use color::{skin_col, RGB};
pub use crop::{importance, thirds, Crop, Score, ScoredCrop};
pub use detect::{edge_detect, make_cies, saturation_detect, skin_detect};
pub use fixed::{bounds, UNIT};
pub use map::ImageMap;
pub use search::{crops, score};
