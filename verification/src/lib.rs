//! Core library for reading and writing vMix GT Title Designer packages.
use vstd::prelude::*;

pub mod base64;
pub mod brushes;
pub mod color;
pub mod document;
pub mod edit;
pub mod elements;
pub mod error;
pub mod fields;
pub mod model;
pub mod objects;
pub mod package;
pub mod paths;
pub mod render;
pub mod resolve;
pub mod resources;
pub mod strmap;
pub mod text;
pub mod warn;
pub mod write;
pub mod xml;
pub mod zipread;
pub mod zipwrite;

pub use error::Error;
pub use package::Package;
pub use warn::Warning;

verus! {

/// How a title is converted.
#[derive(Debug, Clone)]
pub struct ConvertOptions {
    /// Whether assets are written into the HTML as data URIs.
    pub embed_assets: bool,
    /// The type of the storyboard whose animations the HTML plays.
    pub storyboard: String,
}

impl Default for ConvertOptions {
    /// Assets as files, and the `TransitionIn` storyboard.
    fn default() -> (o: ConvertOptions)
        ensures
            !o.embed_assets,
            o.storyboard@ == "TransitionIn"@,
    {
        ConvertOptions { embed_assets: false, storyboard: text::owned("TransitionIn") }
    }
}

/// A file that goes beside the HTML.
#[derive(Debug, Clone)]
pub struct OutputAsset {
    pub relative_path: String,
    pub bytes: Vec<u8>,
}

} // verus!
