//! Meta-adaptive (MA) context trees of the JPEG XL modular mode, and the
//! integer bookkeeping of a JPEG XL decoder front end: pixel formats,
//! channel selection, oriented sample streams, and the loading of headers
//! and frames from bytes fed piece by piece.

mod error;
mod image;
mod ma;
mod ma_parse;
mod pixel;
mod predictor;
mod render;

pub use error::ModularError;
pub use image::{
    ExtraChannelInfo, FeedAction, FrameHeaderRead, ImageHeader, ImageHeaderRead, InitializeResult,
    JxlImage, LoadError, RenderResult, UninitializedJxlImage,
};
pub use ma::{FlatMaTree, FlatMaTreeNode, MaTreeLeaf, MaTreeNode};
pub use ma_parse::{FoldingNode, MaConfig, MaTreeParser, ParseStage, MAX_TREE_NODES};
pub use pixel::{
    pixel_format_of, ColourSpace, CropInfo, ExtraChannelType, LoadResult, PixelFormat, Region,
    RenderedEncoding,
};
pub use predictor::{unpack_signed, Predictor, Properties};
pub use render::{ChannelRef, ExtraChannel, ImageStream, Render, SamplePosition};
