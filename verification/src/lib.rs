//! Indexing and serving of photo galleries: the rules by which a directory of
//! media becomes an ordered gallery, and by which requests for its assets are
//! classified, authorised and answered.

pub mod cache;
pub mod indexer;
pub mod localhost;
pub mod montage;
pub mod photos;
pub mod request;
pub mod server;
pub mod sink;
pub mod sort;
pub mod text;
pub mod textmap;
pub mod timestamp;

pub use localhost::is_localhost;
pub use montage::{load_file, read_image, resize_image};
pub use photos::{
    as_preview, as_scaled, is_jpg, is_mp4, make_preview, update_caption, Image, MD_FILE,
};
pub use sink::NginxBuffer;
