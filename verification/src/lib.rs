pub mod device;
pub mod loader;
pub mod pipeline;
pub mod prompt;

pub use device::device;
pub use device::select_device;
pub use device::Device;
pub use loader::load_image;
pub use loader::resize_dims;
pub use loader::ImageError;
pub use loader::ImageTensor;
pub use loader::RawImage;
pub use prompt::parse;
pub use prompt::parse_point;
pub use prompt::check_decimal_number;
pub use prompt::MalformedPointError;
pub use prompt::PromptPoint;
pub use pipeline::prepare;
pub use pipeline::PrepareError;
pub use pipeline::Request;
