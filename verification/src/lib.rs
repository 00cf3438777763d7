pub mod utils;

pub use utils::sanitizer::parser::{FileInfo, FileParser, FileType};
pub use utils::security::securitypassword::SecurityPassword;
