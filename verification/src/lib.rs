pub mod cache;
pub mod decimal;
pub mod errors;
pub mod escape;
pub mod html;
pub mod mapping;
pub mod template;

pub use cache::TemplateCache;
pub use errors::{Error, Errors};
pub use mapping::Mapping;
pub use template::Template;
pub use html::{render_template, render_template_strong, render_template_unsafe};
