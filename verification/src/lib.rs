pub mod geometry;
pub mod utils;
pub mod layout_manager;
pub mod action;
pub mod action_bus;
pub mod renderer;
pub mod scene;
pub mod hg;
pub mod infraglobals;
pub mod sprite;
pub mod text_scene;
pub mod button_scene;

pub use hg::HamGraph;
pub use hg::HamID;
pub use renderer::Renderer;
