//! Vimium-style hint labels for the Herdr terminal multiplexer: the label
//! model, the HUD and list renderers, and the key handling of the popup.

pub mod text;
pub mod model;
pub mod order;
pub mod records;
pub mod render;
pub mod term;
pub mod popup;
pub mod rpc;
pub mod laws;
pub mod render_laws;
