//! Editing model for a diagram editor of multi-track Turing machines: the
//! machine's states and rules, the diagram that mirrors them and its rule
//! text, the selection state machine, the edges to draw, the force law of
//! the layout, the tape window, and the file-loading and repaint policy.

pub mod color;
pub mod constant;
pub mod machine;
pub mod graph;
pub mod sync;
pub mod editor;
pub mod render;
pub mod layout;
pub mod tape;
pub mod loading;
