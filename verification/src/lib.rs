//! Session layout, focus and terminal-probing logic of a workspace-based tiling terminal.
pub mod arena;
pub mod filetree;
pub mod hover;
pub mod launch;
pub mod runtime;
pub mod seqs;
pub mod session;
pub mod sidebar;
pub mod tabs;
pub mod templates;
pub mod text;
pub mod theme;
pub mod workspace;
