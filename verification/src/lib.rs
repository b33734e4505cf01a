//! Editing logic of a tiled Markdown editor: tab lists, pane kinds, the
//! area layout tree, undo history and inline delimiter projection.

pub mod session;
pub mod area_layout;
pub mod undo;
pub mod delta;
pub mod projection;
pub mod projection_build;
pub mod text;
pub mod styles;
pub mod table_hover;
pub mod paste_path;
pub mod selection_restore;
pub mod paste_action;
pub mod source_map;
pub mod cursor_position;
pub mod tree_scope;
pub mod worktree_rules;
pub mod table_axis;
pub mod block_structure;
