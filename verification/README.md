# splitype_editor

The editing logic of a tiled Markdown editor, written in Verus and proved
against its contracts:

- `session`: the document tabs of an editor area and the pane kinds.
- `area_layout`: the tiling layout tree (split, close, swap, resize,
  presets).
- `undo`, `delta`: the undo history and invertible document deltas.
- `block_structure`: the block tree in reading order, its structure edits
  (indent, outdent, delete, merge, new lines, quote and callout breaks,
  task toggles) and focus moves between blocks.
- `table_axis`, `table_hover`: table rows and columns, cell navigation and
  the append controls.
- `projection`, `projection_build`: the inline delimiter projection that
  shows Markdown syntax around the caret.
- `paste_action`, `paste_path`, `selection_restore`, `source_map`,
  `cursor_position`: paste handling, selection restore between views,
  source maps and the status-bar caret position.
- `text`, `styles`, `tree_scope`, `worktree_rules`: HTML escaping, message
  templates, export styles, block nesting scopes and file explorer rules.

`app/` holds the parts that stay outside the verified library: the file
system checks of a pasted image path, theme CSS with floating-point values,
and the conversions a GUI front end needs.
