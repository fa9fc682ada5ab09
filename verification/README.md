# pdiff

A terminal diff viewer with vim motions: pipe a unified diff in, move over it side by
side or stacked, select lines, comment on them, and write the comments out as Markdown.

```bash
git diff | pdiff
pdiff --stdout < change.patch
```

## Layout

- `src/` is the library, written in Verus. Its executable functions carry contracts and are
  proved against them:
  - `diff_parse` reads a unified diff into files, hunks and lines; `diff_model` holds them.
  - `app` flattens the diff into the list of lines that the cursor moves over; `nav` is the
    key handling of normal and visual mode; `comment` the comment box; `search` the `/`
    prompt and its matches; `viewport` the scrolling and the rows that the panels draw.
  - `render_text`, `markdown` and `highlight` give the text that the screen and the output
    file show; `highlight` calls syntect behind small trusted wrappers whose contracts
    say what syntect's documentation promises.
  - `tmux` parses the pane listing of `tmux list-panes`; `extension` says for which agents
    the companion extension can be managed.
  - `laws` states and proves properties that span several functions: the flattened view
    lists every line once and in order; `n`, `N`, `H`, `L`, `]` and `[` land where the
    keys promise; a comment never spans two files; editing a comment changes it in place;
    the cursor line is always drawn; the panels draw the rows of the lines from the scroll
    offset, cut to the viewport; and others.
- `app/` is the terminal program around the library: argument parsing, reading standard
  input, the event loop, drawing with ratatui, the tmux commands, and removing the agent
  extension (`pdiff uninstall pi`).
- `tests/` runs the library on concrete inputs.
