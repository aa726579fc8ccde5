# kaku

A fast Markdown viewer for terminals, written as a verified library with a
thin program around it.

- `src/` is the library, checked by Verus:
  - `events`, `parse`, `document`: the Markdown event stream from
    pulldown-cmark and the document tree built from it;
  - `text`, `unicode`, `style`, `theme`, `wrap`, `layout`: styled spans,
    Unicode-aware wrapping, tables, and the layout with its table of contents;
  - `syntax`: syntax highlighting of code blocks with syntect;
  - `app`, `input`, `pager`: the pager state (scrolling, search, table of
    contents), the search prompt, the key map and what each part of the screen
    shows;
  - `args`, `update`, `watch`: the command line (read with pico-args), update
    checks and the file watcher's decisions.
- `app/` is the program: terminal drawing with crossterm, the event loop, file
  and network access.
- `tests/` runs the library on concrete inputs.
