# emark

emark is a strict plain-text format for exam question documents (行测题目文档),
with a parser that reports every mistake with its line, an HTML renderer, and a
command-line tool that builds a document into an output directory that can be
moved and shared as a whole.

## Layout

- `src/` — the library, verified with Verus:
  - `lines`, `syntax`, `inline`, `question`, `parser`: the parser, each step
    stated as a spec function over the source text; `parse` returns exactly
    what `parse_model` gives;
  - `wellformed`, `errorline`, `counting`: what every parsed document and
    every error satisfies;
  - `html`, `render`: the renderer, exact over `render_model`;
  - `category`, `ast`, `error`, `message`, `text`: the data and texts they share;
  - `cli`, `path`, `assets`, `serve`, `watch`: the decisions of the
    command-line tool — its arguments, where images go in the output, what
    the local preview answers, and when a watched document is rebuilt.
- `tests/` — tests of the library from outside.
- `app/` — the command-line tool: files, network and the terminal.
