# eaicoding_mcp

An MCP server that gives coding agents tools for EasyLanguage (易语言)
projects: parsing `.e` files into text sources and back, compiling, project
analysis, patching source files, reading and writing text files in the
encodings EasyLanguage uses, probing an installation, and searching the
精易 module knowledge base.

## Layout

- `src/` is the library, written in Verus. Every function there carries a
  contract, and the properties that span several functions are stated and
  proved as public proof functions whose names begin with `law_`.
  - `text`, `encoding`: character-level helpers, line endings, GBK and
    UTF-16 decoding of tool output.
  - `patch`: search/replace blocks and their application to a file's text.
  - `local_files`: what is written to and read back from text files.
  - `ecode_parser`: source-file summaries, declaration prechecks, the
    arguments and outcomes of the `e2txt` and `ecl` tools.
  - `analyze`: project analysis findings, metrics and duplicate detection.
  - `easy_language_sdk`: the report of an installation from a probe.
  - `jingyi_search`, `jingyi_rank`: tokens, families, routes and the choice
    of matches for the knowledge search.
  - `http`, `mcp`: request parsing, uploads, and the MCP tool catalogue and
    dispatch decisions.
- `tests/` runs the library on concrete inputs.
- `app/` is the server itself: sockets, files, processes and the parts of
  the knowledge search that score with floating point.
