# pyproject-udeps

Finds the dependencies declared in `pyproject.toml` that no Python import of
the project uses. It reads every place a dependency can be declared
(`[tool.poetry.dependencies]`, PEP 621 `[project]` dependencies and extras,
poetry groups, PEP 735 `[dependency-groups]`, legacy `[tool.uv]`
dev-dependencies), matches the imports of the project's Python files (and,
with `--virtualenv`, of its virtualenv) against them through an embedded name
map and naming conventions, and prints the declared packages nothing imports.

## Layout

- `src/` is the library, written in Verus. Verus proves the contract of
  every function there except five trusted items, which it takes on trust:
  `toml_doc::parse_toml` (the `toml` crate's parser), `toml_doc::toml_parse`
  (the name for that parser's result), `toml_doc::from_toml` (converts the
  crate's values), the declaration of `toml::Value`, and `text::push_char`
  (`String::push`). The modules:
  - `text`, `names`: characters, lines, lexicographic order, sorted name sets;
  - `toml_doc`, `pyproject`: TOML documents (parsed by the `toml` crate) and
    the manifest's main and dev dependency sets;
  - `name_map`, `matching`: how an import uses a package;
  - `imports`: what each import construct of a Python syntax tree imports;
  - `ignorefile`: the packages never to report;
  - `infra`: paths, an in-memory file tree, environment variables, canned
    command responses, and write tracking;
  - `venv`: virtualenv discovery;
  - `app`: one analysis run over an in-memory world, and the report.
- `app/` is the command-line program: argument parsing, the real filesystem,
  environment and processes, directory walks, and Python parsing with ruff's
  parser; every decision it makes is a call into the library.
- `tests/` exercises the library.
