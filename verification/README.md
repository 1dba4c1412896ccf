# Potemkin

Potemkin sits between an editor and a real language server, and feeds the server's responses
through a pipeline of plugins that rewrite deep generic types into a readable form. It can also
run several sessions of one language server for different parts of a project, each with the
settings of its own `potemkin.toml`.

The library under `src/` is written in Verus: every function states in its contract what it
returns or changes, and the contracts are proved. It holds no I/O. The program under `app/`
starts the processes, moves the bytes and reads the environment and the files, and asks the
library what they mean.

| module | what it holds |
| --- | --- |
| `text`, `number`, `paths` | texts, decimal numbers and paths, as sequences |
| `json` | JSON values, and the bridge to `serde_json` |
| `lsp` | `Content-Length` framing |
| `protocol`, `plugin_api` | the plugin protocol, and what a plugin is |
| `plugin`, `subprocess` | plugins over a transport, and one plugin process call by call |
| `tracking`, `raw`, `pipeline` | which responses are rewritten, and how |
| `config_layer`, `scope` | `potemkin.toml` discovery and merging, and which scope owns a document |
| `mux`, `mux_model` | the multiplexer, and what each message does to it |
| `mux_laws`, `mux_settings`, `mux_runs` | what always holds of it: its ids, the settings of its backends, and whole sessions |
| `order`, `startup` | the order of the plugins, and what the settings mean |
| `mock_lsp` | a mock language server for the tests |

What is taken on trust is marked `#[verifier::external_body]` or `assume_specification`: the
calls into `serde_json` and `toml` (in `json` and `config_layer`), and three string functions of
the standard library (in `text`, `lsp` and `config_layer`).
