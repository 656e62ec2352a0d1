# starstream-run

A runtime for Starstream contracts: WebAssembly components whose exported `utxo` resources
are minted with a constructor or from a `storage` record, driven through their ABI methods,
and read back as a `storage` record.

`src/` is the library, verified with Verus.

| modules | what they hold |
| --- | --- |
| `types`, `value`, `val` | interface types and values, as plain trees |
| `reflect` | the engine's types, read into those of the library |
| `linker`, `running` | the engine's linker, and an instance in the store that it lives in |
| `link`, `contract`, `discovery`, `utxo` | loading and linking a contract, finding its `utxo` resources, minting and driving them |
| `builtin`, `cardano`, `host` | what a contract imports from its host, and host data |
| `wire`, `codec`, `decode`, `roundtrip` | values on the wire, and the laws of the encoding |
| `serve`, `http`, `wit`, `wave` | the methods that are served, the text of their interface, arguments as text |
| `json`, `session` | values as JSON, handles, and the requests of a page |
| `cause`, `error`, `messages`, `text`, `log`, `platform` | errors and their wording, text, log lines, the platform of a page |

`app/` is the program around it: the command line, the server, and what a page imports when
the program is compiled to WebAssembly. `tests/` runs the library with a real engine.

```
starstream-run new contract.wasm [PARAM]...
starstream-run load contract.wasm --<field> <WAVE value>...
starstream-run --serve 127.0.0.1:8080 new contract.wasm
```
