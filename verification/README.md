# Valkyr

A cache broker with namespaces, providers, durable stores, leases and encrypted values,
its line protocol, a client, and two adapters: one for SQL databases, one for OpenBao.

`src/` holds the decisions, each function with a contract that Verus proves. It makes no
network or file access: where one is needed, a function returns a step that says what to
read or write, and another function takes the answer.

| Modules | What they decide |
|---|---|
| `route`, `pattern`, `duration`, `error` | names, patterns, times |
| `text`, `json`, `words`, `wire`, `line_protocol`, `line_callback`, `lines`, `protocol` | frames of the protocol, both ways |
| `crypto`, `security`, `tls` | encryption, sessions and permissions, certificates |
| `registry`, `routes`, `outcome`, `broker`, `broker_laws` | the broker, and what holds of it in every state |
| `memory`, `miss_cache`, `store`, `router` | stores and what is kept of missing values |
| `client`, `capi` | client sessions, and the arguments of the C interface |
| `db` | the database adapter: configuration, statements, callbacks, rows, publishing |
| `openbao` | the OpenBao adapter: configuration, paths, documents, callbacks, synchronisation |
| `table`, `order`, `checks` | a map with text keys, sorting, lists of checks |

Calls into other crates stand behind small wrappers in `text`, `json`, `words`, `crypto`,
`tls`, `db::config` and `openbao::client`; the comment above each says what is taken from
the other crate without proof.

`app/` is the program around the library: connections, HTTP, SQL, files, timers, and the
caches with an expiry. Started under a name with `openbao` in it, it is the OpenBao
adapter, otherwise the database adapter; `--config` names the configuration file.
