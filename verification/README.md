# leptos_ntex_unofficial

The verified core of an adapter that serves [Leptos](https://leptos.dev) applications
on [ntex](https://ntex.rs), and the adapter around it.

`src/` holds what the adapter decides and computes. Every function states its contract,
and Verus proves it.

| Module | What it decides |
|---|---|
| `config` | limits on request bodies, and how a body is collected under them |
| `extract` | application state and extractor outcomes |
| `files` | which file answers a request, in which encoding, under which conditions and ranges |
| `fs_boundary` | paths below the site root, and which files may be locks |
| `http`, `text` | header fields, status codes and texts |
| `owner` | when reactive state is cleaned up, and which owner is current afterwards |
| `render` | URLs, page streams and preload links |
| `request` | handles on native requests and the scopes that own them |
| `response` | overrides of a response and how they join it, redirects |
| `routes` | route patterns, route lists and the plan by which they are mounted |
| `server_fn` | the registry, dispatch, redirects of forms, bodies, and the WebSocket: handshake, frames and connection pump |
| `static_routes` | names, storage, generation and serving of generated pages |

`app/` runs these decisions: it holds the ntex services, the reactive scopes and the
file system operations. `ntex-httparse` is named among the dependencies only to hold the
parser below ntex at a version that builds with the compiler of this project.
`tests/` holds examples of every decision.
