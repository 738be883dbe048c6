# CloudOne

A web file manager: browsing, uploading, moving and packing files, public files, share links,
WebDAV, a terminal in the browser, and sessions for one installation.

`src/` is a verified library. It holds the rules of the server: where a request path lies on disk,
who may do what, which statements go to the database, what is listed, served, packed and unpacked,
and what requests are answered with. Its functions state in `requires` and `ensures` what
they do, and the `law_` functions state what holds across them.

`app/` is the server around it: arguments, HTTP, JSON bodies, SQLite, the file system, the network
and the pseudo-terminal, and the order in which these are used.

| Module | What it holds |
| --- | --- |
| `text` | splitting, joining, trimming and searching text |
| `paths` | Unix paths: components, joining, parents, the normal form of a request |
| `storage` | where a request lies below the storage root |
| `time` | clocks, timestamps, the calendar, dates of HTTP |
| `crypto` | random secrets, digests, password hashes, encryption of stored secrets |
| `net` | private addresses, the client behind a proxy |
| `limiter` | a sliding-window rate limiter |
| `json` | string literals and fields of JSON objects |
| `claims` | what a session token carries |
| `auth` | sessions, accounts |
| `files`, `listing`, `visibility` | requests on files, listings and searches, public files |
| `archive` | packing and unpacking |
| `fetch` | fetching files from the network |
| `share` | share links |
| `serve` | types and headers of files |
| `webdav` | the WebDAV interface |
| `terminal` | messages of the terminal |
| `settings`, `config`, `start`, `routes` | settings, configuration, start-up, endpoints |
| `sql`, `reply`, `types` | statements, answers, records and requests |

## Environment

| Variable | Meaning | Default |
| --- | --- | --- |
| `CLOUDONE_JWT_SECRET` | the secret that sessions are signed with | a new one at every start, which ends all sessions |
| `CLOUDONE_MASTER_KEY` | the secret that stored secrets are encrypted with | kept in `master.key` in the data directory |

The server listens on port 6677; `conf.ini` in the data directory changes host and port.
