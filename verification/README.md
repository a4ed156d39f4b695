# rds_proxy

A local proxy to RDS databases. A client connects to the proxy without TLS and without an AWS
token; the proxy connects to the database with TLS and logs in with an IAM token. PostgreSQL and
MySQL are understood.

## Layout

`src/` is the verified library. It holds every decision and every byte of the protocols, and does
no input or output of its own. Each conversation is a function from a state and an event to the
next state and an action; the caller performs the action and reports the next event.

| module | what it is about |
| --- | --- |
| `wire` | numbers and strings on the wire |
| `text` | decimal numbers, and bytes as text |
| `buffer` | the buffers of `bytes` |
| `backend_config` | where the database is, and as whom to log in |
| `rds_token` | the token that stands in for a password |
| `tls` | asking for TLS, and whom to trust |
| `mysql_packet`, `mysql_handshake` | MySQL packets |
| `mysql_login` | logging in to a MySQL server |
| `mysql_client` | serving a MySQL client |
| `postgres_wire`, `scram` | PostgreSQL messages, and SCRAM-SHA-256 |
| `postgres_login` | logging in to a PostgreSQL server |
| `postgres_client` | serving a PostgreSQL client |

Functions named `law_..` state what holds of the library as a whole: what is written reads back,
a refused client is told why, a MySQL server learns nothing of the token before TLS is on.

What the library takes from other crates stands behind functions whose contracts are trusted, not
proved: in `buffer`, `text`, `postgres_wire`, `scram`, `tls` and `rds_token`. Each says which
function of which crate it calls.

`app/` is the program: sockets, files, AWS credentials, the command line and logging.

The RDS global CA bundle is read from `certs/global-bundle.pem`.

## Configuration

The configuration file gives `endpoint` (`hostname` and `port`) and `region`, and may give
`db_type` (`postgres` or `mysql`), `proxy_endpoint`, `ca_bundle`, `danger_accept_invalid_certs` and
`local_password`.
