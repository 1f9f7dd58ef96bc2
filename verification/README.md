# kube-forward

A persistent, self-healing `kubectl port-forward` manager: many forwards from one
YAML file, each supervised and reconnected with exponential backoff, with
cluster-free validation of the file and an interactive `add` command.

## Layout

- `src/` — the verified library (Verus). Every function carries a contract and
  is proved against it.
  - `config`, `time` — the configuration model and its defaults; spans of time.
  - `validate` — validation of a set of forwards, with the law that a set is
    valid exactly when each forward is valid, names are unique and no local
    port is claimed twice per protocol.
  - `util`, `text`, `error` — target parsing, string helpers, the error type.
  - `backoff` — exponential backoff with jitter, and its bounds.
  - `add` — the pure steps of the interactive `add` command.
  - `ui` — the rendered banner, table, summary and validation report.
  - `forward`, `supervisor`, `transfer`, `metrics` — pod selection and the
    decision machines of the forward supervisor, the health monitor and the
    byte-copy loop; metric updates.
- `app/` — the program around the library: command line, file and network I/O,
  the Kubernetes client, tasks and timers, serde and metrics export.
- `tests/` — tests of the library on concrete values.
