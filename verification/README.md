# ratchjob

The verified core of a distributed job scheduling service compatible with the
xxl-job protocol: the bookkeeping of applications, their executor instances and
the time-outs that retire silent ones; jobs, their configuration rules and task
logs; namespaces; the storage format snapshots are written in; and the request
rules of the web console. The library's logic is proved by Verus against its
contracts. The calls it makes into std and outside crates (the clock, UTF-8
decoding, upper-casing, `{:?}` printing, cron parsing, the time-out set) go
through small trusted wrappers whose contracts are believed, not proved; the
functions that read the clock state only what holds of every reading; how a
reading is narrowed or printed is stated exactly.

Layout:

- `src/` — the library. `app_*`, `job_*` and `namespace` hold the managers and
  their models; `wire` and `data_object` the length-prefixed message format
  records are stored in, with its round-trip laws; `snapshot` the records a
  snapshot is made of; `login_middle` which console requests need a login and
  what is answered otherwise; `login_api` the captcha check and the session a
  login opens; `namespace_api` the checks on namespace requests and the answers to the
  cluster's replies; `console_api` those around application and job requests; `app_config`
  the configuration read from the environment.
- `tests/` — tests run against the compiled library.
- `app/` — the command-line program: reads the environment and arguments and
  hands them to the library.
