# zombie_jobs

Collects the zombienet jobs of a GitLab project, finds out from the logs of the failed ones why
they failed and which zombienet they ran, and keeps them in a CSV file or in an SQLite database.

`src/` decides and is verified with Verus. It does no I/O: a `Run` says what is to be done next
and takes what came of it, and a `Store` says which rows are to be inserted or written. `app/`
does the I/O.

- `text`: equality, order and search on strings; decimal numbers
- `cause`, `job`: jobs and the causes of their failures
- `analysis`: what a log tells about a failed job
- `select`: which jobs of a page are new
- `request`, `config`: what is asked of the server, and the settings of a run
- `store`, `db`: the CSV file and the table of jobs
- `run`: one run, step by step
- `history`: what holds of whole runs

Settings are read from the environment: `ZOMBIE_JOBS_FILE`, `ZOMBIE_JOBS_BASE_URL`,
`ZOMBIE_JOBS_MAX_PAGES`, `ZOMBIE_JOBS_TOKEN`, `ZOMBIE_JOBS_BASE_DATE` and `ZOMBIE_JOBS_END_DATE`.
