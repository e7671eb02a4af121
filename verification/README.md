# ForgePulse server

A self-hosted GitHub traffic-history service. The decisions and computations
of the service live in a library verified with Verus (`src/`); the HTTP
server, the SQLite store and the GitHub client around it are ordinary Rust
(`app/`).

## Library modules

| Module | Contents |
| --- | --- |
| `stats` | exact descriptive statistics of a daily series: count, sum, medians, extremes, nearest-rank P95 |
| `chart` | zero-filling of daily series over at most 120 days, the clone chart, per-repository series |
| `ranking` | competition ranks (`1, 2, 2, 4`), rank lookup and day-over-day rank trends |
| `dashboard` | sort order, paging and headline totals of the dashboard |
| `collect` | collection filter, repository records, retry policy, `actions/checkout` estimate |
| `insights` | search pattern, star/fork growth, diagnoses, demonstration data |
| `schedule` | the sync interval setting (`2h`, `15m`) |
| `dates` | calendar days as chrono day numbers |
| `text` | character-level string operations |

Floating-point measures (means, variances, attention scores, clone shares)
are computed in `app/` from the library's exact integer results.

The SQLite schema is created by the server at start-up.
