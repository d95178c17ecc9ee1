# chime

Discord reminders on a schedule, and incident updates of Atlassian Statuspage
instances, posted to Discord webhooks.

`src/` is a library verified with Verus. It makes every decision and does no I/O:

| Module | What it is |
|---|---|
| `text` | trimming, ASCII case, joining; views of optional and listed values |
| `clock` | instants, time zones, the local clock and calendar |
| `names` | a map keyed by name |
| `links` | `https` URLs |
| `schedule` | times of day, weekdays, days of the month |
| `values` | names, webhook references, intervals, log levels, severities |
| `config` | the configuration and the rules it has to keep |
| `heartbeat` | whether the scheduler is alive |
| `runtime` | the configuration with secrets filled in |
| `notifier` | Discord payloads within Discord's limits |
| `status` | incidents, what is new of them, and how it is told |
| `scheduler` | the state machine of a tick |
| `rotation` | how status pages take turns |
| `cli` | the command line |

`app/` is the program around it: it reads files, the environment and the clock, sends
and fetches over HTTP, and runs the loop that hands each result to
`Scheduler::step`.

`tests/` runs the library.

Each contract speaks of views: a `String` is a `Seq<char>`, an instant a pair of
seconds and nanoseconds, a set of days a `Set`. The proof functions named `law_..`
state what holds across functions.
