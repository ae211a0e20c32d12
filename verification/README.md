# rawrr

Watches running Docker containers for new images. An image that has been offered
for long enough is announced, or announced and applied, as a label of the
container says.

The library under `src/` is verified with Verus. It holds everything that is
decided and computed; `app/` is the program around it, which reads the
environment, sleeps between polls, and talks to registries, to Docker and to
notification servers.

## Layout

| Module | Contents |
|---|---|
| `config` | settings from environment variables, registry credentials |
| `docker` | containers, image references, requests for digests |
| `digest` | short forms of digests |
| `policy` | the policy that a label denotes, the report of a dry run |
| `state` | what is remembered of each service, when an upgrade is due |
| `saved` | the state as it is written down between runs |
| `rate_limiter`, `poll` | when a poll takes place |
| `cycle`, `cycle_laws` | one poll cycle as a state machine, and what holds of it |
| `history` | what holds of whole polls, and from one poll to the next |
| `plan`, `plan_laws` | the steps of a rollout, and what holds of them |
| `upgrade`, `order` | dependencies between services, and sorting by them |
| `notifier` | the messages that announce updates |
| `time` | points in time and spans of time |
| `text`, `number`, `name_map` | text, decimal numbers, maps from names |

Proof functions whose names begin with `law_` state properties of the library as
a whole; those that begin with `lemma_` help to prove them.

What is believed without proof is the clock (`time::utc_now`) and
`str::to_lowercase` (in `policy`).

## Settings

| Variable | Default | |
|---|---|---|
| `RAWRR_STARTUP_DELAY_SECS` | `30` | seconds before the first poll |
| `RAWRR_POLL_INTERVAL_SECS` | `3600` | seconds between polls |
| `RAWRR_RELEASE_DELAY_HOURS` | `6` | hours that an image must be known before it is upgraded to |
| `RAWRR_STATE_FILE` | `/var/lib/rawrr/state.json` | where the state is kept |
| `DOCKER_HOST` | `unix:///var/run/docker.sock` | Docker daemon |
| `RAWRR_LABEL_POLICY` | `rawrr.policy` | label that holds the policy: `ignore`, `notify` or `update` |
| `RAWRR_LABEL_IGNORE` | `rawrr.ignore` | label that has a container left alone |
| `RAWRR_LABEL_NOTIFY` | `rawrr.notify` | label that has updates announced |
| `RAWRR_LABEL_UPDATE` | `rawrr.update` | label that has updates announced and applied |
| `RAWRR_RATE_LIMIT_MAX_POLLS` | `100` | registry queries allowed in a window |
| `RAWRR_RATE_LIMIT_WINDOW_SECS` | `3600` | length of the window in seconds |
| `RAWRR_RATE_LIMIT_CHECK_INTERVAL_SECS` | `60` | seconds between checks of the rate limit |
| `RAWRR_REGISTRY_CREDENTIALS` | | `registry=user:password`, separated by commas |
| `RAWRR_NOTIFIER` | | `gotify` or `ntfy` |
| `RAWRR_GOTIFY_URL`, `RAWRR_GOTIFY_TOKEN` | | Gotify server |
| `RAWRR_NTFY_URL`, `RAWRR_NTFY_TOPIC` | `https://ntfy.sh` | ntfy server and topic |
| `RAWRR_DRY_RUN` | | `true`, `1` or `yes`: only report on the containers, then stop |

## Policies

A container with the label `rawrr.ignore=true` is left alone, updates of one with
`rawrr.notify=true` are announced, and those of one with `rawrr.update=true` are
announced and applied. If several of these labels are set, the most cautious
counts. The label `rawrr.policy` names a policy and counts before all of them. A
container without any of these labels is skipped.

Each question to a registry counts against the rate limit. If the limit is
reached when a poll is due, the poll is skipped. A poll that has begun asks about
all of its containers, so a window can hold as many questions beyond the limit as
the last poll in it had containers to ask about, less one.

An image that was announced or applied is not taken up again: the next upgrade of
the service is due when a new digest has been known for the release delay.
