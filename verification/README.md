# docker_maid

Policy-driven cleanup of Docker containers, images, volumes, networks and build
cache. A configuration says which resources a rule owns and how long they may
stay unused; everything else is kept.

The library under `src/` is written in Verus: each function carries a contract
that is proved of its body, and the properties that hold of the library as a
whole are proof functions beside the code that they speak of.

| Part | Modules |
| --- | --- |
| Text, order and maps | `text`, `order`, `unique`, `text_map`, `table`, `naming` |
| Configuration | `config`, `duration`, `managed` |
| Inventory and state | `resource`, `inventory`, `state`, `observation` |
| Decisions | `policy`, `cache`, `plan`, `guarantees`, `validity`, `listing` |
| Applying a plan | `executor`, `activity`, `journal`, `wakeup`, `command`, `machine` |
| Ownership labels | `labels`, `stamp`, `spawn`, `agent_skill` |
| Adopting resources | `candidate`, `survey`, `evidence`, `profile`, `generate`, `preview`, `proposal`, `adoption`, `configurator` |
| Dashboard | `keys`, `help`, `present`, `lines`, `panels`, `setup`, `session`, `events`, `effects` |
| Outside functions | `outside` |

`src/outside.rs` holds what is believed and not proved: calls into `regex`,
`globset`, `humantime`, `toml_edit` and the standard library, each with the
contract that the proofs rest on. One more stands in `src/text.rs`, for
`String::push`.

`app/` is the command itself: arguments, files, locks, Docker, signals and the
terminal. It hands the library plain values and does what the library answers.

`tests/` runs the library on concrete values.
