# pdo_daemon

The decision logic of the pipeline daemon, written in Verus and proved
against its contracts: what the daemon decides, computes and parses, with
the I/O around it (tmux, git, the environment, files) kept in `app/`.

## Layout

- `src/` — the verified library.
  - `text`, `json`, `shell`, `clock` — string, JSON-value, shell-quoting and
    time primitives the rest builds on.
  - `session`, `sweep`, `settings`, `workdir`, `script`, `search_path` — tmux
    session names and their parsing, the orphan sweep's verdicts, settings
    resolution, node working directories, the launch and resume scripts, and
    the union of `PATH` lists.
  - `transition_guard` — which lifecycle events a Run may append.
  - `diff` — the unified-diff parser behind the structured diff view.
  - `steering`, `transcript_labels`, `model_identity`, `infra_session`,
    `performance_walk` — what the Performance view reads from transcripts
    and event logs: steering counts, subagent groups, the model × effort
    identity an observation goes to, the session of an infrastructure role,
    and the walk that pairs node starts with their completions.
  - `stats`, `session_tally`, `absorption`, `absorption_store`,
    `absorption_requests`, `absorption_tallies`, `absorption_order`,
    `cost_project` — the Stats folds, the absorptions that combine rows of the
    Stats views (and why their read neither chains nor depends on row order),
    and the project a Run's cost lands under.
  - `switch_router`, `trigger_scheduler`, `trigger_edit` — switch routing,
    the Trigger scheduler's per-tick decisions, and the statements that
    edit a Trigger or roll a fire up onto it.
- `tests/` — tests run against the compiled library.
- `app/` — the unverified edge: tmux and git invocation, environment reads,
  the clock and UUID behind new Trigger ids, and the conversion of
  `serde_json` values.

Each public function states what it returns in `ensures`; the laws the
library keeps across calls stand as public proof functions named `law_*`.
