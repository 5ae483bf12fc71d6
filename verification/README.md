# task_server

A task manager's server core, verified with Verus. Users keep tasks; a task
can be a sub task of one main task and can be blocked by other tasks. The
library decides every request: it checks the rules on links (no cycles
through sub-task and blocking links, at most one main task, no linking to a
task that blocks the main task, only one's own tasks), refuses a task's
completion while a task blocking it or one of its main tasks is still to do,
carries a status change down to the sub tasks that follow it and brings the
main tasks up to date (a main task is done exactly when all its sub tasks
are).

Layout:

- `src/` — the verified library.
  - `store.rs`: the stored state (task records, sub-task and blocking
    links), its mathematical view and its well-formedness rules.
  - `graph.rs`, `ids.rs`: walks over links, closures, sorted identifiers.
  - `task/`, `sub_task/`, `block_task/`: table operations (`db.rs`),
    use cases and the request handlers (`routes/`), each with an exact
    contract over the store's view.
  - `auth/`: the decisions of the sign-in and sign-up flow.
  - `integrity.rs`: checks a store read from the tables against the rules.
  - `changes.rs`: the rows to delete, insert and update after a change.
  - `laws.rs`: properties that span operations (what each keeps, what one
    undoes, how status propagates), proved.
- `tests/` — tests of the library on concrete stores.
- `app/` — the HTTP server (axum), sessions, Google sign-in and the SQLite
  tables around the library.
