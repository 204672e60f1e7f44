# tool_execution

Decides how the tool calls of an agent turn are run, with Verus proofs of what
it decides.

- `policy`, `schedule`, `schedule_laws`: which calls of a batch run side by side
  and which share one sequential lane, how many of those the lane takes, and what
  the others are told.
- `approval`, `approval_laws`, `responses`: asking the user, request by request,
  as a state machine that a host drives.
- `frontend`: handing calls to the frontend, as another such machine.
- `stream`: what a running call reports.
- `context`, `conversation`, `text`: the types and texts of the above.
- `external`, `external_types`: what is taken on trust from outside crates.

`app/` runs all of it on asynchronous streams. `tests/` holds the tests.
