# relay

The backend of a service in which people and agents talk to each other: agents
with a memory of their own, tools that come from MCP servers, and an HTTP API.

- `src/` is the library, written in Verus. Each function states in its contract
  what it returns and changes, and Verus proves it. `memory` holds the journaled
  memory tables, the prompt that is composed from them and the work that tends
  them; `mcp` the registry of servers, their tools and credentials, and the OAuth
  flow; `http` what the routes decide. Laws that relate several functions are
  public proof functions whose names start with `law_`.
- `tests/` runs the library on concrete values.
- `app/` is the program around it: the database, the network, the clock.

What an outside crate computes for the library stands behind a small function
marked `external_body`, whose doc comment names the outside function and says
what is claimed of it.
