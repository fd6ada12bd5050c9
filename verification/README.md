# memory_agent

A chat agent for the console that keeps long-term memories in a service. The
model can search, correct and add memories through tools, and before each answer
the agent brings in memories that fit the last message.

`src/` is a Verus library with everything that the agent decides. `app/` is the
program around it: it sends requests, reads replies and talks to the user and to
the model.

| module | what it decides |
| --- | --- |
| `search`, `feedback`, `remember` | the three tools: what is sent, how a reply is taken, what the model is told |
| `exchange` | the phases that an exchange with the service goes through |
| `node` | the node of the graph that looks for memories before the model is called |
| `inject` | which of the memories found are new to the conversation |
| `block` | the message that carries memories, and how it is read back |
| `window` | how far back a memory counts as known |
| `date`, `status` | how times and statuses are shown |
| `config`, `console` | settings and what is typed |
| `memory`, `json`, `text`, `text_set` | the values that all of this works on |

The environment variables are `OPENAI_API_KEY`, `OPENAI_API_BASE`,
`OPENAI_MODEL`, `MEMOS_BASE_URL`, `USER_ID` and `DEDUP_WINDOW_TURNS` (user turns in
which a memory is not brought in again; `0` stands for the whole conversation, and
ten are taken where it is missing or no number).

An entry of a context message is recognised by its lines, so three kinds of memory
are not recognised and may be brought in again within the window: one with a line
below its first that begins with `- `, one with such a line that is
`</search-context>`, and one with a line that ends in a carriage return and a line
feed. A memory behind one of the second kind in the same message is not recognised
either.
