# shrink

A gateway between one MCP client and its tool servers. It merges the tool
listings of several servers into one, shows the client compacted definitions,
checks the arguments of each tool call against the schema that the server
published, and sends the call to the server that owns the tool.

| Tier       | What the client sees of a tool                                  |
|------------|-----------------------------------------------------------------|
| `none`     | its definition as it is                                         |
| `balanced` | a schema without metadata, with short descriptions              |
| `safe`     | a schema without metadata and descriptions                      |
| `high`     | a signature such as `(p:{jql:string,max_results?:number})`      |

`src/` is the library, written in Verus: every function is verified against its
contract. `app/` is the program around it: arguments, processes, streams and the
HTTP transport. `tests/` runs the library on concrete values.

The contracts speak of mathematical readings of the values: a `Json` is a
`JsonView`, a `Router` is a `RouterView`. `model.rs` says what the router does
with every frame as a transition system, `router.rs` carries it out, and
`laws/` states what follows for the gateway as a whole: that a compacted schema
accepts the same arguments, that a request is answered under the client's own
id, that a fan-out is answered once, that a refused call reaches no server.

What serde_json, dashmap and the clock do is not proved: the functions marked
`external_body` state what they are relied on for.
