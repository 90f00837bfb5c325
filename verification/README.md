# foundation_ai

The conversation logic of the Foundation AI chat, written in Verus and
proved against its contracts.

- `src/` is the verified library: the streaming readers of the model
  providers' replies, the filters for locally run models, the repair of
  tool-call pairs, the decisions of the agent loop, the chat view, the
  conversation list, the settings an agent runs with, the maintenance
  decisions (portable file paths, pending ontology locks, orphan
  instances), and the laws that tie them together (public proof functions
  whose names start with `law_`), among them that the stream filters never
  show tool-call markup.
- `tests/` runs the library on concrete values.
- `app/` is a small command-line front end: it sends one message through the
  agent loop over HTTP and can show the conversation as the chat view lists it.

Calls into `serde_json`, `chrono` and `base64` stand behind small trusted
items whose contracts are stated in their doc comments.
