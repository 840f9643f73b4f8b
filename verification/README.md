# chatbot

A chat server that relays each client's questions to an assistant service,
keeping one conversation history per room and per client, and a console
client for it.

- `src/` is the verified library:
  - `keyed` — a map from string keys to values that remembers insertion order;
  - `content` — messages and their roles;
  - `cache` — the per-client rooms and the registry of clients, with the
    history limit and its laws;
  - `text` — character-level string operations (trimming, searching,
    splitting, reading integers);
  - `command` — the command language (`/new`, `/rooms`, `/room_content`,
    `/image`);
  - `message` — reading a message off the wire and framing the answers;
  - `session` — one turn of a conversation, from the received line to the
    answer;
  - `reply` — shaping what the assistant service returns;
  - `console` — what the console client sends and prints.
- `app/` runs the server (`PORT`, `OPENAI_API_KEY`) and, with
  `client <ip> <port>`, the console client; it does the network and HTTP work.
- `tests/` exercises the library.
