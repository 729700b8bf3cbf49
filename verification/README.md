# rp_universe_ai

The Ollama provider of a role-play chat application, and the eSpeak NG
resolution of its Kokoro voice, as a Verus-verified library.

- `src/` holds the verified library: every public function states what it
  returns over mathematical views (`Seq<char>`, `Map`, the `JsonView` of a
  JSON value), and the laws of the provider stand as public proof functions.
  - `text`: trimming, prefixes and suffixes, ASCII case, decimal digits.
  - `keyed_map`: an insertion-ordered string map whose view is a `Map`.
  - `json`: JSON values and their views; parsing and printing go through
    `serde_json`.
  - `images`: data URLs, remote images and their base64 text.
  - `request`: the chat body in the shape of Ollama's `/api/chat`.
  - `response`: tool-call ids, model lists and chat replies.
  - `provider`: credentials, headers, timeouts and base URLs.
  - `stream`: Ollama's newline-delimited streaming replies.
  - `chat`: the plan of a chat request before it is sent.
  - `espeak`: where Kokoro finds eSpeak NG.
- `tests/` runs the library on concrete values.
- `app/` holds what talks to the network and the machine: the HTTP client,
  the streaming loop, image downloads and the check for `espeak-ng` on the
  PATH. It hands the library plain values and acts on what it decides.
