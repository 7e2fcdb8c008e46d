# ipc_poc_backend

A local image server. Clients ask for an image by path; the server reads the
file and answers with its bytes.

- `src/` is the library, verified with Verus:
  - `wire` — protobuf wire primitives (varints, keys, field encoders and
    decoders) as prost implements them, with their byte-level meaning.
  - `schema` — the `ImageRequest` and `ImageResponse` messages. Their field
    numbers, the type of `request_id` and the numbers of the enumerations
    are this project's choice and are fixed there.
  - `codec` — encoding and decoding of the messages, bare and
    length-delimited, with the round-trip and framing laws.
  - `connection` — what a pipe connection does with the bytes it reads.
  - `service` — the image service: path trimming and response building.
  - `json`, `commands` — the JSON command protocol of the photo manager.
  - `server` — the decisions of the accept loops and their time limits.
- `app/` is the program around it: the tokio pipe server, the photo
  manager's accept loops, the gRPC handler and the line-protocol handlers.
- `tests/` exercise the library against prost and serde_json.
